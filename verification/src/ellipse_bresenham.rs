//! Bresenham ellipse interpolator: pixel steps along the first quadrant of
//! an axis-aligned ellipse.
use vstd::prelude::*;

verus! {

/// `ry2 * x^2 + rx2 * y^2 - rx2 * ry2`: zero on the ellipse with squared
/// radii `rx2`, `ry2`, negative inside, positive outside.
pub open spec fn residual(rx2: int, ry2: int, x: int, y: int) -> int {
    ry2 * (x * x) + rx2 * (y * y) - rx2 * ry2
}

pub open spec fn abs_int(a: int) -> int {
    if a < 0 {
        -a
    } else {
        a
    }
}

/// Steps through the pixels of an ellipse quadrant, starting at `(0, -ry)`
/// and moving right (`dx`), down (`dy`) or both, whichever lands closest to
/// the ellipse.
pub struct EllipseBresenhamInterpolator {
    rx2: i32,
    ry2: i32,
    two_rx2: i32,
    two_ry2: i32,
    dx: i32,
    dy: i32,
    inc_x: i32,
    inc_y: i32,
    cur_f: i32,
}

impl EllipseBresenhamInterpolator {
    pub closed spec fn rx2_spec(&self) -> i32 {
        self.rx2
    }

    pub closed spec fn ry2_spec(&self) -> i32 {
        self.ry2
    }

    pub closed spec fn two_rx2_spec(&self) -> i32 {
        self.two_rx2
    }

    pub closed spec fn two_ry2_spec(&self) -> i32 {
        self.two_ry2
    }

    pub closed spec fn dx_spec(&self) -> i32 {
        self.dx
    }

    pub closed spec fn dy_spec(&self) -> i32 {
        self.dy
    }

    pub closed spec fn inc_x_spec(&self) -> i32 {
        self.inc_x
    }

    pub closed spec fn inc_y_spec(&self) -> i32 {
        self.inc_y
    }

    pub closed spec fn cur_f_spec(&self) -> i32 {
        self.cur_f
    }

    /// Whether the interpolator stands at the point `(x, y)` of the ellipse
    /// grid: its increments are those of `(x, y)` and its error term is the
    /// residual there.
    pub open spec fn at_point(&self, x: int, y: int) -> bool {
        &&& self.two_rx2_spec() == 2 * self.rx2_spec()
        &&& self.two_ry2_spec() == 2 * self.ry2_spec()
        &&& self.inc_x_spec() == x * self.two_ry2_spec()
        &&& self.inc_y_spec() == y * self.two_rx2_spec()
        &&& self.cur_f_spec() == residual(self.rx2_spec() as int, self.ry2_spec() as int, x, y)
    }

    /// The three candidate error terms: step in x, in y, in both.
    pub open spec fn fx(&self) -> int {
        self.cur_f_spec() + self.inc_x_spec() + self.ry2_spec()
    }

    pub open spec fn fy(&self) -> int {
        self.cur_f_spec() + self.inc_y_spec() + self.rx2_spec()
    }

    pub open spec fn fxy(&self) -> int {
        self.cur_f_spec() + self.inc_x_spec() + self.ry2_spec() + self.inc_y_spec()
            + self.rx2_spec()
    }

    /// Whether `next` stays within `i32`.
    pub open spec fn next_ok(&self) -> bool {
        &&& i32::MIN < self.cur_f_spec() + self.inc_x_spec() <= i32::MAX
        &&& i32::MIN < self.fx() <= i32::MAX
        &&& i32::MIN < self.cur_f_spec() + self.inc_y_spec() <= i32::MAX
        &&& i32::MIN < self.fy() <= i32::MAX
        &&& i32::MIN < self.fx() + self.inc_y_spec() <= i32::MAX
        &&& i32::MIN < self.fxy() <= i32::MAX
        &&& i32::MIN <= self.inc_x_spec() + self.two_ry2_spec() <= i32::MAX
        &&& i32::MIN <= self.inc_y_spec() + self.two_rx2_spec() <= i32::MAX
    }

    /// Starts at `(0, -ry)` of the ellipse with radii `rx`, `ry`.
    pub fn new(rx: i32, ry: i32) -> (e: Self)
        requires
            2 * rx * rx <= i32::MAX,
            2 * ry * ry <= i32::MAX,
            i32::MIN <= -ry * (2 * rx * rx) <= i32::MAX,
        ensures
            e.rx2_spec() == rx * rx && e.ry2_spec() == ry * ry,
            e.dx_spec() == 0 && e.dy_spec() == 0,
            e.at_point(0, -ry),
    {
        assert(0 <= rx * rx && 2 * (rx * rx) <= i32::MAX) by (nonlinear_arith)
            requires
                2 * rx * rx <= i32::MAX,
        ;
        assert(0 <= ry * ry && 2 * (ry * ry) <= i32::MAX) by (nonlinear_arith)
            requires
                2 * ry * ry <= i32::MAX,
        ;
        assert(-ry * (2 * (rx * rx)) == -ry * (2 * rx * rx)) by (nonlinear_arith);
        assert(-65536 < ry < 65536) by (nonlinear_arith)
            requires
                2 * ry * ry <= i32::MAX,
        ;
        let rx2 = rx * rx;
        let ry2 = ry * ry;
        assert(rx2 << 1u32 == 2 * rx2) by (bit_vector)
            requires
                0 <= 2 * rx2 <= i32::MAX,
        ;
        assert(ry2 << 1u32 == 2 * ry2) by (bit_vector)
            requires
                0 <= 2 * ry2 <= i32::MAX,
        ;
        let two_rx2 = rx2 << 1u32;
        let two_ry2 = ry2 << 1u32;
        let e = EllipseBresenhamInterpolator {
            rx2,
            ry2,
            two_rx2,
            two_ry2,
            dx: 0,
            dy: 0,
            inc_x: 0,
            inc_y: -ry * two_rx2,
            cur_f: 0,
        };
        assert(residual(rx2 as int, ry2 as int, 0, -ry) == 0) by (nonlinear_arith)
            requires
                rx2 == rx * rx,
                ry2 == ry * ry,
        ;
        assert(-ry * two_rx2 == -ry * (2 * rx2));
        e
    }

    /// The x step taken by the last `next` (0 or 1).
    pub fn dx(&self) -> (r: i32)
        ensures
            r == self.dx_spec(),
    {
        self.dx
    }

    /// The y step taken by the last `next` (0 or 1).
    pub fn dy(&self) -> (r: i32)
        ensures
            r == self.dy_spec(),
    {
        self.dy
    }

    /// Steps to whichever of the three neighbour points `(+1, 0)`, `(0, +1)`,
    /// `(+1, +1)` has the smallest residual magnitude (the diagonal wins only
    /// when strictly smaller; between the other two, x wins ties).
    pub fn next(&mut self)
        requires
            old(self).next_ok(),
        ensures
            final(self).rx2_spec() == old(self).rx2_spec(),
            final(self).ry2_spec() == old(self).ry2_spec(),
            final(self).two_rx2_spec() == old(self).two_rx2_spec(),
            final(self).two_ry2_spec() == old(self).two_ry2_spec(),
            ({
                let mx = abs_int(old(self).fx());
                let my = abs_int(old(self).fy());
                let mxy = abs_int(old(self).fxy());
                let m = if mx > my {
                    my
                } else {
                    mx
                };
                if m > mxy {
                    &&& final(self).dx_spec() == 1 && final(self).dy_spec() == 1
                    &&& final(self).cur_f_spec() == old(self).fxy()
                    &&& final(self).inc_x_spec() == old(self).inc_x_spec()
                        + old(self).two_ry2_spec()
                    &&& final(self).inc_y_spec() == old(self).inc_y_spec()
                        + old(self).two_rx2_spec()
                } else if mx <= my {
                    &&& final(self).dx_spec() == 1 && final(self).dy_spec() == 0
                    &&& final(self).cur_f_spec() == old(self).fx()
                    &&& final(self).inc_x_spec() == old(self).inc_x_spec()
                        + old(self).two_ry2_spec()
                    &&& final(self).inc_y_spec() == old(self).inc_y_spec()
                } else {
                    &&& final(self).dx_spec() == 0 && final(self).dy_spec() == 1
                    &&& final(self).cur_f_spec() == old(self).fy()
                    &&& final(self).inc_x_spec() == old(self).inc_x_spec()
                    &&& final(self).inc_y_spec() == old(self).inc_y_spec()
                        + old(self).two_rx2_spec()
                }
            }),
    {
        let fx = self.cur_f + self.inc_x + self.ry2;
        let fy = self.cur_f + self.inc_y + self.rx2;
        let fxy = self.cur_f + self.inc_x + self.ry2 + self.inc_y + self.rx2;
        let mx = if fx < 0 {
            -fx
        } else {
            fx
        };
        let my = if fy < 0 {
            -fy
        } else {
            fy
        };
        let mxy = if fxy < 0 {
            -fxy
        } else {
            fxy
        };
        let mut min_m = mx;
        let mut flag = true;
        if min_m > my {
            min_m = my;
            flag = false;
        }
        self.dx = 0;
        self.dy = 0;
        if min_m > mxy {
            self.inc_x = self.inc_x + self.two_ry2;
            self.inc_y = self.inc_y + self.two_rx2;
            self.cur_f = fxy;
            self.dx = 1;
            self.dy = 1;
            return ;
        }
        if flag {
            self.inc_x = self.inc_x + self.two_ry2;
            self.cur_f = fx;
            self.dx = 1;
            return ;
        }
        self.inc_y = self.inc_y + self.two_rx2;
        self.cur_f = fy;
        self.dy = 1;
    }
}

/// Each step keeps the interpolator on the ellipse grid: standing at
/// `(x, y)` before `next`, it stands at `(x + dx, y + dy)` after it, with the
/// error term equal to the residual there; the candidate error terms are the
/// residuals of the three neighbour points.
pub proof fn lemma_next_tracks_point(
    before: EllipseBresenhamInterpolator,
    after: EllipseBresenhamInterpolator,
    x: int,
    y: int,
)
    requires
        before.at_point(x, y),
        after.rx2_spec() == before.rx2_spec(),
        after.ry2_spec() == before.ry2_spec(),
        after.two_rx2_spec() == before.two_rx2_spec(),
        after.two_ry2_spec() == before.two_ry2_spec(),
        (after.dx_spec() == 1 && after.dy_spec() == 1 && after.cur_f_spec() == before.fxy()
            && after.inc_x_spec() == before.inc_x_spec() + before.two_ry2_spec()
            && after.inc_y_spec() == before.inc_y_spec() + before.two_rx2_spec()) || (
        after.dx_spec() == 1 && after.dy_spec() == 0 && after.cur_f_spec() == before.fx()
            && after.inc_x_spec() == before.inc_x_spec() + before.two_ry2_spec()
            && after.inc_y_spec() == before.inc_y_spec()) || (after.dx_spec() == 0
            && after.dy_spec() == 1 && after.cur_f_spec() == before.fy() && after.inc_x_spec()
            == before.inc_x_spec() && after.inc_y_spec() == before.inc_y_spec()
            + before.two_rx2_spec()),
    ensures
        before.fx() == residual(before.rx2_spec() as int, before.ry2_spec() as int, x + 1, y),
        before.fy() == residual(before.rx2_spec() as int, before.ry2_spec() as int, x, y + 1),
        before.fxy() == residual(before.rx2_spec() as int, before.ry2_spec() as int, x + 1, y + 1),
        after.at_point(x + after.dx_spec(), y + after.dy_spec()),
{
    let rx2 = before.rx2_spec() as int;
    let ry2 = before.ry2_spec() as int;
    assert(residual(rx2, ry2, x + 1, y) == residual(rx2, ry2, x, y) + x * (2 * ry2) + ry2)
        by (nonlinear_arith);
    assert(residual(rx2, ry2, x, y + 1) == residual(rx2, ry2, x, y) + y * (2 * rx2) + rx2)
        by (nonlinear_arith);
    assert(residual(rx2, ry2, x + 1, y + 1) == residual(rx2, ry2, x, y) + x * (2 * ry2) + ry2 + y
        * (2 * rx2) + rx2) by (nonlinear_arith);
    assert((x + 1) * (2 * ry2) == x * (2 * ry2) + 2 * ry2) by (nonlinear_arith);
    assert((y + 1) * (2 * rx2) == y * (2 * rx2) + 2 * rx2) by (nonlinear_arith);
}

} // verus!
