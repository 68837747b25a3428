//! Gamma lookup tables: the integer side of gamma correction.
use vstd::prelude::*;

verus! {

/// No gamma correction: the identity curve.
#[derive(Debug, Clone, Copy, Default)]
pub struct GammaNone;

/// Gamma correction through precomputed forward (`dir`) and inverse (`inv`)
/// tables of `2^gamma_shift` and `2^hi_res_shift` entries.
pub struct GammaLut {
    gamma_shift: u32,
    hi_res_shift: u32,
    dir_gamma: Vec<u8>,
    inv_gamma: Vec<u8>,
}

impl GammaLut {
    /// The forward table.
    pub closed spec fn dir_table(&self) -> Seq<u8> {
        self.dir_gamma@
    }

    /// The inverse table.
    pub closed spec fn inv_table(&self) -> Seq<u8> {
        self.inv_gamma@
    }

    /// Both tables cover every 8-bit input.
    pub open spec fn wf(&self) -> bool {
        self.dir_table().len() >= 256 && self.inv_table().len() >= 256
    }

    /// The identity gamma with 256-entry tables.
    pub fn new() -> (g: Self)
        ensures
            g.wf(),
            g.dir_table().len() == 256 && g.inv_table().len() == 256,
            forall|i: int| 0 <= i < 256 ==> g.dir_table()[i] == i && g.inv_table()[i] == i,
    {
        let g = Self::with_shifts(8, 8);
        proof {
            vstd::arithmetic::power2::lemma2_to64();
            assert forall|i: int| 0 <= i < 256 implies #[trigger] g.dir_table()[i] == i
                && g.inv_table()[i] == i by {
                assert(g.dir_table()[i] == (i * 1) % 256);
                assert(g.inv_table()[i] == (i / 1) % 256);
            }
        }
        g
    }

    /// Identity tables of `2^gamma_shift` and `2^hi_res_shift` entries: entry
    /// `i` of the forward table is `i << (hi_res_shift - gamma_shift)` and of
    /// the inverse table `i >> (hi_res_shift - gamma_shift)`, both truncated
    /// to 8 bits.
    pub fn with_shifts(gamma_shift: u32, hi_res_shift: u32) -> (g: Self)
        requires
            gamma_shift <= hi_res_shift,
            hi_res_shift < usize::BITS,
        ensures
            g.dir_table().len() == vstd::arithmetic::power2::pow2(gamma_shift as nat),
            g.inv_table().len() == vstd::arithmetic::power2::pow2(hi_res_shift as nat),
            forall|i: int|
                0 <= i < g.dir_table().len() ==> g.dir_table()[i] == (i * vstd::arithmetic::power2::pow2(
                    (hi_res_shift - gamma_shift) as nat,
                )) % 256,
            forall|i: int|
                0 <= i < g.inv_table().len() ==> g.inv_table()[i] == (i / vstd::arithmetic::power2::pow2(
                    (hi_res_shift - gamma_shift) as nat,
                ) as int) % 256,
    {
        let ghost d = (hi_res_shift - gamma_shift) as nat;
        let ghost top = vstd::arithmetic::power2::pow2(hi_res_shift as nat);
        let gs = gamma_shift as usize;
        let hs = hi_res_shift as usize;
        let shift = hs - gs;
        proof {
            vstd::bits::lemma_usize_pow2_no_overflow(gamma_shift as nat);
            vstd::bits::lemma_usize_pow2_no_overflow(hi_res_shift as nat);
            vstd::arithmetic::power2::lemma_pow2_adds(gamma_shift as nat, d);
            vstd::bits::lemma_usize_shl_is_mul(1, gs);
            vstd::bits::lemma_usize_shl_is_mul(1, hs);
        }
        let gamma_size: usize = 1usize << gs;
        let hi_res_size: usize = 1usize << hs;
        let mut dir_gamma: Vec<u8> = Vec::new();
        let mut i: usize = 0;
        while i < gamma_size
            invariant
                i <= gamma_size,
                gamma_size == vstd::arithmetic::power2::pow2(gamma_shift as nat),
                gamma_size * vstd::arithmetic::power2::pow2(d) == top,
                top < usize::MAX,
                shift == d,
                shift < usize::BITS,
                dir_gamma.len() == i,
                forall|j: int|
                    0 <= j < i ==> dir_gamma@[j] == (j * vstd::arithmetic::power2::pow2(d)) % 256,
            decreases gamma_size - i,
        {
            proof {
                vstd::arithmetic::mul::lemma_mul_inequality(
                    i as int,
                    gamma_size as int,
                    vstd::arithmetic::power2::pow2(d) as int,
                );
                vstd::bits::lemma_usize_shl_is_mul(i, shift);
            }
            let v = i << shift;
            assert(v as u8 == v % 256) by (bit_vector);
            dir_gamma.push(v as u8);
            i = i + 1;
        }
        let mut inv_gamma: Vec<u8> = Vec::new();
        let mut i: usize = 0;
        while i < hi_res_size
            invariant
                i <= hi_res_size,
                hi_res_size == top,
                shift == d,
                shift < usize::BITS,
                inv_gamma.len() == i,
                forall|j: int|
                    0 <= j < i ==> inv_gamma@[j] == (j / vstd::arithmetic::power2::pow2(d) as int)
                        % 256,
            decreases hi_res_size - i,
        {
            proof {
                vstd::bits::lemma_usize_shr_is_div(i, shift);
            }
            let v = i >> shift;
            assert(v as u8 == v % 256) by (bit_vector);
            inv_gamma.push(v as u8);
            i = i + 1;
        }
        GammaLut { gamma_shift, hi_res_shift, dir_gamma, inv_gamma }
    }

    /// Forward gamma correction of `v`.
    pub fn dir(&self, v: u8) -> (r: u8)
        requires
            (v as int) < self.dir_table().len(),
        ensures
            r == self.dir_table()[v as int],
    {
        self.dir_gamma[v as usize]
    }

    /// Inverse gamma correction of `v`.
    pub fn inv(&self, v: u8) -> (r: u8)
        requires
            (v as int) < self.inv_table().len(),
        ensures
            r == self.inv_table()[v as int],
    {
        self.inv_gamma[v as usize]
    }

    /// Number of entries of the forward table.
    pub fn gamma_size(&self) -> (n: usize)
        ensures
            n == self.dir_table().len(),
    {
        self.dir_gamma.len()
    }

    /// Number of entries of the inverse table.
    pub fn hi_res_size(&self) -> (n: usize)
        ensures
            n == self.inv_table().len(),
    {
        self.inv_gamma.len()
    }

    /// Installs new forward and inverse tables of the same sizes as the
    /// current ones (a gamma curve sampled by the caller).
    pub fn set_tables(&mut self, dir: Vec<u8>, inv: Vec<u8>)
        requires
            dir@.len() == old(self).dir_table().len(),
            inv@.len() == old(self).inv_table().len(),
        ensures
            final(self).dir_table() == dir@,
            final(self).inv_table() == inv@,
    {
        self.dir_gamma = dir;
        self.inv_gamma = inv;
    }
}

} // verus!
