//! Sorting and searching over slices with caller-supplied comparisons.
use vstd::prelude::*;

verus! {

/// Below this length a partition is sorted by insertion.
pub const QUICK_SORT_THRESHOLD: usize = 9;

// ---------------------------------------------------------------------------
// Comparison closures
// ---------------------------------------------------------------------------
/// `less` may answer that `a` is less than `b`.
pub open spec fn lt<T, F: Fn(&T, &T) -> bool>(less: &F, a: T, b: T) -> bool {
    less.ensures((&a, &b), true)
}

/// `less` can be called on any pair and gives one answer per pair.
pub open spec fn callable<T, F: Fn(&T, &T) -> bool>(less: &F) -> bool {
    &&& forall|a: T, b: T| #[trigger] less.requires((&a, &b))
    &&& forall|a: T, b: T|
        !(#[trigger] less.ensures((&a, &b), true) && less.ensures((&a, &b), false))
}

/// Whatever `less` returns for `(a, b)` is `r(a, b)`: the relation `r`
/// fixes every answer of the comparison.
pub open spec fn decides<A, B, F: Fn(&A, &B) -> bool>(less: &F, r: spec_fn(A, B) -> bool) -> bool {
    forall|a: A, b: B, res: bool| #[trigger] less.ensures((&a, &b), res) ==> res == r(a, b)
}

/// `r` is a strict weak order: irreflexive, transitive, and with
/// transitive incomparability (`!(b < a)` and `!(c < b)` give `!(c < a)`).
pub open spec fn strict_weak_order<T>(r: spec_fn(T, T) -> bool) -> bool {
    &&& forall|a: T| !#[trigger] r(a, a)
    &&& forall|a: T, b: T, c: T| #[trigger] r(a, b) && #[trigger] r(b, c) ==> r(a, c)
    &&& forall|a: T, b: T, c: T| !#[trigger] r(a, b) && !#[trigger] r(b, c) ==> !r(a, c)
}

/// `less` compares by the strict weak order `r`.
pub open spec fn orders<T, F: Fn(&T, &T) -> bool>(less: &F, r: spec_fn(T, T) -> bool) -> bool {
    decides(less, r) && strict_weak_order(r)
}

/// `less` can be called on any pair and compares by some strict weak order.
pub open spec fn is_ordering<T, F: Fn(&T, &T) -> bool>(less: &F) -> bool {
    &&& forall|a: T, b: T| #[trigger] less.requires((&a, &b))
    &&& exists|r: spec_fn(T, T) -> bool| orders(less, r)
}

/// `s` is sorted under `r`: no element is less than one before it.
pub open spec fn sorted_by<T>(s: Seq<T>, r: spec_fn(T, T) -> bool) -> bool {
    forall|p: int, q: int| 0 <= p < q < s.len() ==> !r(#[trigger] s[q], #[trigger] s[p])
}

/// `a` is less than `b` under every strict weak order that `less` compares by.
#[verifier::opaque]
spec fn glt<T, F: Fn(&T, &T) -> bool>(less: &F, a: T, b: T) -> bool {
    forall|r: spec_fn(T, T) -> bool| orders(less, r) ==> r(a, b)
}

/// `a` is not less than `b` under any strict weak order that `less`
/// compares by.
#[verifier::opaque]
spec fn nlt<T, F: Fn(&T, &T) -> bool>(less: &F, a: T, b: T) -> bool {
    forall|r: spec_fn(T, T) -> bool| orders(less, r) ==> !r(a, b)
}

/// What the comparisons made so far give: the laws of a strict weak order
/// for `glt` and `nlt`, their link to the answers of `less`, and that
/// `less` gives one answer per pair.
spec fn order_laws<T, F: Fn(&T, &T) -> bool>(less: &F) -> bool {
    &&& callable(less)
    &&& forall|a: T| #[trigger] nlt(less, a, a)
    &&& forall|a: T, b: T, c: T|
        #[trigger] glt(less, a, b) && #[trigger] glt(less, b, c) ==> glt(less, a, c)
    &&& forall|a: T, b: T, c: T|
        #[trigger] nlt(less, a, b) && #[trigger] nlt(less, b, c) ==> nlt(less, a, c)
    &&& forall|a: T, b: T| #[trigger] glt(less, a, b) ==> nlt(less, b, a)
    &&& forall|a: T, b: T| #[trigger] glt(less, a, b) ==> !nlt(less, a, b)
    &&& forall|a: T, b: T| #[trigger] nlt(less, a, b) ==> !lt(less, a, b)
}

proof fn lemma_order_laws<T, F: Fn(&T, &T) -> bool>(less: &F)
    requires
        is_ordering(less),
    ensures
        order_laws(less),
{
    reveal(glt);
    reveal(nlt);
    let r0 = choose|r: spec_fn(T, T) -> bool| orders(less, r);
    assert(orders(less, r0));
    assert forall|a: T, b: T| !(#[trigger] less.ensures((&a, &b), true) && less.ensures((&a, &b), false)) by {
        if less.ensures((&a, &b), true) && less.ensures((&a, &b), false) {
            assert(r0(a, b));
        }
    }
    assert forall|a: T, b: T| #[trigger] glt(less, a, b) implies !nlt(less, a, b) by {
        assert(r0(a, b));
    }
    assert forall|a: T, b: T| #[trigger] nlt(less, a, b) implies !lt(less, a, b) by {
        assert(!r0(a, b));
    }
    assert forall|a: T, b: T, c: T|
        #[trigger] nlt(less, a, b) && #[trigger] nlt(less, b, c) implies nlt(less, a, c) by {
        assert forall|r: spec_fn(T, T) -> bool| orders(less, r) implies !r(a, c) by {
            assert(!r(a, b) && !r(b, c));
        }
    }
    assert forall|a: T, b: T, c: T|
        #[trigger] glt(less, a, b) && #[trigger] glt(less, b, c) implies glt(less, a, c) by {
        assert forall|r: spec_fn(T, T) -> bool| orders(less, r) implies r(a, c) by {
            assert(r(a, b) && r(b, c));
        }
    }
    assert forall|a: T, b: T| #[trigger] glt(less, a, b) implies nlt(less, b, a) by {
        assert forall|r: spec_fn(T, T) -> bool| orders(less, r) implies !r(b, a) by {
            assert(r(a, b));
            if r(b, a) {
                assert(r(a, a));
            }
        }
    }
}

// ---------------------------------------------------------------------------
// quick_sort
// ---------------------------------------------------------------------------
/// Unfolding `quick_sort_spec` over a long sequence: its entries before the
/// partition's `j` come from the sort of the first part, those from `i` on
/// from the sort of the second part, and those between from the
/// partitioned sequence.
proof fn lemma_quick_sort_spec_split<T, F: Fn(&T, &T) -> bool>(u: Seq<T>, less: &F)
    requires
        u.len() > QUICK_SORT_THRESHOLD,
        0 <= partition_spec(u, less).2 < partition_spec(u, less).1 <= u.len(),
        partition_spec(u, less).0.len() == u.len(),
    ensures
        ({
            let (t, i, j) = partition_spec(u, less);
            let q = quick_sort_spec(u, less);
            &&& q.len() == u.len()
            &&& forall|k: int| 0 <= k < j ==> #[trigger] q[k] == quick_sort_spec(t.subrange(0, j), less)[k]
            &&& forall|k: int| j <= k < i ==> #[trigger] q[k] == t[k]
            &&& forall|k: int|
                i <= k < u.len() ==> #[trigger] q[k] == quick_sort_spec(
                    t.subrange(i, u.len() as int),
                    less,
                )[k - i]
        }),
{
    let (t, i, j) = partition_spec(u, less);
    let a = quick_sort_spec(t.subrange(0, j), less);
    let b = quick_sort_spec(t.subrange(i, u.len() as int), less);
    lemma_quick_sort_spec_len(t.subrange(0, j), less);
    lemma_quick_sort_spec_len(t.subrange(i, u.len() as int), less);
    assert(quick_sort_spec(u, less) == a + t.subrange(j, i) + b);
}

/// `s` with positions `a` and `b` exchanged (written as a swap does it:
/// `a` takes `s[b]`, then `b` takes `s[a]`).
pub open spec fn swap_spec<T>(s: Seq<T>, a: int, b: int) -> Seq<T> {
    s.update(a, s[b]).update(b, s[a])
}

/// Scanning up from `i` past the elements less than the pivot `u[0]`: the
/// first position after `i` holding one that is not less.
pub open spec fn scan_up<T, F: Fn(&T, &T) -> bool>(u: Seq<T>, i: int, less: &F) -> int
    decreases u.len() - i,
{
    if i + 1 >= u.len() {
        i + 1
    } else if lt(less, u[i + 1], u[0]) {
        scan_up(u, i + 1, less)
    } else {
        i + 1
    }
}

/// Scanning down from `j` past the elements greater than the pivot `u[0]`:
/// the first position before `j` holding one that is not greater.
pub open spec fn scan_down<T, F: Fn(&T, &T) -> bool>(u: Seq<T>, j: int, less: &F) -> int
    decreases j,
{
    if j <= 0 {
        j - 1
    } else if lt(less, u[0], u[j - 1]) {
        scan_down(u, j - 1, less)
    } else {
        j - 1
    }
}

/// The exchange loop of a partition of `n` elements: scan up from `i` and
/// down from `j`; stop when the scans cross, else exchange and go on.
/// Gives the sequence and the two scan positions.
pub open spec fn part_loop<T, F: Fn(&T, &T) -> bool>(
    u: Seq<T>,
    i: int,
    j: int,
    n: int,
    less: &F,
) -> (Seq<T>, int, int)
    decreases n - i,
{
    let i2 = scan_up(u, i, less);
    let j2 = scan_down(u, j, less);
    if i2 <= i || i2 >= n || i2 > j2 {
        (u, i2, j2)
    } else {
        part_loop(swap_spec(u, i2, j2), i2, j2, n, less)
    }
}

/// The pivot choice of a partition of `n` elements: the middle element is
/// moved to the front, then the first, second and last elements are
/// ordered so that the front holds their median.
pub open spec fn part_setup<T, F: Fn(&T, &T) -> bool>(u: Seq<T>, less: &F) -> Seq<T> {
    let n = u.len() as int;
    let u1 = swap_spec(u, 0, n / 2);
    let u2 = if lt(less, u1[n - 1], u1[1]) {
        swap_spec(u1, n - 1, 1)
    } else {
        u1
    };
    let u3 = if lt(less, u2[0], u2[1]) {
        swap_spec(u2, 0, 1)
    } else {
        u2
    };
    if lt(less, u3[n - 1], u3[0]) {
        swap_spec(u3, n - 1, 0)
    } else {
        u3
    }
}

/// A partition of `u`: the arranged sequence with the pivot moved to `j`,
/// and the scan positions `i` and `j` where the loop stopped.
pub open spec fn partition_spec<T, F: Fn(&T, &T) -> bool>(u: Seq<T>, less: &F) -> (Seq<T>, int, int) {
    let n = u.len() as int;
    let r = part_loop(part_setup(u, less), 1, n - 1, n, less);
    (swap_spec(r.0, 0, r.2), r.1, r.2)
}

/// One insertion step: the element at `j + 1` moves down past every
/// element it is less than.
pub open spec fn ins_inner<T, F: Fn(&T, &T) -> bool>(t: Seq<T>, j: int, less: &F) -> Seq<T>
    decreases j,
{
    if j < 0 || j + 1 >= t.len() || !lt(less, t[j + 1], t[j]) {
        t
    } else if j == 0 {
        swap_spec(t, j + 1, j)
    } else {
        ins_inner(swap_spec(t, j + 1, j), j - 1, less)
    }
}

/// Insertion of the elements from `i` to `n - 1`, one after the other.
pub open spec fn ins_outer<T, F: Fn(&T, &T) -> bool>(t: Seq<T>, i: int, n: int, less: &F) -> Seq<T>
    decreases n - i,
{
    if i >= n {
        t
    } else {
        ins_outer(ins_inner(t, i - 1, less), i + 1, n, less)
    }
}

/// Insertion sort of `t`.
pub open spec fn insertion_spec<T, F: Fn(&T, &T) -> bool>(t: Seq<T>, less: &F) -> Seq<T> {
    if t.len() <= 1 {
        t
    } else {
        ins_outer(t, 1, t.len() as int, less)
    }
}

/// What `quick_sort` makes of `t`: insertion sort up to
/// `QUICK_SORT_THRESHOLD` elements, else a partition followed by the sorts
/// of the parts before `j` and from `i` on (the elements between are in
/// place).
pub open spec fn quick_sort_spec<T, F: Fn(&T, &T) -> bool>(t: Seq<T>, less: &F) -> Seq<T>
    decreases t.len(),
{
    if t.len() <= QUICK_SORT_THRESHOLD {
        insertion_spec(t, less)
    } else {
        let (u, i, j) = partition_spec(t, less);
        if 0 <= j < i <= t.len() && u.len() == t.len() {
            quick_sort_spec(u.subrange(0, j), less) + u.subrange(j, i) + quick_sort_spec(
                u.subrange(i, t.len() as int),
                less,
            )
        } else {
            t
        }
    }
}

proof fn lemma_ins_inner_len<T, F: Fn(&T, &T) -> bool>(t: Seq<T>, j: int, less: &F)
    ensures
        ins_inner(t, j, less).len() == t.len(),
    decreases j,
{
    if j < 0 || j + 1 >= t.len() || !lt(less, t[j + 1], t[j]) {
    } else if j == 0 {
    } else {
        lemma_ins_inner_len(swap_spec(t, j + 1, j), j - 1, less);
    }
}

proof fn lemma_ins_outer_len<T, F: Fn(&T, &T) -> bool>(t: Seq<T>, i: int, n: int, less: &F)
    ensures
        ins_outer(t, i, n, less).len() == t.len(),
    decreases n - i,
{
    if i < n {
        lemma_ins_inner_len(t, i - 1, less);
        lemma_ins_outer_len(ins_inner(t, i - 1, less), i + 1, n, less);
    }
}

/// `quick_sort_spec` keeps the length.
proof fn lemma_quick_sort_spec_len<T, F: Fn(&T, &T) -> bool>(t: Seq<T>, less: &F)
    ensures
        quick_sort_spec(t, less).len() == t.len(),
    decreases t.len(),
{
    if t.len() <= QUICK_SORT_THRESHOLD {
        if t.len() > 1 {
            lemma_ins_outer_len(t, 1, t.len() as int, less);
        }
    } else {
        let (u, i, j) = partition_spec(t, less);
        if 0 <= j < i <= t.len() && u.len() == t.len() {
            lemma_quick_sort_spec_len(u.subrange(0, j), less);
            lemma_quick_sort_spec_len(u.subrange(i, t.len() as int), less);
        }
    }
}

/// `hs[p]` is the end of the not-yet-sorted segment holding `p`, or `p + 1`
/// once `p` is in its final place; segments are intervals.
spec fn segs_wf(hs: Seq<int>, len: int) -> bool {
    &&& hs.len() == len
    &&& forall|p: int| 0 <= p < len ==> p < #[trigger] hs[p] <= len
    &&& forall|p: int, x: int|
        0 <= p <= x < hs[p] && x < len ==> #[trigger] hs[x] == #[trigger] hs[p]
}

/// `[lo, hi)` is one whole segment of `hs`.
spec fn is_seg(hs: Seq<int>, lo: int, hi: int) -> bool {
    &&& 0 <= lo <= hi <= hs.len()
    &&& forall|x: int| lo <= x < hi ==> #[trigger] hs[x] == hi
    &&& (lo == 0 || hs[lo - 1] <= lo)
}

/// Every pair of positions in different segments is in order under every
/// strict weak order that `less` compares by.
spec fn ordered_outside<T, F: Fn(&T, &T) -> bool>(s: Seq<T>, hs: Seq<int>, less: &F) -> bool {
    forall|p: int, q: int|
        0 <= p < q < s.len() && q >= hs[p] ==> nlt(less, #[trigger] s[q], #[trigger] s[p])
}

/// `s[lo..hi)` is sorted under every strict weak order that `less`
/// compares by.
spec fn sorted_range<T, F: Fn(&T, &T) -> bool>(s: Seq<T>, lo: int, hi: int, less: &F) -> bool {
    forall|p: int, q: int| lo <= p < q < hi ==> nlt(less, #[trigger] s[q], #[trigger] s[p])
}

/// The total length of the segments on the stack.
spec fn stack_sum(st: Seq<(usize, usize)>) -> int
    decreases st.len(),
{
    if st.len() == 0 {
        0
    } else {
        stack_sum(st.drop_last()) + (st.last().1 - st.last().0)
    }
}

/// `p` lies in one of the segments on the stack.
spec fn in_stack(st: Seq<(usize, usize)>, p: int) -> bool {
    exists|k: int| 0 <= k < st.len() && (#[trigger] st[k]).0 <= p < st[k].1
}

/// Calls `less` on `a` and `b`.
fn call_less<T, F: Fn(&T, &T) -> bool>(less: &F, a: &T, b: &T) -> (r: bool)
    requires
        order_laws(less),
    ensures
        r == lt(less, *a, *b),
        r ==> glt(less, *a, *b),
        !r ==> nlt(less, *a, *b),
{
    let r = less(a, b);
    proof {
        reveal(glt);
        reveal(nlt);
    }
    r
}

/// Swapping two positions of a sequence keeps its multiset.
proof fn lemma_swap_multiset<T>(s: Seq<T>, a: int, b: int)
    requires
        0 <= a < s.len(),
        0 <= b < s.len(),
    ensures
        s.update(a, s[b]).update(b, s[a]).to_multiset() =~= s.to_multiset(),
{
    let va = s[a];
    let vb = s[b];
    let s1 = s.update(a, vb);
    vstd::seq_lib::to_multiset_update(s, a, vb);
    vstd::seq_lib::to_multiset_update(s1, b, va);
    s.to_multiset_ensures();
    s1.to_multiset_ensures();
    assert(s.contains(va));
    assert(s1[b] == vb);
}

/// Swaps two positions of one segment: the multiset and the order between
/// segments are kept.
fn swap_in<T: Copy, F: Fn(&T, &T) -> bool>(
    arr: &mut [T],
    a: usize,
    b: usize,
    Ghost(hs): Ghost<Seq<int>>,
    Ghost(lo): Ghost<int>,
    Ghost(hi): Ghost<int>,
    less: &F,
)
    requires
        segs_wf(hs, old(arr)@.len() as int),
        is_seg(hs, lo, hi),
        lo <= a < hi,
        lo <= b < hi,
        ordered_outside(old(arr)@, hs, less),
    ensures
        final(arr)@ == old(arr)@.update(a as int, old(arr)@[b as int]).update(
            b as int,
            old(arr)@[a as int],
        ),
        final(arr)@.to_multiset() == old(arr)@.to_multiset(),
        ordered_outside(final(arr)@, hs, less),
{
    let ghost s = arr@;
    let va = arr[a];
    let vb = arr[b];
    arr[a] = vb;
    arr[b] = va;
    proof {
        let t = arr@;
        lemma_swap_multiset(s, a as int, b as int);
        assert forall|p: int, q: int|
            0 <= p < q < t.len() && q >= hs[p] implies nlt(less, #[trigger] t[q], #[trigger] t[p]) by {
            let pp = if p == a {
                b as int
            } else if p == b {
                a as int
            } else {
                p
            };
            let qq = if q == a {
                b as int
            } else if q == b {
                a as int
            } else {
                q
            };
            assert(t[p] == s[pp] && t[q] == s[qq]);
            if lo <= p < hi {
                assert(hs[p] == hi);
                assert(q >= hi);
                assert(hs[pp] == hi);
                assert(qq == q);
            } else if lo <= q < hi {
                assert(p < lo);
                if hs[p] > lo {
                    assert(hs[lo - 1] == hs[p]);
                }
                assert(pp == p);
            }
            assert(pp < qq && qq >= hs[pp]);
        }
    }
}

/// Partitions the segment `[base, limit)` (longer than the threshold) around
/// the median of its first, middle and last elements: returns `(i, j)` with
/// the pivot at `j`, nothing greater than it before `i` (apart from `j`), and
/// nothing less than it after `j`.
#[verifier::rlimit(60)]
fn partition<T: Copy, F: Fn(&T, &T) -> bool>(
    arr: &mut [T],
    base: usize,
    limit: usize,
    less: &F,
    Ghost(hs): Ghost<Seq<int>>,
) -> (r: (usize, usize))
    requires
        order_laws(less),
        base + QUICK_SORT_THRESHOLD < limit <= old(arr)@.len(),
        segs_wf(hs, old(arr)@.len() as int),
        is_seg(hs, base as int, limit as int),
        ordered_outside(old(arr)@, hs, less),
    ensures
        base <= r.1 < r.0 < limit,
        final(arr)@.len() == old(arr)@.len(),
        final(arr)@.to_multiset() == old(arr)@.to_multiset(),
        ordered_outside(final(arr)@, hs, less),
        forall|k: int|
            0 <= k < final(arr)@.len() && !(base <= k < limit) ==> final(arr)@[k] == old(arr)@[k],
        forall|k: int|
            base <= k < r.0 && k != r.1 ==> nlt(less, final(arr)@[r.1 as int], #[trigger] final(arr)@[k]),
        forall|k: int| r.1 < k < limit ==> nlt(less, #[trigger] final(arr)@[k], final(arr)@[r.1 as int]),
        final(arr)@.subrange(base as int, limit as int) == partition_spec(
            old(arr)@.subrange(base as int, limit as int),
            less,
        ).0,
        r.0 - base == partition_spec(old(arr)@.subrange(base as int, limit as int), less).1,
        r.1 - base == partition_spec(old(arr)@.subrange(base as int, limit as int), less).2,
{
    let ghost lo = base as int;
    let ghost hi = limit as int;
    let ghost orig = arr@;
    let ghost u0 = arr@.subrange(lo, hi);
    let ghost n: int = hi - lo;
    let len = limit - base;
    let pivot = base + len / 2;
    swap_in(arr, base, pivot, Ghost(hs), Ghost(lo), Ghost(hi), less);
    let ghost u1 = swap_spec(u0, 0, n / 2);
    assert(arr@.subrange(lo, hi) =~= u1);
    let mut i = base + 1;
    let mut j = limit - 1;
    if call_less(less, &arr[j], &arr[i]) {
        proof {
            assert(nlt(less, arr@[i as int], arr@[j as int]));
        }
        swap_in(arr, j, i, Ghost(hs), Ghost(lo), Ghost(hi), less);
        assert(arr@.subrange(lo, hi) =~= swap_spec(u1, n - 1, 1));
    }
    let ghost u2 = if lt(less, u1[n - 1], u1[1]) {
        swap_spec(u1, n - 1, 1)
    } else {
        u1
    };
    assert(arr@.subrange(lo, hi) == u2);
    assert(nlt(less, arr@[j as int], arr@[i as int]));
    let ghost j1 = arr@[j as int];
    let ghost i1 = arr@[i as int];
    if call_less(less, &arr[base], &arr[i]) {
        proof {
            assert(nlt(less, arr@[i as int], arr@[base as int]));
        }
        swap_in(arr, base, i, Ghost(hs), Ghost(lo), Ghost(hi), less);
        assert(arr@.subrange(lo, hi) =~= swap_spec(u2, 0, 1));
    }
    let ghost u3 = if lt(less, u2[0], u2[1]) {
        swap_spec(u2, 0, 1)
    } else {
        u2
    };
    assert(arr@.subrange(lo, hi) == u3);
    assert(nlt(less, arr@[base as int], arr@[i as int]));
    let ghost b2 = arr@[base as int];
    let ghost i2 = arr@[i as int];
    assert(arr@[j as int] == j1);
    if call_less(less, &arr[j], &arr[base]) {
        proof {
            assert(nlt(less, arr@[base as int], arr@[j as int]));
            if i2 != i1 {
                // the second swap happened: b2 == i1, so j1 < i1, contradicting the first step
                assert(b2 == i1);
                assert(false);
            }
        }
        swap_in(arr, j, base, Ghost(hs), Ghost(lo), Ghost(hi), less);
        assert(arr@.subrange(lo, hi) =~= swap_spec(u3, n - 1, 0));
    }
    assert(arr@.subrange(lo, hi) == part_setup(u0, less));
    let ghost target = part_loop(part_setup(u0, less), 1, n - 1, n, less);
    let ghost pv = arr@[base as int];
    assert(nlt(less, pv, arr@[i as int]));
    assert(nlt(less, arr@[j as int], pv));
    loop
        invariant_except_break
            base + 1 <= i <= j,
            i + 2 <= limit,
            j + 1 <= limit,
            forall|k: int| base + 1 <= k <= i ==> nlt(less, pv, #[trigger] arr@[k]),
            forall|k: int| j <= k < limit ==> nlt(less, #[trigger] arr@[k], pv),
            part_loop(arr@.subrange(lo, hi), i - lo, j - lo, n, less) == target,
        invariant
            n == hi - lo,
            order_laws(less),
            base + QUICK_SORT_THRESHOLD < limit <= arr@.len(),
            arr@.len() == orig.len(),
            segs_wf(hs, arr@.len() as int),
            is_seg(hs, lo, hi),
            lo == base && hi == limit,
            ordered_outside(arr@, hs, less),
            arr@.to_multiset() == orig.to_multiset(),
            forall|k: int| 0 <= k < arr@.len() && !(base <= k < limit) ==> arr@[k] == orig[k],
            arr@[base as int] == pv,
            nlt(less, arr@[limit - 1], pv),
        ensures
            base + 1 <= i,
            base <= j < i < limit,
            arr@.len() == orig.len(),
            arr@[base as int] == pv,
            arr@.to_multiset() == orig.to_multiset(),
            ordered_outside(arr@, hs, less),
            forall|k: int| 0 <= k < arr@.len() && !(base <= k < limit) ==> arr@[k] == orig[k],
            forall|k: int| base + 1 <= k < i ==> nlt(less, pv, #[trigger] arr@[k]),
            forall|k: int| j < k < limit ==> nlt(less, #[trigger] arr@[k], pv),
            nlt(less, pv, arr@[j as int]),
            target == (arr@.subrange(lo, hi), i - lo, j - lo),
        decreases limit - i,
    {
        let ghost i0 = i;
        let ghost w = arr@.subrange(lo, hi);
        let ghost su = scan_up(w, i0 - lo, less);
        loop
            invariant_except_break
                i0 <= i <= limit - 2,
                forall|k: int| i0 < k <= i ==> glt(less, #[trigger] arr@[k], pv),
                scan_up(w, i - lo, less) == su,
            invariant
                order_laws(less),
                base + 1 <= i0,
                limit <= arr@.len(),
                lo == base && hi == limit,
                w == arr@.subrange(lo, hi),
                arr@[base as int] == pv,
                nlt(less, arr@[limit - 1], pv),
            ensures
                i0 < i <= limit - 1,
                nlt(less, arr@[i as int], pv),
                i - lo == su,
                forall|k: int| i0 < k < i ==> glt(less, #[trigger] arr@[k], pv),
            decreases limit - i,
        {
            i = i + 1;
            if !call_less(less, &arr[i], &arr[base]) {
                break ;
            }
        }
        let ghost j0 = j;
        let ghost sd = scan_down(w, j0 - lo, less);
        loop
            invariant_except_break
                base + 1 <= j <= j0,
                forall|k: int| j <= k < j0 ==> glt(less, pv, #[trigger] arr@[k]),
                scan_down(w, j - lo, less) == sd,
            invariant
                order_laws(less),
                j0 < arr@.len(),
                j0 < limit,
                limit <= arr@.len(),
                lo == base && hi == limit,
                w == arr@.subrange(lo, hi),
                arr@[base as int] == pv,
            ensures
                base <= j < j0,
                nlt(less, pv, arr@[j as int]),
                j - lo == sd,
                forall|k: int| j < k < j0 ==> glt(less, pv, #[trigger] arr@[k]),
            decreases j,
        {
            j = j - 1;
            if !call_less(less, &arr[base], &arr[j]) {
                break ;
            }
            assert(j != base) by {
                if j == base {
                    assert(nlt(less, pv, pv));
                }
            }
        }
        proof {
            assert forall|k: int| i0 < k < i implies nlt(less, pv, #[trigger] arr@[k]) by {
                assert(nlt(less, pv, arr@[k]));
            }
            assert forall|k: int| j < k < j0 implies nlt(less, #[trigger] arr@[k], pv) by {
                assert(nlt(less, arr@[k], pv));
            }
        }
        if i > j {
            break ;
        }
        swap_in(arr, i, j, Ghost(hs), Ghost(lo), Ghost(hi), less);
        assert(arr@.subrange(lo, hi) =~= swap_spec(w, i - lo, j - lo));
    }
    let ghost wf = arr@.subrange(lo, hi);
    swap_in(arr, base, j, Ghost(hs), Ghost(lo), Ghost(hi), less);
    assert(arr@.subrange(lo, hi) =~= swap_spec(wf, 0, j - lo));
    (i, j)
}

/// Insertion-sorts the segment `[base, limit)`.
fn insertion_sort<T: Copy, F: Fn(&T, &T) -> bool>(
    arr: &mut [T],
    base: usize,
    limit: usize,
    less: &F,
    Ghost(hs): Ghost<Seq<int>>,
)
    requires
        order_laws(less),
        base <= limit <= old(arr)@.len(),
        segs_wf(hs, old(arr)@.len() as int),
        is_seg(hs, base as int, limit as int),
        ordered_outside(old(arr)@, hs, less),
    ensures
        final(arr)@.len() == old(arr)@.len(),
        final(arr)@.to_multiset() == old(arr)@.to_multiset(),
        ordered_outside(final(arr)@, hs, less),
        sorted_range(final(arr)@, base as int, limit as int, less),
        forall|k: int|
            0 <= k < final(arr)@.len() && !(base <= k < limit) ==> final(arr)@[k] == old(arr)@[k],
        final(arr)@.subrange(base as int, limit as int) == insertion_spec(
            old(arr)@.subrange(base as int, limit as int),
            less,
        ),
{
    let ghost orig = arr@;
    let ghost w0 = arr@.subrange(base as int, limit as int);
    let ghost n: int = limit - base;
    let ghost target = insertion_spec(w0, less);
    if limit - base <= 1 {
        return ;
    }
    let mut i = base + 1;
    while i < limit
        invariant
            order_laws(less),
            base + 1 <= i <= limit <= arr@.len(),
            arr@.len() == orig.len(),
            segs_wf(hs, arr@.len() as int),
            is_seg(hs, base as int, limit as int),
            ordered_outside(arr@, hs, less),
            arr@.to_multiset() == orig.to_multiset(),
            forall|k: int| 0 <= k < arr@.len() && !(base <= k < limit) ==> arr@[k] == orig[k],
            sorted_range(arr@, base as int, i as int, less),
            n == limit - base,
            ins_outer(arr@.subrange(base as int, limit as int), i - base, n, less) == target,
        decreases limit - i,
    {
        let mut j = i - 1;
        let ghost x = arr@[i as int];
        loop
            invariant_except_break
                arr@[j + 1] == x,
                ins_outer(
                    ins_inner(arr@.subrange(base as int, limit as int), j - base, less),
                    i - base + 1,
                    n,
                    less,
                ) == target,
            invariant
                n == limit - base,
                order_laws(less),
                base <= j < i < limit <= arr@.len(),
                arr@.len() == orig.len(),
                segs_wf(hs, arr@.len() as int),
                is_seg(hs, base as int, limit as int),
                ordered_outside(arr@, hs, less),
                arr@.to_multiset() == orig.to_multiset(),
                forall|k: int| 0 <= k < arr@.len() && !(base <= k < limit) ==> arr@[k] == orig[k],
                forall|p: int, q: int|
                    base <= p < q <= i && p != j + 1 && q != j + 1 ==> nlt(
                        less,
                        #[trigger] arr@[q],
                        #[trigger] arr@[p],
                    ),
                forall|q: int| j + 1 < q <= i ==> glt(less, x, #[trigger] arr@[q]),
            ensures
                sorted_range(arr@, base as int, i + 1, less),
                ins_outer(arr@.subrange(base as int, limit as int), i - base + 1, n, less)
                    == target,
                base <= j < i < limit <= arr@.len(),
                arr@.len() == orig.len(),
                ordered_outside(arr@, hs, less),
                arr@.to_multiset() == orig.to_multiset(),
                forall|k: int| 0 <= k < arr@.len() && !(base <= k < limit) ==> arr@[k] == orig[k],
            decreases j,
        {
            if !call_less(less, &arr[j + 1], &arr[j]) {
                assert forall|p: int, q: int| base <= p < q < i + 1 implies nlt(
                    less,
                    #[trigger] arr@[q],
                    #[trigger] arr@[p],
                ) by {
                    if q == j + 1 && p < j {
                        assert(nlt(less, arr@[j as int], arr@[p]));
                        assert(nlt(less, x, arr@[j as int]));
                    }
                    if p == j + 1 {
                        assert(glt(less, x, arr@[q]));
                        assert(nlt(less, arr@[q], x));
                    }
                }
                break ;
            }
            let ghost before = arr@;
            let ghost wb = before.subrange(base as int, limit as int);
            swap_in(
                arr,
                j + 1,
                j,
                Ghost(hs),
                Ghost(base as int),
                Ghost(limit as int),
                less,
            );
            assert(arr@[j as int] == x);
            assert(glt(less, x, before[j as int]));
            assert(arr@.subrange(base as int, limit as int) =~= swap_spec(
                wb,
                j + 1 - base,
                j - base,
            ));
            if j == base {
                assert forall|p: int, q: int| base <= p < q < i + 1 implies nlt(
                    less,
                    #[trigger] arr@[q],
                    #[trigger] arr@[p],
                ) by {
                    if p == base {
                        if q == base + 1 {
                            assert(arr@[q] == before[j as int]);
                        } else {
                            assert(arr@[q] == before[q]);
                        }
                    } else {
                        assert(arr@[q] == before[q] || q == j + 1);
                    }
                }
                break ;
            }
            j = j - 1;
        }
        i = i + 1;
    }
}

/// After a partition of the segment `[base, limit)` with the pivot at `j`:
/// `[base, j)` and `[i, limit)` become segments of their own and `[j, i)`
/// is in its final place.
proof fn lemma_split<T, F: Fn(&T, &T) -> bool>(
    s: Seq<T>,
    hs: Seq<int>,
    base: int,
    limit: int,
    i: int,
    j: int,
    less: &F,
) -> (nhs: Seq<int>)
    requires
        order_laws(less),
        0 <= base <= j < i < limit <= s.len(),
        segs_wf(hs, s.len() as int),
        is_seg(hs, base, limit),
        ordered_outside(s, hs, less),
        forall|k: int| base <= k < i && k != j ==> nlt(less, s[j], #[trigger] s[k]),
        forall|k: int| j < k < limit ==> nlt(less, #[trigger] s[k], s[j]),
    ensures
        segs_wf(nhs, s.len() as int),
        ordered_outside(s, nhs, less),
        is_seg(nhs, base, j),
        is_seg(nhs, i, limit),
        forall|lo: int, hi: int|
            is_seg(hs, lo, hi) && lo <= hi && (hi <= base || limit <= lo) ==> #[trigger] is_seg(
                nhs,
                lo,
                hi,
            ),
        forall|p: int| 0 <= p < s.len() && nhs[p] != p + 1 ==> hs[p] != p + 1 && !(j <= p < i),
        forall|p: int| 0 <= p < s.len() && !(base <= p < limit) ==> nhs[p] == hs[p],
{
    let nhs = Seq::new(
        hs.len(),
        |p: int|
            if base <= p < j {
                j
            } else if j <= p < i {
                p + 1
            } else {
                hs[p]
            },
    );
    assert forall|p: int, x: int|
        0 <= p <= x < nhs[p] && x < s.len() implies #[trigger] nhs[x] == #[trigger] nhs[p] by {
        if p < base {
            if hs[p] > base {
                assert(hs[base - 1] == hs[p]);
            }
        }
    }
    assert forall|p: int, q: int|
        0 <= p < q < s.len() && q >= nhs[p] implies nlt(less, #[trigger] s[q], #[trigger] s[p]) by {
        if base <= p < i && q < limit {
            let pv = s[j];
            if p == j {
            } else if q == j {
            } else {
                assert(nlt(less, s[q], pv));
                assert(nlt(less, pv, s[p]));
            }
        }
    }
    assert forall|lo: int, hi: int|
        is_seg(hs, lo, hi) && lo <= hi && (hi <= base || limit <= lo) implies #[trigger] is_seg(
        nhs,
        lo,
        hi,
    ) by {
        if lo > 0 && limit <= lo {
            assert(nhs[lo - 1] == hs[lo - 1]);
        }
    }
    nhs
}

/// After sorting the segment `[base, limit)` its positions are final.
proof fn lemma_finalize<T, F: Fn(&T, &T) -> bool>(
    s: Seq<T>,
    hs: Seq<int>,
    base: int,
    limit: int,
    less: &F,
) -> (nhs: Seq<int>)
    requires
        0 <= base <= limit <= s.len(),
        segs_wf(hs, s.len() as int),
        is_seg(hs, base, limit),
        ordered_outside(s, hs, less),
        sorted_range(s, base, limit, less),
    ensures
        segs_wf(nhs, s.len() as int),
        ordered_outside(s, nhs, less),
        forall|p: int| base <= p < limit ==> nhs[p] == p + 1,
        forall|p: int| 0 <= p < s.len() && !(base <= p < limit) ==> nhs[p] == hs[p],
        forall|lo: int, hi: int|
            is_seg(hs, lo, hi) && lo <= hi && (hi <= base || limit <= lo) ==> #[trigger] is_seg(
                nhs,
                lo,
                hi,
            ),
{
    let nhs = Seq::new(
        hs.len(),
        |p: int|
            if base <= p < limit {
                p + 1
            } else {
                hs[p]
            },
    );
    assert forall|p: int, x: int|
        0 <= p <= x < nhs[p] && x < s.len() implies #[trigger] nhs[x] == #[trigger] nhs[p] by {
        if p < base {
            if hs[p] > base {
                assert(hs[base - 1] == hs[p]);
            }
        }
    }
    assert forall|lo: int, hi: int|
        is_seg(hs, lo, hi) && lo <= hi && (hi <= base || limit <= lo) implies #[trigger] is_seg(
        nhs,
        lo,
        hi,
    ) by {
        if lo > 0 && limit <= lo && lo - 1 < limit {
            assert(hs[lo - 1] == limit);
        }
    }
    nhs
}

proof fn lemma_stack_sum_nonneg(st: Seq<(usize, usize)>)
    requires
        forall|k: int| 0 <= k < st.len() ==> (#[trigger] st[k]).0 <= st[k].1,
    ensures
        stack_sum(st) >= 0,
    decreases st.len(),
{
    if st.len() > 0 {
        lemma_stack_sum_nonneg(st.drop_last());
    }
}

/// After a partition of `[base, limit)`, each position of the parts
/// `[base, j)` and `[i, limit)` is predicted by the sort of its part, and
/// the positions between hold their final values.
proof fn lemma_qs_parts<T, F: Fn(&T, &T) -> bool>(
    before: Seq<T>,
    after: Seq<T>,
    u: Seq<T>,
    base: int,
    limit: int,
    i: int,
    j: int,
    tgt: Seq<T>,
    less: &F,
)
    requires
        0 <= base <= j < i < limit <= before.len(),
        limit - base > QUICK_SORT_THRESHOLD,
        after.len() == before.len(),
        u == before.subrange(base, limit),
        after.subrange(base, limit) == partition_spec(u, less).0,
        i - base == partition_spec(u, less).1,
        j - base == partition_spec(u, less).2,
        forall|p: int|
            base <= p < limit ==> #[trigger] tgt[p] == quick_sort_spec(u, less)[p - base],
        ({
            let (t, i, j) = partition_spec(u, less);
            let q = quick_sort_spec(u, less);
            &&& q.len() == u.len()
            &&& forall|k: int| 0 <= k < j ==> #[trigger] q[k] == quick_sort_spec(t.subrange(0, j), less)[k]
            &&& forall|k: int| j <= k < i ==> #[trigger] q[k] == t[k]
            &&& forall|k: int|
                i <= k < u.len() ==> #[trigger] q[k] == quick_sort_spec(
                    t.subrange(i, u.len() as int),
                    less,
                )[k - i]
        }),
    ensures
        forall|p: int|
            base <= p < j ==> #[trigger] tgt[p] == quick_sort_spec(after.subrange(base, j), less)[p
                - base],
        forall|p: int|
            i <= p < limit ==> #[trigger] tgt[p] == quick_sort_spec(after.subrange(i, limit), less)[p
                - i],
        forall|p: int| j <= p < i ==> #[trigger] after[p] == tgt[p],
{
    let t = partition_spec(u, less).0;
    let n = limit - base;
    assert(after.subrange(base, j) =~= t.subrange(0, j - base));
    assert(after.subrange(i, limit) =~= t.subrange(i - base, n));
    assert forall|p: int| base <= p < j implies #[trigger] tgt[p] == quick_sort_spec(
        after.subrange(base, j),
        less,
    )[p - base] by {
        assert(tgt[p] == quick_sort_spec(u, less)[p - base]);
    }
    assert forall|p: int| i <= p < limit implies #[trigger] tgt[p] == quick_sort_spec(
        after.subrange(i, limit),
        less,
    )[p - i] by {
        assert(tgt[p] == quick_sort_spec(u, less)[p - base]);
    }
    assert forall|p: int| j <= p < i implies #[trigger] after[p] == tgt[p] by {
        assert(tgt[p] == quick_sort_spec(u, less)[p - base]);
        assert(after[p] == after.subrange(base, limit)[p - base]);
    }
}

/// Segments on the stack lie outside `[base, limit)`, so a change inside
/// it keeps their predictions.
proof fn lemma_stack_unchanged<T, F: Fn(&T, &T) -> bool>(
    before: Seq<T>,
    after: Seq<T>,
    st: Seq<(usize, usize)>,
    base: int,
    limit: int,
    tgt: Seq<T>,
    less: &F,
)
    requires
        after.len() == before.len(),
        forall|k: int| 0 <= k < after.len() && !(base <= k < limit) ==> after[k] == before[k],
        forall|k: int| 0 <= k < st.len() ==> (#[trigger] st[k]).0 <= st[k].1 <= before.len(),
        forall|k: int| 0 <= k < st.len() ==> (#[trigger] st[k]).1 <= base || limit <= st[k].0,
        forall|k: int, p: int|
            0 <= k < st.len() && (#[trigger] st[k]).0 <= p < st[k].1 ==> #[trigger] tgt[p]
                == quick_sort_spec(before.subrange(st[k].0 as int, st[k].1 as int), less)[p
                - st[k].0],
    ensures
        forall|k: int| 0 <= k < st.len() ==> before.subrange((#[trigger] st[k]).0 as int, st[k].1 as int)
            == after.subrange(st[k].0 as int, st[k].1 as int),
        forall|k: int, p: int|
            0 <= k < st.len() && (#[trigger] st[k]).0 <= p < st[k].1 ==> #[trigger] tgt[p]
                == quick_sort_spec(after.subrange(st[k].0 as int, st[k].1 as int), less)[p
                - st[k].0],
{
    assert forall|k: int| 0 <= k < st.len() implies before.subrange(
        (#[trigger] st[k]).0 as int,
        st[k].1 as int,
    ) == after.subrange(st[k].0 as int, st[k].1 as int) by {
        assert(before.subrange(st[k].0 as int, st[k].1 as int) =~= after.subrange(
            st[k].0 as int,
            st[k].1 as int,
        ));
    }
}

/// Sorts `arr` under `less` with a quicksort that partitions around a
/// median of three, keeps the larger part on an explicit stack, and finishes
/// partitions of at most `QUICK_SORT_THRESHOLD` elements by insertion.
/// `less` must compare by a strict weak order. The result is a permutation
/// of the input, sorted under every strict weak order that `less` compares
/// by, and it is exactly `quick_sort_spec` of the input, which follows the
/// answers `less` gives: elements that compare equal end up in the order
/// this algorithm leaves them in.
#[verifier::rlimit(100)]
#[verifier::spinoff_prover]
pub fn quick_sort<T: Copy, F: Fn(&T, &T) -> bool>(arr: &mut [T], less: &F)
    requires
        is_ordering(less),
        old(arr)@.len() <= i32::MAX,
    ensures
        final(arr)@.to_multiset() == old(arr)@.to_multiset(),
        forall|r: spec_fn(T, T) -> bool| orders(less, r) ==> sorted_by(final(arr)@, r),
        final(arr)@ == quick_sort_spec(old(arr)@, less),
{
    proof {
        lemma_order_laws(less);
    }
    let n = arr.len();
    if n < 2 {
        return ;
    }
    let ghost orig = arr@;
    let ghost tgt = quick_sort_spec(orig, less);
    proof {
        lemma_quick_sort_spec_len(orig, less);
        assert(arr@.subrange(0, n as int) =~= orig);
    }
    let ghost mut hs: Seq<int> = Seq::new(n as nat, |p: int| n as int);
    let mut stack: Vec<(usize, usize)> = Vec::new();
    let mut limit: usize = n;
    let mut base: usize = 0;
    loop
        invariant_except_break
            base <= limit <= n,
            is_seg(hs, base as int, limit as int),
            forall|k: int| 0 <= k < stack@.len() ==> (#[trigger] stack@[k]).1 <= base || limit <= stack@[k].0,
            forall|p: int|
                0 <= p < n && hs[p] != p + 1 ==> (base <= p < limit || in_stack(stack@, p)),
            forall|p: int|
                base <= p < limit ==> #[trigger] tgt[p] == quick_sort_spec(
                    arr@.subrange(base as int, limit as int),
                    less,
                )[p - base],
            forall|p: int|
                0 <= p < n && !(base <= p < limit) && !in_stack(stack@, p) ==> #[trigger] arr@[p]
                    == tgt[p],
        invariant
            tgt == quick_sort_spec(orig, less),
            tgt.len() == n,
            forall|k: int, p: int|
                0 <= k < stack@.len() && (#[trigger] stack@[k]).0 <= p < stack@[k].1 ==> #[trigger] tgt[p]
                    == quick_sort_spec(
                    arr@.subrange(stack@[k].0 as int, stack@[k].1 as int),
                    less,
                )[p - stack@[k].0],
            order_laws(less),
            n == arr@.len(),
            arr@.to_multiset() == orig.to_multiset(),
            segs_wf(hs, n as int),
            ordered_outside(arr@, hs, less),
            forall|k: int|
                0 <= k < stack@.len() ==> (#[trigger] stack@[k]).0 <= stack@[k].1 <= n && is_seg(
                    hs,
                    stack@[k].0 as int,
                    stack@[k].1 as int,
                ),
            forall|k1: int, k2: int|
                0 <= k1 < k2 < stack@.len() ==> (#[trigger] stack@[k1]).1 <= (
                #[trigger] stack@[k2]).0 || stack@[k2].1 <= stack@[k1].0,
        ensures
            forall|p: int| 0 <= p < n ==> hs[p] == p + 1,
            forall|p: int| 0 <= p < n ==> #[trigger] arr@[p] == tgt[p],
        decreases stack_sum(stack@) + (limit - base), stack@.len(),
    {
        proof {
            lemma_stack_sum_nonneg(stack@);
        }
        let len = limit - base;
        if len > QUICK_SORT_THRESHOLD {
            let ghost old_st = stack@;
            let ghost old_arr = arr@;
            let ghost u = arr@.subrange(base as int, limit as int);
            let (i, j) = partition(arr, base, limit, less, Ghost(hs));
            proof {
                lemma_quick_sort_spec_split(u, less);
                lemma_qs_parts(old_arr, arr@, u, base as int, limit as int, i as int, j as int, tgt, less);
                lemma_stack_unchanged(old_arr, arr@, old_st, base as int, limit as int, tgt, less);
            }
            let ghost old_hs = hs;
            proof {
                hs = lemma_split(arr@, old_hs, base as int, limit as int, i as int, j as int, less);
            }
            let ghost old_base = base;
            let ghost old_limit = limit;
            if j - base > limit - i {
                stack.push((base, j));
                base = i;
            } else {
                stack.push((i, limit));
                limit = j;
            }
            proof {
                let st = stack@;
                assert(st.drop_last() =~= old_st);
                assert forall|k: int| 0 <= k < st.len() implies (#[trigger] st[k]).0 <= st[k].1 <= n
                    && is_seg(hs, st[k].0 as int, st[k].1 as int) by {
                    if k < old_st.len() {
                        assert(st[k] == old_st[k]);
                        assert(is_seg(old_hs, st[k].0 as int, st[k].1 as int));
                    }
                }
                assert forall|p: int|
                    0 <= p < n && hs[p] != p + 1 implies (base <= p < limit || in_stack(st, p)) by {
                    if !(old_base <= p < old_limit) {
                        let k = choose|k: int|
                            0 <= k < old_st.len() && (#[trigger] old_st[k]).0 <= p < old_st[k].1;
                        assert(st[k] == old_st[k]);
                    } else if !(base <= p < limit) {
                        assert(st[st.len() - 1].0 <= p < st[st.len() - 1].1);
                    }
                }
                assert(stack_sum(st) == stack_sum(old_st) + (st.last().1 - st.last().0));
                assert forall|k: int, p: int|
                    0 <= k < st.len() && (#[trigger] st[k]).0 <= p < st[k].1 implies #[trigger] tgt[p]
                        == quick_sort_spec(arr@.subrange(st[k].0 as int, st[k].1 as int), less)[p
                        - st[k].0] by {
                    if k < old_st.len() {
                        assert(st[k] == old_st[k]);
                    }
                }
                assert forall|p: int|
                    0 <= p < n && !(base <= p < limit) && !in_stack(st, p) implies #[trigger] arr@[p]
                        == tgt[p] by {
                    if old_base <= p < old_limit {
                        if !(j <= p < i) {
                            assert(st[st.len() - 1].0 <= p < st[st.len() - 1].1);
                        }
                    } else if in_stack(old_st, p) {
                        let k = choose|k: int|
                            0 <= k < old_st.len() && (#[trigger] old_st[k]).0 <= p < old_st[k].1;
                        assert(st[k] == old_st[k]);
                    }
                }
            }
        } else {
            let ghost old_arr = arr@;
            let ghost u = arr@.subrange(base as int, limit as int);
            insertion_sort(arr, base, limit, less, Ghost(hs));
            proof {
                assert(quick_sort_spec(u, less) == insertion_spec(u, less));
                assert forall|p: int| base <= p < limit implies #[trigger] arr@[p] == tgt[p] by {
                    assert(arr@[p] == arr@.subrange(base as int, limit as int)[p - base]);
                }
                lemma_stack_unchanged(old_arr, arr@, stack@, base as int, limit as int, tgt, less);
            }
            let ghost old_hs = hs;
            proof {
                hs = lemma_finalize(arr@, old_hs, base as int, limit as int, less);
            }
            let ghost old_st = stack@;
            let ghost old_base = base;
            let ghost old_limit = limit;
            if stack.len() > 0 {
                let (b, l) = stack.pop().unwrap();
                base = b;
                limit = l;
                proof {
                    let st = stack@;
                    assert(old_st.drop_last() =~= st);
                    assert(old_st.last() == (b, l));
                    assert(is_seg(old_hs, b as int, l as int));
                    assert forall|k: int| 0 <= k < st.len() implies (#[trigger] st[k]).0 <= st[k].1
                        <= n && is_seg(hs, st[k].0 as int, st[k].1 as int) by {
                        assert(st[k] == old_st[k]);
                        assert(is_seg(old_hs, st[k].0 as int, st[k].1 as int));
                    }
                    assert forall|k: int| 0 <= k < st.len() implies (#[trigger] st[k]).1 <= base
                        || limit <= st[k].0 by {
                        assert(st[k] == old_st[k]);
                        assert(old_st[old_st.len() - 1] == (b, l));
                    }
                    assert forall|p: int|
                        0 <= p < n && hs[p] != p + 1 implies (base <= p < limit || in_stack(st, p)) by {
                        let k = choose|k: int|
                            0 <= k < old_st.len() && (#[trigger] old_st[k]).0 <= p < old_st[k].1;
                        if k < st.len() {
                            assert(st[k] == old_st[k]);
                        }
                    }
                    let top = old_st.len() - 1;
                    assert(old_st[top] == (b, l));
                    assert forall|p: int| base <= p < limit implies #[trigger] tgt[p]
                        == quick_sort_spec(arr@.subrange(base as int, limit as int), less)[p - base] by {
                        assert(old_st[top].0 <= p < old_st[top].1);
                    }
                    assert forall|k: int, p: int|
                        0 <= k < st.len() && (#[trigger] st[k]).0 <= p < st[k].1 implies #[trigger] tgt[p]
                            == quick_sort_spec(arr@.subrange(st[k].0 as int, st[k].1 as int), less)[p
                            - st[k].0] by {
                        assert(st[k] == old_st[k]);
                    }
                    assert forall|p: int|
                        0 <= p < n && !(base <= p < limit) && !in_stack(st, p) implies #[trigger] arr@[p]
                            == tgt[p] by {
                        if !(old_base <= p < old_limit) {
                            if in_stack(old_st, p) {
                                let k = choose|k: int|
                                    0 <= k < old_st.len() && (#[trigger] old_st[k]).0 <= p
                                        < old_st[k].1;
                                if k < st.len() {
                                    assert(st[k] == old_st[k]);
                                }
                            }
                        }
                    }
                }
            } else {
                proof {
                    assert forall|p: int| 0 <= p < n implies hs[p] == p + 1 by {
                        if hs[p] != p + 1 {
                            assert(!in_stack(stack@, p));
                        }
                    }
                    assert forall|p: int| 0 <= p < n implies #[trigger] arr@[p] == tgt[p] by {
                        if !(old_base <= p < old_limit) {
                            assert(!in_stack(stack@, p));
                        }
                    }
                }
                break ;
            }
        }
    }
    proof {
        assert forall|p: int, q: int| 0 <= p < q < arr@.len() implies nlt(
            less,
            #[trigger] arr@[q],
            #[trigger] arr@[p],
        ) by {
            assert(hs[p] == p + 1);
        }
        assert forall|r: spec_fn(T, T) -> bool| orders(less, r) implies sorted_by(arr@, r) by {
            reveal(nlt);
            assert forall|p: int, q: int| 0 <= p < q < arr@.len() implies !r(
                #[trigger] arr@[q],
                #[trigger] arr@[p],
            ) by {
                assert(nlt(less, arr@[q], arr@[p]));
            }
        }
        assert(arr@ =~= tgt);
    }
}

// ---------------------------------------------------------------------------
// remove_duplicates
// ---------------------------------------------------------------------------
/// `s` with every element that equals its predecessor (under `eq`) dropped.
pub open spec fn dedup_spec<T>(s: Seq<T>, eq: spec_fn(T, T) -> bool) -> Seq<T>
    decreases s.len(),
{
    if s.len() <= 1 {
        s
    } else {
        let p = dedup_spec(s.drop_last(), eq);
        if eq(s.last(), s[s.len() - 2]) {
            p
        } else {
            p.push(s.last())
        }
    }
}

/// Removes consecutive duplicates from the front of `arr`, comparing each
/// element with its predecessor by `equal`: whatever relation `equal`
/// compares by, the first `n` elements become `arr` with each element equal
/// to its predecessor dropped, and `n` is returned. The elements from `n`
/// on are left as they were.
pub fn remove_duplicates<T: Copy, F: Fn(&T, &T) -> bool>(arr: &mut [T], equal: &F) -> (n: usize)
    requires
        forall|a: T, b: T| #[trigger] equal.requires((&a, &b)),
    ensures
        final(arr)@.len() == old(arr)@.len(),
        forall|eq: spec_fn(T, T) -> bool|
            decides(equal, eq) ==> n == dedup_spec(old(arr)@, eq).len() && final(arr)@.subrange(
                0,
                n as int,
            ) == dedup_spec(old(arr)@, eq),
        final(arr)@.subrange(n as int, old(arr)@.len() as int) == old(arr)@.subrange(
            n as int,
            old(arr)@.len() as int,
        ),
{
    let len = arr.len();
    if len < 2 {
        assert(old(arr)@.subrange(0, len as int) == old(arr)@);
        return len;
    }
    let ghost orig = arr@;
    let mut j: usize = 1;
    let mut i: usize = 1;
    assert forall|eq: spec_fn(T, T) -> bool| decides(equal, eq) implies dedup_spec(
        orig.subrange(0, 1),
        eq,
    ) == orig.subrange(0, 1) && arr@.subrange(0, 1) == orig.subrange(0, 1) by {}
    while i < len
        invariant
            forall|a: T, b: T| #[trigger] equal.requires((&a, &b)),
            1 <= j <= i <= len,
            len == arr@.len(),
            orig.len() == len,
            forall|eq: spec_fn(T, T) -> bool|
                decides(equal, eq) ==> dedup_spec(orig.subrange(0, i as int), eq).len() == j
                    && arr@.subrange(0, j as int) == dedup_spec(orig.subrange(0, i as int), eq),
            forall|k: int| j <= k < len ==> arr@[k] == orig[k],
            j < i ==> arr@[i - 1] == orig[i - 1],
            j == i ==> forall|k: int| 0 <= k < i ==> arr@[k] == orig[k],
        decreases len - i,
    {
        let ghost pre = orig.subrange(0, i + 1);
        let ghost before = arr@;
        let ghost j0 = j;
        assert(pre.drop_last() == orig.subrange(0, i as int));
        assert(pre.last() == orig[i as int]);
        assert(pre[pre.len() - 2] == orig[i - 1]);
        assert(arr@[i - 1] == orig[i - 1]);
        let same = equal(&arr[i], &arr[i - 1]);
        if !same {
            let v = arr[i];
            arr[j] = v;
            j = j + 1;
        }
        i = i + 1;
        assert forall|eq: spec_fn(T, T) -> bool| decides(equal, eq) implies dedup_spec(
            orig.subrange(0, i as int),
            eq,
        ).len() == j && arr@.subrange(0, j as int) == dedup_spec(orig.subrange(0, i as int), eq) by {
            assert(eq(orig[i - 1], orig[i - 2]) == same);
            assert(arr@.subrange(0, j as int) =~= dedup_spec(orig.subrange(0, i as int), eq));
        }
    }
    assert(orig.subrange(0, len as int) == orig);
    proof {
        assert forall|k: int| j <= k < len implies arr@[k] == orig[k] by {}
        assert(arr@.subrange(j as int, len as int) =~= orig.subrange(j as int, len as int));
    }
    j
}

// ---------------------------------------------------------------------------
// invert_container
// ---------------------------------------------------------------------------
/// Reverses `arr` in place.
pub fn invert_container<T: Copy>(arr: &mut [T])
    ensures
        final(arr)@ == old(arr)@.reverse(),
{
    let len = arr.len();
    let ghost orig = arr@;
    let mut k: usize = 0;
    while k < len / 2
        invariant
            len == arr@.len(),
            orig.len() == len,
            k <= len / 2,
            forall|p: int| 0 <= p < k ==> arr@[p] == orig[len - 1 - p],
            forall|p: int| 0 <= p < k ==> arr@[len - 1 - p] == orig[p],
            forall|p: int| k <= p < len - k ==> arr@[p] == orig[p],
        decreases len / 2 - k,
    {
        let a = arr[k];
        let b = arr[len - 1 - k];
        arr[k] = b;
        arr[len - 1 - k] = a;
        k = k + 1;
    }
    assert(arr@ =~= orig.reverse());
}

// ---------------------------------------------------------------------------
// binary_search_pos
// ---------------------------------------------------------------------------
/// What `binary_search_pos` promises of its result `r` when `less`
/// compares `val` with the elements by the relation `rel`: `r` is 0 when
/// `arr` is empty or `val` is less than its first element, `len` when `val`
/// is not less than its last element, and otherwise a position with `val`
/// not less than `arr[r-1]` but less than `arr[r]`. On an array where
/// "`val` is less than" holds from some point on, `r` is exactly that point.
pub open spec fn search_pos_result<T, V>(arr: Seq<T>, val: V, rel: spec_fn(V, T) -> bool, r: int) -> bool {
    &&& r == 0 ==> arr.len() == 0 || rel(val, arr[0])
    &&& r == arr.len() && r > 0 ==> !rel(val, arr[r - 1])
    &&& 0 < r < arr.len() ==> !rel(val, arr[r - 1]) && rel(val, arr[r])
    &&& (forall|p: int, q: int|
        0 <= p < q < arr.len() && rel(val, #[trigger] arr[p]) ==> rel(val, #[trigger] arr[q]))
        ==> (forall|k: int| 0 <= k < r ==> !rel(val, #[trigger] arr[k])) && (forall|k: int|
        r <= k < arr.len() ==> rel(val, #[trigger] arr[k]))
}

/// The insertion position of `val` in `arr` by binary search with `less`:
/// whatever relation `less` compares by, the result is as
/// `search_pos_result` describes.
pub fn binary_search_pos<T, V, F: Fn(&V, &T) -> bool>(arr: &[T], val: &V, less: &F) -> (r: usize)
    requires
        forall|a: V, b: T| #[trigger] less.requires((&a, &b)),
        forall|a: V, b: T| !(#[trigger] less.ensures((&a, &b), true) && less.ensures((&a, &b), false)),
    ensures
        r <= arr@.len(),
        forall|rel: spec_fn(V, T) -> bool|
            decides(less, rel) ==> search_pos_result(arr@, *val, rel, r as int),
{
    if arr.len() == 0 {
        return 0;
    }
    let mut beg: usize = 0;
    let mut end: usize = arr.len() - 1;
    if less(val, &arr[0]) {
        return 0;
    }
    if !less(val, &arr[end]) {
        assert forall|rel: spec_fn(V, T) -> bool| decides(less, rel) implies search_pos_result(
            arr@,
            *val,
            rel,
            end + 1,
        ) by {
            assert(!rel(*val, arr@[end as int]));
            assert(!rel(*val, arr@[0]));
        }
        return end + 1;
    }
    while end - beg > 1
        invariant
            beg < end < arr@.len(),
            forall|rel: spec_fn(V, T) -> bool|
                decides(less, rel) ==> !rel(*val, arr@[beg as int]) && rel(*val, arr@[end as int]),
            forall|a: V, b: T| #[trigger] less.requires((&a, &b)),
        decreases end - beg,
    {
        let mid = beg + (end - beg) / 2;
        if less(val, &arr[mid]) {
            end = mid;
        } else {
            beg = mid;
        }
    }
    assert forall|rel: spec_fn(V, T) -> bool| decides(less, rel) implies search_pos_result(
        arr@,
        *val,
        rel,
        end as int,
    ) by {
        assert(!rel(*val, arr@[beg as int]) && rel(*val, arr@[end as int]));
        if forall|p: int, q: int|
            0 <= p < q < arr@.len() && rel(*val, #[trigger] arr@[p]) ==> rel(*val, #[trigger] arr@[q]) {
            assert forall|k: int| 0 <= k < end implies !rel(*val, #[trigger] arr@[k]) by {
                if rel(*val, arr@[k]) {
                    assert(rel(*val, arr@[beg as int]));
                }
            }
        }
    }
    end
}

} // verus!

