//! Integer square roots and sums of sequences: the arithmetic that a window's level is made of.

use vstd::prelude::*;

verus! {

/// `r` is the integer square root of `n`: the largest integer whose square does not exceed `n`.
pub open spec fn is_floor_sqrt(r: int, n: int) -> bool {
    0 <= r && r * r <= n < (r + 1) * (r + 1)
}

/// The integer square root of `n`, for `n >= 0`.
pub open spec fn floor_sqrt(n: int) -> int {
    choose|r: int| is_floor_sqrt(r, n)
}

/// At most one integer is the integer square root of `n`.
pub proof fn lemma_floor_sqrt_unique(r1: int, r2: int, n: int)
    requires
        is_floor_sqrt(r1, n),
        is_floor_sqrt(r2, n),
    ensures
        r1 == r2,
{
    if r1 < r2 {
        assert((r1 + 1) * (r1 + 1) <= r2 * r2) by (nonlinear_arith)
            requires
                0 <= r1,
                r1 + 1 <= r2,
        ;
    } else if r2 < r1 {
        assert((r2 + 1) * (r2 + 1) <= r1 * r1) by (nonlinear_arith)
            requires
                0 <= r2,
                r2 + 1 <= r1,
        ;
    }
}

/// Every natural number has an integer square root.
pub proof fn lemma_floor_sqrt_exists(n: int)
    requires
        0 <= n,
    ensures
        exists|r: int| is_floor_sqrt(r, n),
    decreases n,
{
    if n == 0 {
        assert(is_floor_sqrt(0, 0));
    } else {
        let m = n - 1;
        lemma_floor_sqrt_exists(m);
        let r = choose|r: int| is_floor_sqrt(r, m);
        if (r + 1) * (r + 1) <= n {
            assert((r + 2) * (r + 2) > (r + 1) * (r + 1)) by (nonlinear_arith)
                requires
                    0 <= r,
            ;
            assert(is_floor_sqrt(r + 1, n));
        } else {
            assert(is_floor_sqrt(r, n));
        }
    }
}

/// `floor_sqrt(n)` is the integer square root of `n`, and nothing else is.
pub proof fn lemma_floor_sqrt(n: int)
    requires
        0 <= n,
    ensures
        is_floor_sqrt(floor_sqrt(n), n),
        forall|r: int| is_floor_sqrt(r, n) ==> r == floor_sqrt(n),
{
    lemma_floor_sqrt_exists(n);
    assert forall|r: int| is_floor_sqrt(r, n) implies r == floor_sqrt(n) by {
        lemma_floor_sqrt_unique(r, floor_sqrt(n), n);
    }
}

/// The integer square root of a square is the absolute value of its base.
pub proof fn lemma_floor_sqrt_of_square(c: int)
    ensures
        floor_sqrt(c * c) == if c >= 0 { c } else { -c },
{
    let a = if c >= 0 { c } else { -c };
    assert(a * a == c * c) by (nonlinear_arith)
        requires
            a == c || a == -c,
    ;
    assert(a * a < (a + 1) * (a + 1)) by (nonlinear_arith)
        requires
            0 <= a,
    ;
    assert(is_floor_sqrt(a, c * c));
    lemma_floor_sqrt(c * c);
}

/// The integer square root of `n`, found by bisection.
pub fn isqrt(n: u64) -> (r: u32)
    ensures
        r == floor_sqrt(n as int),
        is_floor_sqrt(r as int, n as int),
{
    let mut lo: u64 = 0;
    let mut hi: u64 = 0x1_0000_0000;
    assert(0x1_0000_0000 * 0x1_0000_0000 > n) by (nonlinear_arith)
        requires
            n <= 0xFFFF_FFFF_FFFF_FFFF,
    ;
    while hi - lo > 1
        invariant
            lo < hi <= 0x1_0000_0000,
            lo * lo <= n < hi * hi,
        decreases hi - lo,
    {
        let mid: u64 = lo + (hi - lo) / 2;
        assert(mid * mid <= 0xFFFF_FFFF * 0xFFFF_FFFF) by (nonlinear_arith)
            requires
                mid <= 0xFFFF_FFFF,
        ;
        if mid * mid <= n {
            lo = mid;
        } else {
            hi = mid;
        }
    }
    proof {
        assert(is_floor_sqrt(lo as int, n as int));
        lemma_floor_sqrt(n as int);
    }
    lo as u32
}

/// The sum of the terms of `s`.
pub open spec fn sum_of(s: Seq<int>) -> int
    decreases s.len(),
{
    if s.len() == 0 {
        0
    } else {
        sum_of(s.drop_last()) + s.last()
    }
}

/// The mean of the terms of `s`, rounded down; 0 where `s` is empty.
pub open spec fn mean_of(s: Seq<int>) -> int {
    if s.len() == 0 {
        0
    } else {
        sum_of(s) / (s.len() as int)
    }
}

/// Appending a term adds it to the sum.
pub proof fn lemma_sum_push(s: Seq<int>, x: int)
    ensures
        sum_of(s.push(x)) == sum_of(s) + x,
{
    assert(s.push(x).drop_last() =~= s);
}

/// The sum of a concatenation is the sum of the sums.
pub proof fn lemma_sum_concat(a: Seq<int>, b: Seq<int>)
    ensures
        sum_of(a + b) == sum_of(a) + sum_of(b),
    decreases b.len(),
{
    if b.len() > 0 {
        lemma_sum_concat(a, b.drop_last());
        assert((a + b).drop_last() =~= a + b.drop_last());
    }
}

/// Putting a term in front adds it to the sum.
pub proof fn lemma_sum_prepend(x: int, s: Seq<int>)
    ensures
        sum_of(seq![x] + s) == x + sum_of(s),
{
    lemma_sum_concat(seq![x], s);
    assert(seq![x].drop_last() =~= Seq::<int>::empty());
    assert(sum_of(Seq::<int>::empty()) == 0);
}

/// Taking the first term away takes it off the sum.
pub proof fn lemma_sum_drop_first(s: Seq<int>)
    requires
        s.len() > 0,
    ensures
        sum_of(s) == s[0] + sum_of(s.drop_first()),
{
    assert(s =~= seq![s[0]] + s.drop_first());
    lemma_sum_prepend(s[0], s.drop_first());
}

/// A sum lies between its length times a lower and times an upper bound of its terms.
pub proof fn lemma_sum_bounds(s: Seq<int>, lo: int, hi: int)
    requires
        forall|i: int| 0 <= i < s.len() ==> lo <= #[trigger] s[i] <= hi,
    ensures
        s.len() * lo <= sum_of(s) <= s.len() * hi,
    decreases s.len(),
{
    if s.len() > 0 {
        let t = s.drop_last();
        lemma_sum_bounds(t, lo, hi);
        assert(s.len() * lo == t.len() * lo + lo && s.len() * hi == t.len() * hi + hi)
            by (nonlinear_arith)
            requires
                s.len() == t.len() + 1,
        ;
    }
}

/// A sum of natural numbers is a natural number.
pub proof fn lemma_sum_nonnegative(s: Seq<int>)
    requires
        forall|i: int| 0 <= i < s.len() ==> 0 <= #[trigger] s[i],
    ensures
        0 <= sum_of(s),
    decreases s.len(),
{
    if s.len() > 0 {
        lemma_sum_nonnegative(s.drop_last());
    }
}

/// The sum of `n` equal terms.
pub proof fn lemma_sum_constant(n: nat, c: int)
    ensures
        sum_of(Seq::new(n, |i: int| c)) == n * c,
{
    let s = Seq::new(n, |i: int| c);
    lemma_sum_bounds(s, c, c);
}

} // verus!
