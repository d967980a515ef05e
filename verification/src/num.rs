//! Fixed-point arithmetic helpers.
//!
//! A coordinate is an `i64` counting units of `1 / SCALE` blocks.  All
//! rounding is truncation toward zero, which is stated exactly by
//! [`trunc_div`] so that every caller's contract pins its result down.

use vstd::prelude::*;

verus! {

/// Number of fixed-point units per block (one unit is a thousandth of a block).
pub const SCALE: i64 = 1000;

/// Largest magnitude a stored coordinate (position, velocity, box bound) may
/// have.  Generous enough for any world while keeping every intermediate
/// product of the algorithms inside `i128`.
pub const COORD_LIMIT: i64 = 1_000_000_000_000_000;

/// Truncated division (rounds toward zero), the convention used by all
/// fixed-point operations in this crate.  Defined for a positive divisor.
pub open spec fn trunc_div(a: int, b: int) -> int
    recommends
        b > 0,
{
    if a >= 0 {
        a / b
    } else {
        -((-a) / b)
    }
}

/// The magnitude of a truncated quotient never exceeds the magnitude of the
/// dividend, and the quotient has the sign of the dividend.
pub proof fn lemma_trunc_div_bound(a: int, b: int)
    requires
        b > 0,
    ensures
        a >= 0 ==> 0 <= trunc_div(a, b) <= a,
        a < 0 ==> a <= trunc_div(a, b) <= 0,
        abs_int(trunc_div(a, b)) <= abs_int(a),
{
    if a >= 0 {
        vstd::arithmetic::div_mod::lemma_div_pos_is_pos(a, b);
        vstd::arithmetic::div_mod::lemma_div_nonincreasing(a, b);
    } else {
        vstd::arithmetic::div_mod::lemma_div_pos_is_pos(-a, b);
        vstd::arithmetic::div_mod::lemma_div_nonincreasing(-a, b);
    }
}

/// Truncated division of `a` by a positive divisor `b`, on `i128`.
pub fn div_trunc_i128(a: i128, b: i128) -> (r: i128)
    requires
        b > 0,
        a > i128::MIN,
    ensures
        r == trunc_div(a as int, b as int),
{
    proof {
        lemma_trunc_div_bound(a as int, b as int);
    }
    if a >= 0 {
        a / b
    } else {
        let neg: i128 = -a;
        -(neg / b)
    }
}

/// Fixed-point product `a * b / SCALE`, truncated toward zero.
pub open spec fn spec_fmul(a: int, b: int) -> int {
    trunc_div(a * b, SCALE as int)
}

/// Fixed-point multiplication: the product of two fixed-point values scaled
/// back down, truncated toward zero.
pub fn fmul(a: i64, b: i64) -> (r: i64)
    requires
        -0x7fff_ffff_ffff_ffff <= spec_fmul(a as int, b as int) <= 0x7fff_ffff_ffff_ffff,
    ensures
        r == spec_fmul(a as int, b as int),
{
    let wide: i128 = (a as i128) * (b as i128);
    proof {
        assert(wide > i128::MIN) by (nonlinear_arith)
            requires
                wide == a as int * b as int,
                -0x8000_0000_0000_0000 <= a as int <= 0x7fff_ffff_ffff_ffff,
                -0x8000_0000_0000_0000 <= b as int <= 0x7fff_ffff_ffff_ffff,
        ;
    }
    let q: i128 = div_trunc_i128(wide, SCALE as i128);
    q as i64
}

/// `|spec_fmul(a, b)| <= |a|` whenever `|b| <= SCALE`: multiplying by a
/// factor of magnitude at most one cannot grow a value.
pub proof fn lemma_fmul_contracts(a: int, b: int)
    requires
        -(SCALE as int) <= b <= SCALE as int,
    ensures
        -abs_int(a) <= spec_fmul(a, b) <= abs_int(a),
{
    let s = SCALE as int;
    let p = a * b;
    lemma_trunc_div_bound(p, s);
    assert(-(abs_int(a) * s) <= p <= abs_int(a) * s) by (nonlinear_arith)
        requires
            -s <= b <= s,
            p == a * b,
    ;
    vstd::arithmetic::div_mod::lemma_div_multiples_vanish(abs_int(a), s);
    if p >= 0 {
        vstd::arithmetic::div_mod::lemma_div_is_ordered(p, abs_int(a) * s, s);
    } else {
        vstd::arithmetic::div_mod::lemma_div_is_ordered(-p, abs_int(a) * s, s);
    }
}

/// Magnitude of an integer.
pub open spec fn abs_int(a: int) -> int {
    if a >= 0 {
        a
    } else {
        -a
    }
}

/// Integer square root: the greatest `r` with `r * r <= n`.
pub fn isqrt_u128(n: u128) -> (r: u128)
    ensures
        r * r <= n,
        n < (r + 1) * (r + 1),
        r < 0x1_0000_0000_0000_0000,
{
    if n == 0 {
        return 0;
    }
    // Binary search over r in [lo, hi) maintaining lo*lo <= n < hi*hi.
    let mut lo: u128 = 0;
    let mut hi: u128 = 0x1_0000_0000_0000_0000;
    if n < hi - 1 {
        hi = n + 1;
    }
    proof {
        assert(hi * hi > n) by (nonlinear_arith)
            requires
                hi >= 0x1_0000_0000_0000_0000 || hi > n,
                hi >= 1,
                n <= 0xffff_ffff_ffff_ffff_ffff_ffff_ffff_ffff,
        ;
    }
    while lo + 1 < hi
        invariant
            lo * lo <= n,
            n < hi * hi,
            lo < hi,
            hi <= 0x1_0000_0000_0000_0000,
        decreases hi - lo,
    {
        let mid: u128 = lo + (hi - lo) / 2;
        proof {
            assert(mid * mid <= 0xffff_ffff_ffff_ffff_ffff_ffff_ffff_ffff) by (nonlinear_arith)
                requires
                    0 <= mid < 0x1_0000_0000_0000_0000,
            ;
        }
        let sq: u128 = mid * mid;
        if sq <= n {
            lo = mid;
        } else {
            hi = mid;
        }
    }
    lo
}

} // verus!
