use vstd::prelude::*;

verus! {

/// `v` is within the range of an `i64`.
pub open spec fn fits_i64(v: int) -> bool {
    i64::MIN <= v <= i64::MAX
}

/// `a / b` as Rust divides integers: the quotient rounded toward zero.
pub open spec fn tdiv(a: int, b: int) -> int
    recommends
        b > 0,
{
    if a >= 0 {
        a / b
    } else {
        -((-a) / b)
    }
}

/// `a % b` as Rust computes it: what is left after `tdiv`, with the sign of `a`.
pub open spec fn trem(a: int, b: int) -> int
    recommends
        b > 0,
{
    a - tdiv(a, b) * b
}

pub proof fn lemma_tdiv_bounds(a: int, b: int)
    requires
        b > 0,
    ensures
        a >= 0 ==> 0 <= tdiv(a, b) * b <= a && a - tdiv(a, b) * b < b,
        a < 0 ==> a <= tdiv(a, b) * b <= 0 && tdiv(a, b) * b - a < b,
        a >= 0 ==> 0 <= tdiv(a, b) <= a,
        a < 0 ==> a <= tdiv(a, b) <= 0,
{
    if a >= 0 {
        assert(0 <= (a / b) * b <= a && a - (a / b) * b < b) by (nonlinear_arith)
            requires a >= 0, b > 0;
        assert(0 <= a / b <= a) by (nonlinear_arith)
            requires a >= 0, b > 0;
    } else {
        let m = -a;
        assert(0 <= (m / b) * b <= m && m - (m / b) * b < b) by (nonlinear_arith)
            requires m > 0, b > 0;
        assert(0 <= m / b <= m) by (nonlinear_arith)
            requires m > 0, b > 0;
        let q = m / b;
        assert((-q) * b == -(q * b)) by (nonlinear_arith);
    }
}

/// Rounding toward zero keeps the order of the numbers divided.
pub proof fn lemma_tdiv_monotonic(a: int, c: int, b: int)
    requires
        b > 0,
        a <= c,
    ensures
        tdiv(a, b) <= tdiv(c, b),
{
    if a >= 0 {
        vstd::arithmetic::div_mod::lemma_div_is_ordered(a, c, b);
    } else if c >= 0 {
        lemma_tdiv_bounds(a, b);
        lemma_tdiv_bounds(c, b);
    } else {
        vstd::arithmetic::div_mod::lemma_div_is_ordered(-c, -a, b);
    }
}

} // verus!
