use vstd::arithmetic::div_mod::{lemma_fundamental_div_mod, lemma_fundamental_div_mod_converse};
use vstd::prelude::*;

verus! {

/// Rounds `x / d` toward negative infinity (mathematical division by a
/// positive divisor).
pub open spec fn floor_div_spec(x: int, d: int) -> int {
    x / d
}

/// Rounds `x / d` toward positive infinity.
pub open spec fn ceil_div_spec(x: int, d: int) -> int {
    -((-x) / d)
}

/// Division rounding toward negative infinity, unlike `/` on signed integers.
pub fn floor_div(x: i64, d: i64) -> (r: i64)
    requires
        d > 0,
    ensures
        r == floor_div_spec(x as int, d as int),
{
    if x >= 0 {
        x / d
    } else {
        let n: i64 = -(x + 1);
        let q: i64 = n / d;
        proof {
            lemma_fundamental_div_mod(n as int, d as int);
            let r = n as int % d as int;
            assert(x as int == (-q - 1) * d + (d - r - 1)) by (nonlinear_arith)
                requires
                    n as int == d * q + r,
                    x as int == -(n as int) - 1,
            ;
            lemma_fundamental_div_mod_converse(x as int, d as int, -q - 1, d - r - 1);
        }
        -q - 1
    }
}

/// Division rounding toward positive infinity.
pub fn ceil_div(x: i64, d: i64) -> (r: i64)
    requires
        d > 0,
        x > i64::MIN,
    ensures
        r == ceil_div_spec(x as int, d as int),
{
    let q = floor_div(-x, d);
    proof {
        lemma_floor_div_bounds(-x as int, d as int);
        assert(q > i64::MIN) by (nonlinear_arith)
            requires
                q * d <= -x,
                -x < q * d + d,
                d >= 1,
                -x > i64::MIN,
        ;
    }
    -q
}

/// The floored quotient brackets its dividend.
pub proof fn lemma_floor_div_bounds(x: int, d: int)
    requires
        d > 0,
    ensures
        floor_div_spec(x, d) * d <= x < floor_div_spec(x, d) * d + d,
{
    lemma_fundamental_div_mod(x, d);
    assert(x / d * d == d * (x / d)) by (nonlinear_arith);
}

/// The ceiled quotient brackets its dividend.
pub proof fn lemma_ceil_div_bounds(x: int, d: int)
    requires
        d > 0,
    ensures
        ceil_div_spec(x, d) * d - d < x <= ceil_div_spec(x, d) * d,
{
    lemma_floor_div_bounds(-x, d);
    let f = floor_div_spec(-x, d);
    assert(ceil_div_spec(x, d) * d == -(f * d)) by (nonlinear_arith)
        requires
            ceil_div_spec(x, d) == -f,
    ;
}

} // verus!
