//! Algebra of the line through two points of `y² = x³ + a·x + b`: the third
//! point where it meets the curve, reflected, lies on the curve again.
use crate::point::on_curve;
use vstd::prelude::*;

verus! {

/// For a line of slope `s` through `(x1, y1)` that meets the curve at `x1`
/// and `x2` (or touches it at `x1` when `x2 == x1`), the slope satisfies
/// `2·s·y1 == x1² + x1·x2 + x2² + a − s²·(x2 − x1)`.
pub open spec fn secant_relation(x1: int, y1: int, x2: int, s: int, a: int) -> bool {
    2 * s * y1 == x1 * x1 + x1 * x2 + x2 * x2 + a - s * s * (x2 - x1)
}

/// The tangent slope at `(x1, y1)` satisfies the secant relation with `x2 == x1`.
pub proof fn lemma_tangent_relation(x1: int, y1: int, s: int, a: int)
    requires
        s * (2 * y1) == 3 * x1 * x1 + a,
    ensures
        secant_relation(x1, y1, x1, s, a),
{
    assert(2 * s * y1 == s * (2 * y1)) by (nonlinear_arith);
    assert(s * s * (x1 - x1) == 0) by (nonlinear_arith);
    assert(x1 * x1 + x1 * x1 + x1 * x1 == 3 * x1 * x1) by (nonlinear_arith);
}

/// The chord slope through two points of the curve with distinct `x`
/// satisfies the secant relation.
pub proof fn lemma_chord_relation(x1: int, y1: int, x2: int, y2: int, s: int, a: int, b: int)
    requires
        on_curve(x1, y1, a, b),
        on_curve(x2, y2, a, b),
        x1 != x2,
        s * (x2 - x1) == y2 - y1,
    ensures
        secant_relation(x1, y1, x2, s, a),
{
    let d = x2 - x1;
    let lhs = s * (2 * y1 + s * d);
    let rhs = x1 * x1 + x1 * x2 + x2 * x2 + a;
    assert(y2 * y2 - y1 * y1 == d * rhs) by (nonlinear_arith)
        requires
            y1 * y1 == x1 * x1 * x1 + a * x1 + b,
            y2 * y2 == x2 * x2 * x2 + a * x2 + b,
            d == x2 - x1,
            rhs == x1 * x1 + x1 * x2 + x2 * x2 + a,
    ;
    assert(y2 * y2 - y1 * y1 == d * lhs) by (nonlinear_arith)
        requires
            y2 == y1 + s * d,
            lhs == s * (2 * y1 + s * d),
    ;
    assert(lhs == rhs) by (nonlinear_arith)
        requires
            d * lhs == d * rhs,
            d != 0,
    ;
    assert(lhs == 2 * s * y1 + s * s * d) by (nonlinear_arith)
        requires
            lhs == s * (2 * y1 + s * d),
    ;
}

/// The reflected third point of a line of slope `s` through `(x1, y1)` lies on the curve.
pub proof fn lemma_third_point_on_curve(x1: int, y1: int, x2: int, s: int, a: int, b: int)
    requires
        on_curve(x1, y1, a, b),
        secant_relation(x1, y1, x2, s, a),
    ensures
        on_curve(s * s - x1 - x2, s * (x1 - (s * s - x1 - x2)) - y1, a, b),
{
    let x3 = s * s - x1 - x2;
    let y3 = s * (x1 - x3) - y1;
    let u = x3 - x1;
    let q = x3 * x3 + x3 * x1 + x1 * x1 + a;
    assert(s * s * u + 2 * s * y1 == q) by (nonlinear_arith)
        requires
            2 * s * y1 == x1 * x1 + x1 * x2 + x2 * x2 + a - s * s * (x2 - x1),
            x3 == s * s - x1 - x2,
            u == x3 - x1,
            q == x3 * x3 + x3 * x1 + x1 * x1 + a,
    ;
    assert(y3 * y3 == y1 * y1 + u * (s * s * u + 2 * s * y1)) by (nonlinear_arith)
        requires
            y3 == s * (x1 - x3) - y1,
            u == x3 - x1,
    ;
    assert(x3 * x3 * x3 + a * x3 + b == x1 * x1 * x1 + a * x1 + b + u * q) by (nonlinear_arith)
        requires
            u == x3 - x1,
            q == x3 * x3 + x3 * x1 + x1 * x1 + a,
    ;
}

} // verus!
