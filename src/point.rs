//! Points of a short Weierstrass curve `y² = x³ + a·x + b` with integer
//! coordinates, and the group law on them.
use crate::chord::{
    lemma_chord_relation, lemma_tangent_relation, lemma_third_point_on_curve,
};
use vstd::arithmetic::div_mod::lemma_fundamental_div_mod;
use vstd::prelude::*;

verus! {

/// Whether `(x, y)` satisfies `y² = x³ + a·x + b`.
pub open spec fn on_curve(x: int, y: int, a: int, b: int) -> bool {
    y * y == x * x * x + a * x + b
}

/// Whether the coordinates name a point of the curve: both absent (the point
/// at infinity), or both present and satisfying the curve equation.
pub open spec fn is_point(x: Option<i32>, y: Option<i32>, a: int, b: int) -> bool {
    match (x, y) {
        (None, None) => true,
        (Some(xv), Some(yv)) => on_curve(xv as int, yv as int, a, b),
        _ => false,
    }
}

/// The position of a point as a pair of integers, `None` for the point at infinity.
pub open spec fn position(x: Option<i32>, y: Option<i32>) -> Option<(int, int)> {
    match (x, y) {
        (Some(xv), Some(yv)) => Some((xv as int, yv as int)),
        _ => None,
    }
}

/// Whether `v` can be held in an `i32`.
pub open spec fn fits_i32(v: int) -> bool {
    i32::MIN <= v <= i32::MAX
}

/// What the group law gives for two points of a curve over the rational
/// numbers, where only points with integer coordinates can be held.
pub enum GroupSum {
    /// The point at infinity.
    Infinity,
    /// The affine point with these coordinates.
    Affine(int, int),
    /// A point whose coordinates are not integers.
    NotIntegral,
}

/// The slope of the line through two finite points, as numerator and
/// denominator: the tangent `(3·x1² + a) / (2·y1)` when the `x` coordinates
/// agree, else the chord `(y2 − y1) / (x2 − x1)`.
pub open spec fn slope_fraction(x1: int, y1: int, x2: int, y2: int, a: int) -> (int, int) {
    if x1 == x2 {
        (3 * x1 * x1 + a, 2 * y1)
    } else {
        (y2 - y1, x2 - x1)
    }
}

/// A position as a result of the group law.
pub open spec fn as_sum(p: Option<(int, int)>) -> GroupSum {
    match p {
        None => GroupSum::Infinity,
        Some((x, y)) => GroupSum::Affine(x, y),
    }
}

/// The sum of the points at positions `p` and `q` (`None` for infinity) on a
/// curve with coefficient `a`:
/// - infinity is the identity;
/// - two points on one vertical line (same `x`, different `y`), or a point
///   doubled whose tangent is vertical (`y == 0`), sum to infinity;
/// - otherwise, with `s` the slope of the tangent (equal points) or chord
///   (distinct points), `x3 = s² − x1 − x2` and `y3 = s·(x1 − x3) − y1`.
pub open spec fn group_sum(p: Option<(int, int)>, q: Option<(int, int)>, a: int) -> GroupSum {
    match (p, q) {
        (None, _) => as_sum(q),
        (_, None) => as_sum(p),
        (Some((x1, y1)), Some((x2, y2))) => {
            if x1 == x2 && (y1 != y2 || y1 == 0) {
                GroupSum::Infinity
            } else {
                let (n, d) = slope_fraction(x1, y1, x2, y2, a);
                if n % d != 0 {
                    GroupSum::NotIntegral
                } else {
                    let s = n / d;
                    let x3 = s * s - x1 - x2;
                    GroupSum::Affine(x3, s * (x1 - x3) - y1)
                }
            }
        },
    }
}

/// A point of a curve with integer coordinates: the point at infinity, the
/// group's identity, when `x` and `y` are both absent, else the affine point `(x, y)`.
#[derive(Clone, Copy, Debug, PartialEq, Eq, Structural)]
pub struct Point {
    a: i32,
    b: i32,
    x: Option<i32>,
    y: Option<i32>,
}

impl Point {
    #[verifier::type_invariant]
    spec fn on_its_curve(self) -> bool {
        is_point(self.x, self.y, self.a as int, self.b as int)
    }

    /// The curve coefficient `a`, as contracts see it.
    pub closed spec fn spec_a(&self) -> i32 {
        self.a
    }

    /// The curve coefficient `b`, as contracts see it.
    pub closed spec fn spec_b(&self) -> i32 {
        self.b
    }

    /// The `x` coordinate, as contracts see it.
    pub closed spec fn spec_x(&self) -> Option<i32> {
        self.x
    }

    /// The `y` coordinate, as contracts see it.
    pub closed spec fn spec_y(&self) -> Option<i32> {
        self.y
    }

    /// The position of this point, `None` for the point at infinity.
    pub open spec fn coords(&self) -> Option<(int, int)> {
        position(self.spec_x(), self.spec_y())
    }

    /// The coefficient `a` of the curve this point lies on.
    #[verifier::when_used_as_spec(spec_a)]
    pub fn a(&self) -> (r: i32)
        ensures
            r == self.spec_a(),
            is_point(self.spec_x(), self.spec_y(), r as int, self.spec_b() as int),
    {
        proof {
            use_type_invariant(self);
        }
        self.a
    }

    /// The coefficient `b` of the curve this point lies on.
    #[verifier::when_used_as_spec(spec_b)]
    pub fn b(&self) -> (r: i32)
        ensures
            r == self.spec_b(),
            is_point(self.spec_x(), self.spec_y(), self.spec_a() as int, r as int),
    {
        proof {
            use_type_invariant(self);
        }
        self.b
    }

    /// The `x` coordinate, absent for the point at infinity.
    #[verifier::when_used_as_spec(spec_x)]
    pub fn x(&self) -> (r: Option<i32>)
        ensures
            r == self.spec_x(),
            is_point(r, self.spec_y(), self.spec_a() as int, self.spec_b() as int),
    {
        proof {
            use_type_invariant(self);
        }
        self.x
    }

    /// The `y` coordinate, absent for the point at infinity.
    #[verifier::when_used_as_spec(spec_y)]
    pub fn y(&self) -> (r: Option<i32>)
        ensures
            r == self.spec_y(),
            is_point(self.spec_x(), r, self.spec_a() as int, self.spec_b() as int),
    {
        proof {
            use_type_invariant(self);
        }
        self.y
    }

    /// Builds the point `(x, y)` of the curve `y² = x³ + a·x + b`, or the point
    /// at infinity of that curve when both coordinates are absent.
    pub fn new(x: Option<i32>, y: Option<i32>, a: i32, b: i32) -> (r: Result<Point, &'static str>)
        ensures
            match r {
                Ok(p) => is_point(x, y, a as int, b as int) && p.x() == x && p.y() == y && p.a()
                    == a && p.b() == b,
                Err(msg) => !is_point(x, y, a as int, b as int) && msg == "not on the curve",
            },
    {
        match (x, y) {
            (None, None) => Ok(Point { a, b, x, y }),
            (Some(xv), Some(yv)) => {
                let xw = xv as i128;
                let yw = yv as i128;
                proof {
                    lemma_cubic_bounds(xw as int, yw as int, a as int, b as int);
                }
                if yw * yw == xw * xw * xw + (a as i128) * xw + (b as i128) {
                    Ok(Point { a, b, x, y })
                } else {
                    Err("not on the curve")
                }
            },
            _ => Err("not on the curve"),
        }
    }
}

impl Point {
    /// The sum of two points of one curve under the group law.
    ///
    /// The sum of two points with integer coordinates need not have integer
    /// coordinates; such a sum, and one whose coordinates do not fit in `i32`,
    /// is refused.
    pub fn add(self, other: Point) -> (r: Result<Point, &'static str>)
        requires
            self.a() == other.a(),
            self.b() == other.b(),
        ensures
            self.coords() is None ==> r == Ok::<Point, &'static str>(other),
            other.coords() is None ==> r == Ok::<Point, &'static str>(self),
            match group_sum(self.coords(), other.coords(), self.a() as int) {
                GroupSum::Infinity => r matches Ok(s) && s.x() is None && s.y() is None && s.a()
                    == self.a() && s.b() == self.b(),
                GroupSum::Affine(x3, y3) => if fits_i32(x3) && fits_i32(y3) {
                    r matches Ok(s) && s.x() == Some(x3 as i32) && s.y() == Some(y3 as i32) && s.a()
                        == self.a() && s.b() == self.b()
                } else {
                    r == Err::<Point, &'static str>("sum is out of range")
                },
                GroupSum::NotIntegral => r == Err::<Point, &'static str>(
                    "sum is not an integer point",
                ),
            },
    {
        proof {
            use_type_invariant(&self);
            use_type_invariant(&other);
        }
        let (x1, y1) = match (self.x, self.y) {
            (Some(xv), Some(yv)) => (xv, yv),
            _ => return Ok(other),
        };
        let (x2, y2) = match (other.x, other.y) {
            (Some(xv), Some(yv)) => (xv, yv),
            _ => return Ok(self),
        };
        if x1 == x2 && (y1 != y2 || y1 == 0) {
            return Ok(Point { a: self.a, b: self.b, x: None, y: None });
        }
        let ghost (gx1, gy1, gx2, gy2) = (x1 as int, y1 as int, x2 as int, y2 as int);
        proof {
            lemma_cubic_bounds(gx1, gy1, self.a as int, self.b as int);
        }
        let (n, d): (i128, i128) = if x1 == x2 {
            let xx = (x1 as i128) * (x1 as i128);
            assert(3 * xx == 3 * gx1 * gx1) by (nonlinear_arith)
                requires
                    xx == gx1 * gx1,
            ;
            (3 * xx + self.a as i128, 2 * (y1 as i128))
        } else {
            ((y2 as i128) - (y1 as i128), (x2 as i128) - (x1 as i128))
        };
        assert((n as int, d as int) == slope_fraction(gx1, gy1, gx2, gy2, self.a as int));
        let rem = n.checked_rem_euclid(d).unwrap();
        if rem != 0 {
            return Err("sum is not an integer point");
        }
        let ghost q = n as int / d as int;
        proof {
            lemma_fundamental_div_mod(n as int, d as int);
            assert(q * d == n) by (nonlinear_arith)
                requires
                    n == d * q + 0,
            ;
            if x1 == x2 {
                lemma_quotient_bound(n as int, d as int, q, 2, 0xC000_0000_8000_0000);
                lemma_tangent_relation(gx1, gy1, q, self.a as int);
            } else {
                lemma_quotient_bound(n as int, d as int, q, 1, 0x1_0000_0000);
                lemma_chord_relation(gx1, gy1, gx2, gy2, q, self.a as int, self.b as int);
            }
            assert(0 <= q * q <= 0x4000_0000_0000_0000_0000_0000_0000_0000) by (nonlinear_arith)
                requires
                    -0x8000_0000_0000_0000 <= q <= 0x8000_0000_0000_0000,
            ;
            lemma_third_point_on_curve(gx1, gy1, gx2, q, self.a as int, self.b as int);
        }
        let s = n.checked_div_euclid(d).unwrap();
        assert(s == q);
        let x3 = s * s - (x1 as i128) - (x2 as i128);
        if x3 < i32::MIN as i128 || x3 > i32::MAX as i128 {
            return Err("sum is out of range");
        }
        proof {
            assert(-0x2_0000_0000_0000_0000_0000_0000 <= s * (x1 - x3)
                <= 0x2_0000_0000_0000_0000_0000_0000) by (nonlinear_arith)
                requires
                    -0x8000_0000_0000_0000 <= s <= 0x8000_0000_0000_0000,
                    -0x1_0000_0000 <= x1 - x3 <= 0x1_0000_0000,
            ;
        }
        let y3 = s * ((x1 as i128) - x3) - (y1 as i128);
        if y3 < i32::MIN as i128 || y3 > i32::MAX as i128 {
            return Err("sum is out of range");
        }
        Ok(Point { a: self.a, b: self.b, x: Some(x3 as i32), y: Some(y3 as i32) })
    }
}

/// Two points with the same coordinates on the same curve are equal.
pub proof fn lemma_point_ext(p: Point, q: Point)
    requires
        p.spec_x() == q.spec_x(),
        p.spec_y() == q.spec_y(),
        p.spec_a() == q.spec_a(),
        p.spec_b() == q.spec_b(),
    ensures
        p == q,
{
}

/// The point at infinity is an identity of the group law on either side.
pub proof fn lemma_identity_law(p: Option<(int, int)>, a: int)
    ensures
        group_sum(p, None, a) == as_sum(p),
        group_sum(None, p, a) == as_sum(p),
{
}

/// A point `(x, y)` with `y != 0` and its mirror image `(x, −y)` sum to infinity.
pub proof fn lemma_vertical_pair(x: int, y: int, a: int)
    requires
        y != 0,
    ensures
        group_sum(Some((x, y)), Some((x, -y)), a) == GroupSum::Infinity,
{
}

/// The group law is commutative: `P + Q == Q + P`.
pub proof fn lemma_sum_commutative(p: Option<(int, int)>, q: Option<(int, int)>, a: int)
    ensures
        group_sum(p, q, a) == group_sum(q, p, a),
{
    if let (Some((x1, y1)), Some((x2, y2))) = (p, q) {
        if x1 != x2 {
            let n = y2 - y1;
            let d = x2 - x1;
            if n % d == 0 {
                lemma_exact_quotient_negated(n, d);
            } else if (-n) % (-d) == 0 {
                lemma_exact_quotient_negated(-n, -d);
            }
            if n % d == 0 {
                let s = n / d;
                assert(s * (x1 - (s * s - x1 - x2)) - y1 == s * (x2 - (s * s - x2 - x1)) - y2)
                    by (nonlinear_arith)
                    requires
                        s * d == n,
                        n == y2 - y1,
                        d == x2 - x1,
                ;
            }
        }
    }
}

/// An exact quotient stays when both dividend and divisor change sign.
proof fn lemma_exact_quotient_negated(n: int, d: int)
    requires
        d != 0,
        n % d == 0,
    ensures
        (n / d) * d == n,
        (-n) % (-d) == 0,
        (-n) / (-d) == n / d,
{
    lemma_fundamental_div_mod(n, d);
    assert((n / d) * d == n) by (nonlinear_arith)
        requires
            n == d * (n / d) + 0,
    ;
    assert(-n == (n / d) * (-d)) by (nonlinear_arith)
        requires
            (n / d) * d == n,
    ;
    lemma_exact_quotient(-n, -d, n / d);
}

/// A divisor that divides exactly leaves no remainder, and the quotient is the factor.
proof fn lemma_exact_quotient(n: int, d: int, s: int)
    requires
        d != 0,
        n == s * d,
    ensures
        n % d == 0,
        n / d == s,
{
    lemma_fundamental_div_mod(n, d);
    let q = n / d;
    let r = n % d;
    assert(r == 0 && q == s) by (nonlinear_arith)
        requires
            n == d * q + r,
            0 <= r < (if d > 0 { d } else { -d }),
            n == s * d,
    ;
}

/// An exact quotient is bounded by the dividend over the least size of the divisor.
proof fn lemma_quotient_bound(n: int, d: int, s: int, k: int, m: int)
    requires
        s * d == n,
        k > 0,
        d >= k || d <= -k,
        -m <= n <= m,
    ensures
        -m <= k * s <= m,
{
    assert(-m <= k * s <= m) by (nonlinear_arith)
        requires
            s * d == n,
            k > 0,
            d >= k || d <= -k,
            -m <= n <= m,
    ;
}

/// The terms of the curve equation at `i32` arguments stay far inside `i128`.
proof fn lemma_cubic_bounds(x: int, y: int, a: int, b: int)
    requires
        fits_i32(x),
        fits_i32(y),
        fits_i32(a),
        fits_i32(b),
    ensures
        0 <= y * y <= 0x4000_0000_0000_0000,
        -0x4000_0000_0000_0000 <= x * x <= 0x4000_0000_0000_0000,
        -0x2000_0000_0000_0000_0000_0000 <= x * x * x <= 0x2000_0000_0000_0000_0000_0000,
        -0x4000_0000_0000_0000 <= a * x <= 0x4000_0000_0000_0000,
{
    assert(0 <= y * y <= 0x4000_0000_0000_0000) by (nonlinear_arith)
        requires
            -0x8000_0000 <= y <= 0x8000_0000,
    ;
    assert(0 <= x * x <= 0x4000_0000_0000_0000) by (nonlinear_arith)
        requires
            -0x8000_0000 <= x <= 0x8000_0000,
    ;
    assert(-0x2000_0000_0000_0000_0000_0000 <= x * x * x <= 0x2000_0000_0000_0000_0000_0000)
        by (nonlinear_arith)
        requires
            -0x8000_0000 <= x <= 0x8000_0000,
            0 <= x * x <= 0x4000_0000_0000_0000,
    ;
    assert(-0x4000_0000_0000_0000 <= a * x <= 0x4000_0000_0000_0000) by (nonlinear_arith)
        requires
            -0x8000_0000 <= x <= 0x8000_0000,
            -0x8000_0000 <= a <= 0x8000_0000,
    ;
}

} // verus!
