//! Short-Weierstrass curves over a prime field and the chord-and-tangent
//! group law on their affine points.
//!
//! A curve is the triple `(a, b, p)` describing the solutions of
//! `y^2 = x^3 + a*x + b` modulo `p`; a point is a pair of signed residues
//! that need not be reduced. Membership testing reduces both sides of the
//! curve equation to canonical form, and point addition returns a point with
//! both coordinates in `[0, p)` or an explicit error: one of the inputs is
//! not on the curve, or the slope denominator has no inverse (a vertical
//! chord, or doubling a point whose ordinate is zero modulo `p`).

use vstd::prelude::*;

verus! {

use crate::field::{
    COORD_LIMIT,
    canonical_mod,
    congruent,
    fits,
    lemma_congruent_mul,
    lemma_congruent_reduce,
    lemma_congruent_sub,
};
use crate::group_law::{
    lemma_chord_result_on_curve,
    lemma_congruent_point_on_curve,
    lemma_tangent_result_on_curve,
    raw_sum_x,
    raw_sum_y,
};
use crate::inverse::{inv_mod, inverse_exists, lemma_inverse_unique, modular_inverse};
use vstd::arithmetic::div_mod::lemma_small_mod;

/// A short-Weierstrass curve `y^2 = x^3 + a*x + b` over the integers
/// modulo `p`.
///
/// The type performs no validation: callers are responsible for supplying a
/// prime `p` and a non-singular pair of coefficients.
#[derive(Clone, Copy, Debug, PartialEq, Eq, Structural)]
pub struct EllipticCurve {
    pub a: i128,
    pub b: i128,
    pub p: i128,
}

/// An affine point: a pair of field elements, stored as unreduced signed
/// residues. Equality is structural, component by component, not equality of
/// residue classes.
#[derive(Clone, Copy, Debug, PartialEq, Eq, Structural)]
pub struct Point {
    pub x: i128,
    pub y: i128,
}

/// Diagnostic payload for an addition rejected because a point is not on the
/// curve: the offending point and the curve it was tested against.
#[derive(Clone, Copy, Debug, PartialEq, Eq, Structural)]
pub struct InvalidPoint {
    pub point: Point,
    pub curve: EllipticCurve,
}

/// The conditions under which point addition returns no point.
#[derive(Clone, Copy, Debug, PartialEq, Eq, Structural)]
pub enum AddError {
    /// An input point does not satisfy the curve equation.
    NotOnCurve(InvalidPoint),
    /// The slope denominator is not invertible modulo `p`: the chord is
    /// vertical, or a point with ordinate congruent to zero is being
    /// doubled. The mathematical sum would be the point at infinity, which
    /// the affine representation cannot express.
    NonInvertibleSlope,
}

impl EllipticCurve {
    /// The modulus exceeds one and all parameters are small enough for the
    /// arithmetic of the group law to stay inside `i128`.
    pub open spec fn wf(self) -> bool {
        &&& 1 < self.p < COORD_LIMIT
        &&& fits(self.a)
        &&& fits(self.b)
    }

    /// The right-hand side of the curve equation at abscissa `x`, before
    /// reduction.
    pub open spec fn equation_rhs(self, x: int) -> int {
        x * x * x + self.a * x + self.b
    }

    /// The point satisfies the curve equation modulo `p`, both sides compared
    /// as canonical residues.
    pub open spec fn on_curve(self, pt: Point) -> bool {
        ((pt.y as int) * (pt.y as int)) % (self.p as int) == self.equation_rhs(pt.x as int) % (
        self.p as int)
    }

    pub fn new(a: i128, b: i128, p: i128) -> (c: Self)
        ensures
            c == (EllipticCurve { a, b, p }),
    {
        EllipticCurve { a, b, p }
    }

    /// Whether `point` lies on the curve. Both sides of the equation are
    /// reduced to canonical form before comparison, so the test is correct
    /// for unreduced, possibly negative, coordinates.
    pub fn contains(&self, point: &Point) -> (r: bool)
        requires
            self.wf(),
            point.bounded(),
        ensures
            r == self.on_curve(*point),
    {
        proof {
            lemma_bounded_products(point.x as int, point.y as int, self.a as int);
        }
        let lhs = canonical_mod(point.y * point.y, self.p);
        let rhs = canonical_mod(point.x * point.x * point.x + self.a * point.x + self.b, self.p);
        lhs == rhs
    }
}

/// Bounds on the products of the curve equation, so that the executable
/// arithmetic provably stays inside `i128`.
proof fn lemma_bounded_products(x: int, y: int, a: int)
    requires
        -COORD_LIMIT < x < COORD_LIMIT,
        -COORD_LIMIT < y < COORD_LIMIT,
        -COORD_LIMIT < a < COORD_LIMIT,
    ensures
        -COORD_LIMIT * COORD_LIMIT < y * y < COORD_LIMIT * COORD_LIMIT,
        -COORD_LIMIT * COORD_LIMIT < x * x < COORD_LIMIT * COORD_LIMIT,
        -COORD_LIMIT * COORD_LIMIT * COORD_LIMIT < x * x * x < COORD_LIMIT * COORD_LIMIT
            * COORD_LIMIT,
        -COORD_LIMIT * COORD_LIMIT < a * x < COORD_LIMIT * COORD_LIMIT,
{
    assert(-COORD_LIMIT * COORD_LIMIT < y * y < COORD_LIMIT * COORD_LIMIT) by (nonlinear_arith)
        requires
            -COORD_LIMIT < y < COORD_LIMIT,
    ;
    assert(-COORD_LIMIT * COORD_LIMIT < x * x < COORD_LIMIT * COORD_LIMIT) by (nonlinear_arith)
        requires
            -COORD_LIMIT < x < COORD_LIMIT,
    ;
    assert(-COORD_LIMIT * COORD_LIMIT * COORD_LIMIT < x * x * x < COORD_LIMIT * COORD_LIMIT
        * COORD_LIMIT) by (nonlinear_arith)
        requires
            -COORD_LIMIT < x < COORD_LIMIT,
            -COORD_LIMIT * COORD_LIMIT < x * x < COORD_LIMIT * COORD_LIMIT,
    ;
    assert(-COORD_LIMIT * COORD_LIMIT < a * x < COORD_LIMIT * COORD_LIMIT) by (nonlinear_arith)
        requires
            -COORD_LIMIT < x < COORD_LIMIT,
            -COORD_LIMIT < a < COORD_LIMIT,
    ;
}

impl InvalidPoint {
    pub fn new(point: Point, curve: EllipticCurve) -> (r: Self)
        ensures
            r == (InvalidPoint { point, curve }),
    {
        InvalidPoint { point, curve }
    }
}

impl Point {
    /// Both coordinates are small enough for the arithmetic of the group law
    /// to stay inside `i128`.
    pub open spec fn bounded(self) -> bool {
        fits(self.x) && fits(self.y)
    }

    pub fn new(x: i128, y: i128) -> (pt: Self)
        ensures
            pt == (Point { x, y }),
    {
        Point { x, y }
    }

    /// The sum of `one` and `other` under the chord-and-tangent rule.
    ///
    /// Both inputs must lie on the curve; the first offender is reported in
    /// the error, `one` before `other`. When the slope denominator (`2*y1`
    /// for doubling, `x2 - x1` for a chord) has no inverse modulo `p`, the
    /// sum would be the point at infinity and `NonInvertibleSlope` is
    /// returned. Otherwise the result is the reflected third intersection of
    /// the line through the points with the curve, both coordinates reduced
    /// to `[0, p)`; it lies on the curve again.
    pub fn add_over(one: Self, other: Self, curve: EllipticCurve) -> (r: Result<Self, AddError>)
        requires
            curve.wf(),
            one.bounded(),
            other.bounded(),
        ensures
            r is Ok <==> curve.on_curve(one) && curve.on_curve(other) && inverse_exists(
                slope_den(one, other),
                curve.p as int,
            ),
            r matches Ok(pt) ==> {
                &&& pt.x as int == sum_x(one, other, curve)
                &&& pt.y as int == sum_y(one, other, curve)
                &&& 0 <= pt.x < curve.p
                &&& 0 <= pt.y < curve.p
                &&& curve.on_curve(pt)
            },
            !curve.on_curve(one) ==> r == Err::<Point, AddError>(
                AddError::NotOnCurve(InvalidPoint { point: one, curve }),
            ),
            curve.on_curve(one) && !curve.on_curve(other) ==> r == Err::<Point, AddError>(
                AddError::NotOnCurve(InvalidPoint { point: other, curve }),
            ),
            curve.on_curve(one) && curve.on_curve(other) && !inverse_exists(
                slope_den(one, other),
                curve.p as int,
            ) ==> r == Err::<Point, AddError>(AddError::NonInvertibleSlope),
    {
        if !curve.contains(&one) {
            return Err(AddError::NotOnCurve(InvalidPoint::new(one, curve)));
        }
        if !curve.contains(&other) {
            return Err(AddError::NotOnCurve(InvalidPoint::new(other, curve)));
        }
        let ghost p = curve.p as int;
        let ghost x1 = one.x as int;
        let ghost y1 = one.y as int;
        let ghost x2 = other.x as int;
        let ghost y2 = other.y as int;
        let ghost sd = slope_den(one, other);
        let ghost sn = slope_num(one, other, curve);
        let num: i128;
        let den: i128;
        if one == other {
            proof {
                assert(-(3 * COORD_LIMIT * COORD_LIMIT) <= 3 * x1 * x1 <= 3 * COORD_LIMIT
                    * COORD_LIMIT) by (nonlinear_arith)
                    requires
                        -COORD_LIMIT < x1 < COORD_LIMIT,
                ;
            }
            num = 3 * one.x * one.x + curve.a;
            den = 2 * one.y;
        } else {
            num = other.y - one.y;
            den = other.x - one.x;
        }
        proof {
            assert(num as int == sn && den as int == sd);
            assert(-(3 * COORD_LIMIT * COORD_LIMIT + COORD_LIMIT) < (num as int) < 3 * COORD_LIMIT
                * COORD_LIMIT + COORD_LIMIT);
        }
        let inv = match modular_inverse(den, curve.p) {
            Ok(v) => v,
            Err(_) => {
                return Err(AddError::NonInvertibleSlope);
            },
        };
        proof {
            assert(inverse_exists(sd, p));
            let iv = inv_mod(sd, p);
            assert(0 <= iv < p && (sd * iv) % p == 1);
            lemma_inverse_unique(sd, p, inv as int, iv);
            assert(-(4 * COORD_LIMIT * COORD_LIMIT * COORD_LIMIT) < (num as int) * (inv as int)
                < 4 * COORD_LIMIT * COORD_LIMIT * COORD_LIMIT) by (nonlinear_arith)
                requires
                    -(3 * COORD_LIMIT * COORD_LIMIT + COORD_LIMIT) < (num as int) < 3 * COORD_LIMIT
                        * COORD_LIMIT + COORD_LIMIT,
                    0 <= (inv as int) < COORD_LIMIT,
            ;
        }
        let s = canonical_mod(num * inv, curve.p);
        proof {
            assert(0 <= (s as int) * (s as int) < COORD_LIMIT * COORD_LIMIT) by (nonlinear_arith)
                requires
                    0 <= (s as int) < COORD_LIMIT,
            ;
        }
        let x3 = canonical_mod(s * s - one.x - other.x, curve.p);
        proof {
            assert(-(2 * COORD_LIMIT * COORD_LIMIT) < (s as int) * (x1 - (x3 as int)) < 2
                * COORD_LIMIT * COORD_LIMIT) by (nonlinear_arith)
                requires
                    0 <= (s as int) < COORD_LIMIT,
                    -2 * COORD_LIMIT < x1 - (x3 as int) < 2 * COORD_LIMIT,
            ;
        }
        let y3 = canonical_mod(s * (one.x - x3) - one.y, curve.p);
        let result = Point { x: x3, y: y3 };
        proof {
            let si = s as int;
            let x3i = x3 as int;
            let y3i = y3 as int;
            let iv = inv_mod(sd, p);
            assert(si == slope_of(one, other, curve));
            assert(x3i == sum_x(one, other, curve));
            assert(y3i == sum_y(one, other, curve));
            // The reduced coordinates are congruent to the unreduced sum
            // coordinates of the chord-and-tangent construction.
            let rx = raw_sum_x(si, x1, x2);
            let ry = raw_sum_y(si, x1, y1, x2);
            lemma_congruent_reduce(rx, p);
            lemma_congruent_reduce(si * (x1 - x3i) - y1, p);
            lemma_congruent_sub(x1, x1, x3i, rx, p);
            lemma_congruent_mul(si, si, x1 - x3i, x1 - rx, p);
            lemma_congruent_sub(si * (x1 - x3i), si * (x1 - rx), y1, y1, p);
            assert(congruent(x3i, rx, p));
            assert(congruent(y3i, ry, p));
            // The slope satisfies its defining relation s * den == num
            // modulo p, because den * inv == 1 modulo p.
            lemma_congruent_reduce(sn * iv, p);
            lemma_congruent_mul(si, sn * iv, sd, sd, p);
            assert((sn * iv) * sd == sn * (sd * iv)) by (nonlinear_arith);
            lemma_small_mod(1nat, p as nat);
            assert(congruent(sd * iv, 1, p));
            lemma_congruent_mul(sn, sn, sd * iv, 1, p);
            assert(congruent(si * sd, sn, p));
            // Closure: the unreduced sum coordinates satisfy the curve
            // equation, hence so do the reduced ones.
            if one == other {
                lemma_tangent_result_on_curve(x1, y1, curve.a as int, curve.b as int, p, si);
            } else {
                lemma_chord_result_on_curve(
                    x1,
                    y1,
                    x2,
                    y2,
                    curve.a as int,
                    curve.b as int,
                    p,
                    si,
                    iv,
                );
            }
            lemma_congruent_point_on_curve(
                x3i,
                rx,
                y3i,
                ry,
                curve.a as int,
                curve.b as int,
                p,
            );
            assert(curve.on_curve(result));
        }
        Ok(result)
    }
}

/// The numerator of the slope of the line through `one` and `other`: the
/// tangent numerator `3*x^2 + a` when the points are structurally equal, the
/// chord numerator `y2 - y1` otherwise.
pub open spec fn slope_num(one: Point, other: Point, curve: EllipticCurve) -> int {
    if one == other {
        3 * (one.x as int) * (one.x as int) + curve.a
    } else {
        other.y - one.y
    }
}

/// The denominator of that slope: `2*y` for the tangent, `x2 - x1` for a
/// chord.
pub open spec fn slope_den(one: Point, other: Point) -> int {
    if one == other {
        2 * (one.y as int)
    } else {
        other.x - one.x
    }
}

/// The slope of the chord or tangent as a canonical residue modulo `p`.
pub open spec fn slope_of(one: Point, other: Point, curve: EllipticCurve) -> int {
    (slope_num(one, other, curve) * inv_mod(slope_den(one, other), curve.p as int)) % (
    curve.p as int)
}

/// The abscissa of the sum: `s^2 - x1 - x2`, reduced to `[0, p)`.
pub open spec fn sum_x(one: Point, other: Point, curve: EllipticCurve) -> int {
    (slope_of(one, other, curve) * slope_of(one, other, curve) - one.x - other.x) % (
    curve.p as int)
}

/// The ordinate of the sum: `s*(x1 - x3) - y1`, reduced to `[0, p)`.
pub open spec fn sum_y(one: Point, other: Point, curve: EllipticCurve) -> int {
    (slope_of(one, other, curve) * (one.x - sum_x(one, other, curve)) - one.y) % (curve.p as int)
}

} // verus!
