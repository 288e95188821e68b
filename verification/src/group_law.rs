//! Proofs of the algebraic laws behind chord-and-tangent addition.
//!
//! The central facts: the point produced by the addition formula satisfies
//! the curve equation again (closure), and exchanging the two addends leaves
//! the result unchanged (commutativity). Both are statements about the
//! unreduced sum coordinates `x3 = s^2 - x1 - x2` and
//! `y3 = s*(x1 - x3) - y1`, where `s` is the slope of the chord or tangent.
//!
//! Closure is proved by the classical root-counting argument carried out in
//! modular arithmetic: the cubic `x^3 + a*x + b - (s*x + c)^2`, whose roots
//! are the intersections of the line through the addends with the curve,
//! decomposes as `(x - x1)*(x - x2)*(x - x3)` plus a linear remainder, and
//! the hypotheses force that remainder to vanish modulo `p`.

use vstd::prelude::*;

verus! {

use crate::curve::{EllipticCurve, Point, slope_den, slope_num, slope_of, sum_x, sum_y};
use crate::field::{
    congruent,
    lemma_congruent_add,
    lemma_congruent_diff,
    lemma_congruent_mul,
    lemma_congruent_reduce,
    lemma_congruent_sub,
};
use crate::inverse::{inv_mod, inverse_exists, lemma_inverse_unique};
use vstd::arithmetic::div_mod::{lemma_mod_multiples_vanish, lemma_small_mod};

/// The unreduced abscissa of the sum of two points with abscissas `x1`, `x2`,
/// joined by a line of slope `s`.
pub open spec fn raw_sum_x(s: int, x1: int, x2: int) -> int {
    s * s - x1 - x2
}

/// The unreduced ordinate of that sum.
pub open spec fn raw_sum_y(s: int, x1: int, y1: int, x2: int) -> int {
    s * (x1 - raw_sum_x(s, x1, x2)) - y1
}

/// The intersection cubic of the line `y = s*x + c` with the curve splits
/// into the product of its three root factors and a linear remainder.
proof fn lemma_cubic_split(
    t: int,
    x1: int,
    x2: int,
    s: int,
    c: int,
    a: int,
    b: int,
    x3: int,
    alpha: int,
    beta: int,
)
    requires
        x3 == s * s - x1 - x2,
        alpha == a - 2 * s * c - (x1 * x2 + x1 * x3 + x2 * x3),
        beta == b - c * c + x1 * x2 * x3,
    ensures
        t * t * t + a * t + b - (s * t + c) * (s * t + c) == (t - x1) * (t - x2) * (t - x3) + alpha
            * t + beta,
{
    assert((s * t + c) * (s * t + c) == s * s * (t * t) + 2 * s * c * t + c * c) by (
    nonlinear_arith);
    let u = t * t - (x1 + x2) * t + x1 * x2;
    assert((t - x1) * (t - x2) == u) by (nonlinear_arith)
        requires
            u == t * t - (x1 + x2) * t + x1 * x2,
    ;
    assert(u * (t - x3) == u * t - u * x3) by (nonlinear_arith);
    assert(u * t == t * t * t - (x1 + x2) * (t * t) + x1 * x2 * t) by (nonlinear_arith)
        requires
            u == t * t - (x1 + x2) * t + x1 * x2,
    ;
    assert(u * x3 == x3 * (t * t) - (x1 * x3 + x2 * x3) * t + x1 * x2 * x3) by (nonlinear_arith)
        requires
            u == t * t - (x1 + x2) * t + x1 * x2,
    ;
    assert((x1 + x2 + x3) * (t * t) == (x1 + x2) * (t * t) + x3 * (t * t)) by (nonlinear_arith);
    assert((x1 * x2 + x1 * x3 + x2 * x3) * t == x1 * x2 * t + (x1 * x3 + x2 * x3) * t) by (
    nonlinear_arith);
    assert((t - x1) * (t - x2) * (t - x3) == t * t * t - (x1 + x2 + x3) * (t * t) + (x1 * x2 + x1
        * x3 + x2 * x3) * t - x1 * x2 * x3);
    assert(x1 + x2 + x3 == s * s);
    assert((x1 + x2 + x3) * (t * t) == s * s * (t * t));
    assert(alpha * t == a * t - 2 * s * c * t - (x1 * x2 + x1 * x3 + x2 * x3) * t) by (
    nonlinear_arith)
        requires
            alpha == a - 2 * s * c - (x1 * x2 + x1 * x3 + x2 * x3),
    ;
}

/// Chord case of closure: if both points satisfy the curve equation, the
/// slope satisfies the chord relation `s*(x2 - x1) == y2 - y1` modulo `p`,
/// and `x2 - x1` is invertible modulo `p` with witness `w`, then the sum
/// satisfies the curve equation as well.
pub proof fn lemma_chord_result_on_curve(
    x1: int,
    y1: int,
    x2: int,
    y2: int,
    a: int,
    b: int,
    p: int,
    s: int,
    w: int,
)
    requires
        1 < p,
        congruent(y1 * y1, x1 * x1 * x1 + a * x1 + b, p),
        congruent(y2 * y2, x2 * x2 * x2 + a * x2 + b, p),
        congruent(s * (x2 - x1), y2 - y1, p),
        ((x2 - x1) * w) % p == 1,
    ensures
        congruent(
            raw_sum_y(s, x1, y1, x2) * raw_sum_y(s, x1, y1, x2),
            raw_sum_x(s, x1, x2) * raw_sum_x(s, x1, x2) * raw_sum_x(s, x1, x2) + a * raw_sum_x(
                s,
                x1,
                x2,
            ) + b,
            p,
        ),
{
    let x3 = raw_sum_x(s, x1, x2);
    let c = y1 - s * x1;
    let alpha = a - 2 * s * c - (x1 * x2 + x1 * x3 + x2 * x3);
    let beta = b - c * c + x1 * x2 * x3;
    // Evaluate the split cubic at x1: the factor (x1 - x1) kills the product,
    // and the line passes through (x1, y1), so the hypothesis on the first
    // point turns into: alpha * x1 + beta == 0 (mod p).
    lemma_cubic_split(x1, x1, x2, s, c, a, b, x3, alpha, beta);
    assert((x1 - x1) * (x1 - x2) * (x1 - x3) == 0) by (nonlinear_arith);
    assert(s * x1 + c == y1);
    assert((s * x1 + c) * (s * x1 + c) == y1 * y1);
    assert(x1 * x1 * x1 + a * x1 + b - y1 * y1 == alpha * x1 + beta);
    lemma_congruent_diff(x1 * x1 * x1 + a * x1 + b, y1 * y1, p);
    assert(congruent(alpha * x1 + beta, 0, p));
    // Evaluate at x2: the line meets the curve there as well, because the
    // slope relation makes its value congruent to y2.
    lemma_cubic_split(x2, x1, x2, s, c, a, b, x3, alpha, beta);
    assert((x2 - x1) * (x2 - x2) * (x2 - x3) == 0) by (nonlinear_arith);
    assert(s * x2 + c == s * (x2 - x1) + y1) by (nonlinear_arith)
        requires
            c == y1 - s * x1,
    ;
    lemma_congruent_add(s * (x2 - x1), y2 - y1, y1, y1, p);
    assert(congruent(s * x2 + c, y2, p));
    lemma_congruent_mul(s * x2 + c, y2, s * x2 + c, y2, p);
    assert(congruent((s * x2 + c) * (s * x2 + c), x2 * x2 * x2 + a * x2 + b, p));
    assert(x2 * x2 * x2 + a * x2 + b - (s * x2 + c) * (s * x2 + c) == alpha * x2 + beta);
    lemma_congruent_diff(x2 * x2 * x2 + a * x2 + b, (s * x2 + c) * (s * x2 + c), p);
    assert(congruent(alpha * x2 + beta, 0, p));
    // Subtracting the two evaluations: alpha * (x1 - x2) == 0 (mod p), and
    // multiplying by the inverse of (x2 - x1) forces alpha == 0 (mod p).
    lemma_congruent_sub(alpha * x1 + beta, 0, alpha * x2 + beta, 0, p);
    assert(alpha * x1 + beta - (alpha * x2 + beta) == alpha * (x1 - x2)) by (nonlinear_arith);
    assert(congruent(alpha * (x1 - x2), 0, p));
    lemma_congruent_mul(alpha * (x1 - x2), 0, w, w, p);
    assert(0 * w == 0) by (nonlinear_arith);
    assert(congruent(alpha * (x1 - x2) * w, 0, p));
    assert(alpha * (x1 - x2) * w == alpha * (-1 * ((x2 - x1) * w)) - alpha * 0) by (
    nonlinear_arith);
    lemma_small_mod(1nat, p as nat);
    assert(congruent((x2 - x1) * w, 1, p));
    lemma_congruent_mul(-1, -1, (x2 - x1) * w, 1, p);
    assert(congruent(-1 * ((x2 - x1) * w), -1 * 1, p));
    lemma_congruent_mul(alpha, alpha, -1 * ((x2 - x1) * w), -1 * 1, p);
    assert(alpha * (-1 * 1) == -alpha);
    assert(congruent(alpha * (-1 * ((x2 - x1) * w)), -alpha, p));
    assert(congruent(-alpha, 0, p));
    lemma_congruent_sub(0, 0, -alpha, 0, p);
    assert(congruent(alpha, 0, p));
    // Then beta == 0 (mod p) from the evaluation at x1.
    lemma_congruent_mul(alpha, 0, x1, x1, p);
    assert(0 * x1 == 0) by (nonlinear_arith);
    lemma_congruent_sub(alpha * x1 + beta, 0, alpha * x1, 0, p);
    assert(congruent(beta, 0, p));
    // Evaluate at x3: the product of factors vanishes again, the linear
    // remainder is congruent to zero, so the third intersection is on the
    // curve; the sum is its reflection, whose ordinate has the same square.
    lemma_cubic_split(x3, x1, x2, s, c, a, b, x3, alpha, beta);
    assert((x3 - x1) * (x3 - x2) * (x3 - x3) == 0) by (nonlinear_arith);
    lemma_congruent_mul(alpha, 0, x3, x3, p);
    assert(0 * x3 == 0) by (nonlinear_arith);
    lemma_congruent_add(alpha * x3, 0, beta, 0, p);
    assert(congruent(alpha * x3 + beta, 0, p));
    assert(x3 * x3 * x3 + a * x3 + b - (s * x3 + c) * (s * x3 + c) == alpha * x3 + beta);
    let y3 = raw_sum_y(s, x1, y1, x2);
    assert(y3 * y3 == (s * x3 + c) * (s * x3 + c)) by (nonlinear_arith)
        requires
            c == y1 - s * x1,
            y3 == s * (x1 - x3) - y1,
    ;
    lemma_congruent_diff(x3 * x3 * x3 + a * x3 + b, y3 * y3, p);
}

/// Tangent case of closure: if the point satisfies the curve equation and
/// the slope satisfies the tangent relation `s*(2*y1) == 3*x1^2 + a` modulo
/// `p`, then the double satisfies the curve equation. No invertibility is
/// needed: the abscissa `x1` is a double root of the intersection cubic.
pub proof fn lemma_tangent_result_on_curve(x1: int, y1: int, a: int, b: int, p: int, s: int)
    requires
        1 < p,
        congruent(y1 * y1, x1 * x1 * x1 + a * x1 + b, p),
        congruent(s * (2 * y1), 3 * x1 * x1 + a, p),
    ensures
        congruent(
            raw_sum_y(s, x1, y1, x1) * raw_sum_y(s, x1, y1, x1),
            raw_sum_x(s, x1, x1) * raw_sum_x(s, x1, x1) * raw_sum_x(s, x1, x1) + a * raw_sum_x(
                s,
                x1,
                x1,
            ) + b,
            p,
        ),
{
    let x3 = raw_sum_x(s, x1, x1);
    let c = y1 - s * x1;
    let alpha = a - 2 * s * c - (x1 * x1 + x1 * x3 + x1 * x3);
    let beta = b - c * c + x1 * x1 * x3;
    // The tangent relation makes the linear remainder's slope vanish
    // directly: alpha == a + 3*x1^2 - s*(2*y1) == 0 (mod p).
    assert(alpha == a + 3 * x1 * x1 - s * (2 * y1)) by (nonlinear_arith)
        requires
            x3 == s * s - x1 - x1,
            c == y1 - s * x1,
            alpha == a - 2 * s * c - (x1 * x1 + x1 * x3 + x1 * x3),
    ;
    lemma_congruent_sub(a + 3 * x1 * x1, a + 3 * x1 * x1, s * (2 * y1), 3 * x1 * x1 + a, p);
    assert(congruent(alpha, 0, p));
    // Evaluate the split cubic at x1 to recover beta == 0 (mod p).
    lemma_cubic_split(x1, x1, x1, s, c, a, b, x3, alpha, beta);
    assert((x1 - x1) * (x1 - x1) * (x1 - x3) == 0) by (nonlinear_arith);
    assert(s * x1 + c == y1);
    assert((s * x1 + c) * (s * x1 + c) == y1 * y1);
    assert(x1 * x1 * x1 + a * x1 + b - y1 * y1 == alpha * x1 + beta);
    lemma_congruent_diff(x1 * x1 * x1 + a * x1 + b, y1 * y1, p);
    assert(congruent(alpha * x1 + beta, 0, p));
    lemma_congruent_mul(alpha, 0, x1, x1, p);
    assert(0 * x1 == 0) by (nonlinear_arith);
    lemma_congruent_sub(alpha * x1 + beta, 0, alpha * x1, 0, p);
    assert(congruent(beta, 0, p));
    // Evaluate at x3 and conclude as in the chord case.
    lemma_cubic_split(x3, x1, x1, s, c, a, b, x3, alpha, beta);
    assert((x3 - x1) * (x3 - x1) * (x3 - x3) == 0) by (nonlinear_arith);
    lemma_congruent_mul(alpha, 0, x3, x3, p);
    assert(0 * x3 == 0) by (nonlinear_arith);
    lemma_congruent_add(alpha * x3, 0, beta, 0, p);
    assert(x3 * x3 * x3 + a * x3 + b - (s * x3 + c) * (s * x3 + c) == alpha * x3 + beta);
    let y3 = raw_sum_y(s, x1, y1, x1);
    assert(y3 * y3 == (s * x3 + c) * (s * x3 + c)) by (nonlinear_arith)
        requires
            c == y1 - s * x1,
            y3 == s * (x1 - x3) - y1,
    ;
    lemma_congruent_diff(x3 * x3 * x3 + a * x3 + b, y3 * y3, p);
}

/// If `d` is invertible modulo `p`, so is `-d`, and its inverse is the
/// complement `p - inv_mod(d, p)`.
proof fn lemma_inverse_exists_neg(d: int, p: int)
    requires
        1 < p,
        inverse_exists(d, p),
    ensures
        inverse_exists(-d, p),
        inv_mod(-d, p) == p - inv_mod(d, p),
{
    let iv = inv_mod(d, p);
    assert(0 <= iv < p && (d * iv) % p == 1);
    if iv == 0 {
        assert(d * 0 == 0);
        lemma_small_mod(0nat, p as nat);
        assert(false);
    }
    let j = p - iv;
    assert((-d) * j == p * (-d) + d * iv) by (nonlinear_arith)
        requires
            j == p - iv,
    ;
    lemma_mod_multiples_vanish(-d, d * iv, p);
    assert(((-d) * j) % p == 1);
    lemma_inverse_unique(-d, p, j, inv_mod(-d, p));
}

/// Commutativity of the chord rule: for distinct points, exchanging the two
/// addends neither changes whether the slope denominator is invertible nor,
/// when it is, the resulting sum coordinates. Together with the contract of
/// point addition this says that adding `one` to `other` and adding `other`
/// to `one` give the same outcome whenever both points are on the curve.
pub proof fn lemma_add_over_commutes(one: Point, other: Point, curve: EllipticCurve)
    requires
        curve.wf(),
        one != other,
        curve.on_curve(one),
        curve.on_curve(other),
    ensures
        inverse_exists(slope_den(one, other), curve.p as int) <==> inverse_exists(
            slope_den(other, one),
            curve.p as int,
        ),
        inverse_exists(slope_den(one, other), curve.p as int) ==> sum_x(one, other, curve)
            == sum_x(other, one, curve),
        inverse_exists(slope_den(one, other), curve.p as int) ==> sum_y(one, other, curve)
            == sum_y(other, one, curve),
{
    let p = curve.p as int;
    let x1 = one.x as int;
    let y1 = one.y as int;
    let x2 = other.x as int;
    let y2 = other.y as int;
    let d = slope_den(one, other);
    let n = slope_num(one, other, curve);
    let d2 = slope_den(other, one);
    let n2 = slope_num(other, one, curve);
    assert(d == x2 - x1 && n == y2 - y1 && d2 == x1 - x2 && n2 == y1 - y2);
    if inverse_exists(d2, p) {
        lemma_inverse_exists_neg(d2, p);
        assert(-d2 == d);
    }
    if inverse_exists(d, p) {
        lemma_inverse_exists_neg(d, p);
        let iv = inv_mod(d, p);
        let j = inv_mod(-d, p);
        assert(0 <= iv < p && (d * iv) % p == 1);
        let s1 = slope_of(one, other, curve);
        let s2 = slope_of(other, one, curve);
        // The exchanged slope is built from the negated numerator and the
        // negated denominator's inverse; the two sign changes cancel.
        assert(n2 * j == p * (-n) + n * iv) by (nonlinear_arith)
            requires
                n2 == -n,
                j == p - iv,
        ;
        lemma_mod_multiples_vanish(-n, n * iv, p);
        assert(s2 == s1);
        assert(sum_x(one, other, curve) == sum_x(other, one, curve));
        let xs = sum_x(one, other, curve);
        // The two ordinate formulas differ by n - s1 * d, which is congruent
        // to zero because the slope satisfies s1 * d == n modulo p.
        lemma_congruent_reduce(n * iv, p);
        lemma_congruent_mul(s1, n * iv, d, d, p);
        assert((n * iv) * d == n * (d * iv)) by (nonlinear_arith);
        lemma_small_mod(1nat, p as nat);
        assert(congruent(d * iv, 1, p));
        lemma_congruent_mul(n, n, d * iv, 1, p);
        assert(congruent(s1 * d, n, p));
        assert((s1 * (x1 - xs) - y1) - (s1 * (x2 - xs) - y2) == n - s1 * d) by (nonlinear_arith)
            requires
                d == x2 - x1,
                n == y2 - y1,
        ;
        lemma_congruent_diff(s1 * d, n, p);
        lemma_congruent_sub(0, 0, s1 * d - n, 0, p);
        lemma_congruent_diff(s1 * (x1 - xs) - y1, s1 * (x2 - xs) - y2, p);
        assert(congruent(s1 * (x1 - xs) - y1, s1 * (x2 - xs) - y2, p));
        assert(sum_y(one, other, curve) == sum_y(other, one, curve));
    }
}

/// Congruent coordinates satisfy the curve equation together: replacing a
/// point by any representative of the same residue classes does not change
/// whether it is on the curve.
pub proof fn lemma_congruent_point_on_curve(
    x: int,
    xr: int,
    y: int,
    yr: int,
    a: int,
    b: int,
    p: int,
)
    requires
        0 < p,
        congruent(x, xr, p),
        congruent(y, yr, p),
        congruent(yr * yr, xr * xr * xr + a * xr + b, p),
    ensures
        congruent(y * y, x * x * x + a * x + b, p),
{
    lemma_congruent_mul(y, yr, y, yr, p);
    lemma_congruent_mul(x, xr, x, xr, p);
    lemma_congruent_mul(x * x, xr * xr, x, xr, p);
    lemma_congruent_mul(a, a, x, xr, p);
    lemma_congruent_add(x * x * x, xr * xr * xr, a * x, a * xr, p);
    lemma_congruent_add(x * x * x + a * x, xr * xr * xr + a * xr, b, b, p);
}

} // verus!
