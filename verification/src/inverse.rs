//! Modular inverses by the extended Euclidean algorithm.
//!
//! `modular_inverse(a, b)` returns the unique `x` in `[0, b)` with
//! `(a * x) % b == 1`, or a [`NoInverse`] error exactly when no such `x`
//! exists, that is when `a` and `b` share a divisor greater than one.

use vstd::prelude::*;

verus! {

use crate::field::{COORD_LIMIT, canonical_mod, lemma_congruent_mul};
use vstd::arithmetic::div_mod::{
    lemma_fundamental_div_mod,
    lemma_mod_twice,
    lemma_mul_mod_noop_general,
    lemma_mul_mod_noop_left,
    lemma_small_mod,
};

/// `d` divides `n`.
pub open spec fn divides(d: int, n: int) -> bool {
    exists|k: int| n == #[trigger] (d * k)
}

/// Greatest common divisor by the Euclidean recurrence.
pub open spec fn gcd(a: nat, b: nat) -> nat
    decreases b,
{
    if b == 0 {
        a
    } else {
        gcd(b, a % b)
    }
}

/// `a` has a multiplicative inverse modulo `m`.
pub open spec fn inverse_exists(a: int, m: int) -> bool {
    exists|x: int| 0 <= x < m && #[trigger] ((a * x) % m) == 1
}

/// The multiplicative inverse of `a` modulo `m`, when one exists: the unique
/// value in `[0, m)` whose product with `a` is congruent to one.
pub open spec fn inv_mod(a: int, m: int) -> int {
    choose|x: int| 0 <= x < m && #[trigger] ((a * x) % m) == 1
}

/// The greatest common divisor divides both of its arguments.
pub proof fn lemma_gcd_divides(a: nat, b: nat)
    ensures
        divides(gcd(a, b) as int, a as int),
        divides(gcd(a, b) as int, b as int),
    decreases b,
{
    if b == 0 {
        assert(a as int == (gcd(a, b) as int) * 1);
        assert(0int == (gcd(a, b) as int) * 0);
    } else {
        lemma_gcd_divides(b, a % b);
        let g = gcd(b, a % b) as int;
        let kb = choose|k: int| b as int == #[trigger] (g * k);
        let kr = choose|k: int| (a % b) as int == #[trigger] (g * k);
        lemma_fundamental_div_mod(a as int, b as int);
        let q = (a as int) / (b as int);
        assert(a as int == g * (kb * q + kr)) by (nonlinear_arith)
            requires
                a as int == (b as int) * q + (a % b) as int,
                b as int == g * kb,
                (a % b) as int == g * kr,
        ;
    }
}

/// A common divisor greater than one rules every inverse out.
pub proof fn lemma_common_divisor_no_inverse(a: int, m: int, d: int)
    requires
        0 < m,
        2 <= d,
        divides(d, a),
        divides(d, m),
    ensures
        !inverse_exists(a, m),
{
    assert forall|x: int| 0 <= x < m implies #[trigger] ((a * x) % m) != 1 by {
        if (a * x) % m == 1 {
            lemma_fundamental_div_mod(a * x, m);
            let q = (a * x) / m;
            let ka = choose|k: int| a == #[trigger] (d * k);
            let km = choose|k: int| m == #[trigger] (d * k);
            let w = ka * x - km * q;
            assert(d * w == 1) by (nonlinear_arith)
                requires
                    a == d * ka,
                    m == d * km,
                    a * x == m * q + 1,
                    w == ka * x - km * q,
            ;
            assert(false) by (nonlinear_arith)
                requires
                    2 <= d,
                    d * w == 1,
            ;
        }
    }
}

/// The inverse modulo `m` is unique among the canonical residues.
pub proof fn lemma_inverse_unique(a: int, m: int, x: int, y: int)
    requires
        0 < m,
        0 <= x < m,
        0 <= y < m,
        (a * x) % m == 1,
        (a * y) % m == 1,
    ensures
        x == y,
{
    // x == x * (a * y) == y * (a * x) == y, all modulo m.
    assert(x * (a * y) == y * (a * x)) by (nonlinear_arith);
    lemma_mul_mod_noop_general(x, a * y, m);
    lemma_mul_mod_noop_general(y, a * x, m);
    lemma_small_mod(1nat, m as nat);
    lemma_small_mod(x as nat, m as nat);
    lemma_small_mod(y as nat, m as nat);
    assert((x * ((a * y) % m)) % m == (x * (a * y)) % m);
    assert((y * ((a * x) % m)) % m == (y * (a * x)) % m);
    assert(x * 1 == x);
    assert(y * 1 == y);
}

/// Error returned when the value has no inverse for the given modulus.
#[derive(Clone, Copy, Debug, PartialEq, Eq, Structural)]
pub struct NoInverse {
    pub value: i128,
    pub modulus: i128,
}

/// The multiplicative inverse of `a` modulo `b`, computed by the extended
/// Euclidean algorithm with the Bezout coefficient kept as a canonical
/// residue at every step.
///
/// Returns the unique `x` in `[0, b)` with `(a * x) % b == 1`, and a
/// [`NoInverse`] error exactly when `a` and `b` are not coprime, so that no
/// such `x` exists.
pub fn modular_inverse(a: i128, b: i128) -> (r: Result<i128, NoInverse>)
    requires
        1 < b < COORD_LIMIT,
    ensures
        r matches Ok(x) ==> 0 <= x < b && ((a as int) * (x as int)) % (b as int) == 1,
        r is Ok <==> inverse_exists(a as int, b as int),
        r matches Err(e) ==> e == (NoInverse { value: a, modulus: b }),
{
    let a0 = canonical_mod(a, b);
    let ghost m = b as int;
    let ghost a0i = a0 as int;
    let mut old_s: i128 = 1;
    let mut s: i128 = 0;
    let mut old_t: i128 = a0;
    let mut t: i128 = b;
    proof {
        lemma_small_mod(0nat, m as nat);
        assert(a0i * 1 == a0i);
        assert(a0i * 0 == 0);
        assert(m % m == 0) by {
            vstd::arithmetic::div_mod::lemma_mod_self_0(m);
        }
        lemma_mod_twice(a as int, m);
    }
    while t != 0
        invariant
            1 < b < COORD_LIMIT,
            m == b as int,
            a0i == (a as int) % m,
            0 <= old_t <= b,
            0 <= t <= b,
            0 <= old_s < b,
            0 <= s < b,
            (a0i * (old_s as int)) % m == (old_t as int) % m,
            (a0i * (s as int)) % m == (t as int) % m,
            gcd(old_t as nat, t as nat) == gcd(a0i as nat, m as nat),
        decreases t,
    {
        let q = old_t / t;
        proof {
            assert(0 <= q <= b && q * t <= old_t && 0 <= old_t - q * t < t) by (nonlinear_arith)
                requires
                    0 < t <= b,
                    0 <= old_t <= b,
                    q == old_t / t,
            ;
        }
        let new_r = old_t - q * t;
        proof {
            assert(0 <= q * (s as int) < COORD_LIMIT * COORD_LIMIT) by (nonlinear_arith)
                requires
                    0 <= q < COORD_LIMIT,
                    0 <= (s as int) < COORD_LIMIT,
            ;
        }
        let new_s = canonical_mod(old_s - q * s, b);
        proof {
            // The remainder recurrence is one unfolding of the gcd.
            lemma_fundamental_div_mod(old_t as int, t as int);
            assert((old_t as int) == (t as int) * ((old_t as int) / (t as int)) + (old_t as int)
                % (t as int));
            assert((t as int) * (q as int) == (q as int) * (t as int));
            assert(new_r as int == (old_t as int) % (t as int));
            assert(gcd(t as nat, new_r as nat) == gcd(old_t as nat, t as nat));
            // The coefficient recurrence stays in the congruence class:
            // a0 * new_s == a0 * old_s - q * (a0 * s) == old_t - q * t (mod m).
            lemma_mod_twice((old_s as int) - q * (s as int), m);
            lemma_congruent_mul(a0i, a0i, new_s as int, (old_s as int) - q * (s as int), m);
            assert(a0i * ((old_s as int) - q * (s as int)) == a0i * (old_s as int) - q * (a0i
                * (s as int))) by (nonlinear_arith);
            lemma_congruent_mul(q as int, q as int, a0i * (s as int), t as int, m);
            crate::field::lemma_congruent_sub(
                a0i * (old_s as int),
                old_t as int,
                q * (a0i * (s as int)),
                q * (t as int),
                m,
            );
            assert(q * (t as int) == (q * t) as int);
            assert((old_t as int) - q * (t as int) == new_r as int);
        }
        old_t = t;
        t = new_r;
        old_s = s;
        s = new_s;
    }
    if old_t == 1 {
        proof {
            lemma_small_mod(1nat, m as nat);
            assert((a0i * (old_s as int)) % m == 1);
            lemma_mul_mod_noop_left(a as int, old_s as int, m);
            assert(((a as int) * (old_s as int)) % m == 1);
            assert(inverse_exists(a as int, m));
        }
        Ok(old_s)
    } else {
        proof {
            // At exit the surviving remainder is gcd(a0, b), a common divisor
            // of a and b; it is not 1, so it is at least 2 and no inverse can
            // exist.
            assert(gcd(old_t as nat, 0nat) == old_t as nat);
            assert(old_t as nat == gcd(a0i as nat, m as nat));
            lemma_gcd_divides(a0i as nat, m as nat);
            let g = old_t as int;
            if g == 0 {
                let km = choose|k: int| m == #[trigger] (0 * k);
                assert(m == 0 * km);
                assert(0 * km == 0) by (nonlinear_arith);
            }
            assert(2 <= g);
            // a is congruent to a0, so a shares the divisor g with m.
            lemma_fundamental_div_mod(a as int, m);
            let ka0 = choose|k: int| a0i == #[trigger] (g * k);
            let q0 = (a as int) / m;
            let km = choose|k: int| m == #[trigger] (g * k);
            assert(a as int == g * (km * q0 + ka0)) by (nonlinear_arith)
                requires
                    a as int == m * q0 + a0i,
                    m == g * km,
                    a0i == g * ka0,
            ;
            assert(divides(g, a as int));
            lemma_common_divisor_no_inverse(a as int, m, g);
        }
        Err(NoInverse { value: a, modulus: b })
    }
}

} // verus!
