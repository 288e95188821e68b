//! Canonical residues modulo a positive modulus, and congruence reasoning.
//!
//! Field elements are carried as `i128` values that need not be reduced; this
//! module provides the canonical reduction into `[0, p)` and the congruence
//! lemmas that the curve arithmetic proofs are built from. In specifications
//! `%` is the Euclidean remainder, so `x % m` is the canonical residue of `x`
//! whenever `m > 0`.

use vstd::prelude::*;

verus! {

use vstd::arithmetic::div_mod::{
    lemma_add_mod_noop,
    lemma_mod_bound,
    lemma_mod_twice,
    lemma_mul_mod_noop_general,
    lemma_sub_mod_noop,
};

/// Magnitude bound on curve coefficients, coordinates and the modulus.
///
/// `2^40`: large enough for any small-curve use of this library, small enough
/// that every intermediate product of the membership test, the slope
/// computation and the extended Euclidean algorithm fits in an `i128`.
pub const COORD_LIMIT: i128 = 0x100_0000_0000;

/// The value is small enough for all intermediate arithmetic on it to stay
/// inside `i128`.
pub open spec fn fits(v: i128) -> bool {
    -COORD_LIMIT < v < COORD_LIMIT
}

/// `x` and `y` leave the same remainder modulo `m`.
pub open spec fn congruent(x: int, y: int, m: int) -> bool {
    x % m == y % m
}

/// The canonical residue of `x` modulo `p`: the unique value in `[0, p)`
/// congruent to `x`.
pub fn canonical_mod(x: i128, p: i128) -> (r: i128)
    requires
        1 < p,
    ensures
        r as int == (x as int) % (p as int),
        0 <= r < p,
{
    proof {
        lemma_mod_bound(x as int, p as int);
    }
    x.checked_rem_euclid(p).unwrap()
}

/// Congruence is compatible with addition.
pub proof fn lemma_congruent_add(x: int, y: int, u: int, v: int, m: int)
    requires
        0 < m,
        congruent(x, y, m),
        congruent(u, v, m),
    ensures
        congruent(x + u, y + v, m),
{
    lemma_add_mod_noop(x, u, m);
    lemma_add_mod_noop(y, v, m);
}

/// Congruence is compatible with subtraction.
pub proof fn lemma_congruent_sub(x: int, y: int, u: int, v: int, m: int)
    requires
        0 < m,
        congruent(x, y, m),
        congruent(u, v, m),
    ensures
        congruent(x - u, y - v, m),
{
    lemma_sub_mod_noop(x, u, m);
    lemma_sub_mod_noop(y, v, m);
}

/// Congruence is compatible with multiplication.
pub proof fn lemma_congruent_mul(x: int, y: int, u: int, v: int, m: int)
    requires
        0 < m,
        congruent(x, y, m),
        congruent(u, v, m),
    ensures
        congruent(x * u, y * v, m),
{
    lemma_mul_mod_noop_general(x, u, m);
    lemma_mul_mod_noop_general(y, v, m);
}

/// Reducing a value leaves it in its congruence class.
pub proof fn lemma_congruent_reduce(x: int, m: int)
    requires
        0 < m,
    ensures
        congruent(x % m, x, m),
{
    lemma_mod_twice(x, m);
}

/// A congruence can be read as its difference being congruent to zero, and
/// back.
pub proof fn lemma_congruent_diff(u: int, v: int, m: int)
    requires
        0 < m,
    ensures
        congruent(u, v, m) <==> congruent(u - v, 0, m),
{
    if congruent(u, v, m) {
        lemma_congruent_sub(u, v, v, v, m);
    }
    if congruent(u - v, 0, m) {
        lemma_congruent_add(u - v, 0, v, v, m);
    }
}

} // verus!
