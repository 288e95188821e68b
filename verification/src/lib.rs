//! Affine point arithmetic on short-Weierstrass elliptic curves over a prime
//! field: curve membership, chord-and-tangent point addition and doubling, and
//! the modular inverse (extended Euclidean algorithm) that the slope
//! computation needs.
//!
//! Coordinates are unreduced signed residues in a fixed-width integer type;
//! every point produced by the addition operation has both coordinates in
//! canonical form, that is in `[0, p)`.

pub mod curve;
pub mod field;
pub mod group_law;
pub mod inverse;
