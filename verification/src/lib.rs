//! Point arithmetic on short Weierstrass curves with coefficient `a = 0`
//! (the secp256k1 family), in projective coordinates over a prime field.
//!
//! * [`natural`]: arbitrary-precision naturals, held as base 2^32 limbs
//!   whose meaning [`limbs`] defines.
//! * [`modular`]: the mathematics of arithmetic modulo `p`.
//! * [`field`]: arithmetic modulo a configured modulus.
//! * [`point`]: doubling, addition and affine conversion of curve points.
//! * [`tangent`]: the tangent rule for doubling an affine point.
//! * [`laws`]: algebraic facts that relate the operations to each other.
//! * [`error`]: the two ways in which an operation can fail.

mod biguint;
pub mod error;
pub mod field;
pub mod laws;
pub mod limbs;
pub mod modular;
pub mod natural;
pub mod point;
pub mod tangent;
