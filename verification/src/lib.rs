//! Groth16 proof verification over BLS12-381 for inputs that arrive as
//! decimal text.
//!
//! The crate decodes byte buffers into field elements and curve points,
//! assembles verifying keys and proofs from them, and evaluates the Groth16
//! pairing equation. Field and curve arithmetic is done by the `bls12_381`
//! crate; everything around it is proved against the contracts stated here.

pub mod bignum;
pub mod error;
pub mod field;
pub mod curve;
pub mod point;
pub mod wire;
pub mod key;
pub mod zkproof;
pub mod groth16;
pub mod pallet;
