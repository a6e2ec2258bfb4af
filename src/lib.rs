//! A STARK prover and verifier over the 252-bit FFT-friendly prime field.
//!
//! - `field`: field elements as reduced limbs, with exact arithmetic contracts
//! - `transcript`: the Fiat-Shamir transcript and the challenges drawn from it
//! - `merkle`: batched Merkle commitments and authentication paths
//! - `grinding`: the proof-of-work nonce
//! - `context`, `air`, `examples`, `fibonacci_rap`, `cairo`: AIR contexts, the
//!   AIR trait and the AIRs built on it
//! - `poly`, `domain`: polynomial evaluation and interpolation, evaluation domains
//! - `evaluator`, `fri`, `prover`: the composition polynomial, FRI and proving
//! - `stark_verifier`: the verifier's replay and checks

pub mod air;
pub mod cairo;
pub mod context;
pub mod domain;
pub mod evaluator;
pub mod examples;
pub mod fibonacci_rap;
pub mod field;
pub mod fri;
pub mod grinding;
pub mod merkle;
pub mod poly;
pub mod prover;
pub mod stark_verifier;
pub mod transcript;
