//! Re-encoder for STARK proofs: walks a proof object, its public input and
//! the verifier-reported query positions, and emits the flat, strictly
//! ordered scalar schema an on-chain verifier circuit consumes.
pub mod buffer;
pub mod digest;
pub mod fri;
pub mod hex;
pub mod merkle;
pub mod proof_data;
pub mod scalar;
pub mod schema;
