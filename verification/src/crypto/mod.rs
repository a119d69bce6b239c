//! Cryptographic values used by the service: hashes and keys as the host
//! hands them over, Pedersen commitments with their openings, and range
//! proofs.

pub mod keys;
pub mod proofs;
pub mod serialization;

pub use self::keys::{Digest, PublicKey, SecretKey};
pub use self::proofs::{ArithmeticOverflow, Commitment, Opening, SimpleRangeProof};
