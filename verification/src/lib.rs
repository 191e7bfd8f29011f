//! Cryptographic core of an end-to-end verifiable election: guardian key
//! generation, encrypted distribution of secret key shares among guardians,
//! reconstruction of a guardian's share, the joint election public key and
//! the ElGamal ciphertext built on it.

pub mod bignat;
pub mod coverage;
pub mod csprng;
pub mod encoding;
pub mod errors;
pub mod guardian;
pub mod guardian_share;
pub mod hash;
pub mod hex;
pub mod joint_election_public_key;
pub mod parameters;
pub mod standard_parameters;
