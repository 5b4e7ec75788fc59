//! Ballot eligibility by Merkle inclusion proofs, and the lifecycle of an
//! election: created, opened by an administrator, voted in once per voter,
//! and closed.

pub mod digest;
pub mod merkle_proof;
pub mod election;
