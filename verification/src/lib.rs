//! Verified core of a compliance-gated shielded pool: the numeric models, the
//! incremental Merkle trees, the pool's settlement rules, the allowlist, the
//! onboarding faucet and the Groth16 verifier boundary.
use vstd::prelude::*;

pub mod address;
pub mod asp_membership;
pub mod bytes;
pub mod crypto;
pub mod faucet;
pub mod field;
pub mod fixture;
pub mod fixture_tree;
pub mod groth16;
pub mod merkle;
pub mod merkle_history;
pub mod policy_inputs;
pub mod pool;
pub mod poseidon2;
pub mod types;
pub mod uint;
pub mod verifier_boundary;
pub mod groth16_verifier;

verus! {

} // verus!
