//! The values the pool takes and publishes.
use vstd::prelude::*;
use crate::address::Address;
use crate::groth16::Groth16Proof;
use crate::uint::{I256, U256};

verus! {

/// A shielded transaction's proof and its public inputs.
#[derive(Clone, Debug)]
pub struct Proof {
    /// The Groth16 proof.
    pub proof: Groth16Proof,
    /// Pool root the proof was built against.
    pub root: U256,
    /// Nullifiers of the spent notes.
    pub input_nullifiers: Vec<U256>,
    /// Commitment of the first output note.
    pub output_commitment0: U256,
    /// Commitment of the second output note.
    pub output_commitment1: U256,
    /// Net public amount, encoded in the field.
    pub public_amount: U256,
    /// Binding hash of the external data, its 32 bytes read big-endian.
    pub ext_data_hash: U256,
    /// Allowlist root the membership proof was built against.
    pub asp_membership_root: U256,
}

/// The public side of a shielded transaction.
#[derive(Clone, Debug)]
pub struct ExtData {
    /// Who receives a withdrawal.
    pub recipient: Address,
    /// Positive for a deposit, negative for a withdrawal.
    pub ext_amount: I256,
    /// Encrypted note data for the first output.
    pub encrypted_output0: Vec<u8>,
    /// Encrypted note data for the second output.
    pub encrypted_output1: Vec<u8>,
}

/// Keys a user publishes so others can send them notes.
#[derive(Clone, Debug)]
pub struct Account {
    pub owner: Address,
    /// X25519 encryption key.
    pub encryption_key: Vec<u8>,
    /// BN254 note key.
    pub note_key: Vec<u8>,
}

/// The pool's configuration.
#[derive(Clone, Copy, Debug, PartialEq, Eq, Structural)]
pub struct PoolConfig {
    pub admin: Address,
    pub token: Address,
    pub verifier: Address,
    pub asp_membership: Address,
    pub maximum_deposit_amount: U256,
    pub fee_recipient: Address,
    pub fee_bps: u32,
}

/// A token movement the pool asks its token contract to make.
#[derive(Clone, Copy, Debug, PartialEq, Eq, Structural)]
pub struct TokenTransfer {
    pub from: Address,
    pub to: Address,
    pub amount: i128,
}

/// Published for each commitment a transaction inserts.
#[derive(Clone, Debug, PartialEq, Eq)]
pub struct NewCommitmentEvent {
    pub commitment: U256,
    pub index: u32,
    pub encrypted_output: Vec<u8>,
}

/// Published for each nullifier a transaction spends.
#[derive(Clone, Copy, Debug, PartialEq, Eq, Structural)]
pub struct NewNullifierEvent {
    pub nullifier: U256,
}

/// Published once per spent nullifier when a transaction settles.
#[derive(Clone, Copy, Debug, PartialEq, Eq)]
pub struct SettlementEvent {
    pub nullifier: U256,
    pub pool: Address,
    pub output_commitment0: U256,
    pub output_commitment1: U256,
    pub output_index0: u32,
    pub output_index1: u32,
    pub amount_bucket: i128,
    pub public_amount: U256,
    /// The withdrawal recipient; `None` for a private send.
    pub recipient: Option<Address>,
    pub asset: Address,
}

/// Published when public tokens are deposited.
#[derive(Clone, Copy, Debug, PartialEq, Eq, Structural)]
pub struct DepositEvent {
    pub commitment: U256,
    pub pool: Address,
    pub index: u32,
    pub amount_bucket: i128,
    pub asset: Address,
}

/// Published when a user registers keys.
#[derive(Clone, Debug, PartialEq, Eq)]
pub struct PublicKeyEvent {
    pub owner: Address,
    pub encryption_key: Vec<u8>,
    pub note_key: Vec<u8>,
}

} // verus!
