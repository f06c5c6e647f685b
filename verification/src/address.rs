//! Ledger addresses as plain values.
use vstd::prelude::*;
use crate::uint::U256;

verus! {

/// Whether an address names an account or a contract.
#[derive(Clone, Copy, Debug, PartialEq, Eq, Structural)]
pub enum AddressKind {
    Account,
    Contract,
}

/// An account or contract address: its kind and its 32-byte key, read as a
/// big-endian integer.
#[derive(Clone, Copy, Debug, PartialEq, Eq, Structural)]
pub struct Address {
    pub kind: AddressKind,
    pub key: U256,
}

} // verus!
