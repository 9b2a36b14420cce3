use vstd::prelude::*;

verus! {

/// What an address designates on the ledger: a user account or a deployed contract.
#[derive(Clone, Copy, Debug, PartialEq, Eq, Structural)]
pub enum AddressKind {
    Account,
    Contract,
}

/// A ledger address: its kind and its 32-byte key, kept as two 128-bit halves
/// (`key_hi` holds the first 16 bytes, big-endian).
#[derive(Clone, Copy, Debug, PartialEq, Eq, Structural)]
pub struct Address {
    pub kind: AddressKind,
    pub key_hi: u128,
    pub key_lo: u128,
}

} // verus!
