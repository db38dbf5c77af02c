//! Shared error taxonomy, host-action descriptors, and cost constants.

use vstd::prelude::*;

verus! {

/// Cost, in yocto-units, that the host charges per byte of persistent state.
pub const STORAGE_PRICE_PER_BYTE: u128 = 10_000_000_000_000_000_000;

/// Prepaid rent that one marketplace listing must be covered by.
pub const STORAGE_PER_SALE: u128 = 1000 * STORAGE_PRICE_PER_BYTE;

/// Largest number of payees a payout split may name.
pub const MAX_PAYOUT_ENTRIES: usize = 10;

/// Why an entry point rejected a call.  A rejection leaves the receiver
/// unchanged: every mutating operation states that in its contract.
#[derive(Clone, Copy, Debug, PartialEq, Eq, Structural)]
pub enum ContractError {
    /// The caller lacks the right (wrong owner, or a mismatched approval id).
    Authorization,
    /// The named token or sale does not exist.
    NotFound,
    /// The attached payment is below what the operation requires.
    InsufficientFunds,
    /// A malformed message, payout map, or otherwise unusable argument.
    InvalidArgument,
}

/// A fund transfer the host is asked to perform on the component's behalf.
#[derive(Debug)]
pub struct TransferAction {
    pub receiver_id: String,
    pub amount: u128,
}

/// The settled outcome of a scheduled remote call, as the host reports it to
/// a resolver: either the remote side returned these bytes, or it failed.
#[derive(Debug)]
pub enum RemoteResult {
    Succeeded(Vec<u8>),
    Failed,
}

} // verus!
