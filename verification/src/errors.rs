//! The error taxonomy of the bridge. Every precondition violation aborts
//! the whole operation with no partial mutation and a specific error kind,
//! so callers can tell "not authorized" from "already done" from "unknown
//! token".

use vstd::prelude::*;

verus! {

/// Why a bridge or ledger operation was refused.
#[derive(Clone, Copy, Debug, PartialEq, Eq, Structural)]
pub enum BridgeError {
    /// The caller lacks the identity the operation requires.
    Unauthorized,
    /// One-time setup was run a second time.
    AlreadyInitialized,
    /// The foreign address is already mapped to a local mint.
    DuplicateRegistration,
    /// A mint was requested for a foreign address with no registry entry.
    UnregisteredToken,
    /// A burn asked for more than the caller's balance.
    InsufficientFunds,
    /// The token the operation names does not exist on the ledger.
    InvalidMint,
    /// Storage for a new record could not be created. Allocation is the
    /// platform's concern: the state machine itself never raises this.
    AllocationFailed,
}

} // verus!
