//! Failure reasons of the init and update protocols, and of the ledger model.

use vstd::prelude::*;

verus! {

/// A typed failure reason of the init or update protocol.  Every failure
/// aborts the whole operation: the ledger is left exactly as it was.
#[derive(Clone, Copy, Debug, PartialEq, Eq, Structural)]
pub enum ProtocolError {
    /// A supplied account address (or bump seed) does not equal the
    /// independently re-derived one.
    AddressMismatch,
    /// The target slot account of an update is already allocated: a replay,
    /// or a race lost to a concurrent updater.
    SlotNotEmpty,
    /// An account to be created already exists: re-running init for a key
    /// that already has a reference record, or an allocation that lost the
    /// first-allocator-wins arbitration.
    SlotAlreadyOwned,
    /// The payer's balance does not cover the allocation.
    FundingInsufficient,
    /// A freshly allocated slot's presence flag did not read "empty", or a
    /// reference record's stored pointer is malformed: host or protocol
    /// corruption.
    InvariantViolation,
    /// The reference record's stored pointer does not match the supplied
    /// current slot, or no record lives at the supplied address.
    StaleReference,
    /// An account is not owned by this program's namespace, so the protocol
    /// may not write it.
    NotProgramOwned,
    /// No bump seed in the allowed range yields a usable derived address.
    DerivationFailed,
}

/// A failure reason of the ledger collaborator's own primitives.
#[derive(Clone, Copy, Debug, PartialEq, Eq, Structural)]
pub enum LedgerError {
    /// `create_account` found an account already allocated at the address.
    AlreadyExists,
    /// The payer's balance does not cover the requested funding.
    InsufficientFunds,
    /// `read_account` or `write_account` found no account at the address.
    NotFound,
    /// `write_account` was attempted by a namespace that does not own the
    /// account.
    NotOwner,
    /// `write_account` would change the account's allocated size.
    SizeMismatch,
}

} // verus!
