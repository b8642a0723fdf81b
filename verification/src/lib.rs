//! A versioned, single-writer-per-update key/value store over an append-only
//! ledger of immutable records.
//!
//! Each update of a value allocates a brand-new storage slot at an address
//! derived deterministically from its predecessor's address, and repoints a
//! small mutable reference record at it.  The chain of slot addresses is thus
//! a verifiable linked list addressed by derivation: anyone holding the key
//! can recompute and challenge every link.
//!
//! - [`addr`] derives slot and record addresses from seed bytes.
//! - [`ledger`] models the host's account store: creation, owner-gated
//!   writes, and funding.
//! - [`slot`] encodes and decodes the write-once storage slots.
//! - [`protocol`] holds the init and update protocols that tie the three
//!   together.

pub mod addr;
pub mod bytes;
pub mod error;
pub mod ledger;
pub mod protocol;
pub mod slot;
