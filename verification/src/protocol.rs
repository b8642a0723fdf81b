//! The init and update protocols: how a logical key's reference record is
//! created, and how each update allocates a brand-new storage slot at a
//! derived address and repoints the record at it.
//!
//! Every operation either performs all of its ledger mutations or none: each
//! failure leaves the ledger exactly as it was.

use crate::addr::{
    derive_reference, derive_slot, derived_address, init_tag, init_tag_bytes, next_tag, next_tag_bytes,
    reference_seeds, slot_seeds, Address,
};
use crate::bytes::dup_bytes;
use crate::error::{LedgerError, ProtocolError};
use crate::ledger::{spec_balance, spec_create_account, zero_data, Ledger};
use crate::slot::{encode_slot, parse_slot, slot_bytes, FLAG_EMPTY, HEADER_BYTES};
use vstd::prelude::*;

verus! {

/// The size of a reference record's byte buffer: the 32-byte address of the
/// current storage slot.
pub const REFERENCE_RECORD_BYTES: usize = 32;

/// What the payer funds the initial storage slot's allocation with.
pub const INITIAL_SLOT_LAMPORTS: u64 = 100000;

/// What the payer funds the reference record's allocation with.
pub const REFERENCE_RECORD_LAMPORTS: u64 = 100000;

/// What the payer funds each subsequent storage slot's allocation with.
pub const NEXT_SLOT_LAMPORTS: u64 = 10000;

/// The mutable indirection entry for one logical key: it holds the address
/// of the storage slot currently authoritative for that key.
#[derive(Debug)]
pub struct StorageReference {
    pub storage: Address,
}

/// The accounts an `init` call operates on.
pub struct Init {
    /// The caller: signs, funds the allocations, and is part of the
    /// reference record's derivation seed.
    pub payer: Address,
    /// Where the caller claims the key's reference record is derived.
    pub storage_reference: Address,
    /// Where the caller claims the key's initial storage slot is derived.
    pub initial_storage: Address,
}

/// The accounts a `set` or `clear` call operates on.
pub struct UpdateAccounts {
    /// The caller: signs and funds the new slot's allocation.
    pub payer: Address,
    /// The key's reference record.
    pub storage_reference: Address,
    /// The storage slot the caller believes is current.
    pub storage: Address,
    /// Where the caller claims the next storage slot is derived.
    pub next_storage: Address,
}

/// Encodes a reference record's body: the current slot's address, verbatim.
pub fn encode_reference(r: &StorageReference) -> (out: Vec<u8>)
    ensures
        out@ == r.storage@,
{
    dup_bytes(&r.storage.bytes)
}

/// Decodes a reference record's body read back from the ledger.
pub fn decode_reference(data: &Vec<u8>) -> (r: Result<StorageReference, ProtocolError>)
    ensures
        (match r {
            Ok(sr) => data@.len() == REFERENCE_RECORD_BYTES && sr.storage@ == data@,
            Err(e) => e == ProtocolError::InvariantViolation && data@.len()
                != REFERENCE_RECORD_BYTES,
        }),
{
    if data.len() != REFERENCE_RECORD_BYTES {
        return Err(ProtocolError::InvariantViolation);
    }
    Ok(StorageReference { storage: Address::new(dup_bytes(data)) })
}

/// The payload an update carries: present for a set, absent for a clear.
pub open spec fn value_model(v: Option<Vec<u8>>) -> Option<Seq<u8>> {
    match v {
        Some(x) => Some(x@),
        None => None,
    }
}

/// What `init` decides and does, over the ledger's maps.  It either fails
/// without touching anything, or allocates the initial slot (a zeroed
/// header) and the reference record, pointed at the initial slot, debiting
/// the payer for both.
pub open spec fn spec_init(
    m: Map<Seq<u8>, (Seq<u8>, Seq<u8>)>,
    bal: Map<Seq<u8>, u64>,
    program_id: Seq<u8>,
    payer: Seq<u8>,
    storage_reference: Seq<u8>,
    initial_storage: Seq<u8>,
    key: Seq<u8>,
    bump: u8,
) -> Result<(Map<Seq<u8>, (Seq<u8>, Seq<u8>)>, Map<Seq<u8>, u64>, Seq<u8>), ProtocolError> {
    match derived_address(reference_seeds(payer, key), program_id) {
        None => Err(ProtocolError::DerivationFailed),
        Some((ref_addr, ref_bump)) => {
            if ref_addr != storage_reference || ref_bump != bump {
                Err(ProtocolError::AddressMismatch)
            } else if m.contains_key(ref_addr) {
                Err(ProtocolError::SlotAlreadyOwned)
            } else {
                match derived_address(slot_seeds(init_tag(), ref_addr), program_id) {
                    None => Err(ProtocolError::DerivationFailed),
                    Some((slot_addr, _slot_bump)) => {
                        if slot_addr != initial_storage {
                            Err(ProtocolError::AddressMismatch)
                        } else if m.contains_key(slot_addr) {
                            Err(ProtocolError::SlotAlreadyOwned)
                        } else if slot_addr == ref_addr {
                            Err(ProtocolError::InvariantViolation)
                        } else if spec_balance(bal, payer) < INITIAL_SLOT_LAMPORTS
                            + REFERENCE_RECORD_LAMPORTS {
                            Err(ProtocolError::FundingInsufficient)
                        } else {
                            Ok(
                                (
                                    m.insert(
                                        slot_addr,
                                        (program_id, zero_data(HEADER_BYTES as nat)),
                                    ).insert(ref_addr, (program_id, slot_addr)),
                                    bal.insert(
                                        payer,
                                        (spec_balance(bal, payer) - INITIAL_SLOT_LAMPORTS
                                            - REFERENCE_RECORD_LAMPORTS) as u64,
                                    ),
                                    ref_addr,
                                ),
                            )
                        }
                    },
                }
            }
        },
    }
}

/// What `set` and `clear` decide and do, over the ledger's maps.  It either
/// fails without touching anything, or allocates the next slot at the
/// derived address, writes the new payload's encoding into it, repoints the
/// reference record, and debits the payer.
pub open spec fn spec_set_or_clear(
    m: Map<Seq<u8>, (Seq<u8>, Seq<u8>)>,
    bal: Map<Seq<u8>, u64>,
    program_id: Seq<u8>,
    payer: Seq<u8>,
    storage_reference: Seq<u8>,
    storage: Seq<u8>,
    next_storage: Seq<u8>,
    value: Option<Seq<u8>>,
) -> Result<(Map<Seq<u8>, (Seq<u8>, Seq<u8>)>, Map<Seq<u8>, u64>), ProtocolError> {
    if !m.contains_key(storage_reference) {
        Err(ProtocolError::StaleReference)
    } else if m[storage_reference].0 != program_id {
        Err(ProtocolError::NotProgramOwned)
    } else if m[storage_reference].1.len() != REFERENCE_RECORD_BYTES {
        Err(ProtocolError::InvariantViolation)
    } else if m[storage_reference].1 != storage {
        Err(ProtocolError::StaleReference)
    } else if !m.contains_key(storage) || m[storage].0 != program_id {
        Err(ProtocolError::NotProgramOwned)
    } else {
        match derived_address(slot_seeds(next_tag(), storage), program_id) {
            None => Err(ProtocolError::DerivationFailed),
            Some((next_addr, _bump)) => {
                if next_addr != next_storage {
                    Err(ProtocolError::AddressMismatch)
                } else if m.contains_key(next_addr) {
                    Err(ProtocolError::SlotNotEmpty)
                } else if spec_balance(bal, payer) < NEXT_SLOT_LAMPORTS {
                    Err(ProtocolError::FundingInsufficient)
                } else {
                    Ok(
                        (
                            m.insert(next_addr, (program_id, slot_bytes(value))).insert(
                                storage_reference,
                                (program_id, next_addr),
                            ),
                            bal.insert(
                                payer,
                                (spec_balance(bal, payer) - NEXT_SLOT_LAMPORTS) as u64,
                            ),
                        ),
                    )
                }
            },
        }
    }
}

/// Creates a logical key's reference record and its initial, empty storage
/// slot, both at derived addresses, and points the record at the slot.
///
/// Re-invoking `init` for a key that already has a record fails: the record
/// and slot accounts are write-once, so `init` is not an upsert.
pub fn init(
    ledger: &mut Ledger,
    program_id: &Address,
    accounts: &Init,
    key: &Vec<u8>,
    storage_reference_bump_seed: u8,
) -> (r: Result<Address, ProtocolError>)
    requires
        old(ledger).wf(),
        program_id.wf(),
    ensures
        final(ledger).wf(),
        (match spec_init(
            old(ledger).accounts_map(),
            old(ledger).balances_map(),
            program_id@,
            accounts.payer@,
            accounts.storage_reference@,
            accounts.initial_storage@,
            key@,
            storage_reference_bump_seed,
        ) {
            Ok(p) => (match r {
                Ok(a) => a@ == p.2 && a.wf(),
                Err(_) => false,
            }) && final(ledger).accounts_map() == p.0 && final(ledger).balances_map() == p.1,
            Err(e) => r == Err::<Address, ProtocolError>(e) && final(ledger).accounts_map() == old(
                ledger,
            ).accounts_map() && final(ledger).balances_map() == old(ledger).balances_map(),
        }),
{
    let (ref_addr, ref_bump) = match derive_reference(&accounts.payer, key, program_id) {
        Ok(p) => p,
        Err(e) => {
            return Err(e);
        },
    };
    if !ref_addr.eq_addr(&accounts.storage_reference) || ref_bump != storage_reference_bump_seed {
        return Err(ProtocolError::AddressMismatch);
    }
    if ledger.contains_account(&ref_addr) {
        return Err(ProtocolError::SlotAlreadyOwned);
    }
    let tag = init_tag_bytes();
    let (slot_addr, _slot_bump) = match derive_slot(&tag, &ref_addr, program_id) {
        Ok(p) => p,
        Err(e) => {
            return Err(e);
        },
    };
    if !slot_addr.eq_addr(&accounts.initial_storage) {
        return Err(ProtocolError::AddressMismatch);
    }
    if ledger.contains_account(&slot_addr) {
        return Err(ProtocolError::SlotAlreadyOwned);
    }
    if slot_addr.eq_addr(&ref_addr) {
        return Err(ProtocolError::InvariantViolation);
    }
    let bal = ledger.balance(&accounts.payer);
    if bal < INITIAL_SLOT_LAMPORTS + REFERENCE_RECORD_LAMPORTS {
        return Err(ProtocolError::FundingInsufficient);
    }
    match ledger.create_account(
        &accounts.payer,
        &slot_addr,
        HEADER_BYTES,
        INITIAL_SLOT_LAMPORTS,
        program_id,
    ) {
        Ok(_) => {},
        Err(_) => {
            proof {
                assert(false);
            }
            return Err(ProtocolError::InvariantViolation);
        },
    }
    match ledger.create_account(
        &accounts.payer,
        &ref_addr,
        REFERENCE_RECORD_BYTES,
        REFERENCE_RECORD_LAMPORTS,
        program_id,
    ) {
        Ok(_) => {},
        Err(_) => {
            proof {
                assert(false);
            }
            return Err(ProtocolError::InvariantViolation);
        },
    }
    let pointer = StorageReference { storage: slot_addr.dup() };
    match ledger.write_account(program_id, &ref_addr, encode_reference(&pointer)) {
        Ok(_) => {},
        Err(_) => {
            proof {
                assert(false);
            }
            return Err(ProtocolError::InvariantViolation);
        },
    }
    proof {
        let p = spec_init(
            old(ledger).accounts_map(),
            old(ledger).balances_map(),
            program_id@,
            accounts.payer@,
            accounts.storage_reference@,
            accounts.initial_storage@,
            key@,
            storage_reference_bump_seed,
        )->Ok_0;
        assert(ledger.accounts_map() =~= p.0);
        assert(ledger.balances_map() =~= p.1);
    }
    Ok(ref_addr)
}

/// The shared body of `set` and `clear`: derives the next slot's address
/// from the current slot's, verifies the caller supplied exactly that
/// address, allocates and writes the next slot, and repoints the reference
/// record.
///
/// Two racing updates that observed the same current slot derive the same
/// next slot address, so the first to allocate it wins; the loser fails and
/// changes nothing.
pub fn set_or_clear(
    ledger: &mut Ledger,
    program_id: &Address,
    accounts: &UpdateAccounts,
    value: Option<Vec<u8>>,
) -> (r: Result<(), ProtocolError>)
    requires
        old(ledger).wf(),
        program_id.wf(),
        (match value {
            Some(v) => v@.len() + HEADER_BYTES <= usize::MAX,
            None => true,
        }),
    ensures
        final(ledger).wf(),
        (match spec_set_or_clear(
            old(ledger).accounts_map(),
            old(ledger).balances_map(),
            program_id@,
            accounts.payer@,
            accounts.storage_reference@,
            accounts.storage@,
            accounts.next_storage@,
            value_model(value),
        ) {
            Ok(p) => r == Ok::<(), ProtocolError>(()) && final(ledger).accounts_map() == p.0
                && final(ledger).balances_map() == p.1,
            Err(e) => r == Err::<(), ProtocolError>(e) && final(ledger).accounts_map() == old(
                ledger,
            ).accounts_map() && final(ledger).balances_map() == old(ledger).balances_map(),
        }),
{
    let record_owner = match ledger.owner_of(&accounts.storage_reference) {
        Some(o) => o,
        None => {
            return Err(ProtocolError::StaleReference);
        },
    };
    if !crate::bytes::bytes_eq(&record_owner, &program_id.bytes) {
        return Err(ProtocolError::NotProgramOwned);
    }
    let record_data = match ledger.read_account(&accounts.storage_reference) {
        Ok(d) => d,
        Err(_) => {
            proof {
                assert(false);
            }
            return Err(ProtocolError::StaleReference);
        },
    };
    let record = match decode_reference(&record_data) {
        Ok(sr) => sr,
        Err(e) => {
            return Err(e);
        },
    };
    if !record.storage.eq_addr(&accounts.storage) {
        return Err(ProtocolError::StaleReference);
    }
    let slot_owner = match ledger.owner_of(&accounts.storage) {
        Some(o) => o,
        None => {
            return Err(ProtocolError::NotProgramOwned);
        },
    };
    if !crate::bytes::bytes_eq(&slot_owner, &program_id.bytes) {
        return Err(ProtocolError::NotProgramOwned);
    }
    let tag = next_tag_bytes();
    let (next_addr, _next_bump) = match derive_slot(&tag, &accounts.storage, program_id) {
        Ok(p) => p,
        Err(e) => {
            return Err(e);
        },
    };
    if !next_addr.eq_addr(&accounts.next_storage) {
        return Err(ProtocolError::AddressMismatch);
    }
    if ledger.contains_account(&next_addr) {
        return Err(ProtocolError::SlotNotEmpty);
    }
    let bal = ledger.balance(&accounts.payer);
    if bal < NEXT_SLOT_LAMPORTS {
        return Err(ProtocolError::FundingInsufficient);
    }
    let payload_len = match &value {
        Some(v) => v.len(),
        None => 0,
    };
    let size = HEADER_BYTES + payload_len;
    match ledger.create_account(&accounts.payer, &next_addr, size, NEXT_SLOT_LAMPORTS, program_id) {
        Ok(_) => {},
        Err(_) => {
            proof {
                assert(false);
            }
            return Err(ProtocolError::InvariantViolation);
        },
    }
    match value {
        Some(_) => {
            let body = encode_slot(&value);
            match ledger.write_account(program_id, &next_addr, body) {
                Ok(_) => {},
                Err(_) => {
                    proof {
                        assert(false);
                    }
                    return Err(ProtocolError::InvariantViolation);
                },
            }
        },
        None => {
            // A freshly allocated slot must already read as an empty slot;
            // anything else signals host or protocol corruption.  The fresh
            // buffer is all zeroes, so this guard is provably dead, and a
            // clear writes nothing into the slot.
            let fresh = match ledger.read_account(&next_addr) {
                Ok(d) => d,
                Err(_) => {
                    proof {
                        assert(false);
                    }
                    return Err(ProtocolError::InvariantViolation);
                },
            };
            if fresh[0] != FLAG_EMPTY {
                proof {
                    assert(false);
                }
                return Err(ProtocolError::InvariantViolation);
            }
            proof {
                assert(ledger.accounts_map()[next_addr@].1 =~= slot_bytes(value_model(value)));
            }
        },
    }
    let pointer = StorageReference { storage: next_addr.dup() };
    match ledger.write_account(program_id, &accounts.storage_reference, encode_reference(&pointer))
    {
        Ok(_) => {},
        Err(_) => {
            proof {
                assert(false);
            }
            return Err(ProtocolError::InvariantViolation);
        },
    }
    proof {
        let p = spec_set_or_clear(
            old(ledger).accounts_map(),
            old(ledger).balances_map(),
            program_id@,
            accounts.payer@,
            accounts.storage_reference@,
            accounts.storage@,
            accounts.next_storage@,
            value_model(value),
        )->Ok_0;
        assert(ledger.accounts_map() =~= p.0);
        assert(ledger.balances_map() =~= p.1);
    }
    Ok(())
}

/// Sets the key's value: allocates the next slot, writes `value` into it,
/// and repoints the reference record at it.
pub fn set(
    ledger: &mut Ledger,
    program_id: &Address,
    accounts: &UpdateAccounts,
    value: Vec<u8>,
) -> (r: Result<(), ProtocolError>)
    requires
        old(ledger).wf(),
        program_id.wf(),
        value@.len() + HEADER_BYTES <= usize::MAX,
    ensures
        final(ledger).wf(),
        (match spec_set_or_clear(
            old(ledger).accounts_map(),
            old(ledger).balances_map(),
            program_id@,
            accounts.payer@,
            accounts.storage_reference@,
            accounts.storage@,
            accounts.next_storage@,
            Some(value@),
        ) {
            Ok(p) => r == Ok::<(), ProtocolError>(()) && final(ledger).accounts_map() == p.0
                && final(ledger).balances_map() == p.1,
            Err(e) => r == Err::<(), ProtocolError>(e) && final(ledger).accounts_map() == old(
                ledger,
            ).accounts_map() && final(ledger).balances_map() == old(ledger).balances_map(),
        }),
{
    set_or_clear(ledger, program_id, accounts, Some(value))
}

/// Clears the key's value: allocates the next slot, leaves it empty, and
/// repoints the reference record at it.
pub fn clear(ledger: &mut Ledger, program_id: &Address, accounts: &UpdateAccounts) -> (r: Result<
    (),
    ProtocolError,
>)
    requires
        old(ledger).wf(),
        program_id.wf(),
    ensures
        final(ledger).wf(),
        (match spec_set_or_clear(
            old(ledger).accounts_map(),
            old(ledger).balances_map(),
            program_id@,
            accounts.payer@,
            accounts.storage_reference@,
            accounts.storage@,
            accounts.next_storage@,
            None,
        ) {
            Ok(p) => r == Ok::<(), ProtocolError>(()) && final(ledger).accounts_map() == p.0
                && final(ledger).balances_map() == p.1,
            Err(e) => r == Err::<(), ProtocolError>(e) && final(ledger).accounts_map() == old(
                ledger,
            ).accounts_map() && final(ledger).balances_map() == old(ledger).balances_map(),
        }),
{
    set_or_clear(ledger, program_id, accounts, None)
}

/// The address of the `n`th storage slot of a reference record's derivation
/// chain: the initial slot is derived from the record's address under the
/// init tag, and each subsequent slot from its predecessor under the next
/// tag.  `None` when any derivation along the way fails.
pub open spec fn slot_chain(program_id: Seq<u8>, reference: Seq<u8>, n: nat) -> Option<Seq<u8>>
    decreases n,
{
    if n == 0 {
        match derived_address(slot_seeds(init_tag(), reference), program_id) {
            Some(p) => Some(p.0),
            None => None,
        }
    } else {
        match slot_chain(program_id, reference, (n - 1) as nat) {
            Some(prev) => match derived_address(slot_seeds(next_tag(), prev), program_id) {
                Some(p) => Some(p.0),
                None => None,
            },
            None => None,
        }
    }
}

/// Monotonic chain, base case: a successful `init` leaves the reference
/// record pointing at the zeroth slot of its derivation chain.
pub proof fn lemma_chain_init(
    m: Map<Seq<u8>, (Seq<u8>, Seq<u8>)>,
    bal: Map<Seq<u8>, u64>,
    program_id: Seq<u8>,
    payer: Seq<u8>,
    storage_reference: Seq<u8>,
    initial_storage: Seq<u8>,
    key: Seq<u8>,
    bump: u8,
)
    requires
        spec_init(m, bal, program_id, payer, storage_reference, initial_storage, key, bump) is Ok,
    ensures
        ({
            let p = spec_init(
                m,
                bal,
                program_id,
                payer,
                storage_reference,
                initial_storage,
                key,
                bump,
            )->Ok_0;
            &&& p.2 == storage_reference
            &&& p.0.contains_key(storage_reference)
            &&& slot_chain(program_id, storage_reference, 0) == Some(p.0[storage_reference].1)
        }),
{
}

/// Monotonic chain, inductive step: a successful update of a record that
/// points at the `n`th slot of its chain leaves it pointing at the
/// `n + 1`st, which is derived from the `n`th under the next tag.
pub proof fn lemma_chain_step(
    m: Map<Seq<u8>, (Seq<u8>, Seq<u8>)>,
    bal: Map<Seq<u8>, u64>,
    program_id: Seq<u8>,
    payer: Seq<u8>,
    storage_reference: Seq<u8>,
    storage: Seq<u8>,
    next_storage: Seq<u8>,
    value: Option<Seq<u8>>,
    n: nat,
)
    requires
        spec_set_or_clear(
            m,
            bal,
            program_id,
            payer,
            storage_reference,
            storage,
            next_storage,
            value,
        ) is Ok,
        slot_chain(program_id, storage_reference, n) == Some(m[storage_reference].1),
    ensures
        ({
            let p = spec_set_or_clear(
                m,
                bal,
                program_id,
                payer,
                storage_reference,
                storage,
                next_storage,
                value,
            )->Ok_0;
            &&& p.0.contains_key(storage_reference)
            &&& slot_chain(program_id, storage_reference, n + 1) == Some(p.0[storage_reference].1)
        }),
{
    assert(m[storage_reference].1 == storage);
}

/// Race safety: two updates that observed the same current slot derive the
/// same next slot address — the deriver is deterministic — so once the
/// winner has committed, an account lives at that address: the loser's
/// allocation must fail, the loser's whole update fails, and the record
/// points at exactly the winner's slot, never both, never neither.
pub proof fn lemma_race_safety(
    m: Map<Seq<u8>, (Seq<u8>, Seq<u8>)>,
    bal: Map<Seq<u8>, u64>,
    program_id: Seq<u8>,
    payer1: Seq<u8>,
    payer2: Seq<u8>,
    storage_reference: Seq<u8>,
    storage: Seq<u8>,
    next_storage: Seq<u8>,
    value1: Option<Seq<u8>>,
    value2: Option<Seq<u8>>,
)
    requires
        spec_set_or_clear(
            m,
            bal,
            program_id,
            payer1,
            storage_reference,
            storage,
            next_storage,
            value1,
        ) is Ok,
    ensures
        ({
            let p = spec_set_or_clear(
                m,
                bal,
                program_id,
                payer1,
                storage_reference,
                storage,
                next_storage,
                value1,
            )->Ok_0;
            &&& p.0.contains_key(next_storage)
            &&& forall|size: nat, funding: u64, owner: Seq<u8>|
                #[trigger] spec_create_account(
                    p.0,
                    p.1,
                    payer2,
                    next_storage,
                    size,
                    funding,
                    owner,
                ) == Err::<(Map<Seq<u8>, (Seq<u8>, Seq<u8>)>, Map<Seq<u8>, u64>), LedgerError>(
                    LedgerError::AlreadyExists,
                )
            &&& spec_set_or_clear(
                p.0,
                p.1,
                program_id,
                payer2,
                storage_reference,
                storage,
                next_storage,
                value2,
            ) is Err
            &&& p.0[storage_reference].1 == next_storage
        }),
{
    let p = spec_set_or_clear(
        m,
        bal,
        program_id,
        payer1,
        storage_reference,
        storage,
        next_storage,
        value1,
    )->Ok_0;
    assert(m.contains_key(storage));
    assert(!m.contains_key(next_storage));
    assert(storage != next_storage);
    assert(p.0[storage_reference].1 == next_storage);
}

/// Payload and clear round-trip: after a successful update, the bytes of
/// the new current slot parse back to exactly the payload the update
/// carried — the payload itself for a set, absence for a clear.
pub proof fn lemma_update_roundtrip(
    m: Map<Seq<u8>, (Seq<u8>, Seq<u8>)>,
    bal: Map<Seq<u8>, u64>,
    program_id: Seq<u8>,
    payer: Seq<u8>,
    storage_reference: Seq<u8>,
    storage: Seq<u8>,
    next_storage: Seq<u8>,
    value: Option<Seq<u8>>,
)
    requires
        spec_set_or_clear(
            m,
            bal,
            program_id,
            payer,
            storage_reference,
            storage,
            next_storage,
            value,
        ) is Ok,
    ensures
        ({
            let p = spec_set_or_clear(
                m,
                bal,
                program_id,
                payer,
                storage_reference,
                storage,
                next_storage,
                value,
            )->Ok_0;
            &&& p.0[storage_reference].1 == next_storage
            &&& p.0[next_storage].1 == slot_bytes(value)
            &&& parse_slot(p.0[next_storage].1) == Some(value)
        }),
{
    assert(!m.contains_key(next_storage));
    assert(m.contains_key(storage_reference));
    assert(storage_reference != next_storage);
    match value {
        Some(v) => crate::slot::lemma_slot_roundtrip_set(v),
        None => crate::slot::lemma_slot_roundtrip_clear(),
    }
}

} // verus!
