use spl_token_gen::addr::{derive_reference, derive_slot, Address};
use spl_token_gen::error::{LedgerError, ProtocolError};
use spl_token_gen::ledger::Ledger;
use spl_token_gen::protocol::{clear, init, set_or_clear, Init, StorageReference, UpdateAccounts};
use spl_token_gen::slot::{decode_slot, encode_slot};

fn addr32(b: u8) -> Address {
    Address::new(vec![b; 32])
}

fn init_accounts(payer: &Address, reference: &Address, slot: &Address) -> Init {
    Init {
        payer: payer.dup(),
        storage_reference: reference.dup(),
        initial_storage: slot.dup(),
    }
}

fn update_accounts(
    payer: &Address,
    reference: &Address,
    current: &Address,
    next: &Address,
) -> UpdateAccounts {
    UpdateAccounts {
        payer: payer.dup(),
        storage_reference: reference.dup(),
        storage: current.dup(),
        next_storage: next.dup(),
    }
}

/// Runs init for `key` and returns the reference record's address, its bump
/// seed, and the initial slot's address.
fn run_init(ledger: &mut Ledger, program_id: &Address, payer: &Address, key: &[u8]) -> (
    Address,
    u8,
    Address,
) {
    let key = key.to_vec();
    let (reference, bump) = derive_reference(payer, &key, program_id).unwrap();
    let (slot0, _) = derive_slot(&b"init".to_vec(), &reference, program_id).unwrap();
    let returned = init(
        ledger,
        program_id,
        &init_accounts(payer, &reference, &slot0),
        &key,
        bump,
    )
    .unwrap();
    assert!(returned.eq_addr(&reference));
    (reference, bump, slot0)
}

/// Derives the next slot from `current` and runs one update carrying
/// `value`, returning the next slot's address.
fn run_update(
    ledger: &mut Ledger,
    program_id: &Address,
    payer: &Address,
    reference: &Address,
    current: &Address,
    value: Option<Vec<u8>>,
) -> Address {
    let (next, _) = derive_slot(&b"next".to_vec(), current, program_id).unwrap();
    set_or_clear(
        ledger,
        program_id,
        &update_accounts(payer, reference, current, &next),
        value,
    )
    .unwrap();
    next
}

#[test]
fn derive_is_deterministic() {
    let program_id = addr32(7);
    let predecessor = addr32(9);
    let a = derive_slot(&b"next".to_vec(), &predecessor, &program_id).unwrap();
    let b = derive_slot(&b"next".to_vec(), &predecessor, &program_id).unwrap();
    assert_eq!(a.0.bytes, b.0.bytes);
    assert_eq!(a.1, b.1);
    let c = derive_reference(&predecessor, &b"alice".to_vec(), &program_id).unwrap();
    let d = derive_reference(&predecessor, &b"alice".to_vec(), &program_id).unwrap();
    assert_eq!(c.0.bytes, d.0.bytes);
    assert_eq!(c.1, d.1);
}

#[test]
fn derive_depends_on_every_input() {
    let program_id = addr32(7);
    let predecessor = addr32(9);
    let base = derive_slot(&b"next".to_vec(), &predecessor, &program_id).unwrap();
    let other_tag = derive_slot(&b"init".to_vec(), &predecessor, &program_id).unwrap();
    let other_pred = derive_slot(&b"next".to_vec(), &addr32(10), &program_id).unwrap();
    let other_ns = derive_slot(&b"next".to_vec(), &predecessor, &addr32(8)).unwrap();
    assert_ne!(base.0.bytes, other_tag.0.bytes);
    assert_ne!(base.0.bytes, other_pred.0.bytes);
    assert_ne!(base.0.bytes, other_ns.0.bytes);
    assert_ne!(base.0.bytes, predecessor.bytes);
    assert_ne!(base.0.bytes, program_id.bytes);
}

#[test]
fn derive_fails_on_oversized_seed() {
    let program_id = addr32(7);
    let payer = addr32(2);
    let long_key = vec![1u8; 33];
    assert_eq!(
        derive_reference(&payer, &long_key, &program_id).unwrap_err(),
        ProtocolError::DerivationFailed
    );
}

#[test]
fn init_creates_record_and_empty_slot() {
    let mut ledger = Ledger::new();
    let program_id = addr32(1);
    let payer = addr32(2);
    ledger.credit(&payer, 1_000_000);
    let (reference, _, slot0) = run_init(&mut ledger, &program_id, &payer, b"alice");
    let record = ledger.read_account(&reference).unwrap();
    assert_eq!(record, slot0.bytes);
    let slot_data = ledger.read_account(&slot0).unwrap();
    assert_eq!(slot_data, vec![0u8]);
    assert_eq!(decode_slot(&slot_data).unwrap(), None);
    assert_eq!(ledger.balance(&payer), 1_000_000 - 200_000);
}

#[test]
fn init_twice_fails() {
    let mut ledger = Ledger::new();
    let program_id = addr32(1);
    let payer = addr32(2);
    ledger.credit(&payer, 1_000_000);
    let (reference, bump, slot0) = run_init(&mut ledger, &program_id, &payer, b"alice");
    let again = init(
        &mut ledger,
        &program_id,
        &init_accounts(&payer, &reference, &slot0),
        &b"alice".to_vec(),
        bump,
    );
    assert_eq!(again.unwrap_err(), ProtocolError::SlotAlreadyOwned);
    // The record still points at the original slot.
    assert_eq!(ledger.read_account(&reference).unwrap(), slot0.bytes);
}

#[test]
fn init_rejects_wrong_slot_address() {
    let mut ledger = Ledger::new();
    let program_id = addr32(1);
    let payer = addr32(2);
    ledger.credit(&payer, 1_000_000);
    let key = b"alice".to_vec();
    let (reference, bump) = derive_reference(&payer, &key, &program_id).unwrap();
    let r = init(
        &mut ledger,
        &program_id,
        &init_accounts(&payer, &reference, &addr32(99)),
        &key,
        bump,
    );
    assert_eq!(r.unwrap_err(), ProtocolError::AddressMismatch);
}

#[test]
fn init_rejects_wrong_bump() {
    let mut ledger = Ledger::new();
    let program_id = addr32(1);
    let payer = addr32(2);
    ledger.credit(&payer, 1_000_000);
    let key = b"alice".to_vec();
    let (reference, bump) = derive_reference(&payer, &key, &program_id).unwrap();
    let (slot0, _) = derive_slot(&b"init".to_vec(), &reference, &program_id).unwrap();
    let r = init(
        &mut ledger,
        &program_id,
        &init_accounts(&payer, &reference, &slot0),
        &key,
        bump.wrapping_add(1),
    );
    assert_eq!(r.unwrap_err(), ProtocolError::AddressMismatch);
}

#[test]
fn init_rejects_unfunded_payer() {
    let mut ledger = Ledger::new();
    let program_id = addr32(1);
    let payer = addr32(2);
    ledger.credit(&payer, 199_999);
    let key = b"alice".to_vec();
    let (reference, bump) = derive_reference(&payer, &key, &program_id).unwrap();
    let (slot0, _) = derive_slot(&b"init".to_vec(), &reference, &program_id).unwrap();
    let r = init(
        &mut ledger,
        &program_id,
        &init_accounts(&payer, &reference, &slot0),
        &key,
        bump,
    );
    assert_eq!(r.unwrap_err(), ProtocolError::FundingInsufficient);
    assert_eq!(ledger.balance(&payer), 199_999);
}

#[test]
fn set_roundtrips_payloads_of_many_lengths() {
    let mut ledger = Ledger::new();
    let program_id = addr32(1);
    let payer = addr32(2);
    ledger.credit(&payer, 10_000_000);
    let (reference, _, slot0) = run_init(&mut ledger, &program_id, &payer, b"alice");
    let mut current = slot0;
    for len in [0usize, 1, 2, 31, 32, 33, 100] {
        let payload: Vec<u8> = (0..len).map(|i| (i % 251) as u8).collect();
        let next = run_update(
            &mut ledger,
            &program_id,
            &payer,
            &reference,
            &current,
            Some(payload.clone()),
        );
        let stored = ledger.read_account(&next).unwrap();
        assert_eq!(stored[0], 0xA1);
        assert_eq!(decode_slot(&stored).unwrap(), Some(payload));
        assert_eq!(ledger.read_account(&reference).unwrap(), next.bytes);
        current = next;
    }
}

#[test]
fn clear_yields_empty_slot() {
    let mut ledger = Ledger::new();
    let program_id = addr32(1);
    let payer = addr32(2);
    ledger.credit(&payer, 1_000_000);
    let (reference, _, slot0) = run_init(&mut ledger, &program_id, &payer, b"alice");
    let slot1 = run_update(
        &mut ledger,
        &program_id,
        &payer,
        &reference,
        &slot0,
        Some(b"hello".to_vec()),
    );
    let (slot2, _) = derive_slot(&b"next".to_vec(), &slot1, &program_id).unwrap();
    clear(
        &mut ledger,
        &program_id,
        &update_accounts(&payer, &reference, &slot1, &slot2),
    )
    .unwrap();
    let stored = ledger.read_account(&slot2).unwrap();
    assert_eq!(stored, vec![0u8]);
    assert_eq!(decode_slot(&stored).unwrap(), None);
    assert_eq!(ledger.read_account(&reference).unwrap(), slot2.bytes);
}

#[test]
fn full_chain_scenario() {
    let mut ledger = Ledger::new();
    let program_id = addr32(1);
    let caller = addr32(2);
    ledger.credit(&caller, 1_000_000);

    // init(caller, b"alice"): record created, pointing at an empty slot0.
    let (reference, _, slot0) = run_init(&mut ledger, &program_id, &caller, b"alice");
    assert_eq!(ledger.read_account(&reference).unwrap(), slot0.bytes);
    assert_eq!(decode_slot(&ledger.read_account(&slot0).unwrap()).unwrap(), None);

    // set "hello": record repointed at slot1 holding the payload.
    let (slot1, _) = derive_slot(&b"next".to_vec(), &slot0, &program_id).unwrap();
    spl_token_gen::protocol::set(
        &mut ledger,
        &program_id,
        &update_accounts(&caller, &reference, &slot0, &slot1),
        b"hello".to_vec(),
    )
    .unwrap();
    assert_eq!(ledger.read_account(&reference).unwrap(), slot1.bytes);
    assert_eq!(
        decode_slot(&ledger.read_account(&slot1).unwrap()).unwrap(),
        Some(b"hello".to_vec())
    );
    // slot0 is unchanged: still allocated, still empty.
    assert_eq!(decode_slot(&ledger.read_account(&slot0).unwrap()).unwrap(), None);

    // set "hello world": record repointed at slot2 with the longer payload.
    let (slot2, _) = derive_slot(&b"next".to_vec(), &slot1, &program_id).unwrap();
    spl_token_gen::protocol::set(
        &mut ledger,
        &program_id,
        &update_accounts(&caller, &reference, &slot1, &slot2),
        b"hello world".to_vec(),
    )
    .unwrap();
    assert_eq!(ledger.read_account(&reference).unwrap(), slot2.bytes);
    assert_eq!(
        decode_slot(&ledger.read_account(&slot2).unwrap()).unwrap(),
        Some(b"hello world".to_vec())
    );
    // slot1 retained unchanged.
    assert_eq!(
        decode_slot(&ledger.read_account(&slot1).unwrap()).unwrap(),
        Some(b"hello".to_vec())
    );

    // clear: record repointed at an empty slot3.
    let (slot3, _) = derive_slot(&b"next".to_vec(), &slot2, &program_id).unwrap();
    clear(
        &mut ledger,
        &program_id,
        &update_accounts(&caller, &reference, &slot2, &slot3),
    )
    .unwrap();
    assert_eq!(ledger.read_account(&reference).unwrap(), slot3.bytes);
    assert_eq!(decode_slot(&ledger.read_account(&slot3).unwrap()).unwrap(), None);

    // Re-deriving each slot from its predecessor reproduces the addresses
    // used above exactly.
    let (again1, _) = derive_slot(&b"next".to_vec(), &slot0, &program_id).unwrap();
    let (again2, _) = derive_slot(&b"next".to_vec(), &slot1, &program_id).unwrap();
    assert_eq!(again1.bytes, slot1.bytes);
    assert_eq!(again2.bytes, slot2.bytes);
}

#[test]
fn racing_update_loses() {
    let mut ledger = Ledger::new();
    let program_id = addr32(1);
    let payer = addr32(2);
    ledger.credit(&payer, 1_000_000);
    let (reference, _, slot0) = run_init(&mut ledger, &program_id, &payer, b"alice");
    // Both updaters observe slot0 and derive the same next slot.
    let (next_a, _) = derive_slot(&b"next".to_vec(), &slot0, &program_id).unwrap();
    let (next_b, _) = derive_slot(&b"next".to_vec(), &slot0, &program_id).unwrap();
    assert_eq!(next_a.bytes, next_b.bytes);
    spl_token_gen::protocol::set(
        &mut ledger,
        &program_id,
        &update_accounts(&payer, &reference, &slot0, &next_a),
        b"first".to_vec(),
    )
    .unwrap();
    // The second update, still holding slot0 as current, must fail, and the
    // record points at exactly the winner's slot.
    let lost = spl_token_gen::protocol::set(
        &mut ledger,
        &program_id,
        &update_accounts(&payer, &reference, &slot0, &next_b),
        b"second".to_vec(),
    );
    assert_eq!(lost.unwrap_err(), ProtocolError::StaleReference);
    assert_eq!(ledger.read_account(&reference).unwrap(), next_a.bytes);
    assert_eq!(
        decode_slot(&ledger.read_account(&next_a).unwrap()).unwrap(),
        Some(b"first".to_vec())
    );
}

#[test]
fn occupied_next_slot_fails_update() {
    let mut ledger = Ledger::new();
    let program_id = addr32(1);
    let payer = addr32(2);
    ledger.credit(&payer, 1_000_000);
    let (reference, _, slot0) = run_init(&mut ledger, &program_id, &payer, b"alice");
    let (next, _) = derive_slot(&b"next".to_vec(), &slot0, &program_id).unwrap();
    // Someone squats on the derived next-slot address first.
    ledger
        .create_account(&payer, &next, 3, 0, &addr32(50))
        .unwrap();
    let r = spl_token_gen::protocol::set(
        &mut ledger,
        &program_id,
        &update_accounts(&payer, &reference, &slot0, &next),
        b"hello".to_vec(),
    );
    assert_eq!(r.unwrap_err(), ProtocolError::SlotNotEmpty);
    assert_eq!(ledger.read_account(&reference).unwrap(), slot0.bytes);
}

#[test]
fn update_rejects_wrong_next_address() {
    let mut ledger = Ledger::new();
    let program_id = addr32(1);
    let payer = addr32(2);
    ledger.credit(&payer, 1_000_000);
    let (reference, _, slot0) = run_init(&mut ledger, &program_id, &payer, b"alice");
    let r = spl_token_gen::protocol::set(
        &mut ledger,
        &program_id,
        &update_accounts(&payer, &reference, &slot0, &addr32(99)),
        b"hello".to_vec(),
    );
    assert_eq!(r.unwrap_err(), ProtocolError::AddressMismatch);
}

#[test]
fn update_rejects_foreign_record() {
    let mut ledger = Ledger::new();
    let program_id = addr32(1);
    let payer = addr32(2);
    ledger.credit(&payer, 1_000_000);
    // An account owned by some other namespace, posing as a record.
    let fake_record = addr32(60);
    ledger
        .create_account(&payer, &fake_record, 32, 0, &addr32(61))
        .unwrap();
    let r = clear(
        &mut ledger,
        &program_id,
        &update_accounts(&payer, &fake_record, &addr32(62), &addr32(63)),
    );
    assert_eq!(r.unwrap_err(), ProtocolError::NotProgramOwned);
}

#[test]
fn update_rejects_malformed_record() {
    let mut ledger = Ledger::new();
    let program_id = addr32(1);
    let payer = addr32(2);
    ledger.credit(&payer, 1_000_000);
    // A program-owned account of the wrong size, posing as a record.
    let fake_record = addr32(60);
    ledger
        .create_account(&payer, &fake_record, 5, 0, &program_id)
        .unwrap();
    let r = clear(
        &mut ledger,
        &program_id,
        &update_accounts(&payer, &fake_record, &addr32(62), &addr32(63)),
    );
    assert_eq!(r.unwrap_err(), ProtocolError::InvariantViolation);
}

#[test]
fn update_rejects_missing_record() {
    let mut ledger = Ledger::new();
    let program_id = addr32(1);
    let payer = addr32(2);
    ledger.credit(&payer, 1_000_000);
    let r = clear(
        &mut ledger,
        &program_id,
        &update_accounts(&payer, &addr32(60), &addr32(62), &addr32(63)),
    );
    assert_eq!(r.unwrap_err(), ProtocolError::StaleReference);
}

#[test]
fn update_rejects_unfunded_payer() {
    let mut ledger = Ledger::new();
    let program_id = addr32(1);
    let payer = addr32(2);
    ledger.credit(&payer, 200_000);
    let (reference, _, slot0) = run_init(&mut ledger, &program_id, &payer, b"alice");
    assert_eq!(ledger.balance(&payer), 0);
    let (next, _) = derive_slot(&b"next".to_vec(), &slot0, &program_id).unwrap();
    let r = spl_token_gen::protocol::set(
        &mut ledger,
        &program_id,
        &update_accounts(&payer, &reference, &slot0, &next),
        b"hello".to_vec(),
    );
    assert_eq!(r.unwrap_err(), ProtocolError::FundingInsufficient);
}

#[test]
fn ledger_create_is_write_once() {
    let mut ledger = Ledger::new();
    let payer = addr32(2);
    ledger.credit(&payer, 1_000);
    let target = addr32(3);
    ledger.create_account(&payer, &target, 4, 100, &addr32(4)).unwrap();
    let again = ledger.create_account(&payer, &target, 9, 100, &addr32(5));
    assert_eq!(again.unwrap_err(), LedgerError::AlreadyExists);
    // The first write stands: still four zero bytes, balance debited once.
    assert_eq!(ledger.read_account(&target).unwrap(), vec![0u8; 4]);
    assert_eq!(ledger.balance(&payer), 900);
}

#[test]
fn ledger_write_is_owner_gated() {
    let mut ledger = Ledger::new();
    let payer = addr32(2);
    ledger.credit(&payer, 1_000);
    let target = addr32(3);
    let owner = addr32(4);
    ledger.create_account(&payer, &target, 4, 0, &owner).unwrap();
    let denied = ledger.write_account(&addr32(5), &target, vec![1, 2, 3, 4]);
    assert_eq!(denied.unwrap_err(), LedgerError::NotOwner);
    let resized = ledger.write_account(&owner, &target, vec![1, 2, 3]);
    assert_eq!(resized.unwrap_err(), LedgerError::SizeMismatch);
    ledger.write_account(&owner, &target, vec![1, 2, 3, 4]).unwrap();
    assert_eq!(ledger.read_account(&target).unwrap(), vec![1, 2, 3, 4]);
    let missing = ledger.write_account(&owner, &addr32(6), vec![]);
    assert_eq!(missing.unwrap_err(), LedgerError::NotFound);
    assert_eq!(ledger.read_account(&addr32(6)).unwrap_err(), LedgerError::NotFound);
}

#[test]
fn ledger_create_needs_funds() {
    let mut ledger = Ledger::new();
    let payer = addr32(2);
    ledger.credit(&payer, 99);
    let r = ledger.create_account(&payer, &addr32(3), 4, 100, &addr32(4));
    assert_eq!(r.unwrap_err(), LedgerError::InsufficientFunds);
    assert_eq!(ledger.balance(&payer), 99);
}

#[test]
fn slot_codec_roundtrips() {
    for len in [0usize, 1, 7, 64] {
        let payload: Vec<u8> = (0..len).map(|i| (255 - i % 256) as u8).collect();
        let encoded = encode_slot(&Some(payload.clone()));
        assert_eq!(encoded[0], 0xA1);
        assert_eq!(encoded.len(), 1 + len);
        assert_eq!(decode_slot(&encoded).unwrap(), Some(payload));
    }
    let cleared = encode_slot(&None);
    assert_eq!(cleared, vec![0u8]);
    assert_eq!(decode_slot(&cleared).unwrap(), None);
    assert_eq!(
        decode_slot(&vec![]).unwrap_err(),
        ProtocolError::InvariantViolation
    );
    assert_eq!(
        decode_slot(&vec![0x17, 1, 2]).unwrap_err(),
        ProtocolError::InvariantViolation
    );
}

#[test]
fn record_codec_roundtrips() {
    let slot = addr32(9);
    let record = StorageReference { storage: slot.dup() };
    let encoded = spl_token_gen::protocol::encode_reference(&record);
    assert_eq!(encoded, slot.bytes);
    let decoded = spl_token_gen::protocol::decode_reference(&encoded).unwrap();
    assert_eq!(decoded.storage.bytes, slot.bytes);
    assert_eq!(
        spl_token_gen::protocol::decode_reference(&vec![1, 2, 3]).unwrap_err(),
        ProtocolError::InvariantViolation
    );
}
