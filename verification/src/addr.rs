//! The address deriver: computes a storage account's address and its
//! disambiguating bump seed deterministically from a domain tag and the
//! address of its logical predecessor.

use crate::bytes::dup_bytes;
use crate::error::ProtocolError;
use vstd::prelude::*;

verus! {

/// A 32-byte account address in the host ledger's address space.
#[derive(Debug)]
pub struct Address {
    pub bytes: Vec<u8>,
}

impl View for Address {
    type V = Seq<u8>;

    open spec fn view(&self) -> Seq<u8> {
        self.bytes@
    }
}

impl Address {
    /// A well-formed address holds exactly 32 bytes.
    pub open spec fn wf(&self) -> bool {
        self@.len() == 32
    }

    pub fn new(bytes: Vec<u8>) -> (r: Address)
        ensures
            r@ == bytes@,
    {
        Address { bytes }
    }

    /// Returns a fresh copy of this address.
    pub fn dup(&self) -> (r: Address)
        ensures
            r@ == self@,
    {
        Address { bytes: dup_bytes(&self.bytes) }
    }

    /// Returns whether two addresses are the same.
    pub fn eq_addr(&self, other: &Address) -> (r: bool)
        ensures
            r == (self@ == other@),
    {
        crate::bytes::bytes_eq(&self.bytes, &other.bytes)
    }
}

/// The domain tag under which a logical key's reference record is derived
/// from the caller's identity and the key bytes: the bytes of `"key"`.
pub open spec fn key_tag() -> Seq<u8> {
    seq![107u8, 101u8, 121u8]
}

/// The domain tag under which the initial storage slot is derived from the
/// reference record's address: the bytes of `"init"`.
pub open spec fn init_tag() -> Seq<u8> {
    seq![105u8, 110u8, 105u8, 116u8]
}

/// The domain tag under which each subsequent storage slot is derived from
/// its predecessor slot's address: the bytes of `"next"`.
pub open spec fn next_tag() -> Seq<u8> {
    seq![110u8, 101u8, 120u8, 116u8]
}

pub fn key_tag_bytes() -> (r: Vec<u8>)
    ensures
        r@ == key_tag(),
{
    let mut v: Vec<u8> = Vec::new();
    v.push(107u8);
    v.push(101u8);
    v.push(121u8);
    proof {
        assert(v@ =~= key_tag());
    }
    v
}

pub fn init_tag_bytes() -> (r: Vec<u8>)
    ensures
        r@ == init_tag(),
{
    let mut v: Vec<u8> = Vec::new();
    v.push(105u8);
    v.push(110u8);
    v.push(105u8);
    v.push(116u8);
    proof {
        assert(v@ =~= init_tag());
    }
    v
}

pub fn next_tag_bytes() -> (r: Vec<u8>)
    ensures
        r@ == next_tag(),
{
    let mut v: Vec<u8> = Vec::new();
    v.push(110u8);
    v.push(101u8);
    v.push(120u8);
    v.push(116u8);
    proof {
        assert(v@ =~= next_tag());
    }
    v
}

/// The seed set from which a storage slot's address is derived: the domain
/// tag followed by the predecessor's address.
pub open spec fn slot_seeds(tag: Seq<u8>, predecessor: Seq<u8>) -> Seq<Seq<u8>> {
    seq![tag, predecessor]
}

/// The seed set from which a logical key's reference record address is
/// derived: the key domain tag, the caller's identity, and the key bytes.
pub open spec fn reference_seeds(caller: Seq<u8>, key: Seq<u8>) -> Seq<Seq<u8>> {
    seq![key_tag(), caller, key]
}

/// What the host's address derivation returns for a seed set and a program
/// namespace: the derived 32-byte address and its bump seed, or nothing when
/// no bump in the allowed range yields a usable address or a seed is over the
/// host's limits.  The result depends on the arguments alone.
pub uninterp spec fn derived_address(seeds: Seq<Seq<u8>>, namespace: Seq<u8>) -> Option<(Seq<u8>, u8)>;

/// Relies on `Pubkey::try_find_program_address` of anchor_lang's re-exported
/// pubkey crate: the derived address and bump seed are a pure function of the
/// seeds and the program id; a derived address is 32 bytes; the search
/// returns `None` exactly when no bump yields an off-curve address or the
/// seeds are over the host's limits.
#[verifier::external_body]
fn find_program_address(seeds: &Vec<Vec<u8>>, namespace: &Vec<u8>) -> (r: Option<(Vec<u8>, u8)>)
    requires
        namespace@.len() == 32,
    ensures
        (match r {
            Some(p) => derived_address(seeds.deep_view(), namespace@) == Some((p.0@, p.1))
                && p.0@.len() == 32,
            None => derived_address(seeds.deep_view(), namespace@) is None,
        }),
{
    let mut ns = [0u8; 32];
    ns.copy_from_slice(namespace.as_slice());
    let pk = anchor_lang::solana_program::pubkey::Pubkey::new_from_array(ns);
    let seed_slices: Vec<&[u8]> = seeds.iter().map(|s| s.as_slice()).collect();
    anchor_lang::solana_program::pubkey::Pubkey::try_find_program_address(&seed_slices, &pk)
        .map(|(a, b)| (a.to_bytes().to_vec(), b))
}

/// Derives a storage slot's address and bump seed from a domain tag and the
/// address of its logical predecessor.  Identical inputs always yield
/// identical output; the derivation fails only when no bump seed in the
/// allowed range satisfies the host's constraint.
pub fn derive_slot(tag: &Vec<u8>, predecessor: &Address, namespace: &Address) -> (r: Result<
    (Address, u8),
    ProtocolError,
>)
    requires
        namespace.wf(),
    ensures
        (match r {
            Ok(p) => derived_address(slot_seeds(tag@, predecessor@), namespace@) == Some(
                (p.0@, p.1),
            ) && p.0.wf(),
            Err(e) => e == ProtocolError::DerivationFailed && derived_address(
                slot_seeds(tag@, predecessor@),
                namespace@,
            ) is None,
        }),
{
    let mut seeds: Vec<Vec<u8>> = Vec::new();
    seeds.push(dup_bytes(tag));
    seeds.push(dup_bytes(&predecessor.bytes));
    proof {
        assert(seeds.deep_view() =~~= slot_seeds(tag@, predecessor@));
    }
    match find_program_address(&seeds, &namespace.bytes) {
        Some(p) => Ok((Address::new(p.0), p.1)),
        None => Err(ProtocolError::DerivationFailed),
    }
}

/// Derives a logical key's reference record address and bump seed from the
/// caller's identity and the key bytes.
pub fn derive_reference(caller: &Address, key: &Vec<u8>, namespace: &Address) -> (r: Result<
    (Address, u8),
    ProtocolError,
>)
    requires
        namespace.wf(),
    ensures
        (match r {
            Ok(p) => derived_address(reference_seeds(caller@, key@), namespace@) == Some(
                (p.0@, p.1),
            ) && p.0.wf(),
            Err(e) => e == ProtocolError::DerivationFailed && derived_address(
                reference_seeds(caller@, key@),
                namespace@,
            ) is None,
        }),
{
    let mut seeds: Vec<Vec<u8>> = Vec::new();
    seeds.push(key_tag_bytes());
    seeds.push(dup_bytes(&caller.bytes));
    seeds.push(dup_bytes(key));
    proof {
        assert(seeds.deep_view() =~~= reference_seeds(caller@, key@));
    }
    match find_program_address(&seeds, &namespace.bytes) {
        Some(p) => Ok((Address::new(p.0), p.1)),
        None => Err(ProtocolError::DerivationFailed),
    }
}

/// Determinism of the address deriver: identical seed sets and namespaces
/// always derive identical addresses and bump seeds.
pub proof fn lemma_derive_deterministic(
    seeds1: Seq<Seq<u8>>,
    namespace1: Seq<u8>,
    seeds2: Seq<Seq<u8>>,
    namespace2: Seq<u8>,
)
    requires
        seeds1 == seeds2,
        namespace1 == namespace2,
    ensures
        derived_address(seeds1, namespace1) == derived_address(seeds2, namespace2),
{
}

} // verus!
