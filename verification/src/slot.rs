//! The storage slot layout: one presence-flag byte followed by the payload.
//!
//! A slot is written exactly once, at allocation; its bytes are never
//! rewritten.  A freshly allocated slot reads as all zeroes, which is exactly
//! the encoding of an empty slot.

use crate::error::ProtocolError;
use vstd::prelude::*;

verus! {

/// The number of header bytes of a storage slot: the presence flag.
pub const HEADER_BYTES: usize = 1;

/// The presence flag of a slot holding no value.
pub const FLAG_EMPTY: u8 = 0x00;

/// The presence flag of a slot holding a value.
pub const FLAG_HAS_VALUE: u8 = 0xA1;

/// The bytes of a slot holding `value`: the presence flag followed by the
/// payload.  A cleared slot is a lone empty flag, exactly what a freshly
/// allocated, zeroed account of one byte reads as.
pub open spec fn slot_bytes(value: Option<Seq<u8>>) -> Seq<u8> {
    match value {
        Some(v) => seq![FLAG_HAS_VALUE].add(v),
        None => seq![FLAG_EMPTY],
    }
}

/// What a slot's raw bytes hold: `None` when the bytes are not a valid slot,
/// `Some(None)` for an empty slot, and `Some(Some(v))` for a slot holding
/// payload `v`.  An empty slot's payload bytes, if any, are ignored.
pub open spec fn parse_slot(bytes: Seq<u8>) -> Option<Option<Seq<u8>>> {
    if bytes.len() < HEADER_BYTES as int {
        None
    } else if bytes[0] == FLAG_EMPTY {
        Some(None)
    } else if bytes[0] == FLAG_HAS_VALUE {
        Some(Some(bytes.skip(HEADER_BYTES as int)))
    } else {
        None
    }
}

/// Encodes a slot body for `value`.
pub fn encode_slot(value: &Option<Vec<u8>>) -> (r: Vec<u8>)
    ensures
        r@ == slot_bytes(match value {
            Some(v) => Some(v@),
            None => None,
        }),
{
    let mut r: Vec<u8> = Vec::new();
    match value {
        Some(v) => {
            r.push(FLAG_HAS_VALUE);
            let n = v.len();
            let mut i: usize = 0;
            while i < n
                invariant
                    n == v@.len(),
                    i <= n,
                    r@ =~= seq![FLAG_HAS_VALUE].add(v@.take(i as int)),
                decreases n - i,
            {
                r.push(v[i]);
                i += 1;
            }
            proof {
                assert(r@ =~= slot_bytes(Some(v@)));
            }
        },
        None => {
            r.push(FLAG_EMPTY);
            proof {
                assert(r@ =~= slot_bytes(None::<Seq<u8>>));
            }
        },
    }
    r
}

/// Decodes a slot body read back from the ledger.
pub fn decode_slot(bytes: &Vec<u8>) -> (r: Result<Option<Vec<u8>>, ProtocolError>)
    ensures
        (match r {
            Ok(v) => parse_slot(bytes@) == Some(match v {
                Some(p) => Some(p@),
                None => None::<Seq<u8>>,
            }),
            Err(e) => e == ProtocolError::InvariantViolation && parse_slot(bytes@) is None,
        }),
{
    if bytes.len() < HEADER_BYTES {
        return Err(ProtocolError::InvariantViolation);
    }
    let flag = bytes[0];
    if flag == FLAG_EMPTY {
        Ok(None)
    } else if flag == FLAG_HAS_VALUE {
        let n = bytes.len();
        let mut payload: Vec<u8> = Vec::new();
        let mut i: usize = HEADER_BYTES;
        while i < n
            invariant
                n == bytes@.len(),
                HEADER_BYTES <= i <= n,
                payload@ =~= bytes@.subrange(HEADER_BYTES as int, i as int),
            decreases n - i,
        {
            payload.push(bytes[i]);
            i += 1;
        }
        proof {
            assert(payload@ =~= bytes@.skip(HEADER_BYTES as int));
        }
        Ok(Some(payload))
    } else {
        Err(ProtocolError::InvariantViolation)
    }
}

/// Payload round-trip: a slot written for payload `v` reads back as a
/// present value equal to `v`, for any payload.
pub proof fn lemma_slot_roundtrip_set(v: Seq<u8>)
    ensures
        parse_slot(slot_bytes(Some(v))) == Some(Some(v)),
{
    assert(slot_bytes(Some(v))[0] == FLAG_HAS_VALUE);
    assert(slot_bytes(Some(v)).skip(HEADER_BYTES as int) =~= v);
}

/// Clear round-trip: a slot written for a clear reads back as empty.
pub proof fn lemma_slot_roundtrip_clear()
    ensures
        parse_slot(slot_bytes(None)) == Some(None::<Seq<u8>>),
{
    assert(slot_bytes(None)[0] == FLAG_EMPTY);
}

} // verus!
