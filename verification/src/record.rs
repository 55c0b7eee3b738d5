//! The typed record stored in a page, and its binary codec.
//!
//! A record is encoded by bincode's default (fixed-int, little-endian)
//! configuration: one byte for the counter followed by one 0-or-1 byte for
//! the flag. The encoding is self-delimiting, so a decode of a full
//! zero-padded page reads only the leading bytes and ignores the padding.

use vstd::prelude::*;

verus! {

/// An application value stored in a page.
#[derive(Clone, Copy, Debug, PartialEq, Eq, Structural)]
pub struct Record {
    pub count: u8,
    pub signed: bool,
}

impl Record {
    /// Builds a record from its two fields.
    pub fn new(count: u8, signed: bool) -> (r: Self)
        ensures
            r == (Record { count, signed }),
    {
        Record { count, signed }
    }
}

/// The single byte that encodes a flag.
pub open spec fn bool_byte(b: bool) -> u8 {
    if b {
        1u8
    } else {
        0u8
    }
}

/// The exact bytes of a record's encoding.
pub open spec fn record_bytes(r: Record) -> Seq<u8> {
    seq![r.count, bool_byte(r.signed)]
}

/// What decoding a byte buffer yields: the codec reads one byte for the
/// counter and one 0-or-1 byte for the flag, ignores everything after
/// them, and fails on a buffer that is too short or holds another flag
/// byte.
pub open spec fn decoded_record(bytes: Seq<u8>) -> Option<Record> {
    if bytes.len() >= 2 && (bytes[1] == 0u8 || bytes[1] == 1u8) {
        Some(Record { count: bytes[0], signed: bytes[1] == 1u8 })
    } else {
        None
    }
}

/// Relies on `bincode::serialize` under its default configuration
/// (fixed-int encoding, little endian, no size limit): a `(u8, bool)` pair
/// is written as the integer's byte followed by a 0-or-1 byte, and
/// serializing it into a fresh buffer cannot fail.
#[verifier::external_body]
pub fn encode_record(r: &Record) -> (out: Vec<u8>)
    ensures
        out@ == record_bytes(*r),
{
    bincode::serialize(&(r.count, r.signed)).unwrap()
}

/// Relies on `bincode::deserialize` under its default configuration: it
/// reads one byte for the integer and one byte for the bool, rejects a
/// flag byte other than 0 or 1, allows trailing bytes, and fails on a
/// buffer shorter than two bytes.
#[verifier::external_body]
pub fn decode_record(bytes: &[u8]) -> (out: Option<Record>)
    ensures
        out == decoded_record(bytes@),
{
    match bincode::deserialize::<(u8, bool)>(bytes) {
        Ok((count, signed)) => Some(Record { count, signed }),
        Err(_) => None,
    }
}

/// Decoding inverts encoding: a buffer that starts with a record's encoding
/// decodes to exactly that record, whatever follows it.
pub proof fn lemma_decode_encoded_prefix(r: Record, bytes: Seq<u8>)
    requires
        bytes.len() >= record_bytes(r).len(),
        bytes.subrange(0, record_bytes(r).len() as int) == record_bytes(r),
    ensures
        decoded_record(bytes) == Some(r),
{
    assert(bytes[0] == record_bytes(r)[0]);
    assert(bytes[1] == record_bytes(r)[1]);
}

} // verus!
