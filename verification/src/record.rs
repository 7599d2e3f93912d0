//! The form in which an artifact is kept in the remote key-value store:
//! one value per fingerprint, which carries its own metadata, so that a
//! value that does not agree with itself is found out.

use crate::bytes::{append_bytes, bytes_equal, copy_range};
use crate::error::TranscodeError;
use crate::target::Codec;
use vstd::bytes::{
    lemma_auto_spec_u64_to_from_le_bytes, spec_u64_from_le_bytes, spec_u64_to_le_bytes,
    u64_from_le_bytes, u64_to_le_bytes,
};
use vstd::prelude::*;

verus! {

/// `TCA1`, with which every record starts.
pub open spec fn record_magic() -> Seq<u8> {
    seq![84u8, 67u8, 65u8, 49u8]
}

/// How many bytes of a record stand before the payload.
pub const RECORD_HEADER: usize = 21;

/// What a record holds.
pub struct RecordView {
    pub codec: Codec,
    pub created_at: u64,
    pub payload: Seq<u8>,
}

/// What a record holds.
#[derive(Debug)]
pub struct Record {
    pub codec: Codec,
    pub created_at: u64,
    pub payload: Vec<u8>,
}

impl View for Record {
    type V = RecordView;

    open spec fn view(&self) -> RecordView {
        RecordView { codec: self.codec, created_at: self.created_at, payload: self.payload@ }
    }
}

/// A record as bytes: the magic, the codec's tag, the creation time and
/// the payload's length, each in eight bytes with the low byte first, and
/// the payload.
pub open spec fn record_spec(record: RecordView) -> Seq<u8> {
    record_magic() + seq![record.codec.tag_spec()] + spec_u64_to_le_bytes(record.created_at)
        + spec_u64_to_le_bytes(record.payload.len() as u64) + record.payload
}

/// What bytes hold, if they are a record: they start with the magic and a
/// codec's tag, and the length that they state is the length of the payload
/// that they carry.
pub open spec fn parse_record_spec(bytes: Seq<u8>) -> Option<RecordView> {
    if bytes.len() >= 21 && bytes.subrange(0, 4) == record_magic() && Codec::from_tag_spec(bytes[4])
        is Some && spec_u64_from_le_bytes(bytes.subrange(13, 21)) == bytes.len() - 21 {
        Some(
            RecordView {
                codec: Codec::from_tag_spec(bytes[4]).unwrap(),
                created_at: spec_u64_from_le_bytes(bytes.subrange(5, 13)),
                payload: bytes.subrange(21, bytes.len() as int),
            },
        )
    } else {
        None
    }
}

/// What is written as a record is read as it was written.
pub proof fn lemma_record_round_trip(record: RecordView)
    requires
        record.payload.len() <= u64::MAX,
    ensures
        parse_record_spec(record_spec(record)) == Some(record),
{
    lemma_auto_spec_u64_to_from_le_bytes();
    let bytes = record_spec(record);
    let created = spec_u64_to_le_bytes(record.created_at);
    let length = spec_u64_to_le_bytes(record.payload.len() as u64);
    assert(created.len() == 8);
    assert(length.len() == 8);
    assert(bytes.subrange(0, 4) =~= record_magic());
    assert(bytes[4] == record.codec.tag_spec());
    record.codec.lemma_tag_round_trip();
    assert(bytes.subrange(5, 13) =~= created);
    assert(bytes.subrange(13, 21) =~= length);
    assert(bytes.subrange(21, bytes.len() as int) =~= record.payload);
}

/// Writes a record.
pub fn encode_record(codec: Codec, created_at: u64, payload: &[u8]) -> (bytes: Vec<u8>)
    ensures
        bytes@ == record_spec(RecordView { codec, created_at, payload: payload@ }),
{
    let mut bytes: Vec<u8> = Vec::new();
    bytes.push(84);
    bytes.push(67);
    bytes.push(65);
    bytes.push(49);
    assert(bytes@ =~= record_magic());
    bytes.push(codec.tag());
    let created = u64_to_le_bytes(created_at);
    append_bytes(&mut bytes, created.as_slice());
    let length = u64_to_le_bytes(payload.len() as u64);
    append_bytes(&mut bytes, length.as_slice());
    append_bytes(&mut bytes, payload);
    bytes
}

/// Reads a record. Bytes that are no record are reported as `Corrupt`.
pub fn decode_record(bytes: &[u8]) -> (decoded: Result<Record, TranscodeError>)
    ensures
        decoded is Ok == parse_record_spec(bytes@) is Some,
        decoded matches Ok(record) ==> record@ == parse_record_spec(bytes@).unwrap(),
        decoded matches Err(e) ==> e == TranscodeError::Corrupt,
{
    if bytes.len() < RECORD_HEADER {
        return Err(TranscodeError::Corrupt);
    }
    let magic: [u8; 4] = [84, 67, 65, 49];
    assert(magic@ =~= record_magic());
    if !bytes_equal(vstd::slice::slice_subrange(bytes, 0, 4), magic.as_slice()) {
        return Err(TranscodeError::Corrupt);
    }
    let codec = match Codec::from_tag(bytes[4]) {
        Some(codec) => codec,
        None => {
            return Err(TranscodeError::Corrupt);
        },
    };
    let created_at = u64_from_le_bytes(vstd::slice::slice_subrange(bytes, 5, 13));
    let length = u64_from_le_bytes(vstd::slice::slice_subrange(bytes, 13, 21));
    if length != (bytes.len() - RECORD_HEADER) as u64 {
        return Err(TranscodeError::Corrupt);
    }
    Ok(Record { codec, created_at, payload: copy_range(bytes, RECORD_HEADER, bytes.len()) })
}

} // verus!
