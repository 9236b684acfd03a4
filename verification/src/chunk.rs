//! Chunk framing: length, type tag, payload, CRC-32.

use crate::bytes::{be_bytes, be_value, lemma_be_round_trip, push_all, push_u32_be};
use crate::checksum::{crc32, spec_crc32};
use vstd::prelude::*;

verus! {

/// A framed chunk: the payload's length, the tag, the payload, and the CRC-32
/// of tag and payload together; both integers big-endian. Of a length that
/// does not fit the field, the lowest 32 bits are written.
pub open spec fn spec_chunk(chunk_type: Seq<u8>, data: Seq<u8>) -> Seq<u8> {
    be_bytes(data.len() as u32) + (chunk_type + data) + be_bytes(spec_crc32(chunk_type + data))
}

/// Frames `data` as a chunk of type `chunk_type`.
pub fn chunk(chunk_type: &[u8], data: &[u8]) -> (framed: Vec<u8>)
    ensures
        framed@ == spec_chunk(chunk_type@, data@),
        framed@.len() == 4 + chunk_type@.len() + data@.len() + 4,
        framed@.subrange(0, 4) == be_bytes(data@.len() as u32),
{
    let mut content: Vec<u8> = Vec::new();
    push_all(&mut content, chunk_type);
    push_all(&mut content, data);
    assert(content@ =~= chunk_type@ + data@);
    let crc: u32 = crc32(content.as_slice());

    let mut framed: Vec<u8> = Vec::new();
    let length: u32 = #[verifier::truncate] (data.len() as u32);
    push_u32_be(&mut framed, length);
    push_all(&mut framed, content.as_slice());
    push_u32_be(&mut framed, crc);
    assert(framed@ =~= spec_chunk(chunk_type@, data@));
    assert(framed@.subrange(0, 4) =~= be_bytes(data@.len() as u32));
    framed
}

/// A chunk with a four-byte tag is twelve bytes longer than its payload. Its
/// first four bytes are the length of the payload, big-endian, where that
/// fits them; the tag, the payload and the checksum follow in that order.
pub proof fn lemma_chunk_layout(chunk_type: Seq<u8>, data: Seq<u8>)
    requires
        chunk_type.len() == 4,
        data.len() <= u32::MAX,
    ensures
        spec_chunk(chunk_type, data).len() == 8 + data.len() + 4,
        spec_chunk(chunk_type, data).subrange(0, 4) == be_bytes(data.len() as u32),
        be_value(spec_chunk(chunk_type, data)) == data.len(),
        spec_chunk(chunk_type, data).subrange(4, 8) == chunk_type,
        spec_chunk(chunk_type, data).subrange(8, 8 + data.len() as int) == data,
        spec_chunk(chunk_type, data).subrange(8 + data.len() as int, 12 + data.len() as int)
            == be_bytes(spec_crc32(chunk_type + data)),
{
    let framed = spec_chunk(chunk_type, data);
    let length = data.len() as u32;
    lemma_be_round_trip(length);
    lemma_be_round_trip(spec_crc32(chunk_type + data));
    assert(framed.subrange(0, 4) =~= be_bytes(length));
    assert(framed[0] == be_bytes(length)[0]);
    assert(framed[1] == be_bytes(length)[1]);
    assert(framed[2] == be_bytes(length)[2]);
    assert(framed[3] == be_bytes(length)[3]);
    assert(framed.subrange(4, 8) =~= chunk_type);
    assert(framed.subrange(8, 8 + data.len() as int) =~= data);
    assert(framed.subrange(8 + data.len() as int, 12 + data.len() as int) =~= be_bytes(
        spec_crc32(chunk_type + data),
    ));
}

} // verus!
