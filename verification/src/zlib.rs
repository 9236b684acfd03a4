//! The zlib container: a two-byte header, the DEFLATE stream, and the
//! Adler-32 of the uncompressed data.

use crate::bits::bit_capacity;
use crate::bytes::{be_bytes, lemma_be_round_trip, push_all, push_u32_be};
use crate::checksum::{adler32, spec_adler32};
use crate::deflate::{block_bits, deflate, spec_deflate};
use vstd::prelude::*;

verus! {

/// The stream header: compression method 8 with a 32K window, then the flag
/// byte with no preset dictionary, level 0 and the check bits that make the
/// two bytes, read as one number, a multiple of 31.
pub open spec fn zlib_header() -> Seq<u8> {
    seq![0x78u8, 0x01u8]
}

/// The checksum trailer, or nothing where it is left out.
pub open spec fn zlib_trailer(data: Seq<u8>, disable_adler: bool) -> Seq<u8> {
    if disable_adler {
        Seq::empty()
    } else {
        be_bytes(spec_adler32(data))
    }
}

/// The zlib stream for `data`.
pub open spec fn spec_zlib(data: Seq<u8>, disable_adler: bool) -> Seq<u8> {
    zlib_header() + spec_deflate(data) + zlib_trailer(data, disable_adler)
}

/// Wraps the DEFLATE stream of `data` in a zlib container. With
/// `disable_adler` the checksum trailer is left out, which no conforming
/// reader accepts; that is what the flag is for. The precondition is that of
/// `deflate`.
pub fn zlib(data: &[u8], disable_adler: bool) -> (stream: Vec<u8>)
    requires
        block_bits(data@).len() <= bit_capacity(),
    ensures
        stream@ == spec_zlib(data@, disable_adler),
{
    let adler: u32 = adler32(data);
    let mut stream: Vec<u8> = Vec::new();
    stream.push(0x78);
    stream.push(0x01);
    assert(stream@ =~= zlib_header());
    let body = deflate(data);
    push_all(&mut stream, body.as_slice());
    if !disable_adler {
        push_u32_be(&mut stream, adler);
    }
    assert(stream@ =~= spec_zlib(data@, disable_adler));
    stream
}

/// Leaving the checksum out makes the stream exactly four bytes shorter: the
/// full stream is the short one followed by the big-endian Adler-32.
pub proof fn lemma_zlib_without_adler(data: Seq<u8>)
    ensures
        spec_zlib(data, true).len() + 4 == spec_zlib(data, false).len(),
        spec_zlib(data, false) == spec_zlib(data, true) + be_bytes(spec_adler32(data)),
{
    lemma_be_round_trip(spec_adler32(data));
    assert(spec_zlib(data, false) =~= spec_zlib(data, true) + be_bytes(spec_adler32(data)));
}

/// The stream is the DEFLATE stream and two bytes of header, and four more
/// with the checksum.
pub proof fn lemma_zlib_len(data: Seq<u8>, disable_adler: bool)
    ensures
        spec_zlib(data, disable_adler).len() == 2 + spec_deflate(data).len() + (if disable_adler {
            0int
        } else {
            4int
        }),
{
    lemma_be_round_trip(spec_adler32(data));
}

/// The header names DEFLATE with a 32K window, no preset dictionary and the
/// lowest level, and its two bytes read as one number are a multiple of 31.
pub proof fn lemma_zlib_header_fields()
    ensures
        zlib_header().len() == 2,
        zlib_header()[0] % 16 == 8,
        zlib_header()[0] / 16 == 7,
        zlib_header()[1] / 32 == 0,
        (zlib_header()[0] * 256 + zlib_header()[1]) % 31 == 0,
{
}

} // verus!
