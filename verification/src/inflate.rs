//! What a reader makes of the streams that the encoder writes: a
//! specification of decoding, and the proof that it gives the data back.
//!
//! The reader knows the whole fixed Huffman table but follows literals only:
//! a block that holds a length symbol is beyond it.

use crate::bits::{
    lemma_bit_of_packed_byte, msb_first, pack_lsb_first, padded_bit, unpack_lsb_first,
};
use crate::bytes::{be_bytes, lemma_be_round_trip};
use crate::checksum::spec_adler32;
use crate::deflate::{
    block_bits, block_header_bits, code_bits, literal_bits, spec_deflate, spec_end_of_block_code,
    spec_literal_code,
};
use crate::zlib::{spec_zlib, zlib_trailer};
use vstd::prelude::*;

verus! {

/// Bit `i` of the stream as a number; zero beyond its end.
pub open spec fn bit_value(bits: Seq<bool>, i: int) -> int {
    if padded_bit(bits, i) {
        1
    } else {
        0
    }
}

/// The number that `width` bits from `pos` on spell, most significant first.
pub open spec fn read_code(bits: Seq<bool>, pos: int, width: nat) -> int
    decreases width,
{
    if width == 0 {
        0
    } else {
        2 * read_code(bits, pos, (width - 1) as nat) + bit_value(bits, pos + width - 1)
    }
}

/// The symbol that starts at `pos` and the width of its code, by the fixed
/// table: seven-bit codes up to `001_0111` are the symbols from 256,
/// eight-bit codes from `0011_0000` the literals from 0 and from `1100_0000`
/// the symbols from 280, nine-bit codes from `1_1001_0000` the literals from
/// 144. Nothing where the stream ends inside the code.
#[verifier::opaque]
pub open spec fn decode_symbol(bits: Seq<bool>, pos: int) -> Option<(int, int)> {
    if pos < 0 || pos + 7 > bits.len() {
        None
    } else if read_code(bits, pos, 7) < 0x18 {
        Some((256 + read_code(bits, pos, 7), 7))
    } else if pos + 8 > bits.len() {
        None
    } else if read_code(bits, pos, 8) < 0xc0 {
        Some((read_code(bits, pos, 8) - 0x30, 8))
    } else if read_code(bits, pos, 8) < 0xc8 {
        Some((280 + read_code(bits, pos, 8) - 0xc0, 8))
    } else if pos + 9 > bits.len() {
        None
    } else {
        Some((144 + read_code(bits, pos, 9) - 0x190, 9))
    }
}

/// The literals from `pos` up to the end-of-block symbol, and the position
/// after that symbol. Nothing where the stream ends before the block does or
/// a symbol is no literal.
pub open spec fn inflate_literals(bits: Seq<bool>, pos: int) -> Option<(Seq<u8>, int)>
    decreases bits.len() - pos,
    via inflate_literals_ends
{
    match decode_symbol(bits, pos) {
        None => None,
        Some((symbol, width)) => {
            if symbol == 256 {
                Some((Seq::empty(), pos + width))
            } else if symbol < 256 {
                match inflate_literals(bits, pos + width) {
                    None => None,
                    Some((rest, end)) => Some((seq![symbol as u8] + rest, end)),
                }
            } else {
                None
            }
        },
    }
}

/// Every symbol takes at least seven bits and ends within the stream, so the
/// reader comes to an end.
#[via_fn]
proof fn inflate_literals_ends(bits: Seq<bool>, pos: int) {
    reveal(decode_symbol);
}

/// The data of a stream that is one final block of fixed-Huffman literals,
/// and the number of bits up to the block's end.
pub open spec fn spec_inflate(stream: Seq<u8>) -> Option<(Seq<u8>, int)> {
    let bits = unpack_lsb_first(stream);
    if bits.len() >= 3 && bits[0] && bits[1] && !bits[2] {
        inflate_literals(bits, 3)
    } else {
        None
    }
}

/// The data of a zlib stream: the header must name DEFLATE with a window of
/// at most 32K and no preset dictionary and pass its check, the block must
/// decode, and the four bytes after the block's last byte must end the
/// stream and be the Adler-32 of the data.
pub open spec fn spec_unzlib(stream: Seq<u8>) -> Option<Seq<u8>> {
    if stream.len() < 2 || stream[0] % 16 != 8 || stream[0] / 16 > 7 || (stream[1] / 32) % 2 != 0
        || (stream[0] * 256 + stream[1]) % 31 != 0 {
        None
    } else {
        match spec_inflate(stream.skip(2)) {
            None => None,
            Some((data, end)) => {
                let trailer = 2 + (end + 7) / 8;
                if stream.len() == trailer + 4 && stream.skip(trailer) == be_bytes(
                    spec_adler32(data),
                ) {
                    Some(data)
                } else {
                    None
                }
            },
        }
    }
}

/// Reading the first `count` bits of a code word gives the word's value
/// without its last `width - count` bits.
proof fn lemma_read_code_prefix(bits: Seq<bool>, pos: int, value: u32, width: nat, count: nat)
    requires
        width <= 9,
        value >> (width as u32) == 0,
        0 <= pos,
        pos + width <= bits.len(),
        bits.subrange(pos, pos + width) == msb_first(value, width),
        count <= width,
    ensures
        read_code(bits, pos, count) == value >> ((width - count) as u32),
    decreases count,
{
    if count > 0 {
        lemma_read_code_prefix(bits, pos, value, width, (count - 1) as nat);
        let shift: u32 = (width - count) as u32;
        let above: u32 = (shift + 1) as u32;
        let word = msb_first(value, width);
        assert(bits[pos + count - 1] == bits.subrange(pos, pos + width)[count - 1]);
        assert(word[count - 1] == ((value >> shift) & 1 == 1));
        assert(value >> shift == 2 * (value >> above) + (if (value >> shift) & 1 == 1 {
            1int
        } else {
            0int
        })) by (bit_vector)
            requires
                shift < 9,
                above == shift + 1,
        ;
    }
}

/// Where the code word of a literal starts at `pos`, that literal is the
/// symbol decoded there.
proof fn lemma_decode_literal(bits: Seq<bool>, pos: int, d: u8)
    requires
        0 <= pos,
        pos + code_bits(spec_literal_code(d)).len() <= bits.len(),
        bits.subrange(pos, pos + code_bits(spec_literal_code(d)).len()) == code_bits(
            spec_literal_code(d),
        ),
    ensures
        decode_symbol(bits, pos) == Some((d as int, spec_literal_code(d).width as int)),
{
    reveal(decode_symbol);
    let value = spec_literal_code(d).value;
    if d < 144 {
        assert(value >> 8u32 == 0 && value >> 1u32 >= 0x18 && value >> 0u32
            == value) by (bit_vector)
            requires
                0x30 <= value < 0xc0,
        ;
        lemma_read_code_prefix(bits, pos, value, 8, 7);
        lemma_read_code_prefix(bits, pos, value, 8, 8);
    } else {
        assert(value >> 9u32 == 0 && value >> 2u32 >= 0x18 && value >> 1u32 >= 0xc8 && value
            >> 0u32 == value) by (bit_vector)
            requires
                0x190 <= value < 0x200,
        ;
        lemma_read_code_prefix(bits, pos, value, 9, 7);
        lemma_read_code_prefix(bits, pos, value, 9, 8);
        lemma_read_code_prefix(bits, pos, value, 9, 9);
    }
}

/// Where the end-of-block code starts at `pos`, symbol 256 is decoded there.
proof fn lemma_decode_end_of_block(bits: Seq<bool>, pos: int)
    requires
        0 <= pos,
        pos + 7 <= bits.len(),
        bits.subrange(pos, pos + 7) == code_bits(spec_end_of_block_code()),
    ensures
        decode_symbol(bits, pos) == Some((256int, 7int)),
{
    reveal(decode_symbol);
    assert(0u32 >> 7u32 == 0 && 0u32 >> 0u32 == 0) by (bit_vector);
    lemma_read_code_prefix(bits, pos, 0, 7, 7);
}

/// The literals of `data` followed by the end-of-block code decode to `data`,
/// whatever stands before and after them.
proof fn lemma_inflate_literals(before: Seq<bool>, data: Seq<u8>, after: Seq<bool>)
    ensures
        inflate_literals(
            before + literal_bits(data) + code_bits(spec_end_of_block_code()) + after,
            before.len() as int,
        ) == Some((data, before.len() as int + literal_bits(data).len() as int + 7)),
    decreases data.len(),
{
    let end_bits = code_bits(spec_end_of_block_code());
    let bits = before + literal_bits(data) + end_bits + after;
    let pos = before.len() as int;
    if data.len() == 0 {
        assert(bits.subrange(pos, pos + 7) =~= end_bits);
        lemma_decode_end_of_block(bits, pos);
        assert(data =~= Seq::<u8>::empty());
    } else {
        let d = data.first();
        let word = code_bits(spec_literal_code(d));
        let rest = data.drop_first();
        assert(bits.subrange(pos, pos + word.len()) =~= word);
        lemma_decode_literal(bits, pos, d);
        lemma_inflate_literals(before + word, rest, after);
        assert(bits =~= (before + word) + literal_bits(rest) + end_bits + after);
        assert(data =~= seq![d] + rest);
    }
}

/// Unpacking what was packed gives the bits back, followed by the zeros that
/// filled the last byte.
pub proof fn lemma_unpack_pack(bits: Seq<bool>)
    ensures
        unpack_lsb_first(pack_lsb_first(bits)).len() == 8 * ((bits.len() + 7) / 8),
        unpack_lsb_first(pack_lsb_first(bits)) == bits + Seq::new(
            (8 * ((bits.len() + 7) / 8) - bits.len()) as nat,
            |i: int| false,
        ),
{
    let packed = pack_lsb_first(bits);
    let unpacked = unpack_lsb_first(packed);
    let fill = Seq::new((8 * ((bits.len() + 7) / 8) - bits.len()) as nat, |i: int| false);
    assert forall|i: int| 0 <= i < unpacked.len() implies unpacked[i] == (bits + fill)[i] by {
        lemma_bit_of_packed_byte(bits, i / 8, i % 8);
    }
    assert(unpacked =~= bits + fill);
}

/// The bits of two byte sequences, one after the other, are the bits of the
/// first followed by the bits of the second.
pub proof fn lemma_unpack_concat(first: Seq<u8>, second: Seq<u8>)
    ensures
        unpack_lsb_first(first + second) == unpack_lsb_first(first) + unpack_lsb_first(second),
{
    let whole = unpack_lsb_first(first + second);
    let parts = unpack_lsb_first(first) + unpack_lsb_first(second);
    assert forall|i: int| 0 <= i < whole.len() implies whole[i] == parts[i] by {
        if i >= 8 * first.len() {
            assert((i - 8 * first.len()) / 8 == i / 8 - first.len());
            assert((i - 8 * first.len()) % 8 == i % 8);
        }
    }
    assert(whole =~= parts);
}

/// Decoding the stream that `deflate` writes gives the data back, and the
/// block ends where its bits end, whatever bytes follow the stream.
pub proof fn lemma_inflate_deflate_then(data: Seq<u8>, tail: Seq<u8>)
    ensures
        spec_inflate(spec_deflate(data) + tail) == Some((data, block_bits(data).len() as int)),
{
    let block = block_bits(data);
    let fill = Seq::new((8 * ((block.len() + 7) / 8) - block.len()) as nat, |i: int| false);
    let after = fill + unpack_lsb_first(tail);
    lemma_unpack_pack(block);
    lemma_unpack_concat(spec_deflate(data), tail);
    lemma_inflate_literals(block_header_bits(), data, after);
    let bits = unpack_lsb_first(spec_deflate(data) + tail);
    assert(bits =~= block_header_bits() + literal_bits(data) + code_bits(
        spec_end_of_block_code(),
    ) + after);
}

/// Decoding the stream that `deflate` writes gives the data back.
pub proof fn lemma_inflate_deflate(data: Seq<u8>)
    ensures
        spec_inflate(spec_deflate(data)) == Some((data, block_bits(data).len() as int)),
{
    lemma_inflate_deflate_then(data, Seq::empty());
    assert(spec_deflate(data) + Seq::<u8>::empty() =~= spec_deflate(data));
}

/// A stream that `zlib` writes has a header that a reader accepts, and its
/// block decodes to the data and ends with the DEFLATE stream.
proof fn lemma_zlib_stream_parts(data: Seq<u8>, disable_adler: bool)
    ensures
        spec_zlib(data, disable_adler).len() == 2 + spec_deflate(data).len() + (if disable_adler {
            0int
        } else {
            4int
        }),
        spec_zlib(data, disable_adler)[0] == 0x78,
        spec_zlib(data, disable_adler)[1] == 0x01,
        spec_inflate(spec_zlib(data, disable_adler).skip(2)) == Some(
            (data, block_bits(data).len() as int),
        ),
        spec_deflate(data).len() == (block_bits(data).len() + 7) / 8,
{
    let stream = spec_zlib(data, disable_adler);
    let tail = zlib_trailer(data, disable_adler);
    lemma_be_round_trip(spec_adler32(data));
    lemma_inflate_deflate_then(data, tail);
    assert(stream.skip(2) =~= spec_deflate(data) + tail);
}

/// Decoding the stream that `zlib` writes with its checksum gives the data
/// back.
pub proof fn lemma_unzlib_zlib(data: Seq<u8>)
    ensures
        spec_unzlib(spec_zlib(data, false)) == Some(data),
{
    let stream = spec_zlib(data, false);
    let trailer = 2 + (block_bits(data).len() as int + 7) / 8;
    lemma_zlib_stream_parts(data, false);
    assert(stream.skip(trailer) =~= be_bytes(spec_adler32(data)));
}

/// A stream written without its checksum is not accepted.
pub proof fn lemma_unzlib_rejects_missing_adler(data: Seq<u8>)
    ensures
        spec_unzlib(spec_zlib(data, true)) is None,
{
    lemma_zlib_stream_parts(data, true);
}

} // verus!
