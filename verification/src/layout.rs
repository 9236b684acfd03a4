//! The bytes of the file, position by position, and what follows from them:
//! a file written without its end marker holds the end tag nowhere.

use crate::bits::{bit_at, lemma_bit_of_packed_byte, packed_byte, padded_bit};
use crate::bytes::{be_bytes, lemma_be_round_trip};
use crate::checksum::{
    adler32_high, adler32_low, crc32_byte, crc32_register, lemma_adler32_step,
    lemma_crc32_register_steps, spec_adler32, spec_crc32,
};
use crate::chunk::spec_chunk;
use crate::deflate::{
    block_bits, code_bits, lemma_deflate_len, lemma_end_of_block_bits,
    lemma_literal_bits_concat, lemma_literal_bits_one, spec_deflate, spec_end_of_block_code,
    spec_literal_code,
};
use crate::header::{
    lemma_header_round_trip, spec_parse_header, spec_serialize_header, spec_single_pixel_header,
};
use crate::inflate::{lemma_unzlib_rejects_missing_adler, lemma_unzlib_zlib, spec_unzlib};
use crate::png::{end_marker, spec_generate, spec_pixel_row, IDAT, IEND, IHDR, SIGNATURE};
use crate::zlib::{lemma_zlib_len, spec_zlib, zlib_trailer};
use vstd::prelude::*;

verus! {

/// The checksum of the header chunk of a one-pixel grayscale image.
pub proof fn lemma_header_chunk_checksum()
    ensures
        spec_crc32(IHDR@ + spec_serialize_header(spec_single_pixel_header())) == 0x3A7E_9B55u32,
{
    let data = IHDR@ + spec_serialize_header(spec_single_pixel_header());
    lemma_be_round_trip(1);
    assert(data =~= seq![
        0x49u8,
        0x48u8,
        0x44u8,
        0x52u8,
        0u8,
        0u8,
        0u8,
        1u8,
        0u8,
        0u8,
        0u8,
        1u8,
        8u8,
        0u8,
        0u8,
        0u8,
        0u8,
    ]);
    lemma_crc32_register_steps(data);
    let c0 = crc32_register(data.take(0));
    let c1 = crc32_register(data.take(1));
    let c2 = crc32_register(data.take(2));
    let c3 = crc32_register(data.take(3));
    let c4 = crc32_register(data.take(4));
    let c5 = crc32_register(data.take(5));
    let c6 = crc32_register(data.take(6));
    let c7 = crc32_register(data.take(7));
    let c8 = crc32_register(data.take(8));
    let c9 = crc32_register(data.take(9));
    let c10 = crc32_register(data.take(10));
    let c11 = crc32_register(data.take(11));
    let c12 = crc32_register(data.take(12));
    let c13 = crc32_register(data.take(13));
    let c14 = crc32_register(data.take(14));
    let c15 = crc32_register(data.take(15));
    let c16 = crc32_register(data.take(16));
    let c17 = crc32_register(data.take(17));
    assert(c17 ^ 0xFFFF_FFFFu32 == 0x3A7E_9B55u32) by (bit_vector)
        requires
            c0 == 0xFFFF_FFFFu32,
            c1 == crc32_byte(c0, 0x49u8),
            c2 == crc32_byte(c1, 0x48u8),
            c3 == crc32_byte(c2, 0x44u8),
            c4 == crc32_byte(c3, 0x52u8),
            c5 == crc32_byte(c4, 0u8),
            c6 == crc32_byte(c5, 0u8),
            c7 == crc32_byte(c6, 0u8),
            c8 == crc32_byte(c7, 1u8),
            c9 == crc32_byte(c8, 0u8),
            c10 == crc32_byte(c9, 0u8),
            c11 == crc32_byte(c10, 0u8),
            c12 == crc32_byte(c11, 1u8),
            c13 == crc32_byte(c12, 8u8),
            c14 == crc32_byte(c13, 0u8),
            c15 == crc32_byte(c14, 0u8),
            c16 == crc32_byte(c15, 0u8),
            c17 == crc32_byte(c16, 0u8),
    ;
}

/// The checksum of the end tag, which is all that the checksum of the end
/// marker chunk covers.
pub proof fn lemma_end_marker_checksum()
    ensures
        spec_crc32(IEND@) == 0xAE42_6082u32,
        spec_chunk(IEND@, Seq::empty()) == seq![
            0u8,
            0u8,
            0u8,
            0u8,
            0x49u8,
            0x45u8,
            0x4eu8,
            0x44u8,
            0xaeu8,
            0x42u8,
            0x60u8,
            0x82u8,
        ],
{
    let data = IEND@;
    assert(data + Seq::<u8>::empty() =~= data);
    lemma_be_round_trip(0);
    lemma_be_round_trip(0xAE42_6082u32);
    assert(data =~= seq![0x49u8, 0x45u8, 0x4eu8, 0x44u8]);
    lemma_crc32_register_steps(data);
    let c0 = crc32_register(data.take(0));
    let c1 = crc32_register(data.take(1));
    let c2 = crc32_register(data.take(2));
    let c3 = crc32_register(data.take(3));
    let c4 = crc32_register(data.take(4));
    assert(c4 ^ 0xFFFF_FFFFu32 == 0xAE42_6082u32) by (bit_vector)
        requires
            c0 == 0xFFFF_FFFFu32,
            c1 == crc32_byte(c0, 0x49u8),
            c2 == crc32_byte(c1, 0x45u8),
            c3 == crc32_byte(c2, 0x4eu8),
            c4 == crc32_byte(c3, 0x44u8),
    ;
    assert(spec_chunk(IEND@, Seq::empty()) =~= seq![
        0u8,
        0u8,
        0u8,
        0u8,
        0x49u8,
        0x45u8,
        0x4eu8,
        0x44u8,
        0xaeu8,
        0x42u8,
        0x60u8,
        0x82u8,
    ]);
}

/// The nine bits that follow the first literal of the pixel row's block: the
/// code of the shade, and after an eight-bit code the first zero of the
/// end-of-block code.
pub open spec fn row_code_window(shade: u8) -> u32 {
    if shade < 144 {
        ((0x30u32 + shade as u32) * 2) as u32
    } else {
        (0x100u32 + shade as u32) as u32
    }
}

/// Bit `k` of `value`.
pub open spec fn code_bit(value: u32, k: u32) -> bool {
    (value >> k) & 1 == 1
}

/// The DEFLATE stream of a pixel row is four bytes. The first holds the
/// block header and the start of the code for the filter byte, the last is
/// zero, and the two between hold the rest of that code and, from bit 3 of
/// the second byte on, the code of the shade, its most significant bit first.
pub proof fn lemma_pixel_row_stream(shade: u8)
    ensures
        spec_deflate(spec_pixel_row(shade)).len() == 4,
        spec_deflate(spec_pixel_row(shade))[0] == 0x63,
        spec_deflate(spec_pixel_row(shade))[3] == 0,
        forall|j: int| 0 <= j < 3 ==> !bit_at(spec_deflate(spec_pixel_row(shade))[1], j),
        forall|j: int|
            3 <= j < 8 ==> bit_at(spec_deflate(spec_pixel_row(shade))[1], j) == code_bit(
                row_code_window(shade),
                (11 - j) as u32,
            ),
        forall|j: int|
            0 <= j < 4 ==> bit_at(spec_deflate(spec_pixel_row(shade))[2], j) == code_bit(
                row_code_window(shade),
                (3 - j) as u32,
            ),
        forall|j: int| 4 <= j < 8 ==> !bit_at(spec_deflate(spec_pixel_row(shade))[2], j),
{
    let row = spec_pixel_row(shade);
    let bits = block_bits(row);
    let stream = spec_deflate(row);
    let first = code_bits(spec_literal_code(0));
    let second = code_bits(spec_literal_code(shade));
    let last = code_bits(spec_end_of_block_code());
    let value = spec_literal_code(shade).value;
    let window = row_code_window(shade);

    assert(row =~= seq![0u8] + seq![shade]);
    lemma_literal_bits_concat(seq![0u8], seq![shade]);
    lemma_literal_bits_one(0);
    lemma_literal_bits_one(shade);
    lemma_end_of_block_bits();
    assert(bits =~= seq![true, true, false] + first + second + last);

    assert(!code_bit(0x30u32, 7) && !code_bit(0x30u32, 6) && code_bit(0x30u32, 5) && code_bit(
        0x30u32,
        4,
    ) && !code_bit(0x30u32, 3) && !code_bit(0x30u32, 2) && !code_bit(0x30u32, 1) && !code_bit(
        0x30u32,
        0,
    )) by (bit_vector);
    assert(bits[0] && bits[1] && !bits[2]);
    assert(bits[3] == first[0] && bits[4] == first[1] && bits[5] == first[2] && bits[6]
        == first[3] && bits[7] == first[4] && bits[8] == first[5] && bits[9] == first[6]
        && bits[10] == first[7]);
    assert(packed_byte(bits, 0) == 0x63) by {
        reveal(packed_byte);
    }

    assert forall|p: int| 11 <= p < 20 implies #[trigger] padded_bit(bits, p) == code_bit(
        window,
        (19 - p) as u32,
    ) by {
        let i = p - 11;
        if shade < 144 {
            assert(code_bit(window, 8) == code_bit(value, 7) && code_bit(window, 7) == code_bit(
                value,
                6,
            ) && code_bit(window, 6) == code_bit(value, 5) && code_bit(window, 5) == code_bit(
                value,
                4,
            ) && code_bit(window, 4) == code_bit(value, 3) && code_bit(window, 3) == code_bit(
                value,
                2,
            ) && code_bit(window, 2) == code_bit(value, 1) && code_bit(window, 1) == code_bit(
                value,
                0,
            ) && !code_bit(window, 0)) by (bit_vector)
                requires
                    window == value * 2,
                    value < 256,
            ;
            if i < 8 {
                assert(bits[11 + i] == second[i]);
            } else {
                assert(bits[11 + i] == last[i - 8]);
            }
        } else {
            assert(bits[11 + i] == second[i]);
        }
    }
    assert forall|p: int| 20 <= p implies !#[trigger] padded_bit(bits, p) by {
        if p < bits.len() {
            assert(bits[p] == last[p - 11 - second.len()]);
        }
    }

    assert forall|j: int| 0 <= j < 3 implies !bit_at(stream[1], j) by {
        lemma_bit_of_packed_byte(bits, 1, j);
    }
    assert forall|j: int| 3 <= j < 8 implies bit_at(stream[1], j) == code_bit(
        window,
        (11 - j) as u32,
    ) by {
        lemma_bit_of_packed_byte(bits, 1, j);
        assert(padded_bit(bits, 8 + j) == code_bit(window, (19 - (8 + j)) as u32));
    }
    assert forall|j: int| 0 <= j < 4 implies bit_at(stream[2], j) == code_bit(
        window,
        (3 - j) as u32,
    ) by {
        lemma_bit_of_packed_byte(bits, 2, j);
        assert(padded_bit(bits, 16 + j) == code_bit(window, (19 - (16 + j)) as u32));
    }
    assert forall|j: int| 4 <= j < 8 implies !bit_at(stream[2], j) by {
        lemma_bit_of_packed_byte(bits, 2, j);
    }
    assert(packed_byte(bits, 3) == 0) by {
        reveal(packed_byte);
    }
}

/// The Adler-32 of a pixel row: the low sum is the shade and one, the high
/// sum one more.
pub proof fn lemma_pixel_row_adler(shade: u8)
    ensures
        spec_adler32(spec_pixel_row(shade)) == (shade + 2) * 65536 + (shade + 1),
        be_bytes(spec_adler32(spec_pixel_row(shade))) == seq![
            ((shade + 2) / 256) as u8,
            ((shade + 2) % 256) as u8,
            ((shade + 1) / 256) as u8,
            ((shade + 1) % 256) as u8,
        ],
{
    let row = spec_pixel_row(shade);
    assert(row.take(2) =~= row);
    assert(adler32_low(row.take(0)) == 1 && adler32_high(row.take(0)) == 0);
    lemma_adler32_step(row, 0);
    assert(adler32_low(row.take(1)) == 1 && adler32_high(row.take(1)) == 1);
    lemma_adler32_step(row, 1);
    assert(adler32_low(row) == shade + 1);
    assert(adler32_high(row) == shade + 2);
    let sum = spec_adler32(row);
    let high: u32 = (shade + 2) as u32;
    let low: u32 = (shade + 1) as u32;
    assert(sum == high * 65536 + low);
    assert(sum / 0x100_0000 == high / 256 && sum / 0x1_0000 % 0x100 == high % 256 && sum / 0x100
        % 0x100 == low / 256 && sum % 0x100 == low % 256) by (bit_vector)
        requires
            high <= 257,
            low <= 256,
            sum == high * 65536 + low,
    ;
    assert(be_bytes(sum) =~= seq![
        (high / 256) as u8,
        (high % 256) as u8,
        (low / 256) as u8,
        (low % 256) as u8,
    ]);
}

/// Whether two bytes are the second and third of the stream of the pixel row
/// with this shade: from bit 3 of the first on they hold the nine bits of
/// the row's code window, its most significant bit first, and zeros elsewhere.
pub open spec fn row_bytes_hold_code(shade: u8, b1: u8, b2: u8) -> bool {
    let window = row_code_window(shade);
    &&& !((b1 >> 0u8) & 1 == 1) && !((b1 >> 1u8) & 1 == 1) && !((b1 >> 2u8) & 1 == 1)
    &&& ((b1 >> 3u8) & 1 == 1) == code_bit(window, 8)
    &&& ((b1 >> 4u8) & 1 == 1) == code_bit(window, 7)
    &&& ((b1 >> 5u8) & 1 == 1) == code_bit(window, 6)
    &&& ((b1 >> 6u8) & 1 == 1) == code_bit(window, 5)
    &&& ((b1 >> 7u8) & 1 == 1) == code_bit(window, 4)
    &&& ((b2 >> 0u8) & 1 == 1) == code_bit(window, 3)
    &&& ((b2 >> 1u8) & 1 == 1) == code_bit(window, 2)
    &&& ((b2 >> 2u8) & 1 == 1) == code_bit(window, 1)
    &&& ((b2 >> 3u8) & 1 == 1) == code_bit(window, 0)
    &&& !((b2 >> 4u8) & 1 == 1) && !((b2 >> 5u8) & 1 == 1) && !((b2 >> 6u8) & 1 == 1) && !((b2
        >> 7u8) & 1 == 1)
}

/// The register after the tag of the image data chunk, the stream header and
/// the first byte of every pixel row's block.
proof fn lemma_register_after_prefix(
    c0: u32,
    c1: u32,
    c2: u32,
    c3: u32,
    c4: u32,
    c5: u32,
    c6: u32,
    c7: u32,
)
    by (bit_vector)
    requires
        c0 == 0xFFFF_FFFFu32,
        c1 == crc32_byte(c0, 0x49u8),
        c2 == crc32_byte(c1, 0x44u8),
        c3 == crc32_byte(c2, 0x41u8),
        c4 == crc32_byte(c3, 0x54u8),
        c5 == crc32_byte(c4, 0x78u8),
        c6 == crc32_byte(c5, 0x01u8),
        c7 == crc32_byte(c6, 0x63u8),
    ensures
        c7 == 0x9177_8916u32,
{
}

/// Whatever the shade, the register after the block does not end as the
/// end tag.
#[verifier::rlimit(40)]
proof fn lemma_register_after_block(shade: u8, b1: u8, b2: u8, c8: u32, c9: u32, c10: u32)
    by (bit_vector)
    requires
        row_bytes_hold_code(shade, b1, b2),
        c8 == crc32_byte(0x9177_8916u32, b1),
        c9 == crc32_byte(c8, b2),
        c10 == crc32_byte(c9, 0u8),
    ensures
        c10 ^ 0xFFFF_FFFFu32 != 0x4945_4E44u32,
{
}

/// Whatever the shade, the register after block and Adler-32 does not end as
/// the end tag, nor as its last three letters where the Adler-32 ends in the
/// first.
#[verifier::rlimit(40)]
proof fn lemma_register_after_adler(
    shade: u8,
    b1: u8,
    b2: u8,
    high: u32,
    low: u32,
    a0: u8,
    a1: u8,
    a2: u8,
    a3: u8,
    c8: u32,
    c9: u32,
    c10: u32,
    c11: u32,
    c12: u32,
    c13: u32,
    c14: u32,
)
    by (bit_vector)
    requires
        row_bytes_hold_code(shade, b1, b2),
        high == shade as u32 + 2,
        low == shade as u32 + 1,
        a0 as u32 == high >> 8u32,
        a1 as u32 == high & 0xffu32,
        a2 as u32 == low >> 8u32,
        a3 as u32 == low & 0xffu32,
        c8 == crc32_byte(0x9177_8916u32, b1),
        c9 == crc32_byte(c8, b2),
        c10 == crc32_byte(c9, 0u8),
        c11 == crc32_byte(c10, a0),
        c12 == crc32_byte(c11, a1),
        c13 == crc32_byte(c12, a2),
        c14 == crc32_byte(c13, a3),
    ensures
        c14 ^ 0xFFFF_FFFFu32 != 0x4945_4E44u32,
        a3 == 0x49u8 ==> (c14 ^ 0xFFFF_FFFFu32) >> 8u32 != 0x45_4E44u32,
{
}

/// The checksum over tag, stream header and the block of a pixel row never
/// spells the end tag.
proof fn lemma_checksum_without_adler(data: Seq<u8>, shade: u8)
    requires
        data.len() == 10,
        data[0] == 0x49 && data[1] == 0x44 && data[2] == 0x41 && data[3] == 0x54,
        data[4] == 0x78 && data[5] == 0x01 && data[6] == 0x63,
        row_bytes_hold_code(shade, data[7], data[8]),
        data[9] == 0,
    ensures
        spec_crc32(data) != 0x4945_4E44u32,
{
    lemma_crc32_register_steps(data);
    lemma_register_after_prefix(
        crc32_register(data.take(0)),
        crc32_register(data.take(1)),
        crc32_register(data.take(2)),
        crc32_register(data.take(3)),
        crc32_register(data.take(4)),
        crc32_register(data.take(5)),
        crc32_register(data.take(6)),
        crc32_register(data.take(7)),
    );
    lemma_register_after_block(
        shade,
        data[7],
        data[8],
        crc32_register(data.take(8)),
        crc32_register(data.take(9)),
        crc32_register(data.take(10)),
    );
}

/// The checksum over tag, stream header, the block of a pixel row and its
/// Adler-32 never spells the end tag, nor its last three letters where the
/// Adler-32 ends in the first.
proof fn lemma_checksum_with_adler(data: Seq<u8>, shade: u8)
    requires
        data.len() == 14,
        data[0] == 0x49 && data[1] == 0x44 && data[2] == 0x41 && data[3] == 0x54,
        data[4] == 0x78 && data[5] == 0x01 && data[6] == 0x63,
        row_bytes_hold_code(shade, data[7], data[8]),
        data[9] == 0,
        data[10] == (shade + 2) / 256,
        data[11] == (shade + 2) % 256,
        data[12] == (shade + 1) / 256,
        data[13] == (shade + 1) % 256,
    ensures
        spec_crc32(data) != 0x4945_4E44u32,
        data[13] == 0x49 ==> spec_crc32(data) / 0x100 != 0x45_4E44,
{
    let high: u32 = (shade + 2) as u32;
    let low: u32 = (shade + 1) as u32;
    assert(high >> 8u32 == high / 256 && high & 0xffu32 == high % 256 && low >> 8u32 == low / 256
        && low & 0xffu32 == low % 256) by (bit_vector);
    lemma_crc32_register_steps(data);
    lemma_register_after_prefix(
        crc32_register(data.take(0)),
        crc32_register(data.take(1)),
        crc32_register(data.take(2)),
        crc32_register(data.take(3)),
        crc32_register(data.take(4)),
        crc32_register(data.take(5)),
        crc32_register(data.take(6)),
        crc32_register(data.take(7)),
    );
    lemma_register_after_adler(
        shade,
        data[7],
        data[8],
        high,
        low,
        data[10],
        data[11],
        data[12],
        data[13],
        crc32_register(data.take(8)),
        crc32_register(data.take(9)),
        crc32_register(data.take(10)),
        crc32_register(data.take(11)),
        crc32_register(data.take(12)),
        crc32_register(data.take(13)),
        crc32_register(data.take(14)),
    );
    let crc = spec_crc32(data);
    assert(crc >> 8u32 == crc / 0x100) by (bit_vector);
}

/// The two middle bytes of a pixel row's stream hold the row's code window.
proof fn lemma_pixel_row_bits(shade: u8)
    ensures
        row_bytes_hold_code(
            shade,
            spec_deflate(spec_pixel_row(shade))[1],
            spec_deflate(spec_pixel_row(shade))[2],
        ),
{
    let b1 = spec_deflate(spec_pixel_row(shade))[1];
    let b2 = spec_deflate(spec_pixel_row(shade))[2];
    let window = row_code_window(shade);
    lemma_pixel_row_stream(shade);
    assert(!bit_at(b1, 0) && !bit_at(b1, 1) && !bit_at(b1, 2));
    assert(bit_at(b1, 3) == code_bit(window, 8));
    assert(bit_at(b1, 4) == code_bit(window, 7));
    assert(bit_at(b1, 5) == code_bit(window, 6));
    assert(bit_at(b1, 6) == code_bit(window, 5));
    assert(bit_at(b1, 7) == code_bit(window, 4));
    assert(bit_at(b2, 0) == code_bit(window, 3));
    assert(bit_at(b2, 1) == code_bit(window, 2));
    assert(bit_at(b2, 2) == code_bit(window, 1));
    assert(bit_at(b2, 3) == code_bit(window, 0));
    assert(!bit_at(b2, 4) && !bit_at(b2, 5) && !bit_at(b2, 6) && !bit_at(b2, 7));
}

/// What the checksum of the image data chunk covers: the tag, the stream
/// header, the four bytes of the block, and the stream's trailer.
proof fn lemma_image_data_bytes(shade: u8, disable_adler: bool)
    ensures
        IDAT@ + spec_zlib(spec_pixel_row(shade), disable_adler) == seq![
            0x49u8,
            0x44u8,
            0x41u8,
            0x54u8,
            0x78u8,
            0x01u8,
            0x63u8,
            spec_deflate(spec_pixel_row(shade))[1],
            spec_deflate(spec_pixel_row(shade))[2],
            0u8,
        ] + zlib_trailer(spec_pixel_row(shade), disable_adler),
{
    let row = spec_pixel_row(shade);
    let stream = spec_deflate(row);
    lemma_pixel_row_stream(shade);
    assert(stream =~= seq![0x63u8, stream[1], stream[2], 0u8]);
    assert(IDAT@ + spec_zlib(row, disable_adler) =~= seq![
        0x49u8,
        0x44u8,
        0x41u8,
        0x54u8,
        0x78u8,
        0x01u8,
        0x63u8,
        stream[1],
        stream[2],
        0u8,
    ] + zlib_trailer(row, disable_adler));
}

/// The checksum of the image data chunk never spells the end tag, and where
/// the stream's own checksum ends in the tag's first letter, the chunk's
/// checksum does not go on with the other three.
pub proof fn lemma_image_data_checksum(shade: u8, disable_adler: bool)
    ensures
        spec_crc32(IDAT@ + spec_zlib(spec_pixel_row(shade), disable_adler)) != 0x4945_4E44u32,
        !disable_adler && shade == 0x48 ==> spec_crc32(
            IDAT@ + spec_zlib(spec_pixel_row(shade), disable_adler),
        ) / 0x100 != 0x45_4E44,
{
    let data = IDAT@ + spec_zlib(spec_pixel_row(shade), disable_adler);
    lemma_image_data_bytes(shade, disable_adler);
    lemma_pixel_row_bits(shade);
    if disable_adler {
        lemma_checksum_without_adler(data, shade);
    } else {
        lemma_pixel_row_adler(shade);
        lemma_checksum_with_adler(data, shade);
    }
}

/// Whether the end tag stands in `bytes` at position `i`.
pub open spec fn end_tag_at(bytes: Seq<u8>, i: int) -> bool {
    0 <= i && i + 4 <= bytes.len() && bytes[i] == 0x49 && bytes[i + 1] == 0x45 && bytes[i + 2]
        == 0x4e && bytes[i + 3] == 0x44
}

/// The file up to the payload of the image data chunk: signature, header
/// chunk, and the length and tag of the image data chunk.
pub open spec fn file_head(length: u8) -> Seq<u8> {
    seq![
        0x89u8,
        0x50u8,
        0x4eu8,
        0x47u8,
        0x0du8,
        0x0au8,
        0x1au8,
        0x0au8,
        0u8,
        0u8,
        0u8,
        13u8,
        0x49u8,
        0x48u8,
        0x44u8,
        0x52u8,
        0u8,
        0u8,
        0u8,
        1u8,
        0u8,
        0u8,
        0u8,
        1u8,
        8u8,
        0u8,
        0u8,
        0u8,
        0u8,
        0x3au8,
        0x7eu8,
        0x9bu8,
        0x55u8,
        0u8,
        0u8,
        0u8,
        length,
        0x49u8,
        0x44u8,
        0x41u8,
        0x54u8,
    ]
}

/// No end tag starts in the head of the file.
proof fn lemma_no_end_tag_in_head(file: Seq<u8>, length: u8, i: int)
    requires
        file.len() >= 45,
        file.subrange(0, 41) == file_head(length),
        file[41] == 0x78,
        length != 0x49,
        0 <= i < 41,
    ensures
        !end_tag_at(file, i),
{
    let head = file_head(length);
    assert(file[i] == head[i]);
    if i == 12 {
        assert(file[13] == head[13]);
    } else if i == 37 {
        assert(file[38] == head[38]);
    }
}

/// The header chunk, byte by byte.
proof fn lemma_header_chunk_bytes()
    ensures
        spec_chunk(IHDR@, spec_serialize_header(spec_single_pixel_header())) == seq![
            0u8,
            0u8,
            0u8,
            13u8,
            0x49u8,
            0x48u8,
            0x44u8,
            0x52u8,
            0u8,
            0u8,
            0u8,
            1u8,
            0u8,
            0u8,
            0u8,
            1u8,
            8u8,
            0u8,
            0u8,
            0u8,
            0u8,
            0x3au8,
            0x7eu8,
            0x9bu8,
            0x55u8,
        ],
{
    let header = spec_serialize_header(spec_single_pixel_header());
    lemma_header_chunk_checksum();
    lemma_be_round_trip(1);
    lemma_be_round_trip(13);
    lemma_be_round_trip(0x3A7E_9B55u32);
    assert(be_bytes(1) =~= seq![0u8, 0u8, 0u8, 1u8]);
    assert(be_bytes(13) =~= seq![0u8, 0u8, 0u8, 13u8]);
    assert(be_bytes(0x3A7E_9B55u32) =~= seq![0x3au8, 0x7eu8, 0x9bu8, 0x55u8]);
    assert(header =~= seq![0u8, 0u8, 0u8, 1u8, 0u8, 0u8, 0u8, 1u8, 8u8, 0u8, 0u8, 0u8, 0u8]);
    assert(IHDR@ =~= seq![0x49u8, 0x48u8, 0x44u8, 0x52u8]);
}

/// The zlib stream of a pixel row has ten bytes, six without its checksum.
proof fn lemma_pixel_row_zlib_len(shade: u8, disable_adler: bool)
    ensures
        spec_zlib(spec_pixel_row(shade), disable_adler).len() == (if disable_adler {
            6int
        } else {
            10int
        }),
{
    lemma_deflate_len(spec_pixel_row(shade));
    lemma_zlib_len(spec_pixel_row(shade), disable_adler);
}

/// The head of the file is the signature, the header chunk, and the length
/// and tag of the image data chunk.
proof fn lemma_file_head(length: u8)
    ensures
        file_head(length) == SIGNATURE@ + spec_chunk(
            IHDR@,
            spec_serialize_header(spec_single_pixel_header()),
        ) + be_bytes(length as u32) + IDAT@,
{
    lemma_header_chunk_bytes();
    let ihdr = spec_chunk(IHDR@, spec_serialize_header(spec_single_pixel_header()));
    assert(be_bytes(length as u32) =~= seq![0u8, 0u8, 0u8, length]) by {
        lemma_be_round_trip(length as u32);
    }
    assert(SIGNATURE@ =~= seq![0x89u8, 0x50u8, 0x4eu8, 0x47u8, 0x0du8, 0x0au8, 0x1au8, 0x0au8]);
    assert(IDAT@ =~= seq![0x49u8, 0x44u8, 0x41u8, 0x54u8]);
    assert(file_head(length) =~= SIGNATURE@ + ihdr + be_bytes(length as u32) + IDAT@);
}

/// The file without its end marker, part by part: the head, the zlib stream
/// of the pixel row, and the checksum of the image data chunk.
proof fn lemma_file_parts(shade: u8, disable_adler: bool)
    ensures
        spec_zlib(spec_pixel_row(shade), disable_adler).len() == (if disable_adler {
            6int
        } else {
            10int
        }),
        spec_generate(shade, disable_adler, true) == file_head(
            spec_zlib(spec_pixel_row(shade), disable_adler).len() as u8,
        ) + spec_zlib(spec_pixel_row(shade), disable_adler) + be_bytes(
            spec_crc32(IDAT@ + spec_zlib(spec_pixel_row(shade), disable_adler)),
        ),
{
    let stream = spec_zlib(spec_pixel_row(shade), disable_adler);
    let ihdr = spec_chunk(IHDR@, spec_serialize_header(spec_single_pixel_header()));
    let sum = be_bytes(spec_crc32(IDAT@ + stream));
    let length = be_bytes(stream.len() as u32);
    lemma_pixel_row_zlib_len(shade, disable_adler);
    lemma_file_head(stream.len() as u8);
    assert(spec_chunk(IDAT@, stream) =~= length + IDAT@ + stream + sum);
    assert(spec_generate(shade, disable_adler, true) =~= SIGNATURE@ + ihdr + (length + IDAT@
        + stream + sum));
    assert(SIGNATURE@ + ihdr + (length + IDAT@ + stream + sum) =~= SIGNATURE@ + ihdr + length
        + IDAT@ + stream + sum);
}

/// No end tag starts in or after the payload of the image data chunk: the
/// block ends in a zero byte, the bytes of the Adler-32 that count its
/// overflows are at most one, and the chunk's checksum does not spell the tag.
proof fn lemma_no_end_tag_in_tail(file: Seq<u8>, crc: u32, i: int)
    requires
        file.len() == 51 || file.len() == 55,
        file[41] == 0x78 && file[42] == 0x01 && file[43] == 0x63 && file[46] == 0,
        file.subrange(file.len() - 4, file.len() as int) == be_bytes(crc),
        crc != 0x4945_4E44u32,
        file.len() == 55 ==> file[47] <= 1 && file[49] <= 1,
        file.len() == 55 && file[50] == 0x49 ==> crc / 0x100 != 0x45_4E44,
        41 <= i,
    ensures
        !end_tag_at(file, i),
{
    let sum = be_bytes(crc);
    let at = file.len() - 4;
    lemma_be_round_trip(crc);
    assert(file[at] == sum[0] && file[at + 1] == sum[1] && file[at + 2] == sum[2] && file[at + 3]
        == sum[3]) by {
        let last = file.subrange(at, file.len() as int);
        assert(last[0] == file[at] && last[1] == file[at + 1] && last[2] == file[at + 2]
            && last[3] == file[at + 3]);
    }
    assert(sum[0] == 0x49 && sum[1] == 0x45 && sum[2] == 0x4e && sum[3] == 0x44 ==> crc
        == 0x4945_4E44u32);
    assert(sum[0] == 0x45 && sum[1] == 0x4e && sum[2] == 0x44 ==> crc / 0x100 == 0x45_4E44);
}

/// What the zlib stream of a pixel row holds where an end tag would have to
/// stand: its header and the first byte of the block, the zero that ends
/// the block, and in the checksum two bytes that are at most one.
proof fn lemma_stream_bytes(shade: u8, disable_adler: bool)
    ensures
        spec_zlib(spec_pixel_row(shade), disable_adler).len() == (if disable_adler {
            6int
        } else {
            10int
        }),
        spec_zlib(spec_pixel_row(shade), disable_adler)[0] == 0x78,
        spec_zlib(spec_pixel_row(shade), disable_adler)[1] == 0x01,
        spec_zlib(spec_pixel_row(shade), disable_adler)[2] == 0x63,
        spec_zlib(spec_pixel_row(shade), disable_adler)[5] == 0,
        !disable_adler ==> spec_zlib(spec_pixel_row(shade), disable_adler)[6] <= 1,
        !disable_adler ==> spec_zlib(spec_pixel_row(shade), disable_adler)[8] <= 1,
        !disable_adler && spec_zlib(spec_pixel_row(shade), disable_adler)[9] == 0x49 ==> shade
            == 0x48,
{
    let row = spec_pixel_row(shade);
    let stream = spec_zlib(row, disable_adler);
    let block = spec_deflate(row);
    lemma_pixel_row_zlib_len(shade, disable_adler);
    lemma_pixel_row_stream(shade);
    assert(stream[0] == 0x78 && stream[1] == 0x01);
    assert(stream[2] == block[0] && stream[5] == block[3]);
    if !disable_adler {
        let sum = be_bytes(spec_adler32(row));
        lemma_pixel_row_adler(shade);
        assert(stream[6] == sum[0] && stream[8] == sum[2] && stream[9] == sum[3]);
    }
}

/// In a sequence put together from three parts, the first and the last
/// stand at its ends and the second begins where the first ends.
proof fn lemma_three_parts(whole: Seq<u8>, head: Seq<u8>, middle: Seq<u8>, tail: Seq<u8>)
    requires
        whole == head + middle + tail,
    ensures
        whole.len() == head.len() + middle.len() + tail.len(),
        whole.subrange(0, head.len() as int) == head,
        whole.subrange(whole.len() - tail.len(), whole.len() as int) == tail,
        forall|k: int| 0 <= k < middle.len() ==> whole[head.len() + k] == #[trigger] middle[k],
{
    assert(whole.subrange(0, head.len() as int) =~= head);
    assert(whole.subrange(whole.len() - tail.len(), whole.len() as int) =~= tail);
}

/// No end tag stands in a file head followed by a stream and a checksum
/// like those of a pixel row.
proof fn lemma_no_end_tag_in_parts(file: Seq<u8>, stream: Seq<u8>, crc: u32)
    requires
        stream.len() == 6 || stream.len() == 10,
        file == file_head(stream.len() as u8) + stream + be_bytes(crc),
        stream[0] == 0x78 && stream[1] == 0x01 && stream[2] == 0x63 && stream[5] == 0,
        stream.len() == 10 ==> stream[6] <= 1 && stream[8] <= 1,
        crc != 0x4945_4E44u32,
        stream.len() == 10 && stream[9] == 0x49 ==> crc / 0x100 != 0x45_4E44,
    ensures
        forall|i: int| !end_tag_at(file, i),
{
    lemma_be_round_trip(crc);
    lemma_three_parts(file, file_head(stream.len() as u8), stream, be_bytes(crc));
    assert(file[41] == stream[0] && file[42] == stream[1] && file[43] == stream[2] && file[46]
        == stream[5]);
    if stream.len() == 10 {
        assert(file[47] == stream[6] && file[49] == stream[8] && file[50] == stream[9]);
    }
    assert forall|i: int| !end_tag_at(file, i) by {
        if 0 <= i < 41 {
            lemma_no_end_tag_in_head(file, stream.len() as u8, i);
        } else if 41 <= i {
            lemma_no_end_tag_in_tail(file, crc, i);
        }
    }
}

/// A file written without its end marker holds the end tag nowhere.
pub proof fn lemma_no_end_tag(shade: u8, disable_adler: bool)
    ensures
        forall|i: int| !end_tag_at(spec_generate(shade, disable_adler, true), i),
{
    let stream = spec_zlib(spec_pixel_row(shade), disable_adler);
    lemma_file_parts(shade, disable_adler);
    lemma_stream_bytes(shade, disable_adler);
    lemma_image_data_checksum(shade, disable_adler);
    lemma_no_end_tag_in_parts(
        spec_generate(shade, disable_adler, true),
        stream,
        spec_crc32(IDAT@ + stream),
    );
}

/// With its end marker the file is the file without it followed by the end
/// marker chunk, and so twelve bytes longer.
pub proof fn lemma_end_marker_is_last(shade: u8, disable_adler: bool)
    ensures
        spec_generate(shade, disable_adler, false) == spec_generate(shade, disable_adler, true)
            + spec_chunk(IEND@, Seq::empty()),
        spec_generate(shade, disable_adler, false).len() == spec_generate(
            shade,
            disable_adler,
            true,
        ).len() + 12,
{
    lemma_end_marker_checksum();
    assert(spec_generate(shade, disable_adler, false) =~= spec_generate(shade, disable_adler, true)
        + spec_chunk(IEND@, Seq::empty()));
}

/// The head of the file begins with the signature and holds the header
/// record from byte 16.
proof fn lemma_file_head_parts(length: u8)
    ensures
        file_head(length).len() == 41,
        file_head(length).subrange(0, 8) == SIGNATURE@,
        file_head(length).subrange(16, 29) == spec_serialize_header(spec_single_pixel_header()),
{
    let header = spec_serialize_header(spec_single_pixel_header());
    lemma_be_round_trip(1);
    assert(header =~= seq![0u8, 0u8, 0u8, 1u8, 0u8, 0u8, 0u8, 1u8, 8u8, 0u8, 0u8, 0u8, 0u8]);
    assert(file_head(length).subrange(0, 8) =~= SIGNATURE@);
    assert(file_head(length).subrange(16, 29) =~= header);
}

/// Where the parts of the file stand: the signature in the first eight
/// bytes, the header record from byte 16, the zlib stream from byte 41.
pub proof fn lemma_file_payloads(shade: u8, disable_adler: bool, disable_iend: bool)
    ensures
        spec_zlib(spec_pixel_row(shade), disable_adler).len() == (if disable_adler {
            6int
        } else {
            10int
        }),
        spec_generate(shade, disable_adler, disable_iend).len() >= 51,
        spec_generate(shade, disable_adler, disable_iend).subrange(0, 8) == SIGNATURE@,
        spec_generate(shade, disable_adler, disable_iend).subrange(16, 29)
            == spec_serialize_header(spec_single_pixel_header()),
        spec_generate(shade, disable_adler, disable_iend).subrange(
            41,
            41 + spec_zlib(spec_pixel_row(shade), disable_adler).len() as int,
        ) == spec_zlib(spec_pixel_row(shade), disable_adler),
{
    let file = spec_generate(shade, disable_adler, disable_iend);
    let stream = spec_zlib(spec_pixel_row(shade), disable_adler);
    let head = file_head(stream.len() as u8);
    let sum = be_bytes(spec_crc32(IDAT@ + stream));
    let rest = sum + end_marker(disable_iend);
    lemma_file_parts(shade, disable_adler);
    lemma_file_head_parts(stream.len() as u8);
    lemma_be_round_trip(spec_crc32(IDAT@ + stream));
    assert(file =~= head + stream + rest);
    assert(file.subrange(0, 8) =~= head.subrange(0, 8));
    assert(file.subrange(16, 29) =~= head.subrange(16, 29));
    assert(file.subrange(41, 41 + stream.len() as int) =~= stream);
}

/// What a reader finds in the file: the header of a one-pixel grayscale
/// image in the payload of the first chunk, and in the payload of the second
/// a zlib stream that, written with its checksum, decodes to the pixel row
/// and, written without, is not accepted.
pub proof fn lemma_file_decodes(shade: u8, disable_adler: bool, disable_iend: bool)
    ensures
        spec_parse_header(spec_generate(shade, disable_adler, disable_iend).subrange(16, 29))
            == spec_single_pixel_header(),
        !disable_adler ==> spec_unzlib(
            spec_generate(shade, disable_adler, disable_iend).subrange(41, 51),
        ) == Some(spec_pixel_row(shade)),
        disable_adler ==> spec_unzlib(
            spec_generate(shade, disable_adler, disable_iend).subrange(41, 47),
        ) is None,
{
    lemma_file_payloads(shade, disable_adler, disable_iend);
    lemma_header_round_trip(spec_single_pixel_header());
    lemma_unzlib_zlib(spec_pixel_row(shade));
    lemma_unzlib_rejects_missing_adler(spec_pixel_row(shade));
}

} // verus!
