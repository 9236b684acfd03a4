//! The two checksums of the format: CRC-32 around chunks, Adler-32 inside
//! the zlib stream.

use adler::adler32_slice;
use crc::{Crc, CRC_32_ISO_HDLC};
use vstd::prelude::*;

verus! {

/// One shift of the reflected CRC-32 register: the lowest bit leaves, and if
/// it was set the reflected polynomial is folded in.
pub open spec fn crc32_shift(c: u32) -> u32 {
    if c & 1 == 1 {
        (c >> 1) ^ 0xEDB8_8320
    } else {
        c >> 1
    }
}

/// The register after one more byte: the byte is folded into the low end and
/// the register is shifted eight times.
pub open spec fn crc32_byte(c: u32, b: u8) -> u32 {
    crc32_shift(
        crc32_shift(
            crc32_shift(
                crc32_shift(crc32_shift(crc32_shift(crc32_shift(crc32_shift(c ^ (b as u32)))))),
            ),
        ),
    )
}

/// The register after all of `data`, starting from all ones.
pub open spec fn crc32_register(data: Seq<u8>) -> u32
    decreases data.len(),
{
    if data.len() == 0 {
        0xFFFF_FFFF
    } else {
        crc32_byte(crc32_register(data.drop_last()), data.last())
    }
}

/// CRC-32 as PNG and zlib use it: reflected polynomial `0xEDB88320`, register
/// initially all ones, result inverted.
pub open spec fn spec_crc32(data: Seq<u8>) -> u32 {
    crc32_register(data) ^ 0xFFFF_FFFF
}

/// The register starts as all ones, and byte `n` of `data` takes it from its
/// value after `n` bytes to its value after `n + 1`.
pub proof fn lemma_crc32_register_steps(data: Seq<u8>)
    ensures
        crc32_register(data.take(0)) == 0xFFFF_FFFFu32,
        crc32_register(data.take(data.len() as int)) == crc32_register(data),
        forall|n: int|
            0 <= n < data.len() ==> crc32_register(data.take(n + 1)) == crc32_byte(
                crc32_register(data.take(n)),
                #[trigger] data[n],
            ),
{
    assert(data.take(data.len() as int) =~= data);
    assert forall|n: int| 0 <= n < data.len() implies crc32_register(data.take(n + 1))
        == crc32_byte(crc32_register(data.take(n)), #[trigger] data[n]) by {
        assert(data.take(n + 1).drop_last() =~= data.take(n));
    }
}

/// The low half of Adler-32: one plus the sum of the bytes, modulo 65521.
pub open spec fn adler32_low(data: Seq<u8>) -> nat
    decreases data.len(),
{
    if data.len() == 0 {
        1
    } else {
        (adler32_low(data.drop_last()) + data.last() as nat) % 65521
    }
}

/// The high half of Adler-32: the sum of the low halves of every non-empty
/// prefix, modulo 65521.
pub open spec fn adler32_high(data: Seq<u8>) -> nat
    decreases data.len(),
{
    if data.len() == 0 {
        0
    } else {
        (adler32_high(data.drop_last()) + adler32_low(data)) % 65521
    }
}

/// Adler-32: the high half in the upper sixteen bits, the low half below.
pub open spec fn spec_adler32(data: Seq<u8>) -> u32 {
    (adler32_high(data) * 65536 + adler32_low(data)) as u32
}

/// The CRC-32 of the ASCII digits `123456789`, the value by which
/// catalogues of CRC algorithms tell this one from the others.
pub proof fn lemma_crc32_check_value()
    ensures
        spec_crc32(seq![0x31u8, 0x32u8, 0x33u8, 0x34u8, 0x35u8, 0x36u8, 0x37u8, 0x38u8, 0x39u8])
            == 0xCBF4_3926u32,
{
    let data = seq![0x31u8, 0x32u8, 0x33u8, 0x34u8, 0x35u8, 0x36u8, 0x37u8, 0x38u8, 0x39u8];
    lemma_crc32_register_steps(data);
    assert(data[0] == 0x31 && data[1] == 0x32 && data[2] == 0x33 && data[3] == 0x34 && data[4]
        == 0x35 && data[5] == 0x36 && data[6] == 0x37 && data[7] == 0x38 && data[8] == 0x39);
    let c0 = crc32_register(data.take(0));
    let c1 = crc32_register(data.take(1));
    let c2 = crc32_register(data.take(2));
    let c3 = crc32_register(data.take(3));
    let c4 = crc32_register(data.take(4));
    let c5 = crc32_register(data.take(5));
    let c6 = crc32_register(data.take(6));
    let c7 = crc32_register(data.take(7));
    let c8 = crc32_register(data.take(8));
    let c9 = crc32_register(data.take(9));
    assert(c9 ^ 0xFFFF_FFFFu32 == 0xCBF4_3926u32) by (bit_vector)
        requires
            c0 == 0xFFFF_FFFFu32,
            c1 == crc32_byte(c0, 0x31u8),
            c2 == crc32_byte(c1, 0x32u8),
            c3 == crc32_byte(c2, 0x33u8),
            c4 == crc32_byte(c3, 0x34u8),
            c5 == crc32_byte(c4, 0x35u8),
            c6 == crc32_byte(c5, 0x36u8),
            c7 == crc32_byte(c6, 0x37u8),
            c8 == crc32_byte(c7, 0x38u8),
            c9 == crc32_byte(c8, 0x39u8),
    ;
}

/// Byte `n` of `data` takes both sums from their values after `n` bytes to
/// those after `n + 1`.
pub proof fn lemma_adler32_step(data: Seq<u8>, n: int)
    requires
        0 <= n < data.len(),
    ensures
        adler32_low(data.take(n + 1)) == (adler32_low(data.take(n)) + data[n]) % 65521,
        adler32_high(data.take(n + 1)) == (adler32_high(data.take(n)) + adler32_low(
            data.take(n + 1),
        )) % 65521,
{
    assert(data.take(n + 1).drop_last() =~= data.take(n));
}

/// The Adler-32 of no bytes at all is one.
pub proof fn lemma_adler32_empty()
    ensures
        spec_adler32(Seq::empty()) == 1,
{
}

/// The Adler-32 of the six bytes from 0 to 5.
pub proof fn lemma_adler32_known_value()
    ensures
        spec_adler32(seq![0u8, 1u8, 2u8, 3u8, 4u8, 5u8]) == 0x0029_0010u32,
{
    let data = seq![0u8, 1u8, 2u8, 3u8, 4u8, 5u8];
    assert(data.take(6) =~= data);
    assert(adler32_low(data.take(0)) == 1 && adler32_high(data.take(0)) == 0);
    lemma_adler32_step(data, 0);
    assert(adler32_low(data.take(1)) == 1 && adler32_high(data.take(1)) == 1);
    lemma_adler32_step(data, 1);
    assert(adler32_low(data.take(2)) == 2 && adler32_high(data.take(2)) == 3);
    lemma_adler32_step(data, 2);
    assert(adler32_low(data.take(3)) == 4 && adler32_high(data.take(3)) == 7);
    lemma_adler32_step(data, 3);
    assert(adler32_low(data.take(4)) == 7 && adler32_high(data.take(4)) == 14);
    lemma_adler32_step(data, 4);
    assert(adler32_low(data.take(5)) == 11 && adler32_high(data.take(5)) == 25);
    lemma_adler32_step(data, 5);
    assert(adler32_low(data.take(6)) == 16 && adler32_high(data.take(6)) == 41);
}

/// Calls the `crc` crate: a `Crc<u32>` for `CRC_32_ISO_HDLC`, one digest fed
/// with `data`, finalized. Trusted: the contract claims that the table-driven
/// digest of that catalogue entry (width 32, polynomial `0x04C11DB7` with
/// input and output reflected, initial value and final XOR all ones) is the
/// bit-by-bit definition `spec_crc32`. The definition gives the entry's check
/// value, as `lemma_crc32_check_value` shows.
#[verifier::external_body]
pub(crate) fn crc32(data: &[u8]) -> (sum: u32)
    ensures
        sum == spec_crc32(data@),
{
    let crc = Crc::<u32>::new(&CRC_32_ISO_HDLC);
    let mut digest = crc.digest();
    digest.update(data);
    digest.finalize()
}

/// Calls `adler::adler32_slice`. Trusted: the contract claims that the crate
/// computes Adler-32 as defined by `spec_adler32`, the second sum in the upper
/// half of the result. The definition gives the value that the crate's
/// documentation shows for the bytes from 0 to 5, as
/// `lemma_adler32_known_value` shows.
#[verifier::external_body]
pub(crate) fn adler32(data: &[u8]) -> (sum: u32)
    ensures
        sum == spec_adler32(data@),
{
    adler32_slice(data)
}

} // verus!
