//! A growable sequence of bits and its packing into bytes, least significant
//! bit first, as DEFLATE lays its stream out.

use bitvec::order::{Lsb0, Msb0};
use bitvec::vec::BitVec;
use bitvec::view::BitView;
use vstd::prelude::*;

verus! {

/// Bit `j` of `byte`, counting from the least significant.
pub open spec fn bit_at(byte: u8, j: int) -> bool {
    (byte >> (j as u8)) & 1 == 1
}

/// The value a bit contributes to its byte: its weight if set, else nothing.
pub open spec fn bit_weight(set: bool, weight: int) -> int {
    if set {
        weight
    } else {
        0
    }
}

/// Bit `i` of a stream that continues with zeros after its end.
pub open spec fn padded_bit(bits: Seq<bool>, i: int) -> bool {
    0 <= i < bits.len() && bits[i]
}

/// Byte `k` of the packed stream: bits `8k .. 8k + 8`, the first in the
/// lowest position.
#[verifier::opaque]
pub open spec fn packed_byte(bits: Seq<bool>, k: int) -> u8 {
    (bit_weight(padded_bit(bits, 8 * k), 1) + bit_weight(padded_bit(bits, 8 * k + 1), 2)
        + bit_weight(padded_bit(bits, 8 * k + 2), 4) + bit_weight(padded_bit(bits, 8 * k + 3), 8)
        + bit_weight(padded_bit(bits, 8 * k + 4), 16) + bit_weight(padded_bit(bits, 8 * k + 5), 32)
        + bit_weight(padded_bit(bits, 8 * k + 6), 64) + bit_weight(
        padded_bit(bits, 8 * k + 7),
        128,
    )) as u8
}

/// The bits packed eight to a byte, least significant first, the last byte
/// filled up with zeros.
pub open spec fn pack_lsb_first(bits: Seq<bool>) -> Seq<u8> {
    Seq::new(((bits.len() + 7) / 8) as nat, |k: int| packed_byte(bits, k))
}

/// The bits of a byte sequence, each byte's least significant bit first.
pub open spec fn unpack_lsb_first(bytes: Seq<u8>) -> Seq<bool> {
    Seq::new(8 * bytes.len(), |i: int| bit_at(bytes[i / 8], i % 8))
}

/// The lowest `width` bits of `value`, the most significant of them first.
pub open spec fn msb_first(value: u32, width: nat) -> Seq<bool> {
    Seq::new(width, |i: int| (value >> ((width - 1 - i) as u32)) & 1 == 1)
}

/// The most bits a `BitBuffer` can hold.
pub open spec fn bit_capacity() -> nat {
    (usize::MAX / 8) as nat
}

/// A bit vector of the `bitvec` crate, `BitVec<u8, Lsb0>`. It is only ever
/// made empty and appended to, so its first bit is the lowest bit of its
/// first byte.
#[verifier::external_body]
pub struct BitBuffer {
    inner: BitVec<u8, Lsb0>,
}

/// The bits that a buffer holds, in the order in which they were appended.
pub uninterp spec fn bits_of(b: BitBuffer) -> Seq<bool>;

impl BitBuffer {
    /// Calls `BitVec::new`. Trusted: the new vector holds no bits.
    #[verifier::external_body]
    pub(crate) fn new() -> (b: BitBuffer)
        ensures
            bits_of(b) == Seq::<bool>::empty(),
    {
        BitBuffer { inner: BitVec::new() }
    }

    /// Calls `BitVec::push`. Trusted: the bit is appended after those
    /// already held. The call panics when the new length exceeds the
    /// maximum, `usize::MAX >> 3`, which the precondition excludes.
    #[verifier::external_body]
    pub(crate) fn push(&mut self, bit: bool)
        requires
            bits_of(*old(self)).len() < bit_capacity(),
        ensures
            bits_of(*final(self)) == bits_of(*old(self)).push(bit),
    {
        self.inner.push(bit);
    }

    /// Calls `BitView::view_bits::<Msb0>` on `value`, takes the bits from
    /// index `start` on, and hands them to `BitVec::extend`. Trusted: under
    /// `Msb0` index `i` of the view is bit `31 - i` of the value, so the tail
    /// from `start` is the lowest `32 - start` bits, the most significant of
    /// them first, and they are appended in that order. The slice panics for
    /// `start > 32` and the extension when the new length exceeds the
    /// maximum; the preconditions exclude both.
    #[verifier::external_body]
    pub(crate) fn extend_msb_tail(&mut self, value: u32, start: usize)
        requires
            start <= 32,
            bits_of(*old(self)).len() + (32 - start) <= bit_capacity(),
        ensures
            bits_of(*final(self)) == bits_of(*old(self)) + msb_first(value, (32 - start) as nat),
    {
        self.inner.extend(&value.view_bits::<Msb0>()[start..]);
    }

    /// Calls `BitVec::len`. Trusted: it is the number of bits held.
    #[verifier::external_body]
    pub(crate) fn len(&self) -> (n: usize)
        ensures
            n == bits_of(*self).len(),
    {
        self.inner.len()
    }

    /// Calls `BitVec::as_raw_slice` and copies the bytes. Trusted: the slice
    /// has one byte for every eight bits or part of eight, and bit `i` of the
    /// buffer is bit `i % 8` of byte `i / 8`. Nothing is claimed of the bits
    /// of the last byte that lie beyond the buffer's length.
    #[verifier::external_body]
    pub(crate) fn to_bytes(&self) -> (bytes: Vec<u8>)
        ensures
            bytes@.len() == (bits_of(*self).len() + 7) / 8,
            forall|i: int|
                0 <= i < bits_of(*self).len() ==> bit_at(bytes@[i / 8], i % 8)
                    == #[trigger] bits_of(*self)[i],
    {
        self.inner.as_raw_slice().to_vec()
    }
}

/// A byte is the sum of the weights of its set bits.
pub proof fn lemma_byte_from_bits(x: u8)
    ensures
        x == bit_weight(bit_at(x, 0), 1) + bit_weight(bit_at(x, 1), 2) + bit_weight(
            bit_at(x, 2),
            4,
        ) + bit_weight(bit_at(x, 3), 8) + bit_weight(bit_at(x, 4), 16) + bit_weight(
            bit_at(x, 5),
            32,
        ) + bit_weight(bit_at(x, 6), 64) + bit_weight(bit_at(x, 7), 128),
{
    assert(x == (if (x >> 0u8) & 1 == 1 { 1int } else { 0int }) + (if (x >> 1u8) & 1 == 1 {
        2int
    } else {
        0int
    }) + (if (x >> 2u8) & 1 == 1 { 4int } else { 0int }) + (if (x >> 3u8) & 1 == 1 {
        8int
    } else {
        0int
    }) + (if (x >> 4u8) & 1 == 1 { 16int } else { 0int }) + (if (x >> 5u8) & 1 == 1 {
        32int
    } else {
        0int
    }) + (if (x >> 6u8) & 1 == 1 { 64int } else { 0int }) + (if (x >> 7u8) & 1 == 1 {
        128int
    } else {
        0int
    })) by (bit_vector);
}

/// Bit `j` of a packed byte is bit `8k + j` of the stream.
pub proof fn lemma_bit_of_packed_byte(bits: Seq<bool>, k: int, j: int)
    requires
        0 <= j < 8,
    ensures
        bit_at(packed_byte(bits, k), j) == padded_bit(bits, 8 * k + j),
{
    reveal(packed_byte);
    let x = packed_byte(bits, k);
    let e0: u8 = if padded_bit(bits, 8 * k) { 1 } else { 0 };
    let e1: u8 = if padded_bit(bits, 8 * k + 1) { 1 } else { 0 };
    let e2: u8 = if padded_bit(bits, 8 * k + 2) { 1 } else { 0 };
    let e3: u8 = if padded_bit(bits, 8 * k + 3) { 1 } else { 0 };
    let e4: u8 = if padded_bit(bits, 8 * k + 4) { 1 } else { 0 };
    let e5: u8 = if padded_bit(bits, 8 * k + 5) { 1 } else { 0 };
    let e6: u8 = if padded_bit(bits, 8 * k + 6) { 1 } else { 0 };
    let e7: u8 = if padded_bit(bits, 8 * k + 7) { 1 } else { 0 };
    assert(x == e0 + 2 * e1 + 4 * e2 + 8 * e3 + 16 * e4 + 32 * e5 + 64 * e6 + 128 * e7);
    assert(((x >> 0u8) & 1 == 1) == (e0 == 1) && ((x >> 1u8) & 1 == 1) == (e1 == 1) && ((x >> 2u8)
        & 1 == 1) == (e2 == 1) && ((x >> 3u8) & 1 == 1) == (e3 == 1) && ((x >> 4u8) & 1 == 1) == (
    e4 == 1) && ((x >> 5u8) & 1 == 1) == (e5 == 1) && ((x >> 6u8) & 1 == 1) == (e6 == 1) && ((x
        >> 7u8) & 1 == 1) == (e7 == 1)) by (bit_vector)
        requires
            e0 <= 1 && e1 <= 1 && e2 <= 1 && e3 <= 1 && e4 <= 1 && e5 <= 1 && e6 <= 1 && e7 <= 1,
            x == e0 + 2 * e1 + 4 * e2 + 8 * e3 + 16 * e4 + 32 * e5 + 64 * e6 + 128 * e7,
    ;
}

/// Keeping the lowest `keep` bits of a byte leaves those bits as they were
/// and clears the others.
pub proof fn lemma_low_bits_kept(x: u8, keep: u8)
    requires
        1 <= keep <= 7,
    ensures
        forall|j: int|
            0 <= j < 8 ==> #[trigger] bit_at(x & (0xffu8 >> ((8 - keep) as u8)), j) == (j < keep
                && bit_at(x, j)),
{
    let s: u8 = (8 - keep) as u8;
    let y: u8 = x & (0xffu8 >> s);
    assert(((y >> 0u8) & 1 == 1) == (0 < keep && (x >> 0u8) & 1 == 1) && ((y >> 1u8) & 1 == 1)
        == (1 < keep && (x >> 1u8) & 1 == 1) && ((y >> 2u8) & 1 == 1) == (2 < keep && (x >> 2u8)
        & 1 == 1) && ((y >> 3u8) & 1 == 1) == (3 < keep && (x >> 3u8) & 1 == 1) && ((y >> 4u8) & 1
        == 1) == (4 < keep && (x >> 4u8) & 1 == 1) && ((y >> 5u8) & 1 == 1) == (5 < keep && (x
        >> 5u8) & 1 == 1) && ((y >> 6u8) & 1 == 1) == (6 < keep && (x >> 6u8) & 1 == 1) && ((y
        >> 7u8) & 1 == 1) == (7 < keep && (x >> 7u8) & 1 == 1)) by (bit_vector)
        requires
            1 <= keep <= 7,
            s == 8 - keep,
            y == x & (0xffu8 >> s),
    ;
    assert forall|j: int| 0 <= j < 8 implies #[trigger] bit_at(y, j) == (j < keep && bit_at(
        x,
        j,
    )) by {
        if j == 0 {
        } else if j == 1 {
        } else if j == 2 {
        } else if j == 3 {
        } else if j == 4 {
        } else if j == 5 {
        } else if j == 6 {
        } else {
            assert(j == 7);
        }
    }
}

/// The bytes of a buffer: its bits packed least significant first, the last
/// byte filled up with zeros. Whatever the buffer's storage holds beyond its
/// last bit is cleared here.
pub(crate) fn pack(buf: &BitBuffer) -> (out: Vec<u8>)
    ensures
        out@ == pack_lsb_first(bits_of(*buf)),
{
    let n: usize = buf.len();
    let mut out = buf.to_bytes();
    let ghost bits = bits_of(*buf);
    let ghost raw = out@;
    let keep: u8 = (n % 8) as u8;
    if keep != 0 {
        let last: usize = out.len() - 1;
        let masked: u8 = out[last] & (0xffu8 >> (8 - keep));
        out.set(last, masked);
        proof {
            lemma_low_bits_kept(raw[last as int], keep);
        }
    }
    assert forall|k: int| 0 <= k < out@.len() implies out@[k] == packed_byte(bits, k) by {
        reveal(packed_byte);
        lemma_byte_from_bits(out@[k]);
        assert forall|j: int| 0 <= j < 8 implies bit_at(out@[k], j) == padded_bit(
            bits,
            8 * k + j,
        ) by {
            let i = 8 * k + j;
            if i < bits.len() {
                assert(bit_at(raw[i / 8], i % 8) == bits[i]);
            }
        }
        assert(bit_at(out@[k], 0) == padded_bit(bits, 8 * k + 0));
    }
    assert(out@ =~= pack_lsb_first(bits));
    out
}

} // verus!
