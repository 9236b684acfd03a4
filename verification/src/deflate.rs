//! A DEFLATE encoder that writes one final block of fixed-Huffman literals.

use crate::bits::{
    bit_capacity, bits_of, msb_first, pack, pack_lsb_first, packed_byte, BitBuffer,
};
use vstd::prelude::*;

verus! {

/// A code word of the fixed Huffman table: the lowest `width` bits of
/// `value`, sent most significant bit first.
#[derive(Clone, Copy, Debug)]
pub struct HuffmanCode {
    pub value: u32,
    pub width: u8,
}

/// The bits of a code word in the order in which they enter the stream.
pub open spec fn code_bits(code: HuffmanCode) -> Seq<bool> {
    msb_first(code.value, code.width as nat)
}

/// The fixed table for literals: bytes below 144 have the eight-bit codes
/// from `0011_0000` up, the others the nine-bit codes from `1_1001_0000` up.
pub open spec fn spec_literal_code(d: u8) -> HuffmanCode {
    if d < 144 {
        HuffmanCode { value: (0x30 + d) as u32, width: 8 }
    } else {
        HuffmanCode { value: (0x190 + (d - 144)) as u32, width: 9 }
    }
}

/// The code of the end-of-block symbol, 256: seven zero bits.
pub open spec fn spec_end_of_block_code() -> HuffmanCode {
    HuffmanCode { value: 0, width: 7 }
}

/// The code words of all of `data`, one after the other.
pub open spec fn literal_bits(data: Seq<u8>) -> Seq<bool>
    decreases data.len(),
{
    if data.len() == 0 {
        Seq::empty()
    } else {
        code_bits(spec_literal_code(data.first())) + literal_bits(data.drop_first())
    }
}

/// The block header: the final-block flag set, then block type 1 (fixed
/// Huffman codes) as two bits, the lower first.
pub open spec fn block_header_bits() -> Seq<bool> {
    seq![true, true, false]
}

/// The whole block as bits: header, literals, end of block.
pub open spec fn block_bits(data: Seq<u8>) -> Seq<bool> {
    block_header_bits() + literal_bits(data) + code_bits(spec_end_of_block_code())
}

/// The DEFLATE stream for `data`: the block's bits packed into bytes.
pub open spec fn spec_deflate(data: Seq<u8>) -> Seq<u8> {
    pack_lsb_first(block_bits(data))
}

/// Looks a literal byte up in the fixed Huffman table.
pub fn literal_code(d: u8) -> (code: HuffmanCode)
    ensures
        code == spec_literal_code(d),
{
    if d < 144 {
        HuffmanCode { value: 0x30 + d as u32, width: 8 }
    } else {
        HuffmanCode { value: 0x190 + (d - 144) as u32, width: 9 }
    }
}

/// The code of the end-of-block symbol.
pub fn end_of_block_code() -> (code: HuffmanCode)
    ensures
        code == spec_end_of_block_code(),
{
    HuffmanCode { value: 0, width: 7 }
}

/// The code words of a concatenation are the code words of its parts.
pub proof fn lemma_literal_bits_concat(a: Seq<u8>, b: Seq<u8>)
    ensures
        literal_bits(a + b) == literal_bits(a) + literal_bits(b),
    decreases a.len(),
{
    if a.len() == 0 {
        assert(a + b =~= b);
    } else {
        lemma_literal_bits_concat(a.drop_first(), b);
        assert((a + b).drop_first() =~= a.drop_first() + b);
        assert(literal_bits(a + b) =~= literal_bits(a) + literal_bits(b));
    }
}

/// A single byte gives its own code word.
pub proof fn lemma_literal_bits_one(d: u8)
    ensures
        literal_bits(seq![d]) == code_bits(spec_literal_code(d)),
{
    let one = seq![d];
    assert(one.drop_first() =~= Seq::<u8>::empty());
    assert(literal_bits(one.drop_first()) =~= Seq::<bool>::empty());
    assert(literal_bits(one) =~= code_bits(spec_literal_code(d)));
}

/// Every literal takes eight or nine bits.
pub proof fn lemma_literal_bits_len(data: Seq<u8>)
    ensures
        8 * data.len() <= literal_bits(data).len() <= 9 * data.len(),
    decreases data.len(),
{
    if data.len() > 0 {
        lemma_literal_bits_len(data.drop_first());
    }
}

/// A block takes ten bits besides its literals: three of header, seven for
/// the end.
pub proof fn lemma_block_bits_len(data: Seq<u8>)
    ensures
        block_bits(data).len() == 10 + literal_bits(data).len(),
        10 + 8 * data.len() <= block_bits(data).len() <= 10 + 9 * data.len(),
{
    lemma_literal_bits_len(data);
}

/// The end-of-block code is seven zero bits.
pub proof fn lemma_end_of_block_bits()
    ensures
        code_bits(spec_end_of_block_code()) == Seq::new(7, |i: int| false),
{
    let word = code_bits(spec_end_of_block_code());
    assert forall|i: int| 0 <= i < 7 implies word[i] == false by {
        let shift = (6 - i) as u32;
        assert((0u32 >> shift) & 1 == 0) by (bit_vector);
    }
    assert(word =~= Seq::new(7, |i: int| false));
}

/// Nothing to compress gives the three header bits and the seven bits of the
/// end-of-block code: ten bits, which fill two bytes.
pub proof fn lemma_deflate_empty()
    ensures
        block_bits(Seq::empty()) == seq![
            true,
            true,
            false,
            false,
            false,
            false,
            false,
            false,
            false,
            false,
        ],
        spec_deflate(Seq::empty()) == seq![0x03u8, 0x00u8],
{
    lemma_end_of_block_bits();
    let bits = block_bits(Seq::empty());
    assert(bits =~= seq![true, true, false, false, false, false, false, false, false, false]);
    assert(packed_byte(bits, 0) == 3 && packed_byte(bits, 1) == 0) by {
        reveal(packed_byte);
    }
    assert(spec_deflate(Seq::empty()) =~= seq![0x03u8, 0x00u8]);
}

/// The stream has a byte for every eight bits of the block or part of
/// eight: never fewer bytes than the data and two more, since nothing is
/// compressed.
pub proof fn lemma_deflate_len(data: Seq<u8>)
    ensures
        spec_deflate(data).len() == (block_bits(data).len() + 7) / 8,
        data.len() + 2 <= spec_deflate(data).len() <= (9 * data.len() + 17) / 8,
{
    lemma_block_bits_len(data);
}

/// Appends a code word to the buffer, most significant bit first.
fn emit(buf: &mut BitBuffer, code: HuffmanCode)
    requires
        code.width <= 32,
        bits_of(*old(buf)).len() + code.width <= bit_capacity(),
    ensures
        bits_of(*final(buf)) == bits_of(*old(buf)) + code_bits(code),
{
    buf.extend_msb_tail(code.value, 32 - code.width as usize);
}

/// Encodes `data` as one final DEFLATE block of fixed-Huffman literals. The
/// block is put together bit by bit in a buffer, which must be able to hold
/// all of its bits.
pub fn deflate(data: &[u8]) -> (out: Vec<u8>)
    requires
        block_bits(data@).len() <= bit_capacity(),
    ensures
        out@ == spec_deflate(data@),
{
    let mut buf = BitBuffer::new();
    buf.push(true);
    buf.push(true);
    buf.push(false);
    assert(bits_of(buf) =~= block_header_bits());
    assert(data@.subrange(0, 0) =~= Seq::<u8>::empty());
    let mut i: usize = 0;
    while i < data.len()
        invariant
            i <= data@.len(),
            block_bits(data@).len() <= bit_capacity(),
            bits_of(buf) == block_header_bits() + literal_bits(data@.subrange(0, i as int)),
        decreases data@.len() - i,
    {
        let code = literal_code(data[i]);
        proof {
            let done = data@.subrange(0, i as int);
            let rest = data@.subrange(i as int + 1, data@.len() as int);
            assert(data@.subrange(0, i as int + 1) =~= done + seq![data@[i as int]]);
            assert(data@ =~= data@.subrange(0, i as int + 1) + rest);
            lemma_literal_bits_concat(done, seq![data@[i as int]]);
            lemma_literal_bits_concat(data@.subrange(0, i as int + 1), rest);
            lemma_literal_bits_one(data@[i as int]);
        }
        emit(&mut buf, code);
        i += 1;
        assert(bits_of(buf) =~= block_header_bits() + literal_bits(data@.subrange(0, i as int)));
    }
    assert(data@.subrange(0, i as int) =~= data@);
    emit(&mut buf, end_of_block_code());
    pack(&buf)
}

} // verus!
