//! The image header record and its thirteen-byte layout.

use crate::bytes::{be_bytes, be_value, lemma_be_round_trip, push_u32_be};
use vstd::prelude::*;

verus! {

/// The fields of the image header, in the order in which they are written.
#[derive(Clone, Copy, Debug, PartialEq, Eq, Structural)]
pub struct ImageHeader {
    pub width: u32,
    pub height: u32,
    pub bit_depth: u8,
    pub colour_type: u8,
    pub compression_method: u8,
    pub filter_method: u8,
    pub interlace_method: u8,
}

/// The record's layout: width and height as big-endian integers, then the
/// five one-byte fields, with no gaps.
pub open spec fn spec_serialize_header(header: ImageHeader) -> Seq<u8> {
    be_bytes(header.width) + be_bytes(header.height) + seq![
        header.bit_depth,
        header.colour_type,
        header.compression_method,
        header.filter_method,
        header.interlace_method,
    ]
}

/// The header of an image of one pixel: eight-bit grayscale, with the only
/// compression and filter methods there are and no interlacing.
pub open spec fn spec_single_pixel_header() -> ImageHeader {
    ImageHeader {
        width: 1,
        height: 1,
        bit_depth: 8,
        colour_type: 0,
        compression_method: 0,
        filter_method: 0,
        interlace_method: 0,
    }
}

/// The header that a thirteen-byte record spells.
pub open spec fn spec_parse_header(record: Seq<u8>) -> ImageHeader {
    ImageHeader {
        width: be_value(record) as u32,
        height: be_value(record.subrange(4, 8)) as u32,
        bit_depth: record[8],
        colour_type: record[9],
        compression_method: record[10],
        filter_method: record[11],
        interlace_method: record[12],
    }
}

/// A record is thirteen bytes, and reading it back field by field gives the
/// header that was written.
pub proof fn lemma_header_round_trip(header: ImageHeader)
    ensures
        spec_serialize_header(header).len() == 13,
        spec_parse_header(spec_serialize_header(header)) == header,
{
    let record = spec_serialize_header(header);
    lemma_be_round_trip(header.width);
    lemma_be_round_trip(header.height);
    assert(record.subrange(4, 8) =~= be_bytes(header.height));
    assert(record[0] == be_bytes(header.width)[0]);
    assert(record[1] == be_bytes(header.width)[1]);
    assert(record[2] == be_bytes(header.width)[2]);
    assert(record[3] == be_bytes(header.width)[3]);
}

impl ImageHeader {
    /// The header of a one-pixel, eight-bit grayscale image.
    pub fn single_pixel() -> (header: ImageHeader)
        ensures
            header == spec_single_pixel_header(),
    {
        ImageHeader {
            width: 1,
            height: 1,
            bit_depth: 8,
            colour_type: 0,
            compression_method: 0,
            filter_method: 0,
            interlace_method: 0,
        }
    }
}

/// Writes the header record field by field.
pub fn serialize_header(header: &ImageHeader) -> (out: Vec<u8>)
    ensures
        out@ == spec_serialize_header(*header),
        out@.len() == 13,
{
    let mut out: Vec<u8> = Vec::new();
    push_u32_be(&mut out, header.width);
    push_u32_be(&mut out, header.height);
    out.push(header.bit_depth);
    out.push(header.colour_type);
    out.push(header.compression_method);
    out.push(header.filter_method);
    out.push(header.interlace_method);
    assert(out@ =~= spec_serialize_header(*header));
    out
}

} // verus!
