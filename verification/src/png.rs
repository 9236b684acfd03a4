//! The whole file: signature, header chunk, image data chunk, end marker.

use crate::bytes::push_all;
use crate::chunk::{chunk, spec_chunk};
use crate::deflate::lemma_block_bits_len;
use crate::header::{
    serialize_header, spec_serialize_header, spec_single_pixel_header, ImageHeader,
};
use crate::layout::{end_tag_at, lemma_no_end_tag};
use crate::zlib::{spec_zlib, zlib};
use vstd::prelude::*;

verus! {

/// The eight bytes with which every PNG file begins.
pub const SIGNATURE: [u8; 8] = [0x89, 0x50, 0x4e, 0x47, 0x0d, 0x0a, 0x1a, 0x0a];

/// The tag of the image header chunk, `IHDR`.
pub const IHDR: [u8; 4] = [0x49, 0x48, 0x44, 0x52];

/// The tag of the image data chunk, `IDAT`.
pub const IDAT: [u8; 4] = [0x49, 0x44, 0x41, 0x54];

/// The tag of the end marker chunk, `IEND`.
pub const IEND: [u8; 4] = [0x49, 0x45, 0x4e, 0x44];

/// The image data before compression: one row, which is the filter type
/// "none" followed by the pixel's sample.
pub open spec fn spec_pixel_row(shade: u8) -> Seq<u8> {
    seq![0u8, shade]
}

/// The end marker chunk, or nothing where it is left out.
pub open spec fn end_marker(disable_iend: bool) -> Seq<u8> {
    if disable_iend {
        Seq::empty()
    } else {
        spec_chunk(IEND@, Seq::empty())
    }
}

/// The file for one pixel of the given shade.
pub open spec fn spec_generate(shade: u8, disable_adler: bool, disable_iend: bool) -> Seq<u8> {
    SIGNATURE@ + spec_chunk(IHDR@, spec_serialize_header(spec_single_pixel_header()))
        + spec_chunk(IDAT@, spec_zlib(spec_pixel_row(shade), disable_adler)) + end_marker(
        disable_iend,
    )
}

/// Builds the PNG file of a single grayscale pixel. `disable_adler` leaves
/// the checksum out of the compressed stream and `disable_iend` the end
/// marker out of the file; either makes a file that strict readers reject.
pub fn generate(shade: u8, disable_adler: bool, disable_iend: bool) -> (png: Vec<u8>)
    ensures
        png@ == spec_generate(shade, disable_adler, disable_iend),
        disable_iend ==> forall|i: int| !end_tag_at(png@, i),
{
    let mut png: Vec<u8> = Vec::new();
    push_all(&mut png, SIGNATURE.as_slice());

    let header = serialize_header(&ImageHeader::single_pixel());
    let ihdr = chunk(IHDR.as_slice(), header.as_slice());
    push_all(&mut png, ihdr.as_slice());

    let row: [u8; 2] = [0, shade];
    proof {
        lemma_block_bits_len(row@);
        assert(row@ =~= spec_pixel_row(shade));
    }
    let stream = zlib(row.as_slice(), disable_adler);
    let idat = chunk(IDAT.as_slice(), stream.as_slice());
    push_all(&mut png, idat.as_slice());

    if !disable_iend {
        let empty: [u8; 0] = [];
        assert(empty@ =~= Seq::<u8>::empty());
        let iend = chunk(IEND.as_slice(), empty.as_slice());
        push_all(&mut png, iend.as_slice());
    }
    assert(png@ =~= spec_generate(shade, disable_adler, disable_iend));
    proof {
        lemma_no_end_tag(shade, disable_adler);
    }
    png
}

} // verus!
