//! Encoder for the smallest useful PNG: one grayscale pixel.
//!
//! The modules follow the file format from the inside out: checksums, the
//! bit-level DEFLATE block, the zlib container, chunk framing, the image
//! header record and finally the whole file. Two more hold no code that
//! runs: `inflate` says what a reader makes of the compressed stream and
//! proves that it gets the data back, `layout` proves what stands where in
//! the finished file.

pub mod bits;
pub mod bytes;
pub mod checksum;
pub mod chunk;
pub mod deflate;
pub mod header;
pub mod inflate;
pub mod layout;
pub mod png;
pub mod zlib;
