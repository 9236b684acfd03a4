use miniz_oxide::inflate::{decompress_to_vec, decompress_to_vec_zlib};
use tiny_png::deflate::{deflate, end_of_block_code, literal_code};
use tiny_png::zlib::zlib;

fn sample_inputs() -> Vec<Vec<u8>> {
    let mut inputs = vec![
        vec![],
        vec![0],
        vec![255],
        vec![143],
        vec![144],
        vec![143, 144],
        vec![0; 5],
        vec![0xff; 5],
        vec![0; 1000],
        vec![0xff; 1000],
        b"Hello, world!".to_vec(),
        (0..=255u8).collect(),
        (0..=255u8).rev().collect(),
    ];
    for shade in 0..=255u8 {
        inputs.push(vec![0, shade]);
    }
    inputs
}

#[test]
fn literal_codes_follow_the_fixed_table() {
    assert_eq!((literal_code(0).value, literal_code(0).width), (0b0011_0000, 8));
    assert_eq!((literal_code(1).value, literal_code(1).width), (0b0011_0001, 8));
    assert_eq!((literal_code(143).value, literal_code(143).width), (0b1011_1111, 8));
    assert_eq!((literal_code(144).value, literal_code(144).width), (0b1_1001_0000, 9));
    assert_eq!((literal_code(200).value, literal_code(200).width), (0b1_1100_1000, 9));
    assert_eq!((literal_code(255).value, literal_code(255).width), (0b1_1111_1111, 9));
}

#[test]
fn end_of_block_is_seven_zero_bits() {
    let code = end_of_block_code();
    assert_eq!((code.value, code.width), (0, 7));
}

#[test]
fn deflate_of_nothing_is_header_and_end_of_block() {
    assert_eq!(deflate(&[]), vec![0b0000_0011, 0]);
}

#[test]
fn deflate_known_streams() {
    assert_eq!(deflate(&[0]), vec![99, 0, 0]);
    assert_eq!(deflate(&[255]), vec![251, 15, 0]);
    assert_eq!(deflate(b"a"), vec![75, 4, 0]);
    assert_eq!(deflate(b"abc"), vec![75, 76, 74, 6, 0]);
    assert_eq!(deflate(&[0, 128]), vec![99, 104, 0, 0]);
    assert_eq!(deflate(&[143, 144]), vec![235, 159, 0, 0]);
    assert_eq!(deflate(&[0; 5]), vec![99, 96, 96, 96, 96, 0, 0]);
    assert_eq!(deflate(&[255; 5]), vec![251, 255, 255, 255, 255, 255, 0]);
    assert_eq!(
        deflate(b"Hello, world!"),
        vec![243, 72, 205, 201, 201, 215, 81, 40, 207, 47, 202, 73, 81, 4, 0]
    );
}

#[test]
fn deflate_length_counts_eight_or_nine_bits_a_byte() {
    for input in sample_inputs() {
        let nine = input.iter().filter(|d| **d >= 144).count();
        let bits = 3 + 8 * input.len() + nine + 7;
        assert_eq!(deflate(&input).len(), (bits + 7) / 8);
    }
}

#[test]
fn deflate_stream_inflates_to_the_input() {
    for input in sample_inputs() {
        assert_eq!(decompress_to_vec(&deflate(&input)).ok(), Some(input));
    }
}

#[test]
fn zlib_known_streams() {
    assert_eq!(zlib(&[], false), vec![0x78, 0x01, 0x03, 0x00, 0, 0, 0, 1]);
    assert_eq!(zlib(&[], true), vec![0x78, 0x01, 0x03, 0x00]);
    assert_eq!(
        zlib(&[0, 128], false),
        vec![0x78, 0x01, 0x63, 0x68, 0, 0, 0x00, 0x82, 0x00, 0x81]
    );
    assert_eq!(zlib(&[0, 128], true), vec![0x78, 0x01, 0x63, 0x68, 0, 0]);
    assert_eq!(
        zlib(b"abc", false),
        vec![0x78, 0x01, 0x4b, 0x4c, 0x4a, 0x06, 0x00, 0x02, 0x4d, 0x01, 0x27]
    );
}

#[test]
fn zlib_header_is_a_multiple_of_31() {
    let stream = zlib(&[7], false);
    assert_eq!(stream[0] & 0x0f, 8);
    assert_eq!(stream[0] >> 4, 7);
    assert_eq!((stream[0] as u32 * 256 + stream[1] as u32) % 31, 0);
    assert_eq!(stream[1] & 0x20, 0);
}

#[test]
fn adler_of_nothing_is_one() {
    let stream = zlib(&[], false);
    assert_eq!(stream[stream.len() - 4..], [0, 0, 0, 1]);
}

#[test]
fn adler_known_values() {
    let stream = zlib(b"Wikipedia", false);
    assert_eq!(stream[stream.len() - 4..], [0x11, 0xe6, 0x03, 0x98]);
    let stream = zlib(&[0, 1, 2, 3, 4, 5], false);
    assert_eq!(stream[stream.len() - 4..], [0x00, 0x29, 0x00, 0x10]);
    // Long enough for both sums to wrap around 65521.
    let stream = zlib(&[0xff; 6000], false);
    assert_eq!(stream[stream.len() - 4..], [0xa4, 0x97, 0x59, 0xea]);
}

#[test]
fn zlib_stream_decompresses_to_the_input() {
    for input in sample_inputs() {
        assert_eq!(decompress_to_vec_zlib(&zlib(&input, false)).ok(), Some(input));
    }
}

#[test]
fn zlib_without_adler_is_four_bytes_shorter() {
    for input in sample_inputs() {
        let with = zlib(&input, false);
        let without = zlib(&input, true);
        assert_eq!(without.len() + 4, with.len());
        assert_eq!(with[..without.len()], without[..]);
    }
}

#[test]
fn zlib_without_adler_is_rejected() {
    for input in sample_inputs() {
        assert!(decompress_to_vec_zlib(&zlib(&input, true)).is_err());
    }
}
