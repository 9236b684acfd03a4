use tiny_png::bytes::{push_all, push_u32_be};
use tiny_png::chunk::chunk;
use tiny_png::header::{serialize_header, ImageHeader};

#[test]
fn push_u32_be_writes_most_significant_byte_first() {
    let mut out = vec![0xaa];
    push_u32_be(&mut out, 0x0102_0304);
    assert_eq!(out, vec![0xaa, 1, 2, 3, 4]);
    push_u32_be(&mut out, 0);
    push_u32_be(&mut out, u32::MAX);
    assert_eq!(out[5..], [0, 0, 0, 0, 0xff, 0xff, 0xff, 0xff]);
}

#[test]
fn push_u32_be_agrees_with_std() {
    for x in [0u32, 1, 0xff, 0x100, 0xffff, 0x1_0000, 0xdead_beef, 0x8000_0000, u32::MAX] {
        let mut out = Vec::new();
        push_u32_be(&mut out, x);
        assert_eq!(out, x.to_be_bytes().to_vec());
    }
}

#[test]
fn push_all_appends_in_order() {
    let mut out = vec![1, 2];
    push_all(&mut out, &[3, 4, 5]);
    push_all(&mut out, &[]);
    assert_eq!(out, vec![1, 2, 3, 4, 5]);
}

#[test]
fn end_marker_chunk_has_the_known_checksum() {
    let framed = chunk(b"IEND", &[]);
    assert_eq!(
        framed,
        vec![0, 0, 0, 0, 0x49, 0x45, 0x4e, 0x44, 0xae, 0x42, 0x60, 0x82]
    );
}

#[test]
fn chunk_checksum_covers_tag_and_payload() {
    let framed = chunk(b"tEXt", b"hi");
    assert_eq!(
        framed,
        vec![0, 0, 0, 2, 0x74, 0x45, 0x58, 0x74, 0x68, 0x69, 0x75, 0x69, 0xe6, 0xdf]
    );
}

#[test]
fn chunk_checksum_of_check_string() {
    // The catalogue's check value for CRC-32/ISO-HDLC.
    let framed = chunk(b"1234", b"56789");
    assert_eq!(framed[framed.len() - 4..], [0xcb, 0xf4, 0x39, 0x26]);
}

#[test]
fn chunk_length_and_length_field() {
    for n in [0usize, 1, 2, 13, 255, 256, 257, 70_000] {
        let payload: Vec<u8> = (0..n).map(|i| (i * 7 % 251) as u8).collect();
        let framed = chunk(b"IDAT", &payload);
        assert_eq!(framed.len(), 8 + n + 4);
        assert_eq!(framed[..4], (n as u32).to_be_bytes());
        assert_eq!(framed[4..8], *b"IDAT");
        assert_eq!(framed[8..8 + n], payload[..]);
    }
}

#[test]
fn chunk_checksum_depends_on_payload() {
    let a = chunk(b"IDAT", &[0]);
    let b = chunk(b"IDAT", &[1]);
    assert_ne!(a[a.len() - 4..], b[b.len() - 4..]);
    // A checksum is not a copy of what it covers.
    assert_ne!(a[a.len() - 4..], *b"IDAT");
}

#[test]
fn header_record_is_thirteen_bytes_in_field_order() {
    let header = ImageHeader::single_pixel();
    assert_eq!(
        header,
        ImageHeader {
            width: 1,
            height: 1,
            bit_depth: 8,
            colour_type: 0,
            compression_method: 0,
            filter_method: 0,
            interlace_method: 0,
        }
    );
    assert_eq!(
        serialize_header(&header),
        vec![0, 0, 0, 1, 0, 0, 0, 1, 8, 0, 0, 0, 0]
    );
}

#[test]
fn header_record_is_big_endian_without_padding() {
    let header = ImageHeader {
        width: 0x0102_0304,
        height: 0xa0b0_c0d0,
        bit_depth: 16,
        colour_type: 6,
        compression_method: 7,
        filter_method: 8,
        interlace_method: 9,
    };
    assert_eq!(
        serialize_header(&header),
        vec![1, 2, 3, 4, 0xa0, 0xb0, 0xc0, 0xd0, 16, 6, 7, 8, 9]
    );
}
