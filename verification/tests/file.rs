use miniz_oxide::inflate::decompress_to_vec_zlib;
use tiny_png::png::{generate, IDAT, IEND, IHDR, SIGNATURE};

fn contains(haystack: &[u8], needle: &[u8]) -> bool {
    haystack.windows(needle.len()).any(|w| w == needle)
}

#[test]
fn tags_are_ascii() {
    assert_eq!(IHDR, *b"IHDR");
    assert_eq!(IDAT, *b"IDAT");
    assert_eq!(IEND, *b"IEND");
    assert_eq!(SIGNATURE, [0x89, b'P', b'N', b'G', b'\r', b'\n', 0x1a, b'\n']);
}

#[test]
fn mid_gray_pixel_file() {
    let png = generate(128, false, false);
    assert_eq!(
        png,
        vec![
            137, 80, 78, 71, 13, 10, 26, 10, 0, 0, 0, 13, 73, 72, 68, 82, 0, 0, 0, 1, 0, 0, 0, 1,
            8, 0, 0, 0, 0, 58, 126, 155, 85, 0, 0, 0, 10, 73, 68, 65, 84, 120, 1, 99, 104, 0, 0,
            0, 130, 0, 129, 76, 23, 215, 223, 0, 0, 0, 0, 73, 69, 78, 68, 174, 66, 96, 130
        ]
    );
}

#[test]
fn mid_gray_pixel_file_decodes() {
    let png = generate(128, false, false);
    assert_eq!(png[..8], [0x89, 0x50, 0x4e, 0x47, 0x0d, 0x0a, 0x1a, 0x0a]);

    assert_eq!(png[8..12], [0, 0, 0, 13]);
    assert_eq!(png[12..16], *b"IHDR");
    let header = &png[16..29];
    assert_eq!(u32::from_be_bytes([header[0], header[1], header[2], header[3]]), 1);
    assert_eq!(u32::from_be_bytes([header[4], header[5], header[6], header[7]]), 1);
    assert_eq!(header[8], 8);
    assert_eq!(header[9], 0);
    assert_eq!(header[10..], [0, 0, 0]);

    let length = u32::from_be_bytes([png[33], png[34], png[35], png[36]]) as usize;
    assert_eq!(png[37..41], *b"IDAT");
    let stream = &png[41..41 + length];
    assert_eq!(decompress_to_vec_zlib(stream).ok(), Some(vec![0, 128]));
}

#[test]
fn files_without_checksum_or_end_marker() {
    assert_eq!(
        generate(128, true, false),
        vec![
            137, 80, 78, 71, 13, 10, 26, 10, 0, 0, 0, 13, 73, 72, 68, 82, 0, 0, 0, 1, 0, 0, 0, 1,
            8, 0, 0, 0, 0, 58, 126, 155, 85, 0, 0, 0, 6, 73, 68, 65, 84, 120, 1, 99, 104, 0, 0,
            133, 176, 125, 169, 0, 0, 0, 0, 73, 69, 78, 68, 174, 66, 96, 130
        ]
    );
    assert_eq!(
        generate(128, false, true),
        vec![
            137, 80, 78, 71, 13, 10, 26, 10, 0, 0, 0, 13, 73, 72, 68, 82, 0, 0, 0, 1, 0, 0, 0, 1,
            8, 0, 0, 0, 0, 58, 126, 155, 85, 0, 0, 0, 10, 73, 68, 65, 84, 120, 1, 99, 104, 0, 0,
            0, 130, 0, 129, 76, 23, 215, 223
        ]
    );
    assert_eq!(generate(128, true, true).len(), 51);
}

#[test]
fn black_and_white_pixel_files() {
    let black = generate(0, false, false);
    assert_eq!(
        black[41..55],
        [120, 1, 99, 96, 0, 0, 0, 2, 0, 1, 115, 117, 1, 24]
    );
    let white = generate(255, false, false);
    assert_eq!(
        white[41..55],
        [120, 1, 99, 248, 15, 0, 1, 1, 1, 0, 138, 226, 83, 125]
    );
}

#[test]
fn every_shade_decompresses_to_its_pixel_row() {
    for shade in 0..=255u8 {
        for disable_iend in [false, true] {
            let png = generate(shade, false, disable_iend);
            assert_eq!(png[..8], SIGNATURE);
            assert_eq!(png[33..37], [0, 0, 0, 10]);
            assert_eq!(decompress_to_vec_zlib(&png[41..51]).ok(), Some(vec![0, shade]));
        }
    }
}

#[test]
fn end_marker_is_the_last_twelve_bytes() {
    for shade in [0u8, 1, 127, 128, 143, 144, 255] {
        for disable_adler in [false, true] {
            let with = generate(shade, disable_adler, false);
            let without = generate(shade, disable_adler, true);
            assert_eq!(with.len(), without.len() + 12);
            assert_eq!(with[..without.len()], without[..]);
            assert_eq!(
                with[without.len()..],
                [0, 0, 0, 0, 0x49, 0x45, 0x4e, 0x44, 0xae, 0x42, 0x60, 0x82]
            );
        }
    }
}

#[test]
fn no_end_tag_anywhere_when_left_out() {
    for shade in 0..=255u8 {
        for disable_adler in [false, true] {
            let png = generate(shade, disable_adler, true);
            assert!(!contains(&png, b"IEND"));
            assert!(contains(&generate(shade, disable_adler, false), b"IEND"));
        }
    }
}

#[test]
fn leaving_out_the_checksum_shortens_the_file_by_four() {
    for shade in 0..=255u8 {
        let with = generate(shade, false, true);
        let without = generate(shade, true, true);
        assert_eq!(with.len(), 55);
        assert_eq!(without.len(), 51);
        assert!(decompress_to_vec_zlib(&without[41..47]).is_err());
    }
}
