//! Tests for the sprite file decoder.

use arcsys::bbcf::hip::{
    indexed_to_run_encoded, raw_to_run_encoded, run_encode_indexes, BBCFHip, BBCFHipImage,
};
use arcsys::{Error, IndexedImage, RGBAColor};

fn header(palette_size: u32, tex_w: u32, tex_h: u32, extra_size: u32) -> Vec<u8> {
    let mut b = Vec::new();
    b.extend(b"HIP\0");
    b.extend(7u32.to_le_bytes()); // version
    b.extend(0u32.to_le_bytes()); // file size, not read back
    b.extend(palette_size.to_le_bytes());
    b.extend(tex_w.to_le_bytes());
    b.extend(tex_h.to_le_bytes());
    b.extend(0x55u32.to_le_bytes()); // unknown
    b.extend(extra_size.to_le_bytes());
    b
}

#[test]
fn raw_image_decodes_runs() {
    let mut bytes = header(0, 2, 2, 0);
    // one run record: ARGB color repeated 4 times
    bytes.extend([0x40u8, 0x10, 0x20, 0x30, 4]);
    let hip = BBCFHip::parse(&bytes).expect("sprite decode");
    assert_eq!(hip.version, 7);
    assert_eq!(hip.texture_dimensions, (2, 2));
    assert_eq!(hip.image.width(), 2);
    assert_eq!(hip.image.height(), 2);
    match &hip.image {
        BBCFHipImage::Raw { data, .. } => {
            assert_eq!(data.len(), 4);
            assert_eq!(data[0], RGBAColor { red: 0x10, green: 0x20, blue: 0x30, alpha: 0x40 });
        },
        _ => panic!("expected a raw image"),
    }
}

#[test]
fn indexed_image_with_extra_header_and_trailing_zeros() {
    let mut bytes = header(2, 64, 64, 0x14);
    // extra header: actual dimensions 1 x 3, offsets, 4 opaque bytes
    bytes.extend(1u32.to_le_bytes());
    bytes.extend(3u32.to_le_bytes());
    bytes.extend(9u32.to_le_bytes());
    bytes.extend(11u32.to_le_bytes());
    bytes.extend([0xAAu8, 0xBB, 0xCC, 0xDD]);
    // palette: two BGRA colors
    bytes.extend([1u8, 2, 3, 4]);
    bytes.extend([5u8, 6, 7, 8]);
    // index runs: index 1 repeated 3 times
    bytes.extend([1u8, 3]);
    // the tolerated two trailing zero bytes
    bytes.extend([0u8, 0]);
    let hip = BBCFHip::parse(&bytes).expect("sprite decode");
    assert_eq!(hip.image.width(), 1);
    assert_eq!(hip.image.height(), 3);
    let extra = hip.extra_header_data.as_ref().expect("extra header");
    assert_eq!(extra.x_offset, 9);
    assert_eq!(extra.y_offset, 11);
    assert_eq!(extra.size(), 0x14);
    match &hip.image {
        BBCFHipImage::Indexed { data, .. } => {
            assert_eq!(data.palette.len(), 2);
            // palette colors are stored blue, green, red, alpha
            assert_eq!(data.palette[0], RGBAColor { red: 3, green: 2, blue: 1, alpha: 4 });
            assert_eq!(data.image, vec![1, 1, 1]);
        },
        _ => panic!("expected an indexed image"),
    }
}

#[test]
fn sprite_magic_mismatch_is_parse_error() {
    let mut bytes = header(0, 1, 1, 0);
    bytes[0] = b'X';
    bytes.extend([0u8, 0, 0, 0, 1]);
    assert!(matches!(BBCFHip::parse(&bytes), Err(Error::Parser(_))));
}

#[test]
fn overshooting_run_is_a_parse_error() {
    // the single run overshoots the pixel count and the stream ends
    let mut bytes = header(0, 2, 2, 0);
    bytes.extend([0u8, 0, 0, 0, 5]);
    assert!(matches!(BBCFHip::parse(&bytes), Err(Error::Parser(_))));
}

#[test]
fn leftover_bytes_are_a_parse_error() {
    let mut bytes = header(0, 2, 2, 0);
    bytes.extend([0x40u8, 0x10, 0x20, 0x30, 4]);
    bytes.push(1);
    assert!(matches!(BBCFHip::parse(&bytes), Err(Error::Parser(_))));
}


#[test]
fn index_runs_encode_maximal_runs() {
    assert_eq!(run_encode_indexes(&[]), Vec::<u8>::new());
    assert_eq!(run_encode_indexes(&[1, 1, 1, 2]), vec![1, 3, 2, 1]);
    let long = vec![9u8; 300];
    assert_eq!(run_encode_indexes(&long), vec![9, 255, 9, 45]);
    let exact = vec![9u8; 510];
    assert_eq!(run_encode_indexes(&exact), vec![9, 255, 9, 255]);
}

#[test]
fn raw_runs_encode_argb_records() {
    let a = RGBAColor { red: 1, green: 2, blue: 3, alpha: 4 };
    let b = RGBAColor { red: 5, green: 6, blue: 7, alpha: 8 };
    let out = raw_to_run_encoded(&[a, a, b]);
    assert_eq!(out, vec![4, 1, 2, 3, 2, 8, 5, 6, 7, 1]);
}

#[test]
fn indexed_encoding_leads_with_palette() {
    let img = IndexedImage {
        palette: vec![RGBAColor { red: 1, green: 2, blue: 3, alpha: 4 }],
        image: vec![0, 0],
    };
    assert_eq!(indexed_to_run_encoded(&img), vec![1, 2, 3, 4, 0, 2]);
}

#[test]
fn hip_rebuild_writes_header_then_runs() {
    // A raw 2x2 sprite without an extra header block: the rebuilder
    // writes the fixed header, the dimensions once more, then the
    // run-length-encoded color records.
    let hip = BBCFHip {
        version: 7,
        texture_dimensions: (2, 2),
        unknown: 0x55,
        extra_header_data: None,
        image: BBCFHipImage::Raw {
            width: 2,
            height: 2,
            data: vec![RGBAColor { red: 0x10, green: 0x20, blue: 0x30, alpha: 0x40 }; 4],
        },
    };
    let bytes = hip.to_bytes();
    let mut expected = Vec::new();
    expected.extend(b"HIP\0");
    expected.extend(7u32.to_le_bytes()); // version
    expected.extend(0x25u32.to_le_bytes()); // file size: fixed header + one run record
    expected.extend(0u32.to_le_bytes()); // palette size
    expected.extend(2u32.to_le_bytes()); // width
    expected.extend(2u32.to_le_bytes()); // height
    expected.extend(0x55u32.to_le_bytes()); // unknown
    expected.extend(0u32.to_le_bytes()); // no extra header
    expected.extend(2u32.to_le_bytes()); // width, repeated
    expected.extend(2u32.to_le_bytes()); // height, repeated
    expected.extend([0x40u8, 0x10, 0x20, 0x30, 4]); // one ARGB run record
    assert_eq!(bytes, expected);
}

#[test]
fn hip_rebuild_with_extra_header_block() {
    // An indexed 1x2 sprite with an extra header block: the block's four
    // dwords and opaque remainder sit between the fixed header and the
    // image dimensions.
    let hip = BBCFHip {
        version: 1,
        texture_dimensions: (8, 8),
        unknown: 9,
        extra_header_data: Some(arcsys::bbcf::hip::BBCFHipExtra {
            x_offset: 3,
            y_offset: 4,
            extra: vec![0xAA, 0xBB],
        }),
        image: BBCFHipImage::Indexed {
            width: 1,
            height: 2,
            data: IndexedImage {
                palette: vec![RGBAColor { red: 1, green: 2, blue: 3, alpha: 4 }],
                image: vec![0, 0],
            },
        },
    };
    let bytes = hip.to_bytes();
    let mut expected = Vec::new();
    expected.extend(b"HIP\0");
    expected.extend(1u32.to_le_bytes()); // version
    let image_payload = 4 + 2; // palette RGBA + one index run record
    let extra_size = 0x10u32 + 2;
    expected.extend((0x20 + extra_size + image_payload).to_le_bytes()); // file size
    expected.extend(1u32.to_le_bytes()); // palette size
    expected.extend(8u32.to_le_bytes()); // texture width
    expected.extend(8u32.to_le_bytes()); // texture height
    expected.extend(9u32.to_le_bytes()); // unknown
    expected.extend(extra_size.to_le_bytes());
    expected.extend(1u32.to_le_bytes()); // image width
    expected.extend(2u32.to_le_bytes()); // image height
    expected.extend(3u32.to_le_bytes()); // x offset
    expected.extend(4u32.to_le_bytes()); // y offset
    expected.extend([0xAAu8, 0xBB]); // opaque remainder
    expected.extend(1u32.to_le_bytes()); // image width, repeated
    expected.extend(2u32.to_le_bytes()); // image height, repeated
    expected.extend([1u8, 2, 3, 4]); // palette color RGBA
    expected.extend([0u8, 2]); // one index run record
    assert_eq!(bytes, expected);
}
