//! Tests for the archive formats, the palette file, and the helpers.

use arcsys::bbcf::hpl::BBCFHpl;
use arcsys::bbcf::pac::{BBCFPac, BBCFPacEntry};
use arcsys::helpers::{
    needed_to_align, needed_to_align_with_excess, pad_to_nearest, pad_to_nearest_with_excess,
    slice_consumed, string_to_fixed_bytes,
};
use arcsys::pac::{Pac, PacEntry, PacStyle, Compression, PAC_STYLE_ID_ONLY};
use arcsys::{arcsys_filename_hash, Error, RGBAColor};

#[test]
fn alignment_arithmetic() {
    assert_eq!(needed_to_align(0, 0x10), 0);
    assert_eq!(needed_to_align(1, 0x10), 15);
    assert_eq!(needed_to_align(16, 0x10), 0);
    assert_eq!(needed_to_align_with_excess(16, 0x10), 16);
    assert_eq!(needed_to_align_with_excess(17, 0x10), 15);
    assert_eq!(pad_to_nearest(17, 0x10), 32);
    assert_eq!(pad_to_nearest(32, 0x10), 32);
    assert_eq!(pad_to_nearest_with_excess(32, 0x10), 48);
}

#[test]
fn fixed_string_truncates_and_pads() {
    assert_eq!(string_to_fixed_bytes("abc", 6), vec![0x61, 0x62, 0x63, 0, 0, 0]);
    assert_eq!(string_to_fixed_bytes("abcdef", 4), vec![0x61, 0x62, 0x63, 0x64]);
}

#[test]
fn slice_consumed_checks_emptiness() {
    assert!(slice_consumed(&[]).is_ok());
    assert!(matches!(slice_consumed(&[1u8]), Err(Error::Parser(_))));
}

#[test]
fn color_channel_orders() {
    let c = RGBAColor { red: 1, green: 2, blue: 3, alpha: 4 };
    assert_eq!(c.to_rgba_slice(), [1, 2, 3, 4]);
    assert_eq!(c.to_argb_slice(), [4, 1, 2, 3]);
    assert_eq!(c.to_bgra_slice(), [3, 2, 1, 4]);
}

#[test]
fn filename_hash_folds_bytes() {
    // h = fold(h * 131 + byte) over the name's bytes, from zero
    assert_eq!(arcsys_filename_hash(""), 0);
    assert_eq!(arcsys_filename_hash("a"), 0x61);
    assert_eq!(arcsys_filename_hash("ab"), 0x61 * 131 + 0x62);
}

#[test]
fn hpl_round_trips() {
    let hpl = BBCFHpl {
        version: 0x125,
        unknown_data: (1, 2, 3, 4),
        palette: vec![
            RGBAColor { red: 10, green: 20, blue: 30, alpha: 40 },
            RGBAColor { red: 50, green: 60, blue: 70, alpha: 80 },
        ],
    };
    let bytes = hpl.to_bytes();
    assert_eq!(&bytes[..4], b"HPAL");
    assert_eq!(bytes.len(), 0x20 + 8);
    // colors are stored blue, green, red, alpha
    assert_eq!(&bytes[0x20..0x24], &[30, 20, 10, 40]);
    let back = BBCFHpl::parse(&bytes).expect("palette decode");
    assert_eq!(back.version, hpl.version);
    assert_eq!(back.unknown_data, hpl.unknown_data);
    assert_eq!(back.palette, hpl.palette);
}

#[test]
fn hpl_magic_mismatch_is_parse_error() {
    let mut bytes = BBCFHpl { version: 0, unknown_data: (0, 0, 0, 0), palette: vec![] }.to_bytes();
    bytes[0] = b'X';
    assert!(matches!(BBCFHpl::parse(&bytes), Err(Error::Parser(_))));
}

#[test]
fn hpl_size_mismatch_is_parse_error() {
    let mut bytes = BBCFHpl { version: 0, unknown_data: (0, 0, 0, 0), palette: vec![] }.to_bytes();
    bytes.push(0);
    assert!(matches!(BBCFHpl::parse(&bytes), Err(Error::Parser(_))));
}

fn sample_bbcf_pac() -> BBCFPac {
    BBCFPac {
        unknown: 0x1234,
        files: vec![
            BBCFPacEntry { id: 0, name: "first.bin".to_string(), contents: vec![1, 2, 3] },
            BBCFPacEntry { id: 1, name: "second.bin".to_string(), contents: vec![4; 16] },
        ],
    }
}

#[test]
fn bbcf_pac_round_trips() {
    let pac = sample_bbcf_pac();
    let bytes = pac.to_bytes();
    assert_eq!(&bytes[..4], b"FPAC");
    let back = BBCFPac::parse(&bytes).expect("archive decode");
    assert_eq!(back.unknown, pac.unknown);
    assert_eq!(back.files.len(), 2);
    assert_eq!(back.files[0].name, "first.bin");
    assert_eq!(back.files[0].id, 0);
    assert_eq!(back.files[0].contents, vec![1, 2, 3]);
    assert_eq!(back.files[1].name, "second.bin");
    assert_eq!(back.files[1].contents, vec![4; 16]);
    // and the rebuild of the decode is byte-identical
    assert_eq!(back.to_bytes(), bytes);
}

#[test]
fn bbcf_pac_compressed_round_trips() {
    // The compressed container really is compressed and really inflates
    // back: parsing the wrapper must recover the same archive.
    let pac = sample_bbcf_pac();
    let compressed = pac.to_bytes_compressed();
    assert_eq!(&compressed[..8], b"DFASFPAC");
    assert_ne!(&compressed[16..], &pac.to_bytes()[..]);
    let back = BBCFPac::parse(&compressed).expect("compressed archive decode");
    assert_eq!(back.to_bytes(), pac.to_bytes());
}

#[test]
fn bbcf_pac_multibyte_name_round_trips() {
    // A name with multi-byte UTF-8 characters is written as its exact
    // encoding and decoded back without replacement.
    let pac = BBCFPac {
        unknown: 0,
        files: vec![BBCFPacEntry {
            id: 7,
            name: "côté.bin".to_string(),
            contents: vec![9, 8, 7],
        }],
    };
    let bytes = pac.to_bytes();
    let back = BBCFPac::parse(&bytes).expect("archive decode");
    assert_eq!(back.files[0].name, "côté.bin");
    assert_eq!(back.to_bytes(), bytes);
}

#[test]
fn bbcf_pac_garbage_is_parse_error() {
    assert!(matches!(BBCFPac::parse(&[0u8; 64]), Err(Error::Parser(_))));
    assert!(matches!(BBCFPac::parse(&[]), Err(Error::Parser(_))));
}

#[test]
fn fpac_id_only_layout() {
    let pac = Pac {
        compression: Compression::Uncompressed,
        pac_style: PacStyle { bits: PAC_STYLE_ID_ONLY },
        entries: vec![PacEntry::new_unnamed(0xCAFEBABE, vec![1, 2, 3])],
    };
    let bytes = pac.to_bytes();
    let mut expected = Vec::new();
    expected.extend(b"FPAC");
    expected.extend(0x30u32.to_le_bytes()); // header size
    expected.extend(0x34u32.to_le_bytes()); // total size
    expected.extend(1u32.to_le_bytes()); // entry count
    expected.extend(PAC_STYLE_ID_ONLY.to_le_bytes());
    expected.extend(0u32.to_le_bytes()); // string size
    expected.extend([0u8; 8]);
    expected.extend(0u32.to_le_bytes()); // entry index
    expected.extend(0u32.to_le_bytes()); // data offset
    expected.extend(3u32.to_le_bytes()); // size
    expected.extend([0u8; 4]); // metadata padding
    expected.extend([1u8, 2, 3, 0]); // contents padded to 4
    assert_eq!(bytes, expected);
}

#[test]
fn fpac_named_entries_carry_hashes() {
    let e = PacEntry::new_named("hello.pac".to_string(), vec![]);
    assert_eq!(e.name(), Some("hello.pac"));
    assert_eq!(e.hash_id(), arcsys_filename_hash("hello.pac"));
    let u = PacEntry::new_unnamed(77, vec![]);
    assert_eq!(u.name(), None);
    assert_eq!(u.hash_id(), 77);
}

#[test]
fn dbzop_entry_hash_prefers_name() {
    let named = arcsys::dbzop::PacEntry {
        name: Some("x".to_string()),
        stored_hash: 5,
        contents: vec![],
    };
    assert_eq!(named.name_hash(), arcsys_filename_hash("x"));
    let unnamed = arcsys::dbzop::PacEntry { name: None, stored_hash: 5, contents: vec![] };
    assert_eq!(unnamed.name_hash(), 5);
}

#[test]
fn fpac_parse_of_rebuild_keeps_names_and_contents() {
    // A version-1 named archive survives a rebuild-then-parse cycle:
    // ASCII names pass through the Shift-JIS decode unchanged.
    let pac = Pac {
        compression: Compression::Uncompressed,
        pac_style: PacStyle { bits: 0 },
        entries: vec![
            PacEntry::new_named("a.bin".to_string(), vec![1, 2, 3]),
            PacEntry::new_named("bb.bin".to_string(), vec![4; 20]),
        ],
    };
    let bytes = pac.to_bytes();
    let back = Pac::parse(&bytes).expect("archive decode");
    assert!(matches!(back.compression, Compression::Uncompressed));
    assert_eq!(back.pac_style.bits, 0);
    assert_eq!(back.entries.len(), 2);
    assert_eq!(back.entries[0].name(), Some("a.bin"));
    assert_eq!(back.entries[0].contents, vec![1, 2, 3]);
    assert_eq!(back.entries[1].name(), Some("bb.bin"));
    assert_eq!(back.entries[1].contents, vec![4; 20]);
    // and the rebuild of the decode is byte-identical
    assert_eq!(back.to_bytes(), bytes);
}

#[test]
fn fpac_parse_id_only_version2_keeps_hashes() {
    // With the hash-slot header version, a hash-only entry's stored hash
    // survives the cycle.
    let bits = PAC_STYLE_ID_ONLY | 0x80000000;
    let pac = Pac {
        compression: Compression::Uncompressed,
        pac_style: PacStyle { bits },
        entries: vec![PacEntry::new_unnamed(0xCAFEBABE, vec![9])],
    };
    let bytes = pac.to_bytes();
    let back = Pac::parse(&bytes).expect("archive decode");
    assert_eq!(back.pac_style.bits, bits);
    assert_eq!(back.entries.len(), 1);
    assert_eq!(back.entries[0].hash_id(), 0xCAFEBABE);
    assert_eq!(back.entries[0].contents, vec![9]);
}

#[test]
fn fpac_parse_zcmp_container() {
    // A ZCMP wrapper: magic, original size, compressed size, padding to
    // 16 bytes, then the zlib stream of the whole archive body.
    let pac = Pac {
        compression: Compression::Uncompressed,
        pac_style: PacStyle { bits: 0 },
        entries: vec![PacEntry::new_named("z.bin".to_string(), vec![7, 7])],
    };
    let body = pac.to_bytes();
    let mut encoder =
        flate2::write::ZlibEncoder::new(Vec::new(), flate2::Compression::best());
    std::io::Write::write_all(&mut encoder, &body).unwrap();
    let compressed = encoder.finish().unwrap();
    let mut wrapped = Vec::new();
    wrapped.extend(b"ZCMP");
    wrapped.extend((body.len() as u32).to_le_bytes());
    wrapped.extend((compressed.len() as u32).to_le_bytes());
    wrapped.extend([0u8; 4]);
    wrapped.extend(&compressed);
    let back = Pac::parse(&wrapped).expect("compressed archive decode");
    assert!(matches!(back.compression, Compression::Zcmp));
    assert_eq!(back.entries[0].name(), Some("z.bin"));
    assert_eq!(back.entries[0].contents, vec![7, 7]);
}

#[test]
fn fpac_parse_rejects_unknown_containers() {
    // The texture container magic is not an archive, and garbage is not
    // either.
    assert!(matches!(Pac::parse(b"TXAC\0\0\0\0\0\0\0\0\0\0\0\0"), Err(Error::Parser(_))));
    assert!(matches!(Pac::parse(&[0u8; 64]), Err(Error::Parser(_))));
    assert!(matches!(Pac::parse(&[]), Err(Error::Parser(_))));
}

#[test]
fn dbzop_parse_reads_names_hashes_and_contents() {
    // A hand-built one-entry archive: an 8-byte name field, the entry's
    // index, offset, size and stored hash, padding to a 16-byte
    // boundary, then the contents at the declared data start.
    let mut b = Vec::new();
    b.extend(b"FPAC");
    b.extend(0x40u32.to_le_bytes()); // data start
    b.extend(0x43u32.to_le_bytes()); // total size
    b.extend(1u32.to_le_bytes()); // entry count
    b.extend(0u32.to_le_bytes()); // style word
    b.extend(8u32.to_le_bytes()); // string size
    b.extend([0u8; 8]); // header padding
    b.extend(b"ab\0\0\0\0\0\0"); // name field
    b.extend(0u32.to_le_bytes()); // entry index
    b.extend(0u32.to_le_bytes()); // data offset
    b.extend(3u32.to_le_bytes()); // size
    b.extend(0x99u32.to_le_bytes()); // stored hash
    b.extend([0u8; 8]); // record padding to 16 bytes
    b.extend([7u8, 8, 9]); // contents
    let pac = arcsys::dbzop::Pac::parse(&b).expect("archive decode");
    assert!(matches!(pac.compression, arcsys::dbzop::Compression::Uncompressed));
    assert_eq!(pac.pac_style, 0);
    assert_eq!(pac.entries.len(), 1);
    assert_eq!(pac.entries[0].name.as_deref(), Some("ab"));
    assert_eq!(pac.entries[0].stored_hash, 0x99);
    assert_eq!(pac.entries[0].name_hash(), arcsys_filename_hash("ab"));
    assert_eq!(pac.entries[0].contents, vec![7, 8, 9]);
}

#[test]
fn dbzop_parse_rejects_garbage() {
    assert!(matches!(arcsys::dbzop::Pac::parse(&[1u8; 40]), Err(Error::Parser(_))));
}
