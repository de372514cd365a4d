//! Tests for the object binary container: pointer tables, cells, sprite
//! and audio blobs, and the whole-file round trip.

use arcsys::ggacpr::obj::{
    build_cell_chunk, parse_cell_entry, parse_sprite_array, read_ptr_table, GGXXAudioArray,
    GGXXBox, GGXXCellArray, GGXXCellEntry, GGXXObjBin, GGXXObjEntry, GGXXPaletteArray,
    GGXXPaletteEntry, GGXXPlayerEntry, GGXXSpriteArray, GGXXSpriteInfo,
};
use arcsys::ggacpr::script::{
    GGXXObjScriptData, GGXXPlayerScriptData, PlayData, ScriptAction, ScriptInstruction,
};
use arcsys::Error;

#[test]
fn pointer_table_excludes_sentinel() {
    // The sentinel ends the table and is excluded; no stored offset, the
    // last one before the sentinel included, is itself the sentinel.
    let bytes = [
        0x10u8, 0, 0, 0, //
        0x20, 0, 0, 0, //
        0xFF, 0xFF, 0xFF, 0xFF,
    ];
    let (ptrs, end) = read_ptr_table(&bytes, 0, false).expect("table decode");
    assert_eq!(ptrs, vec![0x10, 0x20]);
    assert_eq!(end, 12);
    assert!(ptrs.iter().all(|&p| p != 0xFFFFFFFF));
}

#[test]
fn pointer_table_big_endian() {
    let bytes = [
        0u8, 0, 0, 0x10, //
        0xFF, 0xFF, 0xFF, 0xFF,
    ];
    let (ptrs, _) = read_ptr_table(&bytes, 0, true).expect("table decode");
    assert_eq!(ptrs, vec![0x10]);
}

#[test]
fn missing_sentinel_is_parse_error() {
    let bytes = [0x10u8, 0, 0, 0];
    assert!(matches!(read_ptr_table(&bytes, 0, false), Err(Error::Parser(_))));
}

#[test]
fn empty_cell_decodes_and_reencodes() {
    // A cell with box count zero decodes to an empty box list and one
    // sprite descriptor, and re-encodes to 00 00 00 00 followed by the
    // descriptor bytes.
    let bytes = [
        0u8, 0, 0, 0, // box count 0
        0x05, 0x00, // x offset
        0xFB, 0xFF, // y offset -5
        0x01, 0x02, 0x03, 0x04, // unknown dword
        0x07, 0x00, // sprite index
    ];
    let cell = parse_cell_entry(&bytes, 0).expect("cell decode");
    assert!(cell.boxes.is_empty());
    assert_eq!(cell.sprite_info.x_offset, 5);
    assert_eq!(cell.sprite_info.y_offset, -5);
    assert_eq!(cell.sprite_info.index, 7);
    let chunk = build_cell_chunk(&cell);
    assert_eq!(&chunk[..14], &bytes);
    // the chunk itself only adds the structural zero padding to 4 bytes
    assert_eq!(&chunk[14..], &[0u8, 0]);
}

#[test]
fn sprite_spans_resolve_from_pointer_deltas() {
    // A table [0x10, 0x20] with the section ending at 0x30 resolves both
    // entries to length 0x10.
    let mut bytes = vec![
        0x10u8, 0, 0, 0, //
        0x20, 0, 0, 0, //
        0xFF, 0xFF, 0xFF, 0xFF,
    ];
    bytes.resize(0x10, 0xFF);
    bytes.extend((0..0x10).map(|x| x as u8)); // first blob
    bytes.extend((0x10..0x20).map(|x| x as u8)); // second blob
    let arr = parse_sprite_array(&bytes, 0, 0x30).expect("sprite decode");
    assert_eq!(arr.sprite_entries.len(), 2);
    assert_eq!(arr.sprite_entries[0].len(), 0x10);
    assert_eq!(arr.sprite_entries[1].len(), 0x10);
    assert_eq!(arr.sprite_entries[1][0], 0x10);
}

#[test]
fn non_ascending_sprite_offsets_are_a_parse_error() {
    // A non-final sprite whose next offset is not strictly greater is a
    // decode error, never a silently clamped length.
    let mut bytes = vec![
        0x10u8, 0, 0, 0, //
        0x10, 0, 0, 0, //
        0xFF, 0xFF, 0xFF, 0xFF,
    ];
    bytes.resize(0x30, 0);
    let r = parse_sprite_array(&bytes, 0, 0x30);
    assert!(matches!(r, Err(Error::Parser(_))));
}

fn sample_play_data() -> PlayData {
    PlayData {
        unk: 1,
        fwalk_vel: 2,
        bwalk_vel: -2,
        fdash_init_vel: 3,
        bdash_x_vel: -3,
        bdash_y_vel: 4,
        bdash_gravity: 1,
        fjump_x_vel: 5,
        bjump_x_vel: -5,
        jump_y_vel: 12,
        jump_gravity: 1,
        fsuperjump_x_vel: 6,
        bsuperjump_x_vel: -6,
        superjump_y_vel: 14,
        superjump_gravity: 1,
        fdash_accel: 1,
        fdash_reduce: 1,
        init_homingjump_y_vel: 0,
        init_homingjump_x_vel: 0,
        init_homingjump_x_reduce: 0,
        init_homingjump_y_offset: 0,
        airdash_minimum_height: 10,
        fairdash_time: 20,
        bairdash_time: 20,
        stun_res: 50,
        defense: 100,
        guts: 3,
        critical: 1,
        weight: 100,
        airdash_count: 1,
        airjump_count: 1,
        fairdash_no_attack_time: 5,
        bairdash_no_attack_time: 5,
        fwalk_tension: 1,
        fjump_tension: 2,
        fdash_tension: 3,
        fairdash_tension: 4,
        guardbalance_defense: 10,
        guardbalance_tension: 11,
        instantblock_tension: 12,
    }
}

fn sample_actions() -> Vec<ScriptAction> {
    vec![
        ScriptAction {
            flags: 0x0100,
            ls3b_attack_level: 2,
            damage: 10,
            collision_mask: 1,
            instructions: vec![
                ScriptInstruction::CellBegin { duration: 4, cell_no: 0 },
                ScriptInstruction::ActionEnd { flag: 0, arg: 0 },
            ],
        },
        ScriptAction {
            flags: 0xFD,
            ls3b_attack_level: 0,
            damage: 0,
            collision_mask: 0,
            instructions: Vec::new(),
        },
    ]
}

fn sample_bin() -> GGXXObjBin {
    let cell = GGXXCellEntry {
        boxes: vec![GGXXBox { x_offset: -8, y_offset: 4, width: 16, height: 24, box_type: 1 }],
        sprite_info: GGXXSpriteInfo { x_offset: 0, y_offset: 0, unk: 0, index: 0 },
    };
    let palette = GGXXPaletteEntry {
        unk: 1,
        unk1: 2,
        unk2: 3,
        unk3: 4,
        unk4: 5,
        unk5: 6,
        unk6: 7,
        unk7: 8,
        palette: (0..256u32).collect(),
    };
    GGXXObjBin {
        player: GGXXPlayerEntry {
            cell_array: GGXXCellArray { cell_entries: vec![cell.clone()] },
            sprite_array: GGXXSpriteArray { sprite_entries: vec![vec![0xABu8; 16]] },
            script_data: GGXXPlayerScriptData {
                play_data: sample_play_data(),
                unk_data: vec![0u8; 0xB0],
                actions: sample_actions(),
            },
            palette_array: GGXXPaletteArray { palette_entries: vec![palette] },
        },
        objects: vec![GGXXObjEntry {
            cell_array: GGXXCellArray { cell_entries: vec![cell] },
            sprite_array: GGXXSpriteArray { sprite_entries: vec![vec![0xCDu8; 16]] },
            script_data: GGXXObjScriptData { actions: sample_actions() },
        }],
        audio_array: GGXXAudioArray { audio_entries: vec![vec![9u8, 8, 7, 6, 5]] },
    }
}

#[test]
fn object_binary_round_trips_through_bytes() {
    // encode(decode(bytes)) == bytes for a file produced by the encoder.
    let bin = sample_bin();
    let bytes = bin.to_bytes();
    let decoded = GGXXObjBin::parse(&bytes).expect("whole-file decode");
    assert_eq!(decoded, bin);
    let rebuilt = decoded.to_bytes();
    assert_eq!(rebuilt, bytes);
}

#[test]
fn decoding_twice_gives_equal_models() {
    let bytes = sample_bin().to_bytes();
    let a = GGXXObjBin::parse(&bytes).expect("first decode");
    let b = GGXXObjBin::parse(&bytes).expect("second decode");
    assert_eq!(a, b);
}

#[test]
fn truncated_object_binary_is_a_parse_error() {
    let bytes = sample_bin().to_bytes();
    let r = GGXXObjBin::parse(&bytes[..bytes.len() / 2]);
    assert!(matches!(r, Err(Error::Parser(_))));
}

#[test]
fn script_padding_hits_target_remainder() {
    // The player script block is padded so its length modulo 0x1000 lands
    // on the fixed 0xA00 target.
    let bin = sample_bin();
    let block = arcsys::ggacpr::obj::build_player_script_block(&bin.player.script_data);
    assert_eq!(block.len() % 0x1000, 0xA00);
}
