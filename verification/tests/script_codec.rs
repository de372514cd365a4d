//! Tests for the script instruction and script body codecs.

use arcsys::ggacpr::script::{
    parse_action, parse_actions, parse_instr, parse_instr_list, parse_play_data,
    parse_player_script, write_action, write_actions, write_player_script, PlayData, ScriptAction,
    ScriptInstruction, PLAY_DATA_SIZE,
};
use arcsys::Error;

fn play_data_bytes() -> Vec<u8> {
    // magic, unknown byte, then 39 little-endian i16 tuning fields
    let mut b = vec![0xE5u8, 0x07];
    for i in 0..39i16 {
        b.extend((i * 3 - 5).to_le_bytes());
    }
    b
}

#[test]
fn play_data_round_trip() {
    let bytes = play_data_bytes();
    assert_eq!(bytes.len(), PLAY_DATA_SIZE);
    let (pd, end) = parse_play_data(&bytes, 0).expect("valid play data");
    assert_eq!(end, PLAY_DATA_SIZE);
    assert_eq!(pd.unk, 0x07);
    assert_eq!(pd.fwalk_vel, -5);
    assert_eq!(pd.bwalk_vel, -2);
    let rebuilt = pd.to_bytes();
    assert_eq!(rebuilt, bytes);
}

#[test]
fn play_data_magic_mismatch_is_parse_error() {
    // A PlayData region that starts with 0x00 instead of the magic byte
    // must fail decode with a structural-mismatch error.
    let mut bytes = play_data_bytes();
    bytes[0] = 0x00;
    let r = parse_play_data(&bytes, 0);
    assert!(matches!(r, Err(Error::Parser(_))));
}

#[test]
fn play_data_truncated_is_parse_error() {
    let bytes = play_data_bytes();
    let r = parse_play_data(&bytes[..PLAY_DATA_SIZE - 1], 0);
    assert!(matches!(r, Err(Error::Parser(_))));
}

#[test]
fn action_end_encodes_to_four_bytes() {
    // A ScriptAction containing only an ActionEnd instruction re-encodes
    // the instruction to exactly FF <flag> <arg_lo> <arg_hi>.
    let i = ScriptInstruction::ActionEnd { flag: 0x12, arg: 0xBEEF };
    assert_eq!(i.to_bytes(), vec![255u8, 0x12, 0xEF, 0xBE]);
}

#[test]
fn opcode_five_reencodes_its_own_span() {
    // Decode consumes four bytes (opcode, flag, a parse-only word);
    // encode writes the flag once and the parse-only word back as zeros,
    // so a canonical span survives a decode-encode cycle unchanged.
    let span = vec![5u8, 0x2A, 0, 0];
    let (i, end) = parse_instr(&span, 0).expect("opcode 5 decodes");
    assert_eq!(end, 4);
    assert_eq!(i, ScriptInstruction::Unk5 { flag: 0x2A });
    assert_eq!(i.to_bytes(), span);
}

#[test]
fn script_end_encodes_to_four_bytes() {
    let i = ScriptInstruction::ScriptEnd { flag: 1, arg: 2 };
    assert_eq!(i.to_bytes(), vec![253u8, 1, 2, 0]);
}

#[test]
fn instruction_round_trips() {
    let samples = vec![
        ScriptInstruction::CellBegin { duration: 4, cell_no: 0x1234 },
        ScriptInstruction::Scale { flag: 1, stretch: -100 },
        ScriptInstruction::InitInstance {
            flag: 2,
            anime_no: 3,
            obj_no: 0xDEADBEEF,
            kind: 7,
            state_no: 8,
            is_check_col: 9,
        },
        ScriptInstruction::Goto { flag: 5, jump_target: 0x11223344 },
        ScriptInstruction::Unk95 { rsrv: 1, arg1: 2, flag: 3, arg3: 4, arg4: 5 },
        ScriptInstruction::SetAttackProperties { flag: 1, arg: 2, unk1: 3, unk2: 4, unk3: 5, unk4: 6 },
        ScriptInstruction::ActionEnd { flag: 0, arg: 0 },
    ];
    for i in samples {
        let bytes = i.to_bytes();
        let (back, consumed) = parse_instr(&bytes, 0).expect("round trip decode");
        assert_eq!(back, i);
        assert_eq!(consumed, bytes.len());
    }
}

#[test]
fn unknown_opcode_is_parse_error() {
    // Opcode 12 is outside the known set: a hard decode failure.
    let r = parse_instr(&[12u8, 0, 0, 0], 0);
    assert!(matches!(r, Err(Error::Parser(_))));
}

#[test]
fn discarded_fields_reencode_as_zero() {
    // DoNotCheckAttack reads parse-only bytes and re-encodes them as zero.
    let (i, consumed) = parse_instr(&[13u8, 9, 9, 9], 0).expect("decode");
    assert_eq!(consumed, 4);
    assert_eq!(i.to_bytes(), vec![13u8, 0, 0, 0]);
}

#[test]
fn instruction_list_stops_at_action_end() {
    let bytes = [
        0u8, 5, 0x34, 0x12, // CellBegin
        255, 1, 2, 0, // ActionEnd
        99, 99, // trailing garbage never read
    ];
    let (list, end) = parse_instr_list(&bytes, 0).expect("list decode");
    assert_eq!(end, 8);
    assert_eq!(list.len(), 2);
    assert!(matches!(list[1], ScriptInstruction::ActionEnd { .. }));
}

#[test]
fn action_round_trips() {
    let mut bytes = vec![
        0x01u8, 0x00, 0x00, 0x00, // flags: not the terminal pattern
        0x05, 0x00, // attack level
        0x10, // damage
        0x03, // collision mask
    ];
    bytes.extend([0u8, 9, 1, 0]); // CellBegin
    bytes.extend([255u8, 0, 0, 0]); // ActionEnd
    let (action, end) = parse_action(&bytes, 0).expect("action decode");
    assert_eq!(end, bytes.len());
    assert_eq!(action.flags, 1);
    assert_eq!(action.instructions.len(), 2);
    let mut rebuilt = Vec::new();
    write_action(&mut rebuilt, &action);
    assert_eq!(rebuilt, bytes);
}

#[test]
fn terminal_action_carries_no_instructions() {
    // An action whose flags match the script-terminal pattern ends the
    // body and owns no instructions.
    let bytes = [
        0xFDu8, 0x00, 0x00, 0x00, // terminal flags
        0x00, 0x00, 0x00, 0x00, // rest of the header
    ];
    let (actions, end) = parse_actions(&bytes, 0).expect("actions decode");
    assert_eq!(end, 8);
    assert_eq!(actions.len(), 1);
    assert!(actions[0].instructions.is_empty());
}

#[test]
fn action_sequence_round_trips() {
    let mut bytes = Vec::new();
    // one ordinary action
    bytes.extend([0x00u8, 0x01, 0x00, 0x00]); // flags
    bytes.extend([0x02u8, 0x00]); // level
    bytes.push(0x07); // damage
    bytes.push(0x01); // mask
    bytes.extend([3u8, 1, 5, 0]); // Recovery
    bytes.extend([255u8, 0, 0, 0]); // ActionEnd
    // the terminal action
    bytes.extend([0xFFu8, 0x00, 0x00, 0x00]);
    bytes.extend([0u8, 0, 0, 0]);
    let (actions, end) = parse_actions(&bytes, 0).expect("actions decode");
    assert_eq!(end, bytes.len());
    assert_eq!(actions.len(), 2);
    let mut rebuilt = Vec::new();
    write_actions(&mut rebuilt, &actions);
    assert_eq!(rebuilt, bytes);
}

#[test]
fn player_script_round_trips() {
    let mut bytes = play_data_bytes();
    bytes.extend(std::iter::repeat(0xA5u8).take(0xB0)); // opaque block
    bytes.extend([0x00u8, 0x00, 0x00, 0x00, 0x00, 0x00, 0x00, 0x00]); // action header
    bytes.extend([255u8, 0, 0, 0]); // ActionEnd
    bytes.extend([0xFDu8, 0, 0, 0, 0, 0, 0, 0]); // terminal action
    let (script, end) = parse_player_script(&bytes, 0).expect("script decode");
    assert_eq!(end, bytes.len());
    assert_eq!(script.unk_data.len(), 0xB0);
    assert_eq!(script.actions.len(), 2);
    let mut rebuilt = Vec::new();
    write_player_script(&mut rebuilt, &script);
    assert_eq!(rebuilt, bytes);
}

#[test]
fn decoding_twice_gives_equal_scripts() {
    let mut bytes = play_data_bytes();
    bytes.extend(std::iter::repeat(0u8).take(0xB0));
    bytes.extend([0xFDu8, 0, 0, 0, 0, 0, 0, 0]);
    let a = parse_player_script(&bytes, 0).expect("first decode");
    let b = parse_player_script(&bytes, 0).expect("second decode");
    assert_eq!(a, b);
}
