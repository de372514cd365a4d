//! Script format for all XX-series Guilty Gears: the bytecode-like
//! animation/gameplay instruction set and its action/script containers.
//!
//! Every instruction is one opcode byte followed by a fixed per-opcode
//! payload of little-endian fields. Parse-only fields are read, validated
//! for width, and discarded; on re-encode they come back as fixed values.

use vstd::prelude::*;
use crate::error::Error;
use crate::helpers::{
    u16_le_at, u32_le_at, i16_le_at, u16_le_of, u32_le_of, i16_le_of,
    read_u8, read_u16_le, read_u32_le, read_i16_le,
    push_u16_le, push_u32_le, push_i16_le,
    lemma_u16_le_of_at, lemma_u32_le_of_at, lemma_i16_le_of_at,
    lemma_u16_le_rt, lemma_u32_le_rt, lemma_i16_u16_rt, lemma_u16_i16_rt,
};

verus! {

/// One decoded script instruction: a closed set of opcode-keyed variants,
/// each owning the small fixed tuple of fields its payload carries.
#[derive(Copy, Clone, PartialEq, Eq, Structural, Debug)]
pub enum ScriptInstruction {
    CellBegin {
        duration: u8,
        cell_no: u16,
    },
    Unk1 {
        flag: u8,
        arg: u16,
    },
    Unk2 {
        flag: u8,
        arg: u16,
    },
    Recovery {
        flag: u8,
        arg: u16,
    },
    RenewCollision {
        flag: u8,
        arg: u16,
    },
    Unk5 {
        flag: u8,
    },
    Unk6 {
        flag: u8,
        arg: u16,
    },
    Scale {
        flag: u8,
        stretch: i16,
    },
    PosZ {
        flag: u8,
        depth: i16,
    },
    Unk9 {
        flag: u8,
        arg: u16,
    },
    Unk10 {
        flag: u8,
        arg: u8,
        arg2: u8,
    },
    Unk11 {
        flag: u8,
        arg: u8,
        arg2: u8,
    },
    DoNotCheckAttack {},
    SetStrikeInvuln {},
    Reverse {
        flag: u8,
        arg: u16,
    },
    DrawNormal {
        flag: u8,
        arg: u16,
    },
    DrawReverse {
        flag: u8,
        arg: u16,
    },
    EnableCancel {
        flag: u8,
        arg: u16,
    },
    Unk19 {
        flag: u8,
        arg: u16,
    },
    OffsetXFromOwner {
        flag: u8,
        magnitude: i16,
    },
    OffsetYFromOwner {
        flag: u8,
        magnitude: i16,
    },
    InitInstance {
        flag: u8,
        anime_no: u16,
        obj_no: u32,
        kind: u32,
        state_no: u16,
        is_check_col: u16,
    },
    DeleteChildInstance {
        obj_no: u8,
        flag: u8,
        act_no: u8,
    },
    InitRqSound {
        data: u8,
        flag: u8,
        random_factor: u8,
    },
    InitEnemyHitSeMode {
        data: u8,
        flag: u8,
        random_factor: u8,
    },
    Unk29 {
        data: u8,
        flag: u8,
        random_factor: u8,
    },
    EnemyGuardModeVoice {
        data: u8,
        flag: u8,
        random_factor: u8,
    },
    EnemyDamageModeVoice {
        data: u8,
        flag: u8,
        random_factor: u8,
    },
    DownReturn {
        flag: u8,
        arg: u16,
    },
    HitGravity {
        flag: u8,
        arg: i16,
    },
    HitAirPushbackX {
        flag: u8,
        arg: i16,
    },
    HitAirPushbackY {
        flag: u8,
        arg: i16,
    },
    DeleteIttai {
        flag: u8,
        arg: u16,
    },
    Unk39 {
        flag: u8,
        arg: u16,
    },
    Unk40 {
        flag: u8,
        arg: u16,
    },
    Unk45 {
        flag: u8,
        arg: u16,
    },
    Unk47 {
        arg: u16,
    },
    AttackLevel {
        arg: u16,
    },
    Goto {
        flag: u8,
        jump_target: u32,
    },
    Untech {
        flag: u8,
        arg: u16,
    },
    AddTension {
        active: u8,
        hit: u16,
    },
    Unk53 {
        flag: u8,
        arg: u16,
        arg2: u16,
        arg3: u16,
    },
    Unk54 {
        flag: u8,
        arg: u16,
    },
    Unk55 {
        flag: u8,
        arg: u16,
    },
    Unk57 {
        flag: u8,
        arg: u16,
    },
    Unk58 {
        flag: u8,
        arg: u16,
    },
    Unk60 {
        flag: u8,
        arg: u16,
    },
    RemoveStrikeInvuln {},
    Unk62 {
        flag: u8,
        arg: u16,
    },
    EnableCancelSecondary {
        flag: u8,
        arg: u16,
    },
    SuperFreeze {
        stop_self: u8,
        stop_world: u8,
        unk: u8,
    },
    XTransform {
        flag: u8,
        magnitude: i16,
    },
    YTransform {
        flag: u8,
        magnitude: i16,
    },
    SetGravity {
        flag: u8,
        magnitude: i16,
    },
    Unk68 {
        flag: u8,
        arg: u16,
    },
    Unk69 {
        flag: u8,
        arg: u16,
    },
    Unk70 {
        flag: u8,
        arg: u16,
    },
    Unk71 {
        flag: u8,
        arg: u16,
        arg2: u32,
    },
    Unk72 {
        flag: u8,
        arg: u16,
    },
    ChipDamage {
        flag: u8,
        arg: u16,
    },
    SetAttackStunVal {
        flag: u8,
        arg: u16,
    },
    Unk75 {
        flag: u8,
        arg: u16,
    },
    SetStance {
        flag: u8,
        arg: u16,
    },
    Unk77 {
        flag: u8,
        arg: u16,
    },
    SetProration {
        flag: u8,
        arg: u16,
    },
    Unk79 {
        flag: u8,
        arg: u16,
    },
    SetThrowInvuln {
        flag: u8,
        arg: u16,
    },
    Unk81 {
        flag: u8,
        arg: u16,
    },
    Unk82 {
        flag: u8,
        arg: u16,
    },
    Unk83 {
        flag: u8,
        arg: u16,
    },
    Pushback {
        flag: u8,
        magnitude: i16,
    },
    Stagger {
        flag: u8,
        arg: u16,
    },
    Unk86 {
        flag: u8,
        obj_id: u16,
        buffered_act: u16,
        act_id: u16,
    },
    Unk87 {
        flag: u8,
        arg: u16,
    },
    Unk88 {
        flag: u8,
        arg: u16,
        arg2: u16,
        arg3: u16,
    },
    Unk89 {
        flag: u8,
        arg: u16,
    },
    Unk90 {
        flag: u8,
        arg: u16,
        arg2: u16,
        arg3: u16,
    },
    Unk91 {
        flag: u8,
        arg: u16,
        arg2: u32,
    },
    JumpInstall {
        flag: u8,
        arg: u16,
    },
    Unk93 {
        flag: u8,
        arg: u16,
    },
    Unk94 {
        flag: u8,
        arg: u16,
        arg2: u32,
    },
    Unk95 {
        rsrv: u8,
        arg1: u16,
        flag: u32,
        arg3: u16,
        arg4: u16,
    },
    Unk96 {
        flag: u8,
        arg1: u16,
        arg2: u16,
        arg3: u16,
    },
    Unk97 {
        flag: u8,
        arg1: u16,
        arg2: u16,
        arg3: u16,
        arg4: u16,
        arg5: u16,
    },
    Unk98 {
        flag: u8,
        arg: i16,
    },
    Unk99 {
        flag: u8,
        arg: u16,
    },
    Unk100 {
        flag: u8,
        arg1: u16,
        arg2: u32,
    },
    SetAttackProperties {
        flag: u8,
        arg: u16,
        unk1: u8,
        unk2: u8,
        unk3: u8,
        unk4: u8,
    },
    Unk102 {
        flag: u8,
        arg: u16,
        arg2: u16,
        arg3: u16,
    },
    Unk103 {
        flag: u8,
        arg: u16,
        arg2: u16,
        arg3: u16,
    },
    ScriptEnd {
        flag: u8,
        arg: u16,
    },
    ActionEnd {
        flag: u8,
        arg: u16,
    },
}

/// Total encoded length (opcode byte included) that decoding an
/// instruction with opcode `op` consumes; 0 for an unknown opcode.
pub open spec fn spec_instr_len(op: u8) -> int {
    if op == 0 {
        4
    } else if op == 1 {
        4
    } else if op == 2 {
        4
    } else if op == 3 {
        4
    } else if op == 4 {
        4
    } else if op == 5 {
        4
    } else if op == 6 {
        4
    } else if op == 7 {
        4
    } else if op == 8 {
        4
    } else if op == 9 {
        4
    } else if op == 10 {
        4
    } else if op == 11 {
        4
    } else if op == 13 {
        4
    } else if op == 14 {
        4
    } else if op == 15 {
        4
    } else if op == 16 {
        4
    } else if op == 17 {
        4
    } else if op == 18 {
        4
    } else if op == 19 {
        4
    } else if op == 23 {
        4
    } else if op == 24 {
        4
    } else if op == 25 {
        16
    } else if op == 26 {
        4
    } else if op == 27 {
        4
    } else if op == 28 {
        4
    } else if op == 29 {
        4
    } else if op == 30 {
        4
    } else if op == 31 {
        4
    } else if op == 33 {
        4
    } else if op == 34 {
        4
    } else if op == 35 {
        4
    } else if op == 36 {
        4
    } else if op == 38 {
        4
    } else if op == 39 {
        4
    } else if op == 40 {
        4
    } else if op == 45 {
        4
    } else if op == 47 {
        4
    } else if op == 48 {
        4
    } else if op == 49 {
        8
    } else if op == 50 {
        4
    } else if op == 52 {
        4
    } else if op == 53 {
        8
    } else if op == 54 {
        4
    } else if op == 55 {
        4
    } else if op == 57 {
        4
    } else if op == 58 {
        4
    } else if op == 60 {
        4
    } else if op == 61 {
        4
    } else if op == 62 {
        4
    } else if op == 63 {
        4
    } else if op == 64 {
        4
    } else if op == 65 {
        4
    } else if op == 66 {
        4
    } else if op == 67 {
        4
    } else if op == 68 {
        4
    } else if op == 69 {
        4
    } else if op == 70 {
        4
    } else if op == 71 {
        8
    } else if op == 72 {
        4
    } else if op == 73 {
        4
    } else if op == 74 {
        4
    } else if op == 75 {
        4
    } else if op == 76 {
        4
    } else if op == 77 {
        4
    } else if op == 78 {
        4
    } else if op == 79 {
        4
    } else if op == 80 {
        4
    } else if op == 81 {
        4
    } else if op == 82 {
        4
    } else if op == 83 {
        4
    } else if op == 84 {
        4
    } else if op == 85 {
        4
    } else if op == 86 {
        8
    } else if op == 87 {
        4
    } else if op == 88 {
        8
    } else if op == 89 {
        4
    } else if op == 90 {
        8
    } else if op == 91 {
        8
    } else if op == 92 {
        4
    } else if op == 93 {
        4
    } else if op == 94 {
        8
    } else if op == 95 {
        12
    } else if op == 96 {
        8
    } else if op == 97 {
        12
    } else if op == 98 {
        4
    } else if op == 99 {
        4
    } else if op == 100 {
        8
    } else if op == 101 {
        8
    } else if op == 102 {
        8
    } else if op == 103 {
        8
    } else if op == 253 {
        4
    } else if op == 255 {
        4
    } else {
        0
    }
}

/// The opcode byte that selects this instruction's variant.
pub open spec fn spec_opcode_of(i: ScriptInstruction) -> u8 {
    match i {
        ScriptInstruction::CellBegin { .. } => 0,
        ScriptInstruction::Unk1 { .. } => 1,
        ScriptInstruction::Unk2 { .. } => 2,
        ScriptInstruction::Recovery { .. } => 3,
        ScriptInstruction::RenewCollision { .. } => 4,
        ScriptInstruction::Unk5 { .. } => 5,
        ScriptInstruction::Unk6 { .. } => 6,
        ScriptInstruction::Scale { .. } => 7,
        ScriptInstruction::PosZ { .. } => 8,
        ScriptInstruction::Unk9 { .. } => 9,
        ScriptInstruction::Unk10 { .. } => 10,
        ScriptInstruction::Unk11 { .. } => 11,
        ScriptInstruction::DoNotCheckAttack { .. } => 13,
        ScriptInstruction::SetStrikeInvuln { .. } => 14,
        ScriptInstruction::Reverse { .. } => 15,
        ScriptInstruction::DrawNormal { .. } => 16,
        ScriptInstruction::DrawReverse { .. } => 17,
        ScriptInstruction::EnableCancel { .. } => 18,
        ScriptInstruction::Unk19 { .. } => 19,
        ScriptInstruction::OffsetXFromOwner { .. } => 23,
        ScriptInstruction::OffsetYFromOwner { .. } => 24,
        ScriptInstruction::InitInstance { .. } => 25,
        ScriptInstruction::DeleteChildInstance { .. } => 26,
        ScriptInstruction::InitRqSound { .. } => 27,
        ScriptInstruction::InitEnemyHitSeMode { .. } => 28,
        ScriptInstruction::Unk29 { .. } => 29,
        ScriptInstruction::EnemyGuardModeVoice { .. } => 30,
        ScriptInstruction::EnemyDamageModeVoice { .. } => 31,
        ScriptInstruction::DownReturn { .. } => 33,
        ScriptInstruction::HitGravity { .. } => 34,
        ScriptInstruction::HitAirPushbackX { .. } => 35,
        ScriptInstruction::HitAirPushbackY { .. } => 36,
        ScriptInstruction::DeleteIttai { .. } => 38,
        ScriptInstruction::Unk39 { .. } => 39,
        ScriptInstruction::Unk40 { .. } => 40,
        ScriptInstruction::Unk45 { .. } => 45,
        ScriptInstruction::Unk47 { .. } => 47,
        ScriptInstruction::AttackLevel { .. } => 48,
        ScriptInstruction::Goto { .. } => 49,
        ScriptInstruction::Untech { .. } => 50,
        ScriptInstruction::AddTension { .. } => 52,
        ScriptInstruction::Unk53 { .. } => 53,
        ScriptInstruction::Unk54 { .. } => 54,
        ScriptInstruction::Unk55 { .. } => 55,
        ScriptInstruction::Unk57 { .. } => 57,
        ScriptInstruction::Unk58 { .. } => 58,
        ScriptInstruction::Unk60 { .. } => 60,
        ScriptInstruction::RemoveStrikeInvuln { .. } => 61,
        ScriptInstruction::Unk62 { .. } => 62,
        ScriptInstruction::EnableCancelSecondary { .. } => 63,
        ScriptInstruction::SuperFreeze { .. } => 64,
        ScriptInstruction::XTransform { .. } => 65,
        ScriptInstruction::YTransform { .. } => 66,
        ScriptInstruction::SetGravity { .. } => 67,
        ScriptInstruction::Unk68 { .. } => 68,
        ScriptInstruction::Unk69 { .. } => 69,
        ScriptInstruction::Unk70 { .. } => 70,
        ScriptInstruction::Unk71 { .. } => 71,
        ScriptInstruction::Unk72 { .. } => 72,
        ScriptInstruction::ChipDamage { .. } => 73,
        ScriptInstruction::SetAttackStunVal { .. } => 74,
        ScriptInstruction::Unk75 { .. } => 75,
        ScriptInstruction::SetStance { .. } => 76,
        ScriptInstruction::Unk77 { .. } => 77,
        ScriptInstruction::SetProration { .. } => 78,
        ScriptInstruction::Unk79 { .. } => 79,
        ScriptInstruction::SetThrowInvuln { .. } => 80,
        ScriptInstruction::Unk81 { .. } => 81,
        ScriptInstruction::Unk82 { .. } => 82,
        ScriptInstruction::Unk83 { .. } => 83,
        ScriptInstruction::Pushback { .. } => 84,
        ScriptInstruction::Stagger { .. } => 85,
        ScriptInstruction::Unk86 { .. } => 86,
        ScriptInstruction::Unk87 { .. } => 87,
        ScriptInstruction::Unk88 { .. } => 88,
        ScriptInstruction::Unk89 { .. } => 89,
        ScriptInstruction::Unk90 { .. } => 90,
        ScriptInstruction::Unk91 { .. } => 91,
        ScriptInstruction::JumpInstall { .. } => 92,
        ScriptInstruction::Unk93 { .. } => 93,
        ScriptInstruction::Unk94 { .. } => 94,
        ScriptInstruction::Unk95 { .. } => 95,
        ScriptInstruction::Unk96 { .. } => 96,
        ScriptInstruction::Unk97 { .. } => 97,
        ScriptInstruction::Unk98 { .. } => 98,
        ScriptInstruction::Unk99 { .. } => 99,
        ScriptInstruction::Unk100 { .. } => 100,
        ScriptInstruction::SetAttackProperties { .. } => 101,
        ScriptInstruction::Unk102 { .. } => 102,
        ScriptInstruction::Unk103 { .. } => 103,
        ScriptInstruction::ScriptEnd { .. } => 253,
        ScriptInstruction::ActionEnd { .. } => 255,
    }
}

/// The exact byte sequence an instruction encodes to: the opcode byte,
/// then each field in declared order and width, with parse-only fields
/// written as fixed values.
pub open spec fn spec_instr_bytes(i: ScriptInstruction) -> Seq<u8> {
    match i {
        ScriptInstruction::CellBegin { duration, cell_no } => seq![0u8, duration] + u16_le_of(cell_no),
        ScriptInstruction::Unk1 { flag, arg } => seq![1u8, flag] + u16_le_of(arg),
        ScriptInstruction::Unk2 { flag, arg } => seq![2u8, flag] + u16_le_of(arg),
        ScriptInstruction::Recovery { flag, arg } => seq![3u8, flag] + u16_le_of(arg),
        ScriptInstruction::RenewCollision { flag, arg } => seq![4u8, flag] + u16_le_of(arg),
        ScriptInstruction::Unk5 { flag } => seq![5u8, flag, 0u8, 0u8],
        ScriptInstruction::Unk6 { flag, arg } => seq![6u8, flag] + u16_le_of(arg),
        ScriptInstruction::Scale { flag, stretch } => seq![7u8, flag] + i16_le_of(stretch),
        ScriptInstruction::PosZ { flag, depth } => seq![8u8, flag] + i16_le_of(depth),
        ScriptInstruction::Unk9 { flag, arg } => seq![9u8, flag] + u16_le_of(arg),
        ScriptInstruction::Unk10 { flag, arg, arg2 } => seq![10u8, flag, arg, arg2],
        ScriptInstruction::Unk11 { flag, arg, arg2 } => seq![11u8, flag, arg, arg2],
        ScriptInstruction::DoNotCheckAttack { } => seq![13u8, 0u8, 0u8, 0u8],
        ScriptInstruction::SetStrikeInvuln { } => seq![14u8, 0u8, 0u8, 0u8],
        ScriptInstruction::Reverse { flag, arg } => seq![15u8, flag] + u16_le_of(arg),
        ScriptInstruction::DrawNormal { flag, arg } => seq![16u8, flag] + u16_le_of(arg),
        ScriptInstruction::DrawReverse { flag, arg } => seq![17u8, flag] + u16_le_of(arg),
        ScriptInstruction::EnableCancel { flag, arg } => seq![18u8, flag] + u16_le_of(arg),
        ScriptInstruction::Unk19 { flag, arg } => seq![19u8, flag] + u16_le_of(arg),
        ScriptInstruction::OffsetXFromOwner { flag, magnitude } => seq![23u8, flag] + i16_le_of(magnitude),
        ScriptInstruction::OffsetYFromOwner { flag, magnitude } => seq![24u8, flag] + i16_le_of(magnitude),
        ScriptInstruction::InitInstance { flag, anime_no, obj_no, kind, state_no, is_check_col } => seq![25u8, flag] + u16_le_of(anime_no) + u32_le_of(obj_no) + u32_le_of(kind) + u16_le_of(state_no) + u16_le_of(is_check_col),
        ScriptInstruction::DeleteChildInstance { obj_no, flag, act_no } => seq![26u8, obj_no, flag, act_no],
        ScriptInstruction::InitRqSound { data, flag, random_factor } => seq![27u8, data, flag, random_factor],
        ScriptInstruction::InitEnemyHitSeMode { data, flag, random_factor } => seq![28u8, data, flag, random_factor],
        ScriptInstruction::Unk29 { data, flag, random_factor } => seq![29u8, data, flag, random_factor],
        ScriptInstruction::EnemyGuardModeVoice { data, flag, random_factor } => seq![30u8, data, flag, random_factor],
        ScriptInstruction::EnemyDamageModeVoice { data, flag, random_factor } => seq![31u8, data, flag, random_factor],
        ScriptInstruction::DownReturn { flag, arg } => seq![33u8, flag] + u16_le_of(arg),
        ScriptInstruction::HitGravity { flag, arg } => seq![34u8, flag] + i16_le_of(arg),
        ScriptInstruction::HitAirPushbackX { flag, arg } => seq![35u8, flag] + i16_le_of(arg),
        ScriptInstruction::HitAirPushbackY { flag, arg } => seq![36u8, flag] + i16_le_of(arg),
        ScriptInstruction::DeleteIttai { flag, arg } => seq![38u8, flag] + u16_le_of(arg),
        ScriptInstruction::Unk39 { flag, arg } => seq![39u8, flag] + u16_le_of(arg),
        ScriptInstruction::Unk40 { flag, arg } => seq![40u8, flag] + u16_le_of(arg),
        ScriptInstruction::Unk45 { flag, arg } => seq![45u8, flag] + u16_le_of(arg),
        ScriptInstruction::Unk47 { arg } => seq![47u8, 0u8] + u16_le_of(arg),
        ScriptInstruction::AttackLevel { arg } => seq![48u8, 0u8] + u16_le_of(arg),
        ScriptInstruction::Goto { flag, jump_target } => seq![49u8, flag, 0u8, 0u8] + u32_le_of(jump_target),
        ScriptInstruction::Untech { flag, arg } => seq![50u8, flag] + u16_le_of(arg),
        ScriptInstruction::AddTension { active, hit } => seq![52u8, active] + u16_le_of(hit),
        ScriptInstruction::Unk53 { flag, arg, arg2, arg3 } => seq![53u8, flag] + u16_le_of(arg) + u16_le_of(arg2) + u16_le_of(arg3),
        ScriptInstruction::Unk54 { flag, arg } => seq![54u8, flag] + u16_le_of(arg),
        ScriptInstruction::Unk55 { flag, arg } => seq![55u8, flag] + u16_le_of(arg),
        ScriptInstruction::Unk57 { flag, arg } => seq![57u8, flag] + u16_le_of(arg),
        ScriptInstruction::Unk58 { flag, arg } => seq![58u8, flag] + u16_le_of(arg),
        ScriptInstruction::Unk60 { flag, arg } => seq![60u8, flag] + u16_le_of(arg),
        ScriptInstruction::RemoveStrikeInvuln { } => seq![61u8, 0u8, 0u8, 0u8],
        ScriptInstruction::Unk62 { flag, arg } => seq![62u8, flag] + u16_le_of(arg),
        ScriptInstruction::EnableCancelSecondary { flag, arg } => seq![63u8, flag] + u16_le_of(arg),
        ScriptInstruction::SuperFreeze { stop_self, stop_world, unk } => seq![64u8, stop_self, stop_world, unk],
        ScriptInstruction::XTransform { flag, magnitude } => seq![65u8, flag] + i16_le_of(magnitude),
        ScriptInstruction::YTransform { flag, magnitude } => seq![66u8, flag] + i16_le_of(magnitude),
        ScriptInstruction::SetGravity { flag, magnitude } => seq![67u8, flag] + i16_le_of(magnitude),
        ScriptInstruction::Unk68 { flag, arg } => seq![68u8, flag] + u16_le_of(arg),
        ScriptInstruction::Unk69 { flag, arg } => seq![69u8, flag] + u16_le_of(arg),
        ScriptInstruction::Unk70 { flag, arg } => seq![70u8, flag] + u16_le_of(arg),
        ScriptInstruction::Unk71 { flag, arg, arg2 } => seq![71u8, flag] + u16_le_of(arg) + u32_le_of(arg2),
        ScriptInstruction::Unk72 { flag, arg } => seq![72u8, flag] + u16_le_of(arg),
        ScriptInstruction::ChipDamage { flag, arg } => seq![73u8, flag] + u16_le_of(arg),
        ScriptInstruction::SetAttackStunVal { flag, arg } => seq![74u8, flag] + u16_le_of(arg),
        ScriptInstruction::Unk75 { flag, arg } => seq![75u8, flag] + u16_le_of(arg),
        ScriptInstruction::SetStance { flag, arg } => seq![76u8, flag] + u16_le_of(arg),
        ScriptInstruction::Unk77 { flag, arg } => seq![77u8, flag] + u16_le_of(arg),
        ScriptInstruction::SetProration { flag, arg } => seq![78u8, flag] + u16_le_of(arg),
        ScriptInstruction::Unk79 { flag, arg } => seq![79u8, flag] + u16_le_of(arg),
        ScriptInstruction::SetThrowInvuln { flag, arg } => seq![80u8, flag] + u16_le_of(arg),
        ScriptInstruction::Unk81 { flag, arg } => seq![81u8, flag] + u16_le_of(arg),
        ScriptInstruction::Unk82 { flag, arg } => seq![82u8, flag] + u16_le_of(arg),
        ScriptInstruction::Unk83 { flag, arg } => seq![83u8, flag] + u16_le_of(arg),
        ScriptInstruction::Pushback { flag, magnitude } => seq![84u8, flag] + i16_le_of(magnitude),
        ScriptInstruction::Stagger { flag, arg } => seq![85u8, flag] + u16_le_of(arg),
        ScriptInstruction::Unk86 { flag, obj_id, buffered_act, act_id } => seq![86u8, flag] + u16_le_of(obj_id) + u16_le_of(buffered_act) + u16_le_of(act_id),
        ScriptInstruction::Unk87 { flag, arg } => seq![87u8, flag] + u16_le_of(arg),
        ScriptInstruction::Unk88 { flag, arg, arg2, arg3 } => seq![88u8, flag] + u16_le_of(arg) + u16_le_of(arg2) + u16_le_of(arg3),
        ScriptInstruction::Unk89 { flag, arg } => seq![89u8, flag] + u16_le_of(arg),
        ScriptInstruction::Unk90 { flag, arg, arg2, arg3 } => seq![90u8, flag] + u16_le_of(arg) + u16_le_of(arg2) + u16_le_of(arg3),
        ScriptInstruction::Unk91 { flag, arg, arg2 } => seq![91u8, flag] + u16_le_of(arg) + u32_le_of(arg2),
        ScriptInstruction::JumpInstall { flag, arg } => seq![92u8, flag] + u16_le_of(arg),
        ScriptInstruction::Unk93 { flag, arg } => seq![93u8, flag] + u16_le_of(arg),
        ScriptInstruction::Unk94 { flag, arg, arg2 } => seq![94u8, flag] + u16_le_of(arg) + u32_le_of(arg2),
        ScriptInstruction::Unk95 { rsrv, arg1, flag, arg3, arg4 } => seq![95u8, rsrv] + u16_le_of(arg1) + u32_le_of(flag) + u16_le_of(arg3) + u16_le_of(arg4),
        ScriptInstruction::Unk96 { flag, arg1, arg2, arg3 } => seq![96u8, flag] + u16_le_of(arg1) + u16_le_of(arg2) + u16_le_of(arg3),
        ScriptInstruction::Unk97 { flag, arg1, arg2, arg3, arg4, arg5 } => seq![97u8, flag] + u16_le_of(arg1) + u16_le_of(arg2) + u16_le_of(arg3) + u16_le_of(arg4) + u16_le_of(arg5),
        ScriptInstruction::Unk98 { flag, arg } => seq![98u8, flag] + i16_le_of(arg),
        ScriptInstruction::Unk99 { flag, arg } => seq![99u8, flag] + u16_le_of(arg),
        ScriptInstruction::Unk100 { flag, arg1, arg2 } => seq![100u8, flag] + u16_le_of(arg1) + u32_le_of(arg2),
        ScriptInstruction::SetAttackProperties { flag, arg, unk1, unk2, unk3, unk4 } => seq![101u8, flag] + u16_le_of(arg) + seq![unk1, unk2, unk3, unk4],
        ScriptInstruction::Unk102 { flag, arg, arg2, arg3 } => seq![102u8, flag] + u16_le_of(arg) + u16_le_of(arg2) + u16_le_of(arg3),
        ScriptInstruction::Unk103 { flag, arg, arg2, arg3 } => seq![103u8, flag] + u16_le_of(arg) + u16_le_of(arg2) + u16_le_of(arg3),
        ScriptInstruction::ScriptEnd { flag, arg } => seq![253u8, flag] + u16_le_of(arg),
        ScriptInstruction::ActionEnd { flag, arg } => seq![255u8, flag] + u16_le_of(arg),
    }
}

/// Decodes the instruction at `pos`: `Some((instruction, end))` when the
/// opcode is known and its payload lies within `b`, `None` otherwise.
pub open spec fn spec_parse_instr(b: Seq<u8>, pos: int) -> Option<(ScriptInstruction, int)> {
    if pos < 0 || pos + 1 > b.len() {
        None
    } else {
        let op = b[pos];
        let n = spec_instr_len(op);
        if n == 0 || pos + n > b.len() {
            None
        } else if op == 0 {
            Some((ScriptInstruction::CellBegin { duration: b[pos + 1], cell_no: u16_le_at(b, pos + 2) }, pos + n))
        } else if op == 1 {
            Some((ScriptInstruction::Unk1 { flag: b[pos + 1], arg: u16_le_at(b, pos + 2) }, pos + n))
        } else if op == 2 {
            Some((ScriptInstruction::Unk2 { flag: b[pos + 1], arg: u16_le_at(b, pos + 2) }, pos + n))
        } else if op == 3 {
            Some((ScriptInstruction::Recovery { flag: b[pos + 1], arg: u16_le_at(b, pos + 2) }, pos + n))
        } else if op == 4 {
            Some((ScriptInstruction::RenewCollision { flag: b[pos + 1], arg: u16_le_at(b, pos + 2) }, pos + n))
        } else if op == 5 {
            Some((ScriptInstruction::Unk5 { flag: b[pos + 1] }, pos + n))
        } else if op == 6 {
            Some((ScriptInstruction::Unk6 { flag: b[pos + 1], arg: u16_le_at(b, pos + 2) }, pos + n))
        } else if op == 7 {
            Some((ScriptInstruction::Scale { flag: b[pos + 1], stretch: i16_le_at(b, pos + 2) }, pos + n))
        } else if op == 8 {
            Some((ScriptInstruction::PosZ { flag: b[pos + 1], depth: i16_le_at(b, pos + 2) }, pos + n))
        } else if op == 9 {
            Some((ScriptInstruction::Unk9 { flag: b[pos + 1], arg: u16_le_at(b, pos + 2) }, pos + n))
        } else if op == 10 {
            Some((ScriptInstruction::Unk10 { flag: b[pos + 1], arg: b[pos + 2], arg2: b[pos + 3] }, pos + n))
        } else if op == 11 {
            Some((ScriptInstruction::Unk11 { flag: b[pos + 1], arg: b[pos + 2], arg2: b[pos + 3] }, pos + n))
        } else if op == 13 {
            Some((ScriptInstruction::DoNotCheckAttack { }, pos + n))
        } else if op == 14 {
            Some((ScriptInstruction::SetStrikeInvuln { }, pos + n))
        } else if op == 15 {
            Some((ScriptInstruction::Reverse { flag: b[pos + 1], arg: u16_le_at(b, pos + 2) }, pos + n))
        } else if op == 16 {
            Some((ScriptInstruction::DrawNormal { flag: b[pos + 1], arg: u16_le_at(b, pos + 2) }, pos + n))
        } else if op == 17 {
            Some((ScriptInstruction::DrawReverse { flag: b[pos + 1], arg: u16_le_at(b, pos + 2) }, pos + n))
        } else if op == 18 {
            Some((ScriptInstruction::EnableCancel { flag: b[pos + 1], arg: u16_le_at(b, pos + 2) }, pos + n))
        } else if op == 19 {
            Some((ScriptInstruction::Unk19 { flag: b[pos + 1], arg: u16_le_at(b, pos + 2) }, pos + n))
        } else if op == 23 {
            Some((ScriptInstruction::OffsetXFromOwner { flag: b[pos + 1], magnitude: i16_le_at(b, pos + 2) }, pos + n))
        } else if op == 24 {
            Some((ScriptInstruction::OffsetYFromOwner { flag: b[pos + 1], magnitude: i16_le_at(b, pos + 2) }, pos + n))
        } else if op == 25 {
            Some((ScriptInstruction::InitInstance { flag: b[pos + 1], anime_no: u16_le_at(b, pos + 2), obj_no: u32_le_at(b, pos + 4), kind: u32_le_at(b, pos + 8), state_no: u16_le_at(b, pos + 12), is_check_col: u16_le_at(b, pos + 14) }, pos + n))
        } else if op == 26 {
            Some((ScriptInstruction::DeleteChildInstance { obj_no: b[pos + 1], flag: b[pos + 2], act_no: b[pos + 3] }, pos + n))
        } else if op == 27 {
            Some((ScriptInstruction::InitRqSound { data: b[pos + 1], flag: b[pos + 2], random_factor: b[pos + 3] }, pos + n))
        } else if op == 28 {
            Some((ScriptInstruction::InitEnemyHitSeMode { data: b[pos + 1], flag: b[pos + 2], random_factor: b[pos + 3] }, pos + n))
        } else if op == 29 {
            Some((ScriptInstruction::Unk29 { data: b[pos + 1], flag: b[pos + 2], random_factor: b[pos + 3] }, pos + n))
        } else if op == 30 {
            Some((ScriptInstruction::EnemyGuardModeVoice { data: b[pos + 1], flag: b[pos + 2], random_factor: b[pos + 3] }, pos + n))
        } else if op == 31 {
            Some((ScriptInstruction::EnemyDamageModeVoice { data: b[pos + 1], flag: b[pos + 2], random_factor: b[pos + 3] }, pos + n))
        } else if op == 33 {
            Some((ScriptInstruction::DownReturn { flag: b[pos + 1], arg: u16_le_at(b, pos + 2) }, pos + n))
        } else if op == 34 {
            Some((ScriptInstruction::HitGravity { flag: b[pos + 1], arg: i16_le_at(b, pos + 2) }, pos + n))
        } else if op == 35 {
            Some((ScriptInstruction::HitAirPushbackX { flag: b[pos + 1], arg: i16_le_at(b, pos + 2) }, pos + n))
        } else if op == 36 {
            Some((ScriptInstruction::HitAirPushbackY { flag: b[pos + 1], arg: i16_le_at(b, pos + 2) }, pos + n))
        } else if op == 38 {
            Some((ScriptInstruction::DeleteIttai { flag: b[pos + 1], arg: u16_le_at(b, pos + 2) }, pos + n))
        } else if op == 39 {
            Some((ScriptInstruction::Unk39 { flag: b[pos + 1], arg: u16_le_at(b, pos + 2) }, pos + n))
        } else if op == 40 {
            Some((ScriptInstruction::Unk40 { flag: b[pos + 1], arg: u16_le_at(b, pos + 2) }, pos + n))
        } else if op == 45 {
            Some((ScriptInstruction::Unk45 { flag: b[pos + 1], arg: u16_le_at(b, pos + 2) }, pos + n))
        } else if op == 47 {
            Some((ScriptInstruction::Unk47 { arg: u16_le_at(b, pos + 2) }, pos + n))
        } else if op == 48 {
            Some((ScriptInstruction::AttackLevel { arg: u16_le_at(b, pos + 2) }, pos + n))
        } else if op == 49 {
            Some((ScriptInstruction::Goto { flag: b[pos + 1], jump_target: u32_le_at(b, pos + 4) }, pos + n))
        } else if op == 50 {
            Some((ScriptInstruction::Untech { flag: b[pos + 1], arg: u16_le_at(b, pos + 2) }, pos + n))
        } else if op == 52 {
            Some((ScriptInstruction::AddTension { active: b[pos + 1], hit: u16_le_at(b, pos + 2) }, pos + n))
        } else if op == 53 {
            Some((ScriptInstruction::Unk53 { flag: b[pos + 1], arg: u16_le_at(b, pos + 2), arg2: u16_le_at(b, pos + 4), arg3: u16_le_at(b, pos + 6) }, pos + n))
        } else if op == 54 {
            Some((ScriptInstruction::Unk54 { flag: b[pos + 1], arg: u16_le_at(b, pos + 2) }, pos + n))
        } else if op == 55 {
            Some((ScriptInstruction::Unk55 { flag: b[pos + 1], arg: u16_le_at(b, pos + 2) }, pos + n))
        } else if op == 57 {
            Some((ScriptInstruction::Unk57 { flag: b[pos + 1], arg: u16_le_at(b, pos + 2) }, pos + n))
        } else if op == 58 {
            Some((ScriptInstruction::Unk58 { flag: b[pos + 1], arg: u16_le_at(b, pos + 2) }, pos + n))
        } else if op == 60 {
            Some((ScriptInstruction::Unk60 { flag: b[pos + 1], arg: u16_le_at(b, pos + 2) }, pos + n))
        } else if op == 61 {
            Some((ScriptInstruction::RemoveStrikeInvuln { }, pos + n))
        } else if op == 62 {
            Some((ScriptInstruction::Unk62 { flag: b[pos + 1], arg: u16_le_at(b, pos + 2) }, pos + n))
        } else if op == 63 {
            Some((ScriptInstruction::EnableCancelSecondary { flag: b[pos + 1], arg: u16_le_at(b, pos + 2) }, pos + n))
        } else if op == 64 {
            Some((ScriptInstruction::SuperFreeze { stop_self: b[pos + 1], stop_world: b[pos + 2], unk: b[pos + 3] }, pos + n))
        } else if op == 65 {
            Some((ScriptInstruction::XTransform { flag: b[pos + 1], magnitude: i16_le_at(b, pos + 2) }, pos + n))
        } else if op == 66 {
            Some((ScriptInstruction::YTransform { flag: b[pos + 1], magnitude: i16_le_at(b, pos + 2) }, pos + n))
        } else if op == 67 {
            Some((ScriptInstruction::SetGravity { flag: b[pos + 1], magnitude: i16_le_at(b, pos + 2) }, pos + n))
        } else if op == 68 {
            Some((ScriptInstruction::Unk68 { flag: b[pos + 1], arg: u16_le_at(b, pos + 2) }, pos + n))
        } else if op == 69 {
            Some((ScriptInstruction::Unk69 { flag: b[pos + 1], arg: u16_le_at(b, pos + 2) }, pos + n))
        } else if op == 70 {
            Some((ScriptInstruction::Unk70 { flag: b[pos + 1], arg: u16_le_at(b, pos + 2) }, pos + n))
        } else if op == 71 {
            Some((ScriptInstruction::Unk71 { flag: b[pos + 1], arg: u16_le_at(b, pos + 2), arg2: u32_le_at(b, pos + 4) }, pos + n))
        } else if op == 72 {
            Some((ScriptInstruction::Unk72 { flag: b[pos + 1], arg: u16_le_at(b, pos + 2) }, pos + n))
        } else if op == 73 {
            Some((ScriptInstruction::ChipDamage { flag: b[pos + 1], arg: u16_le_at(b, pos + 2) }, pos + n))
        } else if op == 74 {
            Some((ScriptInstruction::SetAttackStunVal { flag: b[pos + 1], arg: u16_le_at(b, pos + 2) }, pos + n))
        } else if op == 75 {
            Some((ScriptInstruction::Unk75 { flag: b[pos + 1], arg: u16_le_at(b, pos + 2) }, pos + n))
        } else if op == 76 {
            Some((ScriptInstruction::SetStance { flag: b[pos + 1], arg: u16_le_at(b, pos + 2) }, pos + n))
        } else if op == 77 {
            Some((ScriptInstruction::Unk77 { flag: b[pos + 1], arg: u16_le_at(b, pos + 2) }, pos + n))
        } else if op == 78 {
            Some((ScriptInstruction::SetProration { flag: b[pos + 1], arg: u16_le_at(b, pos + 2) }, pos + n))
        } else if op == 79 {
            Some((ScriptInstruction::Unk79 { flag: b[pos + 1], arg: u16_le_at(b, pos + 2) }, pos + n))
        } else if op == 80 {
            Some((ScriptInstruction::SetThrowInvuln { flag: b[pos + 1], arg: u16_le_at(b, pos + 2) }, pos + n))
        } else if op == 81 {
            Some((ScriptInstruction::Unk81 { flag: b[pos + 1], arg: u16_le_at(b, pos + 2) }, pos + n))
        } else if op == 82 {
            Some((ScriptInstruction::Unk82 { flag: b[pos + 1], arg: u16_le_at(b, pos + 2) }, pos + n))
        } else if op == 83 {
            Some((ScriptInstruction::Unk83 { flag: b[pos + 1], arg: u16_le_at(b, pos + 2) }, pos + n))
        } else if op == 84 {
            Some((ScriptInstruction::Pushback { flag: b[pos + 1], magnitude: i16_le_at(b, pos + 2) }, pos + n))
        } else if op == 85 {
            Some((ScriptInstruction::Stagger { flag: b[pos + 1], arg: u16_le_at(b, pos + 2) }, pos + n))
        } else if op == 86 {
            Some((ScriptInstruction::Unk86 { flag: b[pos + 1], obj_id: u16_le_at(b, pos + 2), buffered_act: u16_le_at(b, pos + 4), act_id: u16_le_at(b, pos + 6) }, pos + n))
        } else if op == 87 {
            Some((ScriptInstruction::Unk87 { flag: b[pos + 1], arg: u16_le_at(b, pos + 2) }, pos + n))
        } else if op == 88 {
            Some((ScriptInstruction::Unk88 { flag: b[pos + 1], arg: u16_le_at(b, pos + 2), arg2: u16_le_at(b, pos + 4), arg3: u16_le_at(b, pos + 6) }, pos + n))
        } else if op == 89 {
            Some((ScriptInstruction::Unk89 { flag: b[pos + 1], arg: u16_le_at(b, pos + 2) }, pos + n))
        } else if op == 90 {
            Some((ScriptInstruction::Unk90 { flag: b[pos + 1], arg: u16_le_at(b, pos + 2), arg2: u16_le_at(b, pos + 4), arg3: u16_le_at(b, pos + 6) }, pos + n))
        } else if op == 91 {
            Some((ScriptInstruction::Unk91 { flag: b[pos + 1], arg: u16_le_at(b, pos + 2), arg2: u32_le_at(b, pos + 4) }, pos + n))
        } else if op == 92 {
            Some((ScriptInstruction::JumpInstall { flag: b[pos + 1], arg: u16_le_at(b, pos + 2) }, pos + n))
        } else if op == 93 {
            Some((ScriptInstruction::Unk93 { flag: b[pos + 1], arg: u16_le_at(b, pos + 2) }, pos + n))
        } else if op == 94 {
            Some((ScriptInstruction::Unk94 { flag: b[pos + 1], arg: u16_le_at(b, pos + 2), arg2: u32_le_at(b, pos + 4) }, pos + n))
        } else if op == 95 {
            Some((ScriptInstruction::Unk95 { rsrv: b[pos + 1], arg1: u16_le_at(b, pos + 2), flag: u32_le_at(b, pos + 4), arg3: u16_le_at(b, pos + 8), arg4: u16_le_at(b, pos + 10) }, pos + n))
        } else if op == 96 {
            Some((ScriptInstruction::Unk96 { flag: b[pos + 1], arg1: u16_le_at(b, pos + 2), arg2: u16_le_at(b, pos + 4), arg3: u16_le_at(b, pos + 6) }, pos + n))
        } else if op == 97 {
            Some((ScriptInstruction::Unk97 { flag: b[pos + 1], arg1: u16_le_at(b, pos + 2), arg2: u16_le_at(b, pos + 4), arg3: u16_le_at(b, pos + 6), arg4: u16_le_at(b, pos + 8), arg5: u16_le_at(b, pos + 10) }, pos + n))
        } else if op == 98 {
            Some((ScriptInstruction::Unk98 { flag: b[pos + 1], arg: i16_le_at(b, pos + 2) }, pos + n))
        } else if op == 99 {
            Some((ScriptInstruction::Unk99 { flag: b[pos + 1], arg: u16_le_at(b, pos + 2) }, pos + n))
        } else if op == 100 {
            Some((ScriptInstruction::Unk100 { flag: b[pos + 1], arg1: u16_le_at(b, pos + 2), arg2: u32_le_at(b, pos + 4) }, pos + n))
        } else if op == 101 {
            Some((ScriptInstruction::SetAttackProperties { flag: b[pos + 1], arg: u16_le_at(b, pos + 2), unk1: b[pos + 4], unk2: b[pos + 5], unk3: b[pos + 6], unk4: b[pos + 7] }, pos + n))
        } else if op == 102 {
            Some((ScriptInstruction::Unk102 { flag: b[pos + 1], arg: u16_le_at(b, pos + 2), arg2: u16_le_at(b, pos + 4), arg3: u16_le_at(b, pos + 6) }, pos + n))
        } else if op == 103 {
            Some((ScriptInstruction::Unk103 { flag: b[pos + 1], arg: u16_le_at(b, pos + 2), arg2: u16_le_at(b, pos + 4), arg3: u16_le_at(b, pos + 6) }, pos + n))
        } else if op == 253 {
            Some((ScriptInstruction::ScriptEnd { flag: b[pos + 1], arg: u16_le_at(b, pos + 2) }, pos + n))
        } else if op == 255 {
            Some((ScriptInstruction::ActionEnd { flag: b[pos + 1], arg: u16_le_at(b, pos + 2) }, pos + n))
        } else {
            None
        }
    }
}

impl ScriptInstruction {
    /// Encode is a total function from variant to byte sequence: the
    /// fixed opcode byte, then each field in declared order and width,
    /// including the fields that decode discards.
    #[verifier::rlimit(50)]
    pub fn to_bytes(&self) -> (r: Vec<u8>)
        ensures
            r@ == spec_instr_bytes(*self),
    {
        let mut buffer: Vec<u8> = Vec::new();
        match self {
            ScriptInstruction::CellBegin { duration, cell_no } => {
                buffer.push(0u8);
                buffer.push(*duration);
                push_u16_le(&mut buffer, *cell_no);
                proof {
                    assert(buffer@ =~= spec_instr_bytes(*self));
                }
            }
            ScriptInstruction::Unk1 { flag, arg } => {
                buffer.push(1u8);
                buffer.push(*flag);
                push_u16_le(&mut buffer, *arg);
                proof {
                    assert(buffer@ =~= spec_instr_bytes(*self));
                }
            }
            ScriptInstruction::Unk2 { flag, arg } => {
                buffer.push(2u8);
                buffer.push(*flag);
                push_u16_le(&mut buffer, *arg);
                proof {
                    assert(buffer@ =~= spec_instr_bytes(*self));
                }
            }
            ScriptInstruction::Recovery { flag, arg } => {
                buffer.push(3u8);
                buffer.push(*flag);
                push_u16_le(&mut buffer, *arg);
                proof {
                    assert(buffer@ =~= spec_instr_bytes(*self));
                }
            }
            ScriptInstruction::RenewCollision { flag, arg } => {
                buffer.push(4u8);
                buffer.push(*flag);
                push_u16_le(&mut buffer, *arg);
                proof {
                    assert(buffer@ =~= spec_instr_bytes(*self));
                }
            }
            ScriptInstruction::Unk5 { flag } => {
                buffer.push(5u8);
                buffer.push(*flag);
                buffer.push(0u8);
                buffer.push(0u8);
                proof {
                    assert(buffer@ =~= spec_instr_bytes(*self));
                }
            }
            ScriptInstruction::Unk6 { flag, arg } => {
                buffer.push(6u8);
                buffer.push(*flag);
                push_u16_le(&mut buffer, *arg);
                proof {
                    assert(buffer@ =~= spec_instr_bytes(*self));
                }
            }
            ScriptInstruction::Scale { flag, stretch } => {
                buffer.push(7u8);
                buffer.push(*flag);
                push_i16_le(&mut buffer, *stretch);
                proof {
                    assert(buffer@ =~= spec_instr_bytes(*self));
                }
            }
            ScriptInstruction::PosZ { flag, depth } => {
                buffer.push(8u8);
                buffer.push(*flag);
                push_i16_le(&mut buffer, *depth);
                proof {
                    assert(buffer@ =~= spec_instr_bytes(*self));
                }
            }
            ScriptInstruction::Unk9 { flag, arg } => {
                buffer.push(9u8);
                buffer.push(*flag);
                push_u16_le(&mut buffer, *arg);
                proof {
                    assert(buffer@ =~= spec_instr_bytes(*self));
                }
            }
            ScriptInstruction::Unk10 { flag, arg, arg2 } => {
                buffer.push(10u8);
                buffer.push(*flag);
                buffer.push(*arg);
                buffer.push(*arg2);
                proof {
                    assert(buffer@ =~= spec_instr_bytes(*self));
                }
            }
            ScriptInstruction::Unk11 { flag, arg, arg2 } => {
                buffer.push(11u8);
                buffer.push(*flag);
                buffer.push(*arg);
                buffer.push(*arg2);
                proof {
                    assert(buffer@ =~= spec_instr_bytes(*self));
                }
            }
            ScriptInstruction::DoNotCheckAttack { } => {
                buffer.push(13u8);
                buffer.push(0u8);
                buffer.push(0u8);
                buffer.push(0u8);
                proof {
                    assert(buffer@ =~= spec_instr_bytes(*self));
                }
            }
            ScriptInstruction::SetStrikeInvuln { } => {
                buffer.push(14u8);
                buffer.push(0u8);
                buffer.push(0u8);
                buffer.push(0u8);
                proof {
                    assert(buffer@ =~= spec_instr_bytes(*self));
                }
            }
            ScriptInstruction::Reverse { flag, arg } => {
                buffer.push(15u8);
                buffer.push(*flag);
                push_u16_le(&mut buffer, *arg);
                proof {
                    assert(buffer@ =~= spec_instr_bytes(*self));
                }
            }
            ScriptInstruction::DrawNormal { flag, arg } => {
                buffer.push(16u8);
                buffer.push(*flag);
                push_u16_le(&mut buffer, *arg);
                proof {
                    assert(buffer@ =~= spec_instr_bytes(*self));
                }
            }
            ScriptInstruction::DrawReverse { flag, arg } => {
                buffer.push(17u8);
                buffer.push(*flag);
                push_u16_le(&mut buffer, *arg);
                proof {
                    assert(buffer@ =~= spec_instr_bytes(*self));
                }
            }
            ScriptInstruction::EnableCancel { flag, arg } => {
                buffer.push(18u8);
                buffer.push(*flag);
                push_u16_le(&mut buffer, *arg);
                proof {
                    assert(buffer@ =~= spec_instr_bytes(*self));
                }
            }
            ScriptInstruction::Unk19 { flag, arg } => {
                buffer.push(19u8);
                buffer.push(*flag);
                push_u16_le(&mut buffer, *arg);
                proof {
                    assert(buffer@ =~= spec_instr_bytes(*self));
                }
            }
            ScriptInstruction::OffsetXFromOwner { flag, magnitude } => {
                buffer.push(23u8);
                buffer.push(*flag);
                push_i16_le(&mut buffer, *magnitude);
                proof {
                    assert(buffer@ =~= spec_instr_bytes(*self));
                }
            }
            ScriptInstruction::OffsetYFromOwner { flag, magnitude } => {
                buffer.push(24u8);
                buffer.push(*flag);
                push_i16_le(&mut buffer, *magnitude);
                proof {
                    assert(buffer@ =~= spec_instr_bytes(*self));
                }
            }
            ScriptInstruction::InitInstance { flag, anime_no, obj_no, kind, state_no, is_check_col } => {
                buffer.push(25u8);
                buffer.push(*flag);
                push_u16_le(&mut buffer, *anime_no);
                push_u32_le(&mut buffer, *obj_no);
                push_u32_le(&mut buffer, *kind);
                push_u16_le(&mut buffer, *state_no);
                push_u16_le(&mut buffer, *is_check_col);
                proof {
                    assert(buffer@ =~= spec_instr_bytes(*self));
                }
            }
            ScriptInstruction::DeleteChildInstance { obj_no, flag, act_no } => {
                buffer.push(26u8);
                buffer.push(*obj_no);
                buffer.push(*flag);
                buffer.push(*act_no);
                proof {
                    assert(buffer@ =~= spec_instr_bytes(*self));
                }
            }
            ScriptInstruction::InitRqSound { data, flag, random_factor } => {
                buffer.push(27u8);
                buffer.push(*data);
                buffer.push(*flag);
                buffer.push(*random_factor);
                proof {
                    assert(buffer@ =~= spec_instr_bytes(*self));
                }
            }
            ScriptInstruction::InitEnemyHitSeMode { data, flag, random_factor } => {
                buffer.push(28u8);
                buffer.push(*data);
                buffer.push(*flag);
                buffer.push(*random_factor);
                proof {
                    assert(buffer@ =~= spec_instr_bytes(*self));
                }
            }
            ScriptInstruction::Unk29 { data, flag, random_factor } => {
                buffer.push(29u8);
                buffer.push(*data);
                buffer.push(*flag);
                buffer.push(*random_factor);
                proof {
                    assert(buffer@ =~= spec_instr_bytes(*self));
                }
            }
            ScriptInstruction::EnemyGuardModeVoice { data, flag, random_factor } => {
                buffer.push(30u8);
                buffer.push(*data);
                buffer.push(*flag);
                buffer.push(*random_factor);
                proof {
                    assert(buffer@ =~= spec_instr_bytes(*self));
                }
            }
            ScriptInstruction::EnemyDamageModeVoice { data, flag, random_factor } => {
                buffer.push(31u8);
                buffer.push(*data);
                buffer.push(*flag);
                buffer.push(*random_factor);
                proof {
                    assert(buffer@ =~= spec_instr_bytes(*self));
                }
            }
            ScriptInstruction::DownReturn { flag, arg } => {
                buffer.push(33u8);
                buffer.push(*flag);
                push_u16_le(&mut buffer, *arg);
                proof {
                    assert(buffer@ =~= spec_instr_bytes(*self));
                }
            }
            ScriptInstruction::HitGravity { flag, arg } => {
                buffer.push(34u8);
                buffer.push(*flag);
                push_i16_le(&mut buffer, *arg);
                proof {
                    assert(buffer@ =~= spec_instr_bytes(*self));
                }
            }
            ScriptInstruction::HitAirPushbackX { flag, arg } => {
                buffer.push(35u8);
                buffer.push(*flag);
                push_i16_le(&mut buffer, *arg);
                proof {
                    assert(buffer@ =~= spec_instr_bytes(*self));
                }
            }
            ScriptInstruction::HitAirPushbackY { flag, arg } => {
                buffer.push(36u8);
                buffer.push(*flag);
                push_i16_le(&mut buffer, *arg);
                proof {
                    assert(buffer@ =~= spec_instr_bytes(*self));
                }
            }
            ScriptInstruction::DeleteIttai { flag, arg } => {
                buffer.push(38u8);
                buffer.push(*flag);
                push_u16_le(&mut buffer, *arg);
                proof {
                    assert(buffer@ =~= spec_instr_bytes(*self));
                }
            }
            ScriptInstruction::Unk39 { flag, arg } => {
                buffer.push(39u8);
                buffer.push(*flag);
                push_u16_le(&mut buffer, *arg);
                proof {
                    assert(buffer@ =~= spec_instr_bytes(*self));
                }
            }
            ScriptInstruction::Unk40 { flag, arg } => {
                buffer.push(40u8);
                buffer.push(*flag);
                push_u16_le(&mut buffer, *arg);
                proof {
                    assert(buffer@ =~= spec_instr_bytes(*self));
                }
            }
            ScriptInstruction::Unk45 { flag, arg } => {
                buffer.push(45u8);
                buffer.push(*flag);
                push_u16_le(&mut buffer, *arg);
                proof {
                    assert(buffer@ =~= spec_instr_bytes(*self));
                }
            }
            ScriptInstruction::Unk47 { arg } => {
                buffer.push(47u8);
                buffer.push(0u8);
                push_u16_le(&mut buffer, *arg);
                proof {
                    assert(buffer@ =~= spec_instr_bytes(*self));
                }
            }
            ScriptInstruction::AttackLevel { arg } => {
                buffer.push(48u8);
                buffer.push(0u8);
                push_u16_le(&mut buffer, *arg);
                proof {
                    assert(buffer@ =~= spec_instr_bytes(*self));
                }
            }
            ScriptInstruction::Goto { flag, jump_target } => {
                buffer.push(49u8);
                buffer.push(*flag);
                buffer.push(0u8);
                buffer.push(0u8);
                push_u32_le(&mut buffer, *jump_target);
                proof {
                    assert(buffer@ =~= spec_instr_bytes(*self));
                }
            }
            ScriptInstruction::Untech { flag, arg } => {
                buffer.push(50u8);
                buffer.push(*flag);
                push_u16_le(&mut buffer, *arg);
                proof {
                    assert(buffer@ =~= spec_instr_bytes(*self));
                }
            }
            ScriptInstruction::AddTension { active, hit } => {
                buffer.push(52u8);
                buffer.push(*active);
                push_u16_le(&mut buffer, *hit);
                proof {
                    assert(buffer@ =~= spec_instr_bytes(*self));
                }
            }
            ScriptInstruction::Unk53 { flag, arg, arg2, arg3 } => {
                buffer.push(53u8);
                buffer.push(*flag);
                push_u16_le(&mut buffer, *arg);
                push_u16_le(&mut buffer, *arg2);
                push_u16_le(&mut buffer, *arg3);
                proof {
                    assert(buffer@ =~= spec_instr_bytes(*self));
                }
            }
            ScriptInstruction::Unk54 { flag, arg } => {
                buffer.push(54u8);
                buffer.push(*flag);
                push_u16_le(&mut buffer, *arg);
                proof {
                    assert(buffer@ =~= spec_instr_bytes(*self));
                }
            }
            ScriptInstruction::Unk55 { flag, arg } => {
                buffer.push(55u8);
                buffer.push(*flag);
                push_u16_le(&mut buffer, *arg);
                proof {
                    assert(buffer@ =~= spec_instr_bytes(*self));
                }
            }
            ScriptInstruction::Unk57 { flag, arg } => {
                buffer.push(57u8);
                buffer.push(*flag);
                push_u16_le(&mut buffer, *arg);
                proof {
                    assert(buffer@ =~= spec_instr_bytes(*self));
                }
            }
            ScriptInstruction::Unk58 { flag, arg } => {
                buffer.push(58u8);
                buffer.push(*flag);
                push_u16_le(&mut buffer, *arg);
                proof {
                    assert(buffer@ =~= spec_instr_bytes(*self));
                }
            }
            ScriptInstruction::Unk60 { flag, arg } => {
                buffer.push(60u8);
                buffer.push(*flag);
                push_u16_le(&mut buffer, *arg);
                proof {
                    assert(buffer@ =~= spec_instr_bytes(*self));
                }
            }
            ScriptInstruction::RemoveStrikeInvuln { } => {
                buffer.push(61u8);
                buffer.push(0u8);
                buffer.push(0u8);
                buffer.push(0u8);
                proof {
                    assert(buffer@ =~= spec_instr_bytes(*self));
                }
            }
            ScriptInstruction::Unk62 { flag, arg } => {
                buffer.push(62u8);
                buffer.push(*flag);
                push_u16_le(&mut buffer, *arg);
                proof {
                    assert(buffer@ =~= spec_instr_bytes(*self));
                }
            }
            ScriptInstruction::EnableCancelSecondary { flag, arg } => {
                buffer.push(63u8);
                buffer.push(*flag);
                push_u16_le(&mut buffer, *arg);
                proof {
                    assert(buffer@ =~= spec_instr_bytes(*self));
                }
            }
            ScriptInstruction::SuperFreeze { stop_self, stop_world, unk } => {
                buffer.push(64u8);
                buffer.push(*stop_self);
                buffer.push(*stop_world);
                buffer.push(*unk);
                proof {
                    assert(buffer@ =~= spec_instr_bytes(*self));
                }
            }
            ScriptInstruction::XTransform { flag, magnitude } => {
                buffer.push(65u8);
                buffer.push(*flag);
                push_i16_le(&mut buffer, *magnitude);
                proof {
                    assert(buffer@ =~= spec_instr_bytes(*self));
                }
            }
            ScriptInstruction::YTransform { flag, magnitude } => {
                buffer.push(66u8);
                buffer.push(*flag);
                push_i16_le(&mut buffer, *magnitude);
                proof {
                    assert(buffer@ =~= spec_instr_bytes(*self));
                }
            }
            ScriptInstruction::SetGravity { flag, magnitude } => {
                buffer.push(67u8);
                buffer.push(*flag);
                push_i16_le(&mut buffer, *magnitude);
                proof {
                    assert(buffer@ =~= spec_instr_bytes(*self));
                }
            }
            ScriptInstruction::Unk68 { flag, arg } => {
                buffer.push(68u8);
                buffer.push(*flag);
                push_u16_le(&mut buffer, *arg);
                proof {
                    assert(buffer@ =~= spec_instr_bytes(*self));
                }
            }
            ScriptInstruction::Unk69 { flag, arg } => {
                buffer.push(69u8);
                buffer.push(*flag);
                push_u16_le(&mut buffer, *arg);
                proof {
                    assert(buffer@ =~= spec_instr_bytes(*self));
                }
            }
            ScriptInstruction::Unk70 { flag, arg } => {
                buffer.push(70u8);
                buffer.push(*flag);
                push_u16_le(&mut buffer, *arg);
                proof {
                    assert(buffer@ =~= spec_instr_bytes(*self));
                }
            }
            ScriptInstruction::Unk71 { flag, arg, arg2 } => {
                buffer.push(71u8);
                buffer.push(*flag);
                push_u16_le(&mut buffer, *arg);
                push_u32_le(&mut buffer, *arg2);
                proof {
                    assert(buffer@ =~= spec_instr_bytes(*self));
                }
            }
            ScriptInstruction::Unk72 { flag, arg } => {
                buffer.push(72u8);
                buffer.push(*flag);
                push_u16_le(&mut buffer, *arg);
                proof {
                    assert(buffer@ =~= spec_instr_bytes(*self));
                }
            }
            ScriptInstruction::ChipDamage { flag, arg } => {
                buffer.push(73u8);
                buffer.push(*flag);
                push_u16_le(&mut buffer, *arg);
                proof {
                    assert(buffer@ =~= spec_instr_bytes(*self));
                }
            }
            ScriptInstruction::SetAttackStunVal { flag, arg } => {
                buffer.push(74u8);
                buffer.push(*flag);
                push_u16_le(&mut buffer, *arg);
                proof {
                    assert(buffer@ =~= spec_instr_bytes(*self));
                }
            }
            ScriptInstruction::Unk75 { flag, arg } => {
                buffer.push(75u8);
                buffer.push(*flag);
                push_u16_le(&mut buffer, *arg);
                proof {
                    assert(buffer@ =~= spec_instr_bytes(*self));
                }
            }
            ScriptInstruction::SetStance { flag, arg } => {
                buffer.push(76u8);
                buffer.push(*flag);
                push_u16_le(&mut buffer, *arg);
                proof {
                    assert(buffer@ =~= spec_instr_bytes(*self));
                }
            }
            ScriptInstruction::Unk77 { flag, arg } => {
                buffer.push(77u8);
                buffer.push(*flag);
                push_u16_le(&mut buffer, *arg);
                proof {
                    assert(buffer@ =~= spec_instr_bytes(*self));
                }
            }
            ScriptInstruction::SetProration { flag, arg } => {
                buffer.push(78u8);
                buffer.push(*flag);
                push_u16_le(&mut buffer, *arg);
                proof {
                    assert(buffer@ =~= spec_instr_bytes(*self));
                }
            }
            ScriptInstruction::Unk79 { flag, arg } => {
                buffer.push(79u8);
                buffer.push(*flag);
                push_u16_le(&mut buffer, *arg);
                proof {
                    assert(buffer@ =~= spec_instr_bytes(*self));
                }
            }
            ScriptInstruction::SetThrowInvuln { flag, arg } => {
                buffer.push(80u8);
                buffer.push(*flag);
                push_u16_le(&mut buffer, *arg);
                proof {
                    assert(buffer@ =~= spec_instr_bytes(*self));
                }
            }
            ScriptInstruction::Unk81 { flag, arg } => {
                buffer.push(81u8);
                buffer.push(*flag);
                push_u16_le(&mut buffer, *arg);
                proof {
                    assert(buffer@ =~= spec_instr_bytes(*self));
                }
            }
            ScriptInstruction::Unk82 { flag, arg } => {
                buffer.push(82u8);
                buffer.push(*flag);
                push_u16_le(&mut buffer, *arg);
                proof {
                    assert(buffer@ =~= spec_instr_bytes(*self));
                }
            }
            ScriptInstruction::Unk83 { flag, arg } => {
                buffer.push(83u8);
                buffer.push(*flag);
                push_u16_le(&mut buffer, *arg);
                proof {
                    assert(buffer@ =~= spec_instr_bytes(*self));
                }
            }
            ScriptInstruction::Pushback { flag, magnitude } => {
                buffer.push(84u8);
                buffer.push(*flag);
                push_i16_le(&mut buffer, *magnitude);
                proof {
                    assert(buffer@ =~= spec_instr_bytes(*self));
                }
            }
            ScriptInstruction::Stagger { flag, arg } => {
                buffer.push(85u8);
                buffer.push(*flag);
                push_u16_le(&mut buffer, *arg);
                proof {
                    assert(buffer@ =~= spec_instr_bytes(*self));
                }
            }
            ScriptInstruction::Unk86 { flag, obj_id, buffered_act, act_id } => {
                buffer.push(86u8);
                buffer.push(*flag);
                push_u16_le(&mut buffer, *obj_id);
                push_u16_le(&mut buffer, *buffered_act);
                push_u16_le(&mut buffer, *act_id);
                proof {
                    assert(buffer@ =~= spec_instr_bytes(*self));
                }
            }
            ScriptInstruction::Unk87 { flag, arg } => {
                buffer.push(87u8);
                buffer.push(*flag);
                push_u16_le(&mut buffer, *arg);
                proof {
                    assert(buffer@ =~= spec_instr_bytes(*self));
                }
            }
            ScriptInstruction::Unk88 { flag, arg, arg2, arg3 } => {
                buffer.push(88u8);
                buffer.push(*flag);
                push_u16_le(&mut buffer, *arg);
                push_u16_le(&mut buffer, *arg2);
                push_u16_le(&mut buffer, *arg3);
                proof {
                    assert(buffer@ =~= spec_instr_bytes(*self));
                }
            }
            ScriptInstruction::Unk89 { flag, arg } => {
                buffer.push(89u8);
                buffer.push(*flag);
                push_u16_le(&mut buffer, *arg);
                proof {
                    assert(buffer@ =~= spec_instr_bytes(*self));
                }
            }
            ScriptInstruction::Unk90 { flag, arg, arg2, arg3 } => {
                buffer.push(90u8);
                buffer.push(*flag);
                push_u16_le(&mut buffer, *arg);
                push_u16_le(&mut buffer, *arg2);
                push_u16_le(&mut buffer, *arg3);
                proof {
                    assert(buffer@ =~= spec_instr_bytes(*self));
                }
            }
            ScriptInstruction::Unk91 { flag, arg, arg2 } => {
                buffer.push(91u8);
                buffer.push(*flag);
                push_u16_le(&mut buffer, *arg);
                push_u32_le(&mut buffer, *arg2);
                proof {
                    assert(buffer@ =~= spec_instr_bytes(*self));
                }
            }
            ScriptInstruction::JumpInstall { flag, arg } => {
                buffer.push(92u8);
                buffer.push(*flag);
                push_u16_le(&mut buffer, *arg);
                proof {
                    assert(buffer@ =~= spec_instr_bytes(*self));
                }
            }
            ScriptInstruction::Unk93 { flag, arg } => {
                buffer.push(93u8);
                buffer.push(*flag);
                push_u16_le(&mut buffer, *arg);
                proof {
                    assert(buffer@ =~= spec_instr_bytes(*self));
                }
            }
            ScriptInstruction::Unk94 { flag, arg, arg2 } => {
                buffer.push(94u8);
                buffer.push(*flag);
                push_u16_le(&mut buffer, *arg);
                push_u32_le(&mut buffer, *arg2);
                proof {
                    assert(buffer@ =~= spec_instr_bytes(*self));
                }
            }
            ScriptInstruction::Unk95 { rsrv, arg1, flag, arg3, arg4 } => {
                buffer.push(95u8);
                buffer.push(*rsrv);
                push_u16_le(&mut buffer, *arg1);
                push_u32_le(&mut buffer, *flag);
                push_u16_le(&mut buffer, *arg3);
                push_u16_le(&mut buffer, *arg4);
                proof {
                    assert(buffer@ =~= spec_instr_bytes(*self));
                }
            }
            ScriptInstruction::Unk96 { flag, arg1, arg2, arg3 } => {
                buffer.push(96u8);
                buffer.push(*flag);
                push_u16_le(&mut buffer, *arg1);
                push_u16_le(&mut buffer, *arg2);
                push_u16_le(&mut buffer, *arg3);
                proof {
                    assert(buffer@ =~= spec_instr_bytes(*self));
                }
            }
            ScriptInstruction::Unk97 { flag, arg1, arg2, arg3, arg4, arg5 } => {
                buffer.push(97u8);
                buffer.push(*flag);
                push_u16_le(&mut buffer, *arg1);
                push_u16_le(&mut buffer, *arg2);
                push_u16_le(&mut buffer, *arg3);
                push_u16_le(&mut buffer, *arg4);
                push_u16_le(&mut buffer, *arg5);
                proof {
                    assert(buffer@ =~= spec_instr_bytes(*self));
                }
            }
            ScriptInstruction::Unk98 { flag, arg } => {
                buffer.push(98u8);
                buffer.push(*flag);
                push_i16_le(&mut buffer, *arg);
                proof {
                    assert(buffer@ =~= spec_instr_bytes(*self));
                }
            }
            ScriptInstruction::Unk99 { flag, arg } => {
                buffer.push(99u8);
                buffer.push(*flag);
                push_u16_le(&mut buffer, *arg);
                proof {
                    assert(buffer@ =~= spec_instr_bytes(*self));
                }
            }
            ScriptInstruction::Unk100 { flag, arg1, arg2 } => {
                buffer.push(100u8);
                buffer.push(*flag);
                push_u16_le(&mut buffer, *arg1);
                push_u32_le(&mut buffer, *arg2);
                proof {
                    assert(buffer@ =~= spec_instr_bytes(*self));
                }
            }
            ScriptInstruction::SetAttackProperties { flag, arg, unk1, unk2, unk3, unk4 } => {
                buffer.push(101u8);
                buffer.push(*flag);
                push_u16_le(&mut buffer, *arg);
                buffer.push(*unk1);
                buffer.push(*unk2);
                buffer.push(*unk3);
                buffer.push(*unk4);
                proof {
                    assert(buffer@ =~= spec_instr_bytes(*self));
                }
            }
            ScriptInstruction::Unk102 { flag, arg, arg2, arg3 } => {
                buffer.push(102u8);
                buffer.push(*flag);
                push_u16_le(&mut buffer, *arg);
                push_u16_le(&mut buffer, *arg2);
                push_u16_le(&mut buffer, *arg3);
                proof {
                    assert(buffer@ =~= spec_instr_bytes(*self));
                }
            }
            ScriptInstruction::Unk103 { flag, arg, arg2, arg3 } => {
                buffer.push(103u8);
                buffer.push(*flag);
                push_u16_le(&mut buffer, *arg);
                push_u16_le(&mut buffer, *arg2);
                push_u16_le(&mut buffer, *arg3);
                proof {
                    assert(buffer@ =~= spec_instr_bytes(*self));
                }
            }
            ScriptInstruction::ScriptEnd { flag, arg } => {
                buffer.push(253u8);
                buffer.push(*flag);
                push_u16_le(&mut buffer, *arg);
                proof {
                    assert(buffer@ =~= spec_instr_bytes(*self));
                }
            }
            ScriptInstruction::ActionEnd { flag, arg } => {
                buffer.push(255u8);
                buffer.push(*flag);
                push_u16_le(&mut buffer, *arg);
                proof {
                    assert(buffer@ =~= spec_instr_bytes(*self));
                }
            }
        }
        buffer
    }
}

/// Decodes one instruction at `pos`. An opcode byte outside the known set
/// is a hard decode failure, as is a payload that runs past the input.
#[verifier::rlimit(50)]
pub fn parse_instr(b: &[u8], pos: usize) -> (r: Result<(ScriptInstruction, usize), Error>)
    requires
        pos <= b@.len(),
    ensures
        match spec_parse_instr(b@, pos as int) {
            Some(t) => r matches Ok(o) && o.0 == t.0 && o.1 == t.1,
            None => r matches Err(e) && e.is_parser(),
        },
{
    let n_total: usize = b.len();
    if pos >= n_total {
        return Err(Error::Parser("instruction: end of input".to_string()));
    }
    let op = read_u8(b, pos);
    if op == 0 {
        if n_total - pos < 4 {
            return Err(Error::Parser("instruction: truncated input".to_string()));
        }
        let duration = read_u8(b, pos + 1);
        let cell_no = read_u16_le(b, pos + 2);
        Ok((ScriptInstruction::CellBegin { duration, cell_no }, pos + 4))
    } else if op == 1 {
        if n_total - pos < 4 {
            return Err(Error::Parser("instruction: truncated input".to_string()));
        }
        let flag = read_u8(b, pos + 1);
        let arg = read_u16_le(b, pos + 2);
        Ok((ScriptInstruction::Unk1 { flag, arg }, pos + 4))
    } else if op == 2 {
        if n_total - pos < 4 {
            return Err(Error::Parser("instruction: truncated input".to_string()));
        }
        let flag = read_u8(b, pos + 1);
        let arg = read_u16_le(b, pos + 2);
        Ok((ScriptInstruction::Unk2 { flag, arg }, pos + 4))
    } else if op == 3 {
        if n_total - pos < 4 {
            return Err(Error::Parser("instruction: truncated input".to_string()));
        }
        let flag = read_u8(b, pos + 1);
        let arg = read_u16_le(b, pos + 2);
        Ok((ScriptInstruction::Recovery { flag, arg }, pos + 4))
    } else if op == 4 {
        if n_total - pos < 4 {
            return Err(Error::Parser("instruction: truncated input".to_string()));
        }
        let flag = read_u8(b, pos + 1);
        let arg = read_u16_le(b, pos + 2);
        Ok((ScriptInstruction::RenewCollision { flag, arg }, pos + 4))
    } else if op == 5 {
        if n_total - pos < 4 {
            return Err(Error::Parser("instruction: truncated input".to_string()));
        }
        let flag = read_u8(b, pos + 1);
        Ok((ScriptInstruction::Unk5 { flag }, pos + 4))
    } else if op == 6 {
        if n_total - pos < 4 {
            return Err(Error::Parser("instruction: truncated input".to_string()));
        }
        let flag = read_u8(b, pos + 1);
        let arg = read_u16_le(b, pos + 2);
        Ok((ScriptInstruction::Unk6 { flag, arg }, pos + 4))
    } else if op == 7 {
        if n_total - pos < 4 {
            return Err(Error::Parser("instruction: truncated input".to_string()));
        }
        let flag = read_u8(b, pos + 1);
        let stretch = read_i16_le(b, pos + 2);
        Ok((ScriptInstruction::Scale { flag, stretch }, pos + 4))
    } else if op == 8 {
        if n_total - pos < 4 {
            return Err(Error::Parser("instruction: truncated input".to_string()));
        }
        let flag = read_u8(b, pos + 1);
        let depth = read_i16_le(b, pos + 2);
        Ok((ScriptInstruction::PosZ { flag, depth }, pos + 4))
    } else if op == 9 {
        if n_total - pos < 4 {
            return Err(Error::Parser("instruction: truncated input".to_string()));
        }
        let flag = read_u8(b, pos + 1);
        let arg = read_u16_le(b, pos + 2);
        Ok((ScriptInstruction::Unk9 { flag, arg }, pos + 4))
    } else if op == 10 {
        if n_total - pos < 4 {
            return Err(Error::Parser("instruction: truncated input".to_string()));
        }
        let flag = read_u8(b, pos + 1);
        let arg = read_u8(b, pos + 2);
        let arg2 = read_u8(b, pos + 3);
        Ok((ScriptInstruction::Unk10 { flag, arg, arg2 }, pos + 4))
    } else if op == 11 {
        if n_total - pos < 4 {
            return Err(Error::Parser("instruction: truncated input".to_string()));
        }
        let flag = read_u8(b, pos + 1);
        let arg = read_u8(b, pos + 2);
        let arg2 = read_u8(b, pos + 3);
        Ok((ScriptInstruction::Unk11 { flag, arg, arg2 }, pos + 4))
    } else if op == 13 {
        if n_total - pos < 4 {
            return Err(Error::Parser("instruction: truncated input".to_string()));
        }
        Ok((ScriptInstruction::DoNotCheckAttack { }, pos + 4))
    } else if op == 14 {
        if n_total - pos < 4 {
            return Err(Error::Parser("instruction: truncated input".to_string()));
        }
        Ok((ScriptInstruction::SetStrikeInvuln { }, pos + 4))
    } else if op == 15 {
        if n_total - pos < 4 {
            return Err(Error::Parser("instruction: truncated input".to_string()));
        }
        let flag = read_u8(b, pos + 1);
        let arg = read_u16_le(b, pos + 2);
        Ok((ScriptInstruction::Reverse { flag, arg }, pos + 4))
    } else if op == 16 {
        if n_total - pos < 4 {
            return Err(Error::Parser("instruction: truncated input".to_string()));
        }
        let flag = read_u8(b, pos + 1);
        let arg = read_u16_le(b, pos + 2);
        Ok((ScriptInstruction::DrawNormal { flag, arg }, pos + 4))
    } else if op == 17 {
        if n_total - pos < 4 {
            return Err(Error::Parser("instruction: truncated input".to_string()));
        }
        let flag = read_u8(b, pos + 1);
        let arg = read_u16_le(b, pos + 2);
        Ok((ScriptInstruction::DrawReverse { flag, arg }, pos + 4))
    } else if op == 18 {
        if n_total - pos < 4 {
            return Err(Error::Parser("instruction: truncated input".to_string()));
        }
        let flag = read_u8(b, pos + 1);
        let arg = read_u16_le(b, pos + 2);
        Ok((ScriptInstruction::EnableCancel { flag, arg }, pos + 4))
    } else if op == 19 {
        if n_total - pos < 4 {
            return Err(Error::Parser("instruction: truncated input".to_string()));
        }
        let flag = read_u8(b, pos + 1);
        let arg = read_u16_le(b, pos + 2);
        Ok((ScriptInstruction::Unk19 { flag, arg }, pos + 4))
    } else if op == 23 {
        if n_total - pos < 4 {
            return Err(Error::Parser("instruction: truncated input".to_string()));
        }
        let flag = read_u8(b, pos + 1);
        let magnitude = read_i16_le(b, pos + 2);
        Ok((ScriptInstruction::OffsetXFromOwner { flag, magnitude }, pos + 4))
    } else if op == 24 {
        if n_total - pos < 4 {
            return Err(Error::Parser("instruction: truncated input".to_string()));
        }
        let flag = read_u8(b, pos + 1);
        let magnitude = read_i16_le(b, pos + 2);
        Ok((ScriptInstruction::OffsetYFromOwner { flag, magnitude }, pos + 4))
    } else if op == 25 {
        if n_total - pos < 16 {
            return Err(Error::Parser("instruction: truncated input".to_string()));
        }
        let flag = read_u8(b, pos + 1);
        let anime_no = read_u16_le(b, pos + 2);
        let obj_no = read_u32_le(b, pos + 4);
        let kind = read_u32_le(b, pos + 8);
        let state_no = read_u16_le(b, pos + 12);
        let is_check_col = read_u16_le(b, pos + 14);
        Ok((ScriptInstruction::InitInstance { flag, anime_no, obj_no, kind, state_no, is_check_col }, pos + 16))
    } else if op == 26 {
        if n_total - pos < 4 {
            return Err(Error::Parser("instruction: truncated input".to_string()));
        }
        let obj_no = read_u8(b, pos + 1);
        let flag = read_u8(b, pos + 2);
        let act_no = read_u8(b, pos + 3);
        Ok((ScriptInstruction::DeleteChildInstance { obj_no, flag, act_no }, pos + 4))
    } else if op == 27 {
        if n_total - pos < 4 {
            return Err(Error::Parser("instruction: truncated input".to_string()));
        }
        let data = read_u8(b, pos + 1);
        let flag = read_u8(b, pos + 2);
        let random_factor = read_u8(b, pos + 3);
        Ok((ScriptInstruction::InitRqSound { data, flag, random_factor }, pos + 4))
    } else if op == 28 {
        if n_total - pos < 4 {
            return Err(Error::Parser("instruction: truncated input".to_string()));
        }
        let data = read_u8(b, pos + 1);
        let flag = read_u8(b, pos + 2);
        let random_factor = read_u8(b, pos + 3);
        Ok((ScriptInstruction::InitEnemyHitSeMode { data, flag, random_factor }, pos + 4))
    } else if op == 29 {
        if n_total - pos < 4 {
            return Err(Error::Parser("instruction: truncated input".to_string()));
        }
        let data = read_u8(b, pos + 1);
        let flag = read_u8(b, pos + 2);
        let random_factor = read_u8(b, pos + 3);
        Ok((ScriptInstruction::Unk29 { data, flag, random_factor }, pos + 4))
    } else if op == 30 {
        if n_total - pos < 4 {
            return Err(Error::Parser("instruction: truncated input".to_string()));
        }
        let data = read_u8(b, pos + 1);
        let flag = read_u8(b, pos + 2);
        let random_factor = read_u8(b, pos + 3);
        Ok((ScriptInstruction::EnemyGuardModeVoice { data, flag, random_factor }, pos + 4))
    } else if op == 31 {
        if n_total - pos < 4 {
            return Err(Error::Parser("instruction: truncated input".to_string()));
        }
        let data = read_u8(b, pos + 1);
        let flag = read_u8(b, pos + 2);
        let random_factor = read_u8(b, pos + 3);
        Ok((ScriptInstruction::EnemyDamageModeVoice { data, flag, random_factor }, pos + 4))
    } else if op == 33 {
        if n_total - pos < 4 {
            return Err(Error::Parser("instruction: truncated input".to_string()));
        }
        let flag = read_u8(b, pos + 1);
        let arg = read_u16_le(b, pos + 2);
        Ok((ScriptInstruction::DownReturn { flag, arg }, pos + 4))
    } else if op == 34 {
        if n_total - pos < 4 {
            return Err(Error::Parser("instruction: truncated input".to_string()));
        }
        let flag = read_u8(b, pos + 1);
        let arg = read_i16_le(b, pos + 2);
        Ok((ScriptInstruction::HitGravity { flag, arg }, pos + 4))
    } else if op == 35 {
        if n_total - pos < 4 {
            return Err(Error::Parser("instruction: truncated input".to_string()));
        }
        let flag = read_u8(b, pos + 1);
        let arg = read_i16_le(b, pos + 2);
        Ok((ScriptInstruction::HitAirPushbackX { flag, arg }, pos + 4))
    } else if op == 36 {
        if n_total - pos < 4 {
            return Err(Error::Parser("instruction: truncated input".to_string()));
        }
        let flag = read_u8(b, pos + 1);
        let arg = read_i16_le(b, pos + 2);
        Ok((ScriptInstruction::HitAirPushbackY { flag, arg }, pos + 4))
    } else if op == 38 {
        if n_total - pos < 4 {
            return Err(Error::Parser("instruction: truncated input".to_string()));
        }
        let flag = read_u8(b, pos + 1);
        let arg = read_u16_le(b, pos + 2);
        Ok((ScriptInstruction::DeleteIttai { flag, arg }, pos + 4))
    } else if op == 39 {
        if n_total - pos < 4 {
            return Err(Error::Parser("instruction: truncated input".to_string()));
        }
        let flag = read_u8(b, pos + 1);
        let arg = read_u16_le(b, pos + 2);
        Ok((ScriptInstruction::Unk39 { flag, arg }, pos + 4))
    } else if op == 40 {
        if n_total - pos < 4 {
            return Err(Error::Parser("instruction: truncated input".to_string()));
        }
        let flag = read_u8(b, pos + 1);
        let arg = read_u16_le(b, pos + 2);
        Ok((ScriptInstruction::Unk40 { flag, arg }, pos + 4))
    } else if op == 45 {
        if n_total - pos < 4 {
            return Err(Error::Parser("instruction: truncated input".to_string()));
        }
        let flag = read_u8(b, pos + 1);
        let arg = read_u16_le(b, pos + 2);
        Ok((ScriptInstruction::Unk45 { flag, arg }, pos + 4))
    } else if op == 47 {
        if n_total - pos < 4 {
            return Err(Error::Parser("instruction: truncated input".to_string()));
        }
        let arg = read_u16_le(b, pos + 2);
        Ok((ScriptInstruction::Unk47 { arg }, pos + 4))
    } else if op == 48 {
        if n_total - pos < 4 {
            return Err(Error::Parser("instruction: truncated input".to_string()));
        }
        let arg = read_u16_le(b, pos + 2);
        Ok((ScriptInstruction::AttackLevel { arg }, pos + 4))
    } else if op == 49 {
        if n_total - pos < 8 {
            return Err(Error::Parser("instruction: truncated input".to_string()));
        }
        let flag = read_u8(b, pos + 1);
        let jump_target = read_u32_le(b, pos + 4);
        Ok((ScriptInstruction::Goto { flag, jump_target }, pos + 8))
    } else if op == 50 {
        if n_total - pos < 4 {
            return Err(Error::Parser("instruction: truncated input".to_string()));
        }
        let flag = read_u8(b, pos + 1);
        let arg = read_u16_le(b, pos + 2);
        Ok((ScriptInstruction::Untech { flag, arg }, pos + 4))
    } else if op == 52 {
        if n_total - pos < 4 {
            return Err(Error::Parser("instruction: truncated input".to_string()));
        }
        let active = read_u8(b, pos + 1);
        let hit = read_u16_le(b, pos + 2);
        Ok((ScriptInstruction::AddTension { active, hit }, pos + 4))
    } else if op == 53 {
        if n_total - pos < 8 {
            return Err(Error::Parser("instruction: truncated input".to_string()));
        }
        let flag = read_u8(b, pos + 1);
        let arg = read_u16_le(b, pos + 2);
        let arg2 = read_u16_le(b, pos + 4);
        let arg3 = read_u16_le(b, pos + 6);
        Ok((ScriptInstruction::Unk53 { flag, arg, arg2, arg3 }, pos + 8))
    } else if op == 54 {
        if n_total - pos < 4 {
            return Err(Error::Parser("instruction: truncated input".to_string()));
        }
        let flag = read_u8(b, pos + 1);
        let arg = read_u16_le(b, pos + 2);
        Ok((ScriptInstruction::Unk54 { flag, arg }, pos + 4))
    } else if op == 55 {
        if n_total - pos < 4 {
            return Err(Error::Parser("instruction: truncated input".to_string()));
        }
        let flag = read_u8(b, pos + 1);
        let arg = read_u16_le(b, pos + 2);
        Ok((ScriptInstruction::Unk55 { flag, arg }, pos + 4))
    } else if op == 57 {
        if n_total - pos < 4 {
            return Err(Error::Parser("instruction: truncated input".to_string()));
        }
        let flag = read_u8(b, pos + 1);
        let arg = read_u16_le(b, pos + 2);
        Ok((ScriptInstruction::Unk57 { flag, arg }, pos + 4))
    } else if op == 58 {
        if n_total - pos < 4 {
            return Err(Error::Parser("instruction: truncated input".to_string()));
        }
        let flag = read_u8(b, pos + 1);
        let arg = read_u16_le(b, pos + 2);
        Ok((ScriptInstruction::Unk58 { flag, arg }, pos + 4))
    } else if op == 60 {
        if n_total - pos < 4 {
            return Err(Error::Parser("instruction: truncated input".to_string()));
        }
        let flag = read_u8(b, pos + 1);
        let arg = read_u16_le(b, pos + 2);
        Ok((ScriptInstruction::Unk60 { flag, arg }, pos + 4))
    } else if op == 61 {
        if n_total - pos < 4 {
            return Err(Error::Parser("instruction: truncated input".to_string()));
        }
        Ok((ScriptInstruction::RemoveStrikeInvuln { }, pos + 4))
    } else if op == 62 {
        if n_total - pos < 4 {
            return Err(Error::Parser("instruction: truncated input".to_string()));
        }
        let flag = read_u8(b, pos + 1);
        let arg = read_u16_le(b, pos + 2);
        Ok((ScriptInstruction::Unk62 { flag, arg }, pos + 4))
    } else if op == 63 {
        if n_total - pos < 4 {
            return Err(Error::Parser("instruction: truncated input".to_string()));
        }
        let flag = read_u8(b, pos + 1);
        let arg = read_u16_le(b, pos + 2);
        Ok((ScriptInstruction::EnableCancelSecondary { flag, arg }, pos + 4))
    } else if op == 64 {
        if n_total - pos < 4 {
            return Err(Error::Parser("instruction: truncated input".to_string()));
        }
        let stop_self = read_u8(b, pos + 1);
        let stop_world = read_u8(b, pos + 2);
        let unk = read_u8(b, pos + 3);
        Ok((ScriptInstruction::SuperFreeze { stop_self, stop_world, unk }, pos + 4))
    } else if op == 65 {
        if n_total - pos < 4 {
            return Err(Error::Parser("instruction: truncated input".to_string()));
        }
        let flag = read_u8(b, pos + 1);
        let magnitude = read_i16_le(b, pos + 2);
        Ok((ScriptInstruction::XTransform { flag, magnitude }, pos + 4))
    } else if op == 66 {
        if n_total - pos < 4 {
            return Err(Error::Parser("instruction: truncated input".to_string()));
        }
        let flag = read_u8(b, pos + 1);
        let magnitude = read_i16_le(b, pos + 2);
        Ok((ScriptInstruction::YTransform { flag, magnitude }, pos + 4))
    } else if op == 67 {
        if n_total - pos < 4 {
            return Err(Error::Parser("instruction: truncated input".to_string()));
        }
        let flag = read_u8(b, pos + 1);
        let magnitude = read_i16_le(b, pos + 2);
        Ok((ScriptInstruction::SetGravity { flag, magnitude }, pos + 4))
    } else if op == 68 {
        if n_total - pos < 4 {
            return Err(Error::Parser("instruction: truncated input".to_string()));
        }
        let flag = read_u8(b, pos + 1);
        let arg = read_u16_le(b, pos + 2);
        Ok((ScriptInstruction::Unk68 { flag, arg }, pos + 4))
    } else if op == 69 {
        if n_total - pos < 4 {
            return Err(Error::Parser("instruction: truncated input".to_string()));
        }
        let flag = read_u8(b, pos + 1);
        let arg = read_u16_le(b, pos + 2);
        Ok((ScriptInstruction::Unk69 { flag, arg }, pos + 4))
    } else if op == 70 {
        if n_total - pos < 4 {
            return Err(Error::Parser("instruction: truncated input".to_string()));
        }
        let flag = read_u8(b, pos + 1);
        let arg = read_u16_le(b, pos + 2);
        Ok((ScriptInstruction::Unk70 { flag, arg }, pos + 4))
    } else if op == 71 {
        if n_total - pos < 8 {
            return Err(Error::Parser("instruction: truncated input".to_string()));
        }
        let flag = read_u8(b, pos + 1);
        let arg = read_u16_le(b, pos + 2);
        let arg2 = read_u32_le(b, pos + 4);
        Ok((ScriptInstruction::Unk71 { flag, arg, arg2 }, pos + 8))
    } else if op == 72 {
        if n_total - pos < 4 {
            return Err(Error::Parser("instruction: truncated input".to_string()));
        }
        let flag = read_u8(b, pos + 1);
        let arg = read_u16_le(b, pos + 2);
        Ok((ScriptInstruction::Unk72 { flag, arg }, pos + 4))
    } else if op == 73 {
        if n_total - pos < 4 {
            return Err(Error::Parser("instruction: truncated input".to_string()));
        }
        let flag = read_u8(b, pos + 1);
        let arg = read_u16_le(b, pos + 2);
        Ok((ScriptInstruction::ChipDamage { flag, arg }, pos + 4))
    } else if op == 74 {
        if n_total - pos < 4 {
            return Err(Error::Parser("instruction: truncated input".to_string()));
        }
        let flag = read_u8(b, pos + 1);
        let arg = read_u16_le(b, pos + 2);
        Ok((ScriptInstruction::SetAttackStunVal { flag, arg }, pos + 4))
    } else if op == 75 {
        if n_total - pos < 4 {
            return Err(Error::Parser("instruction: truncated input".to_string()));
        }
        let flag = read_u8(b, pos + 1);
        let arg = read_u16_le(b, pos + 2);
        Ok((ScriptInstruction::Unk75 { flag, arg }, pos + 4))
    } else if op == 76 {
        if n_total - pos < 4 {
            return Err(Error::Parser("instruction: truncated input".to_string()));
        }
        let flag = read_u8(b, pos + 1);
        let arg = read_u16_le(b, pos + 2);
        Ok((ScriptInstruction::SetStance { flag, arg }, pos + 4))
    } else if op == 77 {
        if n_total - pos < 4 {
            return Err(Error::Parser("instruction: truncated input".to_string()));
        }
        let flag = read_u8(b, pos + 1);
        let arg = read_u16_le(b, pos + 2);
        Ok((ScriptInstruction::Unk77 { flag, arg }, pos + 4))
    } else if op == 78 {
        if n_total - pos < 4 {
            return Err(Error::Parser("instruction: truncated input".to_string()));
        }
        let flag = read_u8(b, pos + 1);
        let arg = read_u16_le(b, pos + 2);
        Ok((ScriptInstruction::SetProration { flag, arg }, pos + 4))
    } else if op == 79 {
        if n_total - pos < 4 {
            return Err(Error::Parser("instruction: truncated input".to_string()));
        }
        let flag = read_u8(b, pos + 1);
        let arg = read_u16_le(b, pos + 2);
        Ok((ScriptInstruction::Unk79 { flag, arg }, pos + 4))
    } else if op == 80 {
        if n_total - pos < 4 {
            return Err(Error::Parser("instruction: truncated input".to_string()));
        }
        let flag = read_u8(b, pos + 1);
        let arg = read_u16_le(b, pos + 2);
        Ok((ScriptInstruction::SetThrowInvuln { flag, arg }, pos + 4))
    } else if op == 81 {
        if n_total - pos < 4 {
            return Err(Error::Parser("instruction: truncated input".to_string()));
        }
        let flag = read_u8(b, pos + 1);
        let arg = read_u16_le(b, pos + 2);
        Ok((ScriptInstruction::Unk81 { flag, arg }, pos + 4))
    } else if op == 82 {
        if n_total - pos < 4 {
            return Err(Error::Parser("instruction: truncated input".to_string()));
        }
        let flag = read_u8(b, pos + 1);
        let arg = read_u16_le(b, pos + 2);
        Ok((ScriptInstruction::Unk82 { flag, arg }, pos + 4))
    } else if op == 83 {
        if n_total - pos < 4 {
            return Err(Error::Parser("instruction: truncated input".to_string()));
        }
        let flag = read_u8(b, pos + 1);
        let arg = read_u16_le(b, pos + 2);
        Ok((ScriptInstruction::Unk83 { flag, arg }, pos + 4))
    } else if op == 84 {
        if n_total - pos < 4 {
            return Err(Error::Parser("instruction: truncated input".to_string()));
        }
        let flag = read_u8(b, pos + 1);
        let magnitude = read_i16_le(b, pos + 2);
        Ok((ScriptInstruction::Pushback { flag, magnitude }, pos + 4))
    } else if op == 85 {
        if n_total - pos < 4 {
            return Err(Error::Parser("instruction: truncated input".to_string()));
        }
        let flag = read_u8(b, pos + 1);
        let arg = read_u16_le(b, pos + 2);
        Ok((ScriptInstruction::Stagger { flag, arg }, pos + 4))
    } else if op == 86 {
        if n_total - pos < 8 {
            return Err(Error::Parser("instruction: truncated input".to_string()));
        }
        let flag = read_u8(b, pos + 1);
        let obj_id = read_u16_le(b, pos + 2);
        let buffered_act = read_u16_le(b, pos + 4);
        let act_id = read_u16_le(b, pos + 6);
        Ok((ScriptInstruction::Unk86 { flag, obj_id, buffered_act, act_id }, pos + 8))
    } else if op == 87 {
        if n_total - pos < 4 {
            return Err(Error::Parser("instruction: truncated input".to_string()));
        }
        let flag = read_u8(b, pos + 1);
        let arg = read_u16_le(b, pos + 2);
        Ok((ScriptInstruction::Unk87 { flag, arg }, pos + 4))
    } else if op == 88 {
        if n_total - pos < 8 {
            return Err(Error::Parser("instruction: truncated input".to_string()));
        }
        let flag = read_u8(b, pos + 1);
        let arg = read_u16_le(b, pos + 2);
        let arg2 = read_u16_le(b, pos + 4);
        let arg3 = read_u16_le(b, pos + 6);
        Ok((ScriptInstruction::Unk88 { flag, arg, arg2, arg3 }, pos + 8))
    } else if op == 89 {
        if n_total - pos < 4 {
            return Err(Error::Parser("instruction: truncated input".to_string()));
        }
        let flag = read_u8(b, pos + 1);
        let arg = read_u16_le(b, pos + 2);
        Ok((ScriptInstruction::Unk89 { flag, arg }, pos + 4))
    } else if op == 90 {
        if n_total - pos < 8 {
            return Err(Error::Parser("instruction: truncated input".to_string()));
        }
        let flag = read_u8(b, pos + 1);
        let arg = read_u16_le(b, pos + 2);
        let arg2 = read_u16_le(b, pos + 4);
        let arg3 = read_u16_le(b, pos + 6);
        Ok((ScriptInstruction::Unk90 { flag, arg, arg2, arg3 }, pos + 8))
    } else if op == 91 {
        if n_total - pos < 8 {
            return Err(Error::Parser("instruction: truncated input".to_string()));
        }
        let flag = read_u8(b, pos + 1);
        let arg = read_u16_le(b, pos + 2);
        let arg2 = read_u32_le(b, pos + 4);
        Ok((ScriptInstruction::Unk91 { flag, arg, arg2 }, pos + 8))
    } else if op == 92 {
        if n_total - pos < 4 {
            return Err(Error::Parser("instruction: truncated input".to_string()));
        }
        let flag = read_u8(b, pos + 1);
        let arg = read_u16_le(b, pos + 2);
        Ok((ScriptInstruction::JumpInstall { flag, arg }, pos + 4))
    } else if op == 93 {
        if n_total - pos < 4 {
            return Err(Error::Parser("instruction: truncated input".to_string()));
        }
        let flag = read_u8(b, pos + 1);
        let arg = read_u16_le(b, pos + 2);
        Ok((ScriptInstruction::Unk93 { flag, arg }, pos + 4))
    } else if op == 94 {
        if n_total - pos < 8 {
            return Err(Error::Parser("instruction: truncated input".to_string()));
        }
        let flag = read_u8(b, pos + 1);
        let arg = read_u16_le(b, pos + 2);
        let arg2 = read_u32_le(b, pos + 4);
        Ok((ScriptInstruction::Unk94 { flag, arg, arg2 }, pos + 8))
    } else if op == 95 {
        if n_total - pos < 12 {
            return Err(Error::Parser("instruction: truncated input".to_string()));
        }
        let rsrv = read_u8(b, pos + 1);
        let arg1 = read_u16_le(b, pos + 2);
        let flag = read_u32_le(b, pos + 4);
        let arg3 = read_u16_le(b, pos + 8);
        let arg4 = read_u16_le(b, pos + 10);
        Ok((ScriptInstruction::Unk95 { rsrv, arg1, flag, arg3, arg4 }, pos + 12))
    } else if op == 96 {
        if n_total - pos < 8 {
            return Err(Error::Parser("instruction: truncated input".to_string()));
        }
        let flag = read_u8(b, pos + 1);
        let arg1 = read_u16_le(b, pos + 2);
        let arg2 = read_u16_le(b, pos + 4);
        let arg3 = read_u16_le(b, pos + 6);
        Ok((ScriptInstruction::Unk96 { flag, arg1, arg2, arg3 }, pos + 8))
    } else if op == 97 {
        if n_total - pos < 12 {
            return Err(Error::Parser("instruction: truncated input".to_string()));
        }
        let flag = read_u8(b, pos + 1);
        let arg1 = read_u16_le(b, pos + 2);
        let arg2 = read_u16_le(b, pos + 4);
        let arg3 = read_u16_le(b, pos + 6);
        let arg4 = read_u16_le(b, pos + 8);
        let arg5 = read_u16_le(b, pos + 10);
        Ok((ScriptInstruction::Unk97 { flag, arg1, arg2, arg3, arg4, arg5 }, pos + 12))
    } else if op == 98 {
        if n_total - pos < 4 {
            return Err(Error::Parser("instruction: truncated input".to_string()));
        }
        let flag = read_u8(b, pos + 1);
        let arg = read_i16_le(b, pos + 2);
        Ok((ScriptInstruction::Unk98 { flag, arg }, pos + 4))
    } else if op == 99 {
        if n_total - pos < 4 {
            return Err(Error::Parser("instruction: truncated input".to_string()));
        }
        let flag = read_u8(b, pos + 1);
        let arg = read_u16_le(b, pos + 2);
        Ok((ScriptInstruction::Unk99 { flag, arg }, pos + 4))
    } else if op == 100 {
        if n_total - pos < 8 {
            return Err(Error::Parser("instruction: truncated input".to_string()));
        }
        let flag = read_u8(b, pos + 1);
        let arg1 = read_u16_le(b, pos + 2);
        let arg2 = read_u32_le(b, pos + 4);
        Ok((ScriptInstruction::Unk100 { flag, arg1, arg2 }, pos + 8))
    } else if op == 101 {
        if n_total - pos < 8 {
            return Err(Error::Parser("instruction: truncated input".to_string()));
        }
        let flag = read_u8(b, pos + 1);
        let arg = read_u16_le(b, pos + 2);
        let unk1 = read_u8(b, pos + 4);
        let unk2 = read_u8(b, pos + 5);
        let unk3 = read_u8(b, pos + 6);
        let unk4 = read_u8(b, pos + 7);
        Ok((ScriptInstruction::SetAttackProperties { flag, arg, unk1, unk2, unk3, unk4 }, pos + 8))
    } else if op == 102 {
        if n_total - pos < 8 {
            return Err(Error::Parser("instruction: truncated input".to_string()));
        }
        let flag = read_u8(b, pos + 1);
        let arg = read_u16_le(b, pos + 2);
        let arg2 = read_u16_le(b, pos + 4);
        let arg3 = read_u16_le(b, pos + 6);
        Ok((ScriptInstruction::Unk102 { flag, arg, arg2, arg3 }, pos + 8))
    } else if op == 103 {
        if n_total - pos < 8 {
            return Err(Error::Parser("instruction: truncated input".to_string()));
        }
        let flag = read_u8(b, pos + 1);
        let arg = read_u16_le(b, pos + 2);
        let arg2 = read_u16_le(b, pos + 4);
        let arg3 = read_u16_le(b, pos + 6);
        Ok((ScriptInstruction::Unk103 { flag, arg, arg2, arg3 }, pos + 8))
    } else if op == 253 {
        if n_total - pos < 4 {
            return Err(Error::Parser("instruction: truncated input".to_string()));
        }
        let flag = read_u8(b, pos + 1);
        let arg = read_u16_le(b, pos + 2);
        Ok((ScriptInstruction::ScriptEnd { flag, arg }, pos + 4))
    } else if op == 255 {
        if n_total - pos < 4 {
            return Err(Error::Parser("instruction: truncated input".to_string()));
        }
        let flag = read_u8(b, pos + 1);
        let arg = read_u16_le(b, pos + 2);
        Ok((ScriptInstruction::ActionEnd { flag, arg }, pos + 4))
    } else {
        Err(Error::Parser("instruction: unknown opcode".to_string()))
    }
}

/// True when the parse-only bytes of the instruction at `pos` hold the
/// fixed values that encode writes back for them.
pub open spec fn spec_instr_temps_zero(b: Seq<u8>, pos: int) -> bool
    recommends
        0 <= pos < b.len(),
{
    let op = b[pos];
    if op == 5 {
        b[pos + 2] == 0 && b[pos + 3] == 0
    } else if op == 13 {
        b[pos + 1] == 0 && b[pos + 2] == 0 && b[pos + 3] == 0
    } else if op == 14 {
        b[pos + 1] == 0 && b[pos + 2] == 0 && b[pos + 3] == 0
    } else if op == 47 {
        b[pos + 1] == 0
    } else if op == 48 {
        b[pos + 1] == 0
    } else if op == 49 {
        b[pos + 2] == 0 && b[pos + 3] == 0
    } else if op == 61 {
        b[pos + 1] == 0 && b[pos + 2] == 0 && b[pos + 3] == 0
    } else {
        true
    }
}

/// A successful instruction decode always consumes at least 4 and at most
/// 16 bytes, and never reads past the input.
pub proof fn lemma_parse_instr_advances(b: Seq<u8>, pos: int)
    requires
        spec_parse_instr(b, pos) is Some,
    ensures
        pos + 4 <= spec_parse_instr(b, pos)->Some_0.1 <= b.len(),
        spec_parse_instr(b, pos)->Some_0.1 == pos + spec_instr_len(b[pos]),
{
}

/// Encoding a decoded instruction reproduces the exact input bytes,
/// provided its parse-only bytes already hold their canonical values.
#[verifier::rlimit(100)]
#[verifier::spinoff_prover]
pub proof fn lemma_instr_bytes_of_parse(b: Seq<u8>, pos: int)
    requires
        spec_parse_instr(b, pos) is Some,
        spec_instr_temps_zero(b, pos),
    ensures
        spec_instr_bytes(spec_parse_instr(b, pos)->Some_0.0) == b.subrange(
            pos,
            spec_parse_instr(b, pos)->Some_0.1,
        ),
{
    let op = b[pos];
    let t = spec_parse_instr(b, pos)->Some_0;
    if op == 0 {
        lemma_u16_le_of_at(b, pos + 2);
        assert(spec_instr_bytes(t.0) =~= b.subrange(pos, t.1));
    } else if op == 1 {
        lemma_u16_le_of_at(b, pos + 2);
        assert(spec_instr_bytes(t.0) =~= b.subrange(pos, t.1));
    } else if op == 2 {
        lemma_u16_le_of_at(b, pos + 2);
        assert(spec_instr_bytes(t.0) =~= b.subrange(pos, t.1));
    } else if op == 3 {
        lemma_u16_le_of_at(b, pos + 2);
        assert(spec_instr_bytes(t.0) =~= b.subrange(pos, t.1));
    } else if op == 4 {
        lemma_u16_le_of_at(b, pos + 2);
        assert(spec_instr_bytes(t.0) =~= b.subrange(pos, t.1));
    } else if op == 5 {
        assert(spec_instr_bytes(t.0) =~= b.subrange(pos, t.1));
    } else if op == 6 {
        lemma_u16_le_of_at(b, pos + 2);
        assert(spec_instr_bytes(t.0) =~= b.subrange(pos, t.1));
    } else if op == 7 {
        lemma_i16_le_of_at(b, pos + 2);
        assert(spec_instr_bytes(t.0) =~= b.subrange(pos, t.1));
    } else if op == 8 {
        lemma_i16_le_of_at(b, pos + 2);
        assert(spec_instr_bytes(t.0) =~= b.subrange(pos, t.1));
    } else if op == 9 {
        lemma_u16_le_of_at(b, pos + 2);
        assert(spec_instr_bytes(t.0) =~= b.subrange(pos, t.1));
    } else if op == 10 {
        assert(spec_instr_bytes(t.0) =~= b.subrange(pos, t.1));
    } else if op == 11 {
        assert(spec_instr_bytes(t.0) =~= b.subrange(pos, t.1));
    } else if op == 13 {
        assert(spec_instr_bytes(t.0) =~= b.subrange(pos, t.1));
    } else if op == 14 {
        assert(spec_instr_bytes(t.0) =~= b.subrange(pos, t.1));
    } else if op == 15 {
        lemma_u16_le_of_at(b, pos + 2);
        assert(spec_instr_bytes(t.0) =~= b.subrange(pos, t.1));
    } else if op == 16 {
        lemma_u16_le_of_at(b, pos + 2);
        assert(spec_instr_bytes(t.0) =~= b.subrange(pos, t.1));
    } else if op == 17 {
        lemma_u16_le_of_at(b, pos + 2);
        assert(spec_instr_bytes(t.0) =~= b.subrange(pos, t.1));
    } else if op == 18 {
        lemma_u16_le_of_at(b, pos + 2);
        assert(spec_instr_bytes(t.0) =~= b.subrange(pos, t.1));
    } else if op == 19 {
        lemma_u16_le_of_at(b, pos + 2);
        assert(spec_instr_bytes(t.0) =~= b.subrange(pos, t.1));
    } else if op == 23 {
        lemma_i16_le_of_at(b, pos + 2);
        assert(spec_instr_bytes(t.0) =~= b.subrange(pos, t.1));
    } else if op == 24 {
        lemma_i16_le_of_at(b, pos + 2);
        assert(spec_instr_bytes(t.0) =~= b.subrange(pos, t.1));
    } else if op == 25 {
        lemma_u16_le_of_at(b, pos + 2);
        lemma_u32_le_of_at(b, pos + 4);
        lemma_u32_le_of_at(b, pos + 8);
        lemma_u16_le_of_at(b, pos + 12);
        lemma_u16_le_of_at(b, pos + 14);
        assert(spec_instr_bytes(t.0) =~= b.subrange(pos, t.1));
    } else if op == 26 {
        assert(spec_instr_bytes(t.0) =~= b.subrange(pos, t.1));
    } else if op == 27 {
        assert(spec_instr_bytes(t.0) =~= b.subrange(pos, t.1));
    } else if op == 28 {
        assert(spec_instr_bytes(t.0) =~= b.subrange(pos, t.1));
    } else if op == 29 {
        assert(spec_instr_bytes(t.0) =~= b.subrange(pos, t.1));
    } else if op == 30 {
        assert(spec_instr_bytes(t.0) =~= b.subrange(pos, t.1));
    } else if op == 31 {
        assert(spec_instr_bytes(t.0) =~= b.subrange(pos, t.1));
    } else if op == 33 {
        lemma_u16_le_of_at(b, pos + 2);
        assert(spec_instr_bytes(t.0) =~= b.subrange(pos, t.1));
    } else if op == 34 {
        lemma_i16_le_of_at(b, pos + 2);
        assert(spec_instr_bytes(t.0) =~= b.subrange(pos, t.1));
    } else if op == 35 {
        lemma_i16_le_of_at(b, pos + 2);
        assert(spec_instr_bytes(t.0) =~= b.subrange(pos, t.1));
    } else if op == 36 {
        lemma_i16_le_of_at(b, pos + 2);
        assert(spec_instr_bytes(t.0) =~= b.subrange(pos, t.1));
    } else if op == 38 {
        lemma_u16_le_of_at(b, pos + 2);
        assert(spec_instr_bytes(t.0) =~= b.subrange(pos, t.1));
    } else if op == 39 {
        lemma_u16_le_of_at(b, pos + 2);
        assert(spec_instr_bytes(t.0) =~= b.subrange(pos, t.1));
    } else if op == 40 {
        lemma_u16_le_of_at(b, pos + 2);
        assert(spec_instr_bytes(t.0) =~= b.subrange(pos, t.1));
    } else if op == 45 {
        lemma_u16_le_of_at(b, pos + 2);
        assert(spec_instr_bytes(t.0) =~= b.subrange(pos, t.1));
    } else if op == 47 {
        lemma_u16_le_of_at(b, pos + 2);
        assert(spec_instr_bytes(t.0) =~= b.subrange(pos, t.1));
    } else if op == 48 {
        lemma_u16_le_of_at(b, pos + 2);
        assert(spec_instr_bytes(t.0) =~= b.subrange(pos, t.1));
    } else if op == 49 {
        lemma_u32_le_of_at(b, pos + 4);
        assert(spec_instr_bytes(t.0) =~= b.subrange(pos, t.1));
    } else if op == 50 {
        lemma_u16_le_of_at(b, pos + 2);
        assert(spec_instr_bytes(t.0) =~= b.subrange(pos, t.1));
    } else if op == 52 {
        lemma_u16_le_of_at(b, pos + 2);
        assert(spec_instr_bytes(t.0) =~= b.subrange(pos, t.1));
    } else if op == 53 {
        lemma_u16_le_of_at(b, pos + 2);
        lemma_u16_le_of_at(b, pos + 4);
        lemma_u16_le_of_at(b, pos + 6);
        assert(spec_instr_bytes(t.0) =~= b.subrange(pos, t.1));
    } else if op == 54 {
        lemma_u16_le_of_at(b, pos + 2);
        assert(spec_instr_bytes(t.0) =~= b.subrange(pos, t.1));
    } else if op == 55 {
        lemma_u16_le_of_at(b, pos + 2);
        assert(spec_instr_bytes(t.0) =~= b.subrange(pos, t.1));
    } else if op == 57 {
        lemma_u16_le_of_at(b, pos + 2);
        assert(spec_instr_bytes(t.0) =~= b.subrange(pos, t.1));
    } else if op == 58 {
        lemma_u16_le_of_at(b, pos + 2);
        assert(spec_instr_bytes(t.0) =~= b.subrange(pos, t.1));
    } else if op == 60 {
        lemma_u16_le_of_at(b, pos + 2);
        assert(spec_instr_bytes(t.0) =~= b.subrange(pos, t.1));
    } else if op == 61 {
        assert(spec_instr_bytes(t.0) =~= b.subrange(pos, t.1));
    } else if op == 62 {
        lemma_u16_le_of_at(b, pos + 2);
        assert(spec_instr_bytes(t.0) =~= b.subrange(pos, t.1));
    } else if op == 63 {
        lemma_u16_le_of_at(b, pos + 2);
        assert(spec_instr_bytes(t.0) =~= b.subrange(pos, t.1));
    } else if op == 64 {
        assert(spec_instr_bytes(t.0) =~= b.subrange(pos, t.1));
    } else if op == 65 {
        lemma_i16_le_of_at(b, pos + 2);
        assert(spec_instr_bytes(t.0) =~= b.subrange(pos, t.1));
    } else if op == 66 {
        lemma_i16_le_of_at(b, pos + 2);
        assert(spec_instr_bytes(t.0) =~= b.subrange(pos, t.1));
    } else if op == 67 {
        lemma_i16_le_of_at(b, pos + 2);
        assert(spec_instr_bytes(t.0) =~= b.subrange(pos, t.1));
    } else if op == 68 {
        lemma_u16_le_of_at(b, pos + 2);
        assert(spec_instr_bytes(t.0) =~= b.subrange(pos, t.1));
    } else if op == 69 {
        lemma_u16_le_of_at(b, pos + 2);
        assert(spec_instr_bytes(t.0) =~= b.subrange(pos, t.1));
    } else if op == 70 {
        lemma_u16_le_of_at(b, pos + 2);
        assert(spec_instr_bytes(t.0) =~= b.subrange(pos, t.1));
    } else if op == 71 {
        lemma_u16_le_of_at(b, pos + 2);
        lemma_u32_le_of_at(b, pos + 4);
        assert(spec_instr_bytes(t.0) =~= b.subrange(pos, t.1));
    } else if op == 72 {
        lemma_u16_le_of_at(b, pos + 2);
        assert(spec_instr_bytes(t.0) =~= b.subrange(pos, t.1));
    } else if op == 73 {
        lemma_u16_le_of_at(b, pos + 2);
        assert(spec_instr_bytes(t.0) =~= b.subrange(pos, t.1));
    } else if op == 74 {
        lemma_u16_le_of_at(b, pos + 2);
        assert(spec_instr_bytes(t.0) =~= b.subrange(pos, t.1));
    } else if op == 75 {
        lemma_u16_le_of_at(b, pos + 2);
        assert(spec_instr_bytes(t.0) =~= b.subrange(pos, t.1));
    } else if op == 76 {
        lemma_u16_le_of_at(b, pos + 2);
        assert(spec_instr_bytes(t.0) =~= b.subrange(pos, t.1));
    } else if op == 77 {
        lemma_u16_le_of_at(b, pos + 2);
        assert(spec_instr_bytes(t.0) =~= b.subrange(pos, t.1));
    } else if op == 78 {
        lemma_u16_le_of_at(b, pos + 2);
        assert(spec_instr_bytes(t.0) =~= b.subrange(pos, t.1));
    } else if op == 79 {
        lemma_u16_le_of_at(b, pos + 2);
        assert(spec_instr_bytes(t.0) =~= b.subrange(pos, t.1));
    } else if op == 80 {
        lemma_u16_le_of_at(b, pos + 2);
        assert(spec_instr_bytes(t.0) =~= b.subrange(pos, t.1));
    } else if op == 81 {
        lemma_u16_le_of_at(b, pos + 2);
        assert(spec_instr_bytes(t.0) =~= b.subrange(pos, t.1));
    } else if op == 82 {
        lemma_u16_le_of_at(b, pos + 2);
        assert(spec_instr_bytes(t.0) =~= b.subrange(pos, t.1));
    } else if op == 83 {
        lemma_u16_le_of_at(b, pos + 2);
        assert(spec_instr_bytes(t.0) =~= b.subrange(pos, t.1));
    } else if op == 84 {
        lemma_i16_le_of_at(b, pos + 2);
        assert(spec_instr_bytes(t.0) =~= b.subrange(pos, t.1));
    } else if op == 85 {
        lemma_u16_le_of_at(b, pos + 2);
        assert(spec_instr_bytes(t.0) =~= b.subrange(pos, t.1));
    } else if op == 86 {
        lemma_u16_le_of_at(b, pos + 2);
        lemma_u16_le_of_at(b, pos + 4);
        lemma_u16_le_of_at(b, pos + 6);
        assert(spec_instr_bytes(t.0) =~= b.subrange(pos, t.1));
    } else if op == 87 {
        lemma_u16_le_of_at(b, pos + 2);
        assert(spec_instr_bytes(t.0) =~= b.subrange(pos, t.1));
    } else if op == 88 {
        lemma_u16_le_of_at(b, pos + 2);
        lemma_u16_le_of_at(b, pos + 4);
        lemma_u16_le_of_at(b, pos + 6);
        assert(spec_instr_bytes(t.0) =~= b.subrange(pos, t.1));
    } else if op == 89 {
        lemma_u16_le_of_at(b, pos + 2);
        assert(spec_instr_bytes(t.0) =~= b.subrange(pos, t.1));
    } else if op == 90 {
        lemma_u16_le_of_at(b, pos + 2);
        lemma_u16_le_of_at(b, pos + 4);
        lemma_u16_le_of_at(b, pos + 6);
        assert(spec_instr_bytes(t.0) =~= b.subrange(pos, t.1));
    } else if op == 91 {
        lemma_u16_le_of_at(b, pos + 2);
        lemma_u32_le_of_at(b, pos + 4);
        assert(spec_instr_bytes(t.0) =~= b.subrange(pos, t.1));
    } else if op == 92 {
        lemma_u16_le_of_at(b, pos + 2);
        assert(spec_instr_bytes(t.0) =~= b.subrange(pos, t.1));
    } else if op == 93 {
        lemma_u16_le_of_at(b, pos + 2);
        assert(spec_instr_bytes(t.0) =~= b.subrange(pos, t.1));
    } else if op == 94 {
        lemma_u16_le_of_at(b, pos + 2);
        lemma_u32_le_of_at(b, pos + 4);
        assert(spec_instr_bytes(t.0) =~= b.subrange(pos, t.1));
    } else if op == 95 {
        lemma_u16_le_of_at(b, pos + 2);
        lemma_u32_le_of_at(b, pos + 4);
        lemma_u16_le_of_at(b, pos + 8);
        lemma_u16_le_of_at(b, pos + 10);
        assert(spec_instr_bytes(t.0) =~= b.subrange(pos, t.1));
    } else if op == 96 {
        lemma_u16_le_of_at(b, pos + 2);
        lemma_u16_le_of_at(b, pos + 4);
        lemma_u16_le_of_at(b, pos + 6);
        assert(spec_instr_bytes(t.0) =~= b.subrange(pos, t.1));
    } else if op == 97 {
        lemma_u16_le_of_at(b, pos + 2);
        lemma_u16_le_of_at(b, pos + 4);
        lemma_u16_le_of_at(b, pos + 6);
        lemma_u16_le_of_at(b, pos + 8);
        lemma_u16_le_of_at(b, pos + 10);
        assert(spec_instr_bytes(t.0) =~= b.subrange(pos, t.1));
    } else if op == 98 {
        lemma_i16_le_of_at(b, pos + 2);
        assert(spec_instr_bytes(t.0) =~= b.subrange(pos, t.1));
    } else if op == 99 {
        lemma_u16_le_of_at(b, pos + 2);
        assert(spec_instr_bytes(t.0) =~= b.subrange(pos, t.1));
    } else if op == 100 {
        lemma_u16_le_of_at(b, pos + 2);
        lemma_u32_le_of_at(b, pos + 4);
        assert(spec_instr_bytes(t.0) =~= b.subrange(pos, t.1));
    } else if op == 101 {
        lemma_u16_le_of_at(b, pos + 2);
        assert(spec_instr_bytes(t.0) =~= b.subrange(pos, t.1));
    } else if op == 102 {
        lemma_u16_le_of_at(b, pos + 2);
        lemma_u16_le_of_at(b, pos + 4);
        lemma_u16_le_of_at(b, pos + 6);
        assert(spec_instr_bytes(t.0) =~= b.subrange(pos, t.1));
    } else if op == 103 {
        lemma_u16_le_of_at(b, pos + 2);
        lemma_u16_le_of_at(b, pos + 4);
        lemma_u16_le_of_at(b, pos + 6);
        assert(spec_instr_bytes(t.0) =~= b.subrange(pos, t.1));
    } else if op == 253 {
        lemma_u16_le_of_at(b, pos + 2);
        assert(spec_instr_bytes(t.0) =~= b.subrange(pos, t.1));
    } else if op == 255 {
        lemma_u16_le_of_at(b, pos + 2);
        assert(spec_instr_bytes(t.0) =~= b.subrange(pos, t.1));
    } else {
        assert(false);
    }
}

#[verifier::rlimit(100)]
#[verifier::spinoff_prover]
proof fn lemma_instr_parse_of_bytes_part0(i: ScriptInstruction, rest: Seq<u8>)
    ensures
        spec_opcode_of(i) == 0 || spec_opcode_of(i) == 1 || spec_opcode_of(i) == 2 || spec_opcode_of(i) == 3 || spec_opcode_of(i) == 4 || spec_opcode_of(i) == 5 || spec_opcode_of(i) == 6 || spec_opcode_of(i) == 7 || spec_opcode_of(i) == 8 || spec_opcode_of(i) == 9 ==> spec_parse_instr(
            spec_instr_bytes(i) + rest,
            0,
        ) == Some((i, spec_instr_len(spec_opcode_of(i)))),
{
    let c = spec_instr_bytes(i) + rest;
    match i {
        ScriptInstruction::CellBegin { duration, cell_no } => {
            assert(u16_le_at(c, 2) == cell_no) by { lemma_u16_le_rt(cell_no); }
            assert(spec_parse_instr(c, 0) == Some((i, 4int)));
        }
        ScriptInstruction::Unk1 { flag, arg } => {
            assert(u16_le_at(c, 2) == arg) by { lemma_u16_le_rt(arg); }
            assert(spec_parse_instr(c, 0) == Some((i, 4int)));
        }
        ScriptInstruction::Unk2 { flag, arg } => {
            assert(u16_le_at(c, 2) == arg) by { lemma_u16_le_rt(arg); }
            assert(spec_parse_instr(c, 0) == Some((i, 4int)));
        }
        ScriptInstruction::Recovery { flag, arg } => {
            assert(u16_le_at(c, 2) == arg) by { lemma_u16_le_rt(arg); }
            assert(spec_parse_instr(c, 0) == Some((i, 4int)));
        }
        ScriptInstruction::RenewCollision { flag, arg } => {
            assert(u16_le_at(c, 2) == arg) by { lemma_u16_le_rt(arg); }
            assert(spec_parse_instr(c, 0) == Some((i, 4int)));
        }
        ScriptInstruction::Unk5 { flag } => {
            assert(c[0] == 5);
            assert(spec_parse_instr(c, 0) == Some((i, 4int)));
        }
        ScriptInstruction::Unk6 { flag, arg } => {
            assert(u16_le_at(c, 2) == arg) by { lemma_u16_le_rt(arg); }
            assert(spec_parse_instr(c, 0) == Some((i, 4int)));
        }
        ScriptInstruction::Scale { flag, stretch } => {
            assert(i16_le_at(c, 2) == stretch) by {
                lemma_u16_le_rt(crate::helpers::u16_of_i16(stretch));
                lemma_i16_u16_rt(stretch);
            }
            assert(spec_parse_instr(c, 0) == Some((i, 4int)));
        }
        ScriptInstruction::PosZ { flag, depth } => {
            assert(i16_le_at(c, 2) == depth) by {
                lemma_u16_le_rt(crate::helpers::u16_of_i16(depth));
                lemma_i16_u16_rt(depth);
            }
            assert(spec_parse_instr(c, 0) == Some((i, 4int)));
        }
        ScriptInstruction::Unk9 { flag, arg } => {
            assert(u16_le_at(c, 2) == arg) by { lemma_u16_le_rt(arg); }
            assert(spec_parse_instr(c, 0) == Some((i, 4int)));
        }
        _ => {
        }
    }
}

#[verifier::rlimit(100)]
#[verifier::spinoff_prover]
proof fn lemma_instr_parse_of_bytes_part1(i: ScriptInstruction, rest: Seq<u8>)
    ensures
        spec_opcode_of(i) == 10 || spec_opcode_of(i) == 11 || spec_opcode_of(i) == 13 || spec_opcode_of(i) == 14 || spec_opcode_of(i) == 15 || spec_opcode_of(i) == 16 || spec_opcode_of(i) == 17 || spec_opcode_of(i) == 18 || spec_opcode_of(i) == 19 || spec_opcode_of(i) == 23 ==> spec_parse_instr(
            spec_instr_bytes(i) + rest,
            0,
        ) == Some((i, spec_instr_len(spec_opcode_of(i)))),
{
    let c = spec_instr_bytes(i) + rest;
    match i {
        ScriptInstruction::Unk10 { flag, arg, arg2 } => {
            assert(spec_parse_instr(c, 0) == Some((i, 4int)));
        }
        ScriptInstruction::Unk11 { flag, arg, arg2 } => {
            assert(spec_parse_instr(c, 0) == Some((i, 4int)));
        }
        ScriptInstruction::DoNotCheckAttack { } => {
            assert(spec_parse_instr(c, 0) == Some((i, 4int)));
        }
        ScriptInstruction::SetStrikeInvuln { } => {
            assert(spec_parse_instr(c, 0) == Some((i, 4int)));
        }
        ScriptInstruction::Reverse { flag, arg } => {
            assert(u16_le_at(c, 2) == arg) by { lemma_u16_le_rt(arg); }
            assert(spec_parse_instr(c, 0) == Some((i, 4int)));
        }
        ScriptInstruction::DrawNormal { flag, arg } => {
            assert(u16_le_at(c, 2) == arg) by { lemma_u16_le_rt(arg); }
            assert(spec_parse_instr(c, 0) == Some((i, 4int)));
        }
        ScriptInstruction::DrawReverse { flag, arg } => {
            assert(u16_le_at(c, 2) == arg) by { lemma_u16_le_rt(arg); }
            assert(spec_parse_instr(c, 0) == Some((i, 4int)));
        }
        ScriptInstruction::EnableCancel { flag, arg } => {
            assert(u16_le_at(c, 2) == arg) by { lemma_u16_le_rt(arg); }
            assert(spec_parse_instr(c, 0) == Some((i, 4int)));
        }
        ScriptInstruction::Unk19 { flag, arg } => {
            assert(u16_le_at(c, 2) == arg) by { lemma_u16_le_rt(arg); }
            assert(spec_parse_instr(c, 0) == Some((i, 4int)));
        }
        ScriptInstruction::OffsetXFromOwner { flag, magnitude } => {
            assert(i16_le_at(c, 2) == magnitude) by {
                lemma_u16_le_rt(crate::helpers::u16_of_i16(magnitude));
                lemma_i16_u16_rt(magnitude);
            }
            assert(spec_parse_instr(c, 0) == Some((i, 4int)));
        }
        _ => {
        }
    }
}

#[verifier::rlimit(100)]
#[verifier::spinoff_prover]
proof fn lemma_instr_parse_of_bytes_part2(i: ScriptInstruction, rest: Seq<u8>)
    ensures
        spec_opcode_of(i) == 24 || spec_opcode_of(i) == 25 || spec_opcode_of(i) == 26 || spec_opcode_of(i) == 27 || spec_opcode_of(i) == 28 || spec_opcode_of(i) == 29 || spec_opcode_of(i) == 30 || spec_opcode_of(i) == 31 || spec_opcode_of(i) == 33 || spec_opcode_of(i) == 34 ==> spec_parse_instr(
            spec_instr_bytes(i) + rest,
            0,
        ) == Some((i, spec_instr_len(spec_opcode_of(i)))),
{
    let c = spec_instr_bytes(i) + rest;
    match i {
        ScriptInstruction::OffsetYFromOwner { flag, magnitude } => {
            assert(i16_le_at(c, 2) == magnitude) by {
                lemma_u16_le_rt(crate::helpers::u16_of_i16(magnitude));
                lemma_i16_u16_rt(magnitude);
            }
            assert(spec_parse_instr(c, 0) == Some((i, 4int)));
        }
        ScriptInstruction::InitInstance { flag, anime_no, obj_no, kind, state_no, is_check_col } => {
            assert(u16_le_at(c, 2) == anime_no) by { lemma_u16_le_rt(anime_no); }
            assert(u32_le_at(c, 4) == obj_no) by { lemma_u32_le_rt(obj_no); }
            assert(u32_le_at(c, 8) == kind) by { lemma_u32_le_rt(kind); }
            assert(u16_le_at(c, 12) == state_no) by { lemma_u16_le_rt(state_no); }
            assert(u16_le_at(c, 14) == is_check_col) by { lemma_u16_le_rt(is_check_col); }
            assert(spec_parse_instr(c, 0) == Some((i, 16int)));
        }
        ScriptInstruction::DeleteChildInstance { obj_no, flag, act_no } => {
            assert(spec_parse_instr(c, 0) == Some((i, 4int)));
        }
        ScriptInstruction::InitRqSound { data, flag, random_factor } => {
            assert(spec_parse_instr(c, 0) == Some((i, 4int)));
        }
        ScriptInstruction::InitEnemyHitSeMode { data, flag, random_factor } => {
            assert(spec_parse_instr(c, 0) == Some((i, 4int)));
        }
        ScriptInstruction::Unk29 { data, flag, random_factor } => {
            assert(spec_parse_instr(c, 0) == Some((i, 4int)));
        }
        ScriptInstruction::EnemyGuardModeVoice { data, flag, random_factor } => {
            assert(spec_parse_instr(c, 0) == Some((i, 4int)));
        }
        ScriptInstruction::EnemyDamageModeVoice { data, flag, random_factor } => {
            assert(spec_parse_instr(c, 0) == Some((i, 4int)));
        }
        ScriptInstruction::DownReturn { flag, arg } => {
            assert(u16_le_at(c, 2) == arg) by { lemma_u16_le_rt(arg); }
            assert(spec_parse_instr(c, 0) == Some((i, 4int)));
        }
        ScriptInstruction::HitGravity { flag, arg } => {
            assert(i16_le_at(c, 2) == arg) by {
                lemma_u16_le_rt(crate::helpers::u16_of_i16(arg));
                lemma_i16_u16_rt(arg);
            }
            assert(spec_parse_instr(c, 0) == Some((i, 4int)));
        }
        _ => {
        }
    }
}

#[verifier::rlimit(100)]
#[verifier::spinoff_prover]
proof fn lemma_instr_parse_of_bytes_part3(i: ScriptInstruction, rest: Seq<u8>)
    ensures
        spec_opcode_of(i) == 35 || spec_opcode_of(i) == 36 || spec_opcode_of(i) == 38 || spec_opcode_of(i) == 39 || spec_opcode_of(i) == 40 || spec_opcode_of(i) == 45 || spec_opcode_of(i) == 47 || spec_opcode_of(i) == 48 || spec_opcode_of(i) == 49 || spec_opcode_of(i) == 50 ==> spec_parse_instr(
            spec_instr_bytes(i) + rest,
            0,
        ) == Some((i, spec_instr_len(spec_opcode_of(i)))),
{
    let c = spec_instr_bytes(i) + rest;
    match i {
        ScriptInstruction::HitAirPushbackX { flag, arg } => {
            assert(i16_le_at(c, 2) == arg) by {
                lemma_u16_le_rt(crate::helpers::u16_of_i16(arg));
                lemma_i16_u16_rt(arg);
            }
            assert(spec_parse_instr(c, 0) == Some((i, 4int)));
        }
        ScriptInstruction::HitAirPushbackY { flag, arg } => {
            assert(i16_le_at(c, 2) == arg) by {
                lemma_u16_le_rt(crate::helpers::u16_of_i16(arg));
                lemma_i16_u16_rt(arg);
            }
            assert(spec_parse_instr(c, 0) == Some((i, 4int)));
        }
        ScriptInstruction::DeleteIttai { flag, arg } => {
            assert(u16_le_at(c, 2) == arg) by { lemma_u16_le_rt(arg); }
            assert(spec_parse_instr(c, 0) == Some((i, 4int)));
        }
        ScriptInstruction::Unk39 { flag, arg } => {
            assert(u16_le_at(c, 2) == arg) by { lemma_u16_le_rt(arg); }
            assert(spec_parse_instr(c, 0) == Some((i, 4int)));
        }
        ScriptInstruction::Unk40 { flag, arg } => {
            assert(u16_le_at(c, 2) == arg) by { lemma_u16_le_rt(arg); }
            assert(spec_parse_instr(c, 0) == Some((i, 4int)));
        }
        ScriptInstruction::Unk45 { flag, arg } => {
            assert(u16_le_at(c, 2) == arg) by { lemma_u16_le_rt(arg); }
            assert(spec_parse_instr(c, 0) == Some((i, 4int)));
        }
        ScriptInstruction::Unk47 { arg } => {
            assert(u16_le_at(c, 2) == arg) by { lemma_u16_le_rt(arg); }
            assert(spec_parse_instr(c, 0) == Some((i, 4int)));
        }
        ScriptInstruction::AttackLevel { arg } => {
            assert(u16_le_at(c, 2) == arg) by { lemma_u16_le_rt(arg); }
            assert(spec_parse_instr(c, 0) == Some((i, 4int)));
        }
        ScriptInstruction::Goto { flag, jump_target } => {
            assert(u32_le_at(c, 4) == jump_target) by { lemma_u32_le_rt(jump_target); }
            assert(spec_parse_instr(c, 0) == Some((i, 8int)));
        }
        ScriptInstruction::Untech { flag, arg } => {
            assert(u16_le_at(c, 2) == arg) by { lemma_u16_le_rt(arg); }
            assert(spec_parse_instr(c, 0) == Some((i, 4int)));
        }
        _ => {
        }
    }
}

#[verifier::rlimit(100)]
#[verifier::spinoff_prover]
proof fn lemma_instr_parse_of_bytes_part4(i: ScriptInstruction, rest: Seq<u8>)
    ensures
        spec_opcode_of(i) == 52 || spec_opcode_of(i) == 53 || spec_opcode_of(i) == 54 || spec_opcode_of(i) == 55 || spec_opcode_of(i) == 57 || spec_opcode_of(i) == 58 || spec_opcode_of(i) == 60 || spec_opcode_of(i) == 61 || spec_opcode_of(i) == 62 || spec_opcode_of(i) == 63 ==> spec_parse_instr(
            spec_instr_bytes(i) + rest,
            0,
        ) == Some((i, spec_instr_len(spec_opcode_of(i)))),
{
    let c = spec_instr_bytes(i) + rest;
    match i {
        ScriptInstruction::AddTension { active, hit } => {
            assert(u16_le_at(c, 2) == hit) by { lemma_u16_le_rt(hit); }
            assert(spec_parse_instr(c, 0) == Some((i, 4int)));
        }
        ScriptInstruction::Unk53 { flag, arg, arg2, arg3 } => {
            assert(u16_le_at(c, 2) == arg) by { lemma_u16_le_rt(arg); }
            assert(u16_le_at(c, 4) == arg2) by { lemma_u16_le_rt(arg2); }
            assert(u16_le_at(c, 6) == arg3) by { lemma_u16_le_rt(arg3); }
            assert(spec_parse_instr(c, 0) == Some((i, 8int)));
        }
        ScriptInstruction::Unk54 { flag, arg } => {
            assert(u16_le_at(c, 2) == arg) by { lemma_u16_le_rt(arg); }
            assert(spec_parse_instr(c, 0) == Some((i, 4int)));
        }
        ScriptInstruction::Unk55 { flag, arg } => {
            assert(u16_le_at(c, 2) == arg) by { lemma_u16_le_rt(arg); }
            assert(spec_parse_instr(c, 0) == Some((i, 4int)));
        }
        ScriptInstruction::Unk57 { flag, arg } => {
            assert(u16_le_at(c, 2) == arg) by { lemma_u16_le_rt(arg); }
            assert(spec_parse_instr(c, 0) == Some((i, 4int)));
        }
        ScriptInstruction::Unk58 { flag, arg } => {
            assert(u16_le_at(c, 2) == arg) by { lemma_u16_le_rt(arg); }
            assert(spec_parse_instr(c, 0) == Some((i, 4int)));
        }
        ScriptInstruction::Unk60 { flag, arg } => {
            assert(u16_le_at(c, 2) == arg) by { lemma_u16_le_rt(arg); }
            assert(spec_parse_instr(c, 0) == Some((i, 4int)));
        }
        ScriptInstruction::RemoveStrikeInvuln { } => {
            assert(spec_parse_instr(c, 0) == Some((i, 4int)));
        }
        ScriptInstruction::Unk62 { flag, arg } => {
            assert(u16_le_at(c, 2) == arg) by { lemma_u16_le_rt(arg); }
            assert(spec_parse_instr(c, 0) == Some((i, 4int)));
        }
        ScriptInstruction::EnableCancelSecondary { flag, arg } => {
            assert(u16_le_at(c, 2) == arg) by { lemma_u16_le_rt(arg); }
            assert(spec_parse_instr(c, 0) == Some((i, 4int)));
        }
        _ => {
        }
    }
}

#[verifier::rlimit(100)]
#[verifier::spinoff_prover]
proof fn lemma_instr_parse_of_bytes_part5(i: ScriptInstruction, rest: Seq<u8>)
    ensures
        spec_opcode_of(i) == 64 || spec_opcode_of(i) == 65 || spec_opcode_of(i) == 66 || spec_opcode_of(i) == 67 || spec_opcode_of(i) == 68 || spec_opcode_of(i) == 69 || spec_opcode_of(i) == 70 || spec_opcode_of(i) == 71 || spec_opcode_of(i) == 72 || spec_opcode_of(i) == 73 ==> spec_parse_instr(
            spec_instr_bytes(i) + rest,
            0,
        ) == Some((i, spec_instr_len(spec_opcode_of(i)))),
{
    let c = spec_instr_bytes(i) + rest;
    match i {
        ScriptInstruction::SuperFreeze { stop_self, stop_world, unk } => {
            assert(spec_parse_instr(c, 0) == Some((i, 4int)));
        }
        ScriptInstruction::XTransform { flag, magnitude } => {
            assert(i16_le_at(c, 2) == magnitude) by {
                lemma_u16_le_rt(crate::helpers::u16_of_i16(magnitude));
                lemma_i16_u16_rt(magnitude);
            }
            assert(spec_parse_instr(c, 0) == Some((i, 4int)));
        }
        ScriptInstruction::YTransform { flag, magnitude } => {
            assert(i16_le_at(c, 2) == magnitude) by {
                lemma_u16_le_rt(crate::helpers::u16_of_i16(magnitude));
                lemma_i16_u16_rt(magnitude);
            }
            assert(spec_parse_instr(c, 0) == Some((i, 4int)));
        }
        ScriptInstruction::SetGravity { flag, magnitude } => {
            assert(i16_le_at(c, 2) == magnitude) by {
                lemma_u16_le_rt(crate::helpers::u16_of_i16(magnitude));
                lemma_i16_u16_rt(magnitude);
            }
            assert(spec_parse_instr(c, 0) == Some((i, 4int)));
        }
        ScriptInstruction::Unk68 { flag, arg } => {
            assert(u16_le_at(c, 2) == arg) by { lemma_u16_le_rt(arg); }
            assert(spec_parse_instr(c, 0) == Some((i, 4int)));
        }
        ScriptInstruction::Unk69 { flag, arg } => {
            assert(u16_le_at(c, 2) == arg) by { lemma_u16_le_rt(arg); }
            assert(spec_parse_instr(c, 0) == Some((i, 4int)));
        }
        ScriptInstruction::Unk70 { flag, arg } => {
            assert(u16_le_at(c, 2) == arg) by { lemma_u16_le_rt(arg); }
            assert(spec_parse_instr(c, 0) == Some((i, 4int)));
        }
        ScriptInstruction::Unk71 { flag, arg, arg2 } => {
            assert(u16_le_at(c, 2) == arg) by { lemma_u16_le_rt(arg); }
            assert(u32_le_at(c, 4) == arg2) by { lemma_u32_le_rt(arg2); }
            assert(spec_parse_instr(c, 0) == Some((i, 8int)));
        }
        ScriptInstruction::Unk72 { flag, arg } => {
            assert(u16_le_at(c, 2) == arg) by { lemma_u16_le_rt(arg); }
            assert(spec_parse_instr(c, 0) == Some((i, 4int)));
        }
        ScriptInstruction::ChipDamage { flag, arg } => {
            assert(u16_le_at(c, 2) == arg) by { lemma_u16_le_rt(arg); }
            assert(spec_parse_instr(c, 0) == Some((i, 4int)));
        }
        _ => {
        }
    }
}

#[verifier::rlimit(100)]
#[verifier::spinoff_prover]
proof fn lemma_instr_parse_of_bytes_part6(i: ScriptInstruction, rest: Seq<u8>)
    ensures
        spec_opcode_of(i) == 74 || spec_opcode_of(i) == 75 || spec_opcode_of(i) == 76 || spec_opcode_of(i) == 77 || spec_opcode_of(i) == 78 || spec_opcode_of(i) == 79 || spec_opcode_of(i) == 80 || spec_opcode_of(i) == 81 || spec_opcode_of(i) == 82 || spec_opcode_of(i) == 83 ==> spec_parse_instr(
            spec_instr_bytes(i) + rest,
            0,
        ) == Some((i, spec_instr_len(spec_opcode_of(i)))),
{
    let c = spec_instr_bytes(i) + rest;
    match i {
        ScriptInstruction::SetAttackStunVal { flag, arg } => {
            assert(u16_le_at(c, 2) == arg) by { lemma_u16_le_rt(arg); }
            assert(spec_parse_instr(c, 0) == Some((i, 4int)));
        }
        ScriptInstruction::Unk75 { flag, arg } => {
            assert(u16_le_at(c, 2) == arg) by { lemma_u16_le_rt(arg); }
            assert(spec_parse_instr(c, 0) == Some((i, 4int)));
        }
        ScriptInstruction::SetStance { flag, arg } => {
            assert(u16_le_at(c, 2) == arg) by { lemma_u16_le_rt(arg); }
            assert(spec_parse_instr(c, 0) == Some((i, 4int)));
        }
        ScriptInstruction::Unk77 { flag, arg } => {
            assert(u16_le_at(c, 2) == arg) by { lemma_u16_le_rt(arg); }
            assert(spec_parse_instr(c, 0) == Some((i, 4int)));
        }
        ScriptInstruction::SetProration { flag, arg } => {
            assert(u16_le_at(c, 2) == arg) by { lemma_u16_le_rt(arg); }
            assert(spec_parse_instr(c, 0) == Some((i, 4int)));
        }
        ScriptInstruction::Unk79 { flag, arg } => {
            assert(u16_le_at(c, 2) == arg) by { lemma_u16_le_rt(arg); }
            assert(spec_parse_instr(c, 0) == Some((i, 4int)));
        }
        ScriptInstruction::SetThrowInvuln { flag, arg } => {
            assert(u16_le_at(c, 2) == arg) by { lemma_u16_le_rt(arg); }
            assert(spec_parse_instr(c, 0) == Some((i, 4int)));
        }
        ScriptInstruction::Unk81 { flag, arg } => {
            assert(u16_le_at(c, 2) == arg) by { lemma_u16_le_rt(arg); }
            assert(spec_parse_instr(c, 0) == Some((i, 4int)));
        }
        ScriptInstruction::Unk82 { flag, arg } => {
            assert(u16_le_at(c, 2) == arg) by { lemma_u16_le_rt(arg); }
            assert(spec_parse_instr(c, 0) == Some((i, 4int)));
        }
        ScriptInstruction::Unk83 { flag, arg } => {
            assert(u16_le_at(c, 2) == arg) by { lemma_u16_le_rt(arg); }
            assert(spec_parse_instr(c, 0) == Some((i, 4int)));
        }
        _ => {
        }
    }
}

#[verifier::rlimit(100)]
#[verifier::spinoff_prover]
proof fn lemma_instr_parse_of_bytes_part7(i: ScriptInstruction, rest: Seq<u8>)
    ensures
        spec_opcode_of(i) == 84 || spec_opcode_of(i) == 85 || spec_opcode_of(i) == 86 || spec_opcode_of(i) == 87 || spec_opcode_of(i) == 88 || spec_opcode_of(i) == 89 || spec_opcode_of(i) == 90 || spec_opcode_of(i) == 91 || spec_opcode_of(i) == 92 || spec_opcode_of(i) == 93 ==> spec_parse_instr(
            spec_instr_bytes(i) + rest,
            0,
        ) == Some((i, spec_instr_len(spec_opcode_of(i)))),
{
    let c = spec_instr_bytes(i) + rest;
    match i {
        ScriptInstruction::Pushback { flag, magnitude } => {
            assert(i16_le_at(c, 2) == magnitude) by {
                lemma_u16_le_rt(crate::helpers::u16_of_i16(magnitude));
                lemma_i16_u16_rt(magnitude);
            }
            assert(spec_parse_instr(c, 0) == Some((i, 4int)));
        }
        ScriptInstruction::Stagger { flag, arg } => {
            assert(u16_le_at(c, 2) == arg) by { lemma_u16_le_rt(arg); }
            assert(spec_parse_instr(c, 0) == Some((i, 4int)));
        }
        ScriptInstruction::Unk86 { flag, obj_id, buffered_act, act_id } => {
            assert(u16_le_at(c, 2) == obj_id) by { lemma_u16_le_rt(obj_id); }
            assert(u16_le_at(c, 4) == buffered_act) by { lemma_u16_le_rt(buffered_act); }
            assert(u16_le_at(c, 6) == act_id) by { lemma_u16_le_rt(act_id); }
            assert(spec_parse_instr(c, 0) == Some((i, 8int)));
        }
        ScriptInstruction::Unk87 { flag, arg } => {
            assert(u16_le_at(c, 2) == arg) by { lemma_u16_le_rt(arg); }
            assert(spec_parse_instr(c, 0) == Some((i, 4int)));
        }
        ScriptInstruction::Unk88 { flag, arg, arg2, arg3 } => {
            assert(u16_le_at(c, 2) == arg) by { lemma_u16_le_rt(arg); }
            assert(u16_le_at(c, 4) == arg2) by { lemma_u16_le_rt(arg2); }
            assert(u16_le_at(c, 6) == arg3) by { lemma_u16_le_rt(arg3); }
            assert(spec_parse_instr(c, 0) == Some((i, 8int)));
        }
        ScriptInstruction::Unk89 { flag, arg } => {
            assert(u16_le_at(c, 2) == arg) by { lemma_u16_le_rt(arg); }
            assert(spec_parse_instr(c, 0) == Some((i, 4int)));
        }
        ScriptInstruction::Unk90 { flag, arg, arg2, arg3 } => {
            assert(u16_le_at(c, 2) == arg) by { lemma_u16_le_rt(arg); }
            assert(u16_le_at(c, 4) == arg2) by { lemma_u16_le_rt(arg2); }
            assert(u16_le_at(c, 6) == arg3) by { lemma_u16_le_rt(arg3); }
            assert(spec_parse_instr(c, 0) == Some((i, 8int)));
        }
        ScriptInstruction::Unk91 { flag, arg, arg2 } => {
            assert(u16_le_at(c, 2) == arg) by { lemma_u16_le_rt(arg); }
            assert(u32_le_at(c, 4) == arg2) by { lemma_u32_le_rt(arg2); }
            assert(spec_parse_instr(c, 0) == Some((i, 8int)));
        }
        ScriptInstruction::JumpInstall { flag, arg } => {
            assert(u16_le_at(c, 2) == arg) by { lemma_u16_le_rt(arg); }
            assert(spec_parse_instr(c, 0) == Some((i, 4int)));
        }
        ScriptInstruction::Unk93 { flag, arg } => {
            assert(u16_le_at(c, 2) == arg) by { lemma_u16_le_rt(arg); }
            assert(spec_parse_instr(c, 0) == Some((i, 4int)));
        }
        _ => {
        }
    }
}

#[verifier::rlimit(100)]
#[verifier::spinoff_prover]
proof fn lemma_instr_parse_of_bytes_part8(i: ScriptInstruction, rest: Seq<u8>)
    ensures
        spec_opcode_of(i) == 94 || spec_opcode_of(i) == 95 || spec_opcode_of(i) == 96 || spec_opcode_of(i) == 97 || spec_opcode_of(i) == 98 || spec_opcode_of(i) == 99 || spec_opcode_of(i) == 100 || spec_opcode_of(i) == 101 || spec_opcode_of(i) == 102 || spec_opcode_of(i) == 103 ==> spec_parse_instr(
            spec_instr_bytes(i) + rest,
            0,
        ) == Some((i, spec_instr_len(spec_opcode_of(i)))),
{
    let c = spec_instr_bytes(i) + rest;
    match i {
        ScriptInstruction::Unk94 { flag, arg, arg2 } => {
            assert(u16_le_at(c, 2) == arg) by { lemma_u16_le_rt(arg); }
            assert(u32_le_at(c, 4) == arg2) by { lemma_u32_le_rt(arg2); }
            assert(spec_parse_instr(c, 0) == Some((i, 8int)));
        }
        ScriptInstruction::Unk95 { rsrv, arg1, flag, arg3, arg4 } => {
            assert(u16_le_at(c, 2) == arg1) by { lemma_u16_le_rt(arg1); }
            assert(u32_le_at(c, 4) == flag) by { lemma_u32_le_rt(flag); }
            assert(u16_le_at(c, 8) == arg3) by { lemma_u16_le_rt(arg3); }
            assert(u16_le_at(c, 10) == arg4) by { lemma_u16_le_rt(arg4); }
            assert(spec_parse_instr(c, 0) == Some((i, 12int)));
        }
        ScriptInstruction::Unk96 { flag, arg1, arg2, arg3 } => {
            assert(u16_le_at(c, 2) == arg1) by { lemma_u16_le_rt(arg1); }
            assert(u16_le_at(c, 4) == arg2) by { lemma_u16_le_rt(arg2); }
            assert(u16_le_at(c, 6) == arg3) by { lemma_u16_le_rt(arg3); }
            assert(spec_parse_instr(c, 0) == Some((i, 8int)));
        }
        ScriptInstruction::Unk97 { flag, arg1, arg2, arg3, arg4, arg5 } => {
            assert(u16_le_at(c, 2) == arg1) by { lemma_u16_le_rt(arg1); }
            assert(u16_le_at(c, 4) == arg2) by { lemma_u16_le_rt(arg2); }
            assert(u16_le_at(c, 6) == arg3) by { lemma_u16_le_rt(arg3); }
            assert(u16_le_at(c, 8) == arg4) by { lemma_u16_le_rt(arg4); }
            assert(u16_le_at(c, 10) == arg5) by { lemma_u16_le_rt(arg5); }
            assert(spec_parse_instr(c, 0) == Some((i, 12int)));
        }
        ScriptInstruction::Unk98 { flag, arg } => {
            assert(i16_le_at(c, 2) == arg) by {
                lemma_u16_le_rt(crate::helpers::u16_of_i16(arg));
                lemma_i16_u16_rt(arg);
            }
            assert(spec_parse_instr(c, 0) == Some((i, 4int)));
        }
        ScriptInstruction::Unk99 { flag, arg } => {
            assert(u16_le_at(c, 2) == arg) by { lemma_u16_le_rt(arg); }
            assert(spec_parse_instr(c, 0) == Some((i, 4int)));
        }
        ScriptInstruction::Unk100 { flag, arg1, arg2 } => {
            assert(u16_le_at(c, 2) == arg1) by { lemma_u16_le_rt(arg1); }
            assert(u32_le_at(c, 4) == arg2) by { lemma_u32_le_rt(arg2); }
            assert(spec_parse_instr(c, 0) == Some((i, 8int)));
        }
        ScriptInstruction::SetAttackProperties { flag, arg, unk1, unk2, unk3, unk4 } => {
            assert(u16_le_at(c, 2) == arg) by { lemma_u16_le_rt(arg); }
            assert(spec_parse_instr(c, 0) == Some((i, 8int)));
        }
        ScriptInstruction::Unk102 { flag, arg, arg2, arg3 } => {
            assert(u16_le_at(c, 2) == arg) by { lemma_u16_le_rt(arg); }
            assert(u16_le_at(c, 4) == arg2) by { lemma_u16_le_rt(arg2); }
            assert(u16_le_at(c, 6) == arg3) by { lemma_u16_le_rt(arg3); }
            assert(spec_parse_instr(c, 0) == Some((i, 8int)));
        }
        ScriptInstruction::Unk103 { flag, arg, arg2, arg3 } => {
            assert(u16_le_at(c, 2) == arg) by { lemma_u16_le_rt(arg); }
            assert(u16_le_at(c, 4) == arg2) by { lemma_u16_le_rt(arg2); }
            assert(u16_le_at(c, 6) == arg3) by { lemma_u16_le_rt(arg3); }
            assert(spec_parse_instr(c, 0) == Some((i, 8int)));
        }
        _ => {
        }
    }
}

#[verifier::rlimit(100)]
#[verifier::spinoff_prover]
proof fn lemma_instr_parse_of_bytes_part9(i: ScriptInstruction, rest: Seq<u8>)
    ensures
        spec_opcode_of(i) == 253 || spec_opcode_of(i) == 255 ==> spec_parse_instr(
            spec_instr_bytes(i) + rest,
            0,
        ) == Some((i, spec_instr_len(spec_opcode_of(i)))),
{
    let c = spec_instr_bytes(i) + rest;
    match i {
        ScriptInstruction::ScriptEnd { flag, arg } => {
            assert(u16_le_at(c, 2) == arg) by { lemma_u16_le_rt(arg); }
            assert(spec_parse_instr(c, 0) == Some((i, 4int)));
        }
        ScriptInstruction::ActionEnd { flag, arg } => {
            assert(u16_le_at(c, 2) == arg) by { lemma_u16_le_rt(arg); }
            assert(spec_parse_instr(c, 0) == Some((i, 4int)));
        }
        _ => {
        }
    }
}

/// Decoding an encoded instruction, with any bytes following it, yields
/// the instruction back: the encoding is lossless for every variant.
pub proof fn lemma_instr_parse_of_bytes(i: ScriptInstruction, rest: Seq<u8>)
    ensures
        spec_parse_instr(spec_instr_bytes(i) + rest, 0) == Some(
            (i, spec_instr_len(spec_opcode_of(i))),
        ),
{
    lemma_instr_parse_of_bytes_part0(i, rest);
    lemma_instr_parse_of_bytes_part1(i, rest);
    lemma_instr_parse_of_bytes_part2(i, rest);
    lemma_instr_parse_of_bytes_part3(i, rest);
    lemma_instr_parse_of_bytes_part4(i, rest);
    lemma_instr_parse_of_bytes_part5(i, rest);
    lemma_instr_parse_of_bytes_part6(i, rest);
    lemma_instr_parse_of_bytes_part7(i, rest);
    lemma_instr_parse_of_bytes_part8(i, rest);
    lemma_instr_parse_of_bytes_part9(i, rest);
}

/// Every instruction encodes to its opcode's declared size, a multiple
/// of four bytes between 4 and 16, and opens with its opcode byte.
#[verifier::rlimit(100)]
#[verifier::spinoff_prover]
pub proof fn lemma_instr_bytes_len(i: ScriptInstruction)
    ensures
        spec_instr_bytes(i).len() == spec_instr_len(spec_opcode_of(i)),
        spec_instr_bytes(i)[0] == spec_opcode_of(i),
        4 <= spec_instr_bytes(i).len() <= 16,
        spec_instr_bytes(i).len() % 4 == 0,
{
}

// ---------------------------------------------------------------------------
// PlayData: the player tuning record at the head of a player script
// ---------------------------------------------------------------------------

/// The player tuning record: a fixed magic byte, one unknown byte, then
/// the signed 16-bit tuning fields in declared order, all little-endian.
#[derive(Copy, Clone, PartialEq, Eq, Structural, Debug)]
pub struct PlayData {
    pub unk: u8,
    pub fwalk_vel: i16,
    pub bwalk_vel: i16,
    pub fdash_init_vel: i16,
    pub bdash_x_vel: i16,
    pub bdash_y_vel: i16,
    pub bdash_gravity: i16,
    pub fjump_x_vel: i16,
    pub bjump_x_vel: i16,
    pub jump_y_vel: i16,
    pub jump_gravity: i16,
    pub fsuperjump_x_vel: i16,
    pub bsuperjump_x_vel: i16,
    pub superjump_y_vel: i16,
    pub superjump_gravity: i16,
    pub fdash_accel: i16,
    pub fdash_reduce: i16,
    pub init_homingjump_y_vel: i16,
    pub init_homingjump_x_vel: i16,
    pub init_homingjump_x_reduce: i16,
    pub init_homingjump_y_offset: i16,
    pub airdash_minimum_height: i16,
    pub fairdash_time: i16,
    pub bairdash_time: i16,
    pub stun_res: i16,
    pub defense: i16,
    pub guts: i16,
    pub critical: i16,
    pub weight: i16,
    pub airdash_count: i16,
    pub airjump_count: i16,
    pub fairdash_no_attack_time: i16,
    pub bairdash_no_attack_time: i16,
    pub fwalk_tension: i16,
    pub fjump_tension: i16,
    pub fdash_tension: i16,
    pub fairdash_tension: i16,
    pub guardbalance_defense: i16,
    pub guardbalance_tension: i16,
    pub instantblock_tension: i16,
}

/// Total encoded size of a PlayData record, magic byte included.
pub const PLAY_DATA_SIZE: usize = 80;

/// The tuning fields of a PlayData record, in declared order.
pub open spec fn spec_play_data_fields(d: PlayData) -> Seq<i16> {
    seq![
        d.fwalk_vel,
        d.bwalk_vel,
        d.fdash_init_vel,
        d.bdash_x_vel,
        d.bdash_y_vel,
        d.bdash_gravity,
        d.fjump_x_vel,
        d.bjump_x_vel,
        d.jump_y_vel,
        d.jump_gravity,
        d.fsuperjump_x_vel,
        d.bsuperjump_x_vel,
        d.superjump_y_vel,
        d.superjump_gravity,
        d.fdash_accel,
        d.fdash_reduce,
        d.init_homingjump_y_vel,
        d.init_homingjump_x_vel,
        d.init_homingjump_x_reduce,
        d.init_homingjump_y_offset,
        d.airdash_minimum_height,
        d.fairdash_time,
        d.bairdash_time,
        d.stun_res,
        d.defense,
        d.guts,
        d.critical,
        d.weight,
        d.airdash_count,
        d.airjump_count,
        d.fairdash_no_attack_time,
        d.bairdash_no_attack_time,
        d.fwalk_tension,
        d.fjump_tension,
        d.fdash_tension,
        d.fairdash_tension,
        d.guardbalance_defense,
        d.guardbalance_tension,
        d.instantblock_tension,
    ]
}

/// The exact byte sequence a PlayData record encodes to: the magic byte,
/// the unknown byte, then every tuning field little-endian.
pub open spec fn spec_play_data_bytes(d: PlayData) -> Seq<u8> {
    seq![0xE5u8, d.unk] + crate::helpers::i16s_le_of(spec_play_data_fields(d))
}

/// Decodes a PlayData record at `pos`: the magic byte must match and the
/// whole record must lie within `b`.
pub open spec fn spec_parse_play_data(b: Seq<u8>, pos: int) -> Option<(PlayData, int)> {
    if pos < 0 || pos + 80 > b.len() {
        None
    } else if b[pos] != 0xE5 {
        None
    } else {
        Some(
            (
                PlayData {
                    unk: b[pos + 1],
                    fwalk_vel: i16_le_at(b, pos + 2),
                    bwalk_vel: i16_le_at(b, pos + 4),
                    fdash_init_vel: i16_le_at(b, pos + 6),
                    bdash_x_vel: i16_le_at(b, pos + 8),
                    bdash_y_vel: i16_le_at(b, pos + 10),
                    bdash_gravity: i16_le_at(b, pos + 12),
                    fjump_x_vel: i16_le_at(b, pos + 14),
                    bjump_x_vel: i16_le_at(b, pos + 16),
                    jump_y_vel: i16_le_at(b, pos + 18),
                    jump_gravity: i16_le_at(b, pos + 20),
                    fsuperjump_x_vel: i16_le_at(b, pos + 22),
                    bsuperjump_x_vel: i16_le_at(b, pos + 24),
                    superjump_y_vel: i16_le_at(b, pos + 26),
                    superjump_gravity: i16_le_at(b, pos + 28),
                    fdash_accel: i16_le_at(b, pos + 30),
                    fdash_reduce: i16_le_at(b, pos + 32),
                    init_homingjump_y_vel: i16_le_at(b, pos + 34),
                    init_homingjump_x_vel: i16_le_at(b, pos + 36),
                    init_homingjump_x_reduce: i16_le_at(b, pos + 38),
                    init_homingjump_y_offset: i16_le_at(b, pos + 40),
                    airdash_minimum_height: i16_le_at(b, pos + 42),
                    fairdash_time: i16_le_at(b, pos + 44),
                    bairdash_time: i16_le_at(b, pos + 46),
                    stun_res: i16_le_at(b, pos + 48),
                    defense: i16_le_at(b, pos + 50),
                    guts: i16_le_at(b, pos + 52),
                    critical: i16_le_at(b, pos + 54),
                    weight: i16_le_at(b, pos + 56),
                    airdash_count: i16_le_at(b, pos + 58),
                    airjump_count: i16_le_at(b, pos + 60),
                    fairdash_no_attack_time: i16_le_at(b, pos + 62),
                    bairdash_no_attack_time: i16_le_at(b, pos + 64),
                    fwalk_tension: i16_le_at(b, pos + 66),
                    fjump_tension: i16_le_at(b, pos + 68),
                    fdash_tension: i16_le_at(b, pos + 70),
                    fairdash_tension: i16_le_at(b, pos + 72),
                    guardbalance_defense: i16_le_at(b, pos + 74),
                    guardbalance_tension: i16_le_at(b, pos + 76),
                    instantblock_tension: i16_le_at(b, pos + 78),
                },
                pos + 80,
            ),
        )
    }
}

impl PlayData {
    /// Encodes the record: magic byte, unknown byte, then every tuning
    /// field little-endian in declared order.
    #[verifier::rlimit(50)]
    pub fn to_bytes(&self) -> (r: Vec<u8>)
        ensures
            r@ == spec_play_data_bytes(*self),
            r@.len() == 80,
    {
        let mut fields: Vec<i16> = Vec::new();
        fields.push(self.fwalk_vel);
        fields.push(self.bwalk_vel);
        fields.push(self.fdash_init_vel);
        fields.push(self.bdash_x_vel);
        fields.push(self.bdash_y_vel);
        fields.push(self.bdash_gravity);
        fields.push(self.fjump_x_vel);
        fields.push(self.bjump_x_vel);
        fields.push(self.jump_y_vel);
        fields.push(self.jump_gravity);
        fields.push(self.fsuperjump_x_vel);
        fields.push(self.bsuperjump_x_vel);
        fields.push(self.superjump_y_vel);
        fields.push(self.superjump_gravity);
        fields.push(self.fdash_accel);
        fields.push(self.fdash_reduce);
        fields.push(self.init_homingjump_y_vel);
        fields.push(self.init_homingjump_x_vel);
        fields.push(self.init_homingjump_x_reduce);
        fields.push(self.init_homingjump_y_offset);
        fields.push(self.airdash_minimum_height);
        fields.push(self.fairdash_time);
        fields.push(self.bairdash_time);
        fields.push(self.stun_res);
        fields.push(self.defense);
        fields.push(self.guts);
        fields.push(self.critical);
        fields.push(self.weight);
        fields.push(self.airdash_count);
        fields.push(self.airjump_count);
        fields.push(self.fairdash_no_attack_time);
        fields.push(self.bairdash_no_attack_time);
        fields.push(self.fwalk_tension);
        fields.push(self.fjump_tension);
        fields.push(self.fdash_tension);
        fields.push(self.fairdash_tension);
        fields.push(self.guardbalance_defense);
        fields.push(self.guardbalance_tension);
        fields.push(self.instantblock_tension);
        proof {
            assert(fields@ =~= spec_play_data_fields(*self));
        }
        let mut buffer: Vec<u8> = Vec::new();
        buffer.push(0xE5u8);
        buffer.push(self.unk);
        crate::helpers::push_i16s_le(&mut buffer, &fields);
        proof {
            crate::helpers::lemma_i16s_le_of_len(spec_play_data_fields(*self));
            assert(buffer@ =~= spec_play_data_bytes(*self));
        }
        buffer
    }
}

/// Decodes a PlayData record. A leading byte other than the magic value
/// is a structural mismatch and fails the decode.
#[verifier::rlimit(50)]
pub fn parse_play_data(b: &[u8], pos: usize) -> (r: Result<(PlayData, usize), Error>)
    requires
        pos <= b@.len(),
    ensures
        match spec_parse_play_data(b@, pos as int) {
            Some(t) => r matches Ok(o) && o.0 == t.0 && o.1 == t.1,
            None => r matches Err(e) && e.is_parser(),
        },
{
    let n_total: usize = b.len();
    if n_total - pos < 80 {
        return Err(Error::Parser("play data: truncated input".to_string()));
    }
    let magic = read_u8(b, pos);
    if magic != 0xE5 {
        return Err(Error::Parser("play data: magic byte mismatch".to_string()));
    }
    let d = PlayData {
        unk: read_u8(b, pos + 1),
        fwalk_vel: read_i16_le(b, pos + 2),
        bwalk_vel: read_i16_le(b, pos + 4),
        fdash_init_vel: read_i16_le(b, pos + 6),
        bdash_x_vel: read_i16_le(b, pos + 8),
        bdash_y_vel: read_i16_le(b, pos + 10),
        bdash_gravity: read_i16_le(b, pos + 12),
        fjump_x_vel: read_i16_le(b, pos + 14),
        bjump_x_vel: read_i16_le(b, pos + 16),
        jump_y_vel: read_i16_le(b, pos + 18),
        jump_gravity: read_i16_le(b, pos + 20),
        fsuperjump_x_vel: read_i16_le(b, pos + 22),
        bsuperjump_x_vel: read_i16_le(b, pos + 24),
        superjump_y_vel: read_i16_le(b, pos + 26),
        superjump_gravity: read_i16_le(b, pos + 28),
        fdash_accel: read_i16_le(b, pos + 30),
        fdash_reduce: read_i16_le(b, pos + 32),
        init_homingjump_y_vel: read_i16_le(b, pos + 34),
        init_homingjump_x_vel: read_i16_le(b, pos + 36),
        init_homingjump_x_reduce: read_i16_le(b, pos + 38),
        init_homingjump_y_offset: read_i16_le(b, pos + 40),
        airdash_minimum_height: read_i16_le(b, pos + 42),
        fairdash_time: read_i16_le(b, pos + 44),
        bairdash_time: read_i16_le(b, pos + 46),
        stun_res: read_i16_le(b, pos + 48),
        defense: read_i16_le(b, pos + 50),
        guts: read_i16_le(b, pos + 52),
        critical: read_i16_le(b, pos + 54),
        weight: read_i16_le(b, pos + 56),
        airdash_count: read_i16_le(b, pos + 58),
        airjump_count: read_i16_le(b, pos + 60),
        fairdash_no_attack_time: read_i16_le(b, pos + 62),
        bairdash_no_attack_time: read_i16_le(b, pos + 64),
        fwalk_tension: read_i16_le(b, pos + 66),
        fjump_tension: read_i16_le(b, pos + 68),
        fdash_tension: read_i16_le(b, pos + 70),
        fairdash_tension: read_i16_le(b, pos + 72),
        guardbalance_defense: read_i16_le(b, pos + 74),
        guardbalance_tension: read_i16_le(b, pos + 76),
        instantblock_tension: read_i16_le(b, pos + 78),
    };
    Ok((d, pos + 80))
}

/// Encoding a decoded PlayData record reproduces the exact input bytes.
#[verifier::rlimit(100)]
#[verifier::spinoff_prover]
pub proof fn lemma_play_data_bytes_of_parse(b: Seq<u8>, pos: int)
    requires
        spec_parse_play_data(b, pos) is Some,
    ensures
        spec_play_data_bytes(spec_parse_play_data(b, pos)->Some_0.0) == b.subrange(
            pos,
            spec_parse_play_data(b, pos)->Some_0.1,
        ),
{
    let t = spec_parse_play_data(b, pos)->Some_0;
    let n: int = 39;
    let s = Seq::new(n as nat, |k: int| i16_le_at(b, pos + 2 + 2 * k));
    crate::helpers::lemma_i16s_le_of_at(b, pos + 2, n);
    assert(spec_play_data_fields(t.0) =~= s);
    crate::helpers::lemma_i16s_le_of_len(s);
    assert(spec_play_data_bytes(t.0) =~= b.subrange(pos, t.1));
}

/// Decoding an encoded PlayData record, with any bytes following it,
/// yields the record back.
#[verifier::rlimit(100)]
#[verifier::spinoff_prover]
pub proof fn lemma_play_data_parse_of_bytes(d: PlayData, rest: Seq<u8>)
    ensures
        spec_parse_play_data(spec_play_data_bytes(d) + rest, 0) == Some(
            (d, 80int),
        ),
{
    let c = spec_play_data_bytes(d) + rest;
    let s = spec_play_data_fields(d);
    crate::helpers::lemma_i16s_le_of_len(s);
    assert(c.subrange(2, 2 + 2 * (s.len() as int)) =~= crate::helpers::i16s_le_of(s));
    crate::helpers::lemma_i16s_le_at_of(c, 2, s);
    assert(i16_le_at(c, 2) == d.fwalk_vel) by {
        assert(i16_le_at(c, 2 + 2 * 0int) == s[0]);
    }
    assert(i16_le_at(c, 4) == d.bwalk_vel) by {
        assert(i16_le_at(c, 2 + 2 * 1int) == s[1]);
    }
    assert(i16_le_at(c, 6) == d.fdash_init_vel) by {
        assert(i16_le_at(c, 2 + 2 * 2int) == s[2]);
    }
    assert(i16_le_at(c, 8) == d.bdash_x_vel) by {
        assert(i16_le_at(c, 2 + 2 * 3int) == s[3]);
    }
    assert(i16_le_at(c, 10) == d.bdash_y_vel) by {
        assert(i16_le_at(c, 2 + 2 * 4int) == s[4]);
    }
    assert(i16_le_at(c, 12) == d.bdash_gravity) by {
        assert(i16_le_at(c, 2 + 2 * 5int) == s[5]);
    }
    assert(i16_le_at(c, 14) == d.fjump_x_vel) by {
        assert(i16_le_at(c, 2 + 2 * 6int) == s[6]);
    }
    assert(i16_le_at(c, 16) == d.bjump_x_vel) by {
        assert(i16_le_at(c, 2 + 2 * 7int) == s[7]);
    }
    assert(i16_le_at(c, 18) == d.jump_y_vel) by {
        assert(i16_le_at(c, 2 + 2 * 8int) == s[8]);
    }
    assert(i16_le_at(c, 20) == d.jump_gravity) by {
        assert(i16_le_at(c, 2 + 2 * 9int) == s[9]);
    }
    assert(i16_le_at(c, 22) == d.fsuperjump_x_vel) by {
        assert(i16_le_at(c, 2 + 2 * 10int) == s[10]);
    }
    assert(i16_le_at(c, 24) == d.bsuperjump_x_vel) by {
        assert(i16_le_at(c, 2 + 2 * 11int) == s[11]);
    }
    assert(i16_le_at(c, 26) == d.superjump_y_vel) by {
        assert(i16_le_at(c, 2 + 2 * 12int) == s[12]);
    }
    assert(i16_le_at(c, 28) == d.superjump_gravity) by {
        assert(i16_le_at(c, 2 + 2 * 13int) == s[13]);
    }
    assert(i16_le_at(c, 30) == d.fdash_accel) by {
        assert(i16_le_at(c, 2 + 2 * 14int) == s[14]);
    }
    assert(i16_le_at(c, 32) == d.fdash_reduce) by {
        assert(i16_le_at(c, 2 + 2 * 15int) == s[15]);
    }
    assert(i16_le_at(c, 34) == d.init_homingjump_y_vel) by {
        assert(i16_le_at(c, 2 + 2 * 16int) == s[16]);
    }
    assert(i16_le_at(c, 36) == d.init_homingjump_x_vel) by {
        assert(i16_le_at(c, 2 + 2 * 17int) == s[17]);
    }
    assert(i16_le_at(c, 38) == d.init_homingjump_x_reduce) by {
        assert(i16_le_at(c, 2 + 2 * 18int) == s[18]);
    }
    assert(i16_le_at(c, 40) == d.init_homingjump_y_offset) by {
        assert(i16_le_at(c, 2 + 2 * 19int) == s[19]);
    }
    assert(i16_le_at(c, 42) == d.airdash_minimum_height) by {
        assert(i16_le_at(c, 2 + 2 * 20int) == s[20]);
    }
    assert(i16_le_at(c, 44) == d.fairdash_time) by {
        assert(i16_le_at(c, 2 + 2 * 21int) == s[21]);
    }
    assert(i16_le_at(c, 46) == d.bairdash_time) by {
        assert(i16_le_at(c, 2 + 2 * 22int) == s[22]);
    }
    assert(i16_le_at(c, 48) == d.stun_res) by {
        assert(i16_le_at(c, 2 + 2 * 23int) == s[23]);
    }
    assert(i16_le_at(c, 50) == d.defense) by {
        assert(i16_le_at(c, 2 + 2 * 24int) == s[24]);
    }
    assert(i16_le_at(c, 52) == d.guts) by {
        assert(i16_le_at(c, 2 + 2 * 25int) == s[25]);
    }
    assert(i16_le_at(c, 54) == d.critical) by {
        assert(i16_le_at(c, 2 + 2 * 26int) == s[26]);
    }
    assert(i16_le_at(c, 56) == d.weight) by {
        assert(i16_le_at(c, 2 + 2 * 27int) == s[27]);
    }
    assert(i16_le_at(c, 58) == d.airdash_count) by {
        assert(i16_le_at(c, 2 + 2 * 28int) == s[28]);
    }
    assert(i16_le_at(c, 60) == d.airjump_count) by {
        assert(i16_le_at(c, 2 + 2 * 29int) == s[29]);
    }
    assert(i16_le_at(c, 62) == d.fairdash_no_attack_time) by {
        assert(i16_le_at(c, 2 + 2 * 30int) == s[30]);
    }
    assert(i16_le_at(c, 64) == d.bairdash_no_attack_time) by {
        assert(i16_le_at(c, 2 + 2 * 31int) == s[31]);
    }
    assert(i16_le_at(c, 66) == d.fwalk_tension) by {
        assert(i16_le_at(c, 2 + 2 * 32int) == s[32]);
    }
    assert(i16_le_at(c, 68) == d.fjump_tension) by {
        assert(i16_le_at(c, 2 + 2 * 33int) == s[33]);
    }
    assert(i16_le_at(c, 70) == d.fdash_tension) by {
        assert(i16_le_at(c, 2 + 2 * 34int) == s[34]);
    }
    assert(i16_le_at(c, 72) == d.fairdash_tension) by {
        assert(i16_le_at(c, 2 + 2 * 35int) == s[35]);
    }
    assert(i16_le_at(c, 74) == d.guardbalance_defense) by {
        assert(i16_le_at(c, 2 + 2 * 36int) == s[36]);
    }
    assert(i16_le_at(c, 76) == d.guardbalance_tension) by {
        assert(i16_le_at(c, 2 + 2 * 37int) == s[37]);
    }
    assert(i16_le_at(c, 78) == d.instantblock_tension) by {
        assert(i16_le_at(c, 2 + 2 * 38int) == s[38]);
    }
    assert(spec_parse_play_data(c, 0) == Some((d, 80int)));
}

// ---------------------------------------------------------------------------
// Script actions
// ---------------------------------------------------------------------------

/// One decoded script action: a four-field header followed by an
/// instruction sequence that runs until its ActionEnd terminal. An action
/// whose header flags match the script-terminal pattern carries no
/// instructions of its own.
#[derive(Clone, PartialEq, Eq, Debug)]
pub struct ScriptAction {
    pub flags: u32,
    pub ls3b_attack_level: u16,
    pub damage: u8,
    pub collision_mask: u8,
    pub instructions: Vec<ScriptInstruction>,
}

/// The mathematical model of a script action.
pub ghost struct ActionModel {
    pub flags: u32,
    pub ls3b_attack_level: u16,
    pub damage: u8,
    pub collision_mask: u8,
    pub instructions: Seq<ScriptInstruction>,
}

impl View for ScriptAction {
    type V = ActionModel;

    open spec fn view(&self) -> ActionModel {
        ActionModel {
            flags: self.flags,
            ls3b_attack_level: self.ls3b_attack_level,
            damage: self.damage,
            collision_mask: self.collision_mask,
            instructions: self.instructions@,
        }
    }
}

/// The models of a sequence of actions.
pub open spec fn spec_actions_view(s: Seq<ScriptAction>) -> Seq<ActionModel> {
    s.map_values(|a: ScriptAction| a@)
}

/// The header-flags pattern that marks the script-level terminal action.
pub open spec fn spec_action_terminal(flags: u32) -> bool {
    flags & 253 == 253
}

/// Exec test for the script-terminal flags pattern.
pub fn action_terminal(flags: u32) -> (r: bool)
    ensures
        r == spec_action_terminal(flags),
{
    flags & 253 == 253
}

/// Exec test for the action-level terminal instruction.
pub fn is_action_end(i: &ScriptInstruction) -> (r: bool)
    ensures
        r == (*i is ActionEnd),
{
    match i {
        ScriptInstruction::ActionEnd { .. } => true,
        _ => false,
    }
}

// ---------------------------------------------------------------------------
// Encoding: instructions, actions, script bodies
// ---------------------------------------------------------------------------

/// The concatenated encodings of a sequence of instructions.
pub open spec fn spec_instrs_bytes(s: Seq<ScriptInstruction>) -> Seq<u8>
    decreases s.len(),
{
    if s.len() == 0 {
        Seq::empty()
    } else {
        spec_instr_bytes(s[0]) + spec_instrs_bytes(s.drop_first())
    }
}

/// Appending one instruction appends its encoding.
pub proof fn lemma_instrs_bytes_push(s: Seq<ScriptInstruction>, i: ScriptInstruction)
    ensures
        spec_instrs_bytes(s.push(i)) == spec_instrs_bytes(s) + spec_instr_bytes(i),
    decreases s.len(),
{
    if s.len() == 0 {
        assert(s.push(i).drop_first() =~= Seq::<ScriptInstruction>::empty());
        assert(s.push(i)[0] == i);
        assert(spec_instrs_bytes(s.push(i)) == spec_instr_bytes(i) + spec_instrs_bytes(
            s.push(i).drop_first(),
        ));
        assert(spec_instrs_bytes(s.push(i)) =~= spec_instrs_bytes(s) + spec_instr_bytes(i));
    } else {
        assert(s.push(i)[0] == s[0]);
        assert(s.push(i).drop_first() =~= s.drop_first().push(i));
        lemma_instrs_bytes_push(s.drop_first(), i);
        assert(spec_instrs_bytes(s.push(i)) == spec_instr_bytes(s[0]) + spec_instrs_bytes(
            s.drop_first().push(i),
        ));
        assert(spec_instrs_bytes(s) == spec_instr_bytes(s[0]) + spec_instrs_bytes(s.drop_first()));
        vstd::seq_lib::lemma_concat_associative(
            spec_instr_bytes(s[0]),
            spec_instrs_bytes(s.drop_first()),
            spec_instr_bytes(i),
        );
    }
}

/// Appends the encodings of all instructions to `out`.
pub fn write_instrs(out: &mut Vec<u8>, instrs: &Vec<ScriptInstruction>)
    ensures
        final(out)@ == old(out)@ + spec_instrs_bytes(instrs@),
{
    let mut k: usize = 0;
    while k < instrs.len()
        invariant
            k <= instrs@.len(),
            out@ == old(out)@ + spec_instrs_bytes(instrs@.take(k as int)),
        decreases instrs@.len() - k,
    {
        let bytes = instrs[k].to_bytes();
        crate::helpers::push_slice(out, bytes.as_slice());
        proof {
            assert(instrs@.take(k as int).push(instrs@[k as int]) =~= instrs@.take(k + 1 as int));
            lemma_instrs_bytes_push(instrs@.take(k as int), instrs@[k as int]);
            assert(out@ =~= old(out)@ + spec_instrs_bytes(instrs@.take(k + 1 as int)));
        }
        k = k + 1;
    }
    proof {
        assert(instrs@.take(instrs@.len() as int) =~= instrs@);
    }
}

/// The exact byte sequence an action encodes to: the four header fields,
/// then every instruction in order.
pub open spec fn spec_action_bytes(a: ActionModel) -> Seq<u8> {
    u32_le_of(a.flags) + u16_le_of(a.ls3b_attack_level) + seq![a.damage, a.collision_mask]
        + spec_instrs_bytes(a.instructions)
}

/// Appends the encoding of one action to `out`.
pub fn write_action(out: &mut Vec<u8>, a: &ScriptAction)
    ensures
        final(out)@ == old(out)@ + spec_action_bytes(a@),
{
    push_u32_le(out, a.flags);
    push_u16_le(out, a.ls3b_attack_level);
    out.push(a.damage);
    out.push(a.collision_mask);
    write_instrs(out, &a.instructions);
    proof {
        assert(out@ =~= old(out)@ + spec_action_bytes(a@));
    }
}

/// The concatenated encodings of a sequence of actions.
pub open spec fn spec_actions_bytes(s: Seq<ActionModel>) -> Seq<u8>
    decreases s.len(),
{
    if s.len() == 0 {
        Seq::empty()
    } else {
        spec_action_bytes(s[0]) + spec_actions_bytes(s.drop_first())
    }
}

/// Appending one action appends its encoding.
pub proof fn lemma_actions_bytes_push(s: Seq<ActionModel>, a: ActionModel)
    ensures
        spec_actions_bytes(s.push(a)) == spec_actions_bytes(s) + spec_action_bytes(a),
    decreases s.len(),
{
    if s.len() == 0 {
        assert(s.push(a).drop_first() =~= Seq::<ActionModel>::empty());
        assert(s.push(a)[0] == a);
        assert(spec_actions_bytes(s.push(a)) == spec_action_bytes(a) + spec_actions_bytes(
            s.push(a).drop_first(),
        ));
        assert(spec_actions_bytes(s.push(a)) =~= spec_actions_bytes(s) + spec_action_bytes(a));
    } else {
        assert(s.push(a)[0] == s[0]);
        assert(s.push(a).drop_first() =~= s.drop_first().push(a));
        lemma_actions_bytes_push(s.drop_first(), a);
        assert(spec_actions_bytes(s.push(a)) == spec_action_bytes(s[0]) + spec_actions_bytes(
            s.drop_first().push(a),
        ));
        assert(spec_actions_bytes(s) == spec_action_bytes(s[0]) + spec_actions_bytes(s.drop_first()));
        vstd::seq_lib::lemma_concat_associative(
            spec_action_bytes(s[0]),
            spec_actions_bytes(s.drop_first()),
            spec_action_bytes(a),
        );
    }
}

/// Appends the encodings of all actions to `out`.
pub fn write_actions(out: &mut Vec<u8>, actions: &Vec<ScriptAction>)
    ensures
        final(out)@ == old(out)@ + spec_actions_bytes(spec_actions_view(actions@)),
{
    let mut k: usize = 0;
    while k < actions.len()
        invariant
            k <= actions@.len(),
            out@ == old(out)@ + spec_actions_bytes(spec_actions_view(actions@.take(k as int))),
        decreases actions@.len() - k,
    {
        write_action(out, &actions[k]);
        proof {
            assert(spec_actions_view(actions@.take(k + 1 as int)) =~= spec_actions_view(
                actions@.take(k as int),
            ).push(actions@[k as int]@));
            lemma_actions_bytes_push(
                spec_actions_view(actions@.take(k as int)),
                actions@[k as int]@,
            );
            assert(out@ =~= old(out)@ + spec_actions_bytes(
                spec_actions_view(actions@.take(k + 1 as int)),
            ));
        }
        k = k + 1;
    }
    proof {
        assert(actions@.take(actions@.len() as int) =~= actions@);
        assert(spec_actions_view(actions@.take(actions@.len() as int)) =~= spec_actions_view(
            actions@,
        ));
    }
}

// ---------------------------------------------------------------------------
// Decoding: instruction lists, actions, script bodies
// ---------------------------------------------------------------------------

/// Decodes instructions from `pos` until an ActionEnd terminal, inclusive.
/// `None` when any instruction fails to decode or the input ends first.
pub open spec fn spec_parse_instr_list(b: Seq<u8>, pos: int) -> Option<
    (Seq<ScriptInstruction>, int),
>
    decreases b.len() - pos,
{
    match spec_parse_instr(b, pos) {
        None => None,
        Some(t) => {
            if t.0 is ActionEnd {
                Some((seq![t.0], t.1))
            } else if pos < t.1 <= b.len() {
                match spec_parse_instr_list(b, t.1) {
                    None => None,
                    Some(r2) => Some((seq![t.0] + r2.0, r2.1)),
                }
            } else {
                None
            }
        },
    }
}

/// A decoded instruction list consumes at least one instruction and never
/// reads past the input.
pub proof fn lemma_parse_instr_list_advances(b: Seq<u8>, pos: int)
    requires
        spec_parse_instr_list(b, pos) is Some,
    ensures
        pos + 4 <= spec_parse_instr_list(b, pos)->Some_0.1 <= b.len(),
    decreases b.len() - pos,
{
    let t = spec_parse_instr(b, pos)->Some_0;
    lemma_parse_instr_advances(b, pos);
    if !(t.0 is ActionEnd) {
        lemma_parse_instr_list_advances(b, t.1);
    }
}

/// Decodes one instruction list ending in ActionEnd.
pub fn parse_instr_list(b: &[u8], pos: usize) -> (r: Result<(Vec<ScriptInstruction>, usize), Error>)
    requires
        pos <= b@.len(),
    ensures
        match spec_parse_instr_list(b@, pos as int) {
            Some(t) => r matches Ok(o) && o.0@ == t.0 && o.1 == t.1,
            None => r matches Err(e) && e.is_parser(),
        },
{
    let mut out: Vec<ScriptInstruction> = Vec::new();
    let mut cur: usize = pos;
    loop
        invariant
            pos <= cur <= b@.len(),
            match spec_parse_instr_list(b@, cur as int) {
                Some(t) => spec_parse_instr_list(b@, pos as int) == Some((out@ + t.0, t.1)),
                None => spec_parse_instr_list(b@, pos as int) is None,
            },
        decreases b@.len() - cur,
    {
        match parse_instr(b, cur) {
            Err(e) => {
                return Err(e);
            },
            Ok((ins, p)) => {
                proof {
                    lemma_parse_instr_advances(b@, cur as int);
                }
                let ghost o0 = out@;
                let done = is_action_end(&ins);
                out.push(ins);
                if done {
                    proof {
                        assert(spec_parse_instr_list(b@, cur as int) == Some(
                            (seq![ins], p as int),
                        ));
                        assert(o0 + seq![ins] =~= out@);
                    }
                    return Ok((out, p));
                }
                proof {
                    match spec_parse_instr_list(b@, p as int) {
                        Some(t2) => {
                            assert(spec_parse_instr_list(b@, cur as int) == Some(
                                (seq![ins] + t2.0, t2.1),
                            ));
                            assert(o0 + (seq![ins] + t2.0) =~= out@ + t2.0);
                        },
                        None => {
                            assert(spec_parse_instr_list(b@, cur as int) is None);
                        },
                    }
                }
                cur = p;
            },
        }
    }
}

/// Decodes one action at `pos`: the eight header bytes, then, unless the
/// header flags mark the script terminal, the instruction list.
pub open spec fn spec_parse_action(b: Seq<u8>, pos: int) -> Option<(ActionModel, int)> {
    if pos < 0 || pos + 8 > b.len() {
        None
    } else {
        let flags = u32_le_at(b, pos);
        let level = u16_le_at(b, pos + 4);
        let damage = b[pos + 6];
        let mask = b[pos + 7];
        if spec_action_terminal(flags) {
            Some(
                (
                    ActionModel {
                        flags,
                        ls3b_attack_level: level,
                        damage,
                        collision_mask: mask,
                        instructions: Seq::empty(),
                    },
                    pos + 8,
                ),
            )
        } else {
            match spec_parse_instr_list(b, pos + 8) {
                None => None,
                Some(t) => Some(
                    (
                        ActionModel {
                            flags,
                            ls3b_attack_level: level,
                            damage,
                            collision_mask: mask,
                            instructions: t.0,
                        },
                        t.1,
                    ),
                ),
            }
        }
    }
}

/// A decoded action consumes at least its header and never reads past the
/// input.
pub proof fn lemma_parse_action_advances(b: Seq<u8>, pos: int)
    requires
        spec_parse_action(b, pos) is Some,
    ensures
        pos + 8 <= spec_parse_action(b, pos)->Some_0.1 <= b.len(),
{
    let flags = u32_le_at(b, pos);
    if !spec_action_terminal(flags) {
        lemma_parse_instr_list_advances(b, pos + 8);
    }
}

/// Decodes one script action.
pub fn parse_action(b: &[u8], pos: usize) -> (r: Result<(ScriptAction, usize), Error>)
    requires
        pos <= b@.len(),
    ensures
        match spec_parse_action(b@, pos as int) {
            Some(t) => r matches Ok(o) && o.0@ == t.0 && o.1 == t.1,
            None => r matches Err(e) && e.is_parser(),
        },
{
    let n_total: usize = b.len();
    if n_total - pos < 8 {
        return Err(Error::Parser("action: truncated header".to_string()));
    }
    let flags = read_u32_le(b, pos);
    let ls3b_attack_level = read_u16_le(b, pos + 4);
    let damage = read_u8(b, pos + 6);
    let collision_mask = read_u8(b, pos + 7);
    if action_terminal(flags) {
        Ok(
            (
                ScriptAction {
                    flags,
                    ls3b_attack_level,
                    damage,
                    collision_mask,
                    instructions: Vec::new(),
                },
                pos + 8,
            ),
        )
    } else {
        match parse_instr_list(b, pos + 8) {
            Err(e) => Err(e),
            Ok((instructions, p)) => Ok(
                (
                    ScriptAction { flags, ls3b_attack_level, damage, collision_mask, instructions },
                    p,
                ),
            ),
        }
    }
}

/// Decodes actions from `pos` until one whose header flags mark the script
/// terminal, inclusive.
pub open spec fn spec_parse_actions(b: Seq<u8>, pos: int) -> Option<(Seq<ActionModel>, int)>
    decreases b.len() - pos,
{
    match spec_parse_action(b, pos) {
        None => None,
        Some(t) => {
            if spec_action_terminal(t.0.flags) {
                Some((seq![t.0], t.1))
            } else if pos < t.1 <= b.len() {
                match spec_parse_actions(b, t.1) {
                    None => None,
                    Some(r2) => Some((seq![t.0] + r2.0, r2.1)),
                }
            } else {
                None
            }
        },
    }
}

/// A decoded action list consumes at least one action and never reads past
/// the input.
pub proof fn lemma_parse_actions_advances(b: Seq<u8>, pos: int)
    requires
        spec_parse_actions(b, pos) is Some,
    ensures
        pos + 8 <= spec_parse_actions(b, pos)->Some_0.1 <= b.len(),
    decreases b.len() - pos,
{
    let t = spec_parse_action(b, pos)->Some_0;
    lemma_parse_action_advances(b, pos);
    if !spec_action_terminal(t.0.flags) {
        lemma_parse_actions_advances(b, t.1);
    }
}

/// Decodes one action list ending in the script-terminal action.
pub fn parse_actions(b: &[u8], pos: usize) -> (r: Result<(Vec<ScriptAction>, usize), Error>)
    requires
        pos <= b@.len(),
    ensures
        match spec_parse_actions(b@, pos as int) {
            Some(t) => r matches Ok(o) && spec_actions_view(o.0@) == t.0 && o.1 == t.1,
            None => r matches Err(e) && e.is_parser(),
        },
{
    let mut out: Vec<ScriptAction> = Vec::new();
    let mut cur: usize = pos;
    loop
        invariant
            pos <= cur <= b@.len(),
            match spec_parse_actions(b@, cur as int) {
                Some(t) => spec_parse_actions(b@, pos as int) == Some(
                    (spec_actions_view(out@) + t.0, t.1),
                ),
                None => spec_parse_actions(b@, pos as int) is None,
            },
        decreases b@.len() - cur,
    {
        match parse_action(b, cur) {
            Err(e) => {
                return Err(e);
            },
            Ok((act, p)) => {
                proof {
                    lemma_parse_action_advances(b@, cur as int);
                }
                let ghost o0 = spec_actions_view(out@);
                let ghost am = act@;
                let done = action_terminal(act.flags);
                out.push(act);
                proof {
                    assert(spec_actions_view(out@) =~= o0.push(am));
                }
                if done {
                    proof {
                        assert(spec_parse_actions(b@, cur as int) == Some((seq![am], p as int)));
                        assert(o0 + seq![am] =~= spec_actions_view(out@));
                    }
                    return Ok((out, p));
                }
                proof {
                    match spec_parse_actions(b@, p as int) {
                        Some(t2) => {
                            assert(spec_parse_actions(b@, cur as int) == Some(
                                (seq![am] + t2.0, t2.1),
                            ));
                            assert(o0 + (seq![am] + t2.0) =~= spec_actions_view(out@) + t2.0);
                        },
                        None => {
                            assert(spec_parse_actions(b@, cur as int) is None);
                        },
                    }
                }
                cur = p;
            },
        }
    }
}

// ---------------------------------------------------------------------------
// Script bodies
// ---------------------------------------------------------------------------

/// Length of the opaque block between a player's PlayData record and its
/// first action.
pub const PLAYER_UNK_DATA_SIZE: usize = 0xB0;

/// A player script body: the PlayData tuning record, a fixed-size opaque
/// block preserved verbatim, then the action sequence.
#[derive(Clone, PartialEq, Eq, Debug)]
pub struct GGXXPlayerScriptData {
    pub play_data: PlayData,
    pub unk_data: Vec<u8>,
    pub actions: Vec<ScriptAction>,
}

/// The mathematical model of a player script body.
pub ghost struct PlayerScriptModel {
    pub play_data: PlayData,
    pub unk_data: Seq<u8>,
    pub actions: Seq<ActionModel>,
}

impl View for GGXXPlayerScriptData {
    type V = PlayerScriptModel;

    open spec fn view(&self) -> PlayerScriptModel {
        PlayerScriptModel {
            play_data: self.play_data,
            unk_data: self.unk_data@,
            actions: spec_actions_view(self.actions@),
        }
    }
}

/// A game-object script body: only the action sequence.
#[derive(Clone, PartialEq, Eq, Debug)]
pub struct GGXXObjScriptData {
    pub actions: Vec<ScriptAction>,
}

/// The mathematical model of a game-object script body.
pub ghost struct ObjScriptModel {
    pub actions: Seq<ActionModel>,
}

impl View for GGXXObjScriptData {
    type V = ObjScriptModel;

    open spec fn view(&self) -> ObjScriptModel {
        ObjScriptModel { actions: spec_actions_view(self.actions@) }
    }
}

/// The exact byte sequence a player script body encodes to.
pub open spec fn spec_player_script_bytes(m: PlayerScriptModel) -> Seq<u8> {
    spec_play_data_bytes(m.play_data) + m.unk_data + spec_actions_bytes(m.actions)
}

/// The exact byte sequence a game-object script body encodes to.
pub open spec fn spec_obj_script_bytes(m: ObjScriptModel) -> Seq<u8> {
    spec_actions_bytes(m.actions)
}

/// Appends the encoding of a player script body to `out`.
#[verifier::rlimit(100)]
pub fn write_player_script(out: &mut Vec<u8>, s: &GGXXPlayerScriptData)
    ensures
        final(out)@ == old(out)@ + spec_player_script_bytes(s@),
{
    let pd = s.play_data.to_bytes();
    crate::helpers::push_slice(out, pd.as_slice());
    crate::helpers::push_slice(out, s.unk_data.as_slice());
    write_actions(out, &s.actions);
    proof {
        assert(out@ =~= old(out)@ + spec_player_script_bytes(s@));
    }
}

/// Appends the encoding of a game-object script body to `out`.
pub fn write_obj_script(out: &mut Vec<u8>, s: &GGXXObjScriptData)
    ensures
        final(out)@ == old(out)@ + spec_obj_script_bytes(s@),
{
    write_actions(out, &s.actions);
}

/// Decodes a player script body at `pos`: PlayData, the opaque block, then
/// actions until the script terminal.
pub open spec fn spec_parse_player_script(b: Seq<u8>, pos: int) -> Option<(PlayerScriptModel, int)> {
    match spec_parse_play_data(b, pos) {
        None => None,
        Some(t) => {
            if t.1 + (PLAYER_UNK_DATA_SIZE as int) > b.len() {
                None
            } else {
                let after = t.1 + (PLAYER_UNK_DATA_SIZE as int);
                match spec_parse_actions(b, after) {
                    None => None,
                    Some(t2) => Some(
                        (
                            PlayerScriptModel {
                                play_data: t.0,
                                unk_data: b.subrange(t.1, after),
                                actions: t2.0,
                            },
                            t2.1,
                        ),
                    ),
                }
            }
        },
    }
}

/// Decodes a game-object script body at `pos`.
pub open spec fn spec_parse_obj_script(b: Seq<u8>, pos: int) -> Option<(ObjScriptModel, int)> {
    match spec_parse_actions(b, pos) {
        None => None,
        Some(t) => Some((ObjScriptModel { actions: t.0 }, t.1)),
    }
}

/// Decodes a player script body.
pub fn parse_player_script(b: &[u8], pos: usize) -> (r: Result<(GGXXPlayerScriptData, usize), Error>)
    requires
        pos <= b@.len(),
    ensures
        match spec_parse_player_script(b@, pos as int) {
            Some(t) => r matches Ok(o) && o.0@ == t.0 && o.1 == t.1,
            None => r matches Err(e) && e.is_parser(),
        },
{
    let n_total: usize = b.len();
    match parse_play_data(b, pos) {
        Err(e) => Err(e),
        Ok((play_data, p1)) => {
            if n_total - p1 < PLAYER_UNK_DATA_SIZE {
                return Err(Error::Parser("player script: truncated opaque block".to_string()));
            }
            let after = p1 + PLAYER_UNK_DATA_SIZE;
            let unk_slice = vstd::slice::slice_subrange(b, p1, after);
            let unk_data = vstd::slice::slice_to_vec(unk_slice);
            match parse_actions(b, after) {
                Err(e) => Err(e),
                Ok((actions, p2)) => Ok(
                    (GGXXPlayerScriptData { play_data, unk_data, actions }, p2),
                ),
            }
        },
    }
}

/// Decodes a game-object script body.
pub fn parse_obj_script(b: &[u8], pos: usize) -> (r: Result<(GGXXObjScriptData, usize), Error>)
    requires
        pos <= b@.len(),
    ensures
        match spec_parse_obj_script(b@, pos as int) {
            Some(t) => r matches Ok(o) && o.0@ == t.0 && o.1 == t.1,
            None => r matches Err(e) && e.is_parser(),
        },
{
    match parse_actions(b, pos) {
        Err(e) => Err(e),
        Ok((actions, p)) => Ok((GGXXObjScriptData { actions }, p)),
    }
}


// ---------------------------------------------------------------------------
// Script structure laws
// ---------------------------------------------------------------------------

/// An instruction sequence that ends in exactly one ActionEnd terminal.
pub open spec fn spec_instrs_well_terminated(s: Seq<ScriptInstruction>) -> bool {
    &&& s.len() >= 1
    &&& s[s.len() - 1] is ActionEnd
    &&& forall|k: int| 0 <= k < s.len() - 1 ==> !(#[trigger] s[k] is ActionEnd)
}

/// Script termination, instruction level: every decoded instruction list
/// ends in exactly one ActionEnd terminal, and no earlier instruction is
/// one.
#[verifier::rlimit(100)]
#[verifier::spinoff_prover]
pub proof fn lemma_instr_list_terminated(b: Seq<u8>, pos: int)
    requires
        spec_parse_instr_list(b, pos) is Some,
    ensures
        spec_instrs_well_terminated(spec_parse_instr_list(b, pos)->Some_0.0),
    decreases b.len() - pos,
{
    let t = spec_parse_instr(b, pos)->Some_0;
    lemma_parse_instr_advances(b, pos);
    if !(t.0 is ActionEnd) {
        lemma_instr_list_terminated(b, t.1);
        let r2 = spec_parse_instr_list(b, t.1)->Some_0;
        let s = spec_parse_instr_list(b, pos)->Some_0.0;
        assert(s == seq![t.0] + r2.0);
        assert(s[s.len() - 1] == r2.0[r2.0.len() - 1]);
        assert forall|k: int| 0 <= k < s.len() - 1 implies !(#[trigger] s[k] is ActionEnd) by {
            if k > 0 {
                assert(s[k] == r2.0[k - 1]);
            }
        }
    }
}

/// Script termination, action level: a decoded action whose header flags
/// mark the script terminal carries no instructions; any other decoded
/// action's instruction list ends in exactly one ActionEnd.
pub proof fn lemma_action_instruction_discipline(b: Seq<u8>, pos: int)
    requires
        spec_parse_action(b, pos) is Some,
    ensures
        ({
            let a = spec_parse_action(b, pos)->Some_0.0;
            if spec_action_terminal(a.flags) {
                a.instructions.len() == 0
            } else {
                spec_instrs_well_terminated(a.instructions)
            }
        }),
{
    let flags = u32_le_at(b, pos);
    if !spec_action_terminal(flags) {
        lemma_instr_list_terminated(b, pos + 8);
    }
}

/// Script termination, body level: every decoded action sequence ends in
/// exactly one script-terminal action, which carries no instructions; no
/// earlier action is script-terminal, and each earlier action's
/// instruction list ends in exactly one ActionEnd.
#[verifier::rlimit(100)]
#[verifier::spinoff_prover]
pub proof fn lemma_script_termination(b: Seq<u8>, pos: int)
    requires
        spec_parse_actions(b, pos) is Some,
    ensures
        ({
            let s = spec_parse_actions(b, pos)->Some_0.0;
            &&& s.len() >= 1
            &&& spec_action_terminal(s[s.len() - 1].flags)
            &&& s[s.len() - 1].instructions.len() == 0
            &&& forall|k: int|
                0 <= k < s.len() - 1 ==> !spec_action_terminal(#[trigger] s[k].flags)
            &&& forall|k: int|
                0 <= k < s.len() - 1 ==> spec_instrs_well_terminated(
                    (#[trigger] s[k]).instructions,
                )
        }),
    decreases b.len() - pos,
{
    let t = spec_parse_action(b, pos)->Some_0;
    lemma_parse_action_advances(b, pos);
    lemma_action_instruction_discipline(b, pos);
    if spec_action_terminal(t.0.flags) {
        let s = spec_parse_actions(b, pos)->Some_0.0;
        assert(s == seq![t.0]);
        assert(s[0] == t.0);
    } else {
        lemma_script_termination(b, t.1);
        let r2 = spec_parse_actions(b, t.1)->Some_0;
        let s = spec_parse_actions(b, pos)->Some_0.0;
        assert(s == seq![t.0] + r2.0);
        assert(s[s.len() - 1] == r2.0[r2.0.len() - 1]);
        assert forall|k: int|
            0 <= k < s.len() - 1 implies !spec_action_terminal(#[trigger] s[k].flags) by {
            if k > 0 {
                assert(s[k] == r2.0[k - 1]);
            }
        }
        assert forall|k: int|
            0 <= k < s.len() - 1 implies spec_instrs_well_terminated(
            (#[trigger] s[k]).instructions,
        ) by {
            if k > 0 {
                assert(s[k] == r2.0[k - 1]);
            }
        }
    }
}

// ---------------------------------------------------------------------------
// Round-trip laws
// ---------------------------------------------------------------------------

/// True when every instruction of the list decoded from `pos` re-encodes
/// to its own input bytes: all parse-only bytes hold their canonical
/// values.
pub open spec fn spec_instr_list_canonical(b: Seq<u8>, pos: int) -> bool
    decreases b.len() - pos,
{
    match spec_parse_instr(b, pos) {
        None => true,
        Some(t) => {
            &&& spec_instr_temps_zero(b, pos)
            &&& (t.0 is ActionEnd || (if pos < t.1 <= b.len() {
                spec_instr_list_canonical(b, t.1)
            } else {
                true
            }))
        },
    }
}

/// Round-trip, instruction-list level: re-encoding a decoded instruction
/// list reproduces the exact input bytes, for canonical inputs.
#[verifier::rlimit(100)]
#[verifier::spinoff_prover]
pub proof fn lemma_instr_list_bytes_of_parse(b: Seq<u8>, pos: int)
    requires
        spec_parse_instr_list(b, pos) is Some,
        spec_instr_list_canonical(b, pos),
    ensures
        spec_instrs_bytes(spec_parse_instr_list(b, pos)->Some_0.0) == b.subrange(
            pos,
            spec_parse_instr_list(b, pos)->Some_0.1,
        ),
    decreases b.len() - pos,
{
    let t = spec_parse_instr(b, pos)->Some_0;
    lemma_parse_instr_advances(b, pos);
    lemma_instr_bytes_of_parse(b, pos);
    if t.0 is ActionEnd {
        let s = spec_parse_instr_list(b, pos)->Some_0.0;
        assert(s == seq![t.0]);
        assert(seq![t.0].drop_first() =~= Seq::<ScriptInstruction>::empty());
        assert(spec_instrs_bytes(s) == spec_instr_bytes(t.0) + spec_instrs_bytes(
            Seq::<ScriptInstruction>::empty(),
        ));
        assert(spec_instrs_bytes(s) =~= b.subrange(pos, t.1));
    } else {
        lemma_instr_list_bytes_of_parse(b, t.1);
        lemma_parse_instr_list_advances(b, t.1);
        let r2 = spec_parse_instr_list(b, t.1)->Some_0;
        let s = spec_parse_instr_list(b, pos)->Some_0.0;
        assert(s == seq![t.0] + r2.0);
        assert(s.drop_first() =~= r2.0);
        assert(s[0] == t.0);
        assert(spec_instrs_bytes(s) == spec_instr_bytes(t.0) + spec_instrs_bytes(r2.0));
        assert(b.subrange(pos, r2.1) =~= b.subrange(pos, t.1) + b.subrange(t.1, r2.1));
    }
}

/// True when the action decoded at `pos` re-encodes to its own input
/// bytes: it is the script terminal, or its instruction list is
/// canonical.
pub open spec fn spec_action_canonical(b: Seq<u8>, pos: int) -> bool {
    match spec_parse_action(b, pos) {
        None => true,
        Some(t) => spec_action_terminal(t.0.flags) || spec_instr_list_canonical(b, pos + 8),
    }
}

/// Round-trip, action level: re-encoding a decoded action reproduces the
/// exact input bytes, for canonical inputs.
#[verifier::rlimit(100)]
#[verifier::spinoff_prover]
pub proof fn lemma_action_bytes_of_parse(b: Seq<u8>, pos: int)
    requires
        spec_parse_action(b, pos) is Some,
        spec_action_canonical(b, pos),
    ensures
        spec_action_bytes(spec_parse_action(b, pos)->Some_0.0) == b.subrange(
            pos,
            spec_parse_action(b, pos)->Some_0.1,
        ),
{
    let t = spec_parse_action(b, pos)->Some_0;
    lemma_parse_action_advances(b, pos);
    crate::helpers::lemma_u32_le_of_at(b, pos);
    crate::helpers::lemma_u16_le_of_at(b, pos + 4);
    if spec_action_terminal(t.0.flags) {
        assert(spec_instrs_bytes(t.0.instructions) == Seq::<u8>::empty());
        assert(spec_action_bytes(t.0) =~= b.subrange(pos, pos + 8));
    } else {
        lemma_instr_list_bytes_of_parse(b, pos + 8);
        lemma_parse_instr_list_advances(b, pos + 8);
        let r2 = spec_parse_instr_list(b, pos + 8)->Some_0;
        assert(b.subrange(pos, r2.1) =~= b.subrange(pos, pos + 8) + b.subrange(pos + 8, r2.1));
        assert(spec_action_bytes(t.0) =~= b.subrange(pos, t.1));
    }
}

/// True when every action decoded from `pos` re-encodes to its own input
/// bytes.
pub open spec fn spec_actions_canonical(b: Seq<u8>, pos: int) -> bool
    decreases b.len() - pos,
{
    match spec_parse_action(b, pos) {
        None => true,
        Some(t) => {
            &&& spec_action_canonical(b, pos)
            &&& (spec_action_terminal(t.0.flags) || (if pos < t.1 <= b.len() {
                spec_actions_canonical(b, t.1)
            } else {
                true
            }))
        },
    }
}

/// Round-trip, action-sequence level: re-encoding a decoded action
/// sequence reproduces the exact input bytes, for canonical inputs.
#[verifier::rlimit(100)]
#[verifier::spinoff_prover]
pub proof fn lemma_actions_bytes_of_parse(b: Seq<u8>, pos: int)
    requires
        spec_parse_actions(b, pos) is Some,
        spec_actions_canonical(b, pos),
    ensures
        spec_actions_bytes(spec_parse_actions(b, pos)->Some_0.0) == b.subrange(
            pos,
            spec_parse_actions(b, pos)->Some_0.1,
        ),
    decreases b.len() - pos,
{
    let t = spec_parse_action(b, pos)->Some_0;
    lemma_parse_action_advances(b, pos);
    lemma_action_bytes_of_parse(b, pos);
    if spec_action_terminal(t.0.flags) {
        let s = spec_parse_actions(b, pos)->Some_0.0;
        assert(s == seq![t.0]);
        assert(seq![t.0].drop_first() =~= Seq::<ActionModel>::empty());
        assert(spec_actions_bytes(s) == spec_action_bytes(t.0) + spec_actions_bytes(
            Seq::<ActionModel>::empty(),
        ));
        assert(spec_actions_bytes(s) =~= b.subrange(pos, t.1));
    } else {
        lemma_actions_bytes_of_parse(b, t.1);
        lemma_parse_actions_advances(b, t.1);
        let r2 = spec_parse_actions(b, t.1)->Some_0;
        let s = spec_parse_actions(b, pos)->Some_0.0;
        assert(s == seq![t.0] + r2.0);
        assert(s.drop_first() =~= r2.0);
        assert(s[0] == t.0);
        assert(spec_actions_bytes(s) == spec_action_bytes(t.0) + spec_actions_bytes(r2.0));
        assert(b.subrange(pos, r2.1) =~= b.subrange(pos, t.1) + b.subrange(t.1, r2.1));
    }
}

/// True when a decoded player script body re-encodes to its own input
/// bytes: its action sequence is canonical (the tuning record and the
/// opaque block always re-encode exactly).
pub open spec fn spec_player_script_canonical(b: Seq<u8>, pos: int) -> bool {
    match spec_parse_play_data(b, pos) {
        None => true,
        Some(t) => spec_actions_canonical(b, t.1 + (PLAYER_UNK_DATA_SIZE as int)),
    }
}

/// Round-trip, player-script level: re-encoding a decoded player script
/// body reproduces the exact input bytes, for canonical inputs.
#[verifier::rlimit(100)]
#[verifier::spinoff_prover]
pub proof fn lemma_player_script_bytes_of_parse(b: Seq<u8>, pos: int)
    requires
        spec_parse_player_script(b, pos) is Some,
        spec_player_script_canonical(b, pos),
    ensures
        spec_player_script_bytes(spec_parse_player_script(b, pos)->Some_0.0) == b.subrange(
            pos,
            spec_parse_player_script(b, pos)->Some_0.1,
        ),
{
    let t = spec_parse_play_data(b, pos)->Some_0;
    let after = t.1 + (PLAYER_UNK_DATA_SIZE as int);
    lemma_play_data_bytes_of_parse(b, pos);
    lemma_actions_bytes_of_parse(b, after);
    lemma_parse_actions_advances(b, after);
    let t2 = spec_parse_actions(b, after)->Some_0;
    let m = spec_parse_player_script(b, pos)->Some_0.0;
    assert(m.unk_data == b.subrange(t.1, after));
    assert(b.subrange(pos, t2.1) =~= b.subrange(pos, t.1) + b.subrange(t.1, after) + b.subrange(
        after,
        t2.1,
    ));
    assert(spec_player_script_bytes(m) =~= b.subrange(pos, t2.1));
}

/// Round-trip, object-script level: re-encoding a decoded game-object
/// script body reproduces the exact input bytes, for canonical inputs.
pub proof fn lemma_obj_script_bytes_of_parse(b: Seq<u8>, pos: int)
    requires
        spec_parse_obj_script(b, pos) is Some,
        spec_actions_canonical(b, pos),
    ensures
        spec_obj_script_bytes(spec_parse_obj_script(b, pos)->Some_0.0) == b.subrange(
            pos,
            spec_parse_obj_script(b, pos)->Some_0.1,
        ),
{
    lemma_actions_bytes_of_parse(b, pos);
}

} // verus!
