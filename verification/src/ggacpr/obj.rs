//! Object binary format for all XX-series Guilty Gears: the pointer-graph
//! container holding collision cells, sprite blobs, palettes and the
//! animation/gameplay script, with byte-exact rebuild.

use vstd::prelude::*;
use crate::error::Error;
use crate::helpers::{
    u16_le_at, u32_le_at, u32_be_at, i16_le_at, u16_le_of, u32_le_of, u32_be_of, i16_le_of,
    u32s_le_of, u32s_be_of, byte_repeat, read_u8, read_u16_le, read_u32_le, read_u32_be,
    read_i16_le, push_u16_le, push_u32_le, push_i16_le, push_slice, push_repeat, push_u32s_le,
    push_u32s_be, needed_to_align, spec_needed_to_align, lemma_u32s_le_of_len,
    lemma_u32s_be_of_len, lemma_u32s_le_of_push, lemma_u32s_be_of_push,
};
use crate::ggacpr::script::{
    GGXXPlayerScriptData, GGXXObjScriptData, PlayerScriptModel, ObjScriptModel,
    spec_player_script_bytes, spec_obj_script_bytes, write_player_script, write_obj_script,
    spec_parse_player_script, spec_parse_obj_script, parse_player_script, parse_obj_script,
    spec_parse_play_data, spec_parse_actions,
};

verus! {

// ---------------------------------------------------------------------------
// Data model
// ---------------------------------------------------------------------------

/// One collision box of a cell: a signed position offset, an unsigned
/// extent, and a 32-bit type tag.
#[derive(Copy, Clone, PartialEq, Eq, Structural, Debug)]
pub struct GGXXBox {
    pub x_offset: i16,
    pub y_offset: i16,
    pub width: u16,
    pub height: u16,
    pub box_type: u32,
}

/// The sprite-reference descriptor of a cell.
#[derive(Copy, Clone, PartialEq, Eq, Structural, Debug)]
pub struct GGXXSpriteInfo {
    pub x_offset: i16,
    pub y_offset: i16,
    pub unk: u32,
    pub index: u16,
}

/// One collision cell: its box list and its sprite reference.
#[derive(Clone, PartialEq, Eq, Debug)]
pub struct GGXXCellEntry {
    pub boxes: Vec<GGXXBox>,
    pub sprite_info: GGXXSpriteInfo,
}

/// The mathematical model of a collision cell.
pub ghost struct CellModel {
    pub boxes: Seq<GGXXBox>,
    pub sprite_info: GGXXSpriteInfo,
}

impl View for GGXXCellEntry {
    type V = CellModel;

    open spec fn view(&self) -> CellModel {
        CellModel { boxes: self.boxes@, sprite_info: self.sprite_info }
    }
}

/// The cells of one player or game-object entry.
#[derive(Clone, PartialEq, Eq, Debug)]
pub struct GGXXCellArray {
    pub cell_entries: Vec<GGXXCellEntry>,
}

/// The models of a sequence of cells.
pub open spec fn spec_cells_view(s: Seq<GGXXCellEntry>) -> Seq<CellModel> {
    s.map_values(|c: GGXXCellEntry| c@)
}

impl View for GGXXCellArray {
    type V = Seq<CellModel>;

    open spec fn view(&self) -> Seq<CellModel> {
        spec_cells_view(self.cell_entries@)
    }
}

/// The sprite blobs of one entry: opaque payloads whose byte spans are
/// derived from the pointer table, never stored in the format.
#[derive(Clone, PartialEq, Eq, Debug)]
pub struct GGXXSpriteArray {
    pub sprite_entries: Vec<Vec<u8>>,
}

/// The byte sequences of a sequence of byte vectors.
pub open spec fn spec_blobs_view(s: Seq<Vec<u8>>) -> Seq<Seq<u8>> {
    s.map_values(|v: Vec<u8>| v@)
}

impl View for GGXXSpriteArray {
    type V = Seq<Seq<u8>>;

    open spec fn view(&self) -> Seq<Seq<u8>> {
        spec_blobs_view(self.sprite_entries@)
    }
}

/// One palette entry: eight unknown 16-bit fields and a 256-color table of
/// packed 32-bit colors.
#[derive(Clone, PartialEq, Eq, Debug)]
pub struct GGXXPaletteEntry {
    pub unk: u16,
    pub unk1: u16,
    pub unk2: u16,
    pub unk3: u16,
    pub unk4: u16,
    pub unk5: u16,
    pub unk6: u16,
    pub unk7: u16,
    pub palette: Vec<u32>,
}

/// The mathematical model of a palette entry.
pub ghost struct PaletteModel {
    pub unk: u16,
    pub unk1: u16,
    pub unk2: u16,
    pub unk3: u16,
    pub unk4: u16,
    pub unk5: u16,
    pub unk6: u16,
    pub unk7: u16,
    pub palette: Seq<u32>,
}

impl View for GGXXPaletteEntry {
    type V = PaletteModel;

    open spec fn view(&self) -> PaletteModel {
        PaletteModel {
            unk: self.unk,
            unk1: self.unk1,
            unk2: self.unk2,
            unk3: self.unk3,
            unk4: self.unk4,
            unk5: self.unk5,
            unk6: self.unk6,
            unk7: self.unk7,
            palette: self.palette@,
        }
    }
}

/// The palettes of the player entry.
#[derive(Clone, PartialEq, Eq, Debug)]
pub struct GGXXPaletteArray {
    pub palette_entries: Vec<GGXXPaletteEntry>,
}

/// The models of a sequence of palette entries.
pub open spec fn spec_palettes_view(s: Seq<GGXXPaletteEntry>) -> Seq<PaletteModel> {
    s.map_values(|p: GGXXPaletteEntry| p@)
}

impl View for GGXXPaletteArray {
    type V = Seq<PaletteModel>;

    open spec fn view(&self) -> Seq<PaletteModel> {
        spec_palettes_view(self.palette_entries@)
    }
}

/// The audio blobs at the tail of the file; their table is big-endian,
/// unlike every other table in the format.
#[derive(Clone, PartialEq, Eq, Debug)]
pub struct GGXXAudioArray {
    pub audio_entries: Vec<Vec<u8>>,
}

impl View for GGXXAudioArray {
    type V = Seq<Seq<u8>>;

    open spec fn view(&self) -> Seq<Seq<u8>> {
        spec_blobs_view(self.audio_entries@)
    }
}

/// The player entry: cells, sprites, the player script body, palettes.
#[derive(Clone, PartialEq, Eq, Debug)]
pub struct GGXXPlayerEntry {
    pub cell_array: GGXXCellArray,
    pub sprite_array: GGXXSpriteArray,
    pub script_data: GGXXPlayerScriptData,
    pub palette_array: GGXXPaletteArray,
}

/// The mathematical model of the player entry.
pub ghost struct PlayerModel {
    pub cells: Seq<CellModel>,
    pub sprites: Seq<Seq<u8>>,
    pub script: PlayerScriptModel,
    pub palettes: Seq<PaletteModel>,
}

impl View for GGXXPlayerEntry {
    type V = PlayerModel;

    open spec fn view(&self) -> PlayerModel {
        PlayerModel {
            cells: self.cell_array@,
            sprites: self.sprite_array@,
            script: self.script_data@,
            palettes: self.palette_array@,
        }
    }
}

/// One auxiliary game-object entry: cells, sprites and a script body; the
/// fourth local pointer slot is unused.
#[derive(Clone, PartialEq, Eq, Debug)]
pub struct GGXXObjEntry {
    pub cell_array: GGXXCellArray,
    pub sprite_array: GGXXSpriteArray,
    pub script_data: GGXXObjScriptData,
}

/// The mathematical model of a game-object entry.
pub ghost struct ObjModel {
    pub cells: Seq<CellModel>,
    pub sprites: Seq<Seq<u8>>,
    pub script: ObjScriptModel,
}

impl View for GGXXObjEntry {
    type V = ObjModel;

    open spec fn view(&self) -> ObjModel {
        ObjModel {
            cells: self.cell_array@,
            sprites: self.sprite_array@,
            script: self.script_data@,
        }
    }
}

/// The models of a sequence of game-object entries.
pub open spec fn spec_objects_view(s: Seq<GGXXObjEntry>) -> Seq<ObjModel> {
    s.map_values(|o: GGXXObjEntry| o@)
}

/// A whole character object binary: the player entry, the auxiliary
/// game-object entries, and the audio section.
#[derive(Clone, PartialEq, Eq, Debug)]
pub struct GGXXObjBin {
    pub player: GGXXPlayerEntry,
    pub objects: Vec<GGXXObjEntry>,
    pub audio_array: GGXXAudioArray,
}

/// The mathematical model of a whole object binary.
pub ghost struct BinModel {
    pub player: PlayerModel,
    pub objects: Seq<ObjModel>,
    pub audio: Seq<Seq<u8>>,
}

impl View for GGXXObjBin {
    type V = BinModel;

    open spec fn view(&self) -> BinModel {
        BinModel {
            player: self.player@,
            objects: spec_objects_view(self.objects@),
            audio: self.audio_array@,
        }
    }
}

// ---------------------------------------------------------------------------
// Encoding layout
// ---------------------------------------------------------------------------

/// The twelve bytes of one collision box.
pub open spec fn spec_box_bytes(x: GGXXBox) -> Seq<u8> {
    i16_le_of(x.x_offset) + i16_le_of(x.y_offset) + u16_le_of(x.width) + u16_le_of(x.height)
        + u32_le_of(x.box_type)
}

/// The concatenated encodings of a sequence of boxes.
pub open spec fn spec_boxes_bytes(s: Seq<GGXXBox>) -> Seq<u8>
    decreases s.len(),
{
    if s.len() == 0 {
        Seq::empty()
    } else {
        spec_box_bytes(s[0]) + spec_boxes_bytes(s.drop_first())
    }
}

/// The ten bytes of a sprite-reference descriptor.
pub open spec fn spec_sprite_info_bytes(si: GGXXSpriteInfo) -> Seq<u8> {
    i16_le_of(si.x_offset) + i16_le_of(si.y_offset) + u32_le_of(si.unk) + u16_le_of(si.index)
}

/// The raw encoding of one cell: box count, boxes, sprite reference.
pub open spec fn spec_cell_bytes(c: CellModel) -> Seq<u8> {
    u32_le_of(c.boxes.len() as u32) + spec_boxes_bytes(c.boxes) + spec_sprite_info_bytes(
        c.sprite_info,
    )
}

/// A cell without boxes encodes as a zero box count followed
/// immediately by its sprite-reference descriptor.
pub proof fn lemma_empty_cell_bytes(c: CellModel)
    requires
        c.boxes.len() == 0,
    ensures
        spec_cell_bytes(c) == seq![0u8, 0u8, 0u8, 0u8] + spec_sprite_info_bytes(c.sprite_info),
{
    assert(spec_boxes_bytes(c.boxes) =~= Seq::<u8>::empty());
    assert(spec_cell_bytes(c) =~= seq![0u8, 0u8, 0u8, 0u8] + spec_sprite_info_bytes(
        c.sprite_info,
    ));
}

/// One cell's span in the cell data region: the raw cell, zero-padded to a
/// 4-byte boundary, then sentinel-padded to a 16-byte boundary.
pub open spec fn spec_cell_chunk(c: CellModel) -> Seq<u8> {
    let raw = spec_cell_bytes(c);
    let zp = spec_needed_to_align(raw.len() as int, 4);
    let fp = spec_needed_to_align(raw.len() + zp, 0x10);
    raw + byte_repeat(0x00, zp) + byte_repeat(0xFF, fp)
}

/// The concatenated chunks of a sequence of cells.
pub open spec fn spec_cells_data(s: Seq<CellModel>) -> Seq<u8>
    decreases s.len(),
{
    if s.len() == 0 {
        Seq::empty()
    } else {
        spec_cell_chunk(s[0]) + spec_cells_data(s.drop_first())
    }
}

/// The sentinel padding of a pointer table of `n` entries: what brings the
/// table to a 16-byte boundary, or one full block of 16 when none is
/// needed.
pub open spec fn spec_table_pad(n: int) -> int {
    let a = spec_needed_to_align(4 * n, 0x10);
    if a == 0 {
        0x10
    } else {
        a
    }
}

/// The offsets stored in a cell pointer table: each cell's chunk start,
/// relative to the table's own start.
pub open spec fn spec_cell_offsets(s: Seq<CellModel>) -> Seq<u32> {
    Seq::new(
        s.len(),
        |k: int| (4 * s.len() + spec_table_pad(s.len() as int) + spec_cells_data(s.take(k)).len())
            as u32,
    )
}

/// A whole cell array section: the pointer table, its sentinel padding,
/// then the cell chunks.
pub open spec fn spec_cell_block(s: Seq<CellModel>) -> Seq<u8> {
    u32s_le_of(spec_cell_offsets(s)) + byte_repeat(0xFF, spec_table_pad(s.len() as int))
        + spec_cells_data(s)
}

/// One sprite blob's span in the sprite data region: the opaque payload,
/// sentinel-padded to a 16-byte boundary.
pub open spec fn spec_sprite_chunk(e: Seq<u8>) -> Seq<u8> {
    e + byte_repeat(0xFF, spec_needed_to_align(e.len() as int, 0x10))
}

/// The concatenated chunks of a sequence of sprite blobs.
pub open spec fn spec_sprites_data(s: Seq<Seq<u8>>) -> Seq<u8>
    decreases s.len(),
{
    if s.len() == 0 {
        Seq::empty()
    } else {
        spec_sprite_chunk(s[0]) + spec_sprites_data(s.drop_first())
    }
}

/// The offsets stored in a sprite pointer table.
pub open spec fn spec_sprite_offsets(s: Seq<Seq<u8>>) -> Seq<u32> {
    Seq::new(
        s.len(),
        |k: int| (4 * s.len() + spec_table_pad(s.len() as int) + spec_sprites_data(s.take(k)).len())
            as u32,
    )
}

/// A whole sprite array section.
pub open spec fn spec_sprite_block(s: Seq<Seq<u8>>) -> Seq<u8> {
    u32s_le_of(spec_sprite_offsets(s)) + byte_repeat(0xFF, spec_table_pad(s.len() as int))
        + spec_sprites_data(s)
}

/// The raw encoding of one palette entry: the eight unknown fields, then
/// every packed color little-endian.
pub open spec fn spec_palette_bytes(p: PaletteModel) -> Seq<u8> {
    u16_le_of(p.unk) + u16_le_of(p.unk1) + u16_le_of(p.unk2) + u16_le_of(p.unk3) + u16_le_of(p.unk4)
        + u16_le_of(p.unk5) + u16_le_of(p.unk6) + u16_le_of(p.unk7) + u32s_le_of(p.palette)
}

/// One palette entry's span: the raw entry, sentinel-padded to a 16-byte
/// boundary.
pub open spec fn spec_palette_chunk(p: PaletteModel) -> Seq<u8> {
    let raw = spec_palette_bytes(p);
    raw + byte_repeat(0xFF, spec_needed_to_align(raw.len() as int, 0x10))
}

/// The concatenated chunks of a sequence of palette entries.
pub open spec fn spec_palettes_data(s: Seq<PaletteModel>) -> Seq<u8>
    decreases s.len(),
{
    if s.len() == 0 {
        Seq::empty()
    } else {
        spec_palette_chunk(s[0]) + spec_palettes_data(s.drop_first())
    }
}

/// The offsets stored in a palette pointer table.
pub open spec fn spec_palette_offsets(s: Seq<PaletteModel>) -> Seq<u32> {
    Seq::new(
        s.len(),
        |k: int| (4 * s.len() + spec_table_pad(s.len() as int) + spec_palettes_data(
            s.take(k),
        ).len()) as u32,
    )
}

/// A whole palette array section.
pub open spec fn spec_palette_block(s: Seq<PaletteModel>) -> Seq<u8> {
    u32s_le_of(spec_palette_offsets(s)) + byte_repeat(0xFF, spec_table_pad(s.len() as int))
        + spec_palettes_data(s)
}

/// The zero padding appended to an encoded script body: it brings the
/// body's length modulo 0x1000 to the fixed target remainder 0xA00, an
/// alignment rule tied to the original engine's memory paging.
pub open spec fn spec_script_pad(l: int) -> int {
    if l % 0x1000 > 0xA00 {
        0x1000 - l % 0x1000 + 0xA00
    } else {
        0xA00 - l % 0x1000
    }
}

/// A player script body, zero-padded to the script alignment target.
pub open spec fn spec_player_script_block(m: PlayerScriptModel) -> Seq<u8> {
    let raw = spec_player_script_bytes(m);
    raw + byte_repeat(0x00, spec_script_pad(raw.len() as int))
}

/// A game-object script body, zero-padded to the script alignment target.
pub open spec fn spec_obj_script_block(m: ObjScriptModel) -> Seq<u8> {
    let raw = spec_obj_script_bytes(m);
    raw + byte_repeat(0x00, spec_script_pad(raw.len() as int))
}

/// The player entry's eight-slot local header: offsets of the cell,
/// sprite, script and palette sections relative to the entry start, then
/// four sentinel slots.
pub open spec fn spec_player_header(p: PlayerModel) -> Seq<u32> {
    let cb = spec_cell_block(p.cells).len();
    let sb = spec_sprite_block(p.sprites).len();
    let scr = spec_player_script_block(p.script).len();
    seq![
        0x20u32,
        (0x20 + cb) as u32,
        (0x20 + cb + sb) as u32,
        (0x20 + cb + sb + scr) as u32,
        0xFFFFFFFFu32,
        0xFFFFFFFFu32,
        0xFFFFFFFFu32,
        0xFFFFFFFFu32,
    ]
}

/// The whole encoding of the player entry.
pub open spec fn spec_player_bytes(p: PlayerModel) -> Seq<u8> {
    u32s_le_of(spec_player_header(p)) + spec_cell_block(p.cells) + spec_sprite_block(p.sprites)
        + spec_player_script_block(p.script) + spec_palette_block(p.palettes)
}

/// A game-object entry's four-slot local header: cell, sprite and script
/// offsets, then one unused sentinel slot.
pub open spec fn spec_object_header(o: ObjModel) -> Seq<u32> {
    let cb = spec_cell_block(o.cells).len();
    let sb = spec_sprite_block(o.sprites).len();
    seq![0x10u32, (0x10 + cb) as u32, (0x10 + cb + sb) as u32, 0xFFFFFFFFu32]
}

/// The whole encoding of one game-object entry.
pub open spec fn spec_object_bytes(o: ObjModel) -> Seq<u8> {
    u32s_le_of(spec_object_header(o)) + spec_cell_block(o.cells) + spec_sprite_block(o.sprites)
        + spec_obj_script_block(o.script)
}

/// The concatenated encodings of a sequence of game-object entries.
pub open spec fn spec_objects_data(s: Seq<ObjModel>) -> Seq<u8>
    decreases s.len(),
{
    if s.len() == 0 {
        Seq::empty()
    } else {
        spec_object_bytes(s[0]) + spec_objects_data(s.drop_first())
    }
}

/// The concatenated raw audio blobs; the audio section keeps no per-blob
/// padding.
pub open spec fn spec_audio_entries_data(s: Seq<Seq<u8>>) -> Seq<u8>
    decreases s.len(),
{
    if s.len() == 0 {
        Seq::empty()
    } else {
        s[0] + spec_audio_entries_data(s.drop_first())
    }
}

/// The prefix-sum of audio blob lengths before entry `k`.
pub open spec fn spec_audio_offsets(s: Seq<Seq<u8>>) -> Seq<u32> {
    Seq::new(
        s.len(),
        |k: int| (4 * s.len() + spec_table_pad(s.len() as int) + 0x10 + spec_audio_entries_data(
            s.take(k),
        ).len()) as u32,
    )
}

/// The whole audio section: the big-endian pointer table, its sentinel
/// padding, a fixed sentinel-filled block, then the raw blobs.
pub open spec fn spec_audio_block(s: Seq<Seq<u8>>) -> Seq<u8> {
    u32s_be_of(spec_audio_offsets(s)) + byte_repeat(0xFF, spec_table_pad(s.len() as int))
        + byte_repeat(0xFF, 0x10) + spec_audio_entries_data(s)
}

/// The sentinel padding of the top-level pointer table, whose slot count
/// is the player slot, the object slots and the audio slot together.
pub open spec fn spec_top_pad(obj_num: int) -> int {
    if obj_num % 4 == 0 {
        0x10
    } else {
        0x10 - obj_num % 4 * 4
    }
}

/// The offsets stored in the top-level pointer table: the player entry
/// first, then each game object, then the audio section.
pub open spec fn spec_top_offsets(m: BinModel) -> Seq<u32> {
    let obj_num = 2 + m.objects.len() as int;
    let initial = 4 * obj_num + spec_top_pad(obj_num);
    let player_len = spec_player_bytes(m.player).len();
    seq![initial as u32] + Seq::new(
        m.objects.len(),
        |k: int| (initial + player_len + spec_objects_data(m.objects.take(k)).len()) as u32,
    ) + seq![(initial + player_len + spec_objects_data(m.objects).len()) as u32]
}

/// The whole encoding of an object binary: the top-level pointer table and
/// its sentinel padding, the player entry, the game-object entries, and
/// the audio section.
pub open spec fn spec_obj_bin_bytes(m: BinModel) -> Seq<u8> {
    let obj_num = 2 + m.objects.len() as int;
    u32s_le_of(spec_top_offsets(m)) + byte_repeat(0xFF, spec_top_pad(obj_num)) + spec_player_bytes(
        m.player,
    ) + spec_objects_data(m.objects) + spec_audio_block(m.audio)
}


// ---------------------------------------------------------------------------
// Encoding lemmas
// ---------------------------------------------------------------------------

/// A box encodes to twelve bytes.
pub proof fn lemma_boxes_bytes_len(s: Seq<GGXXBox>)
    ensures
        spec_boxes_bytes(s).len() == 12 * s.len(),
    decreases s.len(),
{
    if s.len() > 0 {
        lemma_boxes_bytes_len(s.drop_first());
    }
}

/// Appending one box appends its twelve bytes.
pub proof fn lemma_boxes_bytes_push(s: Seq<GGXXBox>, x: GGXXBox)
    ensures
        spec_boxes_bytes(s.push(x)) == spec_boxes_bytes(s) + spec_box_bytes(x),
    decreases s.len(),
{
    if s.len() == 0 {
        assert(s.push(x).drop_first() =~= Seq::<GGXXBox>::empty());
        assert(s.push(x)[0] == x);
        assert(spec_boxes_bytes(s.push(x)) == spec_box_bytes(x) + spec_boxes_bytes(
            s.push(x).drop_first(),
        ));
        assert(spec_boxes_bytes(s.push(x)) =~= spec_boxes_bytes(s) + spec_box_bytes(x));
    } else {
        assert(s.push(x)[0] == s[0]);
        assert(s.push(x).drop_first() =~= s.drop_first().push(x));
        lemma_boxes_bytes_push(s.drop_first(), x);
        assert(spec_boxes_bytes(s.push(x)) == spec_box_bytes(s[0]) + spec_boxes_bytes(
            s.drop_first().push(x),
        ));
        assert(spec_boxes_bytes(s) == spec_box_bytes(s[0]) + spec_boxes_bytes(s.drop_first()));
        vstd::seq_lib::lemma_concat_associative(
            spec_box_bytes(s[0]),
            spec_boxes_bytes(s.drop_first()),
            spec_box_bytes(x),
        );
    }
}

/// Appending one cell appends its chunk.
pub proof fn lemma_cells_data_push(s: Seq<CellModel>, c: CellModel)
    ensures
        spec_cells_data(s.push(c)) == spec_cells_data(s) + spec_cell_chunk(c),
    decreases s.len(),
{
    if s.len() == 0 {
        assert(s.push(c).drop_first() =~= Seq::<CellModel>::empty());
        assert(s.push(c)[0] == c);
        assert(spec_cells_data(s.push(c)) == spec_cell_chunk(c) + spec_cells_data(
            s.push(c).drop_first(),
        ));
        assert(spec_cells_data(s.push(c)) =~= spec_cells_data(s) + spec_cell_chunk(c));
    } else {
        assert(s.push(c)[0] == s[0]);
        assert(s.push(c).drop_first() =~= s.drop_first().push(c));
        lemma_cells_data_push(s.drop_first(), c);
        assert(spec_cells_data(s.push(c)) == spec_cell_chunk(s[0]) + spec_cells_data(
            s.drop_first().push(c),
        ));
        assert(spec_cells_data(s) == spec_cell_chunk(s[0]) + spec_cells_data(s.drop_first()));
        vstd::seq_lib::lemma_concat_associative(
            spec_cell_chunk(s[0]),
            spec_cells_data(s.drop_first()),
            spec_cell_chunk(c),
        );
    }
}

/// The chunks of a prefix never outgrow the chunks of the whole sequence.
pub proof fn lemma_cells_data_take_len(s: Seq<CellModel>, k: int)
    requires
        0 <= k <= s.len(),
    ensures
        spec_cells_data(s.take(k)).len() <= spec_cells_data(s).len(),
    decreases s.len() - k,
{
    if k == s.len() {
        assert(s.take(k) =~= s);
    } else {
        assert(s.take(k + 1) =~= s.take(k).push(s[k]));
        lemma_cells_data_push(s.take(k), s[k]);
        lemma_cells_data_take_len(s, k + 1);
    }
}

/// Appending one sprite blob appends its chunk.
pub proof fn lemma_sprites_data_push(s: Seq<Seq<u8>>, e: Seq<u8>)
    ensures
        spec_sprites_data(s.push(e)) == spec_sprites_data(s) + spec_sprite_chunk(e),
    decreases s.len(),
{
    if s.len() == 0 {
        assert(s.push(e).drop_first() =~= Seq::<Seq<u8>>::empty());
        assert(s.push(e)[0] == e);
        assert(spec_sprites_data(s.push(e)) == spec_sprite_chunk(e) + spec_sprites_data(
            s.push(e).drop_first(),
        ));
        assert(spec_sprites_data(s.push(e)) =~= spec_sprites_data(s) + spec_sprite_chunk(e));
    } else {
        assert(s.push(e)[0] == s[0]);
        assert(s.push(e).drop_first() =~= s.drop_first().push(e));
        lemma_sprites_data_push(s.drop_first(), e);
        assert(spec_sprites_data(s.push(e)) == spec_sprite_chunk(s[0]) + spec_sprites_data(
            s.drop_first().push(e),
        ));
        assert(spec_sprites_data(s) == spec_sprite_chunk(s[0]) + spec_sprites_data(s.drop_first()));
        vstd::seq_lib::lemma_concat_associative(
            spec_sprite_chunk(s[0]),
            spec_sprites_data(s.drop_first()),
            spec_sprite_chunk(e),
        );
    }
}

/// The chunks of a prefix never outgrow the chunks of the whole sequence.
pub proof fn lemma_sprites_data_take_len(s: Seq<Seq<u8>>, k: int)
    requires
        0 <= k <= s.len(),
    ensures
        spec_sprites_data(s.take(k)).len() <= spec_sprites_data(s).len(),
    decreases s.len() - k,
{
    if k == s.len() {
        assert(s.take(k) =~= s);
    } else {
        assert(s.take(k + 1) =~= s.take(k).push(s[k]));
        lemma_sprites_data_push(s.take(k), s[k]);
        lemma_sprites_data_take_len(s, k + 1);
    }
}

/// Appending one palette entry appends its chunk.
pub proof fn lemma_palettes_data_push(s: Seq<PaletteModel>, p: PaletteModel)
    ensures
        spec_palettes_data(s.push(p)) == spec_palettes_data(s) + spec_palette_chunk(p),
    decreases s.len(),
{
    if s.len() == 0 {
        assert(s.push(p).drop_first() =~= Seq::<PaletteModel>::empty());
        assert(s.push(p)[0] == p);
        assert(spec_palettes_data(s.push(p)) == spec_palette_chunk(p) + spec_palettes_data(
            s.push(p).drop_first(),
        ));
        assert(spec_palettes_data(s.push(p)) =~= spec_palettes_data(s) + spec_palette_chunk(p));
    } else {
        assert(s.push(p)[0] == s[0]);
        assert(s.push(p).drop_first() =~= s.drop_first().push(p));
        lemma_palettes_data_push(s.drop_first(), p);
        assert(spec_palettes_data(s.push(p)) == spec_palette_chunk(s[0]) + spec_palettes_data(
            s.drop_first().push(p),
        ));
        assert(spec_palettes_data(s) == spec_palette_chunk(s[0]) + spec_palettes_data(
            s.drop_first(),
        ));
        vstd::seq_lib::lemma_concat_associative(
            spec_palette_chunk(s[0]),
            spec_palettes_data(s.drop_first()),
            spec_palette_chunk(p),
        );
    }
}

/// The chunks of a prefix never outgrow the chunks of the whole sequence.
pub proof fn lemma_palettes_data_take_len(s: Seq<PaletteModel>, k: int)
    requires
        0 <= k <= s.len(),
    ensures
        spec_palettes_data(s.take(k)).len() <= spec_palettes_data(s).len(),
    decreases s.len() - k,
{
    if k == s.len() {
        assert(s.take(k) =~= s);
    } else {
        assert(s.take(k + 1) =~= s.take(k).push(s[k]));
        lemma_palettes_data_push(s.take(k), s[k]);
        lemma_palettes_data_take_len(s, k + 1);
    }
}

/// Appending one game-object entry appends its encoding.
pub proof fn lemma_objects_data_push(s: Seq<ObjModel>, o: ObjModel)
    ensures
        spec_objects_data(s.push(o)) == spec_objects_data(s) + spec_object_bytes(o),
    decreases s.len(),
{
    if s.len() == 0 {
        assert(s.push(o).drop_first() =~= Seq::<ObjModel>::empty());
        assert(s.push(o)[0] == o);
        assert(spec_objects_data(s.push(o)) == spec_object_bytes(o) + spec_objects_data(
            s.push(o).drop_first(),
        ));
        assert(spec_objects_data(s.push(o)) =~= spec_objects_data(s) + spec_object_bytes(o));
    } else {
        assert(s.push(o)[0] == s[0]);
        assert(s.push(o).drop_first() =~= s.drop_first().push(o));
        lemma_objects_data_push(s.drop_first(), o);
        assert(spec_objects_data(s.push(o)) == spec_object_bytes(s[0]) + spec_objects_data(
            s.drop_first().push(o),
        ));
        assert(spec_objects_data(s) == spec_object_bytes(s[0]) + spec_objects_data(s.drop_first()));
        vstd::seq_lib::lemma_concat_associative(
            spec_object_bytes(s[0]),
            spec_objects_data(s.drop_first()),
            spec_object_bytes(o),
        );
    }
}

/// The encodings of a prefix never outgrow the encodings of the whole
/// sequence.
pub proof fn lemma_objects_data_take_len(s: Seq<ObjModel>, k: int)
    requires
        0 <= k <= s.len(),
    ensures
        spec_objects_data(s.take(k)).len() <= spec_objects_data(s).len(),
    decreases s.len() - k,
{
    if k == s.len() {
        assert(s.take(k) =~= s);
    } else {
        assert(s.take(k + 1) =~= s.take(k).push(s[k]));
        lemma_objects_data_push(s.take(k), s[k]);
        lemma_objects_data_take_len(s, k + 1);
    }
}

/// Appending one audio blob appends its raw bytes.
pub proof fn lemma_audio_data_push(s: Seq<Seq<u8>>, e: Seq<u8>)
    ensures
        spec_audio_entries_data(s.push(e)) == spec_audio_entries_data(s) + e,
    decreases s.len(),
{
    if s.len() == 0 {
        assert(s.push(e).drop_first() =~= Seq::<Seq<u8>>::empty());
        assert(s.push(e)[0] == e);
        assert(spec_audio_entries_data(s.push(e)) == e + spec_audio_entries_data(
            s.push(e).drop_first(),
        ));
        assert(spec_audio_entries_data(s.push(e)) =~= spec_audio_entries_data(s) + e);
    } else {
        assert(s.push(e)[0] == s[0]);
        assert(s.push(e).drop_first() =~= s.drop_first().push(e));
        lemma_audio_data_push(s.drop_first(), e);
        assert(spec_audio_entries_data(s.push(e)) == s[0] + spec_audio_entries_data(
            s.drop_first().push(e),
        ));
        assert(spec_audio_entries_data(s) == s[0] + spec_audio_entries_data(s.drop_first()));
        vstd::seq_lib::lemma_concat_associative(
            s[0],
            spec_audio_entries_data(s.drop_first()),
            e,
        );
    }
}

/// The raw bytes of a prefix never outgrow the raw bytes of the whole
/// sequence.
pub proof fn lemma_audio_data_take_len(s: Seq<Seq<u8>>, k: int)
    requires
        0 <= k <= s.len(),
    ensures
        spec_audio_entries_data(s.take(k)).len() <= spec_audio_entries_data(s).len(),
    decreases s.len() - k,
{
    if k == s.len() {
        assert(s.take(k) =~= s);
    } else {
        assert(s.take(k + 1) =~= s.take(k).push(s[k]));
        lemma_audio_data_push(s.take(k), s[k]);
        lemma_audio_data_take_len(s, k + 1);
    }
}


// ---------------------------------------------------------------------------
// Encoding executables: pads and chunks
// ---------------------------------------------------------------------------

/// Sentinel padding of a pointer table of `n` entries.
pub fn table_pad(n: usize) -> (r: usize)
    requires
        4 * n <= 0xFFFFFFFF,
    ensures
        r == spec_table_pad(n as int),
        4 <= r <= 0x10,
{
    let a = needed_to_align(n * 4, 0x10);
    if a == 0 {
        0x10
    } else {
        a
    }
}

/// Zero padding that brings a script body to the fixed target remainder.
pub fn script_pad(l: usize) -> (r: usize)
    ensures
        r == spec_script_pad(l as int),
        r <= 0x1A00,
{
    let rem = l % 0x1000;
    if rem > 0xA00 {
        0x1000 - rem + 0xA00
    } else {
        0xA00 - rem
    }
}

/// Builds one cell's chunk: count, boxes, sprite reference, zero padding
/// to 4 bytes, sentinel padding to 16 bytes.
pub fn build_cell_chunk(c: &GGXXCellEntry) -> (r: Vec<u8>)
    requires
        c.boxes@.len() <= 0xFFFFFFFF,
    ensures
        r@ == spec_cell_chunk(c@),
{
    let mut raw: Vec<u8> = Vec::new();
    push_u32_le(&mut raw, c.boxes.len() as u32);
    let mut k: usize = 0;
    while k < c.boxes.len()
        invariant
            k <= c.boxes@.len(),
            raw@ == u32_le_of(c.boxes@.len() as u32) + spec_boxes_bytes(c.boxes@.take(k as int)),
        decreases c.boxes@.len() - k,
    {
        let bx = c.boxes[k];
        push_i16_le(&mut raw, bx.x_offset);
        push_i16_le(&mut raw, bx.y_offset);
        push_u16_le(&mut raw, bx.width);
        push_u16_le(&mut raw, bx.height);
        push_u32_le(&mut raw, bx.box_type);
        proof {
            assert(c.boxes@.take(k as int).push(c.boxes@[k as int]) =~= c.boxes@.take(
                k + 1 as int,
            ));
            lemma_boxes_bytes_push(c.boxes@.take(k as int), c.boxes@[k as int]);
            assert(raw@ =~= u32_le_of(c.boxes@.len() as u32) + spec_boxes_bytes(
                c.boxes@.take(k + 1 as int),
            ));
        }
        k = k + 1;
    }
    proof {
        assert(c.boxes@.take(c.boxes@.len() as int) =~= c.boxes@);
    }
    push_i16_le(&mut raw, c.sprite_info.x_offset);
    push_i16_le(&mut raw, c.sprite_info.y_offset);
    push_u32_le(&mut raw, c.sprite_info.unk);
    push_u16_le(&mut raw, c.sprite_info.index);
    proof {
        assert(raw@ =~= spec_cell_bytes(c@));
    }
    let zp = needed_to_align(raw.len(), 4);
    push_repeat(&mut raw, 0x00, zp);
    let fp = needed_to_align(raw.len(), 0x10);
    push_repeat(&mut raw, 0xFF, fp);
    proof {
        assert(raw@ =~= spec_cell_chunk(c@));
    }
    raw
}

/// Builds a whole cell array section: pointer table, sentinel padding,
/// cell chunks.
pub fn build_cell_block(cells: &Vec<GGXXCellEntry>) -> (r: Vec<u8>)
    requires
        spec_cell_block(spec_cells_view(cells@)).len() < 0x100000000,
    ensures
        r@ == spec_cell_block(spec_cells_view(cells@)),
{
    let ghost cv = spec_cells_view(cells@);
    let n = cells.len();
    proof {
        lemma_u32s_le_of_len(spec_cell_offsets(cv));
        assert(4 * n <= 0xFFFFFFFF);
    }
    let pad0 = table_pad(n);
    let mut ptrs: Vec<u32> = Vec::new();
    let mut data: Vec<u8> = Vec::new();
    let mut k: usize = 0;
    while k < n
        invariant
            k <= n,
            n == cells@.len(),
            cv == spec_cells_view(cells@),
            cv.len() == n,
            pad0 == spec_table_pad(n as int),
            4 <= pad0 <= 0x10,
            spec_cell_block(cv).len() < 0x100000000,
            data@ == spec_cells_data(cv.take(k as int)),
            ptrs@.len() == k,
            forall|j: int| 0 <= j < k ==> ptrs@[j] == spec_cell_offsets(cv)[j],
        decreases n - k,
    {
        proof {
            lemma_u32s_le_of_len(spec_cell_offsets(cv));
            lemma_cells_data_take_len(cv, k as int);
            assert(cv.take(k + 1 as int) =~= cv.take(k as int).push(cells@[k as int]@));
            lemma_cells_data_push(cv.take(k as int), cells@[k as int]@);
            lemma_cells_data_take_len(cv, k + 1 as int);
            lemma_boxes_bytes_len(cells@[k as int]@.boxes);
        }
        let off = n * 4 + data.len() + pad0;
        ptrs.push(off as u32);
        let chunk = build_cell_chunk(&cells[k]);
        push_slice(&mut data, chunk.as_slice());
        k = k + 1;
    }
    proof {
        assert(cv.take(n as int) =~= cv);
        assert(ptrs@ =~= spec_cell_offsets(cv));
    }
    let mut out: Vec<u8> = Vec::new();
    push_u32s_le(&mut out, &ptrs);
    push_repeat(&mut out, 0xFF, pad0);
    push_slice(&mut out, data.as_slice());
    proof {
        assert(out@ =~= spec_cell_block(cv));
    }
    out
}

/// Builds a whole sprite array section: pointer table, sentinel padding,
/// sprite chunks.
pub fn build_sprite_block(sprites: &Vec<Vec<u8>>) -> (r: Vec<u8>)
    requires
        spec_sprite_block(spec_blobs_view(sprites@)).len() < 0x100000000,
    ensures
        r@ == spec_sprite_block(spec_blobs_view(sprites@)),
{
    let ghost sv = spec_blobs_view(sprites@);
    let n = sprites.len();
    proof {
        lemma_u32s_le_of_len(spec_sprite_offsets(sv));
        assert(4 * n <= 0xFFFFFFFF);
    }
    let pad0 = table_pad(n);
    let mut ptrs: Vec<u32> = Vec::new();
    let mut data: Vec<u8> = Vec::new();
    let mut k: usize = 0;
    while k < n
        invariant
            k <= n,
            n == sprites@.len(),
            sv == spec_blobs_view(sprites@),
            sv.len() == n,
            pad0 == spec_table_pad(n as int),
            4 <= pad0 <= 0x10,
            spec_sprite_block(sv).len() < 0x100000000,
            data@ == spec_sprites_data(sv.take(k as int)),
            ptrs@.len() == k,
            forall|j: int| 0 <= j < k ==> ptrs@[j] == spec_sprite_offsets(sv)[j],
        decreases n - k,
    {
        proof {
            lemma_u32s_le_of_len(spec_sprite_offsets(sv));
            lemma_sprites_data_take_len(sv, k as int);
            assert(sv.take(k + 1 as int) =~= sv.take(k as int).push(sprites@[k as int]@));
            lemma_sprites_data_push(sv.take(k as int), sprites@[k as int]@);
            lemma_sprites_data_take_len(sv, k + 1 as int);
        }
        let off = n * 4 + data.len() + pad0;
        ptrs.push(off as u32);
        let ghost d0 = data@;
        let entry = &sprites[k];
        push_slice(&mut data, entry.as_slice());
        let ep = needed_to_align(entry.len(), 0x10);
        push_repeat(&mut data, 0xFF, ep);
        proof {
            assert(data@ =~= d0 + spec_sprite_chunk(sprites@[k as int]@));
            assert(data@ =~= spec_sprites_data(sv.take(k + 1 as int)));
        }
        k = k + 1;
    }
    proof {
        assert(sv.take(n as int) =~= sv);
        assert(ptrs@ =~= spec_sprite_offsets(sv));
    }
    let mut out: Vec<u8> = Vec::new();
    push_u32s_le(&mut out, &ptrs);
    push_repeat(&mut out, 0xFF, pad0);
    push_slice(&mut out, data.as_slice());
    proof {
        assert(out@ =~= spec_sprite_block(sv));
    }
    out
}

/// Builds one palette entry's chunk: the unknown fields, the packed
/// colors, sentinel padding to a 16-byte boundary.
pub fn build_palette_chunk(p: &GGXXPaletteEntry) -> (r: Vec<u8>)
    ensures
        r@ == spec_palette_chunk(p@),
{
    let mut raw: Vec<u8> = Vec::new();
    push_u16_le(&mut raw, p.unk);
    push_u16_le(&mut raw, p.unk1);
    push_u16_le(&mut raw, p.unk2);
    push_u16_le(&mut raw, p.unk3);
    push_u16_le(&mut raw, p.unk4);
    push_u16_le(&mut raw, p.unk5);
    push_u16_le(&mut raw, p.unk6);
    push_u16_le(&mut raw, p.unk7);
    push_u32s_le(&mut raw, &p.palette);
    proof {
        assert(raw@ =~= spec_palette_bytes(p@));
    }
    let fp = needed_to_align(raw.len(), 0x10);
    push_repeat(&mut raw, 0xFF, fp);
    proof {
        assert(raw@ =~= spec_palette_chunk(p@));
    }
    raw
}

/// Builds a whole palette array section: pointer table, sentinel padding,
/// palette chunks.
pub fn build_palette_block(palettes: &Vec<GGXXPaletteEntry>) -> (r: Vec<u8>)
    requires
        spec_palette_block(spec_palettes_view(palettes@)).len() < 0x100000000,
    ensures
        r@ == spec_palette_block(spec_palettes_view(palettes@)),
{
    let ghost pv = spec_palettes_view(palettes@);
    let n = palettes.len();
    proof {
        lemma_u32s_le_of_len(spec_palette_offsets(pv));
        assert(4 * n <= 0xFFFFFFFF);
    }
    let pad0 = table_pad(n);
    let mut ptrs: Vec<u32> = Vec::new();
    let mut data: Vec<u8> = Vec::new();
    let mut k: usize = 0;
    while k < n
        invariant
            k <= n,
            n == palettes@.len(),
            pv == spec_palettes_view(palettes@),
            pv.len() == n,
            pad0 == spec_table_pad(n as int),
            4 <= pad0 <= 0x10,
            spec_palette_block(pv).len() < 0x100000000,
            data@ == spec_palettes_data(pv.take(k as int)),
            ptrs@.len() == k,
            forall|j: int| 0 <= j < k ==> ptrs@[j] == spec_palette_offsets(pv)[j],
        decreases n - k,
    {
        proof {
            lemma_u32s_le_of_len(spec_palette_offsets(pv));
            lemma_palettes_data_take_len(pv, k as int);
            assert(pv.take(k + 1 as int) =~= pv.take(k as int).push(palettes@[k as int]@));
            lemma_palettes_data_push(pv.take(k as int), palettes@[k as int]@);
            lemma_palettes_data_take_len(pv, k + 1 as int);
        }
        let off = n * 4 + data.len() + pad0;
        ptrs.push(off as u32);
        let chunk = build_palette_chunk(&palettes[k]);
        push_slice(&mut data, chunk.as_slice());
        k = k + 1;
    }
    proof {
        assert(pv.take(n as int) =~= pv);
        assert(ptrs@ =~= spec_palette_offsets(pv));
    }
    let mut out: Vec<u8> = Vec::new();
    push_u32s_le(&mut out, &ptrs);
    push_repeat(&mut out, 0xFF, pad0);
    push_slice(&mut out, data.as_slice());
    proof {
        assert(out@ =~= spec_palette_block(pv));
    }
    out
}


// ---------------------------------------------------------------------------
// Encoding executables: entries and the whole binary
// ---------------------------------------------------------------------------

/// Builds a player script body, zero-padded to the script alignment
/// target.
pub fn build_player_script_block(s: &GGXXPlayerScriptData) -> (r: Vec<u8>)
    ensures
        r@ == spec_player_script_block(s@),
{
    let mut out: Vec<u8> = Vec::new();
    write_player_script(&mut out, s);
    let pad = script_pad(out.len());
    push_repeat(&mut out, 0x00, pad);
    proof {
        assert(out@ =~= spec_player_script_block(s@));
    }
    out
}

/// Builds a game-object script body, zero-padded to the script alignment
/// target.
pub fn build_obj_script_block(s: &GGXXObjScriptData) -> (r: Vec<u8>)
    ensures
        r@ == spec_obj_script_block(s@),
{
    let mut out: Vec<u8> = Vec::new();
    write_obj_script(&mut out, s);
    let pad = script_pad(out.len());
    push_repeat(&mut out, 0x00, pad);
    proof {
        assert(out@ =~= spec_obj_script_block(s@));
    }
    out
}

/// Builds the whole encoding of the player entry: local header, cell
/// section, sprite section, script body, palette section.
pub fn build_player_bytes(p: &GGXXPlayerEntry) -> (r: Vec<u8>)
    requires
        spec_player_bytes(p@).len() < 0x100000000,
    ensures
        r@ == spec_player_bytes(p@),
{
    proof {
        lemma_u32s_le_of_len(spec_player_header(p@));
    }
    let cell_block = build_cell_block(&p.cell_array.cell_entries);
    let sprite_block = build_sprite_block(&p.sprite_array.sprite_entries);
    let script_block = build_player_script_block(&p.script_data);
    let palette_block = build_palette_block(&p.palette_array.palette_entries);
    let mut hdr: Vec<u32> = Vec::new();
    hdr.push(0x20u32);
    hdr.push((0x20 + cell_block.len()) as u32);
    hdr.push((0x20 + cell_block.len() + sprite_block.len()) as u32);
    hdr.push((0x20 + cell_block.len() + sprite_block.len() + script_block.len()) as u32);
    hdr.push(0xFFFFFFFFu32);
    hdr.push(0xFFFFFFFFu32);
    hdr.push(0xFFFFFFFFu32);
    hdr.push(0xFFFFFFFFu32);
    proof {
        assert(hdr@ =~= spec_player_header(p@));
    }
    let mut out: Vec<u8> = Vec::new();
    push_u32s_le(&mut out, &hdr);
    push_slice(&mut out, cell_block.as_slice());
    push_slice(&mut out, sprite_block.as_slice());
    push_slice(&mut out, script_block.as_slice());
    push_slice(&mut out, palette_block.as_slice());
    proof {
        assert(out@ =~= spec_player_bytes(p@));
    }
    out
}

/// Builds the whole encoding of one game-object entry: local header, cell
/// section, sprite section, script body.
pub fn build_object_bytes(o: &GGXXObjEntry) -> (r: Vec<u8>)
    requires
        spec_object_bytes(o@).len() < 0x100000000,
    ensures
        r@ == spec_object_bytes(o@),
{
    proof {
        lemma_u32s_le_of_len(spec_object_header(o@));
    }
    let cell_block = build_cell_block(&o.cell_array.cell_entries);
    let sprite_block = build_sprite_block(&o.sprite_array.sprite_entries);
    let script_block = build_obj_script_block(&o.script_data);
    let mut hdr: Vec<u32> = Vec::new();
    hdr.push(0x10u32);
    hdr.push((0x10 + cell_block.len()) as u32);
    hdr.push((0x10 + cell_block.len() + sprite_block.len()) as u32);
    hdr.push(0xFFFFFFFFu32);
    proof {
        assert(hdr@ =~= spec_object_header(o@));
    }
    let mut out: Vec<u8> = Vec::new();
    push_u32s_le(&mut out, &hdr);
    push_slice(&mut out, cell_block.as_slice());
    push_slice(&mut out, sprite_block.as_slice());
    push_slice(&mut out, script_block.as_slice());
    proof {
        assert(out@ =~= spec_object_bytes(o@));
    }
    out
}

/// Builds the whole audio section: big-endian pointer table, sentinel
/// padding, the fixed sentinel block, then the raw blobs.
pub fn build_audio_block(entries: &Vec<Vec<u8>>) -> (r: Vec<u8>)
    requires
        spec_audio_block(spec_blobs_view(entries@)).len() < 0x100000000,
    ensures
        r@ == spec_audio_block(spec_blobs_view(entries@)),
{
    let ghost av = spec_blobs_view(entries@);
    let n = entries.len();
    proof {
        lemma_u32s_be_of_len(spec_audio_offsets(av));
        assert(4 * n <= 0xFFFFFFFF);
    }
    let pad0 = table_pad(n);
    let mut ptrs: Vec<u32> = Vec::new();
    let mut data: Vec<u8> = Vec::new();
    let mut k: usize = 0;
    while k < n
        invariant
            k <= n,
            n == entries@.len(),
            av == spec_blobs_view(entries@),
            av.len() == n,
            pad0 == spec_table_pad(n as int),
            4 <= pad0 <= 0x10,
            spec_audio_block(av).len() < 0x100000000,
            data@ == spec_audio_entries_data(av.take(k as int)),
            ptrs@.len() == k,
            forall|j: int| 0 <= j < k ==> ptrs@[j] == spec_audio_offsets(av)[j],
        decreases n - k,
    {
        proof {
            lemma_u32s_be_of_len(spec_audio_offsets(av));
            lemma_audio_data_take_len(av, k as int);
            assert(av.take(k + 1 as int) =~= av.take(k as int).push(entries@[k as int]@));
            lemma_audio_data_push(av.take(k as int), entries@[k as int]@);
            lemma_audio_data_take_len(av, k + 1 as int);
        }
        let off = n * 4 + pad0 + 0x10 + data.len();
        ptrs.push(off as u32);
        push_slice(&mut data, entries[k].as_slice());
        k = k + 1;
    }
    proof {
        assert(av.take(n as int) =~= av);
        assert(ptrs@ =~= spec_audio_offsets(av));
    }
    let mut out: Vec<u8> = Vec::new();
    push_u32s_be(&mut out, &ptrs);
    push_repeat(&mut out, 0xFF, pad0);
    push_repeat(&mut out, 0xFF, 0x10);
    push_slice(&mut out, data.as_slice());
    proof {
        assert(out@ =~= spec_audio_block(av));
    }
    out
}

impl GGXXObjBin {
    /// Rebuilds the whole object binary, recomputing every offset and
    /// padding bottom-up: the top-level pointer table, the player entry,
    /// each game-object entry, then the audio section.
    #[verifier::rlimit(100)]
    pub fn to_bytes(&self) -> (r: Vec<u8>)
        requires
            spec_obj_bin_bytes(self@).len() < 0x100000000,
        ensures
            r@ == spec_obj_bin_bytes(self@),
    {
        let ghost m = self@;
        proof {
            lemma_u32s_le_of_len(spec_top_offsets(m));
        }
        let n_obj = self.objects.len();
        proof {
            assert(spec_top_offsets(m).len() == n_obj + 2);
            assert(4 * (n_obj + 2) <= 0xFFFFFFFF);
        }
        let obj_num = 2 + n_obj;
        let pad = {
            let rem4 = obj_num % 4;
            if rem4 == 0 {
                0x10
            } else {
                0x10 - rem4 * 4
            }
        };
        proof {
            assert(pad == spec_top_pad(obj_num as int));
        }
        let initial = obj_num * 4 + pad;
        let player_buf = build_player_bytes(&self.player);
        let mut ptrs: Vec<u32> = Vec::new();
        ptrs.push(initial as u32);
        let mut obj_data: Vec<u8> = Vec::new();
        let mut k: usize = 0;
        while k < n_obj
            invariant
                k <= n_obj,
                n_obj == self.objects@.len(),
                m == self@,
                m.objects.len() == n_obj,
                spec_obj_bin_bytes(m).len() < 0x100000000,
                obj_num == 2 + n_obj,
                pad == spec_top_pad(obj_num as int),
                pad <= 0x10,
                initial == 4 * obj_num + pad,
                player_buf@ == spec_player_bytes(m.player),
                obj_data@ == spec_objects_data(m.objects.take(k as int)),
                ptrs@.len() == k + 1,
                forall|j: int| 0 <= j < k + 1 ==> ptrs@[j] == spec_top_offsets(m)[j],
            decreases n_obj - k,
        {
            proof {
                lemma_u32s_le_of_len(spec_top_offsets(m));
                lemma_objects_data_take_len(m.objects, k as int);
                assert(m.objects.take(k + 1 as int) =~= m.objects.take(k as int).push(
                    self.objects@[k as int]@,
                ));
                lemma_objects_data_push(m.objects.take(k as int), self.objects@[k as int]@);
                lemma_objects_data_take_len(m.objects, k + 1 as int);
            }
            let off = initial + player_buf.len() + obj_data.len();
            ptrs.push(off as u32);
            let ob = build_object_bytes(&self.objects[k]);
            push_slice(&mut obj_data, ob.as_slice());
            k = k + 1;
        }
        proof {
            assert(m.objects.take(n_obj as int) =~= m.objects);
            lemma_u32s_le_of_len(spec_top_offsets(m));
        }
        let audio_off = initial + player_buf.len() + obj_data.len();
        ptrs.push(audio_off as u32);
        proof {
            assert(ptrs@ =~= spec_top_offsets(m));
        }
        let audio_buf = build_audio_block(&self.audio_array.audio_entries);
        let mut out: Vec<u8> = Vec::new();
        push_u32s_le(&mut out, &ptrs);
        push_repeat(&mut out, 0xFF, pad);
        push_slice(&mut out, player_buf.as_slice());
        push_slice(&mut out, obj_data.as_slice());
        push_slice(&mut out, audio_buf.as_slice());
        proof {
            assert(out@ =~= spec_obj_bin_bytes(m));
        }
        out
    }
}

// ---------------------------------------------------------------------------
// Decoding: sentinel pointer tables
// ---------------------------------------------------------------------------

/// Reads fixed-width offsets from `pos` until the all-ones sentinel, which
/// is consumed but excluded from the result; `be` selects big-endian.
pub open spec fn spec_read_ptr_table(b: Seq<u8>, pos: int, be: bool) -> Option<(Seq<u32>, int)>
    decreases b.len() - pos,
{
    if pos < 0 || pos + 4 > b.len() {
        None
    } else {
        let v = if be {
            u32_be_at(b, pos)
        } else {
            u32_le_at(b, pos)
        };
        if v == 0xFFFFFFFFu32 {
            Some((Seq::empty(), pos + 4))
        } else {
            match spec_read_ptr_table(b, pos + 4, be) {
                None => None,
                Some(t) => Some((seq![v] + t.0, t.1)),
            }
        }
    }
}

/// A read table consumes one dword per entry plus the sentinel, and never
/// reads past the input.
pub proof fn lemma_read_ptr_table_advances(b: Seq<u8>, pos: int, be: bool)
    requires
        spec_read_ptr_table(b, pos, be) is Some,
    ensures
        spec_read_ptr_table(b, pos, be)->Some_0.1 == pos + 4 * spec_read_ptr_table(
            b,
            pos,
            be,
        )->Some_0.0.len() + 4,
        pos + 4 <= spec_read_ptr_table(b, pos, be)->Some_0.1 <= b.len(),
    decreases b.len() - pos,
{
    let v = if be {
        u32_be_at(b, pos)
    } else {
        u32_le_at(b, pos)
    };
    if v != 0xFFFFFFFFu32 {
        lemma_read_ptr_table_advances(b, pos + 4, be);
    }
}

/// No offset read from a table is itself the sentinel value: the last
/// value before the sentinel, like every other, differs from it.
pub proof fn lemma_ptr_table_no_sentinel(b: Seq<u8>, pos: int, be: bool)
    requires
        spec_read_ptr_table(b, pos, be) is Some,
    ensures
        forall|k: int|
            0 <= k < spec_read_ptr_table(b, pos, be)->Some_0.0.len()
                ==> spec_read_ptr_table(b, pos, be)->Some_0.0[k] != 0xFFFFFFFFu32,
    decreases b.len() - pos,
{
    let v = if be {
        u32_be_at(b, pos)
    } else {
        u32_le_at(b, pos)
    };
    if v != 0xFFFFFFFFu32 {
        lemma_ptr_table_no_sentinel(b, pos + 4, be);
    }
}

/// Reads a sentinel-terminated pointer table.
pub fn read_ptr_table(b: &[u8], pos: usize, be: bool) -> (r: Result<(Vec<u32>, usize), Error>)
    requires
        pos <= b@.len(),
    ensures
        match spec_read_ptr_table(b@, pos as int, be) {
            Some(t) => r matches Ok(o) && o.0@ == t.0 && o.1 == t.1,
            None => r matches Err(e) && e.is_parser(),
        },
{
    let n_total: usize = b.len();
    let mut out: Vec<u32> = Vec::new();
    let mut cur: usize = pos;
    loop
        invariant
            pos <= cur <= b@.len(),
            n_total == b@.len(),
            match spec_read_ptr_table(b@, cur as int, be) {
                Some(t) => spec_read_ptr_table(b@, pos as int, be) == Some((out@ + t.0, t.1)),
                None => spec_read_ptr_table(b@, pos as int, be) is None,
            },
        decreases b@.len() - cur,
    {
        if n_total - cur < 4 {
            return Err(Error::Parser("pointer table: missing sentinel".to_string()));
        }
        let v = if be {
            read_u32_be(b, cur)
        } else {
            read_u32_le(b, cur)
        };
        if v == 0xFFFFFFFF {
            proof {
                assert(spec_read_ptr_table(b@, cur as int, be) == Some(
                    (Seq::<u32>::empty(), cur + 4 as int),
                ));
                assert(out@ + Seq::<u32>::empty() =~= out@);
            }
            return Ok((out, cur + 4));
        }
        let ghost o0 = out@;
        out.push(v);
        proof {
            match spec_read_ptr_table(b@, cur + 4 as int, be) {
                Some(t2) => {
                    assert(spec_read_ptr_table(b@, cur as int, be) == Some(
                        (seq![v] + t2.0, t2.1),
                    ));
                    assert(o0 + (seq![v] + t2.0) =~= out@ + t2.0);
                },
                None => {
                    assert(spec_read_ptr_table(b@, cur as int, be) is None);
                },
            }
        }
        cur = cur + 4;
    }
}

// ---------------------------------------------------------------------------
// Decoding: cells
// ---------------------------------------------------------------------------

/// The collision box stored at `i`.
pub open spec fn spec_box_at(b: Seq<u8>, i: int) -> GGXXBox
    recommends
        0 <= i,
        i + 12 <= b.len(),
{
    GGXXBox {
        x_offset: i16_le_at(b, i),
        y_offset: i16_le_at(b, i + 2),
        width: u16_le_at(b, i + 4),
        height: u16_le_at(b, i + 6),
        box_type: u32_le_at(b, i + 8),
    }
}

/// The sprite-reference descriptor stored at `i`.
pub open spec fn spec_sprite_info_at(b: Seq<u8>, i: int) -> GGXXSpriteInfo
    recommends
        0 <= i,
        i + 10 <= b.len(),
{
    GGXXSpriteInfo {
        x_offset: i16_le_at(b, i),
        y_offset: i16_le_at(b, i + 2),
        unk: u32_le_at(b, i + 4),
        index: u16_le_at(b, i + 8),
    }
}

/// Decodes one cell at `pos`: the box count, that many boxes, then the
/// sprite reference.
pub open spec fn spec_parse_cell_entry(b: Seq<u8>, pos: int) -> Option<CellModel> {
    if pos < 0 || pos + 4 > b.len() {
        None
    } else {
        let count = u32_le_at(b, pos) as int;
        if pos + 4 + 12 * count + 10 > b.len() {
            None
        } else {
            Some(
                CellModel {
                    boxes: Seq::new(count as nat, |k: int| spec_box_at(b, pos + 4 + 12 * k)),
                    sprite_info: spec_sprite_info_at(b, pos + 4 + 12 * count),
                },
            )
        }
    }
}

/// Decodes one cell.
pub fn parse_cell_entry(b: &[u8], pos: usize) -> (r: Result<GGXXCellEntry, Error>)
    requires
        pos <= b@.len(),
    ensures
        match spec_parse_cell_entry(b@, pos as int) {
            Some(cm) => r matches Ok(o) && o@ == cm,
            None => r matches Err(e) && e.is_parser(),
        },
{
    let n_total: usize = b.len();
    let avail = n_total - pos;
    if avail < 14 {
        return Err(Error::Parser("cell: truncated input".to_string()));
    }
    let count = read_u32_le(b, pos);
    if (count as u64) > ((avail - 14) as u64) / 12 {
        return Err(Error::Parser("cell: box count exceeds input".to_string()));
    }
    let cnt = count as usize;
    proof {
        assert(pos + 4 + 12 * (cnt as int) + 10 <= b@.len());
    }
    let mut boxes: Vec<GGXXBox> = Vec::new();
    let mut k: usize = 0;
    while k < cnt
        invariant
            k <= cnt,
            pos + 4 + 12 * (cnt as int) + 10 <= b@.len(),
            pos + 4 + 12 * (cnt as int) + 10 <= usize::MAX,
            boxes@.len() == k,
            forall|j: int|
                0 <= j < k ==> boxes@[j] == spec_box_at(b@, pos + 4 + 12 * j),
        decreases cnt - k,
    {
        let base = pos + 4 + 12 * k;
        let bx = GGXXBox {
            x_offset: read_i16_le(b, base),
            y_offset: read_i16_le(b, base + 2),
            width: read_u16_le(b, base + 4),
            height: read_u16_le(b, base + 6),
            box_type: read_u32_le(b, base + 8),
        };
        boxes.push(bx);
        k = k + 1;
    }
    let sbase = pos + 4 + 12 * cnt;
    let sprite_info = GGXXSpriteInfo {
        x_offset: read_i16_le(b, sbase),
        y_offset: read_i16_le(b, sbase + 2),
        unk: read_u32_le(b, sbase + 4),
        index: read_u16_le(b, sbase + 8),
    };
    let entry = GGXXCellEntry { boxes, sprite_info };
    proof {
        let cm = spec_parse_cell_entry(b@, pos as int)->Some_0;
        assert(entry@.boxes =~= cm.boxes);
    }
    Ok(entry)
}

/// Decodes the cells named by a pointer table, each relative to `base`.
pub open spec fn spec_parse_cell_entries(b: Seq<u8>, base: int, ptrs: Seq<u32>) -> Option<
    Seq<CellModel>,
>
    decreases ptrs.len(),
{
    if ptrs.len() == 0 {
        Some(Seq::empty())
    } else {
        match spec_parse_cell_entry(b, base + ptrs[0]) {
            None => None,
            Some(c) => match spec_parse_cell_entries(b, base, ptrs.drop_first()) {
                None => None,
                Some(rest) => Some(seq![c] + rest),
            },
        }
    }
}

/// Decodes a whole cell array at `base`: its local pointer table, then
/// each cell at its table offset.
pub open spec fn spec_parse_cell_array(b: Seq<u8>, base: int) -> Option<Seq<CellModel>> {
    match spec_read_ptr_table(b, base, false) {
        None => None,
        Some(t) => spec_parse_cell_entries(b, base, t.0),
    }
}

/// Decodes a whole cell array.
pub fn parse_cell_array(b: &[u8], base: usize) -> (r: Result<GGXXCellArray, Error>)
    requires
        base <= b@.len(),
    ensures
        match spec_parse_cell_array(b@, base as int) {
            Some(cm) => r matches Ok(o) && o@ == cm,
            None => r matches Err(e) && e.is_parser(),
        },
{
    let n_total: usize = b.len();
    let table = read_ptr_table(b, base, false);
    match table {
        Err(e) => Err(e),
        Ok((ptrs, _end)) => {
            let mut out: Vec<GGXXCellEntry> = Vec::new();
            let mut k: usize = 0;
            let n = ptrs.len();
            proof {
                assert(ptrs@.skip(0) =~= ptrs@);
                match spec_parse_cell_entries(b@, base as int, ptrs@) {
                    Some(rest) => {
                        assert(spec_cells_view(out@) + rest =~= rest);
                    },
                    None => {},
                }
            }
            while k < n
                invariant
                    k <= n,
                    n == ptrs@.len(),
                    base <= b@.len(),
                    n_total == b@.len(),
                    spec_read_ptr_table(b@, base as int, false) matches Some(t) && t.0 == ptrs@,
                    match spec_parse_cell_entries(b@, base as int, ptrs@.skip(k as int)) {
                        Some(rest) => spec_parse_cell_entries(b@, base as int, ptrs@) == Some(
                            spec_cells_view(out@) + rest,
                        ),
                        None => spec_parse_cell_entries(b@, base as int, ptrs@) is None,
                    },
                decreases n - k,
            {
                let ptr = ptrs[k];
                let rem = n_total - base;
                proof {
                    assert(ptrs@.skip(k as int)[0] == ptrs@[k as int]);
                    assert(ptrs@.skip(k as int).drop_first() =~= ptrs@.skip(k + 1 as int));
                }
                if (ptr as u64) > (rem as u64) {
                    proof {
                        assert(spec_parse_cell_entry(b@, base + ptrs@[k as int]) is None);
                        assert(spec_parse_cell_entries(b@, base as int, ptrs@.skip(k as int))
                            is None);
                    }
                    return Err(Error::Parser("cell array: pointer out of range".to_string()));
                }
                let p = base + (ptr as usize);
                match parse_cell_entry(b, p) {
                    Err(e) => {
                        proof {
                            assert(spec_parse_cell_entry(b@, base + ptrs@[k as int]) is None);
                            assert(spec_parse_cell_entries(b@, base as int, ptrs@.skip(k as int))
                                is None);
                        }
                        return Err(e);
                    },
                    Ok(entry) => {
                        let ghost o0 = spec_cells_view(out@);
                        let ghost em = entry@;
                        out.push(entry);
                        proof {
                            assert(spec_cells_view(out@) =~= o0.push(em));
                            match spec_parse_cell_entries(
                                b@,
                                base as int,
                                ptrs@.skip(k + 1 as int),
                            ) {
                                Some(rest2) => {
                                    assert(spec_parse_cell_entries(
                                        b@,
                                        base as int,
                                        ptrs@.skip(k as int),
                                    ) == Some(seq![em] + rest2));
                                    assert(o0 + (seq![em] + rest2) =~= spec_cells_view(out@)
                                        + rest2);
                                },
                                None => {
                                    assert(spec_parse_cell_entries(
                                        b@,
                                        base as int,
                                        ptrs@.skip(k as int),
                                    ) is None);
                                },
                            }
                        }
                    },
                }
                k = k + 1;
            }
            proof {
                assert(ptrs@.skip(n as int) =~= Seq::<u32>::empty());
                assert(spec_parse_cell_entries(b@, base as int, ptrs@.skip(n as int)) == Some(
                    Seq::<CellModel>::empty(),
                ));
                assert(spec_cells_view(out@) + Seq::<CellModel>::empty() =~= spec_cells_view(
                    out@,
                ));
            }
            Ok(GGXXCellArray { cell_entries: out })
        },
    }
}

// ---------------------------------------------------------------------------
// Decoding: palettes
// ---------------------------------------------------------------------------

/// Total encoded size of one palette entry.
pub const PALETTE_ENTRY_SIZE: usize = 1040;

/// Decodes one palette entry at `pos`: eight unknown fields, then exactly
/// 256 packed colors.
pub open spec fn spec_parse_palette_entry(b: Seq<u8>, pos: int) -> Option<PaletteModel> {
    if pos < 0 || pos + 1040 > b.len() {
        None
    } else {
        Some(
            PaletteModel {
                unk: u16_le_at(b, pos),
                unk1: u16_le_at(b, pos + 2),
                unk2: u16_le_at(b, pos + 4),
                unk3: u16_le_at(b, pos + 6),
                unk4: u16_le_at(b, pos + 8),
                unk5: u16_le_at(b, pos + 10),
                unk6: u16_le_at(b, pos + 12),
                unk7: u16_le_at(b, pos + 14),
                palette: Seq::new(256, |k: int| u32_le_at(b, pos + 16 + 4 * k)),
            },
        )
    }
}

/// Decodes one palette entry.
pub fn parse_palette_entry(b: &[u8], pos: usize) -> (r: Result<GGXXPaletteEntry, Error>)
    requires
        pos <= b@.len(),
    ensures
        match spec_parse_palette_entry(b@, pos as int) {
            Some(pm) => r matches Ok(o) && o@ == pm,
            None => r matches Err(e) && e.is_parser(),
        },
{
    let n_total: usize = b.len();
    if n_total - pos < PALETTE_ENTRY_SIZE {
        return Err(Error::Parser("palette: truncated input".to_string()));
    }
    let mut palette: Vec<u32> = Vec::new();
    let mut k: usize = 0;
    while k < 256
        invariant
            k <= 256,
            pos + 1040 <= b@.len(),
            pos + 1040 <= usize::MAX,
            palette@.len() == k,
            forall|j: int| 0 <= j < k ==> palette@[j] == u32_le_at(b@, pos + 16 + 4 * j),
        decreases 256 - k,
    {
        palette.push(read_u32_le(b, pos + 16 + 4 * k));
        k = k + 1;
    }
    let entry = GGXXPaletteEntry {
        unk: read_u16_le(b, pos),
        unk1: read_u16_le(b, pos + 2),
        unk2: read_u16_le(b, pos + 4),
        unk3: read_u16_le(b, pos + 6),
        unk4: read_u16_le(b, pos + 8),
        unk5: read_u16_le(b, pos + 10),
        unk6: read_u16_le(b, pos + 12),
        unk7: read_u16_le(b, pos + 14),
        palette,
    };
    proof {
        let pm = spec_parse_palette_entry(b@, pos as int)->Some_0;
        assert(entry@.palette =~= pm.palette);
    }
    Ok(entry)
}

/// Decodes the palette entries named by a pointer table.
pub open spec fn spec_parse_palette_entries(b: Seq<u8>, base: int, ptrs: Seq<u32>) -> Option<
    Seq<PaletteModel>,
>
    decreases ptrs.len(),
{
    if ptrs.len() == 0 {
        Some(Seq::empty())
    } else {
        match spec_parse_palette_entry(b, base + ptrs[0]) {
            None => None,
            Some(p) => match spec_parse_palette_entries(b, base, ptrs.drop_first()) {
                None => None,
                Some(rest) => Some(seq![p] + rest),
            },
        }
    }
}

/// Decodes a whole palette array at `base`.
pub open spec fn spec_parse_palette_array(b: Seq<u8>, base: int) -> Option<Seq<PaletteModel>> {
    match spec_read_ptr_table(b, base, false) {
        None => None,
        Some(t) => spec_parse_palette_entries(b, base, t.0),
    }
}

/// Decodes a whole palette array.
pub fn parse_palette_array(b: &[u8], base: usize) -> (r: Result<GGXXPaletteArray, Error>)
    requires
        base <= b@.len(),
    ensures
        match spec_parse_palette_array(b@, base as int) {
            Some(pm) => r matches Ok(o) && o@ == pm,
            None => r matches Err(e) && e.is_parser(),
        },
{
    let n_total: usize = b.len();
    let table = read_ptr_table(b, base, false);
    match table {
        Err(e) => Err(e),
        Ok((ptrs, _end)) => {
            let mut out: Vec<GGXXPaletteEntry> = Vec::new();
            let mut k: usize = 0;
            let n = ptrs.len();
            proof {
                assert(ptrs@.skip(0) =~= ptrs@);
                match spec_parse_palette_entries(b@, base as int, ptrs@) {
                    Some(rest) => {
                        assert(spec_palettes_view(out@) + rest =~= rest);
                    },
                    None => {},
                }
            }
            while k < n
                invariant
                    k <= n,
                    n == ptrs@.len(),
                    base <= b@.len(),
                    n_total == b@.len(),
                    spec_read_ptr_table(b@, base as int, false) matches Some(t) && t.0 == ptrs@,
                    match spec_parse_palette_entries(b@, base as int, ptrs@.skip(k as int)) {
                        Some(rest) => spec_parse_palette_entries(b@, base as int, ptrs@) == Some(
                            spec_palettes_view(out@) + rest,
                        ),
                        None => spec_parse_palette_entries(b@, base as int, ptrs@) is None,
                    },
                decreases n - k,
            {
                let ptr = ptrs[k];
                let rem = n_total - base;
                proof {
                    assert(ptrs@.skip(k as int)[0] == ptrs@[k as int]);
                    assert(ptrs@.skip(k as int).drop_first() =~= ptrs@.skip(k + 1 as int));
                }
                if (ptr as u64) > (rem as u64) {
                    proof {
                        assert(spec_parse_palette_entry(b@, base + ptrs@[k as int]) is None);
                        assert(spec_parse_palette_entries(b@, base as int, ptrs@.skip(k as int))
                            is None);
                    }
                    return Err(Error::Parser("palette array: pointer out of range".to_string()));
                }
                let p = base + (ptr as usize);
                match parse_palette_entry(b, p) {
                    Err(e) => {
                        proof {
                            assert(spec_parse_palette_entry(b@, base + ptrs@[k as int]) is None);
                            assert(spec_parse_palette_entries(
                                b@,
                                base as int,
                                ptrs@.skip(k as int),
                            ) is None);
                        }
                        return Err(e);
                    },
                    Ok(entry) => {
                        let ghost o0 = spec_palettes_view(out@);
                        let ghost em = entry@;
                        out.push(entry);
                        proof {
                            assert(spec_palettes_view(out@) =~= o0.push(em));
                            match spec_parse_palette_entries(
                                b@,
                                base as int,
                                ptrs@.skip(k + 1 as int),
                            ) {
                                Some(rest2) => {
                                    assert(spec_parse_palette_entries(
                                        b@,
                                        base as int,
                                        ptrs@.skip(k as int),
                                    ) == Some(seq![em] + rest2));
                                    assert(o0 + (seq![em] + rest2) =~= spec_palettes_view(out@)
                                        + rest2);
                                },
                                None => {
                                    assert(spec_parse_palette_entries(
                                        b@,
                                        base as int,
                                        ptrs@.skip(k as int),
                                    ) is None);
                                },
                            }
                        }
                    },
                }
                k = k + 1;
            }
            proof {
                assert(ptrs@.skip(n as int) =~= Seq::<u32>::empty());
                assert(spec_parse_palette_entries(b@, base as int, ptrs@.skip(n as int)) == Some(
                    Seq::<PaletteModel>::empty(),
                ));
                assert(spec_palettes_view(out@) + Seq::<PaletteModel>::empty()
                    =~= spec_palettes_view(out@));
            }
            Ok(GGXXPaletteArray { palette_entries: out })
        },
    }
}


// ---------------------------------------------------------------------------
// Decoding: sprite and audio blobs
// ---------------------------------------------------------------------------

/// Strictly ascending offsets: each non-final entry's span is the exact
/// pointer delta, so a non-increasing pair is a decode error.
pub open spec fn spec_ptrs_strictly_ascending(ptrs: Seq<u32>) -> bool {
    forall|k: int| 0 <= k < ptrs.len() - 1 ==> #[trigger] ptrs[k + 1] > ptrs[k]
}

/// Non-decreasing offsets, as the audio table requires.
pub open spec fn spec_ptrs_ascending(ptrs: Seq<u32>) -> bool {
    forall|k: int| 0 <= k < ptrs.len() - 1 ==> #[trigger] ptrs[k + 1] >= ptrs[k]
}

/// Non-decreasing adjacent offsets give non-decreasing offsets overall.
pub proof fn lemma_ascending_le(ptrs: Seq<u32>, i: int, j: int)
    requires
        spec_ptrs_ascending(ptrs),
        0 <= i <= j < ptrs.len(),
    ensures
        ptrs[i] <= ptrs[j],
    decreases j - i,
{
    if i < j {
        lemma_ascending_le(ptrs, i, j - 1);
        assert(ptrs[j - 1 + 1] >= ptrs[j - 1]);
    }
}

/// Strictly ascending offsets are in particular non-decreasing.
pub proof fn lemma_strict_implies_ascending(ptrs: Seq<u32>)
    requires
        spec_ptrs_strictly_ascending(ptrs),
    ensures
        spec_ptrs_ascending(ptrs),
{
}

/// The byte span of blob `k`: from its offset up to the next offset, or,
/// for the final blob, up to `end_abs`.
pub open spec fn spec_blob_at(b: Seq<u8>, base: int, ptrs: Seq<u32>, end_abs: int, k: int) -> Seq<
    u8,
>
    recommends
        0 <= k < ptrs.len(),
{
    let start = base + ptrs[k];
    let end = if k < ptrs.len() - 1 {
        base + ptrs[k + 1]
    } else {
        end_abs
    };
    b.subrange(start, end)
}

/// Decodes a sprite array at `base`: its pointer table, then each blob's
/// span from exact pointer deltas, the final blob bounded by the script
/// section start. Non-ascending offsets are a decode error.
pub open spec fn spec_parse_sprite_array(b: Seq<u8>, base: int, script_abs: int) -> Option<
    Seq<Seq<u8>>,
> {
    match spec_read_ptr_table(b, base, false) {
        None => None,
        Some(t) => {
            let ptrs = t.0;
            if ptrs.len() == 0 {
                Some(Seq::empty())
            } else if !spec_ptrs_strictly_ascending(ptrs) {
                None
            } else if !(base + ptrs[ptrs.len() - 1] <= script_abs && script_abs <= b.len()) {
                None
            } else {
                Some(
                    Seq::new(ptrs.len(), |k: int| spec_blob_at(b, base, ptrs, script_abs, k)),
                )
            }
        },
    }
}

/// Decodes a sprite array.
pub fn parse_sprite_array(b: &[u8], base: usize, script_abs: u64) -> (r: Result<
    GGXXSpriteArray,
    Error,
>)
    requires
        base <= b@.len(),
        b@.len() <= 0xFFFFFFFF,
    ensures
        match spec_parse_sprite_array(b@, base as int, script_abs as int) {
            Some(sm) => r matches Ok(o) && o@ == sm,
            None => r matches Err(e) && e.is_parser(),
        },
{
    let n_total: usize = b.len();
    match read_ptr_table(b, base, false) {
        Err(e) => Err(e),
        Ok((ptrs, _end)) => {
            let n = ptrs.len();
            if n == 0 {
                proof {
                    assert(spec_blobs_view(Seq::<Vec<u8>>::empty()) =~= Seq::<Seq<u8>>::empty());
                }
                return Ok(GGXXSpriteArray { sprite_entries: Vec::new() });
            }
            let mut k: usize = 0;
            while k < n - 1
                invariant
                    n == ptrs@.len(),
                    n >= 1,
                    k <= n - 1,
                    base <= b@.len(),
                    spec_read_ptr_table(b@, base as int, false) matches Some(t) && t.0 == ptrs@,
                    forall|j: int| 0 <= j < k ==> #[trigger] ptrs@[j + 1] > ptrs@[j],
                decreases n - k,
            {
                if ptrs[k + 1] <= ptrs[k] {
                    proof {
                        assert(!spec_ptrs_strictly_ascending(ptrs@));
                    }
                    return Err(
                        Error::Parser("sprite array: offsets not strictly ascending".to_string()),
                    );
                }
                k = k + 1;
            }
            proof {
                assert(spec_ptrs_strictly_ascending(ptrs@));
                lemma_strict_implies_ascending(ptrs@);
            }
            let last = ptrs[n - 1];
            if script_abs > (n_total as u64) {
                return Err(Error::Parser("sprite array: script bound past input".to_string()));
            }
            if script_abs < (base as u64) {
                return Err(Error::Parser("sprite array: script bound before table".to_string()));
            }
            let sa = script_abs as usize;
            if (last as u64) > ((sa - base) as u64) {
                return Err(Error::Parser("sprite array: final blob has no span".to_string()));
            }
            let ghost sm = spec_parse_sprite_array(b@, base as int, script_abs as int)->Some_0;
            let mut entries: Vec<Vec<u8>> = Vec::new();
            let mut k2: usize = 0;
            while k2 < n
                invariant
                    n == ptrs@.len(),
                    n >= 1,
                    k2 <= n,
                    base <= b@.len(),
                    n_total == b@.len(),
                    sa <= n_total,
                    base + ptrs@[n - 1] <= sa,
                    spec_ptrs_strictly_ascending(ptrs@),
                    spec_ptrs_ascending(ptrs@),
                    sm == spec_parse_sprite_array(b@, base as int, sa as int)->Some_0,
                    sm.len() == n,
                    forall|j: int|
                        0 <= j < n ==> sm[j] == spec_blob_at(b@, base as int, ptrs@, sa as int, j),
                    entries@.len() == k2,
                    forall|j: int| 0 <= j < k2 ==> entries@[j]@ == sm[j],
                decreases n - k2,
            {
                proof {
                    lemma_ascending_le(ptrs@, k2 as int, (n - 1) as int);
                    if k2 < n - 1 {
                        lemma_ascending_le(ptrs@, (k2 + 1) as int, (n - 1) as int);
                    }
                }
                let start = base + (ptrs[k2] as usize);
                let end = if k2 < n - 1 {
                    base + (ptrs[k2 + 1] as usize)
                } else {
                    sa
                };
                let chunk = vstd::slice::slice_subrange(b, start, end);
                let blob = vstd::slice::slice_to_vec(chunk);
                entries.push(blob);
                k2 = k2 + 1;
            }
            let arr = GGXXSpriteArray { sprite_entries: entries };
            proof {
                assert(arr@ =~= sm);
            }
            Ok(arr)
        },
    }
}

/// Decodes the audio section at `base`: a big-endian pointer table, each
/// blob's span from pointer deltas, the final blob running to the end of
/// the input.
pub open spec fn spec_parse_audio_array(b: Seq<u8>, base: int) -> Option<Seq<Seq<u8>>> {
    match spec_read_ptr_table(b, base, true) {
        None => None,
        Some(t) => {
            let ptrs = t.0;
            if ptrs.len() == 0 {
                Some(Seq::empty())
            } else if !spec_ptrs_ascending(ptrs) {
                None
            } else if !(base + ptrs[ptrs.len() - 1] <= b.len()) {
                None
            } else {
                Some(
                    Seq::new(
                        ptrs.len(),
                        |k: int| spec_blob_at(b, base, ptrs, b.len() as int, k),
                    ),
                )
            }
        },
    }
}

/// Decodes the audio section.
pub fn parse_audio_array(b: &[u8], base: usize) -> (r: Result<GGXXAudioArray, Error>)
    requires
        base <= b@.len(),
        b@.len() <= 0xFFFFFFFF,
    ensures
        match spec_parse_audio_array(b@, base as int) {
            Some(am) => r matches Ok(o) && o@ == am,
            None => r matches Err(e) && e.is_parser(),
        },
{
    let n_total: usize = b.len();
    match read_ptr_table(b, base, true) {
        Err(e) => Err(e),
        Ok((ptrs, _end)) => {
            let n = ptrs.len();
            if n == 0 {
                proof {
                    assert(spec_blobs_view(Seq::<Vec<u8>>::empty()) =~= Seq::<Seq<u8>>::empty());
                }
                return Ok(GGXXAudioArray { audio_entries: Vec::new() });
            }
            let mut k: usize = 0;
            while k < n - 1
                invariant
                    n == ptrs@.len(),
                    n >= 1,
                    k <= n - 1,
                    base <= b@.len(),
                    spec_read_ptr_table(b@, base as int, true) matches Some(t) && t.0 == ptrs@,
                    forall|j: int| 0 <= j < k ==> #[trigger] ptrs@[j + 1] >= ptrs@[j],
                decreases n - k,
            {
                if ptrs[k + 1] < ptrs[k] {
                    proof {
                        assert(!spec_ptrs_ascending(ptrs@));
                    }
                    return Err(Error::Parser("audio array: offsets descend".to_string()));
                }
                k = k + 1;
            }
            proof {
                assert(spec_ptrs_ascending(ptrs@));
            }
            let last = ptrs[n - 1];
            let rem = n_total - base;
            if (last as u64) > (rem as u64) {
                return Err(Error::Parser("audio array: final blob has no span".to_string()));
            }
            let ghost am = spec_parse_audio_array(b@, base as int)->Some_0;
            let mut entries: Vec<Vec<u8>> = Vec::new();
            let mut k2: usize = 0;
            while k2 < n
                invariant
                    n == ptrs@.len(),
                    n >= 1,
                    k2 <= n,
                    base <= b@.len(),
                    n_total == b@.len(),
                    base + ptrs@[n - 1] <= n_total,
                    spec_ptrs_ascending(ptrs@),
                    am == spec_parse_audio_array(b@, base as int)->Some_0,
                    am.len() == n,
                    forall|j: int|
                        0 <= j < n ==> am[j] == spec_blob_at(
                            b@,
                            base as int,
                            ptrs@,
                            b@.len() as int,
                            j,
                        ),
                    entries@.len() == k2,
                    forall|j: int| 0 <= j < k2 ==> entries@[j]@ == am[j],
                decreases n - k2,
            {
                proof {
                    lemma_ascending_le(ptrs@, k2 as int, (n - 1) as int);
                    if k2 < n - 1 {
                        lemma_ascending_le(ptrs@, (k2 + 1) as int, (n - 1) as int);
                    }
                }
                let start = base + (ptrs[k2] as usize);
                let end = if k2 < n - 1 {
                    base + (ptrs[k2 + 1] as usize)
                } else {
                    n_total
                };
                let chunk = vstd::slice::slice_subrange(b, start, end);
                let blob = vstd::slice::slice_to_vec(chunk);
                entries.push(blob);
                k2 = k2 + 1;
            }
            let arr = GGXXAudioArray { audio_entries: entries };
            proof {
                assert(arr@ =~= am);
            }
            Ok(arr)
        },
    }
}

// ---------------------------------------------------------------------------
// Decoding: entries and the whole binary
// ---------------------------------------------------------------------------

/// Decodes the player entry at `epos`: four local pointers, then the cell
/// array, the sprite array, the player script body, and the palette
/// array, each at its pointer relative to the entry start.
#[verifier::opaque]
pub open spec fn spec_parse_player_entry(b: Seq<u8>, epos: int) -> Option<PlayerModel> {
    if epos < 0 || epos + 16 > b.len() {
        None
    } else {
        let cell_ptr = u32_le_at(b, epos);
        let sprite_ptr = u32_le_at(b, epos + 4);
        let script_ptr = u32_le_at(b, epos + 8);
        let palette_ptr = u32_le_at(b, epos + 12);
        match spec_parse_cell_array(b, epos + cell_ptr) {
            None => None,
            Some(cells) => match spec_parse_sprite_array(
                b,
                epos + sprite_ptr,
                epos + script_ptr,
            ) {
                None => None,
                Some(sprites) => match spec_parse_player_script(b, epos + script_ptr) {
                    None => None,
                    Some(t) => match spec_parse_palette_array(b, epos + palette_ptr) {
                        None => None,
                        Some(palettes) => Some(
                            PlayerModel { cells, sprites, script: t.0, palettes },
                        ),
                    },
                },
            },
        }
    }
}

/// Decodes a game-object entry at `epos`: the same local table with the
/// fourth slot unused, and an object script body.
#[verifier::opaque]
pub open spec fn spec_parse_obj_entry(b: Seq<u8>, epos: int) -> Option<ObjModel> {
    if epos < 0 || epos + 16 > b.len() {
        None
    } else {
        let cell_ptr = u32_le_at(b, epos);
        let sprite_ptr = u32_le_at(b, epos + 4);
        let script_ptr = u32_le_at(b, epos + 8);
        match spec_parse_cell_array(b, epos + cell_ptr) {
            None => None,
            Some(cells) => match spec_parse_sprite_array(
                b,
                epos + sprite_ptr,
                epos + script_ptr,
            ) {
                None => None,
                Some(sprites) => match spec_parse_obj_script(b, epos + script_ptr) {
                    None => None,
                    Some(t) => Some(ObjModel { cells, sprites, script: t.0 }),
                },
            },
        }
    }
}

/// Decodes the player entry.
pub fn parse_player_entry(b: &[u8], epos: usize) -> (r: Result<GGXXPlayerEntry, Error>)
    requires
        epos <= b@.len(),
        b@.len() <= 0xFFFFFFFF,
    ensures
        match spec_parse_player_entry(b@, epos as int) {
            Some(pm) => r matches Ok(o) && o@ == pm,
            None => r matches Err(e) && e.is_parser(),
        },
{
    proof {
        reveal(spec_parse_player_entry);
    }
    let n_total: usize = b.len();
    if n_total - epos < 16 {
        return Err(Error::Parser("player entry: truncated header".to_string()));
    }
    let cell_ptr = read_u32_le(b, epos);
    let sprite_ptr = read_u32_le(b, epos + 4);
    let script_ptr = read_u32_le(b, epos + 8);
    let palette_ptr = read_u32_le(b, epos + 12);
    let rem = n_total - epos;
    if (cell_ptr as u64) > (rem as u64) {
        proof {
            assert(spec_parse_cell_array(b@, epos + cell_ptr) is None);
        }
        return Err(Error::Parser("player entry: cell pointer out of range".to_string()));
    }
    let cell_array = match parse_cell_array(b, epos + (cell_ptr as usize)) {
        Err(e) => {
            return Err(e);
        },
        Ok(a) => a,
    };
    let script_abs: u64 = (epos as u64) + (script_ptr as u64);
    if (sprite_ptr as u64) > (rem as u64) {
        proof {
            assert(spec_read_ptr_table(b@, epos + sprite_ptr, false) is None);
            assert(spec_parse_sprite_array(b@, epos + sprite_ptr, epos + script_ptr) is None);
        }
        return Err(Error::Parser("player entry: sprite pointer out of range".to_string()));
    }
    let sprite_array = match parse_sprite_array(b, epos + (sprite_ptr as usize), script_abs) {
        Err(e) => {
            return Err(e);
        },
        Ok(a) => a,
    };
    if (script_ptr as u64) > (rem as u64) {
        proof {
            assert(spec_parse_play_data(b@, epos + script_ptr) is None);
            assert(spec_parse_player_script(b@, epos + script_ptr) is None);
        }
        return Err(Error::Parser("player entry: script pointer out of range".to_string()));
    }
    let script_data = match parse_player_script(b, epos + (script_ptr as usize)) {
        Err(e) => {
            return Err(e);
        },
        Ok((s, _p)) => s,
    };
    if (palette_ptr as u64) > (rem as u64) {
        proof {
            assert(spec_parse_palette_array(b@, epos + palette_ptr) is None);
        }
        return Err(Error::Parser("player entry: palette pointer out of range".to_string()));
    }
    let palette_array = match parse_palette_array(b, epos + (palette_ptr as usize)) {
        Err(e) => {
            return Err(e);
        },
        Ok(a) => a,
    };
    Ok(GGXXPlayerEntry { cell_array, sprite_array, script_data, palette_array })
}

/// Decodes a game-object entry.
pub fn parse_obj_entry(b: &[u8], epos: usize) -> (r: Result<GGXXObjEntry, Error>)
    requires
        epos <= b@.len(),
        b@.len() <= 0xFFFFFFFF,
    ensures
        match spec_parse_obj_entry(b@, epos as int) {
            Some(om) => r matches Ok(o) && o@ == om,
            None => r matches Err(e) && e.is_parser(),
        },
{
    proof {
        reveal(spec_parse_obj_entry);
    }
    let n_total: usize = b.len();
    if n_total - epos < 16 {
        return Err(Error::Parser("object entry: truncated header".to_string()));
    }
    let cell_ptr = read_u32_le(b, epos);
    let sprite_ptr = read_u32_le(b, epos + 4);
    let script_ptr = read_u32_le(b, epos + 8);
    let rem = n_total - epos;
    if (cell_ptr as u64) > (rem as u64) {
        proof {
            assert(spec_parse_cell_array(b@, epos + cell_ptr) is None);
        }
        return Err(Error::Parser("object entry: cell pointer out of range".to_string()));
    }
    let cell_array = match parse_cell_array(b, epos + (cell_ptr as usize)) {
        Err(e) => {
            return Err(e);
        },
        Ok(a) => a,
    };
    let script_abs: u64 = (epos as u64) + (script_ptr as u64);
    if (sprite_ptr as u64) > (rem as u64) {
        proof {
            assert(spec_read_ptr_table(b@, epos + sprite_ptr, false) is None);
            assert(spec_parse_sprite_array(b@, epos + sprite_ptr, epos + script_ptr) is None);
        }
        return Err(Error::Parser("object entry: sprite pointer out of range".to_string()));
    }
    let sprite_array = match parse_sprite_array(b, epos + (sprite_ptr as usize), script_abs) {
        Err(e) => {
            return Err(e);
        },
        Ok(a) => a,
    };
    if (script_ptr as u64) > (rem as u64) {
        proof {
            assert(spec_parse_actions(b@, epos + script_ptr) is None);
            assert(spec_parse_obj_script(b@, epos + script_ptr) is None);
        }
        return Err(Error::Parser("object entry: script pointer out of range".to_string()));
    }
    let script_data = match parse_obj_script(b, epos + (script_ptr as usize)) {
        Err(e) => {
            return Err(e);
        },
        Ok((s, _p)) => s,
    };
    Ok(GGXXObjEntry { cell_array, sprite_array, script_data })
}

/// An entry whose header runs past the input fails to decode.
pub proof fn lemma_player_entry_oob(b: Seq<u8>, epos: int)
    requires
        epos + 16 > b.len(),
    ensures
        spec_parse_player_entry(b, epos) is None,
{
    reveal(spec_parse_player_entry);
}

/// An entry whose header runs past the input fails to decode.
pub proof fn lemma_obj_entry_oob(b: Seq<u8>, epos: int)
    requires
        epos + 16 > b.len(),
    ensures
        spec_parse_obj_entry(b, epos) is None,
{
    reveal(spec_parse_obj_entry);
}

/// Decodes the game objects named by the top-level table slots.
pub open spec fn spec_parse_objects(b: Seq<u8>, ptrs: Seq<u32>) -> Option<Seq<ObjModel>>
    decreases ptrs.len(),
{
    if ptrs.len() == 0 {
        Some(Seq::empty())
    } else {
        match spec_parse_obj_entry(b, ptrs[0] as int) {
            None => None,
            Some(o) => match spec_parse_objects(b, ptrs.drop_first()) {
                None => None,
                Some(rest) => Some(seq![o] + rest),
            },
        }
    }
}

/// Decodes a whole object binary: the player pointer, the top-level
/// sentinel table whose final pre-sentinel slot names the audio section,
/// the player entry, each game object, then the big-endian audio table.
pub open spec fn spec_parse_obj_bin(b: Seq<u8>) -> Option<BinModel> {
    if b.len() < 8 || b.len() > 0xFFFFFFFF {
        None
    } else {
        let player_ptr = u32_le_at(b, 0);
        match spec_read_ptr_table(b, 4, false) {
            None => None,
            Some(t) => {
                let ptrs = t.0;
                let audio_ptr = u32_le_at(b, t.1 - 8);
                let obj_ptrs = if ptrs.len() == 0 {
                    ptrs
                } else {
                    ptrs.take(ptrs.len() - 1)
                };
                match spec_parse_player_entry(b, player_ptr as int) {
                    None => None,
                    Some(player) => match spec_parse_objects(b, obj_ptrs) {
                        None => None,
                        Some(objects) => match spec_parse_audio_array(b, audio_ptr as int) {
                            None => None,
                            Some(audio) => Some(BinModel { player, objects, audio }),
                        },
                    },
                }
            },
        }
    }
}

impl GGXXObjBin {
    /// Decodes a whole object binary from its raw bytes.
    #[verifier::rlimit(100)]
    pub fn parse(input: &[u8]) -> (r: Result<GGXXObjBin, Error>)
        ensures
            match spec_parse_obj_bin(input@) {
                Some(m) => r matches Ok(o) && o@ == m,
                None => r matches Err(e) && e.is_parser(),
            },
    {
        let n_total: usize = input.len();
        if n_total < 8 {
            return Err(Error::Parser("object binary: truncated header".to_string()));
        }
        if n_total > 0xFFFFFFFF {
            return Err(Error::Parser("object binary: input too large".to_string()));
        }
        let player_ptr = read_u32_le(input, 0);
        let (ptrs, tend) = match read_ptr_table(input, 4, false) {
            Err(e) => {
                return Err(e);
            },
            Ok(t) => t,
        };
        proof {
            lemma_read_ptr_table_advances(input@, 4, false);
        }
        let audio_ptr = read_u32_le(input, tend - 8);
        if (player_ptr as u64) > (n_total as u64) {
            proof {
                lemma_player_entry_oob(input@, player_ptr as int);
            }
            return Err(Error::Parser("object binary: player pointer out of range".to_string()));
        }
        let player = match parse_player_entry(input, player_ptr as usize) {
            Err(e) => {
                return Err(e);
            },
            Ok(p) => p,
        };
        let ghost obj_ptrs: Seq<u32> = if ptrs@.len() == 0 {
            ptrs@
        } else {
            ptrs@.take(ptrs@.len() - 1)
        };
        let objs_count = if ptrs.len() == 0 {
            0
        } else {
            ptrs.len() - 1
        };
        proof {
            assert(obj_ptrs.len() == objs_count);
            assert(obj_ptrs.skip(0) =~= obj_ptrs);
        }
        let mut objects: Vec<GGXXObjEntry> = Vec::new();
        let mut k: usize = 0;
        while k < objs_count
            invariant
                k <= objs_count,
                n_total == input@.len(),
                8 <= n_total <= 0xFFFFFFFF,
                spec_read_ptr_table(input@, 4, false) matches Some(t) && t.0 == ptrs@,
                obj_ptrs == (if ptrs@.len() == 0 {
                    ptrs@
                } else {
                    ptrs@.take(ptrs@.len() - 1)
                }),
                objs_count <= ptrs@.len(),
                obj_ptrs.len() == objs_count,
                forall|j: int| 0 <= j < objs_count ==> obj_ptrs[j] == ptrs@[j],
                match spec_parse_objects(input@, obj_ptrs.skip(k as int)) {
                    Some(rest) => spec_parse_objects(input@, obj_ptrs) == Some(
                        spec_objects_view(objects@) + rest,
                    ),
                    None => spec_parse_objects(input@, obj_ptrs) is None,
                },
            decreases objs_count - k,
        {
            let ptr = ptrs[k];
            proof {
                assert(obj_ptrs.skip(k as int)[0] == obj_ptrs[k as int]);
                assert(obj_ptrs.skip(k as int).drop_first() =~= obj_ptrs.skip(k + 1 as int));
            }
            if (ptr as u64) > (n_total as u64) {
                proof {
                    lemma_obj_entry_oob(input@, obj_ptrs[k as int] as int);
                    assert(spec_parse_objects(input@, obj_ptrs.skip(k as int)) is None);
                    assert(spec_parse_objects(input@, obj_ptrs) is None);
                    assert(spec_parse_obj_bin(input@) is None);
                }
                return Err(
                    Error::Parser("object binary: object pointer out of range".to_string()),
                );
            }
            match parse_obj_entry(input, ptr as usize) {
                Err(e) => {
                    proof {
                        assert(spec_parse_obj_entry(input@, obj_ptrs[k as int] as int) is None);
                        assert(spec_parse_objects(input@, obj_ptrs.skip(k as int)) is None);
                        assert(spec_parse_objects(input@, obj_ptrs) is None);
                        assert(spec_parse_obj_bin(input@) is None);
                    }
                    return Err(e);
                },
                Ok(entry) => {
                    let ghost o0 = spec_objects_view(objects@);
                    let ghost em = entry@;
                    objects.push(entry);
                    proof {
                        assert(spec_objects_view(objects@) =~= o0.push(em));
                        match spec_parse_objects(input@, obj_ptrs.skip(k + 1 as int)) {
                            Some(rest2) => {
                                assert(spec_parse_objects(input@, obj_ptrs.skip(k as int))
                                    == Some(seq![em] + rest2));
                                assert(o0 + (seq![em] + rest2) =~= spec_objects_view(objects@)
                                    + rest2);
                            },
                            None => {
                                assert(spec_parse_objects(input@, obj_ptrs.skip(k as int))
                                    is None);
                            },
                        }
                    }
                },
            }
            k = k + 1;
        }
        proof {
            assert(obj_ptrs.skip(objs_count as int) =~= Seq::<u32>::empty());
            assert(spec_parse_objects(input@, obj_ptrs.skip(objs_count as int)) == Some(
                Seq::<ObjModel>::empty(),
            ));
            assert(spec_objects_view(objects@) + Seq::<ObjModel>::empty() =~= spec_objects_view(
                objects@,
            ));
        }
        if (audio_ptr as u64) > (n_total as u64) {
            proof {
                assert(spec_read_ptr_table(input@, audio_ptr as int, true) is None);
                assert(spec_parse_audio_array(input@, audio_ptr as int) is None);
            }
            return Err(Error::Parser("object binary: audio pointer out of range".to_string()));
        }
        let audio_array = match parse_audio_array(input, audio_ptr as usize) {
            Err(e) => {
                return Err(e);
            },
            Ok(a) => a,
        };
        Ok(GGXXObjBin { player, objects, audio_array })
    }
}


/// Decoding is a pure function of the input bytes: two decodes of the
/// same bytes yield structurally equal models, so edit-free cycles are
/// idempotent.
pub proof fn lemma_decode_deterministic(b: Seq<u8>, r1: BinModel, r2: BinModel)
    requires
        spec_parse_obj_bin(b) == Some(r1),
        spec_parse_obj_bin(b) == Some(r2),
    ensures
        r1 == r2,
{
}

} // verus!
