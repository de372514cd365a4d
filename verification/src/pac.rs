//! PAC archive format support for most modern arcsys fighters: the entry
//! model and the byte-exact rebuilder.

use vstd::prelude::*;
use vstd::string::StringSliceAdditionalSpecFns;
use vstd::utf8::encode_utf8;
use crate::helpers::{
    u32_le_of, u32_le_at, byte_repeat, push_u32_le, push_slice, push_repeat, needed_to_align,
    spec_needed_to_align, spec_needed_to_align_with_excess, spec_pad_to_nearest_with_excess,
    spec_fixed_bytes, string_to_fixed_bytes, spec_find_nul, lemma_find_nul, find_nul_in, read_u8,
    read_u32_le,
};
use crate::error::Error;
use crate::zlib::{inflate_of, inflate_ok};

verus! {

/// Style bit: names carry no fixed length in the header.
pub const PAC_STYLE_AUTO_LEN_FILENAME: u32 = 0x1;

/// Style bit: entries carry only a hash, no name.
pub const PAC_STYLE_ID_ONLY: u32 = 0x2;

/// Style bit: stored names had their directory part cut.
pub const PAC_STYLE_PATH_CUT: u32 = 0x10;

/// Style bit: long name fields.
pub const PAC_STYLE_LONG_NAME: u32 = 0x20000000;

/// Style bit: entry metadata is packed without alignment padding.
pub const PAC_STYLE_HASH_SORT: u32 = 0x40000000;

/// Style bit: the second header version, with a hash slot per entry.
pub const PAC_STYLE_VERSION2: u32 = 0x80000000;

/// The style word of a PAC archive: a set of the style bits above.
#[derive(Clone, Copy, PartialEq, Eq, Structural, Debug)]
pub struct PacStyle {
    pub bits: u32,
}

impl PacStyle {
    /// Whether every bit of `mask` is set.
    pub fn contains(&self, mask: u32) -> (r: bool)
        ensures
            r == (self.bits & mask == mask),
    {
        self.bits & mask == mask
    }

    /// Whether any bit of `mask` is set.
    pub fn intersects(&self, mask: u32) -> (r: bool)
        ensures
            r == (self.bits & mask != 0),
    {
        self.bits & mask != 0
    }
}

/// The compression wrapper used on the pac.
#[derive(Clone, Copy, PartialEq, Eq, Structural, Debug)]
pub enum Compression {
    /// No whole-file compression
    Uncompressed,
    /// The zlib wrapper found in some crossover fighters
    Zcmp,
    /// The zlib wrapper found in Blazblue Centralfiction
    DfasFPac,
}

/// The running filename hash: each byte folds in over the previous value,
/// modulo the 32-bit space.
pub open spec fn spec_filename_hash_fold(b: Seq<u8>, acc: u32) -> u32
    decreases b.len(),
{
    if b.len() == 0 {
        acc
    } else {
        spec_filename_hash_fold(b.drop_first(), ((acc * 131 + b[0]) % 0x100000000) as u32)
    }
}

/// The hash of a filename: its bytes folded left with multiplier 131.
pub open spec fn spec_filename_hash(b: Seq<u8>) -> u32 {
    spec_filename_hash_fold(b, 0)
}

/// Hashes a filename for entry identification.
pub fn arcsys_filename_hash(name: &str) -> (r: u32)
    ensures
        r == spec_filename_hash(name.spec_bytes()),
{
    let bytes = name.as_bytes();
    let n = bytes.len();
    let mut acc: u32 = 0;
    let mut k: usize = 0;
    proof {
        assert(bytes@.skip(0) =~= bytes@);
    }
    while k < n
        invariant
            k <= n,
            n == bytes@.len(),
            spec_filename_hash_fold(bytes@.skip(k as int), acc) == spec_filename_hash(bytes@),
        decreases n - k,
    {
        proof {
            assert(bytes@.skip(k as int)[0] == bytes@[k as int]);
            assert(bytes@.skip(k as int).drop_first() =~= bytes@.skip(k + 1 as int));
        }
        acc = (((acc as u64) * 131 + (bytes[k] as u64)) % 0x100000000) as u32;
        k = k + 1;
    }
    proof {
        assert(bytes@.skip(n as int) =~= Seq::<u8>::empty());
    }
    acc
}

/// How an entry is identified: by a filename, or only by a hash.
pub enum EntryIdentifier {
    /// A filename, hashed on demand
    Name(String),
    /// A bare hash, as stored in archives without names
    Hash(u32),
}

/// The model of an entry identifier.
pub ghost enum EntryIdentifierModel {
    Name(Seq<char>),
    Hash(u32),
}

impl View for EntryIdentifier {
    type V = EntryIdentifierModel;

    open spec fn view(&self) -> EntryIdentifierModel {
        match self {
            EntryIdentifier::Name(s) => EntryIdentifierModel::Name(s@),
            EntryIdentifier::Hash(h) => EntryIdentifierModel::Hash(*h),
        }
    }
}

/// One archive entry: its identifier and its raw contents.
pub struct PacEntry {
    identifier: EntryIdentifier,
    pub contents: Vec<u8>,
}

/// The model of an archive entry.
pub ghost struct PacEntryModel {
    pub identifier: EntryIdentifierModel,
    pub contents: Seq<u8>,
}

impl View for PacEntry {
    type V = PacEntryModel;

    closed spec fn view(&self) -> PacEntryModel {
        PacEntryModel { identifier: self.identifier@, contents: self.contents@ }
    }
}

/// The hash an entry model answers to: the hash of its name, or the
/// stored hash.
pub open spec fn spec_entry_hash(e: PacEntryModel) -> u32 {
    match e.identifier {
        EntryIdentifierModel::Name(n) => spec_filename_hash(encode_utf8(n)),
        EntryIdentifierModel::Hash(h) => h,
    }
}

/// The name byte length of an entry model, zero when it has none.
pub open spec fn spec_entry_name_len(e: PacEntryModel) -> int {
    match e.identifier {
        EntryIdentifierModel::Name(n) => encode_utf8(n).len() as int,
        EntryIdentifierModel::Hash(h) => 0,
    }
}

impl PacEntry {
    /// Creates an entry identified by a filename.
    pub fn new_named(name: String, contents: Vec<u8>) -> (r: Self)
        ensures
            r@.identifier == EntryIdentifierModel::Name(name@),
            r@.contents == contents@,
    {
        PacEntry { identifier: EntryIdentifier::Name(name), contents }
    }

    /// Create a new PacEntry that does not have a set filename, only using
    /// a hash for identification.
    pub fn new_unnamed(hash: u32, contents: Vec<u8>) -> (r: Self)
        ensures
            r@.identifier == EntryIdentifierModel::Hash(hash),
            r@.contents == contents@,
    {
        PacEntry { identifier: EntryIdentifier::Hash(hash), contents }
    }

    /// Get the hash identifier for the entry: the hash of its filename,
    /// or the stored hash when it has no name.
    pub fn hash_id(&self) -> (r: u32)
        ensures
            r == spec_entry_hash(self@),
    {
        match &self.identifier {
            EntryIdentifier::Name(name) => arcsys_filename_hash(name.as_str()),
            EntryIdentifier::Hash(hash) => *hash,
        }
    }

    /// Get the filename of the entry; `None` for a hash-only entry.
    pub fn name(&self) -> (r: Option<&str>)
        ensures
            match r {
                Some(s) => self@.identifier matches EntryIdentifierModel::Name(n) && s@ == n,
                None => self@.identifier is Hash,
            },
    {
        match &self.identifier {
            EntryIdentifier::Name(name) => Some(name.as_str()),
            EntryIdentifier::Hash(_) => None,
        }
    }
}

/// A PAC archive: its compression wrapper, its style word, its entries.
pub struct Pac {
    pub compression: Compression,
    pub pac_style: PacStyle,
    pub entries: Vec<PacEntry>,
}

/// The model of a PAC archive.
pub ghost struct PacModel {
    pub compression: Compression,
    pub pac_style: PacStyle,
    pub entries: Seq<PacEntryModel>,
}

/// The models of a sequence of entries.
pub open spec fn spec_pac_entries_view(s: Seq<PacEntry>) -> Seq<PacEntryModel> {
    s.map_values(|e: PacEntry| e@)
}

impl View for Pac {
    type V = PacModel;

    open spec fn view(&self) -> PacModel {
        PacModel {
            compression: self.compression,
            pac_style: self.pac_style,
            entries: spec_pac_entries_view(self.entries@),
        }
    }
}

/// The longest name length among the entries, nameless entries counting
/// as zero.
pub open spec fn spec_pac_max_name(s: Seq<PacEntryModel>) -> int
    decreases s.len(),
{
    if s.len() == 0 {
        0
    } else {
        let m = spec_pac_max_name(s.drop_first());
        if spec_entry_name_len(s[0]) >= m {
            spec_entry_name_len(s[0])
        } else {
            m
        }
    }
}

/// Appending an entry takes the maximum with its name length.
pub proof fn lemma_pac_max_name_push(s: Seq<PacEntryModel>, e: PacEntryModel)
    ensures
        spec_pac_max_name(s.push(e)) == (if spec_entry_name_len(e) >= spec_pac_max_name(s) {
            spec_entry_name_len(e)
        } else {
            spec_pac_max_name(s)
        }),
    decreases s.len(),
{
    if s.len() == 0 {
        assert(s.push(e).drop_first() =~= Seq::<PacEntryModel>::empty());
        assert(s.push(e)[0] == e);
        assert(spec_pac_max_name(Seq::<PacEntryModel>::empty()) == 0);
        assert(spec_pac_max_name(s.push(e)) == (if spec_entry_name_len(e) >= 0 {
            spec_entry_name_len(e)
        } else {
            0
        }));
    } else {
        assert(s.push(e)[0] == s[0]);
        assert(s.push(e).drop_first() =~= s.drop_first().push(e));
        lemma_pac_max_name_push(s.drop_first(), e);
        assert(spec_pac_max_name(s.push(e)) == (if spec_entry_name_len(s[0]) >= spec_pac_max_name(
            s.drop_first().push(e),
        ) {
            spec_entry_name_len(s[0])
        } else {
            spec_pac_max_name(s.drop_first().push(e))
        }));
        assert(spec_pac_max_name(s) == (if spec_entry_name_len(s[0]) >= spec_pac_max_name(
            s.drop_first(),
        ) {
            spec_entry_name_len(s[0])
        } else {
            spec_pac_max_name(s.drop_first())
        }));
    }
}

/// Every entry's name length is bounded by the maximum.
pub proof fn lemma_pac_max_name_ge(s: Seq<PacEntryModel>, j: int)
    requires
        0 <= j < s.len(),
    ensures
        spec_entry_name_len(s[j]) <= spec_pac_max_name(s),
    decreases s.len(),
{
    if j > 0 {
        lemma_pac_max_name_ge(s.drop_first(), j - 1);
    }
}

/// The fixed name-field width of the archive: zero for hash-only
/// archives, otherwise the longest name plus its terminator, padded past
/// a 32- or 4-byte boundary by header version.
pub open spec fn spec_pac_string_size(m: PacModel) -> int {
    if m.pac_style.bits & PAC_STYLE_ID_ONLY == PAC_STYLE_ID_ONLY {
        0
    } else if m.pac_style.bits & PAC_STYLE_VERSION2 == PAC_STYLE_VERSION2 {
        spec_pad_to_nearest_with_excess(spec_pac_max_name(m.entries) + 1, 0x20)
    } else {
        spec_pad_to_nearest_with_excess(spec_pac_max_name(m.entries) + 1, 4)
    }
}

/// The alignment step of the data section: 4 for hash-only archives, 16
/// otherwise.
pub open spec fn spec_pac_data_align(style: PacStyle) -> int {
    if style.bits & PAC_STYLE_ID_ONLY == PAC_STYLE_ID_ONLY {
        4
    } else {
        0x10
    }
}

/// One entry's span in the data section.
pub open spec fn spec_pac_data_chunk(e: PacEntryModel, style: PacStyle) -> Seq<u8> {
    e.contents + byte_repeat(
        0x00,
        spec_needed_to_align(e.contents.len() as int, spec_pac_data_align(style)),
    )
}

/// The concatenated data spans of a sequence of entries.
pub open spec fn spec_pac_datas(s: Seq<PacEntryModel>, style: PacStyle) -> Seq<u8>
    decreases s.len(),
{
    if s.len() == 0 {
        Seq::empty()
    } else {
        spec_pac_data_chunk(s[0], style) + spec_pac_datas(s.drop_first(), style)
    }
}

/// Appending one entry appends its data span.
pub proof fn lemma_pac_datas_push(s: Seq<PacEntryModel>, e: PacEntryModel, style: PacStyle)
    ensures
        spec_pac_datas(s.push(e), style) == spec_pac_datas(s, style) + spec_pac_data_chunk(
            e,
            style,
        ),
    decreases s.len(),
{
    if s.len() == 0 {
        assert(s.push(e).drop_first() =~= Seq::<PacEntryModel>::empty());
        assert(s.push(e)[0] == e);
        assert(spec_pac_datas(s.push(e), style) == spec_pac_data_chunk(e, style) + spec_pac_datas(
            s.push(e).drop_first(),
            style,
        ));
        assert(spec_pac_datas(s.push(e), style) =~= spec_pac_datas(s, style)
            + spec_pac_data_chunk(e, style));
    } else {
        assert(s.push(e)[0] == s[0]);
        assert(s.push(e).drop_first() =~= s.drop_first().push(e));
        lemma_pac_datas_push(s.drop_first(), e, style);
        assert(spec_pac_datas(s.push(e), style) == spec_pac_data_chunk(s[0], style)
            + spec_pac_datas(s.drop_first().push(e), style));
        assert(spec_pac_datas(s, style) == spec_pac_data_chunk(s[0], style) + spec_pac_datas(
            s.drop_first(),
            style,
        ));
        vstd::seq_lib::lemma_concat_associative(
            spec_pac_data_chunk(s[0], style),
            spec_pac_datas(s.drop_first(), style),
            spec_pac_data_chunk(e, style),
        );
    }
}

/// The data spans of a prefix never outgrow those of the whole sequence.
pub proof fn lemma_pac_datas_take_len(s: Seq<PacEntryModel>, style: PacStyle, k: int)
    requires
        0 <= k <= s.len(),
    ensures
        spec_pac_datas(s.take(k), style).len() <= spec_pac_datas(s, style).len(),
    decreases s.len() - k,
{
    if k == s.len() {
        assert(s.take(k) =~= s);
    } else {
        assert(s.take(k + 1) =~= s.take(k).push(s[k]));
        lemma_pac_datas_push(s.take(k), s[k], style);
        lemma_pac_datas_take_len(s, style, k + 1);
    }
}

/// The name bytes of an entry model; empty for hash-only entries.
pub open spec fn spec_entry_name_bytes(e: PacEntryModel) -> Seq<u8> {
    match e.identifier {
        EntryIdentifierModel::Name(n) => encode_utf8(n),
        EntryIdentifierModel::Hash(h) => Seq::empty(),
    }
}

/// One entry's metadata record: the fixed name field unless hash-only,
/// its index, its data offset, its size, the hash slot for version-2
/// headers, then the style's alignment padding.
pub open spec fn spec_pac_meta_chunk(
    e: PacEntryModel,
    style: PacStyle,
    ss: int,
    idx: int,
    off: int,
    cum: int,
) -> Seq<u8> {
    let name_part = if style.bits & PAC_STYLE_ID_ONLY == PAC_STYLE_ID_ONLY {
        Seq::<u8>::empty()
    } else {
        spec_fixed_bytes(spec_entry_name_bytes(e), ss)
    };
    let hash_part = if style.bits & PAC_STYLE_VERSION2 == PAC_STYLE_VERSION2 {
        u32_le_of(spec_entry_hash(e))
    } else {
        Seq::<u8>::empty()
    };
    let body = name_part + u32_le_of(idx as u32) + u32_le_of(off as u32) + u32_le_of(
        e.contents.len() as u32,
    ) + hash_part;
    let pad = if style.bits & PAC_STYLE_HASH_SORT == PAC_STYLE_HASH_SORT {
        0
    } else if style.bits & PAC_STYLE_VERSION2 == PAC_STYLE_VERSION2 {
        spec_needed_to_align(cum + body.len(), 0x10)
    } else {
        spec_needed_to_align_with_excess(cum + body.len(), 0x10)
    };
    body + byte_repeat(0x00, pad)
}

/// The concatenated metadata records, threading the entry index, the
/// running data offset and the running metadata length.
pub open spec fn spec_pac_metas(
    s: Seq<PacEntryModel>,
    style: PacStyle,
    ss: int,
    idx: int,
    off: int,
    cum: int,
) -> Seq<u8>
    decreases s.len(),
{
    if s.len() == 0 {
        Seq::empty()
    } else {
        let chunk = spec_pac_meta_chunk(s[0], style, ss, idx, off, cum);
        chunk + spec_pac_metas(
            s.drop_first(),
            style,
            ss,
            idx + 1,
            off + spec_pac_data_chunk(s[0], style).len(),
            cum + chunk.len(),
        )
    }
}

/// Appending one entry appends its metadata record at the accumulated
/// index, offset and length.
pub proof fn lemma_pac_metas_push(
    s: Seq<PacEntryModel>,
    e: PacEntryModel,
    style: PacStyle,
    ss: int,
    idx: int,
    off: int,
    cum: int,
)
    ensures
        spec_pac_metas(s.push(e), style, ss, idx, off, cum) == spec_pac_metas(
            s,
            style,
            ss,
            idx,
            off,
            cum,
        ) + spec_pac_meta_chunk(
            e,
            style,
            ss,
            idx + s.len(),
            off + spec_pac_datas(s, style).len(),
            cum + spec_pac_metas(s, style, ss, idx, off, cum).len(),
        ),
    decreases s.len(),
{
    if s.len() == 0 {
        assert(s.push(e).drop_first() =~= Seq::<PacEntryModel>::empty());
        assert(s.push(e)[0] == e);
        assert(spec_pac_metas(s, style, ss, idx, off, cum) == Seq::<u8>::empty());
        assert(spec_pac_datas(s, style).len() == 0);
        let chunk = spec_pac_meta_chunk(e, style, ss, idx, off, cum);
        assert(spec_pac_metas(s.push(e), style, ss, idx, off, cum) == chunk + spec_pac_metas(
            s.push(e).drop_first(),
            style,
            ss,
            idx + 1,
            off + spec_pac_data_chunk(e, style).len(),
            cum + chunk.len(),
        ));
        assert(spec_pac_metas(s.push(e), style, ss, idx, off, cum) =~= Seq::<u8>::empty() + chunk);
    } else {
        assert(s.push(e)[0] == s[0]);
        assert(s.push(e).drop_first() =~= s.drop_first().push(e));
        let chunk0 = spec_pac_meta_chunk(s[0], style, ss, idx, off, cum);
        lemma_pac_metas_push(
            s.drop_first(),
            e,
            style,
            ss,
            idx + 1,
            off + spec_pac_data_chunk(s[0], style).len(),
            cum + chunk0.len(),
        );
        assert(spec_pac_metas(s.push(e), style, ss, idx, off, cum) == chunk0 + spec_pac_metas(
            s.drop_first().push(e),
            style,
            ss,
            idx + 1,
            off + spec_pac_data_chunk(s[0], style).len(),
            cum + chunk0.len(),
        ));
        assert(spec_pac_metas(s, style, ss, idx, off, cum) == chunk0 + spec_pac_metas(
            s.drop_first(),
            style,
            ss,
            idx + 1,
            off + spec_pac_data_chunk(s[0], style).len(),
            cum + chunk0.len(),
        ));
        assert(spec_pac_datas(s, style) == spec_pac_data_chunk(s[0], style) + spec_pac_datas(
            s.drop_first(),
            style,
        ));
        vstd::seq_lib::lemma_concat_associative(
            chunk0,
            spec_pac_metas(
                s.drop_first(),
                style,
                ss,
                idx + 1,
                off + spec_pac_data_chunk(s[0], style).len(),
                cum + chunk0.len(),
            ),
            spec_pac_meta_chunk(
                e,
                style,
                ss,
                idx + s.len(),
                off + spec_pac_datas(s, style).len(),
                cum + spec_pac_metas(s, style, ss, idx, off, cum).len(),
            ),
        );
    }
}

/// Whether every entry of the archive carries a name; required to rebuild
/// any archive that is not hash-only.
pub open spec fn spec_pac_all_named(s: Seq<PacEntryModel>) -> bool {
    forall|k: int| 0 <= k < s.len() ==> (#[trigger] s[k].identifier) is Name
}

/// The whole encoding of a PAC archive: the FPAC header, the metadata
/// records, then the data section.
pub open spec fn spec_pac_bytes(m: PacModel) -> Seq<u8> {
    let ss = spec_pac_string_size(m);
    let metas = spec_pac_metas(m.entries, m.pac_style, ss, 0, 0, 0);
    let datas = spec_pac_datas(m.entries, m.pac_style);
    let header_size = 0x20 + metas.len();
    seq![0x46u8, 0x50u8, 0x41u8, 0x43u8] + u32_le_of(header_size as u32) + u32_le_of(
        (header_size + datas.len()) as u32,
    ) + u32_le_of(m.entries.len() as u32) + u32_le_of(m.pac_style.bits) + u32_le_of(ss as u32)
        + byte_repeat(0x00, 8) + metas + datas
}

impl Pac {
    /// Rebuilds the archive: header, metadata records with running data
    /// offsets, then every entry's contents padded to the style's data
    /// alignment.
    #[verifier::rlimit(100)]
    pub fn to_bytes(&self) -> (r: Vec<u8>)
        requires
            self@.pac_style.bits & PAC_STYLE_ID_ONLY != PAC_STYLE_ID_ONLY ==> spec_pac_all_named(
                self@.entries,
            ),
            spec_pac_bytes(self@).len() < 0x100000000,
            spec_pac_max_name(self@.entries) + 0x20 < 0x100000000,
        ensures
            r@ == spec_pac_bytes(self@),
    {
        let ghost ev = spec_pac_entries_view(self.entries@);
        let style = self.pac_style;
        let count = self.entries.len();
        let id_only = style.bits & PAC_STYLE_ID_ONLY == PAC_STYLE_ID_ONLY;
        let version2 = style.bits & PAC_STYLE_VERSION2 == PAC_STYLE_VERSION2;
        let hash_sort = style.bits & PAC_STYLE_HASH_SORT == PAC_STYLE_HASH_SORT;
        let mut maxn: usize = 0;
        let mut k0: usize = 0;
        while k0 < count
            invariant
                k0 <= count,
                count == self.entries@.len(),
                ev == spec_pac_entries_view(self.entries@),
                spec_pac_max_name(ev) + 0x20 < 0x100000000,
                maxn == spec_pac_max_name(ev.take(k0 as int)),
            decreases count - k0,
        {
            proof {
                lemma_pac_max_name_ge(ev, k0 as int);
                assert(ev[k0 as int] == self.entries@[k0 as int]@);
                assert(ev.take(k0 + 1 as int) =~= ev.take(k0 as int).push(
                    self.entries@[k0 as int]@,
                ));
                lemma_pac_max_name_push(ev.take(k0 as int), self.entries@[k0 as int]@);
            }
            let l = match self.entries[k0].name() {
                Some(nm) => nm.len(),
                None => 0,
            };
            proof {
                assert(l == spec_entry_name_len(self.entries@[k0 as int]@));
            }
            if l >= maxn {
                maxn = l;
            }
            k0 = k0 + 1;
        }
        proof {
            assert(ev.take(count as int) =~= ev);
        }
        let ss: usize = if id_only {
            0
        } else if version2 {
            (maxn + 1) + (0x20 - (maxn + 1) % 0x20)
        } else {
            (maxn + 1) + (4 - (maxn + 1) % 4)
        };
        proof {
            assert(ss == spec_pac_string_size(self@));
        }
        let mut metas: Vec<u8> = Vec::new();
        let mut datas: Vec<u8> = Vec::new();
        let mut k: usize = 0;
        while k < count
            invariant
                k <= count,
                count == self.entries@.len(),
                ev == spec_pac_entries_view(self.entries@),
                self@.entries == ev,
                style == self.pac_style,
                id_only == (style.bits & PAC_STYLE_ID_ONLY == PAC_STYLE_ID_ONLY),
                version2 == (style.bits & PAC_STYLE_VERSION2 == PAC_STYLE_VERSION2),
                hash_sort == (style.bits & PAC_STYLE_HASH_SORT == PAC_STYLE_HASH_SORT),
                !id_only ==> spec_pac_all_named(ev),
                ss == spec_pac_string_size(self@),
                spec_pac_bytes(self@).len() < 0x100000000,
                metas@ == spec_pac_metas(ev.take(k as int), style, ss as int, 0, 0, 0),
                datas@ == spec_pac_datas(ev.take(k as int), style),
            decreases count - k,
        {
            proof {
                lemma_pac_datas_take_len(ev, style, k as int);
                assert(ev.take(k + 1 as int) =~= ev.take(k as int).push(self.entries@[k as int]@));
                lemma_pac_datas_push(ev.take(k as int), self.entries@[k as int]@, style);
                lemma_pac_metas_push(
                    ev.take(k as int),
                    self.entries@[k as int]@,
                    style,
                    ss as int,
                    0,
                    0,
                    0,
                );
                lemma_pac_datas_take_len(ev, style, k + 1 as int);
                assert(ev.take(k as int).len() == k);
                if !id_only {
                    assert(ev[k as int].identifier is Name);
                }
            }
            let ghost m0 = metas@;
            if !id_only {
                let nm = match self.entries[k].name() {
                    Some(n) => n,
                    None => "",
                };
                let fixed = string_to_fixed_bytes(nm, ss);
                push_slice(&mut metas, fixed.as_slice());
            }
            push_u32_le(&mut metas, k as u32);
            push_u32_le(&mut metas, datas.len() as u32);
            push_u32_le(&mut metas, self.entries[k].contents.len() as u32);
            if version2 {
                let h = self.entries[k].hash_id();
                push_u32_le(&mut metas, h);
            }
            let pad: usize = if hash_sort {
                0
            } else if version2 {
                needed_to_align(metas.len(), 0x10)
            } else {
                needed_to_align_with_excess_local(metas.len())
            };
            push_repeat(&mut metas, 0x00, pad);
            proof {
                assert(metas@ =~= spec_pac_metas(ev.take(k + 1 as int), style, ss as int, 0, 0, 0));
            }
            push_slice(&mut datas, self.entries[k].contents.as_slice());
            let dstep: usize = if id_only {
                4
            } else {
                0x10
            };
            push_repeat(&mut datas, 0x00, needed_to_align(self.entries[k].contents.len(), dstep));
            proof {
                assert(datas@ =~= spec_pac_datas(ev.take(k + 1 as int), style));
            }
            k = k + 1;
        }
        proof {
            assert(ev.take(count as int) =~= ev);
        }
        let header_size = 0x20 + metas.len();
        let mut out: Vec<u8> = Vec::new();
        out.push(0x46u8);
        out.push(0x50u8);
        out.push(0x41u8);
        out.push(0x43u8);
        push_u32_le(&mut out, header_size as u32);
        push_u32_le(&mut out, (header_size + datas.len()) as u32);
        push_u32_le(&mut out, count as u32);
        push_u32_le(&mut out, style.bits);
        push_u32_le(&mut out, ss as u32);
        push_repeat(&mut out, 0x00, 8);
        push_slice(&mut out, metas.as_slice());
        push_slice(&mut out, datas.as_slice());
        proof {
            assert(out@ =~= spec_pac_bytes(self@));
        }
        out
    }
}

/// Alignment padding past a 16-byte boundary, always at least one byte.
fn needed_to_align_with_excess_local(size: usize) -> (r: usize)
    ensures
        r == spec_needed_to_align_with_excess(size as int, 0x10),
        1 <= r <= 0x10,
{
    0x10 - size % 0x10
}


// ---------------------------------------------------------------------------
// Decoding
// ---------------------------------------------------------------------------

/// The characters that a Shift-JIS decode yields for `b`.
pub uninterp spec fn shift_jis_str_of(b: Seq<u8>) -> Seq<char>;

/// Relies on encoding_rs's SHIFT_JIS decode of a whole buffer: the
/// result depends on the bytes alone, an empty input gives an empty
/// string, and ASCII-only input passes through unchanged.
#[verifier::external_body]
fn shift_jis_to_str(i: &[u8]) -> (r: String)
    requires
        i@.len() < 0x100000000,
    ensures
        r@ == shift_jis_str_of(i@),
        i@.len() == 0 ==> r@.len() == 0,
        (forall|j: int| 0 <= j < i@.len() ==> i@[j] < 0x80) ==> r@ == vstd::utf8::decode_utf8(
            i@,
        ),
{
    encoding_rs::SHIFT_JIS.decode(i).0.into_owned()
}

/// Decodes the one metadata record at `pos` and its contents: the
/// fixed-width Shift-JIS name field unless the archive is hash-only,
/// the entry's index, its data offset, its size, a hash dword, then
/// padding up to a 16-byte boundary; `Some((entry, next))` gives the
/// position of the following record.
pub open spec fn spec_fpac_entry_at(d: Seq<u8>, ds: int, ss: int, named: bool, pos: int)
    -> Option<(PacEntryModel, int)> {
    let fixed = if named {
        ss + 16
    } else {
        16
    };
    if pos < 0 || pos + fixed > d.len() {
        None
    } else if named && spec_find_nul(d.subrange(pos, pos + ss)) is None {
        None
    } else {
        let base = pos + (if named {
            ss
        } else {
            0
        });
        let off = u32_le_at(d, base + 4) as int;
        let size = u32_le_at(d, base + 8) as int;
        let hash = u32_le_at(d, base + 12);
        if ds < 0 || ds + off + size > d.len() {
            None
        } else {
            let ident = if named {
                let field = d.subrange(pos, pos + ss);
                EntryIdentifierModel::Name(
                    shift_jis_str_of(field.take(spec_find_nul(field)->Some_0)),
                )
            } else {
                EntryIdentifierModel::Hash(hash)
            };
            let e = PacEntryModel {
                identifier: ident,
                contents: d.subrange(ds + off, ds + off + size),
            };
            Some((e, pos + fixed + spec_needed_to_align(pos + fixed, 0x10)))
        }
    }
}

/// Decodes the metadata records and contents of the entries from `k`
/// onward, the record at `pos` first.
pub open spec fn spec_fpac_entries(
    d: Seq<u8>,
    ds: int,
    ss: int,
    named: bool,
    k: int,
    count: int,
    pos: int,
) -> Option<Seq<PacEntryModel>>
    decreases count - k,
{
    if k >= count {
        Some(Seq::empty())
    } else {
        match spec_fpac_entry_at(d, ds, ss, named, pos) {
            None => None,
            Some(t) => match spec_fpac_entries(d, ds, ss, named, k + 1, count, t.1) {
                None => None,
                Some(rest) => Some(seq![t.0] + rest),
            },
        }
    }
}

/// A successful entry walk yields one entry per remaining slot.
pub proof fn lemma_fpac_entries_len(
    d: Seq<u8>,
    ds: int,
    ss: int,
    named: bool,
    k: int,
    count: int,
    pos: int,
)
    requires
        spec_fpac_entries(d, ds, ss, named, k, count, pos) is Some,
    ensures
        spec_fpac_entries(d, ds, ss, named, k, count, pos)->Some_0.len() == (if count >= k {
            count - k
        } else {
            0
        }),
    decreases count - k,
{
    if k < count {
        let t = spec_fpac_entry_at(d, ds, ss, named, pos)->Some_0;
        lemma_fpac_entries_len(d, ds, ss, named, k + 1, count, t.1);
    }
}

/// Decodes one metadata record and its contents, returning the entry
/// and the position of the next record.
#[verifier::rlimit(100)]
fn parse_fpac_entry(d: &[u8], ds: u64, ss: u64, named: bool, pos: u64) -> (r: Result<
    (PacEntry, u64),
    Error,
>)
    requires
        ds < 0x100000000,
        ss < 0x100000000,
        d@.len() <= 0xFFFFFFFF,
        pos <= d@.len() + 15,
    ensures
        match spec_fpac_entry_at(d@, ds as int, ss as int, named, pos as int) {
            Some(t) => r matches Ok(o) && o.0@ == t.0 && o.1 == t.1,
            None => r matches Err(e) && e.is_parser(),
        },
{
    let n_total: usize = d.len();
    let fixed: u64 = if named {
        ss + 16
    } else {
        16
    };
    if fixed > n_total as u64 || pos > n_total as u64 - fixed {
        return Err(Error::Parser("archive: metadata past input".to_string()));
    }
    let p = pos as usize;
    let nul: usize = if named {
        match find_nul_in(d, p, ss as usize) {
            Some(i) => i,
            None => {
                return Err(Error::Parser("archive: entry name unterminated".to_string()));
            },
        }
    } else {
        0
    };
    let base: usize = if named {
        p + ss as usize
    } else {
        p
    };
    let off = read_u32_le(d, base + 4);
    let size = read_u32_le(d, base + 8);
    let hash = read_u32_le(d, base + 12);
    if ds + off as u64 + size as u64 > n_total as u64 {
        return Err(Error::Parser("archive: entry contents past input".to_string()));
    }
    let cstart = (ds + off as u64) as usize;
    let contents_slice = vstd::slice::slice_subrange(d, cstart, cstart + size as usize);
    let contents = vstd::slice::slice_to_vec(contents_slice);
    let entry = if named {
        proof {
            lemma_find_nul(d@.subrange(p as int, p + ss));
        }
        let name_slice = vstd::slice::slice_subrange(d, p, p + nul);
        let name = shift_jis_to_str(name_slice);
        proof {
            let field = d@.subrange(p as int, p + ss);
            assert(field.take(spec_find_nul(field)->Some_0) =~= d@.subrange(p as int, p + nul));
        }
        PacEntry { identifier: EntryIdentifier::Name(name), contents }
    } else {
        PacEntry { identifier: EntryIdentifier::Hash(hash), contents }
    };
    let used = pos + fixed;
    let next: u64 = used + ((0x10 - used % 0x10) % 0x10);
    proof {
        assert(next as int == pos + fixed + spec_needed_to_align(pos + fixed as int, 0x10));
    }
    Ok((entry, next))
}

/// Decodes one uncompressed archive body: the FPAC header, then the
/// entry walk; the archive records the given compression wrapper. A
/// body longer than the 32-bit offsets can address is rejected.
pub open spec fn spec_parse_fpac(d: Seq<u8>, comp: Compression) -> Option<PacModel> {
    if d.len() < 0x20 || d.len() > 0xFFFFFFFF {
        None
    } else if !(d[0] == 0x46 && d[1] == 0x50 && d[2] == 0x41 && d[3] == 0x43) {
        None
    } else {
        let ds = u32_le_at(d, 4) as int;
        let count = u32_le_at(d, 12) as int;
        let bits = u32_le_at(d, 16);
        let ss = u32_le_at(d, 20) as int;
        let named = bits & PAC_STYLE_ID_ONLY != PAC_STYLE_ID_ONLY && ss > 0;
        match spec_fpac_entries(d, ds, ss, named, 0, count, 0x20) {
            None => None,
            Some(es) => Some(
                PacModel { compression: comp, pac_style: PacStyle { bits }, entries: es },
            ),
        }
    }
}

/// Decodes an archive from raw bytes: a bare FPAC body, or one wrapped
/// whole in a zlib stream behind either compressed-container magic.
pub open spec fn spec_parse_pac(b: Seq<u8>) -> Option<PacModel> {
    if b.len() >= 4 && b[0] == 0x46 && b[1] == 0x50 && b[2] == 0x41 && b[3] == 0x43 {
        spec_parse_fpac(b, Compression::Uncompressed)
    } else if b.len() >= 16 && b[0] == 0x5A && b[1] == 0x43 && b[2] == 0x4D && b[3] == 0x50 {
        if inflate_ok(b.skip(16)) {
            spec_parse_fpac(inflate_of(b.skip(16)), Compression::Zcmp)
        } else {
            None
        }
    } else if b.len() >= 16 && b[0] == 0x44 && b[1] == 0x46 && b[2] == 0x41 && b[3] == 0x53
        && b[4] == 0x46 && b[5] == 0x50 && b[6] == 0x41 && b[7] == 0x43 {
        if inflate_ok(b.skip(16)) {
            spec_parse_fpac(inflate_of(b.skip(16)), Compression::DfasFPac)
        } else {
            None
        }
    } else {
        None
    }
}

/// Decodes one uncompressed archive body, recording `comp` as its
/// compression wrapper.
#[verifier::rlimit(100)]
fn parse_fpac_impl(d: &[u8], comp: Compression) -> (r: Result<Pac, Error>)
    ensures
        match spec_parse_fpac(d@, comp) {
            Some(m) => r matches Ok(p) && p@ == m,
            None => r matches Err(e) && e.is_parser(),
        },
{
    let n_total: usize = d.len();
    if n_total < 0x20 {
        return Err(Error::Parser("archive: truncated header".to_string()));
    }
    if n_total as u64 > 0xFFFFFFFF {
        return Err(Error::Parser("archive: input too large".to_string()));
    }
    if !(read_u8(d, 0) == 0x46 && read_u8(d, 1) == 0x50 && read_u8(d, 2) == 0x41 && read_u8(d, 3)
        == 0x43) {
        return Err(Error::Parser("archive: magic mismatch".to_string()));
    }
    let ds32 = read_u32_le(d, 4);
    let count32 = read_u32_le(d, 12);
    let bits = read_u32_le(d, 16);
    let ss32 = read_u32_le(d, 20);
    let named = bits & PAC_STYLE_ID_ONLY != PAC_STYLE_ID_ONLY && ss32 > 0;
    let ds = ds32 as u64;
    let ss = ss32 as u64;
    let count = count32 as usize;
    let ghost full = spec_fpac_entries(
        d@,
        ds as int,
        ss as int,
        named,
        0,
        count as int,
        0x20,
    );
    proof {
        if full is Some {
            lemma_fpac_entries_len(d@, ds as int, ss as int, named, 0, count as int, 0x20);
            assert(full->Some_0.skip(0) =~= full->Some_0);
        }
    }
    let mut entries: Vec<PacEntry> = Vec::new();
    let mut pos: u64 = 0x20;
    let mut k: usize = 0;
    while k < count
        invariant
            k <= count,
            n_total == d@.len(),
            n_total >= 0x20,
            n_total <= 0xFFFFFFFF,
            d@[0] == 0x46 && d@[1] == 0x50 && d@[2] == 0x41 && d@[3] == 0x43,
            ds32 == u32_le_at(d@, 4),
            count == u32_le_at(d@, 12) as int,
            bits == u32_le_at(d@, 16),
            ss32 == u32_le_at(d@, 20),
            ds == ds32 as u64,
            ss == ss32 as u64,
            named == (bits & PAC_STYLE_ID_ONLY != PAC_STYLE_ID_ONLY && ss32 > 0),
            pos <= n_total as u64 + 15,
            full == spec_fpac_entries(d@, ds as int, ss as int, named, 0, count as int, 0x20),
            entries@.len() == k,
            match spec_fpac_entries(d@, ds as int, ss as int, named, k as int, count as int,
                pos as int) {
                Some(t) => full matches Some(ft) && ft.len() == count && ft.skip(k as int) =~= t
                    && (forall|j: int| 0 <= j < k ==> entries@[j]@ == ft[j]),
                None => full is None,
            },
        decreases count - k,
    {
        let t = match parse_fpac_entry(d, ds, ss, named, pos) {
            Ok(t) => t,
            Err(e) => {
                proof {
                    assert(spec_fpac_entries(d@, ds as int, ss as int, named, k as int,
                        count as int, pos as int) is None);
                }
                return Err(e);
            },
        };
        entries.push(t.0);
        proof {
            assert(t.1 <= n_total as u64 + 15);
            match spec_fpac_entries(d@, ds as int, ss as int, named, k + 1, count as int,
                t.1 as int) {
                Some(rest) => {
                    let ft = full->Some_0;
                    assert(ft.skip(k as int).drop_first() =~= ft.skip(k + 1 as int));
                    assert(ft.skip(k as int)[0] == ft[k as int]);
                    assert(entries@[k as int]@ == ft[k as int]);
                },
                None => {
                },
            }
        }
        pos = t.1;
        k = k + 1;
    }
    let pac = Pac { compression: comp, pac_style: PacStyle { bits }, entries };
    proof {
        assert(spec_fpac_entries(d@, ds as int, ss as int, named, count as int, count as int,
            pos as int) == Some(Seq::<PacEntryModel>::empty()));
        assert(full is Some);
        let ft = full->Some_0;
        assert(spec_parse_fpac(d@, comp) is Some);
        let m = spec_parse_fpac(d@, comp)->Some_0;
        assert(spec_pac_entries_view(pac.entries@) =~= ft);
        assert(m.entries == ft);
        assert(pac@ == m);
    }
    Ok(pac)
}

impl Pac {
    /// Decodes an archive from raw bytes. A compressed container behind
    /// either wrapper magic is inflated whole and decoded; the wrapper
    /// used is recorded on the result.
    pub fn parse(input: &[u8]) -> (r: Result<Pac, Error>)
        ensures
            match spec_parse_pac(input@) {
                Some(m) => r matches Ok(p) && p@ == m,
                None => r matches Err(e) && e.is_parser(),
            },
    {
        let n_total: usize = input.len();
        let is_fpac = n_total >= 4 && read_u8(input, 0) == 0x46 && read_u8(input, 1) == 0x50
            && read_u8(input, 2) == 0x41 && read_u8(input, 3) == 0x43;
        if is_fpac {
            return parse_fpac_impl(input, Compression::Uncompressed);
        }
        let is_zcmp = n_total >= 16 && read_u8(input, 0) == 0x5A && read_u8(input, 1) == 0x43
            && read_u8(input, 2) == 0x4D && read_u8(input, 3) == 0x50;
        let is_dfas = !is_zcmp && n_total >= 16 && read_u8(input, 0) == 0x44 && read_u8(input, 1)
            == 0x46 && read_u8(input, 2) == 0x41 && read_u8(input, 3) == 0x53 && read_u8(input, 4)
            == 0x46 && read_u8(input, 5) == 0x50 && read_u8(input, 6) == 0x41 && read_u8(input, 7)
            == 0x43;
        if !is_zcmp && !is_dfas {
            return Err(Error::Parser("archive: unknown container magic".to_string()));
        }
        let tail = vstd::slice::slice_subrange(input, 16, n_total);
        proof {
            assert(tail@ =~= input@.skip(16));
        }
        match crate::zlib::zlib_decompress(tail) {
            None => Err(Error::Parser("archive: compressed stream rejected".to_string())),
            Some(d) => {
                if is_zcmp {
                    parse_fpac_impl(d.as_slice(), Compression::Zcmp)
                } else {
                    parse_fpac_impl(d.as_slice(), Compression::DfasFPac)
                }
            },
        }
    }
}

} // verus!
