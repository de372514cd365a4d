//! Archive format for BBCF: a named-entry container, optionally wrapped
//! whole in a zlib stream behind a magic tag.

use vstd::prelude::*;
use vstd::string::StringSliceAdditionalSpecFns;
use vstd::utf8::encode_utf8;
use crate::error::Error;
use crate::helpers::{
    u32_le_at, u32_le_of, byte_repeat, read_u8, read_u32_le, push_u32_le, push_slice, push_repeat,
    needed_to_align, spec_needed_to_align, spec_needed_to_align_with_excess,
    spec_pad_to_nearest_with_excess, spec_fixed_bytes, string_to_fixed_bytes, spec_find_nul,
    lossy_str_of, lemma_find_nul, find_nul_in, lemma_u32_le_rt,
};
use crate::zlib::{inflate_of, inflate_ok, deflate_best_of, zlib_decompress, zlib_compress_best};

verus! {

/// A contained file in a BBCF archive.
pub struct BBCFPacEntry {
    /// The file ID
    pub id: u32,
    /// The file's name
    pub name: String,
    /// The bytes of the contained file
    pub contents: Vec<u8>,
}

/// The mathematical model of an archive entry.
pub ghost struct BbcfEntryModel {
    pub id: u32,
    pub name: Seq<char>,
    pub contents: Seq<u8>,
}

impl View for BBCFPacEntry {
    type V = BbcfEntryModel;

    open spec fn view(&self) -> BbcfEntryModel {
        BbcfEntryModel { id: self.id, name: self.name@, contents: self.contents@ }
    }
}

/// An archive for BBCF.
pub struct BBCFPac {
    pub unknown: u32,
    pub files: Vec<BBCFPacEntry>,
}

/// The mathematical model of an archive.
pub ghost struct BbcfPacModel {
    pub unknown: u32,
    pub files: Seq<BbcfEntryModel>,
}

/// The models of a sequence of entries.
pub open spec fn spec_bbcf_files_view(s: Seq<BBCFPacEntry>) -> Seq<BbcfEntryModel> {
    s.map_values(|e: BBCFPacEntry| e@)
}

impl View for BBCFPac {
    type V = BbcfPacModel;

    open spec fn view(&self) -> BbcfPacModel {
        BbcfPacModel { unknown: self.unknown, files: spec_bbcf_files_view(self.files@) }
    }
}

// ---------------------------------------------------------------------------
// Encoding layout
// ---------------------------------------------------------------------------

/// The byte length of an entry's name.
pub open spec fn spec_bbcf_name_len(e: BbcfEntryModel) -> int {
    encode_utf8(e.name).len() as int
}

/// The longest name length among the entries.
pub open spec fn spec_bbcf_max_name(s: Seq<BbcfEntryModel>) -> int
    decreases s.len(),
{
    if s.len() == 0 {
        0
    } else {
        let m = spec_bbcf_max_name(s.drop_first());
        if spec_bbcf_name_len(s[0]) >= m {
            spec_bbcf_name_len(s[0])
        } else {
            m
        }
    }
}

/// Appending an entry takes the maximum with its name length.
pub proof fn lemma_bbcf_max_name_push(s: Seq<BbcfEntryModel>, e: BbcfEntryModel)
    ensures
        spec_bbcf_max_name(s.push(e)) == (if spec_bbcf_name_len(e) >= spec_bbcf_max_name(s) {
            spec_bbcf_name_len(e)
        } else {
            spec_bbcf_max_name(s)
        }),
    decreases s.len(),
{
    if s.len() == 0 {
        assert(s.push(e).drop_first() =~= Seq::<BbcfEntryModel>::empty());
        assert(s.push(e)[0] == e);
        assert(spec_bbcf_max_name(Seq::<BbcfEntryModel>::empty()) == 0);
        assert(spec_bbcf_max_name(s.push(e)) == (if spec_bbcf_name_len(e) >= 0 {
            spec_bbcf_name_len(e)
        } else {
            0
        }));
    } else {
        assert(s.push(e)[0] == s[0]);
        assert(s.push(e).drop_first() =~= s.drop_first().push(e));
        lemma_bbcf_max_name_push(s.drop_first(), e);
        assert(spec_bbcf_max_name(s.push(e)) == (if spec_bbcf_name_len(s[0])
            >= spec_bbcf_max_name(s.drop_first().push(e)) {
            spec_bbcf_name_len(s[0])
        } else {
            spec_bbcf_max_name(s.drop_first().push(e))
        }));
        assert(spec_bbcf_max_name(s) == (if spec_bbcf_name_len(s[0]) >= spec_bbcf_max_name(
            s.drop_first(),
        ) {
            spec_bbcf_name_len(s[0])
        } else {
            spec_bbcf_max_name(s.drop_first())
        }));
    }
}

/// Every entry's name length is bounded by the maximum.
pub proof fn lemma_bbcf_max_name_ge(s: Seq<BbcfEntryModel>, j: int)
    requires
        0 <= j < s.len(),
    ensures
        spec_bbcf_name_len(s[j]) <= spec_bbcf_max_name(s),
    decreases s.len(),
{
    if j > 0 {
        lemma_bbcf_max_name_ge(s.drop_first(), j - 1);
    }
}

/// The fixed-length string field width: the longest name padded past a
/// 4-byte boundary.
pub open spec fn spec_bbcf_string_size(s: Seq<BbcfEntryModel>) -> int {
    spec_pad_to_nearest_with_excess(spec_bbcf_max_name(s), 4)
}

/// The width of one metadata record: the string field and three dwords,
/// padded past a 16-byte boundary.
pub open spec fn spec_bbcf_meta_size(ss: int) -> int {
    spec_pad_to_nearest_with_excess(ss + 12, 0x10)
}

/// One entry's span in the data section: its contents zero-padded to a
/// 16-byte boundary.
pub open spec fn spec_bbcf_data_chunk(e: BbcfEntryModel) -> Seq<u8> {
    e.contents + byte_repeat(0x00, spec_needed_to_align(e.contents.len() as int, 0x10))
}

/// The concatenated data spans of a sequence of entries.
pub open spec fn spec_bbcf_datas(s: Seq<BbcfEntryModel>) -> Seq<u8>
    decreases s.len(),
{
    if s.len() == 0 {
        Seq::empty()
    } else {
        spec_bbcf_data_chunk(s[0]) + spec_bbcf_datas(s.drop_first())
    }
}

/// Appending one entry appends its data span.
pub proof fn lemma_bbcf_datas_push(s: Seq<BbcfEntryModel>, e: BbcfEntryModel)
    ensures
        spec_bbcf_datas(s.push(e)) == spec_bbcf_datas(s) + spec_bbcf_data_chunk(e),
    decreases s.len(),
{
    if s.len() == 0 {
        assert(s.push(e).drop_first() =~= Seq::<BbcfEntryModel>::empty());
        assert(s.push(e)[0] == e);
        assert(spec_bbcf_datas(s.push(e)) == spec_bbcf_data_chunk(e) + spec_bbcf_datas(
            s.push(e).drop_first(),
        ));
        assert(spec_bbcf_datas(s.push(e)) =~= spec_bbcf_datas(s) + spec_bbcf_data_chunk(e));
    } else {
        assert(s.push(e)[0] == s[0]);
        assert(s.push(e).drop_first() =~= s.drop_first().push(e));
        lemma_bbcf_datas_push(s.drop_first(), e);
        assert(spec_bbcf_datas(s.push(e)) == spec_bbcf_data_chunk(s[0]) + spec_bbcf_datas(
            s.drop_first().push(e),
        ));
        assert(spec_bbcf_datas(s) == spec_bbcf_data_chunk(s[0]) + spec_bbcf_datas(s.drop_first()));
        vstd::seq_lib::lemma_concat_associative(
            spec_bbcf_data_chunk(s[0]),
            spec_bbcf_datas(s.drop_first()),
            spec_bbcf_data_chunk(e),
        );
    }
}

/// The data spans of a prefix never outgrow the data spans of the whole
/// sequence.
pub proof fn lemma_bbcf_datas_take_len(s: Seq<BbcfEntryModel>, k: int)
    requires
        0 <= k <= s.len(),
    ensures
        spec_bbcf_datas(s.take(k)).len() <= spec_bbcf_datas(s).len(),
    decreases s.len() - k,
{
    if k == s.len() {
        assert(s.take(k) =~= s);
    } else {
        assert(s.take(k + 1) =~= s.take(k).push(s[k]));
        lemma_bbcf_datas_push(s.take(k), s[k]);
        lemma_bbcf_datas_take_len(s, k + 1);
    }
}

/// One entry's metadata record: the fixed-width name field, the ID, the
/// entry's offset in the data section, its size, then zero padding.
pub open spec fn spec_bbcf_meta_chunk(e: BbcfEntryModel, ss: int, off: int) -> Seq<u8> {
    spec_fixed_bytes(encode_utf8(e.name), ss) + u32_le_of(e.id) + u32_le_of(off as u32) + u32_le_of(
        e.contents.len() as u32,
    ) + byte_repeat(0x00, spec_needed_to_align_with_excess(ss + 12, 0x10))
}

/// The concatenated metadata records, each carrying the running data
/// offset of its entry.
pub open spec fn spec_bbcf_metas(s: Seq<BbcfEntryModel>, ss: int, off: int) -> Seq<u8>
    decreases s.len(),
{
    if s.len() == 0 {
        Seq::empty()
    } else {
        spec_bbcf_meta_chunk(s[0], ss, off) + spec_bbcf_metas(
            s.drop_first(),
            ss,
            off + spec_bbcf_data_chunk(s[0]).len(),
        )
    }
}

/// Appending one entry appends its metadata record at the accumulated
/// data offset.
pub proof fn lemma_bbcf_metas_push(s: Seq<BbcfEntryModel>, e: BbcfEntryModel, ss: int, off: int)
    ensures
        spec_bbcf_metas(s.push(e), ss, off) == spec_bbcf_metas(s, ss, off) + spec_bbcf_meta_chunk(
            e,
            ss,
            off + spec_bbcf_datas(s).len(),
        ),
    decreases s.len(),
{
    if s.len() == 0 {
        assert(s.push(e).drop_first() =~= Seq::<BbcfEntryModel>::empty());
        assert(s.push(e)[0] == e);
        assert(spec_bbcf_metas(s.push(e), ss, off) == spec_bbcf_meta_chunk(e, ss, off)
            + spec_bbcf_metas(s.push(e).drop_first(), ss, off + spec_bbcf_data_chunk(e).len()));
        assert(spec_bbcf_datas(s).len() == 0);
        assert(spec_bbcf_metas(s.push(e), ss, off) =~= spec_bbcf_metas(s, ss, off)
            + spec_bbcf_meta_chunk(e, ss, off + spec_bbcf_datas(s).len()));
    } else {
        assert(s.push(e)[0] == s[0]);
        assert(s.push(e).drop_first() =~= s.drop_first().push(e));
        lemma_bbcf_metas_push(s.drop_first(), e, ss, off + spec_bbcf_data_chunk(s[0]).len());
        assert(spec_bbcf_metas(s.push(e), ss, off) == spec_bbcf_meta_chunk(s[0], ss, off)
            + spec_bbcf_metas(s.drop_first().push(e), ss, off + spec_bbcf_data_chunk(s[0]).len()));
        assert(spec_bbcf_metas(s, ss, off) == spec_bbcf_meta_chunk(s[0], ss, off)
            + spec_bbcf_metas(s.drop_first(), ss, off + spec_bbcf_data_chunk(s[0]).len()));
        assert(spec_bbcf_datas(s) == spec_bbcf_data_chunk(s[0]) + spec_bbcf_datas(s.drop_first()));
        vstd::seq_lib::lemma_concat_associative(
            spec_bbcf_meta_chunk(s[0], ss, off),
            spec_bbcf_metas(s.drop_first(), ss, off + spec_bbcf_data_chunk(s[0]).len()),
            spec_bbcf_meta_chunk(e, ss, off + spec_bbcf_datas(s).len()),
        );
    }
}

/// Every metadata record is exactly `spec_bbcf_meta_size(ss)` bytes.
pub proof fn lemma_bbcf_metas_len(s: Seq<BbcfEntryModel>, ss: int, off: int)
    requires
        ss >= 0,
    ensures
        spec_bbcf_metas(s, ss, off).len() == s.len() * spec_bbcf_meta_size(ss),
    decreases s.len(),
{
    if s.len() > 0 {
        lemma_bbcf_metas_len(s.drop_first(), ss, off + spec_bbcf_data_chunk(s[0]).len());
        assert(spec_fixed_bytes(encode_utf8(s[0].name), ss).len() == ss);
        assert((s.len() - 1) * spec_bbcf_meta_size(ss) + spec_bbcf_meta_size(ss) == s.len()
            * spec_bbcf_meta_size(ss)) by (nonlinear_arith);
    }
}

/// The whole encoding of an archive: the FPAC header, the metadata
/// records, then the data section.
pub open spec fn spec_bbcf_pac_bytes(m: BbcfPacModel) -> Seq<u8> {
    let ss = spec_bbcf_string_size(m.files);
    let msize = spec_bbcf_meta_size(ss);
    let data_start = 0x20 + m.files.len() * msize;
    let datas = spec_bbcf_datas(m.files);
    seq![0x46u8, 0x50u8, 0x41u8, 0x43u8] + u32_le_of(data_start as u32) + u32_le_of(
        (data_start + datas.len()) as u32,
    ) + u32_le_of(m.files.len() as u32) + u32_le_of(m.unknown) + u32_le_of(ss as u32) + byte_repeat(
        0x00,
        8,
    ) + spec_bbcf_metas(m.files, ss, 0) + datas
}


/// True when every byte of `b[start..end]` is zero.
fn region_zero(b: &[u8], start: usize, end: usize) -> (r: bool)
    requires
        start <= end <= b@.len(),
    ensures
        r == (forall|j: int| start <= j < end ==> b@[j] == 0),
{
    let mut j: usize = start;
    while j < end
        invariant
            start <= j <= end,
            end <= b@.len(),
            forall|i2: int| start <= i2 < j ==> b@[i2] == 0,
        decreases end - j,
    {
        if read_u8(b, j) != 0 {
            return false;
        }
        j = j + 1;
    }
    true
}

/// The longest entry-name byte length of an archive's files.
fn bbcf_max_name_len(files: &Vec<BBCFPacEntry>) -> (r: usize)
    requires
        spec_bbcf_max_name(spec_bbcf_files_view(files@)) <= usize::MAX,
    ensures
        r == spec_bbcf_max_name(spec_bbcf_files_view(files@)),
{
    let ghost fv = spec_bbcf_files_view(files@);
    let count = files.len();
    let mut maxn: usize = 0;
    let mut k: usize = 0;
    while k < count
        invariant
            k <= count,
            count == files@.len(),
            fv == spec_bbcf_files_view(files@),
            spec_bbcf_max_name(fv) <= usize::MAX,
            maxn == spec_bbcf_max_name(fv.take(k as int)),
        decreases count - k,
    {
        let nm = files[k].name.as_str();
        let l = nm.len();
        proof {
            assert(nm@ == files@[k as int].name@);
            assert(nm.spec_bytes() == encode_utf8(nm@));
            lemma_bbcf_max_name_ge(fv, k as int);
            assert(fv[k as int] == files@[k as int]@);
            assert(spec_bbcf_name_len(files@[k as int]@) <= usize::MAX);
            assert(l == spec_bbcf_name_len(files@[k as int]@));
            assert(fv.take(k + 1 as int) =~= fv.take(k as int).push(files@[k as int]@));
            lemma_bbcf_max_name_push(fv.take(k as int), files@[k as int]@);
        }
        if l >= maxn {
            maxn = l;
        }
        k = k + 1;
    }
    proof {
        assert(fv.take(count as int) =~= fv);
    }
    maxn
}

impl BBCFPac {
    /// Rebuilds the archive: header, metadata records with running data
    /// offsets, then every entry's contents zero-padded to 16 bytes.
    #[verifier::rlimit(100)]
    pub fn to_bytes(&self) -> (r: Vec<u8>)
        requires
            self.files@.len() >= 1,
            spec_bbcf_pac_bytes(self@).len() < 0x100000000,
        ensures
            r@ == spec_bbcf_pac_bytes(self@),
    {
        let ghost fv = spec_bbcf_files_view(self.files@);
        let ghost ss_spec = spec_bbcf_string_size(fv);
        let ghost msize_spec = spec_bbcf_meta_size(ss_spec);
        proof {
            lemma_bbcf_metas_len(fv, ss_spec, 0);
            assert(fv.len() * msize_spec >= 1 * msize_spec) by (nonlinear_arith)
                requires fv.len() >= 1 && msize_spec >= 0;
        }
        let count = self.files.len();
        proof {
            assert(spec_bbcf_max_name(fv) + 5 <= ss_spec + 13 <= msize_spec <= fv.len()
                * msize_spec) by (nonlinear_arith)
                requires
                    ss_spec == spec_pad_to_nearest_with_excess(spec_bbcf_max_name(fv), 4),
                    msize_spec == spec_pad_to_nearest_with_excess(ss_spec + 12, 0x10),
                    fv.len() >= 1,
                    spec_bbcf_max_name(fv) >= 0;
        }
        let maxn = bbcf_max_name_len(&self.files);
        let ss = maxn + (4 - maxn % 4);
        proof {
            assert(ss == ss_spec);
        }
        let msize = (ss + 12) + (0x10 - (ss + 12) % 0x10);
        proof {
            assert(msize == msize_spec);
        }
        let mut metas: Vec<u8> = Vec::new();
        let mut datas: Vec<u8> = Vec::new();
        let mut k2: usize = 0;
        while k2 < count
            invariant
                k2 <= count,
                count == self.files@.len(),
                fv == spec_bbcf_files_view(self.files@),
                ss == spec_bbcf_string_size(fv),
                msize == spec_bbcf_meta_size(ss as int),
                ss + 12 <= msize,
                spec_bbcf_pac_bytes(self@).len() < 0x100000000,
                self@.files == fv,
                metas@ == spec_bbcf_metas(fv.take(k2 as int), ss as int, 0),
                datas@ == spec_bbcf_datas(fv.take(k2 as int)),
            decreases count - k2,
        {
            proof {
                lemma_bbcf_datas_take_len(fv, k2 as int);
                assert(fv.take(k2 + 1 as int) =~= fv.take(k2 as int).push(self.files@[k2 as int]@));
                lemma_bbcf_datas_push(fv.take(k2 as int), self.files@[k2 as int]@);
                lemma_bbcf_metas_push(fv.take(k2 as int), self.files@[k2 as int]@, ss as int, 0);
                lemma_bbcf_datas_take_len(fv, k2 + 1 as int);
            }
            let name_bytes = string_to_fixed_bytes(self.files[k2].name.as_str(), ss);
            push_slice(&mut metas, name_bytes.as_slice());
            push_u32_le(&mut metas, self.files[k2].id);
            push_u32_le(&mut metas, datas.len() as u32);
            push_u32_le(&mut metas, self.files[k2].contents.len() as u32);
            push_repeat(&mut metas, 0x00, msize - (ss + 12));
            push_slice(&mut datas, self.files[k2].contents.as_slice());
            push_repeat(&mut datas, 0x00, needed_to_align(self.files[k2].contents.len(), 0x10));
            proof {
                assert(metas@ =~= spec_bbcf_metas(fv.take(k2 + 1 as int), ss as int, 0));
                assert(datas@ =~= spec_bbcf_datas(fv.take(k2 + 1 as int)));
            }
            k2 = k2 + 1;
        }
        proof {
            assert(fv.take(count as int) =~= fv);
            lemma_bbcf_metas_len(fv, ss as int, 0);
        }
        let data_start = 0x20 + count * msize;
        let mut out: Vec<u8> = Vec::new();
        out.push(0x46u8);
        out.push(0x50u8);
        out.push(0x41u8);
        out.push(0x43u8);
        push_u32_le(&mut out, data_start as u32);
        push_u32_le(&mut out, (data_start + datas.len()) as u32);
        push_u32_le(&mut out, count as u32);
        push_u32_le(&mut out, self.unknown);
        push_u32_le(&mut out, ss as u32);
        push_repeat(&mut out, 0x00, 8);
        push_slice(&mut out, metas.as_slice());
        push_slice(&mut out, datas.as_slice());
        proof {
            assert(out@ =~= spec_bbcf_pac_bytes(self@));
        }
        out
    }

    /// Rebuilds the archive and wraps it whole in a zlib stream behind
    /// the compressed-container magic and the two size fields.
    pub fn to_bytes_compressed(&self) -> (r: Vec<u8>)
        requires
            self.files@.len() >= 1,
            spec_bbcf_pac_bytes(self@).len() < 0x100000000,
        ensures
            ({
                let plain = spec_bbcf_pac_bytes(self@);
                let comp = deflate_best_of(plain);
                comp.len() < 0x100000000 ==> r@ == seq![
                    0x44u8,
                    0x46u8,
                    0x41u8,
                    0x53u8,
                    0x46u8,
                    0x50u8,
                    0x41u8,
                    0x43u8,
                ] + u32_le_of(plain.len() as u32) + u32_le_of(comp.len() as u32) + comp
            }),
    {
        let plain = self.to_bytes();
        let compressed = zlib_compress_best(plain.as_slice());
        let mut out: Vec<u8> = Vec::new();
        out.push(0x44u8);
        out.push(0x46u8);
        out.push(0x41u8);
        out.push(0x53u8);
        out.push(0x46u8);
        out.push(0x50u8);
        out.push(0x41u8);
        out.push(0x43u8);
        push_u32_le(&mut out, plain.len() as u32);
        if compressed.len() as u64 >= 0x100000000u64 {
            push_u32_le(&mut out, 0);
        } else {
            push_u32_le(&mut out, compressed.len() as u32);
        }
        push_slice(&mut out, compressed.as_slice());
        proof {
            if deflate_best_of(plain@).len() < 0x100000000 {
                assert(out@ =~= seq![0x44u8, 0x46u8, 0x41u8, 0x53u8, 0x46u8, 0x50u8, 0x41u8, 0x43u8]
                    + u32_le_of(plain@.len() as u32) + u32_le_of(
                    deflate_best_of(plain@).len() as u32,
                ) + deflate_best_of(plain@));
            }
        }
        out
    }
}

// ---------------------------------------------------------------------------
// Decoding
// ---------------------------------------------------------------------------

/// Whether the metadata record at `ms` is well formed: its name field
/// holds a terminator and its trailing padding is all zero.
pub open spec fn spec_bbcf_meta_ok(b: Seq<u8>, ms: int, ss: int, msize: int) -> bool {
    &&& spec_find_nul(b.subrange(ms, ms + ss)) is Some
    &&& forall|j: int| ms + ss + 12 <= j < ms + msize ==> b[j] == 0
}

/// The name decoded from the record at `ms`: the bytes before the first
/// terminator, decoded exactly when they are valid UTF-8 and lossily
/// otherwise.
pub open spec fn spec_bbcf_name_at(b: Seq<u8>, ms: int, ss: int) -> Seq<char> {
    let field = b.subrange(ms, ms + ss);
    let nb = field.take(spec_find_nul(field)->Some_0);
    if vstd::utf8::valid_utf8(nb) {
        vstd::utf8::decode_utf8(nb)
    } else {
        lossy_str_of(nb)
    }
}

/// Walks the data section, cutting each entry's span from its declared
/// size and skipping its alignment padding.
pub open spec fn spec_bbcf_walk(b: Seq<u8>, ss: int, msize: int, k: int, count: int, pos: int)
    -> Option<(Seq<Seq<u8>>, int)>
    decreases count - k,
{
    if k >= count {
        Some((Seq::empty(), pos))
    } else {
        let size = u32_le_at(b, 0x20 + k * msize + ss + 8) as int;
        let pad = spec_needed_to_align(size, 0x10);
        if pos < 0 || pos + size + pad > b.len() {
            None
        } else {
            match spec_bbcf_walk(b, ss, msize, k + 1, count, pos + size + pad) {
                None => None,
                Some(t) => Some((seq![b.subrange(pos, pos + size)] + t.0, t.1)),
            }
        }
    }
}

/// Decodes an archive: the FPAC header, every metadata record, then the
/// data section walk; `Some((model, end))` gives the position after the
/// last entry's padding.
pub open spec fn spec_parse_bbcf(b: Seq<u8>) -> Option<(BbcfPacModel, int)> {
    if b.len() < 0x20 {
        None
    } else if !(b[0] == 0x46 && b[1] == 0x50 && b[2] == 0x41 && b[3] == 0x43) {
        None
    } else {
        let data_start = u32_le_at(b, 4) as int;
        let count = u32_le_at(b, 12) as int;
        let unknown = u32_le_at(b, 16);
        let ss = u32_le_at(b, 20) as int;
        let msize = spec_bbcf_meta_size(ss);
        if count == 0 {
            None
        } else if 0x20 + count * msize > b.len() {
            None
        } else if !(forall|k: int|
            0 <= k < count ==> #[trigger] spec_bbcf_meta_ok(b, 0x20 + k * msize, ss, msize)) {
            None
        } else if data_start > b.len() {
            None
        } else {
            match spec_bbcf_walk(b, ss, msize, 0, count, data_start) {
                None => None,
                Some(t) => Some(
                    (
                        BbcfPacModel {
                            unknown,
                            files: Seq::new(
                                count as nat,
                                |k: int| BbcfEntryModel {
                                    id: u32_le_at(b, 0x20 + k * msize + ss),
                                    name: spec_bbcf_name_at(b, 0x20 + k * msize, ss),
                                    contents: t.0[k],
                                },
                            ),
                        },
                        t.1,
                    ),
                ),
            }
        }
    }
}

/// Whether `b` carries the compressed-container magic and size fields.
pub open spec fn spec_is_dfas(b: Seq<u8>) -> bool {
    b.len() >= 16 && b[0] == 0x44 && b[1] == 0x46 && b[2] == 0x41 && b[3] == 0x53 && b[4] == 0x46
        && b[5] == 0x50 && b[6] == 0x41 && b[7] == 0x43
}

/// A successful walk yields one span per remaining entry.
pub proof fn lemma_bbcf_walk_len(b: Seq<u8>, ss: int, msize: int, k: int, count: int, pos: int)
    requires
        spec_bbcf_walk(b, ss, msize, k, count, pos) is Some,
    ensures
        spec_bbcf_walk(b, ss, msize, k, count, pos)->Some_0.0.len() == (if count >= k {
            count - k
        } else {
            0
        }),
    decreases count - k,
{
    if k < count {
        let size = u32_le_at(b, 0x20 + k * msize + ss + 8) as int;
        let pad = spec_needed_to_align(size, 0x10);
        lemma_bbcf_walk_len(b, ss, msize, k + 1, count, pos + size + pad);
    }
}

/// The header facts a successful archive decode establishes.
pub open spec fn spec_bbcf_header_facts(
    b: Seq<u8>,
    count: int,
    ss: int,
    msize: int,
    data_start: int,
) -> bool {
    &&& b.len() >= 0x20
    &&& b[0] == 0x46 && b[1] == 0x50 && b[2] == 0x41 && b[3] == 0x43
    &&& count == u32_le_at(b, 12) as int
    &&& count >= 1
    &&& ss == u32_le_at(b, 20) as int
    &&& msize == spec_bbcf_meta_size(ss)
    &&& data_start == u32_le_at(b, 4) as int
    &&& 0x20 + count * msize <= b.len()
}

/// Decodes one uncompressed archive, returning the model and the
/// position after the data section.
#[verifier::rlimit(100)]
fn parse_bbcf_impl(b: &[u8]) -> (r: Result<(BBCFPac, usize), Error>)
    ensures
        match spec_parse_bbcf(b@) {
            Some(t) => r matches Ok(o) && o.0@ == t.0 && o.1 == t.1,
            None => r matches Err(e) && e.is_parser(),
        },
{
    let n_total: usize = b.len();
    if n_total < 0x20 {
        return Err(Error::Parser("archive: truncated header".to_string()));
    }
    if !(read_u8(b, 0) == 0x46 && read_u8(b, 1) == 0x50 && read_u8(b, 2) == 0x41 && read_u8(b, 3)
        == 0x43) {
        return Err(Error::Parser("archive: magic mismatch".to_string()));
    }
    let data_start32 = read_u32_le(b, 4);
    let count32 = read_u32_le(b, 12);
    let unknown = read_u32_le(b, 16);
    let ss32 = read_u32_le(b, 20);
    if count32 == 0 {
        return Err(Error::Parser("archive: no entries".to_string()));
    }
    let msize64: u64 = (ss32 as u64) + 12 + (0x10 - ((ss32 as u64) + 12) % 0x10);
    proof {
        assert(msize64 == spec_bbcf_meta_size(ss32 as int));
    }
    let avail64: u64 = (n_total as u64) - 0x20;
    if (count32 as u64) > avail64 / msize64 {
        proof {
            vstd::arithmetic::div_mod::lemma_fundamental_div_mod(avail64 as int, msize64 as int);
            assert((count32 as int) * (msize64 as int) > avail64 as int) by (nonlinear_arith)
                requires
                    count32 as int >= avail64 as int / (msize64 as int) + 1,
                    msize64 as int >= 16,
                    avail64 as int == (msize64 as int) * (avail64 as int / (msize64 as int)) + (
                    avail64 as int) % (msize64 as int),
                    0 <= (avail64 as int) % (msize64 as int) < msize64 as int;
            assert(spec_parse_bbcf(b@) is None);
        }
        return Err(Error::Parser("archive: metadata past input".to_string()));
    }
    proof {
        vstd::arithmetic::div_mod::lemma_fundamental_div_mod(avail64 as int, msize64 as int);
        assert((count32 as int) * (msize64 as int) <= avail64 as int) by (nonlinear_arith)
            requires
                count32 as int <= avail64 as int / (msize64 as int),
                msize64 as int >= 16,
                avail64 as int == (msize64 as int) * (avail64 as int / (msize64 as int)) + (
                avail64 as int) % (msize64 as int),
                0 <= (avail64 as int) % (msize64 as int);
        assert(1 * (msize64 as int) <= (count32 as int) * (msize64 as int)) by (nonlinear_arith)
            requires count32 >= 1 && msize64 >= 0;
    }
    let count = count32 as usize;
    let ss = ss32 as usize;
    let msize = msize64 as usize;
    let ghost hdr = spec_bbcf_header_facts(
        b@,
        count as int,
        ss as int,
        msize as int,
        data_start32 as int,
    );
    proof {
        assert(hdr);
    }
    let mut names: Vec<String> = Vec::new();
    let mut ids: Vec<u32> = Vec::new();
    let mut sizes: Vec<u32> = Vec::new();
    let mut k: usize = 0;
    while k < count
        invariant
            k <= count,
            n_total == b@.len(),
            count >= 1,
            ss + 12 <= msize,
            0x20 + (count as int) * (msize as int) <= n_total,
            hdr,
            hdr == spec_bbcf_header_facts(b@, count as int, ss as int, msize as int,
            data_start32 as int),
            unknown == u32_le_at(b@, 16),
            names@.len() == k,
            ids@.len() == k,
            sizes@.len() == k,
            forall|j: int|
                0 <= j < k ==> #[trigger] spec_bbcf_meta_ok(b@, 0x20 + j * (msize as int),
                ss as int, msize as int),
            forall|j: int|
                0 <= j < k ==> names@[j]@ == spec_bbcf_name_at(b@, 0x20 + j * (msize as int),
                ss as int),
            forall|j: int|
                0 <= j < k ==> ids@[j] == u32_le_at(b@, 0x20 + j * (msize as int) + ss),
            forall|j: int|
                0 <= j < k ==> sizes@[j] == u32_le_at(b@, 0x20 + j * (msize as int) + ss + 8),
        decreases count - k,
    {
        proof {
            assert((k as int) * (msize as int) + (msize as int) == (k + 1) * (msize as int))
                by (nonlinear_arith);
            assert((k + 1) * (msize as int) <= (count as int) * (msize as int))
                by (nonlinear_arith)
                requires k + 1 <= count && msize >= 0;
        }
        let ms = 0x20 + k * msize;
        let nul = match find_nul_in(b, ms, ss) {
            Some(i) => i,
            None => {
                proof {
                    assert(!spec_bbcf_meta_ok(b@, 0x20 + (k as int) * (msize as int), ss as int,
                        msize as int));
                    assert(spec_parse_bbcf(b@) is None);
                }
                return Err(Error::Parser("archive: entry name unterminated".to_string()));
            },
        };
        if !region_zero(b, ms + ss + 12, ms + msize) {
            proof {
                assert(!spec_bbcf_meta_ok(b@, 0x20 + (k as int) * (msize as int), ss as int,
                    msize as int));
                assert(spec_parse_bbcf(b@) is None);
            }
            return Err(Error::Parser("archive: entry padding not zero".to_string()));
        }
        proof {
            lemma_find_nul(b@.subrange(ms as int, ms + ss));
        }
        let name_slice = vstd::slice::slice_subrange(b, ms, ms + nul);
        let name = crate::helpers::lossy_to_str(name_slice);
        proof {
            let field = b@.subrange(ms as int, ms + ss);
            let nb = field.take(spec_find_nul(field)->Some_0);
            assert(nb =~= b@.subrange(ms as int, ms + nul));
            assert(name@ == spec_bbcf_name_at(b@, ms as int, ss as int));
        }
        names.push(name);
        ids.push(read_u32_le(b, ms + ss));
        sizes.push(read_u32_le(b, ms + ss + 8));
        k = k + 1;
    }
    proof {
        assert(forall|k2: int|
            0 <= k2 < count ==> #[trigger] spec_bbcf_meta_ok(b@, 0x20 + k2 * (msize as int),
            ss as int, msize as int));
    }
    if (data_start32 as u64) > (n_total as u64) {
        proof {
            assert(spec_parse_bbcf(b@) is None);
        }
        return Err(Error::Parser("archive: data section past input".to_string()));
    }
    let data_start = data_start32 as usize;
    let ghost walk_full = spec_bbcf_walk(
        b@,
        ss as int,
        msize as int,
        0,
        count as int,
        data_start as int,
    );
    let mut files: Vec<BBCFPacEntry> = Vec::new();
    let ghost names0 = names@;
    let mut pos: usize = data_start;
    let mut k3: usize = 0;
    proof {
        if walk_full is Some {
            lemma_bbcf_walk_len(b@, ss as int, msize as int, 0, count as int, data_start as int);
            assert(walk_full->Some_0.0.skip(0) =~= walk_full->Some_0.0);
        }
    }
    while k3 < count
        invariant
            k3 <= count,
            n_total == b@.len(),
            count >= 1,
            ss + 12 <= msize,
            0x20 + (count as int) * (msize as int) <= n_total,
            hdr,
            hdr == spec_bbcf_header_facts(b@, count as int, ss as int, msize as int,
            data_start32 as int),
            unknown == u32_le_at(b@, 16),
            data_start == data_start32,
            data_start <= n_total,
            pos <= n_total,
            walk_full == spec_bbcf_walk(b@, ss as int, msize as int, 0, count as int,
            data_start as int),
            forall|j: int|
                0 <= j < count ==> #[trigger] spec_bbcf_meta_ok(b@, 0x20 + j * (msize as int),
                ss as int, msize as int),
            names0.len() == count,
            names@ =~= names0.skip(k3 as int),
            ids@.len() == count,
            sizes@.len() == count,
            files@.len() == k3,
            forall|j: int|
                0 <= j < count ==> names0[j]@ == spec_bbcf_name_at(b@, 0x20 + j * (msize as int),
                ss as int),
            forall|j: int|
                0 <= j < count ==> ids@[j] == u32_le_at(b@, 0x20 + j * (msize as int) + ss),
            forall|j: int|
                0 <= j < count ==> sizes@[j] == u32_le_at(b@, 0x20 + j * (msize as int) + ss + 8),
            match spec_bbcf_walk(b@, ss as int, msize as int, k3 as int, count as int, pos as int) {
                Some(t) => walk_full matches Some(ft) && ft.1 == t.1 && ft.0.len() == count
                    && ft.0.skip(k3 as int) =~= t.0 && (forall|j: int|
                    0 <= j < k3 ==> files@[j]@.contents == ft.0[j]),
                None => walk_full is None,
            },
            forall|j: int|
                0 <= j < k3 ==> files@[j]@.id == ids@[j] && files@[j]@.name == names0[j]@,
        decreases count - k3,
    {
        proof {
            assert((k3 as int) * (msize as int) + (msize as int) == (k3 + 1) * (msize as int))
                by (nonlinear_arith);
            assert((k3 + 1) * (msize as int) <= (count as int) * (msize as int))
                by (nonlinear_arith)
                requires k3 + 1 <= count && msize >= 0;
        }
        let size32 = sizes[k3];
        let size = size32 as usize;
        let pad = needed_to_align(size, 0x10);
        if (size as u64) + (pad as u64) > (n_total as u64) - (pos as u64) {
            proof {
                assert(spec_bbcf_walk(b@, ss as int, msize as int, k3 as int, count as int,
                    pos as int) is None);
                assert(spec_parse_bbcf(b@) is None);
            }
            return Err(Error::Parser("archive: entry contents past input".to_string()));
        }
        let contents_slice = vstd::slice::slice_subrange(b, pos, pos + size);
        let contents = vstd::slice::slice_to_vec(contents_slice);
        let name = names.remove(0);
        let entry = BBCFPacEntry { id: ids[k3], name, contents };
        files.push(entry);
        proof {
            assert(names@ =~= names0.skip(k3 + 1 as int));
            assert(names0.skip(k3 as int)[0] == names0[k3 as int]);
            assert(files@[k3 as int]@.id == ids@[k3 as int]);
            assert(files@[k3 as int]@.name == names0[k3 as int]@);
            match spec_bbcf_walk(b@, ss as int, msize as int, k3 + 1, count as int, pos + size
                + pad) {
                Some(t2) => {
                    assert(spec_bbcf_walk(b@, ss as int, msize as int, k3 as int, count as int,
                        pos as int) == Some((seq![b@.subrange(pos as int, pos + size)] + t2.0,
                        t2.1)));
                    let ft = walk_full->Some_0;
                    assert(ft.0.skip(k3 as int).drop_first() =~= ft.0.skip(k3 + 1 as int));
                    assert(ft.0.skip(k3 as int)[0] == ft.0[k3 as int]);
                    assert(files@[k3 as int]@.contents == ft.0[k3 as int]);
                },
                None => {
                    assert(spec_bbcf_walk(b@, ss as int, msize as int, k3 as int, count as int,
                        pos as int) is None);
                },
            }
        }
        pos = pos + size + pad;
        k3 = k3 + 1;
    }
    let pac = BBCFPac { unknown, files };
    proof {
        assert(spec_bbcf_walk(b@, ss as int, msize as int, count as int, count as int, pos as int)
            == Some((Seq::<Seq<u8>>::empty(), pos as int)));
        assert(walk_full matches Some(ft2) && ft2.1 == pos);
        assert(spec_parse_bbcf(b@) is Some);
        let t = spec_parse_bbcf(b@)->Some_0;
        let ft = walk_full->Some_0;
        assert(ft.0.skip(count as int) =~= Seq::<Seq<u8>>::empty());
        assert forall|j: int| 0 <= j < count implies spec_bbcf_files_view(pac.files@)[j]
            == t.0.files[j] by {
            assert(files@[j]@.contents == ft.0[j]);
            assert(files@[j]@.id == ids@[j]);
            assert(ids@[j] == u32_le_at(b@, 0x20 + j * (msize as int) + ss));
            assert(files@[j]@.name == names0[j]@);
            assert(names0[j]@ == spec_bbcf_name_at(b@, 0x20 + j * (msize as int), ss as int));
            assert(spec_bbcf_files_view(pac.files@)[j] == files@[j]@);
            assert(t.0.files[j] == BbcfEntryModel {
                id: u32_le_at(b@, 0x20 + j * (msize as int) + ss),
                name: spec_bbcf_name_at(b@, 0x20 + j * (msize as int), ss as int),
                contents: ft.0[j],
            });
        }
        assert(spec_bbcf_files_view(pac.files@) =~= t.0.files);
    }
    Ok((pac, pos))
}

impl BBCFPac {
    /// Decodes an archive from raw bytes. A compressed container is
    /// detected and unwrapped when the plain decode fails; either way the
    /// decode must consume its whole input.
    pub fn parse(input: &[u8]) -> (r: Result<BBCFPac, Error>)
        ensures
            ({
                let b = input@;
                match spec_parse_bbcf(b) {
                    Some(t) => if t.1 == b.len() {
                        r matches Ok(p) && p@ == t.0
                    } else {
                        r matches Err(e) && e.is_parser()
                    },
                    None => if spec_is_dfas(b) && inflate_ok(b.skip(16)) {
                        let d = inflate_of(b.skip(16));
                        match spec_parse_bbcf(d) {
                            Some(t) => if t.1 == d.len() {
                                r matches Ok(p) && p@ == t.0
                            } else {
                                r matches Err(e) && e.is_parser()
                            },
                            None => r matches Err(e) && e.is_parser(),
                        }
                    } else {
                        r matches Err(e) && e.is_parser()
                    },
                }
            }),
    {
        let n_total: usize = input.len();
        match parse_bbcf_impl(input) {
            Ok((pac, end)) => {
                if end == n_total {
                    Ok(pac)
                } else {
                    Err(Error::Parser("archive: input not fully consumed".to_string()))
                }
            },
            Err(first) => {
                let is_dfas = n_total >= 16 && read_u8(input, 0) == 0x44 && read_u8(input, 1)
                    == 0x46 && read_u8(input, 2) == 0x41 && read_u8(input, 3) == 0x53 && read_u8(
                    input,
                    4,
                ) == 0x46 && read_u8(input, 5) == 0x50 && read_u8(input, 6) == 0x41 && read_u8(
                    input,
                    7,
                ) == 0x43;
                if !is_dfas {
                    return Err(first);
                }
                let tail = vstd::slice::slice_subrange(input, 16, n_total);
                proof {
                    assert(tail@ =~= input@.skip(16));
                }
                match zlib_decompress(tail) {
                    None => Err(Error::Parser("archive: compressed stream rejected".to_string())),
                    Some(d) => {
                        match parse_bbcf_impl(d.as_slice()) {
                            Ok((pac, end)) => {
                                if end == d.len() {
                                    Ok(pac)
                                } else {
                                    Err(
                                        Error::Parser(
                                            "archive: decompressed input not fully consumed".to_string(),
                                        ),
                                    )
                                }
                            },
                            Err(e) => Err(e),
                        }
                    },
                }
            },
        }
    }
}

// ---------------------------------------------------------------------------
// Round-trip: parsing a rebuilt archive
// ---------------------------------------------------------------------------

/// The data section splits at any entry boundary.
proof fn lemma_bbcf_datas_split(s: Seq<BbcfEntryModel>, k: int)
    requires
        0 <= k <= s.len(),
    ensures
        spec_bbcf_datas(s) == spec_bbcf_datas(s.take(k)) + spec_bbcf_datas(s.skip(k)),
    decreases k,
{
    if k == 0 {
        assert(s.take(0) =~= Seq::<BbcfEntryModel>::empty());
        assert(s.skip(0) =~= s);
        assert(spec_bbcf_datas(s) =~= spec_bbcf_datas(s.take(0)) + spec_bbcf_datas(s.skip(0)));
    } else {
        assert(s.take(k)[0] == s[0]);
        assert(s.take(k).drop_first() =~= s.drop_first().take(k - 1));
        assert(s.skip(k) =~= s.drop_first().skip(k - 1));
        lemma_bbcf_datas_split(s.drop_first(), k - 1);
        assert(spec_bbcf_datas(s.take(k)) == spec_bbcf_data_chunk(s[0]) + spec_bbcf_datas(
            s.drop_first().take(k - 1),
        ));
        vstd::seq_lib::lemma_concat_associative(
            spec_bbcf_data_chunk(s[0]),
            spec_bbcf_datas(s.drop_first().take(k - 1)),
            spec_bbcf_datas(s.drop_first().skip(k - 1)),
        );
    }
}

/// One metadata record is exactly the metadata width.
proof fn lemma_bbcf_meta_chunk_len(e: BbcfEntryModel, ss: int, off: int)
    requires
        ss >= 0,
    ensures
        spec_bbcf_meta_chunk(e, ss, off).len() == spec_bbcf_meta_size(ss),
{
    assert(spec_fixed_bytes(encode_utf8(e.name), ss).len() == ss);
    assert(0 <= (ss + 12) % 0x10 < 0x10);
}

/// The `k`-th metadata record sits `k` record widths into the metadata
/// section, carrying the data offset accumulated over the entries before
/// it.
proof fn lemma_bbcf_metas_chunk_at(s: Seq<BbcfEntryModel>, ss: int, off: int, k: int)
    requires
        ss >= 0,
        0 <= k < s.len(),
    ensures
        ({
            let msize = spec_bbcf_meta_size(ss);
            spec_bbcf_metas(s, ss, off).subrange(k * msize, (k + 1) * msize)
                == spec_bbcf_meta_chunk(s[k], ss, off + spec_bbcf_datas(s.take(k)).len())
        }),
    decreases k,
{
    let msize = spec_bbcf_meta_size(ss);
    lemma_bbcf_metas_len(s, ss, off);
    lemma_bbcf_meta_chunk_len(s[0], ss, off);
    if k == 0 {
        assert(s.take(0) =~= Seq::<BbcfEntryModel>::empty());
        assert(spec_bbcf_datas(s.take(0)).len() == 0);
        assert(spec_bbcf_metas(s, ss, off).subrange(0 * msize, 1 * msize) =~= spec_bbcf_meta_chunk(
            s[0],
            ss,
            off,
        ));
    } else {
        let rest_off = off + spec_bbcf_data_chunk(s[0]).len();
        lemma_bbcf_metas_chunk_at(s.drop_first(), ss, rest_off, k - 1);
        lemma_bbcf_metas_len(s.drop_first(), ss, rest_off);
        assert((k - 1) * msize + msize == k * msize && k * msize + msize == (k + 1) * msize)
            by (nonlinear_arith);
        assert(1 * msize <= k * msize && (k + 1) * msize <= s.len() * msize) by (nonlinear_arith)
            requires 1 <= k && k + 1 <= s.len() && msize >= 0;
        assert((k - 1) * msize >= 0 && k * msize <= (s.len() - 1) * msize) by (nonlinear_arith)
            requires 1 <= k && k <= s.len() - 1 && msize >= 0;
        assert(spec_bbcf_metas(s, ss, off).subrange(k * msize, (k + 1) * msize)
            =~= spec_bbcf_metas(s.drop_first(), ss, rest_off).subrange(
            (k - 1) * msize,
            k * msize,
        ));
        assert(s.drop_first()[k - 1] == s[k]);
        assert(s.take(k)[0] == s[0]);
        assert(s.take(k).drop_first() =~= s.drop_first().take(k - 1));
        assert(spec_bbcf_datas(s.take(k)) == spec_bbcf_data_chunk(s[0]) + spec_bbcf_datas(
            s.drop_first().take(k - 1),
        ));
        assert(rest_off + spec_bbcf_datas(s.drop_first().take(k - 1)).len() == off
            + spec_bbcf_datas(s.take(k)).len());
    }
}

/// The shape of a rebuilt archive: the metadata section's length, the
/// whole encoding's length, and every entry's contents fitting before
/// the end.
#[verifier::rlimit(100)]
#[verifier::spinoff_prover]
proof fn lemma_bbcf_rebuilt_shape(m: BbcfPacModel, k: int)
    requires
        m.files.len() >= 1,
        0 <= k < m.files.len(),
    ensures
        ({
            let b = spec_bbcf_pac_bytes(m);
            let ss = spec_bbcf_string_size(m.files);
            let msize = spec_bbcf_meta_size(ss);
            let count = m.files.len() as int;
            &&& ss >= 0
            &&& ss + 12 < msize <= b.len() - 0x20
            &&& spec_bbcf_metas(m.files, ss, 0).len() == count * msize
            &&& b.len() == 0x20 + count * msize + spec_bbcf_datas(m.files).len()
            &&& (k + 1) * msize <= count * msize
            &&& k * msize >= 0
            &&& spec_bbcf_datas(m.files.take(k)).len() + spec_bbcf_data_chunk(m.files[k]).len()
                == spec_bbcf_datas(m.files.take(k + 1)).len()
            &&& spec_bbcf_datas(m.files.take(k + 1)).len() <= spec_bbcf_datas(m.files).len()
            &&& b.subrange(0x20 + k * msize, 0x20 + (k + 1) * msize) == spec_bbcf_meta_chunk(
                m.files[k],
                ss,
                spec_bbcf_datas(m.files.take(k)).len() as int,
            )
        }),
{
    let b = spec_bbcf_pac_bytes(m);
    let ss = spec_bbcf_string_size(m.files);
    let msize = spec_bbcf_meta_size(ss);
    let count = m.files.len() as int;
    let metas = spec_bbcf_metas(m.files, ss, 0);
    assert(spec_bbcf_max_name(m.files) >= 0) by {
        if spec_bbcf_name_len(m.files[0]) >= spec_bbcf_max_name(m.files.drop_first()) {
        }
    }
    assert(0 <= spec_bbcf_max_name(m.files) % 4 < 4);
    assert(ss >= 0);
    assert(0 <= (ss + 12) % 0x10 < 0x10);
    assert(ss + 12 < msize);
    lemma_bbcf_metas_len(m.files, ss, 0);
    assert(b.len() == 0x20 + count * msize + spec_bbcf_datas(m.files).len());
    assert(1 * msize <= count * msize && (k + 1) * msize <= count * msize && 0 <= k * msize)
        by (nonlinear_arith)
        requires 1 <= count && 0 <= k && k + 1 <= count && msize >= 0;
    assert(m.files.take(k + 1) =~= m.files.take(k).push(m.files[k]));
    lemma_bbcf_datas_push(m.files.take(k), m.files[k]);
    lemma_bbcf_datas_take_len(m.files, k + 1);
    lemma_bbcf_metas_chunk_at(m.files, ss, 0, k);
    lemma_bbcf_meta_chunk_len(m.files[k], ss, spec_bbcf_datas(m.files.take(k)).len() as int);
    assert(k * msize + msize == (k + 1) * msize) by (nonlinear_arith);
    assert(b.subrange(0x20 + k * msize, 0x20 + (k + 1) * msize) =~= metas.subrange(
        k * msize,
        (k + 1) * msize,
    ));
}

/// The dword fields and the trailing padding of one metadata record,
/// by position inside the record.
#[verifier::rlimit(100)]
#[verifier::spinoff_prover]
proof fn lemma_bbcf_meta_chunk_fields(e: BbcfEntryModel, ss: int, off: int)
    requires
        ss >= 0,
    ensures
        ({
            let chunk = spec_bbcf_meta_chunk(e, ss, off);
            let msize = spec_bbcf_meta_size(ss);
            &&& chunk.subrange(0, ss) == spec_fixed_bytes(encode_utf8(e.name), ss)
            &&& chunk.subrange(ss, ss + 4) == u32_le_of(e.id)
            &&& chunk.subrange(ss + 8, ss + 12) == u32_le_of(e.contents.len() as u32)
            &&& forall|j: int| ss + 12 <= j < msize ==> chunk[j] == 0
        }),
{
    let chunk = spec_bbcf_meta_chunk(e, ss, off);
    let msize = spec_bbcf_meta_size(ss);
    lemma_bbcf_meta_chunk_len(e, ss, off);
    assert(spec_fixed_bytes(encode_utf8(e.name), ss).len() == ss);
    assert(chunk.subrange(0, ss) =~= spec_fixed_bytes(encode_utf8(e.name), ss));
    assert(chunk.subrange(ss, ss + 4) =~= u32_le_of(e.id));
    assert(chunk.subrange(ss + 8, ss + 12) =~= u32_le_of(e.contents.len() as u32));
    assert forall|j: int| ss + 12 <= j < msize implies chunk[j] == 0 by {
        assert(chunk[j] == byte_repeat(
            0x00,
            spec_needed_to_align_with_excess(ss + 12, 0x10),
        )[j - (ss + 12)]);
    }
}

/// The terminator scan of a rebuilt name field stops exactly at the end
/// of the encoded name, when the name holds no terminator byte.
proof fn lemma_bbcf_name_field(name: Seq<char>, ss: int)
    requires
        encode_utf8(name).len() < ss,
        forall|j: int| 0 <= j < encode_utf8(name).len() ==> #[trigger] encode_utf8(name)[j] != 0,
    ensures
        ({
            let field = spec_fixed_bytes(encode_utf8(name), ss);
            &&& spec_find_nul(field) == Some(encode_utf8(name).len() as int)
            &&& field.take(encode_utf8(name).len() as int) == encode_utf8(name)
        }),
{
    let enc = encode_utf8(name);
    let field = spec_fixed_bytes(enc, ss);
    assert(field[enc.len() as int] == 0);
    lemma_find_nul(field);
    match spec_find_nul(field) {
        None => {
            assert(field[enc.len() as int] != 0);
        },
        Some(i) => {
            if i < enc.len() {
                assert(field[i] == enc[i]);
                assert(field[i] != 0);
            }
            if i > enc.len() {
                assert(field[enc.len() as int] != 0);
            }
            assert(i == enc.len());
        },
    }
    assert(field.take(enc.len() as int) =~= enc);
}

/// A subrange taken inside a subrange reads the outer sequence.
proof fn lemma_subrange_of_subrange(s: Seq<u8>, a: int, b: int, x: int, y: int)
    requires
        0 <= a <= b <= s.len(),
        0 <= x <= y <= b - a,
    ensures
        s.subrange(a, b).subrange(x, y) == s.subrange(a + x, a + y),
{
    assert(s.subrange(a, b).subrange(x, y) =~= s.subrange(a + x, a + y));
}

/// The fields read back from the `k`-th metadata record of a rebuilt
/// archive: the record is well formed, and the ID, the declared size and
/// the terminated name decode to the entry's own values.
#[verifier::rlimit(100)]
#[verifier::spinoff_prover]
proof fn lemma_bbcf_rebuilt_meta_facts(m: BbcfPacModel, k: int)
    requires
        m.files.len() >= 1,
        spec_bbcf_pac_bytes(m).len() < 0x100000000,
        0 <= k < m.files.len(),
        forall|j: int|
            0 <= j < encode_utf8(m.files[k].name).len() ==> #[trigger] encode_utf8(
                m.files[k].name,
            )[j] != 0,
    ensures
        ({
            let b = spec_bbcf_pac_bytes(m);
            let ss = spec_bbcf_string_size(m.files);
            let msize = spec_bbcf_meta_size(ss);
            let ms = 0x20 + k * msize;
            &&& u32_le_at(b, ms + ss) == m.files[k].id
            &&& u32_le_at(b, ms + ss + 8) as int == m.files[k].contents.len()
            &&& spec_bbcf_meta_ok(b, ms, ss, msize)
            &&& spec_bbcf_name_at(b, ms, ss) == m.files[k].name
        }),
{
    let b = spec_bbcf_pac_bytes(m);
    let ss = spec_bbcf_string_size(m.files);
    let msize = spec_bbcf_meta_size(ss);
    let ms = 0x20 + k * msize;
    let e = m.files[k];
    let enc = encode_utf8(e.name);
    let dk = spec_bbcf_datas(m.files.take(k)).len() as int;
    let chunk = spec_bbcf_meta_chunk(e, ss, dk);
    lemma_bbcf_rebuilt_shape(m, k);
    lemma_bbcf_meta_chunk_len(e, ss, dk);
    lemma_bbcf_meta_chunk_fields(e, ss, dk);
    assert(k * msize + msize == (k + 1) * msize) by (nonlinear_arith);
    assert(b.subrange(ms, ms + msize) == chunk);
    // The contents' declared size fits a dword: the data section holds it.
    lemma_bbcf_datas_split(m.files, k);
    assert(m.files.skip(k)[0] == e);
    assert(m.files.skip(k).drop_first() =~= m.files.skip(k + 1));
    assert(spec_bbcf_datas(m.files.skip(k)) == spec_bbcf_data_chunk(e) + spec_bbcf_datas(
        m.files.skip(k + 1),
    ));
    assert(e.contents.len() <= spec_bbcf_datas(m.files).len());
    assert(e.contents.len() < 0x100000000);
    // The ID and size dwords read back.
    lemma_subrange_of_subrange(b, ms, ms + msize, ss, ss + 4);
    assert(b.subrange(ms + ss, ms + ss + 4) == u32_le_of(e.id));
    lemma_u32_le_rt(e.id);
    assert(b[ms + ss] == u32_le_of(e.id)[0]);
    assert(b[ms + ss + 1] == u32_le_of(e.id)[1]);
    assert(b[ms + ss + 2] == u32_le_of(e.id)[2]);
    assert(b[ms + ss + 3] == u32_le_of(e.id)[3]);
    assert(u32_le_at(b, ms + ss) == e.id);
    lemma_subrange_of_subrange(b, ms, ms + msize, ss + 8, ss + 12);
    assert(b.subrange(ms + ss + 8, ms + ss + 12) == u32_le_of(e.contents.len() as u32));
    lemma_u32_le_rt(e.contents.len() as u32);
    assert(b[ms + ss + 8] == u32_le_of(e.contents.len() as u32)[0]);
    assert(b[ms + ss + 9] == u32_le_of(e.contents.len() as u32)[1]);
    assert(b[ms + ss + 10] == u32_le_of(e.contents.len() as u32)[2]);
    assert(b[ms + ss + 11] == u32_le_of(e.contents.len() as u32)[3]);
    assert(u32_le_at(b, ms + ss + 8) == e.contents.len() as u32);
    // The name field: the encoded name, then zeros up to the field width.
    lemma_bbcf_max_name_ge(m.files, k);
    assert(0 <= spec_bbcf_max_name(m.files) % 4 < 4);
    assert(enc.len() < ss);
    lemma_bbcf_name_field(e.name, ss);
    lemma_subrange_of_subrange(b, ms, ms + msize, 0, ss);
    let field = b.subrange(ms, ms + ss);
    assert(field == spec_fixed_bytes(enc, ss));
    assert(spec_find_nul(field) == Some(enc.len() as int));
    // The trailing padding of the record is all zero.
    assert forall|j: int| ms + ss + 12 <= j < ms + msize implies b[j] == 0 by {
        assert(b[j] == b.subrange(ms, ms + msize)[j - ms]);
        assert(chunk[j - ms] == 0);
    }
    assert(spec_bbcf_meta_ok(b, ms, ss, msize));
    // The name decodes exactly: its bytes are valid UTF-8.
    vstd::utf8::encode_utf8_valid_utf8(e.name);
    vstd::utf8::encode_utf8_decode_utf8(e.name);
    assert(spec_bbcf_name_at(b, ms, ss) == e.name);
}

/// A dword stored at `i` reads back as itself.
proof fn lemma_u32_read_at(b: Seq<u8>, i: int, x: u32)
    requires
        0 <= i,
        i + 4 <= b.len(),
        b.subrange(i, i + 4) == u32_le_of(x),
    ensures
        u32_le_at(b, i) == x,
{
    lemma_u32_le_rt(x);
    assert(b[i] == u32_le_of(x)[0]);
    assert(b[i + 1] == u32_le_of(x)[1]);
    assert(b[i + 2] == u32_le_of(x)[2]);
    assert(b[i + 3] == u32_le_of(x)[3]);
}

/// Walking the data section of a rebuilt archive from the `k`-th entry
/// onward cuts exactly the remaining entries' contents and stops at the
/// end of the encoding.
#[verifier::rlimit(100)]
#[verifier::spinoff_prover]
proof fn lemma_bbcf_walk_of_bytes(m: BbcfPacModel, k: int)
    requires
        m.files.len() >= 1,
        spec_bbcf_pac_bytes(m).len() < 0x100000000,
        0 <= k <= m.files.len(),
        forall|k2: int, j: int|
            0 <= k2 < m.files.len() && 0 <= j < encode_utf8(m.files[k2].name).len()
                ==> #[trigger] encode_utf8(m.files[k2].name)[j] != 0,
    ensures
        ({
            let b = spec_bbcf_pac_bytes(m);
            let ss = spec_bbcf_string_size(m.files);
            let msize = spec_bbcf_meta_size(ss);
            let count = m.files.len() as int;
            let data_start = 0x20 + count * msize;
            spec_bbcf_walk(
                b,
                ss,
                msize,
                k,
                count,
                data_start + spec_bbcf_datas(m.files.take(k)).len(),
            ) == Some(
                (Seq::new((count - k) as nat, |i: int| m.files[k + i].contents), b.len() as int),
            )
        }),
    decreases m.files.len() - k,
{
    let b = spec_bbcf_pac_bytes(m);
    let ss = spec_bbcf_string_size(m.files);
    let msize = spec_bbcf_meta_size(ss);
    let count = m.files.len() as int;
    let data_start = 0x20 + count * msize;
    let datas = spec_bbcf_datas(m.files);
    lemma_bbcf_metas_len(m.files, ss, 0);
    assert(b.len() == data_start + datas.len());
    if k == count {
        assert(m.files.take(k) =~= m.files);
        assert(Seq::new(0nat, |i: int| m.files[k + i].contents) =~= Seq::<Seq<u8>>::empty());
    } else {
        lemma_bbcf_rebuilt_shape(m, k);
        lemma_bbcf_rebuilt_meta_facts(m, k);
        let e = m.files[k];
        let dk = spec_bbcf_datas(m.files.take(k)).len() as int;
        let pos = data_start + dk;
        let size = u32_le_at(b, 0x20 + k * msize + ss + 8) as int;
        assert(size == e.contents.len());
        let pad = spec_needed_to_align(size, 0x10);
        assert(spec_bbcf_data_chunk(e).len() == size + pad);
        assert(pos + size + pad == data_start + spec_bbcf_datas(m.files.take(k + 1)).len());
        assert(pos + size + pad <= b.len());
        lemma_bbcf_walk_of_bytes(m, k + 1);
        lemma_bbcf_datas_split(m.files, k);
        assert(m.files.skip(k)[0] == e);
        assert(m.files.skip(k).drop_first() =~= m.files.skip(k + 1));
        assert(spec_bbcf_datas(m.files.skip(k)) == spec_bbcf_data_chunk(e) + spec_bbcf_datas(
            m.files.skip(k + 1),
        ));
        assert forall|t: int| 0 <= t < size implies b[pos + t] == e.contents[t] by {
            assert(b[pos + t] == datas[dk + t]);
            assert(datas[dk + t] == spec_bbcf_datas(m.files.skip(k))[t]);
            assert(spec_bbcf_datas(m.files.skip(k))[t] == spec_bbcf_data_chunk(e)[t]);
            assert(spec_bbcf_data_chunk(e)[t] == e.contents[t]);
        }
        assert(b.subrange(pos, pos + size) =~= e.contents);
        let tail = Seq::new((count - k - 1) as nat, |i: int| m.files[k + 1 + i].contents);
        assert(spec_bbcf_walk(b, ss, msize, k + 1, count, pos + size + pad) == Some(
            (tail, b.len() as int),
        ));
        assert(spec_bbcf_walk(b, ss, msize, k, count, pos) == Some(
            (seq![b.subrange(pos, pos + size)] + tail, b.len() as int),
        ));
        assert(seq![e.contents] + tail =~= Seq::new(
            (count - k) as nat,
            |i: int| m.files[k + i].contents,
        ));
    }
}

/// Round-trip, archive level: the rebuilt bytes of an archive decode
/// back to the very same model, consuming the whole encoding, provided
/// no entry's name encodes to bytes that contain the terminator byte.
#[verifier::rlimit(100)]
#[verifier::spinoff_prover]
pub proof fn lemma_bbcf_parse_of_bytes(m: BbcfPacModel)
    requires
        m.files.len() >= 1,
        spec_bbcf_pac_bytes(m).len() < 0x100000000,
        forall|k: int, j: int|
            0 <= k < m.files.len() && 0 <= j < encode_utf8(m.files[k].name).len()
                ==> #[trigger] encode_utf8(m.files[k].name)[j] != 0,
    ensures
        spec_parse_bbcf(spec_bbcf_pac_bytes(m)) == Some(
            (m, spec_bbcf_pac_bytes(m).len() as int),
        ),
{
    let b = spec_bbcf_pac_bytes(m);
    let ss = spec_bbcf_string_size(m.files);
    let msize = spec_bbcf_meta_size(ss);
    let count = m.files.len() as int;
    let data_start = 0x20 + count * msize;
    let datas = spec_bbcf_datas(m.files);
    lemma_bbcf_rebuilt_shape(m, 0);
    assert(count <= count * msize && msize <= count * msize) by (nonlinear_arith)
        requires 1 <= count && 1 <= msize;
    assert(count < 0x100000000 && ss < 0x100000000 && data_start < 0x100000000);
    assert(b.subrange(4, 8) =~= u32_le_of(data_start as u32));
    lemma_u32_read_at(b, 4, data_start as u32);
    assert(b.subrange(8, 12) =~= u32_le_of((data_start + datas.len()) as u32));
    lemma_u32_read_at(b, 8, (data_start + datas.len()) as u32);
    assert(b.subrange(12, 16) =~= u32_le_of(count as u32));
    lemma_u32_read_at(b, 12, count as u32);
    assert(b.subrange(16, 20) =~= u32_le_of(m.unknown));
    lemma_u32_read_at(b, 16, m.unknown);
    assert(b.subrange(20, 24) =~= u32_le_of(ss as u32));
    lemma_u32_read_at(b, 20, ss as u32);
    assert(b[0] == 0x46 && b[1] == 0x50 && b[2] == 0x41 && b[3] == 0x43);
    assert forall|k: int| 0 <= k < count implies #[trigger] spec_bbcf_meta_ok(
        b,
        0x20 + k * msize,
        ss,
        msize,
    ) by {
        lemma_bbcf_rebuilt_meta_facts(m, k);
    }
    assert(m.files.take(0) =~= Seq::<BbcfEntryModel>::empty());
    lemma_bbcf_walk_of_bytes(m, 0);
    let walked = spec_bbcf_walk(b, ss, msize, 0, count, data_start);
    assert(walked == Some(
        (Seq::new(count as nat, |i: int| m.files[0 + i].contents), b.len() as int),
    ));
    assert(spec_parse_bbcf(b) is Some);
    let t = spec_parse_bbcf(b)->Some_0;
    assert forall|k: int| 0 <= k < count implies t.0.files[k] == m.files[k] by {
        lemma_bbcf_rebuilt_meta_facts(m, k);
        assert(walked->Some_0.0[k] == m.files[0 + k].contents);
    }
    assert(t.0.files =~= m.files);
    assert(t.0 == m);
    assert(t.1 == b.len());
}

} // verus!
