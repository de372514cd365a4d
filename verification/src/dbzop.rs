//! PAC archive types for the crossover fighters that wrap their archives
//! in the Zcmp container.

use vstd::prelude::*;
use vstd::string::StringSliceAdditionalSpecFns;
use vstd::utf8::encode_utf8;
use crate::pac::{spec_filename_hash, arcsys_filename_hash, PAC_STYLE_ID_ONLY};
use crate::helpers::{
    u32_le_at, spec_needed_to_align, spec_find_nul, lemma_find_nul, find_nul_in, lossy_str_of,
    lossy_to_str, read_u8, read_u32_le,
};
use crate::error::Error;
use crate::zlib::{inflate_of, inflate_ok};

verus! {

/// The compression wrapper used on the pac.
#[derive(Clone, Copy, PartialEq, Eq, Structural, Debug)]
pub enum Compression {
    /// No whole-file compression
    Uncompressed,
    /// The zlib wrapper found in the crossover fighters
    Zcmp,
    /// The zlib wrapper found in Blazblue Centralfiction
    DfasFPac,
}

/// The payload of a Zcmp compressed container, already decompressed.
pub struct Zcmp {
    pub data: Vec<u8>,
}

/// The payload of a DFASFPAC compressed container, already decompressed.
pub struct DfasFPac {
    pub data: Vec<u8>,
}

/// One archive entry: an optional name, the stored hash, and the raw
/// contents.
pub struct PacEntry {
    pub name: Option<String>,
    pub stored_hash: u32,
    pub contents: Vec<u8>,
}

impl PacEntry {
    /// The hash this entry answers to: the hash of its name when it has
    /// one, else the hash stored in the archive.
    pub fn name_hash(&self) -> (r: u32)
        ensures
            match self.name {
                Some(n) => r == spec_filename_hash(encode_utf8(n@)),
                None => r == self.stored_hash,
            },
    {
        match &self.name {
            Some(name) => arcsys_filename_hash(name.as_str()),
            None => self.stored_hash,
        }
    }
}

/// An archive: its compression wrapper, its style word, its entries.
pub struct Pac {
    pub compression: Compression,
    pub pac_style: u32,
    pub entries: Vec<PacEntry>,
}


/// The model of an archive entry.
pub ghost struct DbzEntryModel {
    pub name: Option<Seq<char>>,
    pub stored_hash: u32,
    pub contents: Seq<u8>,
}

impl View for PacEntry {
    type V = DbzEntryModel;

    open spec fn view(&self) -> DbzEntryModel {
        DbzEntryModel {
            name: match self.name {
                Some(ref s) => Some(s@),
                None => None,
            },
            stored_hash: self.stored_hash,
            contents: self.contents@,
        }
    }
}

/// The model of an archive.
pub ghost struct DbzPacModel {
    pub compression: Compression,
    pub pac_style: u32,
    pub entries: Seq<DbzEntryModel>,
}

/// The models of a sequence of entries.
pub open spec fn spec_dbz_entries_view(s: Seq<PacEntry>) -> Seq<DbzEntryModel> {
    s.map_values(|e: PacEntry| e@)
}

impl View for Pac {
    type V = DbzPacModel;

    open spec fn view(&self) -> DbzPacModel {
        DbzPacModel {
            compression: self.compression,
            pac_style: self.pac_style,
            entries: spec_dbz_entries_view(self.entries@),
        }
    }
}

// ---------------------------------------------------------------------------
// Decoding
// ---------------------------------------------------------------------------

/// The name decoded from a fixed-width field: the bytes before the first
/// terminator, decoded exactly when they are valid UTF-8 and lossily
/// otherwise.
pub open spec fn spec_dbz_name_of(field: Seq<u8>) -> Seq<char> {
    let nb = field.take(spec_find_nul(field)->Some_0);
    if vstd::utf8::valid_utf8(nb) {
        vstd::utf8::decode_utf8(nb)
    } else {
        lossy_str_of(nb)
    }
}

/// Decodes the one metadata record at `pos` and its contents: the
/// fixed-width name field unless the archive is hash-only, the entry's
/// index, its data offset, its size, the stored name hash, then padding
/// up to a 16-byte boundary; `Some((entry, next))` gives the position of
/// the following record.
pub open spec fn spec_dbz_entry_at(d: Seq<u8>, ds: int, ss: int, named: bool, pos: int)
    -> Option<(DbzEntryModel, int)> {
    let fixed = if named {
        ss + 16
    } else {
        16
    };
    if pos < 0 || pos + fixed > d.len() {
        None
    } else if named && spec_find_nul(d.subrange(pos, pos + ss)) is None {
        None
    } else {
        let base = pos + (if named {
            ss
        } else {
            0
        });
        let off = u32_le_at(d, base + 4) as int;
        let size = u32_le_at(d, base + 8) as int;
        let hash = u32_le_at(d, base + 12);
        if ds < 0 || ds + off + size > d.len() {
            None
        } else {
            let name = if named {
                Some(spec_dbz_name_of(d.subrange(pos, pos + ss)))
            } else {
                None
            };
            let e = DbzEntryModel {
                name,
                stored_hash: hash,
                contents: d.subrange(ds + off, ds + off + size),
            };
            Some((e, pos + fixed + spec_needed_to_align(pos + fixed, 0x10)))
        }
    }
}

/// Decodes the metadata records and contents of the entries from `k`
/// onward, the record at `pos` first.
pub open spec fn spec_dbz_entries(
    d: Seq<u8>,
    ds: int,
    ss: int,
    named: bool,
    k: int,
    count: int,
    pos: int,
) -> Option<Seq<DbzEntryModel>>
    decreases count - k,
{
    if k >= count {
        Some(Seq::empty())
    } else {
        match spec_dbz_entry_at(d, ds, ss, named, pos) {
            None => None,
            Some(t) => match spec_dbz_entries(d, ds, ss, named, k + 1, count, t.1) {
                None => None,
                Some(rest) => Some(seq![t.0] + rest),
            },
        }
    }
}

/// A successful entry walk yields one entry per remaining slot.
pub proof fn lemma_dbz_entries_len(
    d: Seq<u8>,
    ds: int,
    ss: int,
    named: bool,
    k: int,
    count: int,
    pos: int,
)
    requires
        spec_dbz_entries(d, ds, ss, named, k, count, pos) is Some,
    ensures
        spec_dbz_entries(d, ds, ss, named, k, count, pos)->Some_0.len() == (if count >= k {
            count - k
        } else {
            0
        }),
    decreases count - k,
{
    if k < count {
        let t = spec_dbz_entry_at(d, ds, ss, named, pos)->Some_0;
        lemma_dbz_entries_len(d, ds, ss, named, k + 1, count, t.1);
    }
}

/// Decodes one metadata record and its contents, returning the entry
/// and the position of the next record.
#[verifier::rlimit(100)]
fn parse_dbz_entry(d: &[u8], ds: u64, ss: u64, named: bool, pos: u64) -> (r: Result<
    (PacEntry, u64),
    Error,
>)
    requires
        ds < 0x100000000,
        ss < 0x100000000,
        d@.len() <= 0xFFFFFFFF,
        pos <= d@.len() + 15,
    ensures
        match spec_dbz_entry_at(d@, ds as int, ss as int, named, pos as int) {
            Some(t) => r matches Ok(o) && o.0@ == t.0 && o.1 == t.1,
            None => r matches Err(e) && e.is_parser(),
        },
{
    let n_total: usize = d.len();
    let fixed: u64 = if named {
        ss + 16
    } else {
        16
    };
    if fixed > n_total as u64 || pos > n_total as u64 - fixed {
        return Err(Error::Parser("archive: metadata past input".to_string()));
    }
    let p = pos as usize;
    let nul: usize = if named {
        match find_nul_in(d, p, ss as usize) {
            Some(i) => i,
            None => {
                return Err(Error::Parser("archive: entry name unterminated".to_string()));
            },
        }
    } else {
        0
    };
    let base: usize = if named {
        p + ss as usize
    } else {
        p
    };
    let off = read_u32_le(d, base + 4);
    let size = read_u32_le(d, base + 8);
    let hash = read_u32_le(d, base + 12);
    if ds + off as u64 + size as u64 > n_total as u64 {
        return Err(Error::Parser("archive: entry contents past input".to_string()));
    }
    let cstart = (ds + off as u64) as usize;
    let contents_slice = vstd::slice::slice_subrange(d, cstart, cstart + size as usize);
    let contents = vstd::slice::slice_to_vec(contents_slice);
    let name: Option<String> = if named {
        proof {
            lemma_find_nul(d@.subrange(p as int, p + ss));
        }
        let name_slice = vstd::slice::slice_subrange(d, p, p + nul);
        let name = lossy_to_str(name_slice);
        proof {
            let field = d@.subrange(p as int, p + ss);
            assert(field.take(spec_find_nul(field)->Some_0) =~= d@.subrange(p as int, p + nul));
            assert(name@ == spec_dbz_name_of(field));
        }
        Some(name)
    } else {
        None
    };
    let entry = PacEntry { name, stored_hash: hash, contents };
    let used = pos + fixed;
    let next: u64 = used + ((0x10 - used % 0x10) % 0x10);
    proof {
        assert(next as int == pos + fixed + spec_needed_to_align(pos + fixed as int, 0x10));
    }
    Ok((entry, next))
}

/// Decodes one uncompressed archive body: the FPAC header, then the
/// entry walk; the archive records the given compression wrapper. A
/// body longer than the 32-bit offsets can address is rejected.
pub open spec fn spec_parse_dbz_fpac(d: Seq<u8>, comp: Compression) -> Option<DbzPacModel> {
    if d.len() < 0x20 || d.len() > 0xFFFFFFFF {
        None
    } else if !(d[0] == 0x46 && d[1] == 0x50 && d[2] == 0x41 && d[3] == 0x43) {
        None
    } else {
        let ds = u32_le_at(d, 4) as int;
        let count = u32_le_at(d, 12) as int;
        let bits = u32_le_at(d, 16);
        let ss = u32_le_at(d, 20) as int;
        let named = bits & PAC_STYLE_ID_ONLY != PAC_STYLE_ID_ONLY && ss > 0;
        match spec_dbz_entries(d, ds, ss, named, 0, count, 0x20) {
            None => None,
            Some(es) => Some(DbzPacModel { compression: comp, pac_style: bits, entries: es }),
        }
    }
}

/// Decodes an archive from raw bytes: a bare FPAC body, or one wrapped
/// whole in a zlib stream behind either compressed-container magic.
pub open spec fn spec_parse_dbz_pac(b: Seq<u8>) -> Option<DbzPacModel> {
    if b.len() >= 4 && b[0] == 0x46 && b[1] == 0x50 && b[2] == 0x41 && b[3] == 0x43 {
        spec_parse_dbz_fpac(b, Compression::Uncompressed)
    } else if b.len() >= 16 && b[0] == 0x5A && b[1] == 0x43 && b[2] == 0x4D && b[3] == 0x50 {
        if inflate_ok(b.skip(16)) {
            spec_parse_dbz_fpac(inflate_of(b.skip(16)), Compression::Zcmp)
        } else {
            None
        }
    } else if b.len() >= 16 && b[0] == 0x44 && b[1] == 0x46 && b[2] == 0x41 && b[3] == 0x53
        && b[4] == 0x46 && b[5] == 0x50 && b[6] == 0x41 && b[7] == 0x43 {
        if inflate_ok(b.skip(16)) {
            spec_parse_dbz_fpac(inflate_of(b.skip(16)), Compression::DfasFPac)
        } else {
            None
        }
    } else {
        None
    }
}

/// Decodes one uncompressed archive body, recording `comp` as its
/// compression wrapper.
#[verifier::rlimit(100)]
fn parse_dbz_impl(d: &[u8], comp: Compression) -> (r: Result<Pac, Error>)
    ensures
        match spec_parse_dbz_fpac(d@, comp) {
            Some(m) => r matches Ok(p) && p@ == m,
            None => r matches Err(e) && e.is_parser(),
        },
{
    let n_total: usize = d.len();
    if n_total < 0x20 {
        return Err(Error::Parser("archive: truncated header".to_string()));
    }
    if n_total as u64 > 0xFFFFFFFF {
        return Err(Error::Parser("archive: input too large".to_string()));
    }
    if !(read_u8(d, 0) == 0x46 && read_u8(d, 1) == 0x50 && read_u8(d, 2) == 0x41 && read_u8(d, 3)
        == 0x43) {
        return Err(Error::Parser("archive: magic mismatch".to_string()));
    }
    let ds32 = read_u32_le(d, 4);
    let count32 = read_u32_le(d, 12);
    let bits = read_u32_le(d, 16);
    let ss32 = read_u32_le(d, 20);
    let named = bits & PAC_STYLE_ID_ONLY != PAC_STYLE_ID_ONLY && ss32 > 0;
    let ds = ds32 as u64;
    let ss = ss32 as u64;
    let count = count32 as usize;
    let ghost full = spec_dbz_entries(d@, ds as int, ss as int, named, 0, count as int, 0x20);
    proof {
        if full is Some {
            lemma_dbz_entries_len(d@, ds as int, ss as int, named, 0, count as int, 0x20);
            assert(full->Some_0.skip(0) =~= full->Some_0);
        }
    }
    let mut entries: Vec<PacEntry> = Vec::new();
    let mut pos: u64 = 0x20;
    let mut k: usize = 0;
    while k < count
        invariant
            k <= count,
            n_total == d@.len(),
            n_total >= 0x20,
            n_total <= 0xFFFFFFFF,
            d@[0] == 0x46 && d@[1] == 0x50 && d@[2] == 0x41 && d@[3] == 0x43,
            ds32 == u32_le_at(d@, 4),
            count == u32_le_at(d@, 12) as int,
            bits == u32_le_at(d@, 16),
            ss32 == u32_le_at(d@, 20),
            ds == ds32 as u64,
            ss == ss32 as u64,
            named == (bits & PAC_STYLE_ID_ONLY != PAC_STYLE_ID_ONLY && ss32 > 0),
            pos <= n_total as u64 + 15,
            full == spec_dbz_entries(d@, ds as int, ss as int, named, 0, count as int, 0x20),
            entries@.len() == k,
            match spec_dbz_entries(d@, ds as int, ss as int, named, k as int, count as int,
                pos as int) {
                Some(t) => full matches Some(ft) && ft.len() == count && ft.skip(k as int) =~= t
                    && (forall|j: int| 0 <= j < k ==> entries@[j]@ == ft[j]),
                None => full is None,
            },
        decreases count - k,
    {
        let t = match parse_dbz_entry(d, ds, ss, named, pos) {
            Ok(t) => t,
            Err(e) => {
                proof {
                    assert(spec_dbz_entries(d@, ds as int, ss as int, named, k as int,
                        count as int, pos as int) is None);
                }
                return Err(e);
            },
        };
        entries.push(t.0);
        proof {
            assert(t.1 <= n_total as u64 + 15);
            match spec_dbz_entries(d@, ds as int, ss as int, named, k + 1, count as int,
                t.1 as int) {
                Some(rest) => {
                    let ft = full->Some_0;
                    assert(ft.skip(k as int).drop_first() =~= ft.skip(k + 1 as int));
                    assert(ft.skip(k as int)[0] == ft[k as int]);
                    assert(entries@[k as int]@ == ft[k as int]);
                },
                None => {
                },
            }
        }
        pos = t.1;
        k = k + 1;
    }
    let pac = Pac { compression: comp, pac_style: bits, entries };
    proof {
        assert(spec_dbz_entries(d@, ds as int, ss as int, named, count as int, count as int,
            pos as int) == Some(Seq::<DbzEntryModel>::empty()));
        assert(full is Some);
        let ft = full->Some_0;
        assert(spec_parse_dbz_fpac(d@, comp) is Some);
        let m = spec_parse_dbz_fpac(d@, comp)->Some_0;
        assert(spec_dbz_entries_view(pac.entries@) =~= ft);
        assert(m.entries == ft);
        assert(pac@ == m);
    }
    Ok(pac)
}

impl Pac {
    /// Decodes an archive from raw bytes. A compressed container behind
    /// either wrapper magic is inflated whole and decoded; the wrapper
    /// used is recorded on the result.
    pub fn parse(input: &[u8]) -> (r: Result<Pac, Error>)
        ensures
            match spec_parse_dbz_pac(input@) {
                Some(m) => r matches Ok(p) && p@ == m,
                None => r matches Err(e) && e.is_parser(),
            },
    {
        let n_total: usize = input.len();
        let is_fpac = n_total >= 4 && read_u8(input, 0) == 0x46 && read_u8(input, 1) == 0x50
            && read_u8(input, 2) == 0x41 && read_u8(input, 3) == 0x43;
        if is_fpac {
            return parse_dbz_impl(input, Compression::Uncompressed);
        }
        let is_zcmp = n_total >= 16 && read_u8(input, 0) == 0x5A && read_u8(input, 1) == 0x43
            && read_u8(input, 2) == 0x4D && read_u8(input, 3) == 0x50;
        let is_dfas = !is_zcmp && n_total >= 16 && read_u8(input, 0) == 0x44 && read_u8(input, 1)
            == 0x46 && read_u8(input, 2) == 0x41 && read_u8(input, 3) == 0x53 && read_u8(input, 4)
            == 0x46 && read_u8(input, 5) == 0x50 && read_u8(input, 6) == 0x41 && read_u8(input, 7)
            == 0x43;
        if !is_zcmp && !is_dfas {
            return Err(Error::Parser("archive: unknown container magic".to_string()));
        }
        let tail = vstd::slice::slice_subrange(input, 16, n_total);
        proof {
            assert(tail@ =~= input@.skip(16));
        }
        match crate::zlib::zlib_decompress(tail) {
            None => Err(Error::Parser("archive: compressed stream rejected".to_string())),
            Some(d) => {
                if is_zcmp {
                    parse_dbz_impl(d.as_slice(), Compression::Zcmp)
                } else {
                    parse_dbz_impl(d.as_slice(), Compression::DfasFPac)
                }
            },
        }
    }
}

} // verus!
