//! The sprite format used in Blazblue Centralfiction: a header with
//! optional extra dimensions, then a run-length-encoded image, either
//! palette-indexed or raw color.

use vstd::prelude::*;
use crate::error::Error;
use crate::helpers::{u32_le_at, u32_le_of, read_u8, read_u32_le, push_u32_le, push_slice, IndexedImage, RGBAColor};
use crate::bbcf::hpl::spec_bgra_at;

verus! {

/// A contained buffer of pixel (and possibly palette) data stored within
/// a sprite file.
pub enum BBCFHipImage {
    /// A palette-indexed image
    Indexed { width: u32, height: u32, data: IndexedImage },
    /// A raw RGBA image
    Raw { width: u32, height: u32, data: Vec<RGBAColor> },
}

/// The mathematical model of the image payload.
pub ghost enum HipImageModel {
    Indexed { width: u32, height: u32, palette: Seq<RGBAColor>, image: Seq<u8> },
    Raw { width: u32, height: u32, data: Seq<RGBAColor> },
}

impl View for BBCFHipImage {
    type V = HipImageModel;

    open spec fn view(&self) -> HipImageModel {
        match self {
            BBCFHipImage::Indexed { width, height, data } => HipImageModel::Indexed {
                width: *width,
                height: *height,
                palette: data.palette@,
                image: data.image@,
            },
            BBCFHipImage::Raw { width, height, data } => HipImageModel::Raw {
                width: *width,
                height: *height,
                data: data@,
            },
        }
    }
}

impl BBCFHipImage {
    /// The image's own width.
    pub fn width(&self) -> (r: u32)
        ensures
            r == (match self@ {
                HipImageModel::Indexed { width, .. } => width,
                HipImageModel::Raw { width, .. } => width,
            }),
    {
        match self {
            BBCFHipImage::Indexed { width, .. } => *width,
            BBCFHipImage::Raw { width, .. } => *width,
        }
    }

    /// The image's own height.
    pub fn height(&self) -> (r: u32)
        ensures
            r == (match self@ {
                HipImageModel::Indexed { height, .. } => height,
                HipImageModel::Raw { height, .. } => height,
            }),
    {
        match self {
            BBCFHipImage::Indexed { height, .. } => *height,
            BBCFHipImage::Raw { height, .. } => *height,
        }
    }
}

/// The extra header block: actual-image offsets and an opaque remainder.
pub struct BBCFHipExtra {
    pub x_offset: u32,
    pub y_offset: u32,
    pub extra: Vec<u8>,
}

/// The mathematical model of the extra header block.
pub ghost struct HipExtraModel {
    pub x_offset: u32,
    pub y_offset: u32,
    pub extra: Seq<u8>,
}

impl View for BBCFHipExtra {
    type V = HipExtraModel;

    open spec fn view(&self) -> HipExtraModel {
        HipExtraModel { x_offset: self.x_offset, y_offset: self.y_offset, extra: self.extra@ }
    }
}

impl BBCFHipExtra {
    /// The encoded size of the block: its four fixed fields plus the
    /// opaque remainder.
    pub fn size(&self) -> (r: u32)
        requires
            0x10 + self.extra@.len() <= u32::MAX,
        ensures
            r == 0x10 + self.extra@.len(),
    {
        0x10 + self.extra.len() as u32
    }
}

/// The sprite file: header fields and the decoded image.
pub struct BBCFHip {
    pub version: u32,
    /// The texture dimensions from the fixed header; when an extra header
    /// block is present, the actual image dimensions live there instead.
    pub texture_dimensions: (u32, u32),
    pub unknown: u32,
    pub extra_header_data: Option<BBCFHipExtra>,
    pub image: BBCFHipImage,
}

/// The mathematical model of a sprite file.
pub ghost struct HipModel {
    pub version: u32,
    pub texture_dimensions: (u32, u32),
    pub unknown: u32,
    pub extra_header_data: Option<HipExtraModel>,
    pub image: HipImageModel,
}

impl View for BBCFHip {
    type V = HipModel;

    open spec fn view(&self) -> HipModel {
        HipModel {
            version: self.version,
            texture_dimensions: self.texture_dimensions,
            unknown: self.unknown,
            extra_header_data: match self.extra_header_data {
                Some(ref e) => Some(e@),
                None => None,
            },
            image: self.image@,
        }
    }
}

/// The color stored at `i` as alpha, red, green, blue bytes.
pub open spec fn spec_argb_at(b: Seq<u8>, i: int) -> RGBAColor
    recommends
        0 <= i,
        i + 4 <= b.len(),
{
    RGBAColor { red: b[i + 1], green: b[i + 2], blue: b[i + 3], alpha: b[i] }
}

/// Decodes color runs until exactly `need` pixels have been produced: each
/// record is an ARGB color and a repeat count. A stream that never lands
/// exactly on `need` runs into the end of the input and fails.
pub open spec fn spec_parse_argb_runs(b: Seq<u8>, pos: int, need: int) -> Option<
    (Seq<RGBAColor>, int),
>
    decreases b.len() - pos,
{
    if need == 0 {
        Some((Seq::empty(), pos))
    } else if pos < 0 || pos + 5 > b.len() {
        None
    } else {
        let c = spec_argb_at(b, pos);
        let run = b[pos + 4] as int;
        match spec_parse_argb_runs(b, pos + 5, need - run) {
            None => None,
            Some(t) => Some((Seq::new(run as nat, |k: int| c) + t.0, t.1)),
        }
    }
}

/// Decodes index runs until exactly `need` pixels have been produced: each
/// record is a palette index and a repeat count.
pub open spec fn spec_parse_index_runs(b: Seq<u8>, pos: int, need: int) -> Option<(Seq<u8>, int)>
    decreases b.len() - pos,
{
    if need == 0 {
        Some((Seq::empty(), pos))
    } else if pos < 0 || pos + 2 > b.len() {
        None
    } else {
        let v = b[pos];
        let run = b[pos + 1] as int;
        match spec_parse_index_runs(b, pos + 2, need - run) {
            None => None,
            Some(t) => Some((Seq::new(run as nat, |k: int| v) + t.0, t.1)),
        }
    }
}

/// A successful run decode never reads past the input.
pub proof fn lemma_argb_runs_bounds(b: Seq<u8>, pos: int, need: int)
    requires
        0 <= pos <= b.len(),
        spec_parse_argb_runs(b, pos, need) is Some,
    ensures
        pos <= spec_parse_argb_runs(b, pos, need)->Some_0.1 <= b.len(),
    decreases b.len() - pos,
{
    if need != 0 {
        let run = b[pos + 4] as int;
        lemma_argb_runs_bounds(b, pos + 5, need - run);
    }
}

/// A successful run decode never reads past the input.
pub proof fn lemma_index_runs_bounds(b: Seq<u8>, pos: int, need: int)
    requires
        0 <= pos <= b.len(),
        spec_parse_index_runs(b, pos, need) is Some,
    ensures
        pos <= spec_parse_index_runs(b, pos, need)->Some_0.1 <= b.len(),
    decreases b.len() - pos,
{
    if need != 0 {
        let run = b[pos + 1] as int;
        lemma_index_runs_bounds(b, pos + 2, need - run);
    }
}

/// Decodes a whole sprite file, consuming the whole input. An indexed
/// image may carry two trailing zero bytes, which are accepted and
/// dropped.
pub open spec fn spec_parse_hip(b: Seq<u8>) -> Option<HipModel> {
    if b.len() < 0x20 {
        None
    } else if !(b[0] == 0x48 && b[1] == 0x49 && b[2] == 0x50 && b[3] == 0x00) {
        None
    } else {
        let version = u32_le_at(b, 4);
        let palette_size = u32_le_at(b, 12) as int;
        let texture_w = u32_le_at(b, 16);
        let texture_h = u32_le_at(b, 20);
        let unknown = u32_le_at(b, 24);
        let extra_size = u32_le_at(b, 28) as int;
        let has_extra = extra_size >= 0x10;
        if has_extra && (b.len() < 0x30 || 0x20 + extra_size > b.len()) {
            None
        } else {
            let w = if has_extra {
                u32_le_at(b, 0x20)
            } else {
                texture_w
            };
            let h = if has_extra {
                u32_le_at(b, 0x24)
            } else {
                texture_h
            };
            let extra = if has_extra {
                Some(
                    HipExtraModel {
                        x_offset: u32_le_at(b, 0x28),
                        y_offset: u32_le_at(b, 0x2C),
                        extra: b.subrange(0x30, 0x20 + extra_size),
                    },
                )
            } else {
                None
            };
            let img_pos = if has_extra {
                0x20 + extra_size
            } else {
                0x20
            };
            let need = w * h;
            if palette_size > 0 {
                if img_pos + 4 * palette_size > b.len() {
                    None
                } else {
                    let palette = Seq::new(
                        palette_size as nat,
                        |k: int| spec_bgra_at(b, img_pos + 4 * k),
                    );
                    match spec_parse_index_runs(b, img_pos + 4 * palette_size, need) {
                        None => None,
                        Some(t) => {
                            let end = if b.len() - t.1 == 2 && b[t.1] == 0 && b[t.1 + 1] == 0 {
                                t.1 + 2
                            } else {
                                t.1
                            };
                            if end != b.len() {
                                None
                            } else {
                                Some(
                                    HipModel {
                                        version,
                                        texture_dimensions: (texture_w, texture_h),
                                        unknown,
                                        extra_header_data: extra,
                                        image: HipImageModel::Indexed {
                                            width: w,
                                            height: h,
                                            palette,
                                            image: t.0,
                                        },
                                    },
                                )
                            }
                        },
                    }
                }
            } else {
                match spec_parse_argb_runs(b, img_pos, need) {
                    None => None,
                    Some(t) => {
                        if t.1 != b.len() {
                            None
                        } else {
                            Some(
                                HipModel {
                                    version,
                                    texture_dimensions: (texture_w, texture_h),
                                    unknown,
                                    extra_header_data: extra,
                                    image: HipImageModel::Raw { width: w, height: h, data: t.0 },
                                },
                            )
                        }
                    },
                }
            }
        }
    }
}

/// Decodes index runs, accumulating the expanded pixels.
fn parse_index_runs(b: &[u8], pos: usize, need: u64) -> (r: Result<(Vec<u8>, usize), Error>)
    requires
        pos <= b@.len(),
    ensures
        match spec_parse_index_runs(b@, pos as int, need as int) {
            Some(t) => r matches Ok(o) && o.0@ == t.0 && o.1 == t.1,
            None => r matches Err(e) && e.is_parser(),
        },
{
    let n_total: usize = b.len();
    let mut out: Vec<u8> = Vec::new();
    let mut cur: usize = pos;
    let ghost need0: int = need as int;
    loop
        invariant
            pos <= cur <= b@.len(),
            n_total == b@.len(),
            need0 == need as int,
            match spec_parse_index_runs(b@, cur as int, need0 - out@.len()) {
                Some(t) => spec_parse_index_runs(b@, pos as int, need0) == Some((out@ + t.0, t.1)),
                None => spec_parse_index_runs(b@, pos as int, need0) is None,
            },
        decreases b@.len() - cur,
    {
        if out.len() as u64 == need {
            proof {
                assert(need0 - out@.len() == 0);
                assert(spec_parse_index_runs(b@, cur as int, 0) == Some(
                    (Seq::<u8>::empty(), cur as int),
                ));
                assert(out@ + Seq::<u8>::empty() =~= out@);
            }
            return Ok((out, cur));
        }
        proof {
            assert(need0 - out@.len() != 0);
        }
        if n_total - cur < 2 {
            return Err(Error::Parser("sprite: image runs past input".to_string()));
        }
        let v = read_u8(b, cur);
        let run = read_u8(b, cur + 1);
        let ghost o0 = out@;
        let mut j: u8 = 0;
        while j < run
            invariant
                j <= run,
                out@ == o0 + Seq::new(j as nat, |k: int| v),
            decreases run - j,
        {
            out.push(v);
            j = j + 1;
            proof {
                assert(out@ =~= o0 + Seq::new(j as nat, |k: int| v));
            }
        }
        proof {
            let run_i = run as int;
            match spec_parse_index_runs(b@, cur + 2, need0 - o0.len() - run_i) {
                Some(t2) => {
                    assert(spec_parse_index_runs(b@, cur as int, need0 - o0.len()) == Some(
                        (Seq::new(run as nat, |k: int| v) + t2.0, t2.1),
                    ));
                    assert(o0 + (Seq::new(run as nat, |k: int| v) + t2.0) =~= out@ + t2.0);
                },
                None => {
                    assert(spec_parse_index_runs(b@, cur as int, need0 - o0.len()) is None);
                },
            }
        }
        cur = cur + 2;
    }
}

/// Decodes color runs, accumulating the expanded pixels.
fn parse_argb_runs(b: &[u8], pos: usize, need: u64) -> (r: Result<(Vec<RGBAColor>, usize), Error>)
    requires
        pos <= b@.len(),
    ensures
        match spec_parse_argb_runs(b@, pos as int, need as int) {
            Some(t) => r matches Ok(o) && o.0@ == t.0 && o.1 == t.1,
            None => r matches Err(e) && e.is_parser(),
        },
{
    let n_total: usize = b.len();
    let mut out: Vec<RGBAColor> = Vec::new();
    let mut cur: usize = pos;
    let ghost need0: int = need as int;
    loop
        invariant
            pos <= cur <= b@.len(),
            n_total == b@.len(),
            need0 == need as int,
            match spec_parse_argb_runs(b@, cur as int, need0 - out@.len()) {
                Some(t) => spec_parse_argb_runs(b@, pos as int, need0) == Some((out@ + t.0, t.1)),
                None => spec_parse_argb_runs(b@, pos as int, need0) is None,
            },
        decreases b@.len() - cur,
    {
        if out.len() as u64 == need {
            proof {
                assert(need0 - out@.len() == 0);
                assert(spec_parse_argb_runs(b@, cur as int, 0) == Some(
                    (Seq::<RGBAColor>::empty(), cur as int),
                ));
                assert(out@ + Seq::<RGBAColor>::empty() =~= out@);
            }
            return Ok((out, cur));
        }
        proof {
            assert(need0 - out@.len() != 0);
        }
        if n_total - cur < 5 {
            return Err(Error::Parser("sprite: image runs past input".to_string()));
        }
        let c = RGBAColor {
            red: read_u8(b, cur + 1),
            green: read_u8(b, cur + 2),
            blue: read_u8(b, cur + 3),
            alpha: read_u8(b, cur),
        };
        let run = read_u8(b, cur + 4);
        let ghost o0 = out@;
        let mut j: u8 = 0;
        while j < run
            invariant
                j <= run,
                out@ == o0 + Seq::new(j as nat, |k: int| c),
            decreases run - j,
        {
            out.push(c);
            j = j + 1;
            proof {
                assert(out@ =~= o0 + Seq::new(j as nat, |k: int| c));
            }
        }
        proof {
            let run_i = run as int;
            match spec_parse_argb_runs(b@, cur + 5, need0 - o0.len() - run_i) {
                Some(t2) => {
                    assert(spec_parse_argb_runs(b@, cur as int, need0 - o0.len()) == Some(
                        (Seq::new(run as nat, |k: int| c) + t2.0, t2.1),
                    ));
                    assert(o0 + (Seq::new(run as nat, |k: int| c) + t2.0) =~= out@ + t2.0);
                },
                None => {
                    assert(spec_parse_argb_runs(b@, cur as int, need0 - o0.len()) is None);
                },
            }
        }
        cur = cur + 5;
    }
}

impl BBCFHip {
    /// Decodes a whole sprite file from its raw bytes, consuming the
    /// whole input.
    #[verifier::rlimit(100)]
    pub fn parse(input: &[u8]) -> (r: Result<BBCFHip, Error>)
        ensures
            match spec_parse_hip(input@) {
                Some(m) => r matches Ok(o) && o@ == m,
                None => r matches Err(e) && e.is_parser(),
            },
    {
        let n_total: usize = input.len();
        if n_total < 0x20 {
            return Err(Error::Parser("sprite: truncated header".to_string()));
        }
        if !(read_u8(input, 0) == 0x48 && read_u8(input, 1) == 0x49 && read_u8(input, 2) == 0x50
            && read_u8(input, 3) == 0x00) {
            return Err(Error::Parser("sprite: magic mismatch".to_string()));
        }
        let version = read_u32_le(input, 4);
        let palette_size = read_u32_le(input, 12);
        let texture_w = read_u32_le(input, 16);
        let texture_h = read_u32_le(input, 20);
        let unknown = read_u32_le(input, 24);
        let extra_size = read_u32_le(input, 28);
        let has_extra = extra_size >= 0x10;
        if has_extra && (n_total < 0x30 || (extra_size as u64) > (n_total as u64) - 0x20) {
            return Err(Error::Parser("sprite: extra header past input".to_string()));
        }
        let w = if has_extra {
            read_u32_le(input, 0x20)
        } else {
            texture_w
        };
        let h = if has_extra {
            read_u32_le(input, 0x24)
        } else {
            texture_h
        };
        let extra_header_data = if has_extra {
            let tail = vstd::slice::slice_subrange(input, 0x30, 0x20 + (extra_size as usize));
            Some(
                BBCFHipExtra {
                    x_offset: read_u32_le(input, 0x28),
                    y_offset: read_u32_le(input, 0x2C),
                    extra: vstd::slice::slice_to_vec(tail),
                },
            )
        } else {
            None
        };
        let img_pos: usize = if has_extra {
            0x20 + (extra_size as usize)
        } else {
            0x20
        };
        proof {
            assert((w as int) * (h as int) <= 0xFFFFFFFF * 0xFFFFFFFF) by (nonlinear_arith)
                requires w <= 0xFFFFFFFF && h <= 0xFFFFFFFF;
        }
        let need: u64 = (w as u64) * (h as u64);
        if palette_size > 0 {
            if (palette_size as u64) * 4 > (n_total as u64) - (img_pos as u64) {
                proof {
                    assert((img_pos as int) + 4 * (palette_size as int) > n_total);
                }
                return Err(Error::Parser("sprite: palette past input".to_string()));
            }
            proof {
                assert((img_pos as int) + 4 * (palette_size as int) <= n_total);
            }
            let pal_count = palette_size as usize;
            let mut palette: Vec<RGBAColor> = Vec::new();
            let mut k: usize = 0;
            while k < pal_count
                invariant
                    k <= pal_count,
                    img_pos + 4 * (pal_count as int) <= n_total,
                    n_total == input@.len(),
                    palette@.len() == k,
                    forall|j: int|
                        0 <= j < k ==> palette@[j] == spec_bgra_at(input@, img_pos + 4 * j),
                decreases pal_count - k,
            {
                let base = img_pos + 4 * k;
                palette.push(
                    RGBAColor {
                        red: read_u8(input, base + 2),
                        green: read_u8(input, base + 1),
                        blue: read_u8(input, base),
                        alpha: read_u8(input, base + 3),
                    },
                );
                k = k + 1;
            }
            let runs_pos = img_pos + 4 * pal_count;
            let (image, end) = match parse_index_runs(input, runs_pos, need) {
                Err(e) => {
                    return Err(e);
                },
                Ok(t) => t,
            };
            proof {
                lemma_index_runs_bounds(input@, runs_pos as int, need as int);
            }
            let end2 = if n_total - end == 2 && read_u8(input, end) == 0 && read_u8(
                input,
                end + 1,
            ) == 0 {
                end + 2
            } else {
                end
            };
            if end2 != n_total {
                return Err(Error::Parser("sprite: input not fully consumed".to_string()));
            }
            let hip = BBCFHip {
                version,
                texture_dimensions: (texture_w, texture_h),
                unknown,
                extra_header_data,
                image: BBCFHipImage::Indexed {
                    width: w,
                    height: h,
                    data: IndexedImage { palette, image },
                },
            };
            proof {
                let m = spec_parse_hip(input@)->Some_0;
                assert(hip@.image->Indexed_palette =~= m.image->Indexed_palette);
                assert(hip@ == m);
            }
            Ok(hip)
        } else {
            let (data, end) = match parse_argb_runs(input, img_pos, need) {
                Err(e) => {
                    return Err(e);
                },
                Ok(t) => t,
            };
            proof {
                lemma_argb_runs_bounds(input@, img_pos as int, need as int);
            }
            if end != n_total {
                return Err(Error::Parser("sprite: input not fully consumed".to_string()));
            }
            let hip = BBCFHip {
                version,
                texture_dimensions: (texture_w, texture_h),
                unknown,
                extra_header_data,
                image: BBCFHipImage::Raw { width: w, height: h, data },
            };
            Ok(hip)
        }
    }
}


// ---------------------------------------------------------------------------
// Run-length encoding of image data
// ---------------------------------------------------------------------------

/// The length of the run at the head of `s`: how many leading elements
/// equal the first, capped at the one-byte maximum.
pub open spec fn spec_index_run_len(s: Seq<u8>) -> int
    decreases s.len(),
{
    if s.len() == 0 {
        0
    } else if s.len() == 1 {
        1
    } else if s[1] != s[0] {
        1
    } else {
        let r = spec_index_run_len(s.drop_first());
        if r >= 255 {
            255
        } else {
            r + 1
        }
    }
}

/// The head run is between one element and the cap, within the sequence,
/// all its elements equal the first, and it is maximal.
pub proof fn lemma_index_run_len_props(s: Seq<u8>)
    requires
        s.len() > 0,
    ensures
        1 <= spec_index_run_len(s) <= 255,
        spec_index_run_len(s) <= s.len(),
        forall|j: int| 0 <= j < spec_index_run_len(s) ==> #[trigger] s[j] == s[0],
        spec_index_run_len(s) == 255 || spec_index_run_len(s) == s.len() || s[spec_index_run_len(
            s,
        )] != s[0],
    decreases s.len(),
{
    if s.len() > 1 && s[1] == s[0] {
        lemma_index_run_len_props(s.drop_first());
        let r = spec_index_run_len(s);
        assert forall|j: int| 0 <= j < r implies #[trigger] s[j] == s[0] by {
            if j > 0 {
                assert(s.drop_first()[j - 1] == s.drop_first()[0]);
            }
        }
        if r != 255 && r != s.len() {
            assert(s.drop_first()[r - 1] != s.drop_first()[0]);
        }
    }
}

/// A length with the head-run properties is the head-run length.
pub proof fn lemma_index_run_len_exact(s: Seq<u8>, q: int)
    requires
        1 <= q <= 255,
        q <= s.len(),
        forall|j: int| 0 <= j < q ==> #[trigger] s[j] == s[0],
        q == 255 || q == s.len() || s[q] != s[0],
    ensures
        spec_index_run_len(s) == q,
{
    lemma_index_run_len_props(s);
}

/// The run-length encoding of a sequence of palette indexes: each maximal
/// capped run becomes the index byte and its count.
pub open spec fn spec_index_rle(s: Seq<u8>) -> Seq<u8>
    decreases s.len(),
{
    if s.len() == 0 {
        Seq::empty()
    } else {
        let r = if 1 <= spec_index_run_len(s) <= s.len() {
            spec_index_run_len(s)
        } else {
            1
        };
        seq![s[0], r as u8] + spec_index_rle(s.skip(r))
    }
}

/// The length of the run at the head of a color sequence.
pub open spec fn spec_color_run_len(s: Seq<RGBAColor>) -> int
    decreases s.len(),
{
    if s.len() == 0 {
        0
    } else if s.len() == 1 {
        1
    } else if s[1] != s[0] {
        1
    } else {
        let r = spec_color_run_len(s.drop_first());
        if r >= 255 {
            255
        } else {
            r + 1
        }
    }
}

/// The head run of a color sequence is capped, within the sequence, all
/// equal, and maximal.
pub proof fn lemma_color_run_len_props(s: Seq<RGBAColor>)
    requires
        s.len() > 0,
    ensures
        1 <= spec_color_run_len(s) <= 255,
        spec_color_run_len(s) <= s.len(),
        forall|j: int| 0 <= j < spec_color_run_len(s) ==> #[trigger] s[j] == s[0],
        spec_color_run_len(s) == 255 || spec_color_run_len(s) == s.len() || s[spec_color_run_len(
            s,
        )] != s[0],
    decreases s.len(),
{
    if s.len() > 1 && s[1] == s[0] {
        lemma_color_run_len_props(s.drop_first());
        let r = spec_color_run_len(s);
        assert forall|j: int| 0 <= j < r implies #[trigger] s[j] == s[0] by {
            if j > 0 {
                assert(s.drop_first()[j - 1] == s.drop_first()[0]);
            }
        }
        if r != 255 && r != s.len() {
            assert(s.drop_first()[r - 1] != s.drop_first()[0]);
        }
    }
}

/// A length with the head-run properties is the head-run length.
pub proof fn lemma_color_run_len_exact(s: Seq<RGBAColor>, q: int)
    requires
        1 <= q <= 255,
        q <= s.len(),
        forall|j: int| 0 <= j < q ==> #[trigger] s[j] == s[0],
        q == 255 || q == s.len() || s[q] != s[0],
    ensures
        spec_color_run_len(s) == q,
{
    lemma_color_run_len_props(s);
}

/// The run-length encoding of a color sequence: each maximal capped run
/// becomes the color's ARGB bytes and its count.
pub open spec fn spec_argb_rle(s: Seq<RGBAColor>) -> Seq<u8>
    decreases s.len(),
{
    if s.len() == 0 {
        Seq::empty()
    } else {
        let r = if 1 <= spec_color_run_len(s) <= s.len() {
            spec_color_run_len(s)
        } else {
            1
        };
        seq![s[0].alpha, s[0].red, s[0].green, s[0].blue, r as u8] + spec_argb_rle(s.skip(r))
    }
}

/// The RGBA bytes of a palette, four per color.
pub open spec fn spec_rgba_colors_of(s: Seq<RGBAColor>) -> Seq<u8>
    decreases s.len(),
{
    if s.len() == 0 {
        Seq::empty()
    } else {
        seq![s[0].red, s[0].green, s[0].blue, s[0].alpha] + spec_rgba_colors_of(s.drop_first())
    }
}

/// Run-length-encodes a sequence of palette indexes.
pub fn run_encode_indexes(s: &[u8]) -> (r: Vec<u8>)
    ensures
        r@ == spec_index_rle(s@),
{
    let n: usize = s.len();
    let mut out: Vec<u8> = Vec::new();
    let mut rs: usize = 0;
    proof {
        assert(s@.skip(0) =~= s@);
    }
    while rs < n
        invariant
            rs <= n,
            n == s@.len(),
            spec_index_rle(s@) == out@ + spec_index_rle(s@.skip(rs as int)),
        decreases n - rs,
    {
        let x = read_u8(s, rs);
        let mut i: usize = rs + 1;
        while i < n && i - rs < 255 && s[i] == x
            invariant
                rs < i <= n,
                n == s@.len(),
                i - rs <= 255,
                x == s@[rs as int],
                forall|j: int| rs <= j < i ==> s@[j] == s@[rs as int],
            decreases n - i,
        {
            i = i + 1;
        }
        let rl = i - rs;
        proof {
            let suffix = s@.skip(rs as int);
            assert(suffix[0] == s@[rs as int]);
            assert forall|j: int| 0 <= j < rl implies #[trigger] suffix[j] == suffix[0] by {
                assert(s@[rs + j] == s@[rs as int]);
            }
            if rl != 255 && rs + rl != n {
                assert(suffix[rl as int] == s@[rs + rl]);
                assert(s@[rs + rl] != s@[rs as int]);
            }
            lemma_index_run_len_exact(suffix, rl as int);
        }
        let ghost o0 = out@;
        out.push(x);
        out.push(rl as u8);
        proof {
            let suffix = s@.skip(rs as int);
            assert(spec_index_rle(suffix) == seq![suffix[0], rl as u8] + spec_index_rle(
                suffix.skip(rl as int),
            ));
            assert(suffix.skip(rl as int) =~= s@.skip(rs + rl));
            assert(o0 + seq![x, rl as u8] =~= out@);
            assert(o0 + (seq![suffix[0], rl as u8] + spec_index_rle(s@.skip(rs + rl))) =~= out@
                + spec_index_rle(s@.skip(rs + rl)));
        }
        rs = i;
    }
    proof {
        assert(s@.skip(n as int) =~= Seq::<u8>::empty());
    }
    out
}

/// Run-length-encodes a raw color image into ARGB records.
pub fn raw_to_run_encoded(raw: &[RGBAColor]) -> (r: Vec<u8>)
    ensures
        r@ == spec_argb_rle(raw@),
{
    let n: usize = raw.len();
    let mut out: Vec<u8> = Vec::new();
    let mut rs: usize = 0;
    proof {
        assert(raw@.skip(0) =~= raw@);
    }
    while rs < n
        invariant
            rs <= n,
            n == raw@.len(),
            spec_argb_rle(raw@) == out@ + spec_argb_rle(raw@.skip(rs as int)),
        decreases n - rs,
    {
        let x = *vstd::slice::slice_index_get(raw, rs);
        let mut i: usize = rs + 1;
        while i < n && i - rs < 255 && *vstd::slice::slice_index_get(raw, i) == x
            invariant
                rs < i <= n,
                n == raw@.len(),
                i - rs <= 255,
                x == raw@[rs as int],
                forall|j: int| rs <= j < i ==> raw@[j] == raw@[rs as int],
            decreases n - i,
        {
            i = i + 1;
        }
        let rl = i - rs;
        proof {
            let suffix = raw@.skip(rs as int);
            assert(suffix[0] == raw@[rs as int]);
            assert forall|j: int| 0 <= j < rl implies #[trigger] suffix[j] == suffix[0] by {
                assert(raw@[rs + j] == raw@[rs as int]);
            }
            if rl != 255 && rs + rl != n {
                assert(suffix[rl as int] == raw@[rs + rl]);
                assert(raw@[rs + rl] != raw@[rs as int]);
            }
            lemma_color_run_len_exact(suffix, rl as int);
        }
        let ghost o0 = out@;
        out.push(x.alpha);
        out.push(x.red);
        out.push(x.green);
        out.push(x.blue);
        out.push(rl as u8);
        proof {
            let suffix = raw@.skip(rs as int);
            assert(spec_argb_rle(suffix) == seq![
                suffix[0].alpha,
                suffix[0].red,
                suffix[0].green,
                suffix[0].blue,
                rl as u8,
            ] + spec_argb_rle(suffix.skip(rl as int)));
            assert(suffix.skip(rl as int) =~= raw@.skip(rs + rl));
            assert(o0 + seq![x.alpha, x.red, x.green, x.blue, rl as u8] =~= out@);
            assert(o0 + (seq![suffix[0].alpha, suffix[0].red, suffix[0].green, suffix[0].blue, rl
                as u8] + spec_argb_rle(raw@.skip(rs + rl))) =~= out@ + spec_argb_rle(
                raw@.skip(rs + rl),
            ));
        }
        rs = i;
    }
    proof {
        assert(raw@.skip(n as int) =~= Seq::<RGBAColor>::empty());
    }
    out
}

/// Run-length-encodes an indexed image: the palette's RGBA bytes, then
/// the encoded index runs.
pub fn indexed_to_run_encoded(indexed: &IndexedImage) -> (r: Vec<u8>)
    ensures
        r@ == spec_rgba_colors_of(indexed.palette@) + spec_index_rle(indexed.image@),
{
    let mut out: Vec<u8> = Vec::new();
    let mut k: usize = 0;
    while k < indexed.palette.len()
        invariant
            k <= indexed.palette@.len(),
            out@ == spec_rgba_colors_of(indexed.palette@.take(k as int)),
        decreases indexed.palette@.len() - k,
    {
        let c = indexed.palette[k];
        out.push(c.red);
        out.push(c.green);
        out.push(c.blue);
        out.push(c.alpha);
        proof {
            assert(indexed.palette@.take(k + 1 as int) =~= indexed.palette@.take(k as int).push(
                indexed.palette@[k as int],
            ));
            lemma_rgba_colors_of_push(
                indexed.palette@.take(k as int),
                indexed.palette@[k as int],
            );
            assert(out@ =~= spec_rgba_colors_of(indexed.palette@.take(k + 1 as int)));
        }
        k = k + 1;
    }
    proof {
        assert(indexed.palette@.take(indexed.palette@.len() as int) =~= indexed.palette@);
    }
    let runs = run_encode_indexes(indexed.image.as_slice());
    crate::helpers::push_slice(&mut out, runs.as_slice());
    out
}

/// Appending one color appends its four RGBA bytes.
pub proof fn lemma_rgba_colors_of_push(s: Seq<RGBAColor>, c: RGBAColor)
    ensures
        spec_rgba_colors_of(s.push(c)) == spec_rgba_colors_of(s) + seq![
            c.red,
            c.green,
            c.blue,
            c.alpha,
        ],
    decreases s.len(),
{
    if s.len() == 0 {
        assert(s.push(c).drop_first() =~= Seq::<RGBAColor>::empty());
        assert(s.push(c)[0] == c);
        assert(spec_rgba_colors_of(s.push(c)) == seq![c.red, c.green, c.blue, c.alpha]
            + spec_rgba_colors_of(s.push(c).drop_first()));
        assert(spec_rgba_colors_of(s.push(c)) =~= spec_rgba_colors_of(s) + seq![
            c.red,
            c.green,
            c.blue,
            c.alpha,
        ]);
    } else {
        assert(s.push(c)[0] == s[0]);
        assert(s.push(c).drop_first() =~= s.drop_first().push(c));
        lemma_rgba_colors_of_push(s.drop_first(), c);
        assert(spec_rgba_colors_of(s.push(c)) == seq![s[0].red, s[0].green, s[0].blue, s[0].alpha]
            + spec_rgba_colors_of(s.drop_first().push(c)));
        assert(spec_rgba_colors_of(s) == seq![s[0].red, s[0].green, s[0].blue, s[0].alpha]
            + spec_rgba_colors_of(s.drop_first()));
        vstd::seq_lib::lemma_concat_associative(
            seq![s[0].red, s[0].green, s[0].blue, s[0].alpha],
            spec_rgba_colors_of(s.drop_first()),
            seq![c.red, c.green, c.blue, c.alpha],
        );
    }
}


/// The stored width of an image payload.
pub open spec fn spec_hip_image_width(img: HipImageModel) -> u32 {
    match img {
        HipImageModel::Indexed { width, .. } => width,
        HipImageModel::Raw { width, .. } => width,
    }
}

/// The stored height of an image payload.
pub open spec fn spec_hip_image_height(img: HipImageModel) -> u32 {
    match img {
        HipImageModel::Indexed { height, .. } => height,
        HipImageModel::Raw { height, .. } => height,
    }
}

/// The palette length written to the header; zero for a raw image.
pub open spec fn spec_hip_palette_size(img: HipImageModel) -> int {
    match img {
        HipImageModel::Indexed { palette, .. } => palette.len() as int,
        HipImageModel::Raw { .. } => 0,
    }
}

/// The encoded image payload: for an indexed image the palette's RGBA
/// bytes then the run-length-encoded indexes, for a raw image the
/// run-length-encoded color records.
pub open spec fn spec_hip_image_bytes(img: HipImageModel) -> Seq<u8> {
    match img {
        HipImageModel::Indexed { palette, image, .. } => spec_rgba_colors_of(palette)
            + spec_index_rle(image),
        HipImageModel::Raw { data, .. } => spec_argb_rle(data),
    }
}

/// The byte length of the extra header block: its four fixed dwords plus
/// the opaque remainder; zero when the block is absent.
pub open spec fn spec_hip_extra_size(x: Option<HipExtraModel>) -> int {
    match x {
        Some(e) => 0x10 + e.extra.len() as int,
        None => 0,
    }
}

/// The whole encoding of a sprite file: the fixed header, the extra
/// header block when present, the image dimensions once more, then the
/// encoded image payload.
pub open spec fn spec_hip_bytes(m: HipModel) -> Seq<u8> {
    let image_bytes = spec_hip_image_bytes(m.image);
    let w = spec_hip_image_width(m.image);
    let h = spec_hip_image_height(m.image);
    let extra_size = spec_hip_extra_size(m.extra_header_data);
    let file_size = 0x20 + extra_size + image_bytes.len();
    let head = seq![0x48u8, 0x49u8, 0x50u8, 0x00u8] + u32_le_of(m.version) + u32_le_of(
        file_size as u32,
    ) + u32_le_of(spec_hip_palette_size(m.image) as u32);
    let mid = match m.extra_header_data {
        Some(e) => u32_le_of(m.texture_dimensions.0) + u32_le_of(m.texture_dimensions.1)
            + u32_le_of(m.unknown) + u32_le_of((0x10 + e.extra.len()) as u32) + u32_le_of(w)
            + u32_le_of(h) + u32_le_of(e.x_offset) + u32_le_of(e.y_offset) + e.extra,
        None => u32_le_of(w) + u32_le_of(h) + u32_le_of(m.unknown) + u32_le_of(0u32),
    };
    head + mid + u32_le_of(w) + u32_le_of(h) + image_bytes
}

impl BBCFHip {
    /// Rebuilds the sprite file: the fixed header, the extra header
    /// block when present, then the run-length-encoded image.
    #[verifier::rlimit(100)]
    pub fn to_bytes(&self) -> (r: Vec<u8>)
        requires
            spec_hip_palette_size(self@.image) <= u32::MAX,
            spec_hip_extra_size(self@.extra_header_data) <= u32::MAX,
            spec_hip_bytes(self@).len() < 0x100000000,
        ensures
            r@ == spec_hip_bytes(self@),
    {
        let image_bytes: Vec<u8> = match &self.image {
            BBCFHipImage::Indexed { data, .. } => indexed_to_run_encoded(data),
            BBCFHipImage::Raw { data, .. } => raw_to_run_encoded(data.as_slice()),
        };
        proof {
            assert(image_bytes@ == spec_hip_image_bytes(self@.image));
        }
        let w = self.image.width();
        let h = self.image.height();
        let palette_size: u32 = match &self.image {
            BBCFHipImage::Indexed { data, .. } => data.palette.len() as u32,
            BBCFHipImage::Raw { .. } => 0,
        };
        let extra_size: u32 = match &self.extra_header_data {
            Some(e) => e.size(),
            None => 0,
        };
        let mut out: Vec<u8> = Vec::new();
        out.push(0x48u8);
        out.push(0x49u8);
        out.push(0x50u8);
        out.push(0x00u8);
        push_u32_le(&mut out, self.version);
        push_u32_le(&mut out, 0x20 + extra_size + image_bytes.len() as u32);
        push_u32_le(&mut out, palette_size);
        match &self.extra_header_data {
            Some(e) => {
                push_u32_le(&mut out, self.texture_dimensions.0);
                push_u32_le(&mut out, self.texture_dimensions.1);
                push_u32_le(&mut out, self.unknown);
                push_u32_le(&mut out, extra_size);
                push_u32_le(&mut out, w);
                push_u32_le(&mut out, h);
                push_u32_le(&mut out, e.x_offset);
                push_u32_le(&mut out, e.y_offset);
                push_slice(&mut out, e.extra.as_slice());
            },
            None => {
                push_u32_le(&mut out, w);
                push_u32_le(&mut out, h);
                push_u32_le(&mut out, self.unknown);
                push_u32_le(&mut out, 0u32);
            },
        }
        push_u32_le(&mut out, w);
        push_u32_le(&mut out, h);
        push_slice(&mut out, image_bytes.as_slice());
        proof {
            assert(out@ =~= spec_hip_bytes(self@));
        }
        out
    }
}

} // verus!
