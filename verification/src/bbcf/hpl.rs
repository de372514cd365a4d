//! The palette file format used by Blazblue Centralfiction.

use vstd::prelude::*;
use crate::error::Error;
use crate::helpers::{
    u16_le_at, u32_le_at, u16_le_of, u32_le_of, read_u8, read_u16_le, read_u32_le, push_u16_le,
    push_u32_le, RGBAColor,
};

verus! {

/// A palette file: a version field, four unknown fields, and the list of
/// colors, stored as BGRA bytes.
pub struct BBCFHpl {
    pub version: u32,
    pub unknown_data: (u32, u32, u16, u16),
    pub palette: Vec<RGBAColor>,
}

/// The mathematical model of a palette file.
pub ghost struct HplModel {
    pub version: u32,
    pub unknown_data: (u32, u32, u16, u16),
    pub palette: Seq<RGBAColor>,
}

impl View for BBCFHpl {
    type V = HplModel;

    open spec fn view(&self) -> HplModel {
        HplModel {
            version: self.version,
            unknown_data: self.unknown_data,
            palette: self.palette@,
        }
    }
}

/// The color stored at `i` as blue, green, red, alpha bytes.
pub open spec fn spec_bgra_at(b: Seq<u8>, i: int) -> RGBAColor
    recommends
        0 <= i,
        i + 4 <= b.len(),
{
    RGBAColor { red: b[i + 2], green: b[i + 1], blue: b[i], alpha: b[i + 3] }
}

/// The four BGRA bytes of a color.
pub open spec fn spec_bgra_of(c: RGBAColor) -> Seq<u8> {
    seq![c.blue, c.green, c.red, c.alpha]
}

/// The concatenated BGRA encodings of a sequence of colors.
pub open spec fn spec_bgra_colors_of(s: Seq<RGBAColor>) -> Seq<u8>
    decreases s.len(),
{
    if s.len() == 0 {
        Seq::empty()
    } else {
        spec_bgra_of(s[0]) + spec_bgra_colors_of(s.drop_first())
    }
}

/// Appending one color appends its four bytes.
pub proof fn lemma_bgra_colors_of_push(s: Seq<RGBAColor>, c: RGBAColor)
    ensures
        spec_bgra_colors_of(s.push(c)) == spec_bgra_colors_of(s) + spec_bgra_of(c),
    decreases s.len(),
{
    if s.len() == 0 {
        assert(s.push(c).drop_first() =~= Seq::<RGBAColor>::empty());
        assert(s.push(c)[0] == c);
        assert(spec_bgra_colors_of(s.push(c)) == spec_bgra_of(c) + spec_bgra_colors_of(
            s.push(c).drop_first(),
        ));
        assert(spec_bgra_colors_of(s.push(c)) =~= spec_bgra_colors_of(s) + spec_bgra_of(c));
    } else {
        assert(s.push(c)[0] == s[0]);
        assert(s.push(c).drop_first() =~= s.drop_first().push(c));
        lemma_bgra_colors_of_push(s.drop_first(), c);
        assert(spec_bgra_colors_of(s.push(c)) == spec_bgra_of(s[0]) + spec_bgra_colors_of(
            s.drop_first().push(c),
        ));
        assert(spec_bgra_colors_of(s) == spec_bgra_of(s[0]) + spec_bgra_colors_of(s.drop_first()));
        vstd::seq_lib::lemma_concat_associative(
            spec_bgra_of(s[0]),
            spec_bgra_colors_of(s.drop_first()),
            spec_bgra_of(c),
        );
    }
}

/// Total size of the palette file header.
pub const HPL_HEADER_SIZE: usize = 0x20;

/// Decodes a whole palette file: the magic, the header fields, then
/// exactly as many colors as the header declares, consuming the whole
/// input.
pub open spec fn spec_parse_hpl(b: Seq<u8>) -> Option<HplModel> {
    if b.len() < 0x20 {
        None
    } else if !(b[0] == 0x48 && b[1] == 0x50 && b[2] == 0x41 && b[3] == 0x4C) {
        None
    } else {
        let size = u32_le_at(b, 12) as int;
        if b.len() != 0x20 + 4 * size {
            None
        } else {
            Some(
                HplModel {
                    version: u32_le_at(b, 4),
                    unknown_data: (
                        u32_le_at(b, 16),
                        u32_le_at(b, 20),
                        u16_le_at(b, 24),
                        u16_le_at(b, 26),
                    ),
                    palette: Seq::new(size as nat, |k: int| spec_bgra_at(b, 0x20 + 4 * k)),
                },
            )
        }
    }
}

/// The exact byte sequence a palette file encodes to.
pub open spec fn spec_hpl_bytes(m: HplModel) -> Seq<u8> {
    seq![0x48u8, 0x50u8, 0x41u8, 0x4Cu8] + u32_le_of(m.version) + u32_le_of(
        (0x20 + m.palette.len() * 4) as u32,
    ) + u32_le_of(m.palette.len() as u32) + u32_le_of(m.unknown_data.0) + u32_le_of(
        m.unknown_data.1,
    ) + u16_le_of(m.unknown_data.2) + u16_le_of(m.unknown_data.3) + u32_le_of(0)
        + spec_bgra_colors_of(m.palette)
}

impl BBCFHpl {
    /// Decodes a palette file. The magic must match, and the input must
    /// hold exactly the declared number of colors.
    pub fn parse(input: &[u8]) -> (r: Result<BBCFHpl, Error>)
        ensures
            match spec_parse_hpl(input@) {
                Some(m) => r matches Ok(o) && o@ == m,
                None => r matches Err(e) && e.is_parser(),
            },
    {
        let n_total: usize = input.len();
        if n_total < 0x20 {
            return Err(Error::Parser("palette file: truncated header".to_string()));
        }
        if !(read_u8(input, 0) == 0x48 && read_u8(input, 1) == 0x50 && read_u8(input, 2) == 0x41
            && read_u8(input, 3) == 0x4C) {
            return Err(Error::Parser("palette file: magic mismatch".to_string()));
        }
        let size = read_u32_le(input, 12);
        if (n_total as u64) - 0x20 != (size as u64) * 4 {
            return Err(Error::Parser("palette file: size mismatch".to_string()));
        }
        let count = size as usize;
        let mut palette: Vec<RGBAColor> = Vec::new();
        let mut k: usize = 0;
        while k < count
            invariant
                k <= count,
                0x20 + 4 * (count as int) == input@.len(),
                0x20 + 4 * (count as int) <= usize::MAX,
                palette@.len() == k,
                forall|j: int| 0 <= j < k ==> palette@[j] == spec_bgra_at(input@, 0x20 + 4 * j),
            decreases count - k,
        {
            let base = 0x20 + 4 * k;
            let c = RGBAColor {
                red: read_u8(input, base + 2),
                green: read_u8(input, base + 1),
                blue: read_u8(input, base),
                alpha: read_u8(input, base + 3),
            };
            palette.push(c);
            k = k + 1;
        }
        let hpl = BBCFHpl {
            version: read_u32_le(input, 4),
            unknown_data: (
                read_u32_le(input, 16),
                read_u32_le(input, 20),
                read_u16_le(input, 24),
                read_u16_le(input, 26),
            ),
            palette,
        };
        proof {
            let m = spec_parse_hpl(input@)->Some_0;
            assert(hpl@.palette =~= m.palette);
        }
        Ok(hpl)
    }

    /// Encodes the palette file: magic, version, computed file size, the
    /// color count, the unknown fields, a zero pad, then every color as
    /// BGRA bytes.
    pub fn to_bytes(&self) -> (r: Vec<u8>)
        requires
            0x20 + self.palette@.len() * 4 < 0x100000000,
        ensures
            r@ == spec_hpl_bytes(self@),
    {
        let mut out: Vec<u8> = Vec::new();
        out.push(0x48u8);
        out.push(0x50u8);
        out.push(0x41u8);
        out.push(0x4Cu8);
        push_u32_le(&mut out, self.version);
        push_u32_le(&mut out, (0x20 + self.palette.len() * 4) as u32);
        push_u32_le(&mut out, self.palette.len() as u32);
        push_u32_le(&mut out, self.unknown_data.0);
        push_u32_le(&mut out, self.unknown_data.1);
        push_u16_le(&mut out, self.unknown_data.2);
        push_u16_le(&mut out, self.unknown_data.3);
        push_u32_le(&mut out, 0);
        let ghost header = out@;
        let mut k: usize = 0;
        while k < self.palette.len()
            invariant
                k <= self.palette@.len(),
                out@ == header + spec_bgra_colors_of(self.palette@.take(k as int)),
                header == out@.take(header.len() as int),
            decreases self.palette@.len() - k,
        {
            let c = self.palette[k];
            out.push(c.blue);
            out.push(c.green);
            out.push(c.red);
            out.push(c.alpha);
            proof {
                assert(self.palette@.take(k as int).push(self.palette@[k as int])
                    =~= self.palette@.take(k + 1 as int));
                lemma_bgra_colors_of_push(
                    self.palette@.take(k as int),
                    self.palette@[k as int],
                );
                assert(out@ =~= header + spec_bgra_colors_of(self.palette@.take(k + 1 as int)));
            }
            k = k + 1;
        }
        proof {
            assert(self.palette@.take(self.palette@.len() as int) =~= self.palette@);
            assert(out@ =~= spec_hpl_bytes(self@));
        }
        out
    }
}

} // verus!
