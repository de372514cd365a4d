//! Shared utilities: alignment arithmetic, fixed-size string buffers,
//! byte-order primitives and colors used by the format codecs.

use vstd::prelude::*;
use vstd::arithmetic::div_mod::lemma_fundamental_div_mod;
use vstd::arithmetic::div_mod::lemma_fundamental_div_mod_converse;
use vstd::string::StringSliceAdditionalSpecFns;

verus! {

// ---------------------------------------------------------------------------
// Alignment arithmetic
// ---------------------------------------------------------------------------

/// Bytes needed to bring `size` up to the next multiple of `step`;
/// zero when already aligned.
pub open spec fn spec_needed_to_align(size: int, step: int) -> int
    recommends
        step > 0,
{
    if size % step == 0 {
        0
    } else {
        step - size % step
    }
}

/// Bytes needed to reach the next multiple of `step`, always at least one:
/// an already aligned size gets a full extra `step`.
pub open spec fn spec_needed_to_align_with_excess(size: int, step: int) -> int
    recommends
        step > 0,
{
    step - size % step
}

/// `size` rounded up to the next multiple of `step`.
pub open spec fn spec_pad_to_nearest(size: int, step: int) -> int
    recommends
        step > 0,
{
    size + spec_needed_to_align(size, step)
}

/// `size` rounded up to the next multiple of `step`, with a full extra
/// `step` when already aligned.
pub open spec fn spec_pad_to_nearest_with_excess(size: int, step: int) -> int
    recommends
        step > 0,
{
    size + spec_needed_to_align_with_excess(size, step)
}

/// Bytes needed to bring `size` up to the next multiple of `step`.
pub fn needed_to_align(size: usize, step: usize) -> (r: usize)
    requires
        step > 0,
    ensures
        r == spec_needed_to_align(size as int, step as int),
        r < step,
{
    let rem = size % step;
    if rem == 0 {
        0
    } else {
        step - rem
    }
}

/// Bytes needed to reach the next multiple of `step`, always at least one.
pub fn needed_to_align_with_excess(size: usize, step: usize) -> (r: usize)
    requires
        step > 0,
    ensures
        r == spec_needed_to_align_with_excess(size as int, step as int),
        1 <= r <= step,
{
    let rem = size % step;
    step - rem
}

/// `size` rounded up to the next multiple of `step`.
pub fn pad_to_nearest(size: usize, step: usize) -> (r: usize)
    requires
        step > 0,
        size + step <= usize::MAX,
    ensures
        r == spec_pad_to_nearest(size as int, step as int),
{
    let rem = size % step;
    if rem == 0 {
        size
    } else {
        size + (step - rem)
    }
}

/// `size` rounded up to the next multiple of `step`, with a full extra
/// `step` when already aligned.
pub fn pad_to_nearest_with_excess(size: usize, step: usize) -> (r: usize)
    requires
        step > 0,
        size + step <= usize::MAX,
    ensures
        r == spec_pad_to_nearest_with_excess(size as int, step as int),
{
    let rem = size % step;
    size + (step - rem)
}

// ---------------------------------------------------------------------------
// Leftover-input check
// ---------------------------------------------------------------------------

/// Succeeds exactly when the parser consumed the whole input slice.
pub fn slice_consumed(slice: &[u8]) -> (r: Result<(), crate::error::Error>)
    ensures
        r is Ok <==> slice@.len() == 0,
        r matches Err(e) ==> e.is_parser(),
{
    if slice.len() == 0 {
        Ok(())
    } else {
        Err(crate::error::Error::Parser("Full slice not consumed".to_string()))
    }
}

// ---------------------------------------------------------------------------
// Fixed-length string buffers
// ---------------------------------------------------------------------------

/// `b` truncated or null-padded to exactly `size` bytes.
pub open spec fn spec_fixed_bytes(b: Seq<u8>, size: int) -> Seq<u8>
    recommends
        0 <= size,
{
    if b.len() >= size {
        b.take(size)
    } else {
        b + Seq::new((size - b.len()) as nat, |i: int| 0u8)
    }
}

/// Turns a string into a fixed-length vector of bytes, adding null bytes to
/// meet the required length. Will truncate the input to the desired size if
/// the string is too long.
pub fn string_to_fixed_bytes(string: &str, size: usize) -> (r: Vec<u8>)
    ensures
        r@ == spec_fixed_bytes(string.spec_bytes(), size as int),
        r@.len() == size,
{
    let bytes = string.as_bytes();
    let n: usize = if bytes.len() < size {
        bytes.len()
    } else {
        size
    };
    let mut out: Vec<u8> = Vec::new();
    let mut i: usize = 0;
    while i < n
        invariant
            i <= n,
            n <= bytes@.len(),
            n <= size,
            out@ == bytes@.subrange(0, i as int),
        decreases n - i,
    {
        out.push(bytes[i]);
        i = i + 1;
        proof {
            assert(out@ =~= bytes@.subrange(0, i as int));
        }
    }
    while out.len() < size
        invariant
            n <= size,
            n <= bytes@.len(),
            n <= out@.len() <= size,
            out@ =~= bytes@.subrange(0, n as int) + Seq::new((out@.len() - n) as nat, |k: int| 0u8),
        decreases size - out.len(),
    {
        out.push(0u8);
        proof {
            assert(out@ =~= bytes@.subrange(0, n as int) + Seq::new(
                (out@.len() - n) as nat,
                |k: int| 0u8,
            ));
        }
    }
    proof {
        if bytes@.len() >= size {
            assert(out@ =~= string.spec_bytes().take(size as int));
        } else {
            assert(out@ =~= string.spec_bytes() + Seq::new(
                (size - bytes@.len()) as nat,
                |k: int| 0u8,
            ));
        }
    }
    out
}

// ---------------------------------------------------------------------------
// Byte-order primitives
// ---------------------------------------------------------------------------

/// The little-endian u16 stored at `b[i..i+2]`.
pub open spec fn u16_le_at(b: Seq<u8>, i: int) -> u16
    recommends
        0 <= i,
        i + 2 <= b.len(),
{
    (b[i] + b[i + 1] * 0x100) as u16
}

/// The little-endian u32 stored at `b[i..i+4]`.
pub open spec fn u32_le_at(b: Seq<u8>, i: int) -> u32
    recommends
        0 <= i,
        i + 4 <= b.len(),
{
    (b[i] + b[i + 1] * 0x100 + b[i + 2] * 0x10000 + b[i + 3] * 0x1000000) as u32
}

/// The big-endian u32 stored at `b[i..i+4]`.
pub open spec fn u32_be_at(b: Seq<u8>, i: int) -> u32
    recommends
        0 <= i,
        i + 4 <= b.len(),
{
    (b[i + 3] + b[i + 2] * 0x100 + b[i + 1] * 0x10000 + b[i] * 0x1000000) as u32
}

/// The two little-endian bytes of `x`.
pub open spec fn u16_le_of(x: u16) -> Seq<u8> {
    seq![(x as int % 0x100) as u8, (x as int / 0x100) as u8]
}

/// The four little-endian bytes of `x`.
pub open spec fn u32_le_of(x: u32) -> Seq<u8> {
    seq![
        (x as int % 0x100) as u8,
        (x as int / 0x100 % 0x100) as u8,
        (x as int / 0x10000 % 0x100) as u8,
        (x as int / 0x1000000) as u8,
    ]
}

/// The four big-endian bytes of `x`.
pub open spec fn u32_be_of(x: u32) -> Seq<u8> {
    seq![
        (x as int / 0x1000000) as u8,
        (x as int / 0x10000 % 0x100) as u8,
        (x as int / 0x100 % 0x100) as u8,
        (x as int % 0x100) as u8,
    ]
}

/// The i16 with the same bit pattern as `x`.
pub open spec fn i16_of_u16(x: u16) -> i16 {
    if x < 0x8000 {
        x as i16
    } else {
        (x - 0x10000) as i16
    }
}

/// The u16 with the same bit pattern as `v`.
pub open spec fn u16_of_i16(v: i16) -> u16 {
    if v >= 0 {
        v as u16
    } else {
        (v + 0x10000) as u16
    }
}

/// The two little-endian bytes of `v`.
pub open spec fn i16_le_of(v: i16) -> Seq<u8> {
    u16_le_of(u16_of_i16(v))
}

/// The little-endian i16 stored at `b[i..i+2]`.
pub open spec fn i16_le_at(b: Seq<u8>, i: int) -> i16
    recommends
        0 <= i,
        i + 2 <= b.len(),
{
    i16_of_u16(u16_le_at(b, i))
}

pub fn read_u8(b: &[u8], pos: usize) -> (r: u8)
    requires
        pos < b@.len(),
    ensures
        r == b@[pos as int],
{
    b[pos]
}

pub fn read_u16_le(b: &[u8], pos: usize) -> (r: u16)
    requires
        pos + 2 <= b@.len(),
    ensures
        r == u16_le_at(b@, pos as int),
{
    let n: usize = b.len();
    proof { assert(pos + 2 <= usize::MAX); }
    let lo = b[pos] as u16;
    let hi = b[pos + 1] as u16;
    lo + hi * 0x100
}

pub fn read_u32_le(b: &[u8], pos: usize) -> (r: u32)
    requires
        pos + 4 <= b@.len(),
    ensures
        r == u32_le_at(b@, pos as int),
{
    let n: usize = b.len();
    proof { assert(pos + 4 <= usize::MAX); }
    let b0 = b[pos] as u32;
    let b1 = b[pos + 1] as u32;
    let b2 = b[pos + 2] as u32;
    let b3 = b[pos + 3] as u32;
    b0 + b1 * 0x100 + b2 * 0x10000 + b3 * 0x1000000
}

pub fn read_u32_be(b: &[u8], pos: usize) -> (r: u32)
    requires
        pos + 4 <= b@.len(),
    ensures
        r == u32_be_at(b@, pos as int),
{
    let n: usize = b.len();
    proof { assert(pos + 4 <= usize::MAX); }
    let b0 = b[pos + 3] as u32;
    let b1 = b[pos + 2] as u32;
    let b2 = b[pos + 1] as u32;
    let b3 = b[pos] as u32;
    b0 + b1 * 0x100 + b2 * 0x10000 + b3 * 0x1000000
}

pub fn read_i16_le(b: &[u8], pos: usize) -> (r: i16)
    requires
        pos + 2 <= b@.len(),
    ensures
        r == i16_le_at(b@, pos as int),
{
    let n: usize = b.len();
    proof { assert(pos + 2 <= usize::MAX); }
    let u = read_u16_le(b, pos);
    if u < 0x8000 {
        u as i16
    } else {
        ((u as i32) - 0x10000) as i16
    }
}

pub fn push_u16_le(out: &mut Vec<u8>, x: u16)
    ensures
        final(out)@ == old(out)@ + u16_le_of(x),
{
    out.push((x % 0x100) as u8);
    out.push((x / 0x100) as u8);
    proof {
        assert(out@ =~= old(out)@ + u16_le_of(x));
    }
}

pub fn push_u32_le(out: &mut Vec<u8>, x: u32)
    ensures
        final(out)@ == old(out)@ + u32_le_of(x),
{
    out.push((x % 0x100) as u8);
    out.push((x / 0x100 % 0x100) as u8);
    out.push((x / 0x10000 % 0x100) as u8);
    out.push((x / 0x1000000) as u8);
    proof {
        assert(out@ =~= old(out)@ + u32_le_of(x));
    }
}

pub fn push_u32_be(out: &mut Vec<u8>, x: u32)
    ensures
        final(out)@ == old(out)@ + u32_be_of(x),
{
    out.push((x / 0x1000000) as u8);
    out.push((x / 0x10000 % 0x100) as u8);
    out.push((x / 0x100 % 0x100) as u8);
    out.push((x % 0x100) as u8);
    proof {
        assert(out@ =~= old(out)@ + u32_be_of(x));
    }
}

pub fn push_i16_le(out: &mut Vec<u8>, v: i16)
    ensures
        final(out)@ == old(out)@ + i16_le_of(v),
{
    let u: u16 = if v >= 0 {
        v as u16
    } else {
        ((v as i32) + 0x10000) as u16
    };
    push_u16_le(out, u);
}

/// Appends `s` to `out`.
pub fn push_slice(out: &mut Vec<u8>, s: &[u8])
    ensures
        final(out)@ == old(out)@ + s@,
{
    let mut i: usize = 0;
    while i < s.len()
        invariant
            i <= s@.len(),
            out@ == old(out)@ + s@.subrange(0, i as int),
        decreases s@.len() - i,
    {
        out.push(s[i]);
        i = i + 1;
        proof {
            assert(out@ =~= old(out)@ + s@.subrange(0, i as int));
        }
    }
    proof {
        assert(s@.subrange(0, s@.len() as int) =~= s@);
    }
}

/// Appends `n` copies of `byte` to `out`.
pub fn push_repeat(out: &mut Vec<u8>, byte: u8, n: usize)
    ensures
        final(out)@ == old(out)@ + Seq::new(n as nat, |k: int| byte),
{
    let mut i: usize = 0;
    while i < n
        invariant
            i <= n,
            out@ == old(out)@ + Seq::new(i as nat, |k: int| byte),
        decreases n - i,
    {
        out.push(byte);
        i = i + 1;
        proof {
            assert(out@ =~= old(out)@ + Seq::new(i as nat, |k: int| byte));
        }
    }
}

// ---------------------------------------------------------------------------
// Round-trip lemmas for the byte-order primitives
// ---------------------------------------------------------------------------

proof fn lemma_split_digit(a: int, k: int)
    requires
        0 <= a < 0x100,
        0 <= k,
    ensures
        (a + 0x100 * k) % 0x100 == a,
        (a + 0x100 * k) / 0x100 == k,
{
    lemma_fundamental_div_mod_converse(a + 0x100 * k, 0x100, k, a);
}

/// Reading back the two little-endian bytes of `x` yields `x`.
pub proof fn lemma_u16_le_rt(x: u16)
    ensures
        u16_le_of(x).len() == 2,
        u16_le_at(u16_le_of(x), 0) == x,
{
    lemma_fundamental_div_mod(x as int, 0x100);
}

/// The little-endian encoding of the u16 at `b[i..i+2]` is exactly those bytes.
pub proof fn lemma_u16_le_of_at(b: Seq<u8>, i: int)
    requires
        0 <= i,
        i + 2 <= b.len(),
    ensures
        u16_le_of(u16_le_at(b, i)) == b.subrange(i, i + 2),
{
    let v = u16_le_at(b, i) as int;
    lemma_split_digit(b[i] as int, b[i + 1] as int);
    assert(v % 0x100 == b[i]);
    assert(v / 0x100 == b[i + 1]);
    assert(u16_le_of(u16_le_at(b, i)) =~= b.subrange(i, i + 2));
}

/// Reading back the four little-endian bytes of `x` yields `x`.
pub proof fn lemma_u32_le_rt(x: u32)
    ensures
        u32_le_of(x).len() == 4,
        u32_le_at(u32_le_of(x), 0) == x,
{
    assert(x as int % 0x100 + (x as int / 0x100 % 0x100) * 0x100 + (x as int / 0x10000 % 0x100)
        * 0x10000 + (x as int / 0x1000000) * 0x1000000 == x) by {
        assert(x % 0x100 + (x / 0x100 % 0x100) * 0x100 + (x / 0x10000 % 0x100) * 0x10000 + (x
            / 0x1000000) * 0x1000000 == x) by (bit_vector);
    }
}

/// The little-endian encoding of the u32 at `b[i..i+4]` is exactly those bytes.
pub proof fn lemma_u32_le_of_at(b: Seq<u8>, i: int)
    requires
        0 <= i,
        i + 4 <= b.len(),
    ensures
        u32_le_of(u32_le_at(b, i)) == b.subrange(i, i + 4),
{
    let v = u32_le_at(b, i) as int;
    let k1 = b[i + 1] + b[i + 2] * 0x100 + b[i + 3] * 0x10000;
    lemma_split_digit(b[i] as int, k1);
    assert(v % 0x100 == b[i]);
    assert(v / 0x100 == k1);
    let k2 = b[i + 2] + b[i + 3] * 0x100;
    lemma_split_digit(b[i + 1] as int, k2);
    assert(k1 % 0x100 == b[i + 1]);
    assert(k1 / 0x100 == k2);
    let k3 = b[i + 3] as int;
    lemma_split_digit(b[i + 2] as int, k3);
    assert(k2 % 0x100 == b[i + 2]);
    assert(k2 / 0x100 == k3);
    assert(v / 0x10000 == k2) by {
        vstd::arithmetic::div_mod::lemma_div_denominator(v, 0x100, 0x100);
    }
    assert(v / 0x1000000 == k3) by {
        vstd::arithmetic::div_mod::lemma_div_denominator(v, 0x10000, 0x100);
    }
    assert(v / 0x10000 % 0x100 == b[i + 2]);
    assert(u32_le_of(u32_le_at(b, i)) =~= b.subrange(i, i + 4));
}

/// The little-endian encoding of the i16 at `b[i..i+2]` is exactly those bytes.
pub proof fn lemma_i16_le_of_at(b: Seq<u8>, i: int)
    requires
        0 <= i,
        i + 2 <= b.len(),
    ensures
        i16_le_of(i16_le_at(b, i)) == b.subrange(i, i + 2),
{
    lemma_u16_i16_rt(u16_le_at(b, i));
    lemma_u16_le_of_at(b, i);
}

// ---------------------------------------------------------------------------
// Sequences of little-endian i16 values
// ---------------------------------------------------------------------------

/// The concatenated little-endian encodings of a sequence of i16 values.
pub open spec fn i16s_le_of(s: Seq<i16>) -> Seq<u8>
    decreases s.len(),
{
    if s.len() == 0 {
        Seq::empty()
    } else {
        i16_le_of(s[0]) + i16s_le_of(s.drop_first())
    }
}

/// The encoding of a sequence of i16 values is two bytes per value.
pub proof fn lemma_i16s_le_of_len(s: Seq<i16>)
    ensures
        i16s_le_of(s).len() == 2 * s.len(),
    decreases s.len(),
{
    if s.len() > 0 {
        lemma_i16s_le_of_len(s.drop_first());
    }
}

/// Appending one value appends its two bytes.
pub proof fn lemma_i16s_le_of_push(s: Seq<i16>, v: i16)
    ensures
        i16s_le_of(s.push(v)) == i16s_le_of(s) + i16_le_of(v),
    decreases s.len(),
{
    if s.len() == 0 {
        assert(s.push(v).drop_first() =~= Seq::<i16>::empty());
        assert(s.push(v)[0] == v);
        assert(i16s_le_of(s.push(v)) == i16_le_of(v) + i16s_le_of(s.push(v).drop_first()));
        assert(i16s_le_of(s.push(v)) =~= i16s_le_of(s) + i16_le_of(v));
    } else {
        assert(s.push(v)[0] == s[0]);
        assert(s.push(v).drop_first() =~= s.drop_first().push(v));
        lemma_i16s_le_of_push(s.drop_first(), v);
        assert(i16s_le_of(s.push(v)) == i16_le_of(s[0]) + i16s_le_of(s.drop_first().push(v)));
        assert(i16s_le_of(s) == i16_le_of(s[0]) + i16s_le_of(s.drop_first()));
        vstd::seq_lib::lemma_concat_associative(
            i16_le_of(s[0]),
            i16s_le_of(s.drop_first()),
            i16_le_of(v),
        );
    }
}

/// Appends the little-endian encodings of all values to `out`.
pub fn push_i16s_le(out: &mut Vec<u8>, vals: &Vec<i16>)
    ensures
        final(out)@ == old(out)@ + i16s_le_of(vals@),
{
    let mut k: usize = 0;
    while k < vals.len()
        invariant
            k <= vals@.len(),
            out@ == old(out)@ + i16s_le_of(vals@.take(k as int)),
        decreases vals@.len() - k,
    {
        push_i16_le(out, vals[k]);
        proof {
            assert(vals@.take(k as int).push(vals@[k as int]) =~= vals@.take(k + 1 as int));
            lemma_i16s_le_of_push(vals@.take(k as int), vals@[k as int]);
            assert(out@ =~= old(out)@ + i16s_le_of(vals@.take(k + 1 as int)));
        }
        k = k + 1;
    }
    proof {
        assert(vals@.take(vals@.len() as int) =~= vals@);
    }
}

/// The encoding of the `n` i16 values stored at `start` is exactly those
/// bytes.
pub proof fn lemma_i16s_le_of_at(b: Seq<u8>, start: int, n: int)
    requires
        0 <= n,
        0 <= start,
        start + 2 * n <= b.len(),
    ensures
        i16s_le_of(Seq::new(n as nat, |k: int| i16_le_at(b, start + 2 * k))) == b.subrange(
            start,
            start + 2 * n,
        ),
    decreases n,
{
    let s = Seq::new(n as nat, |k: int| i16_le_at(b, start + 2 * k));
    if n == 0 {
        assert(i16s_le_of(s) =~= b.subrange(start, start));
    } else {
        lemma_i16_le_of_at(b, start);
        lemma_i16s_le_of_at(b, start + 2, n - 1);
        assert(s.drop_first() =~= Seq::new((n - 1) as nat, |k: int| i16_le_at(b, start + 2 + 2 * k)));
        assert(i16s_le_of(s) == i16_le_of(i16_le_at(b, start)) + i16s_le_of(s.drop_first()));
        assert(i16s_le_of(s) =~= b.subrange(start, start + 2 * n));
    }
}

/// Reading back the encoding of a sequence of i16 values, at any offset of
/// a longer buffer, yields each value.
pub proof fn lemma_i16s_le_at_of(c: Seq<u8>, start: int, s: Seq<i16>)
    requires
        0 <= start,
        start + 2 * s.len() <= c.len(),
        c.subrange(start, start + 2 * s.len()) == i16s_le_of(s),
    ensures
        forall|k: int| 0 <= k < s.len() ==> i16_le_at(c, start + 2 * k) == s[k],
    decreases s.len(),
{
    lemma_i16s_le_of_len(s);
    if s.len() > 0 {
        let first = i16_le_of(s[0]);
        assert(c[start] == i16s_le_of(s)[0]);
        assert(c[start + 1] == i16s_le_of(s)[1]);
        assert(i16s_le_of(s)[0] == first[0]);
        assert(i16s_le_of(s)[1] == first[1]);
        assert(i16_le_at(c, start) == s[0]) by {
            lemma_u16_le_rt(u16_of_i16(s[0]));
            lemma_i16_u16_rt(s[0]);
        }
        lemma_i16s_le_of_len(s.drop_first());
        assert(i16s_le_of(s) == i16_le_of(s[0]) + i16s_le_of(s.drop_first()));
        assert forall|j: int| 0 <= j < 2 * (s.drop_first().len() as int) implies c.subrange(
            start + 2,
            start + 2 + 2 * (s.drop_first().len() as int),
        )[j] == i16s_le_of(s.drop_first())[j] by {
            assert((i16_le_of(s[0]) + i16s_le_of(s.drop_first()))[2 + j] == i16s_le_of(
                s.drop_first(),
            )[j]);
            assert(c.subrange(start, start + 2 * (s.len() as int))[2 + j] == c[start + 2 + j]);
        }
        assert(c.subrange(start + 2, start + 2 + 2 * (s.drop_first().len() as int)) =~= i16s_le_of(
            s.drop_first(),
        ));
        lemma_i16s_le_at_of(c, start + 2, s.drop_first());
        assert forall|k: int| 0 <= k < s.len() implies i16_le_at(c, start + 2 * k) == s[k] by {
            if k > 0 {
                assert(i16_le_at(c, start + 2 + 2 * (k - 1)) == s.drop_first()[k - 1]);
            }
        }
    }
}

// ---------------------------------------------------------------------------
// Repeated bytes and sequences of 32-bit values
// ---------------------------------------------------------------------------

/// `n` copies of `byte`.
pub open spec fn byte_repeat(byte: u8, n: int) -> Seq<u8>
    recommends
        0 <= n,
{
    Seq::new(n as nat, |k: int| byte)
}

/// The concatenated little-endian encodings of a sequence of u32 values.
pub open spec fn u32s_le_of(s: Seq<u32>) -> Seq<u8>
    decreases s.len(),
{
    if s.len() == 0 {
        Seq::empty()
    } else {
        u32_le_of(s[0]) + u32s_le_of(s.drop_first())
    }
}

/// The concatenated big-endian encodings of a sequence of u32 values.
pub open spec fn u32s_be_of(s: Seq<u32>) -> Seq<u8>
    decreases s.len(),
{
    if s.len() == 0 {
        Seq::empty()
    } else {
        u32_be_of(s[0]) + u32s_be_of(s.drop_first())
    }
}

/// The little-endian encoding of a sequence of u32 values is four bytes per
/// value.
pub proof fn lemma_u32s_le_of_len(s: Seq<u32>)
    ensures
        u32s_le_of(s).len() == 4 * s.len(),
    decreases s.len(),
{
    if s.len() > 0 {
        lemma_u32s_le_of_len(s.drop_first());
    }
}

/// The big-endian encoding of a sequence of u32 values is four bytes per
/// value.
pub proof fn lemma_u32s_be_of_len(s: Seq<u32>)
    ensures
        u32s_be_of(s).len() == 4 * s.len(),
    decreases s.len(),
{
    if s.len() > 0 {
        lemma_u32s_be_of_len(s.drop_first());
    }
}

/// Appending one value appends its four little-endian bytes.
pub proof fn lemma_u32s_le_of_push(s: Seq<u32>, v: u32)
    ensures
        u32s_le_of(s.push(v)) == u32s_le_of(s) + u32_le_of(v),
    decreases s.len(),
{
    if s.len() == 0 {
        assert(s.push(v).drop_first() =~= Seq::<u32>::empty());
        assert(s.push(v)[0] == v);
        assert(u32s_le_of(s.push(v)) == u32_le_of(v) + u32s_le_of(s.push(v).drop_first()));
        assert(u32s_le_of(s.push(v)) =~= u32s_le_of(s) + u32_le_of(v));
    } else {
        assert(s.push(v)[0] == s[0]);
        assert(s.push(v).drop_first() =~= s.drop_first().push(v));
        lemma_u32s_le_of_push(s.drop_first(), v);
        assert(u32s_le_of(s.push(v)) == u32_le_of(s[0]) + u32s_le_of(s.drop_first().push(v)));
        assert(u32s_le_of(s) == u32_le_of(s[0]) + u32s_le_of(s.drop_first()));
        vstd::seq_lib::lemma_concat_associative(
            u32_le_of(s[0]),
            u32s_le_of(s.drop_first()),
            u32_le_of(v),
        );
    }
}

/// Appending one value appends its four big-endian bytes.
pub proof fn lemma_u32s_be_of_push(s: Seq<u32>, v: u32)
    ensures
        u32s_be_of(s.push(v)) == u32s_be_of(s) + u32_be_of(v),
    decreases s.len(),
{
    if s.len() == 0 {
        assert(s.push(v).drop_first() =~= Seq::<u32>::empty());
        assert(s.push(v)[0] == v);
        assert(u32s_be_of(s.push(v)) == u32_be_of(v) + u32s_be_of(s.push(v).drop_first()));
        assert(u32s_be_of(s.push(v)) =~= u32s_be_of(s) + u32_be_of(v));
    } else {
        assert(s.push(v)[0] == s[0]);
        assert(s.push(v).drop_first() =~= s.drop_first().push(v));
        lemma_u32s_be_of_push(s.drop_first(), v);
        assert(u32s_be_of(s.push(v)) == u32_be_of(s[0]) + u32s_be_of(s.drop_first().push(v)));
        assert(u32s_be_of(s) == u32_be_of(s[0]) + u32s_be_of(s.drop_first()));
        vstd::seq_lib::lemma_concat_associative(
            u32_be_of(s[0]),
            u32s_be_of(s.drop_first()),
            u32_be_of(v),
        );
    }
}

/// Appends the little-endian encodings of all values to `out`.
pub fn push_u32s_le(out: &mut Vec<u8>, vals: &Vec<u32>)
    ensures
        final(out)@ == old(out)@ + u32s_le_of(vals@),
{
    let mut k: usize = 0;
    while k < vals.len()
        invariant
            k <= vals@.len(),
            out@ == old(out)@ + u32s_le_of(vals@.take(k as int)),
        decreases vals@.len() - k,
    {
        push_u32_le(out, vals[k]);
        proof {
            assert(vals@.take(k as int).push(vals@[k as int]) =~= vals@.take(k + 1 as int));
            lemma_u32s_le_of_push(vals@.take(k as int), vals@[k as int]);
            assert(out@ =~= old(out)@ + u32s_le_of(vals@.take(k + 1 as int)));
        }
        k = k + 1;
    }
    proof {
        assert(vals@.take(vals@.len() as int) =~= vals@);
    }
}

/// Appends the big-endian encodings of all values to `out`.
pub fn push_u32s_be(out: &mut Vec<u8>, vals: &Vec<u32>)
    ensures
        final(out)@ == old(out)@ + u32s_be_of(vals@),
{
    let mut k: usize = 0;
    while k < vals.len()
        invariant
            k <= vals@.len(),
            out@ == old(out)@ + u32s_be_of(vals@.take(k as int)),
        decreases vals@.len() - k,
    {
        push_u32_be(out, vals[k]);
        proof {
            assert(vals@.take(k as int).push(vals@[k as int]) =~= vals@.take(k + 1 as int));
            lemma_u32s_be_of_push(vals@.take(k as int), vals@[k as int]);
            assert(out@ =~= old(out)@ + u32s_be_of(vals@.take(k + 1 as int)));
        }
        k = k + 1;
    }
    proof {
        assert(vals@.take(vals@.len() as int) =~= vals@);
    }
}

// ---------------------------------------------------------------------------
// Lossy text decoding and NUL scanning
// ---------------------------------------------------------------------------

/// The characters that lossy UTF-8 decoding yields for `b`.
pub uninterp spec fn lossy_str_of(b: Seq<u8>) -> Seq<char>;

/// Relies on String::from_utf8_lossy: the result depends on the bytes
/// alone, an empty input gives an empty string, and input that is valid
/// UTF-8 is converted without any replacement, so it decodes exactly.
#[verifier::external_body]
pub(crate) fn lossy_to_str(i: &[u8]) -> (r: String)
    ensures
        r@ == lossy_str_of(i@),
        i@.len() == 0 ==> r@.len() == 0,
        vstd::utf8::valid_utf8(i@) ==> r@ == vstd::utf8::decode_utf8(i@),
{
    String::from_utf8_lossy(i).to_string()
}

/// The position of the first zero byte of `s`, when one exists.
pub open spec fn spec_find_nul(s: Seq<u8>) -> Option<int>
    decreases s.len(),
{
    if s.len() == 0 {
        None
    } else if s[0] == 0 {
        Some(0)
    } else {
        match spec_find_nul(s.drop_first()) {
            None => None,
            Some(i) => Some(i + 1),
        }
    }
}

/// The found position is the first zero byte; when none is found, no byte
/// is zero.
pub proof fn lemma_find_nul(s: Seq<u8>)
    ensures
        match spec_find_nul(s) {
            Some(i) => 0 <= i < s.len() && s[i] == 0 && (forall|j: int|
                0 <= j < i ==> s[j] != 0),
            None => forall|j: int| 0 <= j < s.len() ==> s[j] != 0,
        },
    decreases s.len(),
{
    if s.len() > 0 && s[0] != 0 {
        lemma_find_nul(s.drop_first());
        match spec_find_nul(s.drop_first()) {
            Some(i) => {
                assert forall|j: int| 0 <= j < i + 1 implies s[j] != 0 by {
                    if j > 0 {
                        assert(s.drop_first()[j - 1] != 0);
                    }
                }
            },
            None => {
                assert forall|j: int| 0 <= j < s.len() implies s[j] != 0 by {
                    if j > 0 {
                        assert(s.drop_first()[j - 1] != 0);
                    }
                }
            },
        }
    }
}

/// Finds the first zero byte of `b[start..start + width]`.
pub fn find_nul_in(b: &[u8], start: usize, width: usize) -> (r: Option<usize>)
    requires
        start + width <= b@.len(),
    ensures
        ({
            let field = b@.subrange(start as int, start + width);
            match spec_find_nul(field) {
                Some(i) => r matches Some(x) && x == i,
                None => r is None,
            }
        }),
{
    let total: usize = b.len();
    let ghost field = b@.subrange(start as int, start + width);
    proof {
        lemma_find_nul(field);
        assert(start + width <= total);
    }
    let mut k: usize = 0;
    while k < width
        invariant
            k <= width,
            start + width <= b@.len(),
            start + width <= usize::MAX,
            field == b@.subrange(start as int, start + width),
            forall|j: int| 0 <= j < k ==> field[j] != 0,
        decreases width - k,
    {
        if read_u8(b, start + k) == 0 {
            proof {
                assert(field[k as int] == 0);
                lemma_find_nul(field);
            }
            return Some(k);
        }
        k = k + 1;
    }
    proof {
        lemma_find_nul(field);
    }
    None
}

/// The signed/unsigned 16-bit reinterpretations invert each other.
pub proof fn lemma_i16_u16_rt(v: i16)
    ensures
        i16_of_u16(u16_of_i16(v)) == v,
{
}

/// The unsigned/signed 16-bit reinterpretations invert each other.
pub proof fn lemma_u16_i16_rt(x: u16)
    ensures
        u16_of_i16(i16_of_u16(x)) == x,
{
}

// ---------------------------------------------------------------------------
// Colors
// ---------------------------------------------------------------------------

/// An 8-bit-per-channel RGBA color.
#[derive(Clone, Copy, PartialEq, Eq, Structural, Debug)]
pub struct RGBAColor {
    pub red: u8,
    pub green: u8,
    pub blue: u8,
    pub alpha: u8,
}

impl RGBAColor {
    pub fn to_rgba_slice(&self) -> (r: [u8; 4])
        ensures
            r@ == seq![self.red, self.green, self.blue, self.alpha],
    {
        let r = [self.red, self.green, self.blue, self.alpha];
        proof {
            assert(r@ =~= seq![self.red, self.green, self.blue, self.alpha]);
        }
        r
    }

    pub fn to_argb_slice(&self) -> (r: [u8; 4])
        ensures
            r@ == seq![self.alpha, self.red, self.green, self.blue],
    {
        let r = [self.alpha, self.red, self.green, self.blue];
        proof {
            assert(r@ =~= seq![self.alpha, self.red, self.green, self.blue]);
        }
        r
    }

    pub fn to_bgra_slice(&self) -> (r: [u8; 4])
        ensures
            r@ == seq![self.blue, self.green, self.red, self.alpha],
    {
        let r = [self.blue, self.green, self.red, self.alpha];
        proof {
            assert(r@ =~= seq![self.blue, self.green, self.red, self.alpha]);
        }
        r
    }
}

/// A palette-indexed image: a palette of up to 256 RGBA colors and
/// an image of u8 indexes into the palette.
#[derive(Clone, PartialEq, Eq, Debug)]
pub struct IndexedImage {
    pub palette: Vec<RGBAColor>,
    pub image: Vec<u8>,
}

impl Default for IndexedImage {
    fn default() -> (r: Self)
        ensures
            r.palette@ == Seq::<RGBAColor>::empty(),
            r.image@ == Seq::<u8>::empty(),
    {
        IndexedImage { palette: Vec::new(), image: Vec::new() }
    }
}

} // verus!
