//! Reading media durations out of container headers: Matroska/WebM,
//! MPEG audio (MP3), MP4/QuickTime, WAV and FLAC.
//!
//! Everything here works on bytes the caller has read; where a format asks
//! for reads at positions that depend on what was read before (MP4 boxes, WAV
//! chunks), a small walker says which bytes to read next. Turning the integer
//! results into milliseconds is left to the caller.
use vstd::prelude::*;
use vstd::arithmetic::power2::{lemma2_to64, lemma_pow2_adds, pow2};

use crate::snapshot::{extension_of, file_extension};
use crate::text::{ascii_lowercase, ascii_lowercase_chars, chars_of, same_text, string_of};

verus! {

// ---------------------------------------------------------------- bytes

/// Big-endian value of a byte sequence.
pub open spec fn be_value(s: Seq<u8>) -> nat
    decreases s.len(),
{
    if s.len() == 0 {
        0
    } else {
        be_value(s.drop_last()) * 256 + (s.last() as nat)
    }
}

/// Little-endian value of a byte sequence.
pub open spec fn le_value(s: Seq<u8>) -> nat
    decreases s.len(),
{
    if s.len() == 0 {
        0
    } else {
        le_value(s.drop_first()) * 256 + (s[0] as nat)
    }
}

/// `256^n`.
pub open spec fn byte_cap(n: nat) -> nat
    decreases n,
{
    if n == 0 {
        1
    } else {
        256 * byte_cap((n - 1) as nat)
    }
}

proof fn lemma_be_value_bound(s: Seq<u8>)
    ensures
        be_value(s) < byte_cap(s.len()),
    decreases s.len(),
{
    if s.len() > 0 {
        lemma_be_value_bound(s.drop_last());
        let v = be_value(s.drop_last());
        let c = byte_cap(s.drop_last().len());
        let b = s.last() as nat;
        assert(v * 256 + b < c * 256) by (nonlinear_arith)
            requires
                v < c,
                b < 256,
        ;
    }
}

proof fn lemma_byte_cap_values()
    ensures
        byte_cap(2) == 0x10000,
        byte_cap(4) == 0x1_0000_0000,
        byte_cap(7) == 0x100_0000_0000_0000,
        byte_cap(8) == 0x1_0000_0000_0000_0000,
{
    reveal_with_fuel(byte_cap, 9);
}

/// Big-endian `u32` from `bytes[at..at + 4]`.
pub fn be_u32_at(bytes: &[u8], at: usize) -> (v: u32)
    requires
        at + 4 <= bytes@.len(),
    ensures
        v == be_value(bytes@.subrange(at as int, at + 4)),
{
    let v = be_uint_at(bytes, at, 4);
    proof {
        lemma_byte_cap_values();
        lemma_be_value_bound(bytes@.subrange(at as int, at + 4));
    }
    v as u32
}

/// Big-endian `u64` from `bytes[at..at + 8]`.
pub fn be_u64_at(bytes: &[u8], at: usize) -> (v: u64)
    requires
        at + 8 <= bytes@.len(),
    ensures
        v == be_value(bytes@.subrange(at as int, at + 8)),
{
    be_uint_at(bytes, at, 8)
}

/// Big-endian value of `bytes[at..at + n]`, `n <= 8`.
fn be_uint_at(bytes: &[u8], at: usize, n: usize) -> (v: u64)
    requires
        n <= 8,
        at + n <= bytes@.len(),
    ensures
        v == be_value(bytes@.subrange(at as int, at + n)),
{
    let mut v: u64 = 0;
    let mut k: usize = 0;
    while k < n
        invariant
            k <= n <= 8,
            at + n <= bytes@.len(),
            bytes@.len() == bytes.len(),
            v == be_value(bytes@.subrange(at as int, at + k)),
        decreases n - k,
    {
        proof {
            lemma_be_value_bound(bytes@.subrange(at as int, at + k));
            lemma_byte_cap_mono(k as nat, 7);
            lemma_byte_cap_values();
            assert(v < 0x100_0000_0000_0000);
        }
        assert(bytes@.subrange(at as int, at + k + 1).drop_last() == bytes@.subrange(
            at as int,
            at + k,
        ));
        let b = bytes[at + k] as u64;
        assert(v * 256 + b <= 0xFFFF_FFFF_FFFF_FFFF) by (nonlinear_arith)
            requires
                v < 0x100_0000_0000_0000,
                b < 256,
        ;
        v = v * 256 + b;
        k = k + 1;
    }
    v
}

proof fn lemma_byte_cap_mono(a: nat, b: nat)
    requires
        a <= b,
    ensures
        byte_cap(a) <= byte_cap(b),
    decreases b,
{
    if a < b {
        lemma_byte_cap_mono(a, (b - 1) as nat);
    }
}

/// Little-endian `u32` from `bytes[at..at + 4]`.
pub fn le_u32_at(bytes: &[u8], at: usize) -> (v: u32)
    requires
        at + 4 <= bytes@.len(),
    ensures
        v == le_value(bytes@.subrange(at as int, at + 4)),
{
    let ghost s = bytes@.subrange(at as int, at + 4);
    proof {
        reveal_with_fuel(le_value, 5);
        assert(s.drop_first().drop_first().drop_first().drop_first().len() == 0);
    }
    (bytes[at] as u32) + (bytes[at + 1] as u32) * 256 + (bytes[at + 2] as u32) * 0x10000
        + (bytes[at + 3] as u32) * 0x1000000
}

/// Whether `bytes[at..at + 4]` spells the four ASCII characters `tag`.
pub open spec fn tag_at(bytes: Seq<u8>, at: int, tag: Seq<u8>) -> bool {
    at + 4 <= bytes.len() && bytes.subrange(at, at + 4) == tag
}

pub fn has_tag(bytes: &[u8], at: usize, t0: u8, t1: u8, t2: u8, t3: u8) -> (b: bool)
    ensures
        b == tag_at(bytes@, at as int, seq![t0, t1, t2, t3]),
{
    if at > bytes.len() || bytes.len() - at < 4 {
        return false;
    }
    let b = bytes[at] == t0 && bytes[at + 1] == t1 && bytes[at + 2] == t2 && bytes[at + 3] == t3;
    assert(b == (bytes@.subrange(at as int, at + 4) =~= seq![t0, t1, t2, t3]));
    b
}

// ---------------------------------------------------------------- Matroska

/// Number of leading zero bits of a byte.
pub open spec fn leading_zeros8(b: u8) -> nat {
    if b >= 0x80 {
        0
    } else if b >= 0x40 {
        1
    } else if b >= 0x20 {
        2
    } else if b >= 0x10 {
        3
    } else if b >= 0x08 {
        4
    } else if b >= 0x04 {
        5
    } else if b >= 0x02 {
        6
    } else if b >= 0x01 {
        7
    } else {
        8
    }
}

/// The bits of the first byte of an EBML number of `len` bytes that belong to
/// its value: those below the length marker, `first & (0xFF >> len)`. For 8
/// bytes none do: the first byte is then the marker alone.
pub open spec fn ebml_first_bits(first: u8, len: nat) -> nat {
    if len == 1 {
        (first % 0x80) as nat
    } else if len == 2 {
        (first % 0x40) as nat
    } else if len == 3 {
        (first % 0x20) as nat
    } else if len == 4 {
        (first % 0x10) as nat
    } else if len == 5 {
        (first % 0x08) as nat
    } else if len == 6 {
        (first % 0x04) as nat
    } else if len == 7 {
        (first % 0x02) as nat
    } else {
        0
    }
}

/// An EBML variable-size integer at the start of `data`: its value and its
/// length in bytes. The length is one more than the number of leading zero
/// bits of the first byte, at most 8, and all its bytes must be present.
pub open spec fn ebml_size(data: Seq<u8>) -> Option<(nat, nat)> {
    if data.len() == 0 {
        None
    } else {
        let len = leading_zeros8(data[0]) + 1;
        if len > 8 || data.len() < len {
            None
        } else {
            Some(
                (
                    ebml_first_bits(data[0], len) * byte_cap((len - 1) as nat) + be_value(
                        data.subrange(1, len as int),
                    ),
                    len,
                ),
            )
        }
    }
}

fn leading_zeros_of(b: u8) -> (n: usize)
    ensures
        n == leading_zeros8(b),
{
    if b >= 0x80 {
        0
    } else if b >= 0x40 {
        1
    } else if b >= 0x20 {
        2
    } else if b >= 0x10 {
        3
    } else if b >= 0x08 {
        4
    } else if b >= 0x04 {
        5
    } else if b >= 0x02 {
        6
    } else if b >= 0x01 {
        7
    } else {
        8
    }
}

fn first_bits(first: u8, len: usize) -> (v: u64)
    requires
        1 <= len <= 8,
    ensures
        v == ebml_first_bits(first, len as nat),
{
    if len == 1 {
        (first % 0x80) as u64
    } else if len == 2 {
        (first % 0x40) as u64
    } else if len == 3 {
        (first % 0x20) as u64
    } else if len == 4 {
        (first % 0x10) as u64
    } else if len == 5 {
        (first % 0x08) as u64
    } else if len == 6 {
        (first % 0x04) as u64
    } else if len == 7 {
        (first % 0x02) as u64
    } else {
        0
    }
}

proof fn lemma_ebml_fits(first: nat, len: nat, rest: nat)
    requires
        1 <= len <= 8,
        first < 256,
        len < 8 ==> first < byte_cap(1) / 2,
        rest < byte_cap((len - 1) as nat),
    ensures
        first * byte_cap((len - 1) as nat) + rest < 0x1_0000_0000_0000_0000,
{
    lemma_byte_cap_values();
    lemma_byte_cap_mono((len - 1) as nat, 7);
    reveal_with_fuel(byte_cap, 9);
    let c = byte_cap((len - 1) as nat);
    assert(c * 256 == byte_cap(len)) by {
        assert(byte_cap(len) == 256 * byte_cap((len - 1) as nat));
    }
    lemma_byte_cap_mono(len, 8);
    assert(first * c + rest < 256 * c) by (nonlinear_arith)
        requires
            first < 256,
            rest < c,
    ;
}

/// The EBML variable-size integer at `data[start..]`.
pub fn ebml_size_at(data: &[u8], start: usize) -> (r: Option<(u64, usize)>)
    requires
        start <= data@.len(),
    ensures
        match ebml_size(data@.skip(start as int)) {
            Some((v, n)) => r == Some((v as u64, n as usize)) && v < 0x1_0000_0000_0000_0000,
            None => r is None,
        },
{
    let ghost d = data@.skip(start as int);
    if start >= data.len() {
        return None;
    }
    let first = data[start];
    let len = leading_zeros_of(first) + 1;
    if len > 8 || data.len() - start < len {
        return None;
    }
    let top = first_bits(first, len);
    let rest = be_uint_at(data, start + 1, len - 1);
    proof {
        assert(d.subrange(1, len as int) == data@.subrange(start + 1, start + len));
        lemma_be_value_bound(d.subrange(1, len as int));
        lemma_byte_cap_values();
        reveal_with_fuel(byte_cap, 9);
        lemma_ebml_fits(top as nat, len as nat, rest as nat);
        assert(byte_cap((len - 1) as nat) <= 0x100_0000_0000_0000) by {
            lemma_byte_cap_mono((len - 1) as nat, 7);
        }
    }
    let cap = byte_cap_exec(len - 1);
    Some((top * cap + rest, len))
}

fn byte_cap_exec(n: usize) -> (c: u64)
    requires
        n <= 7,
    ensures
        c == byte_cap(n as nat),
{
    let mut c: u64 = 1;
    let mut k: usize = 0;
    while k < n
        invariant
            k <= n <= 7,
            c == byte_cap(k as nat),
        decreases n - k,
    {
        proof {
            lemma_byte_cap_mono(k as nat, 6);
            reveal_with_fuel(byte_cap, 8);
        }
        c = c * 256;
        k = k + 1;
    }
    c
}

/// An EBML variable-size integer at the start of `data`: value and length.
pub fn read_ebml_size(data: &[u8]) -> (r: Option<(u64, usize)>)
    ensures
        match ebml_size(data@) {
            Some((v, n)) => r == Some((v as u64, n as usize)),
            None => r is None,
        },
{
    assert(data@.skip(0) == data@);
    ebml_size_at(data, 0)
}

proof fn lemma_be_value_first(s: Seq<u8>)
    requires
        s.len() >= 1,
    ensures
        be_value(s) == (s[0] as nat) * byte_cap((s.len() - 1) as nat) + be_value(s.drop_first()),
    decreases s.len(),
{
    if s.len() > 1 {
        let dl = s.drop_last();
        lemma_be_value_first(dl);
        assert(s.drop_first().drop_last() == dl.drop_first());
        let a = s[0] as nat;
        let b = byte_cap((dl.len() - 1) as nat);
        let c = be_value(dl.drop_first());
        assert(dl[0] == s[0]);
        assert(s.drop_first().last() == s.last());
        assert(be_value(s) == be_value(dl) * 256 + (s.last() as nat));
        assert(be_value(s.drop_first()) == c * 256 + (s.last() as nat));
        assert(byte_cap((s.len() - 1) as nat) == 256 * b);
        assert((a * b + c) * 256 == a * (256 * b) + c * 256) by (nonlinear_arith);
    } else {
        assert(s.drop_last().len() == 0);
        assert(s.drop_first().len() == 0);
        assert(be_value(s.drop_last()) == 0);
        assert(be_value(s.drop_first()) == 0);
        assert(be_value(s) == be_value(s.drop_last()) * 256 + (s.last() as nat));
        assert(byte_cap(0) == 1);
    }
}

/// An EBML size is the big-endian value of its bytes less the length
/// marker, which is worth 2^(7n) for n bytes; so the value is below 2^(7n).
pub proof fn ebml_value_drops_marker(data: Seq<u8>)
    requires
        ebml_size(data) is Some,
    ensures
        ({
            let (v, n) = ebml_size(data).unwrap();
            &&& 1 <= n <= 8
            &&& be_value(data.take(n as int)) == v + pow2(7 * n)
            &&& v < pow2(7 * n)
        }),
{
    let (v, n) = ebml_size(data).unwrap();
    let t = data.take(n as int);
    lemma_be_value_first(t);
    assert(t.drop_first() == data.subrange(1, n as int));
    let first = data[0];
    let fb = ebml_first_bits(first, n);
    let rest = be_value(data.subrange(1, n as int));
    lemma_be_value_bound(data.subrange(1, n as int));
    lemma2_to64();
    reveal_with_fuel(byte_cap, 9);
    let cap = byte_cap((n - 1) as nat);
    // The first byte is the marker bit plus the value bits below it.
    let m: nat = if n == 1 {
        0x80
    } else if n == 2 {
        0x40
    } else if n == 3 {
        0x20
    } else if n == 4 {
        0x10
    } else if n == 5 {
        0x08
    } else if n == 6 {
        0x04
    } else if n == 7 {
        0x02
    } else {
        0x01
    };
    assert(first as nat == m + fb);
    assert(m * cap == pow2(7 * n)) by {
        if n == 1 {
            assert(pow2(7) == 0x80);
        } else if n == 2 {
            assert(pow2(14) == 0x4000);
        } else if n == 3 {
            assert(pow2(21) == 0x20_0000);
        } else if n == 4 {
            assert(pow2(28) == 0x1000_0000);
        } else if n == 5 {
            lemma_pow2_adds(32, 3);
            assert(pow2(35) == 0x8_0000_0000);
        } else if n == 6 {
            lemma_pow2_adds(32, 10);
            assert(pow2(42) == 0x400_0000_0000);
        } else if n == 7 {
            lemma_pow2_adds(32, 17);
            assert(pow2(49) == 0x2_0000_0000_0000);
        } else {
            lemma_pow2_adds(32, 24);
            assert(pow2(56) == 0x100_0000_0000_0000);
        }
    }
    assert(v == fb * cap + rest);
    assert(be_value(t) == (m + fb) * cap + rest);
    assert((m + fb) * cap == m * cap + fb * cap) by (nonlinear_arith);
    assert(fb * cap + rest < m * cap) by (nonlinear_arith)
        requires
            fb < m,
            rest < cap,
    ;
}

/// A place in a Matroska header that may hold the segment duration: an
/// element with ID `0x4489` whose size is 8 (a big-endian `f64`) or 4 (an
/// `f32`), with the raw bits of the number.
#[derive(Clone, Copy, Debug, PartialEq, Eq, Structural)]
pub struct DurationBits {
    pub data_start: usize,
    pub width: usize,
    pub bits: u64,
}

/// The duration candidate whose element ID starts at `i`, if any.
pub open spec fn mkv_candidate_at(buf: Seq<u8>, i: int) -> Option<DurationBits> {
    if i + 2 < buf.len() && buf[i] == 0x44 && buf[i + 1] == 0x89 {
        match ebml_size(buf.skip(i + 2)) {
            Some((size, size_len)) => {
                let ds = i + 2 + size_len;
                if size == 8 && ds + 8 <= buf.len() {
                    Some(
                        DurationBits {
                            data_start: ds as usize,
                            width: 8,
                            bits: be_value(buf.subrange(ds, ds + 8)) as u64,
                        },
                    )
                } else if size == 4 && ds + 4 <= buf.len() {
                    Some(
                        DurationBits {
                            data_start: ds as usize,
                            width: 4,
                            bits: be_value(buf.subrange(ds, ds + 4)) as u64,
                        },
                    )
                } else {
                    None
                }
            },
            None => None,
        }
    } else {
        None
    }
}

/// The duration candidates at positions below `n`, in order.
pub open spec fn mkv_candidates_upto(buf: Seq<u8>, n: int) -> Seq<DurationBits>
    decreases n,
{
    if n <= 0 {
        seq![]
    } else {
        let rest = mkv_candidates_upto(buf, n - 1);
        match mkv_candidate_at(buf, n - 1) {
            Some(c) => rest.push(c),
            None => rest,
        }
    }
}

/// Every duration candidate in the scanned head of a Matroska file, in the
/// order a front-to-back scan meets them; the first whose number is a
/// plausible duration gives the file's length.
pub fn mkv_duration_candidates(buf: &[u8]) -> (r: Vec<DurationBits>)
    ensures
        r@ == mkv_candidates_upto(buf@, buf@.len() as int),
{
    let mut out: Vec<DurationBits> = Vec::new();
    let mut i: usize = 0;
    while i < buf.len()
        invariant
            i <= buf.len(),
            out@ == mkv_candidates_upto(buf@, i as int),
        decreases buf.len() - i,
    {
        if buf.len() - i > 2 && buf[i] == 0x44 && buf[i + 1] == 0x89 {
            match ebml_size_at(buf, i + 2) {
                Some((size, size_len)) => {
                    let ds = i + 2 + size_len;
                    if size == 8 && ds <= buf.len() && buf.len() - ds >= 8 {
                        let bits = be_u64_at(buf, ds);
                        out.push(DurationBits { data_start: ds, width: 8, bits });
                    } else if size == 4 && ds <= buf.len() && buf.len() - ds >= 4 {
                        let bits = be_u32_at(buf, ds) as u64;
                        out.push(DurationBits { data_start: ds, width: 4, bits });
                    }
                },
                None => {},
            }
        }
        i = i + 1;
    }
    out
}

// ---------------------------------------------------------------- MPEG audio

/// Fields of an MPEG audio frame header. `version` is 0 for MPEG 2.5, 2 for
/// MPEG 2 and 3 for MPEG 1; `layer` is 1, 2 or 3.
#[derive(Clone, Copy, Debug, PartialEq, Eq, Structural)]
pub struct Mp3FrameInfo {
    pub version: u8,
    pub layer: u8,
    pub bitrate_kbps: u32,
    pub sample_rate: u32,
    pub channel_mode: u8,
}

/// Bitrate in kbps for an index from 1 to 14; MPEG 2 and 2.5 share their
/// tables and use the Layer III table for Layer II too.
pub open spec fn bitrate_table(version: u8, layer: u8) -> Option<Seq<u32>> {
    if version == 3 && layer == 3 {
        Some(seq![0u32, 32, 40, 48, 56, 64, 80, 96, 112, 128, 160, 192, 224, 256, 320])
    } else if version == 3 && layer == 2 {
        Some(seq![0u32, 32, 48, 56, 64, 80, 96, 112, 128, 160, 192, 224, 256, 320, 384])
    } else if version == 3 && layer == 1 {
        Some(seq![0u32, 32, 64, 96, 128, 160, 192, 224, 256, 288, 320, 352, 384, 416, 448])
    } else if (version == 2 || version == 0) && (layer == 3 || layer == 2) {
        Some(seq![0u32, 8, 16, 24, 32, 40, 48, 56, 64, 80, 96, 112, 128, 144, 160])
    } else if (version == 2 || version == 0) && layer == 1 {
        Some(seq![0u32, 32, 48, 56, 64, 80, 96, 112, 128, 144, 160, 176, 192, 224, 256])
    } else {
        None
    }
}

pub open spec fn spec_mp3_bitrate(version: u8, layer: u8, index: u8) -> Option<u32> {
    if index == 0 || index >= 15 {
        None
    } else {
        match bitrate_table(version, layer) {
            Some(t) => Some(t[index as int]),
            None => None,
        }
    }
}

/// Each entry of `t` from index `i` on is below the next.
pub open spec fn steps_up(t: Seq<u32>, i: nat) -> bool
    decreases t.len() - i,
{
    if i + 1 >= t.len() {
        true
    } else {
        t[i as int] < t[i + 1 as int] && steps_up(t, i + 1)
    }
}

proof fn lemma_steps_up(t: Seq<u32>, i: nat, a: int, b: int)
    requires
        steps_up(t, i),
        i <= a < b < t.len(),
    ensures
        t[a] < t[b],
    decreases t.len() - i,
{
    if a > i {
        lemma_steps_up(t, i + 1, a, b);
    } else if b > i + 1 {
        lemma_steps_up(t, i + 1, i + 1 as int, b);
    }
}

/// For every MPEG version and layer, indexes 1 to 14 give bitrates that are
/// positive and rise with the index; indexes 0 and 15 give none.
pub proof fn mp3_bitrates_rise(version: u8, layer: u8, i: u8, j: u8)
    requires
        version == 0 || version == 2 || version == 3,
        1 <= layer <= 3,
        1 <= i < j <= 14,
    ensures
        spec_mp3_bitrate(version, layer, i) matches Some(a) && spec_mp3_bitrate(
            version,
            layer,
            j,
        ) matches Some(b) && 0 < a < b,
        spec_mp3_bitrate(version, layer, 0) is None,
        spec_mp3_bitrate(version, layer, 15) is None,
{
    let t = bitrate_table(version, layer).unwrap();
    if version == 3 && layer == 3 {
        reveal_with_fuel(steps_up, 15);
        assert(steps_up(seq![0u32, 32, 40, 48, 56, 64, 80, 96, 112, 128, 160, 192, 224, 256, 320], 1));
    } else if version == 3 && layer == 2 {
        reveal_with_fuel(steps_up, 15);
        assert(steps_up(seq![0u32, 32, 48, 56, 64, 80, 96, 112, 128, 160, 192, 224, 256, 320, 384], 1));
    } else if version == 3 && layer == 1 {
        reveal_with_fuel(steps_up, 15);
        assert(steps_up(seq![0u32, 32, 64, 96, 128, 160, 192, 224, 256, 288, 320, 352, 384, 416, 448], 1));
    } else if layer == 3 || layer == 2 {
        reveal_with_fuel(steps_up, 15);
        assert(steps_up(seq![0u32, 8, 16, 24, 32, 40, 48, 56, 64, 80, 96, 112, 128, 144, 160], 1));
    } else {
        reveal_with_fuel(steps_up, 15);
        assert(steps_up(seq![0u32, 32, 48, 56, 64, 80, 96, 112, 128, 144, 160, 176, 192, 224, 256], 1));
    }
    assert(t.len() == 15 && t[1] > 0);
    lemma_steps_up(t, 1, i as int, j as int);
    if i > 1 {
        lemma_steps_up(t, 1, 1, i as int);
    }
}

/// Bitrate in kbps for a header's version, layer and bitrate index.
pub fn mp3_bitrate(version: u8, layer: u8, index: u8) -> (r: Option<u32>)
    ensures
        r == spec_mp3_bitrate(version, layer, index),
{
    let v1_l3: [u32; 15] = [0, 32, 40, 48, 56, 64, 80, 96, 112, 128, 160, 192, 224, 256, 320];
    let v1_l2: [u32; 15] = [0, 32, 48, 56, 64, 80, 96, 112, 128, 160, 192, 224, 256, 320, 384];
    let v1_l1: [u32; 15] = [0, 32, 64, 96, 128, 160, 192, 224, 256, 288, 320, 352, 384, 416, 448];
    let v2_l3: [u32; 15] = [0, 8, 16, 24, 32, 40, 48, 56, 64, 80, 96, 112, 128, 144, 160];
    let v2_l1: [u32; 15] = [0, 32, 48, 56, 64, 80, 96, 112, 128, 144, 160, 176, 192, 224, 256];
    assert(v1_l3@ =~= seq![0u32, 32, 40, 48, 56, 64, 80, 96, 112, 128, 160, 192, 224, 256, 320]);
    assert(v1_l2@ =~= seq![0u32, 32, 48, 56, 64, 80, 96, 112, 128, 160, 192, 224, 256, 320, 384]);
    assert(v1_l1@ =~= seq![0u32, 32, 64, 96, 128, 160, 192, 224, 256, 288, 320, 352, 384, 416, 448]);
    assert(v2_l3@ =~= seq![0u32, 8, 16, 24, 32, 40, 48, 56, 64, 80, 96, 112, 128, 144, 160]);
    assert(v2_l1@ =~= seq![0u32, 32, 48, 56, 64, 80, 96, 112, 128, 144, 160, 176, 192, 224, 256]);
    let idx = index as usize;
    if idx == 0 || idx >= 15 {
        return None;
    }
    if version == 3 && layer == 3 {
        Some(v1_l3[idx])
    } else if version == 3 && layer == 2 {
        Some(v1_l2[idx])
    } else if version == 3 && layer == 1 {
        Some(v1_l1[idx])
    } else if (version == 2 || version == 0) && (layer == 3 || layer == 2) {
        Some(v2_l3[idx])
    } else if (version == 2 || version == 0) && layer == 1 {
        Some(v2_l1[idx])
    } else {
        None
    }
}

pub open spec fn spec_samples_per_frame(version: u8, layer: u8) -> u32 {
    if layer == 1 {
        384
    } else if layer == 2 {
        1152
    } else if layer == 3 {
        if version == 3 {
            1152
        } else {
            576
        }
    } else {
        1152
    }
}

/// Samples per frame: 384 for Layer I, 1152 for Layer II and MPEG 1
/// Layer III, 576 for MPEG 2/2.5 Layer III.
pub fn mp3_samples_per_frame(version: u8, layer: u8) -> (r: u32)
    ensures
        r == spec_samples_per_frame(version, layer),
{
    if layer == 1 {
        384
    } else if layer == 2 {
        1152
    } else if layer == 3 {
        if version == 3 {
            1152
        } else {
            576
        }
    } else {
        1152
    }
}

pub open spec fn spec_side_info_size(version: u8, channel_mode: u8) -> usize {
    let mono = channel_mode == 3;
    if version == 3 {
        if mono {
            17
        } else {
            32
        }
    } else {
        if mono {
            9
        } else {
            17
        }
    }
}

/// Size of the side information after the frame header.
pub fn mp3_side_info_size(version: u8, channel_mode: u8) -> (r: usize)
    ensures
        r == spec_side_info_size(version, channel_mode),
{
    let mono = channel_mode == 3;
    if version == 3 {
        if mono {
            17
        } else {
            32
        }
    } else {
        if mono {
            9
        } else {
            17
        }
    }
}

pub open spec fn sample_rate_of(version: u8, sample_index: u8) -> Option<u32> {
    if version == 3 && sample_index == 0 {
        Some(44100)
    } else if version == 3 && sample_index == 1 {
        Some(48000)
    } else if version == 3 && sample_index == 2 {
        Some(32000)
    } else if version == 2 && sample_index == 0 {
        Some(22050)
    } else if version == 2 && sample_index == 1 {
        Some(24000)
    } else if version == 2 && sample_index == 2 {
        Some(16000)
    } else if version == 0 && sample_index == 0 {
        Some(11025)
    } else if version == 0 && sample_index == 1 {
        Some(12000)
    } else if version == 0 && sample_index == 2 {
        Some(8000)
    } else {
        None
    }
}

/// The frame header that bytes 1 to 3 of a frame describe: version
/// `(b1 >> 3) & 3` (1 is reserved), layer code `(b1 >> 1) & 3` (0 is
/// reserved; 1, 2, 3 stand for Layer III, II, I), bitrate index `b2 >> 4`
/// (0 and 15 refused), sample-rate index `(b2 >> 2) & 3` (3 refused), channel
/// mode `b3 >> 6`.
pub open spec fn frame_header(b1: u8, b2: u8, b3: u8) -> Option<Mp3FrameInfo> {
    let version = (b1 / 8) % 4;
    let layer_id = (b1 / 2) % 4;
    let bitrate_index = b2 / 16;
    let sample_index = (b2 / 4) % 4;
    let channel_mode = b3 / 64;
    if version == 1 || layer_id == 0 || bitrate_index == 0 || bitrate_index == 15 || sample_index
        == 3 {
        None
    } else {
        let layer: u8 = if layer_id == 1 {
            3
        } else if layer_id == 2 {
            2
        } else {
            1
        };
        match (sample_rate_of(version as u8, sample_index as u8), spec_mp3_bitrate(version as u8, layer, bitrate_index as u8)) {
            (Some(rate), Some(kbps)) => Some(
                Mp3FrameInfo {
                    version: version as u8,
                    layer,
                    bitrate_kbps: kbps,
                    sample_rate: rate,
                    channel_mode: channel_mode as u8,
                },
            ),
            _ => None,
        }
    }
}

/// Parses the MPEG audio frame header at the start of `data` (at least four
/// bytes; the sync bits of the first two are not looked at here).
pub fn parse_mp3_frame_header(data: &[u8]) -> (r: Option<Mp3FrameInfo>)
    ensures
        r == (if data@.len() < 4 {
            None
        } else {
            frame_header(data@[1], data@[2], data@[3])
        }),
{
    if data.len() < 4 {
        return None;
    }
    frame_header_of(data[1], data[2], data[3])
}

fn frame_header_of(b1: u8, b2: u8, b3: u8) -> (r: Option<Mp3FrameInfo>)
    ensures
        r == frame_header(b1, b2, b3),
{
    let version = (b1 / 8) % 4;
    let layer_id = (b1 / 2) % 4;
    if version == 1 || layer_id == 0 {
        return None;
    }
    let bitrate_index = b2 / 16;
    let sample_index = (b2 / 4) % 4;
    if bitrate_index == 0 || bitrate_index == 15 || sample_index == 3 {
        return None;
    }
    let channel_mode = b3 / 64;
    let layer: u8 = if layer_id == 1 {
        3
    } else if layer_id == 2 {
        2
    } else {
        1
    };
    let sample_rate: u32 = if version == 3 && sample_index == 0 {
        44100
    } else if version == 3 && sample_index == 1 {
        48000
    } else if version == 3 && sample_index == 2 {
        32000
    } else if version == 2 && sample_index == 0 {
        22050
    } else if version == 2 && sample_index == 1 {
        24000
    } else if version == 2 && sample_index == 2 {
        16000
    } else if version == 0 && sample_index == 0 {
        11025
    } else if version == 0 && sample_index == 1 {
        12000
    } else if version == 0 && sample_index == 2 {
        8000
    } else {
        return None;
    };
    match mp3_bitrate(version, layer, bitrate_index) {
        Some(kbps) => Some(
            Mp3FrameInfo { version, layer, bitrate_kbps: kbps, sample_rate, channel_mode },
        ),
        None => None,
    }
}

/// Where the MPEG audio frames begin: after an ID3v2 tag when the first ten
/// bytes read (`head`) start with `ID3`; its size is the four bytes 6..10,
/// seven bits each (the top bits are not masked).
pub open spec fn audio_start(head: Seq<u8>) -> u64 {
    if head.len() >= 10 && head[0] == 0x49 && head[1] == 0x44 && head[2] == 0x33 {
        (10 + head[6] * 0x200000 + head[7] * 0x4000 + head[8] * 0x80 + head[9]) as u64
    } else {
        0
    }
}

pub fn mp3_audio_start(head: &[u8]) -> (r: u64)
    ensures
        r == audio_start(head@),
{
    if head.len() >= 10 && head[0] == 0x49 && head[1] == 0x44 && head[2] == 0x33 {
        10 + (head[6] as u64) * 0x200000 + (head[7] as u64) * 0x4000 + (head[8] as u64) * 0x80
            + (head[9] as u64)
    } else {
        0
    }
}

/// Where the audio ends: 128 bytes before the end of a file of at least 128
/// bytes whose last 128 bytes start with `TAG` (an ID3v1 tag).
pub open spec fn audio_end(file_len: u64, tail_tag: Option<Seq<u8>>) -> u64 {
    match tail_tag {
        Some(t) => if file_len >= 128 && t == seq![0x54u8, 0x41, 0x47] {
            (file_len - 128) as u64
        } else {
            file_len
        },
        None => file_len,
    }
}

/// `tail_tag` holds the three bytes read at `file_len - 128`, when they could
/// be read.
pub fn mp3_audio_end(file_len: u64, tail_tag: Option<&[u8]>) -> (r: u64)
    ensures
        r == audio_end(file_len, match tail_tag {
            Some(t) => Some(t@),
            None => None,
        }),
{
    match tail_tag {
        Some(t) => {
            if file_len >= 128 && t.len() == 3 && t[0] == 0x54 && t[1] == 0x41 && t[2] == 0x47 {
                assert(t@ =~= seq![0x54u8, 0x41, 0x47]);
                file_len - 128
            } else {
                file_len
            }
        },
        None => file_len,
    }
}

/// How many bytes after the audio start are scanned for the first frame:
/// what is left of the audio, at most 64 KiB (with the wrap-around of an
/// audio start past the audio's end, which leaves the full 64 KiB).
pub open spec fn scan_window(start: u64, end: u64) -> usize {
    if start <= end && end - start < 0x10000 {
        (end - start) as usize
    } else {
        0x10000
    }
}

pub fn mp3_scan_window(start: u64, end: u64) -> (r: usize)
    ensures
        r == scan_window(start, end),
{
    if start <= end && end - start < 0x10000 {
        (end - start) as usize
    } else {
        0x10000
    }
}

/// A way to tell an MP3's length found at one frame header.
#[derive(Clone, Copy, Debug, PartialEq, Eq, Structural)]
pub enum Mp3Estimate {
    /// A Xing/Info header with a frame count: seconds are
    /// `frames * samples_per_frame / sample_rate`.
    Frames { frames: u32, samples_per_frame: u32, sample_rate: u32 },
    /// A constant bitrate: seconds are `audio_bytes * 8 / (kbps * 1000)`.
    Bitrate { audio_bytes: u64, bitrate_kbps: u32 },
}

/// Whether `buf[i]` may start a frame: `0xFF`, then three set sync bits.
pub open spec fn frame_sync_at(buf: Seq<u8>, i: int) -> bool {
    i + 4 < buf.len() && buf[i] == 0xFF && buf[i + 1] / 32 == 7
}

/// The Xing/Info estimate for a frame at `i`, if its tag and frame count are
/// there.
pub open spec fn xing_estimate(buf: Seq<u8>, i: int, info: Mp3FrameInfo) -> Option<Mp3Estimate> {
    let tag = i + 4 + spec_side_info_size(info.version, info.channel_mode);
    if tag + 12 <= buf.len() && (tag_at(buf, tag, seq![0x58u8, 0x69, 0x6e, 0x67]) || tag_at(
        buf,
        tag,
        seq![0x49u8, 0x6e, 0x66, 0x6f],
    )) {
        let flags = be_value(buf.subrange(tag + 4, tag + 8));
        let frames = be_value(buf.subrange(tag + 8, tag + 12));
        if flags % 2 == 1 && frames > 0 && info.sample_rate > 0 {
            Some(
                Mp3Estimate::Frames {
                    frames: frames as u32,
                    samples_per_frame: spec_samples_per_frame(info.version, info.layer),
                    sample_rate: info.sample_rate,
                },
            )
        } else {
            None
        }
    } else {
        None
    }
}

/// The estimates found at position `i` of the scanned window, in the order
/// they are tried: the Xing/Info count, then the constant bitrate over the
/// audio from this frame to `end` (`start` is where the window begins).
pub open spec fn estimates_at(buf: Seq<u8>, i: int, start: u64, end: u64) -> Seq<Mp3Estimate> {
    if frame_sync_at(buf, i) {
        match frame_header(buf[i + 1], buf[i + 2], buf[i + 3]) {
            Some(info) => {
                let x = match xing_estimate(buf, i, info) {
                    Some(e) => seq![e],
                    None => seq![],
                };
                let from = start + i;
                let bytes = if from < end {
                    (end - from) as u64
                } else {
                    0u64
                };
                if info.bitrate_kbps > 0 {
                    x.push(Mp3Estimate::Bitrate { audio_bytes: bytes, bitrate_kbps: info.bitrate_kbps })
                } else {
                    x
                }
            },
            None => seq![],
        }
    } else {
        seq![]
    }
}

/// The estimates at positions below `n`.
pub open spec fn estimates_upto(buf: Seq<u8>, n: int, start: u64, end: u64) -> Seq<Mp3Estimate>
    decreases n,
{
    if n <= 0 {
        seq![]
    } else {
        estimates_upto(buf, n - 1, start, end) + estimates_at(buf, n - 1, start, end)
    }
}

/// Every length estimate in the scanned window `buf` of an MP3 file, in the
/// order a front-to-back scan meets them; the first that gives a plausible
/// length is taken. `start` is the file offset of `buf`, `end` where the
/// audio ends.
pub fn mp3_estimates(buf: &[u8], start: u64, end: u64) -> (r: Vec<Mp3Estimate>)
    requires
        buf@.len() <= 0x10000,
        start <= 0x1_0000_0000_0000,
    ensures
        r@ == estimates_upto(buf@, buf@.len() as int, start, end),
{
    let mut out: Vec<Mp3Estimate> = Vec::new();
    let mut i: usize = 0;
    while i < buf.len()
        invariant
            i <= buf.len() <= 0x10000,
            start <= 0x1_0000_0000_0000,
            out@ == estimates_upto(buf@, i as int, start, end),
        decreases buf.len() - i,
    {
        let ghost before = out@;
        if buf.len() - i > 4 && buf[i] == 0xFF && buf[i + 1] / 32 == 7 {
            match frame_header_of(buf[i + 1], buf[i + 2], buf[i + 3]) {
                Some(info) => {
                    let side = mp3_side_info_size(info.version, info.channel_mode);
                    let tag = i + 4 + side;
                    if tag + 12 <= buf.len() && (has_tag(buf, tag, 0x58, 0x69, 0x6e, 0x67) || has_tag(
                        buf,
                        tag,
                        0x49,
                        0x6e,
                        0x66,
                        0x6f,
                    )) {
                        let flags = be_u32_at(buf, tag + 4);
                        let frames = be_u32_at(buf, tag + 8);
                        if flags % 2 == 1 && frames > 0 && info.sample_rate > 0 {
                            let spf = mp3_samples_per_frame(info.version, info.layer);
                            out.push(
                                Mp3Estimate::Frames {
                                    frames,
                                    samples_per_frame: spf,
                                    sample_rate: info.sample_rate,
                                },
                            );
                        }
                    }
                    if info.bitrate_kbps > 0 {
                        let from = start + i as u64;
                        let bytes = if from < end {
                            end - from
                        } else {
                            0
                        };
                        out.push(Mp3Estimate::Bitrate { audio_bytes: bytes, bitrate_kbps: info.bitrate_kbps });
                    }
                },
                None => {},
            }
        }
        assert(out@ =~= before + estimates_at(buf@, i as int, start, end));
        i = i + 1;
    }
    out
}


// ---------------------------------------------------------------- MP4

/// The four-character type of the box the walk looks for: `moov` at the top
/// level, `mvhd` inside `moov`.
pub open spec fn target_type(in_moov: bool) -> Seq<u8> {
    if in_moov {
        seq![0x6du8, 0x76, 0x68, 0x64]
    } else {
        seq![0x6du8, 0x6f, 0x6f, 0x76]
    }
}

/// The sum of two offsets, capped at `u64::MAX` (an offset no file reaches).
pub open spec fn capped_add(a: u64, b: u64) -> u64 {
    if a as int + b as int > u64::MAX as int {
        u64::MAX
    } else {
        (a + b) as u64
    }
}

/// Progress through the boxes of an MP4 file: the next box header is at
/// `offset`, the boxes being walked end at `end`. Offsets are compared as
/// whole numbers, and sums of offsets are capped at `u64::MAX`.
#[derive(Clone, Copy, Debug, PartialEq, Eq, Structural)]
pub struct BoxWalk {
    pub offset: u64,
    pub end: u64,
    pub in_moov: bool,
    /// For a box header with the 64-bit size escape: whether its type is the
    /// one looked for.
    pub pending_target: bool,
}

/// What to read next while walking MP4 boxes.
#[derive(Clone, Copy, Debug, PartialEq, Eq, Structural)]
pub enum Mp4Step {
    /// Read the 8-byte box header at this offset.
    Header(u64),
    /// Read the 8-byte 64-bit size that follows a header at this offset.
    LargeSize(u64),
    /// `mvhd` found: read its version byte at this offset, then its fields.
    Mvhd(u64),
    /// No duration can be found.
    NotFound,
}

/// The step for a walk: a header if one fits before the end.
pub open spec fn walk_step(w: BoxWalk) -> Mp4Step {
    if w.offset as int + 8 <= w.end as int {
        Mp4Step::Header(w.offset)
    } else {
        Mp4Step::NotFound
    }
}

/// The walk of the top-level boxes of a file of `file_len` bytes.
pub open spec fn walk_start(file_len: u64) -> BoxWalk {
    BoxWalk { offset: 0, end: file_len, in_moov: false, pending_target: false }
}

/// Having the size of the box at `w.offset` and the length of its header:
/// descend into `moov`, stop at `mvhd`, or go on past the box. A size below
/// the header's length ends the walk.
pub open spec fn after_box(w: BoxWalk, size: u64, header_len: u64, is_target: bool) -> (BoxWalk, Mp4Step) {
    if size < header_len {
        (w, Mp4Step::NotFound)
    } else if is_target && !w.in_moov {
        let inner = BoxWalk {
            offset: capped_add(w.offset, header_len),
            end: capped_add(w.offset, size),
            in_moov: true,
            pending_target: false,
        };
        (inner, walk_step(inner))
    } else if is_target {
        (w, Mp4Step::Mvhd(capped_add(w.offset, header_len)))
    } else {
        let next = BoxWalk { offset: capped_add(w.offset, size), ..w };
        (next, walk_step(next))
    }
}

/// What a box header (`hdr`, 8 bytes read at `w.offset`) leads to: a size of
/// 1 escapes to a 64-bit size that follows, a size of 0 runs to the end.
pub open spec fn on_header(w: BoxWalk, hdr: Seq<u8>) -> (BoxWalk, Mp4Step) {
    let size = be_value(hdr.subrange(0, 4)) as u64;
    let is_target = hdr.subrange(4, 8) == target_type(w.in_moov);
    if size == 1 {
        (BoxWalk { pending_target: is_target, ..w }, Mp4Step::LargeSize(capped_add(w.offset, 8)))
    } else if size == 0 {
        after_box(w, if w.end >= w.offset { (w.end - w.offset) as u64 } else { 0u64 }, 8, is_target)
    } else {
        after_box(w, size, 8, is_target)
    }
}

fn walk_step_exec(w: BoxWalk) -> (s: Mp4Step)
    ensures
        s == walk_step(w),
{
    if w.offset <= w.end && w.end - w.offset >= 8 {
        Mp4Step::Header(w.offset)
    } else {
        Mp4Step::NotFound
    }
}

/// Starts walking the boxes of a file of `file_len` bytes.
pub fn mp4_start(file_len: u64) -> (r: (BoxWalk, Mp4Step))
    ensures
        r == (walk_start(file_len), walk_step(walk_start(file_len))),
{
    let w = BoxWalk { offset: 0, end: file_len, in_moov: false, pending_target: false };
    (w, walk_step_exec(w))
}

fn after_box_exec(w: BoxWalk, size: u64, header_len: u64, is_target: bool) -> (r: (BoxWalk, Mp4Step))
    ensures
        r == after_box(w, size, header_len, is_target),
{
    if size < header_len {
        (w, Mp4Step::NotFound)
    } else if is_target && !w.in_moov {
        let inner = BoxWalk {
            offset: w.offset.saturating_add(header_len),
            end: w.offset.saturating_add(size),
            in_moov: true,
            pending_target: false,
        };
        (inner, walk_step_exec(inner))
    } else if is_target {
        (w, Mp4Step::Mvhd(w.offset.saturating_add(header_len)))
    } else {
        let next = BoxWalk { offset: w.offset.saturating_add(size), ..w };
        (next, walk_step_exec(next))
    }
}

/// Goes on from the 8-byte box header read at the walk's offset.
pub fn mp4_on_header(w: BoxWalk, hdr: &[u8]) -> (r: (BoxWalk, Mp4Step))
    requires
        hdr@.len() == 8,
    ensures
        r == on_header(w, hdr@),
{
    let size = be_u32_at(hdr, 0) as u64;
    let t = if w.in_moov {
        has_tag(hdr, 4, 0x6d, 0x76, 0x68, 0x64)
    } else {
        has_tag(hdr, 4, 0x6d, 0x6f, 0x6f, 0x76)
    };
    if size == 1 {
        (BoxWalk { pending_target: t, ..w }, Mp4Step::LargeSize(w.offset.saturating_add(8)))
    } else if size == 0 {
        let rest = w.end.saturating_sub(w.offset);
        after_box_exec(w, rest, 8, t)
    } else {
        after_box_exec(w, size, 8, t)
    }
}

/// Goes on from the 64-bit size (8 bytes, big-endian) read after a header
/// whose size field was 1.
pub fn mp4_on_large_size(w: BoxWalk, ext: &[u8]) -> (r: (BoxWalk, Mp4Step))
    requires
        ext@.len() == 8,
    ensures
        r == after_box(w, be_value(ext@.subrange(0, 8)) as u64, 16, w.pending_target),
{
    let size = be_u64_at(ext, 0);
    after_box_exec(w, size, 16, w.pending_target)
}

/// How many bytes of `mvhd` fields follow its version byte and three flag
/// bytes: 32 for version 1, else 16.
pub fn mvhd_body_len(version: u8) -> (n: usize)
    ensures
        n == (if version == 1 {
            32usize
        } else {
            16usize
        }),
{
    if version == 1 {
        32
    } else {
        16
    }
}

/// Time scale and duration of an `mvhd` body: version 1 keeps a 32-bit time
/// scale at 16 and a 64-bit duration at 20, other versions a 32-bit time
/// scale at 8 and a 32-bit duration at 12. A zero in either means unknown.
pub open spec fn mvhd_fields(version: u8, body: Seq<u8>) -> Option<(u32, u64)> {
    let (scale, duration) = if version == 1 {
        (be_value(body.subrange(16, 20)), be_value(body.subrange(20, 28)))
    } else {
        (be_value(body.subrange(8, 12)), be_value(body.subrange(12, 16)))
    };
    if scale == 0 || duration == 0 {
        None
    } else {
        Some((scale as u32, duration as u64))
    }
}

/// The movie's time scale and duration; the length in milliseconds is
/// `duration * 1000 / scale`.
pub fn read_mvhd(version: u8, body: &[u8]) -> (r: Option<(u32, u64)>)
    requires
        body@.len() == (if version == 1 {
            32int
        } else {
            16int
        }),
    ensures
        r == mvhd_fields(version, body@),
{
    let (scale, duration) = if version == 1 {
        (be_u32_at(body, 16), be_u64_at(body, 20))
    } else {
        (be_u32_at(body, 8), be_u32_at(body, 12) as u64)
    };
    if scale == 0 || duration == 0 {
        None
    } else {
        Some((scale, duration))
    }
}

// ---------------------------------------------------------------- WAV

/// Progress through the chunks of a RIFF/WAVE file.
#[derive(Clone, Copy, Debug, PartialEq, Eq, Structural)]
pub struct WavWalk {
    pub pos: u64,
    pub file_len: u64,
    pub byte_rate: u32,
}

/// What to do after reading a chunk header.
#[derive(Clone, Copy, Debug)]
pub enum WavStep {
    /// Read the 8-byte chunk header at this position.
    Chunk(u64),
    /// Read the 16-byte `fmt ` body at this position.
    Format(u64),
    /// The walk is over: data size and byte rate, when both are known and
    /// not zero. The length in milliseconds is `data_size * 1000 / byte_rate`.
    Done(Option<(u32, u32)>),
}

/// The step at a position: a chunk header if one fits, else the end without a
/// `data` chunk.
pub open spec fn wav_step(w: WavWalk) -> WavStep {
    if w.pos as int + 8 <= w.file_len {
        WavStep::Chunk(w.pos)
    } else {
        WavStep::Done(None)
    }
}

/// Whether the first 44 bytes are a RIFF/WAVE header.
pub open spec fn is_wave_header(header: Seq<u8>) -> bool {
    tag_at(header, 0, seq![0x52u8, 0x49, 0x46, 0x46]) && tag_at(header, 8, seq![0x57u8, 0x41, 0x56, 0x45])
}

/// Starts the chunk walk after the RIFF header; refuses other files.
pub fn wav_start(header: &[u8], file_len: u64) -> (r: Option<(WavWalk, WavStep)>)
    requires
        header@.len() == 44,
        file_len < 0x8000_0000_0000_0000,
    ensures
        match r {
            Some((w, s)) => is_wave_header(header@) && w == (WavWalk {
                pos: 12,
                file_len,
                byte_rate: 0,
            }) && s == wav_step(w),
            None => !is_wave_header(header@),
        },
{
    if !has_tag(header, 0, 0x52, 0x49, 0x46, 0x46) || !has_tag(header, 8, 0x57, 0x41, 0x56, 0x45) {
        return None;
    }
    let w = WavWalk { pos: 12, file_len, byte_rate: 0 };
    Some((w, wav_step_exec(w)))
}

fn wav_step_exec(w: WavWalk) -> (s: WavStep)
    requires
        w.file_len < 0x8000_0000_0000_0000,
        w.pos < 0x8000_0000_0000_0000 + 0x2_0000_0000,
    ensures
        s == wav_step(w),
{
    if w.pos + 8 <= w.file_len {
        WavStep::Chunk(w.pos)
    } else {
        WavStep::Done(None)
    }
}

/// The walk past a chunk of `size` bytes, padded to an even length.
pub open spec fn wav_skip(w: WavWalk, size: u32) -> WavWalk {
    WavWalk { pos: (w.pos + 8 + size + size % 2) as u64, ..w }
}

/// What a chunk header leads to: a `fmt ` chunk of at least 16 bytes has its
/// body read, a `data` chunk ends the walk, others are skipped.
pub open spec fn on_chunk(w: WavWalk, chunk: Seq<u8>) -> (WavWalk, WavStep) {
    let size = le_value(chunk.subrange(4, 8)) as u32;
    if tag_at(chunk, 0, seq![0x66u8, 0x6d, 0x74, 0x20]) && size >= 16 {
        (w, WavStep::Format((w.pos + 8) as u64))
    } else if tag_at(chunk, 0, seq![0x64u8, 0x61, 0x74, 0x61]) {
        (w, WavStep::Done(if w.byte_rate == 0 || size == 0 { None } else { Some((size, w.byte_rate)) }))
    } else {
        (wav_skip(w, size), wav_step(wav_skip(w, size)))
    }
}

/// Goes on from the 8-byte chunk header read at the walk's position.
pub fn wav_on_chunk(w: WavWalk, chunk: &[u8]) -> (r: (WavWalk, WavStep))
    requires
        chunk@.len() == 8,
        w.file_len < 0x8000_0000_0000_0000,
        w.pos as int + 8 <= w.file_len,
    ensures
        r == on_chunk(w, chunk@),
{
    let size = le_u32_at(chunk, 4);
    if has_tag(chunk, 0, 0x66, 0x6d, 0x74, 0x20) && size >= 16 {
        (w, WavStep::Format(w.pos + 8))
    } else if has_tag(chunk, 0, 0x64, 0x61, 0x74, 0x61) {
        let res = if w.byte_rate == 0 || size == 0 {
            None
        } else {
            Some((size, w.byte_rate))
        };
        (w, WavStep::Done(res))
    } else {
        let next = WavWalk { pos: w.pos + 8 + size as u64 + (size as u64 % 2), ..w };
        (next, wav_step_exec(next))
    }
}

/// Goes on from the 16-byte `fmt ` body of the chunk at the walk's position
/// (`chunk` is that chunk's header): keeps the byte rate (bytes 8..12,
/// little-endian) and moves past the chunk.
pub fn wav_on_format(w: WavWalk, chunk: &[u8], fmt: &[u8]) -> (r: (WavWalk, WavStep))
    requires
        chunk@.len() == 8,
        fmt@.len() == 16,
        w.file_len < 0x8000_0000_0000_0000,
        w.pos as int + 8 <= w.file_len,
    ensures
        ({
            let size = le_value(chunk@.subrange(4, 8)) as u32;
            let kept = WavWalk { byte_rate: le_value(fmt@.subrange(8, 12)) as u32, ..w };
            r == (wav_skip(kept, size), wav_step(wav_skip(kept, size)))
        }),
{
    let size = le_u32_at(chunk, 4);
    let rate = le_u32_at(fmt, 8);
    let next = WavWalk { pos: w.pos + 8 + size as u64 + (size as u64 % 2), file_len: w.file_len, byte_rate: rate };
    (next, wav_step_exec(next))
}

// ---------------------------------------------------------------- FLAC

/// From the first 8 bytes of a file: the size of its STREAMINFO block when
/// the file starts with `fLaC` and a STREAMINFO block (type 0) of at least
/// 18 bytes follows.
pub open spec fn flac_info_size(head: Seq<u8>) -> Option<u32> {
    if tag_at(head, 0, seq![0x66u8, 0x4c, 0x61, 0x43]) && head[4] % 128 == 0 {
        let size = head[5] * 0x10000 + head[6] * 0x100 + head[7];
        if size >= 18 {
            Some(size as u32)
        } else {
            None
        }
    } else {
        None
    }
}

pub fn flac_stream_info_size(head: &[u8]) -> (r: Option<u32>)
    requires
        head@.len() == 8,
    ensures
        r == flac_info_size(head@),
{
    if !has_tag(head, 0, 0x66, 0x4c, 0x61, 0x43) || head[4] % 128 != 0 {
        return None;
    }
    let size = (head[5] as u32) * 0x10000 + (head[6] as u32) * 0x100 + (head[7] as u32);
    if size >= 18 {
        Some(size)
    } else {
        None
    }
}

/// Sample rate (20 bits from byte 10) and total samples (36 bits from byte 13)
/// of a STREAMINFO block; a zero in either means unknown.
pub open spec fn flac_fields(info: Seq<u8>) -> Option<(u32, u64)> {
    let rate = info[10] * 0x1000 + info[11] * 0x10 + info[12] / 16;
    let total = (info[13] % 16) * 0x1_0000_0000 + info[14] * 0x100_0000 + info[15] * 0x1_0000
        + info[16] * 0x100 + info[17];
    if rate == 0 || total == 0 {
        None
    } else {
        Some((rate as u32, total as u64))
    }
}

/// The stream's sample rate and total samples; the length in milliseconds is
/// `total * 1000 / rate`.
pub fn flac_stream_info(info: &[u8]) -> (r: Option<(u32, u64)>)
    requires
        info@.len() >= 18,
    ensures
        r == flac_fields(info@),
{
    let rate = (info[10] as u32) * 0x1000 + (info[11] as u32) * 0x10 + (info[12] as u32) / 16;
    let total = ((info[13] as u64) % 16) * 0x1_0000_0000 + (info[14] as u64) * 0x100_0000
        + (info[15] as u64) * 0x1_0000 + (info[16] as u64) * 0x100 + (info[17] as u64);
    if rate == 0 || total == 0 {
        None
    } else {
        Some((rate, total))
    }
}

// ---------------------------------------------------------------- dispatch

/// The container formats whose headers are read.
#[derive(Clone, Copy, Debug, PartialEq, Eq, Structural)]
pub enum Container {
    Mp4,
    Matroska,
    Mp3,
    Wav,
    Flac,
}

/// The container for a file extension (without the dot, lower-cased).
pub open spec fn container_for(ext: Seq<char>) -> Option<Container> {
    if ext == "mp4"@ || ext == "m4v"@ || ext == "m4a"@ || ext == "mov"@ || ext == "3gp"@ {
        Some(Container::Mp4)
    } else if ext == "mkv"@ || ext == "webm"@ {
        Some(Container::Matroska)
    } else if ext == "mp3"@ {
        Some(Container::Mp3)
    } else if ext == "wav"@ {
        Some(Container::Wav)
    } else if ext == "flac"@ {
        Some(Container::Flac)
    } else {
        None
    }
}

pub fn container_of(ext: &str) -> (r: Option<Container>)
    ensures
        r == container_for(ext@),
{
    if same_text(ext, "mp4") || same_text(ext, "m4v") || same_text(ext, "m4a") || same_text(
        ext,
        "mov",
    ) || same_text(ext, "3gp") {
        Some(Container::Mp4)
    } else if same_text(ext, "mkv") || same_text(ext, "webm") {
        Some(Container::Matroska)
    } else if same_text(ext, "mp3") {
        Some(Container::Mp3)
    } else if same_text(ext, "wav") {
        Some(Container::Wav)
    } else if same_text(ext, "flac") {
        Some(Container::Flac)
    } else {
        None
    }
}


/// The container for a file name: its extension, in ASCII lower case.
pub open spec fn container_for_name(name: Seq<char>) -> Option<Container> {
    match extension_of(name) {
        Some(e) => container_for(ascii_lowercase(e)),
        None => None,
    }
}

pub fn container_of_file(name: &str) -> (r: Option<Container>)
    ensures
        r == container_for_name(name@),
{
    match file_extension(&chars_of(name)) {
        Some(e) => {
            let lower = string_of(&ascii_lowercase_chars(&e));
            container_of(lower.as_str())
        },
        None => None,
    }
}

proof fn lemma_estimates_at_positive(buf: Seq<u8>, i: int, start: u64, end: u64, k: int)
    requires
        0 <= i,
        0 <= k < estimates_at(buf, i, start, end).len(),
    ensures
        estimates_at(buf, i, start, end)[k] matches Mp3Estimate::Frames {
            frames,
            samples_per_frame,
            sample_rate,
        } ==> frames > 0 && samples_per_frame > 0 && sample_rate > 0,
        estimates_at(buf, i, start, end)[k] matches Mp3Estimate::Bitrate { bitrate_kbps, .. }
            ==> bitrate_kbps > 0,
{
    if frame_sync_at(buf, i) {
        match frame_header(buf[i + 1], buf[i + 2], buf[i + 3]) {
            Some(info) => {
                let tag = i + 4 + spec_side_info_size(info.version, info.channel_mode);
                if tag + 12 <= buf.len() {
                    let f = be_value(buf.subrange(tag + 8, tag + 12));
                    assert(buf.subrange(tag + 8, tag + 12).len() == 4);
                    lemma_be_value_bound(buf.subrange(tag + 8, tag + 12));
                    lemma_byte_cap_values();
                    assert(f < 0x1_0000_0000);
                    assert(f > 0 ==> (f as u32) > 0);
                    assert(spec_samples_per_frame(info.version, info.layer) > 0);
                    match xing_estimate(buf, i, info) {
                        Some(e) => {
                            assert(e matches Mp3Estimate::Frames { frames, samples_per_frame, sample_rate }
                                && frames > 0 && samples_per_frame > 0 && sample_rate > 0);
                        },
                        None => {},
                    }
                }
            },
            None => {},
        }
    }
}

/// Side information fills 32 bytes after an MPEG-1 frame header and 17
/// after an MPEG-2/2.5 one, except in mono (channel mode 3), where it fills
/// 17 and 9: every other channel mode, joint stereo included, takes the
/// stereo size.
pub proof fn side_info_by_channel_mode(version: u8, channel_mode: u8)
    ensures
        channel_mode != 3 ==> spec_side_info_size(version, channel_mode) == spec_side_info_size(
            version,
            0,
        ),
        spec_side_info_size(3, 0) == 32,
        spec_side_info_size(3, 3) == 17,
        version != 3 ==> spec_side_info_size(version, 0) == 17 && spec_side_info_size(version, 3)
            == 9,
{
}

/// A Xing header right after a frame's side information gives a frame-count
/// estimate: for a frame at `i` whose header parses, with the tag `Xing`
/// 4 + 32 bytes after the frame start (MPEG-1, any channel mode but mono;
/// 4 + 17 for MPEG-1 mono and MPEG-2/2.5 stereo; 4 + 9 for MPEG-2/2.5 mono),
/// the frames flag set and a frame count above zero.
pub proof fn xing_frames_found_after_side_info(buf: Seq<u8>, i: int, info: Mp3FrameInfo)
    requires
        0 <= i,
        i + 4 <= buf.len(),
        frame_header(buf[i + 1], buf[i + 2], buf[i + 3]) == Some(info),
        ({
            let tag = i + 4 + (if (buf[i + 1] / 8) % 4 == 3 {
                if buf[i + 3] / 64 == 3 { 17int } else { 32int }
            } else {
                if buf[i + 3] / 64 == 3 { 9int } else { 17int }
            });
            &&& tag + 12 <= buf.len()
            &&& buf.subrange(tag, tag + 4) == seq![0x58u8, 0x69, 0x6e, 0x67]
            &&& be_value(buf.subrange(tag + 4, tag + 8)) % 2 == 1
            &&& be_value(buf.subrange(tag + 8, tag + 12)) > 0
        }),
    ensures
        xing_estimate(buf, i, info) matches Some(Mp3Estimate::Frames { frames, samples_per_frame, sample_rate })
            && frames > 0 && sample_rate == info.sample_rate && samples_per_frame == spec_samples_per_frame(
            info.version,
            info.layer,
        ),
{
    assert(info.sample_rate > 0);
    let tag = i + 4 + spec_side_info_size(info.version, info.channel_mode);
    lemma_be_value_bound(buf.subrange(tag + 8, tag + 12));
    lemma_byte_cap_values();
}

/// Every estimate a scan offers has positive factors: a frame count with a
/// positive frame count, samples per frame and sample rate; a bitrate that is
/// not zero. So an estimate from a Xing/Info header always gives a positive
/// length.
pub proof fn mp3_estimates_positive(buf: Seq<u8>, n: int, start: u64, end: u64, k: int)
    requires
        0 <= k < estimates_upto(buf, n, start, end).len(),
    ensures
        estimates_upto(buf, n, start, end)[k] matches Mp3Estimate::Frames {
            frames,
            samples_per_frame,
            sample_rate,
        } ==> frames > 0 && samples_per_frame > 0 && sample_rate > 0,
        estimates_upto(buf, n, start, end)[k] matches Mp3Estimate::Bitrate { bitrate_kbps, .. }
            ==> bitrate_kbps > 0,
    decreases n,
{
    if n > 0 {
        let rest = estimates_upto(buf, n - 1, start, end);
        if k < rest.len() {
            mp3_estimates_positive(buf, n - 1, start, end, k);
        } else {
            lemma_estimates_at_positive(buf, n - 1, start, end, k - rest.len());
        }
    }
}

/// Going past a box that is not the one looked for moves the walk forward
/// (or to the very end of the offset range).
pub proof fn walk_moves_forward(w: BoxWalk, size: u64, header_len: u64)
    requires
        header_len >= 8,
        size >= header_len,
    ensures
        after_box(w, size, header_len, false).0.offset > w.offset || after_box(
            w,
            size,
            header_len,
            false,
        ).0.offset == u64::MAX,
{
}

} // verus!
