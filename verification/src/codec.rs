//! A byte codec for display lists, so a list can be shipped to the
//! painting process and reread. Every scalar becomes one little-endian
//! 64-bit word (signed values biased into unsigned range), lists are
//! length-prefixed, and shared payloads travel as their handles. Decoding
//! undoes encoding exactly; the round-trip law is
//! [`law_codec_round_trip`].

use vstd::prelude::*;
use vstd::arithmetic::div_mod::{lemma_fundamental_div_mod, lemma_fundamental_div_mod_converse};

verus! {

/// The bias that maps an `i32` into `[0, 2^32)`.
pub const BIAS_32: u64 = 0x8000_0000;

/// The bias that maps a bounded `i64` (within `±2^61`) into unsigned
/// range.
pub const BIAS_62: u64 = 0x4000_0000_0000_0000;

/// A signed 32-bit value as a word.
pub open spec fn word_of_i32(x: i32) -> u64 {
    (x + BIAS_32) as u64
}

/// The value a word decodes to as a signed 32-bit value.
pub open spec fn i32_of_word(w: u64) -> i32 {
    (w - BIAS_32) as i32
}

/// A bounded signed 64-bit value as a word.
pub open spec fn word_of_i64(x: i64) -> u64 {
    (x + BIAS_62) as u64
}

pub open spec fn i64_of_word(w: u64) -> i64 {
    (w - BIAS_62) as i64
}

fn enc_i32(x: i32) -> (w: u64)
    ensures
        w == word_of_i32(x),
{
    ((x as i64) + (BIAS_32 as i64)) as u64
}

fn dec_i32(w: u64) -> (x: i32)
    requires
        w < 0x1_0000_0000,
    ensures
        x == i32_of_word(w),
{
    ((w as i64) - (BIAS_32 as i64)) as i32
}

fn enc_i64(x: i64) -> (w: u64)
    requires
        -0x4000_0000_0000_0000 <= x < 0x4000_0000_0000_0000,
    ensures
        w == word_of_i64(x),
{
    (x + (BIAS_62 as i64)) as u64
}

fn dec_i64(w: u64) -> (x: i64)
    requires
        w < 0x8000_0000_0000_0000,
    ensures
        x == i64_of_word(w),
{
    (w as i64) - (BIAS_62 as i64)
}

/// The `n` little-endian bytes of `w`.
pub open spec fn le_bytes(w: u64, n: nat) -> Seq<u8>
    decreases n,
{
    if n == 0 {
        Seq::empty()
    } else {
        seq![(w % 256) as u8] + le_bytes(w / 256, (n - 1) as nat)
    }
}

/// The word the `n` bytes at `i` stand for.
pub open spec fn word_at(s: Seq<u8>, i: int, n: nat) -> u64
    decreases n,
{
    if n == 0 || i < 0 || i >= s.len() {
        0
    } else {
        (s[i] + 256 * word_at(s, i + 1, (n - 1) as nat)) as u64
    }
}

proof fn lemma_le_bytes_len(w: u64, n: nat)
    ensures
        le_bytes(w, n).len() == n,
    decreases n,
{
    if n > 0 {
        lemma_le_bytes_len(w / 256, (n - 1) as nat);
    }
}

/// Reading back the bytes of `w` embedded in a larger stream yields `w`.
proof fn lemma_word_round_trip(prefix: Seq<u8>, w: u64, suffix: Seq<u8>, n: nat)
    requires
        w < pow256(n),
    ensures
        word_at(prefix + le_bytes(w, n) + suffix, prefix.len() as int, n) == w,
    decreases n,
{
    let s = prefix + le_bytes(w, n) + suffix;
    lemma_le_bytes_len(w, n);
    if n == 0 {
    } else {
        let b = (w % 256) as u8;
        let rest = w / 256;
        assert(prefix + le_bytes(w, n) + suffix =~= (prefix + seq![b]) + le_bytes(
            rest,
            (n - 1) as nat,
        ) + suffix);
        assert(rest < pow256((n - 1) as nat)) by {
            lemma_fundamental_div_mod(w as int, 256);
        }
        lemma_word_round_trip(prefix + seq![b], rest, suffix, (n - 1) as nat);
        assert(s[prefix.len() as int] == b);
        assert(word_at(s, prefix.len() as int + 1, (n - 1) as nat) == rest);
        assert(b + 256 * rest == w) by {
            lemma_fundamental_div_mod(w as int, 256);
        }
    }
}

pub open spec fn pow256(n: nat) -> nat
    decreases n,
{
    if n == 0 {
        1
    } else {
        256 * pow256((n - 1) as nat)
    }
}

proof fn lemma_pow256_8()
    ensures
        pow256(8) == 0x1_0000_0000_0000_0000,
        pow256(7) == 0x100_0000_0000_0000,
{
    assert(pow256(0) == 1);
    assert(pow256(1) == 256);
    assert(pow256(2) == 0x1_0000);
    assert(pow256(3) == 0x100_0000);
    assert(pow256(4) == 0x1_0000_0000);
    assert(pow256(5) == 0x100_0000_0000);
    assert(pow256(6) == 0x1_0000_0000_0000);
    assert(pow256(7) == 0x100_0000_0000_0000);
}

/// Appends the eight little-endian bytes of `w`.
fn push_word(out: &mut Vec<u8>, w: u64)
    ensures
        final(out)@ == old(out)@ + le_bytes(w, 8),
{
    let ghost w0 = w;
    let mut w = w;
    let mut k: usize = 0;
    let ghost base = out@;
    proof {
        vstd::arithmetic::div_mod::lemma_div_basics(w0 as int);
        assert(pow256(0) == 1);
    }
    while k < 8
        invariant
            0 <= k <= 8,
            out@ == base + le_bytes(w0, k as nat),
            w == w0 as nat / pow256(k as nat),
            pow256(k as nat) > 0,
        decreases 8 - k,
    {
        proof {
            lemma_le_bytes_len(w0, k as nat);
            lemma_le_bytes_step(w0, k as nat);
        }
        out.push((w % 256) as u8);
        w = w / 256;
        proof {
            assert(out@ =~= base + le_bytes(w0, (k + 1) as nat));
            assert((w0 as nat / pow256(k as nat)) / 256 == w0 as nat / pow256((k + 1) as nat))
                by {
                lemma_div_chain(w0 as nat, pow256(k as nat));
            }
        }
        k += 1;
    }
}

/// One more byte of the little-endian expansion.
proof fn lemma_le_bytes_step(w: u64, k: nat)
    ensures
        le_bytes(w, k + 1) =~= le_bytes(w, k) + seq![((w as nat / pow256(k)) % 256) as u8],
        pow256(k) > 0,
    decreases k,
{
    if k == 0 {
        assert(w as nat / 1 == w as nat) by {
        }
        assert(le_bytes(w / 256, 0) =~= Seq::<u8>::empty());
        assert(le_bytes(w, 1) =~= Seq::<u8>::empty() + seq![(w % 256) as u8]);
    } else {
        lemma_le_bytes_step(w / 256, (k - 1) as nat);
        assert((w / 256) as nat / pow256((k - 1) as nat) == w as nat / pow256(k))
            by {
            lemma_div_chain_front(w as nat, pow256((k - 1) as nat));
        }
        assert(le_bytes(w, k + 1) =~= seq![(w % 256) as u8] + le_bytes(w / 256, k));
    }
}

proof fn lemma_div_chain(w: nat, p: nat)
    requires
        p > 0,
    ensures
        (w / p) / 256 == w / (p * 256),
{
    vstd::arithmetic::div_mod::lemma_div_denominator(w as int, p as int, 256);
}

proof fn lemma_div_chain_front(w: nat, p: nat)
    requires
        p > 0,
    ensures
        (w / 256) / p == w / (256 * p),
{
    vstd::arithmetic::div_mod::lemma_div_denominator(w as int, 256, p as int);
}

/// Reads the word at byte offset `pos`, advancing it.
fn read_word(bytes: &Vec<u8>, pos: &mut usize) -> (r: Option<u64>)
    ensures
        match r {
            Some(w) => *old(pos) + 8 <= bytes@.len() && w == word_at(bytes@, *old(pos) as int, 8)
                && *final(pos) == *old(pos) + 8,
            None => bytes@.len() < *old(pos) + 8 && *final(pos) == *old(pos),
        },
{
    let n = bytes.len();
    if n < 8 || *pos > n - 8 {
        return None;
    }
    let mut w: u64 = 0;
    let mut k: usize = 8;
    proof {
        assert(pow256(0) == 1);
        lemma_pow256_mono(0);
    }
    while k > 0
        invariant
            0 <= k <= 8,
            n == bytes@.len(),
            *pos + 8 <= n,
            w == word_at(bytes@, (*pos + k) as int, (8 - k) as nat),
            w < pow256((8 - k) as nat),
            *pos == *old(pos),
        decreases k,
    {
        proof {
            lemma_pow256_8();
            lemma_pow256_le((8 - k) as nat, 7);
            assert(pow256((8 - k + 1) as nat) == 256 * pow256((8 - k) as nat));
        }
        k -= 1;
        let b = bytes[*pos + k];
        w = (b as u64) + 256 * w;
    }
    *pos = *pos + 8;
    Some(w)
}

proof fn lemma_pow256_mono(n: nat)
    requires
        n <= 8,
    ensures
        pow256(n) <= pow256(8),
        pow256(n) >= 1,
    decreases 8 - n,
{
    if n < 8 {
        lemma_pow256_mono(n + 1);
        assert(pow256(n + 1) == 256 * pow256(n));
        lemma_pow256_pos(n);
    } else {
        lemma_pow256_pos(8);
    }
}

/// Powers of 256 grow with the exponent.
proof fn lemma_pow256_le(a: nat, b: nat)
    requires
        a <= b,
    ensures
        pow256(a) <= pow256(b),
        pow256(a) >= 1,
    decreases b - a,
{
    lemma_pow256_pos(a);
    if a < b {
        lemma_pow256_le(a, (b - 1) as nat);
        assert(pow256(b) == 256 * pow256((b - 1) as nat));
    }
}

proof fn lemma_pow256_pos(n: nat)
    ensures
        pow256(n) >= 1,
    decreases n,
{
    if n > 0 {
        lemma_pow256_pos((n - 1) as nat);
    }
}

pub open spec fn word_of_cursor(v: crate::style::Cursor) -> u64 {
    match v {
        crate::style::Cursor::DefaultCursor => 0,
        crate::style::Cursor::PointerCursor => 1,
        crate::style::Cursor::ContextMenuCursor => 2,
        crate::style::Cursor::HelpCursor => 3,
        crate::style::Cursor::ProgressCursor => 4,
        crate::style::Cursor::WaitCursor => 5,
        crate::style::Cursor::CellCursor => 6,
        crate::style::Cursor::CrosshairCursor => 7,
        crate::style::Cursor::TextCursor => 8,
        crate::style::Cursor::VerticalTextCursor => 9,
        crate::style::Cursor::AliasCursor => 10,
        crate::style::Cursor::CopyCursor => 11,
        crate::style::Cursor::MoveCursor => 12,
        crate::style::Cursor::NoDropCursor => 13,
        crate::style::Cursor::NotAllowedCursor => 14,
        crate::style::Cursor::GrabCursor => 15,
        crate::style::Cursor::GrabbingCursor => 16,
        crate::style::Cursor::EResizeCursor => 17,
        crate::style::Cursor::NResizeCursor => 18,
        crate::style::Cursor::NeResizeCursor => 19,
        crate::style::Cursor::NwResizeCursor => 20,
        crate::style::Cursor::SResizeCursor => 21,
        crate::style::Cursor::SeResizeCursor => 22,
        crate::style::Cursor::SwResizeCursor => 23,
        crate::style::Cursor::WResizeCursor => 24,
        crate::style::Cursor::EwResizeCursor => 25,
        crate::style::Cursor::NsResizeCursor => 26,
        crate::style::Cursor::NeswResizeCursor => 27,
        crate::style::Cursor::NwseResizeCursor => 28,
        crate::style::Cursor::ColResizeCursor => 29,
        crate::style::Cursor::RowResizeCursor => 30,
        crate::style::Cursor::AllScrollCursor => 31,
        crate::style::Cursor::ZoomInCursor => 32,
        crate::style::Cursor::ZoomOutCursor => 33,
        crate::style::Cursor::NoneCursor => 34,
    }
}

pub open spec fn cursor_of_word(w: u64) -> Option<crate::style::Cursor> {
    if w == 0 {
        Some(crate::style::Cursor::DefaultCursor)
    } else if w == 1 {
        Some(crate::style::Cursor::PointerCursor)
    } else if w == 2 {
        Some(crate::style::Cursor::ContextMenuCursor)
    } else if w == 3 {
        Some(crate::style::Cursor::HelpCursor)
    } else if w == 4 {
        Some(crate::style::Cursor::ProgressCursor)
    } else if w == 5 {
        Some(crate::style::Cursor::WaitCursor)
    } else if w == 6 {
        Some(crate::style::Cursor::CellCursor)
    } else if w == 7 {
        Some(crate::style::Cursor::CrosshairCursor)
    } else if w == 8 {
        Some(crate::style::Cursor::TextCursor)
    } else if w == 9 {
        Some(crate::style::Cursor::VerticalTextCursor)
    } else if w == 10 {
        Some(crate::style::Cursor::AliasCursor)
    } else if w == 11 {
        Some(crate::style::Cursor::CopyCursor)
    } else if w == 12 {
        Some(crate::style::Cursor::MoveCursor)
    } else if w == 13 {
        Some(crate::style::Cursor::NoDropCursor)
    } else if w == 14 {
        Some(crate::style::Cursor::NotAllowedCursor)
    } else if w == 15 {
        Some(crate::style::Cursor::GrabCursor)
    } else if w == 16 {
        Some(crate::style::Cursor::GrabbingCursor)
    } else if w == 17 {
        Some(crate::style::Cursor::EResizeCursor)
    } else if w == 18 {
        Some(crate::style::Cursor::NResizeCursor)
    } else if w == 19 {
        Some(crate::style::Cursor::NeResizeCursor)
    } else if w == 20 {
        Some(crate::style::Cursor::NwResizeCursor)
    } else if w == 21 {
        Some(crate::style::Cursor::SResizeCursor)
    } else if w == 22 {
        Some(crate::style::Cursor::SeResizeCursor)
    } else if w == 23 {
        Some(crate::style::Cursor::SwResizeCursor)
    } else if w == 24 {
        Some(crate::style::Cursor::WResizeCursor)
    } else if w == 25 {
        Some(crate::style::Cursor::EwResizeCursor)
    } else if w == 26 {
        Some(crate::style::Cursor::NsResizeCursor)
    } else if w == 27 {
        Some(crate::style::Cursor::NeswResizeCursor)
    } else if w == 28 {
        Some(crate::style::Cursor::NwseResizeCursor)
    } else if w == 29 {
        Some(crate::style::Cursor::ColResizeCursor)
    } else if w == 30 {
        Some(crate::style::Cursor::RowResizeCursor)
    } else if w == 31 {
        Some(crate::style::Cursor::AllScrollCursor)
    } else if w == 32 {
        Some(crate::style::Cursor::ZoomInCursor)
    } else if w == 33 {
        Some(crate::style::Cursor::ZoomOutCursor)
    } else if w == 34 {
        Some(crate::style::Cursor::NoneCursor)
    } else {
        None
    }
}

fn enc_cursor(v: crate::style::Cursor) -> (w: u64)
    ensures
        w == word_of_cursor(v),
{
    match v {
        crate::style::Cursor::DefaultCursor => 0,
        crate::style::Cursor::PointerCursor => 1,
        crate::style::Cursor::ContextMenuCursor => 2,
        crate::style::Cursor::HelpCursor => 3,
        crate::style::Cursor::ProgressCursor => 4,
        crate::style::Cursor::WaitCursor => 5,
        crate::style::Cursor::CellCursor => 6,
        crate::style::Cursor::CrosshairCursor => 7,
        crate::style::Cursor::TextCursor => 8,
        crate::style::Cursor::VerticalTextCursor => 9,
        crate::style::Cursor::AliasCursor => 10,
        crate::style::Cursor::CopyCursor => 11,
        crate::style::Cursor::MoveCursor => 12,
        crate::style::Cursor::NoDropCursor => 13,
        crate::style::Cursor::NotAllowedCursor => 14,
        crate::style::Cursor::GrabCursor => 15,
        crate::style::Cursor::GrabbingCursor => 16,
        crate::style::Cursor::EResizeCursor => 17,
        crate::style::Cursor::NResizeCursor => 18,
        crate::style::Cursor::NeResizeCursor => 19,
        crate::style::Cursor::NwResizeCursor => 20,
        crate::style::Cursor::SResizeCursor => 21,
        crate::style::Cursor::SeResizeCursor => 22,
        crate::style::Cursor::SwResizeCursor => 23,
        crate::style::Cursor::WResizeCursor => 24,
        crate::style::Cursor::EwResizeCursor => 25,
        crate::style::Cursor::NsResizeCursor => 26,
        crate::style::Cursor::NeswResizeCursor => 27,
        crate::style::Cursor::NwseResizeCursor => 28,
        crate::style::Cursor::ColResizeCursor => 29,
        crate::style::Cursor::RowResizeCursor => 30,
        crate::style::Cursor::AllScrollCursor => 31,
        crate::style::Cursor::ZoomInCursor => 32,
        crate::style::Cursor::ZoomOutCursor => 33,
        crate::style::Cursor::NoneCursor => 34,
    }
}

fn dec_cursor(w: u64) -> (r: Option<crate::style::Cursor>)
    ensures
        r == cursor_of_word(w),
        r is Some ==> word_of_cursor(r->0) == w,
{
    if w == 0 {
        Some(crate::style::Cursor::DefaultCursor)
    } else if w == 1 {
        Some(crate::style::Cursor::PointerCursor)
    } else if w == 2 {
        Some(crate::style::Cursor::ContextMenuCursor)
    } else if w == 3 {
        Some(crate::style::Cursor::HelpCursor)
    } else if w == 4 {
        Some(crate::style::Cursor::ProgressCursor)
    } else if w == 5 {
        Some(crate::style::Cursor::WaitCursor)
    } else if w == 6 {
        Some(crate::style::Cursor::CellCursor)
    } else if w == 7 {
        Some(crate::style::Cursor::CrosshairCursor)
    } else if w == 8 {
        Some(crate::style::Cursor::TextCursor)
    } else if w == 9 {
        Some(crate::style::Cursor::VerticalTextCursor)
    } else if w == 10 {
        Some(crate::style::Cursor::AliasCursor)
    } else if w == 11 {
        Some(crate::style::Cursor::CopyCursor)
    } else if w == 12 {
        Some(crate::style::Cursor::MoveCursor)
    } else if w == 13 {
        Some(crate::style::Cursor::NoDropCursor)
    } else if w == 14 {
        Some(crate::style::Cursor::NotAllowedCursor)
    } else if w == 15 {
        Some(crate::style::Cursor::GrabCursor)
    } else if w == 16 {
        Some(crate::style::Cursor::GrabbingCursor)
    } else if w == 17 {
        Some(crate::style::Cursor::EResizeCursor)
    } else if w == 18 {
        Some(crate::style::Cursor::NResizeCursor)
    } else if w == 19 {
        Some(crate::style::Cursor::NeResizeCursor)
    } else if w == 20 {
        Some(crate::style::Cursor::NwResizeCursor)
    } else if w == 21 {
        Some(crate::style::Cursor::SResizeCursor)
    } else if w == 22 {
        Some(crate::style::Cursor::SeResizeCursor)
    } else if w == 23 {
        Some(crate::style::Cursor::SwResizeCursor)
    } else if w == 24 {
        Some(crate::style::Cursor::WResizeCursor)
    } else if w == 25 {
        Some(crate::style::Cursor::EwResizeCursor)
    } else if w == 26 {
        Some(crate::style::Cursor::NsResizeCursor)
    } else if w == 27 {
        Some(crate::style::Cursor::NeswResizeCursor)
    } else if w == 28 {
        Some(crate::style::Cursor::NwseResizeCursor)
    } else if w == 29 {
        Some(crate::style::Cursor::ColResizeCursor)
    } else if w == 30 {
        Some(crate::style::Cursor::RowResizeCursor)
    } else if w == 31 {
        Some(crate::style::Cursor::AllScrollCursor)
    } else if w == 32 {
        Some(crate::style::Cursor::ZoomInCursor)
    } else if w == 33 {
        Some(crate::style::Cursor::ZoomOutCursor)
    } else if w == 34 {
        Some(crate::style::Cursor::NoneCursor)
    } else {
        None
    }
}

pub open spec fn word_of_borderstyle(v: crate::style::BorderStyle) -> u64 {
    match v {
        crate::style::BorderStyle::Hidden => 0,
        crate::style::BorderStyle::NotRendered => 1,
        crate::style::BorderStyle::Dotted => 2,
        crate::style::BorderStyle::Dashed => 3,
        crate::style::BorderStyle::Solid => 4,
        crate::style::BorderStyle::Double => 5,
        crate::style::BorderStyle::Groove => 6,
        crate::style::BorderStyle::Ridge => 7,
        crate::style::BorderStyle::Inset => 8,
        crate::style::BorderStyle::Outset => 9,
    }
}

pub open spec fn borderstyle_of_word(w: u64) -> Option<crate::style::BorderStyle> {
    if w == 0 {
        Some(crate::style::BorderStyle::Hidden)
    } else if w == 1 {
        Some(crate::style::BorderStyle::NotRendered)
    } else if w == 2 {
        Some(crate::style::BorderStyle::Dotted)
    } else if w == 3 {
        Some(crate::style::BorderStyle::Dashed)
    } else if w == 4 {
        Some(crate::style::BorderStyle::Solid)
    } else if w == 5 {
        Some(crate::style::BorderStyle::Double)
    } else if w == 6 {
        Some(crate::style::BorderStyle::Groove)
    } else if w == 7 {
        Some(crate::style::BorderStyle::Ridge)
    } else if w == 8 {
        Some(crate::style::BorderStyle::Inset)
    } else if w == 9 {
        Some(crate::style::BorderStyle::Outset)
    } else {
        None
    }
}

fn enc_borderstyle(v: crate::style::BorderStyle) -> (w: u64)
    ensures
        w == word_of_borderstyle(v),
{
    match v {
        crate::style::BorderStyle::Hidden => 0,
        crate::style::BorderStyle::NotRendered => 1,
        crate::style::BorderStyle::Dotted => 2,
        crate::style::BorderStyle::Dashed => 3,
        crate::style::BorderStyle::Solid => 4,
        crate::style::BorderStyle::Double => 5,
        crate::style::BorderStyle::Groove => 6,
        crate::style::BorderStyle::Ridge => 7,
        crate::style::BorderStyle::Inset => 8,
        crate::style::BorderStyle::Outset => 9,
    }
}

fn dec_borderstyle(w: u64) -> (r: Option<crate::style::BorderStyle>)
    ensures
        r == borderstyle_of_word(w),
        r is Some ==> word_of_borderstyle(r->0) == w,
{
    if w == 0 {
        Some(crate::style::BorderStyle::Hidden)
    } else if w == 1 {
        Some(crate::style::BorderStyle::NotRendered)
    } else if w == 2 {
        Some(crate::style::BorderStyle::Dotted)
    } else if w == 3 {
        Some(crate::style::BorderStyle::Dashed)
    } else if w == 4 {
        Some(crate::style::BorderStyle::Solid)
    } else if w == 5 {
        Some(crate::style::BorderStyle::Double)
    } else if w == 6 {
        Some(crate::style::BorderStyle::Groove)
    } else if w == 7 {
        Some(crate::style::BorderStyle::Ridge)
    } else if w == 8 {
        Some(crate::style::BorderStyle::Inset)
    } else if w == 9 {
        Some(crate::style::BorderStyle::Outset)
    } else {
        None
    }
}

pub open spec fn word_of_mixblendmode(v: crate::style::MixBlendMode) -> u64 {
    match v {
        crate::style::MixBlendMode::Normal => 0,
        crate::style::MixBlendMode::Multiply => 1,
        crate::style::MixBlendMode::Screen => 2,
        crate::style::MixBlendMode::Overlay => 3,
        crate::style::MixBlendMode::Darken => 4,
        crate::style::MixBlendMode::Lighten => 5,
        crate::style::MixBlendMode::ColorDodge => 6,
        crate::style::MixBlendMode::ColorBurn => 7,
        crate::style::MixBlendMode::HardLight => 8,
        crate::style::MixBlendMode::SoftLight => 9,
        crate::style::MixBlendMode::Difference => 10,
        crate::style::MixBlendMode::Exclusion => 11,
        crate::style::MixBlendMode::Hue => 12,
        crate::style::MixBlendMode::Saturation => 13,
        crate::style::MixBlendMode::Color => 14,
        crate::style::MixBlendMode::Luminosity => 15,
    }
}

pub open spec fn mixblendmode_of_word(w: u64) -> Option<crate::style::MixBlendMode> {
    if w == 0 {
        Some(crate::style::MixBlendMode::Normal)
    } else if w == 1 {
        Some(crate::style::MixBlendMode::Multiply)
    } else if w == 2 {
        Some(crate::style::MixBlendMode::Screen)
    } else if w == 3 {
        Some(crate::style::MixBlendMode::Overlay)
    } else if w == 4 {
        Some(crate::style::MixBlendMode::Darken)
    } else if w == 5 {
        Some(crate::style::MixBlendMode::Lighten)
    } else if w == 6 {
        Some(crate::style::MixBlendMode::ColorDodge)
    } else if w == 7 {
        Some(crate::style::MixBlendMode::ColorBurn)
    } else if w == 8 {
        Some(crate::style::MixBlendMode::HardLight)
    } else if w == 9 {
        Some(crate::style::MixBlendMode::SoftLight)
    } else if w == 10 {
        Some(crate::style::MixBlendMode::Difference)
    } else if w == 11 {
        Some(crate::style::MixBlendMode::Exclusion)
    } else if w == 12 {
        Some(crate::style::MixBlendMode::Hue)
    } else if w == 13 {
        Some(crate::style::MixBlendMode::Saturation)
    } else if w == 14 {
        Some(crate::style::MixBlendMode::Color)
    } else if w == 15 {
        Some(crate::style::MixBlendMode::Luminosity)
    } else {
        None
    }
}

fn enc_mixblendmode(v: crate::style::MixBlendMode) -> (w: u64)
    ensures
        w == word_of_mixblendmode(v),
{
    match v {
        crate::style::MixBlendMode::Normal => 0,
        crate::style::MixBlendMode::Multiply => 1,
        crate::style::MixBlendMode::Screen => 2,
        crate::style::MixBlendMode::Overlay => 3,
        crate::style::MixBlendMode::Darken => 4,
        crate::style::MixBlendMode::Lighten => 5,
        crate::style::MixBlendMode::ColorDodge => 6,
        crate::style::MixBlendMode::ColorBurn => 7,
        crate::style::MixBlendMode::HardLight => 8,
        crate::style::MixBlendMode::SoftLight => 9,
        crate::style::MixBlendMode::Difference => 10,
        crate::style::MixBlendMode::Exclusion => 11,
        crate::style::MixBlendMode::Hue => 12,
        crate::style::MixBlendMode::Saturation => 13,
        crate::style::MixBlendMode::Color => 14,
        crate::style::MixBlendMode::Luminosity => 15,
    }
}

fn dec_mixblendmode(w: u64) -> (r: Option<crate::style::MixBlendMode>)
    ensures
        r == mixblendmode_of_word(w),
        r is Some ==> word_of_mixblendmode(r->0) == w,
{
    if w == 0 {
        Some(crate::style::MixBlendMode::Normal)
    } else if w == 1 {
        Some(crate::style::MixBlendMode::Multiply)
    } else if w == 2 {
        Some(crate::style::MixBlendMode::Screen)
    } else if w == 3 {
        Some(crate::style::MixBlendMode::Overlay)
    } else if w == 4 {
        Some(crate::style::MixBlendMode::Darken)
    } else if w == 5 {
        Some(crate::style::MixBlendMode::Lighten)
    } else if w == 6 {
        Some(crate::style::MixBlendMode::ColorDodge)
    } else if w == 7 {
        Some(crate::style::MixBlendMode::ColorBurn)
    } else if w == 8 {
        Some(crate::style::MixBlendMode::HardLight)
    } else if w == 9 {
        Some(crate::style::MixBlendMode::SoftLight)
    } else if w == 10 {
        Some(crate::style::MixBlendMode::Difference)
    } else if w == 11 {
        Some(crate::style::MixBlendMode::Exclusion)
    } else if w == 12 {
        Some(crate::style::MixBlendMode::Hue)
    } else if w == 13 {
        Some(crate::style::MixBlendMode::Saturation)
    } else if w == 14 {
        Some(crate::style::MixBlendMode::Color)
    } else if w == 15 {
        Some(crate::style::MixBlendMode::Luminosity)
    } else {
        None
    }
}

pub open spec fn word_of_pixelformat(v: crate::style::PixelFormat) -> u64 {
    match v {
        crate::style::PixelFormat::K8 => 0,
        crate::style::PixelFormat::KA8 => 1,
        crate::style::PixelFormat::RGB8 => 2,
        crate::style::PixelFormat::RGBA8 => 3,
    }
}

pub open spec fn pixelformat_of_word(w: u64) -> Option<crate::style::PixelFormat> {
    if w == 0 {
        Some(crate::style::PixelFormat::K8)
    } else if w == 1 {
        Some(crate::style::PixelFormat::KA8)
    } else if w == 2 {
        Some(crate::style::PixelFormat::RGB8)
    } else if w == 3 {
        Some(crate::style::PixelFormat::RGBA8)
    } else {
        None
    }
}

fn enc_pixelformat(v: crate::style::PixelFormat) -> (w: u64)
    ensures
        w == word_of_pixelformat(v),
{
    match v {
        crate::style::PixelFormat::K8 => 0,
        crate::style::PixelFormat::KA8 => 1,
        crate::style::PixelFormat::RGB8 => 2,
        crate::style::PixelFormat::RGBA8 => 3,
    }
}

fn dec_pixelformat(w: u64) -> (r: Option<crate::style::PixelFormat>)
    ensures
        r == pixelformat_of_word(w),
        r is Some ==> word_of_pixelformat(r->0) == w,
{
    if w == 0 {
        Some(crate::style::PixelFormat::K8)
    } else if w == 1 {
        Some(crate::style::PixelFormat::KA8)
    } else if w == 2 {
        Some(crate::style::PixelFormat::RGB8)
    } else if w == 3 {
        Some(crate::style::PixelFormat::RGBA8)
    } else {
        None
    }
}

pub open spec fn word_of_textorientation(v: crate::item::TextOrientation) -> u64 {
    match v {
        crate::item::TextOrientation::Upright => 0,
        crate::item::TextOrientation::SidewaysLeft => 1,
        crate::item::TextOrientation::SidewaysRight => 2,
    }
}

pub open spec fn textorientation_of_word(w: u64) -> Option<crate::item::TextOrientation> {
    if w == 0 {
        Some(crate::item::TextOrientation::Upright)
    } else if w == 1 {
        Some(crate::item::TextOrientation::SidewaysLeft)
    } else if w == 2 {
        Some(crate::item::TextOrientation::SidewaysRight)
    } else {
        None
    }
}

fn enc_textorientation(v: crate::item::TextOrientation) -> (w: u64)
    ensures
        w == word_of_textorientation(v),
{
    match v {
        crate::item::TextOrientation::Upright => 0,
        crate::item::TextOrientation::SidewaysLeft => 1,
        crate::item::TextOrientation::SidewaysRight => 2,
    }
}

fn dec_textorientation(w: u64) -> (r: Option<crate::item::TextOrientation>)
    ensures
        r == textorientation_of_word(w),
        r is Some ==> word_of_textorientation(r->0) == w,
{
    if w == 0 {
        Some(crate::item::TextOrientation::Upright)
    } else if w == 1 {
        Some(crate::item::TextOrientation::SidewaysLeft)
    } else if w == 2 {
        Some(crate::item::TextOrientation::SidewaysRight)
    } else {
        None
    }
}

pub open spec fn word_of_boxshadowclipmode(v: crate::item::BoxShadowClipMode) -> u64 {
    match v {
        crate::item::BoxShadowClipMode::NoClipping => 0,
        crate::item::BoxShadowClipMode::Outset => 1,
        crate::item::BoxShadowClipMode::Inset => 2,
    }
}

pub open spec fn boxshadowclipmode_of_word(w: u64) -> Option<crate::item::BoxShadowClipMode> {
    if w == 0 {
        Some(crate::item::BoxShadowClipMode::NoClipping)
    } else if w == 1 {
        Some(crate::item::BoxShadowClipMode::Outset)
    } else if w == 2 {
        Some(crate::item::BoxShadowClipMode::Inset)
    } else {
        None
    }
}

fn enc_boxshadowclipmode(v: crate::item::BoxShadowClipMode) -> (w: u64)
    ensures
        w == word_of_boxshadowclipmode(v),
{
    match v {
        crate::item::BoxShadowClipMode::NoClipping => 0,
        crate::item::BoxShadowClipMode::Outset => 1,
        crate::item::BoxShadowClipMode::Inset => 2,
    }
}

fn dec_boxshadowclipmode(w: u64) -> (r: Option<crate::item::BoxShadowClipMode>)
    ensures
        r == boxshadowclipmode_of_word(w),
        r is Some ==> word_of_boxshadowclipmode(r->0) == w,
{
    if w == 0 {
        Some(crate::item::BoxShadowClipMode::NoClipping)
    } else if w == 1 {
        Some(crate::item::BoxShadowClipMode::Outset)
    } else if w == 2 {
        Some(crate::item::BoxShadowClipMode::Inset)
    } else {
        None
    }
}

pub open spec fn word_of_imagerendering(v: crate::item::ImageRendering) -> u64 {
    match v {
        crate::item::ImageRendering::Auto => 0,
        crate::item::ImageRendering::CrispEdges => 1,
        crate::item::ImageRendering::Pixelated => 2,
    }
}

pub open spec fn imagerendering_of_word(w: u64) -> Option<crate::item::ImageRendering> {
    if w == 0 {
        Some(crate::item::ImageRendering::Auto)
    } else if w == 1 {
        Some(crate::item::ImageRendering::CrispEdges)
    } else if w == 2 {
        Some(crate::item::ImageRendering::Pixelated)
    } else {
        None
    }
}

fn enc_imagerendering(v: crate::item::ImageRendering) -> (w: u64)
    ensures
        w == word_of_imagerendering(v),
{
    match v {
        crate::item::ImageRendering::Auto => 0,
        crate::item::ImageRendering::CrispEdges => 1,
        crate::item::ImageRendering::Pixelated => 2,
    }
}

fn dec_imagerendering(w: u64) -> (r: Option<crate::item::ImageRendering>)
    ensures
        r == imagerendering_of_word(w),
        r is Some ==> word_of_imagerendering(r->0) == w,
{
    if w == 0 {
        Some(crate::item::ImageRendering::Auto)
    } else if w == 1 {
        Some(crate::item::ImageRendering::CrispEdges)
    } else if w == 2 {
        Some(crate::item::ImageRendering::Pixelated)
    } else {
        None
    }
}

pub open spec fn word_of_stackingcontexttype(v: crate::stacking::StackingContextType) -> u64 {
    match v {
        crate::stacking::StackingContextType::Real => 0,
        crate::stacking::StackingContextType::PseudoPositioned => 1,
        crate::stacking::StackingContextType::PseudoFloat => 2,
    }
}

pub open spec fn stackingcontexttype_of_word(w: u64) -> Option<crate::stacking::StackingContextType> {
    if w == 0 {
        Some(crate::stacking::StackingContextType::Real)
    } else if w == 1 {
        Some(crate::stacking::StackingContextType::PseudoPositioned)
    } else if w == 2 {
        Some(crate::stacking::StackingContextType::PseudoFloat)
    } else {
        None
    }
}

fn enc_stackingcontexttype(v: crate::stacking::StackingContextType) -> (w: u64)
    ensures
        w == word_of_stackingcontexttype(v),
{
    match v {
        crate::stacking::StackingContextType::Real => 0,
        crate::stacking::StackingContextType::PseudoPositioned => 1,
        crate::stacking::StackingContextType::PseudoFloat => 2,
    }
}

fn dec_stackingcontexttype(w: u64) -> (r: Option<crate::stacking::StackingContextType>)
    ensures
        r == stackingcontexttype_of_word(w),
        r is Some ==> word_of_stackingcontexttype(r->0) == w,
{
    if w == 0 {
        Some(crate::stacking::StackingContextType::Real)
    } else if w == 1 {
        Some(crate::stacking::StackingContextType::PseudoPositioned)
    } else if w == 2 {
        Some(crate::stacking::StackingContextType::PseudoFloat)
    } else {
        None
    }
}

pub open spec fn word_of_scrollpolicy(v: crate::ids::ScrollPolicy) -> u64 {
    match v {
        crate::ids::ScrollPolicy::Scrollable => 0,
        crate::ids::ScrollPolicy::FixedPosition => 1,
    }
}

pub open spec fn scrollpolicy_of_word(w: u64) -> Option<crate::ids::ScrollPolicy> {
    if w == 0 {
        Some(crate::ids::ScrollPolicy::Scrollable)
    } else if w == 1 {
        Some(crate::ids::ScrollPolicy::FixedPosition)
    } else {
        None
    }
}

fn enc_scrollpolicy(v: crate::ids::ScrollPolicy) -> (w: u64)
    ensures
        w == word_of_scrollpolicy(v),
{
    match v {
        crate::ids::ScrollPolicy::Scrollable => 0,
        crate::ids::ScrollPolicy::FixedPosition => 1,
    }
}

fn dec_scrollpolicy(w: u64) -> (r: Option<crate::ids::ScrollPolicy>)
    ensures
        r == scrollpolicy_of_word(w),
        r is Some ==> word_of_scrollpolicy(r->0) == w,
{
    if w == 0 {
        Some(crate::ids::ScrollPolicy::Scrollable)
    } else if w == 1 {
        Some(crate::ids::ScrollPolicy::FixedPosition)
    } else {
        None
    }
}

pub open spec fn word_of_displaylistsection(v: crate::item::DisplayListSection) -> u64 {
    match v {
        crate::item::DisplayListSection::BackgroundAndBorders => 0,
        crate::item::DisplayListSection::BlockBackgroundsAndBorders => 1,
        crate::item::DisplayListSection::Content => 2,
        crate::item::DisplayListSection::Outlines => 3,
    }
}

pub open spec fn displaylistsection_of_word(w: u64) -> Option<crate::item::DisplayListSection> {
    if w == 0 {
        Some(crate::item::DisplayListSection::BackgroundAndBorders)
    } else if w == 1 {
        Some(crate::item::DisplayListSection::BlockBackgroundsAndBorders)
    } else if w == 2 {
        Some(crate::item::DisplayListSection::Content)
    } else if w == 3 {
        Some(crate::item::DisplayListSection::Outlines)
    } else {
        None
    }
}

fn enc_displaylistsection(v: crate::item::DisplayListSection) -> (w: u64)
    ensures
        w == word_of_displaylistsection(v),
{
    match v {
        crate::item::DisplayListSection::BackgroundAndBorders => 0,
        crate::item::DisplayListSection::BlockBackgroundsAndBorders => 1,
        crate::item::DisplayListSection::Content => 2,
        crate::item::DisplayListSection::Outlines => 3,
    }
}

fn dec_displaylistsection(w: u64) -> (r: Option<crate::item::DisplayListSection>)
    ensures
        r == displaylistsection_of_word(w),
        r is Some ==> word_of_displaylistsection(r->0) == w,
{
    if w == 0 {
        Some(crate::item::DisplayListSection::BackgroundAndBorders)
    } else if w == 1 {
        Some(crate::item::DisplayListSection::BlockBackgroundsAndBorders)
    } else if w == 2 {
        Some(crate::item::DisplayListSection::Content)
    } else if w == 3 {
        Some(crate::item::DisplayListSection::Outlines)
    } else {
        None
    }
}

/// The flat byte stream of a word sequence.
pub open spec fn bytes_of_words(ws: Seq<u64>) -> Seq<u8>
    decreases ws.len(),
{
    if ws.len() == 0 {
        Seq::empty()
    } else {
        le_bytes(ws[0], 8) + bytes_of_words(ws.drop_first())
    }
}

proof fn lemma_bytes_of_words_len(ws: Seq<u64>)
    ensures
        bytes_of_words(ws).len() == 8 * ws.len(),
    decreases ws.len(),
{
    if ws.len() > 0 {
        lemma_le_bytes_len(ws[0], 8);
        lemma_bytes_of_words_len(ws.drop_first());
    }
}

proof fn lemma_bytes_of_words_concat(a: Seq<u64>, b: Seq<u64>)
    ensures
        bytes_of_words(a + b) == bytes_of_words(a) + bytes_of_words(b),
    decreases a.len(),
{
    if a.len() == 0 {
        assert(a + b =~= b);
        assert(bytes_of_words(a) + bytes_of_words(b) =~= bytes_of_words(b));
    } else {
        assert((a + b).drop_first() =~= a.drop_first() + b);
        assert((a + b)[0] == a[0]);
        lemma_bytes_of_words_concat(a.drop_first(), b);
        assert(le_bytes(a[0], 8) + (bytes_of_words(a.drop_first()) + bytes_of_words(b))
            =~= (le_bytes(a[0], 8) + bytes_of_words(a.drop_first())) + bytes_of_words(b));
    }
}

/// A word stream is recovered from its bytes block by block.
proof fn lemma_words_bytes_inverse(s: Seq<u8>, i: int, w: u64)
    requires
        0 <= i,
        i + 8 <= s.len(),
        w == word_at(s, i, 8),
    ensures
        le_bytes(w, 8) == s.subrange(i, i + 8),
{
    lemma_le_bytes_of_word_at(s, i, 8);
    assert(le_bytes(word_at(s, i, 8), 8) =~= s.subrange(i, i + 8));
}

proof fn lemma_word_at_bound(s: Seq<u8>, i: int, n: nat)
    ensures
        word_at(s, i, n) < pow256(n),
    decreases n,
{
    lemma_pow256_pos(n);
    if !(n == 0 || i < 0 || i >= s.len()) {
        lemma_word_at_bound(s, i + 1, (n - 1) as nat);
        assert(pow256(n) == 256 * pow256((n - 1) as nat));
    }
}

proof fn lemma_le_bytes_of_word_at(s: Seq<u8>, i: int, n: nat)
    requires
        0 <= i,
        i + n <= s.len(),
        n <= 8,
    ensures
        le_bytes(word_at(s, i, n), n) =~= s.subrange(i, i + n),
    decreases n,
{
    let w = word_at(s, i, n);
    if n == 0 {
        assert(le_bytes(w, 0) =~= s.subrange(i, i));
    } else {
        let rest = word_at(s, i + 1, (n - 1) as nat);
        lemma_word_at_bound(s, i + 1, (n - 1) as nat);
        lemma_pow256_le((n - 1) as nat, 7);
        lemma_pow256_8();
        assert(w == (s[i] + 256 * rest) as u64);
        assert(s[i] + 256 * rest < 0x1_0000_0000_0000_0000);
        assert(w == s[i] + 256 * rest);
        assert(w % 256 == s[i] && w / 256 == rest) by {
            lemma_fundamental_div_mod_converse(w as int, 256, rest as int, s[i] as int);
        }
        lemma_le_bytes_of_word_at(s, i + 1, (n - 1) as nat);
        assert(le_bytes(w, n) =~= seq![s[i]] + le_bytes(rest, (n - 1) as nat));
        assert(seq![s[i]] + s.subrange(i + 1, i + n) =~= s.subrange(i, i + n));
    }
}

/// One append of a word at the exec level.
fn push_words(out: &mut Vec<u64>, w: u64)
    ensures
        final(out)@ == old(out)@ + seq![w],
{
    out.push(w);
    proof {
        assert(out@ =~= old(out)@ + seq![w]);
    }
}


pub open spec fn words_rect(r: crate::geometry::Rect) -> Seq<u64> {
    seq![
        word_of_i32(r.origin.x),
        word_of_i32(r.origin.y),
        word_of_i32(r.size.width),
        word_of_i32(r.size.height),
    ]
}

pub open spec fn words_point(p: crate::geometry::Point2D) -> Seq<u64> {
    seq![word_of_i32(p.x), word_of_i32(p.y)]
}

pub open spec fn words_size(p: crate::geometry::Size2D) -> Seq<u64> {
    seq![word_of_i32(p.width), word_of_i32(p.height)]
}

pub open spec fn words_sides(p: crate::geometry::SideOffsets2D) -> Seq<u64> {
    seq![
        word_of_i32(p.top),
        word_of_i32(p.right),
        word_of_i32(p.bottom),
        word_of_i32(p.left),
    ]
}

pub open spec fn words_color(c: crate::style::Color) -> Seq<u64> {
    seq![c.r as u64, c.g as u64, c.b as u64, c.a as u64]
}

pub open spec fn words_radii(r: crate::clip::BorderRadii) -> Seq<u64> {
    words_size(r.top_left) + words_size(r.top_right) + words_size(r.bottom_right) + words_size(
        r.bottom_left,
    )
}

pub open spec fn words_complex_entry(e: crate::clip::ComplexClippingRegion) -> Seq<u64> {
    words_rect(e.rect) + words_radii(e.radii)
}

pub open spec fn words_complex_list(s: Seq<crate::clip::ComplexClippingRegion>) -> Seq<u64>
    decreases s.len(),
{
    if s.len() == 0 {
        Seq::empty()
    } else {
        words_complex_entry(s[0]) + words_complex_list(s.drop_first())
    }
}

pub open spec fn words_clip(c: crate::clip::ClippingRegion) -> Seq<u64> {
    words_rect(c.main) + seq![c.complex@.len() as u64] + words_complex_list(c.complex@)
}

pub open spec fn words_meta(m: crate::item::DisplayItemMetadata) -> Seq<u64> {
    seq![m.node.0] + (match m.pointing {
        Some(c) => seq![1u64, word_of_cursor(c)],
        None => seq![0u64, 0u64],
    })
}

pub open spec fn words_base(b: crate::item::BaseDisplayItem) -> Seq<u64> {
    words_rect(b.bounds) + words_meta(b.metadata) + words_clip(b.clip) + seq![
        word_of_displaylistsection(b.section),
        b.stacking_context_id.0,
    ]
}

pub open spec fn words_filter(f: crate::style::Filter) -> Seq<u64> {
    match f {
        crate::style::Filter::Blur(a) => seq![0u64, word_of_i32(a)],
        crate::style::Filter::Brightness(v) => seq![1u64, v as u64],
        crate::style::Filter::Contrast(v) => seq![2u64, v as u64],
        crate::style::Filter::Grayscale(v) => seq![3u64, v as u64],
        crate::style::Filter::HueRotate(v) => seq![4u64, word_of_i32(v)],
        crate::style::Filter::Invert(v) => seq![5u64, v as u64],
        crate::style::Filter::Opacity(v) => seq![6u64, v as u64],
        crate::style::Filter::Saturate(v) => seq![7u64, v as u64],
        crate::style::Filter::Sepia(v) => seq![8u64, v as u64],
    }
}

pub open spec fn words_filter_list(s: Seq<crate::style::Filter>) -> Seq<u64>
    decreases s.len(),
{
    if s.len() == 0 {
        Seq::empty()
    } else {
        words_filter(s[0]) + words_filter_list(s.drop_first())
    }
}

pub open spec fn words_matrix(m: crate::transform::Matrix4D) -> Seq<u64> {
    seq![
        word_of_i64(m.m11),
        word_of_i64(m.m12),
        word_of_i64(m.m13),
        word_of_i64(m.m14),
        word_of_i64(m.m21),
        word_of_i64(m.m22),
        word_of_i64(m.m23),
        word_of_i64(m.m24),
        word_of_i64(m.m31),
        word_of_i64(m.m32),
        word_of_i64(m.m33),
        word_of_i64(m.m34),
        word_of_i64(m.m41),
        word_of_i64(m.m42),
        word_of_i64(m.m43),
        word_of_i64(m.m44),
    ]
}

pub open spec fn words_layer_info(li: Option<crate::stacking::LayerInfo>) -> Seq<u64> {
    match li {
        None => seq![0u64],
        Some(info) => seq![1u64, info.layer_id.0, info.layer_id.1 as u64, word_of_scrollpolicy(
            info.scroll_policy,
        )] + (match info.subpage_pipeline_id {
            None => seq![0u64, 0u64, 0u64],
            Some(p) => seq![1u64, p.0 as u64, p.1 as u64],
        }) + seq![info.next_layer_id.0, info.next_layer_id.1 as u64] + words_color(
            info.background_color,
        ),
    }
}

pub open spec fn words_scroll_id(s: Option<crate::ids::StackingContextId>) -> Seq<u64> {
    match s {
        None => seq![0u64, 0u64],
        Some(id) => seq![1u64, id.0],
    }
}

/// The words of a stacking context as it stands in an assembled list,
/// where its children have been moved out into the flat structure.
pub open spec fn words_sc(sc: crate::stacking::StackingContext) -> Seq<u64> {
    seq![sc.id.0, word_of_stackingcontexttype(sc.context_type)] + words_rect(sc.bounds)
        + words_rect(sc.overflow) + seq![word_of_i32(sc.z_index), sc.filters@.len() as u64]
        + words_filter_list(sc.filters@) + seq![word_of_mixblendmode(sc.blend_mode)]
        + words_matrix(sc.transform) + words_matrix(sc.perspective) + seq![
        if sc.establishes_3d_context {
            1u64
        } else {
            0u64
        },
    ] + words_layer_info(sc.layer_info) + words_scroll_id(sc.overflow_scroll_id)
}

pub open spec fn words_stop(st: crate::style::GradientStop) -> Seq<u64> {
    seq![st.offset as u64] + words_color(st.color)
}

pub open spec fn words_stop_list(s: Seq<crate::style::GradientStop>) -> Seq<u64>
    decreases s.len(),
{
    if s.len() == 0 {
        Seq::empty()
    } else {
        words_stop(s[0]) + words_stop_list(s.drop_first())
    }
}

pub open spec fn words_image_key(k: Option<crate::ids::ImageKey>) -> Seq<u64> {
    match k {
        None => seq![0u64, 0u64, 0u64],
        Some(k) => seq![1u64, k.0 as u64, k.1 as u64],
    }
}

pub open spec fn words_image_data(d: Option<crate::ids::ImageDataHandle>) -> Seq<u64> {
    match d {
        None => seq![0u64, 0u64],
        Some(h) => seq![1u64, h.0],
    }
}

pub open spec fn words_item(it: crate::item::DisplayItem) -> Seq<u64> {
    match it {
        crate::item::DisplayItem::SolidColor(b) => seq![0u64] + words_base(b.base) + words_color(
            b.color,
        ),
        crate::item::DisplayItem::Text(b) => seq![1u64] + words_base(b.base) + seq![
            b.text_run.0,
            b.range_begin as u64,
            b.range_length as u64,
        ] + words_color(b.text_color) + words_point(b.baseline_origin) + seq![
            word_of_textorientation(b.orientation),
            word_of_i32(b.blur_radius),
        ],
        crate::item::DisplayItem::Image(b) => seq![2u64] + words_base(b.base) + seq![
            b.webrender_image.width as u64,
            b.webrender_image.height as u64,
            word_of_pixelformat(b.webrender_image.format),
        ] + words_image_key(b.webrender_image.key) + words_image_data(b.image_data)
            + words_size(b.stretch_size) + words_size(b.tile_spacing) + seq![
            word_of_imagerendering(b.image_rendering),
        ],
        crate::item::DisplayItem::WebGL(b) => seq![3u64] + words_base(b.base) + seq![
            b.context_id.0,
        ],
        crate::item::DisplayItem::Border(b) => seq![4u64] + words_base(b.base) + words_sides(
            b.border_widths,
        ) + words_radii(b.radius) + words_color(b.color_top) + words_color(b.color_right)
            + words_color(b.color_bottom) + words_color(b.color_left) + seq![
            word_of_borderstyle(b.style_top),
            word_of_borderstyle(b.style_right),
            word_of_borderstyle(b.style_bottom),
            word_of_borderstyle(b.style_left),
        ],
        crate::item::DisplayItem::Gradient(b) => seq![5u64] + words_base(b.base) + words_point(
            b.start_point,
        ) + words_point(b.end_point) + seq![b.stops@.len() as u64] + words_stop_list(b.stops@),
        crate::item::DisplayItem::Line(b) => seq![6u64] + words_base(b.base) + words_color(
            b.color,
        ) + seq![word_of_borderstyle(b.style)],
        crate::item::DisplayItem::BoxShadow(b) => seq![7u64] + words_base(b.base) + words_rect(
            b.box_bounds,
        ) + words_point(b.offset) + words_color(b.color) + seq![
            word_of_i32(b.blur_radius),
            word_of_i32(b.spread_radius),
            word_of_i32(b.border_radius),
            word_of_boxshadowclipmode(b.clip_mode),
        ],
        crate::item::DisplayItem::Iframe(b) => seq![8u64] + words_base(b.base) + seq![
            b.iframe.0 as u64,
            b.iframe.1 as u64,
        ],
        crate::item::DisplayItem::PushStackingContext(b) => seq![9u64] + words_base(b.base)
            + words_sc(b.stacking_context),
        crate::item::DisplayItem::PopStackingContext(b) => seq![10u64] + words_base(b.base)
            + seq![b.stacking_context_id.0],
    }
}

pub open spec fn words_item_list(s: Seq<crate::item::DisplayItem>) -> Seq<u64>
    decreases s.len(),
{
    if s.len() == 0 {
        Seq::empty()
    } else {
        words_item(s[0]) + words_item_list(s.drop_first())
    }
}

/// The words of a whole display list: an item count, then each item.
pub open spec fn words_list(l: crate::list::DisplayList) -> Seq<u64> {
    seq![l.list@.len() as u64] + words_item_list(l.list@)
}

proof fn lemma_complex_snoc(s: Seq<crate::clip::ComplexClippingRegion>, e: crate::clip::ComplexClippingRegion)
    ensures
        words_complex_list(s.push(e)) == words_complex_list(s) + words_complex_entry(e),
    decreases s.len(),
{
    if s.len() == 0 {
        assert(s.push(e).drop_first() =~= Seq::<crate::clip::ComplexClippingRegion>::empty());
        assert(s.push(e)[0] == e);
        assert(words_complex_list(Seq::<crate::clip::ComplexClippingRegion>::empty()) == Seq::<u64>::empty());
        assert(words_complex_list(s) + words_complex_entry(e) =~= words_complex_entry(e));
        assert(words_complex_list(s.push(e)) =~= words_complex_entry(e));
    } else {
        assert(s.push(e).drop_first() =~= s.drop_first().push(e));
        assert(s.push(e)[0] == s[0]);
        lemma_complex_snoc(s.drop_first(), e);
        assert(words_complex_entry(s[0]) + (words_complex_list(s.drop_first())
            + words_complex_entry(e)) =~= (words_complex_entry(s[0]) + words_complex_list(
            s.drop_first(),
        )) + words_complex_entry(e));
    }
}

proof fn lemma_filter_snoc(s: Seq<crate::style::Filter>, e: crate::style::Filter)
    ensures
        words_filter_list(s.push(e)) == words_filter_list(s) + words_filter(e),
    decreases s.len(),
{
    if s.len() == 0 {
        assert(s.push(e).drop_first() =~= Seq::<crate::style::Filter>::empty());
        assert(s.push(e)[0] == e);
        assert(words_filter_list(Seq::<crate::style::Filter>::empty()) == Seq::<u64>::empty());
        assert(words_filter_list(s) + words_filter(e) =~= words_filter(e));
        assert(words_filter_list(s.push(e)) =~= words_filter(e));
    } else {
        assert(s.push(e).drop_first() =~= s.drop_first().push(e));
        assert(s.push(e)[0] == s[0]);
        lemma_filter_snoc(s.drop_first(), e);
        assert(words_filter(s[0]) + (words_filter_list(s.drop_first()) + words_filter(e))
            =~= (words_filter(s[0]) + words_filter_list(s.drop_first())) + words_filter(e));
    }
}

proof fn lemma_stop_snoc(s: Seq<crate::style::GradientStop>, e: crate::style::GradientStop)
    ensures
        words_stop_list(s.push(e)) == words_stop_list(s) + words_stop(e),
    decreases s.len(),
{
    if s.len() == 0 {
        assert(s.push(e).drop_first() =~= Seq::<crate::style::GradientStop>::empty());
        assert(s.push(e)[0] == e);
        assert(words_stop_list(Seq::<crate::style::GradientStop>::empty()) == Seq::<u64>::empty());
        assert(words_stop_list(s) + words_stop(e) =~= words_stop(e));
        assert(words_stop_list(s.push(e)) =~= words_stop(e));
    } else {
        assert(s.push(e).drop_first() =~= s.drop_first().push(e));
        assert(s.push(e)[0] == s[0]);
        lemma_stop_snoc(s.drop_first(), e);
        assert(words_stop(s[0]) + (words_stop_list(s.drop_first()) + words_stop(e))
            =~= (words_stop(s[0]) + words_stop_list(s.drop_first())) + words_stop(e));
    }
}

proof fn lemma_item_snoc(s: Seq<crate::item::DisplayItem>, e: crate::item::DisplayItem)
    ensures
        words_item_list(s.push(e)) == words_item_list(s) + words_item(e),
    decreases s.len(),
{
    if s.len() == 0 {
        assert(s.push(e).drop_first() =~= Seq::<crate::item::DisplayItem>::empty());
        assert(s.push(e)[0] == e);
        assert(words_item_list(Seq::<crate::item::DisplayItem>::empty()) == Seq::<u64>::empty());
        assert(words_item_list(s) + words_item(e) =~= words_item(e));
        assert(words_item_list(s.push(e)) =~= words_item(e));
    } else {
        assert(s.push(e).drop_first() =~= s.drop_first().push(e));
        assert(s.push(e)[0] == s[0]);
        lemma_item_snoc(s.drop_first(), e);
        assert(words_item(s[0]) + (words_item_list(s.drop_first()) + words_item(e))
            =~= (words_item(s[0]) + words_item_list(s.drop_first())) + words_item(e));
    }
}

fn enc_rect(out: &mut Vec<u64>, r: &crate::geometry::Rect)
    ensures
        final(out)@ == old(out)@ + words_rect(*r),
{
    out.push(enc_i32(r.origin.x));
    out.push(enc_i32(r.origin.y));
    out.push(enc_i32(r.size.width));
    out.push(enc_i32(r.size.height));
    proof {
        assert(out@ =~= old(out)@ + words_rect(*r));
    }
}

fn enc_point(out: &mut Vec<u64>, p: &crate::geometry::Point2D)
    ensures
        final(out)@ == old(out)@ + words_point(*p),
{
    out.push(enc_i32(p.x));
    out.push(enc_i32(p.y));
    proof {
        assert(out@ =~= old(out)@ + words_point(*p));
    }
}

fn enc_size(out: &mut Vec<u64>, p: &crate::geometry::Size2D)
    ensures
        final(out)@ == old(out)@ + words_size(*p),
{
    out.push(enc_i32(p.width));
    out.push(enc_i32(p.height));
    proof {
        assert(out@ =~= old(out)@ + words_size(*p));
    }
}

fn enc_sides(out: &mut Vec<u64>, p: &crate::geometry::SideOffsets2D)
    ensures
        final(out)@ == old(out)@ + words_sides(*p),
{
    out.push(enc_i32(p.top));
    out.push(enc_i32(p.right));
    out.push(enc_i32(p.bottom));
    out.push(enc_i32(p.left));
    proof {
        assert(out@ =~= old(out)@ + words_sides(*p));
    }
}

fn enc_color(out: &mut Vec<u64>, c: &crate::style::Color)
    ensures
        final(out)@ == old(out)@ + words_color(*c),
{
    out.push(c.r as u64);
    out.push(c.g as u64);
    out.push(c.b as u64);
    out.push(c.a as u64);
    proof {
        assert(out@ =~= old(out)@ + words_color(*c));
    }
}

fn enc_radii(out: &mut Vec<u64>, r: &crate::clip::BorderRadii)
    ensures
        final(out)@ == old(out)@ + words_radii(*r),
{
    enc_size(out, &r.top_left);
    enc_size(out, &r.top_right);
    enc_size(out, &r.bottom_right);
    enc_size(out, &r.bottom_left);
    proof {
        assert(out@ =~= old(out)@ + words_radii(*r));
    }
}

fn enc_clip(out: &mut Vec<u64>, c: &crate::clip::ClippingRegion)
    ensures
        final(out)@ == old(out)@ + words_clip(*c),
{
    enc_rect(out, &c.main);
    out.push(c.complex.len() as u64);
    let ghost mid = out@;
    let n = c.complex.len();
    let mut i: usize = 0;
    while i < n
        invariant
            0 <= i <= n,
            n == c.complex@.len(),
            out@ == mid + words_complex_list(c.complex@.subrange(0, i as int)),
        decreases n - i,
    {
        let ghost pre = c.complex@.subrange(0, i as int);
        enc_rect(out, &c.complex[i].rect);
        enc_radii(out, &c.complex[i].radii);
        proof {
            lemma_complex_snoc(pre, c.complex@[i as int]);
            assert(c.complex@.subrange(0, i as int + 1) =~= pre.push(c.complex@[i as int]));
            assert(out@ =~= mid + (words_complex_list(pre) + words_complex_entry(
                c.complex@[i as int],
            )));
        }
        i += 1;
    }
    proof {
        assert(c.complex@.subrange(0, n as int) =~= c.complex@);
        assert(out@ =~= old(out)@ + words_clip(*c));
    }
}

fn enc_meta(out: &mut Vec<u64>, m: &crate::item::DisplayItemMetadata)
    ensures
        final(out)@ == old(out)@ + words_meta(*m),
{
    out.push(m.node.0);
    match m.pointing {
        Some(c) => {
            out.push(1u64);
            out.push(enc_cursor(c));
        },
        None => {
            out.push(0u64);
            out.push(0u64);
        },
    }
    proof {
        assert(out@ =~= old(out)@ + words_meta(*m));
    }
}

fn enc_base(out: &mut Vec<u64>, b: &crate::item::BaseDisplayItem)
    ensures
        final(out)@ == old(out)@ + words_base(*b),
{
    enc_rect(out, &b.bounds);
    enc_meta(out, &b.metadata);
    enc_clip(out, &b.clip);
    out.push(enc_displaylistsection(b.section));
    out.push(b.stacking_context_id.0);
    proof {
        assert(out@ =~= old(out)@ + words_base(*b));
    }
}

fn enc_filter(out: &mut Vec<u64>, f: &crate::style::Filter)
    ensures
        final(out)@ == old(out)@ + words_filter(*f),
{
    match f {
        crate::style::Filter::Blur(a) => {
            out.push(0u64);
            out.push(enc_i32(*a));
        },
        crate::style::Filter::Brightness(v) => {
            out.push(1u64);
            out.push(*v as u64);
        },
        crate::style::Filter::Contrast(v) => {
            out.push(2u64);
            out.push(*v as u64);
        },
        crate::style::Filter::Grayscale(v) => {
            out.push(3u64);
            out.push(*v as u64);
        },
        crate::style::Filter::HueRotate(v) => {
            out.push(4u64);
            out.push(enc_i32(*v));
        },
        crate::style::Filter::Invert(v) => {
            out.push(5u64);
            out.push(*v as u64);
        },
        crate::style::Filter::Opacity(v) => {
            out.push(6u64);
            out.push(*v as u64);
        },
        crate::style::Filter::Saturate(v) => {
            out.push(7u64);
            out.push(*v as u64);
        },
        crate::style::Filter::Sepia(v) => {
            out.push(8u64);
            out.push(*v as u64);
        },
    }
    proof {
        assert(out@ =~= old(out)@ + words_filter(*f));
    }
}

fn enc_matrix(out: &mut Vec<u64>, m: &crate::transform::Matrix4D)
    requires
        m.wf(),
    ensures
        final(out)@ == old(out)@ + words_matrix(*m),
{
    out.push(enc_i64(m.m11));
    out.push(enc_i64(m.m12));
    out.push(enc_i64(m.m13));
    out.push(enc_i64(m.m14));
    out.push(enc_i64(m.m21));
    out.push(enc_i64(m.m22));
    out.push(enc_i64(m.m23));
    out.push(enc_i64(m.m24));
    out.push(enc_i64(m.m31));
    out.push(enc_i64(m.m32));
    out.push(enc_i64(m.m33));
    out.push(enc_i64(m.m34));
    out.push(enc_i64(m.m41));
    out.push(enc_i64(m.m42));
    out.push(enc_i64(m.m43));
    out.push(enc_i64(m.m44));
    proof {
        assert(out@ =~= old(out)@ + words_matrix(*m));
    }
}

fn enc_layer_info(out: &mut Vec<u64>, li: &Option<crate::stacking::LayerInfo>)
    ensures
        final(out)@ == old(out)@ + words_layer_info(*li),
{
    match li {
        None => {
            out.push(0u64);
        },
        Some(info) => {
            out.push(1u64);
            out.push(info.layer_id.0);
            out.push(info.layer_id.1 as u64);
            out.push(enc_scrollpolicy(info.scroll_policy));
            match info.subpage_pipeline_id {
                None => {
                    out.push(0u64);
                    out.push(0u64);
                    out.push(0u64);
                },
                Some(p) => {
                    out.push(1u64);
                    out.push(p.0 as u64);
                    out.push(p.1 as u64);
                },
            }
            out.push(info.next_layer_id.0);
            out.push(info.next_layer_id.1 as u64);
            enc_color(out, &info.background_color);
        },
    }
    proof {
        assert(out@ =~= old(out)@ + words_layer_info(*li));
    }
}

#[verifier::rlimit(100)]
fn enc_sc(out: &mut Vec<u64>, sc: &crate::stacking::StackingContext)
    requires
        sc.transform.wf(),
        sc.perspective.wf(),
    ensures
        final(out)@ == old(out)@ + words_sc(*sc),
{
    out.push(sc.id.0);
    out.push(enc_stackingcontexttype(sc.context_type));
    enc_rect(out, &sc.bounds);
    enc_rect(out, &sc.overflow);
    out.push(enc_i32(sc.z_index));
    out.push(sc.filters.len() as u64);
    let ghost mid = out@;
    let n = sc.filters.len();
    let mut i: usize = 0;
    while i < n
        invariant
            0 <= i <= n,
            n == sc.filters@.len(),
            out@ == mid + words_filter_list(sc.filters@.subrange(0, i as int)),
        decreases n - i,
    {
        let ghost pre = sc.filters@.subrange(0, i as int);
        enc_filter(out, &sc.filters[i]);
        proof {
            lemma_filter_snoc(pre, sc.filters@[i as int]);
            assert(sc.filters@.subrange(0, i as int + 1) =~= pre.push(sc.filters@[i as int]));
            assert(out@ =~= mid + (words_filter_list(pre) + words_filter(
                sc.filters@[i as int],
            )));
        }
        i += 1;
    }
    proof {
        assert(sc.filters@.subrange(0, n as int) =~= sc.filters@);
    }
    out.push(enc_mixblendmode(sc.blend_mode));
    enc_matrix(out, &sc.transform);
    enc_matrix(out, &sc.perspective);
    out.push(if sc.establishes_3d_context {
        1u64
    } else {
        0u64
    });
    enc_layer_info(out, &sc.layer_info);
    match sc.overflow_scroll_id {
        None => {
            out.push(0u64);
            out.push(0u64);
        },
        Some(id) => {
            out.push(1u64);
            out.push(id.0);
        },
    }
    proof {
        assert(out@ =~= old(out)@ + words_sc(*sc));
    }
}


fn enc_text_payload(out: &mut Vec<u64>, b: &crate::item::TextDisplayItem)
    ensures
        final(out)@ == old(out)@ + (seq![1u64] + words_base(b.base) + seq![
            b.text_run.0,
            b.range_begin as u64,
            b.range_length as u64,
        ] + words_color(b.text_color) + words_point(b.baseline_origin) + seq![
            word_of_textorientation(b.orientation),
            word_of_i32(b.blur_radius),
        ]),
{
    out.push(1u64);
    enc_base(out, &b.base);
    out.push(b.text_run.0);
    out.push(b.range_begin as u64);
    out.push(b.range_length as u64);
    enc_color(out, &b.text_color);
    enc_point(out, &b.baseline_origin);
    out.push(enc_textorientation(b.orientation));
    out.push(enc_i32(b.blur_radius));
    proof {
        assert(out@ =~= old(out)@ + (seq![1u64] + words_base(b.base) + seq![
            b.text_run.0,
            b.range_begin as u64,
            b.range_length as u64,
        ] + words_color(b.text_color) + words_point(b.baseline_origin) + seq![
            word_of_textorientation(b.orientation),
            word_of_i32(b.blur_radius),
        ]));
    }
}

fn enc_image_key(out: &mut Vec<u64>, k: &Option<crate::ids::ImageKey>)
    ensures
        final(out)@ == old(out)@ + words_image_key(*k),
{
    match k {
        None => {
            out.push(0u64);
            out.push(0u64);
            out.push(0u64);
        },
        Some(k) => {
            out.push(1u64);
            out.push(k.0 as u64);
            out.push(k.1 as u64);
        },
    }
    proof {
        assert(out@ =~= old(out)@ + words_image_key(*k));
    }
}

fn enc_image_data(out: &mut Vec<u64>, d: &Option<crate::ids::ImageDataHandle>)
    ensures
        final(out)@ == old(out)@ + words_image_data(*d),
{
    match d {
        None => {
            out.push(0u64);
            out.push(0u64);
        },
        Some(h) => {
            out.push(1u64);
            out.push(h.0);
        },
    }
    proof {
        assert(out@ =~= old(out)@ + words_image_data(*d));
    }
}

fn enc_image_payload(out: &mut Vec<u64>, b: &crate::item::ImageDisplayItem)
    ensures
        final(out)@ == old(out)@ + (seq![2u64] + words_base(b.base) + seq![
            b.webrender_image.width as u64,
            b.webrender_image.height as u64,
            word_of_pixelformat(b.webrender_image.format),
        ] + words_image_key(b.webrender_image.key) + words_image_data(b.image_data)
            + words_size(b.stretch_size) + words_size(b.tile_spacing) + seq![
            word_of_imagerendering(b.image_rendering),
        ]),
{
    out.push(2u64);
    enc_base(out, &b.base);
    out.push(b.webrender_image.width as u64);
    out.push(b.webrender_image.height as u64);
    out.push(enc_pixelformat(b.webrender_image.format));
    enc_image_key(out, &b.webrender_image.key);
    enc_image_data(out, &b.image_data);
    enc_size(out, &b.stretch_size);
    enc_size(out, &b.tile_spacing);
    out.push(enc_imagerendering(b.image_rendering));
    proof {
        assert(out@ =~= old(out)@ + (seq![2u64] + words_base(b.base) + seq![
            b.webrender_image.width as u64,
            b.webrender_image.height as u64,
            word_of_pixelformat(b.webrender_image.format),
        ] + words_image_key(b.webrender_image.key) + words_image_data(b.image_data)
            + words_size(b.stretch_size) + words_size(b.tile_spacing) + seq![
            word_of_imagerendering(b.image_rendering),
        ]));
    }
}

fn enc_border_payload(out: &mut Vec<u64>, b: &crate::item::BorderDisplayItem)
    ensures
        final(out)@ == old(out)@ + (seq![4u64] + words_base(b.base) + words_sides(
            b.border_widths,
        ) + words_radii(b.radius) + words_color(b.color_top) + words_color(b.color_right)
            + words_color(b.color_bottom) + words_color(b.color_left) + seq![
            word_of_borderstyle(b.style_top),
            word_of_borderstyle(b.style_right),
            word_of_borderstyle(b.style_bottom),
            word_of_borderstyle(b.style_left),
        ]),
{
    out.push(4u64);
    enc_base(out, &b.base);
    enc_sides(out, &b.border_widths);
    enc_radii(out, &b.radius);
    enc_color(out, &b.color_top);
    enc_color(out, &b.color_right);
    enc_color(out, &b.color_bottom);
    enc_color(out, &b.color_left);
    out.push(enc_borderstyle(b.style_top));
    out.push(enc_borderstyle(b.style_right));
    out.push(enc_borderstyle(b.style_bottom));
    out.push(enc_borderstyle(b.style_left));
    proof {
        assert(out@ =~= old(out)@ + (seq![4u64] + words_base(b.base) + words_sides(
            b.border_widths,
        ) + words_radii(b.radius) + words_color(b.color_top) + words_color(b.color_right)
            + words_color(b.color_bottom) + words_color(b.color_left) + seq![
            word_of_borderstyle(b.style_top),
            word_of_borderstyle(b.style_right),
            word_of_borderstyle(b.style_bottom),
            word_of_borderstyle(b.style_left),
        ]));
    }
}

fn enc_gradient_payload(out: &mut Vec<u64>, b: &crate::item::GradientDisplayItem)
    ensures
        final(out)@ == old(out)@ + (seq![5u64] + words_base(b.base) + words_point(
            b.start_point,
        ) + words_point(b.end_point) + seq![b.stops@.len() as u64] + words_stop_list(b.stops@)),
{
    out.push(5u64);
    enc_base(out, &b.base);
    enc_point(out, &b.start_point);
    enc_point(out, &b.end_point);
    out.push(b.stops.len() as u64);
    let ghost mid = out@;
    let n = b.stops.len();
    let mut i: usize = 0;
    while i < n
        invariant
            0 <= i <= n,
            n == b.stops@.len(),
            out@ == mid + words_stop_list(b.stops@.subrange(0, i as int)),
        decreases n - i,
    {
        let ghost pre = b.stops@.subrange(0, i as int);
        out.push(b.stops[i].offset as u64);
        enc_color(out, &b.stops[i].color);
        proof {
            lemma_stop_snoc(pre, b.stops@[i as int]);
            assert(b.stops@.subrange(0, i as int + 1) =~= pre.push(b.stops@[i as int]));
            assert(out@ =~= mid + (words_stop_list(pre) + words_stop(b.stops@[i as int])));
        }
        i += 1;
    }
    proof {
        assert(b.stops@.subrange(0, n as int) =~= b.stops@);
        assert(out@ =~= old(out)@ + (seq![5u64] + words_base(b.base) + words_point(
            b.start_point,
        ) + words_point(b.end_point) + seq![b.stops@.len() as u64] + words_stop_list(
            b.stops@,
        )));
    }
}

fn enc_shadow_payload(out: &mut Vec<u64>, b: &crate::item::BoxShadowDisplayItem)
    ensures
        final(out)@ == old(out)@ + (seq![7u64] + words_base(b.base) + words_rect(b.box_bounds)
            + words_point(b.offset) + words_color(b.color) + seq![
            word_of_i32(b.blur_radius),
            word_of_i32(b.spread_radius),
            word_of_i32(b.border_radius),
            word_of_boxshadowclipmode(b.clip_mode),
        ]),
{
    out.push(7u64);
    enc_base(out, &b.base);
    enc_rect(out, &b.box_bounds);
    enc_point(out, &b.offset);
    enc_color(out, &b.color);
    out.push(enc_i32(b.blur_radius));
    out.push(enc_i32(b.spread_radius));
    out.push(enc_i32(b.border_radius));
    out.push(enc_boxshadowclipmode(b.clip_mode));
    proof {
        assert(out@ =~= old(out)@ + (seq![7u64] + words_base(b.base) + words_rect(b.box_bounds)
            + words_point(b.offset) + words_color(b.color) + seq![
            word_of_i32(b.blur_radius),
            word_of_i32(b.spread_radius),
            word_of_i32(b.border_radius),
            word_of_boxshadowclipmode(b.clip_mode),
        ]));
    }
}

#[verifier::rlimit(100)]
fn enc_item(out: &mut Vec<u64>, it: &crate::item::DisplayItem)
    requires
        it.wf(),
    ensures
        final(out)@ == old(out)@ + words_item(*it),
{
    match it {
        crate::item::DisplayItem::SolidColor(b) => {
            out.push(0u64);
            enc_base(out, &b.base);
            enc_color(out, &b.color);
            proof {
                assert(out@ =~= old(out)@ + words_item(*it));
            }
        },
        crate::item::DisplayItem::Text(b) => {
            enc_text_payload(out, b);
            proof {
                assert(out@ =~= old(out)@ + words_item(*it));
            }
        },
        crate::item::DisplayItem::Image(b) => {
            enc_image_payload(out, b);
            proof {
                assert(out@ =~= old(out)@ + words_item(*it));
            }
        },
        crate::item::DisplayItem::WebGL(b) => {
            out.push(3u64);
            enc_base(out, &b.base);
            out.push(b.context_id.0);
            proof {
                assert(out@ =~= old(out)@ + words_item(*it));
            }
        },
        crate::item::DisplayItem::Border(b) => {
            enc_border_payload(out, b);
            proof {
                assert(out@ =~= old(out)@ + words_item(*it));
            }
        },
        crate::item::DisplayItem::Gradient(b) => {
            enc_gradient_payload(out, b);
            proof {
                assert(out@ =~= old(out)@ + words_item(*it));
            }
        },
        crate::item::DisplayItem::Line(b) => {
            out.push(6u64);
            enc_base(out, &b.base);
            enc_color(out, &b.color);
            out.push(enc_borderstyle(b.style));
            proof {
                assert(out@ =~= old(out)@ + words_item(*it));
            }
        },
        crate::item::DisplayItem::BoxShadow(b) => {
            enc_shadow_payload(out, b);
            proof {
                assert(out@ =~= old(out)@ + words_item(*it));
            }
        },
        crate::item::DisplayItem::Iframe(b) => {
            out.push(8u64);
            enc_base(out, &b.base);
            out.push(b.iframe.0 as u64);
            out.push(b.iframe.1 as u64);
            proof {
                assert(out@ =~= old(out)@ + words_item(*it));
            }
        },
        crate::item::DisplayItem::PushStackingContext(b) => {
            out.push(9u64);
            enc_base(out, &b.base);
            enc_sc(out, &b.stacking_context);
            proof {
                assert(out@ =~= old(out)@ + words_item(*it));
            }
        },
        crate::item::DisplayItem::PopStackingContext(b) => {
            out.push(10u64);
            enc_base(out, &b.base);
            out.push(b.stacking_context_id.0);
            proof {
                assert(out@ =~= old(out)@ + words_item(*it));
            }
        },
    }
}

impl crate::list::DisplayList {
    /// Serializes the list to bytes: an item count, then each item, every
    /// scalar as one little-endian 64-bit word.
    pub fn serialize(&self) -> (r: Vec<u8>)
        requires
            self.items_wf(),
        ensures
            r@ == bytes_of_words(words_list(*self)),
    {
        let mut words: Vec<u64> = Vec::new();
        words.push(self.list.len() as u64);
        let ghost mid = words@;
        let n = self.list.len();
        let mut i: usize = 0;
        while i < n
            invariant
                0 <= i <= n,
                n == self.list@.len(),
                self.items_wf(),
                words@ == mid + words_item_list(self.list@.subrange(0, i as int)),
            decreases n - i,
        {
            let ghost pre = self.list@.subrange(0, i as int);
            proof {
                assert(self.list@[i as int].wf());
            }
            enc_item(&mut words, &self.list[i]);
            proof {
                lemma_item_snoc(pre, self.list@[i as int]);
                assert(self.list@.subrange(0, i as int + 1) =~= pre.push(
                    self.list@[i as int],
                ));
                assert(words@ =~= mid + (words_item_list(pre) + words_item(
                    self.list@[i as int],
                )));
            }
            i += 1;
        }
        proof {
            assert(self.list@.subrange(0, n as int) =~= self.list@);
            assert(words@ =~= words_list(*self));
        }
        let mut bytes: Vec<u8> = Vec::new();
        let m = words.len();
        let mut k: usize = 0;
        while k < m
            invariant
                0 <= k <= m,
                m == words@.len(),
                bytes@ == bytes_of_words(words@.subrange(0, k as int)),
            decreases m - k,
        {
            let ghost pre = words@.subrange(0, k as int);
            push_word(&mut bytes, words[k]);
            proof {
                assert(words@.subrange(0, k as int + 1) =~= pre + seq![words@[k as int]]);
                lemma_bytes_of_words_concat(pre, seq![words@[k as int]]);
                assert(bytes_of_words(Seq::<u64>::empty()) == Seq::<u8>::empty());
                assert(seq![words@[k as int]].drop_first() =~= Seq::<u64>::empty());
                assert(bytes_of_words(seq![words@[k as int]]) =~= le_bytes(
                    words@[k as int],
                    8,
                ));
            }
            k += 1;
        }
        proof {
            assert(words@.subrange(0, m as int) =~= words@);
        }
        bytes
    }
}

/// Adjacent subranges concatenate.
proof fn lemma_subrange_split(s: Seq<u64>, a: int, b: int, c: int)
    requires
        0 <= a <= b <= c <= s.len(),
    ensures
        s.subrange(a, c) == s.subrange(a, b) + s.subrange(b, c),
{
    assert(s.subrange(a, c) =~= s.subrange(a, b) + s.subrange(b, c));
}

/// Reads the next word, advancing the cursor.
fn take(ws: &Vec<u64>, pos: &mut usize) -> (r: Option<u64>)
    ensures
        match r {
            Some(w) => *old(pos) < ws@.len() && w == ws@[*old(pos) as int] && *final(pos)
                == *old(pos) + 1,
            None => *final(pos) == *old(pos),
        },
{
    if *pos < ws.len() {
        let w = ws[*pos];
        *pos = *pos + 1;
        Some(w)
    } else {
        None
    }
}

fn take_i32(ws: &Vec<u64>, pos: &mut usize) -> (r: Option<i32>)
    ensures
        match r {
            Some(x) => *old(pos) < ws@.len() && ws@[*old(pos) as int] == word_of_i32(x)
                && *final(pos) == *old(pos) + 1,
            None => *final(pos) == *old(pos),
        },
{
    let w = match take(ws, pos) {
        Some(w) => w,
        None => { return None },
    };
    if w >= 0x1_0000_0000 {
        *pos = *pos - 1;
        return None;
    }
    Some(dec_i32(w))
}

fn take_u8(ws: &Vec<u64>, pos: &mut usize) -> (r: Option<u8>)
    ensures
        match r {
            Some(x) => *old(pos) < ws@.len() && ws@[*old(pos) as int] == x as u64 && *final(pos)
                == *old(pos) + 1,
            None => *final(pos) == *old(pos),
        },
{
    let w = match take(ws, pos) {
        Some(w) => w,
        None => { return None },
    };
    if w >= 256 {
        *pos = *pos - 1;
        return None;
    }
    Some(w as u8)
}

fn take_u32(ws: &Vec<u64>, pos: &mut usize) -> (r: Option<u32>)
    ensures
        match r {
            Some(x) => *old(pos) < ws@.len() && ws@[*old(pos) as int] == x as u64 && *final(pos)
                == *old(pos) + 1,
            None => *final(pos) == *old(pos),
        },
{
    let w = match take(ws, pos) {
        Some(w) => w,
        None => { return None },
    };
    if w >= 0x1_0000_0000 {
        *pos = *pos - 1;
        return None;
    }
    Some(w as u32)
}

fn take_i64(ws: &Vec<u64>, pos: &mut usize) -> (r: Option<i64>)
    ensures
        match r {
            Some(x) => *old(pos) < ws@.len() && ws@[*old(pos) as int] == word_of_i64(x)
                && *final(pos) == *old(pos) + 1,
            None => *final(pos) == *old(pos),
        },
{
    let w = match take(ws, pos) {
        Some(w) => w,
        None => { return None },
    };
    if w >= 0x8000_0000_0000_0000 {
        *pos = *pos - 1;
        return None;
    }
    Some(dec_i64(w))
}

fn dec_rect(ws: &Vec<u64>, pos: &mut usize) -> (r: Option<crate::geometry::Rect>)
    ensures
        r is Some ==> *old(pos) <= *final(pos) <= ws@.len() && ws@.subrange(
            *old(pos) as int,
            *final(pos) as int,
        ) == words_rect(r->0),
{
    let x = match take_i32(ws, pos) {
        Some(v) => v,
        None => { return None },
    };
    let y = match take_i32(ws, pos) {
        Some(v) => v,
        None => { return None },
    };
    let w = match take_i32(ws, pos) {
        Some(v) => v,
        None => { return None },
    };
    let h = match take_i32(ws, pos) {
        Some(v) => v,
        None => { return None },
    };
    let out = crate::geometry::Rect {
        origin: crate::geometry::Point2D { x, y },
        size: crate::geometry::Size2D { width: w, height: h },
    };
    proof {
        assert(ws@.subrange(*old(pos) as int, *pos as int) =~= words_rect(out));
    }
    Some(out)
}

fn dec_point(ws: &Vec<u64>, pos: &mut usize) -> (r: Option<crate::geometry::Point2D>)
    ensures
        r is Some ==> *old(pos) <= *final(pos) <= ws@.len() && ws@.subrange(
            *old(pos) as int,
            *final(pos) as int,
        ) == words_point(r->0),
{
    let x = match take_i32(ws, pos) {
        Some(v) => v,
        None => { return None },
    };
    let y = match take_i32(ws, pos) {
        Some(v) => v,
        None => { return None },
    };
    let out = crate::geometry::Point2D { x, y };
    proof {
        assert(ws@.subrange(*old(pos) as int, *pos as int) =~= words_point(out));
    }
    Some(out)
}

fn dec_size(ws: &Vec<u64>, pos: &mut usize) -> (r: Option<crate::geometry::Size2D>)
    ensures
        r is Some ==> *old(pos) <= *final(pos) <= ws@.len() && ws@.subrange(
            *old(pos) as int,
            *final(pos) as int,
        ) == words_size(r->0),
{
    let width = match take_i32(ws, pos) {
        Some(v) => v,
        None => { return None },
    };
    let height = match take_i32(ws, pos) {
        Some(v) => v,
        None => { return None },
    };
    let out = crate::geometry::Size2D { width, height };
    proof {
        assert(ws@.subrange(*old(pos) as int, *pos as int) =~= words_size(out));
    }
    Some(out)
}

fn dec_sides(ws: &Vec<u64>, pos: &mut usize) -> (r: Option<crate::geometry::SideOffsets2D>)
    ensures
        r is Some ==> *old(pos) <= *final(pos) <= ws@.len() && ws@.subrange(
            *old(pos) as int,
            *final(pos) as int,
        ) == words_sides(r->0),
{
    let top = match take_i32(ws, pos) {
        Some(v) => v,
        None => { return None },
    };
    let right = match take_i32(ws, pos) {
        Some(v) => v,
        None => { return None },
    };
    let bottom = match take_i32(ws, pos) {
        Some(v) => v,
        None => { return None },
    };
    let left = match take_i32(ws, pos) {
        Some(v) => v,
        None => { return None },
    };
    let out = crate::geometry::SideOffsets2D { top, right, bottom, left };
    proof {
        assert(ws@.subrange(*old(pos) as int, *pos as int) =~= words_sides(out));
    }
    Some(out)
}

fn dec_color(ws: &Vec<u64>, pos: &mut usize) -> (r: Option<crate::style::Color>)
    ensures
        r is Some ==> *old(pos) <= *final(pos) <= ws@.len() && ws@.subrange(
            *old(pos) as int,
            *final(pos) as int,
        ) == words_color(r->0),
{
    let cr = match take_u8(ws, pos) {
        Some(v) => v,
        None => { return None },
    };
    let cg = match take_u8(ws, pos) {
        Some(v) => v,
        None => { return None },
    };
    let cb = match take_u8(ws, pos) {
        Some(v) => v,
        None => { return None },
    };
    let ca = match take_u8(ws, pos) {
        Some(v) => v,
        None => { return None },
    };
    let out = crate::style::Color { r: cr, g: cg, b: cb, a: ca };
    proof {
        assert(ws@.subrange(*old(pos) as int, *pos as int) =~= words_color(out));
    }
    Some(out)
}

fn dec_radii(ws: &Vec<u64>, pos: &mut usize) -> (r: Option<crate::clip::BorderRadii>)
    ensures
        r is Some ==> *old(pos) <= *final(pos) <= ws@.len() && ws@.subrange(
            *old(pos) as int,
            *final(pos) as int,
        ) == words_radii(r->0),
{
    let ghost p0 = *pos as int;
    let top_left = match dec_size(ws, pos) {
        Some(v) => v,
        None => { return None },
    };
    let ghost p1 = *pos as int;
    let top_right = match dec_size(ws, pos) {
        Some(v) => v,
        None => { return None },
    };
    let ghost p2 = *pos as int;
    let bottom_right = match dec_size(ws, pos) {
        Some(v) => v,
        None => { return None },
    };
    let ghost p3 = *pos as int;
    let bottom_left = match dec_size(ws, pos) {
        Some(v) => v,
        None => { return None },
    };
    let out = crate::clip::BorderRadii { top_left, top_right, bottom_right, bottom_left };
    proof {
        assert(ws@.subrange(p0, *pos as int) =~= ws@.subrange(p0, p1) + ws@.subrange(p1, p2)
            + ws@.subrange(p2, p3) + ws@.subrange(p3, *pos as int));
    }
    Some(out)
}

fn dec_clip(ws: &Vec<u64>, pos: &mut usize) -> (r: Option<crate::clip::ClippingRegion>)
    ensures
        r is Some ==> *old(pos) <= *final(pos) <= ws@.len() && ws@.subrange(
            *old(pos) as int,
            *final(pos) as int,
        ) == words_clip(r->0),
{
    let ghost p0 = *pos as int;
    let main = match dec_rect(ws, pos) {
        Some(v) => v,
        None => { return None },
    };
    let ghost p1 = *pos as int;
    let count = match take(ws, pos) {
        Some(v) => v,
        None => { return None },
    };
    if count > ws.len() as u64 {
        return None;
    }
    let count = count as usize;
    let ghost p2 = *pos as int;
    let mut complex: Vec<crate::clip::ComplexClippingRegion> = Vec::new();
    proof {
        assert(ws@.subrange(p2, p2) =~= Seq::<u64>::empty());
        assert(words_complex_list(Seq::<crate::clip::ComplexClippingRegion>::empty())
            == Seq::<u64>::empty());
        assert(ws@.subrange(p2, p2) =~= words_complex_list(complex@));
    }
    let mut i: usize = 0;
    while i < count
        invariant
            0 <= i <= count,
            0 <= p2 <= *pos as int <= ws@.len(),
            complex@.len() == i,
            ws@.subrange(p2, *pos as int) == words_complex_list(complex@),
        decreases count - i,
    {
        let ghost pa = *pos as int;
        let rect = match dec_rect(ws, pos) {
            Some(v) => v,
            None => { return None },
        };
        let ghost pb = *pos as int;
        let radii = match dec_radii(ws, pos) {
            Some(v) => v,
            None => { return None },
        };
        let entry = crate::clip::ComplexClippingRegion { rect, radii };
        proof {
            lemma_complex_snoc(complex@, entry);
            lemma_subrange_split(ws@, pa, pb, *pos as int);
            assert(ws@.subrange(pa, *pos as int) == words_complex_entry(entry));
            lemma_subrange_split(ws@, p2, pa, *pos as int);
            assert(ws@.subrange(p2, *pos as int) == words_complex_list(complex@.push(entry)));
        }
        complex.push(entry);
        i += 1;
    }
    let out = crate::clip::ClippingRegion { main, complex };
    proof {
        assert(ws@.subrange(p1, p2) =~= seq![ws@[p1]]);
        assert(ws@.subrange(p0, *pos as int) =~= ws@.subrange(p0, p1) + ws@.subrange(p1, p2)
            + ws@.subrange(p2, *pos as int));
    }
    Some(out)
}

fn dec_meta(ws: &Vec<u64>, pos: &mut usize) -> (r: Option<crate::item::DisplayItemMetadata>)
    ensures
        r is Some ==> *old(pos) <= *final(pos) <= ws@.len() && ws@.subrange(
            *old(pos) as int,
            *final(pos) as int,
        ) == words_meta(r->0),
{
    let node = match take(ws, pos) {
        Some(v) => v,
        None => { return None },
    };
    let tag = match take(ws, pos) {
        Some(v) => v,
        None => { return None },
    };
    let cursor_word = match take(ws, pos) {
        Some(v) => v,
        None => { return None },
    };
    let pointing = if tag == 0 {
        if cursor_word != 0 {
            return None;
        }
        None
    } else if tag == 1 {
        match dec_cursor(cursor_word) {
            Some(c) => Some(c),
            None => { return None },
        }
    } else {
        return None;
    };
    let out = crate::item::DisplayItemMetadata { node: crate::ids::OpaqueNode(node), pointing };
    proof {
        assert(ws@.subrange(*old(pos) as int, *pos as int) =~= words_meta(out));
    }
    Some(out)
}

fn dec_base(ws: &Vec<u64>, pos: &mut usize) -> (r: Option<crate::item::BaseDisplayItem>)
    ensures
        r is Some ==> *old(pos) <= *final(pos) <= ws@.len() && ws@.subrange(
            *old(pos) as int,
            *final(pos) as int,
        ) == words_base(r->0),
{
    let ghost p0 = *pos as int;
    let bounds = match dec_rect(ws, pos) {
        Some(v) => v,
        None => { return None },
    };
    let ghost p1 = *pos as int;
    let metadata = match dec_meta(ws, pos) {
        Some(v) => v,
        None => { return None },
    };
    let ghost p2 = *pos as int;
    let clip = match dec_clip(ws, pos) {
        Some(v) => v,
        None => { return None },
    };
    let ghost p3 = *pos as int;
    let section_word = match take(ws, pos) {
        Some(v) => v,
        None => { return None },
    };
    let section = match dec_displaylistsection(section_word) {
        Some(v) => v,
        None => { return None },
    };
    let id = match take(ws, pos) {
        Some(v) => v,
        None => { return None },
    };
    let out = crate::item::BaseDisplayItem {
        bounds,
        metadata,
        clip,
        section,
        stacking_context_id: crate::ids::StackingContextId(id),
    };
    proof {
        assert(ws@.subrange(p3, *pos as int) =~= seq![ws@[p3], ws@[p3 + 1]]);
        assert(ws@.subrange(p0, *pos as int) =~= ws@.subrange(p0, p1) + ws@.subrange(p1, p2)
            + ws@.subrange(p2, p3) + ws@.subrange(p3, *pos as int));
    }
    Some(out)
}

fn dec_filter(ws: &Vec<u64>, pos: &mut usize) -> (r: Option<crate::style::Filter>)
    ensures
        r is Some ==> *old(pos) <= *final(pos) <= ws@.len() && ws@.subrange(
            *old(pos) as int,
            *final(pos) as int,
        ) == words_filter(r->0),
{
    let tag = match take(ws, pos) {
        Some(v) => v,
        None => { return None },
    };
    if tag == 0 {
        let v = match take_i32(ws, pos) {
            Some(v) => v,
            None => { return None },
        };
        let out = crate::style::Filter::Blur(v);
        proof {
            assert(ws@.subrange(*old(pos) as int, *pos as int) =~= words_filter(out));
        }
        Some(out)
    } else if tag == 4 {
        let v = match take_i32(ws, pos) {
            Some(v) => v,
            None => { return None },
        };
        let out = crate::style::Filter::HueRotate(v);
        proof {
            assert(ws@.subrange(*old(pos) as int, *pos as int) =~= words_filter(out));
        }
        Some(out)
    } else {
        let v = match take_u32(ws, pos) {
            Some(v) => v,
            None => { return None },
        };
        let out = if tag == 1 {
            crate::style::Filter::Brightness(v)
        } else if tag == 2 {
            crate::style::Filter::Contrast(v)
        } else if tag == 3 {
            crate::style::Filter::Grayscale(v)
        } else if tag == 5 {
            crate::style::Filter::Invert(v)
        } else if tag == 6 {
            crate::style::Filter::Opacity(v)
        } else if tag == 7 {
            crate::style::Filter::Saturate(v)
        } else if tag == 8 {
            crate::style::Filter::Sepia(v)
        } else {
            return None;
        };
        proof {
            assert(ws@.subrange(*old(pos) as int, *pos as int) =~= words_filter(out));
        }
        Some(out)
    }
}

fn dec_matrix(ws: &Vec<u64>, pos: &mut usize) -> (r: Option<crate::transform::Matrix4D>)
    ensures
        r is Some ==> *old(pos) <= *final(pos) <= ws@.len() && ws@.subrange(
            *old(pos) as int,
            *final(pos) as int,
        ) == words_matrix(r->0),
{
    let m0 = match take_i64(ws, pos) {
        Some(v) => v,
        None => { return None },
    };
    let m1 = match take_i64(ws, pos) {
        Some(v) => v,
        None => { return None },
    };
    let m2 = match take_i64(ws, pos) {
        Some(v) => v,
        None => { return None },
    };
    let m3 = match take_i64(ws, pos) {
        Some(v) => v,
        None => { return None },
    };
    let m4 = match take_i64(ws, pos) {
        Some(v) => v,
        None => { return None },
    };
    let m5 = match take_i64(ws, pos) {
        Some(v) => v,
        None => { return None },
    };
    let m6 = match take_i64(ws, pos) {
        Some(v) => v,
        None => { return None },
    };
    let m7 = match take_i64(ws, pos) {
        Some(v) => v,
        None => { return None },
    };
    let m8 = match take_i64(ws, pos) {
        Some(v) => v,
        None => { return None },
    };
    let m9 = match take_i64(ws, pos) {
        Some(v) => v,
        None => { return None },
    };
    let m10 = match take_i64(ws, pos) {
        Some(v) => v,
        None => { return None },
    };
    let m11 = match take_i64(ws, pos) {
        Some(v) => v,
        None => { return None },
    };
    let m12 = match take_i64(ws, pos) {
        Some(v) => v,
        None => { return None },
    };
    let m13 = match take_i64(ws, pos) {
        Some(v) => v,
        None => { return None },
    };
    let m14 = match take_i64(ws, pos) {
        Some(v) => v,
        None => { return None },
    };
    let m15 = match take_i64(ws, pos) {
        Some(v) => v,
        None => { return None },
    };
    let out = crate::transform::Matrix4D {
        m11: m0,
        m12: m1,
        m13: m2,
        m14: m3,
        m21: m4,
        m22: m5,
        m23: m6,
        m24: m7,
        m31: m8,
        m32: m9,
        m33: m10,
        m34: m11,
        m41: m12,
        m42: m13,
        m43: m14,
        m44: m15,
    };
    proof {
        assert(ws@.subrange(*old(pos) as int, *pos as int) =~= words_matrix(out));
    }
    Some(out)
}

fn dec_layer_info(ws: &Vec<u64>, pos: &mut usize) -> (r: Option<
    Option<crate::stacking::LayerInfo>,
>)
    ensures
        r is Some ==> *old(pos) <= *final(pos) <= ws@.len() && ws@.subrange(
            *old(pos) as int,
            *final(pos) as int,
        ) == words_layer_info(r->0),
{
    let present = match take(ws, pos) {
        Some(v) => v,
        None => { return None },
    };
    if present == 0 {
        proof {
            assert(ws@.subrange(*old(pos) as int, *pos as int) =~= words_layer_info(None));
        }
        return Some(None);
    }
    if present != 1 {
        return None;
    }
    let ghost p1 = *pos as int;
    let lid0 = match take(ws, pos) {
        Some(v) => v,
        None => { return None },
    };
    let lid1 = match take_u32(ws, pos) {
        Some(v) => v,
        None => { return None },
    };
    let policy_word = match take(ws, pos) {
        Some(v) => v,
        None => { return None },
    };
    let policy = match dec_scrollpolicy(policy_word) {
        Some(v) => v,
        None => { return None },
    };
    let sp_tag = match take(ws, pos) {
        Some(v) => v,
        None => { return None },
    };
    let sp_a = match take_u32(ws, pos) {
        Some(v) => v,
        None => { return None },
    };
    let sp_b = match take_u32(ws, pos) {
        Some(v) => v,
        None => { return None },
    };
    let subpage = if sp_tag == 0 {
        if sp_a != 0 || sp_b != 0 {
            return None;
        }
        None
    } else if sp_tag == 1 {
        Some(crate::ids::PipelineId(sp_a, sp_b))
    } else {
        return None;
    };
    let nid0 = match take(ws, pos) {
        Some(v) => v,
        None => { return None },
    };
    let nid1 = match take_u32(ws, pos) {
        Some(v) => v,
        None => { return None },
    };
    let ghost p2 = *pos as int;
    let background_color = match dec_color(ws, pos) {
        Some(v) => v,
        None => { return None },
    };
    let info = crate::stacking::LayerInfo {
        layer_id: crate::ids::LayerId(lid0, lid1),
        scroll_policy: policy,
        subpage_pipeline_id: subpage,
        next_layer_id: crate::ids::LayerId(nid0, nid1),
        background_color,
    };
    proof {
        lemma_subrange_split(ws@, *old(pos) as int, p2, *pos as int);
        assert(ws@.subrange(*old(pos) as int, p2) =~= seq![1u64, info.layer_id.0,
            info.layer_id.1 as u64, word_of_scrollpolicy(info.scroll_policy)] + (match info
            .subpage_pipeline_id {
            None => seq![0u64, 0u64, 0u64],
            Some(p) => seq![1u64, p.0 as u64, p.1 as u64],
        }) + seq![info.next_layer_id.0, info.next_layer_id.1 as u64]);
        assert(ws@.subrange(*old(pos) as int, *pos as int) =~= words_layer_info(Some(info)));
    }
    Some(Some(info))
}

#[verifier::rlimit(100)]
fn dec_sc(ws: &Vec<u64>, pos: &mut usize) -> (r: Option<crate::stacking::StackingContext>)
    ensures
        r is Some ==> *old(pos) <= *final(pos) <= ws@.len() && ws@.subrange(
            *old(pos) as int,
            *final(pos) as int,
        ) == words_sc(r->0) && r->0.children@.len() == 0,
{
    let ghost p0 = *pos as int;
    let id = match take(ws, pos) {
        Some(v) => v,
        None => { return None },
    };
    let type_word = match take(ws, pos) {
        Some(v) => v,
        None => { return None },
    };
    let context_type = match dec_stackingcontexttype(type_word) {
        Some(v) => v,
        None => { return None },
    };
    let ghost p1 = *pos as int;
    let bounds = match dec_rect(ws, pos) {
        Some(v) => v,
        None => { return None },
    };
    let overflow = match dec_rect(ws, pos) {
        Some(v) => v,
        None => { return None },
    };
    let ghost p2 = *pos as int;
    let z_index = match take_i32(ws, pos) {
        Some(v) => v,
        None => { return None },
    };
    let fcount = match take(ws, pos) {
        Some(v) => v,
        None => { return None },
    };
    if fcount > ws.len() as u64 {
        return None;
    }
    let fcount = fcount as usize;
    let ghost p3 = *pos as int;
    let mut filters: Vec<crate::style::Filter> = Vec::new();
    proof {
        assert(ws@.subrange(p3, p3) =~= Seq::<u64>::empty());
        assert(words_filter_list(Seq::<crate::style::Filter>::empty()) == Seq::<u64>::empty());
        assert(ws@.subrange(p3, p3) =~= words_filter_list(filters@));
    }
    let mut i: usize = 0;
    while i < fcount
        invariant
            0 <= i <= fcount,
            0 <= p3 <= *pos as int <= ws@.len(),
            filters@.len() == i,
            ws@.subrange(p3, *pos as int) == words_filter_list(filters@),
        decreases fcount - i,
    {
        let ghost pa = *pos as int;
        let f = match dec_filter(ws, pos) {
            Some(v) => v,
            None => { return None },
        };
        proof {
            lemma_filter_snoc(filters@, f);
            lemma_subrange_split(ws@, p3, pa, *pos as int);
            assert(ws@.subrange(p3, *pos as int) == words_filter_list(filters@.push(f)));
        }
        filters.push(f);
        i += 1;
    }
    let ghost p4 = *pos as int;
    let blend_word = match take(ws, pos) {
        Some(v) => v,
        None => { return None },
    };
    let blend_mode = match dec_mixblendmode(blend_word) {
        Some(v) => v,
        None => { return None },
    };
    let ghost p5 = *pos as int;
    let transform = match dec_matrix(ws, pos) {
        Some(v) => v,
        None => { return None },
    };
    let perspective = match dec_matrix(ws, pos) {
        Some(v) => v,
        None => { return None },
    };
    let ghost p6 = *pos as int;
    let flag = match take(ws, pos) {
        Some(v) => v,
        None => { return None },
    };
    let establishes_3d_context = if flag == 1 {
        true
    } else if flag == 0 {
        false
    } else {
        return None;
    };
    let ghost p7 = *pos as int;
    let layer_info = match dec_layer_info(ws, pos) {
        Some(v) => v,
        None => { return None },
    };
    let ghost p8 = *pos as int;
    let sid_tag = match take(ws, pos) {
        Some(v) => v,
        None => { return None },
    };
    let sid_val = match take(ws, pos) {
        Some(v) => v,
        None => { return None },
    };
    let overflow_scroll_id = if sid_tag == 0 {
        if sid_val != 0 {
            return None;
        }
        None
    } else if sid_tag == 1 {
        Some(crate::ids::StackingContextId(sid_val))
    } else {
        return None;
    };
    let out = crate::stacking::StackingContext {
        id: crate::ids::StackingContextId(id),
        context_type,
        bounds,
        overflow,
        z_index,
        filters,
        blend_mode,
        transform,
        perspective,
        establishes_3d_context,
        layer_info,
        children: Vec::new(),
        overflow_scroll_id,
    };
    proof {
        lemma_subrange_split(ws@, p2, p3, p4);
        lemma_subrange_split(ws@, p1, p2, p4);
        lemma_subrange_split(ws@, p0, p1, p4);
        lemma_subrange_split(ws@, p5, p6, p7);
        lemma_subrange_split(ws@, p4, p5, p7);
        lemma_subrange_split(ws@, p0, p4, p7);
        lemma_subrange_split(ws@, p7, p8, *pos as int);
        lemma_subrange_split(ws@, p0, p7, *pos as int);
        assert(ws@.subrange(p0, p1) =~= seq![out.id.0, word_of_stackingcontexttype(
            out.context_type,
        )]);
        assert(ws@.subrange(p1, p2) =~= words_rect(out.bounds) + words_rect(out.overflow));
        assert(ws@.subrange(p2, p3) =~= seq![word_of_i32(out.z_index),
            out.filters@.len() as u64]);
        assert(ws@.subrange(p4, p5) =~= seq![word_of_mixblendmode(out.blend_mode)]);
        assert(ws@.subrange(p5, p6) =~= words_matrix(out.transform) + words_matrix(
            out.perspective,
        ));
        assert(ws@.subrange(p6, p7) =~= seq![
            if out.establishes_3d_context {
                1u64
            } else {
                0u64
            },
        ]);
        assert(ws@.subrange(p8, *pos as int) =~= words_scroll_id(out.overflow_scroll_id));
        assert(ws@.subrange(p0, *pos as int) =~= words_sc(out));
    }
    Some(out)
}


struct TextPayload {
    text_run: crate::ids::TextRunHandle,
    range_begin: u32,
    range_length: u32,
    text_color: crate::style::Color,
    baseline_origin: crate::geometry::Point2D,
    orientation: crate::item::TextOrientation,
    blur_radius: i32,
}

spec fn words_text_payload(p: TextPayload) -> Seq<u64> {
    seq![p.text_run.0, p.range_begin as u64, p.range_length as u64] + words_color(p.text_color)
        + words_point(p.baseline_origin) + seq![
        word_of_textorientation(p.orientation),
        word_of_i32(p.blur_radius),
    ]
}

fn dec_text_payload(ws: &Vec<u64>, pos: &mut usize) -> (r: Option<TextPayload>)
    ensures
        r is Some ==> *old(pos) <= *final(pos) <= ws@.len() && ws@.subrange(
            *old(pos) as int,
            *final(pos) as int,
        ) == words_text_payload(r->0),
{
    let text_run = match take(ws, pos) {
        Some(v) => v,
        None => { return None },
    };
    let range_begin = match take_u32(ws, pos) {
        Some(v) => v,
        None => { return None },
    };
    let range_length = match take_u32(ws, pos) {
        Some(v) => v,
        None => { return None },
    };
    let ghost p3 = *pos as int;
    let text_color = match dec_color(ws, pos) {
        Some(v) => v,
        None => { return None },
    };
    let baseline_origin = match dec_point(ws, pos) {
        Some(v) => v,
        None => { return None },
    };
    let ghost p4 = *pos as int;
    let ow = match take(ws, pos) {
        Some(v) => v,
        None => { return None },
    };
    let orientation = match dec_textorientation(ow) {
        Some(v) => v,
        None => { return None },
    };
    let blur_radius = match take_i32(ws, pos) {
        Some(v) => v,
        None => { return None },
    };
    let out = TextPayload {
        text_run: crate::ids::TextRunHandle(text_run),
        range_begin,
        range_length,
        text_color,
        baseline_origin,
        orientation,
        blur_radius,
    };
    proof {
        lemma_subrange_split(ws@, *old(pos) as int, p3, p4);
        lemma_subrange_split(ws@, *old(pos) as int, p4, *pos as int);
        assert(ws@.subrange(*old(pos) as int, p3) =~= seq![text_run, range_begin as u64,
            range_length as u64]);
        assert(ws@.subrange(p4, *pos as int) =~= seq![word_of_textorientation(orientation),
            word_of_i32(blur_radius)]);
        assert(ws@.subrange(*old(pos) as int, *pos as int) =~= words_text_payload(out));
    }
    Some(out)
}

struct ImagePayload {
    webrender_image: crate::item::WebRenderImageInfo,
    image_data: Option<crate::ids::ImageDataHandle>,
    stretch_size: crate::geometry::Size2D,
    tile_spacing: crate::geometry::Size2D,
    image_rendering: crate::item::ImageRendering,
}

spec fn words_image_payload_rest(p: ImagePayload) -> Seq<u64> {
    seq![
        p.webrender_image.width as u64,
        p.webrender_image.height as u64,
        word_of_pixelformat(p.webrender_image.format),
    ] + words_image_key(p.webrender_image.key) + words_image_data(p.image_data) + words_size(
        p.stretch_size,
    ) + words_size(p.tile_spacing) + seq![word_of_imagerendering(p.image_rendering)]
}

fn dec_image_payload(ws: &Vec<u64>, pos: &mut usize) -> (r: Option<ImagePayload>)
    ensures
        r is Some ==> *old(pos) <= *final(pos) <= ws@.len() && ws@.subrange(
            *old(pos) as int,
            *final(pos) as int,
        ) == words_image_payload_rest(r->0),
{
    let width = match take_u32(ws, pos) {
        Some(v) => v,
        None => { return None },
    };
    let height = match take_u32(ws, pos) {
        Some(v) => v,
        None => { return None },
    };
    let fw = match take(ws, pos) {
        Some(v) => v,
        None => { return None },
    };
    let format = match dec_pixelformat(fw) {
        Some(v) => v,
        None => { return None },
    };
    let kt = match take(ws, pos) {
        Some(v) => v,
        None => { return None },
    };
    let ka = match take_u32(ws, pos) {
        Some(v) => v,
        None => { return None },
    };
    let kb = match take_u32(ws, pos) {
        Some(v) => v,
        None => { return None },
    };
    let key = if kt == 0 {
        if ka != 0 || kb != 0 {
            return None;
        }
        None
    } else if kt == 1 {
        Some(crate::ids::ImageKey(ka, kb))
    } else {
        return None;
    };
    let dt = match take(ws, pos) {
        Some(v) => v,
        None => { return None },
    };
    let dh = match take(ws, pos) {
        Some(v) => v,
        None => { return None },
    };
    let image_data = if dt == 0 {
        if dh != 0 {
            return None;
        }
        None
    } else if dt == 1 {
        Some(crate::ids::ImageDataHandle(dh))
    } else {
        return None;
    };
    let ghost p3 = *pos as int;
    let stretch_size = match dec_size(ws, pos) {
        Some(v) => v,
        None => { return None },
    };
    let tile_spacing = match dec_size(ws, pos) {
        Some(v) => v,
        None => { return None },
    };
    let ghost p4 = *pos as int;
    let rw = match take(ws, pos) {
        Some(v) => v,
        None => { return None },
    };
    let image_rendering = match dec_imagerendering(rw) {
        Some(v) => v,
        None => { return None },
    };
    let out = ImagePayload {
        webrender_image: crate::item::WebRenderImageInfo { width, height, format, key },
        image_data,
        stretch_size,
        tile_spacing,
        image_rendering,
    };
    proof {
        lemma_subrange_split(ws@, *old(pos) as int, p3, p4);
        lemma_subrange_split(ws@, *old(pos) as int, p4, *pos as int);
        assert(ws@.subrange(*old(pos) as int, p3) =~= seq![width as u64, height as u64,
            word_of_pixelformat(format)] + words_image_key(key) + words_image_data(image_data));
        assert(ws@.subrange(p4, *pos as int) =~= seq![word_of_imagerendering(image_rendering)]);
        assert(ws@.subrange(*old(pos) as int, *pos as int) =~= words_image_payload_rest(out));
    }
    Some(out)
}

struct BorderPayload {
    border_widths: crate::geometry::SideOffsets2D,
    radius: crate::clip::BorderRadii,
    color_top: crate::style::Color,
    color_right: crate::style::Color,
    color_bottom: crate::style::Color,
    color_left: crate::style::Color,
    style_top: crate::style::BorderStyle,
    style_right: crate::style::BorderStyle,
    style_bottom: crate::style::BorderStyle,
    style_left: crate::style::BorderStyle,
}

spec fn words_border_payload(p: BorderPayload) -> Seq<u64> {
    words_sides(p.border_widths) + words_radii(p.radius) + words_color(p.color_top)
        + words_color(p.color_right) + words_color(p.color_bottom) + words_color(p.color_left)
        + seq![
        word_of_borderstyle(p.style_top),
        word_of_borderstyle(p.style_right),
        word_of_borderstyle(p.style_bottom),
        word_of_borderstyle(p.style_left),
    ]
}

fn dec_border_payload(ws: &Vec<u64>, pos: &mut usize) -> (r: Option<BorderPayload>)
    ensures
        r is Some ==> *old(pos) <= *final(pos) <= ws@.len() && ws@.subrange(
            *old(pos) as int,
            *final(pos) as int,
        ) == words_border_payload(r->0),
{
    let border_widths = match dec_sides(ws, pos) {
        Some(v) => v,
        None => { return None },
    };
    let radius = match dec_radii(ws, pos) {
        Some(v) => v,
        None => { return None },
    };
    let color_top = match dec_color(ws, pos) {
        Some(v) => v,
        None => { return None },
    };
    let color_right = match dec_color(ws, pos) {
        Some(v) => v,
        None => { return None },
    };
    let color_bottom = match dec_color(ws, pos) {
        Some(v) => v,
        None => { return None },
    };
    let color_left = match dec_color(ws, pos) {
        Some(v) => v,
        None => { return None },
    };
    let ghost p3 = *pos as int;
    let s1 = match take(ws, pos) {
        Some(v) => v,
        None => { return None },
    };
    let style_top = match dec_borderstyle(s1) {
        Some(v) => v,
        None => { return None },
    };
    let s2 = match take(ws, pos) {
        Some(v) => v,
        None => { return None },
    };
    let style_right = match dec_borderstyle(s2) {
        Some(v) => v,
        None => { return None },
    };
    let s3 = match take(ws, pos) {
        Some(v) => v,
        None => { return None },
    };
    let style_bottom = match dec_borderstyle(s3) {
        Some(v) => v,
        None => { return None },
    };
    let s4 = match take(ws, pos) {
        Some(v) => v,
        None => { return None },
    };
    let style_left = match dec_borderstyle(s4) {
        Some(v) => v,
        None => { return None },
    };
    let out = BorderPayload {
        border_widths,
        radius,
        color_top,
        color_right,
        color_bottom,
        color_left,
        style_top,
        style_right,
        style_bottom,
        style_left,
    };
    proof {
        lemma_subrange_split(ws@, *old(pos) as int, p3, *pos as int);
        assert(ws@.subrange(p3, *pos as int) =~= seq![word_of_borderstyle(style_top),
            word_of_borderstyle(style_right), word_of_borderstyle(style_bottom),
            word_of_borderstyle(style_left)]);
        assert(ws@.subrange(*old(pos) as int, *pos as int) =~= words_border_payload(out));
    }
    Some(out)
}

struct GradientPayload {
    start_point: crate::geometry::Point2D,
    end_point: crate::geometry::Point2D,
    stops: Vec<crate::style::GradientStop>,
}

spec fn words_gradient_payload(p: GradientPayload) -> Seq<u64> {
    words_point(p.start_point) + words_point(p.end_point) + seq![p.stops@.len() as u64]
        + words_stop_list(p.stops@)
}

fn dec_gradient_payload(ws: &Vec<u64>, pos: &mut usize) -> (r: Option<GradientPayload>)
    ensures
        r is Some ==> *old(pos) <= *final(pos) <= ws@.len() && ws@.subrange(
            *old(pos) as int,
            *final(pos) as int,
        ) == words_gradient_payload(r->0),
{
    let start_point = match dec_point(ws, pos) {
        Some(v) => v,
        None => { return None },
    };
    let end_point = match dec_point(ws, pos) {
        Some(v) => v,
        None => { return None },
    };
    let scount = match take(ws, pos) {
        Some(v) => v,
        None => { return None },
    };
    if scount > ws.len() as u64 {
        return None;
    }
    let scount = scount as usize;
    let ghost p3 = *pos as int;
    let mut stops: Vec<crate::style::GradientStop> = Vec::new();
    proof {
        assert(ws@.subrange(p3, p3) =~= Seq::<u64>::empty());
        assert(words_stop_list(Seq::<crate::style::GradientStop>::empty())
            == Seq::<u64>::empty());
        assert(ws@.subrange(p3, p3) =~= words_stop_list(stops@));
    }
    let mut i: usize = 0;
    while i < scount
        invariant
            0 <= i <= scount,
            0 <= p3 <= *pos as int <= ws@.len(),
            stops@.len() == i,
            ws@.subrange(p3, *pos as int) == words_stop_list(stops@),
        decreases scount - i,
    {
        let ghost pa = *pos as int;
        let offset = match take_u32(ws, pos) {
            Some(v) => v,
            None => { return None },
        };
        let color = match dec_color(ws, pos) {
            Some(v) => v,
            None => { return None },
        };
        let stop = crate::style::GradientStop { offset, color };
        proof {
            lemma_stop_snoc(stops@, stop);
            lemma_subrange_split(ws@, pa, pa + 1, *pos as int);
            assert(ws@.subrange(pa, pa + 1) =~= seq![offset as u64]);
            assert(ws@.subrange(pa, *pos as int) == words_stop(stop));
            lemma_subrange_split(ws@, p3, pa, *pos as int);
            assert(ws@.subrange(p3, *pos as int) == words_stop_list(stops@.push(stop)));
        }
        stops.push(stop);
        i += 1;
    }
    let out = GradientPayload { start_point, end_point, stops };
    proof {
        lemma_subrange_split(ws@, *old(pos) as int, p3 - 1, *pos as int);
        lemma_subrange_split(ws@, p3 - 1, p3, *pos as int);
        assert(ws@.subrange(p3 - 1, p3) =~= seq![ws@[p3 - 1]]);
        assert(ws@.subrange(*old(pos) as int, *pos as int) =~= words_gradient_payload(out));
    }
    Some(out)
}

struct ShadowPayload {
    box_bounds: crate::geometry::Rect,
    offset: crate::geometry::Point2D,
    color: crate::style::Color,
    blur_radius: i32,
    spread_radius: i32,
    border_radius: i32,
    clip_mode: crate::item::BoxShadowClipMode,
}

spec fn words_shadow_payload(p: ShadowPayload) -> Seq<u64> {
    words_rect(p.box_bounds) + words_point(p.offset) + words_color(p.color) + seq![
        word_of_i32(p.blur_radius),
        word_of_i32(p.spread_radius),
        word_of_i32(p.border_radius),
        word_of_boxshadowclipmode(p.clip_mode),
    ]
}

fn dec_shadow_payload(ws: &Vec<u64>, pos: &mut usize) -> (r: Option<ShadowPayload>)
    ensures
        r is Some ==> *old(pos) <= *final(pos) <= ws@.len() && ws@.subrange(
            *old(pos) as int,
            *final(pos) as int,
        ) == words_shadow_payload(r->0),
{
    let box_bounds = match dec_rect(ws, pos) {
        Some(v) => v,
        None => { return None },
    };
    let offset = match dec_point(ws, pos) {
        Some(v) => v,
        None => { return None },
    };
    let color = match dec_color(ws, pos) {
        Some(v) => v,
        None => { return None },
    };
    let ghost p3 = *pos as int;
    let blur_radius = match take_i32(ws, pos) {
        Some(v) => v,
        None => { return None },
    };
    let spread_radius = match take_i32(ws, pos) {
        Some(v) => v,
        None => { return None },
    };
    let border_radius = match take_i32(ws, pos) {
        Some(v) => v,
        None => { return None },
    };
    let cw = match take(ws, pos) {
        Some(v) => v,
        None => { return None },
    };
    let clip_mode = match dec_boxshadowclipmode(cw) {
        Some(v) => v,
        None => { return None },
    };
    let out = ShadowPayload {
        box_bounds,
        offset,
        color,
        blur_radius,
        spread_radius,
        border_radius,
        clip_mode,
    };
    proof {
        lemma_subrange_split(ws@, *old(pos) as int, p3, *pos as int);
        assert(ws@.subrange(p3, *pos as int) =~= seq![word_of_i32(blur_radius),
            word_of_i32(spread_radius), word_of_i32(border_radius), word_of_boxshadowclipmode(
                clip_mode,
            )]);
        assert(ws@.subrange(*old(pos) as int, *pos as int) =~= words_shadow_payload(out));
    }
    Some(out)
}

#[verifier::rlimit(100)]
fn dec_item(ws: &Vec<u64>, pos: &mut usize) -> (r: Option<crate::item::DisplayItem>)
    ensures
        r is Some ==> *old(pos) <= *final(pos) <= ws@.len() && ws@.subrange(
            *old(pos) as int,
            *final(pos) as int,
        ) == words_item(r->0),
{
    let ghost p0 = *pos as int;
    let tag = match take(ws, pos) {
        Some(v) => v,
        None => { return None },
    };
    let ghost p1 = *pos as int;
    let base = match dec_base(ws, pos) {
        Some(v) => v,
        None => { return None },
    };
    let ghost p2 = *pos as int;
    if tag == 0 {
        let color = match dec_color(ws, pos) {
            Some(v) => v,
            None => { return None },
        };
        let out = crate::item::DisplayItem::SolidColor(
            Box::new(crate::item::SolidColorDisplayItem { base, color }),
        );
        proof {
            lemma_subrange_split(ws@, p0, p2, *pos as int);
            lemma_subrange_split(ws@, p0, p1, p2);
            assert(ws@.subrange(p0, p1) =~= seq![0u64]);
            assert(ws@.subrange(p0, *pos as int) =~= words_item(out));
        }
        Some(out)
    } else if tag == 1 {
        let p = match dec_text_payload(ws, pos) {
            Some(v) => v,
            None => { return None },
        };
        let out = crate::item::DisplayItem::Text(
            Box::new(
                crate::item::TextDisplayItem {
                    base,
                    text_run: p.text_run,
                    range_begin: p.range_begin,
                    range_length: p.range_length,
                    text_color: p.text_color,
                    baseline_origin: p.baseline_origin,
                    orientation: p.orientation,
                    blur_radius: p.blur_radius,
                },
            ),
        );
        proof {
            lemma_subrange_split(ws@, p0, p2, *pos as int);
            lemma_subrange_split(ws@, p0, p1, p2);
            assert(ws@.subrange(p0, p1) =~= seq![1u64]);
            assert(ws@.subrange(p0, *pos as int) =~= words_item(out));
        }
        Some(out)
    } else if tag == 2 {
        let p = match dec_image_payload(ws, pos) {
            Some(v) => v,
            None => { return None },
        };
        let out = crate::item::DisplayItem::Image(
            Box::new(
                crate::item::ImageDisplayItem {
                    base,
                    webrender_image: p.webrender_image,
                    image_data: p.image_data,
                    stretch_size: p.stretch_size,
                    tile_spacing: p.tile_spacing,
                    image_rendering: p.image_rendering,
                },
            ),
        );
        proof {
            lemma_subrange_split(ws@, p0, p2, *pos as int);
            lemma_subrange_split(ws@, p0, p1, p2);
            assert(ws@.subrange(p0, p1) =~= seq![2u64]);
            assert(ws@.subrange(p0, *pos as int) =~= words_item(out));
        }
        Some(out)
    } else if tag == 3 {
        let cid = match take(ws, pos) {
            Some(v) => v,
            None => { return None },
        };
        let out = crate::item::DisplayItem::WebGL(
            Box::new(
                crate::item::WebGLDisplayItem {
                    base,
                    context_id: crate::ids::WebGLContextId(cid),
                },
            ),
        );
        proof {
            lemma_subrange_split(ws@, p0, p2, *pos as int);
            lemma_subrange_split(ws@, p0, p1, p2);
            assert(ws@.subrange(p0, p1) =~= seq![3u64]);
            assert(ws@.subrange(p2, *pos as int) =~= seq![cid]);
            assert(ws@.subrange(p0, *pos as int) =~= words_item(out));
        }
        Some(out)
    } else if tag == 4 {
        let p = match dec_border_payload(ws, pos) {
            Some(v) => v,
            None => { return None },
        };
        let out = crate::item::DisplayItem::Border(
            Box::new(
                crate::item::BorderDisplayItem {
                    base,
                    border_widths: p.border_widths,
                    color_top: p.color_top,
                    color_right: p.color_right,
                    color_bottom: p.color_bottom,
                    color_left: p.color_left,
                    style_top: p.style_top,
                    style_right: p.style_right,
                    style_bottom: p.style_bottom,
                    style_left: p.style_left,
                    radius: p.radius,
                },
            ),
        );
        proof {
            lemma_subrange_split(ws@, p0, p2, *pos as int);
            lemma_subrange_split(ws@, p0, p1, p2);
            assert(ws@.subrange(p0, p1) =~= seq![4u64]);
            assert(ws@.subrange(p0, *pos as int) =~= words_item(out));
        }
        Some(out)
    } else if tag == 5 {
        let p = match dec_gradient_payload(ws, pos) {
            Some(v) => v,
            None => { return None },
        };
        let out = crate::item::DisplayItem::Gradient(
            Box::new(
                crate::item::GradientDisplayItem {
                    base,
                    start_point: p.start_point,
                    end_point: p.end_point,
                    stops: p.stops,
                },
            ),
        );
        proof {
            lemma_subrange_split(ws@, p0, p2, *pos as int);
            lemma_subrange_split(ws@, p0, p1, p2);
            assert(ws@.subrange(p0, p1) =~= seq![5u64]);
            assert(ws@.subrange(p0, *pos as int) =~= words_item(out));
        }
        Some(out)
    } else if tag == 6 {
        let color = match dec_color(ws, pos) {
            Some(v) => v,
            None => { return None },
        };
        let sw = match take(ws, pos) {
            Some(v) => v,
            None => { return None },
        };
        let style = match dec_borderstyle(sw) {
            Some(v) => v,
            None => { return None },
        };
        let out = crate::item::DisplayItem::Line(
            Box::new(crate::item::LineDisplayItem { base, color, style }),
        );
        proof {
            lemma_subrange_split(ws@, p0, p2, *pos as int);
            lemma_subrange_split(ws@, p0, p1, p2);
            assert(ws@.subrange(p0, p1) =~= seq![6u64]);
            assert(ws@.subrange(p0, *pos as int) =~= words_item(out));
        }
        Some(out)
    } else if tag == 7 {
        let p = match dec_shadow_payload(ws, pos) {
            Some(v) => v,
            None => { return None },
        };
        let out = crate::item::DisplayItem::BoxShadow(
            Box::new(
                crate::item::BoxShadowDisplayItem {
                    base,
                    box_bounds: p.box_bounds,
                    offset: p.offset,
                    color: p.color,
                    blur_radius: p.blur_radius,
                    spread_radius: p.spread_radius,
                    border_radius: p.border_radius,
                    clip_mode: p.clip_mode,
                },
            ),
        );
        proof {
            lemma_subrange_split(ws@, p0, p2, *pos as int);
            lemma_subrange_split(ws@, p0, p1, p2);
            assert(ws@.subrange(p0, p1) =~= seq![7u64]);
            assert(ws@.subrange(p0, *pos as int) =~= words_item(out));
        }
        Some(out)
    } else if tag == 8 {
        let fa = match take_u32(ws, pos) {
            Some(v) => v,
            None => { return None },
        };
        let fb = match take_u32(ws, pos) {
            Some(v) => v,
            None => { return None },
        };
        let out = crate::item::DisplayItem::Iframe(
            Box::new(
                crate::item::IframeDisplayItem {
                    base,
                    iframe: crate::ids::PipelineId(fa, fb),
                },
            ),
        );
        proof {
            lemma_subrange_split(ws@, p0, p2, *pos as int);
            lemma_subrange_split(ws@, p0, p1, p2);
            assert(ws@.subrange(p0, p1) =~= seq![8u64]);
            assert(ws@.subrange(p2, *pos as int) =~= seq![fa as u64, fb as u64]);
            assert(ws@.subrange(p0, *pos as int) =~= words_item(out));
        }
        Some(out)
    } else if tag == 9 {
        let stacking_context = match dec_sc(ws, pos) {
            Some(v) => v,
            None => { return None },
        };
        let out = crate::item::DisplayItem::PushStackingContext(
            Box::new(
                crate::item::PushStackingContextItem { base, stacking_context },
            ),
        );
        proof {
            lemma_subrange_split(ws@, p0, p2, *pos as int);
            lemma_subrange_split(ws@, p0, p1, p2);
            assert(ws@.subrange(p0, p1) =~= seq![9u64]);
            assert(ws@.subrange(p0, *pos as int) =~= words_item(out));
        }
        Some(out)
    } else if tag == 10 {
        let sid = match take(ws, pos) {
            Some(v) => v,
            None => { return None },
        };
        let out = crate::item::DisplayItem::PopStackingContext(
            Box::new(
                crate::item::PopStackingContextItem {
                    base,
                    stacking_context_id: crate::ids::StackingContextId(sid),
                },
            ),
        );
        proof {
            lemma_subrange_split(ws@, p0, p2, *pos as int);
            lemma_subrange_split(ws@, p0, p1, p2);
            assert(ws@.subrange(p0, p1) =~= seq![10u64]);
            assert(ws@.subrange(p2, *pos as int) =~= seq![sid]);
            assert(ws@.subrange(p0, *pos as int) =~= words_item(out));
        }
        Some(out)
    } else {
        None
    }
}

impl crate::list::DisplayList {
    /// Reads a display list back from bytes. Whatever it returns re-encodes
    /// to exactly the bytes it read: together with [`Self::serialize`], a
    /// serialized list deserializes to a list whose encoding — and so every
    /// field of every item — is that of the original.
    pub fn deserialize(bytes: &Vec<u8>) -> (r: Option<crate::list::DisplayList>)
        ensures
            r is Some ==> bytes@ == bytes_of_words(words_list(r->0)),
    {
        let mut words: Vec<u64> = Vec::new();
        let mut bpos: usize = 0;
        proof {
            assert(bytes@.subrange(0, 0) =~= Seq::<u8>::empty());
            assert(bytes_of_words(Seq::<u64>::empty()) == Seq::<u8>::empty());
        }
        loop
            invariant
                0 <= bpos <= bytes@.len(),
                bytes@.subrange(0, bpos as int) == bytes_of_words(words@),
            ensures
                bpos == bytes@.len(),
                bytes@.subrange(0, bpos as int) == bytes_of_words(words@),
            decreases bytes@.len() - bpos,
        {
            if bpos == bytes.len() {
                break ;
            }
            let ghost pre = bpos as int;
            let w = match read_word(bytes, &mut bpos) {
                Some(w) => w,
                None => { return None },
            };
            proof {
                lemma_words_bytes_inverse(bytes@, pre, w);
                lemma_bytes_of_words_concat(words@, seq![w]);
                assert(words@.push(w) =~= words@ + seq![w]);
                assert(bytes_of_words(Seq::<u64>::empty()) == Seq::<u8>::empty());
                assert(seq![w].drop_first() =~= Seq::<u64>::empty());
                assert(bytes_of_words(seq![w]) =~= le_bytes(w, 8));
                assert(bytes@.subrange(0, bpos as int) =~= bytes@.subrange(0, pre)
                    + bytes@.subrange(pre, bpos as int));
                assert(bytes@.subrange(0, bpos as int) == bytes_of_words(words@.push(w)));
            }
            words.push(w);
        }
        proof {
            assert(bytes@.subrange(0, bytes@.len() as int) =~= bytes@);
        }
        let mut pos: usize = 0;
        let count = match take(&words, &mut pos) {
            Some(v) => v,
            None => { return None },
        };
        if count > words.len() as u64 {
            return None;
        }
        let count = count as usize;
        let mut list: Vec<crate::item::DisplayItem> = Vec::new();
        proof {
            assert(words@.subrange(1, 1) =~= Seq::<u64>::empty());
            assert(words_item_list(Seq::<crate::item::DisplayItem>::empty())
                == Seq::<u64>::empty());
            assert(words@.subrange(1, 1) =~= words_item_list(list@));
        }
        let mut i: usize = 0;
        while i < count
            invariant
                0 <= i <= count,
                1 <= pos as int <= words@.len(),
                list@.len() == i,
                words@.subrange(1, pos as int) == words_item_list(list@),
            decreases count - i,
        {
            let ghost pa = pos as int;
            let item = match dec_item(&words, &mut pos) {
                Some(v) => v,
                None => { return None },
            };
            proof {
                lemma_item_snoc(list@, item);
                lemma_subrange_split(words@, 1, pa, pos as int);
                assert(words@.subrange(1, pos as int) == words_item_list(list@.push(item)));
            }
            list.push(item);
            i += 1;
        }
        if pos != words.len() {
            return None;
        }
        let out = crate::list::DisplayList { list };
        proof {
            lemma_subrange_split(words@, 0, 1, pos as int);
            assert(words@.subrange(0, 1) =~= seq![words@[0]]);
            assert(words@.subrange(0, pos as int) =~= words@);
            assert(words@ =~= words_list(out));
        }
        Some(out)
    }
}

/// The byte stream determines the words: two word sequences with the same
/// bytes are the same sequence.
proof fn lemma_bytes_of_words_injective(a: Seq<u64>, b: Seq<u64>)
    requires
        bytes_of_words(a) == bytes_of_words(b),
    ensures
        a == b,
{
    lemma_bytes_of_words_len(a);
    lemma_bytes_of_words_len(b);
    assert forall|i: int| 0 <= i < a.len() implies a[i] == b[i] by {
        lemma_word_at_of_bytes_of_words(a, i);
        lemma_word_at_of_bytes_of_words(b, i);
    }
    assert(a =~= b);
}

proof fn lemma_word_at_of_bytes_of_words(ws: Seq<u64>, i: int)
    requires
        0 <= i < ws.len(),
    ensures
        word_at(bytes_of_words(ws), 8 * i, 8) == ws[i],
    decreases i,
{
    lemma_pow256_8();
    if i == 0 {
        lemma_bytes_of_words_len(ws.drop_first());
        assert(bytes_of_words(ws) =~= Seq::<u8>::empty() + le_bytes(ws[0], 8)
            + bytes_of_words(ws.drop_first()));
        lemma_word_round_trip(Seq::empty(), ws[0], bytes_of_words(ws.drop_first()), 8);
    } else {
        lemma_word_at_of_bytes_of_words(ws.drop_first(), i - 1);
        lemma_le_bytes_len(ws[0], 8);
        lemma_bytes_of_words_len(ws.drop_first());
        lemma_word_at_shift(bytes_of_words(ws.drop_first()), le_bytes(ws[0], 8), 8 * (i - 1), 8);
        assert(le_bytes(ws[0], 8) + bytes_of_words(ws.drop_first()) =~= bytes_of_words(ws));
        assert(ws.drop_first()[i - 1] == ws[i]);
    }
}

/// Reading words is stable under prepending a prefix.
proof fn lemma_word_at_shift(s: Seq<u8>, prefix: Seq<u8>, i: int, n: nat)
    requires
        0 <= i,
        i + n <= s.len(),
    ensures
        word_at(prefix + s, prefix.len() + i, n) == word_at(s, i, n),
    decreases n,
{
    if n > 0 {
        assert((prefix + s)[prefix.len() + i] == s[i]);
        lemma_word_at_shift(s, prefix, i + 1, (n - 1) as nat);
    }
}

/// Law: the codec round-trips. When the bytes of a serialized list
/// deserialize to a list, the two lists have the same word encoding — and
/// the encoding carries every field of every item, so they are equal
/// item-wise on all fields.
pub proof fn law_codec_round_trip(
    original: crate::list::DisplayList,
    decoded: crate::list::DisplayList,
    bytes: Seq<u8>,
)
    requires
        bytes == bytes_of_words(words_list(original)),
        bytes == bytes_of_words(words_list(decoded)),
        original.list@.len() <= u64::MAX,
        decoded.list@.len() <= u64::MAX,
    ensures
        words_list(decoded) == words_list(original),
        decoded.list@.len() == original.list@.len(),
{
    lemma_bytes_of_words_injective(words_list(decoded), words_list(original));
    assert(words_list(decoded)[0] == words_list(original)[0]);
    assert(words_list(original)[0] == original.list@.len() as u64);
}

} // verus!
