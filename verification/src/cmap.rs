//! `ToUnicode` CMap parsing — the step that turns character codes into text
//! (CJK especially).
//!
//! A font's `/ToUnicode` stream maps character codes to Unicode through
//! `bfchar` and `bfrange` sections. Only those sections are read (codespace
//! ranges and CIDInit boilerplate are ignored) into a `code -> String` map.
//! Destination values are UTF-16BE and may span several code units
//! (ligatures, surrogate pairs).

use std::collections::BTreeMap;
use vstd::prelude::*;
use crate::text::{char_from_u32, chars_of};
use vstd::std_specs::iter::IteratorSpec;
use vstd::utf8::encode_utf8;

verus! {

// ---------------------------------------------------------------------------
// Byte classes
// ---------------------------------------------------------------------------

/// ASCII `0-9`, `A-F`, `a-f` (`u8::is_ascii_hexdigit`).
pub open spec fn is_hex_digit(b: u8) -> bool {
    (0x30 <= b <= 0x39) || (0x41 <= b <= 0x46) || (0x61 <= b <= 0x66)
}

/// ASCII letters (`u8::is_ascii_alphabetic`).
pub open spec fn is_alpha(b: u8) -> bool {
    (0x41 <= b <= 0x5A) || (0x61 <= b <= 0x7A)
}

/// Bytes that continue a bare keyword: ASCII letters, digits and `.`.
pub open spec fn is_word_byte(b: u8) -> bool {
    is_alpha(b) || (0x30 <= b <= 0x39) || b == 0x2E
}

fn hex_digit_byte(b: u8) -> (r: bool)
    ensures
        r == is_hex_digit(b),
{
    (0x30 <= b && b <= 0x39) || (0x41 <= b && b <= 0x46) || (0x61 <= b && b <= 0x66)
}

fn alpha_byte(b: u8) -> (r: bool)
    ensures
        r == is_alpha(b),
{
    (0x41 <= b && b <= 0x5A) || (0x61 <= b && b <= 0x7A)
}

fn word_byte(b: u8) -> (r: bool)
    ensures
        r == is_word_byte(b),
{
    alpha_byte(b) || (0x30 <= b && b <= 0x39) || b == 0x2E
}

// ---------------------------------------------------------------------------
// Tokens
// ---------------------------------------------------------------------------

/// A CMap token: a `<hex>` string (only its hex digits kept), a bare keyword,
/// or an array bracket.
pub enum Tok {
    Hex(String),
    Kw(String),
    LBracket,
    RBracket,
}

/// The mathematical value of a [`Tok`].
pub enum SpecTok {
    Hex(Seq<char>),
    Kw(Seq<char>),
    LBracket,
    RBracket,
}

impl View for Tok {
    type V = SpecTok;

    open spec fn view(&self) -> SpecTok {
        match self {
            Tok::Hex(s) => SpecTok::Hex(s@),
            Tok::Kw(s) => SpecTok::Kw(s@),
            Tok::LBracket => SpecTok::LBracket,
            Tok::RBracket => SpecTok::RBracket,
        }
    }
}

pub open spec fn toks_view(t: Seq<Tok>) -> Seq<SpecTok> {
    t.map_values(|x: Tok| x@)
}

/// Index of the first `>` at or after `j`, or the end of the input.
pub open spec fn hex_close(bytes: Seq<u8>, j: int) -> int
    decreases bytes.len() - j,
{
    if j >= bytes.len() {
        bytes.len() as int
    } else if bytes[j] == 0x3E {
        j
    } else {
        hex_close(bytes, j + 1)
    }
}

/// Index of the first non-keyword byte at or after `j`, or the end of the input.
pub open spec fn word_end(bytes: Seq<u8>, j: int) -> int
    decreases bytes.len() - j,
{
    if j >= bytes.len() {
        bytes.len() as int
    } else if !is_word_byte(bytes[j]) {
        j
    } else {
        word_end(bytes, j + 1)
    }
}

/// The hex digits of `s`, in order, as characters (everything else dropped).
pub open spec fn keep_hex_digits(s: Seq<u8>) -> Seq<char>
    decreases s.len(),
{
    if s.len() == 0 {
        seq![]
    } else {
        keep_hex_digits(s.drop_last()) + if is_hex_digit(s.last()) {
            seq![s.last() as char]
        } else {
            seq![]
        }
    }
}

/// ASCII bytes read as characters.
pub open spec fn ascii_text(s: Seq<u8>) -> Seq<char> {
    s.map_values(|b: u8| b as char)
}

pub proof fn lemma_hex_close_bounds(bytes: Seq<u8>, j: int)
    requires
        0 <= j <= bytes.len(),
    ensures
        j <= hex_close(bytes, j) <= bytes.len(),
    decreases bytes.len() - j,
{
    if j < bytes.len() && bytes[j] != 0x3E {
        lemma_hex_close_bounds(bytes, j + 1);
    }
}

pub proof fn lemma_word_end_bounds(bytes: Seq<u8>, j: int)
    requires
        0 <= j <= bytes.len(),
    ensures
        j <= word_end(bytes, j) <= bytes.len(),
    decreases bytes.len() - j,
{
    if j < bytes.len() && is_word_byte(bytes[j]) {
        lemma_word_end_bounds(bytes, j + 1);
    }
}

/// The tokens of `bytes` from position `i` on: `<...>` hex strings, `[`, `]`
/// and keywords starting with a letter; every other byte (whitespace,
/// numbers, names, comments) is skipped.
pub open spec fn scan_from(bytes: Seq<u8>, i: int) -> Seq<SpecTok>
    decreases bytes.len() + 1 - i,
{
    if i < 0 || i >= bytes.len() {
        seq![]
    } else {
        let b = bytes[i];
        if b == 0x3C {
            proof {
                lemma_hex_close_bounds(bytes, i + 1);
            }
            let e = hex_close(bytes, i + 1);
            seq![SpecTok::Hex(keep_hex_digits(bytes.subrange(i + 1, e)))] + scan_from(bytes, e + 1)
        } else if b == 0x5B {
            seq![SpecTok::LBracket] + scan_from(bytes, i + 1)
        } else if b == 0x5D {
            seq![SpecTok::RBracket] + scan_from(bytes, i + 1)
        } else if is_alpha(b) {
            proof {
                lemma_word_end_bounds(bytes, i + 1);
            }
            let e = word_end(bytes, i + 1);
            seq![SpecTok::Kw(ascii_text(bytes.subrange(i, e)))] + scan_from(bytes, e)
        } else {
            scan_from(bytes, i + 1)
        }
    }
}

/// Tokenize CMap text into hex strings, brackets, and bare keywords.
pub fn scan(bytes: &[u8]) -> (toks: Vec<Tok>)
    ensures
        toks_view(toks@) == scan_from(bytes@, 0),
{
    let mut toks: Vec<Tok> = Vec::new();
    let mut i: usize = 0;
    let n = bytes.len();
    while i < n
        invariant
            n == bytes@.len(),
            i <= n,
            toks_view(toks@) + scan_from(bytes@, i as int) == scan_from(bytes@, 0),
        decreases n - i,
    {
        let ghost old_toks = toks@;
        let ghost old_i = i as int;
        let b = bytes[i];
        if b == 0x3C {
            let mut hex = String::new();
            i += 1;
            let start = i;
            proof {
                lemma_hex_close_bounds(bytes@, start as int);
            }
            while i < n && bytes[i] != 0x3E
                invariant
                    n == bytes@.len(),
                    start <= i <= n,
                    hex_close(bytes@, start as int) == hex_close(bytes@, i as int),
                    hex@ == keep_hex_digits(bytes@.subrange(start as int, i as int)),
                decreases n - i,
            {
                let c = bytes[i];
                proof {
                    assert(bytes@.subrange(start as int, i + 1).drop_last() =~= bytes@.subrange(
                        start as int,
                        i as int,
                    ));
                }
                if hex_digit_byte(c) {
                    hex.push(c as char);
                }
                i += 1;
            }
            assert(hex_close(bytes@, start as int) == i);
            toks.push(Tok::Hex(hex));
            if i < n {
                i += 1;  // consume '>'
            }
            proof {
                assert(toks_view(toks@) =~= toks_view(old_toks).push(SpecTok::Hex(hex@)));
                assert(scan_from(bytes@, old_i) == seq![SpecTok::Hex(hex@)] + scan_from(
                    bytes@,
                    hex_close(bytes@, start as int) + 1,
                ));
                assert(scan_from(bytes@, hex_close(bytes@, start as int) + 1) == scan_from(
                    bytes@,
                    i as int,
                ));
            }
        } else if b == 0x5B {
            toks.push(Tok::LBracket);
            i += 1;
            proof {
                assert(toks_view(toks@) =~= toks_view(old_toks).push(SpecTok::LBracket));
            }
        } else if b == 0x5D {
            toks.push(Tok::RBracket);
            i += 1;
            proof {
                assert(toks_view(toks@) =~= toks_view(old_toks).push(SpecTok::RBracket));
            }
        } else if alpha_byte(b) {
            let start = i;
            let mut word = String::new();
            word.push(b as char);
            i += 1;
            proof {
                lemma_word_end_bounds(bytes@, (start + 1) as int);
                assert(ascii_text(bytes@.subrange(start as int, i as int)) =~= seq![b as char]);
            }
            while i < n && word_byte(bytes[i])
                invariant
                    n == bytes@.len(),
                    start < i <= n,
                    word_end(bytes@, start + 1) == word_end(bytes@, i as int),
                    word@ == ascii_text(bytes@.subrange(start as int, i as int)),
                decreases n - i,
            {
                let c = bytes[i];
                word.push(c as char);
                i += 1;
                proof {
                    assert(ascii_text(bytes@.subrange(start as int, i as int)) =~= ascii_text(
                        bytes@.subrange(start as int, i - 1),
                    ).push(c as char));
                }
            }
            assert(word_end(bytes@, start + 1) == i);
            toks.push(Tok::Kw(word));
            proof {
                assert(toks_view(toks@) =~= toks_view(old_toks).push(SpecTok::Kw(word@)));
            }
        } else {
            i += 1;
        }
        proof {
            assert(toks_view(toks@) + scan_from(bytes@, i as int) =~= toks_view(old_toks)
                + scan_from(bytes@, old_i));
        }
    }
    assert(toks_view(toks@) =~= toks_view(toks@) + scan_from(bytes@, i as int));
    toks
}

// ---------------------------------------------------------------------------
// Hex numbers (`from_str_radix(_, 16)` semantics)
// ---------------------------------------------------------------------------

pub open spec fn hex_digit_value(b: u8) -> int {
    if b <= 0x39 {
        b - 0x30
    } else if b <= 0x46 {
        b - 0x41 + 10
    } else {
        b - 0x61 + 10
    }
}

/// The value of a run of hex digits, most significant first.
pub open spec fn hex_value(s: Seq<u8>) -> int
    decreases s.len(),
{
    if s.len() == 0 {
        0
    } else {
        hex_value(s.drop_last()) * 16 + hex_digit_value(s.last())
    }
}

pub open spec fn all_hex(s: Seq<u8>) -> bool {
    forall|i: int| 0 <= i < s.len() ==> is_hex_digit(#[trigger] s[i])
}

/// `from_str_radix(s, 16)` for an unsigned integer type whose maximum is
/// `max`, read on the bytes `s`: one optional leading `+`, then at least one
/// hex digit and nothing else, with a value that fits.
pub open spec fn radix16(s: Seq<u8>, max: int) -> Option<int> {
    let digits = if s.len() > 0 && s[0] == 0x2B {
        s.drop_first()
    } else {
        s
    };
    if digits.len() > 0 && all_hex(digits) && hex_value(digits) <= max {
        Some(hex_value(digits))
    } else {
        None
    }
}

/// `u32::from_str_radix(text, 16).unwrap_or(0)`.
pub open spec fn hex_u32_of(text: Seq<char>) -> u32 {
    match radix16(encode_utf8(text), 0xFFFF_FFFF) {
        Some(v) => v as u32,
        None => 0,
    }
}

pub proof fn lemma_hex_value_nonneg(s: Seq<u8>)
    requires
        all_hex(s),
    ensures
        hex_value(s) >= 0,
    decreases s.len(),
{
    if s.len() > 0 {
        lemma_hex_value_nonneg(s.drop_last());
    }
}

/// A longer run of hex digits is worth at least as much as its prefix.
pub proof fn lemma_hex_value_prefix(s: Seq<u8>, k: int)
    requires
        all_hex(s),
        0 <= k <= s.len(),
    ensures
        hex_value(s.subrange(0, k)) <= hex_value(s),
    decreases s.len() - k,
{
    if k < s.len() {
        lemma_hex_value_prefix(s, k + 1);
        let p = s.subrange(0, k + 1);
        assert(p.drop_last() =~= s.subrange(0, k));
        assert(all_hex(p.drop_last()));
        lemma_hex_value_nonneg(p.drop_last());
    } else {
        assert(s.subrange(0, k) =~= s);
    }
}

/// `from_str_radix(bytes[start..end], 16)` for a type whose maximum is `max`.
pub(crate) fn parse_radix16(bytes: &[u8], start: usize, end: usize, max: u64) -> (r: Option<u64>)
    requires
        start <= end <= bytes@.len(),
        max <= 0xFFFF_FFFF,
    ensures
        match radix16(bytes@.subrange(start as int, end as int), max as int) {
            Some(v) => 0 <= v <= max && r == Some(v as u64),
            None => r is None,
        },
{
    let ghost s = bytes@.subrange(start as int, end as int);
    let mut i = start;
    if i < end && bytes[i] == 0x2B {
        i += 1;
    }
    let ghost digits = bytes@.subrange(i as int, end as int);
    assert(digits =~= if s.len() > 0 && s[0] == 0x2B { s.drop_first() } else { s });
    if i == end {
        return None;
    }
    let d0 = i;
    let mut acc: u64 = 0;
    while i < end
        invariant
            start <= d0 <= i <= end <= bytes@.len(),
            max <= 0xFFFF_FFFF,
            digits == bytes@.subrange(d0 as int, end as int),
            s == bytes@.subrange(start as int, end as int),
            radix16(s, max as int) == (if digits.len() > 0 && all_hex(digits) && hex_value(digits)
                <= max {
                Some(hex_value(digits))
            } else {
                None
            }),
            all_hex(bytes@.subrange(d0 as int, i as int)),
            acc == hex_value(bytes@.subrange(d0 as int, i as int)),
            acc <= max,
        decreases end - i,
    {
        let c = bytes[i];
        let ghost pre = bytes@.subrange(d0 as int, i as int);
        let ghost next = bytes@.subrange(d0 as int, i + 1);
        assert(next.drop_last() =~= pre);
        assert(digits[i - d0] == c);
        if !hex_digit_byte(c) {
            assert(!all_hex(digits));
            return None;
        }
        let d: u64 = if c <= 0x39 {
            (c - 0x30) as u64
        } else if c <= 0x46 {
            (c - 0x41 + 10) as u64
        } else {
            (c - 0x61 + 10) as u64
        };
        let v = acc * 16 + d;
        assert(v == hex_value(next));
        assert(all_hex(next)) by {
            assert forall|k: int| 0 <= k < next.len() implies is_hex_digit(#[trigger] next[k]) by {
                if k < pre.len() {
                    assert(next[k] == pre[k]);
                }
            }
        }
        if v > max {
            proof {
                if all_hex(digits) {
                    lemma_hex_value_prefix(digits, (i + 1 - d0) as int);
                    assert(digits.subrange(0, (i + 1 - d0) as int) =~= next);
                }
            }
            return None;
        }
        acc = v;
        i += 1;
    }
    Some(acc)
}

/// The numeric value of a CMap hex string; `0` when it is not a valid `u32`
/// (`u32::from_str_radix(hex, 16).unwrap_or(0)`).
pub fn hex_u32(hex: &str) -> (r: u32)
    ensures
        r == hex_u32_of(hex@),
{
    let b = hex.as_bytes();
    assert(b@.subrange(0, b@.len() as int) =~= b@);
    assert(b@ == encode_utf8(hex@));
    match parse_radix16(b, 0, b.len(), 0xFFFF_FFFF) {
        Some(v) => {
            assert(b@.subrange(0, b@.len() as int) =~= b@);
            v as u32
        },
        None => {
            assert(b@.subrange(0, b@.len() as int) =~= b@);
            0
        },
    }
}

// ---------------------------------------------------------------------------
// UTF-16BE destinations
// ---------------------------------------------------------------------------

/// The UTF-16 code units of a hex byte string, read four bytes at a time; a
/// group that is not a valid `u16` hex number is skipped.
pub open spec fn chunk_units(b: Seq<u8>) -> Seq<u16>
    decreases b.len(),
{
    if b.len() == 0 {
        seq![]
    } else {
        let n = if b.len() < 4 {
            b.len() as int
        } else {
            4
        };
        (match radix16(b.take(n), 0xFFFF) {
            Some(v) => seq![v as u16],
            None => seq![],
        }) + chunk_units(b.skip(n))
    }
}

/// The code units that `utf16be_units` reads from `text`.
pub open spec fn units_of(text: Seq<char>) -> Seq<u16> {
    chunk_units(encode_utf8(text))
}

pub open spec fn is_high_surrogate(u: u16) -> bool {
    0xD800 <= u <= 0xDBFF
}

pub open spec fn is_low_surrogate(u: u16) -> bool {
    0xDC00 <= u <= 0xDFFF
}

pub open spec fn is_surrogate(u: u16) -> bool {
    0xD800 <= u <= 0xDFFF
}

/// The code point of a surrogate pair.
pub open spec fn pair_code_point(hi: u16, lo: u16) -> int {
    0x10000 + (hi - 0xD800) * 1024 + (lo - 0xDC00)
}

/// Lossy UTF-16 decoding (`String::from_utf16_lossy`): surrogate pairs
/// combine, every unpaired surrogate becomes U+FFFD, other units stand for
/// themselves.
pub open spec fn utf16_lossy(u: Seq<u16>) -> Seq<char>
    decreases u.len(),
{
    if u.len() == 0 {
        seq![]
    } else if u.len() >= 2 && is_high_surrogate(u[0]) && is_low_surrogate(u[1]) {
        seq![pair_code_point(u[0], u[1]) as char] + utf16_lossy(u.skip(2))
    } else if is_surrogate(u[0]) {
        seq!['\u{FFFD}'] + utf16_lossy(u.skip(1))
    } else {
        seq![u[0] as char] + utf16_lossy(u.skip(1))
    }
}

/// The UTF-16 code units written as hex in `hex`, four digits per unit.
pub fn utf16be_units(hex: &str) -> (r: Vec<u16>)
    ensures
        r@ == units_of(hex@),
{
    let b = hex.as_bytes();
    let n = b.len();
    let mut out: Vec<u16> = Vec::new();
    let mut pos: usize = 0;
    assert(b@.skip(0) =~= b@);
    while pos < n
        invariant
            n == b@.len(),
            b@ == encode_utf8(hex@),
            pos <= n,
            out@ + chunk_units(b@.skip(pos as int)) == chunk_units(b@),
        decreases n - pos,
    {
        let len = if n - pos < 4 {
            n - pos
        } else {
            4
        };
        let ghost rest = b@.skip(pos as int);
        assert(rest.take(len as int) =~= b@.subrange(pos as int, pos + len));
        assert(rest.skip(len as int) =~= b@.skip(pos + len));
        let ghost old_out = out@;
        match parse_radix16(b, pos, pos + len, 0xFFFF) {
            Some(v) => {
                out.push(v as u16);
                assert(out@ =~= old_out + seq![v as u16]);
            },
            None => {
                assert(out@ =~= old_out + seq![]);
            },
        }
        pos += len;
        proof {
            assert(out@ + chunk_units(b@.skip(pos as int)) =~= old_out + chunk_units(rest));
        }
    }
    assert(b@.skip(n as int) =~= Seq::<u8>::empty());
    assert(out@ + chunk_units(b@.skip(n as int)) =~= out@);
    out
}

/// Decode UTF-16 code units, replacing unpaired surrogates with U+FFFD.
pub fn utf16_to_string(units: &[u16]) -> (r: String)
    ensures
        r@ == utf16_lossy(units@),
{
    let n = units.len();
    let mut out = String::new();
    let mut i: usize = 0;
    assert(units@.skip(0) =~= units@);
    while i < n
        invariant
            n == units@.len(),
            i <= n,
            out@ + utf16_lossy(units@.skip(i as int)) == utf16_lossy(units@),
        decreases n - i,
    {
        let ghost rest = units@.skip(i as int);
        let ghost old_out = out@;
        let u = units[i];
        assert(rest[0] == u);
        if 0xD800 <= u && u <= 0xDBFF && i + 1 < n && 0xDC00 <= units[i + 1] && units[i + 1] <= 0xDFFF {
            let lo = units[i + 1];
            assert(rest[1] == lo);
            let cp: u32 = 0x10000 + ((u - 0xD800) as u32) * 1024 + ((lo - 0xDC00) as u32);
            assert(cp == pair_code_point(u, lo));
            let c = char_from_u32(cp);
            match c {
                Some(c) => out.push(c),
                None => {
                    assert(false);
                },
            }
            assert(rest.skip(2) =~= units@.skip(i + 2));
            i += 2;
        } else if 0xD800 <= u && u <= 0xDFFF {
            out.push('\u{FFFD}');
            assert(rest.skip(1) =~= units@.skip(i + 1));
            i += 1;
        } else {
            let c = char_from_u32(u as u32);
            match c {
                Some(c) => out.push(c),
                None => {
                    assert(false);
                },
            }
            assert(rest.skip(1) =~= units@.skip(i + 1));
            i += 1;
        }
        proof {
            assert(out@ + utf16_lossy(units@.skip(i as int)) =~= old_out + utf16_lossy(rest));
        }
    }
    assert(units@.skip(n as int) =~= Seq::<u16>::empty());
    assert(out@ + utf16_lossy(units@.skip(n as int)) =~= out@);
    out
}

/// The text of a UTF-16BE hex destination (`String::from_utf16_lossy` of its
/// code units).
pub fn utf16be(hex: &str) -> (r: String)
    ensures
        r@ == utf16_lossy(units_of(hex@)),
{
    let units = utf16be_units(hex);
    utf16_to_string(units.as_slice())
}

/// `base` with `offset` added (wrapping) to its last code unit.
pub open spec fn bump_last_unit(base: Seq<u16>, offset: u32) -> Seq<u16> {
    if base.len() == 0 {
        base
    } else {
        base.update(base.len() - 1, ((base.last() + (offset % 0x10000)) % 0x10000) as u16)
    }
}

/// Add `offset` to the last UTF-16 unit (bfrange incremental destinations).
pub fn incremented(base: &[u16], offset: u32) -> (r: String)
    ensures
        r@ == utf16_lossy(bump_last_unit(base@, offset)),
{
    let mut units: Vec<u16> = Vec::new();
    let mut i: usize = 0;
    while i < base.len()
        invariant
            i <= base@.len(),
            units@ == base@.subrange(0, i as int),
        decreases base@.len() - i,
    {
        units.push(base[i]);
        i += 1;
        assert(units@ =~= base@.subrange(0, i as int));
    }
    assert(units@ =~= base@);
    let n = units.len();
    if n > 0 {
        let last = units[n - 1];
        let add = (offset % 0x10000) as u16;
        let bumped = last.wrapping_add(add);
        assert(bumped == ((last + (offset % 0x10000)) % 0x10000) as u16) by {
            assert(bumped as int == if last + add > u16::MAX { last + add - 65536 } else { last + add });
        }
        units.set(n - 1, bumped);
    }
    assert(units@ =~= bump_last_unit(base@, offset));
    utf16_to_string(units.as_slice())
}

// ---------------------------------------------------------------------------
// Control-character repair
// ---------------------------------------------------------------------------

/// C0 control characters other than `\t` and `\n`, and DEL.
pub open spec fn is_unusable(c: char) -> bool {
    let v = c as u32;
    v <= 8 || (0x0B <= v <= 0x1F) || v == 0x7F
}

pub open spec fn has_unusable(s: Seq<char>) -> bool {
    exists|i: int| 0 <= i < s.len() && is_unusable(#[trigger] s[i])
}

/// `s` without its unusable control characters.
pub open spec fn strip_unusable(s: Seq<char>) -> Seq<char>
    decreases s.len(),
{
    if s.len() == 0 {
        seq![]
    } else {
        strip_unusable(s.drop_last()) + if is_unusable(s.last()) {
            seq![]
        } else {
            seq![s.last()]
        }
    }
}

/// The repaired form of one destination: unchanged when it holds no unusable
/// control character; otherwise stripped of them, and a single space when
/// nothing printable is left.
pub open spec fn repair_destination(s: Seq<char>) -> Seq<char> {
    if !has_unusable(s) {
        s
    } else if strip_unusable(s).len() == 0 {
        seq![' ']
    } else {
        strip_unusable(s)
    }
}

pub open spec fn repaired(m: Map<u32, Seq<char>>) -> Map<u32, Seq<char>> {
    m.map_values(|s: Seq<char>| repair_destination(s))
}

/// The text view of a code-to-text map.
pub open spec fn text_map(m: Map<u32, String>) -> Map<u32, Seq<char>> {
    m.map_values(|s: String| s@)
}

pub proof fn lemma_strip_has_no_unusable(s: Seq<char>)
    ensures
        !has_unusable(strip_unusable(s)),
    decreases s.len(),
{
    if s.len() > 0 {
        lemma_strip_has_no_unusable(s.drop_last());
        let p = strip_unusable(s.drop_last());
        let t = strip_unusable(s);
        assert forall|i: int| 0 <= i < t.len() implies !is_unusable(#[trigger] t[i]) by {
            if i < p.len() {
                assert(t[i] == p[i]);
                assert(!is_unusable(p[i]));
            }
        }
    }
}

/// A repaired destination never holds an unusable control character.
pub proof fn lemma_repair_clean(s: Seq<char>)
    ensures
        !has_unusable(repair_destination(s)),
{
    lemma_strip_has_no_unusable(s);
    if has_unusable(s) && strip_unusable(s).len() == 0 {
        let t = seq![' '];
        assert(forall|i: int| 0 <= i < t.len() ==> t[i] == ' ');
    }
}

/// Whether `c` is a control character that no consumer can use: C0 controls
/// except `\t` and `\n`, and DEL.
pub fn is_unusable_control(c: char) -> (r: bool)
    ensures
        r == is_unusable(c),
{
    let v = c as u32;
    v <= 8 || (0x0B <= v && v <= 0x1F) || v == 0x7F
}

/// The repaired form of one destination (see [`repair_destination`]).
fn repair_text(dst: &str) -> (r: String)
    ensures
        r@ == repair_destination(dst@),
{
    let cs = chars_of(dst);
    let n = cs.len();
    let mut out = String::new();
    let mut found = false;
    let mut i: usize = 0;
    while i < n
        invariant
            n == dst@.len(),
            cs@ == dst@,
            i <= n,
            out@ == strip_unusable(dst@.subrange(0, i as int)),
            found == has_unusable(dst@.subrange(0, i as int)),
        decreases n - i,
    {
        let c = cs[i];
        let ghost pre = dst@.subrange(0, i as int);
        let ghost next = dst@.subrange(0, i + 1);
        assert(next.drop_last() =~= pre);
        assert(next.last() == c);
        if is_unusable_control(c) {
            found = true;
            assert(next[i as int] == c);
        } else {
            out.push(c);
            assert(!has_unusable(pre) ==> !has_unusable(next)) by {
                if !has_unusable(pre) {
                    assert forall|k: int| 0 <= k < next.len() implies !is_unusable(#[trigger] next[k]) by {
                        if k < pre.len() {
                            assert(next[k] == pre[k]);
                        }
                    }
                }
            }
        }
        proof {
            if has_unusable(pre) {
                let k = choose|k: int| 0 <= k < pre.len() && is_unusable(#[trigger] pre[k]);
                assert(next[k] == pre[k]);
            }
        }
        i += 1;
    }
    assert(dst@.subrange(0, n as int) =~= dst@);
    if !found {
        return String::from_str(dst);
    }
    if out.as_str().is_empty() {
        let mut space = String::new();
        space.push(' ');
        assert(space@ =~= seq![' ']);
        return space;
    }
    out
}

/// The codes of a code-to-text map, each once.
pub(crate) fn map_codes(map: &BTreeMap<u32, String>) -> (keys: Vec<u32>)
    ensures
        keys@.to_set() == map@.dom(),
        keys@.no_duplicates(),
{
    broadcast use vstd::std_specs::btree::axiom_spec_keys_iter;

    let ghost full: Seq<u32> = vstd::std_specs::btree::spec_keys_iter(map).remaining().unref();
    assert(full.to_set() =~= map@.dom());
    assert(full.no_duplicates());
    let mut keys: Vec<u32> = Vec::new();
    for k in it: map.keys()
        invariant
            it.seq().unref() == full,
            keys@ == full.take(it.index()),
    {
        keys.push(*k);
        proof {
            assert(keys@ =~= full.take(it.index() + 1));
        }
    }
    assert(keys@ =~= full);
    assert(keys@.no_duplicates());
    keys
}

/// Repair `/ToUnicode` destinations that contain control characters: a
/// destination made only of them becomes a single space, one that mixes them
/// with printable text keeps only the printable part, and `\t` / `\n` are
/// kept.
pub fn repair_control_destinations(map: &mut BTreeMap<u32, String>)
    ensures
        text_map(final(map)@) == repaired(text_map(old(map)@)),
{
    let ghost m0 = map@;
    let keys = map_codes(map);
    let n = keys.len();
    let mut idx: usize = 0;
    while idx < n
        invariant
            n == keys@.len(),
            idx <= n,
            keys@.to_set() == m0.dom(),
            keys@.no_duplicates(),
            map@.dom() == m0.dom(),
            forall|k: u32|
                #![trigger map@[k]]
                m0.contains_key(k) ==> (if keys@.subrange(0, idx as int).contains(k) {
                    map@[k]@ == repair_destination(m0[k]@)
                } else {
                    map@[k] == m0[k]
                }),
        decreases n - idx,
    {
        let k = keys[idx];
        assert(m0.dom().contains(k)) by {
            assert(keys@.contains(k));
        }
        let fixed = match map.get(&k) {
            Some(v) => repair_text(v.as_str()),
            None => {
                assert(false);
                String::new()
            },
        };
        let ghost before = map@;
        map.insert(k, fixed);
        proof {
            assert forall|j: u32| #![trigger map@[j]] m0.contains_key(j) implies (if keys@.subrange(
                0,
                idx + 1,
            ).contains(j) {
                map@[j]@ == repair_destination(m0[j]@)
            } else {
                map@[j] == m0[j]
            }) by {
                if j == k {
                    assert(keys@.subrange(0, idx + 1)[idx as int] == k);
                    assert(!keys@.subrange(0, idx as int).contains(k)) by {
                        if keys@.subrange(0, idx as int).contains(k) {
                            let p = choose|p: int|
                                0 <= p < idx && #[trigger] keys@.subrange(0, idx as int)[p] == k;
                            assert(keys@[p] == keys@[idx as int]);
                        }
                    }
                } else {
                    if keys@.subrange(0, idx + 1).contains(j) {
                        let p = choose|p: int|
                            0 <= p < idx + 1 && #[trigger] keys@.subrange(0, idx + 1)[p] == j;
                        assert(p != idx);
                        assert(keys@.subrange(0, idx as int)[p] == j);
                    }
                    if keys@.subrange(0, idx as int).contains(j) {
                        let p = choose|p: int|
                            0 <= p < idx && #[trigger] keys@.subrange(0, idx as int)[p] == j;
                        assert(keys@.subrange(0, idx + 1)[p] == j);
                    }
                }
            }
        }
        idx += 1;
    }
    proof {
        assert(keys@.subrange(0, n as int) =~= keys@);
        assert forall|k: u32| m0.contains_key(k) implies keys@.contains(k) by {
            assert(keys@.to_set().contains(k));
        }
        assert(text_map(map@) =~= repaired(text_map(m0)));
    }
}

// ---------------------------------------------------------------------------
// bfchar / bfrange sections
// ---------------------------------------------------------------------------

/// Whether two strings hold the same characters.
pub fn same_text(a: &str, b: &str) -> (r: bool)
    ensures
        r == (a@ == b@),
{
    let ca = chars_of(a);
    let cb = chars_of(b);
    let n = ca.len();
    if n != cb.len() {
        return false;
    }
    let mut i: usize = 0;
    while i < n
        invariant
            n == a@.len() == b@.len(),
            ca@ == a@,
            cb@ == b@,
            i <= n,
            forall|k: int| 0 <= k < i ==> a@[k] == b@[k],
        decreases n - i,
    {
        if ca[i] != cb[i] {
            return false;
        }
        i += 1;
    }
    assert(a@ =~= b@);
    true
}

/// The `bfchar` section from token `i` on: `<src> <dst>` pairs until
/// `endbfchar`. Yields the updated map and the index after the section.
pub open spec fn bfchar_from(toks: Seq<SpecTok>, i: int, m: Map<u32, Seq<char>>) -> (Map<
    u32,
    Seq<char>,
>, int)
    decreases toks.len() - i,
{
    if i < 0 || i >= toks.len() {
        (m, i)
    } else {
        match toks[i] {
            SpecTok::Kw(k) => if k == "endbfchar"@ {
                (m, i + 1)
            } else {
                bfchar_from(toks, i + 1, m)
            },
            SpecTok::Hex(src) => if i + 1 < toks.len() {
                match toks[i + 1] {
                    SpecTok::Hex(dst) => bfchar_from(
                        toks,
                        i + 2,
                        m.insert(hex_u32_of(src), utf16_lossy(units_of(dst))),
                    ),
                    _ => bfchar_from(toks, i + 1, m),
                }
            } else {
                bfchar_from(toks, i + 1, m)
            },
            _ => bfchar_from(toks, i + 1, m),
        }
    }
}

/// Codes `lo..=upto` of an incremental `bfrange` entry: code `c` maps to
/// `base` with `c - lo` added to its last unit.
pub open spec fn range_entries(lo: u32, upto: int, base: Seq<u16>) -> Map<u32, Seq<char>> {
    Map::new(
        |c: u32| lo <= c <= upto,
        |c: u32| utf16_lossy(bump_last_unit(base, (c - lo) as u32)),
    )
}

/// The `[ <dst> ... ]` form of a `bfrange` entry from token `j` on: the
/// `k`-th destination maps code `code + k`, up to `hi`; extra destinations
/// are skipped. Yields the updated map and the index after `]`.
pub open spec fn array_from(
    toks: Seq<SpecTok>,
    j: int,
    code: int,
    hi: u32,
    m: Map<u32, Seq<char>>,
) -> (Map<u32, Seq<char>>, int)
    decreases toks.len() - j,
{
    if j < 0 || j >= toks.len() {
        (m, j)
    } else {
        match toks[j] {
            SpecTok::RBracket => (m, j + 1),
            SpecTok::Hex(dst) => array_from(
                toks,
                j + 1,
                code + 1,
                hi,
                if code <= hi {
                    m.insert(code as u32, utf16_lossy(units_of(dst)))
                } else {
                    m
                },
            ),
            _ => array_from(toks, j + 1, code, hi, m),
        }
    }
}

pub proof fn lemma_array_from_index(toks: Seq<SpecTok>, j: int, code: int, hi: u32, m: Map<u32, Seq<char>>)
    requires
        0 <= j <= toks.len(),
    ensures
        j <= array_from(toks, j, code, hi, m).1 <= toks.len(),
    decreases toks.len() - j,
{
    if j < toks.len() {
        match toks[j] {
            SpecTok::RBracket => {},
            SpecTok::Hex(dst) => lemma_array_from_index(
                toks,
                j + 1,
                code + 1,
                hi,
                if code <= hi {
                    m.insert(code as u32, utf16_lossy(units_of(dst)))
                } else {
                    m
                },
            ),
            _ => lemma_array_from_index(toks, j + 1, code, hi, m),
        }
    }
}

/// The `bfrange` section from token `i` on: `<lo> <hi> <dst>` (incremental)
/// or `<lo> <hi> [ <dst> ... ]` entries until `endbfrange`. An entry whose
/// `<hi>` is missing ends the section.
pub open spec fn bfrange_from(toks: Seq<SpecTok>, i: int, m: Map<u32, Seq<char>>) -> (Map<
    u32,
    Seq<char>,
>, int)
    decreases toks.len() - i,
{
    if i < 0 || i >= toks.len() {
        (m, i)
    } else {
        match toks[i] {
            SpecTok::Kw(k) => if k == "endbfrange"@ {
                (m, i + 1)
            } else {
                bfrange_from(toks, i + 1, m)
            },
            SpecTok::Hex(lo_text) => {
                let lo = hex_u32_of(lo_text);
                if i + 1 < toks.len() && toks[i + 1] is Hex {
                    let hi = match toks[i + 1] {
                        SpecTok::Hex(t) => hex_u32_of(t),
                        _ => 0,
                    };
                    if i + 2 < toks.len() {
                        match toks[i + 2] {
                            SpecTok::Hex(dst) => bfrange_from(
                                toks,
                                i + 3,
                                m.union_prefer_right(range_entries(lo, hi as int, units_of(dst))),
                            ),
                            SpecTok::LBracket => {
                                proof {
                                    lemma_array_from_index(toks, i + 3, lo as int, hi, m);
                                }
                                let (m2, j) = array_from(toks, i + 3, lo as int, hi, m);
                                bfrange_from(toks, j, m2)
                            },
                            _ => bfrange_from(toks, i + 2, m),
                        }
                    } else {
                        bfrange_from(toks, i + 2, m)
                    }
                } else {
                    (m, i + 1)
                }
            },
            _ => bfrange_from(toks, i + 1, m),
        }
    }
}

pub proof fn lemma_bfchar_from_index(toks: Seq<SpecTok>, i: int, m: Map<u32, Seq<char>>)
    requires
        0 <= i <= toks.len(),
    ensures
        i <= bfchar_from(toks, i, m).1 <= toks.len(),
    decreases toks.len() - i,
{
    if i < toks.len() {
        match toks[i] {
            SpecTok::Kw(k) => {
                if k != "endbfchar"@ {
                    lemma_bfchar_from_index(toks, i + 1, m);
                }
            },
            SpecTok::Hex(src) => {
                if i + 1 < toks.len() {
                    match toks[i + 1] {
                        SpecTok::Hex(dst) => lemma_bfchar_from_index(
                            toks,
                            i + 2,
                            m.insert(hex_u32_of(src), utf16_lossy(units_of(dst))),
                        ),
                        _ => lemma_bfchar_from_index(toks, i + 1, m),
                    }
                } else {
                    lemma_bfchar_from_index(toks, i + 1, m);
                }
            },
            _ => lemma_bfchar_from_index(toks, i + 1, m),
        }
    }
}

pub proof fn lemma_bfrange_from_index(toks: Seq<SpecTok>, i: int, m: Map<u32, Seq<char>>)
    requires
        0 <= i <= toks.len(),
    ensures
        i <= bfrange_from(toks, i, m).1 <= toks.len(),
    decreases toks.len() - i,
{
    if i < toks.len() {
        match toks[i] {
            SpecTok::Kw(k) => {
                if k != "endbfrange"@ {
                    lemma_bfrange_from_index(toks, i + 1, m);
                }
            },
            SpecTok::Hex(lo_text) => {
                let lo = hex_u32_of(lo_text);
                if i + 1 < toks.len() && toks[i + 1] is Hex {
                    let hi = match toks[i + 1] {
                        SpecTok::Hex(t) => hex_u32_of(t),
                        _ => 0,
                    };
                    if i + 2 < toks.len() {
                        match toks[i + 2] {
                            SpecTok::Hex(dst) => lemma_bfrange_from_index(
                                toks,
                                i + 3,
                                m.union_prefer_right(range_entries(lo, hi as int, units_of(dst))),
                            ),
                            SpecTok::LBracket => {
                                lemma_array_from_index(toks, i + 3, lo as int, hi, m);
                                let (m2, j) = array_from(toks, i + 3, lo as int, hi, m);
                                lemma_bfrange_from_index(toks, j, m2);
                            },
                            _ => lemma_bfrange_from_index(toks, i + 2, m),
                        }
                    } else {
                        lemma_bfrange_from_index(toks, i + 2, m);
                    }
                }
            },
            _ => lemma_bfrange_from_index(toks, i + 1, m),
        }
    }
}

/// Every `bfchar` and `bfrange` section of the tokens from `i` on, in order,
/// applied to `m`.
pub open spec fn sections_from(toks: Seq<SpecTok>, i: int, m: Map<u32, Seq<char>>) -> Map<
    u32,
    Seq<char>,
>
    decreases toks.len() - i,
{
    if i < 0 || i >= toks.len() {
        m
    } else {
        match toks[i] {
            SpecTok::Kw(k) => if k == "beginbfchar"@ {
                proof {
                    lemma_bfchar_from_index(toks, i + 1, m);
                }
                let (m2, j) = bfchar_from(toks, i + 1, m);
                sections_from(toks, j, m2)
            } else if k == "beginbfrange"@ {
                proof {
                    lemma_bfrange_from_index(toks, i + 1, m);
                }
                let (m2, j) = bfrange_from(toks, i + 1, m);
                sections_from(toks, j, m2)
            } else {
                sections_from(toks, i + 1, m)
            },
            _ => sections_from(toks, i + 1, m),
        }
    }
}

/// The code-to-text map that a `ToUnicode` CMap defines: every `bfchar` and
/// `bfrange` entry in order (a later entry for a code replaces an earlier
/// one), with control-character destinations repaired.
pub open spec fn to_unicode_map(bytes: Seq<u8>) -> Map<u32, Seq<char>> {
    repaired(sections_from(scan_from(bytes, 0), 0, Map::empty()))
}

/// Parse `<src> <dst>` pairs from token `i` until `endbfchar`; returns the
/// index after the section.
pub fn parse_bfchar(toks: &[Tok], i: usize, map: &mut BTreeMap<u32, String>) -> (r: usize)
    ensures
        (text_map(final(map)@), r as int) == bfchar_from(
            toks_view(toks@),
            i as int,
            text_map(old(map)@),
        ),
{
    let ghost tv = toks_view(toks@);
    let ghost goal = bfchar_from(tv, i as int, text_map(old(map)@));
    let n = toks.len();
    let mut i = i;
    let mut done = false;
    while !done && i < n
        invariant
            n == toks@.len(),
            tv == toks_view(toks@),
            done ==> goal == (text_map(map@), i as int),
            !done ==> bfchar_from(tv, i as int, text_map(map@)) == goal,
        decreases n - i,
    {
        assert(tv[i as int] == toks@[i as int]@);
        match &toks[i] {
            Tok::Kw(k) => {
                assert(tv[i as int] == SpecTok::Kw(k@));
                i += 1;
                if same_text(k.as_str(), "endbfchar") {
                    done = true;
                }
            },
            Tok::Hex(src) => {
                if i + 1 < n {
                    assert(tv[i + 1] == toks@[i + 1]@);
                    match &toks[i + 1] {
                        Tok::Hex(dst) => {
                            let code = hex_u32(src.as_str());
                            let text = utf16be(dst.as_str());
                            let ghost before = map@;
                            map.insert(code, text);
                            assert(text_map(map@) =~= text_map(before).insert(code, text@));
                            i += 2;
                        },
                        _ => {
                            i += 1;
                        },
                    }
                } else {
                    i += 1;
                }
            },
            _ => {
                i += 1;
            },
        }
    }
    i
}

/// Map codes `lo..=hi` to `base` with the code's offset from `lo` added to
/// the last unit.
fn insert_incremental_range(map: &mut BTreeMap<u32, String>, lo: u32, hi: u32, base: &Vec<u16>)
    ensures
        text_map(final(map)@) == text_map(old(map)@).union_prefer_right(
            range_entries(lo, hi as int, base@),
        ),
{
    let ghost m0 = text_map(map@);
    if lo > hi {
        assert(m0.union_prefer_right(range_entries(lo, hi as int, base@)) =~= m0);
        return;
    }
    let mut code = lo;
    assert(m0.union_prefer_right(range_entries(lo, lo - 1, base@)) =~= m0);
    loop
        invariant_except_break
            lo <= code <= hi,
            text_map(map@) == m0.union_prefer_right(range_entries(lo, code - 1, base@)),
        ensures
            text_map(map@) == m0.union_prefer_right(range_entries(lo, hi as int, base@)),
        decreases hi - code,
    {
        let text = incremented(base.as_slice(), code - lo);
        let ghost before = map@;
        map.insert(code, text);
        assert(text_map(map@) =~= text_map(before).insert(code, text@));
        assert(text_map(before).insert(code, text@) =~= m0.union_prefer_right(
            range_entries(lo, code as int, base@),
        ));
        if code == hi {
            break;
        }
        code += 1;
    }
}

/// Parse the `[ <dst> ... ]` destinations of a `bfrange` entry from token
/// `j`; returns the index after `]` (or the end of the tokens).
fn parse_bfrange_array(
    toks: &[Tok],
    j: usize,
    lo: u32,
    hi: u32,
    map: &mut BTreeMap<u32, String>,
) -> (r: usize)
    ensures
        (text_map(final(map)@), r as int) == array_from(
            toks_view(toks@),
            j as int,
            lo as int,
            hi,
            text_map(old(map)@),
        ),
{
    let ghost tv = toks_view(toks@);
    let ghost goal = array_from(tv, j as int, lo as int, hi, text_map(old(map)@));
    let n = toks.len();
    let mut j = j;
    let mut code: u64 = if (lo as u64) <= (hi as u64) + 1 {
        lo as u64
    } else {
        (hi as u64) + 1
    };
    let ghost mut sc: int = lo as int;
    let mut done = false;
    while !done && j < n
        invariant
            n == toks@.len(),
            tv == toks_view(toks@),
            done ==> goal == (text_map(map@), j as int),
            !done ==> array_from(tv, j as int, sc, hi, text_map(map@)) == goal,
            code == if sc <= hi + 1 {
                sc
            } else {
                hi + 1
            },
        decreases n - j,
    {
        assert(tv[j as int] == toks@[j as int]@);
        match &toks[j] {
            Tok::RBracket => {
                assert(tv[j as int] == SpecTok::RBracket);
                j += 1;
                done = true;
            },
            Tok::Hex(dst) => {
                if code <= hi as u64 {
                    let text = utf16be(dst.as_str());
                    let ghost before = map@;
                    map.insert(code as u32, text);
                    assert(text_map(map@) =~= text_map(before).insert(code as u32, text@));
                    code += 1;
                }
                proof {
                    sc = sc + 1;
                }
                j += 1;
            },
            _ => {
                j += 1;
            },
        }
    }
    j
}

/// Parse `<lo> <hi> <dst>` and `<lo> <hi> [ <dst> ... ]` entries from token
/// `i` until `endbfrange`; returns the index after the section.
pub fn parse_bfrange(toks: &[Tok], i: usize, map: &mut BTreeMap<u32, String>) -> (r: usize)
    ensures
        (text_map(final(map)@), r as int) == bfrange_from(
            toks_view(toks@),
            i as int,
            text_map(old(map)@),
        ),
{
    let ghost tv = toks_view(toks@);
    let ghost goal = bfrange_from(tv, i as int, text_map(old(map)@));
    let n = toks.len();
    let mut i = i;
    let mut done = false;
    while !done && i < n
        invariant
            n == toks@.len(),
            tv == toks_view(toks@),
            done ==> goal == (text_map(map@), i as int),
            !done ==> bfrange_from(tv, i as int, text_map(map@)) == goal,
        decreases n - i,
    {
        assert(tv[i as int] == toks@[i as int]@);
        match &toks[i] {
            Tok::Kw(k) => {
                assert(tv[i as int] == SpecTok::Kw(k@));
                i += 1;
                if same_text(k.as_str(), "endbfrange") {
                    done = true;
                }
            },
            Tok::Hex(lo_text) => {
                let lo = hex_u32(lo_text.as_str());
                let mut hi: u32 = 0;
                if i + 1 < n {
                    assert(tv[i + 1] == toks@[i + 1]@);
                    match &toks[i + 1] {
                        Tok::Hex(h) => {
                            hi = hex_u32(h.as_str());
                        },
                        _ => {
                            done = true;
                        },
                    }
                } else {
                    done = true;
                }
                if done {
                    i += 1;
                } else if i + 2 < n {
                    assert(tv[i + 2] == toks@[i + 2]@);
                    match &toks[i + 2] {
                        Tok::Hex(dst) => {
                            let base = utf16be_units(dst.as_str());
                            insert_incremental_range(map, lo, hi, &base);
                            i += 3;
                        },
                        Tok::LBracket => {
                            proof {
                                lemma_array_from_index(tv, i + 3, lo as int, hi, text_map(map@));
                            }
                            i = parse_bfrange_array(toks, i + 3, lo, hi, map);
                        },
                        _ => {
                            i += 2;
                        },
                    }
                } else {
                    i += 2;
                }
            },
            _ => {
                i += 1;
            },
        }
    }
    i
}

/// Parse a `ToUnicode` CMap into a `code -> Unicode string` map.
pub fn parse_to_unicode(bytes: &[u8]) -> (r: BTreeMap<u32, String>)
    ensures
        text_map(r@) == to_unicode_map(bytes@),
{
    let toks = scan(bytes);
    let ghost tv = toks_view(toks@);
    let ghost goal = sections_from(tv, 0, Map::empty());
    let mut map: BTreeMap<u32, String> = BTreeMap::new();
    assert(text_map(map@) =~= Map::empty());
    let n = toks.len();
    let mut i: usize = 0;
    while i < n
        invariant
            n == toks@.len(),
            tv == toks_view(toks@),
            sections_from(tv, i as int, text_map(map@)) == goal,
        decreases n - i,
    {
        assert(tv[i as int] == toks@[i as int]@);
        let mut handled = false;
        if let Tok::Kw(k) = &toks[i] {
            if same_text(k.as_str(), "beginbfchar") {
                proof {
                    lemma_bfchar_from_index(tv, i + 1, text_map(map@));
                }
                i = parse_bfchar(toks.as_slice(), i + 1, &mut map);
                handled = true;
            } else if same_text(k.as_str(), "beginbfrange") {
                proof {
                    lemma_bfrange_from_index(tv, i + 1, text_map(map@));
                }
                i = parse_bfrange(toks.as_slice(), i + 1, &mut map);
                handled = true;
            }
        }
        if !handled {
            i += 1;
        }
    }
    repair_control_destinations(&mut map);
    map
}

// ---------------------------------------------------------------------------
// Laws
// ---------------------------------------------------------------------------

/// No destination that `parse_to_unicode` returns holds a C0 control
/// character (other than `\t` / `\n`) or DEL.
pub proof fn lemma_parsed_destinations_are_clean(bytes: Seq<u8>)
    ensures
        forall|k: u32| #[trigger]
            to_unicode_map(bytes).contains_key(k) ==> !has_unusable(to_unicode_map(bytes)[k]),
{
    let m = sections_from(scan_from(bytes, 0), 0, Map::empty());
    assert forall|k: u32| #[trigger] to_unicode_map(bytes).contains_key(k) implies !has_unusable(
        to_unicode_map(bytes)[k],
    ) by {
        lemma_repair_clean(m[k]);
    }
}

/// A complete `bfchar` section: `beginbfchar`, then tokens none of which is
/// `endbfchar`, then `endbfchar`.
pub open spec fn is_bfchar_section(t: Seq<SpecTok>) -> bool {
    &&& t.len() >= 2
    &&& t[0] == SpecTok::Kw("beginbfchar"@)
    &&& t[t.len() - 1] == SpecTok::Kw("endbfchar"@)
    &&& forall|k: int| 0 < k < t.len() - 1 ==> t[k] != SpecTok::Kw("endbfchar"@)
}

/// Reading the body of a section that sits at the front of a longer token
/// stream ends at the section's end, with the map the section alone gives.
proof fn lemma_bfchar_in_prefix(p: Seq<SpecTok>, s: Seq<SpecTok>, i: int, m: Map<u32, Seq<char>>)
    requires
        is_bfchar_section(p),
        1 <= i <= p.len() - 1,
    ensures
        bfchar_from(p, i, m).1 == p.len(),
        bfchar_from(p + s, i, m) == (bfchar_from(p, i, m).0, p.len() as int),
    decreases p.len() - i,
{
    let t = p + s;
    assert(t[i] == p[i]);
    if i < p.len() - 1 {
        assert(p[i] != SpecTok::Kw("endbfchar"@));
        match p[i] {
            SpecTok::Hex(src) => {
                assert(t[i + 1] == p[i + 1]);
                match p[i + 1] {
                    SpecTok::Hex(dst) => {
                        assert(i + 1 < p.len() - 1);
                        lemma_bfchar_in_prefix(
                            p,
                            s,
                            i + 2,
                            m.insert(hex_u32_of(src), utf16_lossy(units_of(dst))),
                        );
                    },
                    _ => lemma_bfchar_in_prefix(p, s, i + 1, m),
                }
            },
            _ => lemma_bfchar_in_prefix(p, s, i + 1, m),
        }
    }
}

/// Reading a section body behind a prefix reads it as it reads the body on
/// its own, shifted by the prefix's length.
#[verifier::rlimit(40)]
proof fn lemma_bfchar_shifted(p: Seq<SpecTok>, s: Seq<SpecTok>, i: int, m: Map<u32, Seq<char>>)
    requires
        0 <= i,
    ensures
        bfchar_from(p + s, p.len() + i, m) == (bfchar_from(s, i, m).0, bfchar_from(s, i, m).1
            + p.len()),
    decreases s.len() - i,
{
    let t = p + s;
    if i < s.len() {
        assert(t[p.len() + i] == s[i]);
        if i + 1 < s.len() {
            assert(t[p.len() + i + 1] == s[i + 1]);
        }
        match s[i] {
            SpecTok::Kw(k) => {
                if k != "endbfchar"@ {
                    lemma_bfchar_shifted(p, s, i + 1, m);
                }
            },
            SpecTok::Hex(src) => {
                if i + 1 < s.len() {
                    match s[i + 1] {
                        SpecTok::Hex(dst) => lemma_bfchar_shifted(
                            p,
                            s,
                            i + 2,
                            m.insert(hex_u32_of(src), utf16_lossy(units_of(dst))),
                        ),
                        _ => lemma_bfchar_shifted(p, s, i + 1, m),
                    }
                } else {
                    lemma_bfchar_shifted(p, s, i + 1, m);
                }
            },
            _ => lemma_bfchar_shifted(p, s, i + 1, m),
        }
    }
}

/// Reading an array of destinations behind a prefix reads it as on its own,
/// shifted by the prefix's length.
proof fn lemma_array_shifted(
    p: Seq<SpecTok>,
    s: Seq<SpecTok>,
    j: int,
    code: int,
    hi: u32,
    m: Map<u32, Seq<char>>,
)
    requires
        0 <= j,
    ensures
        array_from(p + s, p.len() + j, code, hi, m) == (array_from(s, j, code, hi, m).0, array_from(
            s,
            j,
            code,
            hi,
            m,
        ).1 + p.len()),
    decreases s.len() - j,
{
    if j < s.len() {
        assert((p + s)[p.len() + j] == s[j]);
        match s[j] {
            SpecTok::RBracket => {},
            SpecTok::Hex(dst) => lemma_array_shifted(
                p,
                s,
                j + 1,
                code + 1,
                hi,
                if code <= hi {
                    m.insert(code as u32, utf16_lossy(units_of(dst)))
                } else {
                    m
                },
            ),
            _ => lemma_array_shifted(p, s, j + 1, code, hi, m),
        }
    }
}

/// Reading a `bfrange` body behind a prefix reads it as on its own, shifted
/// by the prefix's length.
#[verifier::rlimit(40)]
proof fn lemma_bfrange_shifted(p: Seq<SpecTok>, s: Seq<SpecTok>, i: int, m: Map<u32, Seq<char>>)
    requires
        0 <= i,
    ensures
        bfrange_from(p + s, p.len() + i, m) == (bfrange_from(s, i, m).0, bfrange_from(s, i, m).1
            + p.len()),
    decreases s.len() - i,
{
    let t = p + s;
    let q = p.len() as int;
    if i < s.len() {
        assert(t[q + i] == s[i]);
        if i + 1 < s.len() {
            assert(t[q + i + 1] == s[i + 1]);
        }
        if i + 2 < s.len() {
            assert(t[q + i + 2] == s[i + 2]);
        }
        match s[i] {
            SpecTok::Kw(k) => {
                if k != "endbfrange"@ {
                    lemma_bfrange_shifted(p, s, i + 1, m);
                }
            },
            SpecTok::Hex(lo_text) => {
                let lo = hex_u32_of(lo_text);
                if i + 1 < s.len() && s[i + 1] is Hex {
                    let hi = match s[i + 1] {
                        SpecTok::Hex(x) => hex_u32_of(x),
                        _ => 0,
                    };
                    if i + 2 < s.len() {
                        match s[i + 2] {
                            SpecTok::Hex(dst) => lemma_bfrange_shifted(
                                p,
                                s,
                                i + 3,
                                m.union_prefer_right(range_entries(lo, hi as int, units_of(dst))),
                            ),
                            SpecTok::LBracket => {
                                lemma_array_from_index(s, i + 3, lo as int, hi, m);
                                lemma_array_from_index(t, q + i + 3, lo as int, hi, m);
                                lemma_array_shifted(p, s, i + 3, lo as int, hi, m);
                                let (m2, j) = array_from(s, i + 3, lo as int, hi, m);
                                lemma_bfrange_shifted(p, s, j, m2);
                            },
                            _ => lemma_bfrange_shifted(p, s, i + 2, m),
                        }
                    } else {
                        lemma_bfrange_shifted(p, s, i + 2, m);
                    }
                }
            },
            _ => lemma_bfrange_shifted(p, s, i + 1, m),
        }
    }
}

/// The sections of a token stream behind a prefix, read from a position
/// past the prefix, are the sections of the stream on its own.
#[verifier::rlimit(40)]
proof fn lemma_sections_shifted(p: Seq<SpecTok>, s: Seq<SpecTok>, i: int, m: Map<u32, Seq<char>>)
    requires
        0 <= i,
    ensures
        sections_from(p + s, p.len() + i, m) == sections_from(s, i, m),
    decreases s.len() - i,
{
    let t = p + s;
    let q = p.len() as int;
    if i < s.len() {
        assert(t[q + i] == s[i]);
        match s[i] {
            SpecTok::Kw(k) => {
                if k == "beginbfchar"@ {
                    lemma_bfchar_from_index(s, i + 1, m);
                    lemma_bfchar_from_index(t, q + i + 1, m);
                    lemma_bfchar_shifted(p, s, i + 1, m);
                    let (m2, j) = bfchar_from(s, i + 1, m);
                    lemma_sections_shifted(p, s, j, m2);
                } else if k == "beginbfrange"@ {
                    lemma_bfrange_from_index(s, i + 1, m);
                    lemma_bfrange_from_index(t, q + i + 1, m);
                    lemma_bfrange_shifted(p, s, i + 1, m);
                    let (m2, j) = bfrange_from(s, i + 1, m);
                    lemma_sections_shifted(p, s, j, m2);
                } else {
                    lemma_sections_shifted(p, s, i + 1, m);
                }
            },
            _ => lemma_sections_shifted(p, s, i + 1, m),
        }
    }
}

/// An incremental `bfrange` section: `beginbfrange`, then `<lo> <hi> <dst>`
/// triples of hex strings, then `endbfrange`.
pub open spec fn is_incremental_bfrange_section(t: Seq<SpecTok>) -> bool {
    &&& t.len() >= 2
    &&& (t.len() - 2) % 3 == 0
    &&& t[0] == SpecTok::Kw("beginbfrange"@)
    &&& t[t.len() - 1] == SpecTok::Kw("endbfrange"@)
    &&& forall|k: int| 0 < k < t.len() - 1 ==> #[trigger] t[k] is Hex
}

/// Reading the body of an incremental `bfrange` section at the front of a
/// longer stream ends at the section's end, with the map the section alone
/// gives.
proof fn lemma_bfrange_in_prefix(p: Seq<SpecTok>, s: Seq<SpecTok>, i: int, m: Map<u32, Seq<char>>)
    requires
        is_incremental_bfrange_section(p),
        1 <= i <= p.len() - 1,
        (i - 1) % 3 == 0,
    ensures
        bfrange_from(p, i, m).1 == p.len(),
        bfrange_from(p + s, i, m) == (bfrange_from(p, i, m).0, p.len() as int),
    decreases p.len() - i,
{
    let t = p + s;
    assert(t[i] == p[i]);
    if i < p.len() - 1 {
        assert(i + 2 < p.len() - 1);
        assert(p[i] is Hex && p[i + 1] is Hex && p[i + 2] is Hex);
        assert(t[i + 1] == p[i + 1]);
        assert(t[i + 2] == p[i + 2]);
        let lo = match p[i] {
            SpecTok::Hex(x) => hex_u32_of(x),
            _ => 0,
        };
        let hi = match p[i + 1] {
            SpecTok::Hex(x) => hex_u32_of(x),
            _ => 0,
        };
        match p[i + 2] {
            SpecTok::Hex(dst) => {
                lemma_bfrange_in_prefix(
                    p,
                    s,
                    i + 3,
                    m.union_prefer_right(range_entries(lo, hi as int, units_of(dst))),
                );
            },
            _ => {},
        }
    }
}

/// Every section after a `bfchar` section is read: the map of the whole
/// stream is the map of what follows, read on top of the first section's
/// entries.
pub proof fn lemma_sections_after_bfchar_read(t1: Seq<SpecTok>, t2: Seq<SpecTok>, m: Map<u32, Seq<char>>)
    requires
        is_bfchar_section(t1),
    ensures
        sections_from(t1 + t2, 0, m) == sections_from(t2, 0, bfchar_from(t1, 1, m).0),
{
    let t = t1 + t2;
    assert(t[0] == t1[0]);
    lemma_bfchar_in_prefix(t1, t2, 1, m);
    lemma_sections_at_bfchar(t, 0, m);
    lemma_sections_shifted(t1, t2, 0, bfchar_from(t1, 1, m).0);
}

/// Every section after an incremental `bfrange` section is read: the map of
/// the whole stream is the map of what follows, read on top of the first
/// section's ranges.
pub proof fn lemma_sections_after_bfrange_read(
    t1: Seq<SpecTok>,
    t2: Seq<SpecTok>,
    m: Map<u32, Seq<char>>,
)
    requires
        is_incremental_bfrange_section(t1),
    ensures
        sections_from(t1 + t2, 0, m) == sections_from(t2, 0, bfrange_from(t1, 1, m).0),
{
    let t = t1 + t2;
    reveal_strlit("beginbfchar");
    reveal_strlit("beginbfrange");
    assert(t[0] == t1[0]);
    assert("beginbfrange"@.len() != "beginbfchar"@.len());
    lemma_bfrange_in_prefix(t1, t2, 1, m);
    lemma_bfrange_from_index(t, 1, m);
    assert(sections_from(t, 0, m) == sections_from(t, t1.len() as int, bfrange_from(t1, 1, m).0));
    lemma_sections_shifted(t1, t2, 0, bfrange_from(t1, 1, m).0);
}

/// At a `beginbfchar` keyword, the sections go on after that section with its
/// entries applied.
proof fn lemma_sections_at_bfchar(t: Seq<SpecTok>, i: int, m: Map<u32, Seq<char>>)
    requires
        0 <= i < t.len(),
        t[i] == SpecTok::Kw("beginbfchar"@),
    ensures
        sections_from(t, i, m) == sections_from(
            t,
            bfchar_from(t, i + 1, m).1,
            bfchar_from(t, i + 1, m).0,
        ),
{
    lemma_bfchar_from_index(t, i + 1, m);
}

/// Two `bfchar` sections in a row are both read, the second on top of the
/// first.
proof fn lemma_two_bfchar_sections(t1: Seq<SpecTok>, t2: Seq<SpecTok>, m: Map<u32, Seq<char>>)
    requires
        is_bfchar_section(t1),
        is_bfchar_section(t2),
    ensures
        sections_from(t1 + t2, 0, m) == bfchar_from(t2, 1, bfchar_from(t1, 1, m).0).0,
{
    let m1 = bfchar_from(t1, 1, m).0;
    lemma_sections_after_bfchar_read(t1, t2, m);
    lemma_bfchar_in_prefix(t2, Seq::<SpecTok>::empty(), 1, m1);
    lemma_sections_at_bfchar(t2, 0, m1);
}

/// A CMap whose tokens are two `bfchar` sections reads both: its map is the
/// first section's entries, then the second section's entries on top (a code
/// of the second section maps to its destination there, whatever the first
/// said), repaired.
pub proof fn lemma_bfchar_sections_all_read(bytes: Seq<u8>, t1: Seq<SpecTok>, t2: Seq<SpecTok>)
    requires
        is_bfchar_section(t1),
        is_bfchar_section(t2),
        scan_from(bytes, 0) == t1 + t2,
    ensures
        to_unicode_map(bytes) == repaired(
            bfchar_from(t2, 1, bfchar_from(t1, 1, Map::empty()).0).0,
        ),
{
    lemma_two_bfchar_sections(t1, t2, Map::empty());
}

/// In particular, the entry of a one-entry `bfchar` section that follows
/// another `bfchar` section is read: its code maps to its destination,
/// repaired.
pub proof fn lemma_second_bfchar_entry_read(
    bytes: Seq<u8>,
    t1: Seq<SpecTok>,
    src: Seq<char>,
    dst: Seq<char>,
)
    requires
        is_bfchar_section(t1),
        scan_from(bytes, 0) == t1 + seq![
            SpecTok::Kw("beginbfchar"@),
            SpecTok::Hex(src),
            SpecTok::Hex(dst),
            SpecTok::Kw("endbfchar"@),
        ],
    ensures
        to_unicode_map(bytes).contains_key(hex_u32_of(src)),
        to_unicode_map(bytes)[hex_u32_of(src)] == repair_destination(utf16_lossy(units_of(dst))),
{
    let t2 = seq![
        SpecTok::Kw("beginbfchar"@),
        SpecTok::Hex(src),
        SpecTok::Hex(dst),
        SpecTok::Kw("endbfchar"@),
    ];
    reveal_strlit("beginbfchar");
    reveal_strlit("endbfchar");
    assert(t2[1] != SpecTok::Kw("endbfchar"@));
    assert(t2[2] != SpecTok::Kw("endbfchar"@));
    lemma_bfchar_sections_all_read(bytes, t1, t2);
    let m1 = bfchar_from(t1, 1, Map::empty()).0;
    let m = m1.insert(hex_u32_of(src), utf16_lossy(units_of(dst)));
    assert(bfchar_from(t2, 3, m) == (m, 4int));
    assert(bfchar_from(t2, 1, m1) == bfchar_from(t2, 3, m));
}

/// Repairing twice changes nothing more than repairing once.
pub proof fn lemma_repair_idempotent(m: Map<u32, Seq<char>>)
    ensures
        repaired(repaired(m)) == repaired(m),
{
    assert forall|k: u32| #[trigger] repaired(m).contains_key(k) implies repair_destination(
        repaired(m)[k],
    ) == repaired(m)[k] by {
        lemma_repair_clean(m[k]);
    }
    assert(repaired(repaired(m)) =~= repaired(m));
}

/// A destination made only of unusable control characters becomes exactly
/// one space; one without any is kept as it is.
pub proof fn lemma_repair_destination_cases(s: Seq<char>)
    ensures
        s.len() > 0 && (forall|i: int| 0 <= i < s.len() ==> is_unusable(#[trigger] s[i]))
            ==> repair_destination(s) == seq![' '],
        !has_unusable(s) ==> repair_destination(s) == s,
    decreases s.len(),
{
    if s.len() > 0 && (forall|i: int| 0 <= i < s.len() ==> is_unusable(#[trigger] s[i])) {
        lemma_strip_all_unusable(s);
        assert(is_unusable(s[0]));
    }
}

proof fn lemma_strip_all_unusable(s: Seq<char>)
    requires
        forall|i: int| 0 <= i < s.len() ==> is_unusable(#[trigger] s[i]),
    ensures
        strip_unusable(s).len() == 0,
    decreases s.len(),
{
    if s.len() > 0 {
        assert(is_unusable(s[s.len() - 1]));
        let p = s.drop_last();
        assert forall|i: int| 0 <= i < p.len() implies is_unusable(#[trigger] p[i]) by {
            assert(p[i] == s[i]);
        }
        lemma_strip_all_unusable(p);
    }
}


/// A token as `scan` makes it: a hex string of ASCII hex digits only, a
/// keyword of ASCII characters that starts with a letter and goes on with
/// letters, digits and `.`.
pub open spec fn tok_well_formed(t: SpecTok) -> bool {
    match t {
        SpecTok::Hex(h) => forall|k: int|
            0 <= k < h.len() ==> (#[trigger] h[k] as u32) < 0x80 && is_hex_digit(h[k] as u8),
        SpecTok::Kw(w) => w.len() > 0 && is_alpha(w[0] as u8) && forall|k: int|
            0 <= k < w.len() ==> (#[trigger] w[k] as u32) < 0x80 && is_word_byte(w[k] as u8),
        _ => true,
    }
}

proof fn lemma_keep_hex_digits_are_hex(s: Seq<u8>)
    ensures
        forall|k: int|
            0 <= k < keep_hex_digits(s).len() ==> (#[trigger] keep_hex_digits(s)[k] as u32) < 0x80
                && is_hex_digit(keep_hex_digits(s)[k] as u8),
    decreases s.len(),
{
    if s.len() > 0 {
        let p = keep_hex_digits(s.drop_last());
        lemma_keep_hex_digits_are_hex(s.drop_last());
        let tail = if is_hex_digit(s.last()) {
            seq![s.last() as char]
        } else {
            seq![]
        };
        assert forall|k: int| 0 <= k < (p + tail).len() implies (#[trigger] (p + tail)[k] as u32)
            < 0x80 && is_hex_digit((p + tail)[k] as u8) by {
            if k < p.len() {
                assert((p + tail)[k] == p[k]);
            } else {
                assert((p + tail)[k] == tail[k - p.len()]);
            }
        }
    }
}

proof fn lemma_word_end_words(bytes: Seq<u8>, j: int)
    requires
        0 <= j <= bytes.len(),
    ensures
        forall|k: int| j <= k < word_end(bytes, j) ==> is_word_byte(#[trigger] bytes[k]),
    decreases bytes.len() - j,
{
    if j < bytes.len() && is_word_byte(bytes[j]) {
        lemma_word_end_words(bytes, j + 1);
    }
}

proof fn lemma_scan_from_well_formed(bytes: Seq<u8>, i: int)
    ensures
        forall|j: int|
            0 <= j < scan_from(bytes, i).len() ==> tok_well_formed(#[trigger] scan_from(bytes, i)[j]),
        scan_from(bytes, i).len() <= if 0 <= i <= bytes.len() {
            bytes.len() - i
        } else {
            0
        },
    decreases bytes.len() + 1 - i,
{
    if 0 <= i < bytes.len() {
        let b = bytes[i];
        if b == 0x3C {
            lemma_hex_close_bounds(bytes, i + 1);
            let e = hex_close(bytes, i + 1);
            lemma_scan_from_well_formed(bytes, e + 1);
            let h = keep_hex_digits(bytes.subrange(i + 1, e));
            lemma_keep_hex_digits_are_hex(bytes.subrange(i + 1, e));
            let first = seq![SpecTok::Hex(h)];
            let rest = scan_from(bytes, e + 1);
            assert(scan_from(bytes, i) == first + rest);
            assert(tok_well_formed(first[0]));
            assert forall|j: int| 0 <= j < (first + rest).len() implies tok_well_formed(
                #[trigger] (first + rest)[j],
            ) by {
                if j > 0 {
                    assert((first + rest)[j] == rest[j - 1]);
                }
            }
        } else if b == 0x5B || b == 0x5D {
            lemma_scan_from_well_formed(bytes, i + 1);
            let rest = scan_from(bytes, i + 1);
            let first = if b == 0x5B {
                seq![SpecTok::LBracket]
            } else {
                seq![SpecTok::RBracket]
            };
            assert(scan_from(bytes, i) == first + rest);
            assert forall|j: int| 0 <= j < (first + rest).len() implies tok_well_formed(
                #[trigger] (first + rest)[j],
            ) by {
                if j > 0 {
                    assert((first + rest)[j] == rest[j - 1]);
                }
            }
        } else if is_alpha(b) {
            lemma_word_end_bounds(bytes, i + 1);
            lemma_word_end_words(bytes, i + 1);
            let e = word_end(bytes, i + 1);
            lemma_scan_from_well_formed(bytes, e);
            let w = ascii_text(bytes.subrange(i, e));
            assert(w[0] as u8 == b);
            assert forall|k: int| 0 <= k < w.len() implies (#[trigger] w[k] as u32) < 0x80
                && is_word_byte(w[k] as u8) by {
                assert(w[k] == bytes[i + k] as char);
                if k > 0 {
                    assert(is_word_byte(bytes[i + k]));
                }
            }
            let first = seq![SpecTok::Kw(w)];
            let rest = scan_from(bytes, e);
            assert(scan_from(bytes, i) == first + rest);
            assert(tok_well_formed(first[0]));
            assert forall|j: int| 0 <= j < (first + rest).len() implies tok_well_formed(
                #[trigger] (first + rest)[j],
            ) by {
                if j > 0 {
                    assert((first + rest)[j] == rest[j - 1]);
                }
            }
        } else {
            lemma_scan_from_well_formed(bytes, i + 1);
        }
    }
}

/// Every token `scan` returns is well formed (hex strings hold only hex
/// digits; keywords start with a letter and hold letters, digits and `.`),
/// and there are never more tokens than bytes.
pub proof fn lemma_scan_well_formed(bytes: Seq<u8>)
    ensures
        scan_from(bytes, 0).len() <= bytes.len(),
        forall|j: int|
            0 <= j < scan_from(bytes, 0).len() ==> tok_well_formed(#[trigger] scan_from(bytes, 0)[j]),
{
    lemma_scan_from_well_formed(bytes, 0);
}

/// Where the `[ <dst> ... ]` form of a `bfrange` entry that starts at token
/// `j` ends; it does not depend on the map or the codes.
proof fn lemma_array_from_end(
    toks: Seq<SpecTok>,
    j: int,
    code: int,
    hi: u32,
    m: Map<u32, Seq<char>>,
    code2: int,
    m2: Map<u32, Seq<char>>,
)
    ensures
        array_from(toks, j, code, hi, m).1 == array_from(toks, j, code2, hi, m2).1,
    decreases toks.len() - j,
{
    if 0 <= j < toks.len() {
        match toks[j] {
            SpecTok::RBracket => {},
            SpecTok::Hex(dst) => {
                let m1 = if code <= hi {
                    m.insert(code as u32, utf16_lossy(units_of(dst)))
                } else {
                    m
                };
                let m3 = if code2 <= hi {
                    m2.insert(code2 as u32, utf16_lossy(units_of(dst)))
                } else {
                    m2
                };
                lemma_array_from_end(toks, j + 1, code + 1, hi, m1, code2 + 1, m3);
            },
            _ => lemma_array_from_end(toks, j + 1, code, hi, m, code2, m2),
        }
    }
}

/// Code `k` lies in the `<lo> <hi>` range of an entry of the `bfrange`
/// section from token `i` on (the entries `bfrange_from` reads, up to
/// `endbfrange`).
pub open spec fn in_entry_range(toks: Seq<SpecTok>, i: int, k: u32) -> bool
    decreases toks.len() - i,
{
    if i < 0 || i >= toks.len() {
        false
    } else {
        match toks[i] {
            SpecTok::Kw(w) => if w == "endbfrange"@ {
                false
            } else {
                in_entry_range(toks, i + 1, k)
            },
            SpecTok::Hex(lo_text) => if i + 2 < toks.len() && toks[i + 1] is Hex {
                let lo = hex_u32_of(lo_text);
                let hi = match toks[i + 1] {
                    SpecTok::Hex(t) => hex_u32_of(t),
                    _ => 0,
                };
                match toks[i + 2] {
                    SpecTok::Hex(_) => (lo <= k && k <= hi) || in_entry_range(toks, i + 3, k),
                    SpecTok::LBracket => {
                        proof {
                            lemma_array_from_index(toks, i + 3, lo as int, hi, Map::empty());
                        }
                        (lo <= k && k <= hi) || in_entry_range(
                            toks,
                            array_from(toks, i + 3, lo as int, hi, Map::empty()).1,
                            k,
                        )
                    },
                    _ => in_entry_range(toks, i + 2, k),
                }
            } else {
                false
            },
            _ => in_entry_range(toks, i + 1, k),
        }
    }
}

/// `m2` keeps every code of `m`, and differs from it only at codes in
/// `lo..=hi`.
pub open spec fn changes_within(m: Map<u32, Seq<char>>, m2: Map<u32, Seq<char>>, lo: int, hi: int) -> bool {
    &&& m.dom().subset_of(m2.dom())
    &&& forall|k: u32|
        !(lo <= k <= hi) ==> (#[trigger] m2.contains_key(k) == m.contains_key(k) && (m.contains_key(k)
            ==> m2[k] == m[k]))
}

proof fn lemma_array_from_changes(toks: Seq<SpecTok>, j: int, code: int, hi: u32, m: Map<u32, Seq<char>>, lo: int)
    requires
        0 <= j <= toks.len(),
        0 <= lo <= code,
    ensures
        changes_within(m, array_from(toks, j, code, hi, m).0, lo, hi as int),
    decreases toks.len() - j,
{
    if j < toks.len() {
        match toks[j] {
            SpecTok::RBracket => {},
            SpecTok::Hex(dst) => {
                let m1 = if code <= hi {
                    m.insert(code as u32, utf16_lossy(units_of(dst)))
                } else {
                    m
                };
                assert(changes_within(m, m1, lo, hi as int));
                lemma_array_from_changes(toks, j + 1, code + 1, hi, m1, lo);
                let m2 = array_from(toks, j + 1, code + 1, hi, m1).0;
                assert(array_from(toks, j, code, hi, m).0 == m2);
                assert(m.dom().subset_of(m2.dom()));
            },
            _ => lemma_array_from_changes(toks, j + 1, code, hi, m, lo),
        }
    }
}

proof fn lemma_bfrange_from_changes(toks: Seq<SpecTok>, i: int, m: Map<u32, Seq<char>>)
    requires
        0 <= i <= toks.len(),
    ensures
        m.dom().subset_of(bfrange_from(toks, i, m).0.dom()),
        forall|k: u32|
            !in_entry_range(toks, i, k) ==> (#[trigger] bfrange_from(toks, i, m).0.contains_key(k)
                == m.contains_key(k) && (m.contains_key(k) ==> bfrange_from(toks, i, m).0[k]
                == m[k])),
    decreases toks.len() - i,
{
    let r = bfrange_from(toks, i, m);
    if i < toks.len() {
        match toks[i] {
            SpecTok::Kw(w) => {
                if w != "endbfrange"@ {
                    lemma_bfrange_from_changes(toks, i + 1, m);
                    assert(r == bfrange_from(toks, i + 1, m));
                } else {
                    assert(r == (m, i + 1));
                }
            },
            SpecTok::Hex(lo_text) => {
                let lo = hex_u32_of(lo_text);
                if i + 1 < toks.len() && toks[i + 1] is Hex {
                    let hi = match toks[i + 1] {
                        SpecTok::Hex(t) => hex_u32_of(t),
                        _ => 0,
                    };
                    if i + 2 < toks.len() {
                        match toks[i + 2] {
                            SpecTok::Hex(dst) => {
                                let m1 = m.union_prefer_right(range_entries(lo, hi as int, units_of(dst)));
                                assert(changes_within(m, m1, lo as int, hi as int));
                                lemma_bfrange_from_changes(toks, i + 3, m1);
                                assert(r == bfrange_from(toks, i + 3, m1));
                                assert forall|k: u32| !in_entry_range(toks, i, k) implies (
                                #[trigger] r.0.contains_key(k) == m.contains_key(k) && (m.contains_key(k)
                                    ==> r.0[k] == m[k])) by {
                                    assert(!in_entry_range(toks, i + 3, k));
                                    assert(!(lo <= k && k <= hi));
                                }
                            },
                            SpecTok::LBracket => {
                                lemma_array_from_index(toks, i + 3, lo as int, hi, m);
                                lemma_array_from_changes(toks, i + 3, lo as int, hi, m, lo as int);
                                lemma_array_from_end(toks, i + 3, lo as int, hi, m, lo as int, Map::empty());
                                let (m1, j) = array_from(toks, i + 3, lo as int, hi, m);
                                lemma_bfrange_from_changes(toks, j, m1);
                                assert(r == bfrange_from(toks, j, m1));
                                assert forall|k: u32| !in_entry_range(toks, i, k) implies (
                                #[trigger] r.0.contains_key(k) == m.contains_key(k) && (m.contains_key(k)
                                    ==> r.0[k] == m[k])) by {
                                    assert(!in_entry_range(toks, j, k));
                                    assert(!(lo <= k && k <= hi));
                                }
                            },
                            _ => {
                                lemma_bfrange_from_changes(toks, i + 2, m);
                                assert(r == bfrange_from(toks, i + 2, m));
                            },
                        }
                    } else {
                        assert(bfrange_from(toks, i + 2, m) == (m, i + 2));
                        assert(r == (m, i + 2));
                    }
                } else {
                    assert(r == (m, i + 1));
                }
            },
            _ => {
                lemma_bfrange_from_changes(toks, i + 1, m);
                assert(r == bfrange_from(toks, i + 1, m));
            },
        }
    }
}

/// `parse_bfrange` from a token index inside the stream always moves past
/// it, keeps every code the map had, and changes only codes that lie in the
/// `<lo> <hi>` range of a `bfrange` entry it read.
pub proof fn lemma_bfrange_changes_only_ranges(toks: Seq<SpecTok>, i: int, m: Map<u32, Seq<char>>)
    requires
        0 <= i < toks.len(),
    ensures
        i < bfrange_from(toks, i, m).1 <= toks.len(),
        m.dom().subset_of(bfrange_from(toks, i, m).0.dom()),
        forall|k: u32|
            !in_entry_range(toks, i, k) ==> (#[trigger] bfrange_from(toks, i, m).0.contains_key(k)
                == m.contains_key(k) && (m.contains_key(k) ==> bfrange_from(toks, i, m).0[k]
                == m[k])),
{
    lemma_bfrange_from_changes(toks, i, m);
    lemma_bfrange_from_advances(toks, i, m);
}

proof fn lemma_bfrange_from_advances(toks: Seq<SpecTok>, i: int, m: Map<u32, Seq<char>>)
    requires
        0 <= i < toks.len(),
    ensures
        i < bfrange_from(toks, i, m).1 <= toks.len(),
{
    lemma_bfrange_from_index(toks, i, m);
    match toks[i] {
        SpecTok::Kw(w) => {
            if w != "endbfrange"@ {
                lemma_bfrange_from_index(toks, i + 1, m);
            }
        },
        SpecTok::Hex(lo_text) => {
            let lo = hex_u32_of(lo_text);
            if i + 1 < toks.len() && toks[i + 1] is Hex {
                let hi = match toks[i + 1] {
                    SpecTok::Hex(t) => hex_u32_of(t),
                    _ => 0,
                };
                if i + 2 < toks.len() {
                    match toks[i + 2] {
                        SpecTok::Hex(dst) => lemma_bfrange_from_index(
                            toks,
                            i + 3,
                            m.union_prefer_right(range_entries(lo, hi as int, units_of(dst))),
                        ),
                        SpecTok::LBracket => {
                            lemma_array_from_index(toks, i + 3, lo as int, hi, m);
                            let (m1, j) = array_from(toks, i + 3, lo as int, hi, m);
                            lemma_bfrange_from_index(toks, j, m1);
                        },
                        _ => lemma_bfrange_from_index(toks, i + 2, m),
                    }
                } else {
                    lemma_bfrange_from_index(toks, i + 2, m);
                }
            }
        },
        _ => lemma_bfrange_from_index(toks, i + 1, m),
    }
}
} // verus!
