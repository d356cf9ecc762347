//! Font handling.
//!
//! **Simple** (Type1/TrueType) fonts map each byte code to a Unicode string:
//! the `/ToUnicode` map when it is a real one, else the code's glyph name
//! (base encoding + `/Differences`) through the Adobe Glyph List or the
//! `uniXXXX` / `uXXXXXX` conventions. **CID / Type0** fonts use two-byte codes
//! whose text comes from `/ToUnicode` and whose widths come from the
//! descendant font's `/W` array; a "fake" Private-Use-Area map of a Symbol
//! font is repaired through the Symbol and WinAnsi encodings. Widths are
//! carried as `f32` bit patterns.

use std::collections::BTreeMap;
use vstd::prelude::*;
use crate::encodings::{
    lemma_codes_are_scalar, symbol_code, symbol_unicode, win_ansi_code, win_ansi_unicode,
};
use crate::cmap::{map_codes, parse_radix16, radix16, same_text, text_map};
use crate::text::{
    bytes_spell, char_from_u32, chars_of, contains_str, contains_text, is_scalar_value, opt_slice, spells,
    texts,
};
use vstd::utf8::{decode_utf8, encode_utf8, valid_utf8};

verus! {

// ---------------------------------------------------------------------------
// The Adobe Glyph List
// ---------------------------------------------------------------------------

/// The Unicode text that the Adobe Glyph List (as shipped by the
/// `pdf_encoding` crate) gives the glyph name `name`, if it lists the name.
pub uninterp spec fn agl_text(name: Seq<char>) -> Option<Seq<char>>;

/// `pdf_encoding::glyphname_to_unicode`: the Adobe Glyph List entry for
/// `name`. Trusted: the result is that list's text for the name, `None` for
/// an unlisted name.
#[verifier::external_body]
fn agl_lookup(name: &str) -> (r: Option<String>)
    ensures
        match r {
            Some(s) => agl_text(name@) == Some(s@),
            None => agl_text(name@) is None,
        },
{
    match pdf_encoding::glyphname_to_unicode(name) {
        Some(s) => Some(s.to_string()),
        None => None,
    }
}

// ---------------------------------------------------------------------------
// Glyph names
// ---------------------------------------------------------------------------

/// Index of the first `.` at or after `j`, or the end.
pub open spec fn dot_index(s: Seq<char>, j: int) -> int
    decreases s.len() - j,
{
    if j >= s.len() {
        s.len() as int
    } else if s[j] == '.' {
        j
    } else {
        dot_index(s, j + 1)
    }
}

/// A glyph name without its suffix (`"A.sc"` → `"A"`).
pub open spec fn name_core(name: Seq<char>) -> Seq<char> {
    name.take(dot_index(name, 0))
}

/// The characters of a `uniXXXX...` name's hex part, four hex digits per
/// code point; `None` when a group is not a hex number or not a scalar value.
pub open spec fn uni_sequence(b: Seq<u8>) -> Option<Seq<char>>
    decreases b.len(),
{
    if b.len() == 0 {
        Some(seq![])
    } else {
        let n = if b.len() < 4 {
            b.len() as int
        } else {
            4
        };
        match radix16(b.take(n), 0xFFFF_FFFF) {
            Some(cp) => if is_scalar_value(cp) {
                match uni_sequence(b.skip(n)) {
                    Some(r) => Some(seq![cp as char] + r),
                    None => None,
                }
            } else {
                None
            },
            None => None,
        }
    }
}

pub open spec fn starts_uni(core: Seq<char>) -> bool {
    core.len() >= 3 && core[0] == 'u' && core[1] == 'n' && core[2] == 'i'
}

/// The Unicode text of a glyph name: the Adobe Glyph List entry of its core
/// (suffix after `.` dropped), else the `uniXXXX...` convention (groups of four
/// hex digits), else the `uXXXX` to `uXXXXXX` convention. Empty names,
/// `.notdef` and empty cores have none.
#[verifier::opaque]
pub open spec fn glyph_name_text(name: Seq<char>) -> Option<Seq<char>> {
    let core = name_core(name);
    if name.len() == 0 || name == ".notdef"@ || core.len() == 0 {
        None
    } else if agl_text(core) is Some {
        agl_text(core)
    } else {
        convention_text(core)
    }
}

/// The text the algorithmic glyph-name conventions give a name core: the
/// `uniXXXX...` convention (groups of four hex digits, each a scalar value),
/// else the `uXXXX` to `uXXXXXX` convention (one scalar value); none for
/// any other core.
pub open spec fn convention_text(core: Seq<char>) -> Option<Seq<char>> {
    if core.len() == 0 {
        None
    } else if starts_uni(core) && core.len() > 3 && encode_utf8(core.skip(3)).len() % 4 == 0 {
        uni_sequence(encode_utf8(core.skip(3)))
    } else if core.len() >= 1 && core[0] == 'u' && 4 <= encode_utf8(core.skip(1)).len() <= 6 {
        match radix16(encode_utf8(core.skip(1)), 0xFFFF_FFFF) {
            Some(cp) => if is_scalar_value(cp) {
                Some(seq![cp as char])
            } else {
                None
            },
            None => None,
        }
    } else {
        None
    }
}

/// The first character of a glyph name's text, if it has any.
pub open spec fn glyph_char(name: Seq<char>) -> Option<char> {
    if name.len() == 0 {
        None
    } else {
        match glyph_name_text(name) {
            Some(t) => if t.len() > 0 {
                Some(t[0])
            } else {
                None
            },
            None => None,
        }
    }
}

/// A string of the characters `cs[from..to]`.
fn string_of(cs: &Vec<char>, from: usize, to: usize) -> (r: String)
    requires
        from <= to <= cs@.len(),
    ensures
        r@ == cs@.subrange(from as int, to as int),
{
    let mut out = String::new();
    let mut i = from;
    while i < to
        invariant
            from <= i <= to <= cs@.len(),
            out@ == cs@.subrange(from as int, i as int),
        decreases to - i,
    {
        out.push(cs[i]);
        i += 1;
        assert(out@ =~= cs@.subrange(from as int, i as int));
    }
    out
}

/// The characters of a `uniXXXX...` name's hex part (see `uni_sequence`).
#[verifier::spinoff_prover]
fn uni_text(hb: &[u8]) -> (r: Option<String>)
    requires
        hb@.len() % 4 == 0,
    ensures
        match r {
            Some(s) => uni_sequence(hb@) == Some(s@),
            None => uni_sequence(hb@) is None,
        },
{
    let hn = hb.len();
    let mut s = String::new();
    let mut pos: usize = 0;
    assert(hb@.skip(0) =~= hb@);
    while pos < hn
        invariant
            hn == hb@.len(),
            hn % 4 == 0,
            pos <= hn,
            pos % 4 == 0,
            uni_sequence(hb@) == match uni_sequence(hb@.skip(pos as int)) {
                Some(rest) => Some(s@ + rest),
                None => None,
            },
        decreases hn - pos,
    {
        let ghost rest = hb@.skip(pos as int);
        assert(rest.take(4) =~= hb@.subrange(pos as int, pos + 4));
        assert(rest.skip(4) =~= hb@.skip(pos + 4));
        let cp = match parse_radix16(hb, pos, pos + 4, 0xFFFF_FFFF) {
            Some(v) => v as u32,
            None => {
                return None;
            },
        };
        let c = match char_from_u32(cp) {
            Some(c) => c,
            None => {
                return None;
            },
        };
        let ghost before = s@;
        s.push(c);
        proof {
            match uni_sequence(hb@.skip(pos + 4)) {
                Some(r) => {
                    assert(before + (seq![c] + r) =~= s@ + r);
                },
                None => {},
            }
        }
        pos += 4;
    }
    assert(hb@.skip(hn as int) =~= Seq::<u8>::empty());
    assert(s@ + Seq::<char>::empty() =~= s@);
    Some(s)
}

/// The text the `uniXXXX...` / `uXXXXXX` glyph-name conventions give a name
/// core (see [`convention_text`]); glyph-name resolution falls back on it
/// when the Adobe Glyph List does not list the name.
pub fn glyph_name_convention(core: &str) -> (r: Option<String>)
    ensures
        match r {
            Some(s) => convention_text(core@) == Some(s@),
            None => convention_text(core@) is None,
        },
{
    let cs = chars_of(core);
    let k = cs.len();
    if k == 0 {
        return None;
    }
    if k > 3 && cs[0] == 'u' && cs[1] == 'n' && cs[2] == 'i' {
        let hex = string_of(&cs, 3, k);
        assert(hex@ =~= core@.skip(3));
        let hb = hex.as_str().as_bytes();
        if hb.len() % 4 == 0 {
            return uni_text(hb);
        }
    }
    if cs[0] == 'u' {
        let hex = string_of(&cs, 1, k);
        assert(hex@ =~= core@.skip(1));
        let hb = hex.as_str().as_bytes();
        let hn = hb.len();
        if 4 <= hn && hn <= 6 {
            assert(hb@.subrange(0, hn as int) =~= hb@);
            let cp = match parse_radix16(hb, 0, hn, 0xFFFF_FFFF) {
                Some(v) => v as u32,
                None => {
                    return None;
                },
            };
            return match char_from_u32(cp) {
                Some(c) => {
                    let mut s = String::new();
                    s.push(c);
                    assert(s@ =~= seq![c]);
                    Some(s)
                },
                None => None,
            };
        }
    }
    None
}

/// Resolve a glyph name to a Unicode string: the Adobe Glyph List, then the
/// `uniXXXX` / `uXXXXXX` algorithmic conventions.
pub fn name_to_unicode(name: &str) -> (r: Option<String>)
    ensures
        match r {
            Some(s) => glyph_name_text(name@) == Some(s@),
            None => glyph_name_text(name@) is None,
        },
{
    reveal(glyph_name_text);
    if name.is_empty() || same_text(name, ".notdef") {
        return None;
    }
    // Strip a glyph-name suffix like "A.sc" → "A".
    let cs = chars_of(name);
    let n = cs.len();
    let mut k: usize = 0;
    while k < n && cs[k] != '.'
        invariant
            n == name@.len(),
            cs@ == name@,
            k <= n,
            dot_index(name@, 0) == dot_index(name@, k as int),
        decreases n - k,
    {
        k += 1;
    }
    let core = string_of(&cs, 0, k);
    assert(core@ =~= name_core(name@));
    if k == 0 {
        return None;
    }
    match agl_lookup(core.as_str()) {
        Some(t) => Some(t),
        None => glyph_name_convention(core.as_str()),
    }
}

/// Look up a glyph name → first Unicode char, if the name is known.
pub fn try_resolve(name: &str) -> (r: Option<char>)
    ensures
        r == glyph_char(name@),
{
    if name.is_empty() {
        return None;
    }
    match name_to_unicode(name) {
        Some(t) => {
            let cs = chars_of(t.as_str());
            if cs.len() > 0 {
                Some(cs[0])
            } else {
                None
            }
        },
        None => None,
    }
}

// ---------------------------------------------------------------------------
// Base encodings
// ---------------------------------------------------------------------------

/// The single-byte base encodings a simple font can start from.
#[derive(Clone, Copy, Debug, PartialEq, Eq, Structural)]
pub enum BaseEncoding {
    Standard,
    WinAnsi,
    MacRoman,
    Symbol,
    ZapfDingbats,
}

/// The base encoding of a simple font, from the name of its `/Encoding` (or
/// of its encoding dictionary's `/BaseEncoding`) and its BaseFont name: a
/// recognised encoding name wins, then a ZapfDingbats or Symbol font gets its
/// built-in encoding, and any other font the Standard encoding.
pub open spec fn base_encoding_of(named: Option<Seq<u8>>, base: Seq<char>) -> BaseEncoding {
    if named is Some && spells(named->0, "WinAnsiEncoding"@) {
        BaseEncoding::WinAnsi
    } else if named is Some && spells(named->0, "MacRomanEncoding"@) {
        BaseEncoding::MacRoman
    } else if named is Some && spells(named->0, "StandardEncoding"@) {
        BaseEncoding::Standard
    } else if named is Some && (spells(named->0, "Symbol"@) || spells(
        named->0,
        "MacExpertEncoding"@,
    )) {
        BaseEncoding::Symbol
    } else if contains_text(base, "ZapfDingbats"@) {
        BaseEncoding::ZapfDingbats
    } else if contains_text(base, "Symbol"@) {
        BaseEncoding::Symbol
    } else {
        BaseEncoding::Standard
    }
}

/// Choose the base encoding of a simple font (see [`base_encoding_of`]).
pub fn base_encoding(named: Option<&[u8]>, base: &str) -> (r: BaseEncoding)
    ensures
        r == base_encoding_of(
            match named {
                Some(n) => Some(n@),
                None => None,
            },
            base@,
        ),
{
    if let Some(n) = named {
        if bytes_spell(n, "WinAnsiEncoding") {
            return BaseEncoding::WinAnsi;
        } else if bytes_spell(n, "MacRomanEncoding") {
            return BaseEncoding::MacRoman;
        } else if bytes_spell(n, "StandardEncoding") {
            return BaseEncoding::Standard;
        } else if bytes_spell(n, "Symbol") || bytes_spell(n, "MacExpertEncoding") {
            return BaseEncoding::Symbol;
        }
    }
    if contains_str(base, "ZapfDingbats") {
        BaseEncoding::ZapfDingbats
    } else if contains_str(base, "Symbol") {
        BaseEncoding::Symbol
    } else {
        BaseEncoding::Standard
    }
}

/// The character the Standard encoding gives a byte code, as the
/// `pdf_encoding` crate's `STANDARD` table holds it.
pub uninterp spec fn standard_table(code: u8) -> Option<char>;

/// The character the MacRoman encoding gives a byte code, as the
/// `pdf_encoding` crate's `MACROMAN` table holds it.
pub uninterp spec fn mac_roman_table(code: u8) -> Option<char>;

/// The character the ZapfDingbats encoding gives a byte code, as the
/// `pdf_encoding` crate's `ZDINGBAT` table holds it.
pub uninterp spec fn zapf_dingbats_table(code: u8) -> Option<char>;

/// `pdf_encoding::STANDARD.get(code)` (`ForwardMap::get` on a fixed table).
/// Trusted: the result is that table's entry for `code`.
#[verifier::external_body]
fn standard_char(code: u8) -> (r: Option<char>)
    ensures
        r == standard_table(code),
{
    pdf_encoding::STANDARD.get(code)
}

/// `pdf_encoding::MACROMAN.get(code)` (`ForwardMap::get` on a fixed table).
/// Trusted: the result is that table's entry for `code`.
#[verifier::external_body]
fn mac_roman_char(code: u8) -> (r: Option<char>)
    ensures
        r == mac_roman_table(code),
{
    pdf_encoding::MACROMAN.get(code)
}

/// `pdf_encoding::ZDINGBAT.get(code)` (`ForwardMap::get` on a fixed table).
/// Trusted: the result is that table's entry for `code`.
#[verifier::external_body]
fn zapf_dingbats_char(code: u8) -> (r: Option<char>)
    ensures
        r == zapf_dingbats_table(code),
{
    pdf_encoding::ZDINGBAT.get(code)
}

/// The code point of an optional character (0 for none).
pub open spec fn opt_code_point(c: Option<char>) -> u32 {
    match c {
        Some(ch) => ch as u32,
        None => 0,
    }
}

/// The code point a base encoding gives a byte code (0 for an unused code):
/// Symbol and WinAnsi from this crate's tables, the others from
/// `pdf_encoding`'s.
pub open spec fn base_code_point(enc: BaseEncoding, code: u8) -> u32 {
    match enc {
        BaseEncoding::Symbol => symbol_code(code),
        BaseEncoding::WinAnsi => win_ansi_code(code),
        BaseEncoding::Standard => opt_code_point(standard_table(code)),
        BaseEncoding::MacRoman => opt_code_point(mac_roman_table(code)),
        BaseEncoding::ZapfDingbats => opt_code_point(zapf_dingbats_table(code)),
    }
}

/// An upper-case hex digit.
pub open spec fn hex_upper(v: int) -> char {
    if v < 10 {
        (48 + v) as char
    } else {
        (55 + v) as char
    }
}

/// The last `n` hex digits of `v`, most significant first.
pub open spec fn hex_digits(v: int, n: nat) -> Seq<char>
    decreases n,
{
    if n == 0 {
        seq![]
    } else {
        hex_digits(v / 16, (n - 1) as nat) + seq![hex_upper(v % 16)]
    }
}

/// The glyph name of a code point: `uniXXXX` in the Basic Multilingual
/// Plane, `uXXXXXX` above it, and empty for 0 (an unused code).
pub open spec fn code_point_name(cp: u32) -> Seq<char> {
    if cp == 0 {
        seq![]
    } else if cp <= 0xFFFF {
        "uni"@ + hex_digits(cp as int, 4)
    } else {
        "u"@ + hex_digits(cp as int, 6)
    }
}

fn push_hex_digits(out: &mut String, v: u32, n: u32)
    ensures
        final(out)@ == old(out)@ + hex_digits(v as int, n as nat),
    decreases n,
{
    if n > 0 {
        push_hex_digits(out, v / 16, n - 1);
        let d = v % 16;
        let c: char = if d < 10 {
            ((48 + d) as u8) as char
        } else {
            ((55 + d) as u8) as char
        };
        let ghost before = out@;
        out.push(c);
        assert(out@ =~= old(out)@ + hex_digits(v as int, n as nat));
    } else {
        assert(out@ =~= old(out)@ + hex_digits(v as int, n as nat));
    }
}

/// The glyph name of a code point (see [`code_point_name`]).
pub fn code_point_name_of(cp: u32) -> (r: String)
    ensures
        r@ == code_point_name(cp),
{
    proof {
        reveal_strlit("uni");
        reveal_strlit("u");
    }
    if cp == 0 {
        String::new()
    } else if cp <= 0xFFFF {
        let mut s = String::from_str("uni");
        push_hex_digits(&mut s, cp, 4);
        s
    } else {
        let mut s = String::from_str("u");
        push_hex_digits(&mut s, cp, 6);
        s
    }
}

/// The 256-entry glyph-name table of a base encoding: each code's character
/// written as its `uniXXXX` / `uXXXXXX` name (which glyph-name resolution
/// reads back as that character), empty for an unused code.
pub fn base_names(enc: BaseEncoding) -> (r: Vec<String>)
    ensures
        r@.len() == 256,
        forall|c: int| 0 <= c < 256 ==> (#[trigger] r@[c])@ == code_point_name(base_code_point(enc, c as u8)),
{
    let mut out: Vec<String> = Vec::new();
    let mut c: u32 = 0;
    while c < 256
        invariant
            c <= 256,
            out@.len() == c,
            forall|k: int| 0 <= k < c ==> (#[trigger] out@[k])@ == code_point_name(base_code_point(enc, k as u8)),
        decreases 256 - c,
    {
        let b = c as u8;
        let cp: u32 = match enc {
            BaseEncoding::Symbol => symbol_unicode(b),
            BaseEncoding::WinAnsi => win_ansi_unicode(b),
            BaseEncoding::Standard => match standard_char(b) {
                Some(ch) => ch as u32,
                None => 0,
            },
            BaseEncoding::MacRoman => match mac_roman_char(b) {
                Some(ch) => ch as u32,
                None => 0,
            },
            BaseEncoding::ZapfDingbats => match zapf_dingbats_char(b) {
                Some(ch) => ch as u32,
                None => 0,
            },
        };
        out.push(code_point_name_of(cp));
        c += 1;
    }
    out
}

// ---------------------------------------------------------------------------
// Encoding differences
// ---------------------------------------------------------------------------

/// The text `String::from_utf8_lossy` makes of `bytes` (invalid sequences
/// replaced by U+FFFD).
pub uninterp spec fn utf8_lossy(bytes: Seq<u8>) -> Seq<char>;

/// `String::from_utf8_lossy`, owned. Trusted: the result is the lossy
/// decoding of `bytes`, and exactly their decoding when they are valid UTF-8
/// (as the standard library documents).
#[verifier::external_body]
fn lossy_string(bytes: &[u8]) -> (r: String)
    ensures
        r@ == utf8_lossy(bytes@),
        valid_utf8(bytes@) ==> r@ == decode_utf8(bytes@),
{
    String::from_utf8_lossy(bytes).into_owned()
}

/// One element of an encoding's `/Differences` array: a code that restarts
/// the run, a glyph name for the next code, or anything else (ignored).
#[derive(Clone, Debug)]
pub enum DiffItem {
    Code(i64),
    Name(Vec<u8>),
    Other,
}

/// The code counter after the first items of a `/Differences` array: a
/// number restarts it (negatives at 0), a name advances it while it is below
/// 256.
pub open spec fn differences_code(items: Seq<DiffItem>) -> int
    decreases items.len(),
{
    if items.len() == 0 {
        0
    } else {
        let code = differences_code(items.drop_last());
        match items.last() {
            DiffItem::Code(n) => if n < 0 {
                0
            } else {
                n as int
            },
            DiffItem::Name(_) => if code < 256 {
                code + 1
            } else {
                code
            },
            DiffItem::Other => code,
        }
    }
}

/// The glyph-name table with a `/Differences` array applied: each name
/// replaces the entry at the counter while the counter is below 256.
pub open spec fn with_differences(items: Seq<DiffItem>, names: Seq<Seq<char>>) -> Seq<Seq<char>>
    decreases items.len(),
{
    if items.len() == 0 {
        names
    } else {
        let cur = with_differences(items.drop_last(), names);
        let code = differences_code(items.drop_last());
        match items.last() {
            DiffItem::Name(b) => if code < 256 {
                cur.update(code, utf8_lossy(b@))
            } else {
                cur
            },
            _ => cur,
        }
    }
}

/// Every name of a `/Differences` array lands inside a table of `len`
/// entries.
pub open spec fn differences_fit(items: Seq<DiffItem>, len: int) -> bool {
    forall|i: int|
        0 <= i < items.len() && items[i] is Name && #[trigger] differences_code(items.take(i)) < 256
            ==> differences_code(items.take(i)) < len
}

/// A table of 256 or more entries takes any `/Differences` array.
pub proof fn lemma_differences_fit_full_table(items: Seq<DiffItem>, len: int)
    requires
        len >= 256,
    ensures
        differences_fit(items, len),
{
}

/// Apply a `/Differences` array to a 256-entry glyph-name table.
pub fn apply_differences(diffs: &Vec<DiffItem>, names: &mut Vec<String>)
    requires
        differences_fit(diffs@, old(names)@.len() as int),
    ensures
        final(names)@.len() == old(names)@.len(),
        texts(final(names)@) == with_differences(diffs@, texts(old(names)@)),
{
    let ghost start = texts(names@);
    let mut code: u64 = 0;
    let n = diffs.len();
    let mut i: usize = 0;
    assert(diffs@.take(0) =~= Seq::<DiffItem>::empty());
    while i < n
        invariant
            n == diffs@.len(),
            i <= n,
            names@.len() == start.len(),
            differences_fit(diffs@, start.len() as int),
            code as int == differences_code(diffs@.take(i as int)),
            texts(names@) == with_differences(diffs@.take(i as int), start),
        decreases n - i,
    {
        proof {
            assert(diffs@.take(i + 1).drop_last() =~= diffs@.take(i as int));
            assert(diffs@.take(i + 1).last() == diffs@[i as int]);
        }
        match &diffs[i] {
            DiffItem::Code(v) => {
                code = if *v < 0 {
                    0
                } else {
                    *v as u64
                };
            },
            DiffItem::Name(b) => {
                if code < 256 {
                    assert(differences_code(diffs@.take(i as int)) < start.len());
                    let text = lossy_string(b.as_slice());
                    let ghost before = names@;
                    names.set(code as usize, text);
                    proof {
                        assert(texts(names@) =~= texts(before).update(code as int, text@));
                    }
                    code = code + 1;
                }
            },
            DiffItem::Other => {},
        }
        i += 1;
    }
    assert(diffs@.take(n as int) =~= diffs@);
}

// ---------------------------------------------------------------------------
// Private-Use-Area ToUnicode maps
// ---------------------------------------------------------------------------

/// A character of the U+F000–U+F0FF Private Use block.
pub open spec fn is_pua_char(c: char) -> bool {
    0xF000 <= c as u32 <= 0xF0FF
}

pub open spec fn all_pua(s: Seq<char>) -> bool {
    forall|i: int| 0 <= i < s.len() ==> is_pua_char(#[trigger] s[i])
}

/// A "fake" `ToUnicode` map: non-empty, and every destination lies entirely
/// in U+F000–U+F0FF.
pub open spec fn is_pua_map(m: Map<u32, Seq<char>>) -> bool {
    m.dom().len() > 0 && forall|k: u32| #[trigger] m.contains_key(k) ==> all_pua(m[k])
}

/// The character a PUA code point U+F0XX stands for: the byte XX read through
/// the Symbol encoding, else through WinAnsi, else the character itself;
/// characters outside the block are unchanged.
pub open spec fn pua_resolution(c: char) -> char {
    if is_pua_char(c) {
        let b = (c as u32 - 0xF000) as u8;
        if symbol_code(b) != 0 {
            symbol_code(b) as char
        } else if win_ansi_code(b) != 0 {
            win_ansi_code(b) as char
        } else {
            c
        }
    } else {
        c
    }
}

pub open spec fn pua_repaired(m: Map<u32, Seq<char>>) -> Map<u32, Seq<char>> {
    m.map_values(|s: Seq<char>| s.map_values(|c: char| pua_resolution(c)))
}

proof fn lemma_take_push_to_set(s: Seq<u32>, i: int)
    requires
        0 <= i < s.len(),
    ensures
        s.take(i + 1).to_set() == s.take(i).to_set().insert(s[i]),
{
    assert forall|x: u32| #[trigger] s.take(i + 1).to_set().contains(x) <==> s.take(
        i,
    ).to_set().insert(s[i]).contains(x) by {
        if s.take(i + 1).to_set().contains(x) {
            assert(s.take(i + 1).contains(x));
            let j = choose|j: int| 0 <= j < i + 1 && #[trigger] s.take(i + 1)[j] == x;
            if j < i {
                assert(s.take(i)[j] == x);
                assert(s.take(i).contains(x));
            }
        }
        if s.take(i).to_set().insert(s[i]).contains(x) {
            if x == s[i] {
                assert(s.take(i + 1)[i] == x);
                assert(s.take(i + 1).contains(x));
            } else {
                assert(s.take(i).contains(x));
                let j = choose|j: int| 0 <= j < i && #[trigger] s.take(i)[j] == x;
                assert(s.take(i + 1)[j] == x);
                assert(s.take(i + 1).contains(x));
            }
        }
    }
    assert(s.take(i + 1).to_set() =~= s.take(i).to_set().insert(s[i]));
}

/// Detect a "fake" ToUnicode CMap where every destination is in the
/// U+F000–U+F0FF Private Use Area.
pub fn is_pua_cmap(map: &BTreeMap<u32, String>) -> (r: bool)
    ensures
        r == is_pua_map(text_map(map@)),
{
    let keys = map_codes(map);
    let ghost m = text_map(map@);
    assert(m.dom() == map@.dom());
    if keys.len() == 0 {
        assert(map@.dom() =~= Set::<u32>::empty()) by {
            assert forall|k: u32| !map@.dom().contains(k) by {
                if map@.dom().contains(k) {
                    assert(keys@.to_set().contains(k));
                }
            }
        }
        return false;
    }
    assert(map@.dom().contains(keys@[0]));
    assert(map@.dom().len() > 0) by {
        vstd::set_lib::lemma_set_empty_equivalency_len(map@.dom());
    }
    let n = keys.len();
    let mut i: usize = 0;
    while i < n
        invariant
            n == keys@.len(),
            i <= n,
            keys@.to_set() == map@.dom(),
            m == text_map(map@),
            forall|j: int| 0 <= j < i ==> all_pua(#[trigger] m[keys@[j]]),
        decreases n - i,
    {
        let k = keys[i];
        assert(keys@.to_set().contains(k));
        let v = match map.get(&k) {
            Some(v) => v,
            None => {
                assert(false);
                return false;
            },
        };
        let cs = chars_of(v.as_str());
        assert(cs@ == m[k]);
        assert(m.contains_key(k));
        let mut j: usize = 0;
        while j < cs.len()
            invariant
                j <= cs@.len(),
                m == text_map(map@),
                m.contains_key(k),
                cs@ == m[k],
                forall|q: int| 0 <= q < j ==> is_pua_char(#[trigger] cs@[q]),
            decreases cs@.len() - j,
        {
            let v = cs[j] as u32;
            if !(0xF000 <= v && v <= 0xF0FF) {
                assert(!is_pua_char(m[k][j as int]));
                assert(!all_pua(m[k]));
                return false;
            }
            j += 1;
        }
        assert(all_pua(m[k]));
        i += 1;
    }
    assert forall|k: u32| #[trigger] m.contains_key(k) implies all_pua(m[k]) by {
        assert(keys@.to_set().contains(k));
        let j = choose|j: int| 0 <= j < keys@.len() && keys@[j] == k;
        assert(all_pua(m[keys@[j]]));
    }
    true
}

/// Reinterpret a single PUA character U+F0XX back to a real Unicode
/// character: Symbol encoding first, WinAnsi as a fallback, the character
/// itself when neither resolves.
pub fn resolve_pua_byte(c: char) -> (r: char)
    ensures
        r == pua_resolution(c),
{
    let v = c as u32;
    if 0xF000 <= v && v <= 0xF0FF {
        let byte = (v - 0xF000) as u8;
        proof {
            lemma_codes_are_scalar(byte);
        }
        let sym = symbol_unicode(byte);
        let code = if sym != 0 {
            sym
        } else {
            win_ansi_unicode(byte)
        };
        if code == 0 {
            return c;
        }
        match char_from_u32(code) {
            Some(r) => r,
            None => c,
        }
    } else {
        c
    }
}

/// Repair a PUA-based ToUnicode CMap by reinterpreting each U+F0XX code
/// through known encodings (Symbol → WinAnsi).
pub fn repair_pua_cmap(map: &BTreeMap<u32, String>) -> (r: BTreeMap<u32, String>)
    ensures
        text_map(r@) == pua_repaired(text_map(map@)),
{
    let keys = map_codes(map);
    let ghost m = text_map(map@);
    let mut out: BTreeMap<u32, String> = BTreeMap::new();
    let n = keys.len();
    let mut i: usize = 0;
    while i < n
        invariant
            n == keys@.len(),
            i <= n,
            keys@.to_set() == map@.dom(),
            m == text_map(map@),
            text_map(out@) == pua_repaired(m).restrict(keys@.take(i as int).to_set()),
        decreases n - i,
    {
        let k = keys[i];
        assert(keys@.to_set().contains(k));
        let v = match map.get(&k) {
            Some(v) => v,
            None => {
                assert(false);
                return out;
            },
        };
        let cs = chars_of(v.as_str());
        assert(cs@ == m[k]);
        let mut fixed = String::new();
        let mut j: usize = 0;
        while j < cs.len()
            invariant
                j <= cs@.len(),
                fixed@ == cs@.take(j as int).map_values(|c: char| pua_resolution(c)),
            decreases cs@.len() - j,
        {
            fixed.push(resolve_pua_byte(cs[j]));
            j += 1;
            assert(fixed@ =~= cs@.take(j as int).map_values(|c: char| pua_resolution(c)));
        }
        assert(cs@.take(cs@.len() as int) =~= cs@);
        let ghost before = out@;
        assert(fixed@ == pua_repaired(m)[k]);
        out.insert(k, fixed);
        proof {
            assert(text_map(out@) =~= text_map(before).insert(k, fixed@));
            lemma_take_push_to_set(keys@, i as int);
            assert(text_map(out@) =~= pua_repaired(m).restrict(keys@.take(i + 1).to_set()));
        }
        i += 1;
    }
    proof {
        assert(keys@.take(n as int) =~= keys@);
        assert(pua_repaired(m).restrict(keys@.to_set()) =~= pua_repaired(m));
    }
    out
}

// ---------------------------------------------------------------------------
// The font model
// ---------------------------------------------------------------------------

/// A glyph of a simple font: its text, and its advance width in 1/1000 em
/// (the bit pattern of an `f32`).
#[derive(Clone, Debug)]
pub struct Glyph {
    pub text: Option<String>,
    pub width: u32,
}

/// How a font maps character codes to text and widths.
#[derive(Clone, Debug)]
pub enum FontKind {
    /// One glyph per byte code (0..=255).
    Simple(Vec<Glyph>),
    /// CID font: codes map to text through `ToUnicode` and to widths (`f32`
    /// bit patterns) through `/W`, with a default width for the others.
    Cid { to_unicode: BTreeMap<u32, String>, widths: BTreeMap<u32, u32>, default_width: u32 },
}

/// A font as the content-stream interpreter sees it.
#[derive(Clone, Debug)]
pub struct Font {
    /// Bytes consumed per character code: 1 for simple fonts, 2 for Type0/CID.
    pub code_bytes: usize,
    pub kind: FontKind,
    /// BaseFont name, used to label chars in the IR.
    pub base: String,
    /// A CID font whose text cannot be recovered (no `ToUnicode` entries).
    pub unmapped_cid: bool,
}

/// The text of an optional string.
pub open spec fn opt_text(t: Option<String>) -> Option<Seq<char>> {
    match t {
        Some(s) => Some(s@),
        None => None,
    }
}

/// The code-to-text map of an optional `ToUnicode` map.
pub open spec fn opt_text_map(m: Option<BTreeMap<u32, String>>) -> Option<Map<u32, Seq<char>>> {
    match m {
        Some(m) => Some(text_map(m@)),
        None => None,
    }
}

/// The text of code `code` in a simple font: the `ToUnicode` entry when the
/// font has a map that is not a Private-Use-Area one and the map lists the
/// code, else the text of the code's glyph name.
pub open spec fn simple_glyph_text(
    to_unicode: Option<Map<u32, Seq<char>>>,
    name: Seq<char>,
    code: u32,
) -> Option<Seq<char>> {
    match to_unicode {
        Some(m) => if !is_pua_map(m) && m.contains_key(code) {
            Some(m[code])
        } else {
            glyph_name_text(name)
        },
        None => glyph_name_text(name),
    }
}

/// The code-to-text map of a CID font: a Private-Use-Area map of a font
/// whose name mentions `Symbol` repaired, any other map as it is, none at all
/// empty.
pub open spec fn cid_text_map(to_unicode: Option<Map<u32, Seq<char>>>, base: Seq<char>) -> Map<
    u32,
    Seq<char>,
> {
    match to_unicode {
        Some(m) => if is_pua_map(m) && contains_text(base, "Symbol"@) {
            pua_repaired(m)
        } else {
            m
        },
        None => Map::empty(),
    }
}

impl Font {
    /// A simple font has one glyph per byte code.
    /// A simple font reads one byte per code and has one glyph per byte
    /// code; a CID font reads two bytes per code.
    pub open spec fn wf(&self) -> bool {
        match self.kind {
            FontKind::Simple(glyphs) => glyphs@.len() == 256 && self.code_bytes == 1,
            FontKind::Cid { .. } => self.code_bytes == 2,
        }
    }

    /// Whether the font is well formed (see [`Font::wf`]).
    pub fn is_well_formed(&self) -> (r: bool)
        ensures
            r == self.wf(),
    {
        match &self.kind {
            FontKind::Simple(glyphs) => glyphs.len() == 256 && self.code_bytes == 1,
            FontKind::Cid { .. } => self.code_bytes == 2,
        }
    }

    /// The text and width (an `f32` bit pattern) of a character code.
    pub open spec fn decoded(&self, code: u32) -> (Option<Seq<char>>, u32) {
        match self.kind {
            FontKind::Simple(glyphs) => {
                let g = glyphs@[(code % 256) as int];
                (opt_text(g.text), g.width)
            },
            FontKind::Cid { to_unicode, widths, default_width } => (
                if to_unicode@.contains_key(code) {
                    Some(to_unicode@[code]@)
                } else {
                    None
                },
                if widths@.contains_key(code) {
                    widths@[code]
                } else {
                    default_width
                },
            ),
        }
    }

    /// A simple (one byte per code) font: each code's text from the
    /// `ToUnicode` map unless that map is a "fake" Private-Use-Area one, else
    /// from its glyph name; each code's width from `widths`.
    pub fn simple(
        base: String,
        to_unicode: Option<BTreeMap<u32, String>>,
        names: &[String; 256],
        widths: &[u32; 256],
    ) -> (r: Font)
        ensures
            r.wf(),
            r.code_bytes == 1,
            r.base == base,
            !r.unmapped_cid,
            forall|c: u32|
                c < 256 ==> #[trigger] r.decoded(c) == (
                    simple_glyph_text(opt_text_map(to_unicode), names@[c as int]@, c),
                    widths@[c as int],
                ),
    {
        let ghost tu = opt_text_map(to_unicode);
        let usable = match to_unicode {
            Some(m) => if is_pua_cmap(&m) {
                None
            } else {
                Some(m)
            },
            None => None,
        };
        let mut glyphs: Vec<Glyph> = Vec::new();
        let mut c: u32 = 0;
        while c < 256
            invariant
                c <= 256,
                glyphs@.len() == c,
                names@.len() == 256,
                widths@.len() == 256,
                match usable {
                    Some(m) => tu == Some(text_map(m@)) && !is_pua_map(text_map(m@)),
                    None => tu is None || is_pua_map(tu->0),
                },
                forall|k: int|
                    0 <= k < c ==> (opt_text(#[trigger] glyphs@[k].text), glyphs@[k].width) == (
                        simple_glyph_text(tu, names@[k]@, k as u32),
                        widths@[k],
                    ),
            decreases 256 - c,
        {
            let from_map = match &usable {
                Some(m) => match m.get(&c) {
                    Some(t) => Some(t.clone()),
                    None => None,
                },
                None => None,
            };
            let text = match from_map {
                Some(t) => Some(t),
                None => name_to_unicode(names[c as usize].as_str()),
            };
            glyphs.push(Glyph { text, width: widths[c as usize] });
            c += 1;
        }
        proof {
            assert forall|k: u32| k < 256 implies #[trigger] (Font {
                code_bytes: 1,
                kind: FontKind::Simple(glyphs),
                base,
                unmapped_cid: false,
            }).decoded(k) == (simple_glyph_text(tu, names@[k as int]@, k), widths@[k as int]) by {
                assert(k % 256 == k);
                assert((opt_text(glyphs@[k as int].text), glyphs@[k as int].width) == (
                    simple_glyph_text(tu, names@[k as int]@, k),
                    widths@[k as int],
                ));
            }
        }
        Font { code_bytes: 1, kind: FontKind::Simple(glyphs), base, unmapped_cid: false }
    }

    /// A Type0/CID font (two bytes per code): text through the `ToUnicode`
    /// map, a Private-Use-Area map of a `Symbol` font repaired first, and
    /// flagged unmapped when no code has text.
    pub fn cid(
        base: String,
        to_unicode: Option<BTreeMap<u32, String>>,
        widths: BTreeMap<u32, u32>,
        default_width: u32,
    ) -> (r: Font)
        ensures
            r.wf(),
            r.code_bytes == 2,
            r.base == base,
            r.kind matches FontKind::Cid { to_unicode: t, widths: w, default_width: d } && text_map(
                t@,
            ) == cid_text_map(opt_text_map(to_unicode), base@) && w@ == widths@ && d
                == default_width,
            r.unmapped_cid == cid_text_map(opt_text_map(to_unicode), base@).is_empty(),
    {
        let tu = match to_unicode {
            Some(m) => if is_pua_cmap(&m) && contains_str(base.as_str(), "Symbol") {
                repair_pua_cmap(&m)
            } else {
                m
            },
            None => BTreeMap::new(),
        };
        proof {
            reveal_strlit("Symbol");
            assert(text_map(tu@).dom() == tu@.dom());
            if tu@.is_empty() {
                assert(text_map(tu@) =~= Map::empty());
            } else {
                let k = tu@.dom().choose();
                assert(text_map(tu@).contains_key(k));
            }
            assert(text_map(Map::<u32, String>::empty()) =~= Map::empty());
        }
        let unmapped_cid = tu.is_empty();
        Font {
            code_bytes: 2,
            kind: FontKind::Cid { to_unicode: tu, widths, default_width },
            base,
            unmapped_cid,
        }
    }

    /// `(unicode text, advance width in 1/1000 em)` for a character code; a
    /// simple font reads the code's low byte.
    pub fn decode(&self, code: u32) -> (r: (Option<String>, u32))
        requires
            self.wf(),
        ensures
            (opt_text(r.0), r.1) == self.decoded(code),
    {
        match &self.kind {
            FontKind::Simple(glyphs) => {
                let i = code & 0xFF;
                assert(code & 0xFF == code % 256) by (bit_vector);
                let g = &glyphs[i as usize];
                (g.text.clone(), g.width)
            },
            FontKind::Cid { to_unicode, widths, default_width } => {
                let text = match to_unicode.get(&code) {
                    Some(t) => Some(t.clone()),
                    None => None,
                };
                let w = match widths.get(&code) {
                    Some(w) => *w,
                    None => *default_width,
                };
                (text, w)
            },
        }
    }
}

// ---------------------------------------------------------------------------
// CID widths
// ---------------------------------------------------------------------------

/// One element of a CIDFont's `/W` array, as the width parser reads it: a
/// number (its value both as a code, cast to `u32`, and as a width, an `f32`
/// bit pattern), an array of widths, or anything else (read as 0).
#[derive(Clone, Debug)]
pub enum WItem {
    Num { code: u32, width: u32 },
    Array(Vec<u32>),
    Other,
}

/// The value of an item read as a code (0 unless it is a number).
pub open spec fn w_code(item: WItem) -> u32 {
    match item {
        WItem::Num { code, .. } => code,
        _ => 0,
    }
}

/// The value of an item read as a width (the bits of 0.0 unless it is a
/// number).
pub open spec fn w_width(item: WItem) -> u32 {
    match item {
        WItem::Num { width, .. } => width,
        _ => 0,
    }
}

/// `first + k ↦ ws[k]` for each width of a `c [w1 w2 …]` entry.
pub open spec fn w_run(first: u32, ws: Seq<u32>) -> Map<u32, u32> {
    Map::new(|k: u32| first <= k && k < first + ws.len(), |k: u32| ws[k - first])
}

/// `k ↦ w` for each code `first <= k < end` (a `c_first c_last w` entry
/// covers `c_first..c_last + 1`).
pub open spec fn w_span(first: int, end: int, w: u32) -> Map<u32, u32> {
    Map::new(|k: u32| first <= k && k < end, |k: u32| w)
}

/// The widths parsed from item `i` on, over the map `m`: `c [w1 w2 …]`
/// gives consecutive codes from `c`, `c_first c_last w` gives the codes
/// `c_first..=c_last` one width (0.0 when `w` is missing); a lone trailing
/// item ends the array.
pub open spec fn w_from(items: Seq<WItem>, i: int, m: Map<u32, u32>) -> Map<u32, u32>
    decreases items.len() + 2 - i,
{
    if i < 0 || i + 1 >= items.len() {
        m
    } else {
        let c = w_code(items[i]);
        match items[i + 1] {
            WItem::Array(ws) => w_from(items, i + 2, m.union_prefer_right(w_run(c, ws@))),
            second => {
                let w = if i + 2 < items.len() {
                    w_width(items[i + 2])
                } else {
                    0
                };
                w_from(items, i + 3, m.union_prefer_right(w_span(c as int, w_code(second) + 1, w)))
            },
        }
    }
}

/// Parse `/W`: `c [w1 w2 …]` (consecutive CIDs from `c`) or
/// `c_first c_last w`, into `out`; codes past `u32::MAX` are skipped.
pub fn parse_w(items: &Vec<WItem>, out: &mut BTreeMap<u32, u32>)
    ensures
        final(out)@ == w_from(items@, 0, old(out)@),
{
    let n = items.len();
    let mut i: usize = 0;
    while i < n && i + 1 < n
        invariant
            n == items@.len(),
            i <= n,
            w_from(items@, 0, old(out)@) == w_from(items@, i as int, out@),
        decreases n - i,
    {
        let c = match &items[i] {
            WItem::Num { code, .. } => *code,
            _ => 0,
        };
        let ghost before = out@;
        match &items[i + 1] {
            WItem::Array(ws) => {
                assert(w_from(items@, i as int, before) == w_from(
                    items@,
                    i + 2,
                    before.union_prefer_right(w_run(c, ws@)),
                ));
                // Codes past `u32::MAX` are skipped.
                let room: u64 = 0x1_0000_0000 - c as u64;
                let take: usize = if (ws.len() as u64) < room {
                    ws.len()
                } else {
                    room as usize
                };
                let mut k: usize = 0;
                while k < take
                    invariant
                        take <= ws@.len(),
                        c as int + take <= u32::MAX as int + 1,
                        k <= take,
                        out@ == before.union_prefer_right(w_run(c, ws@.take(k as int))),
                    decreases take - k,
                {
                    let code = c + k as u32;
                    out.insert(code, ws[k]);
                    proof {
                        assert(out@ =~= before.union_prefer_right(w_run(c, ws@.take(k + 1))));
                    }
                    k += 1;
                }
                assert(w_run(c, ws@.take(take as int)) =~= w_run(c, ws@));
                i += 2;
            },
            second => {
                let c_last = match second {
                    WItem::Num { code, .. } => *code,
                    _ => 0,
                };
                let w = if i + 2 < n {
                    match &items[i + 2] {
                        WItem::Num { width, .. } => *width,
                        _ => 0,
                    }
                } else {
                    0
                };
                assert(w_from(items@, i as int, before) == w_from(
                    items@,
                    i + 3,
                    before.union_prefer_right(w_span(c as int, c_last + 1, w)),
                ));
                let mut cid: u64 = c as u64;
                while cid <= c_last as u64
                    invariant
                        c <= cid,
                        cid <= c_last as u64 + 1 || cid == c,
                        out@ == before.union_prefer_right(w_span(c as int, cid as int, w)),
                    decreases c_last as u64 + 1 - cid,
                {
                    out.insert(cid as u32, w);
                    proof {
                        assert(out@ =~= before.union_prefer_right(w_span(c as int, cid + 1, w)));
                    }
                    cid += 1;
                }
                proof {
                    assert(out@ =~= before.union_prefer_right(w_span(c as int, c_last + 1, w)));
                }
                if i + 2 < n {
                    i += 3;
                } else {
                    proof {
                        assert(w_from(items@, i + 3, out@) == out@);
                        assert(w_from(items@, n as int, out@) == out@);
                    }
                    i = n;
                }
            },
        }
    }
}

// ---------------------------------------------------------------------------
// Fonts from their dictionaries
// ---------------------------------------------------------------------------

/// The width 1000.0 (1/1000 em) as an `f32` bit pattern: a CID font's
/// default width when its descendant has no `/DW`.
pub const DEFAULT_CID_WIDTH: u32 = 0x447A_0000;

/// Whether a font's `/Subtype` is `Type0`.
pub open spec fn is_type0(subtype: Option<Seq<u8>>) -> bool {
    subtype is Some && spells(subtype->0, "Type0"@)
}

/// A font's BaseFont name: its bytes read as lossy UTF-8, empty when the
/// font has none.
pub open spec fn base_font_name(name: Option<Seq<u8>>) -> Seq<char> {
    match name {
        Some(b) => utf8_lossy(b),
        None => seq![],
    }
}

/// The items of an optional `/W` array.
pub open spec fn opt_items(w: Option<&Vec<WItem>>) -> Option<Seq<WItem>> {
    match w {
        Some(v) => Some(v@),
        None => None,
    }
}

/// The code-to-width map of a CID font's `/W` array (empty without one).
pub open spec fn cid_width_map(w: Option<Seq<WItem>>) -> Map<u32, u32> {
    match w {
        Some(items) => w_from(items, 0, Map::empty()),
        None => Map::empty(),
    }
}

/// The default width of a CID font: its `/DW`, else 1000.
pub open spec fn cid_default_width(dw: Option<u32>) -> u32 {
    match dw {
        Some(d) => d,
        None => DEFAULT_CID_WIDTH,
    }
}

/// A CID font's widths from its descendant's `/W` array and `/DW` default
/// (both `None` when the font has no descendant).
pub fn cid_widths(w: Option<&Vec<WItem>>, dw: Option<u32>) -> (r: (BTreeMap<u32, u32>, u32))
    ensures
        r.0@ == cid_width_map(opt_items(w)),
        r.1 == cid_default_width(dw),
{
    let mut widths: BTreeMap<u32, u32> = BTreeMap::new();
    if let Some(items) = w {
        parse_w(items, &mut widths);
    }
    let d = match dw {
        Some(d) => d,
        None => DEFAULT_CID_WIDTH,
    };
    (widths, d)
}

/// The text map of a CID font is empty exactly when it has no `ToUnicode`
/// map or an empty one (repairing a Private-Use-Area map keeps its codes).
pub proof fn lemma_cid_unmapped(to_unicode: Option<BTreeMap<u32, String>>, base: Seq<char>)
    ensures
        cid_text_map(opt_text_map(to_unicode), base).dom().is_empty() <==> (to_unicode is None
            || to_unicode->0@.dom().is_empty()),
{
    match to_unicode {
        Some(m) => {
            assert(text_map(m@).dom() =~= m@.dom());
            lemma_pua_repair_keeps_shape(text_map(m@));
        },
        None => {},
    }
}

impl Font {
    /// Build a font from the parts of its dictionary: a `Type0` subtype
    /// makes a CID font (text through `ToUnicode`, widths from `/W` and
    /// `/DW`), any other a simple font (text through a real `ToUnicode` map
    /// or the glyph names, widths from `widths`); the BaseFont name labels
    /// it. A CID font is unmapped exactly when it has no `ToUnicode` map or
    /// an empty one.
    pub fn from_parts(
        base_name: Option<&[u8]>,
        subtype: Option<&[u8]>,
        to_unicode: Option<BTreeMap<u32, String>>,
        names: &[String; 256],
        widths: &[u32; 256],
        w: Option<&Vec<WItem>>,
        dw: Option<u32>,
    ) -> (r: Font)
        ensures
            r.wf(),
            r.base@ == base_font_name(opt_slice(base_name)),
            is_type0(opt_slice(subtype)) ==> {
                &&& r.code_bytes == 2
                &&& (r.unmapped_cid <==> (to_unicode is None || to_unicode->0@.dom().is_empty()))
                &&& forall|code: u32|
                    #[trigger] r.decoded(code) == (
                        if cid_text_map(opt_text_map(to_unicode), r.base@).contains_key(code) {
                            Some(cid_text_map(opt_text_map(to_unicode), r.base@)[code])
                        } else {
                            None
                        },
                        if cid_width_map(opt_items(w)).contains_key(code) {
                            cid_width_map(opt_items(w))[code]
                        } else {
                            cid_default_width(dw)
                        },
                    )
            },
            !is_type0(opt_slice(subtype)) ==> {
                &&& r.code_bytes == 1
                &&& !r.unmapped_cid
                &&& forall|c: u32|
                    c < 256 ==> #[trigger] r.decoded(c) == (
                        simple_glyph_text(opt_text_map(to_unicode), names@[c as int]@, c),
                        widths@[c as int],
                    )
            },
    {
        let base = match base_name {
            Some(b) => lossy_string(b),
            None => String::new(),
        };
        let type0 = match subtype {
            Some(t) => bytes_spell(t, "Type0"),
            None => false,
        };
        if type0 {
            let (wm, d) = cid_widths(w, dw);
            let ghost b = base@;
            let f = Font::cid(base, to_unicode, wm, d);
            proof {
                lemma_cid_unmapped(to_unicode, b);
                let t = cid_text_map(opt_text_map(to_unicode), b);
                assert(t.is_empty() <==> t.dom().is_empty()) by {
                    if t.dom().is_empty() {
                        assert(t =~= Map::empty());
                    }
                }
            }
            f
        } else {
            Font::simple(base, to_unicode, names, widths)
        }
    }
}

/// A one-byte font reads only a code's low byte: `decode(code)` and
/// `decode(code & 0xFF)` agree.
pub proof fn lemma_simple_decode_low_byte(f: Font, code: u32)
    requires
        f.wf(),
        f.code_bytes == 1,
    ensures
        f.decoded(code) == f.decoded(code & 0xFF),
{
    assert((code & 0xFF) % 256 == code % 256) by (bit_vector);
}

// ---------------------------------------------------------------------------
// Base-font names
// ---------------------------------------------------------------------------

/// Index of the first `+` at or after `j`, or the end.
pub open spec fn plus_index(s: Seq<char>, j: int) -> int
    decreases s.len() - j,
{
    if j >= s.len() {
        s.len() as int
    } else if s[j] == '+' {
        j
    } else {
        plus_index(s, j + 1)
    }
}

/// A font-subset tag: six ASCII capital letters.
pub open spec fn is_subset_tag(tag: Seq<char>) -> bool {
    tag.len() == 6 && forall|i: int| 0 <= i < 6 ==> 'A' <= #[trigger] tag[i] <= 'Z'
}

/// The base-font name without a subset prefix (`"ABCDEF+Helvetica"` →
/// `"Helvetica"`); a name whose part before the first `+` is not a subset tag
/// is kept whole.
pub open spec fn without_subset_tag(base: Seq<char>) -> Seq<char> {
    let p = plus_index(base, 0);
    if p < base.len() && is_subset_tag(base.take(p)) {
        base.skip(p + 1)
    } else {
        base
    }
}

/// The canonical Core-14 name of a base font: subset tag stripped and the
/// aliases `Arial`, `Arial-Bold` / `Arial,Bold`, `TimesNewRoman` / `Times`
/// mapped to `Helvetica`, `Helvetica-Bold`, `Times-Roman`.
pub open spec fn canonical_base_name(base: Seq<char>) -> Seq<char> {
    let s = without_subset_tag(base);
    if s == "Arial"@ {
        "Helvetica"@
    } else if s == "Arial-Bold"@ || s == "Arial,Bold"@ {
        "Helvetica-Bold"@
    } else if s == "TimesNewRoman"@ || s == "Times"@ {
        "Times-Roman"@
    } else {
        s
    }
}

/// Strip a subset prefix ("ABCDEF+Helvetica" → "Helvetica") and normalize a
/// few common aliases to their Core-14 name.
pub fn canonical_base(base: &str) -> (r: String)
    ensures
        r@ == canonical_base_name(base@),
{
    let cs = chars_of(base);
    let n = cs.len();
    let mut p: usize = 0;
    while p < n && cs[p] != '+'
        invariant
            n == base@.len(),
            cs@ == base@,
            p <= n,
            plus_index(base@, 0) == plus_index(base@, p as int),
        decreases n - p,
    {
        p += 1;
    }
    let mut tagged = p < n && p == 6;
    let mut i: usize = 0;
    while tagged && i < 6
        invariant
            n == base@.len(),
            cs@ == base@,
            tagged ==> p == 6 && p < n,
            i <= 6,
            tagged ==> forall|q: int| 0 <= q < i ==> 'A' <= #[trigger] base@[q] <= 'Z',
            !tagged ==> !(p < n && is_subset_tag(base@.take(p as int))),
        decreases 6 - i,
    {
        if !('A' <= cs[i] && cs[i] <= 'Z') {
            tagged = false;
            assert(!is_subset_tag(base@.take(p as int))) by {
                assert(base@.take(p as int)[i as int] == base@[i as int]);
            }
        }
        i += 1;
    }
    proof {
        if tagged {
            assert forall|q: int| 0 <= q < 6 implies 'A' <= #[trigger] base@.take(p as int)[q] <= 'Z' by {
                assert(base@.take(p as int)[q] == base@[q]);
            }
            assert(is_subset_tag(base@.take(p as int)));
        }
    }
    let stripped = if tagged {
        string_of(&cs, p + 1, n)
    } else {
        string_of(&cs, 0, n)
    };
    assert(stripped@ =~= without_subset_tag(base@));
    let st = stripped.as_str();
    if same_text(st, "Arial") {
        String::from_str("Helvetica")
    } else if same_text(st, "Arial-Bold") || same_text(st, "Arial,Bold") {
        String::from_str("Helvetica-Bold")
    } else if same_text(st, "TimesNewRoman") || same_text(st, "Times") {
        String::from_str("Times-Roman")
    } else {
        stripped
    }
}


// ---------------------------------------------------------------------------
// Laws
// ---------------------------------------------------------------------------

proof fn lemma_dot_index_bounds(s: Seq<char>, j: int)
    requires
        0 <= j <= s.len(),
    ensures
        j <= dot_index(s, j) <= s.len(),
        forall|i: int| j <= i < dot_index(s, j) ==> s[i] != '.',
    decreases s.len() - j,
{
    if j < s.len() && s[j] != '.' {
        lemma_dot_index_bounds(s, j + 1);
    }
}

proof fn lemma_dot_index_none(s: Seq<char>, j: int)
    requires
        0 <= j <= s.len(),
        forall|i: int| j <= i < s.len() ==> s[i] != '.',
    ensures
        dot_index(s, j) == s.len(),
    decreases s.len() - j,
{
    if j < s.len() {
        lemma_dot_index_none(s, j + 1);
    }
}

/// A glyph-name suffix never changes the text: a name with a non-empty core
/// (`"A.sc"`, `"f_i.liga"`) reads as its core (`"A"`, `"f_i"`).
pub proof fn lemma_suffix_ignored(name: Seq<char>)
    requires
        name_core(name).len() > 0,
    ensures
        glyph_name_text(name) == glyph_name_text(name_core(name)),
{
    reveal(glyph_name_text);
    let core = name_core(name);
    lemma_dot_index_bounds(name, 0);
    assert forall|i: int| 0 <= i < core.len() implies core[i] != '.' by {
        assert(core[i] == name[i]);
    }
    lemma_dot_index_none(core, 0);
    assert(name_core(core) =~= core);
    assert(core[0] != '.');
    assert(core[0] == name[0]);
    assert(core != ".notdef"@ && name != ".notdef"@) by {
        reveal_strlit(".notdef");
        assert(".notdef"@[0] == '.');
    }
}

/// Every non-zero code of the Symbol and WinAnsi tables lies outside the
/// U+F000–U+F0FF block.
proof fn lemma_codes_outside_pua(b: u8)
    ensures
        symbol_code(b) == 0 || !(0xF000 <= symbol_code(b) <= 0xF0FF),
        win_ansi_code(b) == 0 || !(0xF000 <= win_ansi_code(b) <= 0xF0FF),
{
}

/// Repairing a Private-Use-Area character takes it out of the block unless
/// both encodings leave its byte unused, in which case it is kept as it is.
pub proof fn lemma_pua_resolution_leaves_block(c: char)
    requires
        is_pua_char(c),
    ensures
        ({
            let b = (c as u32 - 0xF000) as u8;
            if symbol_code(b) != 0 || win_ansi_code(b) != 0 {
                !is_pua_char(pua_resolution(c))
            } else {
                pua_resolution(c) == c
            }
        }),
{
    let b = (c as u32 - 0xF000) as u8;
    lemma_codes_outside_pua(b);
    lemma_codes_are_scalar(b);
}

/// Repairing a Private-Use-Area map keeps every code and the length of every
/// destination, and leaves every character outside the block as it was.
pub proof fn lemma_pua_repair_keeps_shape(m: Map<u32, Seq<char>>)
    ensures
        pua_repaired(m).dom() == m.dom(),
        forall|k: u32|
            #[trigger] m.contains_key(k) ==> pua_repaired(m)[k].len() == m[k].len() && forall|i: int|
                0 <= i < m[k].len() && !is_pua_char(m[k][i]) ==> pua_repaired(m)[k][i] == m[k][i],
{
    assert(pua_repaired(m).dom() =~= m.dom());
}

} // verus!
