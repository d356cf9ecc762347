//! Advance widths of simple fonts: an explicit `/Widths` array, else the
//! fixed pitch of Courier, else the Core-14 metrics of Helvetica and Times,
//! else a fallback. Widths are carried as `f32` bit patterns, 1/1000 em.

use vstd::prelude::*;
use crate::fonts::{canonical_base, canonical_base_name, convention_text, glyph_name_convention};
use crate::cmap::same_text;
use crate::text::{chars_of, starts_with_text, starts_with_str};

verus! {

/// The glyphs whose Core-14 widths are tabled here: those of the printable
/// ASCII characters, in code order, then the typographic quotes, bullet,
/// dashes and ellipsis.
pub const CORE14_GLYPH_NAMES: [&'static str; 103] = [
    "space", "exclam", "quotedbl", "numbersign", "dollar", "percent", "ampersand",
    "quotesingle", "parenleft", "parenright", "asterisk", "plus", "comma", "hyphen",
    "period", "slash", "zero", "one", "two", "three", "four", "five", "six", "seven",
    "eight", "nine", "colon", "semicolon", "less", "equal", "greater", "question", "at",
    "A", "B", "C", "D", "E", "F", "G", "H", "I", "J", "K", "L", "M", "N", "O", "P", "Q",
    "R", "S", "T", "U", "V", "W", "X", "Y", "Z", "bracketleft", "backslash", "bracketright",
    "asciicircum", "underscore", "grave", "a", "b", "c", "d", "e", "f", "g", "h", "i", "j",
    "k", "l", "m", "n", "o", "p", "q", "r", "s", "t", "u", "v", "w", "x", "y", "z",
    "braceleft", "bar", "braceright", "asciitilde", "quoteright", "quoteleft", "bullet",
    "endash", "emdash", "quotedblleft", "quotedblright", "ellipsis",
];

/// Helvetica (and Helvetica-Oblique): advance widths (1/1000 em) of the glyphs of
/// [`CORE14_GLYPH_NAMES`], in that order.
pub const HELVETICA_WIDTHS: [u16; 103] = [
    278, 278, 355, 556, 556, 889, 667, 191, 333, 333, 389, 584, 278, 333, 278, 278,
    556, 556, 556, 556, 556, 556, 556, 556, 556, 556, 278, 278, 584, 584, 584, 556,
    1015, 667, 667, 722, 722, 667, 611, 778, 722, 278, 500, 667, 556, 833, 722, 778,
    667, 778, 722, 667, 611, 722, 667, 944, 667, 667, 611, 278, 278, 278, 469, 556,
    333, 556, 556, 500, 556, 556, 278, 556, 556, 222, 222, 500, 222, 833, 556, 556,
    556, 556, 333, 500, 278, 556, 500, 722, 500, 500, 500, 334, 260, 334, 584, 222,
    222, 350, 556, 1000, 333, 333, 1000,
];

/// Helvetica-Bold (and Helvetica-BoldOblique): advance widths (1/1000 em) of the glyphs of
/// [`CORE14_GLYPH_NAMES`], in that order.
pub const HELVETICA_BOLD_WIDTHS: [u16; 103] = [
    278, 333, 474, 556, 556, 889, 722, 238, 333, 333, 389, 584, 278, 333, 278, 278,
    556, 556, 556, 556, 556, 556, 556, 556, 556, 556, 333, 333, 584, 584, 584, 611,
    975, 722, 722, 722, 722, 667, 611, 778, 722, 278, 556, 722, 611, 833, 722, 778,
    667, 778, 722, 667, 611, 722, 667, 944, 667, 667, 611, 333, 278, 333, 584, 556,
    333, 556, 611, 556, 611, 556, 333, 611, 611, 278, 278, 556, 278, 889, 611, 611,
    611, 611, 389, 556, 333, 611, 556, 778, 556, 556, 500, 389, 280, 389, 584, 278,
    278, 350, 556, 1000, 500, 500, 1000,
];

/// Times-Roman: advance widths (1/1000 em) of the glyphs of
/// [`CORE14_GLYPH_NAMES`], in that order.
pub const TIMES_ROMAN_WIDTHS: [u16; 103] = [
    250, 333, 408, 500, 500, 833, 778, 180, 333, 333, 500, 564, 250, 333, 250, 278,
    500, 500, 500, 500, 500, 500, 500, 500, 500, 500, 278, 278, 564, 564, 564, 444,
    921, 722, 667, 667, 722, 611, 556, 722, 722, 333, 389, 722, 611, 889, 722, 722,
    556, 722, 667, 556, 611, 722, 722, 944, 722, 722, 611, 333, 278, 333, 469, 500,
    333, 444, 500, 444, 500, 444, 333, 500, 500, 278, 278, 500, 278, 778, 500, 500,
    500, 500, 333, 389, 278, 500, 500, 722, 500, 500, 444, 480, 200, 480, 541, 333,
    333, 350, 500, 1000, 444, 444, 1000,
];

/// Times-Bold: advance widths (1/1000 em) of the glyphs of
/// [`CORE14_GLYPH_NAMES`], in that order.
pub const TIMES_BOLD_WIDTHS: [u16; 103] = [
    250, 333, 555, 500, 500, 1000, 833, 278, 333, 333, 500, 570, 250, 333, 250, 278,
    500, 500, 500, 500, 500, 500, 500, 500, 500, 500, 333, 333, 570, 570, 570, 500,
    930, 722, 667, 722, 722, 667, 611, 778, 778, 389, 500, 778, 667, 944, 722, 778,
    611, 778, 722, 556, 667, 722, 722, 1000, 722, 722, 667, 333, 278, 333, 581, 500,
    333, 500, 556, 444, 556, 444, 333, 500, 556, 278, 333, 556, 278, 833, 556, 500,
    556, 556, 444, 389, 333, 556, 500, 722, 500, 500, 444, 394, 220, 394, 520, 333,
    333, 350, 500, 1000, 500, 500, 1000,
];

/// Times-Italic: advance widths (1/1000 em) of the glyphs of
/// [`CORE14_GLYPH_NAMES`], in that order.
pub const TIMES_ITALIC_WIDTHS: [u16; 103] = [
    250, 333, 420, 500, 500, 833, 778, 214, 333, 333, 500, 675, 250, 333, 250, 278,
    500, 500, 500, 500, 500, 500, 500, 500, 500, 500, 333, 333, 675, 675, 675, 500,
    920, 611, 611, 667, 722, 611, 611, 722, 722, 333, 444, 667, 556, 833, 667, 722,
    611, 722, 611, 500, 556, 722, 611, 833, 611, 556, 556, 389, 278, 389, 422, 500,
    333, 500, 500, 444, 500, 444, 278, 500, 500, 278, 278, 444, 278, 722, 500, 500,
    500, 500, 389, 389, 278, 500, 444, 667, 444, 444, 389, 400, 275, 400, 541, 333,
    333, 350, 500, 889, 556, 556, 889,
];

/// Times-BoldItalic: advance widths (1/1000 em) of the glyphs of
/// [`CORE14_GLYPH_NAMES`], in that order.
pub const TIMES_BOLD_ITALIC_WIDTHS: [u16; 103] = [
    250, 389, 555, 500, 500, 833, 778, 278, 333, 333, 500, 570, 250, 333, 250, 278,
    500, 500, 500, 500, 500, 500, 500, 500, 500, 500, 333, 333, 570, 570, 570, 500,
    832, 667, 667, 667, 722, 667, 667, 722, 778, 389, 500, 667, 611, 889, 722, 722,
    611, 722, 667, 556, 611, 722, 667, 889, 667, 611, 611, 333, 278, 333, 570, 500,
    333, 500, 500, 444, 500, 444, 333, 500, 556, 278, 278, 500, 278, 778, 556, 500,
    500, 500, 389, 389, 278, 556, 444, 667, 500, 444, 389, 348, 220, 348, 570, 333,
    333, 350, 500, 1000, 500, 500, 1000,
];

/// 500.0 as an `f32` bit pattern: the width when nothing better is known.
pub const DEFAULT_WIDTH_BITS: u32 = 0x43FA_0000;

/// 600.0 as an `f32` bit pattern: the fixed pitch of the Courier family.
pub const COURIER_WIDTH_BITS: u32 = 0x4416_0000;

/// The `f32` bit pattern of a whole number `128 <= n < 2048`: exponent
/// `127 + e` for `2^e <= n < 2^(e+1)`, and the bits of `n` below `2^e` as
/// the top of the mantissa.
pub open spec fn f32_bits_of(n: int) -> u32 {
    if n < 256 {
        (134 * 0x80_0000 + (n - 128) * 0x1_0000) as u32
    } else if n < 512 {
        (135 * 0x80_0000 + (n - 256) * 0x8000) as u32
    } else if n < 1024 {
        (136 * 0x80_0000 + (n - 512) * 0x4000) as u32
    } else {
        (137 * 0x80_0000 + (n - 1024) * 0x2000) as u32
    }
}

/// The `f32` bit pattern of a whole number `128 <= n < 2048`.
pub fn f32_bits_of_int(n: u16) -> (r: u32)
    requires
        128 <= n < 2048,
    ensures
        r == f32_bits_of(n as int),
{
    let v = n as u32;
    if v < 256 {
        134 * 0x80_0000 + (v - 128) * 0x1_0000
    } else if v < 512 {
        135 * 0x80_0000 + (v - 256) * 0x8000
    } else if v < 1024 {
        136 * 0x80_0000 + (v - 512) * 0x4000
    } else {
        137 * 0x80_0000 + (v - 1024) * 0x2000
    }
}

/// The Core-14 fonts whose metrics are known here.
#[derive(Clone, Copy, Debug, PartialEq, Eq, Structural)]
pub enum Core14 {
    Helvetica,
    HelveticaBold,
    TimesRoman,
    TimesBold,
    TimesItalic,
    TimesBoldItalic,
}

/// The Core-14 metrics a canonical base-font name uses, if any.
pub open spec fn core14_of(canon: Seq<char>) -> Option<Core14> {
    if canon == "Helvetica"@ || canon == "Helvetica-Oblique"@ {
        Some(Core14::Helvetica)
    } else if canon == "Helvetica-Bold"@ || canon == "Helvetica-BoldOblique"@ {
        Some(Core14::HelveticaBold)
    } else if canon == "Times-Roman"@ {
        Some(Core14::TimesRoman)
    } else if canon == "Times-Bold"@ {
        Some(Core14::TimesBold)
    } else if canon == "Times-Italic"@ {
        Some(Core14::TimesItalic)
    } else if canon == "Times-BoldItalic"@ {
        Some(Core14::TimesBoldItalic)
    } else {
        None
    }
}

/// The first position at or after `i` of a glyph name in
/// [`CORE14_GLYPH_NAMES`].
pub open spec fn core14_index_from(name: Seq<char>, i: int) -> Option<int>
    decreases 103 - i,
{
    if i < 0 || i >= 103 {
        None
    } else if CORE14_GLYPH_NAMES@[i]@ == name {
        Some(i)
    } else {
        core14_index_from(name, i + 1)
    }
}

/// The Core-14 width (1/1000 em) at a position of the tables.
pub open spec fn core14_table_width(font: Core14, i: int) -> u16 {
    match font {
        Core14::Helvetica => HELVETICA_WIDTHS@[i],
        Core14::HelveticaBold => HELVETICA_BOLD_WIDTHS@[i],
        Core14::TimesRoman => TIMES_ROMAN_WIDTHS@[i],
        Core14::TimesBold => TIMES_BOLD_WIDTHS@[i],
        Core14::TimesItalic => TIMES_ITALIC_WIDTHS@[i],
        Core14::TimesBoldItalic => TIMES_BOLD_ITALIC_WIDTHS@[i],
    }
}

/// The position in the tables of a character's glyph: printable ASCII in
/// code order, then U+2019 and U+2018 (the single quotes), U+2022 (bullet),
/// U+2013 and U+2014 (the dashes), U+201C and U+201D (the double quotes) and
/// U+2026 (ellipsis), as [`CORE14_GLYPH_NAMES`] lists them.
pub open spec fn core14_char_index(c: char) -> Option<int> {
    let v = c as u32;
    if 0x20 <= v <= 0x7E {
        Some(v - 0x20)
    } else if v == 0x2019 {
        Some(95)
    } else if v == 0x2018 {
        Some(96)
    } else if v == 0x2022 {
        Some(97)
    } else if v == 0x2013 {
        Some(98)
    } else if v == 0x2014 {
        Some(99)
    } else if v == 0x201C {
        Some(100)
    } else if v == 0x201D {
        Some(101)
    } else if v == 0x2026 {
        Some(102)
    } else {
        None
    }
}

/// The position in the tables of the glyph a name stands for: the name
/// itself where it is listed, else the one character that a `uniXXXX` or
/// `uXXXXXX` name spells.
pub open spec fn core14_glyph_index(name: Seq<char>) -> Option<int> {
    match core14_index_from(name, 0) {
        Some(i) => Some(i),
        None => match convention_text(name) {
            Some(t) => if t.len() == 1 {
                core14_char_index(t[0])
            } else {
                None
            },
            None => None,
        },
    }
}

/// The Core-14 width (1/1000 em) of a glyph, looked up by its name.
pub open spec fn core14_glyph_width(font: Core14, name: Seq<char>) -> Option<u16> {
    match core14_glyph_index(name) {
        Some(i) => Some(core14_table_width(font, i)),
        None => None,
    }
}

/// Every width in the Core-14 tables is between 128 and 2047.
proof fn lemma_core14_widths_in_range(font: Core14, i: int)
    requires
        0 <= i < 103,
    ensures
        128 <= core14_table_width(font, i) < 2048,
{
    assert(forall|k: int| 0 <= k < 103 ==> 128 <= #[trigger] HELVETICA_WIDTHS@[k] < 2048);
    assert(forall|k: int| 0 <= k < 103 ==> 128 <= #[trigger] HELVETICA_BOLD_WIDTHS@[k] < 2048);
    assert(forall|k: int| 0 <= k < 103 ==> 128 <= #[trigger] TIMES_ROMAN_WIDTHS@[k] < 2048);
    assert(forall|k: int| 0 <= k < 103 ==> 128 <= #[trigger] TIMES_BOLD_WIDTHS@[k] < 2048);
    assert(forall|k: int| 0 <= k < 103 ==> 128 <= #[trigger] TIMES_ITALIC_WIDTHS@[k] < 2048);
    assert(forall|k: int|
        0 <= k < 103 ==> 128 <= #[trigger] TIMES_BOLD_ITALIC_WIDTHS@[k] < 2048);
}

/// A found position is a position of the tables.
proof fn lemma_core14_index_in_range(name: Seq<char>, i: int)
    ensures
        core14_index_from(name, i) matches Some(k) ==> 0 <= k < 103,
    decreases 103 - i,
{
    if 0 <= i < 103 && CORE14_GLYPH_NAMES@[i]@ != name {
        lemma_core14_index_in_range(name, i + 1);
    }
}

/// The items of an optional `/Widths` array.
pub open spec fn opt_widths(w: Option<&Vec<u32>>) -> Option<Seq<u32>> {
    match w {
        Some(v) => Some(v@),
        None => None,
    }
}

/// The width of code `code` in a simple font: `/Widths[code - first_char]`
/// when that index is in the array, else the fallback; without `/Widths`,
/// 600 for a Courier font, else the Core-14 metric of the code's glyph for
/// a Helvetica or Times font, else the fallback. The fallback is
/// `missing` (a positive `/MissingWidth`), or 500.
pub open spec fn simple_width(
    first_char: int,
    widths: Option<Seq<u32>>,
    missing: Option<u32>,
    base: Seq<char>,
    name: Seq<char>,
    code: int,
) -> u32 {
    let fallback = match missing {
        Some(m) => m,
        None => DEFAULT_WIDTH_BITS,
    };
    match widths {
        Some(ws) => if 0 <= code - first_char < ws.len() {
            ws[code - first_char]
        } else {
            fallback
        },
        None => {
            let canon = canonical_base_name(base);
            if starts_with_text(canon, "Courier"@) {
                COURIER_WIDTH_BITS
            } else {
                match core14_of(canon) {
                    Some(f) => match core14_glyph_width(f, name) {
                        Some(w) => f32_bits_of(w as int),
                        None => fallback,
                    },
                    None => fallback,
                }
            }
        },
    }
}

/// The Core-14 metrics a canonical base-font name uses, if any.
fn core14_font(canon: &str) -> (r: Option<Core14>)
    ensures
        r == core14_of(canon@),
{
    if same_text(canon, "Helvetica") || same_text(canon, "Helvetica-Oblique") {
        Some(Core14::Helvetica)
    } else if same_text(canon, "Helvetica-Bold") || same_text(canon, "Helvetica-BoldOblique") {
        Some(Core14::HelveticaBold)
    } else if same_text(canon, "Times-Roman") {
        Some(Core14::TimesRoman)
    } else if same_text(canon, "Times-Bold") {
        Some(Core14::TimesBold)
    } else if same_text(canon, "Times-Italic") {
        Some(Core14::TimesItalic)
    } else if same_text(canon, "Times-BoldItalic") {
        Some(Core14::TimesBoldItalic)
    } else {
        None
    }
}

/// The position in the tables of the glyph a name stands for.
fn core14_index(name: &str) -> (r: Option<usize>)
    ensures
        r matches Some(i) ==> core14_glyph_index(name@) == Some(i as int) && i < 103,
        r is None ==> core14_glyph_index(name@) is None,
{
    match core14_listed_index(name) {
        Some(i) => {
            proof {
                lemma_core14_index_in_range(name@, 0);
            }
            Some(i)
        },
        None => match glyph_name_convention(name) {
            Some(t) => {
                let cs = chars_of(t.as_str());
                if cs.len() == 1 {
                    let v = cs[0] as u32;
                    if 0x20 <= v && v <= 0x7E {
                        Some((v - 0x20) as usize)
                    } else {
                        core14_punctuation_index(cs[0])
                    }
                } else {
                    None
                }
            },
            None => None,
        },
    }
}

/// The position in the tables of a character past ASCII.
fn core14_punctuation_index(c: char) -> (r: Option<usize>)
    requires
        !(0x20 <= c as u32 <= 0x7E),
    ensures
        match r {
            Some(i) => core14_char_index(c) == Some(i as int),
            None => core14_char_index(c) is None,
        },
{
    let v = c as u32;
    if v == 0x2019 {
        Some(95)
    } else if v == 0x2018 {
        Some(96)
    } else if v == 0x2022 {
        Some(97)
    } else if v == 0x2013 {
        Some(98)
    } else if v == 0x2014 {
        Some(99)
    } else if v == 0x201C {
        Some(100)
    } else if v == 0x201D {
        Some(101)
    } else if v == 0x2026 {
        Some(102)
    } else {
        None
    }
}

/// The position of a glyph name in [`CORE14_GLYPH_NAMES`], if it is there.
fn core14_listed_index(name: &str) -> (r: Option<usize>)
    ensures
        r matches Some(i) ==> core14_index_from(name@, 0) == Some(i as int),
        r is None ==> core14_index_from(name@, 0) is None,
{
    let mut i: usize = 0;
    while i < 103
        invariant
            i <= 103,
            core14_index_from(name@, 0) == core14_index_from(name@, i as int),
        decreases 103 - i,
    {
        if same_text(name, CORE14_GLYPH_NAMES[i]) {
            return Some(i);
        }
        i += 1;
    }
    None
}

/// The width at a position of the tables of one font.
fn core14_width(font: Core14, i: usize) -> (r: u16)
    requires
        i < 103,
    ensures
        r == core14_table_width(font, i as int),
{
    match font {
        Core14::Helvetica => HELVETICA_WIDTHS[i],
        Core14::HelveticaBold => HELVETICA_BOLD_WIDTHS[i],
        Core14::TimesRoman => TIMES_ROMAN_WIDTHS[i],
        Core14::TimesBold => TIMES_BOLD_WIDTHS[i],
        Core14::TimesItalic => TIMES_ITALIC_WIDTHS[i],
        Core14::TimesBoldItalic => TIMES_BOLD_ITALIC_WIDTHS[i],
    }
}

/// The advance widths of codes 0..=255 of a simple font (see
/// [`simple_width`]): `first_char` is its `/FirstChar` (0 when absent),
/// `widths` its `/Widths` array, `missing` its `/MissingWidth` when that is
/// positive, `base` its BaseFont name and `names` its glyph names.
pub fn simple_widths(
    first_char: i64,
    widths: Option<&Vec<u32>>,
    missing: Option<u32>,
    base: &str,
    names: &[String; 256],
) -> (r: [u32; 256])
    ensures
        forall|c: int|
            0 <= c < 256 ==> r@[c] == simple_width(
                first_char as int,
                opt_widths(widths),
                missing,
                base@,
                names@[c]@,
                c,
            ),
{
    let fallback = match missing {
        Some(m) => m,
        None => DEFAULT_WIDTH_BITS,
    };
    let canon = canonical_base(base);
    let courier = starts_with_str(canon.as_str(), "Courier");
    let core14 = core14_font(canon.as_str());
    proof {
        reveal_strlit("Courier");
    }
    let mut r: [u32; 256] = [0u32; 256];
    let mut c: usize = 0;
    while c < 256
        invariant
            c <= 256,
            r@.len() == 256,
            courier == starts_with_text(canonical_base_name(base@), "Courier"@),
            core14 == core14_of(canonical_base_name(base@)),
            fallback == match missing {
                Some(m) => m,
                None => DEFAULT_WIDTH_BITS,
            },
            forall|k: int|
                0 <= k < c ==> r@[k] == simple_width(
                    first_char as int,
                    opt_widths(widths),
                    missing,
                    base@,
                    names@[k]@,
                    k,
                ),
        decreases 256 - c,
    {
        let w: u32 = match widths {
            Some(ws) => {
                let d: i128 = c as i128 - first_char as i128;
                if 0 <= d && d < ws.len() as i128 {
                    ws[d as usize]
                } else {
                    fallback
                }
            },
            None => if courier {
                COURIER_WIDTH_BITS
            } else {
                match core14 {
                    Some(f) => match core14_index(names[c].as_str()) {
                        Some(i) => {
                            proof {
                                lemma_core14_widths_in_range(f, i as int);
                            }
                            f32_bits_of_int(core14_width(f, i))
                        },
                        None => fallback,
                    },
                    None => fallback,
                }
            },
        };
        r[c] = w;
        c += 1;
    }
    r
}

// ---------------------------------------------------------------------------
// Laws
// ---------------------------------------------------------------------------

/// The Core-14 faces of the Helvetica and Times families.
pub open spec fn is_helvetica_or_times_face(canon: Seq<char>) -> bool {
    canon == "Helvetica"@ || canon == "Helvetica-Bold"@ || canon == "Helvetica-Oblique"@ || canon
        == "Helvetica-BoldOblique"@ || canon == "Times-Roman"@ || canon == "Times-Bold"@ || canon
        == "Times-Italic"@ || canon == "Times-BoldItalic"@
}

proof fn lemma_listed_name_found(name: Seq<char>, i: int, j: int)
    requires
        0 <= j <= i < 103,
        CORE14_GLYPH_NAMES@[i]@ == name,
    ensures
        core14_index_from(name, j) is Some,
    decreases i - j,
{
    if j < i && CORE14_GLYPH_NAMES@[j]@ != name {
        lemma_listed_name_found(name, i, j + 1);
    }
}

proof fn lemma_face_metrics(canon: Seq<char>)
    requires
        is_helvetica_or_times_face(canon),
    ensures
        !starts_with_text(canon, "Courier"@),
        core14_of(canon) is Some,
        canon == "Helvetica-Oblique"@ ==> core14_of(canon) == core14_of("Helvetica"@),
        canon == "Helvetica-BoldOblique"@ ==> core14_of(canon) == core14_of("Helvetica-Bold"@),
{
    reveal_strlit("Courier");
    reveal_strlit("Helvetica");
    reveal_strlit("Helvetica-Bold");
    reveal_strlit("Helvetica-Oblique");
    reveal_strlit("Helvetica-BoldOblique");
    reveal_strlit("Times-Roman");
    reveal_strlit("Times-Bold");
    reveal_strlit("Times-Italic");
    reveal_strlit("Times-BoldItalic");
    assert("Helvetica-Bold"@.len() != "Helvetica"@.len());
    assert("Helvetica-Bold"@.len() != "Helvetica-Oblique"@.len());
    assert(core14_of("Helvetica-Bold"@) == Some(Core14::HelveticaBold));
    assert(canon.take(7) != "Courier"@ || canon.len() < 7) by {
        if canon.len() >= 7 {
            assert(canon[0] != 'C');
            assert(canon.take(7)[0] == canon[0]);
        }
    }
}

/// Without `/Widths`, every face of the Helvetica and Times families (the
/// upright, bold, oblique or italic and bold-oblique or bold-italic ones)
/// takes a listed glyph's width from its metrics: the width does not depend
/// on `/MissingWidth`.
pub proof fn lemma_core14_faces_use_metrics(
    first_char: int,
    m1: Option<u32>,
    m2: Option<u32>,
    base: Seq<char>,
    name: Seq<char>,
    code: int,
    i: int,
)
    requires
        is_helvetica_or_times_face(canonical_base_name(base)),
        0 <= i < 103,
        CORE14_GLYPH_NAMES@[i]@ == name,
    ensures
        simple_width(first_char, None, m1, base, name, code) == simple_width(
            first_char,
            None,
            m2,
            base,
            name,
            code,
        ),
{
    lemma_face_metrics(canonical_base_name(base));
    lemma_listed_name_found(name, i, 0);
}

/// An oblique Helvetica face measures exactly as its upright face:
/// Helvetica-Oblique as Helvetica and Helvetica-BoldOblique as
/// Helvetica-Bold, for every code, glyph and dictionary.
pub proof fn lemma_oblique_faces_share_metrics(
    first_char: int,
    widths: Option<Seq<u32>>,
    missing: Option<u32>,
    oblique: Seq<char>,
    upright: Seq<char>,
    name: Seq<char>,
    code: int,
)
    requires
        (canonical_base_name(oblique) == "Helvetica-Oblique"@ && canonical_base_name(upright)
            == "Helvetica"@) || (canonical_base_name(oblique) == "Helvetica-BoldOblique"@
            && canonical_base_name(upright) == "Helvetica-Bold"@),
    ensures
        simple_width(first_char, widths, missing, oblique, name, code) == simple_width(
            first_char,
            widths,
            missing,
            upright,
            name,
            code,
        ),
{
    lemma_face_metrics(canonical_base_name(oblique));
    lemma_face_metrics(canonical_base_name(upright));
}

/// With a `/Widths` array, neither the base font nor the glyph matters: a
/// code inside the array takes its entry, any other code the fallback.
pub proof fn lemma_widths_array_decides(
    first_char: int,
    widths: Seq<u32>,
    missing: Option<u32>,
    base1: Seq<char>,
    base2: Seq<char>,
    name1: Seq<char>,
    name2: Seq<char>,
    code: int,
)
    ensures
        simple_width(first_char, Some(widths), missing, base1, name1, code) == simple_width(
            first_char,
            Some(widths),
            missing,
            base2,
            name2,
            code,
        ),
        0 <= code - first_char < widths.len() ==> simple_width(
            first_char,
            Some(widths),
            missing,
            base1,
            name1,
            code,
        ) == widths[code - first_char],
{
}

} // verus!
