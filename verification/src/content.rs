//! The decisions of the content-stream interpreter that do not depend on
//! geometry: which character codes a shown string holds and what text each
//! one draws (with CJK compatibility normalization), when a font without
//! text is reported, how an image XObject is stored, and the page-scoped
//! warnings the interpreter records.

use vstd::prelude::*;
use crate::fonts::{opt_text, Font};
use crate::ir::{Rect, Rule, Warning, WarningKind};
use crate::cmap::same_text;
use crate::text::{bytes_spell, chars_of, opt_slice, spells};
use base64::Engine;
use unicode_normalization::UnicodeNormalization;

verus! {

/// The NFKC normalization of `s` under the Unicode tables of the
/// `unicode-normalization` crate.
pub uninterp spec fn nfkc(s: Seq<char>) -> Seq<char>;

/// `UnicodeNormalization::nfkc` of `unicode-normalization`, collected into a
/// string. Trusted: the result is the NFKC form of `s` as that crate
/// computes it.
#[verifier::external_body]
fn nfkc_string(s: &str) -> (r: String)
    ensures
        r@ == nfkc(s@),
{
    s.nfkc().collect()
}

/// A CJK compatibility/radical code point whose glyph is really a normal
/// ideograph: CJK Radicals Supplement, Kangxi Radicals, CJK Compatibility
/// Ideographs and their Supplement.
pub open spec fn is_cjk_compat_char(c: char) -> bool {
    let v = c as u32;
    (0x2E80 <= v <= 0x2EFF) || (0x2F00 <= v <= 0x2FDF) || (0xF900 <= v <= 0xFAFF) || (0x2F800
        <= v <= 0x2FA1F)
}

/// `s` with each CJK compatibility character replaced by its NFKC form and
/// every other character kept as it is.
pub open spec fn cjk_normalized(s: Seq<char>) -> Seq<char>
    decreases s.len(),
{
    if s.len() == 0 {
        seq![]
    } else {
        cjk_normalized(s.drop_last()) + if is_cjk_compat_char(s.last()) {
            nfkc(seq![s.last()])
        } else {
            seq![s.last()]
        }
    }
}

/// Whether `c` is a CJK compatibility/radical code point (see
/// [`is_cjk_compat_char`]).
pub fn is_cjk_compat(c: char) -> (r: bool)
    ensures
        r == is_cjk_compat_char(c),
{
    let v = c as u32;
    (0x2E80 <= v && v <= 0x2EFF) || (0x2F00 <= v && v <= 0x2FDF) || (0xF900 <= v && v <= 0xFAFF)
        || (0x2F800 <= v && v <= 0x2FA1F)
}

/// Map CJK compatibility code points to their canonical ideograph (NFKC of
/// just those characters); pass everything else through untouched, so
/// circled numbers, full-width forms and ligatures stay byte-exact.
pub fn normalize_cjk_compat(s: &str) -> (r: String)
    ensures
        r@ == cjk_normalized(s@),
{
    let cs = chars_of(s);
    let n = cs.len();
    let mut out = String::new();
    let mut i: usize = 0;
    while i < n
        invariant
            n == s@.len(),
            cs@ == s@,
            i <= n,
            out@ == cjk_normalized(s@.take(i as int)),
        decreases n - i,
    {
        let c = cs[i];
        assert(s@.take(i + 1).drop_last() =~= s@.take(i as int));
        if is_cjk_compat(c) {
            let mut one = String::new();
            one.push(c);
            assert(one@ =~= seq![c]);
            let norm = nfkc_string(one.as_str());
            out.append(norm.as_str());
        } else {
            out.push(c);
        }
        i += 1;
    }
    assert(s@.take(n as int) =~= s@);
    out
}

// ---------------------------------------------------------------------------
// Operands
// ---------------------------------------------------------------------------

/// A content-stream operand: a number (the bit pattern of an `f32`), a
/// string, a name, an array, or anything else.
#[derive(Debug)]
pub enum Operand {
    Num(u32),
    Str(Vec<u8>),
    Name(Vec<u8>),
    Array(Vec<Operand>),
    Other,
}

/// The bytes of an optional byte vector.
pub open spec fn opt_bytes(v: Option<Vec<u8>>) -> Option<Seq<u8>> {
    match v {
        Some(b) => Some(b@),
        None => None,
    }
}

/// The name an operand holds, if it is a name.
pub fn name_bytes(o: Option<&Operand>) -> (r: Option<Vec<u8>>)
    ensures
        opt_bytes(r) == match o {
            Some(Operand::Name(n)) => Some(n@),
            _ => None,
        },
{
    match o {
        Some(Operand::Name(n)) => {
            let b = n.clone();
            assert(b@ =~= n@);
            Some(b)
        },
        _ => None,
    }
}

// ---------------------------------------------------------------------------
// Showing a string
// ---------------------------------------------------------------------------

/// Bytes read per character code: the font's code width, at least one.
pub open spec fn show_step(code_bytes: usize) -> int {
    if code_bytes == 0 {
        1
    } else {
        code_bytes as int
    }
}

/// The character code at byte `k`: two bytes big-endian when the step is two
/// and a second byte follows, else the single byte.
pub open spec fn code_at(bytes: Seq<u8>, step: int, k: int) -> u32 {
    if step == 2 && k + 1 < bytes.len() {
        (bytes[k] as u32 * 256 + bytes[k + 1] as u32) as u32
    } else {
        bytes[k] as u32
    }
}

/// The character codes of `bytes` from byte `k` on, `step` bytes apart.
pub open spec fn codes_from(bytes: Seq<u8>, step: int, k: int) -> Seq<u32>
    decreases bytes.len() - k + step,
{
    if step <= 0 || k < 0 || k >= bytes.len() {
        seq![]
    } else {
        seq![code_at(bytes, step, k)] + codes_from(bytes, step, k + step)
    }
}

/// The text drawn for a code whose font text is `t`: none for missing or
/// empty text, else the text with CJK compatibility characters normalized.
pub open spec fn drawn_text(t: Option<Seq<char>>) -> Option<Seq<char>> {
    match t {
        Some(s) => if s.len() > 0 {
            Some(cjk_normalized(s))
        } else {
            None
        },
        None => None,
    }
}

/// What showing one character code draws and advances.
#[derive(Clone, Debug)]
pub struct ShownCode {
    pub code: u32,
    /// The text drawn for the code, `None` when the font gives none.
    pub text: Option<String>,
    /// The advance width in 1/1000 em (an `f32` bit pattern).
    pub width: u32,
    /// Word spacing applies: a single-byte font's code 32.
    pub word_space: bool,
}

/// The expected entry for character code `code` shown in `font`.
pub open spec fn shown_entry(font: Font, code: u32, e: ShownCode) -> bool {
    &&& e.code == code
    &&& opt_text(e.text) == drawn_text(font.decoded(code).0)
    &&& e.width == font.decoded(code).1
    &&& e.word_space == (show_step(font.code_bytes) == 1 && code == 32)
}

/// The character codes of a shown string and, for each, the text it draws,
/// its advance width and whether word spacing applies.
pub fn decode_shown(font: &Font, bytes: &[u8]) -> (r: Vec<ShownCode>)
    requires
        font.wf(),
    ensures
        r@.len() == codes_from(bytes@, show_step(font.code_bytes), 0).len(),
        forall|j: int|
            0 <= j < r@.len() ==> shown_entry(
                *font,
                codes_from(bytes@, show_step(font.code_bytes), 0)[j],
                #[trigger] r@[j],
            ),
{
    let step: usize = if font.code_bytes == 0 {
        1
    } else {
        font.code_bytes
    };
    let ghost all = codes_from(bytes@, step as int, 0);
    let ghost mut done: Seq<u32> = seq![];
    let n = bytes.len();
    let mut out: Vec<ShownCode> = Vec::new();
    let mut k: usize = 0;
    while k < n
        invariant
            font.wf(),
            step as int == show_step(font.code_bytes),
            step >= 1,
            n == bytes@.len(),
            k <= n,
            all == codes_from(bytes@, step as int, 0),
            done + codes_from(bytes@, step as int, k as int) == all,
            out@.len() == done.len(),
            forall|j: int| 0 <= j < out@.len() ==> shown_entry(*font, done[j], #[trigger] out@[j]),
        decreases n - k,
    {
        let code: u32 = if step == 2 && k + 1 < n {
            let hi = bytes[k] as u32;
            let lo = bytes[k + 1] as u32;
            assert((hi << 8) | lo == hi * 256 + lo) by (bit_vector)
                requires
                    hi < 256,
                    lo < 256,
            ;
            (hi << 8) | lo
        } else {
            bytes[k] as u32
        };
        assert(code == code_at(bytes@, step as int, k as int));
        let (text, w) = font.decode(code);
        let drawn = match text {
            Some(t) => if !t.as_str().is_empty() {
                Some(normalize_cjk_compat(t.as_str()))
            } else {
                None
            },
            None => None,
        };
        let entry = ShownCode { code, text: drawn, width: w, word_space: step == 1 && code == 32 };
        proof {
            assert(codes_from(bytes@, step as int, k as int) == seq![code] + codes_from(
                bytes@,
                step as int,
                k + step,
            ));
            assert((done.push(code)) + codes_from(bytes@, step as int, k + step) =~= done
                + codes_from(bytes@, step as int, k as int));
            done = done.push(code);
        }
        out.push(entry);
        if n - k <= step {
            proof {
                assert(codes_from(bytes@, step as int, k + step) == Seq::<u32>::empty());
                assert(codes_from(bytes@, step as int, n as int) == Seq::<u32>::empty());
            }
            k = n;
        } else {
            k += step;
        }
    }
    proof {
        assert(codes_from(bytes@, step as int, n as int) == Seq::<u32>::empty());
        assert(done + Seq::<u32>::empty() =~= done);
    }
    out
}

/// The detail of the warning about a CID font without text.
pub open spec fn missing_cmap_detail(base: Seq<char>) -> Seq<char> {
    "CID font '"@ + base + "' has no ToUnicode; text not recoverable"@
}

/// A font without a text map is reported once per page: the first string
/// shown in such a font yields a `MissingCMap` warning and sets
/// `warned_cid`; later ones yield nothing.
pub fn missing_cmap_warning(font: &Font, page_index: u32, warned_cid: &mut bool) -> (r: Option<
    Warning,
>)
    ensures
        r is Some <==> font.unmapped_cid && !*old(warned_cid),
        r matches Some(w) ==> w.page == Some(page_index) && w.kind == WarningKind::MissingCMap
            && w.detail@ == missing_cmap_detail(font.base@),
        *final(warned_cid) == (*old(warned_cid) || font.unmapped_cid),
{
    if font.unmapped_cid && !*warned_cid {
        let mut detail = String::from_str("CID font '");
        detail.append(font.base.as_str());
        detail.append("' has no ToUnicode; text not recoverable");
        proof {
            reveal_strlit("CID font '");
            reveal_strlit("' has no ToUnicode; text not recoverable");
        }
        *warned_cid = true;
        Some(Warning { page: Some(page_index), kind: WarningKind::MissingCMap, detail })
    } else {
        None
    }
}

// ---------------------------------------------------------------------------
// Paths, the graphics-state stack and forms
// ---------------------------------------------------------------------------

/// What a path-painting operator does to the geometry of the current path.
#[derive(Clone, Copy, Debug, PartialEq, Eq, Structural)]
pub enum PathPaint {
    /// A stroking operator (`S s B B* b b*`): the path is drawn, so its
    /// rectangles and segments are table borders.
    Stroke,
    /// A fill-only or no-paint operator (`f F f* n`): decoration, dropped.
    Discard,
    /// Any other operator leaves the path open.
    Keep,
}

/// The paint an operator does (see [`PathPaint`]).
pub open spec fn path_paint_of(op: Seq<char>) -> PathPaint {
    if op == "S"@ || op == "s"@ || op == "B"@ || op == "B*"@ || op == "b"@ || op == "b*"@ {
        PathPaint::Stroke
    } else if op == "f"@ || op == "F"@ || op == "f*"@ || op == "n"@ {
        PathPaint::Discard
    } else {
        PathPaint::Keep
    }
}

/// Classify a content-stream operator as a path-painting one.
pub fn path_paint(op: &str) -> (r: PathPaint)
    ensures
        r == path_paint_of(op@),
{
    if same_text(op, "S") || same_text(op, "s") || same_text(op, "B") || same_text(op, "B*")
        || same_text(op, "b") || same_text(op, "b*") {
        PathPaint::Stroke
    } else if same_text(op, "f") || same_text(op, "F") || same_text(op, "f*") || same_text(op, "n") {
        PathPaint::Discard
    } else {
        PathPaint::Keep
    }
}

/// End the current path: a stroked path's pending rectangles and segments
/// join the page's, in order; a filled or unpainted path's are dropped; any
/// other operator changes nothing.
pub fn end_path(
    paint: PathPaint,
    pending_rects: &mut Vec<Rect>,
    pending_rules: &mut Vec<Rule>,
    rects: &mut Vec<Rect>,
    rules: &mut Vec<Rule>,
)
    ensures
        paint == PathPaint::Stroke ==> final(rects)@ == old(rects)@ + old(pending_rects)@
            && final(rules)@ == old(rules)@ + old(pending_rules)@,
        paint != PathPaint::Stroke ==> final(rects)@ == old(rects)@ && final(rules)@ == old(rules)@,
        paint != PathPaint::Keep ==> final(pending_rects)@.len() == 0 && final(pending_rules)@.len()
            == 0,
        paint == PathPaint::Keep ==> final(pending_rects)@ == old(pending_rects)@
            && final(pending_rules)@ == old(pending_rules)@,
{
    match paint {
        PathPaint::Stroke => {
            rects.append(pending_rects);
            rules.append(pending_rules);
        },
        PathPaint::Discard => {
            pending_rects.clear();
            pending_rules.clear();
        },
        PathPaint::Keep => {},
    }
}

/// `Q`: restore the most recently saved graphics state, if one was saved
/// (an unmatched `Q` changes nothing).
pub fn restore_state<T>(stack: &mut Vec<T>, state: &mut T)
    ensures
        old(stack)@.len() > 0 ==> *final(state) == old(stack)@.last() && final(stack)@
            == old(stack)@.drop_last(),
        old(stack)@.len() == 0 ==> *final(state) == *old(state) && final(stack)@ == old(stack)@,
{
    match stack.pop() {
        Some(s) => {
            *state = s;
        },
        None => {},
    }
}

/// How deep form XObjects nest before `Do` is ignored.
pub const MAX_FORM_DEPTH: u8 = 12;

/// Whether a form XObject may be entered at nesting depth `depth`.
pub fn may_enter_form(depth: u8) -> (r: bool)
    ensures
        r == (depth < MAX_FORM_DEPTH),
{
    depth < MAX_FORM_DEPTH
}

// ---------------------------------------------------------------------------
// Image XObjects
// ---------------------------------------------------------------------------

/// The base64 digit for a 6-bit value: `A`–`Z`, `a`–`z`, `0`–`9`, `+`, `/`.
pub open spec fn base64_digit(v: int) -> char {
    if v < 26 {
        (65 + v) as char
    } else if v < 52 {
        (97 + v - 26) as char
    } else if v < 62 {
        (48 + v - 52) as char
    } else if v == 62 {
        '+'
    } else {
        '/'
    }
}

/// The text of `bytes` in standard base64 (RFC 4648): each group of three
/// bytes as four digits of six bits, a final group of one or two bytes
/// padded with `=` to four characters.
pub open spec fn base64_standard(b: Seq<u8>) -> Seq<char>
    decreases b.len(),
{
    if b.len() == 0 {
        seq![]
    } else {
        let x = b[0] as int;
        let y = if b.len() > 1 {
            b[1] as int
        } else {
            0
        };
        let z = if b.len() > 2 {
            b[2] as int
        } else {
            0
        };
        let c0 = base64_digit(x / 4);
        let c1 = base64_digit((x % 4) * 16 + y / 16);
        let c2 = base64_digit((y % 16) * 4 + z / 64);
        let c3 = base64_digit(z % 64);
        if b.len() == 1 {
            seq![c0, c1, '=', '=']
        } else if b.len() == 2 {
            seq![c0, c1, c2, '=']
        } else {
            seq![c0, c1, c2, c3] + base64_standard(b.skip(3))
        }
    }
}

/// `base64::engine::general_purpose::STANDARD.encode`. Trusted: the result
/// is the padded standard base64 text of `bytes` (the `STANDARD` engine uses
/// the RFC 4648 alphabet with padding); the crate panics when the encoded
/// length overflows `usize`, which `requires` rules out.
#[verifier::external_body]
fn base64_encode(bytes: &[u8]) -> (r: String)
    requires
        (bytes@.len() + 2) / 3 * 4 <= usize::MAX,
    ensures
        r@ == base64_standard(bytes@),
{
    base64::engine::general_purpose::STANDARD.encode(bytes)
}

/// The MIME type an image is stored under: JPEG (`DCTDecode`) and JPEG 2000
/// (`JPXDecode`) data as they are, anything else as raw octets.
pub open spec fn image_mime_of(filter: Option<Seq<u8>>) -> Seq<char> {
    if filter is Some && spells(filter->0, "DCTDecode"@) {
        "image/jpeg"@
    } else if filter is Some && spells(filter->0, "JPXDecode"@) {
        "image/jp2"@
    } else {
        "application/octet-stream"@
    }
}

/// Whether an image's stream is decompressed before it is stored: JPEG and
/// JPEG 2000 data never are, `FlateDecode` data always, and other data when
/// the stream has a `/Filter` at all (a failed decompression keeps the raw
/// bytes).
pub open spec fn image_decoded_of(filter: Option<Seq<u8>>, has_filter: bool) -> bool {
    if filter is Some && (spells(filter->0, "DCTDecode"@) || spells(filter->0, "JPXDecode"@)) {
        false
    } else if filter is Some && spells(filter->0, "FlateDecode"@) {
        true
    } else {
        has_filter
    }
}

/// How an image XObject's bytes are stored: whether to decompress the stream
/// first, and the MIME type; `filter` is the `/Filter` name (when it is a
/// name) and `has_filter` whether the stream has a `/Filter` entry.
pub fn image_encoding(filter: Option<&[u8]>, has_filter: bool) -> (r: (bool, String))
    ensures
        r.0 == image_decoded_of(opt_slice(filter), has_filter),
        r.1@ == image_mime_of(opt_slice(filter)),
{
    proof {
        reveal_strlit("image/jpeg");
        reveal_strlit("image/jp2");
        reveal_strlit("application/octet-stream");
    }
    if let Some(f) = filter {
        if bytes_spell(f, "DCTDecode") {
            return (false, String::from_str("image/jpeg"));
        }
        if bytes_spell(f, "JPXDecode") {
            return (false, String::from_str("image/jp2"));
        }
        if bytes_spell(f, "FlateDecode") {
            return (true, String::from_str("application/octet-stream"));
        }
    }
    (has_filter, String::from_str("application/octet-stream"))
}

/// The `data:` URI of an image: `data:<mime>;base64,<data>`.
pub open spec fn data_uri(mime: Seq<char>, data: Seq<u8>) -> Seq<char> {
    "data:"@ + mime + ";base64,"@ + base64_standard(data)
}

/// An image XObject as the IR records it, `(width, height, data URI)`: none
/// unless the XObject is an image with a non-zero width and height.
pub fn image_record(is_image: bool, width: u32, height: u32, mime: &str, raw: &[u8]) -> (r:
    Option<(u32, u32, String)>)
    requires
        (raw@.len() + 2) / 3 * 4 <= usize::MAX,
    ensures
        r is Some <==> is_image && width != 0 && height != 0,
        r matches Some(t) ==> t.0 == width && t.1 == height && t.2@ == data_uri(mime@, raw@),
{
    if !is_image || width == 0 || height == 0 {
        return None;
    }
    let b64 = base64_encode(raw);
    let mut uri = String::from_str("data:");
    uri.append(mime);
    uri.append(";base64,");
    uri.append(b64.as_str());
    proof {
        reveal_strlit("data:");
        reveal_strlit(";base64,");
    }
    Some((width, height, uri))
}

/// A page-scoped warning about an object that could not be parsed.
pub fn warn(page: u32, detail: String) -> (r: Warning)
    ensures
        r.page == Some(page),
        r.kind == WarningKind::MalformedObject,
        r.detail == detail,
{
    Warning { page: Some(page), kind: WarningKind::MalformedObject, detail }
}


// ---------------------------------------------------------------------------
// Laws
// ---------------------------------------------------------------------------

/// Text without CJK compatibility characters is left exactly as it is.
pub proof fn lemma_cjk_untouched(s: Seq<char>)
    requires
        forall|i: int| 0 <= i < s.len() ==> !is_cjk_compat_char(#[trigger] s[i]),
    ensures
        cjk_normalized(s) == s,
    decreases s.len(),
{
    if s.len() > 0 {
        let init = s.drop_last();
        assert forall|i: int| 0 <= i < init.len() implies !is_cjk_compat_char(#[trigger] init[i]) by {
            assert(init[i] == s[i]);
        }
        lemma_cjk_untouched(init);
        assert(!is_cjk_compat_char(s[s.len() - 1]));
        assert(init + seq![s.last()] =~= s);
    }
}

/// Normalizing maps each character on its own: the normalized text of a
/// concatenation is the concatenation of the normalized texts.
pub proof fn lemma_cjk_normalized_concat(a: Seq<char>, b: Seq<char>)
    ensures
        cjk_normalized(a + b) == cjk_normalized(a) + cjk_normalized(b),
    decreases b.len(),
{
    if b.len() == 0 {
        assert(a + b =~= a);
        assert(cjk_normalized(a) + cjk_normalized(b) =~= cjk_normalized(a));
    } else {
        lemma_cjk_normalized_concat(a, b.drop_last());
        assert((a + b).drop_last() =~= a + b.drop_last());
        assert((a + b).last() == b.last());
        let tail = if is_cjk_compat_char(b.last()) {
            nfkc(seq![b.last()])
        } else {
            seq![b.last()]
        };
        assert(cjk_normalized(a + b) == cjk_normalized(a + b.drop_last()) + tail);
        assert(cjk_normalized(b) == cjk_normalized(b.drop_last()) + tail);
        assert(cjk_normalized(a + b) =~= cjk_normalized(a) + cjk_normalized(b));
    }
}

/// Wherever it stands in a text, a character of the CJK Radicals Supplement
/// (U+2E80..U+2EFF), the Kangxi Radicals (U+2F00..U+2FDF), the CJK
/// Compatibility Ideographs (U+F900..U+FAFF) or their Supplement
/// (U+2F800..U+2FA1F) is replaced by its NFKC form, and any other character
/// is kept as it is; the text around it is normalized on its own.
pub proof fn lemma_cjk_blocks_normalized(s: Seq<char>, i: int)
    requires
        0 <= i < s.len(),
    ensures
        cjk_normalized(s) == cjk_normalized(s.take(i)) + (if (0x2E80 <= s[i] as u32 <= 0x2EFF)
            || (0x2F00 <= s[i] as u32 <= 0x2FDF) || (0xF900 <= s[i] as u32 <= 0xFAFF) || (0x2F800
            <= s[i] as u32 <= 0x2FA1F) {
            nfkc(seq![s[i]])
        } else {
            seq![s[i]]
        }) + cjk_normalized(s.skip(i + 1)),
{
    let c = s[i];
    assert(s =~= s.take(i) + seq![c] + s.skip(i + 1));
    lemma_cjk_normalized_concat(s.take(i) + seq![c], s.skip(i + 1));
    lemma_cjk_normalized_concat(s.take(i), seq![c]);
    assert(seq![c].drop_last() =~= Seq::<char>::empty());
    assert(cjk_normalized(Seq::<char>::empty()) =~= Seq::<char>::empty());
    let one = if is_cjk_compat_char(c) {
        nfkc(seq![c])
    } else {
        seq![c]
    };
    assert(cjk_normalized(seq![c]) =~= cjk_normalized(Seq::<char>::empty()) + one);
}

proof fn lemma_codes_from_len(bytes: Seq<u8>, step: int, k: int)
    requires
        step >= 1,
        0 <= k <= bytes.len(),
    ensures
        codes_from(bytes, step, k).len() == (bytes.len() - k + step - 1) / step,
    decreases bytes.len() - k,
{
    let n = bytes.len() - k;
    if k < bytes.len() {
        if k + step <= bytes.len() {
            lemma_codes_from_len(bytes, step, k + step);
            assert((n - step + step - 1) / step + 1 == (n + step - 1) / step) by (nonlinear_arith)
                requires
                    step >= 1,
                    n >= step,
            {
                assert(n + step - 1 == (n - 1) + step);
                vstd::arithmetic::div_mod::lemma_div_plus_one(n - 1, step);
            }
        } else {
            assert(codes_from(bytes, step, k + step).len() == 0);
            assert((n + step - 1) / step == 1) by (nonlinear_arith)
                requires
                    step >= 1,
                    1 <= n < step,
            {
                vstd::arithmetic::div_mod::lemma_div_plus_one(n - 1, step);
                vstd::arithmetic::div_mod::lemma_basic_div(n - 1, step);
            }
        }
    } else {
        assert((step - 1) / step == 0) by (nonlinear_arith)
            requires
                step >= 1,
        {
            vstd::arithmetic::div_mod::lemma_basic_div(step - 1, step);
        }
    }
}

/// A shown string of `n` bytes holds `n` codes in a one-byte font and
/// `⌈n / 2⌉` in a two-byte font (a trailing odd byte is a code of its own).
pub proof fn lemma_code_count(bytes: Seq<u8>, code_bytes: usize)
    ensures
        codes_from(bytes, show_step(code_bytes), 0).len() == (bytes.len() + show_step(code_bytes)
            - 1) / show_step(code_bytes),
{
    lemma_codes_from_len(bytes, show_step(code_bytes), 0);
}

} // verus!
