//! Small, exactly specified helpers on `char` and `String` shared by every
//! module, plus the specifications this crate gives to the few `std` string
//! operations it relies on.

use vstd::prelude::*;

verus! {

/// `String::push` appends one character to the end of the string.
pub assume_specification[ String::push ](s: &mut String, ch: char)
    ensures
        final(s)@ == old(s)@.push(ch),
;

/// A Unicode scalar value: any code point outside the surrogate block and at
/// most U+10FFFF.
pub open spec fn is_scalar_value(cp: int) -> bool {
    (0 <= cp < 0xD800) || (0xE000 <= cp <= 0x10FFFF)
}

/// `char::from_u32`: the `char` with code point `cp`, or `None` when `cp` is a
/// surrogate or above U+10FFFF (as the standard library documents).
#[verifier::external_body]
pub(crate) fn char_from_u32(cp: u32) -> (r: Option<char>)
    ensures
        r is Some <==> is_scalar_value(cp as int),
        r matches Some(c) ==> c == cp as char && c as u32 == cp,
{
    char::from_u32(cp)
}

/// `parts` joined with `sep` between consecutive parts (`[].join(sep)` is
/// empty, a single part is itself).
pub open spec fn join(parts: Seq<Seq<char>>, sep: Seq<char>) -> Seq<char>
    decreases parts.len(),
{
    if parts.len() == 0 {
        seq![]
    } else if parts.len() == 1 {
        parts[0]
    } else {
        join(parts.drop_last(), sep) + sep + parts.last()
    }
}

/// The texts of a sequence of strings.
pub open spec fn texts(parts: Seq<String>) -> Seq<Seq<char>> {
    parts.map_values(|s: String| s@)
}

/// Join strings with a separator (`[String]::join`).
pub fn join_strings(parts: &Vec<String>, sep: &str) -> (r: String)
    ensures
        r@ == join(texts(parts@), sep@),
{
    let mut out = String::new();
    let n = parts.len();
    let mut i: usize = 0;
    while i < n
        invariant
            n == parts@.len(),
            i <= n,
            out@ == join(texts(parts@).take(i as int), sep@),
        decreases n - i,
    {
        let ghost pre = texts(parts@).take(i as int);
        let ghost next = texts(parts@).take(i + 1);
        assert(next.drop_last() =~= pre);
        assert(next.last() == parts@[i as int]@);
        if i > 0 {
            out.append(sep);
        }
        out.append(parts[i].as_str());
        proof {
            if i == 0 {
                assert(out@ =~= next[0]);
            }
        }
        i += 1;
    }
    assert(texts(parts@).take(n as int) =~= texts(parts@));
    out
}

/// The Unicode `White_Space` characters (`char::is_whitespace`).
pub open spec fn is_white_space(c: char) -> bool {
    let v = c as u32;
    (0x09 <= v <= 0x0D) || v == 0x20 || v == 0x85 || v == 0xA0 || v == 0x1680 || (0x2000 <= v
        <= 0x200A) || v == 0x2028 || v == 0x2029 || v == 0x202F || v == 0x205F || v == 0x3000
}

/// Whether every character of `s` is white space, i.e. `s.trim()` is empty.
pub open spec fn is_blank_text(s: Seq<char>) -> bool {
    forall|i: int| 0 <= i < s.len() ==> is_white_space(#[trigger] s[i])
}

/// `char::is_whitespace`.
pub fn is_white_space_char(c: char) -> (r: bool)
    ensures
        r == is_white_space(c),
{
    let v = c as u32;
    (0x09 <= v && v <= 0x0D) || v == 0x20 || v == 0x85 || v == 0xA0 || v == 0x1680 || (0x2000
        <= v && v <= 0x200A) || v == 0x2028 || v == 0x2029 || v == 0x202F || v == 0x205F || v
        == 0x3000
}

/// Whether `s.trim()` is empty: every character is white space.
pub fn is_blank(s: &str) -> (r: bool)
    ensures
        r == is_blank_text(s@),
{
    let cs = chars_of(s);
    let n = cs.len();
    let mut i: usize = 0;
    while i < n
        invariant
            n == s@.len(),
            cs@ == s@,
            i <= n,
            forall|k: int| 0 <= k < i ==> is_white_space(#[trigger] s@[k]),
        decreases n - i,
    {
        if !is_white_space_char(cs[i]) {
            return false;
        }
        i += 1;
    }
    true
}

/// The characters of `s`, in order.
pub fn chars_of(s: &str) -> (r: Vec<char>)
    ensures
        r@ == s@,
{
    let mut out: Vec<char> = Vec::new();
    for c in it: s.chars()
        invariant
            it.seq() == s@,
            out@ == s@.take(it.index()),
    {
        out.push(c);
        assert(out@ =~= s@.take(it.index() + 1));
    }
    assert(out@ =~= s@);
    out
}

/// The total length of a sequence of texts.
pub open spec fn total_len(parts: Seq<Seq<char>>) -> int
    decreases parts.len(),
{
    if parts.len() == 0 {
        0
    } else {
        total_len(parts.drop_last()) + parts.last().len()
    }
}

/// A join is as long as its parts together plus one separator between
/// every two parts.
pub proof fn lemma_join_len(parts: Seq<Seq<char>>, sep: Seq<char>)
    ensures
        join(parts, sep).len() == if parts.len() == 0 {
            0
        } else {
            total_len(parts) + sep.len() * (parts.len() - 1)
        },
    decreases parts.len(),
{
    if parts.len() == 1 {
        assert(parts.drop_last().len() == 0);
        assert(total_len(parts.drop_last()) == 0);
        assert(parts.last() == parts[0]);
        assert(sep.len() * (parts.len() - 1) == 0) by (nonlinear_arith)
            requires
                parts.len() == 1,
        ;
    } else if parts.len() > 1 {
        let p = parts.drop_last();
        lemma_join_len(p, sep);
        let k = sep.len() as int;
        let n = parts.len() as int;
        assert(k * (n - 2) + k == k * (n - 1)) by (nonlinear_arith);
        assert(join(parts, sep) == join(p, sep) + sep + parts.last());
    }
}

pub proof fn lemma_texts_push(s: Seq<String>, x: String)
    ensures
        texts(s.push(x)) == texts(s).push(x@),
{
    assert(texts(s.push(x)) =~= texts(s).push(x@));
}

/// A copy of a vector of strings.
pub fn clone_strings(v: &Vec<String>) -> (r: Vec<String>)
    ensures
        r@ == v@,
{
    let mut out: Vec<String> = Vec::new();
    let mut i: usize = 0;
    while i < v.len()
        invariant
            i <= v@.len(),
            out@ == v@.take(i as int),
        decreases v@.len() - i,
    {
        out.push(v[i].clone());
        i += 1;
        assert(out@ =~= v@.take(i as int));
    }
    assert(out@ =~= v@);
    out
}


/// Whether `needle` occurs in `hay` as a contiguous run of characters.
pub open spec fn contains_text(hay: Seq<char>, needle: Seq<char>) -> bool {
    exists|i: int|
        0 <= i && i + needle.len() <= hay.len() && #[trigger] hay.subrange(i, i + needle.len())
            == needle
}

/// Whether `needle` occurs in `hay` (`str::contains` with a string pattern).
pub fn contains_str(hay: &str, needle: &str) -> (r: bool)
    ensures
        r == contains_text(hay@, needle@),
{
    let h = chars_of(hay);
    let nd = chars_of(needle);
    let hn = h.len();
    let nn = nd.len();
    if nn > hn {
        assert(!contains_text(hay@, needle@));
        return false;
    }
    let mut i: usize = 0;
    while i <= hn - nn
        invariant
            h@ == hay@,
            nd@ == needle@,
            hn == h@.len(),
            nn == nd@.len(),
            nn <= hn,
            i <= hn - nn + 1,
            forall|k: int| 0 <= k < i ==> #[trigger] hay@.subrange(k, k + nn) != needle@,
        decreases hn - nn + 1 - i,
    {
        let mut j: usize = 0;
        while j < nn && h[i + j] == nd[j]
            invariant
                h@ == hay@,
                nd@ == needle@,
                hn == h@.len(),
                nn == nd@.len(),
                i + nn <= hn,
                j <= nn,
                forall|q: int| 0 <= q < j ==> h@[i + q] == nd@[q],
            decreases nn - j,
        {
            j += 1;
        }
        if j == nn {
            assert(hay@.subrange(i as int, i + nn) =~= needle@);
            return true;
        }
        assert(hay@.subrange(i as int, i + nn)[j as int] != needle@[j as int]);
        i += 1;
    }
    assert forall|k: int| 0 <= k && k + needle@.len() <= hay@.len() implies #[trigger] hay@.subrange(
        k,
        k + needle@.len(),
    ) != needle@ by {
        assert(k < i);
    }
    false
}


/// Whether the bytes `b` spell `t` one byte per character (an ASCII name
/// compared with its bytes).
pub open spec fn spells(b: Seq<u8>, t: Seq<char>) -> bool {
    b.len() == t.len() && forall|i: int| 0 <= i < b.len() ==> b[i] as u32 == #[trigger] t[i] as u32
}

/// Whether `b` spells `t` one byte per character.
pub fn bytes_spell(b: &[u8], t: &str) -> (r: bool)
    ensures
        r == spells(b@, t@),
{
    let cs = chars_of(t);
    if b.len() != cs.len() {
        return false;
    }
    let mut i: usize = 0;
    while i < b.len()
        invariant
            cs@ == t@,
            b@.len() == cs@.len(),
            i <= b@.len(),
            forall|k: int| 0 <= k < i ==> b@[k] as u32 == #[trigger] t@[k] as u32,
        decreases b@.len() - i,
    {
        if b[i] as u32 != cs[i] as u32 {
            return false;
        }
        i += 1;
    }
    true
}

/// The bytes of an optional slice.
pub open spec fn opt_slice(s: Option<&[u8]>) -> Option<Seq<u8>> {
    match s {
        Some(b) => Some(b@),
        None => None,
    }
}

/// Whether `s` begins with `prefix`.
pub open spec fn starts_with_text(s: Seq<char>, prefix: Seq<char>) -> bool {
    s.len() >= prefix.len() && s.take(prefix.len() as int) == prefix
}

/// `str::starts_with` with a string pattern.
pub fn starts_with_str(s: &str, prefix: &str) -> (r: bool)
    ensures
        r == starts_with_text(s@, prefix@),
{
    let a = chars_of(s);
    let b = chars_of(prefix);
    if a.len() < b.len() {
        return false;
    }
    let mut i: usize = 0;
    while i < b.len()
        invariant
            a@ == s@,
            b@ == prefix@,
            b@.len() <= a@.len(),
            i <= b@.len(),
            forall|k: int| 0 <= k < i ==> a@[k] == b@[k],
        decreases b@.len() - i,
    {
        if a[i] != b[i] {
            assert(s@.take(prefix@.len() as int)[i as int] != prefix@[i as int]);
            return false;
        }
        i += 1;
    }
    assert(s@.take(prefix@.len() as int) =~= prefix@);
    true
}

} // verus!
