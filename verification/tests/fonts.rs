use std::collections::BTreeMap;

use pdfmuse_core::fonts::{is_pua_cmap, name_to_unicode, resolve_pua_byte, try_resolve};

#[test]
fn glyph_name_resolution() {
    assert_eq!(name_to_unicode("space"), Some(" ".to_string()));
    assert_eq!(name_to_unicode("A"), Some("A".to_string()));
    assert_eq!(name_to_unicode("uni0041"), Some("A".to_string()));
    assert_eq!(name_to_unicode("u1F600"), Some("😀".to_string()));
    assert_eq!(name_to_unicode(".notdef"), None);
    assert_eq!(name_to_unicode(""), None);
}

#[test]
fn is_pua_cmap_true_when_all_values_are_in_pua_range() {
    let mut map = BTreeMap::new();
    map.insert(0x3D, "\u{F03D}".to_string());
    map.insert(0x7B, "\u{F07B}".to_string());
    map.insert(0xA3, "\u{F0A3}".to_string());
    assert!(is_pua_cmap(&map));
}

#[test]
fn is_pua_cmap_false_when_empty() {
    assert!(!is_pua_cmap(&BTreeMap::new()));
}

#[test]
fn is_pua_cmap_false_when_has_proper_unicode() {
    let mut map = BTreeMap::new();
    map.insert(0x41, "A".to_string());
    map.insert(0x42, "B".to_string());
    assert!(!is_pua_cmap(&map));
}

#[test]
fn is_pua_cmap_false_when_mixed_pua_and_normal() {
    let mut map = BTreeMap::new();
    map.insert(0x41, "A".to_string());
    map.insert(0x3D, "\u{F03D}".to_string());
    assert!(!is_pua_cmap(&map));
}

#[test]
fn resolve_pua_byte_symbol_encoding() {
    assert_eq!(resolve_pua_byte('\u{F0C8}'), '\u{222A}');
    assert_eq!(resolve_pua_byte('\u{F03D}'), '=');
    assert_eq!(resolve_pua_byte('\u{F07B}'), '{');
    assert_eq!(resolve_pua_byte('A'), 'A');
}

#[test]
fn resolve_pua_byte_symbol_first() {
    assert_eq!(resolve_pua_byte('\u{F041}'), '\u{0391}');
    assert_eq!(resolve_pua_byte('\u{F0A3}'), '\u{2264}');
    assert_eq!(resolve_pua_byte('\u{F020}'), ' ');
}

#[test]
fn resolve_pua_byte_winansi_fallback() {
    assert_eq!(resolve_pua_byte('\u{F0A0}'), '\u{20AC}');
    assert_eq!(resolve_pua_byte('A'), 'A');
}

#[test]
fn try_resolve_empty_returns_none() {
    assert_eq!(try_resolve(""), None);
    assert_eq!(try_resolve(".notdef"), None);
}

#[test]
fn try_resolve_valid_name() {
    assert_eq!(try_resolve("equal"), Some('='));
    assert_eq!(try_resolve("union"), Some('\u{222A}'));
}

use pdfmuse_core::cmap::parse_to_unicode;
use pdfmuse_core::fonts::{
    apply_differences, base_encoding, canonical_base, cid_widths, parse_w, repair_pua_cmap,
    BaseEncoding, DiffItem, Font, WItem,
};

fn bits(x: f32) -> u32 {
    x.to_bits()
}

/// A 256-entry glyph-name table, unnamed except for the given codes.
fn names_with(entries: &[(usize, &str)]) -> [String; 256] {
    let mut names: [String; 256] = std::array::from_fn(|_| String::new());
    for (code, name) in entries {
        names[*code] = name.to_string();
    }
    names
}

fn widths_of(w: f32) -> [u32; 256] {
    [bits(w); 256]
}

#[test]
fn type0_without_tounicode_is_unmapped() {
    let f = Font::cid("X".to_string(), None, BTreeMap::new(), bits(1000.0));
    assert_eq!(f.code_bytes, 2);
    assert!(f.unmapped_cid);
}

#[test]
fn type0_cid_decodes_via_tounicode_and_w() {
    // 2-byte codes 0x0001 → 中, 0x0002 → 文.
    let tu = parse_to_unicode(b"beginbfchar\n<0001> <4E2D>\n<0002> <6587>\nendbfchar");
    // W = [1 [900 950]] → CID 1 = 900, CID 2 = 950; DW = 1000.
    let items = vec![
        WItem::Num { code: 1, width: bits(1.0) },
        WItem::Array(vec![bits(900.0), bits(950.0)]),
    ];
    let mut widths = BTreeMap::new();
    parse_w(&items, &mut widths);
    let f = Font::cid("X".to_string(), Some(tu), widths, bits(1000.0));
    assert_eq!(f.code_bytes, 2);
    assert!(!f.unmapped_cid);
    assert_eq!(f.decode(0x0001), (Some("\u{4E2D}".to_string()), bits(900.0)));
    assert_eq!(f.decode(0x0002), (Some("\u{6587}".to_string()), bits(950.0)));
    assert_eq!(f.decode(0x0003), (None, bits(1000.0)));
}

#[test]
fn to_unicode_overrides_encoding() {
    // A ToUnicode CMap remapping code 0x41 → 'Z' must win over WinAnsi's 'A'.
    let tu = parse_to_unicode(b"1 beginbfchar\n<41> <005A>\nendbfchar");
    let names = names_with(&[(0x41, "A"), (0x42, "B")]);
    let font = Font::simple("Helvetica".to_string(), Some(tu), &names, &widths_of(667.0));
    assert_eq!(font.decode(u32::from(b'A')).0, Some("Z".to_string()));
    // Codes the map does not list still come from their glyph names.
    assert_eq!(font.decode(u32::from(b'B')).0, Some("B".to_string()));
}

#[test]
fn simple_font_ignores_pua_cmap_uses_glyph_names() {
    // A Symbol font with a "fake" PUA-based ToUnicode CMap: code 0x3D decodes
    // as "=" through its glyph name, not as U+F03D from the CMap.
    let tu = parse_to_unicode(b"1 beginbfchar\n<3D> <F03D>\nendbfchar");
    let names = names_with(&[(0x3D, "equal")]);
    let font = Font::simple("Symbol".to_string(), Some(tu), &names, &widths_of(549.0));
    assert_eq!(font.decode(0x3D_u32).0, Some("=".to_string()));
}

#[test]
fn type0_symbol_pua_cmap_is_repaired() {
    let tu = parse_to_unicode(b"1 beginbfchar\n<0001> <F03D>\n<0002> <F0A3>\nendbfchar");
    let f = Font::cid("TZCMBP+SymbolMT".to_string(), Some(tu), BTreeMap::new(), bits(1000.0));
    assert!(!f.unmapped_cid);
    assert_eq!(f.decode(0x0001).0, Some("=".to_string()));
    assert_eq!(f.decode(0x0002).0, Some("\u{2264}".to_string()));
}

#[test]
fn type0_non_symbol_pua_cmap_preserved() {
    let tu = parse_to_unicode(b"1 beginbfchar\n<0001> <F067>\n<0002> <F075>\nendbfchar");
    let f = Font::cid("MUFUVC+MT-Extra".to_string(), Some(tu), BTreeMap::new(), bits(1000.0));
    assert!(!f.unmapped_cid);
    assert_eq!(f.decode(0x0001).0, Some("\u{F067}".to_string()));
    assert_eq!(f.decode(0x0002).0, Some("\u{F075}".to_string()));
}

#[test]
fn simple_font_reads_the_low_byte_and_keeps_widths() {
    let names = names_with(&[(0x41, "A")]);
    let mut widths = widths_of(500.0);
    widths[0x41] = bits(722.0);
    let font = Font::simple("Times-Roman".to_string(), None, &names, &widths);
    assert_eq!(font.code_bytes, 1);
    assert!(!font.unmapped_cid);
    assert_eq!(font.decode(0x41), (Some("A".to_string()), bits(722.0)));
    assert_eq!(font.decode(0x0141), (Some("A".to_string()), bits(722.0)));
    assert_eq!(font.decode(0x42), (None, bits(500.0)));
}

#[test]
fn glyph_name_suffixes_and_conventions() {
    assert_eq!(name_to_unicode("A.sc"), Some("A".to_string()));
    assert_eq!(name_to_unicode("equal.alt"), name_to_unicode("equal"));
    assert_eq!(name_to_unicode("uni00410042"), Some("AB".to_string()));
    assert_eq!(name_to_unicode("u1F60"), Some("\u{1F60}".to_string()));
    assert_eq!(name_to_unicode("uniD800"), None);
    assert_eq!(name_to_unicode("uni004"), None);
    assert_eq!(name_to_unicode("u110000"), None);
    assert_eq!(name_to_unicode(".sc"), None);
    assert_eq!(name_to_unicode("notaglyphname"), None);
    assert_eq!(try_resolve("uni00410042"), Some('A'));
    // `from_str_radix` takes a leading `+`.
    assert_eq!(name_to_unicode("uni+041"), Some("A".to_string()));
    assert_eq!(name_to_unicode("u+0041"), Some("A".to_string()));
}

#[test]
fn canonical_base_names() {
    assert_eq!(canonical_base("ABCDEF+Helvetica"), "Helvetica");
    assert_eq!(canonical_base("ABCDEF+Arial"), "Helvetica");
    assert_eq!(canonical_base("Arial,Bold"), "Helvetica-Bold");
    assert_eq!(canonical_base("Arial-Bold"), "Helvetica-Bold");
    assert_eq!(canonical_base("TimesNewRoman"), "Times-Roman");
    assert_eq!(canonical_base("Times"), "Times-Roman");
    assert_eq!(canonical_base("abcdef+Arial"), "abcdef+Arial");
    assert_eq!(canonical_base("ABCDE+Arial"), "ABCDE+Arial");
    assert_eq!(canonical_base("Courier"), "Courier");
    assert_eq!(canonical_base(""), "");
}

#[test]
fn differences_replace_names_from_each_code() {
    let mut names = vec![String::from("old"); 256];
    let diffs = vec![
        DiffItem::Code(65),
        DiffItem::Name(b"alpha".to_vec()),
        DiffItem::Other,
        DiffItem::Name(b"beta".to_vec()),
        DiffItem::Code(-3),
        DiffItem::Name(b"zero".to_vec()),
        DiffItem::Code(255),
        DiffItem::Name(b"last".to_vec()),
        DiffItem::Name(b"dropped".to_vec()),
        DiffItem::Code(300),
        DiffItem::Name(b"ignored".to_vec()),
        DiffItem::Code(10),
        DiffItem::Name(vec![0xFF, b'x']),
    ];
    apply_differences(&diffs, &mut names);
    assert_eq!(names.len(), 256);
    assert_eq!(names[65], "alpha");
    assert_eq!(names[66], "beta");
    assert_eq!(names[0], "zero");
    assert_eq!(names[255], "last");
    assert_eq!(names[10], "\u{FFFD}x");
    assert_eq!(names[1], "old");
    assert_eq!(names[67], "old");
}

#[test]
fn base_encoding_choice() {
    assert_eq!(base_encoding(Some(&b"WinAnsiEncoding"[..]), "Helvetica"), BaseEncoding::WinAnsi);
    assert_eq!(base_encoding(Some(&b"MacRomanEncoding"[..]), "Helvetica"), BaseEncoding::MacRoman);
    assert_eq!(base_encoding(Some(&b"StandardEncoding"[..]), "SymbolMT"), BaseEncoding::Standard);
    assert_eq!(base_encoding(Some(&b"Symbol"[..]), "Foo"), BaseEncoding::Symbol);
    assert_eq!(base_encoding(Some(&b"MacExpertEncoding"[..]), "Foo"), BaseEncoding::Symbol);
    assert_eq!(base_encoding(None, "ZapfDingbats"), BaseEncoding::ZapfDingbats);
    assert_eq!(base_encoding(Some(&b"Identity-H"[..]), "SymbolMT"), BaseEncoding::Symbol);
    assert_eq!(base_encoding(None, "Helvetica"), BaseEncoding::Standard);
}

#[test]
fn w_array_ranges_and_runs() {
    let num = |v: u32, w: f32| WItem::Num { code: v, width: bits(w) };
    let items = vec![
        num(1, 1.0),
        WItem::Array(vec![bits(900.0), bits(950.0)]),
        num(10, 10.0),
        num(12, 12.0),
        num(500, 500.0),
        num(20, 20.0),
        num(19, 19.0),
        num(7, 7.0),
        num(30, 30.0),
    ];
    let mut out = BTreeMap::new();
    out.insert(2, bits(1.0));
    parse_w(&items, &mut out);
    let expected: BTreeMap<u32, u32> = [
        (1, bits(900.0)),
        (2, bits(950.0)),
        (10, bits(500.0)),
        (11, bits(500.0)),
        (12, bits(500.0)),
    ]
    .into_iter()
    .collect();
    assert_eq!(out, expected);

    // A range whose width is missing gets 0.0.
    let mut out = BTreeMap::new();
    parse_w(&vec![num(3, 3.0), num(4, 4.0)], &mut out);
    assert_eq!(out, [(3, 0), (4, 0)].into_iter().collect());
}

#[test]
fn w_runs_past_u32_max_are_cut_short() {
    let items = vec![
        WItem::Num { code: u32::MAX - 1, width: 0 },
        WItem::Array(vec![bits(1.0), bits(2.0), bits(3.0)]),
    ];
    let mut out = BTreeMap::new();
    parse_w(&items, &mut out);
    assert_eq!(out, [(u32::MAX - 1, bits(1.0)), (u32::MAX, bits(2.0))].into_iter().collect());
}

#[test]
fn cid_widths_default_to_1000() {
    let items = vec![WItem::Num { code: 5, width: 0 }, WItem::Array(vec![bits(250.0)])];
    let (w, d) = cid_widths(Some(&items), None);
    assert_eq!(w, [(5, bits(250.0))].into_iter().collect());
    assert_eq!(d, bits(1000.0));
    let (w, d) = cid_widths(None, Some(bits(800.0)));
    assert!(w.is_empty());
    assert_eq!(d, bits(800.0));
}

#[test]
fn fonts_from_their_dictionary_parts() {
    let tu = parse_to_unicode(b"beginbfchar\n<0001> <4E2D>\nendbfchar");
    let items = vec![WItem::Num { code: 1, width: 0 }, WItem::Array(vec![bits(900.0)])];
    let names = names_with(&[(0x41, "A")]);
    let widths = widths_of(600.0);
    let cid = Font::from_parts(
        Some(&b"ABCDEF+Song"[..]),
        Some(&b"Type0"[..]),
        Some(tu.clone()),
        &names,
        &widths,
        Some(&items),
        None,
    );
    assert_eq!(cid.code_bytes, 2);
    assert_eq!(cid.base, "ABCDEF+Song");
    assert!(!cid.unmapped_cid);
    assert_eq!(cid.decode(1), (Some("\u{4E2D}".to_string()), bits(900.0)));
    assert_eq!(cid.decode(2), (None, bits(1000.0)));

    let unmapped = Font::from_parts(None, Some(&b"Type0"[..]), Some(BTreeMap::new()), &names, &widths, None, None);
    assert!(unmapped.unmapped_cid);
    assert_eq!(unmapped.base, "");

    let simple = Font::from_parts(Some(&b"Courier"[..]), Some(&b"Type1"[..]), None, &names, &widths, None, None);
    assert_eq!(simple.code_bytes, 1);
    assert!(!simple.unmapped_cid);
    assert!(simple.is_well_formed());
    assert_eq!(simple.decode(0x41), (Some("A".to_string()), bits(600.0)));
    assert_eq!(simple.decode(0x7741), simple.decode(0x41));

    let lossy = Font::from_parts(Some(&[0xFF, b'X'][..]), None, None, &names, &widths, None, None);
    assert_eq!(lossy.base, "\u{FFFD}X");
}

#[test]
fn repair_pua_cmap_reinterprets_each_character() {
    let mut map = BTreeMap::new();
    map.insert(1, "\u{F03D}\u{F0A3}".to_string());
    map.insert(2, "A".to_string());
    map.insert(3, "\u{F000}".to_string());
    let fixed = repair_pua_cmap(&map);
    assert_eq!(fixed.get(&1).map(String::as_str), Some("=\u{2264}"));
    assert_eq!(fixed.get(&2).map(String::as_str), Some("A"));
    assert_eq!(fixed.get(&3).map(String::as_str), Some("\u{F000}"));
    assert_eq!(fixed.len(), 3);
}

#[test]
fn pua_bytes_unused_by_symbol_fall_back_to_winansi() {
    // Symbol leaves 0x7F and 0x80 unused; WinAnsi draws a bullet and the euro.
    assert_eq!(resolve_pua_byte('\u{F07F}'), '\u{2022}');
    assert_eq!(resolve_pua_byte('\u{F080}'), '\u{20AC}');
    // Unused in both: the character is kept.
    assert_eq!(resolve_pua_byte('\u{F000}'), '\u{F000}');
    // Outside the block: unchanged.
    assert_eq!(resolve_pua_byte('\u{F100}'), '\u{F100}');
}

use pdfmuse_core::fonts::{base_names, code_point_name_of};

#[test]
fn base_encoding_names_read_back_as_their_characters() {
    assert_eq!(code_point_name_of(0x41), "uni0041");
    assert_eq!(code_point_name_of(0x222A), "uni222A");
    assert_eq!(code_point_name_of(0x1F600), "u01F600");
    assert_eq!(code_point_name_of(0), "");
    let symbol = base_names(BaseEncoding::Symbol);
    assert_eq!(symbol.len(), 256);
    assert_eq!(symbol[0xA3], "uni2264");
    assert_eq!(name_to_unicode(&symbol[0xC8]), Some("\u{222A}".to_string()));
    assert_eq!(symbol[0x00], "");
    let win = base_names(BaseEncoding::WinAnsi);
    assert_eq!(name_to_unicode(&win[0x80]), Some("\u{20AC}".to_string()));
    let std_names = base_names(BaseEncoding::Standard);
    assert_eq!(name_to_unicode(&std_names[0x41]), Some("A".to_string()));
    let mac = base_names(BaseEncoding::MacRoman);
    assert_eq!(name_to_unicode(&mac[0x80]), Some("\u{C4}".to_string()));
    let zapf = base_names(BaseEncoding::ZapfDingbats);
    assert_eq!(zapf.len(), 256);
    assert_eq!(zapf[0x00], "");
}

use pdfmuse_core::fonts::glyph_name_convention;

#[test]
fn glyph_name_conventions_alone() {
    assert_eq!(glyph_name_convention("uni0041"), Some("A".to_string()));
    assert_eq!(glyph_name_convention("uni00410042"), Some("AB".to_string()));
    assert_eq!(glyph_name_convention("u1F600"), Some("\u{1F600}".to_string()));
    assert_eq!(glyph_name_convention("uniD800"), None);
    assert_eq!(glyph_name_convention("uni004"), None);
    assert_eq!(glyph_name_convention("space"), None);
    assert_eq!(glyph_name_convention("A"), None);
    assert_eq!(glyph_name_convention(""), None);
}
