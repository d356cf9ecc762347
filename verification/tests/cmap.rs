use pdfmuse_core::cmap::parse_to_unicode;

#[test]
fn parses_bfchar() {
    let m = parse_to_unicode(b"1 beginbfchar\n<41> <005A>\nendbfchar");
    assert_eq!(m.get(&0x41).map(String::as_str), Some("Z"));
}

#[test]
fn parses_bfrange_incremental() {
    // codes 0x41..0x43 → U+0061.. (a, b, c)
    let m = parse_to_unicode(b"1 beginbfrange\n<41> <43> <0061>\nendbfrange");
    assert_eq!(m.get(&0x41).map(String::as_str), Some("a"));
    assert_eq!(m.get(&0x42).map(String::as_str), Some("b"));
    assert_eq!(m.get(&0x43).map(String::as_str), Some("c"));
}

#[test]
fn repairs_control_only_destinations_to_space() {
    let m = parse_to_unicode(
        b"beginbfchar\n<01> <0001>\n<02> <0000>\n<03> <0020>\n<04> <0041>\nendbfchar",
    );
    assert_eq!(m.get(&0x01).map(String::as_str), Some(" "), "U+0001 → space");
    assert_eq!(m.get(&0x02).map(String::as_str), Some(" "), "U+0000 → space");
    assert_eq!(m.get(&0x03).map(String::as_str), Some(" "), "real spaces survive");
    assert_eq!(m.get(&0x04).map(String::as_str), Some("A"));
}

#[test]
fn strips_control_chars_from_multi_unit_destinations() {
    let m = parse_to_unicode(b"beginbfchar\n<10> <00410001>\nendbfchar");
    assert_eq!(m.get(&0x10).map(String::as_str), Some("A"));
}

#[test]
fn keeps_tab_and_newline_destinations() {
    let m = parse_to_unicode(b"beginbfchar\n<11> <0009>\n<12> <000A>\nendbfchar");
    assert_eq!(m.get(&0x11).map(String::as_str), Some("\t"));
    assert_eq!(m.get(&0x12).map(String::as_str), Some("\n"));
}

#[test]
fn parses_bfrange_array_and_cjk_and_surrogates() {
    let m = parse_to_unicode(
        b"beginbfrange\n<10> <11> [<4E2D> <6587>]\nendbfrange\nbeginbfchar\n<20> <D83DDE00>\nendbfchar",
    );
    assert_eq!(m.get(&0x10).map(String::as_str), Some("\u{4E2D}"));
    assert_eq!(m.get(&0x11).map(String::as_str), Some("\u{6587}"));
    assert_eq!(m.get(&0x20).map(String::as_str), Some("\u{1F600}"));
}

use std::collections::BTreeMap;

use pdfmuse_core::cmap::{
    hex_u32, incremented, is_unusable_control, parse_bfchar, parse_bfrange,
    repair_control_destinations, scan, utf16be, utf16be_units, Tok,
};

#[test]
fn hex_numbers_follow_from_str_radix() {
    assert_eq!(hex_u32("41"), 0x41);
    assert_eq!(hex_u32("+41"), 0x41);
    assert_eq!(hex_u32("FFFFFFFF"), u32::MAX);
    // Too large, empty, or not hex: 0.
    assert_eq!(hex_u32("100000000"), 0);
    assert_eq!(hex_u32(""), 0);
    assert_eq!(hex_u32("+"), 0);
    assert_eq!(hex_u32("4G"), 0);
}

#[test]
fn utf16_units_and_lossy_decoding() {
    assert_eq!(utf16be_units("00410042"), vec![0x0041, 0x0042]);
    // A trailing short group still parses; a bad group is skipped.
    assert_eq!(utf16be_units("004100"), vec![0x0041, 0x0000]);
    assert_eq!(utf16be_units("00G10042"), vec![0x0042]);
    assert_eq!(utf16be("D83DDE00"), "\u{1F600}");
    // A lone surrogate becomes U+FFFD.
    assert_eq!(utf16be("D83D0041"), "\u{FFFD}A");
    assert_eq!(utf16be(""), "");
}

#[test]
fn incremented_bumps_the_last_unit_with_wrapping() {
    assert_eq!(incremented(&[0x0061], 2), "c");
    assert_eq!(incremented(&[0x0041, 0x0061], 1), "Ab");
    assert_eq!(incremented(&[0xFFFF], 0x41 + 1), "A");
    assert_eq!(incremented(&[], 5), "");
}

#[test]
fn unusable_controls_exclude_tab_and_newlines() {
    assert!(is_unusable_control('\u{0}'));
    assert!(is_unusable_control('\u{1}'));
    assert!(is_unusable_control('\u{7F}'));
    assert!(is_unusable_control('\u{0B}'));
    assert!(!is_unusable_control('\t'));
    assert!(!is_unusable_control('\n'));
    assert!(!is_unusable_control(' '));
    assert!(!is_unusable_control('A'));
}

#[test]
fn repairing_twice_changes_nothing_more() {
    let mut m = BTreeMap::new();
    m.insert(1, "\u{1}".to_string());
    m.insert(2, "a\u{0}b".to_string());
    m.insert(3, "ok".to_string());
    repair_control_destinations(&mut m);
    let once = m.clone();
    repair_control_destinations(&mut m);
    assert_eq!(m, once);
    assert_eq!(m.get(&1).map(String::as_str), Some(" "));
    assert_eq!(m.get(&2).map(String::as_str), Some("ab"));
    assert_eq!(m.get(&3).map(String::as_str), Some("ok"));
}

#[test]
fn scanning_keeps_hex_digits_keywords_and_brackets() {
    let toks = scan(b"<4 1> beginbfrange [ <0061> ] /Name 12 <>");
    assert_eq!(toks.len(), 7);
    assert!(matches!(&toks[0], Tok::Hex(h) if h == "41"));
    assert!(matches!(&toks[1], Tok::Kw(k) if k == "beginbfrange"));
    assert!(matches!(toks[2], Tok::LBracket));
    assert!(matches!(&toks[3], Tok::Hex(h) if h == "0061"));
    assert!(matches!(toks[4], Tok::RBracket));
    assert!(matches!(&toks[5], Tok::Kw(k) if k == "Name"));
    assert!(matches!(&toks[6], Tok::Hex(h) if h.is_empty()));
}

#[test]
fn section_parsers_return_the_index_after_their_end() {
    let toks = scan(b"<01> <0041> <02> <0042> endbfchar <03>");
    let mut m = BTreeMap::new();
    let next = parse_bfchar(&toks, 0, &mut m);
    assert_eq!(next, 5);
    assert_eq!(m.len(), 2);

    let toks = scan(b"<10> <11> [<0041> <0042>] endbfrange");
    let mut m = BTreeMap::new();
    let next = parse_bfrange(&toks, 0, &mut m);
    assert_eq!(next, 7);
    assert_eq!(m.get(&0x10).map(String::as_str), Some("A"));
    assert_eq!(m.get(&0x11).map(String::as_str), Some("B"));
}
