use pdfmuse_core::fonts::{apply_differences, base_encoding, base_names, DiffItem, Font};
use pdfmuse_core::metrics::{simple_widths, COURIER_WIDTH_BITS, DEFAULT_WIDTH_BITS};

fn bits(x: f32) -> u32 {
    x.to_bits()
}

/// A simple font as its dictionary describes it: BaseFont, `/Encoding`
/// name, `/Differences`, `/FirstChar`, `/Widths` and `/MissingWidth`.
fn simple_font(
    base: &str,
    encoding: Option<&[u8]>,
    diffs: &Vec<DiffItem>,
    first_char: i64,
    widths: Option<Vec<u32>>,
    missing: Option<u32>,
) -> (Font, [u32; 256]) {
    let mut names = base_names(base_encoding(encoding, base));
    apply_differences(diffs, &mut names);
    let names: [String; 256] = names.try_into().unwrap();
    let ws = simple_widths(first_char, widths.as_ref(), missing, base, &names);
    let font = Font::from_parts(Some(base.as_bytes()), Some(&b"Type1"[..]), None, &names, &ws, None, None);
    (font, ws)
}

#[test]
fn courier_is_monospace_600() {
    let (font, _) = simple_font("Courier", None, &vec![], 0, None, None);
    assert_eq!(font.code_bytes, 1);
    let (text, width) = font.decode(u32::from(b'A'));
    assert_eq!(text, Some("A".to_string()));
    assert_eq!(width, bits(600.0));
}

#[test]
fn helvetica_uses_core14_metrics() {
    let (font, _) = simple_font("Helvetica", Some(&b"WinAnsiEncoding"[..]), &vec![], 0, None, None);
    // WinAnsi 0x20 = space; Helvetica 'space' width = 278.
    assert_eq!(font.decode(u32::from(b' ')), (Some(" ".to_string()), bits(278.0)));
    // 'A' in Helvetica = 667.
    assert_eq!(font.decode(u32::from(b'A')), (Some("A".to_string()), bits(667.0)));
}

#[test]
fn explicit_widths_array_wins() {
    // FirstChar 65 ('A'), Widths [111, 222] for 'A','B'.
    let widths = vec![bits(111.0), bits(222.0)];
    let (font, _) = simple_font("Helvetica", Some(&b"WinAnsiEncoding"[..]), &vec![], 65, Some(widths), None);
    assert_eq!(font.decode(u32::from(b'A')).1, bits(111.0));
    assert_eq!(font.decode(u32::from(b'B')).1, bits(222.0));
}

#[test]
fn symbol_font_decodes_math_symbols() {
    let (font, _) = simple_font("Symbol", Some(&b"Symbol"[..]), &vec![], 0, None, None);
    // = (0x3D)
    assert_eq!(font.decode(0x3D_u32).0, Some("=".to_string()));
    // ≤ (0xA3)
    assert_eq!(font.decode(0xA3_u32).0, Some("\u{2264}".to_string()));
    // ∪ (0xC8)
    assert_eq!(font.decode(0xC8_u32).0, Some("\u{222A}".to_string()));
    // { (0x7B)
    assert_eq!(font.decode(0x7B_u32).0, Some("{".to_string()));
    // < (0x3C)
    assert_eq!(font.decode(0x3C_u32).0, Some("<".to_string()));
}

#[test]
fn symbol_encoding_by_base_name() {
    // No Encoding, but the BaseFont names Symbol: the Symbol encoding is used.
    let (font, _) = simple_font("SymbolMT", None, &vec![], 0, None, None);
    assert_eq!(font.decode(0xA3_u32).0, Some("\u{2264}".to_string()));
}

#[test]
fn widths_outside_the_array_take_the_fallback() {
    let widths = vec![bits(111.0), bits(222.0)];
    let (_, ws) = simple_font("Helvetica", None, &vec![], 65, Some(widths.clone()), None);
    assert_eq!(ws[64], DEFAULT_WIDTH_BITS);
    assert_eq!(ws[67], bits(500.0));
    let (_, ws) = simple_font("Helvetica", None, &vec![], 65, Some(widths), Some(bits(250.0)));
    assert_eq!(ws[0], bits(250.0));
    assert_eq!(ws[65], bits(111.0));
    // A negative FirstChar shifts every code up the array.
    let (_, ws) = simple_font("X", None, &vec![], -1, Some(vec![bits(1.0), bits(2.0)]), None);
    assert_eq!(ws[0], bits(2.0));
    assert_eq!(ws[1], bits(500.0));
    // An empty array wins over Courier's pitch.
    let (_, ws) = simple_font("Courier", None, &vec![], 0, Some(Vec::new()), None);
    assert_eq!(ws[0x41], bits(500.0));
}

#[test]
fn core14_metrics_by_font_and_glyph() {
    let (_, ws) = simple_font("ABCDEF+Times-Bold", Some(&b"WinAnsiEncoding"[..]), &vec![], 0, None, None);
    assert_eq!(ws[u32::from(b'W') as usize], bits(1000.0));
    assert_eq!(ws[u32::from(b'a') as usize], bits(500.0));
    let (_, ws) = simple_font("Times", Some(&b"WinAnsiEncoding"[..]), &vec![], 0, None, None);
    assert_eq!(ws[u32::from(b'|') as usize], bits(200.0));
    assert_eq!(ws[u32::from(b'e') as usize], bits(444.0));
    let (_, ws) = simple_font("Arial,Bold", Some(&b"WinAnsiEncoding"[..]), &vec![], 0, None, None);
    assert_eq!(ws[u32::from(b'i') as usize], bits(278.0));
    let (_, ws) = simple_font("Helvetica-Oblique", Some(&b"WinAnsiEncoding"[..]), &vec![], 0, None, None);
    assert_eq!(ws[u32::from(b'@') as usize], bits(1015.0));
    // Standard encoding puts quoteright at 0x27; WinAnsi puts quotesingle there.
    let (_, ws) = simple_font("Helvetica", None, &vec![], 0, None, None);
    assert_eq!(ws[0x27], bits(222.0));
    let (_, ws) = simple_font("Helvetica", Some(&b"WinAnsiEncoding"[..]), &vec![], 0, None, None);
    assert_eq!(ws[0x27], bits(191.0));
    // A glyph the tables do not hold, and a code with no glyph, fall back.
    assert_eq!(ws[0xC9], DEFAULT_WIDTH_BITS);
    assert_eq!(ws[0x00], DEFAULT_WIDTH_BITS);
    let (_, ws) = simple_font("Helvetica", Some(&b"WinAnsiEncoding"[..]), &vec![], 0, None, Some(bits(333.0)));
    assert_eq!(ws[0xC9], bits(333.0));
    assert_eq!(ws[0x41], bits(667.0));
}

#[test]
fn differences_names_are_looked_up_by_name() {
    let diffs = vec![
        DiffItem::Code(1),
        DiffItem::Name(b"quoteleft".to_vec()),
        DiffItem::Name(b"W".to_vec()),
        DiffItem::Name(b"uni0057".to_vec()),
        DiffItem::Name(b"W.sc".to_vec()),
    ];
    let (font, ws) = simple_font("Helvetica", None, &diffs, 0, None, None);
    assert_eq!(ws[1], bits(222.0));
    assert_eq!(ws[2], bits(944.0));
    assert_eq!(ws[3], bits(944.0));
    // A suffixed name is not a name the tables list.
    assert_eq!(ws[4], DEFAULT_WIDTH_BITS);
    assert_eq!(font.decode(4).0, Some("W".to_string()));
}

#[test]
fn fonts_without_known_metrics() {
    let (_, ws) = simple_font("CourierNew-Bold", None, &vec![], 0, None, None);
    assert!(ws.iter().all(|w| *w == COURIER_WIDTH_BITS));
    let (_, ws) = simple_font("Verdana", None, &vec![], 0, None, Some(bits(400.0)));
    assert!(ws.iter().all(|w| *w == bits(400.0)));
    let (_, ws) = simple_font("", None, &vec![], 0, None, None);
    assert!(ws.iter().all(|w| *w == DEFAULT_WIDTH_BITS));
}

#[test]
fn italic_times_and_punctuation_metrics() {
    let (_, ws) = simple_font("Times-Italic", Some(&b"WinAnsiEncoding"[..]), &vec![], 0, None, None);
    assert_eq!(ws[u32::from(b'A') as usize], bits(611.0));
    assert_eq!(ws[u32::from(b'W') as usize], bits(833.0));
    assert_eq!(ws[0x97], bits(889.0));
    let (_, ws) = simple_font("Times-BoldItalic", Some(&b"WinAnsiEncoding"[..]), &vec![], 0, None, None);
    assert_eq!(ws[u32::from(b'M') as usize], bits(889.0));
    // WinAnsi 0x95 bullet, 0x96 endash, 0x97 emdash, 0x93/0x94 double quotes, 0x85 ellipsis.
    let (_, ws) = simple_font("Helvetica", Some(&b"WinAnsiEncoding"[..]), &vec![], 0, None, None);
    assert_eq!(ws[0x95], bits(350.0));
    assert_eq!(ws[0x96], bits(556.0));
    assert_eq!(ws[0x97], bits(1000.0));
    assert_eq!(ws[0x93], bits(333.0));
    assert_eq!(ws[0x94], bits(333.0));
    assert_eq!(ws[0x85], bits(1000.0));
    let diffs = vec![DiffItem::Code(0x30), DiffItem::Name(b"endash".to_vec()), DiffItem::Name(b"quotedblleft".to_vec())];
    let (_, ws) = simple_font("Times-Roman", None, &diffs, 0, None, None);
    assert_eq!(ws[0x30], bits(500.0));
    assert_eq!(ws[0x31], bits(444.0));
}
