use pdfmuse_core::content::normalize_cjk_compat;

#[test]
fn normalizes_cjk_compat_but_leaves_the_rest() {
    assert_eq!(normalize_cjk_compat("题⽬⾼⼩"), "题目高小");
    assert_eq!(normalize_cjk_compat("①②abc中"), "①②abc中");
    assert_eq!(normalize_cjk_compat("hello"), "hello");
}

use std::collections::BTreeMap;

use pdfmuse_core::cmap::parse_to_unicode;
use pdfmuse_core::content::{
    decode_shown, image_encoding, image_record, missing_cmap_warning, name_bytes, warn, Operand,
};
use pdfmuse_core::fonts::Font;
use pdfmuse_core::ir::WarningKind;

fn bits(x: f32) -> u32 {
    x.to_bits()
}

fn simple_font() -> Font {
    let tu = parse_to_unicode(b"beginbfchar\n<41> <0041>\n<20> <0020>\n<43> <2F6C>\nendbfchar");
    let names: [String; 256] = std::array::from_fn(|_| String::new());
    Font::simple("Courier".to_string(), Some(tu), &names, &[bits(600.0); 256])
}

#[test]
fn name_operands_give_their_bytes() {
    assert_eq!(name_bytes(Some(&Operand::Name(b"F1".to_vec()))), Some(b"F1".to_vec()));
    assert_eq!(name_bytes(Some(&Operand::Num(bits(1.0)))), None);
    assert_eq!(name_bytes(Some(&Operand::Str(b"F1".to_vec()))), None);
    assert_eq!(name_bytes(None), None);
}

#[test]
fn one_byte_fonts_show_one_code_per_byte() {
    let font = simple_font();
    let shown = decode_shown(&font, b"A BC");
    assert_eq!(shown.len(), 4);
    assert_eq!(shown[0].code, 0x41);
    assert_eq!(shown[0].text.as_deref(), Some("A"));
    assert_eq!(shown[0].width, bits(600.0));
    assert!(!shown[0].word_space);
    assert_eq!(shown[1].code, 0x20);
    assert_eq!(shown[1].text.as_deref(), Some(" "));
    assert!(shown[1].word_space);
    // No text for 'B': the code still advances.
    assert_eq!(shown[2].code, 0x42);
    assert_eq!(shown[2].text, None);
    // A Kangxi radical is drawn as its ideograph.
    assert_eq!(shown[3].text.as_deref(), Some("\u{76EE}"));
}

#[test]
fn two_byte_fonts_read_big_endian_codes() {
    let tu = parse_to_unicode(b"beginbfchar\n<0001> <4E2D>\n<0020> <0020>\nendbfchar");
    let font = Font::cid("X".to_string(), Some(tu), BTreeMap::new(), bits(1000.0));
    let shown = decode_shown(&font, &[0x00, 0x01, 0x00, 0x20, 0x41]);
    assert_eq!(shown.len(), 3);
    assert_eq!(shown[0].code, 0x0001);
    assert_eq!(shown[0].text.as_deref(), Some("\u{4E2D}"));
    assert_eq!(shown[0].width, bits(1000.0));
    // Word spacing is for single-byte code 32 only.
    assert_eq!(shown[1].code, 0x0020);
    assert!(!shown[1].word_space);
    // A trailing odd byte is a code of its own.
    assert_eq!(shown[2].code, 0x41);
    assert_eq!(shown[2].text, None);
    assert!(decode_shown(&font, &[]).is_empty());
}

#[test]
fn a_font_without_text_is_reported_once() {
    let font = Font::cid("X".to_string(), None, BTreeMap::new(), bits(1000.0));
    let mut warned = false;
    let w = missing_cmap_warning(&font, 4, &mut warned).expect("first string warns");
    assert_eq!(w.page, Some(4));
    assert_eq!(w.kind, WarningKind::MissingCMap);
    assert_eq!(w.detail, "CID font 'X' has no ToUnicode; text not recoverable");
    assert!(warned);
    assert!(missing_cmap_warning(&font, 4, &mut warned).is_none());

    let mut warned = false;
    assert!(missing_cmap_warning(&simple_font(), 0, &mut warned).is_none());
    assert!(!warned);
}

#[test]
fn image_encodings_by_filter() {
    assert_eq!(image_encoding(Some(&b"DCTDecode"[..]), true), (false, "image/jpeg".to_string()));
    assert_eq!(image_encoding(Some(&b"JPXDecode"[..]), true), (false, "image/jp2".to_string()));
    let octets = "application/octet-stream".to_string();
    assert_eq!(image_encoding(Some(&b"FlateDecode"[..]), true), (true, octets.clone()));
    assert_eq!(image_encoding(Some(&b"LZWDecode"[..]), true), (true, octets.clone()));
    assert_eq!(image_encoding(None, true), (true, octets.clone()));
    assert_eq!(image_encoding(None, false), (false, octets));
}

#[test]
fn image_records_carry_a_base64_data_uri() {
    assert_eq!(
        image_record(true, 1, 1, "application/octet-stream", &[0]),
        Some((1, 1, "data:application/octet-stream;base64,AA==".to_string()))
    );
    assert_eq!(
        image_record(true, 3, 2, "image/jpeg", b"Man"),
        Some((3, 2, "data:image/jpeg;base64,TWFu".to_string()))
    );
    assert_eq!(image_record(true, 0, 2, "image/jpeg", b"Man"), None);
    assert_eq!(image_record(true, 2, 0, "image/jpeg", b"Man"), None);
    assert_eq!(image_record(false, 2, 2, "image/jpeg", b"Man"), None);
}

#[test]
fn warnings_are_page_scoped() {
    let w = warn(7, "content stream unreadable".to_string());
    assert_eq!(w.page, Some(7));
    assert_eq!(w.kind, WarningKind::MalformedObject);
    assert_eq!(w.detail, "content stream unreadable");
}

use pdfmuse_core::content::{end_path, may_enter_form, path_paint, restore_state, PathPaint};
use pdfmuse_core::ir::{BBox, Rect, Rule};

fn rect(x: f32) -> Rect {
    Rect { bbox: BBox { x0: bits(x), y0: 0, x1: 0, y1: 0 } }
}

fn rule(x: f32) -> Rule {
    Rule { x0: bits(x), y0: 0, x1: 0, y1: 0, width: 0 }
}

#[test]
fn only_stroked_paths_become_page_geometry() {
    assert_eq!(path_paint("S"), PathPaint::Stroke);
    assert_eq!(path_paint("b*"), PathPaint::Stroke);
    assert_eq!(path_paint("f"), PathPaint::Discard);
    assert_eq!(path_paint("n"), PathPaint::Discard);
    assert_eq!(path_paint("re"), PathPaint::Keep);
    assert_eq!(path_paint("BT"), PathPaint::Keep);

    let (mut pr, mut pl) = (vec![rect(1.0)], vec![rule(2.0)]);
    let (mut rects, mut rules) = (vec![rect(0.0)], Vec::new());
    end_path(PathPaint::Stroke, &mut pr, &mut pl, &mut rects, &mut rules);
    assert_eq!(rects.len(), 2);
    assert_eq!(rects[1].bbox.x0, bits(1.0));
    assert_eq!(rules.len(), 1);
    assert!(pr.is_empty() && pl.is_empty());

    let (mut pr, mut pl) = (vec![rect(1.0)], vec![rule(2.0)]);
    end_path(PathPaint::Discard, &mut pr, &mut pl, &mut rects, &mut rules);
    assert_eq!(rects.len(), 2);
    assert!(pr.is_empty() && pl.is_empty());

    let (mut pr, mut pl) = (vec![rect(1.0)], vec![rule(2.0)]);
    end_path(PathPaint::Keep, &mut pr, &mut pl, &mut rects, &mut rules);
    assert_eq!((pr.len(), pl.len(), rects.len()), (1, 1, 2));
}

#[test]
fn graphics_states_restore_and_forms_nest_to_twelve() {
    let mut stack = vec![1, 2];
    let mut st = 9;
    restore_state(&mut stack, &mut st);
    assert_eq!((st, stack.clone()), (2, vec![1]));
    let mut empty: Vec<i32> = Vec::new();
    restore_state(&mut empty, &mut st);
    assert_eq!(st, 2);
    assert!(may_enter_form(11));
    assert!(!may_enter_form(12));
}
