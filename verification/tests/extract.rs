use pdfmuse_core::extract::{assemble_document, needs_ocr_warning, page_index};
use pdfmuse_core::ir::{Page, SourceKind, Warning, WarningKind};

fn warning(detail: &str) -> Warning {
    Warning { page: None, kind: WarningKind::MalformedObject, detail: detail.into() }
}

#[test]
fn page_numbers_become_zero_based_indices() {
    assert_eq!(page_index(1), 0);
    assert_eq!(page_index(7), 6);
    assert_eq!(page_index(0), 0);
}

#[test]
fn scanned_pages_need_ocr() {
    let w = needs_ocr_warning(2, 0, true).expect("image-only page");
    assert_eq!(w.page, Some(2));
    assert_eq!(w.kind, WarningKind::NeedsOcr);
    assert_eq!(w.detail, "page has no text layer (scanned); needs an OCR backend");
    assert!(needs_ocr_warning(2, 5, true).is_none());
    assert!(needs_ocr_warning(2, 0, false).is_none());
}

#[test]
fn documents_keep_page_order_and_warning_order() {
    let p0 = Page { index: 0, ..Default::default() };
    let p1 = Page { index: 1, ..Default::default() };
    let doc = assemble_document(
        vec![warning("load")],
        vec![(p0, vec![warning("a")]), (p1, vec![warning("b"), warning("c")])],
    );
    assert_eq!(doc.source, SourceKind::Pdf);
    assert_eq!(doc.metadata.page_count, 2);
    assert_eq!(doc.pages.iter().map(|p| p.index).collect::<Vec<_>>(), vec![0, 1]);
    let details: Vec<&str> = doc.warnings.iter().map(|w| w.detail.as_str()).collect();
    assert_eq!(details, vec!["load", "a", "b", "c"]);
    assert!(doc.outline.is_empty());
    assert!(doc.metadata.title.is_none());

    let empty = assemble_document(vec![], vec![]);
    assert_eq!(empty.metadata.page_count, 0);
    assert!(empty.pages.is_empty() && empty.warnings.is_empty());
}
