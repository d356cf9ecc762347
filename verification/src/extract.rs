//! Per-page and per-document assembly of the extraction pipeline: the
//! 0-based page index, the warning for a page that needs OCR, and the
//! document built from the pages in page order.

use vstd::prelude::*;
use crate::ir::{Document, Metadata, Page, SourceKind, Warning, WarningKind};

verus! {

/// The 0-based IR index of a 1-based page number (page 0 stays 0).
pub fn page_index(page_number: u32) -> (r: u32)
    ensures
        r == if page_number == 0 {
            0
        } else {
            page_number - 1
        },
{
    page_number.saturating_sub(1)
}

/// The detail of the warning for a page without a text layer.
pub open spec fn needs_ocr_detail() -> Seq<char> {
    "page has no text layer (scanned); needs an OCR backend"@
}

/// A page with images but no characters is scanned: it yields a `NeedsOcr`
/// warning; any other page none.
pub fn needs_ocr_warning(index: u32, char_count: usize, has_image: bool) -> (r: Option<Warning>)
    ensures
        r is Some <==> char_count == 0 && has_image,
        r matches Some(w) ==> w.page == Some(index) && w.kind == WarningKind::NeedsOcr
            && w.detail@ == needs_ocr_detail(),
{
    if char_count == 0 && has_image {
        proof {
            reveal_strlit("page has no text layer (scanned); needs an OCR backend");
        }
        Some(
            Warning {
                page: Some(index),
                kind: WarningKind::NeedsOcr,
                detail: String::from_str("page has no text layer (scanned); needs an OCR backend"),
            },
        )
    } else {
        None
    }
}

/// The warnings of the extracted pages, page after page.
pub open spec fn page_warnings(ps: Seq<(Page, Vec<Warning>)>) -> Seq<Warning>
    decreases ps.len(),
{
    if ps.len() == 0 {
        seq![]
    } else {
        page_warnings(ps.drop_last()) + ps.last().1@
    }
}

/// The pages of the extracted pages, in order.
pub open spec fn page_list(ps: Seq<(Page, Vec<Warning>)>) -> Seq<Page> {
    ps.map_values(|p: (Page, Vec<Warning>)| p.0)
}

/// Assemble a PDF document from the warnings of loading it and its pages,
/// each with its own warnings, in page order: the pages keep that order, the
/// loading warnings come first and each page's warnings follow in page order,
/// and the page count is the number of pages.
pub fn assemble_document(warnings: Vec<Warning>, pages: Vec<(Page, Vec<Warning>)>) -> (r: Document)
    ensures
        r.source == SourceKind::Pdf,
        r.metadata.page_count == pages@.len() as u32,
        r.metadata.title is None && r.metadata.author is None && r.metadata.subject is None
            && r.metadata.keywords is None && r.metadata.creator is None
            && r.metadata.producer is None,
        r.pages@ == page_list(pages@),
        r.warnings@ == warnings@ + page_warnings(pages@),
        r.outline@.len() == 0,
{
    let count = pages.len() as u32;
    let ghost all = pages@;
    let mut out_pages: Vec<Page> = Vec::new();
    let mut out_warnings = warnings;
    let ghost start = out_warnings@;
    for item in it: pages
        invariant
            it.seq() == all,
            out_pages@ == page_list(all.take(it.index())),
            out_warnings@ == start + page_warnings(all.take(it.index())),
    {
        let ghost i = it.index();
        let (page, mut ws) = item;
        proof {
            assert(all.take(i + 1).drop_last() =~= all.take(i));
            assert(all.take(i + 1).last() == all[i]);
        }
        let ghost before = out_warnings@;
        out_warnings.append(&mut ws);
        out_pages.push(page);
        proof {
            assert(out_pages@ =~= page_list(all.take(i + 1)));
            assert(out_warnings@ =~= start + page_warnings(all.take(i + 1)));
        }
    }
    proof {
        assert(all.take(all.len() as int) =~= all);
    }
    Document {
        source: SourceKind::Pdf,
        metadata: Metadata {
            title: None,
            author: None,
            subject: None,
            keywords: None,
            creator: None,
            producer: None,
            page_count: count,
        },
        pages: out_pages,
        outline: Vec::new(),
        warnings: out_warnings,
    }
}

} // verus!
