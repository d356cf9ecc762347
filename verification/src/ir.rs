//! Unified intermediate representation (IR).
//!
//! Every source format is parsed down to this one representation.
//!
//! **Coordinate convention:** coordinates are normalized to a top-left origin,
//! Y growing downward, unit = pt. Coordinates, sizes and colour components
//! are single-precision values; the library carries them as their IEEE-754
//! bit patterns (`f32::to_bits`) and never computes with them, so they pass
//! through unchanged.
//!
//! `Char` is kept at the finest granularity on purpose: it lets downstream
//! users bypass the clustering and regroup by coordinate themselves.

use vstd::prelude::*;

verus! {

/// A fully parsed document — the root of the IR.
#[derive(Clone, Debug, Default)]
pub struct Document {
    /// Which source format produced this document.
    pub source: SourceKind,
    pub metadata: Metadata,
    pub pages: Vec<Page>,
    /// Bookmarks / table of contents.
    pub outline: Vec<OutlineItem>,
    /// Non-fatal degradations recorded during parsing; parsing is never
    /// aborted for these.
    pub warnings: Vec<Warning>,
}

/// The format a [`Document`] was parsed from.
#[derive(Clone, Copy, Debug, Default, PartialEq, Eq, Structural)]
pub enum SourceKind {
    #[default]
    Pdf,
    Docx,
}

/// Document-level metadata. All fields optional — absent in the source ⇒ `None`.
#[derive(Clone, Debug, Default)]
pub struct Metadata {
    pub title: Option<String>,
    pub author: Option<String>,
    pub subject: Option<String>,
    pub keywords: Option<String>,
    pub creator: Option<String>,
    pub producer: Option<String>,
    pub page_count: u32,
}

/// A single page and everything found on it, from finest (chars) to coarsest
/// (blocks).
#[derive(Clone, Debug, Default)]
pub struct Page {
    pub index: u32,
    /// Width in pt (bit pattern of an `f32`).
    pub width: u32,
    /// Height in pt (bit pattern of an `f32`).
    pub height: u32,
    /// Page rotation in degrees (0/90/180/270).
    pub rotation: i32,
    /// Finest granularity: every glyph with its coordinates.
    pub chars: Vec<Char>,
    /// Characters clustered into lines.
    pub lines: Vec<TextLine>,
    /// Paragraphs / tables / images in reading order.
    pub blocks: Vec<Block>,
    /// Vector rectangles — a source of table borders.
    pub rects: Vec<Rect>,
    /// Vector line segments — a source of table rules.
    pub rules: Vec<Rule>,
    pub images: Vec<ImageRef>,
    pub links: Vec<Link>,
}

/// A single character with precise placement. `text` is always Unicode
/// (post-CMap) — never a raw CID.
#[derive(Clone, Debug)]
pub struct Char {
    pub text: String,
    pub bbox: BBox,
    pub font: FontRef,
    /// Effective size in pt (bit pattern of an `f32`).
    pub size: u32,
    /// RGB in 0.0..=1.0, if known (bit patterns of `f32`s).
    pub color: Option<[u32; 3]>,
}

/// An axis-aligned bounding box in normalized (top-left origin, Y-down, pt)
/// space; each coordinate is the bit pattern of an `f32`.
#[derive(Clone, Copy, Debug, Default, PartialEq, Eq, Structural)]
pub struct BBox {
    pub x0: u32,
    pub y0: u32,
    pub x1: u32,
    pub y1: u32,
}

/// Reference to a font by resource name.
#[derive(Clone, Debug, Default)]
pub struct FontRef {
    pub name: String,
}

/// A line of text produced by clustering [`Char`]s.
#[derive(Clone, Debug)]
pub struct TextLine {
    pub bbox: BBox,
    pub text: String,
    /// Indices into the owning [`Page::chars`] that make up this line.
    pub chars: Vec<u32>,
}

/// A coarse-grained page element in reading order.
#[derive(Clone, Debug)]
pub enum Block {
    Paragraph(Paragraph),
    Table(Table),
    Image(ImageRef),
}

/// A paragraph of text. `heading_level` is `Some(n)` when this paragraph is a
/// heading (drives Markdown `#` levels and RAG `heading_path`).
#[derive(Clone, Debug)]
pub struct Paragraph {
    pub bbox: BBox,
    pub text: String,
    pub heading_level: Option<u8>,
    /// A non-body role, when detected.
    pub role: Option<BlockRole>,
}

/// A non-body role a paragraph can play.
#[derive(Clone, Copy, Debug, PartialEq, Eq, Structural)]
pub enum BlockRole {
    /// A running header/footer (page number, document title, "CONFIDENTIAL")
    /// repeated across pages. Marked, never dropped by default.
    HeaderFooter,
}

/// A reconstructed table. `source` records which deterministic path built it.
#[derive(Clone, Debug)]
pub struct Table {
    pub bbox: BBox,
    /// Row-major grid of cells.
    pub rows: Vec<Vec<Cell>>,
    pub source: TableSource,
}

/// Which deterministic reconstruction path produced a [`Table`].
#[derive(Clone, Copy, Debug, PartialEq, Eq, Structural)]
pub enum TableSource {
    /// Built from vector rules/rects (highest precision).
    Ruled,
    /// Built from whitespace-aligned text columns.
    Whitespace,
    /// Explicit table structure from a DOCX `w:tbl`.
    Docx,
}

/// A single table cell, possibly spanning rows/columns.
#[derive(Clone, Debug)]
pub struct Cell {
    pub text: String,
    pub bbox: BBox,
    pub row_span: u16,
    pub col_span: u16,
}

/// A vector rectangle (e.g. a table border box).
#[derive(Clone, Debug)]
pub struct Rect {
    pub bbox: BBox,
}

/// A vector line segment (e.g. a table rule); coordinates and stroke width in
/// pt, each the bit pattern of an `f32`.
#[derive(Clone, Debug)]
pub struct Rule {
    pub x0: u32,
    pub y0: u32,
    pub x1: u32,
    pub y1: u32,
    pub width: u32,
}

/// A reference to an embedded image and where it sits on the page.
#[derive(Clone, Debug)]
pub struct ImageRef {
    pub id: String,
    pub bbox: BBox,
    pub width: u32,
    pub height: u32,
    /// Base64-encoded image data as a data URI, or `None` if the image stream
    /// could not be decoded.
    pub data: Option<String>,
}

/// A hyperlink region (external link vs. intra-document jump).
#[derive(Clone, Debug)]
pub struct Link {
    pub bbox: BBox,
    pub uri: Option<String>,
    pub page: Option<u32>,
}

/// An entry in the document outline (bookmarks / TOC). Recursive.
#[derive(Debug)]
pub struct OutlineItem {
    pub title: String,
    pub page: Option<u32>,
    pub level: u8,
    pub children: Vec<OutlineItem>,
}

/// Two outline entries agree in title, page and level, and so do their
/// children, entry by entry.
pub open spec fn same_outline(a: OutlineItem, b: OutlineItem) -> bool
    decreases a,
{
    &&& a.title == b.title
    &&& a.page == b.page
    &&& a.level == b.level
    &&& a.children@.len() == b.children@.len()
    &&& forall|i: int|
        0 <= i < a.children@.len() ==> same_outline(#[trigger] a.children@[i], b.children@[i])
}

impl Clone for OutlineItem {
    /// A copy that keeps every field, the children's included.
    fn clone(&self) -> (r: Self)
        ensures
            same_outline(r, *self),
        decreases self,
    {
        let mut children: Vec<OutlineItem> = Vec::new();
        let mut i: usize = 0;
        while i < self.children.len()
            invariant
                i <= self.children@.len(),
                children@.len() == i,
                forall|k: int| 0 <= k < i ==> same_outline(#[trigger] children@[k], self.children@[k]),
            decreases self.children.len() - i,
        {
            let c = self.children[i].clone();
            children.push(c);
            i += 1;
        }
        OutlineItem { title: self.title.clone(), page: self.page, level: self.level, children }
    }
}

/// A non-fatal degradation recorded during parsing.
#[derive(Clone, Debug)]
pub struct Warning {
    /// The page it occurred on, if page-scoped.
    pub page: Option<u32>,
    pub kind: WarningKind,
    pub detail: String,
}

/// The category of a [`Warning`].
#[derive(Clone, Copy, Debug, PartialEq, Eq, Structural)]
pub enum WarningKind {
    /// An object could not be parsed and was skipped.
    MalformedObject,
    /// A CID font lacked a usable CMap/ToUnicode mapping.
    MissingCMap,
    /// The document was decrypted via a fallback path.
    EncryptedFallback,
    /// A scanned page has no text layer and needs OCR.
    NeedsOcr,
    /// A source feature is not (yet) supported by the core.
    Unsupported,
}

} // verus!
