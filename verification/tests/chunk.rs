use pdfmuse_core::chunk::chunk;
use pdfmuse_core::ir::{BBox, Block, Cell, Document, Page, Paragraph, Table, TableSource};

fn bbox() -> BBox {
    BBox { x0: 0.0f32.to_bits(), y0: 0.0f32.to_bits(), x1: 1.0f32.to_bits(), y1: 1.0f32.to_bits() }
}

#[test]
fn heading_path_tracks_nesting() {
    let doc = Document {
        pages: vec![Page {
            index: 3,
            blocks: vec![
                Block::Paragraph(Paragraph {
                    bbox: bbox(),
                    text: "Title".into(),
                    heading_level: Some(1),
                    role: None,
                }),
                Block::Paragraph(Paragraph {
                    bbox: bbox(),
                    text: "Body".into(),
                    heading_level: None,
                    role: None,
                }),
            ],
            ..Default::default()
        }],
        ..Default::default()
    };
    let chunks = chunk(&doc);
    assert_eq!(chunks.len(), 2);
    assert_eq!(chunks[1].heading_path, vec!["Title".to_string()]);
    assert_eq!(chunks[1].page, 3);
}

#[test]
fn table_is_one_chunk() {
    let cell = |t: &str| Cell { text: t.into(), bbox: bbox(), row_span: 1, col_span: 1 };
    let doc = Document {
        pages: vec![Page {
            index: 0,
            blocks: vec![Block::Table(Table {
                bbox: bbox(),
                rows: vec![vec![cell("a"), cell("b")], vec![cell("c"), cell("d")]],
                source: TableSource::Ruled,
            })],
            ..Default::default()
        }],
        ..Default::default()
    };
    let chunks = chunk(&doc);
    assert_eq!(chunks.len(), 1);
    assert!(chunks[0].text.contains("a | b"));
}

use pdfmuse_core::ir::{ImageRef, Paragraph as Para};

fn heading(text: &str, level: u8) -> Block {
    Block::Paragraph(Para { bbox: bbox(), text: text.into(), heading_level: Some(level), role: None })
}

fn body(text: &str) -> Block {
    Block::Paragraph(Para { bbox: bbox(), text: text.into(), heading_level: None, role: None })
}

#[test]
fn heading_path_pads_missing_levels_and_drops_deeper_ones() {
    let doc = Document {
        pages: vec![
            Page { index: 0, blocks: vec![heading("Deep", 3), body("one")], ..Default::default() },
            Page {
                index: 1,
                blocks: vec![heading("Top", 1), body("two"), heading("Sub", 2), body("three")],
                ..Default::default()
            },
        ],
        ..Default::default()
    };
    let chunks = chunk(&doc);
    let texts: Vec<&str> = chunks.iter().map(|c| c.text.as_str()).collect();
    assert_eq!(texts, vec!["Deep", "one", "Top", "two", "Sub", "three"]);
    assert_eq!(chunks[1].heading_path, vec!["".to_string(), "".to_string(), "Deep".to_string()]);
    assert_eq!(chunks[1].page, 0);
    assert_eq!(chunks[3].heading_path, vec!["Top".to_string()]);
    assert_eq!(chunks[3].page, 1);
    assert_eq!(chunks[5].heading_path, vec!["Top".to_string(), "Sub".to_string()]);
}

#[test]
fn blank_blocks_make_no_chunks_and_images_cite_their_id() {
    let cell = |t: &str| Cell { text: t.into(), bbox: bbox(), row_span: 1, col_span: 1 };
    let doc = Document {
        pages: vec![Page {
            index: 2,
            blocks: vec![
                body("  \n\t"),
                Block::Table(Table { bbox: bbox(), rows: vec![vec![cell(" ")]], source: TableSource::Ruled }),
                Block::Image(ImageRef { id: "5".into(), bbox: bbox(), width: 1, height: 1, data: None }),
                Block::Image(ImageRef {
                    id: "6".into(),
                    bbox: bbox(),
                    width: 1,
                    height: 1,
                    data: Some(String::new()),
                }),
            ],
            ..Default::default()
        }],
        ..Default::default()
    };
    let chunks = chunk(&doc);
    assert_eq!(chunks.len(), 1);
    assert_eq!(chunks[0].text, "[image:5]");
    assert_eq!(chunks[0].page, 2);
    assert!(chunks[0].heading_path.is_empty());
}

#[test]
fn tables_flatten_rows_and_cells() {
    let cell = |t: &str| Cell { text: t.into(), bbox: bbox(), row_span: 1, col_span: 2 };
    let doc = Document {
        pages: vec![Page {
            index: 0,
            blocks: vec![Block::Table(Table {
                bbox: bbox(),
                rows: vec![vec![cell("a"), cell("b")], vec![cell("c")]],
                source: TableSource::Ruled,
            })],
            ..Default::default()
        }],
        ..Default::default()
    };
    assert_eq!(chunk(&doc)[0].text, "a | b\nc");
}

use pdfmuse_core::ir::OutlineItem;

#[test]
fn outline_clones_keep_every_field() {
    let leaf = OutlineItem { title: "1.1".into(), page: Some(2), level: 2, children: vec![] };
    let item = OutlineItem { title: "1".into(), page: Some(1), level: 1, children: vec![leaf] };
    let copy = item.clone();
    assert_eq!(copy.title, "1");
    assert_eq!(copy.page, Some(1));
    assert_eq!(copy.level, 1);
    assert_eq!(copy.children.len(), 1);
    assert_eq!(copy.children[0].title, "1.1");
    assert_eq!(copy.children[0].page, Some(2));
}
