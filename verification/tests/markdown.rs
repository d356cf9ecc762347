use pdfmuse_core::ir::{
    BBox, Block, Cell, Document, ImageRef, Page, Paragraph, Table, TableSource,
};
use pdfmuse_core::markdown::{escape_cell, to_markdown, to_text};

fn bbox() -> BBox {
    BBox { x0: 0.0f32.to_bits(), y0: 0.0f32.to_bits(), x1: 1.0f32.to_bits(), y1: 1.0f32.to_bits() }
}

fn para(text: &str, heading_level: Option<u8>) -> Block {
    Block::Paragraph(Paragraph { bbox: bbox(), text: text.into(), heading_level, role: None })
}

fn cell(text: &str, col_span: u16) -> Cell {
    Cell { text: text.into(), bbox: bbox(), row_span: 1, col_span }
}

fn table(rows: Vec<Vec<Cell>>) -> Block {
    Block::Table(Table { bbox: bbox(), rows, source: TableSource::Ruled })
}

fn image(id: &str, data: Option<&str>) -> Block {
    Block::Image(ImageRef {
        id: id.into(),
        bbox: bbox(),
        width: 1,
        height: 1,
        data: data.map(String::from),
    })
}

fn doc(pages: Vec<Vec<Block>>) -> Document {
    Document {
        pages: pages
            .into_iter()
            .enumerate()
            .map(|(i, blocks)| Page { index: i as u32, blocks, ..Default::default() })
            .collect(),
        ..Default::default()
    }
}

#[test]
fn escape_cell_escapes_pipes_and_flattens_newlines() {
    assert_eq!(escape_cell("a|b\nc"), "a\\|b c");
    assert_eq!(escape_cell("plain"), "plain");
    assert_eq!(escape_cell(""), "");
}

#[test]
fn markdown_of_headings_paragraphs_tables_and_images() {
    let d = doc(vec![
        vec![para("Title", Some(2)), para("Body text", None), para("Zero", Some(0))],
        vec![
            table(vec![vec![cell("h1", 1), cell("h|2", 1)], vec![cell("wide", 2)], vec![cell("x", 1)]]),
            image("12", None),
            image("13", Some("data:image/png;base64,AA==")),
        ],
    ]);
    let expected = "## Title\n\nBody text\n\nZero\n\n\
| h1 | h\\|2 |\n| --- | --- |\n| wide | wide |\n| x |  |\n\n\
![image](obj:12)\n\n![image](data:image/png;base64,AA==)";
    assert_eq!(to_markdown(&d), expected);
}

#[test]
fn a_table_without_columns_renders_as_nothing() {
    let d = doc(vec![vec![para("a", None), table(vec![vec![], vec![]]), para("b", None)]]);
    assert_eq!(to_markdown(&d), "a\n\n\n\nb");
}

#[test]
fn plain_text_joins_blocks_by_newlines() {
    let d = doc(vec![
        vec![para("Title", Some(1)), table(vec![vec![cell("a", 1), cell("b", 3)], vec![cell("c", 1)]])],
        vec![image("7", None), image("8", Some("data:x"))],
    ]);
    assert_eq!(to_text(&d), "Title\na b\nc\n[image:7]\ndata:x");
    assert_eq!(to_text(&doc(vec![])), "");
    assert_eq!(to_markdown(&doc(vec![vec![], vec![]])), "");
}
