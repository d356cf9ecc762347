//! RAG chunking of the IR.
//!
//! Emits one [`Chunk`] per non-empty block, each carrying the block's page,
//! bbox, and the running heading path (the stack of enclosing headings).
//! Tables are never split — a table becomes exactly one chunk with a
//! flattened text body.

use vstd::prelude::*;
use crate::ir::{BBox, Block, Cell, Document, Page, Table};
use crate::markdown::{cell_texts, doc_blocks, image_plain_text, image_text, row_cell_texts};
use crate::text::{
    clone_strings, is_blank, is_blank_text, join, join_strings, lemma_join_len, lemma_texts_push, texts,
    total_len,
};

verus! {

/// A retrieval unit: a block's text plus the context needed to cite it.
#[derive(Clone, Debug)]
pub struct Chunk {
    pub text: String,
    pub page: u32,
    pub bbox: BBox,
    /// The stack of enclosing headings, outermost first.
    pub heading_path: Vec<String>,
}

/// The value of a [`Chunk`].
pub struct SpecChunk {
    pub text: Seq<char>,
    pub page: u32,
    pub bbox: BBox,
    pub heading_path: Seq<Seq<char>>,
}

impl View for Chunk {
    type V = SpecChunk;

    open spec fn view(&self) -> SpecChunk {
        SpecChunk {
            text: self.text@,
            page: self.page,
            bbox: self.bbox,
            heading_path: texts(self.heading_path@),
        }
    }
}

pub open spec fn chunks_view(c: Seq<Chunk>) -> Seq<SpecChunk> {
    c.map_values(|x: Chunk| x@)
}

/// The heading path after a heading of level `level` (> 0) titled `title`:
/// the headings of the outer levels are kept, missing intermediate levels are
/// padded with blank entries, and the heading itself ends the path.
pub open spec fn heading_enter(path: Seq<Seq<char>>, level: u8, title: Seq<char>) -> Seq<Seq<char>> {
    let keep = level - 1;
    let kept = if path.len() > keep {
        path.take(keep)
    } else {
        path
    };
    kept + Seq::new((keep - kept.len()) as nat, |i: int| Seq::<char>::empty()) + seq![title]
}

/// A table flattened to text: cells joined by ` | ` per row, rows joined by
/// newlines.
pub open spec fn flattened_table(t: Table) -> Seq<char> {
    join(t.rows@.map_values(|r: Vec<Cell>| join(cell_texts(r@), " | "@)), "\n"@)
}

/// The chunks one block yields and the heading path after it.
pub open spec fn chunk_step(page: u32, b: Block, path: Seq<Seq<char>>) -> (
    Seq<SpecChunk>,
    Seq<Seq<char>>,
) {
    match b {
        Block::Paragraph(p) => {
            let path2 = match p.heading_level {
                Some(l) => if l > 0 {
                    heading_enter(path, l, p.text@)
                } else {
                    path
                },
                None => path,
            };
            if is_blank_text(p.text@) {
                (seq![], path2)
            } else {
                (
                    seq![SpecChunk { text: p.text@, page, bbox: p.bbox, heading_path: path2 }],
                    path2,
                )
            }
        },
        Block::Table(t) => {
            let text = flattened_table(t);
            if is_blank_text(text) {
                (seq![], path)
            } else {
                (seq![SpecChunk { text, page, bbox: t.bbox, heading_path: path }], path)
            }
        },
        Block::Image(img) => {
            let text = image_plain_text(img);
            if text.len() == 0 {
                (seq![], path)
            } else {
                (seq![SpecChunk { text, page, bbox: img.bbox, heading_path: path }], path)
            }
        },
    }
}

/// The chunks of a page's blocks, in order, starting from heading path
/// `path`; also the heading path after them.
pub open spec fn chunk_blocks(page: u32, blocks: Seq<Block>, path: Seq<Seq<char>>) -> (
    Seq<SpecChunk>,
    Seq<Seq<char>>,
)
    decreases blocks.len(),
{
    if blocks.len() == 0 {
        (seq![], path)
    } else {
        let (out, p) = chunk_blocks(page, blocks.drop_last(), path);
        let (more, p2) = chunk_step(page, blocks.last(), p);
        (out + more, p2)
    }
}

/// The chunks of pages in order, the heading path running across pages.
pub open spec fn chunk_pages(pages: Seq<Page>, path: Seq<Seq<char>>) -> (
    Seq<SpecChunk>,
    Seq<Seq<char>>,
)
    decreases pages.len(),
{
    if pages.len() == 0 {
        (seq![], path)
    } else {
        let (out, p) = chunk_pages(pages.drop_last(), path);
        let (more, p2) = chunk_blocks(pages.last().index, pages.last().blocks@, p);
        (out + more, p2)
    }
}

/// The chunks of a document, starting with an empty heading path.
pub open spec fn document_chunks(doc: Document) -> Seq<SpecChunk> {
    chunk_pages(doc.pages@, seq![]).0
}

/// Flatten a table into a single readable string: cells joined by " | " per
/// row, rows joined by newlines.
pub fn flatten_table(table: &Table) -> (r: String)
    ensures
        r@ == flattened_table(*table),
{
    let ghost goal = table.rows@.map_values(|r: Vec<Cell>| join(cell_texts(r@), " | "@));
    let mut lines: Vec<String> = Vec::new();
    let mut i: usize = 0;
    while i < table.rows.len()
        invariant
            i <= table.rows@.len(),
            goal == table.rows@.map_values(|r: Vec<Cell>| join(cell_texts(r@), " | "@)),
            texts(lines@) == goal.take(i as int),
        decreases table.rows@.len() - i,
    {
        let cells = row_cell_texts(&table.rows[i]);
        let line = join_strings(&cells, " | ");
        let ghost before = lines@;
        lines.push(line);
        proof {
            lemma_texts_push(before, line);
            assert(goal.take(i + 1) =~= goal.take(i as int).push(goal[i as int]));
        }
        i += 1;
    }
    assert(goal.take(table.rows@.len() as int) =~= goal);
    join_strings(&lines, "\n")
}

/// Move the heading path into a heading of level `level` (> 0).
fn enter_heading(path: &mut Vec<String>, level: u8, title: &String)
    requires
        level > 0,
    ensures
        texts(final(path)@) == heading_enter(texts(old(path)@), level, title@),
{
    let ghost p0 = texts(path@);
    let keep = (level - 1) as usize;
    path.truncate(keep);
    assert(texts(path@) =~= if p0.len() > keep {
        p0.take(keep as int)
    } else {
        p0
    });
    let ghost kept = texts(path@);
    while path.len() < keep
        invariant
            path@.len() <= keep,
            kept.len() <= keep,
            texts(path@) == kept + Seq::new((path@.len() - kept.len()) as nat, |i: int| Seq::<char>::empty()),
        decreases keep - path@.len(),
    {
        let ghost before = path@;
        let blank = String::new();
        path.push(blank);
        proof {
            lemma_texts_push(before, blank);
        }
        assert(texts(path@) =~= kept + Seq::new(
            (path@.len() - kept.len()) as nat,
            |i: int| Seq::<char>::empty(),
        ));
    }
    let ghost before = path@;
    let t = title.clone();
    path.push(t);
    proof {
        lemma_texts_push(before, t);
    }
    assert(texts(path@) =~= heading_enter(p0, level, title@));
}

/// Split `doc` into chunks (one per non-empty block), tracking heading
/// context.
pub fn chunk(doc: &Document) -> (r: Vec<Chunk>)
    ensures
        chunks_view(r@) == document_chunks(*doc),
{
    let mut chunks: Vec<Chunk> = Vec::new();
    // `heading_path[i]` is the current heading at level `i + 1`.
    let mut heading_path: Vec<String> = Vec::new();
    let mut p: usize = 0;
    assert(texts(heading_path@) =~= Seq::<Seq<char>>::empty());
    while p < doc.pages.len()
        invariant
            p <= doc.pages@.len(),
            chunk_pages(doc.pages@.take(p as int), seq![]) == (
                chunks_view(chunks@),
                texts(heading_path@),
            ),
        decreases doc.pages@.len() - p,
    {
        let page = &doc.pages[p];
        let ghost done = chunks_view(chunks@);
        let ghost path0 = texts(heading_path@);
        let mut k: usize = 0;
        while k < page.blocks.len()
            invariant
                k <= page.blocks@.len(),
                chunk_blocks(page.index, page.blocks@.take(k as int), path0) == (
                    chunks_view(chunks@).skip(done.len() as int),
                    texts(heading_path@),
                ),
                chunks_view(chunks@).take(done.len() as int) == done,
                done.len() <= chunks@.len(),
            decreases page.blocks@.len() - k,
        {
            let ghost before = chunks_view(chunks@);
            let ghost path_before = texts(heading_path@);
            assert(page.blocks@.take(k + 1).drop_last() =~= page.blocks@.take(k as int));
            match &page.blocks[k] {
                Block::Paragraph(para) => {
                    match para.heading_level {
                        Some(level) => {
                            if level > 0 {
                                // A heading sets the path at its depth and drops deeper
                                // levels; missing intermediate levels are padded blank.
                                enter_heading(&mut heading_path, level, &para.text);
                            }
                        },
                        None => {},
                    }
                    if !is_blank(para.text.as_str()) {
                        let c = Chunk {
                            text: para.text.clone(),
                            page: page.index,
                            bbox: para.bbox,
                            heading_path: clone_strings(&heading_path),
                        };
                        chunks.push(c);
                    }
                },
                Block::Table(t) => {
                    let text = flatten_table(t);
                    if !is_blank(text.as_str()) {
                        let c = Chunk {
                            text,
                            page: page.index,
                            bbox: t.bbox,
                            heading_path: clone_strings(&heading_path),
                        };
                        chunks.push(c);
                    }
                },
                Block::Image(img) => {
                    let text = image_text(img);
                    if !text.as_str().is_empty() {
                        let c = Chunk {
                            text,
                            page: page.index,
                            bbox: img.bbox,
                            heading_path: clone_strings(&heading_path),
                        };
                        chunks.push(c);
                    }
                },
            }
            proof {
                let (more, p2) = chunk_step(page.index, page.blocks@[k as int], path_before);
                assert(p2 == texts(heading_path@));
                assert(chunks_view(chunks@) =~= before + more);
                assert(chunks_view(chunks@).skip(done.len() as int) =~= before.skip(
                    done.len() as int,
                ) + more);
                assert(chunks_view(chunks@).take(done.len() as int) =~= done);
            }
            k += 1;
        }
        proof {
            assert(page.blocks@.take(k as int) =~= page.blocks@);
            assert(doc.pages@.take(p + 1).drop_last() =~= doc.pages@.take(p as int));
            assert(chunks_view(chunks@) =~= done + chunks_view(chunks@).skip(done.len() as int));
        }
        p += 1;
    }
    assert(doc.pages@.take(p as int) =~= doc.pages@);
    chunks
}


// ---------------------------------------------------------------------------
// Laws
// ---------------------------------------------------------------------------

/// How long a row of cells is once flattened with one ` | ` between every
/// two cells.
pub open spec fn row_fields_len(row: Seq<Cell>) -> int {
    if row.len() == 0 {
        0
    } else {
        total_len(cell_texts(row)) + 3 * (row.len() - 1)
    }
}

/// The flattened lengths of rows, added up.
pub open spec fn rows_fields_len(rows: Seq<Vec<Cell>>) -> int
    decreases rows.len(),
{
    if rows.len() == 0 {
        0
    } else {
        rows_fields_len(rows.drop_last()) + row_fields_len(rows.last()@)
    }
}

proof fn lemma_row_lines_len(rows: Seq<Vec<Cell>>)
    ensures
        total_len(rows.map_values(|r: Vec<Cell>| join(cell_texts(r@), " | "@))) == rows_fields_len(
            rows,
        ),
    decreases rows.len(),
{
    reveal_strlit(" | ");
    if rows.len() > 0 {
        let p = rows.drop_last();
        lemma_row_lines_len(p);
        assert(rows.map_values(|r: Vec<Cell>| join(cell_texts(r@), " | "@)).drop_last()
            =~= p.map_values(|r: Vec<Cell>| join(cell_texts(r@), " | "@)));
        lemma_join_len(cell_texts(rows.last()@), " | "@);
    }
}

/// Flattening a table keeps every cell, empty ones included: each row is as
/// long as its cells' texts together plus one ` | ` between every two of
/// them, and one newline stands between every two rows.
pub proof fn lemma_flattened_table_length(t: Table)
    ensures
        flattened_table(t).len() == if t.rows@.len() == 0 {
            0
        } else {
            rows_fields_len(t.rows@) + t.rows@.len() - 1
        },
{
    reveal_strlit("\n");
    let lines = t.rows@.map_values(|r: Vec<Cell>| join(cell_texts(r@), " | "@));
    lemma_join_len(lines, "\n"@);
    lemma_row_lines_len(t.rows@);
}

/// Entering a heading of level `level` leaves a path of exactly `level`
/// entries: the outer headings that were there are kept, the rest padded
/// blank, and the heading itself last.
pub proof fn lemma_heading_enter_shape(path: Seq<Seq<char>>, level: u8, title: Seq<char>)
    requires
        level > 0,
    ensures
        heading_enter(path, level, title).len() == level,
        heading_enter(path, level, title)[level - 1] == title,
        forall|i: int|
            0 <= i < level - 1 && i < path.len() ==> #[trigger] heading_enter(path, level, title)[i]
                == path[i],
        forall|i: int|
            path.len() <= i < level - 1 ==> #[trigger] heading_enter(path, level, title)[i]
                == Seq::<char>::empty(),
{
}

/// One block yields at most one chunk, with non-empty text, on the block's
/// page, carrying the heading path in force after the block.
proof fn lemma_chunk_step_shape(page: u32, b: Block, path: Seq<Seq<char>>)
    ensures
        chunk_step(page, b, path).0.len() <= 1,
        forall|j: int|
            0 <= j < chunk_step(page, b, path).0.len() ==> (#[trigger] chunk_step(
                page,
                b,
                path,
            ).0[j]).text.len() > 0 && chunk_step(page, b, path).0[j].page == page
                && chunk_step(page, b, path).0[j].heading_path == chunk_step(page, b, path).1,
{
    match b {
        Block::Paragraph(p) => {
            if !is_blank_text(p.text@) {
                assert(p.text@.len() > 0);
            }
        },
        Block::Table(t) => {
            if !is_blank_text(flattened_table(t)) {
                assert(flattened_table(t).len() > 0);
            }
        },
        Block::Image(img) => {},
    }
}

proof fn lemma_chunk_blocks_shape(page: u32, blocks: Seq<Block>, path: Seq<Seq<char>>)
    ensures
        chunk_blocks(page, blocks, path).0.len() <= blocks.len(),
        forall|j: int|
            0 <= j < chunk_blocks(page, blocks, path).0.len() ==> (#[trigger] chunk_blocks(
                page,
                blocks,
                path,
            ).0[j]).text.len() > 0 && chunk_blocks(page, blocks, path).0[j].page == page,
    decreases blocks.len(),
{
    if blocks.len() > 0 {
        lemma_chunk_blocks_shape(page, blocks.drop_last(), path);
        let (out, p) = chunk_blocks(page, blocks.drop_last(), path);
        lemma_chunk_step_shape(page, blocks.last(), p);
        let more = chunk_step(page, blocks.last(), p).0;
        assert forall|j: int| 0 <= j < (out + more).len() implies (#[trigger] (out + more)[j]).text.len()
            > 0 && (out + more)[j].page == page by {
            if j >= out.len() {
                assert((out + more)[j] == more[j - out.len()]);
            }
        }
    }
}

/// The blocks of a run of pages, page after page.
proof fn lemma_chunk_pages_shape(pages: Seq<Page>, path: Seq<Seq<char>>)
    ensures
        chunk_pages(pages, path).0.len() <= doc_blocks(pages).len(),
        forall|j: int|
            0 <= j < chunk_pages(pages, path).0.len() ==> (#[trigger] chunk_pages(pages, path).0[j]).text.len()
                > 0 && exists|q: int| 0 <= q < pages.len() && chunk_pages(pages, path).0[j].page == pages[q].index,
    decreases pages.len(),
{
    if pages.len() > 0 {
        let init = pages.drop_last();
        lemma_chunk_pages_shape(init, path);
        let (out, p) = chunk_pages(init, path);
        let last = pages.last();
        lemma_chunk_blocks_shape(last.index, last.blocks@, p);
        let more = chunk_blocks(last.index, last.blocks@, p).0;
        assert forall|j: int| 0 <= j < (out + more).len() implies (#[trigger] (out + more)[j]).text.len()
            > 0 && exists|q: int| 0 <= q < pages.len() && (out + more)[j].page == pages[q].index by {
            if j >= out.len() {
                assert((out + more)[j] == more[j - out.len()]);
                assert(pages[pages.len() - 1] == last);
            } else {
                let q = choose|q: int| 0 <= q < init.len() && out[j].page == init[q].index;
                assert(pages[q] == init[q]);
            }
        }
    }
}

/// Chunking never makes more chunks than the document has blocks, every
/// chunk has non-empty text, and every chunk cites one of the document's
/// pages.
pub proof fn lemma_chunks_cover_blocks(doc: Document)
    ensures
        document_chunks(doc).len() <= doc_blocks(doc.pages@).len(),
        forall|j: int|
            0 <= j < document_chunks(doc).len() ==> (#[trigger] document_chunks(doc)[j]).text.len()
                > 0,
        forall|j: int|
            0 <= j < document_chunks(doc).len() ==> exists|q: int|
                0 <= q < doc.pages@.len() && (#[trigger] document_chunks(doc)[j]).page
                    == doc.pages@[q].index,
{
    lemma_chunk_pages_shape(doc.pages@, seq![]);
}

/// A table that has any text is never split: it is exactly one chunk, whose
/// text is the flattened table and whose bbox is the table's.
pub proof fn lemma_table_is_one_chunk(page: u32, t: Table, path: Seq<Seq<char>>)
    requires
        !is_blank_text(flattened_table(t)),
    ensures
        chunk_step(page, Block::Table(t), path).0.len() == 1,
        chunk_step(page, Block::Table(t), path).0[0].text == flattened_table(t),
        chunk_step(page, Block::Table(t), path).0[0].bbox == t.bbox,
        chunk_step(page, Block::Table(t), path).0[0].heading_path == path,
{
}


/// A paragraph with a heading level above 0.
pub open spec fn is_heading(b: Block) -> bool {
    b matches Block::Paragraph(p) && p.heading_level matches Some(l) && l > 0
}

/// The heading path after block `b`: a heading enters its level, any other
/// block leaves the path as it is.
pub open spec fn path_after(b: Block, path: Seq<Seq<char>>) -> Seq<Seq<char>> {
    match b {
        Block::Paragraph(p) => match p.heading_level {
            Some(l) => if l > 0 {
                heading_enter(path, l, p.text@)
            } else {
                path
            },
            None => path,
        },
        _ => path,
    }
}

/// A heading block sets the heading path (see [`heading_enter`]) and any
/// other block keeps it; the block's chunk carries the path after it.
pub proof fn lemma_chunk_step_path(page: u32, b: Block, path: Seq<Seq<char>>)
    ensures
        chunk_step(page, b, path).1 == path_after(b, path),
        !is_heading(b) ==> chunk_step(page, b, path).1 == path,
        forall|j: int|
            0 <= j < chunk_step(page, b, path).0.len() ==> (#[trigger] chunk_step(
                page,
                b,
                path,
            ).0[j]).heading_path == path_after(b, path),
{
    lemma_chunk_step_shape(page, b, path);
}

/// Blocks without a heading keep the heading path: every chunk they yield
/// carries the path in force before them, and it is still in force after.
pub proof fn lemma_blocks_keep_path(page: u32, blocks: Seq<Block>, path: Seq<Seq<char>>)
    requires
        forall|j: int| 0 <= j < blocks.len() ==> !is_heading(#[trigger] blocks[j]),
    ensures
        chunk_blocks(page, blocks, path).1 == path,
        forall|j: int|
            0 <= j < chunk_blocks(page, blocks, path).0.len() ==> (#[trigger] chunk_blocks(
                page,
                blocks,
                path,
            ).0[j]).heading_path == path,
    decreases blocks.len(),
{
    if blocks.len() > 0 {
        let init = blocks.drop_last();
        assert forall|j: int| 0 <= j < init.len() implies !is_heading(#[trigger] init[j]) by {
            assert(init[j] == blocks[j]);
        }
        lemma_blocks_keep_path(page, init, path);
        let out = chunk_blocks(page, init, path).0;
        assert(!is_heading(blocks[blocks.len() - 1]));
        lemma_chunk_step_path(page, blocks.last(), path);
        let more = chunk_step(page, blocks.last(), path).0;
        assert forall|j: int| 0 <= j < (out + more).len() implies (#[trigger] (out + more)[j]).heading_path
            == path by {
            if j >= out.len() {
                assert((out + more)[j] == more[j - out.len()]);
            }
        }
    }
}

/// Pages without a heading keep the heading path across them.
pub proof fn lemma_pages_keep_path(pages: Seq<Page>, path: Seq<Seq<char>>)
    requires
        forall|q: int, j: int|
            0 <= q < pages.len() && 0 <= j < pages[q].blocks@.len() ==> !is_heading(
                #[trigger] pages[q].blocks@[j],
            ),
    ensures
        chunk_pages(pages, path).1 == path,
        forall|j: int|
            0 <= j < chunk_pages(pages, path).0.len() ==> (#[trigger] chunk_pages(pages, path).0[j]).heading_path
                == path,
    decreases pages.len(),
{
    if pages.len() > 0 {
        let init = pages.drop_last();
        assert forall|q: int, j: int|
            0 <= q < init.len() && 0 <= j < init[q].blocks@.len() implies !is_heading(
            #[trigger] init[q].blocks@[j],
        ) by {
            assert(init[q] == pages[q]);
        }
        lemma_pages_keep_path(init, path);
        let last = pages.last();
        assert forall|j: int| 0 <= j < last.blocks@.len() implies !is_heading(
            #[trigger] last.blocks@[j],
        ) by {
            assert(pages[pages.len() - 1] == last);
        }
        lemma_blocks_keep_path(last.index, last.blocks@, path);
        let out = chunk_pages(init, path).0;
        let more = chunk_blocks(last.index, last.blocks@, path).0;
        assert forall|j: int| 0 <= j < (out + more).len() implies (#[trigger] (out + more)[j]).heading_path
            == path by {
            if j >= out.len() {
                assert((out + more)[j] == more[j - out.len()]);
            }
        }
    }
}

/// The text a block is chunked as: a paragraph's text, a flattened table,
/// or an image's data URI (`[image:<id>]` without one).
pub open spec fn block_text(b: Block) -> Seq<char> {
    match b {
        Block::Paragraph(p) => p.text@,
        Block::Table(t) => flattened_table(t),
        Block::Image(img) => image_plain_text(img),
    }
}

/// Whether a block makes a chunk: paragraphs and tables whose text is not
/// blank, images whose text is not empty.
pub open spec fn block_kept(b: Block) -> bool {
    match b {
        Block::Image(_) => block_text(b).len() > 0,
        _ => !is_blank_text(block_text(b)),
    }
}

pub open spec fn block_bbox(b: Block) -> BBox {
    match b {
        Block::Paragraph(p) => p.bbox,
        Block::Table(t) => t.bbox,
        Block::Image(img) => img.bbox,
    }
}

/// `(text, page, bbox)` of a chunk.
pub open spec fn chunk_entry(c: SpecChunk) -> (Seq<char>, u32, BBox) {
    (c.text, c.page, c.bbox)
}

/// One `(text, page, bbox)` per kept block of a page, in block order.
pub open spec fn block_entries(page: u32, blocks: Seq<Block>) -> Seq<(Seq<char>, u32, BBox)>
    decreases blocks.len(),
{
    if blocks.len() == 0 {
        seq![]
    } else {
        block_entries(page, blocks.drop_last()) + if block_kept(blocks.last()) {
            seq![(block_text(blocks.last()), page, block_bbox(blocks.last()))]
        } else {
            seq![]
        }
    }
}

/// One `(text, page, bbox)` per kept block, pages in order.
pub open spec fn page_entries(pages: Seq<Page>) -> Seq<(Seq<char>, u32, BBox)>
    decreases pages.len(),
{
    if pages.len() == 0 {
        seq![]
    } else {
        page_entries(pages.drop_last()) + block_entries(pages.last().index, pages.last().blocks@)
    }
}

proof fn lemma_blocks_entries(page: u32, blocks: Seq<Block>, path: Seq<Seq<char>>)
    ensures
        chunk_blocks(page, blocks, path).0.map_values(|c: SpecChunk| chunk_entry(c))
            == block_entries(page, blocks),
    decreases blocks.len(),
{
    if blocks.len() > 0 {
        let init = blocks.drop_last();
        lemma_blocks_entries(page, init, path);
        let (out, p) = chunk_blocks(page, init, path);
        let more = chunk_step(page, blocks.last(), p).0;
        let b = blocks.last();
        match b {
            Block::Paragraph(para) => {},
            Block::Table(t) => {},
            Block::Image(img) => {},
        }
        assert((out + more).map_values(|c: SpecChunk| chunk_entry(c)) =~= out.map_values(
            |c: SpecChunk| chunk_entry(c),
        ) + more.map_values(|c: SpecChunk| chunk_entry(c)));
        assert(more.map_values(|c: SpecChunk| chunk_entry(c)) =~= if block_kept(b) {
            seq![(block_text(b), page, block_bbox(b))]
        } else {
            seq![]
        });
    }
}

proof fn lemma_pages_entries(pages: Seq<Page>, path: Seq<Seq<char>>)
    ensures
        chunk_pages(pages, path).0.map_values(|c: SpecChunk| chunk_entry(c)) == page_entries(pages),
    decreases pages.len(),
{
    if pages.len() > 0 {
        let init = pages.drop_last();
        lemma_pages_entries(init, path);
        let (out, p) = chunk_pages(init, path);
        let last = pages.last();
        lemma_blocks_entries(last.index, last.blocks@, p);
        let more = chunk_blocks(last.index, last.blocks@, p).0;
        assert((out + more).map_values(|c: SpecChunk| chunk_entry(c)) =~= out.map_values(
            |c: SpecChunk| chunk_entry(c),
        ) + more.map_values(|c: SpecChunk| chunk_entry(c)));
    }
}

/// Leaving heading paths aside, the chunks of a document are exactly one
/// `(text, page, bbox)` per kept block, in page and then block order.
pub proof fn lemma_chunks_follow_blocks(doc: Document)
    ensures
        document_chunks(doc).map_values(|c: SpecChunk| chunk_entry(c)) == page_entries(doc.pages@),
{
    lemma_pages_entries(doc.pages@, seq![]);
}


/// The blocks of a run of pages, each paired with its page's index, page
/// after page.
pub open spec fn page_blocks(pages: Seq<Page>) -> Seq<(u32, Block)>
    decreases pages.len(),
{
    if pages.len() == 0 {
        seq![]
    } else {
        page_blocks(pages.drop_last()) + pages.last().blocks@.map_values(
            |b: Block| (pages.last().index, b),
        )
    }
}

/// The heading path in force after a run of blocks, from `path`: each
/// heading enters its level, every other block keeps the path.
pub open spec fn path_through(pbs: Seq<(u32, Block)>, path: Seq<Seq<char>>) -> Seq<Seq<char>>
    decreases pbs.len(),
{
    if pbs.len() == 0 {
        path
    } else {
        path_after(pbs.last().1, path_through(pbs.drop_last(), path))
    }
}

/// The chunk a kept block yields when `path` is in force before it: its
/// text, page and bbox, and the heading path after it.
pub open spec fn block_chunk(page: u32, b: Block, path: Seq<Seq<char>>) -> Seq<SpecChunk> {
    if block_kept(b) {
        seq![
            SpecChunk {
                text: block_text(b),
                page,
                bbox: block_bbox(b),
                heading_path: path_after(b, path),
            },
        ]
    } else {
        seq![]
    }
}

/// The chunks of a run of blocks, from heading path `path`: block after
/// block, each kept block's chunk carrying the path in force after it.
pub open spec fn chunks_through(pbs: Seq<(u32, Block)>, path: Seq<Seq<char>>) -> Seq<SpecChunk>
    decreases pbs.len(),
{
    if pbs.len() == 0 {
        seq![]
    } else {
        chunks_through(pbs.drop_last(), path) + block_chunk(
            pbs.last().0,
            pbs.last().1,
            path_through(pbs.drop_last(), path),
        )
    }
}

proof fn lemma_step_is_block_chunk(page: u32, b: Block, path: Seq<Seq<char>>)
    ensures
        chunk_step(page, b, path) == (block_chunk(page, b, path), path_after(b, path)),
{
    match b {
        Block::Paragraph(p) => {},
        Block::Table(t) => {},
        Block::Image(img) => {},
    }
}

proof fn lemma_through_append(a: Seq<(u32, Block)>, b: Seq<(u32, Block)>, path: Seq<Seq<char>>)
    ensures
        path_through(a + b, path) == path_through(b, path_through(a, path)),
        chunks_through(a + b, path) == chunks_through(a, path) + chunks_through(
            b,
            path_through(a, path),
        ),
    decreases b.len(),
{
    if b.len() == 0 {
        assert(a + b =~= a);
    } else {
        let bi = b.drop_last();
        assert((a + b).drop_last() =~= a + bi);
        assert((a + b).last() == b.last());
        lemma_through_append(a, bi, path);
        let p = path_through(a, path);
        assert(chunks_through(a + b, path) =~= chunks_through(a, path) + chunks_through(b, p));
    }
}

proof fn lemma_blocks_through(page: u32, blocks: Seq<Block>, path: Seq<Seq<char>>)
    ensures
        chunk_blocks(page, blocks, path) == (
            chunks_through(blocks.map_values(|b: Block| (page, b)), path),
            path_through(blocks.map_values(|b: Block| (page, b)), path),
        ),
    decreases blocks.len(),
{
    if blocks.len() > 0 {
        let pbs = blocks.map_values(|b: Block| (page, b));
        let init = blocks.drop_last();
        assert(pbs.drop_last() =~= init.map_values(|b: Block| (page, b)));
        assert(pbs.last() == (page, blocks.last()));
        lemma_blocks_through(page, init, path);
        let (out, p) = chunk_blocks(page, init, path);
        lemma_step_is_block_chunk(page, blocks.last(), p);
    }
}

proof fn lemma_pages_through(pages: Seq<Page>, path: Seq<Seq<char>>)
    ensures
        chunk_pages(pages, path) == (
            chunks_through(page_blocks(pages), path),
            path_through(page_blocks(pages), path),
        ),
    decreases pages.len(),
{
    if pages.len() > 0 {
        let init = pages.drop_last();
        let last = pages.last();
        lemma_pages_through(init, path);
        let (out, p) = chunk_pages(init, path);
        lemma_blocks_through(last.index, last.blocks@, p);
        let a = page_blocks(init);
        let b = last.blocks@.map_values(|x: Block| (last.index, x));
        lemma_through_append(a, b, path);
    }
}

/// The chunks of a document, heading paths included, in one statement: the
/// blocks of all pages are read in order from an empty heading path; a
/// heading of level `n` sets the path to the outer `n - 1` entries in force
/// (padded with empty entries) followed by its own text, every other block
/// leaves the path as it is; and each kept block yields one chunk with its
/// text, page, bbox and the path in force after it.
pub proof fn lemma_document_heading_paths(doc: Document)
    ensures
        document_chunks(doc) == chunks_through(page_blocks(doc.pages@), seq![]),
{
    lemma_pages_through(doc.pages@, seq![]);
}

} // verus!
