//! Markdown and plain-text rendering of the IR.
//!
//! Walks pages and their reading-order [`Block`]s, emitting paragraphs (with
//! `#` heading levels) and GitHub-flavored tables. Deterministic output.

use vstd::prelude::*;
use crate::ir::{Block, Cell, Document, ImageRef, Page, Paragraph, Table};
use crate::text::{chars_of, clone_strings, join, join_strings, lemma_texts_push, texts};

verus! {

// ---------------------------------------------------------------------------
// Specifications
// ---------------------------------------------------------------------------

/// Every block of every page, pages in order and blocks in reading order.
pub open spec fn doc_blocks(pages: Seq<Page>) -> Seq<Block>
    decreases pages.len(),
{
    if pages.len() == 0 {
        seq![]
    } else {
        doc_blocks(pages.drop_last()) + pages.last().blocks@
    }
}

/// `text` with `|` escaped as `\|` and newlines turned into spaces.
pub open spec fn escape_cell_text(s: Seq<char>) -> Seq<char>
    decreases s.len(),
{
    if s.len() == 0 {
        seq![]
    } else {
        escape_cell_text(s.drop_last()) + if s.last() == '|' {
            seq!['\\', '|']
        } else if s.last() == '\n' {
            seq![' ']
        } else {
            seq![s.last()]
        }
    }
}

/// A heading paragraph becomes `#`-prefixed; a normal one is its text.
pub open spec fn paragraph_markdown(p: Paragraph) -> Seq<char> {
    match p.heading_level {
        Some(n) => if n > 0 {
            Seq::new(n as nat, |i: int| '#') + seq![' '] + p.text@
        } else {
            p.text@
        },
        None => p.text@,
    }
}

pub open spec fn image_markdown(img: ImageRef) -> Seq<char> {
    match img.data {
        Some(uri) => "![image]("@ + uri@ + ")"@,
        None => "![image](obj:"@ + img.id@ + ")"@,
    }
}

/// An image as text: its data URI, or `[image:<id>]` without one.
pub open spec fn image_plain_text(img: ImageRef) -> Seq<char> {
    match img.data {
        Some(d) => d@,
        None => "[image:"@ + img.id@ + "]"@,
    }
}

pub open spec fn cell_texts(row: Seq<Cell>) -> Seq<Seq<char>> {
    row.map_values(|c: Cell| c.text@)
}

/// A table as plain text: cells space-joined per row, rows newline-joined.
pub open spec fn table_plain_text(t: Table) -> Seq<char> {
    join(t.rows@.map_values(|r: Vec<Cell>| join(cell_texts(r@), " "@)), "\n"@)
}

/// How many logical columns a cell covers.
pub open spec fn span_of(c: Cell) -> nat {
    if c.col_span == 0 {
        1
    } else {
        c.col_span as nat
    }
}

/// A row with each cell escaped and repeated across its column span.
pub open spec fn expanded_row(row: Seq<Cell>) -> Seq<Seq<char>>
    decreases row.len(),
{
    if row.len() == 0 {
        seq![]
    } else {
        expanded_row(row.drop_last()) + Seq::new(
            span_of(row.last()),
            |i: int| escape_cell_text(row.last().text@),
        )
    }
}

pub open spec fn expanded_rows(t: Table) -> Seq<Seq<Seq<char>>> {
    t.rows@.map_values(|r: Vec<Cell>| expanded_row(r@))
}

/// The widest row.
pub open spec fn max_width(rows: Seq<Seq<Seq<char>>>) -> nat
    decreases rows.len(),
{
    if rows.len() == 0 {
        0
    } else {
        let w = max_width(rows.drop_last());
        if rows.last().len() > w {
            rows.last().len()
        } else {
            w
        }
    }
}

pub proof fn lemma_max_width_bound(rows: Seq<Seq<Seq<char>>>)
    ensures
        forall|j: int| 0 <= j < rows.len() ==> (#[trigger] rows[j]).len() <= max_width(rows),
    decreases rows.len(),
{
    if rows.len() > 0 {
        let p = rows.drop_last();
        lemma_max_width_bound(p);
        assert forall|j: int| 0 <= j < rows.len() implies (#[trigger] rows[j]).len() <= max_width(
            rows,
        ) by {
            if j < p.len() {
                assert(rows[j] == p[j]);
            }
        }
    }
}

/// A row padded with empty cells up to `w` cells.
pub open spec fn padded(row: Seq<Seq<char>>, w: nat) -> Seq<Seq<char>> {
    if row.len() >= w {
        row
    } else {
        row + Seq::new((w - row.len()) as nat, |i: int| Seq::<char>::empty())
    }
}

pub open spec fn row_line(cells: Seq<Seq<char>>) -> Seq<char> {
    "| "@ + join(cells, " | "@) + " |"@
}

/// The header separator row of a `w`-column table.
pub open spec fn separator_line(w: nat) -> Seq<char> {
    row_line(Seq::new(w, |i: int| "---"@))
}

/// The lines of a Markdown table: the first row, the separator, the rest.
pub open spec fn table_lines(rows: Seq<Seq<Seq<char>>>, w: nat) -> Seq<Seq<char>> {
    seq![row_line(padded(rows[0], w)), separator_line(w)] + rows.skip(1).map_values(
        |r: Seq<Seq<char>>| row_line(padded(r, w)),
    )
}

/// A table as a GitHub Markdown table, first row as the header; a table
/// without any column renders as nothing.
pub open spec fn table_markdown(t: Table) -> Seq<char> {
    let rows = expanded_rows(t);
    let w = max_width(rows);
    if w == 0 {
        seq![]
    } else {
        join(table_lines(rows, w), "\n"@)
    }
}

pub open spec fn block_markdown(b: Block) -> Seq<char> {
    match b {
        Block::Paragraph(p) => paragraph_markdown(p),
        Block::Table(t) => table_markdown(t),
        Block::Image(img) => image_markdown(img),
    }
}

pub open spec fn block_plain_text(b: Block) -> Seq<char> {
    match b {
        Block::Paragraph(p) => p.text@,
        Block::Table(t) => table_plain_text(t),
        Block::Image(img) => image_plain_text(img),
    }
}

/// The Markdown of a document: one blank line between every two blocks.
pub open spec fn document_markdown(doc: Document) -> Seq<char> {
    join(doc_blocks(doc.pages@).map_values(|b: Block| block_markdown(b)), "\n\n"@)
}

/// The plain text of a document: block texts joined by newlines.
pub open spec fn document_text(doc: Document) -> Seq<char> {
    join(doc_blocks(doc.pages@).map_values(|b: Block| block_plain_text(b)), "\n"@)
}

// ---------------------------------------------------------------------------
// Rendering
// ---------------------------------------------------------------------------

/// Escape characters that would break a Markdown table cell.
pub fn escape_cell(text: &str) -> (r: String)
    ensures
        r@ == escape_cell_text(text@),
{
    let cs = chars_of(text);
    let n = cs.len();
    let mut out = String::new();
    let mut i: usize = 0;
    while i < n
        invariant
            n == text@.len(),
            cs@ == text@,
            i <= n,
            out@ == escape_cell_text(text@.take(i as int)),
        decreases n - i,
    {
        let c = cs[i];
        assert(text@.take(i + 1).drop_last() =~= text@.take(i as int));
        if c == '|' {
            out.push('\\');
            out.push('|');
        } else if c == '\n' {
            out.push(' ');
        } else {
            out.push(c);
        }
        i += 1;
        assert(out@ =~= escape_cell_text(text@.take(i as int)));
    }
    assert(text@.take(n as int) =~= text@);
    out
}

/// A heading paragraph becomes `#`-prefixed; a normal one is its text verbatim.
fn paragraph_md(p: &Paragraph) -> (r: String)
    ensures
        r@ == paragraph_markdown(*p),
{
    match p.heading_level {
        Some(n) if n > 0 => {
            let mut out = String::new();
            let mut i: u8 = 0;
            while i < n
                invariant
                    i <= n,
                    out@ == Seq::new(i as nat, |k: int| '#'),
                decreases n - i,
            {
                out.push('#');
                i += 1;
                assert(out@ =~= Seq::new(i as nat, |k: int| '#'));
            }
            out.push(' ');
            out.append(p.text.as_str());
            out
        },
        _ => p.text.clone(),
    }
}

fn image_md(img: &ImageRef) -> (r: String)
    ensures
        r@ == image_markdown(*img),
{
    let mut out = String::new();
    match &img.data {
        Some(uri) => {
            out.append("![image](");
            out.append(uri.as_str());
        },
        None => {
            out.append("![image](obj:");
            out.append(img.id.as_str());
        },
    }
    out.append(")");
    out
}

pub(crate) fn image_text(img: &ImageRef) -> (r: String)
    ensures
        r@ == image_plain_text(*img),
{
    match &img.data {
        Some(d) => d.clone(),
        None => {
            let mut out = String::new();
            out.append("[image:");
            out.append(img.id.as_str());
            out.append("]");
            out
        },
    }
}

/// The texts of a row's cells.
pub(crate) fn row_cell_texts(row: &Vec<Cell>) -> (r: Vec<String>)
    ensures
        texts(r@) == cell_texts(row@),
{
    let mut out: Vec<String> = Vec::new();
    let mut i: usize = 0;
    while i < row.len()
        invariant
            i <= row@.len(),
            texts(out@) == cell_texts(row@.take(i as int)),
        decreases row@.len() - i,
    {
        let ghost before = out@;
        out.push(row[i].text.clone());
        proof {
            lemma_texts_push(before, row@[i as int].text);
            assert(cell_texts(row@.take(i + 1)) =~= cell_texts(row@.take(i as int)).push(
                row@[i as int].text@,
            ));
        }
        i += 1;
    }
    assert(row@.take(row@.len() as int) =~= row@);
    out
}

/// A table as plain text: cells space-joined per row, rows newline-joined.
fn table_text(table: &Table) -> (r: String)
    ensures
        r@ == table_plain_text(*table),
{
    let ghost goal = table.rows@.map_values(|r: Vec<Cell>| join(cell_texts(r@), " "@));
    let mut lines: Vec<String> = Vec::new();
    let mut i: usize = 0;
    while i < table.rows.len()
        invariant
            i <= table.rows@.len(),
            goal == table.rows@.map_values(|r: Vec<Cell>| join(cell_texts(r@), " "@)),
            texts(lines@) == goal.take(i as int),
        decreases table.rows@.len() - i,
    {
        let cells = row_cell_texts(&table.rows[i]);
        let line = join_strings(&cells, " ");
        let ghost before = lines@;
        lines.push(line);
        proof {
            lemma_texts_push(before, line);
            assert(goal.take(i + 1) =~= goal.take(i as int).push(goal[i as int]));
        }
        i += 1;
    }
    assert(goal.take(table.rows@.len() as int) =~= goal);
    join_strings(&lines, "\n")
}

/// One table row with every cell escaped and repeated across its column span.
fn expand_row(row: &Vec<Cell>) -> (r: Vec<String>)
    ensures
        texts(r@) == expanded_row(row@),
{
    let mut cols: Vec<String> = Vec::new();
    let mut i: usize = 0;
    while i < row.len()
        invariant
            i <= row@.len(),
            texts(cols@) == expanded_row(row@.take(i as int)),
        decreases row@.len() - i,
    {
        let cell = &row[i];
        let span: u16 = if cell.col_span < 1 {
            1
        } else {
            cell.col_span
        };
        let text = escape_cell(cell.text.as_str());
        let ghost base = texts(cols@);
        let mut k: u16 = 0;
        while k < span
            invariant
                k <= span,
                span == span_of(*cell),
                texts(cols@) == base + Seq::new(k as nat, |j: int| text@),
            decreases span - k,
        {
            let ghost before = cols@;
            cols.push(text.clone());
            proof {
                lemma_texts_push(before, text);
            }
            k += 1;
            assert(texts(cols@) =~= base + Seq::new(k as nat, |j: int| text@));
        }
        assert(row@.take(i + 1).drop_last() =~= row@.take(i as int));
        i += 1;
        assert(texts(cols@) =~= expanded_row(row@.take(i as int)));
    }
    assert(row@.take(row@.len() as int) =~= row@);
    cols
}

/// `"| " + cells.join(" | ") + " |"`.
fn render_row(cells: &Vec<String>) -> (r: String)
    ensures
        r@ == row_line(texts(cells@)),
{
    let mut out = String::new();
    out.append("| ");
    let inner = join_strings(cells, " | ");
    out.append(inner.as_str());
    out.append(" |");
    out
}

/// Render a [`Table`] as a GitHub Markdown table (first row = header).
fn table_md(table: &Table) -> (r: String)
    ensures
        r@ == table_markdown(*table),
{
    // Expand col-spans so every logical column gets a cell, then pad short
    // rows to the widest row so the grid stays rectangular.
    let ghost rows = expanded_rows(*table);
    let mut expanded: Vec<Vec<String>> = Vec::new();
    let mut width: usize = 0;
    let mut i: usize = 0;
    while i < table.rows.len()
        invariant
            i <= table.rows@.len(),
            rows == expanded_rows(*table),
            expanded@.len() == i,
            forall|j: int| 0 <= j < i ==> #[trigger] texts(expanded@[j]@) == rows[j],
            width == max_width(rows.take(i as int)),
        decreases table.rows@.len() - i,
    {
        let cols = expand_row(&table.rows[i]);
        assert(rows.take(i + 1).drop_last() =~= rows.take(i as int));
        if cols.len() > width {
            width = cols.len();
        }
        expanded.push(cols);
        i += 1;
    }
    assert(rows.take(table.rows@.len() as int) =~= rows);
    if width == 0 {
        return String::new();
    }
    let ghost w = width as nat;
    proof {
        lemma_max_width_bound(rows);
    }
    let ghost goal = table_lines(rows, w);
    let mut lines: Vec<String> = Vec::new();
    let n = expanded.len();
    let mut i: usize = 0;
    while i < n
        invariant
            n == expanded@.len() == rows.len(),
            i <= n,
            w == width,
            w > 0,
            goal == table_lines(rows, w),
            forall|j: int| 0 <= j < n ==> #[trigger] texts(expanded@[j]@) == rows[j],
            forall|j: int| 0 <= j < n ==> (#[trigger] rows[j]).len() <= w,
            texts(lines@) == if i == 0 {
                Seq::<Seq<char>>::empty()
            } else {
                goal.take(i + 1)
            },
        decreases n - i,
    {
        let mut cells: Vec<String> = clone_strings(&expanded[i]);
        assert(texts(cells@) == rows[i as int]);
        while cells.len() < width
            invariant
                cells@.len() <= width,
                width == w,
                rows[i as int].len() <= w,
                texts(cells@) == padded(rows[i as int], cells@.len() as nat) || cells@.len()
                    == rows[i as int].len() && texts(cells@) == rows[i as int],
            decreases width - cells@.len(),
        {
            let ghost before = cells@;
            let empty = String::new();
            cells.push(empty);
            proof {
                lemma_texts_push(before, empty);
            }
            assert(texts(cells@) =~= padded(rows[i as int], cells@.len() as nat));
        }
        assert(texts(cells@) =~= padded(rows[i as int], w));
        let ghost lines0 = lines@;
        let row_text = render_row(&cells);
        lines.push(row_text);
        proof {
            lemma_texts_push(lines0, row_text);
        }
        if i == 0 {
            let mut dashes: Vec<String> = Vec::new();
            while dashes.len() < width
                invariant
                    dashes@.len() <= width,
                    texts(dashes@) == Seq::new(dashes@.len() as nat, |k: int| "---"@),
                decreases width - dashes@.len(),
            {
                let ghost before = dashes@;
                let dash = String::from_str("---");
                dashes.push(dash);
                proof {
                    lemma_texts_push(before, dash);
                }
                assert(texts(dashes@) =~= Seq::new(dashes@.len() as nat, |k: int| "---"@));
            }
            let sep = render_row(&dashes);
            let ghost lines1 = lines@;
            lines.push(sep);
            proof {
                lemma_texts_push(lines1, sep);
            }
        }
        i += 1;
        proof {
            assert(texts(lines@) =~= goal.take(i + 1));
        }
    }
    assert(goal.len() == n + 1);
    assert(goal.take(n + 1) =~= goal);
    join_strings(&lines, "\n")
}

/// Render `doc` to GitHub-flavored Markdown, pages and blocks in order, with
/// one blank line between every two blocks (and thus between pages too).
pub fn to_markdown(doc: &Document) -> (r: String)
    ensures
        r@ == document_markdown(*doc),
{
    let ghost all = doc_blocks(doc.pages@);
    let mut blocks: Vec<String> = Vec::new();
    let mut p: usize = 0;
    while p < doc.pages.len()
        invariant
            p <= doc.pages@.len(),
            texts(blocks@) == doc_blocks(doc.pages@.take(p as int)).map_values(
                |b: Block| block_markdown(b),
            ),
        decreases doc.pages@.len() - p,
    {
        let page = &doc.pages[p];
        let ghost done = doc_blocks(doc.pages@.take(p as int)).map_values(
            |b: Block| block_markdown(b),
        );
        let mut k: usize = 0;
        while k < page.blocks.len()
            invariant
                k <= page.blocks@.len(),
                texts(blocks@) == done + page.blocks@.take(k as int).map_values(
                    |b: Block| block_markdown(b),
                ),
            decreases page.blocks@.len() - k,
        {
            let s = match &page.blocks[k] {
                Block::Paragraph(para) => paragraph_md(para),
                Block::Table(t) => table_md(t),
                Block::Image(img) => image_md(img),
            };
            let ghost before = blocks@;
            blocks.push(s);
            proof {
                lemma_texts_push(before, s);
                assert(page.blocks@.take(k + 1).map_values(|b: Block| block_markdown(b)) =~= page.blocks@.take(
                    k as int,
                ).map_values(|b: Block| block_markdown(b)).push(block_markdown(page.blocks@[k as int])));
            }
            k += 1;
            assert(texts(blocks@) =~= done + page.blocks@.take(k as int).map_values(
                |b: Block| block_markdown(b),
            ));
        }
        assert(doc.pages@.take(p + 1).drop_last() =~= doc.pages@.take(p as int));
        assert(page.blocks@.take(k as int) =~= page.blocks@);
        p += 1;
        assert(texts(blocks@) =~= doc_blocks(doc.pages@.take(p as int)).map_values(
            |b: Block| block_markdown(b),
        ));
    }
    assert(doc.pages@.take(p as int) =~= doc.pages@);
    join_strings(&blocks, "\n\n")
}

/// Render `doc` to plain reading-order text — no Markdown syntax, just the
/// block texts joined by newlines.
pub fn to_text(doc: &Document) -> (r: String)
    ensures
        r@ == document_text(*doc),
{
    let mut blocks: Vec<String> = Vec::new();
    let mut p: usize = 0;
    while p < doc.pages.len()
        invariant
            p <= doc.pages@.len(),
            texts(blocks@) == doc_blocks(doc.pages@.take(p as int)).map_values(
                |b: Block| block_plain_text(b),
            ),
        decreases doc.pages@.len() - p,
    {
        let page = &doc.pages[p];
        let ghost done = doc_blocks(doc.pages@.take(p as int)).map_values(
            |b: Block| block_plain_text(b),
        );
        let mut k: usize = 0;
        while k < page.blocks.len()
            invariant
                k <= page.blocks@.len(),
                texts(blocks@) == done + page.blocks@.take(k as int).map_values(
                    |b: Block| block_plain_text(b),
                ),
            decreases page.blocks@.len() - k,
        {
            let s = match &page.blocks[k] {
                Block::Paragraph(para) => para.text.clone(),
                Block::Table(t) => table_text(t),
                Block::Image(img) => image_text(img),
            };
            let ghost before = blocks@;
            blocks.push(s);
            proof {
                lemma_texts_push(before, s);
                assert(page.blocks@.take(k + 1).map_values(|b: Block| block_plain_text(b)) =~= page.blocks@.take(
                    k as int,
                ).map_values(|b: Block| block_plain_text(b)).push(block_plain_text(page.blocks@[k as int])));
            }
            k += 1;
            assert(texts(blocks@) =~= done + page.blocks@.take(k as int).map_values(
                |b: Block| block_plain_text(b),
            ));
        }
        assert(doc.pages@.take(p + 1).drop_last() =~= doc.pages@.take(p as int));
        assert(page.blocks@.take(k as int) =~= page.blocks@);
        p += 1;
        assert(texts(blocks@) =~= doc_blocks(doc.pages@.take(p as int)).map_values(
            |b: Block| block_plain_text(b),
        ));
    }
    assert(doc.pages@.take(p as int) =~= doc.pages@);
    join_strings(&blocks, "\n")
}


// ---------------------------------------------------------------------------
// Laws
// ---------------------------------------------------------------------------

/// An escaped cell cannot break a Markdown table row: it holds no newline,
/// and every `|` in it is escaped by the backslash just before it.
pub proof fn lemma_escaped_cell_is_safe(s: Seq<char>)
    ensures
        forall|i: int| 0 <= i < escape_cell_text(s).len() ==> #[trigger] escape_cell_text(s)[i] != '\n',
        forall|i: int|
            0 <= i < escape_cell_text(s).len() && #[trigger] escape_cell_text(s)[i] == '|' ==> i > 0
                && escape_cell_text(s)[i - 1] == '\\',
    decreases s.len(),
{
    if s.len() > 0 {
        let init = s.drop_last();
        lemma_escaped_cell_is_safe(init);
        let a = escape_cell_text(init);
        let b = if s.last() == '|' {
            seq!['\\', '|']
        } else if s.last() == '\n' {
            seq![' ']
        } else {
            seq![s.last()]
        };
        assert(escape_cell_text(s) == a + b);
        assert forall|i: int| 0 <= i < (a + b).len() implies #[trigger] (a + b)[i] != '\n' by {
            if i >= a.len() {
                assert((a + b)[i] == b[i - a.len()]);
            } else {
                assert((a + b)[i] == a[i]);
            }
        }
        assert forall|i: int| 0 <= i < (a + b).len() && #[trigger] (a + b)[i] == '|' implies i > 0
            && (a + b)[i - 1] == '\\' by {
            if i >= a.len() {
                assert((a + b)[i] == b[i - a.len()]);
                if i == a.len() + 1 {
                    assert((a + b)[i - 1] == b[0]);
                }
            } else {
                assert((a + b)[i] == a[i]);
                assert((a + b)[i - 1] == a[i - 1]);
            }
        }
    }
}

/// A rendered Markdown table is a rectangular grid: one line per row plus
/// the header separator, and every row padded to exactly the widest row's
/// number of cells.
pub proof fn lemma_table_is_rectangular(t: Table)
    requires
        max_width(expanded_rows(t)) > 0,
    ensures
        table_lines(expanded_rows(t), max_width(expanded_rows(t))).len() == t.rows@.len() + 1,
        forall|i: int|
            0 <= i < t.rows@.len() ==> #[trigger] padded(expanded_rows(t)[i], max_width(expanded_rows(t))).len()
                == max_width(expanded_rows(t)),
{
    let rows = expanded_rows(t);
    let w = max_width(rows);
    lemma_max_width_bound(rows);
    if rows.len() == 0 {
        assert(max_width(rows) == 0);
    }
    assert forall|i: int| 0 <= i < t.rows@.len() implies #[trigger] padded(rows[i], w).len() == w by {
        assert(rows[i].len() <= w);
    }
}

/// Whether `line[i]` is a cell border: a `|` that no backslash escapes.
pub open spec fn is_cell_border(line: Seq<char>, i: int) -> bool {
    line[i] == '|' && !(i > 0 && line[i - 1] == '\\')
}

/// The number of cell borders in a line.
pub open spec fn cell_borders(line: Seq<char>) -> nat
    decreases line.len(),
{
    if line.len() == 0 {
        0
    } else {
        cell_borders(line.drop_last()) + if is_cell_border(line, line.len() - 1) {
            1nat
        } else {
            0nat
        }
    }
}

/// Borders add up over a concatenation, unless a backslash at the end of the
/// first part escapes a `|` at the start of the second.
proof fn lemma_borders_concat(a: Seq<char>, b: Seq<char>)
    requires
        !(a.len() > 0 && b.len() > 0 && a.last() == '\\' && b[0] == '|'),
    ensures
        cell_borders(a + b) == cell_borders(a) + cell_borders(b),
    decreases b.len(),
{
    if b.len() == 0 {
        assert(a + b =~= a);
    } else {
        let c = a + b;
        lemma_borders_concat(a, b.drop_last());
        assert(c.drop_last() =~= a + b.drop_last());
        let n = c.len() - 1;
        assert(c[n] == b[b.len() - 1]);
        if b.len() >= 2 {
            assert(c[n - 1] == b[b.len() - 2]);
        } else if a.len() > 0 {
            assert(c[n - 1] == a.last());
        }
        assert(is_cell_border(c, n) == is_cell_border(b, b.len() - 1));
    }
}

/// A line in which every `|` follows a backslash has no cell border.
proof fn lemma_no_borders(x: Seq<char>)
    requires
        forall|i: int| 0 <= i < x.len() && #[trigger] x[i] == '|' ==> i > 0 && x[i - 1] == '\\',
    ensures
        cell_borders(x) == 0,
    decreases x.len(),
{
    if x.len() > 0 {
        let p = x.drop_last();
        assert forall|i: int| 0 <= i < p.len() && #[trigger] p[i] == '|' implies i > 0 && p[i - 1]
            == '\\' by {
            assert(x[i] == p[i]);
            if i > 0 {
                assert(x[i - 1] == p[i - 1]);
            }
        }
        lemma_no_borders(p);
    }
}

proof fn lemma_one_border(x: Seq<char>)
    requires
        x.len() == 1,
        x[0] == '|',
    ensures
        cell_borders(x) == 1,
{
    assert(x.drop_last().len() == 0);
    assert(cell_borders(x.drop_last()) == 0);
    assert(is_cell_border(x, 0));
}

/// Every cell of an expanded row is an escaped text, with no border.
proof fn lemma_expanded_row_cells(row: Seq<Cell>)
    ensures
        forall|j: int|
            0 <= j < expanded_row(row).len() ==> cell_borders(#[trigger] expanded_row(row)[j]) == 0,
    decreases row.len(),
{
    if row.len() > 0 {
        let p = row.drop_last();
        lemma_expanded_row_cells(p);
        let e = escape_cell_text(row.last().text@);
        lemma_escaped_cell_is_safe(row.last().text@);
        lemma_no_borders(e);
        let tail = Seq::new(span_of(row.last()), |i: int| escape_cell_text(row.last().text@));
        assert forall|j: int|
            0 <= j < expanded_row(row).len() implies cell_borders(
            #[trigger] expanded_row(row)[j],
        ) == 0 by {
            if j < expanded_row(p).len() {
                assert(expanded_row(row)[j] == expanded_row(p)[j]);
            } else {
                assert(expanded_row(row)[j] == tail[j - expanded_row(p).len()]);
            }
        }
    }
}

/// Cells without borders, joined by ` | `, have one border between every two.
proof fn lemma_join_borders(parts: Seq<Seq<char>>)
    requires
        parts.len() >= 1,
        forall|j: int| 0 <= j < parts.len() ==> cell_borders(#[trigger] parts[j]) == 0,
    ensures
        cell_borders(join(parts, " | "@)) == parts.len() - 1,
    decreases parts.len(),
{
    reveal_strlit(" | ");
    let sep = " | "@;
    if parts.len() == 1 {
        assert(cell_borders(parts[0]) == 0);
    } else {
        let p = parts.drop_last();
        assert forall|j: int| 0 <= j < p.len() implies cell_borders(#[trigger] p[j]) == 0 by {
            assert(p[j] == parts[j]);
        }
        lemma_join_borders(p);
        assert(cell_borders(parts[parts.len() - 1]) == 0);
        lemma_no_borders(seq![' ']);
        lemma_one_border(seq!['|']);
        lemma_borders_concat(seq![' '], seq!['|']);
        lemma_borders_concat(seq![' '] + seq!['|'], seq![' ']);
        assert(sep =~= seq![' '] + seq!['|'] + seq![' ']);
        lemma_borders_concat(join(p, sep), sep);
        lemma_borders_concat(join(p, sep) + sep, parts.last());
    }
}

/// A line of `n >= 1` border-free cells has `n + 1` borders.
proof fn lemma_row_line_borders(cells: Seq<Seq<char>>)
    requires
        cells.len() >= 1,
        forall|j: int| 0 <= j < cells.len() ==> cell_borders(#[trigger] cells[j]) == 0,
    ensures
        cell_borders(row_line(cells)) == cells.len() + 1,
{
    reveal_strlit("| ");
    reveal_strlit(" |");
    lemma_join_borders(cells);
    let j = join(cells, " | "@);
    lemma_no_borders(seq![' ']);
    lemma_one_border(seq!['|']);
    lemma_borders_concat(seq!['|'], seq![' ']);
    lemma_borders_concat(seq![' '], seq!['|']);
    assert("| "@ =~= seq!['|'] + seq![' ']);
    assert(" |"@ =~= seq![' '] + seq!['|']);
    lemma_borders_concat("| "@, j);
    lemma_borders_concat("| "@ + j, " |"@);
}

/// A row padded to `w` cells keeps its cells border-free.
proof fn lemma_padded_cells(row: Seq<Seq<char>>, w: nat)
    requires
        forall|j: int| 0 <= j < row.len() ==> cell_borders(#[trigger] row[j]) == 0,
    ensures
        forall|j: int| 0 <= j < padded(row, w).len() ==> cell_borders(#[trigger] padded(row, w)[j]) == 0,
{
    assert forall|j: int| 0 <= j < padded(row, w).len() implies cell_borders(
        #[trigger] padded(row, w)[j],
    ) == 0 by {
        if j >= row.len() {
            assert(padded(row, w)[j] == Seq::<char>::empty());
        } else {
            assert(padded(row, w)[j] == row[j]);
        }
    }
}

/// Every line of a rendered Markdown table, the header separator included,
/// has exactly one more cell border than the widest row has cells: every
/// line has the same number of columns.
pub proof fn lemma_table_lines_same_columns(t: Table)
    requires
        max_width(expanded_rows(t)) > 0,
    ensures
        table_markdown(t) == join(
            table_lines(expanded_rows(t), max_width(expanded_rows(t))),
            "\n"@,
        ),
        forall|k: int|
            0 <= k < table_lines(expanded_rows(t), max_width(expanded_rows(t))).len() ==> cell_borders(
                #[trigger] table_lines(expanded_rows(t), max_width(expanded_rows(t)))[k],
            ) == max_width(expanded_rows(t)) + 1,
{
    let rows = expanded_rows(t);
    let w = max_width(rows);
    let lines = table_lines(rows, w);
    lemma_table_is_rectangular(t);
    if rows.len() == 0 {
        assert(max_width(rows) == 0);
    }
    assert forall|r: int| 0 <= r < rows.len() implies cell_borders(
        #[trigger] row_line(padded(rows[r], w)),
    ) == w + 1 by {
        assert(rows[r] == expanded_row(t.rows@[r]@));
        lemma_expanded_row_cells(t.rows@[r]@);
        lemma_padded_cells(rows[r], w);
        assert(padded(rows[r], w).len() == w);
        lemma_row_line_borders(padded(rows[r], w));
    }
    reveal_strlit("---");
    let dashes = Seq::new(w, |i: int| "---"@);
    assert forall|j: int| 0 <= j < dashes.len() implies cell_borders(#[trigger] dashes[j]) == 0 by {
        lemma_no_borders("---"@);
    }
    lemma_row_line_borders(dashes);
    assert forall|k: int| 0 <= k < lines.len() implies cell_borders(#[trigger] lines[k]) == w + 1 by {
        if k == 0 {
            assert(lines[0] == row_line(padded(rows[0], w)));
        } else if k == 1 {
            assert(lines[1] == separator_line(w));
        } else {
            assert(lines[k] == row_line(padded(rows[k - 1], w)));
        }
    }
}

} // verus!
