# pdfmuse_core

Deterministic text extraction core for RAG pipelines, written in Verus. The
library's own functions in `src/` carry `requires` / `ensures` contracts that
Verus proves. The few calls into `std` and outside crates go through trusted
items whose contracts are believed, not proved: `String::push`,
`char::from_u32`, `String::from_utf8_lossy`, Unicode NFKC
(`unicode-normalization`), base64 (`base64`), and the Adobe Glyph List and
the Standard / MacRoman / ZapfDingbats tables of `pdf_encoding`.

## Layout

- `src/ir.rs` — the intermediate representation (pages, chars, blocks,
  tables, warnings). Single-precision coordinates are carried as their bit
  patterns and never computed with.
- `src/cmap.rs` — `ToUnicode` CMap parsing (`bfchar`, `bfrange`, UTF-16BE
  destinations, control-character repair), specified against a token-level
  model of the stream.
- `src/fonts.rs`, `src/encodings.rs` — glyph-name resolution (Adobe Glyph
  List, `uniXXXX`, `uXXXXXX`), `/Differences`, base-encoding choice, `/W`
  widths, Private-Use-Area map detection and repair, and the font model used
  to decode character codes.
- `src/metrics.rs` — advance widths of simple fonts: `/Widths` indexed by
  `/FirstChar`, else Courier's fixed pitch, else Core-14 metrics looked up by
  glyph name, else `/MissingWidth` or 500. The Core-14 tables cover the
  Helvetica and Times families for the printable ASCII glyphs, the
  typographic quotes, bullet, en and em dash and ellipsis; other glyphs, and
  Symbol and ZapfDingbats, take the fallback.
- `src/content.rs` — what a shown string draws (codes, text, widths, word
  spacing), CJK compatibility normalization, the missing-CMap warning, image
  payloads as `data:` URIs.
- `src/extract.rs` — page indices, the needs-OCR warning, document assembly in
  page order.
- `src/markdown.rs`, `src/chunk.rs` — Markdown, plain-text and RAG-chunk
  rendering of the IR.
- `src/text.rs` — small string helpers shared by the modules.
- `app/` — ordinary Rust around the library: the lopdf-based PDF pipeline with
  its floating-point graphics state, and serde copies of the IR for JSON.

Public `lemma_*` proof functions state the laws the library keeps, e.g. that
repairing CMap destinations is idempotent, that an escaped table cell cannot
break a Markdown row, and that chunking never splits a table.
