//! Deterministic text extraction core: the intermediate representation of a
//! parsed document, `ToUnicode` CMap parsing, fonts and glyph-name
//! resolution, the non-geometric decisions of the content-stream
//! interpreter, document assembly, and the Markdown / plain-text / RAG-chunk
//! renderers.

pub mod text;
pub mod cmap;
pub mod ir;
pub mod markdown;
pub mod chunk;
pub mod encodings;
pub mod fonts;
pub mod metrics;
pub mod content;
pub mod extract;
