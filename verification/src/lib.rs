//! A Markdown-to-PDF renderer's verified core: Markdown is parsed into a
//! small document model, and the renderer's text, numbering, highlighting
//! and TeX decisions are made here with their contracts proved.
//!
//! - [`ir`]: the document model and its plain-text reading.
//! - [`markdown`]: the Markdown event stream, read from `pulldown_cmark`.
//! - [`parser`]: the document builder over that stream.
//! - [`citations`]: citation markers such as `[@doe2024]` in running text.
//! - [`text`]: character-level helpers (whitespace, trimming, case, citations).
//! - [`layout`]: line tokens, fonts, footnote numbers, tables, code accents.
//! - [`pieces`]: the styled pieces inline content is drawn as.
//! - [`highlight`]: code block lines and their syntax colours (`syntect`).
//! - [`tex`]: TeX documents for formulas, XML escaping, SVG header reading.
//! - [`pdf_import`]: copying a formula's PDF objects into the output document.
//! - [`options`]: math modes, page sizes and command-line values.
//! - [`afm`]: the fields of Adobe font metrics files.

pub mod ir;
pub mod markdown;
pub mod parser;
pub mod citations;
pub mod text;
pub mod layout;
pub mod pieces;
pub mod highlight;
pub mod tex;
pub mod pdf_import;
pub mod options;
pub mod afm;
