//! Recognizes Scripture references ("Ephesians 1:1-4,5-7,2:2-3:4,6") in prose
//! text and powers hover previews, diagnostics and autocompletion for them.
//!
//! The crate is organized leaf-first:
//! - [`text`]: character tables, decimal rendering and parsing, string building;
//! - [`bible_json`]: the plain data handed over by the corpus loader;
//! - [`bible_api`]: the immutable corpus and its bounds queries;
//! - [`book_reference_segment`]: the reference-segment grammar, its parser,
//!   the label renderer, and the round-trip law tying the two together;
//! - [`scan`]: the character-level matchers the scanner and the completion
//!   engine share;
//! - [`positions`]: flat offsets converted to line/column positions;
//! - [`book_reference`]: a positioned reference and its renderings;
//! - [`autocompletion`]: completion states, candidates, and their labels;
//! - [`bible_lsp`]: the document scanner and the completion entry points;
//! - [`bible_formatter`]: passage-rendering templates.

pub mod text;

pub mod bible_json;

pub mod bible_api;

pub mod book_reference_segment;

pub mod scan;

pub mod positions;

pub mod book_reference;

pub mod autocompletion;

pub mod bible_lsp;

pub mod bible_formatter;
