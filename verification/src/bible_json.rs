//! The plain data shape handed over by the corpus loader. The loader itself
//! (reading a file, decoding its format) lives with the surrounding program;
//! this crate only consumes these values.

use vstd::prelude::*;

verus! {

#[derive(Debug)]
pub struct JSONTranslation {
    pub name: String,
    pub language: String,
    pub abbreviation: String,
}

#[derive(Debug)]
pub struct JSONBook {
    /// book id where Genesis = 1
    pub id: usize,
    /// the name of the book as it is displayed
    pub book: String,
    /// all abbreviations (any case), not necessarily including the book name
    pub abbreviations: Vec<String>,
    /// chapter -> verse -> verse text (all 0-based here, 1-based in queries)
    pub content: Vec<Vec<String>>,
}

#[derive(Debug)]
pub struct JSONBible {
    pub translation: JSONTranslation,
    pub bible: Vec<JSONBook>,
}

} // verus!
