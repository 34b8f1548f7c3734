//! Templates for rendering passages. Only the literal template set is
//! defined so far; the template renderer itself is not wired up yet.

use vstd::prelude::*;

use crate::book_reference_segment::BookReferenceSegment;

verus! {

/// The template strings one passage rendering style is built from.
#[derive(Debug)]
pub struct PassageFormatter {
    /// can use book, chapter, verse, content
    pub verse: String,
    /// the text that joins all verses together
    pub join_verses: String,
    /// can use verses
    pub segment: String,
    /// the text that joins all segments together
    pub join_segment: String,
    /// can use book, label/reference, segments
    pub text: String,
    /// insert, replace, all, ...
    pub code_actions: Vec<String>,
}

/// The style that quotes a passage as continuous prose with an attribution
/// line.
pub fn literal_word() -> (r: PassageFormatter)
    ensures
        r.verse@ == "{content}"@,
        r.join_verses@ == " "@,
        r.segment@ == "{verses}"@,
        r.join_segment@ == " "@,
        r.text@ == "> {segments}\n\u{2014} {reference}"@,
        r.code_actions@.len() == 0,
{
    PassageFormatter {
        verse: "{content}".to_owned(),
        join_verses: " ".to_owned(),
        segment: "{verses}".to_owned(),
        join_segment: " ".to_owned(),
        text: "> {segments}\n\u{2014} {reference}".to_owned(),
        code_actions: Vec::new(),
    }
}

/// Per-level templates: each level may use its parents' data.
#[derive(Debug)]
pub struct BibleFormatter {
    pub book_format: String,
    pub chapter_format: String,
    pub verse_format: String,
}

impl BibleFormatter {
    /// Not implemented yet: renders nothing.
    pub fn format_segments(&self, segments: Vec<BookReferenceSegment>) -> (r: String)
        ensures
            r@ == Seq::<char>::empty(),
    {
        String::new()
    }
}

} // verus!
