//! Completion states, candidate generation, and the labels and previews of
//! candidates.

use vstd::prelude::*;

use crate::bible_api::BibleAPI;
use crate::book_reference::{
    content_spec, entry_chapters_from, entry_verses_from, format_segments_content, join_strings,
    join_with, segment_entries,
};
use crate::book_reference_segment::{
    label_spec, parse_segments_spec, parse_wf, try_parse_reference_segments, BookReferenceSegment,
    BookReferenceSegments, ChapterRange, ChapterVerse, EN_DASH,
};
use crate::scan::{chapter_scan, has_segment, has_segment_exec, last_chapter_span, last_verse_span,
    strip_incomplete_end, strip_incomplete_exec, subvec, verse_scan};
use crate::text::{
    chars_of, digits_of, digits_val, extend_str, parse_usize, push_digits, string_from_chars,
    wf_number,
};

verus! {

/// A still-open range at the end of partially typed segments, carrying the
/// chapter it continues.
#[derive(Clone, Copy, Debug, PartialEq, Eq, Structural)]
pub enum PartialReferenceSegment {
    Range(usize),
}

/// Fully typed segments plus the one still being typed, if any.
#[derive(Debug)]
pub struct AutocompletionSegments {
    pub full_segments: BookReferenceSegments,
    pub partial_segment: Option<PartialReferenceSegment>,
}

/// The trailing punctuation that ended the typed text.
#[derive(Clone, Copy, Debug, PartialEq, Eq, Structural)]
pub enum AutocompletionEndingOperator {
    /// when the text ends with a number
    NoOperator,
    /// probably a `:`
    Chapter,
    /// Usually represented by `,` or `;`
    Break,
    /// Usually represented by `-` or the en-dash
    Through,
}

/// Which of the four completion situations the text before the cursor is
/// in. The text the user is actively typing is never inspected: the editor
/// filters candidates against it on its own.
#[derive(Debug, PartialEq)]
pub enum AutocompleteState {
    /// no book name found yet
    BooksOnly,
    /// only known after `{book} `
    ChaptersOnly { book_id: usize },
    /// only known after `:`
    VersesOnly { book_id: usize, chapter: usize },
    /// all other cases
    /// - the chapter and verse are the last ones already typed, NOT what the
    ///   user is typing: given `Ephesians 1:2-`, suggest verses `3..` and
    ///   chapters `2..`
    ChaptersOrVerses {
        book_id: usize,
        chapter: usize,
        verse: usize,
        segments: BookReferenceSegments,
        operator: AutocompletionEndingOperator,
    },
}

#[derive(Clone, Copy, Debug, PartialEq, Eq, Structural)]
pub struct BookNameCompletion {
    pub book_id: usize,
}

#[derive(Clone, Copy, Debug, PartialEq, Eq, Structural)]
pub struct ChapterCompletion {
    pub book_id: usize,
    pub chapter: usize,
}

#[derive(Debug, PartialEq)]
pub struct VerseCompletion {
    pub book_id: usize,
    pub chapter: usize,
    pub verse: usize,
    pub segments: BookReferenceSegments,
    pub operator: AutocompletionEndingOperator,
}

/// One concrete candidate: a book, a chapter, or a verse.
#[derive(Debug, PartialEq)]
pub enum BibleCompletion {
    BookName(BookNameCompletion),
    Chapter(ChapterCompletion),
    Verse(VerseCompletion),
}

/// An element-wise copy of a segment run.
pub fn clone_segments(s: &BookReferenceSegments) -> (r: BookReferenceSegments)
    ensures
        r@ == s@,
{
    let mut v: Vec<BookReferenceSegment> = Vec::new();
    let mut i: usize = 0;
    while i < s.0.len()
        invariant
            i <= s@.len(),
            v@ == s@.take(i as int),
        decreases s@.len() - i,
    {
        v.push(s.0[i]);
        proof {
            assert(v@ =~= s@.take(i as int + 1));
        }
        i = i + 1;
    }
    proof {
        assert(s@.take(s@.len() as int) =~= s@);
    }
    BookReferenceSegments(v)
}

// ---------------------------------------------------------------------------
// Candidate generation
// ---------------------------------------------------------------------------

/// All 66 books in canonical order; the list never varies.
pub fn suggest_all_books() -> (r: Vec<BibleCompletion>)
    ensures
        r@.len() == 66,
        forall|i: int|
            0 <= i < 66 ==> r@[i] == BibleCompletion::BookName(
                BookNameCompletion { book_id: (i + 1) as usize },
            ),
{
    let mut r: Vec<BibleCompletion> = Vec::new();
    let mut book_id: usize = 1;
    while book_id <= 66
        invariant
            1 <= book_id <= 67,
            r@.len() == book_id - 1,
            forall|i: int|
                0 <= i < book_id - 1 ==> r@[i] == BibleCompletion::BookName(
                    BookNameCompletion { book_id: (i + 1) as usize },
                ),
        decreases 67 - book_id,
    {
        r.push(BibleCompletion::BookName(BookNameCompletion { book_id }));
        book_id = book_id + 1;
    }
    r
}

/// `item` is the verse candidate for `verse` of `chapter`, carrying the
/// already-typed segments and the ending operator along.
pub open spec fn is_verse_item(
    item: BibleCompletion,
    book_id: usize,
    chapter: usize,
    verse: int,
    segs: Seq<BookReferenceSegment>,
    operator: AutocompletionEndingOperator,
) -> bool {
    match item {
        BibleCompletion::Verse(vc) => {
            &&& vc.book_id == book_id
            &&& vc.chapter == chapter
            &&& vc.verse == verse
            &&& vc.segments@ == segs
            &&& vc.operator == operator
        },
        _ => false,
    }
}

/// What [`AutocompleteState::give_suggestions`] returns, for every state:
/// - `BooksOnly`: the 66 books, in canonical order;
/// - `ChaptersOnly`: chapters `1..=chapter_count`, empty for an unknown book;
/// - `VersesOnly`: verses `1..=verse_count` with empty carried segments,
///   empty for an out-of-range chapter;
/// - `ChaptersOrVerses`: the remaining verses of the current chapter first,
///   then the remaining chapters, empty for an out-of-range chapter.
pub open spec fn suggestions_match(
    state: AutocompleteState,
    api: BibleAPI,
    r: Seq<BibleCompletion>,
) -> bool {
    match state {
        AutocompleteState::BooksOnly => {
            &&& r.len() == 66
            &&& forall|i: int|
                0 <= i < 66 ==> r[i] == BibleCompletion::BookName(
                    BookNameCompletion { book_id: (i + 1) as usize },
                )
        },
        AutocompleteState::ChaptersOnly { book_id } => {
            if api.valid_book(book_id) {
                &&& r.len() == api.spec_chapter_count(book_id)
                &&& forall|i: int|
                    0 <= i < r.len() ==> r[i] == BibleCompletion::Chapter(
                        ChapterCompletion { book_id, chapter: (i + 1) as usize },
                    )
            } else {
                r.len() == 0
            }
        },
        AutocompleteState::VersesOnly { book_id, chapter } => {
            if api.valid_book_chapter(book_id, chapter) {
                &&& r.len() == api.spec_verse_count(book_id, chapter)
                &&& forall|i: int|
                    0 <= i < r.len() ==> is_verse_item(
                        #[trigger] r[i],
                        book_id,
                        chapter,
                        i + 1,
                        Seq::empty(),
                        AutocompletionEndingOperator::Chapter,
                    )
            } else {
                r.len() == 0
            }
        },
        AutocompleteState::ChaptersOrVerses { book_id, chapter, verse, segments, operator } => {
            if api.valid_book_chapter(book_id, chapter) {
                let vcount = api.spec_verse_count(book_id, chapter);
                let ccount = api.spec_chapter_count(book_id);
                let nv: int = if verse < vcount {
                    vcount - verse
                } else {
                    0
                };
                let nc: int = if chapter < ccount {
                    ccount - chapter
                } else {
                    0
                };
                &&& r.len() == nv + nc
                &&& forall|i: int|
                    0 <= i < nv ==> is_verse_item(
                        #[trigger] r[i],
                        book_id,
                        chapter,
                        verse + 1 + i,
                        segments@,
                        operator,
                    )
                &&& forall|i: int|
                    nv <= i < nv + nc ==> r[i] == BibleCompletion::Chapter(
                        ChapterCompletion { book_id, chapter: (chapter + 1 + (i - nv)) as usize },
                    )
            } else {
                r.len() == 0
            }
        },
    }
}

impl AutocompleteState {
    /// The ordered candidates for this state over the given corpus; see
    /// [`suggestions_match`] for the exact shape.
    pub fn give_suggestions(&self, api: &BibleAPI) -> (r: Vec<BibleCompletion>)
        ensures
            suggestions_match(*self, *api, r@),
    {
        match self {
            AutocompleteState::BooksOnly => suggest_all_books(),
            AutocompleteState::ChaptersOnly { book_id } => {
                let book_id = *book_id;
                match api.get_book_chapter_count(book_id) {
                    Some(chapter_count) => {
                        let mut r: Vec<BibleCompletion> = Vec::new();
                        let mut i: usize = 0;
                        while i < chapter_count
                            invariant
                                i <= chapter_count,
                                r@.len() == i,
                                forall|j: int|
                                    0 <= j < i ==> r@[j] == BibleCompletion::Chapter(
                                        ChapterCompletion { book_id, chapter: (j + 1) as usize },
                                    ),
                            decreases chapter_count - i,
                        {
                            r.push(
                                BibleCompletion::Chapter(
                                    ChapterCompletion { book_id, chapter: i + 1 },
                                ),
                            );
                            i = i + 1;
                        }
                        r
                    },
                    None => Vec::new(),
                }
            },
            AutocompleteState::VersesOnly { book_id, chapter } => {
                let book_id = *book_id;
                let chapter = *chapter;
                match api.get_chapter_verse_count(book_id, chapter) {
                    Some(verse_count) => {
                        let mut r: Vec<BibleCompletion> = Vec::new();
                        let mut i: usize = 0;
                        while i < verse_count
                            invariant
                                i <= verse_count,
                                r@.len() == i,
                                forall|j: int|
                                    0 <= j < i ==> is_verse_item(
                                        #[trigger] r@[j],
                                        book_id,
                                        chapter,
                                        j + 1,
                                        Seq::empty(),
                                        AutocompletionEndingOperator::Chapter,
                                    ),
                            decreases verse_count - i,
                        {
                            r.push(
                                BibleCompletion::Verse(
                                    VerseCompletion {
                                        book_id,
                                        chapter,
                                        verse: i + 1,
                                        segments: BookReferenceSegments::new(),
                                        operator: AutocompletionEndingOperator::Chapter,
                                    },
                                ),
                            );
                            i = i + 1;
                        }
                        r
                    },
                    // if the chapter is invalid (out of bounds), return an
                    // empty list rather than failing
                    None => Vec::new(),
                }
            },
            AutocompleteState::ChaptersOrVerses { book_id, chapter, verse, segments, operator } => {
                let book_id = *book_id;
                let chapter = *chapter;
                let verse = *verse;
                let operator = *operator;
                match api.get_chapter_verse_count(book_id, chapter) {
                    Some(verse_count) => {
                        let chapter_count = match api.get_book_chapter_count(book_id) {
                            Some(c) => c,
                            None => 0,  // unreachable: the chapter was already valid
                        };
                        proof {
                            assert(api.valid_book(book_id));
                            assert(chapter_count == api.spec_chapter_count(book_id));
                        }
                        let nv: usize = if verse < verse_count {
                            verse_count - verse
                        } else {
                            0
                        };
                        let nc: usize = if chapter < chapter_count {
                            chapter_count - chapter
                        } else {
                            0
                        };
                        let mut r: Vec<BibleCompletion> = Vec::new();
                        let mut i: usize = 0;
                        while i < nv
                            invariant
                                i <= nv,
                                nv > 0 ==> verse + nv <= usize::MAX,
                                nv > 0 ==> verse < verse_count && nv == verse_count - verse,
                                r@.len() == i,
                                forall|j: int|
                                    0 <= j < i ==> is_verse_item(
                                        #[trigger] r@[j],
                                        book_id,
                                        chapter,
                                        verse + 1 + j,
                                        segments@,
                                        operator,
                                    ),
                            decreases nv - i,
                        {
                            r.push(
                                BibleCompletion::Verse(
                                    VerseCompletion {
                                        book_id,
                                        chapter,
                                        verse: verse + 1 + i,
                                        segments: clone_segments(segments),
                                        operator,
                                    },
                                ),
                            );
                            i = i + 1;
                        }
                        let mut k: usize = 0;
                        while k < nc
                            invariant
                                k <= nc,
                                nc > 0 ==> chapter + nc <= usize::MAX,
                                r@.len() == nv + k,
                                forall|j: int|
                                    0 <= j < nv ==> is_verse_item(
                                        #[trigger] r@[j],
                                        book_id,
                                        chapter,
                                        verse + 1 + j,
                                        segments@,
                                        operator,
                                    ),
                                forall|j: int|
                                    nv <= j < nv + k ==> r@[j] == BibleCompletion::Chapter(
                                        ChapterCompletion {
                                            book_id,
                                            chapter: (chapter + 1 + (j - nv)) as usize,
                                        },
                                    ),
                            decreases nc - k,
                        {
                            r.push(
                                BibleCompletion::Chapter(
                                    ChapterCompletion { book_id, chapter: chapter + 1 + k },
                                ),
                            );
                            k = k + 1;
                        }
                        r
                    },
                    // if the chapter is invalid (out of bounds), return an
                    // empty list rather than failing
                    None => Vec::new(),
                }
            },
        }
    }
}

/// Two candidates carrying the same suggestion (their segment runs compared
/// by content).
pub open spec fn completion_like(a: BibleCompletion, b: BibleCompletion) -> bool {
    match (a, b) {
        (BibleCompletion::BookName(x), BibleCompletion::BookName(y)) => x == y,
        (BibleCompletion::Chapter(x), BibleCompletion::Chapter(y)) => x == y,
        (BibleCompletion::Verse(x), BibleCompletion::Verse(y)) => {
            &&& x.book_id == y.book_id
            &&& x.chapter == y.chapter
            &&& x.verse == y.verse
            &&& x.segments@ == y.segments@
            &&& x.operator == y.operator
        },
        _ => false,
    }
}

/// Candidate generation has no hidden state: any two runs over the same
/// state and corpus yield the same candidates in the same order.
pub proof fn lemma_generation_deterministic(
    state: AutocompleteState,
    api: BibleAPI,
    r1: Seq<BibleCompletion>,
    r2: Seq<BibleCompletion>,
)
    requires
        suggestions_match(state, api, r1),
        suggestions_match(state, api, r2),
    ensures
        r1.len() == r2.len(),
        forall|i: int| 0 <= i < r1.len() ==> completion_like(#[trigger] r1[i], r2[i]),
{
    match state {
        AutocompleteState::BooksOnly => {},
        AutocompleteState::ChaptersOnly { book_id } => {},
        AutocompleteState::VersesOnly { book_id, chapter } => {
            if api.valid_book_chapter(book_id, chapter) {
                assert forall|i: int| 0 <= i < r1.len() implies completion_like(
                    #[trigger] r1[i],
                    r2[i],
                ) by {
                    assert(is_verse_item(
                        r1[i],
                        book_id,
                        chapter,
                        i + 1,
                        Seq::empty(),
                        AutocompletionEndingOperator::Chapter,
                    ));
                    assert(is_verse_item(
                        r2[i],
                        book_id,
                        chapter,
                        i + 1,
                        Seq::empty(),
                        AutocompletionEndingOperator::Chapter,
                    ));
                }
            }
        },
        AutocompleteState::ChaptersOrVerses { book_id, chapter, verse, segments, operator } => {
            if api.valid_book_chapter(book_id, chapter) {
                let vcount = api.spec_verse_count(book_id, chapter);
                let nv: int = if verse < vcount {
                    vcount - verse
                } else {
                    0
                };
                assert forall|i: int| 0 <= i < r1.len() implies completion_like(
                    #[trigger] r1[i],
                    r2[i],
                ) by {
                    if i < nv {
                        assert(is_verse_item(r1[i], book_id, chapter, verse + 1 + i, segments@,
                        operator));
                        assert(is_verse_item(r2[i], book_id, chapter, verse + 1 + i, segments@,
                        operator));
                    }
                }
            }
        },
    }
}


// ---------------------------------------------------------------------------
// Rendering candidates
// ---------------------------------------------------------------------------

/// Book ids a candidate carries must name real books before it can be
/// rendered.
pub open spec fn completion_book_valid(c: BibleCompletion, api: BibleAPI) -> bool {
    match c {
        BibleCompletion::BookName(x) => 1 <= x.book_id <= api.book_id_to_name@.len(),
        BibleCompletion::Chapter(x) => 1 <= x.book_id <= api.book_id_to_name@.len(),
        BibleCompletion::Verse(x) => 1 <= x.book_id <= api.book_id_to_name@.len(),
    }
}

/// The plain rendering: `Name`, `Name chapter`, or `Name chapter:verse`.
pub open spec fn print_spec(c: BibleCompletion, api: BibleAPI) -> Seq<char> {
    match c {
        BibleCompletion::BookName(x) => api.book_id_to_name@[x.book_id - 1]@,
        BibleCompletion::Chapter(x) => api.book_id_to_name@[x.book_id - 1]@ + seq![' ']
            + digits_of(x.chapter as int),
        BibleCompletion::Verse(x) => api.book_id_to_name@[x.book_id - 1]@ + seq![' '] + digits_of(
            x.chapter as int,
        ) + seq![':'] + digits_of(x.verse as int),
    }
}

/// The segments a verse candidate stands for once the ending operator is
/// replayed: `Break` appends the new verse as its own segment, `Through`
/// turns the last segment into a range ending at the new verse, and the
/// rest leave the segments alone.
pub open spec fn adjusted_segments(
    segs: Seq<BookReferenceSegment>,
    chapter: usize,
    verse: usize,
    operator: AutocompletionEndingOperator,
) -> Seq<BookReferenceSegment> {
    match operator {
        AutocompletionEndingOperator::NoOperator => segs,
        AutocompletionEndingOperator::Chapter => segs,
        AutocompletionEndingOperator::Break => segs.push(
            BookReferenceSegment::ChapterVerse(ChapterVerse { chapter, verse }),
        ),
        AutocompletionEndingOperator::Through => segs.drop_last().push(
            BookReferenceSegment::ChapterRange(
                ChapterRange {
                    chapter,
                    start_verse: segs.last().spec_ending_verse(),
                    end_verse: verse,
                },
            ),
        ),
    }
}

/// A `Through` candidate must have a prior segment to extend.
pub open spec fn completion_segments_ok(c: BibleCompletion) -> bool {
    match c {
        BibleCompletion::Verse(x) => x.operator is Through ==> x.segments@.len() > 0,
        _ => true,
    }
}

/// The label of a candidate: the book name, then the chapter, or the whole
/// segment run with the operator replayed.
pub open spec fn label_spec_completion(c: BibleCompletion, api: BibleAPI) -> Seq<char> {
    match c {
        BibleCompletion::BookName(x) => api.book_id_to_name@[x.book_id - 1]@,
        BibleCompletion::Chapter(x) => api.book_id_to_name@[x.book_id - 1]@ + seq![' ']
            + digits_of(x.chapter as int),
        BibleCompletion::Verse(x) => api.book_id_to_name@[x.book_id - 1]@ + seq![' ']
            + label_spec(adjusted_segments(x.segments@, x.chapter, x.verse, x.operator)),
    }
}

/// The markdown preview body of a candidate.
pub open spec fn preview_spec(c: BibleCompletion, api: BibleAPI) -> Seq<char> {
    match c {
        BibleCompletion::BookName(x) => seq!['#', '#', '#', ' ']
            + api.book_id_to_name@[x.book_id - 1]@,
        BibleCompletion::Chapter(x) => seq!['#', '#', '#', ' '] + api.book_id_to_name@[x.book_id
            - 1]@ + seq![' '] + digits_of(x.chapter as int) + seq!['\n', '\n'] + join_with(
            entry_verses_from(
                api,
                x.book_id,
                x.chapter,
                1,
                api.spec_verse_count(x.book_id, x.chapter) as int,
            ),
            seq!['\n'],
        ),
        BibleCompletion::Verse(x) => {
            let adjusted = adjusted_segments(x.segments@, x.chapter, x.verse, x.operator);
            seq!['#', '#', '#', ' '] + api.book_id_to_name@[x.book_id - 1]@ + seq![' ']
                + label_spec(adjusted) + seq!['\n', '\n'] + content_spec(api, x.book_id, adjusted)
        },
    }
}

/// Applies the ending-operator replay to an owned copy of the segments.
fn adjust_segments_exec(
    segments: &BookReferenceSegments,
    chapter: usize,
    verse: usize,
    operator: AutocompletionEndingOperator,
) -> (r: BookReferenceSegments)
    requires
        operator is Through ==> segments@.len() > 0,
    ensures
        r@ == adjusted_segments(segments@, chapter, verse, operator),
{
    let mut segs = clone_segments(segments);
    match operator {
        AutocompletionEndingOperator::NoOperator => {},
        AutocompletionEndingOperator::Chapter => {},
        AutocompletionEndingOperator::Break => {
            segs.0.push(BookReferenceSegment::ChapterVerse(ChapterVerse { chapter, verse }));
        },
        AutocompletionEndingOperator::Through => {
            let last = segs.0[segs.0.len() - 1];
            let start_verse = last.get_ending_verse();
            // the last segment is really the start of an incomplete range
            let _ = segs.0.pop();
            segs.0.push(
                BookReferenceSegment::ChapterRange(
                    ChapterRange { chapter, start_verse, end_verse: verse },
                ),
            );
            proof {
                assert(segments@.drop_last() =~= segs@.drop_last());
                assert(segs@ =~= adjusted_segments(segments@, chapter, verse, operator));
            }
        },
    }
    segs
}

impl BibleCompletion {
    /// The candidate as plain text.
    pub fn print(&self, api: &BibleAPI) -> (r: String)
        requires
            completion_book_valid(*self, *api),
        ensures
            r@ == print_spec(*self, *api),
    {
        match self {
            BibleCompletion::BookName(x) => api.get_book_name(x.book_id).unwrap(),
            BibleCompletion::Chapter(x) => {
                let name = api.get_book_name(x.book_id).unwrap();
                let mut out: Vec<char> = Vec::new();
                extend_str(&mut out, name.as_str());
                out.push(' ');
                push_digits(&mut out, x.chapter);
                proof {
                    assert(out@ =~= print_spec(*self, *api));
                }
                string_from_chars(&out)
            },
            BibleCompletion::Verse(x) => {
                let name = api.get_book_name(x.book_id).unwrap();
                let mut out: Vec<char> = Vec::new();
                extend_str(&mut out, name.as_str());
                out.push(' ');
                push_digits(&mut out, x.chapter);
                out.push(':');
                push_digits(&mut out, x.verse);
                proof {
                    assert(out@ =~= print_spec(*self, *api));
                }
                string_from_chars(&out)
            },
        }
    }

    /// The label offered to the editor; for a verse candidate the ending
    /// operator is replayed into the carried segments first.
    pub fn label(&self, api: &BibleAPI) -> (r: String)
        requires
            completion_book_valid(*self, *api),
            completion_segments_ok(*self),
        ensures
            r@ == label_spec_completion(*self, *api),
    {
        match self {
            BibleCompletion::BookName(x) => api.get_book_name(x.book_id).unwrap(),
            BibleCompletion::Chapter(x) => {
                let name = api.get_book_name(x.book_id).unwrap();
                let mut out: Vec<char> = Vec::new();
                extend_str(&mut out, name.as_str());
                out.push(' ');
                push_digits(&mut out, x.chapter);
                proof {
                    assert(out@ =~= label_spec_completion(*self, *api));
                }
                string_from_chars(&out)
            },
            BibleCompletion::Verse(x) => {
                let segs = adjust_segments_exec(&x.segments, x.chapter, x.verse, x.operator);
                let name = api.get_book_name(x.book_id).unwrap();
                let lab = segs.label();
                let mut out: Vec<char> = Vec::new();
                extend_str(&mut out, name.as_str());
                out.push(' ');
                extend_str(&mut out, lab.as_str());
                proof {
                    assert(out@ =~= label_spec_completion(*self, *api));
                }
                string_from_chars(&out)
            },
        }
    }

    /// The markdown body shown beside the candidate: a heading, then the
    /// verse text the candidate covers.
    pub fn lsp_preview(&self, api: &BibleAPI) -> (r: String)
        requires
            api.wf(),
            completion_book_valid(*self, *api),
            completion_segments_ok(*self),
            self matches BibleCompletion::Chapter(x) ==> api.valid_book_chapter(
                x.book_id,
                x.chapter,
            ),
        ensures
            r@ == preview_spec(*self, *api),
    {
        match self {
            BibleCompletion::BookName(x) => {
                let name = api.get_book_name(x.book_id).unwrap();
                let mut out: Vec<char> = Vec::new();
                out.push('#');
                out.push('#');
                out.push('#');
                out.push(' ');
                extend_str(&mut out, name.as_str());
                proof {
                    assert(out@ =~= preview_spec(*self, *api));
                }
                string_from_chars(&out)
            },
            BibleCompletion::Chapter(x) => {
                let name = api.get_book_name(x.book_id).unwrap();
                let verse_count = api.get_chapter_verse_count(x.book_id, x.chapter).unwrap();
                let seg = BookReferenceSegment::ChapterRange(
                    ChapterRange { chapter: x.chapter, start_verse: 1, end_verse: verse_count },
                );
                let entries = segment_entries(api, x.book_id, &seg);
                let body = join_strings(&entries, "\n");
                let mut out: Vec<char> = Vec::new();
                out.push('#');
                out.push('#');
                out.push('#');
                out.push(' ');
                extend_str(&mut out, name.as_str());
                out.push(' ');
                push_digits(&mut out, x.chapter);
                out.push('\n');
                out.push('\n');
                extend_str(&mut out, body.as_str());
                proof {
                    reveal_strlit("\n");
                    assert("\n"@ =~= seq!['\n']);
                    assert(entry_chapters_from(
                        *api,
                        x.book_id,
                        x.chapter as int,
                        x.chapter as int,
                        1,
                        verse_count as int,
                    ) =~= entry_verses_from(*api, x.book_id, x.chapter, 1, verse_count as int)
                        + entry_chapters_from(
                        *api,
                        x.book_id,
                        x.chapter as int + 1,
                        x.chapter as int,
                        1,
                        verse_count as int,
                    ));
                    assert(entry_chapters_from(
                        *api,
                        x.book_id,
                        x.chapter as int + 1,
                        x.chapter as int,
                        1,
                        verse_count as int,
                    ) =~= Seq::<Seq<char>>::empty());
                    assert(entry_verses_from(*api, x.book_id, x.chapter, 1, verse_count as int)
                        + Seq::<Seq<char>>::empty() =~= entry_verses_from(
                        *api,
                        x.book_id,
                        x.chapter,
                        1,
                        verse_count as int,
                    ));
                    assert(out@ =~= preview_spec(*self, *api));
                }
                string_from_chars(&out)
            },
            BibleCompletion::Verse(x) => {
                let segs = adjust_segments_exec(&x.segments, x.chapter, x.verse, x.operator);
                let name = api.get_book_name(x.book_id).unwrap();
                let lab = segs.label();
                let content = format_segments_content(api, x.book_id, &segs);
                let mut out: Vec<char> = Vec::new();
                out.push('#');
                out.push('#');
                out.push('#');
                out.push(' ');
                extend_str(&mut out, name.as_str());
                out.push(' ');
                extend_str(&mut out, lab.as_str());
                out.push('\n');
                out.push('\n');
                extend_str(&mut out, content.as_str());
                proof {
                    assert(out@ =~= preview_spec(*self, *api));
                }
                string_from_chars(&out)
            },
        }
    }
}

/// An editor sort key that freezes the generator's ordering: the ordinal
/// position, zero-padded so that lexicographic order equals numeric order.
pub open spec fn sort_key_spec(index: usize) -> Seq<char> {
    let ds = digits_of(index as int);
    if ds.len() >= 20 {
        ds
    } else {
        Seq::new((20 - ds.len()) as nat, |i: int| '0') + ds
    }
}

/// The zero-padded sort key for the candidate at `index`.
pub fn lsp_sort_key(index: usize) -> (r: String)
    ensures
        r@ == sort_key_spec(index),
{
    let mut ds: Vec<char> = Vec::new();
    push_digits(&mut ds, index);
    let mut out: Vec<char> = Vec::new();
    let n = ds.len();
    if n < 20 {
        let pad: usize = 20 - n;
        let mut i: usize = 0;
        while i < pad
            invariant
                i <= pad,
                out@ == Seq::new(i as nat, |j: int| '0'),
            decreases pad - i,
        {
            out.push('0');
            proof {
                assert(out@ =~= Seq::new(i as nat + 1, |j: int| '0'));
            }
            i = i + 1;
        }
    }
    let mut k: usize = 0;
    let ghost out0 = out@;
    while k < ds.len()
        invariant
            k <= ds@.len(),
            out@ == out0 + ds@.take(k as int),
        decreases ds@.len() - k,
    {
        out.push(ds[k]);
        proof {
            assert(out@ =~= out0 + ds@.take(k as int + 1));
        }
        k = k + 1;
    }
    proof {
        assert(ds@.take(ds@.len() as int) =~= ds@);
        if n >= 20 {
            assert(out0 =~= Seq::<char>::empty());
            assert(out@ =~= sort_key_spec(index));
        } else {
            assert(out@ =~= sort_key_spec(index));
        }
    }
    string_from_chars(&out)
}


// ---------------------------------------------------------------------------
// The last chapter and verse of partially typed text
// ---------------------------------------------------------------------------

/// How the `(chapter, verse)` pair extracted from partially typed text
/// relates to the two scans: the pair is only trusted when the two last
/// matches do not collide. A number that is both the last chapter-like and
/// last verse-like match (same start), or a verse-like match that is stale
/// (before the chapter-like one), contributes no verse.
pub open spec fn last_chapter_verse_matches(
    s: Seq<char>,
    rc: Option<usize>,
    rv: Option<usize>,
) -> bool {
    let cs = chapter_scan(s, 0);
    let vs = verse_scan(s, 0);
    if cs.len() == 0 || vs.len() == 0 {
        rc is None && rv is None
    } else {
        let ch = cs.last();
        let vm = vs.last();
        let chd = s.subrange(ch.0, ch.1);
        let vsd = s.subrange(vm.0, vm.1);
        &&& (rc is Some <==> wf_number(chd))
        &&& (rc is Some ==> rc->0 == digits_val(chd))
        &&& if vm.0 > ch.0 {
            &&& (rv is Some <==> wf_number(vsd))
            &&& (rv is Some ==> rv->0 == digits_val(vsd))
        } else {
            rv is None
        }
    }
}

/// The last chapter-like and verse-like numbers already typed, under the
/// collision policy of [`last_chapter_verse_matches`].
pub fn get_last_chapter_and_verse(segment_input: &str) -> (r: (Option<usize>, Option<usize>))
    ensures
        last_chapter_verse_matches(segment_input@, r.0, r.1),
{
    let v = chars_of(segment_input);
    let ch = last_chapter_span(&v);
    let vm = last_verse_span(&v);
    match (ch, vm) {
        (Some(c), Some(w)) => {
            let chapter = parse_usize(&v, c.0, c.1);
            proof {
                assert(v@.subrange(c.0 as int, c.1 as int) == segment_input@.subrange(
                    chapter_scan(segment_input@, 0).last().0,
                    chapter_scan(segment_input@, 0).last().1,
                ));
            }
            if w.0 > c.0 {
                let verse = parse_usize(&v, w.0, w.1);
                (chapter, verse)
            } else {
                (chapter, None)
            }
        },
        _ => (None, None),
    }
}

// ---------------------------------------------------------------------------
// The state carried by one completion request
// ---------------------------------------------------------------------------

/// Whether the next number continues a range or starts a new break.
#[derive(Clone, Copy, Debug, PartialEq, Eq, Structural)]
pub enum CompletionJoiner {
    Range,
    Break,
}

/// The segments already typed, the last chapter/verse seen, and how the
/// next number joins on.
#[derive(Debug)]
pub struct CompletionSegmentsState {
    pub segments: BookReferenceSegments,
    pub current_chapter: Option<usize>,
    pub current_verse: Option<usize>,
    pub joiner: CompletionJoiner,
}

impl CompletionSegmentsState {
    /// Reads the typed text: the trailing incomplete piece (`digits:` or
    /// `digits-`) is dropped before parsing, and nothing is parsed unless a
    /// complete `chapter:verse` has been typed.
    pub fn parse(segment_input: &str) -> (r: CompletionSegmentsState)
        ensures
            ({
                let s = segment_input@;
                let stripped = s.take(strip_incomplete_end(s));
                &&& r.segments@ == if has_segment(s) && parse_wf(stripped) {
                    parse_segments_spec(stripped)
                } else {
                    Seq::<BookReferenceSegment>::empty()
                }
                &&& last_chapter_verse_matches(s, r.current_chapter, r.current_verse)
                &&& r.joiner == if s.len() > 0 && (s.last() == '-' || s.last() == EN_DASH) {
                    CompletionJoiner::Range
                } else {
                    CompletionJoiner::Break
                }
            }),
    {
        let v = chars_of(segment_input);
        let keep = strip_incomplete_exec(&v);
        let sub = subvec(&v, 0, keep);
        let full_segments_input = string_from_chars(&sub);
        proof {
            assert(full_segments_input@ =~= segment_input@.take(
                strip_incomplete_end(segment_input@),
            ));
        }
        // make sure there are valid segments before parsing
        let segments = if has_segment_exec(&v) {
            match try_parse_reference_segments(full_segments_input.as_str()) {
                Some(sg) => sg,
                None => BookReferenceSegments::new(),
            }
        } else {
            BookReferenceSegments::new()
        };
        let last = get_last_chapter_and_verse(segment_input);
        let joiner = if v.len() > 0 {
            let c = v[v.len() - 1];
            if c == '-' || c == EN_DASH {
                CompletionJoiner::Range
            } else {
                CompletionJoiner::Break
            }
        } else {
            CompletionJoiner::Break
        };
        CompletionSegmentsState {
            segments,
            current_chapter: last.0,
            current_verse: last.1,
            joiner,
        }
    }
}

/// A completion state bound to the corpus and the book being completed.
pub struct APICompletionSegment<'a> {
    pub api: &'a BibleAPI,
    pub book_id: usize,
    pub segment_state: CompletionSegmentsState,
}

/// The rendered pieces of one completion item.
#[derive(Debug)]
pub struct CompletionItemData {
    pub label: String,
    pub documentation: String,
}

impl<'a> APICompletionSegment<'a> {
    /// Not yet wired to a renderer: no items are produced from this state.
    pub fn completion_items(&self) -> (r: Vec<CompletionItemData>)
        ensures
            r@ == Seq::<CompletionItemData>::empty(),
    {
        let r: Vec<CompletionItemData> = Vec::new();
        proof {
            assert(r@ =~= Seq::<CompletionItemData>::empty());
        }
        r
    }
}

} // verus!

