//! The reference-segment grammar: parsing strings such as `1:1-4,5-7,2:2-3:4,6`
//! into typed chapter/verse segments, and rendering segments back into labels.

use vstd::prelude::*;

use crate::text::{
    all_digits, chars_of, digits_of, digits_val, is_digit, is_digit_exec, parse_usize,
    push_digits, string_from_chars, wf_number,
};

verus! {

/// The non-ASCII en-dash glyph that humans sometimes type for a range.
pub const EN_DASH: char = '\u{2013}';

/// - A single chapter/verse reference
/// - Ex: `1:2` in `John 1:2`
#[derive(Clone, Copy, Debug, PartialEq, Eq, Structural)]
pub struct ChapterVerse {
    pub chapter: usize,
    pub verse: usize,
}

/// - A range of verse references within a single chapter
/// - Ex: `1:2-3` in `John 1:2-3`
#[derive(Clone, Copy, Debug, PartialEq, Eq, Structural)]
pub struct ChapterRange {
    pub chapter: usize,
    pub start_verse: usize,
    pub end_verse: usize,
}

/// - A range of verse references across multiple chapters
/// - Ex: `1:2-3:4` in `John 1:2-3:4`
#[derive(Clone, Copy, Debug, PartialEq, Eq, Structural)]
pub struct BookRange {
    pub start_chapter: usize,
    pub end_chapter: usize,
    pub start_verse: usize,
    pub end_verse: usize,
}

/// One parsed unit of a reference such as `Ephesians 1:1-4,5-7,2:2-3:4,6`:
/// the chapter ranges `1:1-4` and `1:5-7`, the book range `2:2-3:4`, and the
/// chapter/verse `3:6` (the bare `6` inherits chapter 3 from its predecessor).
#[derive(Clone, Copy, Debug, PartialEq, Eq, Structural)]
pub enum BookReferenceSegment {
    ChapterVerse(ChapterVerse),
    ChapterRange(ChapterRange),
    BookRange(BookRange),
}

impl BookReferenceSegment {
    pub open spec fn spec_starting_verse(&self) -> usize {
        match *self {
            BookReferenceSegment::ChapterVerse(cv) => cv.verse,
            BookReferenceSegment::ChapterRange(cr) => cr.start_verse,
            BookReferenceSegment::BookRange(br) => br.start_verse,
        }
    }

    pub open spec fn spec_starting_chapter(&self) -> usize {
        match *self {
            BookReferenceSegment::ChapterVerse(cv) => cv.chapter,
            BookReferenceSegment::ChapterRange(cr) => cr.chapter,
            BookReferenceSegment::BookRange(br) => br.start_chapter,
        }
    }

    pub open spec fn spec_ending_verse(&self) -> usize {
        match *self {
            BookReferenceSegment::ChapterVerse(cv) => cv.verse,
            BookReferenceSegment::ChapterRange(cr) => cr.end_verse,
            BookReferenceSegment::BookRange(br) => br.end_verse,
        }
    }

    pub open spec fn spec_ending_chapter(&self) -> usize {
        match *self {
            BookReferenceSegment::ChapterVerse(cv) => cv.chapter,
            BookReferenceSegment::ChapterRange(cr) => cr.chapter,
            BookReferenceSegment::BookRange(br) => br.end_chapter,
        }
    }

    pub fn get_starting_verse(&self) -> (r: usize)
        ensures
            r == self.spec_starting_verse(),
    {
        match self {
            BookReferenceSegment::ChapterVerse(cv) => cv.verse,
            BookReferenceSegment::ChapterRange(cr) => cr.start_verse,
            BookReferenceSegment::BookRange(br) => br.start_verse,
        }
    }

    pub fn get_starting_chapter(&self) -> (r: usize)
        ensures
            r == self.spec_starting_chapter(),
    {
        match self {
            BookReferenceSegment::ChapterVerse(cv) => cv.chapter,
            BookReferenceSegment::ChapterRange(cr) => cr.chapter,
            BookReferenceSegment::BookRange(br) => br.start_chapter,
        }
    }

    pub fn get_ending_verse(&self) -> (r: usize)
        ensures
            r == self.spec_ending_verse(),
    {
        match self {
            BookReferenceSegment::ChapterVerse(cv) => cv.verse,
            BookReferenceSegment::ChapterRange(cr) => cr.end_verse,
            BookReferenceSegment::BookRange(br) => br.end_verse,
        }
    }

    pub fn get_ending_chapter(&self) -> (r: usize)
        ensures
            r == self.spec_ending_chapter(),
    {
        match self {
            BookReferenceSegment::ChapterVerse(cv) => cv.chapter,
            BookReferenceSegment::ChapterRange(cr) => cr.chapter,
            BookReferenceSegment::BookRange(br) => br.end_chapter,
        }
    }
}

/// An ordered run of segments, in the order they were written.
#[derive(Clone, Debug, PartialEq)]
pub struct BookReferenceSegments(pub Vec<BookReferenceSegment>);

impl View for BookReferenceSegments {
    type V = Seq<BookReferenceSegment>;

    open spec fn view(&self) -> Seq<BookReferenceSegment> {
        self.0@
    }
}

// ---------------------------------------------------------------------------
// Character classes of the grammar
// ---------------------------------------------------------------------------

/// The characters that may carry meaning inside a reference segment.
pub open spec fn is_seg_char(c: char) -> bool {
    is_digit(c) || c == ',' || c == ':' || c == ';' || c == '-'
}

/// The separators between range tokens (no uniform standard, so both).
pub open spec fn is_sep(c: char) -> bool {
    c == ',' || c == ';'
}

pub fn is_seg_char_exec(c: char) -> (b: bool)
    ensures
        b == is_seg_char(c),
{
    is_digit_exec(c) || c == ',' || c == ':' || c == ';' || c == '-'
}

pub fn is_sep_exec(c: char) -> (b: bool)
    ensures
        b == is_sep(c),
{
    c == ',' || c == ';'
}

/// En-dashes mean the same as the ASCII hyphen.
pub open spec fn dash_fix(c: char) -> char {
    if c == EN_DASH {
        '-'
    } else {
        c
    }
}

// ---------------------------------------------------------------------------
// Normalization: en-dash fixing, stripping foreign characters, and
// dropping a dangling separator at the end of partial input
// ---------------------------------------------------------------------------

/// En-dashes replaced by hyphens and every non-segment character removed.
pub open spec fn normalize_chars(s: Seq<char>) -> Seq<char>
    decreases s.len(),
{
    if s.len() == 0 {
        Seq::empty()
    } else {
        let rest = normalize_chars(s.drop_last());
        let c = dash_fix(s.last());
        if is_seg_char(c) {
            rest.push(c)
        } else {
            rest
        }
    }
}

/// Trailing non-digits removed (leading ones cannot survive normalization
/// of well-formed input, so only the tail is defended).
pub open spec fn strip_trailing_non_digits(s: Seq<char>) -> Seq<char>
    decreases s.len(),
{
    if s.len() == 0 {
        s
    } else if is_digit(s.last()) {
        s
    } else {
        strip_trailing_non_digits(s.drop_last())
    }
}

/// The fully normalized form handed to tokenization.
pub open spec fn normalize(s: Seq<char>) -> Seq<char> {
    strip_trailing_non_digits(normalize_chars(s))
}

pub proof fn lemma_normalize_chars_concat(a: Seq<char>, b: Seq<char>)
    ensures
        normalize_chars(a + b) == normalize_chars(a) + normalize_chars(b),
    decreases b.len(),
{
    if b.len() == 0 {
        assert(a + b =~= a);
        assert(normalize_chars(a) + normalize_chars(b) =~= normalize_chars(a));
    } else {
        lemma_normalize_chars_concat(a, b.drop_last());
        assert((a + b).drop_last() =~= a + b.drop_last());
        assert((a + b).last() == b.last());
        let c = dash_fix(b.last());
        if is_seg_char(c) {
            assert(normalize_chars(a) + normalize_chars(b) =~= (normalize_chars(a)
                + normalize_chars(b.drop_last())).push(c));
        }
    }
}

/// Normalization keeps a string of segment characters (without en-dashes)
/// exactly as it is.
pub proof fn lemma_normalize_chars_id(s: Seq<char>)
    requires
        forall|i: int| 0 <= i < s.len() ==> is_seg_char(#[trigger] s[i]) && s[i] != EN_DASH,
    ensures
        normalize_chars(s) == s,
    decreases s.len(),
{
    if s.len() > 0 {
        lemma_normalize_chars_id(s.drop_last());
        assert(normalize_chars(s) =~= s);
    }
}

// ---------------------------------------------------------------------------
// Tokenization: splitting the normalized text on `,` and `;`
// ---------------------------------------------------------------------------

/// No separator anywhere in `s`.
pub open spec fn sep_free(s: Seq<char>) -> bool {
    forall|i: int| 0 <= i < s.len() ==> !is_sep(#[trigger] s[i])
}

/// Length of the longest separator-free prefix of `s`.
pub open spec fn first_sep(s: Seq<char>) -> nat
    decreases s.len(),
{
    if s.len() == 0 || is_sep(s[0]) {
        0
    } else {
        1 + first_sep(s.drop_first())
    }
}

pub proof fn lemma_first_sep_bounds(s: Seq<char>)
    ensures
        first_sep(s) <= s.len(),
        forall|i: int| 0 <= i < first_sep(s) ==> !is_sep(#[trigger] s[i]),
        first_sep(s) < s.len() ==> is_sep(s[first_sep(s) as int]),
    decreases s.len(),
{
    if !(s.len() == 0 || is_sep(s[0])) {
        lemma_first_sep_bounds(s.drop_first());
        let f = first_sep(s) as int;
        assert(forall|i: int|
            1 <= i < f ==> !is_sep(s.drop_first()[i - 1]) ==> !is_sep(#[trigger] s[i]));
    }
}

/// `first_sep` of a concatenation whose left part is separator-free.
pub proof fn lemma_first_sep_concat(a: Seq<char>, b: Seq<char>)
    requires
        sep_free(a),
    ensures
        first_sep(a + b) == a.len() + first_sep(b),
    decreases a.len(),
{
    if a.len() == 0 {
        assert(a + b =~= b);
    } else {
        lemma_first_sep_concat(a.drop_first(), b);
        assert((a + b).drop_first() =~= a.drop_first() + b);
        assert(!is_sep((a + b)[0]));
    }
}

/// The token list: the normalized text split at every `,` or `;`.
pub open spec fn split_tokens(s: Seq<char>) -> Seq<Seq<char>>
    decreases s.len(),
{
    let f = first_sep(s);
    if f >= s.len() {
        seq![s]
    } else {
        seq![s.take(f as int)] + split_tokens(s.skip(f as int + 1))
    }
}

pub proof fn lemma_split_nosep(s: Seq<char>)
    requires
        sep_free(s),
    ensures
        split_tokens(s) == seq![s],
{
    lemma_first_sep_bounds(s);
    if first_sep(s) < s.len() {
        assert(is_sep(s[first_sep(s) as int]));
        assert(false);
    }
}

pub proof fn lemma_split_prepend(a: Seq<char>, c: char, b: Seq<char>)
    requires
        sep_free(a),
        is_sep(c),
    ensures
        split_tokens(a + seq![c] + b) == seq![a] + split_tokens(b),
{
    let s = a + seq![c] + b;
    assert(first_sep(seq![c] + b) == 0) by {
        assert((seq![c] + b)[0] == c);
    }
    lemma_first_sep_concat(a, seq![c] + b);
    assert(a + seq![c] + b =~= a + (seq![c] + b));
    assert(first_sep(s) == a.len());
    assert(s.take(a.len() as int) =~= a);
    assert(s.skip(a.len() as int + 1) =~= b);
}

// ---------------------------------------------------------------------------
// Token shapes: each token is `v`, `ch:v`, `v1-v2`, `ch:v1-v2`, `v1-ch:v2`
// or `ch1:v1-ch2:v2`
// ---------------------------------------------------------------------------

/// Length of the longest prefix of `s` free of the character `c`.
pub open spec fn first_occ(s: Seq<char>, c: char) -> nat
    decreases s.len(),
{
    if s.len() == 0 || s[0] == c {
        0
    } else {
        1 + first_occ(s.drop_first(), c)
    }
}


/// `first_occ` of a concatenation whose left part does not hold `c`.
pub proof fn lemma_first_occ_concat(a: Seq<char>, b: Seq<char>, c: char)
    requires
        forall|i: int| 0 <= i < a.len() ==> #[trigger] a[i] != c,
    ensures
        first_occ(a + b, c) == a.len() + first_occ(b, c),
    decreases a.len(),
{
    if a.len() == 0 {
        assert(a + b =~= b);
    } else {
        lemma_first_occ_concat(a.drop_first(), b, c);
        assert((a + b).drop_first() =~= a.drop_first() + b);
        assert((a + b)[0] == a[0]);
    }
}

/// The value of a digit string, as the `usize` the parser stores.
pub open spec fn num_val(s: Seq<char>) -> usize {
    digits_val(s) as usize
}

/// One token parsed under the running chapter `ch`: the segment it denotes
/// and the running chapter left for the next token.
pub open spec fn token_parse(t: Seq<char>, ch: usize) -> (BookReferenceSegment, usize) {
    let d = first_occ(t, '-') as int;
    if d >= t.len() {
        // not a range: `ch:v` or a bare verse `v`
        let c = first_occ(t, ':') as int;
        if c >= t.len() {
            (
                BookReferenceSegment::ChapterVerse(
                    ChapterVerse { chapter: ch, verse: num_val(t) },
                ),
                ch,
            )
        } else {
            let chv = num_val(t.take(c));
            (
                BookReferenceSegment::ChapterVerse(
                    ChapterVerse { chapter: chv, verse: num_val(t.skip(c + 1)) },
                ),
                chv,
            )
        }
    } else {
        let l = t.take(d);
        let r = t.skip(d + 1);
        let lc = first_occ(l, ':') as int;
        let rc = first_occ(r, ':') as int;
        if lc < l.len() && rc < r.len() {
            // `ch1:v1 - ch2:v2`
            let ch2 = num_val(r.take(rc));
            (
                BookReferenceSegment::BookRange(
                    BookRange {
                        start_chapter: num_val(l.take(lc)),
                        end_chapter: ch2,
                        start_verse: num_val(l.skip(lc + 1)),
                        end_verse: num_val(r.skip(rc + 1)),
                    },
                ),
                ch2,
            )
        } else if lc < l.len() {
            // `ch1:v1 - v2`
            let ch1 = num_val(l.take(lc));
            (
                BookReferenceSegment::ChapterRange(
                    ChapterRange {
                        chapter: ch1,
                        start_verse: num_val(l.skip(lc + 1)),
                        end_verse: num_val(r),
                    },
                ),
                ch1,
            )
        } else if rc < r.len() {
            // `v1 - ch2:v2`
            let ch2 = num_val(r.take(rc));
            (
                BookReferenceSegment::BookRange(
                    BookRange {
                        start_chapter: ch,
                        end_chapter: ch2,
                        start_verse: num_val(l),
                        end_verse: num_val(r.skip(rc + 1)),
                    },
                ),
                ch2,
            )
        } else {
            // `v1 - v2`
            (
                BookReferenceSegment::ChapterRange(
                    ChapterRange { chapter: ch, start_verse: num_val(l), end_verse: num_val(r) },
                ),
                ch,
            )
        }
    }
}

/// Every number slot of the token is a pure, `usize`-sized digit string.
pub open spec fn wf_token(t: Seq<char>) -> bool {
    let d = first_occ(t, '-') as int;
    if d >= t.len() {
        let c = first_occ(t, ':') as int;
        if c >= t.len() {
            wf_number(t)
        } else {
            wf_number(t.take(c)) && wf_number(t.skip(c + 1))
        }
    } else {
        wf_part(t.take(d)) && wf_part(t.skip(d + 1))
    }
}

/// One side of a range token: `ch:v` or a bare number.
pub open spec fn wf_part(p: Seq<char>) -> bool {
    let c = first_occ(p, ':') as int;
    if c >= p.len() {
        wf_number(p)
    } else {
        wf_number(p.take(c)) && wf_number(p.skip(c + 1))
    }
}

// ---------------------------------------------------------------------------
// The parse itself
// ---------------------------------------------------------------------------

/// The segments denoted by the token list, threading the running chapter.
pub open spec fn parse_tokens(ts: Seq<Seq<char>>, ch: usize) -> Seq<BookReferenceSegment>
    decreases ts.len(),
{
    if ts.len() == 0 {
        Seq::empty()
    } else {
        let (seg, ch2) = token_parse(ts[0], ch);
        seq![seg] + parse_tokens(ts.drop_first(), ch2)
    }
}

/// The token list of a raw segment string.
pub open spec fn tokens_of(s: Seq<char>) -> Seq<Seq<char>> {
    split_tokens(normalize(s))
}

/// The caller's obligation: after normalization, every token must be one of
/// the six token shapes with pure digit numbers. Garbage here means a bug in
/// the caller's own pre-screening, not user error.
pub open spec fn parse_wf(s: Seq<char>) -> bool {
    forall|i: int| 0 <= i < tokens_of(s).len() ==> wf_token(#[trigger] tokens_of(s)[i])
}

/// What the parser returns: the tokens parsed in order, with the running
/// chapter starting at 1.
pub open spec fn parse_segments_spec(s: Seq<char>) -> Seq<BookReferenceSegment> {
    parse_tokens(tokens_of(s), 1)
}


// ---------------------------------------------------------------------------
// Executable search helpers
// ---------------------------------------------------------------------------

/// Uniqueness of the `first_occ` characterization: any index with the same
/// properties is the first occurrence.
pub proof fn lemma_first_occ_unique(s: Seq<char>, c: char, i: int)
    requires
        0 <= i <= s.len(),
        forall|j: int| 0 <= j < i ==> s[j] != c,
        i < s.len() ==> s[i] == c,
    ensures
        first_occ(s, c) == i,
    decreases s.len(),
{
    if i == 0 {
        if s.len() > 0 && s[0] != c {
            assert(false);
        }
    } else {
        assert(s[0] != c);
        lemma_first_occ_unique(s.drop_first(), c, i - 1);
    }
}


/// First occurrence of `c` in `t[from..to]`, as an absolute index
/// (`to` when absent).
fn find_occ_in(t: &Vec<char>, c: char, from: usize, to: usize) -> (r: usize)
    requires
        from <= to <= t@.len(),
    ensures
        from <= r <= to,
        r - from == first_occ(t@.subrange(from as int, to as int), c),
{
    let ghost sub = t@.subrange(from as int, to as int);
    let mut i: usize = from;
    while i < to && t[i] != c
        invariant
            from <= i <= to <= t@.len(),
            forall|j: int| from <= j < i ==> t@[j] != c,
        decreases to - i,
    {
        i = i + 1;
    }
    proof {
        assert(forall|j: int| 0 <= j < i - from ==> sub[j] != c);
        if i < to {
            assert(sub[i - from] == c);
        }
        lemma_first_occ_unique(sub, c, i - from);
    }
    i
}

// ---------------------------------------------------------------------------
// Executable tokenization
// ---------------------------------------------------------------------------

/// Splits the normalized text on `,` and `;` into its range tokens.
fn split_at_seps(w: &Vec<char>) -> (ts: Vec<Vec<char>>)
    ensures
        ts@.map_values(|t: Vec<char>| t@) == split_tokens(w@),
{
    let mut ts: Vec<Vec<char>> = Vec::new();
    let mut cur: Vec<char> = Vec::new();
    let mut i: usize = 0;
    proof {
        assert(cur@ + w@.skip(0) =~= w@);
    }
    while i < w.len()
        invariant
            i <= w@.len(),
            sep_free(cur@),
            split_tokens(w@) == ts@.map_values(|t: Vec<char>| t@) + split_tokens(
                cur@ + w@.skip(i as int),
            ),
        decreases w@.len() - i,
    {
        let c = w[i];
        if is_sep_exec(c) {
            proof {
                assert(cur@ + w@.skip(i as int) =~= cur@ + seq![c] + w@.skip(i as int + 1));
                lemma_split_prepend(cur@, c, w@.skip(i as int + 1));
                assert(cur@ + w@.skip(i as int + 1) =~= Seq::<char>::empty() + cur@ + w@.skip(
                    i as int + 1,
                ));
            }
            let ghost old_ts = ts@;
            let ghost old_cur = cur@;
            ts.push(cur);
            cur = Vec::new();
            proof {
                assert(ts@.map_values(|t: Vec<char>| t@) =~= old_ts.map_values(
                    |t: Vec<char>| t@,
                ).push(old_cur));
                assert(cur@ + w@.skip(i as int + 1) =~= w@.skip(i as int + 1));
                assert(split_tokens(w@) =~= ts@.map_values(|t: Vec<char>| t@) + split_tokens(
                    cur@ + w@.skip(i as int + 1),
                ));
            }
        } else {
            let ghost old_cur = cur@;
            cur.push(c);
            proof {
                assert(cur@ + w@.skip(i as int + 1) =~= old_cur + w@.skip(i as int));
            }
        }
        i = i + 1;
    }
    proof {
        assert(cur@ + w@.skip(i as int) =~= cur@);
        lemma_split_nosep(cur@);
    }
    let ghost old_ts = ts@;
    let ghost old_cur = cur@;
    ts.push(cur);
    proof {
        assert(ts@.map_values(|t: Vec<char>| t@) =~= old_ts.map_values(|t: Vec<char>| t@).push(
            old_cur,
        ));
        assert(old_ts.map_values(|t: Vec<char>| t@) + seq![old_cur] =~= old_ts.map_values(
            |t: Vec<char>| t@,
        ).push(old_cur));
    }
    ts
}

// ---------------------------------------------------------------------------
// Executable token parsing
// ---------------------------------------------------------------------------

/// Parses one range token under the running chapter `ch`; `None` exactly
/// when the token is not one of the six well-formed shapes.
fn parse_token(t: &Vec<char>, ch: usize) -> (r: Option<(BookReferenceSegment, usize)>)
    ensures
        r is Some <==> wf_token(t@),
        r is Some ==> r->0 == token_parse(t@, ch),
{
    let n = t.len();
    let d = find_occ_in(t, '-', 0, n);
    proof {
        assert(t@.subrange(0, n as int) =~= t@);
    }
    if d == n {
        let c = find_occ_in(t, ':', 0, n);
        if c == n {
            proof {
                assert(t@.subrange(0, n as int) =~= t@);
            }
            match parse_usize(t, 0, n) {
                Some(v) => Some(
                    (
                        BookReferenceSegment::ChapterVerse(
                            ChapterVerse { chapter: ch, verse: v },
                        ),
                        ch,
                    ),
                ),
                None => None,
            }
        } else {
            proof {
                assert(t@.subrange(0, c as int) =~= t@.take(c as int));
                assert(t@.subrange(c as int + 1, n as int) =~= t@.skip(c as int + 1));
            }
            match (parse_usize(t, 0, c), parse_usize(t, c + 1, n)) {
                (Some(chv), Some(v)) => Some(
                    (
                        BookReferenceSegment::ChapterVerse(
                            ChapterVerse { chapter: chv, verse: v },
                        ),
                        chv,
                    ),
                ),
                _ => None,
            }
        }
    } else {
        // a range: the sides left and right of the first dash
        let ghost l = t@.take(d as int);
        let ghost r_side = t@.skip(d as int + 1);
        let lc = find_occ_in(t, ':', 0, d);
        let rc = find_occ_in(t, ':', d + 1, n);
        proof {
            assert(t@.subrange(0, d as int) =~= l);
            assert(t@.subrange(d as int + 1, n as int) =~= r_side);
            assert(first_occ(l, ':') == lc);
            assert(first_occ(r_side, ':') == rc - d - 1);
        }
        if lc < d && rc < n {
            // `ch1:v1 - ch2:v2`
            proof {
                assert(t@.subrange(0, lc as int) =~= l.take(lc as int));
                assert(t@.subrange(lc as int + 1, d as int) =~= l.skip(lc as int + 1));
                assert(t@.subrange(d as int + 1, rc as int) =~= r_side.take(rc - d - 1));
                assert(t@.subrange(rc as int + 1, n as int) =~= r_side.skip(rc - d));
                assert(r_side.skip((rc - d - 1) as int + 1) =~= r_side.skip(rc - d));
            }
            match (
                parse_usize(t, 0, lc),
                parse_usize(t, lc + 1, d),
                parse_usize(t, d + 1, rc),
                parse_usize(t, rc + 1, n),
            ) {
                (Some(ch1), Some(v1), Some(ch2), Some(v2)) => Some(
                    (
                        BookReferenceSegment::BookRange(
                            BookRange {
                                start_chapter: ch1,
                                end_chapter: ch2,
                                start_verse: v1,
                                end_verse: v2,
                            },
                        ),
                        ch2,
                    ),
                ),
                _ => None,
            }
        } else if lc < d {
            // `ch1:v1 - v2`
            proof {
                assert(t@.subrange(0, lc as int) =~= l.take(lc as int));
                assert(t@.subrange(lc as int + 1, d as int) =~= l.skip(lc as int + 1));
                assert(t@.subrange(d as int + 1, n as int) =~= r_side);
            }
            match (parse_usize(t, 0, lc), parse_usize(t, lc + 1, d), parse_usize(t, d + 1, n)) {
                (Some(ch1), Some(v1), Some(v2)) => Some(
                    (
                        BookReferenceSegment::ChapterRange(
                            ChapterRange { chapter: ch1, start_verse: v1, end_verse: v2 },
                        ),
                        ch1,
                    ),
                ),
                _ => None,
            }
        } else if rc < n {
            // `v1 - ch2:v2`
            proof {
                assert(t@.subrange(0, d as int) =~= l);
                assert(t@.subrange(d as int + 1, rc as int) =~= r_side.take(rc - d - 1));
                assert(t@.subrange(rc as int + 1, n as int) =~= r_side.skip(rc - d));
                assert(r_side.skip((rc - d - 1) as int + 1) =~= r_side.skip(rc - d));
            }
            match (parse_usize(t, 0, d), parse_usize(t, d + 1, rc), parse_usize(t, rc + 1, n)) {
                (Some(v1), Some(ch2), Some(v2)) => Some(
                    (
                        BookReferenceSegment::BookRange(
                            BookRange {
                                start_chapter: ch,
                                end_chapter: ch2,
                                start_verse: v1,
                                end_verse: v2,
                            },
                        ),
                        ch2,
                    ),
                ),
                _ => None,
            }
        } else {
            // `v1 - v2`
            proof {
                assert(t@.subrange(0, d as int) =~= l);
                assert(t@.subrange(d as int + 1, n as int) =~= r_side);
            }
            match (parse_usize(t, 0, d), parse_usize(t, d + 1, n)) {
                (Some(v1), Some(v2)) => Some(
                    (
                        BookReferenceSegment::ChapterRange(
                            ChapterRange { chapter: ch, start_verse: v1, end_verse: v2 },
                        ),
                        ch,
                    ),
                ),
                _ => None,
            }
        }
    }
}

// ---------------------------------------------------------------------------
// The public parser
// ---------------------------------------------------------------------------

/// Normalizes `segment_input` and parses its range tokens; `None` exactly
/// when some normalized token is not one of the six well-formed shapes.
pub fn try_parse_reference_segments(segment_input: &str) -> (r: Option<BookReferenceSegments>)
    ensures
        r is Some <==> parse_wf(segment_input@),
        r is Some ==> r->0@ == parse_segments_spec(segment_input@),
{
    let v = chars_of(segment_input);
    // en-dashes to hyphens; keep only digits and `,` `:` `;` `-`
    let mut w: Vec<char> = Vec::new();
    let mut i: usize = 0;
    while i < v.len()
        invariant
            i <= v@.len(),
            w@ == normalize_chars(v@.take(i as int)),
        decreases v@.len() - i,
    {
        let c0 = v[i];
        let c = if c0 == EN_DASH {
            '-'
        } else {
            c0
        };
        proof {
            assert(v@.take(i as int + 1).drop_last() =~= v@.take(i as int));
            assert(v@.take(i as int + 1).last() == v@[i as int]);
            assert(c == dash_fix(v@[i as int]));
        }
        if is_seg_char_exec(c) {
            w.push(c);
        }
        i = i + 1;
    }
    proof {
        assert(v@.take(v@.len() as int) =~= v@);
    }
    // drop trailing non-digits left behind by a dangling separator
    let mut n = w.len();
    proof {
        assert(w@.take(n as int) =~= w@);
    }
    while n > 0 && !is_digit_exec(w[n - 1])
        invariant
            n <= w@.len(),
            strip_trailing_non_digits(w@.take(n as int)) == strip_trailing_non_digits(w@),
        decreases n,
    {
        proof {
            assert(w@.take(n as int).drop_last() =~= w@.take(n as int - 1));
            assert(w@.take(n as int).last() == w@[n as int - 1]);
        }
        n = n - 1;
    }
    proof {
        if n == 0 {
            assert(w@.take(0) =~= Seq::<char>::empty());
            assert(strip_trailing_non_digits(w@) =~= w@.take(0));
        } else {
            assert(w@.take(n as int).last() == w@[n as int - 1]);
            assert(strip_trailing_non_digits(w@.take(n as int)) == w@.take(n as int));
        }
    }
    w.truncate(n);
    proof {
        assert(w@ == normalize(segment_input@));
    }
    // split on `,` and `;`, then parse each token under the running chapter
    let tokens = split_at_seps(&w);
    let ghost ts = tokens@.map_values(|t: Vec<char>| t@);
    proof {
        assert(ts == tokens_of(segment_input@));
    }
    let mut segs: Vec<BookReferenceSegment> = Vec::new();
    let mut chapter: usize = 1;
    let mut k: usize = 0;
    proof {
        assert(ts.skip(0) =~= ts);
    }
    while k < tokens.len()
        invariant
            k <= tokens@.len(),
            ts == tokens@.map_values(|t: Vec<char>| t@),
            ts == tokens_of(segment_input@),
            segs@ + parse_tokens(ts.skip(k as int), chapter) == parse_tokens(ts, 1),
            forall|j: int| 0 <= j < k ==> wf_token(#[trigger] ts[j]),
        decreases tokens@.len() - k,
    {
        proof {
            assert(ts[k as int] == tokens@[k as int]@);
        }
        match parse_token(&tokens[k], chapter) {
            Some((seg, ch2)) => {
                proof {
                    assert(ts.skip(k as int)[0] == ts[k as int]);
                    assert(ts.skip(k as int).drop_first() =~= ts.skip(k as int + 1));
                    assert(parse_tokens(ts.skip(k as int), chapter) == seq![seg] + parse_tokens(
                        ts.skip(k as int + 1),
                        ch2,
                    ));
                    assert(segs@.push(seg) + parse_tokens(ts.skip(k as int + 1), ch2) =~= segs@
                        + parse_tokens(ts.skip(k as int), chapter));
                }
                segs.push(seg);
                chapter = ch2;
            },
            None => {
                proof {
                    assert(!wf_token(tokens_of(segment_input@)[k as int]));
                }
                return None;
            },
        }
        k = k + 1;
    }
    proof {
        assert(ts.skip(ts.len() as int) =~= Seq::<Seq<char>>::empty());
        assert(segs@ + Seq::<BookReferenceSegment>::empty() =~= segs@);
    }
    Some(BookReferenceSegments(segs))
}

/// - Parses the `1:1-4,5-7,2:2-3:4,6` of `Ephesians 1:1-4,5-7,2:2-3:4,6`.
/// - Callers must have screened the text first: see [`parse_wf`].
pub fn parse_reference_segments(segment_input: &str) -> (r: BookReferenceSegments)
    requires
        parse_wf(segment_input@),
    ensures
        r@ == parse_segments_spec(segment_input@),
{
    try_parse_reference_segments(segment_input).unwrap()
}

impl BookReferenceSegments {
    pub fn new() -> (r: Self)
        ensures
            r@ == Seq::<BookReferenceSegment>::empty(),
    {
        BookReferenceSegments(Vec::new())
    }

    /// See [`parse_reference_segments`].
    pub fn parse(segment_input: &str) -> (r: Self)
        requires
            parse_wf(segment_input@),
        ensures
            r@ == parse_segments_spec(segment_input@),
    {
        parse_reference_segments(segment_input)
    }
}


// ---------------------------------------------------------------------------
// Rendering segments back into a label such as `1:1-4,5-7; 2:2-3:4,6`
// ---------------------------------------------------------------------------

/// The token text of one segment. The chapter is left out when the previous
/// segment ended in the same chapter (`prev`), mirroring how the parser's
/// running chapter lets humans abbreviate.
pub open spec fn seg_token_label(seg: BookReferenceSegment, prev: Option<usize>) -> Seq<char> {
    match seg {
        BookReferenceSegment::ChapterVerse(cv) => {
            if prev == Some(cv.chapter) {
                digits_of(cv.verse as int)
            } else {
                digits_of(cv.chapter as int) + seq![':'] + digits_of(cv.verse as int)
            }
        },
        BookReferenceSegment::ChapterRange(cr) => {
            if prev == Some(cr.chapter) {
                digits_of(cr.start_verse as int) + seq!['-'] + digits_of(cr.end_verse as int)
            } else {
                digits_of(cr.chapter as int) + seq![':'] + digits_of(cr.start_verse as int)
                    + seq!['-'] + digits_of(cr.end_verse as int)
            }
        },
        BookReferenceSegment::BookRange(br) => {
            if prev == Some(br.start_chapter) {
                digits_of(br.start_verse as int) + seq!['-'] + digits_of(br.end_chapter as int)
                    + seq![':'] + digits_of(br.end_verse as int)
            } else {
                digits_of(br.start_chapter as int) + seq![':'] + digits_of(br.start_verse as int)
                    + seq!['-'] + digits_of(br.end_chapter as int) + seq![':'] + digits_of(
                    br.end_verse as int,
                )
            }
        },
    }
}

/// `,` continues the chapter of the previous segment; `; ` starts a new one.
pub open spec fn sep_label(prev_end: usize, next_end: usize) -> Seq<char> {
    if prev_end == next_end {
        seq![',']
    } else {
        seq![';', ' ']
    }
}

/// The label of the remaining segments, given the ending chapter of the
/// segment already rendered (`None` at the very start).
pub open spec fn label_from(segs: Seq<BookReferenceSegment>, prev: Option<usize>) -> Seq<char>
    decreases segs.len(),
{
    if segs.len() == 0 {
        Seq::empty()
    } else {
        let seg = segs[0];
        let e = seg.spec_ending_chapter();
        let sep = match prev {
            Option::None => Seq::<char>::empty(),
            Option::Some(p) => sep_label(p, e),
        };
        sep + seg_token_label(seg, prev) + label_from(segs.drop_first(), Some(e))
    }
}

/// The label of a whole segment run.
pub open spec fn label_spec(segs: Seq<BookReferenceSegment>) -> Seq<char> {
    label_from(segs, Option::None)
}

impl BookReferenceSegments {
    /// Renders the run as it would be written after a book name.
    #[verifier::rlimit(60)]
    pub fn label(&self) -> (r: String)
        ensures
            r@ == label_spec(self@),
    {
        let mut out: Vec<char> = Vec::new();
        let mut prev: Option<usize> = None;
        let mut i: usize = 0;
        proof {
            assert(self@.skip(0) =~= self@);
        }
        while i < self.0.len()
            invariant
                i <= self@.len(),
                out@ + label_from(self@.skip(i as int), prev) == label_spec(self@),
                prev is Some <==> i > 0,
            decreases self@.len() - i,
        {
            let seg = self.0[i];
            let ending = seg.get_ending_chapter();
            let ghost sep_ghost: Seq<char> = match prev {
                Option::None => Seq::<char>::empty(),
                Option::Some(p) => sep_label(p, ending),
            };
            let ghost tok_ghost = seg_token_label(seg, prev);
            let ghost out0 = out@;
            if let Some(p) = prev {
                if p == ending {
                    out.push(',');
                } else {
                    out.push(';');
                    out.push(' ');
                }
            }
            proof {
                assert(out@ =~= out0 + sep_ghost);
            }
            let ghost out1 = out@;
            match seg {
                BookReferenceSegment::ChapterVerse(cv) => {
                    let elide = match prev {
                        Some(p) => p == cv.chapter,
                        None => false,
                    };
                    if elide {
                        push_digits(&mut out, cv.verse);
                    } else {
                        push_digits(&mut out, cv.chapter);
                        out.push(':');
                        push_digits(&mut out, cv.verse);
                    }
                },
                BookReferenceSegment::ChapterRange(cr) => {
                    let elide = match prev {
                        Some(p) => p == cr.chapter,
                        None => false,
                    };
                    if !elide {
                        push_digits(&mut out, cr.chapter);
                        out.push(':');
                    }
                    push_digits(&mut out, cr.start_verse);
                    out.push('-');
                    push_digits(&mut out, cr.end_verse);
                },
                BookReferenceSegment::BookRange(br) => {
                    let elide = match prev {
                        Some(p) => p == br.start_chapter,
                        None => false,
                    };
                    if !elide {
                        push_digits(&mut out, br.start_chapter);
                        out.push(':');
                    }
                    push_digits(&mut out, br.start_verse);
                    out.push('-');
                    push_digits(&mut out, br.end_chapter);
                    out.push(':');
                    push_digits(&mut out, br.end_verse);
                },
            }
            proof {
                assert(out@ =~= out1 + tok_ghost);
                assert(self@.skip(i as int)[0] == self@[i as int]);
                assert(self@.skip(i as int).drop_first() =~= self@.skip(i as int + 1));
                assert(label_from(self@.skip(i as int), prev) == sep_ghost + tok_ghost
                    + label_from(self@.skip(i as int + 1), Some(ending)));
                assert(out@ + label_from(self@.skip(i as int + 1), Some(ending)) =~= out0
                    + label_from(self@.skip(i as int), prev));
            }
            prev = Some(ending);
            i = i + 1;
        }
        proof {
            assert(self@.skip(self@.len() as int) =~= Seq::<BookReferenceSegment>::empty());
            assert(out@ + Seq::<char>::empty() =~= out@);
        }
        string_from_chars(&out)
    }
}


// ---------------------------------------------------------------------------
// The round-trip law: re-parsing a rendered label reproduces the segments
// ---------------------------------------------------------------------------

/// Characters that can appear inside a rendered token: segment characters
/// that survive normalization and never split a token.
pub open spec fn token_chars(s: Seq<char>) -> bool {
    forall|i: int|
        0 <= i < s.len() ==> is_seg_char(#[trigger] s[i]) && s[i] != EN_DASH && !is_sep(s[i])
}

pub proof fn lemma_digit_is_plain(c: char)
    requires
        is_digit(c),
    ensures
        is_seg_char(c),
        !is_sep(c),
        c != '-',
        c != ':',
        c != EN_DASH,
{
    assert(',' as u32 == 44);
    assert(';' as u32 == 59);
    assert('-' as u32 == 45);
    assert(':' as u32 == 58);
    assert(EN_DASH as u32 == 8211);
}

/// A pure digit block is plain token text holding neither dash nor colon.
pub proof fn lemma_digits_block(a: Seq<char>)
    requires
        all_digits(a),
    ensures
        token_chars(a),
        forall|i: int| 0 <= i < a.len() ==> #[trigger] a[i] != '-',
        forall|i: int| 0 <= i < a.len() ==> #[trigger] a[i] != ':',
    decreases a.len(),
{
    assert forall|i: int| 0 <= i < a.len() implies is_seg_char(#[trigger] a[i]) && a[i] != EN_DASH
        && !is_sep(a[i]) && a[i] != '-' && a[i] != ':' by {
        lemma_digit_is_plain(a[i]);
    }
}

pub proof fn lemma_token_chars_concat(a: Seq<char>, b: Seq<char>)
    requires
        token_chars(a),
        token_chars(b),
    ensures
        token_chars(a + b),
{
    assert forall|i: int| 0 <= i < (a + b).len() implies is_seg_char(#[trigger] (a + b)[i]) && (a
        + b)[i] != EN_DASH && !is_sep((a + b)[i]) by {
        if i < a.len() {
            assert((a + b)[i] == a[i]);
        } else {
            assert((a + b)[i] == b[i - a.len()]);
        }
    }
}

/// The rendered token of any segment: non-empty plain token text ending in
/// a digit.
pub proof fn lemma_token_label_chars(seg: BookReferenceSegment, prev: Option<usize>)
    ensures
        token_chars(seg_token_label(seg, prev)),
        seg_token_label(seg, prev).len() > 0,
        is_digit(seg_token_label(seg, prev).last()),
        sep_free(seg_token_label(seg, prev)),
{
    let tok = seg_token_label(seg, prev);
    assert(token_chars(seq![':'])) by {
        assert(seq![':'][0] == ':');
        assert(':' as u32 == 58);
        assert(EN_DASH as u32 == 8211);
    }
    assert(token_chars(seq!['-'])) by {
        assert(seq!['-'][0] == '-');
        assert('-' as u32 == 45);
        assert(EN_DASH as u32 == 8211);
    }
    match seg {
        BookReferenceSegment::ChapterVerse(cv) => {
            let a = digits_of(cv.chapter as int);
            let b = digits_of(cv.verse as int);
            crate::text::lemma_digits_of_val(cv.chapter as int);
            crate::text::lemma_digits_of_val(cv.verse as int);
            lemma_digits_block(a);
            lemma_digits_block(b);
            if prev == Some(cv.chapter) {
                assert(tok == b);
            } else {
                lemma_token_chars_concat(a, seq![':']);
                lemma_token_chars_concat(a + seq![':'], b);
                assert(tok == a + seq![':'] + b);
                assert(tok.last() == b.last());
            }
        },
        BookReferenceSegment::ChapterRange(cr) => {
            let a = digits_of(cr.chapter as int);
            let b = digits_of(cr.start_verse as int);
            let c = digits_of(cr.end_verse as int);
            crate::text::lemma_digits_of_val(cr.chapter as int);
            crate::text::lemma_digits_of_val(cr.start_verse as int);
            crate::text::lemma_digits_of_val(cr.end_verse as int);
            lemma_digits_block(a);
            lemma_digits_block(b);
            lemma_digits_block(c);
            if prev == Some(cr.chapter) {
                lemma_token_chars_concat(b, seq!['-']);
                lemma_token_chars_concat(b + seq!['-'], c);
                assert(tok == b + seq!['-'] + c);
                assert(tok.last() == c.last());
            } else {
                lemma_token_chars_concat(a, seq![':']);
                lemma_token_chars_concat(a + seq![':'], b);
                lemma_token_chars_concat(a + seq![':'] + b, seq!['-']);
                lemma_token_chars_concat(a + seq![':'] + b + seq!['-'], c);
                assert(tok == a + seq![':'] + b + seq!['-'] + c);
                assert(tok.last() == c.last());
            }
        },
        BookReferenceSegment::BookRange(br) => {
            let a = digits_of(br.start_chapter as int);
            let b = digits_of(br.start_verse as int);
            let c = digits_of(br.end_chapter as int);
            let d = digits_of(br.end_verse as int);
            crate::text::lemma_digits_of_val(br.start_chapter as int);
            crate::text::lemma_digits_of_val(br.start_verse as int);
            crate::text::lemma_digits_of_val(br.end_chapter as int);
            crate::text::lemma_digits_of_val(br.end_verse as int);
            lemma_digits_block(a);
            lemma_digits_block(b);
            lemma_digits_block(c);
            lemma_digits_block(d);
            if prev == Some(br.start_chapter) {
                lemma_token_chars_concat(b, seq!['-']);
                lemma_token_chars_concat(b + seq!['-'], c);
                lemma_token_chars_concat(b + seq!['-'] + c, seq![':']);
                lemma_token_chars_concat(b + seq!['-'] + c + seq![':'], d);
                assert(tok == b + seq!['-'] + c + seq![':'] + d);
                assert(tok.last() == d.last());
            } else {
                lemma_token_chars_concat(a, seq![':']);
                lemma_token_chars_concat(a + seq![':'], b);
                lemma_token_chars_concat(a + seq![':'] + b, seq!['-']);
                lemma_token_chars_concat(a + seq![':'] + b + seq!['-'], c);
                lemma_token_chars_concat(a + seq![':'] + b + seq!['-'] + c, seq![':']);
                lemma_token_chars_concat(a + seq![':'] + b + seq!['-'] + c + seq![':'], d);
                assert(tok == a + seq![':'] + b + seq!['-'] + c + seq![':'] + d);
                assert(tok.last() == d.last());
            }
        },
    }
    assert forall|i: int| 0 <= i < tok.len() implies !is_sep(#[trigger] tok[i]) by {}
}

#[verifier::rlimit(100)]
proof fn lemma_token_label_parse_cv(seg: BookReferenceSegment, prev: Option<usize>, ch: usize)
    requires
        prev is Some ==> ch == prev->0,
        seg is ChapterVerse,
    ensures
        wf_token(seg_token_label(seg, prev)),
        token_parse(seg_token_label(seg, prev), ch) == (seg, seg.spec_ending_chapter()),
{
    let tok = seg_token_label(seg, prev);
    let cv = seg->ChapterVerse_0;
    let a = digits_of(cv.chapter as int);
    let b = digits_of(cv.verse as int);
    crate::text::lemma_digits_of_val(cv.chapter as int);
    crate::text::lemma_digits_of_val(cv.verse as int);
    lemma_digits_block(a);
    lemma_digits_block(b);
    if prev == Some(cv.chapter) {
        assert(tok == b);
        lemma_first_occ_unique(tok, '-', tok.len() as int);
        lemma_first_occ_unique(tok, ':', tok.len() as int);
    } else {
        assert(tok == a + seq![':'] + b);
        lemma_first_occ_unique(tok, '-', tok.len() as int);
        lemma_first_occ_concat(a, seq![':'] + b, ':');
        assert((seq![':'] + b)[0] == ':');
        assert(first_occ(tok, ':') == a.len()) by {
            assert(a + seq![':'] + b =~= a + (seq![':'] + b));
        }
        assert(tok.take(a.len() as int) =~= a);
        assert(tok.skip(a.len() as int + 1) =~= b);
    }
}

#[verifier::rlimit(100)]
proof fn lemma_token_label_parse_cr(seg: BookReferenceSegment, prev: Option<usize>, ch: usize)
    requires
        prev is Some ==> ch == prev->0,
        seg is ChapterRange,
    ensures
        wf_token(seg_token_label(seg, prev)),
        token_parse(seg_token_label(seg, prev), ch) == (seg, seg.spec_ending_chapter()),
{
    let tok = seg_token_label(seg, prev);
    let cr = seg->ChapterRange_0;
    let a = digits_of(cr.chapter as int);
    let b = digits_of(cr.start_verse as int);
    let c = digits_of(cr.end_verse as int);
    crate::text::lemma_digits_of_val(cr.chapter as int);
    crate::text::lemma_digits_of_val(cr.start_verse as int);
    crate::text::lemma_digits_of_val(cr.end_verse as int);
    lemma_digits_block(a);
    lemma_digits_block(b);
    lemma_digits_block(c);
    if prev == Some(cr.chapter) {
        assert(tok == b + seq!['-'] + c);
        lemma_first_occ_concat(b, seq!['-'] + c, '-');
        assert((seq!['-'] + c)[0] == '-');
        assert(first_occ(tok, '-') == b.len()) by {
            assert(b + seq!['-'] + c =~= b + (seq!['-'] + c));
        }
        let l = tok.take(b.len() as int);
        let r = tok.skip(b.len() as int + 1);
        assert(l =~= b);
        assert(r =~= c);
        lemma_first_occ_unique(l, ':', l.len() as int);
        lemma_first_occ_unique(r, ':', r.len() as int);
    } else {
        assert(tok == a + seq![':'] + b + seq!['-'] + c);
        let lpart = a + seq![':'] + b;
        assert(forall|i: int| 0 <= i < lpart.len() ==> #[trigger] lpart[i] != '-') by {
            assert(forall|i: int|
                0 <= i < lpart.len() && i != a.len() ==> (#[trigger] lpart[i] == a[i]
                    || lpart[i] == b[i - a.len() - 1]));
            assert(lpart[a.len() as int] == ':');
            assert(':' as u32 == 58);
            assert('-' as u32 == 45);
        }
        lemma_first_occ_concat(lpart, seq!['-'] + c, '-');
        assert((seq!['-'] + c)[0] == '-');
        assert(first_occ(tok, '-') == lpart.len()) by {
            assert(a + seq![':'] + b + seq!['-'] + c =~= lpart + (seq!['-'] + c));
        }
        let l = tok.take(lpart.len() as int);
        let r = tok.skip(lpart.len() as int + 1);
        assert(l =~= lpart);
        assert(r =~= c);
        lemma_first_occ_concat(a, seq![':'] + b, ':');
        assert((seq![':'] + b)[0] == ':');
        assert(first_occ(l, ':') == a.len()) by {
            assert(lpart =~= a + (seq![':'] + b));
        }
        assert(l.take(a.len() as int) =~= a);
        assert(l.skip(a.len() as int + 1) =~= b);
        lemma_first_occ_unique(r, ':', r.len() as int);
    }
}

#[verifier::rlimit(100)]
proof fn lemma_token_label_parse_br(seg: BookReferenceSegment, prev: Option<usize>, ch: usize)
    requires
        prev is Some ==> ch == prev->0,
        seg is BookRange,
    ensures
        wf_token(seg_token_label(seg, prev)),
        token_parse(seg_token_label(seg, prev), ch) == (seg, seg.spec_ending_chapter()),
{
    let tok = seg_token_label(seg, prev);
    let br = seg->BookRange_0;
    let a = digits_of(br.start_chapter as int);
    let b = digits_of(br.start_verse as int);
    let c = digits_of(br.end_chapter as int);
    let d = digits_of(br.end_verse as int);
    crate::text::lemma_digits_of_val(br.start_chapter as int);
    crate::text::lemma_digits_of_val(br.start_verse as int);
    crate::text::lemma_digits_of_val(br.end_chapter as int);
    crate::text::lemma_digits_of_val(br.end_verse as int);
    lemma_digits_block(a);
    lemma_digits_block(b);
    lemma_digits_block(c);
    lemma_digits_block(d);
    let rpart = c + seq![':'] + d;
    assert(forall|i: int| 0 <= i < rpart.len() ==> #[trigger] rpart[i] != '-') by {
        assert(forall|i: int|
            0 <= i < rpart.len() && i != c.len() ==> (#[trigger] rpart[i] == c[i]
                || rpart[i] == d[i - c.len() - 1]));
        assert(rpart[c.len() as int] == ':');
        assert(':' as u32 == 58);
        assert('-' as u32 == 45);
    }
    if prev == Some(br.start_chapter) {
        assert(tok == b + seq!['-'] + c + seq![':'] + d);
        lemma_first_occ_concat(b, seq!['-'] + rpart, '-');
        assert((seq!['-'] + rpart)[0] == '-');
        assert(first_occ(tok, '-') == b.len()) by {
            assert(b + seq!['-'] + c + seq![':'] + d =~= b + (seq!['-'] + rpart));
        }
        let l = tok.take(b.len() as int);
        let r = tok.skip(b.len() as int + 1);
        assert(l =~= b);
        assert(r =~= rpart);
        lemma_first_occ_unique(l, ':', l.len() as int);
        lemma_first_occ_concat(c, seq![':'] + d, ':');
        assert((seq![':'] + d)[0] == ':');
        assert(first_occ(r, ':') == c.len()) by {
            assert(rpart =~= c + (seq![':'] + d));
        }
        assert(r.take(c.len() as int) =~= c);
        assert(r.skip(c.len() as int + 1) =~= d);
    } else {
        assert(tok == a + seq![':'] + b + seq!['-'] + c + seq![':'] + d);
        let lpart = a + seq![':'] + b;
        assert(forall|i: int| 0 <= i < lpart.len() ==> #[trigger] lpart[i] != '-') by {
            assert(forall|i: int|
                0 <= i < lpart.len() && i != a.len() ==> (#[trigger] lpart[i] == a[i]
                    || lpart[i] == b[i - a.len() - 1]));
            assert(lpart[a.len() as int] == ':');
            assert(':' as u32 == 58);
            assert('-' as u32 == 45);
        }
        lemma_first_occ_concat(lpart, seq!['-'] + rpart, '-');
        assert((seq!['-'] + rpart)[0] == '-');
        assert(first_occ(tok, '-') == lpart.len()) by {
            assert(a + seq![':'] + b + seq!['-'] + c + seq![':'] + d =~= lpart + (
            seq!['-'] + rpart));
        }
        let l = tok.take(lpart.len() as int);
        let r = tok.skip(lpart.len() as int + 1);
        assert(l =~= lpart);
        assert(r =~= rpart);
        lemma_first_occ_concat(a, seq![':'] + b, ':');
        assert((seq![':'] + b)[0] == ':');
        assert(first_occ(l, ':') == a.len()) by {
            assert(lpart =~= a + (seq![':'] + b));
        }
        assert(l.take(a.len() as int) =~= a);
        assert(l.skip(a.len() as int + 1) =~= b);
        lemma_first_occ_concat(c, seq![':'] + d, ':');
        assert((seq![':'] + d)[0] == ':');
        assert(first_occ(r, ':') == c.len()) by {
            assert(rpart =~= c + (seq![':'] + d));
        }
        assert(r.take(c.len() as int) =~= c);
        assert(r.skip(c.len() as int + 1) =~= d);
    }
}

/// Parsing the rendered token of `seg` under a faithful running chapter
/// gives back `seg`, and leaves the running chapter at its ending chapter.
pub proof fn lemma_token_label_parse(seg: BookReferenceSegment, prev: Option<usize>, ch: usize)
    requires
        prev is Some ==> ch == prev->0,
    ensures
        wf_token(seg_token_label(seg, prev)),
        token_parse(seg_token_label(seg, prev), ch) == (seg, seg.spec_ending_chapter()),
{
    match seg {
        BookReferenceSegment::ChapterVerse(_) => lemma_token_label_parse_cv(seg, prev, ch),
        BookReferenceSegment::ChapterRange(_) => lemma_token_label_parse_cr(seg, prev, ch),
        BookReferenceSegment::BookRange(_) => lemma_token_label_parse_br(seg, prev, ch),
    }
}

/// The label with separators reduced to their normalized single characters.
pub open spec fn clean_sep(prev_end: usize, next_end: usize) -> Seq<char> {
    if prev_end == next_end {
        seq![',']
    } else {
        seq![';']
    }
}

/// What normalization leaves of `label_from`: the same tokens, joined by
/// single separator characters.
pub open spec fn clean_from(segs: Seq<BookReferenceSegment>, prev: Option<usize>) -> Seq<char>
    decreases segs.len(),
{
    if segs.len() == 0 {
        Seq::empty()
    } else {
        let seg = segs[0];
        let e = seg.spec_ending_chapter();
        let sep = match prev {
            Option::None => Seq::<char>::empty(),
            Option::Some(p) => clean_sep(p, e),
        };
        sep + seg_token_label(seg, prev) + clean_from(segs.drop_first(), Some(e))
    }
}

/// The token list that the labels above tokenize into.
pub open spec fn tokens_from(segs: Seq<BookReferenceSegment>, prev: Option<usize>) -> Seq<
    Seq<char>,
>
    decreases segs.len(),
{
    if segs.len() == 0 {
        Seq::empty()
    } else {
        seq![seg_token_label(segs[0], prev)] + tokens_from(
            segs.drop_first(),
            Some(segs[0].spec_ending_chapter()),
        )
    }
}

/// Normalization turns a rendered label into its clean form.
pub proof fn lemma_label_clean(segs: Seq<BookReferenceSegment>, prev: Option<usize>)
    ensures
        normalize_chars(label_from(segs, prev)) == clean_from(segs, prev),
    decreases segs.len(),
{
    if segs.len() == 0 {
        assert(normalize_chars(Seq::empty()) =~= Seq::<char>::empty());
    } else {
        let seg = segs[0];
        let e = seg.spec_ending_chapter();
        let tok = seg_token_label(seg, prev);
        let rest = label_from(segs.drop_first(), Some(e));
        let sep: Seq<char> = match prev {
            Option::None => Seq::<char>::empty(),
            Option::Some(p) => sep_label(p, e),
        };
        let csep: Seq<char> = match prev {
            Option::None => Seq::<char>::empty(),
            Option::Some(p) => clean_sep(p, e),
        };
        lemma_label_clean(segs.drop_first(), Some(e));
        lemma_normalize_chars_concat(sep + tok, rest);
        lemma_normalize_chars_concat(sep, tok);
        assert(sep + tok + rest =~= (sep + tok) + rest);
        lemma_token_label_chars(seg, prev);
        lemma_normalize_chars_id(tok);
        assert(normalize_chars(sep) == csep) by {
            match prev {
                Option::None => {
                    assert(normalize_chars(Seq::<char>::empty()) =~= Seq::<char>::empty());
                },
                Option::Some(p) => {
                    assert(normalize_chars(Seq::<char>::empty()) =~= Seq::<char>::empty());
                    if p == e {
                        let s = seq![','];
                        assert(s.last() == ',');
                        assert(s.drop_last() =~= Seq::<char>::empty());
                        assert(is_seg_char(','));
                        assert(dash_fix(',') == ',') by {
                            assert(',' as u32 == 44);
                            assert(EN_DASH as u32 == 8211);
                        }
                        assert(normalize_chars(s) =~= seq![',']);
                    } else {
                        let s = seq![';', ' '];
                        assert(s.last() == ' ');
                        assert(!is_seg_char(' ')) by {
                            assert(' ' as u32 == 32);
                        }
                        assert(dash_fix(' ') == ' ') by {
                            assert(' ' as u32 == 32);
                            assert(EN_DASH as u32 == 8211);
                        }
                        assert(s.drop_last() =~= seq![';']);
                        let s1 = seq![';'];
                        assert(s1.last() == ';');
                        assert(s1.drop_last() =~= Seq::<char>::empty());
                        assert(is_seg_char(';'));
                        assert(dash_fix(';') == ';') by {
                            assert(';' as u32 == 59);
                            assert(EN_DASH as u32 == 8211);
                        }
                        assert(normalize_chars(s1) =~= seq![';']);
                        assert(normalize_chars(s) == normalize_chars(s1));
                    }
                },
            }
        }
        assert(normalize_chars(label_from(segs, prev)) =~= csep + tok + clean_from(
            segs.drop_first(),
            Some(e),
        ));
    }
}

/// A clean label is non-empty and ends in a digit, so the trailing-strip
/// pass of normalization leaves it alone.
pub proof fn lemma_clean_last_digit(segs: Seq<BookReferenceSegment>, prev: Option<usize>)
    requires
        segs.len() > 0,
    ensures
        clean_from(segs, prev).len() > 0,
        is_digit(clean_from(segs, prev).last()),
    decreases segs.len(),
{
    let seg = segs[0];
    let e = seg.spec_ending_chapter();
    let tok = seg_token_label(seg, prev);
    lemma_token_label_chars(seg, prev);
    let csep: Seq<char> = match prev {
        Option::None => Seq::<char>::empty(),
        Option::Some(p) => clean_sep(p, e),
    };
    if segs.len() == 1 {
        assert(segs.drop_first().len() == 0);
        assert(clean_from(segs.drop_first(), Some(e)) =~= Seq::<char>::empty());
        assert(clean_from(segs, prev) =~= csep + tok);
        assert((csep + tok).last() == tok.last());
    } else {
        lemma_clean_last_digit(segs.drop_first(), Some(e));
        let rest = clean_from(segs.drop_first(), Some(e));
        assert((csep + tok + rest).last() == rest.last());
    }
}

/// The clean label without its leading separator.
pub open spec fn clean_body(segs: Seq<BookReferenceSegment>, prev: Option<usize>) -> Seq<char> {
    if segs.len() == 0 {
        Seq::empty()
    } else {
        seg_token_label(segs[0], prev) + clean_from(
            segs.drop_first(),
            Some(segs[0].spec_ending_chapter()),
        )
    }
}

/// Tokenizing a clean label yields exactly the rendered tokens.
pub proof fn lemma_clean_split(segs: Seq<BookReferenceSegment>, prev: Option<usize>)
    requires
        segs.len() > 0,
    ensures
        split_tokens(clean_body(segs, prev)) == tokens_from(segs, prev),
    decreases segs.len(),
{
    let seg = segs[0];
    let e = seg.spec_ending_chapter();
    let tok = seg_token_label(seg, prev);
    lemma_token_label_chars(seg, prev);
    if segs.len() == 1 {
        assert(clean_body(segs, prev) =~= tok);
        lemma_split_nosep(tok);
        assert(tokens_from(segs.drop_first(), Some(e)) =~= Seq::<Seq<char>>::empty());
        assert(tokens_from(segs, prev) =~= seq![tok]);
    } else {
        let rest = segs.drop_first();
        let e1 = rest[0].spec_ending_chapter();
        let c = if e == e1 {
            ','
        } else {
            ';'
        };
        assert(clean_from(rest, Some(e)) == clean_sep(e, e1) + seg_token_label(rest[0], Some(e))
            + clean_from(rest.drop_first(), Some(e1)));
        assert(clean_sep(e, e1) =~= seq![c]);
        assert(clean_from(rest, Some(e)) =~= seq![c] + clean_body(rest, Some(e)));
        assert(clean_body(segs, prev) =~= tok + seq![c] + clean_body(rest, Some(e)));
        assert(is_sep(c));
        lemma_split_prepend(tok, c, clean_body(rest, Some(e)));
        lemma_clean_split(rest, Some(e));
        assert(split_tokens(clean_body(segs, prev)) =~= seq![tok] + tokens_from(rest, Some(e)));
        assert(tokens_from(segs, prev) =~= seq![tok] + tokens_from(rest, Some(e)));
    }
}

/// Parsing the rendered tokens under a faithful running chapter reproduces
/// the segments.
pub proof fn lemma_tokens_parse(segs: Seq<BookReferenceSegment>, prev: Option<usize>, ch: usize)
    requires
        prev is Some ==> ch == prev->0,
    ensures
        parse_tokens(tokens_from(segs, prev), ch) == segs,
        forall|i: int|
            0 <= i < tokens_from(segs, prev).len() ==> wf_token(
                #[trigger] tokens_from(segs, prev)[i],
            ),
    decreases segs.len(),
{
    if segs.len() == 0 {
        assert(parse_tokens(tokens_from(segs, prev), ch) =~= segs);
    } else {
        let seg = segs[0];
        let e = seg.spec_ending_chapter();
        let tok = seg_token_label(seg, prev);
        let ts = tokens_from(segs, prev);
        lemma_token_label_parse(seg, prev, ch);
        lemma_tokens_parse(segs.drop_first(), Some(e), e);
        assert(ts[0] == tok);
        assert(ts.drop_first() =~= tokens_from(segs.drop_first(), Some(e)));
        assert(parse_tokens(ts, ch) == seq![seg] + parse_tokens(ts.drop_first(), e));
        assert(seq![seg] + segs.drop_first() =~= segs);
        assert(forall|i: int| 0 <= i < ts.len() ==> wf_token(#[trigger] ts[i])) by {
            assert(forall|i: int|
                1 <= i < ts.len() ==> #[trigger] ts[i] == tokens_from(
                    segs.drop_first(),
                    Some(e),
                )[i - 1]);
        }
    }
}

/// The round-trip law. For any non-empty run of segments, the label rendered
/// by [`label_spec`] satisfies the parser's precondition, and parsing it
/// reproduces exactly the same ordered segments: the chapters that the label
/// leaves out under the elision rule are restored by the parser's running
/// chapter.
pub proof fn lemma_label_parse_round_trip(segs: Seq<BookReferenceSegment>)
    requires
        segs.len() > 0,
    ensures
        parse_wf(label_spec(segs)),
        parse_segments_spec(label_spec(segs)) == segs,
{
    let lab = label_spec(segs);
    lemma_label_clean(segs, Option::None);
    lemma_clean_last_digit(segs, Option::None);
    assert(normalize(lab) == clean_from(segs, Option::None));
    assert(clean_from(segs, Option::None) =~= clean_body(segs, Option::None));
    lemma_clean_split(segs, Option::None);
    assert(tokens_of(lab) == tokens_from(segs, Option::None));
    lemma_tokens_parse(segs, Option::None, 1);
}

} // verus!
