//! Character-level matchers shared by the document scanner and the
//! autocompletion engine: book-name matching over the corpus's abbreviation
//! table, and the segment-text patterns of the grammar.

use vstd::prelude::*;

use crate::bible_api::{lower_char, pairs_view, BibleAPI};
use crate::bible_api::to_lower_char;
use crate::book_reference_segment::EN_DASH;
use crate::text::{is_digit, is_digit_exec};

verus! {

// ---------------------------------------------------------------------------
// Book-name matching (case-insensitive whole words, optional trailing `.`)
// ---------------------------------------------------------------------------

/// ASCII word characters, for the word boundaries around a book name.
pub open spec fn is_word_char(c: char) -> bool {
    is_digit(c) || (97 <= c as u32 && c as u32 <= 122) || (65 <= c as u32 && c as u32 <= 90) || c
        == '_'
}

pub fn is_word_char_exec(c: char) -> (b: bool)
    ensures
        b == is_word_char(c),
{
    let u: u32 = c as u32;
    is_digit_exec(c) || (97 <= u && u <= 122) || (65 <= u && u <= 90) || c == '_'
}

/// `key` (a lowercased abbreviation) occurs at position `i` of `text`,
/// case-insensitively, ending at a word boundary.
pub open spec fn key_matches_at(text: Seq<char>, i: int, key: Seq<char>) -> bool {
    &&& key.len() > 0
    &&& 0 <= i
    &&& i + key.len() <= text.len()
    &&& forall|j: int| 0 <= j < key.len() ==> lower_char(text[i + j]) == key[j]
    &&& (i + key.len() == text.len() || !is_word_char(text[i + key.len()]))
}

/// A word boundary stands before position `i`.
pub open spec fn boundary_before(text: Seq<char>, i: int) -> bool {
    i == 0 || !is_word_char(text[i - 1])
}

/// The shortest table key matching at `i`. All keys matching at one spot
/// are prefixes of the text and so of one another; the alternation over the
/// sorted table settles on the shortest.
pub open spec fn short_key_match(
    pairs: Seq<(Seq<char>, usize)>,
    text: Seq<char>,
    i: int,
) -> Option<nat>
    decreases pairs.len(),
{
    if pairs.len() == 0 {
        Option::None
    } else {
        let rest = short_key_match(pairs.drop_last(), text, i);
        let cur: Option<nat> = if key_matches_at(text, i, pairs.last().0) {
            Option::Some(pairs.last().0.len())
        } else {
            Option::None
        };
        match (rest, cur) {
            (Option::None, c) => c,
            (r, Option::None) => r,
            (Option::Some(a), Option::Some(b)) => if b < a {
                Option::Some(b)
            } else {
                Option::Some(a)
            },
        }
    }
}

/// A successful key match never runs past the end of the text.
pub proof fn lemma_short_key_match_bound(pairs: Seq<(Seq<char>, usize)>, text: Seq<char>, i: int)
    ensures
        short_key_match(pairs, text, i) is Some ==> i + short_key_match(pairs, text, i)->0
            <= text.len() && 0 <= i && short_key_match(pairs, text, i)->0 > 0,
    decreases pairs.len(),
{
    if pairs.len() > 0 {
        lemma_short_key_match_bound(pairs.drop_last(), text, i);
    }
}

/// The length of the book-name match at position `i` (the optional trailing
/// period included), or `None`.
pub open spec fn book_match_at(api: BibleAPI, text: Seq<char>, i: int) -> Option<int> {
    if !boundary_before(text, i) {
        Option::None
    } else {
        match short_key_match(pairs_view(api.abbreviations_to_book_id@), text, i) {
            Option::None => Option::None,
            Option::Some(k) => Option::Some(
                k + if i + k < text.len() && text[i + k] == '.' {
                    1int
                } else {
                    0int
                },
            ),
        }
    }
}

/// All non-overlapping book-name matches of `text` from position `i` on,
/// leftmost first, each as `(start, length)`.
pub open spec fn scan_matches(api: BibleAPI, text: Seq<char>, i: int) -> Seq<(int, int)>
    decreases text.len() - i,
{
    if i < 0 || i >= text.len() {
        Seq::empty()
    } else {
        match book_match_at(api, text, i) {
            Option::Some(l) => {
                let step = if l < 1 {
                    1int
                } else if l > text.len() - i {
                    text.len() - i
                } else {
                    l
                };
                seq![(i, l)] + scan_matches(api, text, i + step)
            },
            Option::None => scan_matches(api, text, i + 1),
        }
    }
}

/// Does `key` match `text` at `i` as a whole lowercased word?
fn key_match_exec(text: &Vec<char>, i: usize, key: &Vec<char>) -> (r: bool)
    requires
        i <= text@.len(),
    ensures
        r == key_matches_at(text@, i as int, key@),
{
    let n = key.len();
    if n == 0 || n > text.len() - i {
        return false;
    }
    let mut j: usize = 0;
    while j < n
        invariant
            j <= n,
            n == key@.len(),
            i + n <= text@.len(),
            text@.len() <= usize::MAX,
            forall|k: int| 0 <= k < j ==> lower_char(text@[i + k]) == key@[k],
        decreases n - j,
    {
        if to_lower_char(text[i + j]) != key[j] {
            return false;
        }
        j = j + 1;
    }
    if i + n == text.len() {
        true
    } else {
        !is_word_char_exec(text[i + n])
    }
}

/// The book-name match at `i`, as [`book_match_at`] describes it.
pub fn book_match_at_exec(api: &BibleAPI, text: &Vec<char>, i: usize) -> (r: Option<usize>)
    requires
        i <= text@.len(),
    ensures
        match r {
            Option::Some(l) => book_match_at(*api, text@, i as int) == Option::Some(l as int),
            Option::None => book_match_at(*api, text@, i as int) is None,
        },
{
    if i > 0 && is_word_char_exec(text[i - 1]) {
        return None;
    }
    let ghost kpairs = pairs_view(api.abbreviations_to_book_id@);
    let mut best: Option<usize> = None;
    let mut k: usize = 0;
    while k < api.abbreviations_to_book_id.len()
        invariant
            k <= api.abbreviations_to_book_id@.len(),
            kpairs == pairs_view(api.abbreviations_to_book_id@),
            i <= text@.len(),
            match best {
                Option::Some(b) => short_key_match(kpairs.take(k as int), text@, i as int)
                    == Option::Some(b as nat),
                Option::None => short_key_match(kpairs.take(k as int), text@, i as int) is None,
            },
        decreases api.abbreviations_to_book_id@.len() - k,
    {
        let key = crate::text::chars_of(api.abbreviations_to_book_id[k].0.as_str());
        proof {
            assert(kpairs.take(k as int + 1).drop_last() =~= kpairs.take(k as int));
            assert(kpairs.take(k as int + 1).last() == kpairs[k as int]);
            assert(kpairs[k as int].0 == key@);
        }
        if key_match_exec(text, i, &key) {
            match best {
                Option::Some(b) => {
                    if key.len() < b {
                        best = Some(key.len());
                    }
                },
                Option::None => {
                    best = Some(key.len());
                },
            }
        }
        k = k + 1;
    }
    proof {
        assert(kpairs.take(kpairs.len() as int) =~= kpairs);
    }
    let tl = text.len();
    match best {
        Option::Some(b) => {
            proof {
                lemma_short_key_match_bound(kpairs, text@, i as int);
            }
            if i + b < tl && text[i + b] == '.' {
                Some(b + 1)
            } else {
                Some(b)
            }
        },
        Option::None => None,
    }
}

/// All book-name matches of the text, in document order.
pub fn find_all_book_matches(api: &BibleAPI, text: &Vec<char>) -> (r: Vec<(usize, usize)>)
    ensures
        r@.map_values(|p: (usize, usize)| (p.0 as int, p.1 as int)) == scan_matches(
            *api,
            text@,
            0,
        ),
{
    let mut r: Vec<(usize, usize)> = Vec::new();
    let mut i: usize = 0;
    while i < text.len()
        invariant
            i <= text@.len(),
            r@.map_values(|p: (usize, usize)| (p.0 as int, p.1 as int)) + scan_matches(
                *api,
                text@,
                i as int,
            ) == scan_matches(*api, text@, 0),
        decreases text@.len() - i,
    {
        let ghost before = r@.map_values(|p: (usize, usize)| (p.0 as int, p.1 as int));
        match book_match_at_exec(api, text, i) {
            Some(l) => {
                proof {
                    lemma_short_key_match_bound(
                        pairs_view(api.abbreviations_to_book_id@),
                        text@,
                        i as int,
                    );
                    assert(i + l <= text@.len());
                }
                r.push((i, l));
                proof {
                    assert(r@.map_values(|p: (usize, usize)| (p.0 as int, p.1 as int)) =~= before
                        .push((i as int, l as int)));
                    assert(before.push((i as int, l as int)) + scan_matches(
                        *api,
                        text@,
                        i as int + if l < 1 {
                            1int
                        } else if l as int > text@.len() - i {
                            text@.len() - i
                        } else {
                            l as int
                        },
                    ) =~= before + scan_matches(*api, text@, i as int));
                }
                let step = if l < 1 {
                    1
                } else {
                    l
                };
                i = i + step;
            },
            None => {
                i = i + 1;
            },
        }
    }
    proof {
        assert(scan_matches(*api, text@, i as int) =~= Seq::<(int, int)>::empty());
        assert(r@.map_values(|p: (usize, usize)| (p.0 as int, p.1 as int))
            + Seq::<(int, int)>::empty() =~= r@.map_values(
            |p: (usize, usize)| (p.0 as int, p.1 as int),
        ));
    }
    r
}


// ---------------------------------------------------------------------------
// Character runs
// ---------------------------------------------------------------------------

/// Length of the space run starting at `i`.
pub open spec fn spaces_from(s: Seq<char>, i: int) -> nat
    decreases s.len() - i,
{
    if i < 0 || i >= s.len() || s[i] != ' ' {
        0
    } else {
        1 + spaces_from(s, i + 1)
    }
}

/// Length of the digit run starting at `i`.
pub open spec fn digits_from(s: Seq<char>, i: int) -> nat
    decreases s.len() - i,
{
    if i < 0 || i >= s.len() || !is_digit(s[i]) {
        0
    } else {
        1 + digits_from(s, i + 1)
    }
}

pub proof fn lemma_spaces_from_bound(s: Seq<char>, i: int)
    requires
        0 <= i <= s.len(),
    ensures
        i + spaces_from(s, i) <= s.len(),
    decreases s.len() - i,
{
    if !(i >= s.len() || s[i] != ' ') {
        lemma_spaces_from_bound(s, i + 1);
    }
}

pub proof fn lemma_digits_from_bound(s: Seq<char>, i: int)
    requires
        0 <= i <= s.len(),
    ensures
        i + digits_from(s, i) <= s.len(),
    decreases s.len() - i,
{
    if !(i >= s.len() || !is_digit(s[i])) {
        lemma_digits_from_bound(s, i + 1);
    }
}

pub fn spaces_from_exec(v: &Vec<char>, i: usize) -> (r: usize)
    requires
        i <= v@.len(),
    ensures
        r == spaces_from(v@, i as int),
        i + r <= v@.len(),
{
    let mut j: usize = i;
    while j < v.len() && v[j] == ' '
        invariant
            i <= j <= v@.len(),
            spaces_from(v@, i as int) == (j - i) + spaces_from(v@, j as int),
        decreases v@.len() - j,
    {
        j = j + 1;
    }
    j - i
}

pub fn digits_from_exec(v: &Vec<char>, i: usize) -> (r: usize)
    requires
        i <= v@.len(),
    ensures
        r == digits_from(v@, i as int),
        i + r <= v@.len(),
{
    let mut j: usize = i;
    while j < v.len() && is_digit_exec(v[j])
        invariant
            i <= j <= v@.len(),
            digits_from(v@, i as int) == (j - i) + digits_from(v@, j as int),
        decreases v@.len() - j,
    {
        j = j + 1;
    }
    j - i
}

/// The copy of `v[from..to]`.
pub fn subvec(v: &Vec<char>, from: usize, to: usize) -> (r: Vec<char>)
    requires
        from <= to <= v@.len(),
    ensures
        r@ == v@.subrange(from as int, to as int),
{
    let mut r: Vec<char> = Vec::new();
    let mut i: usize = from;
    while i < to
        invariant
            from <= i <= to <= v@.len(),
            r@ == v@.subrange(from as int, i as int),
        decreases to - i,
    {
        r.push(v[i]);
        proof {
            assert(r@ =~= v@.subrange(from as int, i as int + 1));
        }
        i = i + 1;
    }
    r
}

// ---------------------------------------------------------------------------
// The anchored reference-segment pattern right after a book name:
// spaces, a complete `chapter:verse`, then any number of separator-joined
// numbers -- and nothing of the surrounding prose
// ---------------------------------------------------------------------------

/// The separators that may join further numbers onto a reference.
pub open spec fn is_group_sep(c: char) -> bool {
    c == ',' || c == ':' || c == ';' || c == '-' || c == EN_DASH
}

pub fn is_group_sep_exec(c: char) -> (b: bool)
    ensures
        b == is_group_sep(c),
{
    c == ',' || c == ':' || c == ';' || c == '-' || c == EN_DASH
}

/// Greedily extends a match ending at `i` with `spaces sep spaces digits`
/// groups; returns the final end.
pub open spec fn groups_len(s: Seq<char>, i: int) -> int
    decreases s.len() - i,
{
    if i < 0 || i >= s.len() {
        i
    } else {
        let sp = spaces_from(s, i);
        let j = i + sp;
        if j < s.len() && is_group_sep(s[j]) {
            let sp2 = spaces_from(s, j + 1);
            let d = digits_from(s, j + 1 + sp2);
            if d > 0 {
                let e = j + 1 + sp2 + d;
                let e2 = if e > s.len() {
                    s.len() as int
                } else {
                    e
                };
                groups_len(s, e2)
            } else {
                i
            }
        } else {
            i
        }
    }
}

/// The length of the reference-segment text anchored at the start of `s`
/// (the text right after a book name), or `None` when no complete
/// `chapter:verse` stands there.
pub open spec fn post_book_len(s: Seq<char>) -> Option<int> {
    let a = spaces_from(s, 0);
    let d1 = digits_from(s, a as int);
    if d1 == 0 {
        Option::None
    } else {
        let p = a + d1;
        if p >= s.len() || s[p as int] != ':' {
            Option::None
        } else {
            let d2 = digits_from(s, p as int + 1);
            if d2 == 0 {
                Option::None
            } else {
                Option::Some(groups_len(s, p as int + 1 + d2))
            }
        }
    }
}

/// The anchored match of [`post_book_len`], executed.
pub fn post_book_match_exec(v: &Vec<char>) -> (r: Option<usize>)
    ensures
        match r {
            Option::Some(l) => post_book_len(v@) == Option::Some(l as int) && l <= v@.len(),
            Option::None => post_book_len(v@) is None,
        },
{
    let n = v.len();
    let a = spaces_from_exec(v, 0);
    let d1 = digits_from_exec(v, a);
    if d1 == 0 {
        return None;
    }
    let p = a + d1;
    if p >= n || v[p] != ':' {
        return None;
    }
    let d2 = digits_from_exec(v, p + 1);
    if d2 == 0 {
        return None;
    }
    let mut end: usize = p + 1 + d2;
    let ghost start = end as int;
    let mut go = true;
    while go
        invariant
            end <= v@.len(),
            v@.len() <= usize::MAX,
            go ==> groups_len(v@, end as int) == groups_len(v@, start),
            !go ==> groups_len(v@, start) == end as int,
        decreases v@.len() - end + if go {
            1int
        } else {
            0int
        },
    {
        let sp = spaces_from_exec(v, end);
        let j = end + sp;
        if j < v.len() && is_group_sep_exec(v[j]) {
            let sp2 = spaces_from_exec(v, j + 1);
            let d = digits_from_exec(v, j + 1 + sp2);
            if d > 0 {
                proof {
                    assert(groups_len(v@, end as int) == groups_len(
                        v@,
                        j + 1 + sp2 + d,
                    ));
                }
                end = j + 1 + sp2 + d;
            } else {
                proof {
                    assert(groups_len(v@, end as int) == end as int);
                }
                go = false;
            }
        } else {
            proof {
                if end < v.len() {
                    assert(groups_len(v@, end as int) == end as int);
                }
            }
            go = false;
        }
    }
    Some(end)
}

// ---------------------------------------------------------------------------
// The run of segment characters at the start of the completion tail
// ---------------------------------------------------------------------------

/// The characters a partially typed reference may hold.
pub open spec fn is_seg_run_char(c: char) -> bool {
    c == ' ' || is_digit(c) || c == ',' || c == ':' || c == ';' || c == '-' || c == EN_DASH
}

pub fn is_seg_run_char_exec(c: char) -> (b: bool)
    ensures
        b == is_seg_run_char(c),
{
    c == ' ' || is_digit_exec(c) || c == ',' || c == ':' || c == ';' || c == '-' || c == EN_DASH
}

/// Length of the run of segment characters starting at `i`.
pub open spec fn seg_chars_from(s: Seq<char>, i: int) -> nat
    decreases s.len() - i,
{
    if i < 0 || i >= s.len() || !is_seg_run_char(s[i]) {
        0
    } else {
        1 + seg_chars_from(s, i + 1)
    }
}

/// The run of segment characters at the start of `s`, tolerant of one
/// leading period; `None` when the text starts with anything else.
pub open spec fn seg_run_len(s: Seq<char>) -> Option<int> {
    let st: int = if s.len() > 0 && s[0] == '.' {
        1
    } else {
        0
    };
    let r = seg_chars_from(s, st);
    if r == 0 {
        Option::None
    } else {
        Option::Some(st + r)
    }
}

pub fn seg_run_exec(v: &Vec<char>) -> (r: Option<usize>)
    ensures
        match r {
            Option::Some(l) => seg_run_len(v@) == Option::Some(l as int) && l <= v@.len(),
            Option::None => seg_run_len(v@) is None,
        },
{
    let st: usize = if v.len() > 0 && v[0] == '.' {
        1
    } else {
        0
    };
    let mut j: usize = st;
    while j < v.len() && is_seg_run_char_exec(v[j])
        invariant
            st <= j <= v@.len(),
            st <= v@.len(),
            seg_chars_from(v@, st as int) == (j - st) + seg_chars_from(v@, j as int),
        decreases v@.len() - j,
    {
        j = j + 1;
    }
    if j == st {
        None
    } else {
        Some(j)
    }
}

// ---------------------------------------------------------------------------
// The incomplete segment start: spaces, a digit run, an optional colon,
// spaces, and nothing else
// ---------------------------------------------------------------------------

/// `Some((digit start, digit end, colon seen))` when the whole of `s` is
/// `spaces digits [:] spaces`.
pub open spec fn incomplete_start(s: Seq<char>) -> Option<(int, int, bool)> {
    let a = spaces_from(s, 0);
    let d = digits_from(s, a as int);
    if d == 0 {
        Option::None
    } else {
        let p = a + d;
        let colon = p < s.len() && s[p as int] == ':';
        let p2: int = if colon {
            p as int + 1
        } else {
            p as int
        };
        let b = spaces_from(s, p2);
        if p2 + b == s.len() {
            Option::Some((a as int, p as int, colon))
        } else {
            Option::None
        }
    }
}

pub fn incomplete_start_exec(v: &Vec<char>) -> (r: Option<(usize, usize, bool)>)
    ensures
        match r {
            Option::Some(t) => incomplete_start(v@) == Option::Some(
                (t.0 as int, t.1 as int, t.2),
            ) && t.0 <= t.1 <= v@.len(),
            Option::None => incomplete_start(v@) is None,
        },
{
    let n = v.len();
    let a = spaces_from_exec(v, 0);
    let d = digits_from_exec(v, a);
    if d == 0 {
        return None;
    }
    let p = a + d;
    let colon = p < n && v[p] == ':';
    let p2: usize = if colon {
        p + 1
    } else {
        p
    };
    let b = spaces_from_exec(v, p2);
    if p2 + b == v.len() {
        Some((a, p, colon))
    } else {
        None
    }
}

// ---------------------------------------------------------------------------
// Last chapter-like and verse-like numbers of partially typed text
// ---------------------------------------------------------------------------

/// The digit spans that read as chapters: each maximal digit run followed
/// by `:` or the end of the text, leftmost first.
pub open spec fn chapter_scan(s: Seq<char>, i: int) -> Seq<(int, int)>
    decreases s.len() - i,
{
    if i < 0 || i >= s.len() {
        Seq::empty()
    } else if !is_digit(s[i]) {
        chapter_scan(s, i + 1)
    } else {
        let d = digits_from(s, i);
        let e = i + d;
        let e2: int = if e > s.len() {
            s.len() as int
        } else {
            e
        };
        if e2 >= s.len() {
            seq![(i, e2)]
        } else if s[e2] == ':' {
            seq![(i, e2)] + chapter_scan(s, e2 + 1)
        } else {
            chapter_scan(s, e2)
        }
    }
}

/// The digit spans that read as verses: each maximal digit run followed by
/// a non-colon or the end; a run before a colon contributes itself minus
/// its last digit when it has one to spare.
pub open spec fn verse_scan(s: Seq<char>, i: int) -> Seq<(int, int)>
    decreases s.len() - i,
{
    if i < 0 || i >= s.len() {
        Seq::empty()
    } else if !is_digit(s[i]) {
        verse_scan(s, i + 1)
    } else {
        let d = digits_from(s, i);
        let e = i + d;
        let e2: int = if e > s.len() {
            s.len() as int
        } else {
            e
        };
        if e2 >= s.len() {
            seq![(i, e2)]
        } else if s[e2] != ':' {
            seq![(i, e2)] + verse_scan(s, e2 + 1)
        } else if d >= 2 {
            seq![(i, e2 - 1)] + verse_scan(s, e2)
        } else {
            verse_scan(s, i + 1)
        }
    }
}

/// The last span of a scan, executed without storing the whole list.
pub fn last_chapter_span(v: &Vec<char>) -> (r: Option<(usize, usize)>)
    ensures
        match r {
            Option::Some(t) => chapter_scan(v@, 0).len() > 0 && chapter_scan(v@, 0).last() == (
                t.0 as int,
                t.1 as int,
            ) && t.0 <= t.1 <= v@.len(),
            Option::None => chapter_scan(v@, 0).len() == 0,
        },
{
    let mut last: Option<(usize, usize)> = None;
    let mut i: usize = 0;
    let ghost full = chapter_scan(v@, 0);
    while i < v.len()
        invariant
            i <= v@.len(),
            ({
                let done = full.take(full.len() - chapter_scan(v@, i as int).len());
                &&& full =~= done + chapter_scan(v@, i as int)
                &&& match last {
                    Option::Some(t) => done.len() > 0 && done.last() == (t.0 as int, t.1 as int)
                        && t.0 <= t.1 <= v@.len(),
                    Option::None => done.len() == 0,
                }
            }),
        decreases v@.len() - i,
    {
        let ghost rest = chapter_scan(v@, i as int);
        if !is_digit_exec(v[i]) {
            proof {
                assert(chapter_scan(v@, i as int) == chapter_scan(v@, i as int + 1));
            }
            i = i + 1;
        } else {
            let d = digits_from_exec(v, i);
            let e = i + d;
            if e >= v.len() {
                proof {
                    assert(rest =~= seq![(i as int, e as int)]);
                    assert((full.take(full.len() - rest.len()) + rest).last() == (
                        i as int,
                        e as int,
                    ));
                    assert(full.take(full.len() as int) =~= full);
                }
                last = Some((i, e));
                proof {
                    assert(chapter_scan(v@, v@.len() as int).len() == 0);
                    assert(full.take(full.len() - chapter_scan(v@, v@.len() as int).len()) =~=
                    full);
                }
                i = v.len();
            } else if v[e] == ':' {
                proof {
                    assert(rest =~= seq![(i as int, e as int)] + chapter_scan(v@, e as int + 1));
                    let done2 = full.take(full.len() - chapter_scan(v@, e as int + 1).len());
                    assert(done2 =~= full.take(full.len() - rest.len()).push((i as int, e as int)));
                    assert(done2.last() == (i as int, e as int));
                }
                last = Some((i, e));
                i = e + 1;
            } else {
                proof {
                    assert(rest == chapter_scan(v@, e as int));
                }
                i = e;
            }
        }
    }
    proof {
        assert(chapter_scan(v@, i as int).len() == 0);
        assert(full.take(full.len() as int) =~= full);
    }
    last
}

/// The last span of the verse scan.
pub fn last_verse_span(v: &Vec<char>) -> (r: Option<(usize, usize)>)
    ensures
        match r {
            Option::Some(t) => verse_scan(v@, 0).len() > 0 && verse_scan(v@, 0).last() == (
                t.0 as int,
                t.1 as int,
            ) && t.0 <= t.1 <= v@.len(),
            Option::None => verse_scan(v@, 0).len() == 0,
        },
{
    let mut last: Option<(usize, usize)> = None;
    let mut i: usize = 0;
    let ghost full = verse_scan(v@, 0);
    while i < v.len()
        invariant
            i <= v@.len(),
            ({
                let done = full.take(full.len() - verse_scan(v@, i as int).len());
                &&& full =~= done + verse_scan(v@, i as int)
                &&& match last {
                    Option::Some(t) => done.len() > 0 && done.last() == (t.0 as int, t.1 as int)
                        && t.0 <= t.1 <= v@.len(),
                    Option::None => done.len() == 0,
                }
            }),
        decreases v@.len() - i,
    {
        let ghost rest = verse_scan(v@, i as int);
        if !is_digit_exec(v[i]) {
            proof {
                assert(verse_scan(v@, i as int) == verse_scan(v@, i as int + 1));
            }
            i = i + 1;
        } else {
            let d = digits_from_exec(v, i);
            let e = i + d;
            if e >= v.len() {
                proof {
                    assert(rest =~= seq![(i as int, e as int)]);
                    assert((full.take(full.len() - rest.len()) + rest).last() == (
                        i as int,
                        e as int,
                    ));
                    assert(full.take(full.len() as int) =~= full);
                }
                last = Some((i, e));
                proof {
                    assert(verse_scan(v@, v@.len() as int).len() == 0);
                    assert(full.take(full.len() - verse_scan(v@, v@.len() as int).len()) =~= full);
                }
                i = v.len();
            } else if v[e] != ':' {
                proof {
                    assert(rest =~= seq![(i as int, e as int)] + verse_scan(v@, e as int + 1));
                    let done2 = full.take(full.len() - verse_scan(v@, e as int + 1).len());
                    assert(done2 =~= full.take(full.len() - rest.len()).push((i as int, e as int)));
                    assert(done2.last() == (i as int, e as int));
                }
                last = Some((i, e));
                i = e + 1;
            } else if d >= 2 {
                proof {
                    assert(rest =~= seq![(i as int, e as int - 1)] + verse_scan(v@, e as int));
                    let done2 = full.take(full.len() - verse_scan(v@, e as int).len());
                    assert(done2 =~= full.take(full.len() - rest.len()).push(
                        (i as int, e as int - 1),
                    ));
                    assert(done2.last() == (i as int, e as int - 1));
                }
                last = Some((i, e - 1));
                i = e;
            } else {
                proof {
                    assert(rest == verse_scan(v@, i as int + 1));
                }
                i = i + 1;
            }
        }
    }
    proof {
        assert(verse_scan(v@, i as int).len() == 0);
        assert(full.take(full.len() as int) =~= full);
    }
    last
}

// ---------------------------------------------------------------------------
// At least one complete `chapter:verse`, and the trailing incomplete piece
// ---------------------------------------------------------------------------

/// A complete `digit : digit` stands somewhere in `s`.
pub open spec fn has_segment(s: Seq<char>) -> bool {
    exists|i: int|
        0 <= i && i + 2 < s.len() && is_digit(#[trigger] s[i]) && s[i + 1] == ':' && is_digit(
            s[i + 2],
        )
}

pub fn has_segment_exec(v: &Vec<char>) -> (r: bool)
    ensures
        r == has_segment(v@),
{
    if v.len() < 3 {
        proof {
            assert(!has_segment(v@));
        }
        return false;
    }
    let mut i: usize = 0;
    while i < v.len() - 2
        invariant
            v@.len() >= 3,
            i <= v@.len() - 2,
            forall|j: int|
                0 <= j < i ==> !(is_digit(#[trigger] v@[j]) && v@[j + 1] == ':' && is_digit(
                    v@[j + 2],
                )),
        decreases v@.len() - i,
    {
        if is_digit_exec(v[i]) && v[i + 1] == ':' && is_digit_exec(v[i + 2]) {
            return true;
        }
        i = i + 1;
    }
    proof {
        assert(!has_segment(v@));
    }
    false
}

/// Digits immediately before position `e`.
pub open spec fn rev_digits(s: Seq<char>, e: int) -> nat
    decreases e,
{
    if e <= 0 || e > s.len() || !is_digit(s[e - 1]) {
        0
    } else {
        1 + rev_digits(s, e - 1)
    }
}

/// Where the text ends once a trailing `digits:` or `digits-` (an
/// incomplete segment still being typed) is removed.
pub open spec fn strip_incomplete_end(s: Seq<char>) -> int {
    if s.len() >= 2 && (s.last() == ':' || s.last() == '-' || s.last() == EN_DASH) && is_digit(
        s[s.len() - 2],
    ) {
        s.len() - 1 - rev_digits(s, s.len() - 1)
    } else {
        s.len() as int
    }
}

pub fn strip_incomplete_exec(v: &Vec<char>) -> (r: usize)
    ensures
        r == strip_incomplete_end(v@),
        r <= v@.len(),
{
    let n = v.len();
    if n >= 2 && (v[n - 1] == ':' || v[n - 1] == '-' || v[n - 1] == EN_DASH) && is_digit_exec(
        v[n - 2],
    ) {
        let mut e: usize = n - 1;
        while e > 0 && is_digit_exec(v[e - 1])
            invariant
                e <= n - 1,
                n == v@.len(),
                rev_digits(v@, n - 1) == (n - 1 - e) + rev_digits(v@, e as int),
            decreases e,
        {
            e = e - 1;
        }
        proof {
            assert(rev_digits(v@, e as int) == 0);
        }
        e
    } else {
        n
    }
}

} // verus!
