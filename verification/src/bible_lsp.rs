//! The document scanner (book references with their positions) and the
//! autocompletion entry points.

use vstd::prelude::*;

use crate::autocompletion::{
    suggestions_match, AutocompleteState, AutocompletionEndingOperator, BibleCompletion,
};
use crate::bible_api::{abbrev_lookup, lower_seq, pairs_view, strip_dots, BibleAPI};
use crate::book_reference::BookReference;
use crate::book_reference_segment::{
    parse_segments_spec, parse_wf, try_parse_reference_segments, BookReferenceSegment, EN_DASH,
};
use crate::positions::{calculate_position, range_spec, strictly_sorted};
use crate::scan::{
    book_match_at, chapter_scan, find_all_book_matches, has_segment, has_segment_exec,
    incomplete_start, incomplete_start_exec, last_chapter_span, last_verse_span,
    lemma_short_key_match_bound, post_book_len, post_book_match_exec, scan_matches, seg_run_exec,
    seg_run_len, subvec, verse_scan,
};
use crate::text::{chars_of, digits_val, parse_usize, string_from_chars, wf_number};

verus! {

/// The language-server core: the corpus plus the scanning and completion
/// logic over it.
#[derive(Debug)]
pub struct BibleLSP {
    pub api: BibleAPI,
}

// ---------------------------------------------------------------------------
// Newline offsets
// ---------------------------------------------------------------------------

/// `s` with every carriage return removed, so that `\r\n` and `\n` count
/// the same.
pub open spec fn strip_cr(s: Seq<char>) -> Seq<char>
    decreases s.len(),
{
    if s.len() == 0 {
        Seq::empty()
    } else if s.last() == '\r' {
        strip_cr(s.drop_last())
    } else {
        strip_cr(s.drop_last()).push(s.last())
    }
}

/// The offsets of every `\n` in `s`.
pub open spec fn positions_of_nl(s: Seq<char>) -> Seq<usize>
    decreases s.len(),
{
    if s.len() == 0 {
        Seq::empty()
    } else if s.last() == '\n' && s.len() - 1 <= usize::MAX {
        positions_of_nl(s.drop_last()).push((s.len() - 1) as usize)
    } else {
        positions_of_nl(s.drop_last())
    }
}

/// Stripping carriage returns never lengthens the text.
pub proof fn lemma_strip_cr_len(s: Seq<char>)
    ensures
        strip_cr(s).len() <= s.len(),
    decreases s.len(),
{
    if s.len() > 0 {
        lemma_strip_cr_len(s.drop_last());
    }
}

/// The newline offsets are strictly increasing and lie inside the text.
pub proof fn lemma_positions_of_nl_sorted(s: Seq<char>)
    requires
        s.len() <= usize::MAX,
    ensures
        strictly_sorted(positions_of_nl(s)),
        forall|j: int|
            0 <= j < positions_of_nl(s).len() ==> #[trigger] positions_of_nl(s)[j] < s.len(),
    decreases s.len(),
{
    if s.len() > 0 {
        lemma_positions_of_nl_sorted(s.drop_last());
        let p = positions_of_nl(s);
        let q = positions_of_nl(s.drop_last());
        if s.last() == '\n' {
            assert(p == q.push((s.len() - 1) as usize));
            assert(forall|i: int, j: int|
                0 <= i < j < p.len() ==> p[i] < p[j]) by {
                assert(forall|j: int| 0 <= j < q.len() ==> #[trigger] q[j] < s.len() - 1);
                assert(forall|j: int| 0 <= j < p.len() - 1 ==> p[j] == q[j]);
            }
        }
    }
}

/// The newline offsets of the text, carriage returns stripped first.
pub fn newline_indexes_of_exec(v: &Vec<char>) -> (r: Vec<usize>)
    ensures
        r@ == positions_of_nl(strip_cr(v@)),
{
    let mut f: Vec<char> = Vec::new();
    let mut i: usize = 0;
    while i < v.len()
        invariant
            i <= v@.len(),
            f@ == strip_cr(v@.take(i as int)),
        decreases v@.len() - i,
    {
        let c = v[i];
        proof {
            assert(v@.take(i as int + 1).drop_last() =~= v@.take(i as int));
            assert(v@.take(i as int + 1).last() == v@[i as int]);
        }
        if c != '\r' {
            f.push(c);
        }
        i = i + 1;
    }
    proof {
        assert(v@.take(v@.len() as int) =~= v@);
    }
    let mut r: Vec<usize> = Vec::new();
    let mut j: usize = 0;
    while j < f.len()
        invariant
            j <= f@.len(),
            f@ == strip_cr(v@),
            r@ == positions_of_nl(f@.take(j as int)),
        decreases f@.len() - j,
    {
        proof {
            assert(f@.take(j as int + 1).drop_last() =~= f@.take(j as int));
            assert(f@.take(j as int + 1).last() == f@[j as int]);
        }
        if f[j] == '\n' {
            r.push(j);
        }
        j = j + 1;
    }
    proof {
        assert(f@.take(f@.len() as int) =~= f@);
    }
    r
}

// ---------------------------------------------------------------------------
// The scanner
// ---------------------------------------------------------------------------

/// What one found reference looks like, before positions are applied.
pub struct RefModel {
    pub book_id: usize,
    pub start: int,
    pub end: int,
    pub segments: Seq<BookReferenceSegment>,
}

/// Book-name matches are in order, at least one character long, inside the
/// text, and non-overlapping.
pub proof fn lemma_scan_matches_props(api: BibleAPI, text: Seq<char>, i: int)
    requires
        0 <= i,
    ensures
        forall|k: int|
            0 <= k < scan_matches(api, text, i).len() ==> {
                let m = #[trigger] scan_matches(api, text, i)[k];
                i <= m.0 && 1 <= m.1 && m.0 + m.1 <= text.len()
            },
        forall|k: int|
            0 <= k < scan_matches(api, text, i).len() - 1 ==> (#[trigger] scan_matches(
                api,
                text,
                i,
            )[k + 1]).0 >= scan_matches(api, text, i)[k].0 + scan_matches(api, text, i)[k].1,
    decreases text.len() - i,
{
    if 0 <= i < text.len() {
        let ms = scan_matches(api, text, i);
        match book_match_at(api, text, i) {
            Option::Some(l) => {
                lemma_short_key_match_bound(
                    pairs_view(api.abbreviations_to_book_id@),
                    text,
                    i,
                );
                assert(1 <= l && i + l <= text.len());
                lemma_scan_matches_props(api, text, i + l);
                let rest = scan_matches(api, text, i + l);
                assert(ms == seq![(i, l)] + rest);
                assert(forall|k: int| 1 <= k < ms.len() ==> ms[k] == rest[k - 1]);
                assert forall|k: int| 0 <= k < ms.len() implies {
                    let m = #[trigger] ms[k];
                    i <= m.0 && 1 <= m.1 && m.0 + m.1 <= text.len()
                } by {
                    if k > 0 {
                        assert(ms[k] == rest[k - 1]);
                        assert({
                            let m = rest[k - 1];
                            i + l <= m.0 && 1 <= m.1 && m.0 + m.1 <= text.len()
                        });
                    }
                }
                assert forall|k: int| 0 <= k < ms.len() - 1 implies (#[trigger] ms[k + 1]).0
                    >= ms[k].0 + ms[k].1 by {
                    if k == 0 {
                        assert(ms[1] == rest[0]);
                        assert({
                            let m = rest[0];
                            i + l <= m.0 && 1 <= m.1 && m.0 + m.1 <= text.len()
                        });
                    } else {
                        assert(ms[k] == rest[k - 1]);
                        assert(ms[k + 1] == rest[k]);
                        assert((rest[k - 1 + 1]).0 >= rest[k - 1].0 + rest[k - 1].1);
                    }
                }
            },
            Option::None => {
                lemma_scan_matches_props(api, text, i + 1);
                let rest = scan_matches(api, text, i + 1);
                assert(ms == rest);
            },
        }
    }
}

/// The references the matches from `k` on denote: each book-name match
/// whose following text opens with a complete, well-formed reference
/// segment, resolved to a book id.
pub open spec fn refs_from(
    api: BibleAPI,
    text: Seq<char>,
    ms: Seq<(int, int)>,
    k: int,
) -> Seq<RefModel>
    decreases ms.len() - k,
{
    if k < 0 || k >= ms.len() {
        Seq::empty()
    } else {
        let st = ms[k].0;
        let ln = ms[k].1;
        let nxt: int = if k + 1 < ms.len() {
            ms[k + 1].0
        } else {
            text.len() as int
        };
        let tail = text.subrange(st + ln, nxt);
        let rest = refs_from(api, text, ms, k + 1);
        match post_book_len(tail) {
            Option::Some(pl) => {
                let seg_text = tail.take(pl);
                let bid = abbrev_lookup(
                    pairs_view(api.abbreviations_to_book_id@),
                    strip_dots(lower_seq(text.subrange(st, st + ln))),
                );
                if bid is Some && parse_wf(seg_text) {
                    seq![
                        RefModel {
                            book_id: bid->0,
                            start: st,
                            end: st + ln + pl,
                            segments: parse_segments_spec(seg_text),
                        },
                    ] + rest
                } else {
                    rest
                }
            },
            Option::None => rest,
        }
    }
}

/// The references of the whole text.
pub open spec fn refs_spec(api: BibleAPI, text: Seq<char>) -> Seq<RefModel> {
    refs_from(api, text, scan_matches(api, text, 0), 0)
}

/// An exec reference agreeing with its model, its position computed over
/// the given newline offsets.
pub open spec fn ref_matches_model(br: BookReference, m: RefModel, nls: Seq<usize>) -> bool {
    &&& br.book_id == m.book_id
    &&& br.segments@ == m.segments
    &&& br.range == range_spec(nls, m.start, m.end)
}

impl BibleLSP {
    pub fn new(api: BibleAPI) -> (r: Self)
        ensures
            r.api == api,
    {
        BibleLSP { api }
    }

    /// Scans a document for book references: each book-name mention whose
    /// following text opens with a complete reference segment yields one
    /// positioned [`BookReference`]; a bare mention yields nothing.
    #[verifier::rlimit(60)]
    pub fn find_book_references(&self, input: &str) -> (r: Option<Vec<BookReference>>)
        requires
            self.api.wf(),
            input@.len() <= u32::MAX,
        ensures
            r is Some,
            ({
                let rs = refs_spec(self.api, input@);
                let nls = positions_of_nl(strip_cr(input@));
                &&& r->0@.len() == rs.len()
                &&& forall|j: int|
                    0 <= j < rs.len() ==> ref_matches_model(#[trigger] r->0@[j], rs[j], nls)
            }),
    {
        let v = chars_of(input);
        let newline_indexes = newline_indexes_of_exec(&v);
        let matches = find_all_book_matches(&self.api, &v);
        let ghost ms = scan_matches(self.api, input@, 0);
        let ghost nls = positions_of_nl(strip_cr(input@));
        let ghost full = refs_from(self.api, input@, ms, 0);
        proof {
            lemma_scan_matches_props(self.api, input@, 0);
            lemma_strip_cr_len(input@);
            lemma_positions_of_nl_sorted(strip_cr(input@));
            assert(forall|j: int| 0 <= j < nls.len() ==> #[trigger] nls[j] < strip_cr(
                input@,
            ).len());
        }
        let mut out: Vec<BookReference> = Vec::new();
        let mut k: usize = 0;
        while k < matches.len()
            invariant
                k <= matches@.len(),
                self.api.wf(),
                input@.len() <= u32::MAX,
                v@ == input@,
                ms == scan_matches(self.api, input@, 0),
                ms == matches@.map_values(|p: (usize, usize)| (p.0 as int, p.1 as int)),
                nls == positions_of_nl(strip_cr(input@)),
                newline_indexes@ == nls,
                strictly_sorted(nls),
                full == refs_from(self.api, input@, ms, 0),
                forall|j: int|
                    0 <= j < ms.len() ==> {
                        let m = #[trigger] ms[j];
                        0 <= m.0 && 1 <= m.1 && m.0 + m.1 <= input@.len()
                    },
                forall|j: int|
                    0 <= j < ms.len() - 1 ==> (#[trigger] ms[j + 1]).0 >= ms[j].0 + ms[j].1,
                out@.len() + refs_from(self.api, input@, ms, k as int).len() == full.len(),
                forall|j: int|
                    0 <= j < out@.len() ==> ref_matches_model(#[trigger] out@[j], full[j], nls),
                refs_from(self.api, input@, ms, k as int) =~= full.skip(out@.len() as int),
            decreases matches@.len() - k,
        {
            let ghost rest = refs_from(self.api, input@, ms, k as int);
            let ghost rest2 = refs_from(self.api, input@, ms, k as int + 1);
            let m = matches[k];
            let st = m.0;
            let ln = m.1;
            proof {
                assert(ms[k as int] == (st as int, ln as int));
            }
            let nxt: usize = if k + 1 < matches.len() {
                proof {
                    assert(ms[k as int + 1] == (
                        matches@[k as int + 1].0 as int,
                        matches@[k as int + 1].1 as int,
                    ));
                }
                matches[k + 1].0
            } else {
                v.len()
            };
            proof {
                assert(st + ln <= nxt <= input@.len());
            }
            let tailv = subvec(&v, st + ln, nxt);
            match post_book_match_exec(&tailv) {
                Some(pl) => {
                    let seg_sub = subvec(&tailv, 0, pl);
                    let seg_str = string_from_chars(&seg_sub);
                    let book_sub = subvec(&v, st, st + ln);
                    let book_str = string_from_chars(&book_sub);
                    proof {
                        assert(seg_str@ =~= input@.subrange(
                            st as int + ln as int,
                            nxt as int,
                        ).take(pl as int));
                        assert(book_str@ =~= input@.subrange(st as int, st as int + ln as int));
                    }
                    match self.api.get_book_id(book_str.as_str()) {
                        Some(book_id) => {
                            match try_parse_reference_segments(seg_str.as_str()) {
                                Some(segments) => {
                                    let end_index = st + ln + pl;
                                    let range = calculate_position(
                                        &newline_indexes,
                                        st,
                                        end_index,
                                    );
                                    let ghost out0 = out@;
                                    out.push(BookReference { range, book_id, segments });
                                    proof {
                                        let model = RefModel {
                                            book_id,
                                            start: st as int,
                                            end: st as int + ln as int + pl as int,
                                            segments: parse_segments_spec(seg_str@),
                                        };
                                        assert(rest =~= seq![model] + rest2);
                                        assert(full.skip(out0.len() as int) == rest);
                                        assert(full[out0.len() as int] == full.skip(
                                            out0.len() as int,
                                        )[0]);
                                        assert(full[out0.len() as int] == model);
                                        assert(ref_matches_model(
                                            out@[out0.len() as int],
                                            model,
                                            nls,
                                        ));
                                        assert(full.skip(out0.len() as int + 1) =~= full.skip(
                                            out0.len() as int,
                                        ).drop_first());
                                        assert(rest2 =~= full.skip(out@.len() as int));
                                    }
                                },
                                None => {
                                    proof {
                                        assert(rest =~= rest2);
                                    }
                                },
                            }
                        },
                        None => {
                            proof {
                                assert(rest =~= rest2);
                            }
                        },
                    }
                },
                None => {
                    proof {
                        assert(rest =~= rest2);
                    }
                },
            }
            k = k + 1;
        }
        proof {
            assert(refs_from(self.api, input@, ms, ms.len() as int) =~= Seq::<RefModel>::empty());
            assert(out@.len() == full.len());
        }
        Some(out)
    }
}


// ---------------------------------------------------------------------------
// Autocompletion state inference
// ---------------------------------------------------------------------------

/// The operator a trailing character stands for.
pub open spec fn operator_of(c: char) -> AutocompletionEndingOperator {
    if c == ':' {
        AutocompletionEndingOperator::Chapter
    } else if c == ',' || c == ';' {
        AutocompletionEndingOperator::Break
    } else if c == '-' || c == EN_DASH {
        AutocompletionEndingOperator::Through
    } else {
        AutocompletionEndingOperator::NoOperator
    }
}

/// The last character of `s` once trailing spaces are ignored.
pub open spec fn last_non_space(s: Seq<char>) -> Option<char>
    decreases s.len(),
{
    if s.len() == 0 {
        Option::None
    } else if s.last() == ' ' {
        last_non_space(s.drop_last())
    } else {
        Option::Some(s.last())
    }
}

/// The decision procedure for the completion state, over the text strictly
/// before the cursor:
/// 1. no book name anywhere, or one that cannot be resolved: books only;
/// 2. nothing after the book name, or just a space: chapters only;
/// 3. no run of segment characters right after the book name: chapters only;
/// 4. a run that is just `spaces digits [:] spaces`: a colon commits the
///    chapter (verses only); without one the chapter is still being typed
///    (chapters only);
/// 5. otherwise, with a complete well-formed `chapter:verse` in the run:
///    chapters-or-verses, carrying the parsed segments, the textually last
///    chapter and verse numbers, and the trailing operator;
/// 6. any remaining (malformed) run: chapters only, rather than failing.
pub open spec fn state_matches(api: BibleAPI, text: Seq<char>, st: AutocompleteState) -> bool {
    let ms = scan_matches(api, text, 0);
    if ms.len() == 0 {
        st is BooksOnly
    } else {
        let bm = ms.last();
        let tail = text.subrange(bm.0 + bm.1, text.len() as int);
        let bid = abbrev_lookup(
            pairs_view(api.abbreviations_to_book_id@),
            strip_dots(lower_seq(text.subrange(bm.0, bm.0 + bm.1))),
        );
        if bid is None {
            st is BooksOnly
        } else {
            let book_id = bid->0;
            if tail.len() == 0 {
                st == AutocompleteState::ChaptersOnly { book_id }
            } else if tail.len() == 1 && tail[0] == ' ' {
                st == AutocompleteState::ChaptersOnly { book_id }
            } else {
                match seg_run_len(tail) {
                    Option::None => st == AutocompleteState::ChaptersOnly { book_id },
                    Option::Some(rl) => {
                        let run = tail.take(rl);
                        match incomplete_start(run) {
                            Option::Some(t) => {
                                if t.2 && wf_number(run.subrange(t.0, t.1)) {
                                    st == AutocompleteState::VersesOnly {
                                        book_id,
                                        chapter: digits_val(run.subrange(t.0, t.1)) as usize,
                                    }
                                } else {
                                    st == AutocompleteState::ChaptersOnly { book_id }
                                }
                            },
                            Option::None => {
                                if !has_segment(run) || !parse_wf(run) {
                                    st == AutocompleteState::ChaptersOnly { book_id }
                                } else {
                                    let op = match last_non_space(run) {
                                        Option::Some(c) => operator_of(c),
                                        Option::None => AutocompletionEndingOperator::NoOperator,
                                    };
                                    let cs = chapter_scan(run, 0);
                                    let vs = verse_scan(run, 0);
                                    if cs.len() == 0 || vs.len() == 0 {
                                        st == AutocompleteState::ChaptersOnly { book_id }
                                    } else {
                                        let chd = run.subrange(cs.last().0, cs.last().1);
                                        let vsd = run.subrange(vs.last().0, vs.last().1);
                                        if !wf_number(chd) || !wf_number(vsd) {
                                            st == AutocompleteState::ChaptersOnly { book_id }
                                        } else {
                                            match st {
                                                AutocompleteState::ChaptersOrVerses {
                                                    book_id: b2,
                                                    chapter,
                                                    verse,
                                                    segments,
                                                    operator,
                                                } => {
                                                    &&& b2 == book_id
                                                    &&& chapter == digits_val(chd)
                                                    &&& verse == digits_val(vsd)
                                                    &&& segments@ == parse_segments_spec(run)
                                                    &&& operator == op
                                                },
                                                _ => false,
                                            }
                                        }
                                    }
                                }
                            },
                        }
                    },
                }
            }
        }
    }
}

/// Infers the completion state from the text before the cursor; see
/// [`state_matches`] for the decision procedure.
#[verifier::rlimit(60)]
pub fn parse_current_state(api: &BibleAPI, text_before_cursor: &str) -> (st: AutocompleteState)
    ensures
        state_matches(*api, text_before_cursor@, st),
{
    let v = chars_of(text_before_cursor);
    let text_len = v.len();
    let matches = find_all_book_matches(api, &v);
    let ghost ms = scan_matches(*api, text_before_cursor@, 0);
    if matches.len() == 0 {
        return AutocompleteState::BooksOnly;
    }
    proof {
        lemma_scan_matches_props(*api, text_before_cursor@, 0);
        assert(ms.last() == (
            matches@.last().0 as int,
            matches@.last().1 as int,
        ));
    }
    let bm = matches[matches.len() - 1];
    proof {
        assert(ms[ms.len() - 1] == (bm.0 as int, bm.1 as int));
        assert(bm.0 + bm.1 <= text_len);
    }
    let book_sub = subvec(&v, bm.0, bm.0 + bm.1);
    let book_str = string_from_chars(&book_sub);
    proof {
        assert(book_str@ =~= text_before_cursor@.subrange(
            bm.0 as int,
            bm.0 as int + bm.1 as int,
        ));
    }
    let book_id = match api.get_book_id(book_str.as_str()) {
        Some(b) => b,
        None => {
            return AutocompleteState::BooksOnly;
        },
    };
    let tailv = subvec(&v, bm.0 + bm.1, text_len);
    proof {
        assert(tailv@ =~= text_before_cursor@.subrange(
            bm.0 as int + bm.1 as int,
            text_before_cursor@.len() as int,
        ));
    }
    if tailv.len() == 0 {
        return AutocompleteState::ChaptersOnly { book_id };
    }
    // a single space after the book: the chapter is about to be typed
    if tailv.len() == 1 && tailv[0] == ' ' {
        return AutocompleteState::ChaptersOnly { book_id };
    }
    let rl = match seg_run_exec(&tailv) {
        Some(rl) => rl,
        None => {
            return AutocompleteState::ChaptersOnly { book_id };
        },
    };
    let runv = subvec(&tailv, 0, rl);
    proof {
        assert(runv@ =~= tailv@.take(rl as int));
    }
    // a bare `chapter` or `chapter:` still being typed
    match incomplete_start_exec(&runv) {
        Some(t) => {
            if t.2 {
                match parse_usize(&runv, t.0, t.1) {
                    Some(chapter) => {
                        return AutocompleteState::VersesOnly { book_id, chapter };
                    },
                    None => {
                        return AutocompleteState::ChaptersOnly { book_id };
                    },
                }
            }
            return AutocompleteState::ChaptersOnly { book_id };
        },
        None => {},
    }
    // parsing is only sound once a complete chapter:verse has been typed
    if !has_segment_exec(&runv) {
        return AutocompleteState::ChaptersOnly { book_id };
    }
    let run_str = string_from_chars(&runv);
    let segments = match try_parse_reference_segments(run_str.as_str()) {
        Some(sg) => sg,
        None => {
            return AutocompleteState::ChaptersOnly { book_id };
        },
    };
    // the trailing operator decides how the next number will join on
    let mut e: usize = runv.len();
    proof {
        assert(runv@.take(e as int) =~= runv@);
    }
    while e > 0 && runv[e - 1] == ' '
        invariant
            e <= runv@.len(),
            last_non_space(runv@) == last_non_space(runv@.take(e as int)),
        decreases e,
    {
        proof {
            assert(runv@.take(e as int).drop_last() =~= runv@.take(e as int - 1));
            assert(runv@.take(e as int).last() == runv@[e as int - 1]);
        }
        e = e - 1;
    }
    proof {
        assert(runv@.take(runv@.len() as int) =~= runv@);
        if e > 0 {
            assert(runv@.take(e as int).last() == runv@[e as int - 1]);
        }
    }
    let operator = if e == 0 {
        AutocompletionEndingOperator::NoOperator
    } else {
        let c = runv[e - 1];
        if c == ':' {
            AutocompletionEndingOperator::Chapter
        } else if c == ',' || c == ';' {
            AutocompletionEndingOperator::Break
        } else if c == '-' || c == EN_DASH {
            AutocompletionEndingOperator::Through
        } else {
            AutocompletionEndingOperator::NoOperator
        }
    };
    // the textually last chapter and verse numbers of the run
    let chapter = match last_chapter_span(&runv) {
        Some(c) => match parse_usize(&runv, c.0, c.1) {
            Some(n) => n,
            None => {
                return AutocompleteState::ChaptersOnly { book_id };
            },
        },
        None => {
            return AutocompleteState::ChaptersOnly { book_id };
        },
    };
    let verse = match last_verse_span(&runv) {
        Some(w) => match parse_usize(&runv, w.0, w.1) {
            Some(n) => n,
            None => {
                return AutocompleteState::ChaptersOnly { book_id };
            },
        },
        None => {
            return AutocompleteState::ChaptersOnly { book_id };
        },
    };
    AutocompleteState::ChaptersOrVerses { book_id, chapter, verse, segments, operator }
}

impl BibleLSP {
    /// The ordered completion candidates for the text before the cursor.
    pub fn suggest_auto_completion(&self, line: &str) -> (r: Vec<BibleCompletion>)
        ensures
            exists|st: AutocompleteState|
                #[trigger] state_matches(self.api, line@, st) && suggestions_match(
                    st,
                    self.api,
                    r@,
                ),
    {
        let state = parse_current_state(&self.api, line);
        let result = state.give_suggestions(&self.api);
        proof {
            assert(state_matches(self.api, line@, state) && suggestions_match(
                state,
                self.api,
                result@,
            ));
        }
        result
    }
}

} // verus!
