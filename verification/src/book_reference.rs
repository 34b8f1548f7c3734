//! A positioned reference: a book id, the span it was found at, and its
//! parsed segments, together with the renderings the editor features use.

use vstd::prelude::*;

use crate::bible_api::BibleAPI;
use crate::book_reference_segment::{
    label_spec, parse_segments_spec, parse_wf, BookReferenceSegment, BookReferenceSegments,
};
use crate::positions::TextRange;
use crate::text::{digits_of, extend_str, push_digits, string_from_chars};

verus! {

// ---------------------------------------------------------------------------
// Joining rendered pieces
// ---------------------------------------------------------------------------

/// `parts` joined by `sep`, as `join` does it.
pub open spec fn join_with(parts: Seq<Seq<char>>, sep: Seq<char>) -> Seq<char>
    decreases parts.len(),
{
    if parts.len() == 0 {
        Seq::empty()
    } else if parts.len() == 1 {
        parts[0]
    } else {
        join_with(parts.drop_last(), sep) + sep + parts.last()
    }
}

/// Joins rendered strings with a separator.
pub fn join_strings(parts: &Vec<String>, sep: &str) -> (r: String)
    ensures
        r@ == join_with(parts@.map_values(|s: String| s@), sep@),
{
    let ghost ps = parts@.map_values(|s: String| s@);
    let mut out: Vec<char> = Vec::new();
    let mut i: usize = 0;
    while i < parts.len()
        invariant
            i <= parts@.len(),
            ps == parts@.map_values(|s: String| s@),
            out@ == join_with(ps.take(i as int), sep@),
        decreases parts@.len() - i,
    {
        if i > 0 {
            extend_str(&mut out, sep);
        }
        extend_str(&mut out, parts[i].as_str());
        proof {
            assert(ps.take(i as int + 1).drop_last() =~= ps.take(i as int));
            assert(ps.take(i as int + 1).last() == ps[i as int]);
            if i == 0 {
                assert(out@ =~= join_with(ps.take(1), sep@));
            }
        }
        i = i + 1;
    }
    proof {
        assert(ps.take(ps.len() as int) =~= ps);
    }
    string_from_chars(&out)
}

// ---------------------------------------------------------------------------
// Leftmost, non-overlapping replacement
// ---------------------------------------------------------------------------

/// `s` with every leftmost, non-overlapping occurrence of `pat` replaced
/// by `rep` (for a non-empty `pat`).
pub open spec fn replace_all(s: Seq<char>, pat: Seq<char>, rep: Seq<char>) -> Seq<char>
    decreases s.len(),
{
    if pat.len() == 0 || s.len() < pat.len() {
        s
    } else if s.take(pat.len() as int) == pat {
        rep + replace_all(s.skip(pat.len() as int), pat, rep)
    } else {
        seq![s[0]] + replace_all(s.drop_first(), pat, rep)
    }
}

/// Does `v[i..]` start with `pat`?
fn starts_with_at(v: &Vec<char>, i: usize, pat: &Vec<char>) -> (r: bool)
    requires
        i <= v@.len(),
    ensures
        r == (v@.len() - i >= pat@.len() && v@.skip(i as int).take(pat@.len() as int) == pat@),
{
    let n = pat.len();
    if v.len() - i < n {
        proof {
            assert(v@.len() - i < pat@.len());
        }
        return false;
    }
    let mut j: usize = 0;
    while j < n
        invariant
            j <= n,
            n == pat@.len(),
            i + n <= v@.len(),
            v@.len() <= usize::MAX,
            forall|k: int| 0 <= k < j ==> v@[i + k] == pat@[k],
        decreases n - j,
    {
        if v[i + j] != pat[j] {
            proof {
                assert(v@.skip(i as int).take(pat@.len() as int)[j as int] != pat@[j as int]);
            }
            return false;
        }
        j = j + 1;
    }
    proof {
        assert(v@.skip(i as int).take(pat@.len() as int) =~= pat@);
    }
    true
}

/// Replaces every leftmost occurrence of `pat` in `v` by `rep`.
pub fn replace_chars(v: &Vec<char>, pat: &Vec<char>, rep: &Vec<char>) -> (r: Vec<char>)
    requires
        pat@.len() > 0,
    ensures
        r@ == replace_all(v@, pat@, rep@),
{
    let mut out: Vec<char> = Vec::new();
    let mut i: usize = 0;
    proof {
        assert(v@.skip(0) =~= v@);
        assert(out@ + replace_all(v@, pat@, rep@) =~= replace_all(v@, pat@, rep@));
    }
    while i < v.len()
        invariant
            i <= v@.len(),
            pat@.len() > 0,
            out@ + replace_all(v@.skip(i as int), pat@, rep@) == replace_all(v@, pat@, rep@),
        decreases v@.len() - i,
    {
        let ghost rest = v@.skip(i as int);
        if starts_with_at(v, i, pat) {
            let ghost out0 = out@;
            let mut k: usize = 0;
            while k < rep.len()
                invariant
                    k <= rep@.len(),
                    out@ == out0 + rep@.take(k as int),
                decreases rep@.len() - k,
            {
                out.push(rep[k]);
                proof {
                    assert(out@ =~= out0 + rep@.take(k as int + 1));
                }
                k = k + 1;
            }
            proof {
                assert(rep@.take(rep@.len() as int) =~= rep@);
                assert(rest.skip(pat@.len() as int) =~= v@.skip(i + pat@.len()));
                assert(out0 + rep@ + replace_all(v@.skip(i + pat@.len()), pat@, rep@) =~= out0
                    + replace_all(rest, pat@, rep@));
            }
            i = i + pat.len();
        } else {
            let ghost out0 = out@;
            out.push(v[i]);
            proof {
                if rest.len() >= pat@.len() {
                    assert(rest.take(pat@.len() as int) != pat@);
                }
                assert(rest.drop_first() =~= v@.skip(i as int + 1));
                assert(rest[0] == v@[i as int]);
                assert(replace_all(rest, pat@, rep@) == seq![v@[i as int]] + replace_all(
                    v@.skip(i as int + 1),
                    pat@,
                    rep@,
                ));
                assert(out@ + replace_all(v@.skip(i as int + 1), pat@, rep@) =~= out0
                    + replace_all(rest, pat@, rep@));
            }
            i = i + 1;
        }
    }
    proof {
        assert(v@.skip(v@.len() as int) =~= Seq::<char>::empty());
        assert(replace_all(Seq::<char>::empty(), pat@, rep@) =~= Seq::<char>::empty());
        assert(out@ + Seq::<char>::empty() =~= out@);
    }
    out
}

// ---------------------------------------------------------------------------
// Rendered verse entries
// ---------------------------------------------------------------------------

/// One rendered verse line: `[chapter:verse] text`.
pub open spec fn verse_entry(api: BibleAPI, book: usize, chapter: usize, verse: usize) -> Seq<
    char,
> {
    seq!['['] + digits_of(chapter as int) + seq![':'] + digits_of(verse as int) + seq![']', ' ']
        + api.spec_content(book, chapter, verse)
}

/// The rendered entries of the valid verses among `v..=ev` of one chapter.
pub open spec fn entry_verses_from(
    api: BibleAPI,
    book: usize,
    chapter: usize,
    v: int,
    ev: int,
) -> Seq<Seq<char>>
    decreases ev + 1 - v,
{
    if v > ev {
        Seq::empty()
    } else {
        let head: Seq<Seq<char>> = if 1 <= v <= usize::MAX && api.valid_reference(
            book,
            chapter,
            v as usize,
        ) {
            seq![verse_entry(api, book, chapter, v as usize)]
        } else {
            Seq::empty()
        };
        head + entry_verses_from(api, book, chapter, v + 1, ev)
    }
}

/// The rendered entries gathered chapter by chapter over `c..=ec`, each
/// chapter scanning the verse window `sv..=ev`.
pub open spec fn entry_chapters_from(
    api: BibleAPI,
    book: usize,
    c: int,
    ec: int,
    sv: int,
    ev: int,
) -> Seq<Seq<char>>
    decreases ec + 1 - c,
{
    if c > ec {
        Seq::empty()
    } else {
        let head: Seq<Seq<char>> = if 0 <= c <= usize::MAX {
            entry_verses_from(api, book, c as usize, sv, ev)
        } else {
            Seq::empty()
        };
        head + entry_chapters_from(api, book, c + 1, ec, sv, ev)
    }
}

/// One segment's rendered block: its valid verse entries joined by line
/// breaks.
pub open spec fn seg_content_spec(api: BibleAPI, book: usize, seg: BookReferenceSegment) -> Seq<
    char,
> {
    join_with(
        entry_chapters_from(
            api,
            book,
            seg.spec_starting_chapter() as int,
            seg.spec_ending_chapter() as int,
            seg.spec_starting_verse() as int,
            seg.spec_ending_verse() as int,
        ),
        seq!['\n'],
    )
}

/// The rendered content of a whole reference: one block per segment,
/// blocks separated by blank lines.
pub open spec fn content_spec(api: BibleAPI, book: usize, segs: Seq<BookReferenceSegment>) -> Seq<
    char,
> {
    join_with(Seq::new(segs.len(), |i: int| seg_content_spec(api, book, segs[i])), seq!['\n', '\n'])
}

/// The rendered entries of one segment, in order.
pub fn segment_entries(api: &BibleAPI, book_id: usize, seg: &BookReferenceSegment) -> (r: Vec<
    String,
>)
    requires
        api.wf(),
    ensures
        r@.map_values(|s: String| s@) == entry_chapters_from(
            *api,
            book_id,
            seg.spec_starting_chapter() as int,
            seg.spec_ending_chapter() as int,
            seg.spec_starting_verse() as int,
            seg.spec_ending_verse() as int,
        ),
{
    let start_chapter = seg.get_starting_chapter();
    let end_chapter = seg.get_ending_chapter();
    let start_verse = seg.get_starting_verse();
    let end_verse = seg.get_ending_verse();
    let ghost full = entry_chapters_from(
        *api,
        book_id,
        start_chapter as int,
        end_chapter as int,
        start_verse as int,
        end_verse as int,
    );
    let mut entries: Vec<String> = Vec::new();
    if start_chapter > end_chapter {
        return entries;
    }
    let mut chapter = start_chapter;
    loop
        invariant_except_break
            api.wf(),
            start_chapter <= chapter <= end_chapter,
            entries@.map_values(|s: String| s@) + entry_chapters_from(
                *api,
                book_id,
                chapter as int,
                end_chapter as int,
                start_verse as int,
                end_verse as int,
            ) == full,
        ensures
            entries@.map_values(|s: String| s@) == full,
        decreases end_chapter - chapter,
    {
        proof {
            assert(entry_chapters_from(
                *api,
                book_id,
                chapter as int,
                end_chapter as int,
                start_verse as int,
                end_verse as int,
            ) == entry_verses_from(*api, book_id, chapter, start_verse as int, end_verse as int)
                + entry_chapters_from(
                *api,
                book_id,
                chapter as int + 1,
                end_chapter as int,
                start_verse as int,
                end_verse as int,
            ));
        }
        let ghost chap_full = entry_verses_from(
            *api,
            book_id,
            chapter,
            start_verse as int,
            end_verse as int,
        );
        let ghost done_before = entries@.map_values(|s: String| s@);
        if start_verse <= end_verse {
            let mut verse = start_verse;
            loop
                invariant_except_break
                    api.wf(),
                    start_verse <= verse <= end_verse,
                    entries@.map_values(|s: String| s@) + entry_verses_from(
                        *api,
                        book_id,
                        chapter,
                        verse as int,
                        end_verse as int,
                    ) == done_before + chap_full,
                ensures
                    entries@.map_values(|s: String| s@) == done_before + chap_full,
                decreases end_verse - verse,
            {
                let ghost rest = entry_verses_from(
                    *api,
                    book_id,
                    chapter,
                    verse as int,
                    end_verse as int,
                );
                let ghost rest2 = entry_verses_from(
                    *api,
                    book_id,
                    chapter,
                    verse as int + 1,
                    end_verse as int,
                );
                let ghost pre = entries@.map_values(|s: String| s@);
                match api.get_bible_contents(book_id, chapter, verse) {
                    Some(content) => {
                        proof {
                            assert(rest == seq![verse_entry(*api, book_id, chapter, verse)]
                                + rest2);
                        }
                        let mut line: Vec<char> = Vec::new();
                        line.push('[');
                        push_digits(&mut line, chapter);
                        line.push(':');
                        push_digits(&mut line, verse);
                        line.push(']');
                        line.push(' ');
                        extend_str(&mut line, content.as_str());
                        proof {
                            assert(line@ =~= verse_entry(*api, book_id, chapter, verse));
                        }
                        entries.push(string_from_chars(&line));
                        proof {
                            assert(entries@.map_values(|s: String| s@) =~= pre.push(
                                verse_entry(*api, book_id, chapter, verse),
                            ));
                            assert(pre.push(verse_entry(*api, book_id, chapter, verse)) + rest2
                                =~= pre + rest);
                        }
                    },
                    None => {
                        proof {
                            assert(rest == rest2);
                        }
                    },
                }
                if verse == end_verse {
                    proof {
                        assert(rest2 =~= Seq::<Seq<char>>::empty());
                        assert(entries@.map_values(|s: String| s@) + rest2 =~= entries@
                            .map_values(|s: String| s@));
                    }
                    break;
                }
                verse = verse + 1;
            }
        } else {
            proof {
                assert(chap_full =~= Seq::<Seq<char>>::empty());
                assert(entries@.map_values(|s: String| s@) + chap_full =~= entries@.map_values(
                    |s: String| s@,
                ));
            }
        }
        if chapter == end_chapter {
            proof {
                assert(entry_chapters_from(
                    *api,
                    book_id,
                    chapter as int + 1,
                    end_chapter as int,
                    start_verse as int,
                    end_verse as int,
                ) =~= Seq::<Seq<char>>::empty());
                assert(entries@.map_values(|s: String| s@) + Seq::<Seq<char>>::empty() =~=
                entries@.map_values(|s: String| s@));
            }
            break;
        }
        chapter = chapter + 1;
    }
    entries
}

/// The rendered content of `segs`, one block per segment.
pub fn format_segments_content(api: &BibleAPI, book_id: usize, segs: &BookReferenceSegments) -> (r:
    String)
    requires
        api.wf(),
    ensures
        r@ == content_spec(*api, book_id, segs@),
{
    let ghost target = Seq::new(segs@.len(), |i: int| seg_content_spec(*api, book_id, segs@[i]));
    let mut parts: Vec<String> = Vec::new();
    let mut i: usize = 0;
    while i < segs.0.len()
        invariant
            api.wf(),
            i <= segs@.len(),
            target == Seq::new(
                segs@.len(),
                |j: int| seg_content_spec(*api, book_id, segs@[j]),
            ),
            parts@.len() == i,
            forall|j: int| 0 <= j < i ==> (#[trigger] parts@[j])@ == target[j],
        decreases segs@.len() - i,
    {
        let seg = segs.0[i];
        let entries = segment_entries(api, book_id, &seg);
        let block = join_strings(&entries, "\n");
        proof {
            reveal_strlit("\n");
            assert("\n"@ =~= seq!['\n']);
            assert(block@ == seg_content_spec(*api, book_id, segs@[i as int]));
        }
        parts.push(block);
        i = i + 1;
    }
    let r = join_strings(&parts, "\n\n");
    proof {
        reveal_strlit("\n\n");
        assert("\n\n"@ =~= seq!['\n', '\n']);
        assert(parts@.map_values(|s: String| s@) =~= target);
    }
    r
}

// ---------------------------------------------------------------------------
// The reference itself
// ---------------------------------------------------------------------------

#[derive(Debug)]
pub struct BookReference {
    pub range: TextRange,
    pub book_id: usize,
    pub segments: BookReferenceSegments,
}

/// The reference label: the book's display name, a space, and the
/// segments' own label.
pub open spec fn ref_label_spec(api: BibleAPI, book_id: usize, segs: Seq<BookReferenceSegment>) -> Seq<char> {
    api.book_id_to_name@[book_id - 1]@ + seq![' '] + label_spec(segs)
}

impl BookReference {
    /// This should only be called after finding a match in a range.
    pub fn new(book_id: usize, range: TextRange, segment_input: &str) -> (r: Self)
        requires
            parse_wf(segment_input@),
        ensures
            r.book_id == book_id,
            r.range == range,
            r.segments@ == parse_segments_spec(segment_input@),
    {
        let segments = BookReferenceSegments::parse(segment_input);
        BookReference { range, book_id, segments }
    }

    /// Formats into something like `Ephesians 1:1-4,5-7; 2:2-3:4,6`.
    pub fn full_ref_label(&self, api: &BibleAPI) -> (r: String)
        requires
            1 <= self.book_id <= api.book_id_to_name@.len(),
        ensures
            r@ == ref_label_spec(*api, self.book_id, self.segments@),
    {
        let name = api.get_book_name(self.book_id).unwrap();
        let label = self.segments.label();
        let mut out: Vec<char> = Vec::new();
        extend_str(&mut out, name.as_str());
        out.push(' ');
        extend_str(&mut out, label.as_str());
        proof {
            assert(out@ =~= ref_label_spec(*api, self.book_id, self.segments@));
        }
        string_from_chars(&out)
    }

    /// The verse blocks of the reference, one `[chapter:verse] text` line
    /// per valid verse, segments separated by blank lines.
    pub fn format_content(&self, api: &BibleAPI) -> (r: String)
        requires
            api.wf(),
        ensures
            r@ == content_spec(*api, self.book_id, self.segments@),
    {
        format_segments_content(api, self.book_id, &self.segments)
    }

    /// A hover body: heading, blank line, content.
    pub fn format(&self, api: &BibleAPI) -> (r: String)
        requires
            api.wf(),
            1 <= self.book_id <= api.book_id_to_name@.len(),
        ensures
            r@ == seq!['#', '#', '#', ' '] + ref_label_spec(*api, self.book_id, self.segments@)
                + seq!['\n', '\n'] + content_spec(*api, self.book_id, self.segments@),
    {
        let reference = self.full_ref_label(api);
        let content = self.format_content(api);
        let mut out: Vec<char> = Vec::new();
        out.push('#');
        out.push('#');
        out.push('#');
        out.push(' ');
        extend_str(&mut out, reference.as_str());
        out.push('\n');
        out.push('\n');
        extend_str(&mut out, content.as_str());
        proof {
            assert(out@ =~= seq!['#', '#', '#', ' '] + ref_label_spec(
                *api,
                self.book_id,
                self.segments@,
            ) + seq!['\n', '\n'] + content_spec(*api, self.book_id, self.segments@));
        }
        string_from_chars(&out)
    }

    /// The text a code action inserts on the following line.
    pub fn format_insert(&self, api: &BibleAPI) -> (r: String)
        requires
            api.wf(),
            1 <= self.book_id <= api.book_id_to_name@.len(),
        ensures
            r@ == seq!['\n'] + content_spec(*api, self.book_id, self.segments@),
    {
        let content = self.format_content(api);
        let mut out: Vec<char> = Vec::new();
        out.push('\n');
        extend_str(&mut out, content.as_str());
        proof {
            assert(out@ =~= seq!['\n'] + content_spec(*api, self.book_id, self.segments@));
        }
        string_from_chars(&out)
    }

    /// The one-line quotation a code action replaces the line with:
    /// `> content - label`, with the content's line breaks flattened.
    pub fn format_replace(&self, api: &BibleAPI) -> (r: String)
        requires
            api.wf(),
            1 <= self.book_id <= api.book_id_to_name@.len(),
        ensures
            r@ == seq!['>', ' '] + replace_all(
                replace_all(
                    content_spec(*api, self.book_id, self.segments@),
                    seq!['\n', '\n'],
                    seq!['\n'],
                ),
                seq!['\n'],
                seq![' '],
            ) + seq![' ', '-', ' '] + ref_label_spec(*api, self.book_id, self.segments@),
    {
        let reference = self.full_ref_label(api);
        let content = self.format_content(api);
        let content_chars = crate::text::chars_of(content.as_str());
        let mut pat1: Vec<char> = Vec::new();
        pat1.push('\n');
        pat1.push('\n');
        let mut rep1: Vec<char> = Vec::new();
        rep1.push('\n');
        let mut rep2: Vec<char> = Vec::new();
        rep2.push(' ');
        let flat1 = replace_chars(&content_chars, &pat1, &rep1);
        let flat2 = replace_chars(&flat1, &rep1, &rep2);
        proof {
            assert(pat1@ =~= seq!['\n', '\n']);
            assert(rep1@ =~= seq!['\n']);
            assert(rep2@ =~= seq![' ']);
        }
        let mut out: Vec<char> = Vec::new();
        out.push('>');
        out.push(' ');
        let ghost mid = out@ + flat2@;
        let mut k: usize = 0;
        while k < flat2.len()
            invariant
                k <= flat2@.len(),
                out@ == seq!['>', ' '] + flat2@.take(k as int),
            decreases flat2@.len() - k,
        {
            out.push(flat2[k]);
            proof {
                assert(out@ =~= seq!['>', ' '] + flat2@.take(k as int + 1));
            }
            k = k + 1;
        }
        out.push(' ');
        out.push('-');
        out.push(' ');
        extend_str(&mut out, reference.as_str());
        proof {
            assert(flat2@.take(flat2@.len() as int) =~= flat2@);
            assert(out@ =~= seq!['>', ' '] + flat2@ + seq![' ', '-', ' '] + ref_label_spec(
                *api,
                self.book_id,
                self.segments@,
            ));
        }
        string_from_chars(&out)
    }

    /// The first verse of the reference, for a diagnostic message; `None`
    /// when there are no segments or the first verse is out of range.
    pub fn format_diagnostic(&self, api: &BibleAPI) -> (r: Option<String>)
        requires
            api.wf(),
        ensures
            r is Some <==> self.segments@.len() > 0 && api.valid_reference(
                self.book_id,
                self.segments@[0].spec_starting_chapter(),
                self.segments@[0].spec_starting_verse(),
            ),
            r is Some ==> r->0@ == api.spec_content(
                self.book_id,
                self.segments@[0].spec_starting_chapter(),
                self.segments@[0].spec_starting_verse(),
            ),
    {
        if self.segments.0.len() == 0 {
            return None;
        }
        let first = &self.segments.0[0];
        api.get_bible_contents(
            self.book_id,
            first.get_starting_chapter(),
            first.get_starting_verse(),
        )
    }

    /// Bundles the reference with the corpus it resolves against.
    pub fn apid<'a>(self, api: &'a BibleAPI) -> (r: APIBookReference<'a>)
        ensures
            r.book_reference == self,
            r.api == api,
    {
        APIBookReference { api, book_reference: self }
    }
}

/// A reference together with the corpus it resolves against.
pub struct APIBookReference<'a> {
    pub api: &'a BibleAPI,
    pub book_reference: BookReference,
}

impl<'a> APIBookReference<'a> {
    /// Ex: `Ephesians 1:1-2; 2:3-3:4,6`
    pub fn full_ref_label(&self) -> (r: String)
        requires
            1 <= self.book_reference.book_id <= self.api.book_id_to_name@.len(),
        ensures
            r@ == ref_label_spec(
                *self.api,
                self.book_reference.book_id,
                self.book_reference.segments@,
            ),
    {
        self.book_reference.full_ref_label(self.api)
    }

    /// The `[chapter:verse] text` lines of the reference.
    pub fn format_content(&self) -> (r: String)
        requires
            self.api.wf(),
        ensures
            r@ == content_spec(
                *self.api,
                self.book_reference.book_id,
                self.book_reference.segments@,
            ),
    {
        self.book_reference.format_content(self.api)
    }

    /// provides markdown for LSP hover preview
    pub fn lsp_hover(&self) -> (r: String)
        requires
            self.api.wf(),
            1 <= self.book_reference.book_id <= self.api.book_id_to_name@.len(),
        ensures
            r@ == seq!['#', '#', '#', ' '] + ref_label_spec(
                *self.api,
                self.book_reference.book_id,
                self.book_reference.segments@,
            ) + seq!['\n', '\n'] + content_spec(
                *self.api,
                self.book_reference.book_id,
                self.book_reference.segments@,
            ),
    {
        self.book_reference.format(self.api)
    }

    /// provides text for LSP diagnostic
    pub fn lsp_diagnostic(&self) -> (r: Option<String>)
        requires
            self.api.wf(),
        ensures
            r is Some ==> r->0@ == self.api.spec_content(
                self.book_reference.book_id,
                self.book_reference.segments@[0].spec_starting_chapter(),
                self.book_reference.segments@[0].spec_starting_verse(),
            ),
    {
        self.book_reference.format_diagnostic(self.api)
    }
}

} // verus!
