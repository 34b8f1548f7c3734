//! The immutable corpus: book-name lookup, per-book/per-chapter verse-count
//! bounds, and verse text, together with the validity queries everything
//! else leans on.

use vstd::prelude::*;

use crate::bible_json::{JSONBible, JSONBook, JSONTranslation};
use crate::text::{chars_of, string_from_chars};

verus! {

// ---------------------------------------------------------------------------
// ASCII lowercasing (book names and abbreviations are ASCII in practice;
// other characters pass through unchanged)
// ---------------------------------------------------------------------------

pub open spec fn lower_char(c: char) -> char {
    if c == 'A' {
        'a'
    } else if c == 'B' {
        'b'
    } else if c == 'C' {
        'c'
    } else if c == 'D' {
        'd'
    } else if c == 'E' {
        'e'
    } else if c == 'F' {
        'f'
    } else if c == 'G' {
        'g'
    } else if c == 'H' {
        'h'
    } else if c == 'I' {
        'i'
    } else if c == 'J' {
        'j'
    } else if c == 'K' {
        'k'
    } else if c == 'L' {
        'l'
    } else if c == 'M' {
        'm'
    } else if c == 'N' {
        'n'
    } else if c == 'O' {
        'o'
    } else if c == 'P' {
        'p'
    } else if c == 'Q' {
        'q'
    } else if c == 'R' {
        'r'
    } else if c == 'S' {
        's'
    } else if c == 'T' {
        't'
    } else if c == 'U' {
        'u'
    } else if c == 'V' {
        'v'
    } else if c == 'W' {
        'w'
    } else if c == 'X' {
        'x'
    } else if c == 'Y' {
        'y'
    } else if c == 'Z' {
        'z'
    } else {
        c
    }
}

pub open spec fn lower_seq(s: Seq<char>) -> Seq<char> {
    s.map_values(|c: char| lower_char(c))
}

pub fn to_lower_char(c: char) -> (r: char)
    ensures
        r == lower_char(c),
{
    match c {
        'A' => 'a',
        'B' => 'b',
        'C' => 'c',
        'D' => 'd',
        'E' => 'e',
        'F' => 'f',
        'G' => 'g',
        'H' => 'h',
        'I' => 'i',
        'J' => 'j',
        'K' => 'k',
        'L' => 'l',
        'M' => 'm',
        'N' => 'n',
        'O' => 'o',
        'P' => 'p',
        'Q' => 'q',
        'R' => 'r',
        'S' => 's',
        'T' => 't',
        'U' => 'u',
        'V' => 'v',
        'W' => 'w',
        'X' => 'x',
        'Y' => 'y',
        'Z' => 'z',
        _ => c,
    }
}

/// The characters of `s`, ASCII-lowercased.
pub fn to_lower_vec(s: &str) -> (v: Vec<char>)
    ensures
        v@ == lower_seq(s@),
{
    let cs = chars_of(s);
    let mut v: Vec<char> = Vec::new();
    let mut i: usize = 0;
    while i < cs.len()
        invariant
            i <= cs@.len(),
            cs@ == s@,
            v@ == lower_seq(s@.take(i as int)),
        decreases cs@.len() - i,
    {
        v.push(to_lower_char(cs[i]));
        proof {
            assert(v@ =~= lower_seq(s@.take(i as int + 1)));
        }
        i = i + 1;
    }
    proof {
        assert(s@.take(s@.len() as int) =~= s@);
    }
    v
}

/// Trailing periods removed, as `get_book_id` does before lookup.
pub open spec fn strip_dots(s: Seq<char>) -> Seq<char>
    decreases s.len(),
{
    if s.len() == 0 {
        s
    } else if s.last() == '.' {
        strip_dots(s.drop_last())
    } else {
        s
    }
}

// ---------------------------------------------------------------------------
// The abbreviation table
// ---------------------------------------------------------------------------

/// The (lowercased key, book id) pairs one book contributes: its display
/// name, then each of its abbreviations, in order.
pub open spec fn book_pairs(book: JSONBook) -> Seq<(Seq<char>, usize)> {
    seq![(lower_seq(book.book@), book.id)] + Seq::new(
        book.abbreviations@.len(),
        |j: int| (lower_seq(book.abbreviations@[j]@), book.id),
    )
}

/// The full table: every book's pairs, in book order.
pub open spec fn pairs_of(books: Seq<JSONBook>) -> Seq<(Seq<char>, usize)>
    decreases books.len(),
{
    if books.len() == 0 {
        Seq::empty()
    } else {
        pairs_of(books.drop_last()) + book_pairs(books.last())
    }
}

/// The id stored under `key`, taking the latest entry when a key repeats
/// (the original table was a map built by repeated insertion).
pub open spec fn abbrev_lookup(pairs: Seq<(Seq<char>, usize)>, key: Seq<char>) -> Option<usize>
    decreases pairs.len(),
{
    if pairs.len() == 0 {
        Option::None
    } else if pairs.last().0 == key {
        Option::Some(pairs.last().1)
    } else {
        abbrev_lookup(pairs.drop_last(), key)
    }
}

/// The view of the stored table.
pub open spec fn pairs_view(pairs: Seq<(String, usize)>) -> Seq<(Seq<char>, usize)> {
    pairs.map_values(|p: (String, usize)| (p.0@, p.1))
}

// ---------------------------------------------------------------------------
// The corpus
// ---------------------------------------------------------------------------

/// map of abbreviations and actual name (all lowercase) to book id
pub type AbbreviationsToBookId = Vec<(String, usize)>;

/// map of book id (1-based position) to book name
pub type BookIdToName = Vec<String>;

/// - 2D array to check if a verse reference is valid
///   - each outer entry corresponds to a book of the bible
///   - each inner entry is the number of verses in that chapter
pub type ReferenceArray = Vec<Vec<usize>>;

/// - 3D array holding the verse text by book, chapter and verse
pub type BibleContents = Vec<Vec<Vec<String>>>;

#[derive(Debug)]
pub struct BibleAPI {
    pub translation: JSONTranslation,
    /// map of abbreviations and actual name (all lowercase) to book id
    pub abbreviations_to_book_id: AbbreviationsToBookId,
    /// map of book id to book name
    pub book_id_to_name: BookIdToName,
    /// verse-count bounds per book and chapter
    pub reference_array: ReferenceArray,
    /// verse text per book, chapter and verse
    pub bible_contents: BibleContents,
}

impl BibleAPI {
    /// Number of books the corpus holds.
    pub open spec fn book_count(&self) -> int {
        self.book_id_to_name@.len() as int
    }

    /// The structural invariant: the three indexed structures mirror each
    /// other, and every abbreviation resolves to a real book.
    pub open spec fn wf(&self) -> bool {
        &&& self.reference_array@.len() == self.book_count()
        &&& self.bible_contents@.len() == self.book_count()
        &&& forall|b: int|
            0 <= b < self.book_count() ==> (#[trigger] self.bible_contents@[b])@.len() == (
            self.reference_array@[b])@.len()
        &&& forall|b: int, c: int|
            0 <= b < self.book_count() && 0 <= c < self.reference_array@[b]@.len() ==> (
            #[trigger] self.bible_contents@[b]@[c])@.len() == self.reference_array@[b]@[c]
        &&& forall|k: int|
            0 <= k < self.abbreviations_to_book_id@.len() ==> 1 <= (
            #[trigger] self.abbreviations_to_book_id@[k]).1 <= self.book_count()
        &&& forall|k: int|
            0 <= k < self.abbreviations_to_book_id@.len() ==> (
            #[trigger] self.abbreviations_to_book_id@[k]).0@.len() > 0
    }

    pub open spec fn valid_book(&self, book: usize) -> bool {
        1 <= book <= self.reference_array@.len()
    }

    pub open spec fn spec_chapter_count(&self, book: usize) -> usize {
        self.reference_array@[book - 1]@.len() as usize
    }

    pub open spec fn valid_book_chapter(&self, book: usize, chapter: usize) -> bool {
        self.valid_book(book) && 1 <= chapter <= self.spec_chapter_count(book)
    }

    pub open spec fn spec_verse_count(&self, book: usize, chapter: usize) -> usize {
        self.reference_array@[book - 1]@[chapter - 1]
    }

    pub open spec fn valid_reference(&self, book: usize, chapter: usize, verse: usize) -> bool {
        self.valid_book_chapter(book, chapter) && 1 <= verse <= self.spec_verse_count(
            book,
            chapter,
        )
    }

    /// The text of one verse (meaningful for valid references).
    pub open spec fn spec_content(&self, book: usize, chapter: usize, verse: usize) -> Seq<char> {
        self.bible_contents@[book - 1]@[chapter - 1]@[verse - 1]@
    }

    /// The texts of the valid verses among `v..=ev` of one chapter.
    pub open spec fn verses_from(&self, book: usize, chapter: usize, v: int, ev: int) -> Seq<
        Seq<char>,
    >
        decreases ev + 1 - v,
    {
        if v > ev {
            Seq::empty()
        } else {
            let head: Seq<Seq<char>> = if 1 <= v <= usize::MAX && self.valid_reference(
                book,
                chapter,
                v as usize,
            ) {
                seq![self.spec_content(book, chapter, v as usize)]
            } else {
                Seq::empty()
            };
            head + self.verses_from(book, chapter, v + 1, ev)
        }
    }

    /// The texts gathered chapter by chapter over `c..=ec`, each chapter
    /// scanning the same verse window `sv..=ev` (exactly as the original
    /// range walk did).
    pub open spec fn chapters_from(&self, book: usize, c: int, ec: int, sv: int, ev: int) -> Seq<
        Seq<char>,
    >
        decreases ec + 1 - c,
    {
        if c > ec {
            Seq::empty()
        } else {
            let head: Seq<Seq<char>> = if 0 <= c <= usize::MAX {
                self.verses_from(book, c as usize, sv, ev)
            } else {
                Seq::empty()
            };
            head + self.chapters_from(book, c + 1, ec, sv, ev)
        }
    }
}


/// Character-wise equality of two char vectors.
pub fn vec_chars_eq(a: &Vec<char>, b: &Vec<char>) -> (r: bool)
    ensures
        r <==> a@ == b@,
{
    if a.len() != b.len() {
        proof {
            assert(a@ !~= b@);
        }
        return false;
    }
    let mut i: usize = 0;
    while i < a.len()
        invariant
            i <= a@.len(),
            a@.len() == b@.len(),
            forall|j: int| 0 <= j < i ==> a@[j] == b@[j],
        decreases a@.len() - i,
    {
        if a[i] != b[i] {
            return false;
        }
        i = i + 1;
    }
    proof {
        assert(a@ =~= b@);
    }
    true
}

impl BibleAPI {
    pub fn is_valid_book_chapter(&self, book: usize, chapter: usize) -> (r: bool)
        ensures
            r == self.valid_book_chapter(book, chapter),
    {
        book >= 1 && book <= self.reference_array.len() && chapter >= 1 && chapter
            <= self.reference_array[book - 1].len()
    }

    pub fn is_valid_reference(&self, book: usize, chapter: usize, verse: usize) -> (r: bool)
        ensures
            r == self.valid_reference(book, chapter, verse),
    {
        book >= 1 && book <= self.reference_array.len() && chapter >= 1 && chapter
            <= self.reference_array[book - 1].len() && verse >= 1 && verse
            <= self.reference_array[book - 1][chapter - 1]
    }

    /// gets the number of chapters in a book
    pub fn get_book_chapter_count(&self, book: usize) -> (r: Option<usize>)
        ensures
            r is Some <==> self.valid_book(book),
            r is Some ==> r->0 == self.spec_chapter_count(book),
    {
        if book >= 1 && book <= self.reference_array.len() {
            Some(self.reference_array[book - 1].len())
        } else {
            None
        }
    }

    /// gets the number of verses in a chapter
    pub fn get_chapter_verse_count(&self, book: usize, chapter: usize) -> (r: Option<usize>)
        ensures
            r is Some <==> self.valid_book_chapter(book, chapter),
            r is Some ==> r->0 == self.spec_verse_count(book, chapter),
    {
        if self.is_valid_book_chapter(book, chapter) {
            Some(self.reference_array[book - 1][chapter - 1])
        } else {
            None
        }
    }

    /// All chapters of a book, as the inclusive bounds `(1, chapter count)`.
    pub fn get_all_chapters(&self, book: usize) -> (r: Option<(usize, usize)>)
        ensures
            r is Some <==> self.valid_book(book),
            r is Some ==> r->0 == (1usize, self.spec_chapter_count(book)),
    {
        self.get_remaining_chapters(book, 0)
    }

    /// The chapters after `chapter` (itself excluded), as inclusive bounds;
    /// empty when the lower bound exceeds the count.
    pub fn get_remaining_chapters(&self, book: usize, chapter: usize) -> (r: Option<
        (usize, usize),
    >)
        requires
            chapter < usize::MAX,
        ensures
            r is Some <==> self.valid_book(book),
            r is Some ==> (r->0).0 == chapter + 1 && (r->0).1 == self.spec_chapter_count(book),
    {
        match self.get_book_chapter_count(book) {
            Some(chapter_count) => Some((chapter + 1, chapter_count)),
            None => None,
        }
    }

    /// All verses of a chapter, as the inclusive bounds `(1, verse count)`.
    pub fn get_all_verses(&self, book: usize, chapter: usize) -> (r: Option<(usize, usize)>)
        ensures
            r is Some <==> self.valid_book_chapter(book, chapter),
            r is Some ==> r->0 == (1usize, self.spec_verse_count(book, chapter)),
    {
        self.get_remaining_verses(book, chapter, 0)
    }

    /// The verses after `verse` (itself excluded), as inclusive bounds;
    /// empty when the lower bound exceeds the count.
    pub fn get_remaining_verses(&self, book: usize, chapter: usize, verse: usize) -> (r: Option<
        (usize, usize),
    >)
        requires
            verse < usize::MAX,
        ensures
            r is Some <==> self.valid_book_chapter(book, chapter),
            r is Some ==> (r->0).0 == verse + 1 && (r->0).1 == self.spec_verse_count(book, chapter),
    {
        match self.get_chapter_verse_count(book, chapter) {
            Some(verse_count) => Some((verse + 1, verse_count)),
            None => None,
        }
    }

    /// The text of one verse; `None` exactly on out-of-range references.
    pub fn get_bible_contents(&self, book: usize, chapter: usize, verse: usize) -> (r: Option<
        String,
    >)
        requires
            self.wf(),
        ensures
            r is Some <==> self.valid_reference(book, chapter, verse),
            r is Some ==> r->0@ == self.spec_content(book, chapter, verse),
    {
        if self.is_valid_reference(book, chapter, verse) {
            Some(self.bible_contents[book - 1][chapter - 1][verse - 1].clone())
        } else {
            None
        }
    }

    /// The texts of every valid `(chapter, verse)` pair with
    /// `start_chapter <= chapter <= end_chapter` and
    /// `start_verse <= verse <= end_verse`, in chapter-then-verse order.
    pub fn get_bible_range_contents(
        &self,
        book_id: usize,
        start_chapter: usize,
        start_verse: usize,
        end_chapter: usize,
        end_verse: usize,
    ) -> (r: Vec<String>)
        requires
            self.wf(),
        ensures
            r@.map_values(|s: String| s@) == self.chapters_from(
                book_id,
                start_chapter as int,
                end_chapter as int,
                start_verse as int,
                end_verse as int,
            ),
    {
        let ghost full = self.chapters_from(
            book_id,
            start_chapter as int,
            end_chapter as int,
            start_verse as int,
            end_verse as int,
        );
        let mut contents: Vec<String> = Vec::new();
        if start_chapter > end_chapter {
            return contents;
        }
        let mut chapter = start_chapter;
        loop
            invariant_except_break
                self.wf(),
                start_chapter <= chapter <= end_chapter,
                contents@.map_values(|s: String| s@) + self.chapters_from(
                    book_id,
                    chapter as int,
                    end_chapter as int,
                    start_verse as int,
                    end_verse as int,
                ) == full,
            ensures
                contents@.map_values(|s: String| s@) == full,
            decreases end_chapter - chapter,
        {
            // gather the valid verses of this chapter
            proof {
                assert(self.chapters_from(
                    book_id,
                    chapter as int,
                    end_chapter as int,
                    start_verse as int,
                    end_verse as int,
                ) == self.verses_from(book_id, chapter, start_verse as int, end_verse as int)
                    + self.chapters_from(
                    book_id,
                    chapter as int + 1,
                    end_chapter as int,
                    start_verse as int,
                    end_verse as int,
                ));
            }
            let ghost chap_full = self.verses_from(
                book_id,
                chapter,
                start_verse as int,
                end_verse as int,
            );
            let ghost done_before = contents@.map_values(|s: String| s@);
            if start_verse <= end_verse {
                let mut verse = start_verse;
                loop
                    invariant_except_break
                        self.wf(),
                        start_verse <= verse <= end_verse,
                        contents@.map_values(|s: String| s@) + self.verses_from(
                            book_id,
                            chapter,
                            verse as int,
                            end_verse as int,
                        ) == done_before + chap_full,
                    ensures
                        contents@.map_values(|s: String| s@) == done_before + chap_full,
                    decreases end_verse - verse,
                {
                    let ghost rest = self.verses_from(
                        book_id,
                        chapter,
                        verse as int,
                        end_verse as int,
                    );
                    let ghost rest2 = self.verses_from(
                        book_id,
                        chapter,
                        verse as int + 1,
                        end_verse as int,
                    );
                    let ghost pre = contents@.map_values(|s: String| s@);
                    match self.get_bible_contents(book_id, chapter, verse) {
                        Some(content) => {
                            proof {
                                assert(rest == seq![self.spec_content(book_id, chapter, verse)]
                                    + rest2);
                            }
                            contents.push(content);
                            proof {
                                assert(contents@.map_values(|s: String| s@) =~= pre.push(
                                    self.spec_content(book_id, chapter, verse),
                                ));
                                assert(pre.push(self.spec_content(book_id, chapter, verse))
                                    + rest2 =~= pre + rest);
                            }
                        },
                        None => {
                            proof {
                                assert(rest == rest2);
                            }
                        },
                    }
                    if verse == end_verse {
                        proof {
                            assert(rest2 =~= Seq::<Seq<char>>::empty());
                            assert(contents@.map_values(|s: String| s@) + rest2 =~= contents@
                                .map_values(|s: String| s@));
                        }
                        break;
                    }
                    verse = verse + 1;
                }
            } else {
                proof {
                    assert(chap_full =~= Seq::<Seq<char>>::empty());
                    assert(contents@.map_values(|s: String| s@) =~= done_before + chap_full);
                }
            }
            if chapter == end_chapter {
                proof {
                    assert(self.chapters_from(
                        book_id,
                        chapter as int + 1,
                        end_chapter as int,
                        start_verse as int,
                        end_verse as int,
                    ) =~= Seq::<Seq<char>>::empty());
                    assert(contents@.map_values(|s: String| s@) + Seq::<Seq<char>>::empty() =~=
                    contents@.map_values(|s: String| s@));
                }
                break;
            }
            chapter = chapter + 1;
        }
        contents
    }

    /// Looks an abbreviation or name up case-insensitively, with trailing
    /// periods stripped; on repeated keys the latest entry wins.
    pub fn get_book_id(&self, book: &str) -> (r: Option<usize>)
        ensures
            r == abbrev_lookup(
                pairs_view(self.abbreviations_to_book_id@),
                strip_dots(lower_seq(book@)),
            ),
            r is Some && self.wf() ==> self.valid_book(r->0),
    {
        let mut key = to_lower_vec(book);
        while key.len() > 0 && key[key.len() - 1] == '.'
            invariant
                strip_dots(key@) == strip_dots(lower_seq(book@)),
            decreases key@.len(),
        {
            key.pop();
        }
        proof {
            assert(strip_dots(key@) == key@);
        }
        let ghost kpairs = pairs_view(self.abbreviations_to_book_id@);
        let mut i: usize = self.abbreviations_to_book_id.len();
        proof {
            assert(kpairs.take(i as int) =~= kpairs);
        }
        while i > 0
            invariant
                i <= self.abbreviations_to_book_id@.len(),
                kpairs == pairs_view(self.abbreviations_to_book_id@),
                strip_dots(lower_seq(book@)) == key@,
                abbrev_lookup(kpairs, key@) == abbrev_lookup(kpairs.take(i as int), key@),
            decreases i,
        {
            let p = &self.abbreviations_to_book_id[i - 1];
            let pkey = chars_of(p.0.as_str());
            proof {
                assert(kpairs.take(i as int).last() == kpairs[i as int - 1]);
                assert(kpairs[i as int - 1].0 == pkey@);
                assert(kpairs.take(i as int).drop_last() =~= kpairs.take(i as int - 1));
            }
            if vec_chars_eq(&pkey, &key) {
                return Some(p.1);
            }
            i = i - 1;
        }
        proof {
            assert(kpairs.take(0) =~= Seq::<(Seq<char>, usize)>::empty());
        }
        None
    }

    /// The display name of a book id; `None` when the id is out of range.
    pub fn get_book_name(&self, book: usize) -> (r: Option<String>)
        ensures
            r is Some <==> 1 <= book <= self.book_id_to_name@.len(),
            r is Some ==> r->0@ == self.book_id_to_name@[book - 1]@,
    {
        if book >= 1 && book <= self.book_id_to_name.len() {
            Some(self.book_id_to_name[book - 1].clone())
        } else {
            None
        }
    }
}


/// What the loader must guarantee of its data: ids are the 1-based
/// positions, and no name or abbreviation is empty. A dataset that breaks
/// this is malformed and is rejected before the corpus is built.
pub open spec fn wf_bible(bible: JSONBible) -> bool {
    &&& forall|i: int|
        0 <= i < bible.bible@.len() ==> (#[trigger] bible.bible@[i]).id == i + 1
    &&& forall|i: int| 0 <= i < bible.bible@.len() ==> (#[trigger] bible.bible@[i]).book@.len() > 0
    &&& forall|i: int, j: int|
        0 <= i < bible.bible@.len() && 0 <= j < bible.bible@[i].abbreviations@.len() ==> (
        #[trigger] bible.bible@[i].abbreviations@[j])@.len() > 0
}

/// Every pair of the abbreviation table points at a real book and has a
/// non-empty key.
proof fn lemma_pairs_of_range(books: Seq<JSONBook>, n: int)
    requires
        forall|i: int| 0 <= i < books.len() ==> 1 <= (#[trigger] books[i]).id <= n,
        forall|i: int| 0 <= i < books.len() ==> (#[trigger] books[i]).book@.len() > 0,
        forall|i: int, j: int|
            0 <= i < books.len() && 0 <= j < books[i].abbreviations@.len() ==> (
            #[trigger] books[i].abbreviations@[j])@.len() > 0,
    ensures
        forall|k: int|
            0 <= k < pairs_of(books).len() ==> 1 <= (#[trigger] pairs_of(books)[k]).1 <= n,
        forall|k: int|
            0 <= k < pairs_of(books).len() ==> (#[trigger] pairs_of(books)[k]).0.len() > 0,
    decreases books.len(),
{
    if books.len() > 0 {
        lemma_pairs_of_range(books.drop_last(), n);
        let p = pairs_of(books);
        let q = pairs_of(books.drop_last());
        let b = book_pairs(books.last());
        assert(books.last() == books[books.len() - 1]);
        assert forall|k: int| 0 <= k < b.len() implies 1 <= (#[trigger] b[k]).1 <= n
            && b[k].0.len() > 0 by {
            if k == 0 {
                assert(b[0] == (lower_seq(books.last().book@), books.last().id));
            } else {
                assert(b[k] == (lower_seq(books.last().abbreviations@[k - 1]@), books.last().id));
            }
        }
        assert(forall|k: int| 0 <= k < p.len() ==> #[trigger] p[k] == if k < q.len() {
            q[k]
        } else {
            b[k - q.len()]
        });
    }
}

impl BibleAPI {
    /// How a freshly built corpus reflects the loader's data.
    pub open spec fn models(&self, bible: JSONBible) -> bool {
        &&& self.translation == bible.translation
        &&& self.book_id_to_name@.len() == bible.bible@.len()
        &&& forall|b: int|
            0 <= b < bible.bible@.len() ==> (#[trigger] self.book_id_to_name@[b])@
                == bible.bible@[b].book@
        &&& self.reference_array@.len() == bible.bible@.len()
        &&& forall|b: int|
            0 <= b < bible.bible@.len() ==> (#[trigger] self.reference_array@[b])@.len()
                == bible.bible@[b].content@.len()
        &&& forall|b: int, c: int|
            0 <= b < bible.bible@.len() && 0 <= c < bible.bible@[b].content@.len() ==> (
            #[trigger] self.reference_array@[b]@[c]) == bible.bible@[b].content@[c]@.len()
        &&& self.bible_contents@.len() == bible.bible@.len()
        &&& forall|b: int|
            0 <= b < bible.bible@.len() ==> (#[trigger] self.bible_contents@[b])@.len()
                == bible.bible@[b].content@.len()
        &&& forall|b: int, c: int|
            0 <= b < bible.bible@.len() && 0 <= c < bible.bible@[b].content@.len() ==> (
            #[trigger] self.bible_contents@[b]@[c])@.len() == bible.bible@[b].content@[c]@.len()
        &&& forall|b: int, c: int, v: int|
            0 <= b < bible.bible@.len() && 0 <= c < bible.bible@[b].content@.len() && 0 <= v
                < bible.bible@[b].content@[c]@.len() ==> (
            #[trigger] self.bible_contents@[b]@[c]@[v])@ == bible.bible@[b].content@[c]@[v]@
        &&& pairs_view(self.abbreviations_to_book_id@) == pairs_of(bible.bible@)
    }

    /// - Reformats the loader's data into the lookup structures the queries
    ///   use. The loader itself (file reading, format decoding) stays with
    ///   the surrounding program.
    #[verifier::rlimit(60)]
    pub fn new(bible: JSONBible) -> (r: Self)
        requires
            wf_bible(bible),
        ensures
            r.wf(),
            r.models(bible),
    {
        let mut abbreviations_to_book_id: AbbreviationsToBookId = Vec::new();
        let mut book_id_to_name: BookIdToName = Vec::new();
        let mut reference_array: ReferenceArray = Vec::new();
        let mut bible_contents: BibleContents = Vec::new();

        let mut i: usize = 0;
        proof {
            assert(bible.bible@.take(0) =~= Seq::<JSONBook>::empty());
            assert(pairs_of(Seq::<JSONBook>::empty()) =~= Seq::<(Seq<char>, usize)>::empty());
            assert(pairs_view(abbreviations_to_book_id@) =~= Seq::<(Seq<char>, usize)>::empty());
        }
        while i < bible.bible.len()
            invariant
                i <= bible.bible@.len(),
                wf_bible(bible),
                book_id_to_name@.len() == i,
                forall|b: int|
                    0 <= b < i ==> (#[trigger] book_id_to_name@[b])@ == bible.bible@[b].book@,
                reference_array@.len() == i,
                forall|b: int|
                    0 <= b < i ==> (#[trigger] reference_array@[b])@.len()
                        == bible.bible@[b].content@.len(),
                forall|b: int, c: int|
                    0 <= b < i && 0 <= c < bible.bible@[b].content@.len() ==> (
                    #[trigger] reference_array@[b]@[c]) == bible.bible@[b].content@[c]@.len(),
                bible_contents@.len() == i,
                forall|b: int|
                    0 <= b < i ==> (#[trigger] bible_contents@[b])@.len()
                        == bible.bible@[b].content@.len(),
                forall|b: int, c: int|
                    0 <= b < i && 0 <= c < bible.bible@[b].content@.len() ==> (
                    #[trigger] bible_contents@[b]@[c])@.len()
                        == bible.bible@[b].content@[c]@.len(),
                forall|b: int, c: int, v: int|
                    0 <= b < i && 0 <= c < bible.bible@[b].content@.len() && 0 <= v
                        < bible.bible@[b].content@[c]@.len() ==> (
                    #[trigger] bible_contents@[b]@[c]@[v])@ == bible.bible@[b].content@[c]@[v]@,
                pairs_view(abbreviations_to_book_id@) == pairs_of(bible.bible@.take(i as int)),
            decreases bible.bible@.len() - i,
        {
            let book = &bible.bible[i];
            book_id_to_name.push(book.book.clone());

            // the book's own name, then each abbreviation, all lowercased
            let ghost pairs0 = pairs_view(abbreviations_to_book_id@);
            let lname = to_lower_vec(book.book.as_str());
            abbreviations_to_book_id.push((string_from_chars(&lname), book.id));
            proof {
                assert(pairs_view(abbreviations_to_book_id@) =~= pairs0.push(
                    (lower_seq(book.book@), book.id),
                ));
            }
            let mut j: usize = 0;
            while j < book.abbreviations.len()
                invariant
                    j <= book.abbreviations@.len(),
                    book == bible.bible@[i as int],
                    i < bible.bible@.len(),
                    pairs_view(abbreviations_to_book_id@) == pairs0 + seq![
                        (lower_seq(book.book@), book.id),
                    ] + Seq::new(j as nat, |k: int| (lower_seq(book.abbreviations@[k]@), book.id)),
                decreases book.abbreviations@.len() - j,
            {
                let ghost pairsj = pairs_view(abbreviations_to_book_id@);
                let lab = to_lower_vec(book.abbreviations[j].as_str());
                abbreviations_to_book_id.push((string_from_chars(&lab), book.id));
                proof {
                    assert(pairs_view(abbreviations_to_book_id@) =~= pairsj.push(
                        (lower_seq(book.abbreviations@[j as int]@), book.id),
                    ));
                    assert(pairs_view(abbreviations_to_book_id@) =~= pairs0 + seq![
                        (lower_seq(book.book@), book.id),
                    ] + Seq::new(
                        j as nat + 1,
                        |k: int| (lower_seq(book.abbreviations@[k]@), book.id),
                    ));
                }
                j = j + 1;
            }
            proof {
                assert(pairs_view(abbreviations_to_book_id@) =~= pairs0 + book_pairs(
                    bible.bible@[i as int],
                ));
                assert(bible.bible@.take(i as int + 1).drop_last() =~= bible.bible@.take(
                    i as int,
                ));
                assert(bible.bible@.take(i as int + 1).last() == bible.bible@[i as int]);
            }

            // verse-count bounds and text, chapter by chapter
            let mut chapter_array: Vec<usize> = Vec::new();
            let mut book_contents: Vec<Vec<String>> = Vec::new();
            let mut c: usize = 0;
            while c < book.content.len()
                invariant
                    c <= book.content@.len(),
                    book == bible.bible@[i as int],
                    i < bible.bible@.len(),
                    chapter_array@.len() == c,
                    forall|k: int|
                        0 <= k < c ==> #[trigger] chapter_array@[k]
                            == book.content@[k]@.len(),
                    book_contents@.len() == c,
                    forall|k: int|
                        0 <= k < c ==> (#[trigger] book_contents@[k])@.len()
                            == book.content@[k]@.len(),
                    forall|k: int, v: int|
                        0 <= k < c && 0 <= v < book.content@[k]@.len() ==> (
                        #[trigger] book_contents@[k]@[v])@ == book.content@[k]@[v]@,
                decreases book.content@.len() - c,
            {
                let verses = &book.content[c];
                chapter_array.push(verses.len());
                let mut verse_vec: Vec<String> = Vec::new();
                let mut v: usize = 0;
                while v < verses.len()
                    invariant
                        v <= verses@.len(),
                        verses == book.content@[c as int],
                        c < book.content@.len(),
                        verse_vec@.len() == v,
                        forall|k: int|
                            0 <= k < v ==> (#[trigger] verse_vec@[k])@ == verses@[k]@,
                    decreases verses@.len() - v,
                {
                    verse_vec.push(verses[v].clone());
                    v = v + 1;
                }
                book_contents.push(verse_vec);
                c = c + 1;
            }
            reference_array.push(chapter_array);
            bible_contents.push(book_contents);
            i = i + 1;
        }
        proof {
            assert(bible.bible@.take(bible.bible@.len() as int) =~= bible.bible@);
            lemma_pairs_of_range(bible.bible@, bible.bible@.len() as int);
        }
        let r = BibleAPI {
            translation: bible.translation,
            abbreviations_to_book_id,
            book_id_to_name,
            reference_array,
            bible_contents,
        };
        proof {
            let pairs = r.abbreviations_to_book_id@;
            assert forall|k: int| 0 <= k < pairs.len() implies 1 <= (#[trigger] pairs[k]).1
                <= r.book_count() && pairs[k].0@.len() > 0 by {
                assert(pairs_view(pairs)[k] == (pairs[k].0@, pairs[k].1));
                assert(pairs_view(pairs)[k] == pairs_of(bible.bible@)[k]);
            }
            assert forall|b: int, c: int|
                0 <= b < r.book_count() && 0 <= c < r.reference_array@[b]@.len() implies (
            #[trigger] r.bible_contents@[b]@[c])@.len() == r.reference_array@[b]@[c] by {
                assert(r.reference_array@[b]@[c] == bible.bible@[b].content@[c]@.len());
            }
            assert(r.wf());
        }
        r
    }
}

} // verus!
