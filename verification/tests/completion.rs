use bible_lsp::autocompletion::{
    get_last_chapter_and_verse, lsp_sort_key, suggest_all_books, AutocompleteState,
    AutocompletionEndingOperator, BibleCompletion, BookNameCompletion, ChapterCompletion,
    CompletionJoiner, CompletionSegmentsState, VerseCompletion,
};
use bible_lsp::bible_api::BibleAPI;
use bible_lsp::bible_json::{JSONBible, JSONBook, JSONTranslation};
use bible_lsp::bible_lsp::{parse_current_state, BibleLSP};
use bible_lsp::book_reference_segment::{
    BookReferenceSegment, BookReferenceSegments, ChapterVerse,
};

fn book(id: usize, name: &str, abbreviations: &[&str], verse_counts: &[usize]) -> JSONBook {
    let content = verse_counts
        .iter()
        .enumerate()
        .map(|(c, n)| {
            (0..*n)
                .map(|v| format!("{} {}:{} text", name, c + 1, v + 1))
                .collect::<Vec<String>>()
        })
        .collect::<Vec<Vec<String>>>();
    JSONBook {
        id,
        book: name.to_string(),
        abbreviations: abbreviations.iter().map(|a| a.to_string()).collect(),
        content,
    }
}

fn sample_api() -> BibleAPI {
    let bible = JSONBible {
        translation: JSONTranslation {
            name: "Sample".to_string(),
            language: "en".to_string(),
            abbreviation: "SMP".to_string(),
        },
        bible: vec![
            book(1, "Genesis", &["gen"], &[3, 2]),
            book(2, "Ephesians", &["eph", "ephes"], &[23, 22, 21, 32, 33, 24]),
            book(3, "John", &["jn"], &[5]),
        ],
    };
    BibleAPI::new(bible)
}

fn segs(input: &str) -> BookReferenceSegments {
    BookReferenceSegments::parse(input)
}

#[test]
fn infer_state_without_book() {
    let api = sample_api();
    assert_eq!(parse_current_state(&api, "nothing here"), AutocompleteState::BooksOnly);
    assert_eq!(parse_current_state(&api, ""), AutocompleteState::BooksOnly);
}

#[test]
fn infer_state_after_book_and_space() {
    let api = sample_api();
    assert_eq!(
        parse_current_state(&api, "Ephesians "),
        AutocompleteState::ChaptersOnly { book_id: 2 }
    );
}

#[test]
fn infer_state_with_colon_commits_chapter() {
    let api = sample_api();
    assert_eq!(
        parse_current_state(&api, "Ephesians 1:"),
        AutocompleteState::VersesOnly { book_id: 2, chapter: 1 }
    );
}

#[test]
fn infer_state_bare_chapter_stays_chapters_only() {
    let api = sample_api();
    assert_eq!(
        parse_current_state(&api, "Ephesians 1"),
        AutocompleteState::ChaptersOnly { book_id: 2 }
    );
}

#[test]
fn infer_state_through_operator() {
    let api = sample_api();
    assert_eq!(
        parse_current_state(&api, "Ephesians 1:2-"),
        AutocompleteState::ChaptersOrVerses {
            book_id: 2,
            chapter: 1,
            verse: 2,
            segments: segs("1:2"),
            operator: AutocompletionEndingOperator::Through,
        }
    );
}

#[test]
fn infer_state_break_operator() {
    let api = sample_api();
    assert_eq!(
        parse_current_state(&api, "eph 2:3,"),
        AutocompleteState::ChaptersOrVerses {
            book_id: 2,
            chapter: 2,
            verse: 3,
            segments: segs("2:3"),
            operator: AutocompletionEndingOperator::Break,
        }
    );
}

#[test]
fn generate_books_only() {
    let api = sample_api();
    let all = AutocompleteState::BooksOnly.give_suggestions(&api);
    assert_eq!(all.len(), 66);
    assert_eq!(all[0], BibleCompletion::BookName(BookNameCompletion { book_id: 1 }));
    assert_eq!(all[65], BibleCompletion::BookName(BookNameCompletion { book_id: 66 }));
    assert_eq!(all, suggest_all_books());
}

#[test]
fn generate_chapters_only() {
    let api = sample_api();
    let r = AutocompleteState::ChaptersOnly { book_id: 2 }.give_suggestions(&api);
    assert_eq!(r.len(), 6);
    for (i, item) in r.iter().enumerate() {
        assert_eq!(
            *item,
            BibleCompletion::Chapter(ChapterCompletion { book_id: 2, chapter: i + 1 })
        );
    }
    assert_eq!(
        AutocompleteState::ChaptersOnly { book_id: 9 }.give_suggestions(&api).len(),
        0
    );
}

#[test]
fn generate_verses_only_is_exactly_the_chapter() {
    let api = sample_api();
    let r = AutocompleteState::VersesOnly { book_id: 2, chapter: 4 }.give_suggestions(&api);
    assert_eq!(r.len(), 32);
    for (i, item) in r.iter().enumerate() {
        assert_eq!(
            *item,
            BibleCompletion::Verse(VerseCompletion {
                book_id: 2,
                chapter: 4,
                verse: i + 1,
                segments: BookReferenceSegments::new(),
                operator: AutocompletionEndingOperator::Chapter,
            })
        );
    }
    // defensive silence on an out-of-range chapter
    let r = AutocompleteState::VersesOnly { book_id: 2, chapter: 9 }.give_suggestions(&api);
    assert_eq!(r.len(), 0);
}

#[test]
fn generate_chapters_or_verses_orders_verses_first() {
    let api = sample_api();
    let state = AutocompleteState::ChaptersOrVerses {
        book_id: 2,
        chapter: 1,
        verse: 20,
        segments: segs("1:20"),
        operator: AutocompletionEndingOperator::Break,
    };
    let r = state.give_suggestions(&api);
    // verses 21..=23 of chapter 1, then chapters 2..=6
    assert_eq!(r.len(), 8);
    for (i, verse) in (21..=23usize).enumerate() {
        assert_eq!(
            r[i],
            BibleCompletion::Verse(VerseCompletion {
                book_id: 2,
                chapter: 1,
                verse,
                segments: segs("1:20"),
                operator: AutocompletionEndingOperator::Break,
            })
        );
    }
    for (i, chapter) in (2..=6usize).enumerate() {
        assert_eq!(
            r[3 + i],
            BibleCompletion::Chapter(ChapterCompletion { book_id: 2, chapter })
        );
    }
}

#[test]
fn generation_is_idempotent() {
    let api = sample_api();
    let state = AutocompleteState::ChaptersOrVerses {
        book_id: 2,
        chapter: 2,
        verse: 3,
        segments: segs("2:3"),
        operator: AutocompletionEndingOperator::Through,
    };
    let first = state.give_suggestions(&api);
    let second = state.give_suggestions(&api);
    assert_eq!(first, second);
    let b1 = AutocompleteState::BooksOnly.give_suggestions(&api);
    let b2 = AutocompleteState::BooksOnly.give_suggestions(&api);
    assert_eq!(b1, b2);
}

#[test]
fn completion_print_and_label() {
    let api = sample_api();
    let item = BibleCompletion::Verse(VerseCompletion {
        book_id: 2,
        chapter: 1,
        verse: 5,
        segments: segs("1:2"),
        operator: AutocompletionEndingOperator::Through,
    });
    assert_eq!(item.print(&api), "Ephesians 1:5");
    // `Through` extends the last segment into a range ending at this verse
    assert_eq!(item.label(&api), "Ephesians 1:2-5");

    let item = BibleCompletion::Verse(VerseCompletion {
        book_id: 2,
        chapter: 1,
        verse: 5,
        segments: segs("1:2"),
        operator: AutocompletionEndingOperator::Break,
    });
    // `Break` appends the verse as a segment of its own
    assert_eq!(item.label(&api), "Ephesians 1:2,5");

    let item = BibleCompletion::Chapter(ChapterCompletion { book_id: 3, chapter: 1 });
    assert_eq!(item.print(&api), "John 1");
    assert_eq!(item.label(&api), "John 1");

    let item = BibleCompletion::BookName(BookNameCompletion { book_id: 1 });
    assert_eq!(item.print(&api), "Genesis");
    assert_eq!(item.label(&api), "Genesis");
}

#[test]
fn completion_previews() {
    let api = sample_api();
    let item = BibleCompletion::BookName(BookNameCompletion { book_id: 3 });
    assert_eq!(item.lsp_preview(&api), "### John");

    let item = BibleCompletion::Chapter(ChapterCompletion { book_id: 1, chapter: 2 });
    assert_eq!(
        item.lsp_preview(&api),
        "### Genesis 2\n\n[2:1] Genesis 2:1 text\n[2:2] Genesis 2:2 text"
    );

    let item = BibleCompletion::Verse(VerseCompletion {
        book_id: 1,
        chapter: 1,
        verse: 2,
        segments: segs("1:1"),
        operator: AutocompletionEndingOperator::Through,
    });
    assert_eq!(
        item.lsp_preview(&api),
        "### Genesis 1:1-2\n\n[1:1] Genesis 1:1 text\n[1:2] Genesis 1:2 text"
    );
}

#[test]
fn last_chapter_and_verse_collision_policy() {
    // a trailing bare number is the chapter, never also the verse
    assert_eq!(get_last_chapter_and_verse("12"), (Some(12), None));
    // text ending right on a number: that number is the chapter only
    assert_eq!(get_last_chapter_and_verse("1:2"), (Some(2), None));
    assert_eq!(get_last_chapter_and_verse("1:2,3:4"), (Some(4), None));
    // an operator after the verse keeps chapter and verse apart
    assert_eq!(get_last_chapter_and_verse("1:2-"), (Some(1), Some(2)));
    // no numbers at all
    assert_eq!(get_last_chapter_and_verse("abc"), (None, None));
}

#[test]
fn completion_segments_state_parse() {
    let st = CompletionSegmentsState::parse("1:2-");
    // the dangling `2-` is dropped before parsing; `1:` alone reads as 1:1
    assert_eq!(
        st.segments.0,
        vec![BookReferenceSegment::ChapterVerse(ChapterVerse { chapter: 1, verse: 1 })]
    );
    assert_eq!(st.current_chapter, Some(1));
    assert_eq!(st.current_verse, Some(2));
    assert_eq!(st.joiner, CompletionJoiner::Range);

    let st = CompletionSegmentsState::parse("2:3,4");
    assert_eq!(st.segments.label(), "2:3,4");
    assert_eq!(st.joiner, CompletionJoiner::Break);

    let st = CompletionSegmentsState::parse("");
    assert_eq!(st.segments.0.len(), 0);
    assert_eq!(st.current_chapter, None);
    assert_eq!(st.current_verse, None);
    assert_eq!(st.joiner, CompletionJoiner::Break);
}

#[test]
fn sort_keys_freeze_the_ordering() {
    assert_eq!(lsp_sort_key(7), "00000000000000000007");
    assert_eq!(lsp_sort_key(123), "00000000000000000123");
    assert!(lsp_sort_key(9) < lsp_sort_key(10));
    assert!(lsp_sort_key(99) < lsp_sort_key(100));
}

#[test]
fn suggest_auto_completion_end_to_end() {
    let lsp = BibleLSP::new(sample_api());
    // chapter 1 of Ephesians has 23 verses
    let r = lsp.suggest_auto_completion("Ephesians 1:");
    assert_eq!(r.len(), 23);
    let r = lsp.suggest_auto_completion("plain prose");
    assert_eq!(r.len(), 66);
}

#[test]
fn test_autocomplete() {
    // assert the suggestion results have the lengths the corpus dictates
    let api = sample_api();
    assert_eq!(AutocompleteState::BooksOnly.give_suggestions(&api).len(), 66);
    assert_eq!(
        AutocompleteState::ChaptersOnly { book_id: 2 }.give_suggestions(&api).len(),
        6
    );
    assert_eq!(
        AutocompleteState::VersesOnly { book_id: 2, chapter: 2 }.give_suggestions(&api).len(),
        22
    );
    assert_eq!(
        AutocompleteState::ChaptersOrVerses {
            book_id: 2,
            chapter: 2,
            verse: 3,
            segments: BookReferenceSegments::parse("2:3"),
            operator: AutocompletionEndingOperator::Through,
        }
        .give_suggestions(&api)
        .len(),
        19 + 4
    );
}

#[test]
fn infer_state_book_alone_offers_chapters() {
    let api = sample_api();
    assert_eq!(
        parse_current_state(&api, "Ephesians"),
        AutocompleteState::ChaptersOnly { book_id: 2 }
    );
    assert_eq!(
        parse_current_state(&api, "see eph."),
        AutocompleteState::ChaptersOnly { book_id: 2 }
    );
}

#[test]
fn infer_state_prose_after_book_offers_chapters() {
    let api = sample_api();
    // the text after the book is not reference syntax
    assert_eq!(
        parse_current_state(&api, "Ephesians was written"),
        AutocompleteState::ChaptersOnly { book_id: 2 }
    );
}
