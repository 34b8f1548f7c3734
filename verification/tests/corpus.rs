use bible_lsp::bible_api::BibleAPI;
use bible_lsp::bible_json::{JSONBible, JSONBook, JSONTranslation};
use bible_lsp::positions::{calculate_position, TextPosition, TextRange};

fn book(id: usize, name: &str, abbreviations: &[&str], verse_counts: &[usize]) -> JSONBook {
    let content = verse_counts
        .iter()
        .enumerate()
        .map(|(c, n)| {
            (0..*n)
                .map(|v| format!("{} {}:{} text", name, c + 1, v + 1))
                .collect::<Vec<String>>()
        })
        .collect::<Vec<Vec<String>>>();
    JSONBook {
        id,
        book: name.to_string(),
        abbreviations: abbreviations.iter().map(|a| a.to_string()).collect(),
        content,
    }
}

fn sample_api() -> BibleAPI {
    let bible = JSONBible {
        translation: JSONTranslation {
            name: "Sample".to_string(),
            language: "en".to_string(),
            abbreviation: "SMP".to_string(),
        },
        bible: vec![
            book(1, "Genesis", &["gen"], &[3, 2]),
            book(2, "Ephesians", &["eph", "ephes"], &[23, 22, 21, 32, 33, 24]),
            book(3, "John", &["jn"], &[5]),
        ],
    };
    BibleAPI::new(bible)
}

#[test]
fn valid_book_chapter_bounds() {
    let api = sample_api();
    // every in-range chapter is valid, everything else is not
    for b in 1..=3usize {
        let count = api.get_book_chapter_count(b).unwrap();
        for c in 1..=count {
            assert!(api.is_valid_book_chapter(b, c));
        }
        assert!(!api.is_valid_book_chapter(b, 0));
        assert!(!api.is_valid_book_chapter(b, count + 1));
    }
    assert!(!api.is_valid_book_chapter(0, 1));
    assert!(!api.is_valid_book_chapter(4, 1));
}

#[test]
fn valid_reference_bounds() {
    let api = sample_api();
    assert!(api.is_valid_reference(1, 1, 3));
    assert!(!api.is_valid_reference(1, 1, 4));
    assert!(!api.is_valid_reference(1, 1, 0));
    assert!(!api.is_valid_reference(1, 3, 1));
    assert!(api.is_valid_reference(2, 4, 28));
}

#[test]
fn chapter_and_verse_counts() {
    let api = sample_api();
    assert_eq!(api.get_book_chapter_count(2), Some(6));
    assert_eq!(api.get_book_chapter_count(9), None);
    assert_eq!(api.get_chapter_verse_count(2, 4), Some(32));
    assert_eq!(api.get_chapter_verse_count(2, 7), None);
    assert_eq!(api.get_chapter_verse_count(0, 1), None);
}

#[test]
fn chapter_and_verse_ranges() {
    let api = sample_api();
    assert_eq!(api.get_all_chapters(1), Some((1, 2)));
    assert_eq!(api.get_remaining_chapters(2, 4), Some((5, 6)));
    assert_eq!(api.get_all_verses(3, 1), Some((1, 5)));
    assert_eq!(api.get_remaining_verses(3, 1, 3), Some((4, 5)));
    assert_eq!(api.get_all_verses(3, 2), None);
    assert_eq!(api.get_remaining_chapters(7, 0), None);
}

#[test]
fn contents_lookup() {
    let api = sample_api();
    assert_eq!(api.get_bible_contents(1, 2, 1), Some("Genesis 2:1 text".to_string()));
    assert_eq!(api.get_bible_contents(1, 2, 3), None);
    assert_eq!(api.get_bible_contents(1, 9, 1), None);
}

#[test]
fn range_contents_skips_invalid() {
    let api = sample_api();
    let all = api.get_bible_range_contents(1, 1, 1, 2, 3);
    // chapter 1 has verses 1..=3, chapter 2 only 1..=2
    assert_eq!(
        all,
        vec![
            "Genesis 1:1 text".to_string(),
            "Genesis 1:2 text".to_string(),
            "Genesis 1:3 text".to_string(),
            "Genesis 2:1 text".to_string(),
            "Genesis 2:2 text".to_string(),
        ]
    );
    assert_eq!(api.get_bible_range_contents(1, 3, 1, 3, 2), vec![] as Vec<String>);
}

#[test]
fn book_id_lookup_is_case_insensitive_and_strips_periods() {
    let api = sample_api();
    assert_eq!(api.get_book_id("Ephesians"), Some(2));
    assert_eq!(api.get_book_id("EPH"), Some(2));
    assert_eq!(api.get_book_id("eph."), Some(2));
    assert_eq!(api.get_book_id("Ephes.."), Some(2));
    assert_eq!(api.get_book_id("jn"), Some(3));
    assert_eq!(api.get_book_id("nope"), None);
    assert_eq!(api.get_book_id(""), None);
}

#[test]
fn book_name_lookup() {
    let api = sample_api();
    assert_eq!(api.get_book_name(2), Some("Ephesians".to_string()));
    assert_eq!(api.get_book_name(0), None);
    assert_eq!(api.get_book_name(4), None);
}

#[test]
fn position_of_offsets() {
    let newlines = vec![5usize, 11, 20];
    // first line
    let r = calculate_position(&newlines, 2, 4);
    assert_eq!(
        r,
        TextRange {
            start: TextPosition { line: 0, character: 2 },
            end: TextPosition { line: 0, character: 4 },
        }
    );
    // second line starts at offset 6
    let r = calculate_position(&newlines, 8, 10);
    assert_eq!(r.start, TextPosition { line: 1, character: 2 });
    assert_eq!(r.end, TextPosition { line: 1, character: 4 });
    // past the last newline
    let r = calculate_position(&newlines, 23, 25);
    assert_eq!(r.start, TextPosition { line: 3, character: 2 });
    // no newlines at all
    let r = calculate_position(&vec![], 7, 9);
    assert_eq!(r.start, TextPosition { line: 0, character: 7 });
}

#[test]
fn literal_word_templates() {
    let f = bible_lsp::bible_formatter::literal_word();
    assert_eq!(f.verse, "{content}");
    assert_eq!(f.join_verses, " ");
    assert_eq!(f.segment, "{verses}");
    assert_eq!(f.join_segment, " ");
    assert_eq!(f.text, "> {segments}\n\u{2014} {reference}");
    assert!(f.code_actions.is_empty());
}

#[test]
fn format_segments_renders_nothing_yet() {
    let f = bible_lsp::bible_formatter::BibleFormatter {
        book_format: String::new(),
        chapter_format: String::new(),
        verse_format: String::new(),
    };
    assert_eq!(f.format_segments(vec![]), "");
}

#[test]
fn translation_metadata_is_kept() {
    let api = sample_api();
    assert_eq!(api.translation.abbreviation, "SMP");
    assert_eq!(api.translation.name, "Sample");
}
