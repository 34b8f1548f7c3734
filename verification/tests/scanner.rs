use bible_lsp::bible_api::BibleAPI;
use bible_lsp::bible_json::{JSONBible, JSONBook, JSONTranslation};
use bible_lsp::bible_lsp::BibleLSP;
use bible_lsp::book_reference::BookReference;
use bible_lsp::book_reference_segment::{
    BookReferenceSegment, BookReferenceSegments, ChapterVerse,
};
use bible_lsp::positions::{TextPosition, TextRange};

fn book(id: usize, name: &str, abbreviations: &[&str], verse_counts: &[usize]) -> JSONBook {
    let content = verse_counts
        .iter()
        .enumerate()
        .map(|(c, n)| {
            (0..*n)
                .map(|v| format!("{} {}:{} text", name, c + 1, v + 1))
                .collect::<Vec<String>>()
        })
        .collect::<Vec<Vec<String>>>();
    JSONBook {
        id,
        book: name.to_string(),
        abbreviations: abbreviations.iter().map(|a| a.to_string()).collect(),
        content,
    }
}

fn sample_lsp() -> BibleLSP {
    let bible = JSONBible {
        translation: JSONTranslation {
            name: "Sample".to_string(),
            language: "en".to_string(),
            abbreviation: "SMP".to_string(),
        },
        bible: vec![
            book(1, "Genesis", &["gen"], &[3, 2]),
            book(2, "Ephesians", &["eph", "ephes"], &[23, 22, 21, 32, 33, 24]),
            book(3, "John", &["jn"], &[5]),
        ],
    };
    BibleLSP::new(BibleAPI::new(bible))
}

#[test]
fn scan_reference_in_prose_stops_after_last_digit() {
    let lsp = sample_lsp();
    let text = "I read Ephesians 4:28, and it changed how I thought about money";
    let refs = lsp.find_book_references(text).unwrap();
    assert_eq!(refs.len(), 1);
    let r = &refs[0];
    assert_eq!(r.book_id, 2);
    assert_eq!(
        r.segments.0,
        vec![BookReferenceSegment::ChapterVerse(ChapterVerse { chapter: 4, verse: 28 })]
    );
    // `Ephesians` starts at 7; the match ends right after the `8` of `4:28`
    assert_eq!(
        r.range,
        TextRange {
            start: TextPosition { line: 0, character: 7 },
            end: TextPosition { line: 0, character: 21 },
        }
    );
}

#[test]
fn scan_bare_mention_yields_nothing() {
    let lsp = sample_lsp();
    let refs = lsp.find_book_references("I like Ephesians a lot").unwrap();
    assert_eq!(refs.len(), 0);
}

#[test]
fn scan_finds_multiple_references_and_lines() {
    let lsp = sample_lsp();
    let text = "gen 1:1-2\nand eph. 2:2,4";
    let refs = lsp.find_book_references(text).unwrap();
    assert_eq!(refs.len(), 2);
    assert_eq!(refs[0].book_id, 1);
    assert_eq!(refs[0].range.start, TextPosition { line: 0, character: 0 });
    assert_eq!(refs[1].book_id, 2);
    assert_eq!(refs[1].range.start, TextPosition { line: 1, character: 4 });
    assert_eq!(refs[1].segments.label(), "2:2,4");
}

#[test]
fn scan_windows_stop_at_next_book() {
    let lsp = sample_lsp();
    // the digits of the second book name must not be absorbed by the first
    let text = "jn 1:1 gen 1:2";
    let refs = lsp.find_book_references(text).unwrap();
    assert_eq!(refs.len(), 2);
    assert_eq!(refs[0].book_id, 3);
    assert_eq!(refs[0].segments.label(), "1:1");
    assert_eq!(refs[1].book_id, 1);
    assert_eq!(refs[1].segments.label(), "1:2");
}

#[test]
fn scan_requires_complete_chapter_verse() {
    let lsp = sample_lsp();
    let refs = lsp.find_book_references("Ephesians 4 was great").unwrap();
    assert_eq!(refs.len(), 0);
}

#[test]
fn reference_formatting() {
    let lsp = sample_lsp();
    let refs = lsp.find_book_references("see gen 1:2-3,2:1").unwrap();
    assert_eq!(refs.len(), 1);
    let r = &refs[0];
    assert_eq!(r.full_ref_label(&lsp.api), "Genesis 1:2-3; 2:1");
    assert_eq!(
        r.format_content(&lsp.api),
        "[1:2] Genesis 1:2 text\n[1:3] Genesis 1:3 text\n\n[2:1] Genesis 2:1 text"
    );
    assert_eq!(
        r.format(&lsp.api),
        "### Genesis 1:2-3; 2:1\n\n[1:2] Genesis 1:2 text\n[1:3] Genesis 1:3 text\n\n[2:1] Genesis 2:1 text"
    );
    assert_eq!(
        r.format_insert(&lsp.api),
        "\n[1:2] Genesis 1:2 text\n[1:3] Genesis 1:3 text\n\n[2:1] Genesis 2:1 text"
    );
    assert_eq!(
        r.format_replace(&lsp.api),
        "> [1:2] Genesis 1:2 text [1:3] Genesis 1:3 text [2:1] Genesis 2:1 text - Genesis 1:2-3; 2:1"
    );
    assert_eq!(r.format_diagnostic(&lsp.api), Some("Genesis 1:2 text".to_string()));
}

#[test]
fn diagnostic_of_out_of_range_reference_is_silent() {
    let lsp = sample_lsp();
    let refs = lsp.find_book_references("gen 9:9").unwrap();
    assert_eq!(refs.len(), 1);
    assert_eq!(refs[0].format_diagnostic(&lsp.api), None);
}

#[test]
fn api_book_reference_wrappers() {
    let lsp = sample_lsp();
    let refs = lsp.find_book_references("jn 1:2").unwrap();
    let bound = refs.into_iter().next().unwrap().apid(&lsp.api);
    assert_eq!(bound.full_ref_label(), "John 1:2");
    assert_eq!(bound.format_content(), "[1:2] John 1:2 text");
    assert_eq!(bound.lsp_hover(), "### John 1:2\n\n[1:2] John 1:2 text");
    assert_eq!(bound.lsp_diagnostic(), Some("John 1:2 text".to_string()));
}

#[test]
fn book_reference_new_parses_segments() {
    let range = TextRange {
        start: TextPosition { line: 0, character: 0 },
        end: TextPosition { line: 0, character: 7 },
    };
    let r = BookReference::new(3, range, "1:2-3");
    assert_eq!(r.book_id, 3);
    assert_eq!(r.segments.label(), "1:2-3");
    assert_eq!(r.range, range);
}

#[test]
fn malformed_segment_text_is_skipped() {
    let lsp = sample_lsp();
    // `1:2:3` parses as one token with two colons: not a reference
    let refs = lsp.find_book_references("gen 1:2:3").unwrap();
    assert_eq!(refs.len(), 0);
}
