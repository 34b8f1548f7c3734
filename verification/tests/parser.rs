use bible_lsp::book_reference_segment::{
    parse_reference_segments, try_parse_reference_segments, BookRange, BookReferenceSegment,
    BookReferenceSegments, ChapterRange, ChapterVerse,
};

fn cv(chapter: usize, verse: usize) -> BookReferenceSegment {
    BookReferenceSegment::ChapterVerse(ChapterVerse { chapter, verse })
}

fn cr(chapter: usize, start_verse: usize, end_verse: usize) -> BookReferenceSegment {
    BookReferenceSegment::ChapterRange(ChapterRange { chapter, start_verse, end_verse })
}

fn br(
    start_chapter: usize,
    start_verse: usize,
    end_chapter: usize,
    end_verse: usize,
) -> BookReferenceSegment {
    BookReferenceSegment::BookRange(BookRange { start_chapter, end_chapter, start_verse, end_verse })
}

#[test]
fn parse_bare_number_is_verse_of_chapter_one() {
    let segs = BookReferenceSegments::parse("1");
    assert_eq!(segs.0, vec![cv(1, 1)]);
}

#[test]
fn parse_dangling_colon_is_dropped() {
    let segs = BookReferenceSegments::parse("1:");
    assert_eq!(segs.0, vec![cv(1, 1)]);
}

#[test]
fn parse_chapter_range() {
    let segs = BookReferenceSegments::parse("1:2-3");
    assert_eq!(segs.0, vec![cr(1, 2, 3)]);
}

#[test]
fn parse_book_range() {
    let segs = BookReferenceSegments::parse("1:2-3:4");
    assert_eq!(segs.0, vec![br(1, 2, 3, 4)]);
}

#[test]
fn parse_mixed_segments_inherit_running_chapter() {
    let segs = BookReferenceSegments::parse("1:1-4,5-7,2:2-3:4,6");
    assert_eq!(segs.0, vec![cr(1, 1, 4), cr(1, 5, 7), br(2, 2, 3, 4), cv(3, 6)]);
}

#[test]
fn parse_en_dash_and_semicolons() {
    let segs = BookReferenceSegments::parse("1:2\u{2013}3;4:5");
    assert_eq!(segs.0, vec![cr(1, 2, 3), cv(4, 5)]);
}

#[test]
fn parse_strips_prose_characters() {
    let segs = parse_reference_segments(" 4:28, and");
    assert_eq!(segs.0, vec![cv(4, 28)]);
}

#[test]
fn parse_bare_range_inherits_chapter() {
    let segs = BookReferenceSegments::parse("3:4,6-9");
    assert_eq!(segs.0, vec![cv(3, 4), cr(3, 6, 9)]);
}

#[test]
fn parse_range_with_explicit_right_chapter() {
    let segs = BookReferenceSegments::parse("2:3,4-5:6");
    assert_eq!(segs.0, vec![cv(2, 3), br(2, 4, 5, 6)]);
}

#[test]
fn try_parse_rejects_malformed_tokens() {
    assert!(try_parse_reference_segments("1:2:3").is_none());
    assert!(try_parse_reference_segments("1-2-3").is_none());
    assert!(try_parse_reference_segments("").is_none());
    assert!(try_parse_reference_segments("hello").is_none());
}

#[test]
fn label_renders_with_elision() {
    let segs = BookReferenceSegments::parse("1:1-4,5-7,2:2-3:4,6");
    assert_eq!(segs.label(), "1:1-4,5-7; 2:2-3:4,6");
}

#[test]
fn label_of_single_verse() {
    let segs = BookReferenceSegments::parse("3:16");
    assert_eq!(segs.label(), "3:16");
}

#[test]
fn label_separates_new_chapters() {
    let segs = BookReferenceSegments::parse("1:2,2:3");
    assert_eq!(segs.label(), "1:2; 2:3");
}

#[test]
fn round_trip_label_then_parse() {
    for input in ["1:1-4,5-7,2:2-3:4,6", "3:16", "1:2-3:4", "1:1,2,3", "9:8-7"] {
        let segs = BookReferenceSegments::parse(input);
        let label = segs.label();
        let reparsed = BookReferenceSegments::parse(&label);
        assert_eq!(segs.0, reparsed.0, "round trip failed for {input:?} via {label:?}");
    }
}

#[test]
fn segment_accessors() {
    let seg = br(2, 3, 4, 5);
    assert_eq!(seg.get_starting_chapter(), 2);
    assert_eq!(seg.get_starting_verse(), 3);
    assert_eq!(seg.get_ending_chapter(), 4);
    assert_eq!(seg.get_ending_verse(), 5);
    let seg = cv(1, 9);
    assert_eq!(seg.get_starting_chapter(), 1);
    assert_eq!(seg.get_ending_chapter(), 1);
    assert_eq!(seg.get_starting_verse(), 9);
    assert_eq!(seg.get_ending_verse(), 9);
    let seg = cr(6, 7, 8);
    assert_eq!(seg.get_starting_verse(), 7);
    assert_eq!(seg.get_ending_verse(), 8);
}

#[test]
fn new_is_empty() {
    assert_eq!(BookReferenceSegments::new().0, vec![]);
}
