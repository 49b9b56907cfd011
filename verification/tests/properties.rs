use pdf_annotations_converter::offset::resolve_page;
use pdf_annotations_converter::parse_goodreader::{classify_line, parse_goodreader_annotations};
use pdf_annotations_converter::parser_goodreader;
use pdf_annotations_converter::records::{ParseConfig, ParseError, ParsedItem, Pending};
use pdf_annotations_converter::render_md::render_md;

fn markers(page_offset: i32) -> ParseConfig {
    ParseConfig { page_offset, page_numbers: true }
}

#[test]
fn parsing_page_indicator_with_offset_ten() {
    let annotations = "--- Page 45 ---\n--- Page 22 ---";
    let items = parse_goodreader_annotations(annotations, &markers(10)).unwrap();
    assert_eq!(
        items,
        vec![
            ParsedItem::PageNumber(45, 55),
            ParsedItem::PageNumber(22, 32)
        ]
    );
}

#[test]
fn negative_offset_reaching_smallest_page_aborts() {
    let annotations = "--- Page 45 ---\n--- Page 22 ---";
    let r = parse_goodreader_annotations(annotations, &markers(-22));
    assert_eq!(
        r,
        Err(ParseError::NonPositiveLogicalPage {
            page: 22,
            offset: -22
        })
    );
}

#[test]
fn negative_offset_aborts_without_partial_records() {
    let annotations = "File: A.pdf\n--- Page 2 ---";
    let r = parse_goodreader_annotations(annotations, &markers(-3));
    assert_eq!(
        r,
        Err(ParseError::NonPositiveLogicalPage {
            page: 2,
            offset: -3
        })
    );
}

#[test]
fn oversized_page_number_aborts() {
    let annotations = "--- Page 99999999999 ---";
    let r = parse_goodreader_annotations(annotations, &markers(0));
    assert_eq!(r, Err(ParseError::PageNumberTooLarge));
}

#[test]
fn oversized_page_number_aborts_plain_parser() {
    let annotations = "--- Page 99999999999 ---";
    let r = parser_goodreader::parse_goodreader_annotations(annotations);
    assert_eq!(r, Err(ParseError::PageNumberTooLarge));
}

#[test]
fn oversized_physical_page_aborts() {
    let annotations = "--- Page 4294967295 ---";
    let r = parse_goodreader_annotations(annotations, &markers(1));
    assert_eq!(
        r,
        Err(ParseError::PhysicalPageTooLarge {
            page: 4294967295,
            offset: 1
        })
    );
}

#[test]
fn resolver_offset_cases() {
    assert_eq!(resolve_page(45, 0), Ok((45, 45)));
    assert_eq!(resolve_page(45, 3), Ok((45, 48)));
    assert_eq!(resolve_page(45, -3), Ok((42, 45)));
    assert_eq!(
        resolve_page(45, -45),
        Err(ParseError::NonPositiveLogicalPage {
            page: 45,
            offset: -45
        })
    );
    assert_eq!(resolve_page(46, -45), Ok((1, 46)));
    assert_eq!(
        resolve_page(4294967295, 1),
        Err(ParseError::PhysicalPageTooLarge {
            page: 4294967295,
            offset: 1
        })
    );
}

#[test]
fn squiggly_underline_matches_case_insensitively() {
    let annotations = "sQuIgGlY uNdErLiNe:\nwavy text";
    let items = parse_goodreader_annotations(annotations, &markers(0)).unwrap();
    assert_eq!(items, vec![ParsedItem::Underline("wavy text".to_string())]);
}

#[test]
fn uppercase_underline_with_qualifier_matches() {
    let annotations = "UNDERLINE (red):\nshouted text";
    let items = parse_goodreader_annotations(annotations, &markers(0)).unwrap();
    assert_eq!(
        items,
        vec![ParsedItem::Underline("shouted text".to_string())]
    );
}

#[test]
fn plain_parser_underline_is_case_sensitive() {
    let annotations = "underline:\ntext";
    let items = parser_goodreader::parse_goodreader_annotations(annotations).unwrap();
    assert_eq!(items, vec![]);
}

#[test]
fn highlight_with_empty_qualifier_is_ignored() {
    let annotations = "Highlight ():\nnot a body";
    let items = parse_goodreader_annotations(annotations, &markers(0)).unwrap();
    assert_eq!(items, vec![]);
}

#[test]
fn qualifier_may_hold_opening_parentheses() {
    let annotations = "Underline (a(b):\ntext";
    let items = parse_goodreader_annotations(annotations, &markers(0)).unwrap();
    assert_eq!(items, vec![ParsedItem::Underline("text".to_string())]);
}

#[test]
fn dangling_header_is_dropped() {
    let annotations = "File: A.pdf\nHighlight:";
    let items = parse_goodreader_annotations(annotations, &markers(0)).unwrap();
    assert_eq!(items, vec![ParsedItem::File("A.pdf".to_string())]);
}

#[test]
fn file_name_keeps_internal_punctuation() {
    let annotations = "File: A: B (c).pdf";
    let items = parse_goodreader_annotations(annotations, &markers(0)).unwrap();
    assert_eq!(items, vec![ParsedItem::File("A: B (c).pdf".to_string())]);
}

#[test]
fn inserting_ignorable_lines_keeps_records() {
    let plain = "File: A.pdf\n--- Page 45 ---\nHighlight:\nbody";
    let noisy = "Annotation summary:\nFile: A.pdf\ndecorative line\n--- Page 45 ---\n   \nHighlight:\nbody\n*** trailing note";
    let a = parse_goodreader_annotations(plain, &markers(0)).unwrap();
    let b = parse_goodreader_annotations(noisy, &markers(0)).unwrap();
    assert_eq!(a, b);
}

#[test]
fn blank_lines_between_header_and_body_are_skipped() {
    let annotations = "Highlight:\n\n   \t\nreal body";
    let items = parse_goodreader_annotations(annotations, &markers(0)).unwrap();
    assert_eq!(items, vec![ParsedItem::Highlight("real body".to_string())]);
}

#[test]
fn disabled_page_markers_drop_roman_labels_too() {
    let annotations = "--- Page xvii ---\n--- Page 45 ---";
    let items = parse_goodreader_annotations(
        annotations,
        &ParseConfig { page_offset: 0, page_numbers: false },
    )
    .unwrap();
    assert_eq!(items, vec![]);
}

#[test]
fn classifier_walks_two_line_records() {
    let cfg = markers(0);
    let (s1, r1) = classify_line("Highlight (blue):", Pending::Idle, &cfg);
    assert_eq!(s1, Pending::AwaitingHighlightBody);
    assert_eq!(r1, Ok(None));
    let (s2, r2) = classify_line("some passage", s1, &cfg);
    assert_eq!(s2, Pending::Idle);
    assert_eq!(r2, Ok(Some(ParsedItem::Highlight("some passage".to_string()))));
}

#[test]
fn parse_and_render_are_deterministic() {
    let annotations = "File: A.pdf\n--- Page 45 ---\nHighlight:\nbody\nUnderline:\nu";
    let a = parse_goodreader_annotations(annotations, &markers(5)).unwrap();
    let b = parse_goodreader_annotations(annotations, &markers(5)).unwrap();
    assert_eq!(a, b);
    let ra = render_md(a, "stamp".to_string());
    let rb = render_md(b, "stamp".to_string());
    assert_eq!(ra, rb);
}
