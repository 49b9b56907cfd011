use pdf_annotations_converter::parse_goodreader::parse_goodreader_annotations;
use pdf_annotations_converter::records::{ParseConfig, ParsedItem};

fn with_page_numbers() -> ParseConfig {
    ParseConfig { page_offset: 0, page_numbers: true }
}

fn without_page_numbers() -> ParseConfig {
    ParseConfig { page_offset: 0, page_numbers: false }
}

#[test]
fn parse_goodreader_parsing_file_indicator() {
    let annotations = r#"
File: Hello_World.pdf
"#;
    let items = parse_goodreader_annotations(annotations, &without_page_numbers()).unwrap();
    assert_eq!(ParsedItem::File("Hello_World.pdf".to_string()), items[0]);
}

#[test]
fn parse_goodreader_parsing_page_indicator() {
    let annotations = r#"
--- Page 45 ---
--- Page 22 ---
-- Page 45 ---
"#;
    let items = parse_goodreader_annotations(annotations, &with_page_numbers()).unwrap();
    assert_eq!(
        items,
        vec![
            ParsedItem::PageNumber(45, 45),
            ParsedItem::PageNumber(22, 22)
        ]
    )
}

#[test]
fn parsing_page_indicator_with_positive_page_offset() {
    let annotations = r#"
--- Page 45 ---
--- Page 22 ---
"#;
    let items = parse_goodreader_annotations(
        annotations,
        &ParseConfig {
            page_offset: 3,
            page_numbers: true,
        },
    )
    .unwrap();
    assert_eq!(
        items,
        vec![
            ParsedItem::PageNumber(45, 48),
            ParsedItem::PageNumber(22, 25)
        ]
    )
}

#[test]
fn parsing_page_roman_indicator() {
    let annotations = r#"
--- Page xxxviii ---
--- Page xxxix ---
"#;
    let items = parse_goodreader_annotations(annotations, &with_page_numbers()).unwrap();
    assert_eq!(
        items,
        vec![
            ParsedItem::PageRoman("xxxviii".to_string()),
            ParsedItem::PageRoman("xxxix".to_string())
        ]
    )
}

#[test]
fn parsing_page_indicator_with_negative_page_offset() {
    let annotations = r#"
--- Page 45 ---
--- Page 22 ---
"#;
    let items = parse_goodreader_annotations(
        annotations,
        &ParseConfig {
            page_offset: -3,
            page_numbers: true,
        },
    )
    .unwrap();
    assert_eq!(
        items,
        vec![
            ParsedItem::PageNumber(42, 45),
            ParsedItem::PageNumber(19, 22)
        ]
    )
}

#[test]
fn parse_goodreader_parsing_highlight_indicator() {
    let annotations = r#"
Highlight:
Practical: A Simple Database
"#;
    let items = parse_goodreader_annotations(annotations, &without_page_numbers()).unwrap();
    assert_eq!(
        items,
        vec![ParsedItem::Highlight(
            "Practical: A Simple Database".to_string()
        )]
    )
}

#[test]
fn parse_goodreader_parsing_highlight_color_indicator() {
    let annotations = r#"
Highlight (blue):
Practical: A Simple Database
"#;
    let items = parse_goodreader_annotations(annotations, &without_page_numbers()).unwrap();
    assert_eq!(
        items,
        vec![ParsedItem::Highlight(
            "Practical: A Simple Database".to_string()
        )],
    )
}

#[test]
fn parse_goodreader_parsing_underline_indicator() {
    let annotations = r#"
Underline:
`(equal (getf cd ,field) ,value)
"#;
    let items = parse_goodreader_annotations(annotations, &without_page_numbers()).unwrap();
    assert_eq!(
        items,
        vec![ParsedItem::Underline(
            "`(equal (getf cd ,field) ,value)".to_string()
        )],
    )
}

#[test]
fn parse_goodreader_parsing_underline_color() {
    let annotations = r#"
Underline: (color #6F77FF):
`(equal (getf cd ,field) ,value)
"#;
    let items = parse_goodreader_annotations(annotations, &without_page_numbers()).unwrap();
    assert_eq!(
        items,
        vec![ParsedItem::Underline(
            "`(equal (getf cd ,field) ,value)".to_string()
        )],
    );
}

fn section() -> &'static str {
    "
File: Practical_Common_Lisp.pdf

Annotation summary:

--- Page 45 ---

Highlight:
Practical: A Simple Database


--- Page 46 ---

Underline:
property list, or plist

Underline:
(list :a 1 :b 2 :c 3)

Underline:
GETF, which takes a plist and a symbol and returns the value in the plist

Underline:
(getf (list :a 1 :b 2 :c 3) :a)


--- Page 47 ---

Underline:
global variable, *db*, which you can define with the DEFVAR macro
"
}

#[test]
fn parsing_section_with_zero_based_page_numbers() {
    let items = parse_goodreader_annotations(section(), &with_page_numbers()).unwrap();
    assert_eq!(
        items,
        vec![
            ParsedItem::File("Practical_Common_Lisp.pdf".to_string()),
            ParsedItem::PageNumber(45, 45),
            ParsedItem::Highlight("Practical: A Simple Database".to_string()),
            ParsedItem::PageNumber(46, 46),
            ParsedItem::Underline("property list, or plist".to_string()),
            ParsedItem::Underline("(list :a 1 :b 2 :c 3)".to_string()),
            ParsedItem::Underline(
                "GETF, which takes a plist and a symbol and returns the value in the plist"
                    .to_string()
            ),
            ParsedItem::Underline("(getf (list :a 1 :b 2 :c 3) :a)".to_string()),
            ParsedItem::PageNumber(47, 47),
            ParsedItem::Underline(
                "global variable, *db*, which you can define with the DEFVAR macro".to_string()
            )
        ]
    );
}

#[test]
fn parsing_section_with_10_based_page_numbers() {
    let items = parse_goodreader_annotations(
        section(),
        &ParseConfig {
            page_offset: 10,
            page_numbers: true,
        },
    )
    .unwrap();
    assert_eq!(
        items,
        vec![
            ParsedItem::File("Practical_Common_Lisp.pdf".to_string()),
            ParsedItem::PageNumber(45, 55),
            ParsedItem::Highlight("Practical: A Simple Database".to_string()),
            ParsedItem::PageNumber(46, 56),
            ParsedItem::Underline("property list, or plist".to_string()),
            ParsedItem::Underline("(list :a 1 :b 2 :c 3)".to_string()),
            ParsedItem::Underline(
                "GETF, which takes a plist and a symbol and returns the value in the plist"
                    .to_string()
            ),
            ParsedItem::Underline("(getf (list :a 1 :b 2 :c 3) :a)".to_string()),
            ParsedItem::PageNumber(47, 57),
            ParsedItem::Underline(
                "global variable, *db*, which you can define with the DEFVAR macro".to_string()
            )
        ]
    );
}

#[test]
fn parsing_section_without_page_numbers() {
    let items = parse_goodreader_annotations(section(), &without_page_numbers()).unwrap();
    assert_eq!(
        items,
        vec![
            ParsedItem::File("Practical_Common_Lisp.pdf".to_string()),
            ParsedItem::Highlight("Practical: A Simple Database".to_string()),
            ParsedItem::Underline("property list, or plist".to_string()),
            ParsedItem::Underline("(list :a 1 :b 2 :c 3)".to_string()),
            ParsedItem::Underline(
                "GETF, which takes a plist and a symbol and returns the value in the plist"
                    .to_string()
            ),
            ParsedItem::Underline("(getf (list :a 1 :b 2 :c 3) :a)".to_string()),
            ParsedItem::Underline(
                "global variable, *db*, which you can define with the DEFVAR macro".to_string()
            )
        ]
    );
}
