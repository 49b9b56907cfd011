use pdf_annotations_converter::parser_goodreader::{parse_goodreader_annotations, Item};

#[test]
fn parser_goodreader_parsing_file_indicator() {
    let annotations = r#"
File: Hello_World.pdf
"#;
    let items = parse_goodreader_annotations(annotations).unwrap();
    assert_eq!(Item::File("Hello_World.pdf".to_string()), items[0]);
}

#[test]
fn parser_goodreader_parsing_page_indicator() {
    let annotations = r#"
--- Page 45 ---
--- Page 22 ---
-- Page 45 ---
"#;
    let items = parse_goodreader_annotations(annotations).unwrap();
    assert_eq!(items, vec![Item::Page(45), Item::Page(22)])
}

#[test]
fn parser_goodreader_parsing_highlight_indicator() {
    let annotations = r#"
Highlight:
Practical: A Simple Database
"#;
    let items = parse_goodreader_annotations(annotations).unwrap();
    assert_eq!(
        items,
        vec![Item::Highlight("Practical: A Simple Database".to_string())]
    )
}

#[test]
fn parser_goodreader_parsing_highlight_color_indicator() {
    let annotations = r#"
Highlight (blue):
Practical: A Simple Database
"#;
    let items = parse_goodreader_annotations(annotations).unwrap();
    assert_eq!(
        items,
        vec![Item::Highlight("Practical: A Simple Database".to_string())],
    )
}

#[test]
fn parser_goodreader_parsing_underline_indicator() {
    let annotations = r#"
Underline:
`(equal (getf cd ,field) ,value)
"#;
    let items = parse_goodreader_annotations(annotations).unwrap();
    assert_eq!(
        items,
        vec![Item::Underline(
            "`(equal (getf cd ,field) ,value)".to_string()
        )],
    )
}

#[test]
fn parser_goodreader_parsing_underline_color() {
    let annotations = r#"
Underline: (color #6F77FF):
`(equal (getf cd ,field) ,value)
"#;
    let items = parse_goodreader_annotations(annotations).unwrap();
    assert_eq!(
        items,
        vec![Item::Underline(
            "`(equal (getf cd ,field) ,value)".to_string()
        )],
    );
}

#[test]
fn parsing_section() {
    let annotations = r#"
File: Practical_Common_Lisp.pdf

Annotation summary:

--- Page 45 ---

Highlight:
Practical: A Simple Database


--- Page 46 ---

Underline:
property list, or plist

Underline:
(list :a 1 :b 2 :c 3)

Underline:
GETF, which takes a plist and a symbol and returns the value in the plist

Underline:
(getf (list :a 1 :b 2 :c 3) :a)


--- Page 47 ---

Underline:
global variable, *db*, which you can define with the DEFVAR macro
"#;
    let items = parse_goodreader_annotations(annotations).unwrap();
    assert_eq!(
        items,
        vec![
            Item::File("Practical_Common_Lisp.pdf".to_string()),
            Item::Page(45),
            Item::Highlight("Practical: A Simple Database".to_string()),
            Item::Page(46),
            Item::Underline("property list, or plist".to_string()),
            Item::Underline("(list :a 1 :b 2 :c 3)".to_string()),
            Item::Underline(
                "GETF, which takes a plist and a symbol and returns the value in the plist"
                    .to_string()
            ),
            Item::Underline("(getf (list :a 1 :b 2 :c 3) :a)".to_string()),
            Item::Page(47),
            Item::Underline(
                "global variable, *db*, which you can define with the DEFVAR macro".to_string()
            )
        ]
    );
}
