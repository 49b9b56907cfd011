use pdf_annotations_converter::records::ParsedItem;
use pdf_annotations_converter::render_md::{render_md, u32_decimal};

#[test]
fn rendering_items_md() {
    let items = vec![
        ParsedItem::File("Practical_Common_Lisp.pdf".to_string()),
        ParsedItem::PageNumber(45, 45),
        ParsedItem::Highlight("Practical: A Simple Database".to_string()),
        ParsedItem::PageNumber(46, 50),
        ParsedItem::Underline("property list, or plist".to_string()),
        ParsedItem::PageRoman("xvii".to_string()),
    ];
    let s = render_md(items, "date_time".to_string());
    let md = r#"---
file:    Practical_Common_Lisp.pdf
date:    date_time
created with: https://github.com/thlorenz/pdf-annotations-converter
---

# Practical_Common_Lisp.pdf

<p align='right' style="float: right;"><i>Page 45</i></p>

## Practical: A Simple Database

<p align='right' style="float: right;"><i>Page 46 (50)</i></p>

- property list, or plist

<p align='right' style="float: right;"><i>Page xvii</i></p>
"#;
    assert_eq!(s, md)
}

#[test]
fn rendering_no_items_yields_frontmatter_only() {
    let s = render_md(vec![], "now".to_string());
    let md = "---\nfile:    \ndate:    now\ncreated with: https://github.com/thlorenz/pdf-annotations-converter\n---\n\n";
    assert_eq!(s, md);
}

#[test]
fn rendering_without_file_record_leaves_frontmatter_file_empty() {
    let items = vec![ParsedItem::Highlight("H".to_string())];
    let s = render_md(items, "d".to_string());
    let md = "---\nfile:    \ndate:    d\ncreated with: https://github.com/thlorenz/pdf-annotations-converter\n---\n\n\n## H\n";
    assert_eq!(s, md);
}

#[test]
fn rendering_last_file_wins_in_frontmatter() {
    let items = vec![
        ParsedItem::File("A.pdf".to_string()),
        ParsedItem::File("B.pdf".to_string()),
    ];
    let s = render_md(items, "d".to_string());
    let md = "---\nfile:    B.pdf\ndate:    d\ncreated with: https://github.com/thlorenz/pdf-annotations-converter\n---\n\n# A.pdf\n# B.pdf\n";
    assert_eq!(s, md);
}

#[test]
fn rendering_underline_appends_list_item() {
    let items = vec![
        ParsedItem::Highlight("H".to_string()),
        ParsedItem::Underline("u1".to_string()),
        ParsedItem::Underline("u2".to_string()),
    ];
    let s = render_md(items, "d".to_string());
    let md = "---\nfile:    \ndate:    d\ncreated with: https://github.com/thlorenz/pdf-annotations-converter\n---\n\n\n## H\n\n- u1\n- u2";
    assert_eq!(s, md);
}

#[test]
fn decimal_formatting_is_exact() {
    assert_eq!(u32_decimal(0), "0");
    assert_eq!(u32_decimal(7), "7");
    assert_eq!(u32_decimal(10), "10");
    assert_eq!(u32_decimal(45), "45");
    assert_eq!(u32_decimal(309), "309");
    assert_eq!(u32_decimal(4294967295), "4294967295");
}
