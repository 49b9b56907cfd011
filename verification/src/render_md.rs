//! The Markdown renderer: folds the ordered record sequence into the final
//! document, where spacing and heading level depend on the type of the
//! immediately preceding record.

use vstd::prelude::*;

verus! {

use vstd::string::StringExecFns;
use crate::records::{ItemModel, ParsedItem};

// ---------------------------------------------------------------------------
// Decimal representation

/// The character of one decimal digit.
pub open spec fn dec_digit_char(d: nat) -> char {
    if d == 0 {
        '0'
    } else if d == 1 {
        '1'
    } else if d == 2 {
        '2'
    } else if d == 3 {
        '3'
    } else if d == 4 {
        '4'
    } else if d == 5 {
        '5'
    } else if d == 6 {
        '6'
    } else if d == 7 {
        '7'
    } else if d == 8 {
        '8'
    } else {
        '9'
    }
}

/// The decimal representation of `n`, without leading zeros.
pub open spec fn dec_rep(n: nat) -> Seq<char>
    decreases n,
{
    if n < 10 {
        seq![dec_digit_char(n)]
    } else {
        dec_rep(n / 10).push(dec_digit_char(n % 10))
    }
}

/// The one-character string of one decimal digit.
fn digit_str(d: u32) -> (r: &'static str)
    requires
        d < 10,
    ensures
        r@ == seq![dec_digit_char(d as nat)],
{
    proof {
        reveal_strlit("0");
        reveal_strlit("1");
        reveal_strlit("2");
        reveal_strlit("3");
        reveal_strlit("4");
        reveal_strlit("5");
        reveal_strlit("6");
        reveal_strlit("7");
        reveal_strlit("8");
        reveal_strlit("9");
        assert("0"@ =~= seq!['0']);
        assert("1"@ =~= seq!['1']);
        assert("2"@ =~= seq!['2']);
        assert("3"@ =~= seq!['3']);
        assert("4"@ =~= seq!['4']);
        assert("5"@ =~= seq!['5']);
        assert("6"@ =~= seq!['6']);
        assert("7"@ =~= seq!['7']);
        assert("8"@ =~= seq!['8']);
        assert("9"@ =~= seq!['9']);
    }
    if d == 0 {
        "0"
    } else if d == 1 {
        "1"
    } else if d == 2 {
        "2"
    } else if d == 3 {
        "3"
    } else if d == 4 {
        "4"
    } else if d == 5 {
        "5"
    } else if d == 6 {
        "6"
    } else if d == 7 {
        "7"
    } else if d == 8 {
        "8"
    } else {
        "9"
    }
}

/// Formats `n` in decimal.
pub fn u32_decimal(n: u32) -> (r: String)
    ensures
        r@ == dec_rep(n as nat),
    decreases n,
{
    if n < 10 {
        digit_str(n).to_owned()
    } else {
        let mut s = u32_decimal(n / 10);
        let d = digit_str(n % 10);
        s.append(d);
        proof {
            assert(dec_rep((n / 10) as nat) + seq![dec_digit_char((n % 10) as nat)] =~= dec_rep(
                (n / 10) as nat,
            ).push(dec_digit_char((n % 10) as nat)));
        }
        s
    }
}

// ---------------------------------------------------------------------------
// The document layout

/// Blank lines put before a page indicator: one if the previous record was a
/// file heading or a highlight, two otherwise.
pub open spec fn sep_before_page(prev: ItemModel) -> Seq<char> {
    match prev {
        ItemModel::File(_) => "\n"@,
        ItemModel::Highlight(_) => "\n"@,
        _ => "\n\n"@,
    }
}

/// Blank lines put before a highlight heading: one if the previous record
/// was a page indicator, two otherwise.
pub open spec fn sep_before_highlight(prev: ItemModel) -> Seq<char> {
    match prev {
        ItemModel::PageNumber(_, _) => "\n"@,
        ItemModel::PageRoman(_) => "\n"@,
        _ => "\n\n"@,
    }
}

/// The label of a numeric page indicator: the logical page, with the
/// physical page in parentheses when the two differ.
pub open spec fn page_label(lo: u32, ph: u32) -> Seq<char> {
    if lo == ph {
        dec_rep(lo as nat)
    } else {
        dec_rep(lo as nat) + " ("@ + dec_rep(ph as nat) + ")"@
    }
}

/// A right-aligned italic page annotation line.
pub open spec fn page_marker(label: Seq<char>) -> Seq<char> {
    "<p align='right' style=\"float: right;\"><i>Page "@ + label + "</i></p>\n"@
}

/// What one record contributes to the body, given the record before it.
pub open spec fn rendered_item(x: ItemModel, prev: ItemModel) -> Seq<char> {
    match x {
        ItemModel::File(f) => "# "@ + f + "\n"@,
        ItemModel::PageNumber(lo, ph) => sep_before_page(prev) + page_marker(page_label(lo, ph)),
        ItemModel::PageRoman(s) => sep_before_page(prev) + page_marker(s),
        ItemModel::Highlight(t) => sep_before_highlight(prev) + "## "@ + t + "\n"@,
        ItemModel::Underline(t) => "\n- "@ + t,
    }
}

/// The body text of records `items[i..]`, given the record before them.
pub open spec fn body_from(items: Seq<ItemModel>, i: int, prev: ItemModel) -> Seq<char>
    decreases items.len() - i,
{
    if i < 0 || i >= items.len() {
        Seq::<char>::empty()
    } else {
        rendered_item(items[i], prev) + body_from(items, i + 1, items[i])
    }
}

/// The initial "previous record" of the body fold.
pub open spec fn initial_prev() -> ItemModel {
    ItemModel::PageNumber(0u32, 0u32)
}

/// The whole body text.
pub open spec fn spec_body(items: Seq<ItemModel>) -> Seq<char> {
    body_from(items, 0, initial_prev())
}

/// The name of the last `File` record at or after `i`, with `cur` the last
/// name seen before `i`; empty if there is none.
pub open spec fn last_file_from(items: Seq<ItemModel>, i: int, cur: Seq<char>) -> Seq<char>
    decreases items.len() - i,
{
    if i < 0 || i >= items.len() {
        cur
    } else {
        match items[i] {
            ItemModel::File(f) => last_file_from(items, i + 1, f),
            _ => last_file_from(items, i + 1, cur),
        }
    }
}

/// The file name shown in the frontmatter: the last `File` record wins.
pub open spec fn spec_last_file(items: Seq<ItemModel>) -> Seq<char> {
    last_file_from(items, 0, Seq::<char>::empty())
}

/// The frontmatter block.
pub open spec fn frontmatter(file: Seq<char>, date: Seq<char>) -> Seq<char> {
    "---\nfile:    "@ + file + "\ndate:    "@ + date
        + "\ncreated with: https://github.com/thlorenz/pdf-annotations-converter\n---"@
}

/// The whole document: frontmatter, one blank line, body.
pub open spec fn spec_render(items: Seq<ItemModel>, date: Seq<char>) -> Seq<char> {
    frontmatter(spec_last_file(items), date) + "\n\n"@ + spec_body(items)
}

/// Exec choice of [`sep_before_page`].
fn sep_page(prev: &ParsedItem) -> (r: &'static str)
    ensures
        r@ == sep_before_page(prev@),
{
    match prev {
        ParsedItem::File(_) => "\n",
        ParsedItem::Highlight(_) => "\n",
        _ => "\n\n",
    }
}

/// Exec choice of [`sep_before_highlight`].
fn sep_highlight(prev: &ParsedItem) -> (r: &'static str)
    ensures
        r@ == sep_before_highlight(prev@),
{
    match prev {
        ParsedItem::PageNumber(_, _) => "\n",
        ParsedItem::PageRoman(_) => "\n",
        _ => "\n\n",
    }
}

/// Renders the provided [`ParsedItem`]s into a Markdown document. The
/// `date_time` string can be in any format and is included verbatim in the
/// metadata. The result is exactly what [`spec_render`] states.
pub fn render_md(items: Vec<ParsedItem>, date_time: String) -> (r: String)
    ensures
        r@ == spec_render(items.deep_view(), date_time@),
{
    let ghost ids = items.deep_view();
    let init_prev = ParsedItem::PageNumber(0, 0);
    let mut file: String = String::new();
    let mut content: String = String::new();
    let n: usize = items.len();
    let mut i: usize = 0;
    while i < n
        invariant
            n == items.len(),
            ids == items.deep_view(),
            0 <= i <= n,
            init_prev == (ParsedItem::PageNumber(0u32, 0u32)),
            spec_last_file(ids) == last_file_from(ids, i as int, file@),
            spec_body(ids) == content@ + body_from(
                ids,
                i as int,
                if i == 0 {
                    initial_prev()
                } else {
                    ids[i as int - 1]
                },
            ),
        decreases n - i,
    {
        let ghost prevm = if i == 0 {
            initial_prev()
        } else {
            ids[i as int - 1]
        };
        let prev_ref: &ParsedItem = if i == 0 {
            &init_prev
        } else {
            &items[i - 1]
        };
        proof {
            assert(prev_ref@ == prevm);
        }
        let it: &ParsedItem = &items[i];
        proof {
            assert(it@ == ids[i as int]);
        }
        let ghost old_content = content@;
        match it {
            ParsedItem::File(f) => {
                content.append("# ");
                content.append(f.as_str());
                content.append("\n");
                file = f.clone();
                proof {
                    assert(content@ =~= old_content + rendered_item(ids[i as int], prevm));
                }
            },
            ParsedItem::PageNumber(lo, ph) => {
                content.append(sep_page(prev_ref));
                content.append("<p align='right' style=\"float: right;\"><i>Page ");
                let lo_s = u32_decimal(*lo);
                content.append(lo_s.as_str());
                if *lo != *ph {
                    content.append(" (");
                    let ph_s = u32_decimal(*ph);
                    content.append(ph_s.as_str());
                    content.append(")");
                }
                content.append("</i></p>\n");
                proof {
                    assert(content@ =~= old_content + rendered_item(ids[i as int], prevm));
                }
            },
            ParsedItem::PageRoman(s) => {
                content.append(sep_page(prev_ref));
                content.append("<p align='right' style=\"float: right;\"><i>Page ");
                content.append(s.as_str());
                content.append("</i></p>\n");
                proof {
                    assert(content@ =~= old_content + rendered_item(ids[i as int], prevm));
                }
            },
            ParsedItem::Highlight(t) => {
                content.append(sep_highlight(prev_ref));
                content.append("## ");
                content.append(t.as_str());
                content.append("\n");
                proof {
                    assert(content@ =~= old_content + rendered_item(ids[i as int], prevm));
                }
            },
            ParsedItem::Underline(t) => {
                content.append("\n- ");
                content.append(t.as_str());
                proof {
                    assert(content@ =~= old_content + rendered_item(ids[i as int], prevm));
                }
            },
        }
        proof {
            assert(body_from(ids, i as int, prevm) == rendered_item(ids[i as int], prevm)
                + body_from(ids, i as int + 1, ids[i as int]));
            assert(old_content + (rendered_item(ids[i as int], prevm) + body_from(
                ids,
                i as int + 1,
                ids[i as int],
            )) =~= content@ + body_from(ids, i as int + 1, ids[i as int]));
        }
        i = i + 1;
    }
    proof {
        assert(body_from(
            ids,
            n as int,
            if n == 0 {
                initial_prev()
            } else {
                ids[n as int - 1]
            },
        ) =~= Seq::<char>::empty());
        assert(content@ + Seq::<char>::empty() =~= content@);
        assert(last_file_from(ids, n as int, file@) == file@);
    }
    let mut out: String = String::new();
    out.append("---\nfile:    ");
    out.append(file.as_str());
    out.append("\ndate:    ");
    out.append(date_time.as_str());
    out.append("\ncreated with: https://github.com/thlorenz/pdf-annotations-converter\n---");
    out.append("\n\n");
    out.append(content.as_str());
    proof {
        assert(out@ =~= spec_render(ids, date_time@));
    }
    out
}

} // verus!
