//! The general properties of the parser and the renderer, stated and proved
//! over their specification functions.

use vstd::prelude::*;

verus! {

use crate::records::{ItemModel, ParseConfig, ParseError, Pending};
use crate::text::{is_blank_line, spec_lines};
use crate::matchers::{
    file_name_of, is_file_line, is_highlight_line, is_page_number_line, is_page_roman_line,
    is_underline_line_ext,
};
use crate::parse_goodreader::{classify_spec, parse_from, pending_at, pending_from, spec_parse};
use crate::render_md::{body_from, rendered_item};

/// A line on which the classifier, in state `s`, emits nothing, changes
/// nothing and fails with nothing.
pub open spec fn line_inert(cfg: ParseConfig, s: Pending, l: Seq<char>) -> bool {
    classify_spec(cfg, s, l) == (s, Seq::<ItemModel>::empty(), None::<ParseError>)
}

/// A line that none of the classifier's patterns matches.
pub open spec fn matches_no_pattern(cfg: ParseConfig, l: Seq<char>) -> bool {
    &&& !is_file_line(l)
    &&& !(cfg.page_numbers && is_page_number_line(l))
    &&& !(cfg.page_numbers && is_page_roman_line(l))
    &&& !is_highlight_line(l)
    &&& !is_underline_line_ext(l)
}

/// Parsing depends only on the lines still ahead: equal suffixes parse
/// equally from any one state.
pub proof fn lemma_parse_from_suffix(
    cfg: ParseConfig,
    a: Seq<Seq<char>>,
    b: Seq<Seq<char>>,
    i: int,
    j: int,
    s: Pending,
)
    requires
        0 <= i <= a.len(),
        0 <= j <= b.len(),
        a.subrange(i, a.len() as int) == b.subrange(j, b.len() as int),
    ensures
        parse_from(cfg, a, i, s) == parse_from(cfg, b, j, s),
    decreases a.len() - i,
{
    assert(a.subrange(i, a.len() as int).len() == a.len() - i);
    assert(b.subrange(j, b.len() as int).len() == b.len() - j);
    assert(a.subrange(i, a.len() as int).len() == b.subrange(j, b.len() as int).len());
    assert(a.len() - i == b.len() - j);
    if i < a.len() {
        assert(j < b.len());
        assert(a[i] == a.subrange(i, a.len() as int)[0]);
        assert(b[j] == b.subrange(j, b.len() as int)[0]);
        assert(a[i] == b[j]);
        assert forall|k: int| 0 <= k < a.len() - (i + 1) implies #[trigger] a.subrange(
            i + 1,
            a.len() as int,
        )[k] == b.subrange(j + 1, b.len() as int)[k] by {
            assert(a.subrange(i, a.len() as int)[k + 1] == b.subrange(j, b.len() as int)[k + 1]);
            assert(a.subrange(i, a.len() as int)[k + 1] == a[i + 1 + k]);
            assert(b.subrange(j, b.len() as int)[k + 1] == b[j + 1 + k]);
            assert(a.subrange(i + 1, a.len() as int)[k] == a[i + 1 + k]);
            assert(b.subrange(j + 1, b.len() as int)[k] == b[j + 1 + k]);
        }
        assert(a.subrange(i + 1, a.len() as int) =~= b.subrange(j + 1, b.len() as int));
        let stepped = classify_spec(cfg, s, a[i]);
        lemma_parse_from_suffix(cfg, a, b, i + 1, j + 1, stepped.0);
    }
}

/// Inserting a line that is inert in the state reached at its position
/// leaves the parse, from any earlier position, unchanged.
proof fn lemma_insert_inert(
    cfg: ParseConfig,
    ls: Seq<Seq<char>>,
    l: Seq<char>,
    i: int,
    j: int,
    s: Pending,
)
    requires
        0 <= j <= i <= ls.len(),
        line_inert(cfg, pending_from(cfg, ls, j, s, i), l),
    ensures
        parse_from(cfg, ls.insert(i, l), j, s) == parse_from(cfg, ls, j, s),
    decreases i - j,
{
    let ext = ls.insert(i, l);
    ls.insert_ensures(i, l);
    if j == i {
        assert(pending_from(cfg, ls, j, s, i) == s);
        assert(ext[i] == l);
        assert(classify_spec(cfg, s, l) == (s, Seq::<ItemModel>::empty(), None::<ParseError>));
        assert(ext.subrange(i + 1, ext.len() as int) =~= ls.subrange(i, ls.len() as int));
        lemma_parse_from_suffix(cfg, ext, ls, i + 1, i, s);
        match parse_from(cfg, ext, i + 1, s) {
            Ok(rest) => {
                assert(Seq::<ItemModel>::empty() + rest =~= rest);
                assert(parse_from(cfg, ext, i, s) == Ok::<Seq<ItemModel>, ParseError>(rest));
            },
            Err(_) => {},
        }
    } else {
        assert(ext[j] == ls[j]);
        let stepped = classify_spec(cfg, s, ls[j]);
        assert(pending_from(cfg, ls, j, s, i) == pending_from(cfg, ls, j + 1, stepped.0, i));
        lemma_insert_inert(cfg, ls, l, i, j + 1, stepped.0);
    }
}

/// Inserting a line of only whitespace anywhere leaves the parse unchanged.
pub proof fn lemma_blank_line_identity(
    cfg: ParseConfig,
    ls: Seq<Seq<char>>,
    l: Seq<char>,
    i: int,
)
    requires
        0 <= i <= ls.len(),
        is_blank_line(l),
    ensures
        parse_from(cfg, ls.insert(i, l), 0, Pending::Idle) == parse_from(
            cfg,
            ls,
            0,
            Pending::Idle,
        ),
{
    lemma_insert_inert(cfg, ls, l, i, 0, Pending::Idle);
}

/// Inserting a line that no pattern matches, at a position where the
/// classifier is idle, leaves the parse unchanged. (Between a highlight or
/// underline header and its body line the classifier is not idle, and there
/// such a line would be taken as the body.)
pub proof fn lemma_ignored_line_identity(
    cfg: ParseConfig,
    ls: Seq<Seq<char>>,
    l: Seq<char>,
    i: int,
)
    requires
        0 <= i <= ls.len(),
        matches_no_pattern(cfg, l),
        pending_at(cfg, ls, i) == Pending::Idle,
    ensures
        parse_from(cfg, ls.insert(i, l), 0, Pending::Idle) == parse_from(
            cfg,
            ls,
            0,
            Pending::Idle,
        ),
{
    lemma_insert_inert(cfg, ls, l, i, 0, Pending::Idle);
}

/// A `File: <rest>` line matches the file pattern, captures exactly
/// `<rest>`, and classifies to a single `File` record.
pub proof fn lemma_file_line_captures_rest(cfg: ParseConfig, rest: Seq<char>)
    requires
        rest.len() > 0,
    ensures
        is_file_line("File: "@ + rest),
        file_name_of("File: "@ + rest) == rest,
        classify_spec(cfg, Pending::Idle, "File: "@ + rest) == (
            Pending::Idle,
            seq![ItemModel::File(rest)],
            None::<ParseError>,
        ),
{
    reveal_strlit("File: ");
    let l = "File: "@ + rest;
    assert(l.subrange(0, 6) =~= "File: "@);
    assert(l.subrange(6, l.len() as int) =~= rest);
    assert(l[0] == 'F');
    assert(!is_blank_line(l));
}

/// How the logical and the physical page of one record relate under an
/// offset: equal for offset zero; physical is logical plus the offset when
/// it is positive; logical is physical plus the offset when it is negative.
pub open spec fn offset_relation(off: i32, it: ItemModel) -> bool {
    match it {
        ItemModel::PageNumber(lo, ph) => {
            if off == 0 {
                lo == ph
            } else if off > 0 {
                ph == lo + off
            } else {
                lo == ph + off
            }
        },
        _ => true,
    }
}

/// The offset law at one page: the pair is `(n, n)` for offset zero, the
/// offset is added to the logical page when positive and to the physical
/// page when negative, and a negative offset whose magnitude reaches the
/// page fails fatally.
pub proof fn lemma_resolver_offset_law(n: u32, k: i32)
    ensures
        crate::offset::spec_resolve(n, 0) == Ok::<(u32, u32), ParseError>((n, n)),
        k > 0 && n + k <= u32::MAX ==> crate::offset::spec_resolve(n, k) == Ok::<
            (u32, u32),
            ParseError,
        >((n, (n + k) as u32)),
        k < 0 && n + k > 0 ==> crate::offset::spec_resolve(n, k) == Ok::<(u32, u32), ParseError>(
            ((n + k) as u32, n),
        ),
        k < 0 && n + k <= 0 ==> crate::offset::spec_resolve(n, k) == Err::<
            (u32, u32),
            ParseError,
        >(ParseError::NonPositiveLogicalPage { page: n, offset: k }),
{
}

/// Every `PageNumber` record a successful parse emits satisfies the offset
/// relation of the configured offset.
pub proof fn lemma_offset_law(cfg: ParseConfig, ls: Seq<Seq<char>>, i: int, s: Pending)
    ensures
        parse_from(cfg, ls, i, s) matches Ok(items) ==> forall|j: int|
            0 <= j < items.len() ==> offset_relation(cfg.page_offset, #[trigger] items[j]),
    decreases ls.len() - i,
{
    if 0 <= i < ls.len() {
        let stepped = classify_spec(cfg, s, ls[i]);
        lemma_offset_law(cfg, ls, i + 1, stepped.0);
        if stepped.2 is None {
            match parse_from(cfg, ls, i + 1, stepped.0) {
                Ok(rest) => {
                    assert forall|j: int| 0 <= j < (stepped.1 + rest).len() implies
                        offset_relation(cfg.page_offset, #[trigger] (stepped.1 + rest)[j]) by {
                        if j < stepped.1.len() {
                            assert((stepped.1 + rest)[j] == stepped.1[j]);
                        } else {
                            assert((stepped.1 + rest)[j] == rest[j - stepped.1.len()]);
                        }
                    }
                },
                Err(_) => {},
            }
        }
    }
}

/// The offset law over a whole parse.
pub proof fn lemma_parse_offset_law(text: Seq<char>, cfg: ParseConfig)
    ensures
        spec_parse(text, cfg) matches Ok(items) ==> forall|j: int|
            0 <= j < items.len() ==> offset_relation(cfg.page_offset, #[trigger] items[j]),
{
    lemma_offset_law(cfg, spec_lines(text), 0, Pending::Idle);
}

/// Records preserve line order: the records of the first `m` lines stand,
/// unchanged and in order, before the records of the remaining lines; and
/// an error in the first `m` lines, or in the rest under the state the
/// first `m` lines leave, is the error of the whole parse.
pub proof fn lemma_parse_prefix(
    cfg: ParseConfig,
    ls: Seq<Seq<char>>,
    m: int,
    j: int,
    s: Pending,
)
    requires
        0 <= j <= m <= ls.len(),
    ensures
        ({
            let pre = parse_from(cfg, ls.subrange(0, m), j, s);
            let st = pending_from(cfg, ls, j, s, m);
            match pre {
                Ok(pref) => match parse_from(cfg, ls, m, st) {
                    Ok(rest) => parse_from(cfg, ls, j, s) == Ok::<Seq<ItemModel>, ParseError>(
                        pref + rest,
                    ),
                    Err(e) => parse_from(cfg, ls, j, s) == Err::<Seq<ItemModel>, ParseError>(e),
                },
                Err(e) => parse_from(cfg, ls, j, s) == Err::<Seq<ItemModel>, ParseError>(e),
            }
        }),
    decreases m - j,
{
    let cut = ls.subrange(0, m);
    if j == m {
        assert(pending_from(cfg, ls, j, s, m) == s);
        assert(parse_from(cfg, cut, m, s) == Ok::<Seq<ItemModel>, ParseError>(
            Seq::<ItemModel>::empty(),
        ));
        match parse_from(cfg, ls, m, s) {
            Ok(rest) => {
                assert(Seq::<ItemModel>::empty() + rest =~= rest);
            },
            Err(_) => {},
        }
    } else {
        assert(cut[j] == ls[j]);
        let stepped = classify_spec(cfg, s, ls[j]);
        assert(pending_from(cfg, ls, j, s, m) == pending_from(cfg, ls, j + 1, stepped.0, m));
        lemma_parse_prefix(cfg, ls, m, j + 1, stepped.0);
        if stepped.2 is None {
            let st = pending_from(cfg, ls, j, s, m);
            match parse_from(cfg, cut, j + 1, stepped.0) {
                Ok(p2) => {
                    match parse_from(cfg, ls, m, st) {
                        Ok(rest) => {
                            assert(parse_from(cfg, ls, j + 1, stepped.0) == Ok::<
                                Seq<ItemModel>,
                                ParseError,
                            >(p2 + rest));
                            assert(stepped.1 + (p2 + rest) =~= (stepped.1 + p2) + rest);
                        },
                        Err(_) => {},
                    }
                },
                Err(_) => {},
            }
        }
    }
}

/// The body output preserves record order: the body of the first `m`
/// records, followed by the body of the rest under the record before them,
/// is the body of the whole sequence.
pub proof fn lemma_body_prefix(items: Seq<ItemModel>, m: int, j: int, p: ItemModel)
    requires
        0 <= j <= m <= items.len(),
    ensures
        body_from(items, j, p) == body_from(items.subrange(0, m), j, p) + body_from(
            items,
            m,
            if j == m {
                p
            } else {
                items[m - 1]
            },
        ),
    decreases m - j,
{
    let cut = items.subrange(0, m);
    if j == m {
        assert(body_from(cut, m, p) == Seq::<char>::empty());
        assert(Seq::<char>::empty() + body_from(items, m, p) =~= body_from(items, m, p));
    } else {
        assert(cut[j] == items[j]);
        lemma_body_prefix(items, m, j + 1, items[j]);
        assert(rendered_item(items[j], p) + (body_from(cut, j + 1, items[j]) + body_from(
            items,
            m,
            if j + 1 == m {
                items[j]
            } else {
                items[m - 1]
            },
        )) =~= (rendered_item(items[j], p) + body_from(cut, j + 1, items[j])) + body_from(
            items,
            m,
            if j + 1 == m {
                items[j]
            } else {
                items[m - 1]
            },
        ));
    }
}

} // verus!
