//! The plain annotation parser: no configuration, page indicators are
//! always emitted with their annotated number, roman page labels are not
//! recognized, and the underline header is matched case-sensitively without
//! a `Squiggly ` prefix.

use vstd::prelude::*;

verus! {

use crate::records::{ParseError, Pending};
use crate::text::{is_blank, is_blank_line, spec_lines, split_lines};
use crate::matchers::{
    file_capture, file_name_of, is_file_line, is_highlight_header, is_highlight_line,
    is_page_number_line, is_underline_header, is_underline_line, page_number_capture,
    page_number_value,
};

/// Item that this parser emits.
#[derive(Debug, Clone, PartialEq)]
pub enum Item {
    /// The file which was annotated.
    File(String),
    /// A page number indicator, as annotated.
    Page(u32),
    /// A highlighted passage.
    Highlight(String),
    /// An underlined passage.
    Underline(String),
}

/// Mathematical model of an [`Item`].
pub enum BareItemModel {
    File(Seq<char>),
    Page(u32),
    Highlight(Seq<char>),
    Underline(Seq<char>),
}

impl View for Item {
    type V = BareItemModel;

    open spec fn view(&self) -> BareItemModel {
        match self {
            Item::File(s) => BareItemModel::File(s@),
            Item::Page(n) => BareItemModel::Page(*n),
            Item::Highlight(s) => BareItemModel::Highlight(s@),
            Item::Underline(s) => BareItemModel::Underline(s@),
        }
    }
}

impl DeepView for Item {
    type V = BareItemModel;

    open spec fn deep_view(&self) -> BareItemModel {
        self.view()
    }
}

/// One classification step of this parser: the updated pending state, the
/// records emitted for the line, and the fatal error if the annotated page
/// number does not fit in `u32`.
pub open spec fn classify_bare_spec(s: Pending, l: Seq<char>) -> (
    Pending,
    Seq<BareItemModel>,
    Option<ParseError>,
) {
    if is_blank_line(l) {
        (s, Seq::<BareItemModel>::empty(), None::<ParseError>)
    } else {
        match s {
            Pending::AwaitingHighlightBody => (
                Pending::Idle,
                seq![BareItemModel::Highlight(l)],
                None::<ParseError>,
            ),
            Pending::AwaitingUnderlineBody => (
                Pending::Idle,
                seq![BareItemModel::Underline(l)],
                None::<ParseError>,
            ),
            Pending::Idle => {
                if is_file_line(l) {
                    (Pending::Idle, seq![BareItemModel::File(file_name_of(l))], None::<ParseError>)
                } else if is_page_number_line(l) {
                    let v = page_number_value(l);
                    if v > u32::MAX {
                        (
                            Pending::Idle,
                            Seq::<BareItemModel>::empty(),
                            Some(ParseError::PageNumberTooLarge),
                        )
                    } else {
                        (Pending::Idle, seq![BareItemModel::Page(v as u32)], None::<ParseError>)
                    }
                } else if is_highlight_line(l) {
                    (
                        Pending::AwaitingHighlightBody,
                        Seq::<BareItemModel>::empty(),
                        None::<ParseError>,
                    )
                } else if is_underline_line(l) {
                    (
                        Pending::AwaitingUnderlineBody,
                        Seq::<BareItemModel>::empty(),
                        None::<ParseError>,
                    )
                } else {
                    (Pending::Idle, Seq::<BareItemModel>::empty(), None::<ParseError>)
                }
            },
        }
    }
}

/// The records of lines `ls[i..]` under this parser, starting in pending
/// state `s`, in line order; or the first fatal error.
pub open spec fn parse_bare_from(ls: Seq<Seq<char>>, i: int, s: Pending) -> Result<
    Seq<BareItemModel>,
    ParseError,
>
    decreases ls.len() - i,
{
    if i < 0 || i >= ls.len() {
        Ok(Seq::<BareItemModel>::empty())
    } else {
        let stepped = classify_bare_spec(s, ls[i]);
        match stepped.2 {
            Some(e) => Err(e),
            None => match parse_bare_from(ls, i + 1, stepped.0) {
                Ok(rest) => Ok(stepped.1 + rest),
                Err(e) => Err(e),
            },
        }
    }
}

/// What parsing a whole dump with this parser yields.
pub open spec fn spec_parse_bare(text: Seq<char>) -> Result<Seq<BareItemModel>, ParseError> {
    parse_bare_from(spec_lines(text), 0, Pending::Idle)
}

/// Classifies one line under the carried pending state.
pub fn classify_bare_line(line: &str, state: Pending) -> (r: (
    Pending,
    Result<Option<Item>, ParseError>,
))
    ensures
        ({
            let stepped = classify_bare_spec(state, line@);
            r.0 == stepped.0 && match r.1 {
                Ok(Some(item)) => stepped.2 is None && stepped.1 == seq![item@],
                Ok(None) => stepped.2 is None && stepped.1 == Seq::<BareItemModel>::empty(),
                Err(e) => stepped.2 == Some(e),
            }
        }),
{
    if is_blank(line) {
        return (state, Ok(None));
    }
    match state {
        Pending::AwaitingHighlightBody => (Pending::Idle, Ok(Some(Item::Highlight(line.to_owned())))),
        Pending::AwaitingUnderlineBody => (Pending::Idle, Ok(Some(Item::Underline(line.to_owned())))),
        Pending::Idle => {
            if let Some(rest) = file_capture(line) {
                return (Pending::Idle, Ok(Some(Item::File(rest.to_owned()))));
            }
            match page_number_capture(line) {
                Some(Some(v)) => {
                    return (Pending::Idle, Ok(Some(Item::Page(v))));
                },
                Some(None) => {
                    return (Pending::Idle, Err(ParseError::PageNumberTooLarge));
                },
                None => {},
            }
            if is_highlight_header(line) {
                return (Pending::AwaitingHighlightBody, Ok(None));
            }
            if is_underline_header(line) {
                return (Pending::AwaitingUnderlineBody, Ok(None));
            }
            (Pending::Idle, Ok(None))
        },
    }
}

/// Parses the provided GoodReader annotations, emitting an [`Item`] for each
/// identified annotation. The result is exactly what [`spec_parse_bare`]
/// states: the records of the dump's lines in order, or the fatal error for
/// an oversized page number.
pub fn parse_goodreader_annotations(annotations: &str) -> (r: Result<Vec<Item>, ParseError>)
    ensures
        match r {
            Ok(items) => spec_parse_bare(annotations@) == Ok::<Seq<BareItemModel>, ParseError>(
                items.deep_view(),
            ),
            Err(e) => spec_parse_bare(annotations@) == Err::<Seq<BareItemModel>, ParseError>(e),
        },
{
    let lines = split_lines(annotations);
    let ghost lds = lines.deep_view();
    let n: usize = lines.len();
    let mut state = Pending::Idle;
    let mut acc: Vec<Item> = Vec::new();
    proof {
        assert(acc.deep_view() =~= Seq::<BareItemModel>::empty());
    }
    let mut i: usize = 0;
    while i < n
        invariant
            n == lines.len(),
            lds == lines.deep_view(),
            lds == spec_lines(annotations@),
            0 <= i <= n,
            match parse_bare_from(lds, i as int, state) {
                Ok(rest) => parse_bare_from(lds, 0, Pending::Idle) == Ok::<
                    Seq<BareItemModel>,
                    ParseError,
                >(acc.deep_view() + rest),
                Err(e) => parse_bare_from(lds, 0, Pending::Idle) == Err::<
                    Seq<BareItemModel>,
                    ParseError,
                >(e),
            },
        decreases n - i,
    {
        let line: &str = lines[i];
        proof {
            assert(line@ == lds[i as int]);
        }
        let ghost prev_state = state;
        let ghost old_acc = acc.deep_view();
        let (s2, res) = classify_bare_line(line, state);
        state = s2;
        match res {
            Err(e) => {
                proof {
                    assert(parse_bare_from(lds, i as int, prev_state) == Err::<
                        Seq<BareItemModel>,
                        ParseError,
                    >(e));
                }
                return Err(e);
            },
            Ok(opt) => {
                let ghost stepped = classify_bare_spec(prev_state, lds[i as int]);
                match opt {
                    Some(item) => {
                        let ghost iv = item@;
                        acc.push(item);
                        proof {
                            assert(acc.deep_view() =~= old_acc + seq![iv]);
                        }
                    },
                    None => {},
                }
                proof {
                    match parse_bare_from(lds, i as int + 1, stepped.0) {
                        Ok(rest2) => {
                            assert(parse_bare_from(lds, i as int, prev_state) == Ok::<
                                Seq<BareItemModel>,
                                ParseError,
                            >(stepped.1 + rest2));
                            assert(old_acc + (stepped.1 + rest2) =~= (old_acc + stepped.1)
                                + rest2);
                            assert(acc.deep_view() =~= old_acc + stepped.1);
                        },
                        Err(_) => {},
                    }
                }
            },
        }
        i = i + 1;
    }
    proof {
        assert(parse_bare_from(lds, n as int, state) == Ok::<Seq<BareItemModel>, ParseError>(
            Seq::<BareItemModel>::empty(),
        ));
        assert(acc.deep_view() + Seq::<BareItemModel>::empty() =~= acc.deep_view());
    }
    Ok(acc)
}

} // verus!
