//! The annotation parser: drives the line classifier across the whole dump,
//! producing the ordered record sequence, under a [`ParseConfig`].

use vstd::prelude::*;

verus! {

use crate::records::{ItemModel, ParseConfig, ParseError, ParsedItem, Pending};
use crate::text::{is_blank, is_blank_line, spec_lines, split_lines};
use crate::matchers::{
    file_capture, file_name_of, is_file_line, is_highlight_header, is_highlight_line,
    is_page_number_line, is_page_roman_line, is_underline_header_ext, is_underline_line_ext,
    page_number_capture, page_number_value, page_roman_capture, page_roman_label,
};
use crate::offset::{resolve_page, spec_resolve};

/// One classification step: given the configuration, the pending state and
/// one line, the updated pending state, the records emitted for the line
/// (none or one), and the fatal error if the line carries one. Blank lines
/// are discarded before classification; a pending body line is taken
/// verbatim; otherwise the matchers apply in their fixed priority order and
/// a line matching none of them is ignored.
pub open spec fn classify_spec(cfg: ParseConfig, s: Pending, l: Seq<char>) -> (
    Pending,
    Seq<ItemModel>,
    Option<ParseError>,
) {
    if is_blank_line(l) {
        (s, Seq::<ItemModel>::empty(), None::<ParseError>)
    } else {
        match s {
            Pending::AwaitingHighlightBody => (
                Pending::Idle,
                seq![ItemModel::Highlight(l)],
                None::<ParseError>,
            ),
            Pending::AwaitingUnderlineBody => (
                Pending::Idle,
                seq![ItemModel::Underline(l)],
                None::<ParseError>,
            ),
            Pending::Idle => {
                if is_file_line(l) {
                    (Pending::Idle, seq![ItemModel::File(file_name_of(l))], None::<ParseError>)
                } else if cfg.page_numbers && is_page_number_line(l) {
                    let v = page_number_value(l);
                    if v > u32::MAX {
                        (
                            Pending::Idle,
                            Seq::<ItemModel>::empty(),
                            Some(ParseError::PageNumberTooLarge),
                        )
                    } else {
                        match spec_resolve(v as u32, cfg.page_offset) {
                            Ok(p) => (
                                Pending::Idle,
                                seq![ItemModel::PageNumber(p.0, p.1)],
                                None::<ParseError>,
                            ),
                            Err(e) => (Pending::Idle, Seq::<ItemModel>::empty(), Some(e)),
                        }
                    }
                } else if cfg.page_numbers && is_page_roman_line(l) {
                    (
                        Pending::Idle,
                        seq![ItemModel::PageRoman(page_roman_label(l))],
                        None::<ParseError>,
                    )
                } else if is_highlight_line(l) {
                    (Pending::AwaitingHighlightBody, Seq::<ItemModel>::empty(), None::<ParseError>)
                } else if is_underline_line_ext(l) {
                    (Pending::AwaitingUnderlineBody, Seq::<ItemModel>::empty(), None::<ParseError>)
                } else {
                    (Pending::Idle, Seq::<ItemModel>::empty(), None::<ParseError>)
                }
            },
        }
    }
}

/// The records of lines `ls[i..]`, starting in pending state `s`: the
/// concatenation, in line order, of what each line emits; or the first fatal
/// error. A pending header left at the end of input emits nothing.
pub open spec fn parse_from(cfg: ParseConfig, ls: Seq<Seq<char>>, i: int, s: Pending) -> Result<
    Seq<ItemModel>,
    ParseError,
>
    decreases ls.len() - i,
{
    if i < 0 || i >= ls.len() {
        Ok(Seq::<ItemModel>::empty())
    } else {
        let stepped = classify_spec(cfg, s, ls[i]);
        match stepped.2 {
            Some(e) => Err(e),
            None => match parse_from(cfg, ls, i + 1, stepped.0) {
                Ok(rest) => Ok(stepped.1 + rest),
                Err(e) => Err(e),
            },
        }
    }
}

/// What parsing a whole dump yields.
pub open spec fn spec_parse(text: Seq<char>, cfg: ParseConfig) -> Result<
    Seq<ItemModel>,
    ParseError,
> {
    parse_from(cfg, spec_lines(text), 0, Pending::Idle)
}

/// The pending state after classifying lines `ls[j..i]`, starting from `s`.
pub open spec fn pending_from(
    cfg: ParseConfig,
    ls: Seq<Seq<char>>,
    j: int,
    s: Pending,
    i: int,
) -> Pending
    decreases i - j,
{
    if j < 0 || j >= i || j >= ls.len() {
        s
    } else {
        pending_from(cfg, ls, j + 1, classify_spec(cfg, s, ls[j]).0, i)
    }
}

/// The pending state the classifier carries when it reaches line `i`.
pub open spec fn pending_at(cfg: ParseConfig, ls: Seq<Seq<char>>, i: int) -> Pending {
    pending_from(cfg, ls, 0, Pending::Idle, i)
}

/// The line classifier: classifies one line under the carried pending state,
/// returning the updated state and the emitted record, if any, or the fatal
/// error the line carries.
pub fn classify_line(line: &str, state: Pending, config: &ParseConfig) -> (r: (
    Pending,
    Result<Option<ParsedItem>, ParseError>,
))
    ensures
        ({
            let stepped = classify_spec(*config, state, line@);
            r.0 == stepped.0 && match r.1 {
                Ok(Some(item)) => stepped.2 is None && stepped.1 == seq![item@],
                Ok(None) => stepped.2 is None && stepped.1 == Seq::<ItemModel>::empty(),
                Err(e) => stepped.2 == Some(e),
            }
        }),
{
    if is_blank(line) {
        return (state, Ok(None));
    }
    match state {
        Pending::AwaitingHighlightBody => (
            Pending::Idle,
            Ok(Some(ParsedItem::Highlight(line.to_owned()))),
        ),
        Pending::AwaitingUnderlineBody => (
            Pending::Idle,
            Ok(Some(ParsedItem::Underline(line.to_owned()))),
        ),
        Pending::Idle => {
            if let Some(rest) = file_capture(line) {
                return (Pending::Idle, Ok(Some(ParsedItem::File(rest.to_owned()))));
            }
            if config.page_numbers {
                match page_number_capture(line) {
                    Some(Some(v)) => {
                        return match resolve_page(v, config.page_offset) {
                            Ok((lo, ph)) => (Pending::Idle, Ok(Some(ParsedItem::PageNumber(lo, ph)))),
                            Err(e) => (Pending::Idle, Err(e)),
                        };
                    },
                    Some(None) => {
                        return (Pending::Idle, Err(ParseError::PageNumberTooLarge));
                    },
                    None => {},
                }
                if let Some(label) = page_roman_capture(line) {
                    return (Pending::Idle, Ok(Some(ParsedItem::PageRoman(label.to_owned()))));
                }
            }
            if is_highlight_header(line) {
                return (Pending::AwaitingHighlightBody, Ok(None));
            }
            if is_underline_header_ext(line) {
                return (Pending::AwaitingUnderlineBody, Ok(None));
            }
            (Pending::Idle, Ok(None))
        },
    }
}

/// Parses the provided GoodReader annotations, emitting a [`ParsedItem`] for
/// each identified annotation and page indicators if so configured. The
/// result is exactly what [`spec_parse`] states: the records of the dump's
/// lines in order, or the first fatal configuration error.
pub fn parse_goodreader_annotations(annotations: &str, config: &ParseConfig) -> (r: Result<
    Vec<ParsedItem>,
    ParseError,
>)
    ensures
        match r {
            Ok(items) => spec_parse(annotations@, *config) == Ok::<Seq<ItemModel>, ParseError>(
                items.deep_view(),
            ),
            Err(e) => spec_parse(annotations@, *config) == Err::<Seq<ItemModel>, ParseError>(e),
        },
{
    let lines = split_lines(annotations);
    let ghost lds = lines.deep_view();
    let n: usize = lines.len();
    let mut state = Pending::Idle;
    let mut acc: Vec<ParsedItem> = Vec::new();
    proof {
        assert(acc.deep_view() =~= Seq::<ItemModel>::empty());
    }
    let mut i: usize = 0;
    while i < n
        invariant
            n == lines.len(),
            lds == lines.deep_view(),
            lds == spec_lines(annotations@),
            0 <= i <= n,
            match parse_from(*config, lds, i as int, state) {
                Ok(rest) => parse_from(*config, lds, 0, Pending::Idle) == Ok::<
                    Seq<ItemModel>,
                    ParseError,
                >(acc.deep_view() + rest),
                Err(e) => parse_from(*config, lds, 0, Pending::Idle) == Err::<
                    Seq<ItemModel>,
                    ParseError,
                >(e),
            },
        decreases n - i,
    {
        let line: &str = lines[i];
        proof {
            assert(line@ == lds[i as int]);
        }
        let ghost prev_state = state;
        let ghost old_acc = acc.deep_view();
        let (s2, res) = classify_line(line, state, config);
        state = s2;
        match res {
            Err(e) => {
                proof {
                    assert(parse_from(*config, lds, i as int, prev_state) == Err::<
                        Seq<ItemModel>,
                        ParseError,
                    >(e));
                }
                return Err(e);
            },
            Ok(opt) => {
                let ghost stepped = classify_spec(*config, prev_state, lds[i as int]);
                match opt {
                    Some(item) => {
                        let ghost iv = item@;
                        acc.push(item);
                        proof {
                            assert(acc.deep_view() =~= old_acc + seq![iv]);
                        }
                    },
                    None => {},
                }
                proof {
                    match parse_from(*config, lds, i as int + 1, stepped.0) {
                        Ok(rest2) => {
                            assert(parse_from(*config, lds, i as int, prev_state) == Ok::<
                                Seq<ItemModel>,
                                ParseError,
                            >(stepped.1 + rest2));
                            assert(old_acc + (stepped.1 + rest2) =~= (old_acc + stepped.1)
                                + rest2);
                            assert(acc.deep_view() =~= old_acc + stepped.1);
                        },
                        Err(_) => {},
                    }
                }
            },
        }
        i = i + 1;
    }
    proof {
        assert(parse_from(*config, lds, n as int, state) == Ok::<Seq<ItemModel>, ParseError>(
            Seq::<ItemModel>::empty(),
        ));
        assert(acc.deep_view() + Seq::<ItemModel>::empty() =~= acc.deep_view());
    }
    Ok(acc)
}

} // verus!
