//! The named line matchers, in specification and executable form: the
//! file header, the numeric and roman page indicators, and the highlight
//! and underline headers. Each matcher is anchored at the start of the
//! line; text after the matched part is ignored.

use vstd::prelude::*;

verus! {

use vstd::string::StrSliceExecFns;
use crate::text::{starts_with, str_starts_with, run_end, lemma_run_end, lemma_run_end_is};

// ---------------------------------------------------------------------------
// Digits and their value

/// An ASCII decimal digit.
pub open spec fn is_digit_char(c: char) -> bool {
    48 <= (c as u32) && (c as u32) <= 57
}

/// The value of one decimal digit.
pub open spec fn digit_char_val(c: char) -> nat
    recommends
        is_digit_char(c),
{
    ((c as u32) - 48) as nat
}

/// The value of a run of decimal digits, most significant first.
pub open spec fn digits_val(l: Seq<char>) -> nat
    decreases l.len(),
{
    if l.len() == 0 {
        0
    } else {
        digits_val(l.drop_last()) * 10 + digit_char_val(l.last())
    }
}

/// The value of a digit run never drops when the run is extended.
pub proof fn lemma_digits_val_prefix(l: Seq<char>, i: int, j: int)
    requires
        0 <= i <= j <= l.len(),
    ensures
        digits_val(l.subrange(0, i)) <= digits_val(l.subrange(0, j)),
    decreases j - i,
{
    if i < j {
        lemma_digits_val_prefix(l, i, j - 1);
        assert(l.subrange(0, j).drop_last() =~= l.subrange(0, j - 1));
        assert(digits_val(l.subrange(0, j)) == digits_val(l.subrange(0, j - 1)) * 10
            + digit_char_val(l.subrange(0, j).last()));
    }
}

/// Reads the digit run `l[from..to]` as an unsigned integer, or reports that
/// its value does not fit in `u32`.
pub fn parse_u32_digits(l: &str, from: usize, to: usize) -> (r: Option<u32>)
    requires
        from <= to <= l@.len(),
        forall|i: int| from <= i < to ==> is_digit_char(#[trigger] l@[i]),
    ensures
        match r {
            Some(v) => v as nat == digits_val(l@.subrange(from as int, to as int)),
            None => digits_val(l@.subrange(from as int, to as int)) > u32::MAX,
        },
{
    let ghost ds = l@.subrange(from as int, to as int);
    let mut acc: u32 = 0;
    let mut i: usize = from;
    proof {
        assert(ds.subrange(0, 0) =~= Seq::<char>::empty());
    }
    while i < to
        invariant
            from <= i <= to <= l@.len(),
            ds == l@.subrange(from as int, to as int),
            forall|j: int| from <= j < to ==> is_digit_char(#[trigger] l@[j]),
            acc as nat == digits_val(ds.subrange(0, i - from)),
        decreases to - i,
    {
        let c = l.get_char(i);
        let ghost k = i - from;
        proof {
            assert(ds[k] == l@[i as int]);
            assert(ds.subrange(0, k + 1).drop_last() =~= ds.subrange(0, k));
            assert(ds.subrange(0, k + 1).last() == ds[k]);
        }
        let d: u32 = (c as u32) - 48;
        let wide: u64 = (acc as u64) * 10 + (d as u64);
        if wide > u32::MAX as u64 {
            proof {
                lemma_digits_val_prefix(ds, k + 1, ds.len() as int);
                assert(ds.subrange(0, ds.len() as int) =~= ds);
            }
            return None;
        }
        acc = wide as u32;
        i = i + 1;
    }
    proof {
        assert(ds.subrange(0, to - from) =~= ds);
    }
    Some(acc)
}

// ---------------------------------------------------------------------------
// Character classes used by the matchers

/// A lowercase roman numeral letter.
pub open spec fn is_roman_char(c: char) -> bool {
    c == 'm' || c == 'd' || c == 'c' || c == 'l' || c == 'x' || c == 'v' || c == 'i'
}

/// Case-insensitive equality of two characters, ASCII letters only.
pub open spec fn chars_eq_ci(a: char, b: char) -> bool {
    (a as u32) == (b as u32)
    || (65 <= (a as u32) && (a as u32) <= 90 && (b as u32) == (a as u32) + 32)
    || (65 <= (b as u32) && (b as u32) <= 90 && (a as u32) == (b as u32) + 32)
}

/// True when `p` is a prefix of `l` up to ASCII case.
pub open spec fn starts_with_ci(l: Seq<char>, p: Seq<char>) -> bool {
    l.len() >= p.len() && forall|i: int| 0 <= i < p.len() ==> chars_eq_ci(#[trigger] l[i], p[i])
}

pub open spec fn digit_pred() -> spec_fn(char) -> bool {
    |c: char| is_digit_char(c)
}

pub open spec fn roman_pred() -> spec_fn(char) -> bool {
    |c: char| is_roman_char(c)
}

pub open spec fn not_rparen_pred() -> spec_fn(char) -> bool {
    |c: char| c != ')'
}

/// Exec check of [`chars_eq_ci`].
pub fn char_eq_ci(a: char, b: char) -> (r: bool)
    ensures
        r == chars_eq_ci(a, b),
{
    let ua: u32 = a as u32;
    let ub: u32 = b as u32;
    ua == ub || (65 <= ua && ua <= 90 && ub == ua + 32) || (65 <= ub && ub <= 90 && ua == ub + 32)
}

/// Exec check of [`starts_with_ci`].
pub fn str_starts_with_ci(l: &str, p: &str) -> (b: bool)
    ensures
        b == starts_with_ci(l@, p@),
{
    let n: usize = l.unicode_len();
    let m: usize = p.unicode_len();
    if n < m {
        return false;
    }
    let mut i: usize = 0;
    while i < m
        invariant
            n == l@.len(),
            m == p@.len(),
            m <= n,
            0 <= i <= m,
            forall|j: int| 0 <= j < i ==> chars_eq_ci(#[trigger] l@[j], p@[j]),
        decreases m - i,
    {
        if !char_eq_ci(l.get_char(i), p.get_char(i)) {
            return false;
        }
        i = i + 1;
    }
    true
}

// ---------------------------------------------------------------------------
// Run scans

/// First position at or after `from` that does not hold a digit.
fn digit_run_end(l: &str, from: usize) -> (e: usize)
    requires
        from <= l@.len(),
    ensures
        e as int == run_end(l@, from as int, digit_pred()),
        from <= e <= l@.len(),
{
    let n: usize = l.unicode_len();
    let mut i: usize = from;
    while i < n
        invariant
            n == l@.len(),
            from <= i <= n,
            forall|j: int| from <= j < i ==> is_digit_char(#[trigger] l@[j]),
        decreases n - i,
    {
        let c = l.get_char(i);
        let u: u32 = c as u32;
        if !(48 <= u && u <= 57) {
            proof {
                lemma_run_end_is(l@, from as int, digit_pred(), i as int);
            }
            return i;
        }
        i = i + 1;
    }
    proof {
        lemma_run_end_is(l@, from as int, digit_pred(), n as int);
    }
    n
}

/// First position at or after `from` that does not hold a roman letter.
fn roman_run_end(l: &str, from: usize) -> (e: usize)
    requires
        from <= l@.len(),
    ensures
        e as int == run_end(l@, from as int, roman_pred()),
        from <= e <= l@.len(),
{
    let n: usize = l.unicode_len();
    let mut i: usize = from;
    while i < n
        invariant
            n == l@.len(),
            from <= i <= n,
            forall|j: int| from <= j < i ==> is_roman_char(#[trigger] l@[j]),
        decreases n - i,
    {
        let c = l.get_char(i);
        if !(c == 'm' || c == 'd' || c == 'c' || c == 'l' || c == 'x' || c == 'v' || c == 'i') {
            proof {
                lemma_run_end_is(l@, from as int, roman_pred(), i as int);
            }
            return i;
        }
        i = i + 1;
    }
    proof {
        lemma_run_end_is(l@, from as int, roman_pred(), n as int);
    }
    n
}

/// First position at or after `from` holding a closing parenthesis.
fn rparen_run_end(l: &str, from: usize) -> (e: usize)
    requires
        from <= l@.len(),
    ensures
        e as int == run_end(l@, from as int, not_rparen_pred()),
        from <= e <= l@.len(),
{
    let n: usize = l.unicode_len();
    let mut i: usize = from;
    while i < n
        invariant
            n == l@.len(),
            from <= i <= n,
            forall|j: int| from <= j < i ==> l@[j] != ')',
        decreases n - i,
    {
        if l.get_char(i) == ')' {
            proof {
                lemma_run_end_is(l@, from as int, not_rparen_pred(), i as int);
            }
            return i;
        }
        i = i + 1;
    }
    proof {
        lemma_run_end_is(l@, from as int, not_rparen_pred(), n as int);
    }
    n
}

// ---------------------------------------------------------------------------
// The file header

/// A `File: <rest>` header with a nonempty rest.
pub open spec fn is_file_line(l: Seq<char>) -> bool {
    l.len() > "File: "@.len() && starts_with(l, "File: "@)
}

/// The captured name: everything after the literal prefix, unmodified.
pub open spec fn file_name_of(l: Seq<char>) -> Seq<char> {
    l.subrange("File: "@.len() as int, l.len() as int)
}

/// Matches a file header and captures the name after it.
pub fn file_capture<'a>(l: &'a str) -> (r: Option<&'a str>)
    ensures
        match r {
            Some(rest) => is_file_line(l@) && rest@ == file_name_of(l@),
            None => !is_file_line(l@),
        },
{
    proof {
        reveal_strlit("File: ");
    }
    let n: usize = l.unicode_len();
    if str_starts_with(l, "File: ") && n > 6 {
        Some(l.substring_char(6, n))
    } else {
        None
    }
}

// ---------------------------------------------------------------------------
// The page indicators

/// End of the digit run after the page prefix.
pub open spec fn page_digits_end(l: Seq<char>) -> int {
    run_end(l, "--- Page "@.len() as int, digit_pred())
}

/// A `--- Page <digits> ---` indicator: the page prefix, at least one digit,
/// then a space and three dashes.
pub open spec fn is_page_number_line(l: Seq<char>) -> bool {
    let b = "--- Page "@.len() as int;
    let e = page_digits_end(l);
    starts_with(l, "--- Page "@) && e > b && e + 4 <= l.len() && l.subrange(e, e + 4) == " ---"@
}

/// The annotated page number, as an unbounded integer.
pub open spec fn page_number_value(l: Seq<char>) -> nat {
    digits_val(l.subrange("--- Page "@.len() as int, page_digits_end(l)))
}

/// End of the roman-letter run after the page prefix.
pub open spec fn page_roman_end(l: Seq<char>) -> int {
    run_end(l, "--- Page "@.len() as int, roman_pred())
}

/// A `--- Page <roman-letters> ---` indicator, lowercase letters only.
pub open spec fn is_page_roman_line(l: Seq<char>) -> bool {
    let b = "--- Page "@.len() as int;
    let e = page_roman_end(l);
    starts_with(l, "--- Page "@) && e > b && e + 4 <= l.len() && l.subrange(e, e + 4) == " ---"@
}

/// The captured roman label, verbatim.
pub open spec fn page_roman_label(l: Seq<char>) -> Seq<char> {
    l.subrange("--- Page "@.len() as int, page_roman_end(l))
}

/// Matches a numeric page indicator. `None`: no match. `Some(None)`: the
/// indicator matches but its value does not fit in `u32`. `Some(Some(v))`:
/// the indicator matches with value `v`.
pub fn page_number_capture(l: &str) -> (r: Option<Option<u32>>)
    ensures
        match r {
            None => !is_page_number_line(l@),
            Some(None) => is_page_number_line(l@) && page_number_value(l@) > u32::MAX,
            Some(Some(v)) => is_page_number_line(l@) && v as nat == page_number_value(l@),
        },
{
    proof {
        reveal_strlit("--- Page ");
        reveal_strlit(" ---");
    }
    let n: usize = l.unicode_len();
    if !str_starts_with(l, "--- Page ") {
        return None;
    }
    let e: usize = digit_run_end(l, 9);
    proof {
        lemma_run_end(l@, 9, digit_pred());
    }
    if e == 9 {
        return None;
    }
    if n - e < 4 {
        return None;
    }
    if l.get_char(e) == ' ' && l.get_char(e + 1) == '-' && l.get_char(e + 2) == '-' && l.get_char(
        e + 3,
    ) == '-' {
        proof {
            assert(l@.subrange(e as int, e as int + 4) =~= " ---"@);
        }
        match parse_u32_digits(l, 9, e) {
            Some(v) => Some(Some(v)),
            None => Some(None),
        }
    } else {
        proof {
            assert(l@.subrange(e as int, e as int + 4) != " ---"@) by {
                if l@.subrange(e as int, e as int + 4) == " ---"@ {
                    assert(l@.subrange(e as int, e as int + 4)[0] == ' ');
                    assert(l@.subrange(e as int, e as int + 4)[1] == '-');
                    assert(l@.subrange(e as int, e as int + 4)[2] == '-');
                    assert(l@.subrange(e as int, e as int + 4)[3] == '-');
                }
            }
        }
        None
    }
}

/// Matches a roman page indicator and captures the label.
pub fn page_roman_capture<'a>(l: &'a str) -> (r: Option<&'a str>)
    ensures
        match r {
            Some(label) => is_page_roman_line(l@) && label@ == page_roman_label(l@),
            None => !is_page_roman_line(l@),
        },
{
    proof {
        reveal_strlit("--- Page ");
        reveal_strlit(" ---");
    }
    let n: usize = l.unicode_len();
    if !str_starts_with(l, "--- Page ") {
        return None;
    }
    let e: usize = roman_run_end(l, 9);
    proof {
        lemma_run_end(l@, 9, roman_pred());
    }
    if e == 9 {
        return None;
    }
    if n - e < 4 {
        return None;
    }
    if l.get_char(e) == ' ' && l.get_char(e + 1) == '-' && l.get_char(e + 2) == '-' && l.get_char(
        e + 3,
    ) == '-' {
        proof {
            assert(l@.subrange(e as int, e as int + 4) =~= " ---"@);
        }
        Some(l.substring_char(9, e))
    } else {
        proof {
            assert(l@.subrange(e as int, e as int + 4) != " ---"@) by {
                if l@.subrange(e as int, e as int + 4) == " ---"@ {
                    assert(l@.subrange(e as int, e as int + 4)[0] == ' ');
                    assert(l@.subrange(e as int, e as int + 4)[1] == '-');
                    assert(l@.subrange(e as int, e as int + 4)[2] == '-');
                    assert(l@.subrange(e as int, e as int + 4)[3] == '-');
                }
            }
        }
        None
    }
}

// ---------------------------------------------------------------------------
// The highlight and underline headers

/// A colon directly after position `b`.
pub open spec fn colon_after(l: Seq<char>, b: int) -> bool {
    b < l.len() && l[b] == ':'
}

/// A ` (<qualifier>):` after position `b`: a space, an opening parenthesis,
/// at least one character other than a closing parenthesis, the closing
/// parenthesis, and the colon.
pub open spec fn qualified_colon_after(l: Seq<char>, b: int) -> bool {
    b + 1 < l.len() && l[b] == ' ' && l[b + 1] == '(' && {
        let k = run_end(l, b + 2, not_rparen_pred());
        k > b + 2 && k + 1 < l.len() && l[k + 1] == ':'
    }
}

/// What may follow a header keyword: a colon, optionally preceded by a
/// parenthesized qualifier.
pub open spec fn header_tail_ok(l: Seq<char>, b: int) -> bool {
    colon_after(l, b) || qualified_colon_after(l, b)
}

/// A `Highlight:` or `Highlight (<qualifier>):` header, case-sensitive.
pub open spec fn is_highlight_line(l: Seq<char>) -> bool {
    starts_with(l, "Highlight"@) && header_tail_ok(l, "Highlight"@.len() as int)
}

/// An `Underline:` or `Underline (<qualifier>):` header, case-sensitive.
pub open spec fn is_underline_line(l: Seq<char>) -> bool {
    starts_with(l, "Underline"@) && header_tail_ok(l, "Underline"@.len() as int)
}

/// The underline keyword up to ASCII case, with its tail.
pub open spec fn is_underline_line_ci(l: Seq<char>) -> bool {
    starts_with_ci(l, "Underline"@) && header_tail_ok(l, "Underline"@.len() as int)
}

/// The extended underline header: the underline keyword, optionally preceded
/// by `Squiggly `, everything up to ASCII case.
pub open spec fn is_underline_line_ext(l: Seq<char>) -> bool {
    is_underline_line_ci(l) || (starts_with_ci(l, "Squiggly "@) && is_underline_line_ci(
        l.skip("Squiggly "@.len() as int),
    ))
}

/// Exec check of [`header_tail_ok`].
fn header_tail_check(l: &str, b: usize) -> (r: bool)
    requires
        b <= l@.len(),
    ensures
        r == header_tail_ok(l@, b as int),
{
    let n: usize = l.unicode_len();
    if b < n && l.get_char(b) == ':' {
        return true;
    }
    if b < n && l.get_char(b) == ' ' && b + 1 < n && l.get_char(b + 1) == '(' {
        let k: usize = rparen_run_end(l, b + 2);
        proof {
            lemma_run_end(l@, b as int + 2, not_rparen_pred());
        }
        if k > b + 2 && k < n && k + 1 < n && l.get_char(k + 1) == ':' {
            return true;
        }
        return false;
    }
    false
}

/// Exec check of [`is_highlight_line`].
pub fn is_highlight_header(l: &str) -> (b: bool)
    ensures
        b == is_highlight_line(l@),
{
    proof {
        reveal_strlit("Highlight");
    }
    if !str_starts_with(l, "Highlight") {
        return false;
    }
    header_tail_check(l, 9)
}

/// Exec check of [`is_underline_line`].
pub fn is_underline_header(l: &str) -> (b: bool)
    ensures
        b == is_underline_line(l@),
{
    proof {
        reveal_strlit("Underline");
    }
    if !str_starts_with(l, "Underline") {
        return false;
    }
    header_tail_check(l, 9)
}

/// Exec check of [`is_underline_line_ext`].
pub fn is_underline_header_ext(l: &str) -> (b: bool)
    ensures
        b == is_underline_line_ext(l@),
{
    proof {
        reveal_strlit("Underline");
        reveal_strlit("Squiggly ");
    }
    let n: usize = l.unicode_len();
    if str_starts_with_ci(l, "Underline") {
        proof {
            assert(!starts_with_ci(l@, "Squiggly "@)) by {
                if starts_with_ci(l@, "Squiggly "@) {
                    assert(chars_eq_ci(l@[0], "Underline"@[0]));
                    assert(chars_eq_ci(l@[0], "Squiggly "@[0]));
                }
            }
        }
        return header_tail_check(l, 9);
    }
    if str_starts_with_ci(l, "Squiggly ") {
        let sub = l.substring_char(9, n);
        proof {
            assert(sub@ =~= l@.skip(9));
        }
        if str_starts_with_ci(sub, "Underline") {
            return header_tail_check(sub, 9);
        }
        return false;
    }
    false
}

} // verus!
