//! Text utilities: splitting an annotation dump into lines, blank-line
//! detection, and maximal character runs. Everything is specified over
//! `Seq<char>` views.

use vstd::prelude::*;

verus! {

use vstd::string::StrSliceExecFns;

/// ASCII whitespace: the characters a line may consist of and still be
/// treated as empty.
pub open spec fn is_blank_char(c: char) -> bool {
    c == ' ' || c == '\t' || c == '\n' || c == '\r' || c == '\u{c}'
}

/// A line that is empty after trimming: every character is whitespace.
pub open spec fn is_blank_line(l: Seq<char>) -> bool {
    forall|i: int| 0 <= i < l.len() ==> is_blank_char(#[trigger] l[i])
}

/// Exec check of [`is_blank_char`].
pub fn blank_char(c: char) -> (b: bool)
    ensures
        b == is_blank_char(c),
{
    c == ' ' || c == '\t' || c == '\n' || c == '\r' || c == '\u{c}'
}

/// Exec check of [`is_blank_line`].
pub fn is_blank(line: &str) -> (b: bool)
    ensures
        b == is_blank_line(line@),
{
    let n: usize = line.unicode_len();
    let mut i: usize = 0;
    while i < n
        invariant
            n == line@.len(),
            0 <= i <= n,
            forall|j: int| 0 <= j < i ==> is_blank_char(#[trigger] line@[j]),
        decreases n - i,
    {
        if !blank_char(line.get_char(i)) {
            assert(!is_blank_line(line@));
            return false;
        }
        i = i + 1;
    }
    true
}

/// A line ending in the input text, with one carriage return before it
/// stripped: the view a terminated line contributes to [`spec_lines`].
pub open spec fn strip_cr(l: Seq<char>) -> Seq<char> {
    if l.len() > 0 && l[l.len() - 1] == '\r' {
        l.drop_last()
    } else {
        l
    }
}

/// The lines of `s` from position `from` on, given the characters `cur`
/// already read of the current line. Lines are separated by `'\n'`; a
/// carriage return immediately before a separator is stripped; a final
/// unterminated line is kept as it stands, and an empty tail contributes
/// nothing.
pub open spec fn lines_acc(s: Seq<char>, from: int, cur: Seq<char>) -> Seq<Seq<char>>
    decreases s.len() - from,
{
    if from < 0 || from >= s.len() {
        if cur.len() > 0 {
            seq![cur]
        } else {
            Seq::empty()
        }
    } else if s[from] == '\n' {
        seq![strip_cr(cur)] + lines_acc(s, from + 1, Seq::empty())
    } else {
        lines_acc(s, from + 1, cur.push(s[from]))
    }
}

/// The lines of an annotation dump, as `str::lines` yields them.
pub open spec fn spec_lines(s: Seq<char>) -> Seq<Seq<char>> {
    lines_acc(s, 0, Seq::empty())
}

/// Splits the dump into lines: separators are `'\n'`, a carriage return
/// before a separator is stripped, and a final line needs no separator.
pub fn split_lines<'a>(s: &'a str) -> (r: Vec<&'a str>)
    ensures
        r.deep_view() == spec_lines(s@),
{
    let n: usize = s.unicode_len();
    let mut r: Vec<&'a str> = Vec::new();
    let mut line_start: usize = 0;
    let mut i: usize = 0;
    proof {
        assert(r.deep_view() =~= Seq::<Seq<char>>::empty());
        assert(s@.subrange(0, 0) =~= Seq::<char>::empty());
    }
    while i < n
        invariant
            n == s@.len(),
            0 <= line_start <= i <= n,
            spec_lines(s@) == r.deep_view() + lines_acc(
                s@,
                i as int,
                s@.subrange(line_start as int, i as int),
            ),
        decreases n - i,
    {
        let ghost cur = s@.subrange(line_start as int, i as int);
        let c = s.get_char(i);
        if c == '\n' {
            let end: usize = if i > line_start && s.get_char(i - 1) == '\r' {
                i - 1
            } else {
                i
            };
            let piece = s.substring_char(line_start, end);
            proof {
                assert(piece@ =~= strip_cr(cur));
            }
            let ghost old_r = r.deep_view();
            r.push(piece);
            proof {
                assert(r.deep_view() =~= old_r + seq![strip_cr(cur)]);
                assert(lines_acc(s@, i as int, cur) == seq![strip_cr(cur)] + lines_acc(
                    s@,
                    i as int + 1,
                    Seq::empty(),
                ));
                assert(old_r + (seq![strip_cr(cur)] + lines_acc(s@, i as int + 1, Seq::empty()))
                    =~= (old_r + seq![strip_cr(cur)]) + lines_acc(s@, i as int + 1, Seq::empty()));
                assert(s@.subrange(i as int + 1, i as int + 1) =~= Seq::<char>::empty());
            }
            line_start = i + 1;
        } else {
            proof {
                assert(lines_acc(s@, i as int, cur) == lines_acc(s@, i as int + 1, cur.push(s@[i as int])));
                assert(cur.push(s@[i as int]) =~= s@.subrange(line_start as int, i as int + 1));
            }
        }
        i = i + 1;
    }
    let ghost cur = s@.subrange(line_start as int, n as int);
    if line_start < n {
        let piece = s.substring_char(line_start, n);
        let ghost old_r = r.deep_view();
        r.push(piece);
        proof {
            assert(r.deep_view() =~= old_r + seq![cur]);
            assert(lines_acc(s@, n as int, cur) == seq![cur]);
            assert(old_r + seq![cur] =~= r.deep_view());
        }
    } else {
        proof {
            assert(cur.len() == 0);
            assert(lines_acc(s@, n as int, cur) =~= Seq::<Seq<char>>::empty());
            assert(r.deep_view() + Seq::<Seq<char>>::empty() =~= r.deep_view());
        }
    }
    r
}

/// True when `p` is a prefix of `l`.
pub open spec fn starts_with(l: Seq<char>, p: Seq<char>) -> bool {
    l.len() >= p.len() && l.subrange(0, p.len() as int) == p
}

/// Exec check of [`starts_with`].
pub fn str_starts_with(l: &str, p: &str) -> (b: bool)
    ensures
        b == starts_with(l@, p@),
{
    let n: usize = l.unicode_len();
    let m: usize = p.unicode_len();
    if n < m {
        proof {
            assert(!starts_with(l@, p@));
        }
        return false;
    }
    let mut i: usize = 0;
    while i < m
        invariant
            n == l@.len(),
            m == p@.len(),
            m <= n,
            0 <= i <= m,
            forall|j: int| 0 <= j < i ==> l@[j] == p@[j],
        decreases m - i,
    {
        if l.get_char(i) != p.get_char(i) {
            proof {
                assert(l@.subrange(0, m as int)[i as int] != p@[i as int]);
            }
            return false;
        }
        i = i + 1;
    }
    proof {
        assert(l@.subrange(0, m as int) =~= p@);
    }
    true
}

/// The first position at or after `from` whose character does not satisfy
/// `p`, or the length of `l` if every later character satisfies it.
pub open spec fn run_end(l: Seq<char>, from: int, p: spec_fn(char) -> bool) -> int
    decreases l.len() - from,
{
    if from < 0 || from >= l.len() {
        l.len() as int
    } else if p(l[from]) {
        run_end(l, from + 1, p)
    } else {
        from
    }
}

/// What [`run_end`] returns: a position in bounds, with the run before it
/// inside `p` and the character at it (if any) outside.
pub proof fn lemma_run_end(l: Seq<char>, from: int, p: spec_fn(char) -> bool)
    requires
        0 <= from <= l.len(),
    ensures
        from <= run_end(l, from, p) <= l.len(),
        forall|i: int| from <= i < run_end(l, from, p) ==> p(#[trigger] l[i]),
        run_end(l, from, p) < l.len() ==> !p(l[run_end(l, from, p)]),
    decreases l.len() - from,
{
    if from < l.len() && p(l[from]) {
        lemma_run_end(l, from + 1, p);
    }
}

/// A position with the run property before it and a stopping character at it
/// is exactly what [`run_end`] returns.
pub proof fn lemma_run_end_is(l: Seq<char>, from: int, p: spec_fn(char) -> bool, j: int)
    requires
        0 <= from <= j <= l.len(),
        forall|i: int| from <= i < j ==> p(#[trigger] l[i]),
        j < l.len() ==> !p(l[j]),
    ensures
        run_end(l, from, p) == j,
    decreases j - from,
{
    if from < j {
        lemma_run_end_is(l, from + 1, p, j);
    }
}

} // verus!
