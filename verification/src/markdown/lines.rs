use vstd::prelude::*;

use super::chars::all_whitespace;
use super::chars::ascii_digit;
use super::chars::char_is_whitespace;
use super::chars::find_char;
use super::chars::find_char_in;
use super::chars::is_ascii_digit;
use super::chars::lemma_find_char;
use super::chars::sub_chars;
use super::chars::unicode_whitespace;
use super::inline::at;

verus! {

/// A line without the carriage return of a CRLF ending.
pub open spec fn strip_cr(line: Seq<char>) -> Seq<char> {
    if line.len() > 0 && line.last() == '\r' {
        line.drop_last()
    } else {
        line
    }
}

/// `str::lines`: split at `\n`, drop a `\r` before it, and a final line ending
/// adds no empty line.
pub open spec fn lines_of(s: Seq<char>) -> Seq<Seq<char>>
    decreases s.len(),
{
    if s.len() == 0 {
        Seq::empty()
    } else {
        match find_char(s, '\n') {
            None => seq![s],
            Some(k) => {
                proof {
                    lemma_find_char(s, '\n');
                }
                seq![strip_cr(s.take(k))] + lines_of(s.skip(k + 1))
            },
        }
    }
}

/// The character sequences of a vector of lines.
pub open spec fn lines_view(v: Seq<Vec<char>>) -> Seq<Seq<char>> {
    Seq::new(v.len(), |i: int| v[i]@)
}

/// The number of leading `c`.
pub open spec fn lead_count(l: Seq<char>, c: char) -> nat
    decreases l.len(),
{
    if l.len() == 0 || l[0] != c {
        0
    } else {
        1 + lead_count(l.drop_first(), c)
    }
}

/// The number of leading ASCII digits.
pub open spec fn lead_digits(l: Seq<char>) -> nat
    decreases l.len(),
{
    if l.len() == 0 || !ascii_digit(l[0]) {
        0
    } else {
        1 + lead_digits(l.drop_first())
    }
}

/// The number of leading whitespace characters.
pub open spec fn lead_ws(l: Seq<char>) -> nat
    decreases l.len(),
{
    if l.len() == 0 || !unicode_whitespace(l[0]) {
        0
    } else {
        1 + lead_ws(l.drop_first())
    }
}

/// The number of trailing whitespace characters.
pub open spec fn trail_ws(l: Seq<char>) -> nat
    decreases l.len(),
{
    if l.len() == 0 || !unicode_whitespace(l.last()) {
        0
    } else {
        1 + trail_ws(l.drop_last())
    }
}

/// `str::trim`: the text without leading and trailing whitespace.
pub open spec fn trim_m(l: Seq<char>) -> Seq<char> {
    if all_whitespace(l) {
        Seq::empty()
    } else {
        l.subrange(lead_ws(l) as int, l.len() - trail_ws(l))
    }
}

pub proof fn lemma_lead_count(l: Seq<char>, c: char, k: int)
    requires
        0 <= k <= l.len(),
        forall|j: int| 0 <= j < k ==> l[j] == c,
        k == l.len() || l[k] != c,
    ensures
        lead_count(l, c) == k,
    decreases k,
{
    if k > 0 {
        lemma_lead_count(l.drop_first(), c, k - 1);
    }
}

pub proof fn lemma_lead_digits(l: Seq<char>, k: int)
    requires
        0 <= k <= l.len(),
        forall|j: int| 0 <= j < k ==> ascii_digit(l[j]),
        k == l.len() || !ascii_digit(l[k]),
    ensures
        lead_digits(l) == k,
    decreases k,
{
    if k > 0 {
        lemma_lead_digits(l.drop_first(), k - 1);
    }
}

pub proof fn lemma_lead_ws(l: Seq<char>, k: int)
    requires
        0 <= k <= l.len(),
        forall|j: int| 0 <= j < k ==> unicode_whitespace(l[j]),
        k == l.len() || !unicode_whitespace(l[k]),
    ensures
        lead_ws(l) == k,
    decreases k,
{
    if k > 0 {
        lemma_lead_ws(l.drop_first(), k - 1);
    }
}

pub proof fn lemma_trail_ws(l: Seq<char>, k: int)
    requires
        0 <= k <= l.len(),
        forall|j: int| l.len() - k <= j < l.len() ==> unicode_whitespace(l[j]),
        k == l.len() || !unicode_whitespace(l[l.len() - k - 1]),
    ensures
        trail_ws(l) == k,
    decreases k,
{
    if k > 0 {
        lemma_trail_ws(l.drop_last(), k - 1);
    }
}

/// The bounds of `text[from..to]` without leading and trailing whitespace.
pub fn trim_bounds(text: &Vec<char>, from: usize, to: usize) -> (r: (usize, usize))
    requires
        from <= to <= text@.len(),
    ensures
        from <= r.0 <= r.1 <= to,
        text@.subrange(r.0 as int, r.1 as int) == trim_m(text@.subrange(from as int, to as int)),
{
    let ghost l = text@.subrange(from as int, to as int);
    let mut a = from;
    while a < to && char_is_whitespace(text[a])
        invariant
            from <= a <= to <= text@.len(),
            forall|j: int| from <= j < a ==> unicode_whitespace(text@[j]),
        decreases to - a,
    {
        a += 1;
    }
    if a == to {
        assert(all_whitespace(l)) by {
            assert forall|j: int| 0 <= j < l.len() implies unicode_whitespace(#[trigger] l[j]) by {
                assert(l[j] == text@[from + j]);
            }
        }
        return (to, to);
    }
    assert(!unicode_whitespace(l[a - from]));
    proof {
        lemma_lead_ws(l, a - from);
    }
    let mut b = to;
    while b > a && char_is_whitespace(text[b - 1])
        invariant
            from <= a < to <= text@.len(),
            a <= b <= to,
            !unicode_whitespace(text@[a as int]),
            forall|j: int| b <= j < to ==> unicode_whitespace(text@[j]),
        decreases b,
    {
        b -= 1;
    }
    assert(b > a);
    assert(!unicode_whitespace(l[b - 1 - from]));
    proof {
        lemma_trail_ws(l, to - b);
    }
    assert(!all_whitespace(l));
    assert(text@.subrange(a as int, b as int) =~= l.subrange(
        lead_ws(l) as int,
        l.len() - trail_ws(l),
    ));
    (a, b)
}

/// Splits text into lines like `str::lines`.
pub fn split_lines(chars: &Vec<char>) -> (r: Vec<Vec<char>>)
    ensures
        lines_view(r@) == lines_of(chars@),
{
    let len = chars.len();
    let mut lines: Vec<Vec<char>> = Vec::new();
    let mut start: usize = 0;
    assert(chars@.skip(0) =~= chars@);
    assert(lines_view(lines@) + lines_of(chars@.skip(0)) =~= lines_of(chars@));
    while start < len
        invariant
            len == chars@.len(),
            start <= len,
            lines_view(lines@) + lines_of(chars@.skip(start as int)) == lines_of(chars@),
        decreases len - start,
    {
        let ghost s = chars@.skip(start as int);
        assert(s =~= chars@.subrange(start as int, len as int));
        proof {
            lemma_find_char(s, '\n');
        }
        match find_char_in(chars, start, len, '\n') {
            Some(k) => {
                let end = start + k;
                let line_end = if k > 0 && chars[end - 1] == '\r' {
                    end - 1
                } else {
                    end
                };
                let line = sub_chars(chars, start, line_end);
                assert(line@ == strip_cr(s.take(k as int)));
                let ghost old_view = lines_view(lines@);
                lines.push(line);
                assert(lines_view(lines@) =~= old_view.push(line@));
                assert(s.skip(k + 1) =~= chars@.skip(end + 1));
                assert(lines_view(lines@) + lines_of(chars@.skip(end + 1)) =~= old_view + lines_of(s));
                start = end + 1;
            },
            None => {
                let line = sub_chars(chars, start, len);
                let ghost old_view = lines_view(lines@);
                lines.push(line);
                assert(lines_view(lines@) =~= old_view.push(line@));
                assert(chars@.skip(len as int) =~= Seq::<char>::empty());
                assert(lines_view(lines@) + lines_of(chars@.skip(len as int)) =~= old_view + lines_of(s));
                start = len;
            },
        }
    }
    assert(chars@.skip(start as int) =~= Seq::<char>::empty());
    assert(lines_view(lines@) + lines_of(chars@.skip(start as int)) =~= lines_view(lines@));
    lines
}

} // verus!
