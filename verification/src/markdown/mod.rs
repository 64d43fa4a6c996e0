pub mod chars;
pub mod inline;
pub mod ir;
pub mod laws;
pub mod lines;
pub mod timestamp;

use vstd::prelude::*;

pub use ir::Block;
pub use ir::MentionKind;
pub use ir::Span;

use chars::all_whitespace;
use chars::ascii_digit;
use chars::char_is_whitespace;
use chars::is_ascii_digit;
use chars::sub_chars;
use chars::unicode_whitespace;
use inline::at;
pub use inline::parse_inline;
use inline::parse_inline_chars;
use inline::parse_inline_m;
use ir::block_m;
use ir::blocks_m;
use ir::items_m;
use ir::spans_m;
use ir::BlockM;
use ir::SpanM;
use lines::lead_count;
use lines::lead_digits;
use lines::lemma_lead_count;
use lines::lemma_lead_digits;
use lines::lines_of;
use lines::lines_view;
use lines::split_lines;
use lines::trim_bounds;
use lines::trim_m;
use crate::text::chars_of;
use crate::text::push_char;
use crate::text::string_of;

verus! {

pub open spec fn starts3(l: Seq<char>, a: char, b: char, c: char) -> bool {
    at(l, 0, a) && at(l, 1, b) && at(l, 2, c)
}

/// A line that opens or closes a fenced code block.
pub open spec fn is_fence(l: Seq<char>) -> bool {
    starts3(l, '`', '`', '`')
}

/// A line that, trimmed, is exactly three backticks.
pub open spec fn is_fence_close(l: Seq<char>) -> bool {
    trim_m(l) =~= seq!['`', '`', '`']
}

pub open spec fn is_subtext(l: Seq<char>) -> bool {
    starts3(l, '-', '#', ' ')
}

/// `>>>` alone or followed by a space: the rest of the message is quoted.
pub open spec fn is_wide_quote(l: Seq<char>) -> bool {
    (l.len() == 3 && starts3(l, '>', '>', '>')) || (starts3(l, '>', '>', '>') && at(l, 3, ' '))
}

/// `>` alone or followed by a space.
pub open spec fn is_quote_line(l: Seq<char>) -> bool {
    (l.len() == 1 && at(l, 0, '>')) || (at(l, 0, '>') && at(l, 1, ' '))
}

/// A quoted line without its marker.
pub open spec fn strip_quote(l: Seq<char>) -> Seq<char> {
    if l.len() == 1 {
        Seq::empty()
    } else {
        l.skip(2)
    }
}

/// One to three `#` and a space: the level and the heading text.
pub open spec fn heading_m(l: Seq<char>) -> Option<(u8, Seq<char>)> {
    let h = lead_count(l, '#');
    if 1 <= h <= 3 && at(l, h as int, ' ') {
        Some((h as u8, l.skip(h + 1int)))
    } else {
        None
    }
}

/// `- ` (unordered) or digits and `. ` (ordered): the kind and the item text.
pub open spec fn list_m(l: Seq<char>) -> Option<(bool, Seq<char>)> {
    if at(l, 0, '-') && at(l, 1, ' ') {
        Some((false, l.skip(2)))
    } else {
        let d = lead_digits(l);
        if d > 0 && at(l, d as int, '.') && at(l, d + 1int, ' ') {
            Some((true, l.skip(d + 2int)))
        } else {
            None
        }
    }
}

/// A line made of a run of ASCII digits of any length, `". "` and a text is an
/// ordered list item with that text; `"- "` and a text is a bullet item.
pub proof fn law_list_markers(d: Seq<char>, t: Seq<char>)
    requires
        d.len() > 0,
        forall|i: int| 0 <= i < d.len() ==> '0' <= #[trigger] d[i] <= '9',
    ensures
        list_m(d + seq!['.', ' '] + t) == Some((true, t)),
        list_m(seq!['-', ' '] + t) == Some((false, t)),
{
    let l = d + seq!['.', ' '] + t;
    assert forall|j: int| 0 <= j < d.len() implies ascii_digit(l[j]) by {
        assert(l[j] == d[j]);
    }
    lemma_lead_digits(l, d.len() as int);
    assert(l.skip(d.len() + 2int) =~= t);
    assert((seq!['-', ' '] + t).skip(2) =~= t);
}

/// An item line of a list of kind `ordered`.
pub open spec fn is_item_of(l: Seq<char>, ordered: bool) -> bool {
    list_m(l) is Some && (list_m(l)->0).0 == ordered
}

/// A line that starts a block other than a paragraph.
pub open spec fn block_start(l: Seq<char>) -> bool {
    is_fence(l) || is_quote_line(l) || is_wide_quote(l) || is_subtext(l) || heading_m(l) is Some
        || list_m(l) is Some
}

/// Lines joined with `\n`.
pub open spec fn join_lines(ls: Seq<Seq<char>>) -> Seq<char>
    decreases ls.len(),
{
    if ls.len() == 0 {
        Seq::empty()
    } else if ls.len() == 1 {
        ls[0]
    } else {
        join_lines(ls.drop_last()).push('\n') + ls.last()
    }
}

/// The first line at or after `j` that closes a code fence, or the end.
pub open spec fn fence_end(ls: Seq<Seq<char>>, j: int) -> int
    decreases ls.len() - j,
{
    if j < 0 || j >= ls.len() {
        ls.len() as int
    } else if is_fence_close(ls[j]) {
        j
    } else {
        fence_end(ls, j + 1)
    }
}

/// The first line at or after `j` that is not a quote line, or the end.
pub open spec fn quote_end(ls: Seq<Seq<char>>, j: int) -> int
    decreases ls.len() - j,
{
    if j < 0 || j >= ls.len() {
        ls.len() as int
    } else if is_quote_line(ls[j]) {
        quote_end(ls, j + 1)
    } else {
        j
    }
}

/// The first line at or after `j` that is not an item of a list of kind `ordered`.
pub open spec fn list_end(ls: Seq<Seq<char>>, j: int, ordered: bool) -> int
    decreases ls.len() - j,
{
    if j < 0 || j >= ls.len() {
        ls.len() as int
    } else if is_item_of(ls[j], ordered) {
        list_end(ls, j + 1, ordered)
    } else {
        j
    }
}

/// The first line at or after `j` that ends a paragraph: blank, a block start, or
/// the end.
pub open spec fn para_end(ls: Seq<Seq<char>>, j: int) -> int
    decreases ls.len() - j,
{
    if j < 0 || j >= ls.len() {
        ls.len() as int
    } else if all_whitespace(ls[j]) || block_start(ls[j]) {
        j
    } else {
        para_end(ls, j + 1)
    }
}

/// The lines inside a wide quote that starts at line `i`.
pub open spec fn wide_quote_inner(ls: Seq<Seq<char>>, i: int) -> Seq<Seq<char>> {
    let line = ls[i];
    let first: Seq<Seq<char>> = if at(line, 3, ' ') {
        seq![line.skip(4)]
    } else {
        Seq::empty()
    };
    first + ls.skip(i + 1)
}

/// The lines inside a quote of lines `i..j`, without their markers.
pub open spec fn quote_inner(ls: Seq<Seq<char>>, i: int, j: int) -> Seq<Seq<char>> {
    Seq::new((j - i) as nat, |k: int| strip_quote(ls[i + k]))
}

/// The items of a list of lines `i..j`.
pub open spec fn list_items(ls: Seq<Seq<char>>, i: int, j: int) -> Seq<Seq<SpanM>> {
    Seq::new((j - i) as nat, |k: int| parse_inline_m((list_m(ls[i + k])->0).1, 0))
}

/// Characters plus line breaks: what the nested block parses shrink.
pub open spec fn weight(ls: Seq<Seq<char>>) -> nat
    decreases ls.len(),
{
    if ls.len() == 0 {
        0
    } else {
        weight(ls.drop_last()) + ls.last().len() + 1
    }
}

/// The blocks of lines `i..` of `ls`.
pub open spec fn blocks_from(ls: Seq<Seq<char>>, i: int) -> Seq<BlockM>
    decreases weight(ls), ls.len() - i,
{
    if i < 0 || i >= ls.len() {
        Seq::empty()
    } else {
        let line = ls[i];
        if all_whitespace(line) {
            blocks_from(ls, i + 1)
        } else if is_fence(line) {
            let j = fence_end(ls, i + 1);
            proof {
                lemma_scan_ends(ls, i);
            }
            let next = if j < ls.len() {
                j + 1
            } else {
                j
            };
            seq![
                BlockM::Code {
                    lang: trim_m(line.skip(3)),
                    body: join_lines(ls.subrange(i + 1, j)),
                },
            ] + blocks_from(ls, next)
        } else if is_subtext(line) {
            seq![BlockM::Subtext(parse_inline_m(line.skip(3), 0))] + blocks_from(ls, i + 1)
        } else if heading_m(line) is Some {
            let (level, text) = heading_m(line)->0;
            seq![BlockM::Heading(level, parse_inline_m(text, 0))] + blocks_from(ls, i + 1)
        } else if is_wide_quote(line) {
            proof {
                lemma_wide_quote_weight(ls, i);
            }
            seq![BlockM::Quote { wide: true, blocks: blocks_from(wide_quote_inner(ls, i), 0) }]
        } else if is_quote_line(line) {
            let j = quote_end(ls, i);
            proof {
                lemma_scan_ends(ls, i);
                lemma_quote_weight(ls, i, j);
            }
            seq![BlockM::Quote { wide: false, blocks: blocks_from(quote_inner(ls, i, j), 0) }]
                + blocks_from(ls, j)
        } else if list_m(line) is Some {
            let ordered = (list_m(line)->0).0;
            let j = list_end(ls, i, ordered);
            proof {
                lemma_scan_ends(ls, i);
            }
            seq![BlockM::List { ordered, items: list_items(ls, i, j) }] + blocks_from(ls, j)
        } else {
            let j = para_end(ls, i + 1);
            proof {
                lemma_scan_ends(ls, i);
            }
            seq![BlockM::Para(parse_inline_m(join_lines(ls.subrange(i, j)), 0))] + blocks_from(
                ls,
                j,
            )
        }
    }
}

/// The blocks of a message text.
pub open spec fn parse_m(input: Seq<char>) -> Seq<BlockM> {
    blocks_from(lines_of(input), 0)
}

pub proof fn lemma_fence_end(ls: Seq<Seq<char>>, j: int)
    requires
        0 <= j <= ls.len(),
    ensures
        j <= fence_end(ls, j) <= ls.len(),
    decreases ls.len() - j,
{
    if j < ls.len() && !is_fence_close(ls[j]) {
        lemma_fence_end(ls, j + 1);
    }
}

pub proof fn lemma_quote_end(ls: Seq<Seq<char>>, j: int)
    requires
        0 <= j <= ls.len(),
    ensures
        j <= quote_end(ls, j) <= ls.len(),
        forall|k: int| j <= k < quote_end(ls, j) ==> is_quote_line(#[trigger] ls[k]),
    decreases ls.len() - j,
{
    if j < ls.len() && is_quote_line(ls[j]) {
        lemma_quote_end(ls, j + 1);
    }
}

pub proof fn lemma_list_end(ls: Seq<Seq<char>>, j: int, ordered: bool)
    requires
        0 <= j <= ls.len(),
    ensures
        j <= list_end(ls, j, ordered) <= ls.len(),
        forall|k: int|
            j <= k < list_end(ls, j, ordered) ==> is_item_of(#[trigger] ls[k], ordered),
    decreases ls.len() - j,
{
    if j < ls.len() && is_item_of(ls[j], ordered) {
        lemma_list_end(ls, j + 1, ordered);
    }
}

pub proof fn lemma_para_end(ls: Seq<Seq<char>>, j: int)
    requires
        0 <= j <= ls.len(),
    ensures
        j <= para_end(ls, j) <= ls.len(),
    decreases ls.len() - j,
{
    if j < ls.len() && !(all_whitespace(ls[j]) || block_start(ls[j])) {
        lemma_para_end(ls, j + 1);
    }
}

/// The scans that start at line `i` end after it and within the lines.
pub proof fn lemma_scan_ends(ls: Seq<Seq<char>>, i: int)
    requires
        0 <= i < ls.len(),
    ensures
        i + 1 <= fence_end(ls, i + 1) <= ls.len(),
        i <= quote_end(ls, i) <= ls.len(),
        is_quote_line(ls[i]) ==> i < quote_end(ls, i),
        forall|k: int| i <= k < quote_end(ls, i) ==> is_quote_line(#[trigger] ls[k]),
        forall|k: int, o: bool| i <= k < list_end(ls, i, o) ==> #[trigger] is_item_of(ls[k], o),
        forall|o: bool| i <= #[trigger] list_end(ls, i, o) <= ls.len(),
        list_m(ls[i]) is Some ==> i < list_end(ls, i, (list_m(ls[i])->0).0),
        i + 1 <= para_end(ls, i + 1) <= ls.len(),
{
    lemma_fence_end(ls, i + 1);
    lemma_quote_end(ls, i);
    lemma_para_end(ls, i + 1);
    assert forall|o: bool| i <= #[trigger] list_end(ls, i, o) <= ls.len() by {
        lemma_list_end(ls, i, o);
    }
    assert forall|k: int, o: bool| i <= k < list_end(ls, i, o) implies #[trigger] is_item_of(
        ls[k],
        o,
    ) by {
        lemma_list_end(ls, i, o);
    }
    if is_quote_line(ls[i]) {
        lemma_quote_end(ls, i + 1);
    }
    if list_m(ls[i]) is Some {
        lemma_list_end(ls, i + 1, (list_m(ls[i])->0).0);
    }
}

pub proof fn lemma_weight_concat(a: Seq<Seq<char>>, b: Seq<Seq<char>>)
    ensures
        weight(a + b) == weight(a) + weight(b),
    decreases b.len(),
{
    if b.len() == 0 {
        assert(a + b =~= a);
    } else {
        lemma_weight_concat(a, b.drop_last());
        assert((a + b).drop_last() =~= a + b.drop_last());
    }
}

pub proof fn lemma_weight_subrange(ls: Seq<Seq<char>>, i: int, j: int)
    requires
        0 <= i <= j <= ls.len(),
    ensures
        weight(ls.subrange(i, j)) <= weight(ls),
{
    lemma_weight_concat(ls.take(i), ls.subrange(i, j));
    lemma_weight_concat(ls.take(i) + ls.subrange(i, j), ls.skip(j));
    assert(ls.take(i) + ls.subrange(i, j) + ls.skip(j) =~= ls);
}

/// Pointwise shorter lines weigh less.
pub proof fn lemma_weight_lt(a: Seq<Seq<char>>, b: Seq<Seq<char>>)
    requires
        a.len() == b.len(),
        a.len() >= 1,
        forall|k: int| 0 <= k < a.len() ==> #[trigger] a[k].len() < b[k].len(),
    ensures
        weight(a) < weight(b),
    decreases a.len(),
{
    assert(a[a.len() - 1].len() < b[b.len() - 1].len());
    if a.len() > 1 {
        assert forall|k: int| 0 <= k < a.drop_last().len() implies #[trigger] a.drop_last()[k].len()
            < b.drop_last()[k].len() by {
            assert(a[k].len() < b[k].len());
        }
        lemma_weight_lt(a.drop_last(), b.drop_last());
    } else {
        assert(weight(a.drop_last()) == 0);
        assert(weight(b.drop_last()) == 0);
    }
}

pub proof fn lemma_quote_weight(ls: Seq<Seq<char>>, i: int, j: int)
    requires
        0 <= i < j <= ls.len(),
        forall|k: int| i <= k < j ==> is_quote_line(#[trigger] ls[k]),
    ensures
        weight(quote_inner(ls, i, j)) < weight(ls),
{
    let inner = quote_inner(ls, i, j);
    let orig = ls.subrange(i, j);
    assert forall|k: int| 0 <= k < inner.len() implies #[trigger] inner[k].len() < orig[k].len() by {
        assert(is_quote_line(ls[i + k]));
    }
    lemma_weight_lt(inner, orig);
    lemma_weight_subrange(ls, i, j);
}

pub proof fn lemma_wide_quote_weight(ls: Seq<Seq<char>>, i: int)
    requires
        0 <= i < ls.len(),
        is_wide_quote(ls[i]),
    ensures
        weight(wide_quote_inner(ls, i)) < weight(ls),
{
    let line = ls[i];
    let first: Seq<Seq<char>> = if at(line, 3, ' ') {
        seq![line.skip(4)]
    } else {
        Seq::empty()
    };
    lemma_weight_concat(first, ls.skip(i + 1));
    lemma_weight_concat(seq![line], ls.skip(i + 1));
    assert(seq![line] + ls.skip(i + 1) =~= ls.subrange(i, ls.len() as int));
    lemma_weight_subrange(ls, i, ls.len() as int);
    assert(weight(Seq::<Seq<char>>::empty()) == 0);
    assert(weight(seq![line]) == line.len() + 1) by {
        assert(seq![line].drop_last() =~= Seq::<Seq<char>>::empty());
    }
    if at(line, 3, ' ') {
        assert(weight(first) == line.len() - 3) by {
            assert(first.drop_last() =~= Seq::<Seq<char>>::empty());
        }
    } else {
        assert(first =~= Seq::<Seq<char>>::empty());
    }
}


/// `line[i] == c`.
fn ch(line: &Vec<char>, i: usize, c: char) -> (b: bool)
    ensures
        b == at(line@, i as int, c),
{
    i < line.len() && line[i] == c
}

/// Whether the line holds only whitespace.
pub(crate) fn is_blank(line: &Vec<char>) -> (b: bool)
    ensures
        b == all_whitespace(line@),
{
    let mut i: usize = 0;
    while i < line.len()
        invariant
            i <= line@.len(),
            forall|j: int| 0 <= j < i ==> unicode_whitespace(line@[j]),
        decreases line@.len() - i,
    {
        if !char_is_whitespace(line[i]) {
            return false;
        }
        i += 1;
    }
    true
}

/// The count of leading `c`.
fn lead_count_of(line: &Vec<char>, c: char) -> (n: usize)
    ensures
        n == lead_count(line@, c),
        n <= line@.len(),
{
    let mut i: usize = 0;
    while i < line.len() && line[i] == c
        invariant
            i <= line@.len(),
            forall|j: int| 0 <= j < i ==> line@[j] == c,
        decreases line@.len() - i,
    {
        i += 1;
    }
    proof {
        lemma_lead_count(line@, c, i as int);
    }
    i
}

/// One to three `#` and a space: the level, and where the heading text starts.
fn heading_level(line: &Vec<char>) -> (r: Option<(u8, usize)>)
    ensures
        match r {
            Some((level, k)) => k <= line@.len() && heading_m(line@) == Some((level, line@.skip(k as int))),
            None => heading_m(line@) is None,
        },
{
    let hashes = lead_count_of(line, '#');
    if 1 <= hashes && hashes <= 3 && ch(line, hashes, ' ') {
        Some((hashes as u8, hashes + 1))
    } else {
        None
    }
}

/// `- ` or digits and `. `: whether the list is ordered, and where the item text
/// starts.
fn list_marker(line: &Vec<char>) -> (r: Option<(bool, usize)>)
    ensures
        match r {
            Some((ordered, k)) => k <= line@.len() && list_m(line@) == Some((ordered, line@.skip(k as int))),
            None => list_m(line@) is None,
        },
{
    if ch(line, 0, '-') && ch(line, 1, ' ') {
        return Some((false, 2));
    }
    let mut d: usize = 0;
    while d < line.len() && is_ascii_digit(line[d])
        invariant
            d <= line@.len(),
            forall|j: int| 0 <= j < d ==> ascii_digit(line@[j]),
        decreases line@.len() - d,
    {
        d += 1;
    }
    proof {
        lemma_lead_digits(line@, d as int);
    }
    if d > 0 && ch(line, d, '.') && ch(line, d + 1, ' ') {
        Some((true, d + 2))
    } else {
        None
    }
}

fn is_fence_line(line: &Vec<char>) -> (b: bool)
    ensures
        b == is_fence(line@),
{
    ch(line, 0, '`') && ch(line, 1, '`') && ch(line, 2, '`')
}

fn is_subtext_line(line: &Vec<char>) -> (b: bool)
    ensures
        b == is_subtext(line@),
{
    ch(line, 0, '-') && ch(line, 1, '#') && ch(line, 2, ' ')
}

fn is_wide_quote_line(line: &Vec<char>) -> (b: bool)
    ensures
        b == is_wide_quote(line@),
{
    let three = ch(line, 0, '>') && ch(line, 1, '>') && ch(line, 2, '>');
    (line.len() == 3 && three) || (three && ch(line, 3, ' '))
}

fn is_quote_marker_line(line: &Vec<char>) -> (b: bool)
    ensures
        b == is_quote_line(line@),
{
    (line.len() == 1 && ch(line, 0, '>')) || (ch(line, 0, '>') && ch(line, 1, ' '))
}

fn is_fence_close_line(line: &Vec<char>) -> (b: bool)
    ensures
        b == is_fence_close(line@),
{
    let (a, e) = trim_bounds(line, 0, line.len());
    assert(line@.subrange(0, line@.len() as int) =~= line@);
    let r = e - a == 3 && line[a] == '`' && line[a + 1] == '`' && line[a + 2] == '`';
    assert(r ==> line@.subrange(a as int, e as int) =~= seq!['`', '`', '`']);
    proof {
        let t = line@.subrange(a as int, e as int);
        if !r && t =~= seq!['`', '`', '`'] {
            assert(t[0] == line@[a as int] && t[1] == line@[a + 1] && t[2] == line@[a + 2]);
        }
    }
    r
}

/// Whether a line starts a block other than a paragraph.
fn is_block_start(line: &Vec<char>) -> (b: bool)
    ensures
        b == block_start(line@),
{
    is_fence_line(line) || is_quote_marker_line(line) || is_wide_quote_line(line)
        || is_subtext_line(line) || heading_level(line).is_some() || list_marker(line).is_some()
}

fn fence_end_at(lines: &Vec<Vec<char>>, from: usize) -> (j: usize)
    requires
        from <= lines@.len(),
    ensures
        j == fence_end(lines_view(lines@), from as int),
{
    let ghost ls = lines_view(lines@);
    let mut j = from;
    while j < lines.len() && !is_fence_close_line(&lines[j])
        invariant
            from <= j <= lines@.len(),
            ls == lines_view(lines@),
            fence_end(ls, j as int) == fence_end(ls, from as int),
        decreases lines@.len() - j,
    {
        j += 1;
    }
    j
}

fn quote_end_at(lines: &Vec<Vec<char>>, from: usize) -> (j: usize)
    requires
        from <= lines@.len(),
    ensures
        j == quote_end(lines_view(lines@), from as int),
{
    let ghost ls = lines_view(lines@);
    let mut j = from;
    while j < lines.len() && is_quote_marker_line(&lines[j])
        invariant
            from <= j <= lines@.len(),
            ls == lines_view(lines@),
            quote_end(ls, j as int) == quote_end(ls, from as int),
        decreases lines@.len() - j,
    {
        j += 1;
    }
    j
}

fn list_end_at(lines: &Vec<Vec<char>>, from: usize, ordered: bool) -> (j: usize)
    requires
        from <= lines@.len(),
    ensures
        j == list_end(lines_view(lines@), from as int, ordered),
{
    let ghost ls = lines_view(lines@);
    let mut j = from;
    while j < lines.len()
        invariant
            from <= j <= lines@.len(),
            ls == lines_view(lines@),
            list_end(ls, j as int, ordered) == list_end(ls, from as int, ordered),
        decreases lines@.len() - j,
    {
        match list_marker(&lines[j]) {
            Some((same_kind, _)) => {
                if same_kind != ordered {
                    return j;
                }
            },
            None => {
                return j;
            },
        }
        j += 1;
    }
    j
}

fn para_end_at(lines: &Vec<Vec<char>>, from: usize) -> (j: usize)
    requires
        from <= lines@.len(),
    ensures
        j == para_end(lines_view(lines@), from as int),
{
    let ghost ls = lines_view(lines@);
    let mut j = from;
    while j < lines.len() && !is_blank(&lines[j]) && !is_block_start(&lines[j])
        invariant
            from <= j <= lines@.len(),
            ls == lines_view(lines@),
            para_end(ls, j as int) == para_end(ls, from as int),
        decreases lines@.len() - j,
    {
        j += 1;
    }
    j
}

/// Lines `from..to` joined with `\n`.
fn join_chars(lines: &Vec<Vec<char>>, from: usize, to: usize) -> (r: Vec<char>)
    requires
        from <= to <= lines@.len(),
    ensures
        r@ == join_lines(lines_view(lines@).subrange(from as int, to as int)),
{
    let ghost ls = lines_view(lines@);
    let mut r: Vec<char> = Vec::new();
    let mut k = from;
    while k < to
        invariant
            from <= k <= to <= lines@.len(),
            ls == lines_view(lines@),
            r@ == join_lines(ls.subrange(from as int, k as int)),
        decreases to - k,
    {
        let ghost before = r@;
        if k > from {
            r.push('\n');
        }
        let line = &lines[k];
        let mut c: usize = 0;
        while c < line.len()
            invariant
                c <= line@.len(),
                r@ == (if k > from { before.push('\n') } else { before }) + line@.subrange(0, c as int),
            decreases line@.len() - c,
        {
            r.push(line[c]);
            assert(line@.subrange(0, c + 1) =~= line@.subrange(0, c as int).push(line@[c as int]));
            c += 1;
        }
        let ghost next = ls.subrange(from as int, k + 1);
        assert(next.drop_last() =~= ls.subrange(from as int, k as int));
        assert(line@.subrange(0, c as int) =~= line@);
        assert(next.last() == line@);
        if k == from {
            assert(before =~= Seq::<char>::empty());
            assert(r@ =~= line@);
        }
        k += 1;
    }
    r
}

pub proof fn lemma_blocks_m_push(v: Seq<Block>, b: Block)
    ensures
        blocks_m(v.push(b)) == blocks_m(v).push(block_m(b)),
{
    assert(v.push(b).drop_last() =~= v);
}

pub proof fn lemma_items_m_push(v: Seq<Vec<Span>>, x: Vec<Span>)
    ensures
        items_m(v.push(x)) == items_m(v).push(spans_m(x@)),
{
    assert(v.push(x).drop_last() =~= v);
}

/// Copies a line.
fn copy_line(line: &Vec<char>) -> (r: Vec<char>)
    ensures
        r@ == line@,
{
    let r = sub_chars(line, 0, line.len());
    assert(line@.subrange(0, line@.len() as int) =~= line@);
    r
}

/// The code block that starts at fence line `i`, and the line after it.
fn code_block(lines: &Vec<Vec<char>>, i: usize) -> (r: (Block, usize))
    requires
        i < lines@.len(),
        !all_whitespace(lines_view(lines@)[i as int]),
        is_fence(lines_view(lines@)[i as int]),
    ensures
        i < r.1 <= lines@.len(),
        blocks_from(lines_view(lines@), i as int) == seq![block_m(r.0)] + blocks_from(
            lines_view(lines@),
            r.1 as int,
        ),
{
    let ghost ls = lines_view(lines@);
    proof {
        lemma_scan_ends(ls, i as int);
    }
    let line = &lines[i];
    assert(i < lines.len());
    let j = fence_end_at(lines, i + 1);
    let (la, lb) = trim_bounds(line, 3, line.len());
    let lang = string_of(line, la, lb);
    let body_chars = join_chars(lines, i + 1, j);
    let body = string_of(&body_chars, 0, body_chars.len());
    assert(body_chars@.subrange(0, body_chars@.len() as int) =~= body_chars@);
    let next = if j < lines.len() {
        j + 1
    } else {
        j
    };
    (Block::Code { lang, body }, next)
}

/// The subtext block of line `i`.
fn subtext_block(lines: &Vec<Vec<char>>, i: usize) -> (r: Block)
    requires
        i < lines@.len(),
        !all_whitespace(lines_view(lines@)[i as int]),
        !is_fence(lines_view(lines@)[i as int]),
        is_subtext(lines_view(lines@)[i as int]),
    ensures
        blocks_from(lines_view(lines@), i as int) == seq![block_m(r)] + blocks_from(
            lines_view(lines@),
            i + 1,
        ),
{
    let line = &lines[i];
    let text = sub_chars(line, 3, line.len());
    Block::Subtext(parse_inline_chars(&text, 0))
}

/// The heading block of line `i`, whose text starts at `start`.
fn heading_block(lines: &Vec<Vec<char>>, i: usize, level: u8, start: usize) -> (r: Block)
    requires
        i < lines@.len(),
        !all_whitespace(lines_view(lines@)[i as int]),
        !is_fence(lines_view(lines@)[i as int]),
        !is_subtext(lines_view(lines@)[i as int]),
        start <= lines@[i as int]@.len(),
        heading_m(lines_view(lines@)[i as int]) == Some((level, lines@[i as int]@.skip(start as int))),
    ensures
        blocks_from(lines_view(lines@), i as int) == seq![block_m(r)] + blocks_from(
            lines_view(lines@),
            i + 1,
        ),
{
    let line = &lines[i];
    let text = sub_chars(line, start, line.len());
    Block::Heading(level, parse_inline_chars(&text, 0))
}

/// The wide quote that starts at line `i` and takes the rest of the lines.
fn wide_quote_block(lines: &Vec<Vec<char>>, i: usize) -> (r: Block)
    requires
        i < lines@.len(),
        !all_whitespace(lines_view(lines@)[i as int]),
        !is_fence(lines_view(lines@)[i as int]),
        !is_subtext(lines_view(lines@)[i as int]),
        heading_m(lines_view(lines@)[i as int]) is None,
        is_wide_quote(lines_view(lines@)[i as int]),
    ensures
        blocks_from(lines_view(lines@), i as int) == seq![block_m(r)],
    decreases weight(lines_view(lines@)), 0int,
{
    let ghost ls = lines_view(lines@);
    let len = lines.len();
    let line = &lines[i];
    let mut inner: Vec<Vec<char>> = Vec::new();
    if ch(line, 3, ' ') {
        inner.push(sub_chars(line, 4, line.len()));
    }
    let ghost first = lines_view(inner@);
    assert(first =~= if at(ls[i as int], 3, ' ') { seq![ls[i as int].skip(4)] } else { Seq::empty() });
    let mut k = i + 1;
    assert(ls.subrange(i + 1, k as int) =~= Seq::<Seq<char>>::empty());
    while k < len
        invariant
            len == lines@.len(),
            i < k <= len,
            ls == lines_view(lines@),
            lines_view(inner@) =~= first + ls.subrange(i + 1, k as int),
        decreases len - k,
    {
        let copy = copy_line(&lines[k]);
        let ghost old_view = lines_view(inner@);
        inner.push(copy);
        assert(lines_view(inner@) =~= old_view.push(copy@));
        assert(ls.subrange(i + 1, k + 1) =~= ls.subrange(i + 1, k as int).push(ls[k as int]));
        k += 1;
    }
    assert(lines_view(inner@) =~= wide_quote_inner(ls, i as int));
    proof {
        lemma_wide_quote_weight(ls, i as int);
    }
    let quoted = parse_blocks(&inner);
    Block::Quote { wide: true, blocks: quoted }
}

/// The quote of the quote lines that start at line `i`, and the line after them.
fn quote_block(lines: &Vec<Vec<char>>, i: usize) -> (r: (Block, usize))
    requires
        i < lines@.len(),
        !all_whitespace(lines_view(lines@)[i as int]),
        !is_fence(lines_view(lines@)[i as int]),
        !is_subtext(lines_view(lines@)[i as int]),
        heading_m(lines_view(lines@)[i as int]) is None,
        !is_wide_quote(lines_view(lines@)[i as int]),
        is_quote_line(lines_view(lines@)[i as int]),
    ensures
        i < r.1 <= lines@.len(),
        blocks_from(lines_view(lines@), i as int) == seq![block_m(r.0)] + blocks_from(
            lines_view(lines@),
            r.1 as int,
        ),
    decreases weight(lines_view(lines@)), 0int,
{
    let ghost ls = lines_view(lines@);
    proof {
        lemma_scan_ends(ls, i as int);
    }
    let len = lines.len();
    let j = quote_end_at(lines, i);
    let mut inner: Vec<Vec<char>> = Vec::new();
    let mut k = i;
    assert(quote_inner(ls, i as int, i as int) =~= Seq::<Seq<char>>::empty());
    while k < j
        invariant
            len == lines@.len(),
            i <= k <= j <= len,
            j == quote_end(ls, i as int),
            ls == lines_view(lines@),
            forall|m: int| i <= m < quote_end(ls, i as int) ==> is_quote_line(#[trigger] ls[m]),
            lines_view(inner@) =~= quote_inner(ls, i as int, k as int),
        decreases j - k,
    {
        let l = &lines[k];
        assert(l@ == ls[k as int]);
        assert(is_quote_line(ls[k as int]));
        let stripped = if l.len() == 1 {
            Vec::new()
        } else {
            sub_chars(l, 2, l.len())
        };
        assert(stripped@ =~= strip_quote(ls[k as int]));
        let ghost old_view = lines_view(inner@);
        inner.push(stripped);
        assert(lines_view(inner@) =~= old_view.push(stripped@));
        assert(quote_inner(ls, i as int, k + 1) =~= quote_inner(ls, i as int, k as int).push(
            stripped@,
        ));
        k += 1;
    }
    proof {
        lemma_quote_weight(ls, i as int, j as int);
    }
    let quoted = parse_blocks(&inner);
    (Block::Quote { wide: false, blocks: quoted }, j)
}

/// The list of item lines of kind `ordered` that start at line `i`, and the line
/// after them.
fn list_block(lines: &Vec<Vec<char>>, i: usize, ordered: bool) -> (r: (Block, usize))
    requires
        i < lines@.len(),
        !all_whitespace(lines_view(lines@)[i as int]),
        !is_fence(lines_view(lines@)[i as int]),
        !is_subtext(lines_view(lines@)[i as int]),
        heading_m(lines_view(lines@)[i as int]) is None,
        !is_wide_quote(lines_view(lines@)[i as int]),
        !is_quote_line(lines_view(lines@)[i as int]),
        list_m(lines_view(lines@)[i as int]) is Some,
        (list_m(lines_view(lines@)[i as int])->0).0 == ordered,
    ensures
        i < r.1 <= lines@.len(),
        blocks_from(lines_view(lines@), i as int) == seq![block_m(r.0)] + blocks_from(
            lines_view(lines@),
            r.1 as int,
        ),
{
    let ghost ls = lines_view(lines@);
    proof {
        lemma_scan_ends(ls, i as int);
    }
    let len = lines.len();
    let j = list_end_at(lines, i, ordered);
    let mut items: Vec<Vec<Span>> = Vec::new();
    let mut k = i;
    assert(list_items(ls, i as int, i as int) =~= Seq::<Seq<SpanM>>::empty());
    while k < j
        invariant
            len == lines@.len(),
            i <= k <= j <= len,
            j == list_end(ls, i as int, ordered),
            ls == lines_view(lines@),
            forall|m: int, o: bool|
                i <= m < list_end(ls, i as int, o) ==> #[trigger] is_item_of(ls[m], o),
            items_m(items@) =~= list_items(ls, i as int, k as int),
        decreases j - k,
    {
        let l = &lines[k];
        assert(l@ == ls[k as int]);
        assert(is_item_of(ls[k as int], ordered));
        let start = match list_marker(l) {
            Some((_, s)) => s,
            None => 0,
        };
        let content = sub_chars(l, start, l.len());
        let item = parse_inline_chars(&content, 0);
        proof {
            lemma_items_m_push(items@, item);
        }
        items.push(item);
        assert(list_items(ls, i as int, k + 1) =~= list_items(ls, i as int, k as int).push(
            spans_m(item@),
        ));
        k += 1;
    }
    (Block::List { ordered, items }, j)
}

/// The paragraph that starts at line `i`, and the line after it.
fn para_block(lines: &Vec<Vec<char>>, i: usize) -> (r: (Block, usize))
    requires
        i < lines@.len(),
        !all_whitespace(lines_view(lines@)[i as int]),
        !is_fence(lines_view(lines@)[i as int]),
        !is_subtext(lines_view(lines@)[i as int]),
        heading_m(lines_view(lines@)[i as int]) is None,
        !is_wide_quote(lines_view(lines@)[i as int]),
        !is_quote_line(lines_view(lines@)[i as int]),
        list_m(lines_view(lines@)[i as int]) is None,
    ensures
        i < r.1 <= lines@.len(),
        blocks_from(lines_view(lines@), i as int) == seq![block_m(r.0)] + blocks_from(
            lines_view(lines@),
            r.1 as int,
        ),
{
    let ghost ls = lines_view(lines@);
    proof {
        lemma_scan_ends(ls, i as int);
    }
    assert(i < lines.len());
    let j = para_end_at(lines, i + 1);
    let text = join_chars(lines, i, j);
    (Block::Para(parse_inline_chars(&text, 0)), j)
}

/// The blocks of the given lines.
fn parse_blocks(lines: &Vec<Vec<char>>) -> (r: Vec<Block>)
    ensures
        blocks_m(r@) == blocks_from(lines_view(lines@), 0),
    decreases weight(lines_view(lines@)), 1int,
{
    let ghost ls = lines_view(lines@);
    let len = lines.len();
    let mut blocks: Vec<Block> = Vec::new();
    let mut i: usize = 0;
    assert(blocks_m(blocks@) + blocks_from(ls, 0) =~= blocks_from(ls, 0));
    while i < len
        invariant
            len == lines@.len(),
            i <= len,
            ls == lines_view(lines@),
            blocks_from(ls, 0) == blocks_m(blocks@) + blocks_from(ls, i as int),
        decreases len - i,
    {
        let line = &lines[i];
        assert(line@ == ls[i as int]);
        if is_blank(line) {
            i += 1;
            continue;
        }
        let (block, next) = if is_fence_line(line) {
            code_block(lines, i)
        } else if is_subtext_line(line) {
            (subtext_block(lines, i), i + 1)
        } else if let Some((level, start)) = heading_level(line) {
            (heading_block(lines, i, level, start), i + 1)
        } else if is_wide_quote_line(line) {
            let block = wide_quote_block(lines, i);
            proof {
                lemma_blocks_m_push(blocks@, block);
            }
            blocks.push(block);
            assert(blocks_from(ls, 0) =~= blocks_m(blocks@));
            return blocks;
        } else if is_quote_marker_line(line) {
            quote_block(lines, i)
        } else if let Some((ordered, _)) = list_marker(line) {
            list_block(lines, i, ordered)
        } else {
            para_block(lines, i)
        };
        proof {
            lemma_blocks_m_push(blocks@, block);
        }
        blocks.push(block);
        assert(blocks_from(ls, 0) =~= blocks_m(blocks@) + blocks_from(ls, next as int));
        i = next;
    }
    assert(blocks_m(blocks@) + blocks_from(ls, i as int) =~= blocks_m(blocks@));
    blocks
}

/// Parses message text into Discord markdown blocks.
pub fn parse(input: &str) -> (r: Vec<Block>)
    ensures
        blocks_m(r@) == parse_m(input@),
{
    let chars = chars_of(input);
    let lines = split_lines(&chars);
    parse_blocks(&lines)
}

} // verus!
