use vstd::prelude::*;

use super::inline::hit_len;
use super::inline::hit_span;
use super::inline::inline_from;
use super::inline::lemma_hit_bounds;
use super::inline::match_rules;
use super::inline::parse_inline_m;
use super::inline::prev_at;
use super::inline::Hit;
use super::inline::MAX_INLINE_DEPTH;
use super::ir::SpanM;

verus! {

/// A text span.
pub open spec fn is_text(s: SpanM) -> bool {
    s is Text
}

/// No two text spans stand side by side, and no text span is empty.
pub open spec fn texts_merged(spans: Seq<SpanM>) -> bool {
    &&& forall|i: int|
        0 <= i < spans.len() ==> (#[trigger] is_text(spans[i]) ==> spans[i]->Text_0.len() > 0)
    &&& forall|i: int, j: int|
        #![trigger spans[i], spans[j]]
        0 <= i && j == i + 1 && j < spans.len() ==> !(is_text(spans[i]) && is_text(spans[j]))
}

/// How many wrapping spans (emphasis, spoilers, links) nest inside a span.
pub open spec fn span_depth(s: SpanM) -> nat
    decreases s,
{
    match s {
        SpanM::Bold(v) => 1 + spans_depth(v),
        SpanM::Italic(v) => 1 + spans_depth(v),
        SpanM::Underline(v) => 1 + spans_depth(v),
        SpanM::Strike(v) => 1 + spans_depth(v),
        SpanM::Spoiler(v) => 1 + spans_depth(v),
        SpanM::Link { label, .. } => 1 + spans_depth(label),
        _ => 0,
    }
}

/// The deepest nesting among spans.
pub open spec fn spans_depth(v: Seq<SpanM>) -> nat
    decreases v,
{
    if v.len() == 0 {
        0
    } else {
        let a = spans_depth(v.drop_last());
        let b = span_depth(v.last());
        if a >= b {
            a
        } else {
            b
        }
    }
}

/// A hit at the start of the remaining text never stands for a text span; a
/// finished span it stands for has no nesting.
proof fn lemma_hit_not_text(rest: Seq<char>, prev: Option<char>, depth: int)
    ensures
        match match_rules(rest, prev, depth) {
            Some(h) => !is_text(hit_span(h, depth)) && (h is Leaf ==> span_depth(
                hit_span(h, depth),
            ) == 0),
            None => true,
        },
{
}

proof fn lemma_merged_join(a: Seq<SpanM>, x: SpanM, b: Seq<SpanM>)
    requires
        a.len() <= 1,
        texts_merged(a),
        !is_text(x),
        texts_merged(b),
    ensures
        texts_merged(a + seq![x] + b),
{
    let r = a + seq![x] + b;
    assert forall|i: int| 0 <= i < r.len() implies (#[trigger] is_text(r[i]) ==> r[i]->Text_0.len()
        > 0) by {
        if i < a.len() {
            assert(r[i] == a[i]);
        } else if i > a.len() {
            assert(r[i] == b[i - a.len() - 1]);
        }
    }
    assert forall|i: int, j: int|
        #![trigger r[i], r[j]]
        0 <= i && j == i + 1 && j < r.len() implies !(is_text(r[i]) && is_text(r[j])) by {
        if j < a.len() {
        } else if j == a.len() {
            assert(r[j] == x);
        } else if i == a.len() {
            assert(r[i] == x);
        } else {
            assert(r[i] == b[i - a.len() - 1]);
            assert(r[j] == b[j - a.len() - 1]);
        }
    }
}

proof fn lemma_inline_from_merged(text: Seq<char>, pos: int, lit: Seq<char>, depth: int)
    ensures
        texts_merged(inline_from(text, pos, lit, depth)),
    decreases text.len() - pos,
{
    if pos < 0 || pos >= text.len() {
    } else {
        let rest = text.skip(pos);
        let prev = prev_at(text, pos);
        lemma_hit_bounds(rest, prev, depth);
        lemma_hit_not_text(rest, prev, depth);
        match match_rules(rest, prev, depth) {
            Some(h) => {
                let tail = inline_from(text, pos + hit_len(h), Seq::empty(), depth);
                lemma_inline_from_merged(text, pos + hit_len(h), Seq::empty(), depth);
                lemma_merged_join(
                    if lit.len() == 0 {
                        Seq::empty()
                    } else {
                        seq![SpanM::Text(lit)]
                    },
                    hit_span(h, depth),
                    tail,
                );
            },
            None => {
                if rest.len() >= 2 && rest[0] == '\\' && super::chars::ascii_punctuation(rest[1]) {
                    lemma_inline_from_merged(text, pos + 2, lit.push(rest[1]), depth);
                } else {
                    lemma_inline_from_merged(text, pos + 1, lit.push(text[pos]), depth);
                }
            },
        }
    }
}

/// Every span list inside a span is merged too.
pub open spec fn span_merged(s: SpanM) -> bool
    decreases s, 0int,
{
    match s {
        SpanM::Bold(v) => all_merged(v),
        SpanM::Italic(v) => all_merged(v),
        SpanM::Underline(v) => all_merged(v),
        SpanM::Strike(v) => all_merged(v),
        SpanM::Spoiler(v) => all_merged(v),
        SpanM::Link { label, .. } => all_merged(label),
        _ => true,
    }
}

/// Each span of a list has its inner lists merged.
pub open spec fn children_merged(v: Seq<SpanM>) -> bool
    decreases v, 1int,
{
    if v.len() == 0 {
        true
    } else {
        children_merged(v.drop_last()) && span_merged(v.last())
    }
}

/// A span list is merged at every level of nesting.
pub open spec fn all_merged(v: Seq<SpanM>) -> bool
    decreases v, 2int,
{
    texts_merged(v) && children_merged(v)
}

proof fn lemma_children_merged_concat(a: Seq<SpanM>, b: Seq<SpanM>)
    requires
        children_merged(a),
        children_merged(b),
    ensures
        children_merged(a + b),
    decreases b.len(),
{
    if b.len() == 0 {
        assert(a + b =~= a);
    } else {
        assert((a + b).drop_last() =~= a + b.drop_last());
        assert((a + b).last() == b.last());
        lemma_children_merged_concat(a, b.drop_last());
    }
}

proof fn lemma_children_merged_one(x: SpanM)
    requires
        span_merged(x),
    ensures
        children_merged(seq![x]),
{
    assert(seq![x].drop_last() =~= Seq::<SpanM>::empty());
    assert(children_merged(Seq::<SpanM>::empty()));
    assert(seq![x].last() == x);
}

proof fn lemma_inline_from_deep(text: Seq<char>, pos: int, lit: Seq<char>, depth: int)
    ensures
        all_merged(inline_from(text, pos, lit, depth)),
    decreases text.len(), text.len() - pos,
{
    lemma_inline_from_merged(text, pos, lit, depth);
    if pos < 0 || pos >= text.len() {
        if lit.len() > 0 {
            lemma_children_merged_one(SpanM::Text(lit));
        }
    } else {
        let rest = text.skip(pos);
        let prev = prev_at(text, pos);
        lemma_hit_bounds(rest, prev, depth);
        match match_rules(rest, prev, depth) {
            Some(h) => {
                let head = if lit.len() == 0 {
                    Seq::empty()
                } else {
                    seq![SpanM::Text(lit)]
                };
                if lit.len() > 0 {
                    lemma_children_merged_one(SpanM::Text(lit));
                }
                let x = hit_span(h, depth);
                match h {
                    Hit::Leaf(_, _) => {},
                    Hit::Wrap(_, inner, _) => {
                        lemma_inline_from_deep(inner, 0, Seq::empty(), depth + 1);
                    },
                    Hit::Link(_, label, _) => {
                        lemma_inline_from_deep(label, 0, Seq::empty(), depth + 1);
                    },
                }
                lemma_children_merged_one(x);
                let tail = inline_from(text, pos + hit_len(h), Seq::empty(), depth);
                lemma_inline_from_deep(text, pos + hit_len(h), Seq::empty(), depth);
                lemma_children_merged_concat(head, seq![x]);
                lemma_children_merged_concat(head + seq![x], tail);
            },
            None => {
                if rest.len() >= 2 && rest[0] == '\\' && super::chars::ascii_punctuation(rest[1]) {
                    lemma_inline_from_deep(text, pos + 2, lit.push(rest[1]), depth);
                } else {
                    lemma_inline_from_deep(text, pos + 1, lit.push(text[pos]), depth);
                }
            },
        }
    }
}

/// Parsing inline text gathers literal characters into one span, at every level
/// of nesting: no two text spans stand side by side, and none is empty.
pub proof fn law_literal_text_merges(text: Seq<char>, depth: int)
    ensures
        all_merged(parse_inline_m(text, depth)),
{
    lemma_inline_from_deep(text, 0, Seq::empty(), depth);
}

proof fn lemma_spans_depth_concat(a: Seq<SpanM>, b: Seq<SpanM>)
    ensures
        spans_depth(a + b) == (if spans_depth(a) >= spans_depth(b) {
            spans_depth(a)
        } else {
            spans_depth(b)
        }),
    decreases b.len(),
{
    if b.len() == 0 {
        assert(a + b =~= a);
    } else {
        assert((a + b).drop_last() =~= a + b.drop_last());
        assert((a + b).last() == b.last());
        lemma_spans_depth_concat(a, b.drop_last());
    }
}

proof fn lemma_single_depth(x: SpanM)
    ensures
        spans_depth(seq![x]) == span_depth(x),
{
    let one = seq![x];
    assert(one.drop_last() =~= Seq::<SpanM>::empty());
    assert(spans_depth(Seq::<SpanM>::empty()) == 0);
    assert(one.last() == x);
}

/// How deep spans may still nest when parsing starts at `depth`.
pub open spec fn depth_budget(depth: int) -> int {
    if depth <= MAX_INLINE_DEPTH {
        MAX_INLINE_DEPTH - depth
    } else {
        0
    }
}

proof fn lemma_inline_from_depth(text: Seq<char>, pos: int, lit: Seq<char>, depth: int)
    requires
        0 <= depth,
    ensures
        spans_depth(inline_from(text, pos, lit, depth)) <= depth_budget(depth),
    decreases text.len(), text.len() - pos,
{
    if pos < 0 || pos >= text.len() {
        if lit.len() > 0 {
            lemma_single_depth(SpanM::Text(lit));
        }
    } else {
        let rest = text.skip(pos);
        let prev = prev_at(text, pos);
        lemma_hit_bounds(rest, prev, depth);
        lemma_hit_not_text(rest, prev, depth);
        match match_rules(rest, prev, depth) {
            Some(h) => {
                let head = if lit.len() == 0 {
                    Seq::empty()
                } else {
                    seq![SpanM::Text(lit)]
                };
                if lit.len() > 0 {
                    lemma_single_depth(SpanM::Text(lit));
                }
                let x = hit_span(h, depth);
                match h {
                    Hit::Leaf(_, _) => {},
                    Hit::Wrap(_, inner, _) => {
                        lemma_inline_from_depth(inner, 0, Seq::empty(), depth + 1);
                    },
                    Hit::Link(_, label, _) => {
                        lemma_inline_from_depth(label, 0, Seq::empty(), depth + 1);
                    },
                }
                lemma_single_depth(x);
                let tail = inline_from(text, pos + hit_len(h), Seq::empty(), depth);
                lemma_inline_from_depth(text, pos + hit_len(h), Seq::empty(), depth);
                lemma_spans_depth_concat(head, seq![x]);
                lemma_spans_depth_concat(head + seq![x], tail);
            },
            None => {
                if rest.len() >= 2 && rest[0] == '\\' && super::chars::ascii_punctuation(rest[1]) {
                    lemma_inline_from_depth(text, pos + 2, lit.push(rest[1]), depth);
                } else {
                    lemma_inline_from_depth(text, pos + 1, lit.push(text[pos]), depth);
                }
            },
        }
    }
}

/// Emphasis, spoilers and link labels nest at most `MAX_INLINE_DEPTH` deep,
/// counted from the depth parsing starts at, and not at all when parsing starts at
/// or past that depth; deeper markers stay text.
pub proof fn law_nesting_is_bounded(text: Seq<char>, depth: int)
    requires
        0 <= depth,
    ensures
        spans_depth(parse_inline_m(text, depth)) <= depth_budget(depth),
{
    lemma_inline_from_depth(text, 0, Seq::empty(), depth);
}

} // verus!
