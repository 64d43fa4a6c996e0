use vstd::prelude::*;

use crate::text::chars_of;

use super::chars::all_digits;
use super::chars::all_word;
use super::chars::ascii_lower;
use super::chars::ascii_punctuation;
use super::chars::find_char;
use super::chars::find_pair;
use super::chars::find_whitespace;
use super::chars::lemma_find_char;
use super::chars::lemma_find_pair;
use super::chars::lemma_find_whitespace;
use super::chars::word_char;
use super::chars::all_digits_in;
use super::chars::ascii_digit;
use super::chars::all_word_in;
use super::chars::find_char_in;
use super::chars::find_pair_in;
use super::chars::find_whitespace_in;
use super::chars::is_ascii_punctuation;
use super::chars::is_word_char;
use super::chars::sub_chars;
use super::ir::span_m;
use super::ir::spans_m;
use super::ir::MentionKind;
use super::ir::MentionM;
use super::ir::Span;
use super::ir::SpanM;
use super::timestamp::is_valid_style;
use crate::text::push_char;
use crate::text::string_of;
use super::timestamp::valid_style;

verus! {

/// How deep emphasis, spoilers and link labels may nest before markers stay text.
pub const MAX_INLINE_DEPTH: usize = 16;

/// The spans that wrap inner spans.
#[derive(Clone, Copy)]
pub enum WrapKind {
    Spoiler,
    Bold,
    Underline,
    Italic,
    Strike,
}

/// What an inline rule recognised at the start of the remaining text, with the
/// number of characters it consumed.
pub enum Hit {
    /// A finished span.
    Leaf(SpanM, int),
    /// A wrapping span around the given inner text.
    Wrap(WrapKind, Seq<char>, int),
    /// A link with the given URL around the given label text.
    Link(Seq<char>, Seq<char>, int),
}

pub open spec fn hit_len(h: Hit) -> int {
    match h {
        Hit::Leaf(_, n) => n,
        Hit::Wrap(_, _, n) => n,
        Hit::Link(_, _, n) => n,
    }
}

/// The length of the text a hit parses again, one level deeper.
pub open spec fn hit_size(h: Hit) -> int {
    match h {
        Hit::Leaf(_, _) => 0,
        Hit::Wrap(_, inner, _) => inner.len() as int,
        Hit::Link(_, label, _) => label.len() as int,
    }
}

/// `s[i] == c`, with `i` in range.
pub open spec fn at(s: Seq<char>, i: int, c: char) -> bool {
    0 <= i < s.len() && s[i] == c
}

pub open spec fn wrap_m(kind: WrapKind, inner: Seq<SpanM>) -> SpanM {
    match kind {
        WrapKind::Spoiler => SpanM::Spoiler(inner),
        WrapKind::Bold => SpanM::Bold(inner),
        WrapKind::Underline => SpanM::Underline(inner),
        WrapKind::Italic => SpanM::Italic(inner),
        WrapKind::Strike => SpanM::Strike(inner),
    }
}

/// `<:name:id>` or `<a:name:id>`.
pub open spec fn match_emoji(rest: Seq<char>) -> Option<Hit> {
    let start: int = if at(rest, 0, '<') && at(rest, 1, 'a') && at(rest, 2, ':') {
        3
    } else if at(rest, 0, '<') && at(rest, 1, ':') {
        2
    } else {
        0
    };
    if start == 0 {
        None
    } else {
        let body = rest.skip(start);
        match find_char(body, '>') {
            None => None,
            Some(close) => {
                let spec = body.take(close);
                match find_char(spec, ':') {
                    None => None,
                    Some(k) => {
                        let name = spec.take(k);
                        let id = spec.skip(k + 1);
                        if name.len() == 0 || id.len() == 0 || !all_word(name) || !all_digits(id) {
                            None
                        } else {
                            Some(
                                Hit::Leaf(
                                    SpanM::Emoji { id, name, animated: start == 3 },
                                    start + close + 1,
                                ),
                            )
                        }
                    },
                }
            },
        }
    }
}

/// The digits between a mention prefix of length `start` and the next `>`, with
/// the length of the whole mention.
pub open spec fn mention_id(rest: Seq<char>, start: int) -> Option<(Seq<char>, int)> {
    let body = rest.skip(start);
    match find_char(body, '>') {
        None => None,
        Some(close) => {
            let id = body.take(close);
            if id.len() != 0 && all_digits(id) {
                Some((id, start + close + 1))
            } else {
                None
            }
        },
    }
}

pub open spec fn starts_everyone(rest: Seq<char>) -> bool {
    at(rest, 0, '@') && at(rest, 1, 'e') && at(rest, 2, 'v') && at(rest, 3, 'e') && at(rest, 4, 'r')
        && at(rest, 5, 'y') && at(rest, 6, 'o') && at(rest, 7, 'n') && at(rest, 8, 'e')
}

pub open spec fn starts_here(rest: Seq<char>) -> bool {
    at(rest, 0, '@') && at(rest, 1, 'h') && at(rest, 2, 'e') && at(rest, 3, 'r') && at(rest, 4, 'e')
}

/// `<@&id>`, `<@id>`, `<#id>`, `@everyone`, `@here`.
pub open spec fn match_mention(rest: Seq<char>) -> Option<Hit> {
    if at(rest, 0, '<') && at(rest, 1, '@') && at(rest, 2, '&') {
        match mention_id(rest, 3) {
            Some((id, n)) => Some(Hit::Leaf(SpanM::Mention(MentionM::Role(id)), n)),
            None => None,
        }
    } else if at(rest, 0, '<') && at(rest, 1, '@') {
        match mention_id(rest, 2) {
            Some((id, n)) => Some(Hit::Leaf(SpanM::Mention(MentionM::User(id)), n)),
            None => None,
        }
    } else if at(rest, 0, '<') && at(rest, 1, '#') {
        match mention_id(rest, 2) {
            Some((id, n)) => Some(Hit::Leaf(SpanM::Mention(MentionM::Channel(id)), n)),
            None => None,
        }
    } else if starts_everyone(rest) && (rest.len() == 9 || !word_char(rest[9])) {
        Some(Hit::Leaf(SpanM::Mention(MentionM::Everyone), 9))
    } else if starts_here(rest) && (rest.len() == 5 || !word_char(rest[5])) {
        Some(Hit::Leaf(SpanM::Mention(MentionM::Here), 5))
    } else {
        None
    }
}

/// The value of a string of decimal digits.
pub open spec fn digits_value(s: Seq<char>) -> nat
    decreases s.len(),
{
    if s.len() == 0 {
        0
    } else {
        digits_value(s.drop_last()) * 10 + ((s.last() as int - 48) as nat)
    }
}

/// The digits and the style of the inside of `<t:...>`.
pub open spec fn timestamp_parts(spec: Seq<char>) -> Option<(Seq<char>, char)> {
    match find_char(spec, ':') {
        Some(k) => {
            let style = spec.skip(k + 1);
            if style.len() == 1 && valid_style(style[0]) {
                Some((spec.take(k), style[0]))
            } else {
                None
            }
        },
        None => Some((spec, 'f')),
    }
}

/// The integer that `i64::from_str` reads from an optional `-` and decimal digits.
pub open spec fn signed_value(digits_raw: Seq<char>) -> Option<int> {
    let neg = at(digits_raw, 0, '-');
    let unsigned = if neg { digits_raw.skip(1) } else { digits_raw };
    if unsigned.len() == 0 || !all_digits(unsigned) {
        None
    } else {
        let v: int = if neg { -digits_value(unsigned) } else { digits_value(unsigned) as int };
        if i64::MIN <= v <= i64::MAX {
            Some(v)
        } else {
            None
        }
    }
}

/// `<t:unix>` or `<t:unix:style>`.
pub open spec fn match_timestamp(rest: Seq<char>) -> Option<Hit> {
    if !(at(rest, 0, '<') && at(rest, 1, 't') && at(rest, 2, ':')) {
        None
    } else {
        let inner = rest.skip(3);
        match find_char(inner, '>') {
            None => None,
            Some(close) => match timestamp_parts(inner.take(close)) {
                None => None,
                Some((digits_raw, style)) => match signed_value(digits_raw) {
                    None => None,
                    Some(v) => Some(
                        Hit::Leaf(SpanM::Timestamp { unix: v as i64, style }, 3 + close + 1),
                    ),
                },
            },
        }
    }
}

/// A doubled marker `cc ... cc` around a non-empty inner text.
pub open spec fn match_paired(rest: Seq<char>, c: char, kind: WrapKind, depth: int) -> Option<
    Hit,
> {
    if depth >= MAX_INLINE_DEPTH || !(at(rest, 0, c) && at(rest, 1, c)) {
        None
    } else {
        let inner_full = rest.skip(2);
        match find_pair(inner_full, c, c) {
            None => None,
            Some(close) => if close == 0 {
                None
            } else {
                Some(Hit::Wrap(kind, inner_full.take(close), 4 + close))
            },
        }
    }
}

/// `*it*` or `_it_`; an underscore does not open after, nor close before, a word
/// character.
pub open spec fn match_italic(rest: Seq<char>, prev: Option<char>, depth: int) -> Option<Hit> {
    if !(at(rest, 0, '*') || at(rest, 0, '_')) {
        None
    } else {
        let m = rest[0];
        if m == '_' && (match prev {
            Some(p) => word_char(p),
            None => false,
        }) {
            None
        } else if depth >= MAX_INLINE_DEPTH {
            None
        } else {
            let inner_full = rest.skip(1);
            match find_char(inner_full, m) {
                None => None,
                Some(close) => if close == 0 {
                    None
                } else if m == '_' && close + 1 < inner_full.len() && word_char(
                    inner_full[close + 1],
                ) {
                    None
                } else {
                    Some(Hit::Wrap(WrapKind::Italic, inner_full.take(close), 2 + close))
                },
            }
        }
    }
}

/// `` `code` ``.
pub open spec fn match_code(rest: Seq<char>) -> Option<Hit> {
    if !at(rest, 0, '`') {
        None
    } else {
        let inner_full = rest.skip(1);
        match find_char(inner_full, '`') {
            None => None,
            Some(close) => if close == 0 {
                None
            } else {
                Some(Hit::Leaf(SpanM::Code(inner_full.take(close)), close + 2))
            },
        }
    }
}

/// `[label](url)` with a non-empty URL.
pub open spec fn match_link(rest: Seq<char>, depth: int) -> Option<Hit> {
    if depth >= MAX_INLINE_DEPTH || !at(rest, 0, '[') {
        None
    } else {
        let label_area = rest.skip(1);
        match find_pair(label_area, ']', '(') {
            None => None,
            Some(close_label) => {
                let url_area = label_area.skip(close_label + 2);
                match find_char(url_area, ')') {
                    None => None,
                    Some(close_url) => {
                        let url = url_area.take(close_url);
                        if url.len() == 0 {
                            None
                        } else {
                            Some(
                                Hit::Link(
                                    url,
                                    label_area.take(close_label),
                                    1 + close_label + 2 + close_url + 1,
                                ),
                            )
                        }
                    },
                }
            },
        }
    }
}

/// The length of `https://` or `http://` (in any ASCII case) at the start of
/// `rest`, or 0.
pub open spec fn scheme_len(rest: Seq<char>) -> int {
    if rest.len() >= 8 && ascii_lower(rest[0]) == 'h' && ascii_lower(rest[1]) == 't' && ascii_lower(
        rest[2],
    ) == 't' && ascii_lower(rest[3]) == 'p' && ascii_lower(rest[4]) == 's' && rest[5] == ':'
        && rest[6] == '/' && rest[7] == '/' {
        8
    } else if rest.len() >= 7 && ascii_lower(rest[0]) == 'h' && ascii_lower(rest[1]) == 't'
        && ascii_lower(rest[2]) == 't' && ascii_lower(rest[3]) == 'p' && rest[4] == ':' && rest[5]
        == '/' && rest[6] == '/' {
        7
    } else {
        0
    }
}

pub open spec fn count_char(s: Seq<char>, c: char) -> nat
    decreases s.len(),
{
    if s.len() == 0 {
        0
    } else {
        count_char(s.drop_last(), c) + if s.last() == c {
            1nat
        } else {
            0
        }
    }
}

pub open spec fn url_trailing_punctuation(c: char) -> bool {
    c == '.' || c == ',' || c == ';' || c == ':' || c == '!' || c == '?' || c == '\'' || c == '"'
}

/// The length left of `url` once trailing punctuation, and closing parentheses
/// without an opening partner, are cut off.
pub open spec fn trim_url_len(url: Seq<char>) -> nat
    decreases url.len(),
{
    if url.len() == 0 {
        0
    } else if url_trailing_punctuation(url.last()) {
        trim_url_len(url.drop_last())
    } else if url.last() == ')' && count_char(url, ')') > count_char(url, '(') {
        trim_url_len(url.drop_last())
    } else {
        url.len()
    }
}

/// A bare `http(s)://` URL, ended by whitespace or `<`.
pub open spec fn match_autolink(rest: Seq<char>) -> Option<Hit> {
    let sl = scheme_len(rest);
    if sl == 0 {
        None
    } else {
        let body = rest.skip(sl);
        let end_ws: int = match find_whitespace(body) {
            Some(k) => k,
            None => body.len() as int,
        };
        let end_lt: int = match find_char(body, '<') {
            Some(k) => k,
            None => body.len() as int,
        };
        let end = if end_ws < end_lt {
            end_ws
        } else {
            end_lt
        };
        let url = rest.take(sl + end);
        let n = trim_url_len(url);
        if n <= sl {
            None
        } else {
            Some(Hit::Leaf(SpanM::Autolink(url.take(n as int)), n as int))
        }
    }
}

/// The first inline rule that matches at the start of `rest`, in Discord's order.
pub open spec fn match_rules(rest: Seq<char>, prev: Option<char>, depth: int) -> Option<Hit> {
    if match_emoji(rest) is Some {
        match_emoji(rest)
    } else if match_mention(rest) is Some {
        match_mention(rest)
    } else if match_timestamp(rest) is Some {
        match_timestamp(rest)
    } else if match_paired(rest, '|', WrapKind::Spoiler, depth) is Some {
        match_paired(rest, '|', WrapKind::Spoiler, depth)
    } else if match_paired(rest, '*', WrapKind::Bold, depth) is Some {
        match_paired(rest, '*', WrapKind::Bold, depth)
    } else if match_paired(rest, '_', WrapKind::Underline, depth) is Some {
        match_paired(rest, '_', WrapKind::Underline, depth)
    } else if match_italic(rest, prev, depth) is Some {
        match_italic(rest, prev, depth)
    } else if match_paired(rest, '~', WrapKind::Strike, depth) is Some {
        match_paired(rest, '~', WrapKind::Strike, depth)
    } else if match_code(rest) is Some {
        match_code(rest)
    } else if match_link(rest, depth) is Some {
        match_link(rest, depth)
    } else {
        match_autolink(rest)
    }
}

/// A backslash before ASCII punctuation makes the punctuation literal.
pub open spec fn escape_at(rest: Seq<char>) -> Option<char> {
    if rest.len() >= 2 && rest[0] == '\\' && ascii_punctuation(rest[1]) {
        Some(rest[1])
    } else {
        None
    }
}

pub open spec fn prev_at(text: Seq<char>, pos: int) -> Option<char> {
    if 0 < pos <= text.len() {
        Some(text[pos - 1])
    } else {
        None
    }
}

/// Literal text waiting to become a span: nothing if empty.
pub open spec fn flush_m(lit: Seq<char>) -> Seq<SpanM> {
    if lit.len() == 0 {
        Seq::empty()
    } else {
        seq![SpanM::Text(lit)]
    }
}

/// The spans of `text` at nesting depth `depth`.
pub open spec fn parse_inline_m(text: Seq<char>, depth: int) -> Seq<SpanM>
    decreases text.len(), 1int,
{
    inline_from(text, 0, Seq::empty(), depth)
}

/// The span a hit stands for.
pub open spec fn hit_span(h: Hit, depth: int) -> SpanM
    decreases hit_size(h), 2int,
{
    match h {
        Hit::Leaf(s, _) => s,
        Hit::Wrap(kind, inner, _) => wrap_m(kind, parse_inline_m(inner, depth + 1)),
        Hit::Link(url, label, _) => SpanM::Link { url, label: parse_inline_m(label, depth + 1) },
    }
}

/// The spans of `text[pos..]`, with `lit` the literal text gathered before `pos`.
pub open spec fn inline_from(text: Seq<char>, pos: int, lit: Seq<char>, depth: int) -> Seq<
    SpanM,
>
    decreases text.len() - pos, 0int,
{
    if pos < 0 || pos >= text.len() {
        flush_m(lit)
    } else {
        let rest = text.skip(pos);
        match match_rules(rest, prev_at(text, pos), depth) {
            Some(h) => {
                proof {
                    lemma_hit_bounds(rest, prev_at(text, pos), depth);
                }
                flush_m(lit) + seq![hit_span(h, depth)] + inline_from(
                    text,
                    pos + hit_len(h),
                    Seq::empty(),
                    depth,
                )
            },
            None => match escape_at(rest) {
                Some(c) => inline_from(text, pos + 2, lit.push(c), depth),
                None => inline_from(text, pos + 1, lit.push(text[pos]), depth),
            },
        }
    }
}

/// What every hit satisfies: it consumes at least one and at most all remaining
/// characters, reparses strictly less, and nests only below the depth limit.
pub open spec fn hit_ok(h: Hit, rest: Seq<char>, depth: int) -> bool {
    &&& 1 <= hit_len(h) <= rest.len()
    &&& 0 <= hit_size(h) < rest.len()
    &&& (h !is Leaf ==> depth < MAX_INLINE_DEPTH)
}

pub proof fn lemma_hit_bounds(rest: Seq<char>, prev: Option<char>, depth: int)
    ensures
        match match_rules(rest, prev, depth) {
            Some(h) => hit_ok(h, rest, depth),
            None => true,
        },
{
    if match_emoji(rest) is Some {
        let start: int = if at(rest, 0, '<') && at(rest, 1, 'a') && at(rest, 2, ':') { 3 } else { 2 };
        let body = rest.skip(start);
        lemma_find_char(body, '>');
    } else if match_mention(rest) is Some {
        if at(rest, 0, '<') && at(rest, 1, '@') && at(rest, 2, '&') {
            lemma_find_char(rest.skip(3), '>');
        } else if at(rest, 0, '<') && (at(rest, 1, '@') || at(rest, 1, '#')) {
            lemma_find_char(rest.skip(2), '>');
        }
    } else if match_timestamp(rest) is Some {
        lemma_find_char(rest.skip(3), '>');
    } else if match_paired(rest, '|', WrapKind::Spoiler, depth) is Some {
        lemma_find_pair(rest.skip(2), '|', '|');
    } else if match_paired(rest, '*', WrapKind::Bold, depth) is Some {
        lemma_find_pair(rest.skip(2), '*', '*');
    } else if match_paired(rest, '_', WrapKind::Underline, depth) is Some {
        lemma_find_pair(rest.skip(2), '_', '_');
    } else if match_italic(rest, prev, depth) is Some {
        lemma_find_char(rest.skip(1), rest[0]);
    } else if match_paired(rest, '~', WrapKind::Strike, depth) is Some {
        lemma_find_pair(rest.skip(2), '~', '~');
    } else if match_code(rest) is Some {
        lemma_find_char(rest.skip(1), '`');
    } else if match_link(rest, depth) is Some {
        let label_area = rest.skip(1);
        lemma_find_pair(label_area, ']', '(');
        let close_label = find_pair(label_area, ']', '(').unwrap();
        lemma_find_char(label_area.skip(close_label + 2), ')');
    } else if match_autolink(rest) is Some {
        let sl = scheme_len(rest);
        let body = rest.skip(sl);
        lemma_find_whitespace(body);
        lemma_find_char(body, '<');
        let end_ws: int = match find_whitespace(body) {
            Some(k) => k,
            None => body.len() as int,
        };
        let end_lt: int = match find_char(body, '<') {
            Some(k) => k,
            None => body.len() as int,
        };
        let end = if end_ws < end_lt { end_ws } else { end_lt };
        lemma_trim_url_len(rest.take(sl + end));
    }
}

pub proof fn lemma_trim_url_len(url: Seq<char>)
    ensures
        trim_url_len(url) <= url.len(),
    decreases url.len(),
{
    if url.len() > 0 {
        lemma_trim_url_len(url.drop_last());
    }
}


/// What an inline rule found at a position: a finished span, or the positions
/// of the text to parse one level deeper.
pub enum Found {
    Leaf(Span, usize),
    Wrap(WrapKind, usize, usize, usize),
    Link(String, usize, usize, usize),
}

pub open spec fn found_is(f: Found, h: Hit, text: Seq<char>) -> bool {
    match f {
        Found::Leaf(s, n) => h is Leaf && span_m(s) == h->Leaf_0 && n == h->Leaf_1,
        Found::Wrap(k, a, b, n) => h is Wrap && k == h->Wrap_0 && a <= b <= text.len()
            && text.subrange(a as int, b as int) == h->Wrap_1 && n == h->Wrap_2,
        Found::Link(u, a, b, n) => h is Link && u@ == h->Link_0 && a <= b <= text.len()
            && text.subrange(a as int, b as int) == h->Link_1 && n == h->Link_2,
    }
}

pub open spec fn found_for(r: Option<Found>, h: Option<Hit>, text: Seq<char>) -> bool {
    match r {
        Some(f) => h is Some && found_is(f, h->0, text),
        None => h is None,
    }
}

/// `text[pos + i] == c`.
fn char_at(text: &Vec<char>, pos: usize, i: usize, c: char) -> (b: bool)
    requires
        pos <= text@.len(),
    ensures
        b == at(text@.skip(pos as int), i as int, c),
{
    i < text.len() - pos && text[pos + i] == c
}

fn rule_emoji(text: &Vec<char>, pos: usize) -> (r: Option<Found>)
    requires
        pos <= text@.len(),
    ensures
        found_for(r, match_emoji(text@.skip(pos as int)), text@),
{
    let ghost rest = text@.skip(pos as int);
    let len = text.len();
    let start: usize = if char_at(text, pos, 0, '<') && char_at(text, pos, 1, 'a') && char_at(
        text,
        pos,
        2,
        ':',
    ) {
        3
    } else if char_at(text, pos, 0, '<') && char_at(text, pos, 1, ':') {
        2
    } else {
        return None;
    };
    let body_from = pos + start;
    let ghost body = rest.skip(start as int);
    assert(body =~= text@.subrange(body_from as int, len as int));
    let close = match find_char_in(text, body_from, len, '>') {
        Some(c) => c,
        None => return None,
    };
    proof {
        lemma_find_char(body, '>');
    }
    let spec_to = body_from + close;
    let ghost spec = body.take(close as int);
    assert(spec =~= text@.subrange(body_from as int, spec_to as int));
    let k = match find_char_in(text, body_from, spec_to, ':') {
        Some(k) => k,
        None => return None,
    };
    proof {
        lemma_find_char(spec, ':');
    }
    let name_to = body_from + k;
    let id_from = name_to + 1;
    assert(spec.take(k as int) =~= text@.subrange(body_from as int, name_to as int));
    assert(spec.skip(k + 1) =~= text@.subrange(id_from as int, spec_to as int));
    if k == 0 || id_from == spec_to || !all_word_in(text, body_from, name_to) || !all_digits_in(
        text,
        id_from,
        spec_to,
    ) {
        return None;
    }
    let id = string_of(text, id_from, spec_to);
    let name = string_of(text, body_from, name_to);
    Some(Found::Leaf(Span::Emoji { id, name, animated: start == 3 }, start + close + 1))
}

/// The positions of the digits after a mention prefix of length `start`, and the
/// length of the whole mention.
fn mention_id_at(text: &Vec<char>, pos: usize, start: usize) -> (r: Option<(usize, usize, usize)>)
    requires
        pos <= text@.len(),
        start <= text@.len() - pos,
    ensures
        match r {
            Some((a, b, n)) => mention_id(text@.skip(pos as int), start as int) matches Some(
                (id, m),
            ) && a <= b <= text@.len() && text@.subrange(a as int, b as int) == id && n == m,
            None => mention_id(text@.skip(pos as int), start as int) is None,
        },
{
    let len = text.len();
    let from = pos + start;
    let ghost body = text@.skip(pos as int).skip(start as int);
    assert(body =~= text@.subrange(from as int, len as int));
    let close = match find_char_in(text, from, len, '>') {
        Some(c) => c,
        None => return None,
    };
    proof {
        lemma_find_char(body, '>');
    }
    assert(body.take(close as int) =~= text@.subrange(from as int, (from + close) as int));
    if close != 0 && all_digits_in(text, from, from + close) {
        Some((from, from + close, start + close + 1))
    } else {
        None
    }
}

fn rule_mention(text: &Vec<char>, pos: usize) -> (r: Option<Found>)
    requires
        pos <= text@.len(),
    ensures
        found_for(r, match_mention(text@.skip(pos as int)), text@),
{
    let ghost rest = text@.skip(pos as int);
    if char_at(text, pos, 0, '<') && char_at(text, pos, 1, '@') && char_at(text, pos, 2, '&') {
        return match mention_id_at(text, pos, 3) {
            Some((a, b, n)) => Some(
                Found::Leaf(Span::Mention(MentionKind::Role(string_of(text, a, b))), n),
            ),
            None => None,
        };
    }
    if char_at(text, pos, 0, '<') && char_at(text, pos, 1, '@') {
        return match mention_id_at(text, pos, 2) {
            Some((a, b, n)) => Some(
                Found::Leaf(Span::Mention(MentionKind::User(string_of(text, a, b))), n),
            ),
            None => None,
        };
    }
    if char_at(text, pos, 0, '<') && char_at(text, pos, 1, '#') {
        return match mention_id_at(text, pos, 2) {
            Some((a, b, n)) => Some(
                Found::Leaf(Span::Mention(MentionKind::Channel(string_of(text, a, b))), n),
            ),
            None => None,
        };
    }
    if char_at(text, pos, 0, '@') && char_at(text, pos, 1, 'e') && char_at(text, pos, 2, 'v')
        && char_at(text, pos, 3, 'e') && char_at(text, pos, 4, 'r') && char_at(text, pos, 5, 'y')
        && char_at(text, pos, 6, 'o') && char_at(text, pos, 7, 'n') && char_at(text, pos, 8, 'e') {
        if text.len() - pos == 9 || !is_word_char(text[pos + 9]) {
            return Some(Found::Leaf(Span::Mention(MentionKind::Everyone), 9));
        }
    }
    if char_at(text, pos, 0, '@') && char_at(text, pos, 1, 'h') && char_at(text, pos, 2, 'e')
        && char_at(text, pos, 3, 'r') && char_at(text, pos, 4, 'e') {
        if text.len() - pos == 5 || !is_word_char(text[pos + 5]) {
            return Some(Found::Leaf(Span::Mention(MentionKind::Here), 5));
        }
    }
    None
}

pub proof fn lemma_digits_value_prefix(s: Seq<char>, k: int)
    requires
        0 <= k <= s.len(),
    ensures
        digits_value(s.take(k)) <= digits_value(s),
    decreases s.len(),
{
    if k < s.len() {
        lemma_digits_value_prefix(s.drop_last(), k);
        assert(s.drop_last().take(k) =~= s.take(k));
    } else {
        assert(s.take(k) =~= s);
    }
}

/// The value `i64::from_str` reads from `text[from..to]` when it holds an optional
/// `-` and then only decimal digits.
fn parse_signed(text: &Vec<char>, from: usize, to: usize) -> (r: Option<i64>)
    requires
        from <= to <= text@.len(),
    ensures
        match r {
            Some(v) => signed_value(text@.subrange(from as int, to as int)) == Some(v as int),
            None => signed_value(text@.subrange(from as int, to as int)) is None,
        },
{
    let ghost raw = text@.subrange(from as int, to as int);
    let neg = from < to && text[from] == '-';
    let u_from = if neg {
        from + 1
    } else {
        from
    };
    let ghost unsigned = text@.subrange(u_from as int, to as int);
    assert(neg == at(raw, 0, '-'));
    assert(unsigned =~= if neg { raw.skip(1) } else { raw });
    if u_from == to || !all_digits_in(text, u_from, to) {
        return None;
    }
    let mut acc: u128 = 0;
    let mut i = u_from;
    while i < to
        invariant
            u_from <= i <= to <= text@.len(),
            unsigned == text@.subrange(u_from as int, to as int),
            all_digits(unsigned),
            raw == text@.subrange(from as int, to as int),
            neg == at(raw, 0, '-'),
            unsigned == if neg { raw.skip(1) } else { raw },
            acc == digits_value(text@.subrange(u_from as int, i as int)),
            acc <= 9223372036854775808,
        decreases to - i,
    {
        let c = text[i];
        assert(unsigned[i - u_from] == c);
        let d: u128 = (c as u32 - 48) as u128;
        assert(text@.subrange(u_from as int, i + 1).drop_last() =~= text@.subrange(
            u_from as int,
            i as int,
        ));
        assert(ascii_digit(c));
        assert(d == (c as int - 48) as nat);
        acc = acc * 10 + d;
        assert(acc == digits_value(text@.subrange(u_from as int, i + 1)));
        i += 1;
        if acc > 9223372036854775808 {
            proof {
                assert(unsigned.take(i - u_from) =~= text@.subrange(u_from as int, i as int));
                lemma_digits_value_prefix(unsigned, i - u_from);
            }
            return None;
        }
    }
    assert(text@.subrange(u_from as int, i as int) =~= unsigned);
    if neg {
        Some((0i128 - acc as i128) as i64)
    } else if acc <= 9223372036854775807 {
        Some(acc as i64)
    } else {
        None
    }
}

fn rule_timestamp(text: &Vec<char>, pos: usize) -> (r: Option<Found>)
    requires
        pos <= text@.len(),
    ensures
        found_for(r, match_timestamp(text@.skip(pos as int)), text@),
{
    let ghost rest = text@.skip(pos as int);
    if !(char_at(text, pos, 0, '<') && char_at(text, pos, 1, 't') && char_at(text, pos, 2, ':')) {
        return None;
    }
    let len = text.len();
    let from = pos + 3;
    let ghost inner = rest.skip(3);
    assert(inner =~= text@.subrange(from as int, len as int));
    let close = match find_char_in(text, from, len, '>') {
        Some(c) => c,
        None => return None,
    };
    proof {
        lemma_find_char(inner, '>');
    }
    let spec_to = from + close;
    let ghost spec = inner.take(close as int);
    assert(spec =~= text@.subrange(from as int, spec_to as int));
    proof {
        lemma_find_char(spec, ':');
    }
    let (d_to, style) = match find_char_in(text, from, spec_to, ':') {
        Some(k) => {
            let st_from = from + k + 1;
            assert(spec.skip(k + 1) =~= text@.subrange(st_from as int, spec_to as int));
            assert(spec.take(k as int) =~= text@.subrange(from as int, (from + k) as int));
            if spec_to - st_from == 1 && is_valid_style(text[st_from]) {
                (from + k, text[st_from])
            } else {
                return None;
            }
        },
        None => (spec_to, 'f'),
    };
    match parse_signed(text, from, d_to) {
        Some(v) => Some(Found::Leaf(Span::Timestamp { unix: v, style }, 3 + close + 1)),
        None => None,
    }
}

fn paired(text: &Vec<char>, pos: usize, c: char, kind: WrapKind, depth: usize) -> (r: Option<
    Found,
>)
    requires
        pos <= text@.len(),
    ensures
        found_for(r, match_paired(text@.skip(pos as int), c, kind, depth as int), text@),
{
    if depth >= MAX_INLINE_DEPTH || !(char_at(text, pos, 0, c) && char_at(text, pos, 1, c)) {
        return None;
    }
    let len = text.len();
    let from = pos + 2;
    let ghost inner_full = text@.skip(pos as int).skip(2);
    assert(inner_full =~= text@.subrange(from as int, len as int));
    let close = match find_pair_in(text, from, len, c, c) {
        Some(k) => k,
        None => return None,
    };
    proof {
        lemma_find_pair(inner_full, c, c);
    }
    if close == 0 {
        return None;
    }
    assert(inner_full.take(close as int) =~= text@.subrange(from as int, (from + close) as int));
    Some(Found::Wrap(kind, from, from + close, 4 + close))
}

fn rule_italic(text: &Vec<char>, pos: usize, prev: Option<char>, depth: usize) -> (r: Option<
    Found,
>)
    requires
        pos <= text@.len(),
    ensures
        found_for(r, match_italic(text@.skip(pos as int), prev, depth as int), text@),
{
    let marker = if char_at(text, pos, 0, '*') {
        '*'
    } else if char_at(text, pos, 0, '_') {
        '_'
    } else {
        return None;
    };
    let after_word = match prev {
        Some(p) => is_word_char(p),
        None => false,
    };
    if marker == '_' && after_word {
        return None;
    }
    if depth >= MAX_INLINE_DEPTH {
        return None;
    }
    let len = text.len();
    let from = pos + 1;
    let ghost inner_full = text@.skip(pos as int).skip(1);
    assert(inner_full =~= text@.subrange(from as int, len as int));
    let close = match find_char_in(text, from, len, marker) {
        Some(k) => k,
        None => return None,
    };
    proof {
        lemma_find_char(inner_full, marker);
    }
    if close == 0 {
        return None;
    }
    if marker == '_' && close + 1 < len - from && is_word_char(text[from + close + 1]) {
        return None;
    }
    assert(inner_full.take(close as int) =~= text@.subrange(from as int, (from + close) as int));
    Some(Found::Wrap(WrapKind::Italic, from, from + close, 2 + close))
}

fn rule_code(text: &Vec<char>, pos: usize) -> (r: Option<Found>)
    requires
        pos <= text@.len(),
    ensures
        found_for(r, match_code(text@.skip(pos as int)), text@),
{
    if !char_at(text, pos, 0, '`') {
        return None;
    }
    let len = text.len();
    let from = pos + 1;
    let ghost inner_full = text@.skip(pos as int).skip(1);
    assert(inner_full =~= text@.subrange(from as int, len as int));
    let close = match find_char_in(text, from, len, '`') {
        Some(k) => k,
        None => return None,
    };
    proof {
        lemma_find_char(inner_full, '`');
    }
    if close == 0 {
        return None;
    }
    assert(inner_full.take(close as int) =~= text@.subrange(from as int, (from + close) as int));
    Some(Found::Leaf(Span::Code(string_of(text, from, from + close)), close + 2))
}

fn rule_link(text: &Vec<char>, pos: usize, depth: usize) -> (r: Option<Found>)
    requires
        pos <= text@.len(),
    ensures
        found_for(r, match_link(text@.skip(pos as int), depth as int), text@),
{
    if depth >= MAX_INLINE_DEPTH || !char_at(text, pos, 0, '[') {
        return None;
    }
    let len = text.len();
    let from = pos + 1;
    let ghost label_area = text@.skip(pos as int).skip(1);
    assert(label_area =~= text@.subrange(from as int, len as int));
    let close_label = match find_pair_in(text, from, len, ']', '(') {
        Some(k) => k,
        None => return None,
    };
    proof {
        lemma_find_pair(label_area, ']', '(');
    }
    let url_from = from + close_label + 2;
    let ghost url_area = label_area.skip(close_label + 2);
    assert(url_area =~= text@.subrange(url_from as int, len as int));
    let close_url = match find_char_in(text, url_from, len, ')') {
        Some(k) => k,
        None => return None,
    };
    proof {
        lemma_find_char(url_area, ')');
    }
    if close_url == 0 {
        return None;
    }
    assert(url_area.take(close_url as int) =~= text@.subrange(
        url_from as int,
        (url_from + close_url) as int,
    ));
    assert(label_area.take(close_label as int) =~= text@.subrange(
        from as int,
        (from + close_label) as int,
    ));
    let url = string_of(text, url_from, url_from + close_url);
    Some(Found::Link(url, from, from + close_label, 1 + close_label + 2 + close_url + 1))
}

/// `ascii_lower(c) == lower`, for a lowercase ASCII letter `lower`.
pub(crate) fn lower_is(c: char, lower: char) -> (b: bool)
    requires
        'a' <= lower <= 'z',
    ensures
        b == (ascii_lower(c) == lower),
{
    if 'A' <= c && c <= 'Z' {
        (c as u32) + 32 == (lower as u32)
    } else {
        c == lower
    }
}

/// The number of `c` in `text[from..to]`.
fn count_in(text: &Vec<char>, from: usize, to: usize, c: char) -> (r: usize)
    requires
        from <= to <= text@.len(),
    ensures
        r == count_char(text@.subrange(from as int, to as int), c),
{
    let mut r: usize = 0;
    let mut i = from;
    while i < to
        invariant
            from <= i <= to <= text@.len(),
            r == count_char(text@.subrange(from as int, i as int), c),
            r <= i - from,
        decreases to - i,
    {
        assert(text@.subrange(from as int, i + 1).drop_last() =~= text@.subrange(
            from as int,
            i as int,
        ));
        if text[i] == c {
            r += 1;
        }
        i += 1;
    }
    r
}

fn rule_autolink(text: &Vec<char>, pos: usize) -> (r: Option<Found>)
    requires
        pos <= text@.len(),
    ensures
        found_for(r, match_autolink(text@.skip(pos as int)), text@),
{
    let ghost rest = text@.skip(pos as int);
    let len = text.len();
    let rest_len = len - pos;
    let sl: usize = if rest_len >= 8 && lower_is(text[pos], 'h') && lower_is(text[pos + 1], 't')
        && lower_is(text[pos + 2], 't') && lower_is(text[pos + 3], 'p') && lower_is(
        text[pos + 4],
        's',
    ) && text[pos + 5] == ':' && text[pos + 6] == '/' && text[pos + 7] == '/' {
        8
    } else if rest_len >= 7 && lower_is(text[pos], 'h') && lower_is(text[pos + 1], 't')
        && lower_is(text[pos + 2], 't') && lower_is(text[pos + 3], 'p') && text[pos + 4] == ':'
        && text[pos + 5] == '/' && text[pos + 6] == '/' {
        7
    } else {
        return None;
    };
    assert(sl == scheme_len(rest));
    let body_from = pos + sl;
    let ghost body = rest.skip(sl as int);
    assert(body =~= text@.subrange(body_from as int, len as int));
    let end_ws = match find_whitespace_in(text, body_from, len) {
        Some(k) => k,
        None => len - body_from,
    };
    let end_lt = match find_char_in(text, body_from, len, '<') {
        Some(k) => k,
        None => len - body_from,
    };
    proof {
        lemma_find_whitespace(body);
        lemma_find_char(body, '<');
    }
    let end = if end_ws < end_lt {
        end_ws
    } else {
        end_lt
    };
    let ghost url0 = rest.take(sl + end);
    assert(url0 =~= text@.subrange(pos as int, (pos + sl + end) as int));
    let mut n = sl + end;
    let mut done = false;
    while !done && n > 0
        invariant
            n <= sl + end,
            len == text@.len(),
            pos + sl + end <= text@.len(),
            url0 == text@.subrange(pos as int, (pos + sl + end) as int),
            trim_url_len(text@.subrange(pos as int, (pos + n) as int)) == trim_url_len(url0),
            done ==> trim_url_len(url0) == n,
        decreases n + if done {
            0int
        } else {
            1int
        },
    {
        assert(pos + n <= text@.len());
        let ghost u = text@.subrange(pos as int, (pos + n) as int);
        assert(u.drop_last() =~= text@.subrange(pos as int, (pos + n - 1) as int));
        let idx = pos + (n - 1);
        let last = text[idx];
        if last == '.' || last == ',' || last == ';' || last == ':' || last == '!' || last == '?'
            || last == '\'' || last == '"' {
            n -= 1;
        } else if last == ')' && count_in(text, pos, pos + n, ')') > count_in(
            text,
            pos,
            pos + n,
            '(',
        ) {
            n -= 1;
        } else {
            done = true;
        }
    }
    if n <= sl {
        return None;
    }
    assert(url0.take(n as int) =~= text@.subrange(pos as int, (pos + n) as int));
    Some(Found::Leaf(Span::Autolink(string_of(text, pos, pos + n)), n))
}

/// The first inline rule that matches at `pos`, in Discord's order.
fn match_rules_at(text: &Vec<char>, pos: usize, prev: Option<char>, depth: usize) -> (r: Option<
    Found,
>)
    requires
        pos <= text@.len(),
    ensures
        found_for(r, match_rules(text@.skip(pos as int), prev, depth as int), text@),
{
    let r = rule_emoji(text, pos);
    if r.is_some() {
        return r;
    }
    let r = rule_mention(text, pos);
    if r.is_some() {
        return r;
    }
    let r = rule_timestamp(text, pos);
    if r.is_some() {
        return r;
    }
    let r = paired(text, pos, '|', WrapKind::Spoiler, depth);
    if r.is_some() {
        return r;
    }
    let r = paired(text, pos, '*', WrapKind::Bold, depth);
    if r.is_some() {
        return r;
    }
    let r = paired(text, pos, '_', WrapKind::Underline, depth);
    if r.is_some() {
        return r;
    }
    let r = rule_italic(text, pos, prev, depth);
    if r.is_some() {
        return r;
    }
    let r = paired(text, pos, '~', WrapKind::Strike, depth);
    if r.is_some() {
        return r;
    }
    let r = rule_code(text, pos);
    if r.is_some() {
        return r;
    }
    let r = rule_link(text, pos, depth);
    if r.is_some() {
        return r;
    }
    rule_autolink(text, pos)
}


fn build_wrap(kind: WrapKind, inner: Vec<Span>) -> (s: Span)
    ensures
        span_m(s) == wrap_m(kind, spans_m(inner@)),
{
    match kind {
        WrapKind::Spoiler => Span::Spoiler(inner),
        WrapKind::Bold => Span::Bold(inner),
        WrapKind::Underline => Span::Underline(inner),
        WrapKind::Italic => Span::Italic(inner),
        WrapKind::Strike => Span::Strike(inner),
    }
}

/// A backslash before ASCII punctuation at `pos`: the punctuation.
fn try_escape(text: &Vec<char>, pos: usize) -> (r: Option<char>)
    requires
        pos < text@.len(),
    ensures
        r == escape_at(text@.skip(pos as int)),
{
    if text.len() - pos >= 2 && text[pos] == '\\' && is_ascii_punctuation(text[pos + 1]) {
        Some(text[pos + 1])
    } else {
        None
    }
}

fn prev_char_before(text: &Vec<char>, pos: usize) -> (r: Option<char>)
    requires
        pos <= text@.len(),
    ensures
        r == prev_at(text@, pos as int),
{
    if pos > 0 {
        Some(text[pos - 1])
    } else {
        None
    }
}

pub proof fn lemma_spans_m_push(v: Seq<Span>, s: Span)
    ensures
        spans_m(v.push(s)) == spans_m(v).push(span_m(s)),
{
    assert(v.push(s).drop_last() =~= v);
}

/// Moves gathered literal text, if any, into a text span.
fn flush_literal(spans: &mut Vec<Span>, literal: &mut String)
    ensures
        spans_m(final(spans)@) == spans_m(old(spans)@) + flush_m(old(literal)@),
        final(literal)@ == Seq::<char>::empty(),
{
    if literal.as_str().is_empty() {
        assert(spans_m(spans@) + flush_m(literal@) =~= spans_m(spans@));
        return ;
    }
    let mut taken = String::new();
    std::mem::swap(&mut taken, literal);
    proof {
        lemma_spans_m_push(spans@, Span::Text(taken));
    }
    spans.push(Span::Text(taken));
    assert(spans_m(old(spans)@) + flush_m(old(literal)@) =~= spans_m(old(spans)@).push(
        SpanM::Text(old(literal)@),
    ));
}

/// The rule that matches at `pos`, turned into a span, with its length.
fn try_rules(text: &Vec<char>, pos: usize, prev: Option<char>, depth: usize) -> (r: Option<
    (Span, usize),
>)
    requires
        pos < text@.len(),
    ensures
        match r {
            Some((s, n)) => match_rules(text@.skip(pos as int), prev, depth as int) matches Some(h)
                && n == hit_len(h) && span_m(s) == hit_span(h, depth as int),
            None => match_rules(text@.skip(pos as int), prev, depth as int) is None,
        },
    decreases text@.len() - pos, 0int,
{
    proof {
        lemma_hit_bounds(text@.skip(pos as int), prev, depth as int);
    }
    match match_rules_at(text, pos, prev, depth) {
        None => None,
        Some(Found::Leaf(s, n)) => Some((s, n)),
        Some(Found::Wrap(kind, a, b, n)) => {
            let inner = sub_chars(text, a, b);
            let spans = parse_inline_chars(&inner, depth + 1);
            Some((build_wrap(kind, spans), n))
        },
        Some(Found::Link(url, a, b, n)) => {
            let label_text = sub_chars(text, a, b);
            let label = parse_inline_chars(&label_text, depth + 1);
            Some((Span::Link { url, label }, n))
        },
    }
}

/// Parses inline markdown (emphasis, spoilers, code, links, emoji, mentions,
/// timestamps) at nesting depth `depth`.
pub fn parse_inline(text: &str, depth: usize) -> (r: Vec<Span>)
    ensures
        spans_m(r@) == parse_inline_m(text@, depth as int),
{
    let chars = chars_of(text);
    parse_inline_chars(&chars, depth)
}

/// The spans of `text` at nesting depth `depth`.
pub(crate) fn parse_inline_chars(text: &Vec<char>, depth: usize) -> (r: Vec<Span>)
    ensures
        spans_m(r@) == parse_inline_m(text@, depth as int),
    decreases text@.len(), 1int,
{
    let mut spans: Vec<Span> = Vec::new();
    let mut literal = String::new();
    let mut pos: usize = 0;
    assert(spans_m(spans@) + inline_from(text@, 0, literal@, depth as int) =~= parse_inline_m(
        text@,
        depth as int,
    ));
    while pos < text.len()
        invariant
            pos <= text@.len(),
            parse_inline_m(text@, depth as int) == spans_m(spans@) + inline_from(
                text@,
                pos as int,
                literal@,
                depth as int,
            ),
        decreases text@.len() - pos,
    {
        let prev = prev_char_before(text, pos);
        let ghost rest = text@.skip(pos as int);
        let ghost old_spans = spans_m(spans@);
        let ghost old_lit = literal@;
        proof {
            lemma_hit_bounds(rest, prev, depth as int);
        }
        match try_rules(text, pos, prev, depth) {
            Some((span, len)) => {
                let ghost hs = span_m(span);
                flush_literal(&mut spans, &mut literal);
                proof {
                    lemma_spans_m_push(spans@, span);
                }
                spans.push(span);
                pos += len;
                assert(spans_m(spans@) == old_spans + flush_m(old_lit) + seq![hs]);
                assert(old_spans + (flush_m(old_lit) + seq![hs] + inline_from(
                    text@,
                    pos as int,
                    Seq::empty(),
                    depth as int,
                )) =~= old_spans + flush_m(old_lit) + seq![hs] + inline_from(
                    text@,
                    pos as int,
                    Seq::empty(),
                    depth as int,
                ));
            },
            None => match try_escape(text, pos) {
                Some(c) => {
                    push_char(&mut literal, c);
                    pos += 2;
                },
                None => {
                    push_char(&mut literal, text[pos]);
                    pos += 1;
                },
            },
        }
    }
    let ghost before = spans_m(spans@);
    let ghost lit = literal@;
    flush_literal(&mut spans, &mut literal);
    spans
}

} // verus!
