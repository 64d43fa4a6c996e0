use vstd::prelude::*;

use crate::markdown::parse;
use crate::markdown::parse_m;
use crate::markdown::timestamp::parse_rfc3339_unix;
use crate::markdown::timestamp::rfc3339_unix;
use crate::model::Embed;
use crate::model::Field;
use crate::markdown::ir::block_m;
use crate::markdown::ir::blocks_m;
use crate::markdown::ir::items_m;
use crate::markdown::ir::span_m;
use crate::markdown::ir::spans_m;
use crate::markdown::ir::Block;
use crate::markdown::ir::BlockM;
use crate::markdown::ir::MentionKind;
use crate::markdown::ir::MentionM;
use crate::markdown::ir::Span;
use crate::markdown::ir::SpanM;
use crate::markdown::timestamp::fmt_with;
use crate::markdown::timestamp::timestamp_text;
use crate::markdown::timestamp::utc_instant_exists;
use crate::markdown::timestamp::utc_timestamp_valid;
use crate::text::chars_of;
use crate::text::decimal;
use crate::text::digit_char;
use crate::text::lemma_append_assoc;
use crate::text::push_char;
use crate::text::push_decimal;

verus! {

/// What rendering needs besides the message: the clock that relative timestamps
/// are measured against.
pub struct RenderCtx {
    pub now_unix: i64,
}

/// A character escaped for HTML text and attribute values.
pub open spec fn esc_char(c: char) -> Seq<char> {
    if c == '&' {
        "&amp;"@
    } else if c == '<' {
        "&lt;"@
    } else if c == '>' {
        "&gt;"@
    } else if c == '"' {
        "&quot;"@
    } else if c == '\'' {
        "&#39;"@
    } else {
        seq![c]
    }
}

/// Text escaped for HTML: `& < > " '` become entities.
pub open spec fn esc_m(s: Seq<char>) -> Seq<char>
    decreases s.len(),
{
    if s.len() == 0 {
        Seq::empty()
    } else {
        esc_m(s.drop_last()) + esc_char(s.last())
    }
}

/// Escapes `& < > " '` for HTML.
pub fn esc(text: &str) -> (r: String)
    ensures
        r@ == esc_m(text@),
{
    let chars = chars_of(text);
    let mut out = String::new();
    let mut i: usize = 0;
    while i < chars.len()
        invariant
            i <= chars@.len(),
            chars@ == text@,
            out@ == esc_m(chars@.take(i as int)),
        decreases chars@.len() - i,
    {
        let c = chars[i];
        let ghost done = chars@.take(i as int);
        if c == '&' {
            out.append("&amp;");
        } else if c == '<' {
            out.append("&lt;");
        } else if c == '>' {
            out.append("&gt;");
        } else if c == '"' {
            out.append("&quot;");
        } else if c == '\'' {
            out.append("&#39;");
        } else {
            push_char(&mut out, c);
        }
        assert(chars@.take(i + 1).drop_last() =~= done);
        i += 1;
    }
    assert(chars@.take(i as int) =~= text@);
    out
}

/// Appends `esc(text)`.
pub fn push_esc(out: &mut String, text: &str)
    ensures
        final(out)@ == old(out)@ + esc_m(text@),
{
    let escaped = esc(text);
    out.append(escaped.as_str());
}

/// An element wrapped in `<tag>` and `</tag>`.
pub open spec fn tag_html(tag: Seq<char>, inner: Seq<char>) -> Seq<char> {
    seq!['<'] + tag + seq!['>'] + inner + "</"@ + tag + seq!['>']
}

/// Inner spans in a `<span class="...">`.
pub open spec fn class_html(class: Seq<char>, inner: Seq<char>) -> Seq<char> {
    "<span class=\""@ + class + "\">"@ + inner + "</span>"@
}

/// The opening tag of a link that opens in a new tab.
pub open spec fn anchor_open(url: Seq<char>) -> Seq<char> {
    "<a href=\""@ + esc_m(url) + "\" target=\"_blank\" rel=\"noopener noreferrer\">"@
}

/// A custom emoji image from Discord's CDN.
pub open spec fn emoji_img(name: Seq<char>, id: Seq<char>, animated: bool) -> Seq<char> {
    "<img class=\"emoji\" alt=\":"@ + esc_m(name) + ":\" src=\"https://cdn.discordapp.com/emojis/"@
        + esc_m(id) + "."@ + (if animated {
        "gif"@
    } else {
        "png"@
    }) + "\">"@
}

pub open spec fn mention_label(m: MentionM) -> Seq<char> {
    match m {
        MentionM::User(id) => "@"@ + esc_m(id),
        MentionM::Role(id) => "@"@ + esc_m(id),
        MentionM::Channel(id) => "#"@ + esc_m(id),
        MentionM::Everyone => "@everyone"@,
        MentionM::Here => "@here"@,
    }
}

/// The HTML of a span with the clock at `now`.
pub open spec fn span_html(s: SpanM, now: i64) -> Seq<char>
    decreases s,
{
    match s {
        SpanM::Text(t) => esc_m(t),
        SpanM::Bold(v) => tag_html("strong"@, spans_html(v, now)),
        SpanM::Italic(v) => tag_html("em"@, spans_html(v, now)),
        SpanM::Underline(v) => tag_html("u"@, spans_html(v, now)),
        SpanM::Strike(v) => tag_html("s"@, spans_html(v, now)),
        SpanM::Spoiler(v) => class_html("spoiler"@, spans_html(v, now)),
        SpanM::Code(body) => "<code>"@ + esc_m(body) + "</code>"@,
        SpanM::Link { url, label } => anchor_open(url) + spans_html(label, now) + "</a>"@,
        SpanM::Autolink(url) => anchor_open(url) + esc_m(url) + "</a>"@,
        SpanM::Emoji { id, name, animated } => emoji_img(name, id, animated),
        SpanM::Mention(m) => "<span class=\"mention\">"@ + mention_label(m) + "</span>"@,
        SpanM::Timestamp { unix, style } => "<span class=\"timestamp\">"@ + esc_m(
            timestamp_text(unix, style, now),
        ) + "</span>"@,
    }
}

pub open spec fn spans_html(v: Seq<SpanM>, now: i64) -> Seq<char>
    decreases v,
{
    if v.len() == 0 {
        Seq::empty()
    } else {
        spans_html(v.drop_last(), now) + span_html(v.last(), now)
    }
}

pub open spec fn items_html(v: Seq<Seq<SpanM>>, now: i64) -> Seq<char>
    decreases v.len(),
{
    if v.len() == 0 {
        Seq::empty()
    } else {
        items_html(v.drop_last(), now) + "<li>"@ + spans_html(v.last(), now) + "</li>"@
    }
}

/// A heading level kept within 1..=3.
pub open spec fn clamp_level(level: u8) -> nat {
    if level < 1 {
        1
    } else if level > 3 {
        3
    } else {
        level as nat
    }
}

/// The HTML of a block with the clock at `now`.
pub open spec fn block_html(b: BlockM, now: i64) -> Seq<char>
    decreases b,
{
    match b {
        BlockM::Para(v) => "<p>"@ + spans_html(v, now) + "</p>"@,
        BlockM::Quote { wide, blocks } => (if wide {
            "<blockquote class=\"eg-quote-wide\">"@
        } else {
            "<blockquote class=\"eg-quote\">"@
        }) + blocks_html(blocks, now) + "</blockquote>"@,
        BlockM::Code { lang, body } => "<pre><code"@ + (if lang.len() != 0 {
            " class=\"language-"@ + esc_m(lang) + "\""@
        } else {
            Seq::empty()
        }) + ">"@ + esc_m(body) + "</code></pre>"@,
        BlockM::Heading(level, v) => "<h"@ + decimal(clamp_level(level)) + ">"@ + spans_html(v, now)
            + "</h"@ + decimal(clamp_level(level)) + ">"@,
        BlockM::Subtext(v) => "<div class=\"eg-subtext\">"@ + spans_html(v, now) + "</div>"@,
        BlockM::List { ordered, items } => (if ordered {
            "<ol>"@
        } else {
            "<ul>"@
        }) + items_html(items, now) + (if ordered {
            "</ol>"@
        } else {
            "</ul>"@
        }),
    }
}

pub open spec fn blocks_html(v: Seq<BlockM>, now: i64) -> Seq<char>
    decreases v,
{
    if v.len() == 0 {
        Seq::empty()
    } else {
        blocks_html(v.drop_last(), now) + block_html(v.last(), now)
    }
}

pub proof fn lemma_spans_html_step(v: Seq<Span>, k: int, now: i64)
    requires
        0 <= k < v.len(),
    ensures
        spans_html(spans_m(v.take(k + 1)), now) == spans_html(spans_m(v.take(k)), now) + span_html(
            span_m(v[k]),
            now,
        ),
{
    assert(v.take(k + 1) =~= v.take(k).push(v[k]));
    assert(v.take(k).push(v[k]).drop_last() =~= v.take(k));
    let m = spans_m(v.take(k));
    assert(m.push(span_m(v[k])).drop_last() =~= m);
}

pub proof fn lemma_blocks_html_step(v: Seq<Block>, k: int, now: i64)
    requires
        0 <= k < v.len(),
    ensures
        blocks_html(blocks_m(v.take(k + 1)), now) == blocks_html(blocks_m(v.take(k)), now)
            + block_html(block_m(v[k]), now),
{
    assert(v.take(k + 1) =~= v.take(k).push(v[k]));
    assert(v.take(k).push(v[k]).drop_last() =~= v.take(k));
    let m = blocks_m(v.take(k));
    assert(m.push(block_m(v[k])).drop_last() =~= m);
}

pub proof fn lemma_items_html_step(v: Seq<Vec<Span>>, k: int, now: i64)
    requires
        0 <= k < v.len(),
    ensures
        items_html(items_m(v.take(k + 1)), now) == items_html(items_m(v.take(k)), now) + "<li>"@
            + spans_html(spans_m(v[k]@), now) + "</li>"@,
{
    assert(v.take(k + 1) =~= v.take(k).push(v[k]));
    assert(v.take(k).push(v[k]).drop_last() =~= v.take(k));
    let m = items_m(v.take(k));
    assert(m.push(spans_m(v[k]@)).drop_last() =~= m);
}

/// Renders blocks.
pub fn write_blocks(blocks: &Vec<Block>, out: &mut String, ctx: &RenderCtx)
    ensures
        final(out)@ == old(out)@ + blocks_html(blocks_m(blocks@), ctx.now_unix),
    decreases blocks@, 0int,
{
    let ghost start = out@;
    let mut k: usize = 0;
    while k < blocks.len()
        invariant
            k <= blocks@.len(),
            out@ == start + blocks_html(blocks_m(blocks@.take(k as int)), ctx.now_unix),
        decreases blocks@.len() - k,
    {
        write_block(&blocks[k], out, ctx);
        proof {
            lemma_blocks_html_step(blocks@, k as int, ctx.now_unix);
        }
        k += 1;
    }
    assert(blocks@.take(k as int) =~= blocks@);
}

fn write_block(block: &Block, out: &mut String, ctx: &RenderCtx)
    ensures
        final(out)@ == old(out)@ + block_html(block_m(*block), ctx.now_unix),
    decreases *block, 1int,
{
    match block {
        Block::Para(spans) => {
            out.append("<p>");
            write_spans(spans, out, ctx);
            out.append("</p>");
        },
        Block::Quote { wide, blocks } => {
            if *wide {
                out.append("<blockquote class=\"eg-quote-wide\">");
            } else {
                out.append("<blockquote class=\"eg-quote\">");
            }
            write_blocks(blocks, out, ctx);
            out.append("</blockquote>");
        },
        Block::Code { lang, body } => {
            out.append("<pre><code");
            if !lang.as_str().is_empty() {
                out.append(" class=\"language-");
                push_esc(out, lang.as_str());
                out.append("\"");
            }
            out.append(">");
            push_esc(out, body.as_str());
            out.append("</code></pre>");
        },
        Block::Heading(level, spans) => {
            let lv: u8 = if *level < 1 {
                1
            } else if *level > 3 {
                3
            } else {
                *level
            };
            out.append("<h");
            push_decimal(out, lv as u64);
            out.append(">");
            write_spans(spans, out, ctx);
            out.append("</h");
            push_decimal(out, lv as u64);
            out.append(">");
        },
        Block::Subtext(spans) => {
            out.append("<div class=\"eg-subtext\">");
            write_spans(spans, out, ctx);
            out.append("</div>");
        },
        Block::List { ordered, items } => {
            out.append(if *ordered { "<ol>" } else { "<ul>" });
            let ghost start = out@;
            let mut k: usize = 0;
            while k < items.len()
                invariant
                    k <= items@.len(),
                    out@ == start + items_html(items_m(items@.take(k as int)), ctx.now_unix),
                decreases items@.len() - k,
            {
                out.append("<li>");
                write_spans(&items[k], out, ctx);
                out.append("</li>");
                proof {
                    lemma_items_html_step(items@, k as int, ctx.now_unix);
                }
                k += 1;
            }
            assert(items@.take(k as int) =~= items@);
            out.append(if *ordered { "</ol>" } else { "</ul>" });
        },
    }
}

/// Renders spans.
pub fn write_spans(spans: &Vec<Span>, out: &mut String, ctx: &RenderCtx)
    ensures
        final(out)@ == old(out)@ + spans_html(spans_m(spans@), ctx.now_unix),
    decreases spans@, 0int,
{
    let ghost start = out@;
    let mut k: usize = 0;
    while k < spans.len()
        invariant
            k <= spans@.len(),
            out@ == start + spans_html(spans_m(spans@.take(k as int)), ctx.now_unix),
        decreases spans@.len() - k,
    {
        write_span(&spans[k], out, ctx);
        proof {
            lemma_spans_html_step(spans@, k as int, ctx.now_unix);
        }
        k += 1;
    }
    assert(spans@.take(k as int) =~= spans@);
}

fn write_span(span: &Span, out: &mut String, ctx: &RenderCtx)
    ensures
        final(out)@ == old(out)@ + span_html(span_m(*span), ctx.now_unix),
    decreases *span, 1int,
{
    match span {
        Span::Text(text) => push_esc(out, text.as_str()),
        Span::Bold(inner) => wrap(out, "strong", inner, ctx),
        Span::Italic(inner) => wrap(out, "em", inner, ctx),
        Span::Underline(inner) => wrap(out, "u", inner, ctx),
        Span::Strike(inner) => wrap(out, "s", inner, ctx),
        Span::Spoiler(inner) => wrap_class(out, "spoiler", inner, ctx),
        Span::Code(body) => {
            out.append("<code>");
            push_esc(out, body.as_str());
            out.append("</code>");
        },
        Span::Link { url, label } => {
            out.append("<a href=\"");
            push_esc(out, url.as_str());
            out.append("\" target=\"_blank\" rel=\"noopener noreferrer\">");
            write_spans(label, out, ctx);
            out.append("</a>");
        },
        Span::Autolink(url) => {
            let escaped = esc(url.as_str());
            out.append("<a href=\"");
            out.append(escaped.as_str());
            out.append("\" target=\"_blank\" rel=\"noopener noreferrer\">");
            out.append(escaped.as_str());
            out.append("</a>");
        },
        Span::Emoji { id, name, animated } => {
            push_emoji_img(out, name.as_str(), id.as_str(), *animated);
        },
        Span::Mention(kind) => {
            out.append("<span class=\"mention\">");
            match kind {
                MentionKind::User(id) => {
                    out.append("@");
                    push_esc(out, id.as_str());
                },
                MentionKind::Role(id) => {
                    out.append("@");
                    push_esc(out, id.as_str());
                },
                MentionKind::Channel(id) => {
                    out.append("#");
                    push_esc(out, id.as_str());
                },
                MentionKind::Everyone => out.append("@everyone"),
                MentionKind::Here => out.append("@here"),
            }
            out.append("</span>");
        },
        Span::Timestamp { unix, style } => {
            let formatted = if utc_timestamp_valid(*unix) {
                fmt_with(*unix, *style, ctx.now_unix)
            } else {
                String::new()
            };
            out.append("<span class=\"timestamp\">");
            push_esc(out, formatted.as_str());
            out.append("</span>");
        },
    }
}

/// Appends a custom emoji image.
pub fn push_emoji_img(out: &mut String, name: &str, id: &str, animated: bool)
    ensures
        final(out)@ == old(out)@ + emoji_img(name@, id@, animated),
{
    out.append("<img class=\"emoji\" alt=\":");
    push_esc(out, name);
    out.append(":\" src=\"https://cdn.discordapp.com/emojis/");
    push_esc(out, id);
    out.append(".");
    out.append(if animated { "gif" } else { "png" });
    out.append("\">");
}

fn wrap(out: &mut String, tag: &str, inner: &Vec<Span>, ctx: &RenderCtx)
    ensures
        final(out)@ == old(out)@ + tag_html(tag@, spans_html(spans_m(inner@), ctx.now_unix)),
    decreases inner@, 2int,
{
    push_char(out, '<');
    out.append(tag);
    push_char(out, '>');
    write_spans(inner, out, ctx);
    out.append("</");
    out.append(tag);
    push_char(out, '>');
}

fn wrap_class(out: &mut String, class: &str, inner: &Vec<Span>, ctx: &RenderCtx)
    ensures
        final(out)@ == old(out)@ + class_html(class@, spans_html(spans_m(inner@), ctx.now_unix)),
    decreases inner@, 2int,
{
    out.append("<span class=\"");
    out.append(class);
    out.append("\">");
    write_spans(inner, out, ctx);
    out.append("</span>");
}


/// A hexadecimal digit, lowercase.
pub open spec fn hex_digit(d: nat) -> char {
    if d < 10 {
        (48 + d) as char
    } else {
        (87 + d) as char
    }
}

/// Six lowercase hexadecimal digits, zero-padded (`{:06x}` of `n < 2^24`).
pub open spec fn hex6(n: nat) -> Seq<char> {
    seq![
        hex_digit((n / 1048576) % 16),
        hex_digit((n / 65536) % 16),
        hex_digit((n / 4096) % 16),
        hex_digit((n / 256) % 16),
        hex_digit((n / 16) % 16),
        hex_digit(n % 16),
    ]
}

/// A color kept within `0..=0xFFFFFF`.
pub open spec fn clamp_color(c: i64) -> nat {
    if c < 0 {
        0
    } else if c > 0xFF_FFFF {
        0xFF_FFFF
    } else {
        c as nat
    }
}

fn hex_char(d: u32) -> (c: char)
    requires
        d < 16,
    ensures
        c == hex_digit(d as nat),
{
    if d < 10 {
        (48u8 + d as u8) as char
    } else {
        (87u8 + d as u8) as char
    }
}

/// Appends `{:06x}` of a color clamped to `0..=0xFFFFFF`.
pub fn push_color_hex(out: &mut String, color: i64)
    ensures
        final(out)@ == old(out)@ + hex6(clamp_color(color)),
{
    let n: u32 = if color < 0 {
        0
    } else if color > 0xFF_FFFF {
        0xFF_FFFF
    } else {
        color as u32
    };
    push_char(out, hex_char((n / 1048576) % 16));
    push_char(out, hex_char((n / 65536) % 16));
    push_char(out, hex_char((n / 4096) % 16));
    push_char(out, hex_char((n / 256) % 16));
    push_char(out, hex_char((n / 16) % 16));
    push_char(out, hex_char(n % 16));
}

/// The text an embed footer shows for its timestamp: chrono's reading of it as
/// RFC 3339, formatted like `<t:...:f>`, or the raw text if it is not RFC 3339.
pub open spec fn embed_ts_text(ts: Seq<char>, now: i64) -> Seq<char> {
    match rfc3339_unix(ts) {
        Some(unix) => timestamp_text(unix, 'f', now),
        None => ts,
    }
}

fn fmt_embed_timestamp(ts: &str, ctx: &RenderCtx) -> (r: String)
    ensures
        r@ == embed_ts_text(ts@, ctx.now_unix),
{
    match parse_rfc3339_unix(ts) {
        Some(unix) => fmt_with(unix, 'f', ctx.now_unix),
        None => String::from_str(ts),
    }
}

/// `s` when `b`, nothing otherwise.
pub open spec fn opt(b: bool, s: Seq<char>) -> Seq<char> {
    if b {
        s
    } else {
        Seq::empty()
    }
}

/// An `<img>` with the given class, the given source and an empty alt text.
pub open spec fn img_html(class: Seq<char>, src: Seq<char>) -> Seq<char> {
    "<img class=\""@ + class + "\" src=\""@ + esc_m(src) + "\" alt=\"\">"@
}

/// Appends an `<img>` with the given class and source and an empty alt text.
pub fn push_img(out: &mut String, class: &str, src: &str)
    ensures
        final(out)@ == old(out)@ + img_html(class@, src@),
{
    out.append("<img class=\"");
    out.append(class);
    out.append("\" src=\"");
    push_esc(out, src);
    out.append("\" alt=\"\">");
}

pub open spec fn field_html(f: Field) -> Seq<char> {
    "<div class=\"eg-field\"><div class=\"eg-field-name\">"@ + esc_m(f.name@)
        + "</div><div class=\"eg-field-value\">"@ + esc_m(f.value@) + "</div></div>"@
}

pub open spec fn field_list_html(fs: Seq<Field>) -> Seq<char>
    decreases fs.len(),
{
    if fs.len() == 0 {
        Seq::empty()
    } else {
        field_list_html(fs.drop_last()) + field_html(fs.last())
    }
}

/// The end of the run of inline fields that started at `i`, scanned up to `j`:
/// at most three fields share a row.
pub open spec fn inline_run_end(fs: Seq<Field>, i: int, j: int) -> int
    decreases fs.len() - j,
{
    if 0 <= j < fs.len() && j - i < 3 && fs[j].inline {
        inline_run_end(fs, i, j + 1)
    } else {
        j
    }
}

/// The end of the row of fields that starts at `i`.
pub open spec fn run_end(fs: Seq<Field>, i: int) -> int {
    if fs[i].inline {
        inline_run_end(fs, i, i + 1)
    } else {
        i + 1
    }
}

pub proof fn lemma_inline_run_end(fs: Seq<Field>, i: int, j: int)
    requires
        0 <= i < j <= fs.len(),
    ensures
        j <= inline_run_end(fs, i, j) <= fs.len(),
        inline_run_end(fs, i, j) - i <= 3 || inline_run_end(fs, i, j) == j,
    decreases fs.len() - j,
{
    if j < fs.len() && j - i < 3 && fs[j].inline {
        lemma_inline_run_end(fs, i, j + 1);
    }
}

pub open spec fn group_html(fs: Seq<Field>, i: int, e: int) -> Seq<char> {
    "<div class=\"eg-field-group\" style=\"grid-template-columns:repeat("@ + decimal((e - i) as nat)
        + ",1fr)\">"@ + field_list_html(fs.subrange(i, e)) + "</div>"@
}

/// The rows of fields from `i` on.
pub open spec fn groups_html(fs: Seq<Field>, i: int) -> Seq<char>
    decreases fs.len() - i,
{
    if i < 0 || i >= fs.len() {
        Seq::empty()
    } else {
        let e = run_end(fs, i);
        proof {
            if fs[i].inline {
                lemma_inline_run_end(fs, i, i + 1);
            }
        }
        group_html(fs, i, e) + groups_html(fs, e)
    }
}

/// The field grid of an embed.
pub open spec fn fields_html(fs: Seq<Field>) -> Seq<char> {
    "<div class=\"eg-fields\">"@ + groups_html(fs, 0) + "</div>"@
}

/// Renders the field grid: each run of up to three inline fields shares a row.
pub fn render_fields(fields: &Vec<Field>, out: &mut String)
    ensures
        final(out)@ == old(out)@ + fields_html(fields@),
{
    let ghost fs = fields@;
    let ghost start = old(out)@;
    out.append("<div class=\"eg-fields\">");
    let len = fields.len();
    let mut i: usize = 0;
    while i < len
        invariant
            len == fs.len(),
            fs == fields@,
            i <= len,
            out@ + groups_html(fs, i as int) == start + "<div class=\"eg-fields\">"@ + groups_html(fs, 0),
        decreases len - i,
    {
        let row_end = if fields[i].inline {
            let mut j = i + 1;
            while j < len && j - i < 3 && fields[j].inline
                invariant
                    len == fs.len(),
                    fs == fields@,
                    i < j <= len,
                    inline_run_end(fs, i as int, j as int) == inline_run_end(fs, i as int, i + 1),
                decreases len - j,
            {
                j += 1;
            }
            j
        } else {
            i + 1
        };
        proof {
            if fs[i as int].inline {
                lemma_inline_run_end(fs, i as int, i + 1);
            }
        }
        assert(row_end == run_end(fs, i as int));
        let ghost before = out@;
        out.append("<div class=\"eg-field-group\" style=\"grid-template-columns:repeat(");
        push_decimal(out, (row_end - i) as u64);
        out.append(",1fr)\">");
        let ghost mid = out@;
        let mut k = i;
        while k < row_end
            invariant
                fs == fields@,
                i <= k <= row_end <= fs.len(),
                out@ == mid + field_list_html(fs.subrange(i as int, k as int)),
            decreases row_end - k,
        {
            push_field(&fields[k], out);
            assert(fs.subrange(i as int, k + 1).drop_last() =~= fs.subrange(i as int, k as int));
            k += 1;
        }
        out.append("</div>");
        assert(out@ =~= before + group_html(fs, i as int, row_end as int));
        assert(out@ + groups_html(fs, row_end as int) =~= before + groups_html(fs, i as int));
        i = row_end;
    }
    out.append("</div>");
    assert(out@ =~= start + fields_html(fs));
}

fn push_field(field: &Field, out: &mut String)
    ensures
        final(out)@ == old(out)@ + field_html(*field),
{
    out.append("<div class=\"eg-field\"><div class=\"eg-field-name\">");
    push_esc(out, field.name.as_str());
    out.append("</div><div class=\"eg-field-value\">");
    push_esc(out, field.value.as_str());
    out.append("</div></div>");
}

pub open spec fn author_html(e: Embed) -> Seq<char> {
    match e.author {
        Some(a) => "<div class=\"eg-author-row\">"@ + (match a.icon_url {
            Some(icon) => img_html("eg-author-icon"@, icon@),
            None => Seq::empty(),
        }) + "<span class=\"eg-author-name\">"@ + esc_m(a.name@) + "</span>"@ + "</div>"@,
        None => Seq::empty(),
    }
}

pub open spec fn title_html(e: Embed, now: i64) -> Seq<char> {
    match e.title {
        Some(t) => "<div class=\"eg-title\">"@ + (match e.url {
            Some(u) => anchor_open(u@) + blocks_html(parse_m(t@), now) + "</a>"@,
            None => blocks_html(parse_m(t@), now),
        }) + "</div>"@,
        None => Seq::empty(),
    }
}

pub open spec fn footer_html(e: Embed, now: i64) -> Seq<char> {
    if e.timestamp is Some || e.footer is Some {
        "<div class=\"eg-footer\">"@ + (match e.footer {
            Some(f) => (match f.icon_url {
                Some(icon) => img_html("eg-footer-icon"@, icon@),
                None => Seq::empty(),
            }) + "<span>"@ + esc_m(f.text@) + "</span>"@,
            None => Seq::empty(),
        }) + (match e.timestamp {
            Some(ts) => "<span>&bull; "@ + esc_m(embed_ts_text(ts@, now)) + "</span>"@,
            None => Seq::empty(),
        }) + "</div>"@
    } else {
        Seq::empty()
    }
}

pub open spec fn bar_html(e: Embed) -> Seq<char> {
    match e.color {
        Some(c) => "<div class=\"eg-embed-bar\" style=\"background:#"@ + hex6(clamp_color(c))
            + "\"></div>"@,
        None => Seq::empty(),
    }
}

pub open spec fn thumbnail_html(e: Embed) -> Seq<char> {
    match e.thumbnail {
        Some(t) => img_html("eg-thumbnail"@, t.url@),
        None => Seq::empty(),
    }
}

pub open spec fn description_html(e: Embed, now: i64) -> Seq<char> {
    match e.description {
        Some(d) => "<div class=\"eg-description\">"@ + blocks_html(parse_m(d@), now) + "</div>"@,
        None => Seq::empty(),
    }
}

pub open spec fn image_html(e: Embed) -> Seq<char> {
    match e.image {
        Some(i) => img_html("eg-image"@, i.url@),
        None => Seq::empty(),
    }
}

/// The HTML of an embed with the clock at `now`.
pub open spec fn embed_html(e: Embed, now: i64) -> Seq<char> {
    "<div class=\"eg-embed\">"@ + bar_html(e) + "<div class=\"eg-embed-inner\">"@ + thumbnail_html(e)
        + author_html(e) + title_html(e, now) + description_html(e, now) + opt(
        e.fields@.len() != 0,
        fields_html(e.fields@),
    ) + image_html(e) + footer_html(e, now) + "</div></div>"@
}

fn write_bar(embed: &Embed, out: &mut String)
    ensures
        final(out)@ == old(out)@ + bar_html(*embed),
{
    if let Some(color) = embed.color {
        let ghost start = out@;
        out.append("<div class=\"eg-embed-bar\" style=\"background:#");
        push_color_hex(out, color);
        out.append("\"></div>");
        assert(out@ =~= start + bar_html(*embed));
    }
}

fn write_description(embed: &Embed, out: &mut String, ctx: &RenderCtx)
    ensures
        final(out)@ == old(out)@ + description_html(*embed, ctx.now_unix),
{
    if let Some(description) = &embed.description {
        let ghost start = out@;
        out.append("<div class=\"eg-description\">");
        let blocks = parse(description.as_str());
        write_blocks(&blocks, out, ctx);
        out.append("</div>");
        assert(out@ =~= start + description_html(*embed, ctx.now_unix));
    }
}

fn write_author(embed: &Embed, out: &mut String)
    ensures
        final(out)@ == old(out)@ + author_html(*embed),
{
    if let Some(author) = &embed.author {
        let ghost start = out@;
        out.append("<div class=\"eg-author-row\">");
        if let Some(icon_url) = &author.icon_url {
            push_img(out, "eg-author-icon", icon_url.as_str());
        }
        out.append("<span class=\"eg-author-name\">");
        push_esc(out, author.name.as_str());
        out.append("</span>");
        out.append("</div>");
        assert(out@ =~= start + author_html(*embed));
    }
}

fn write_title(embed: &Embed, out: &mut String, ctx: &RenderCtx)
    ensures
        final(out)@ == old(out)@ + title_html(*embed, ctx.now_unix),
{
    if let Some(title) = &embed.title {
        let ghost start = out@;
        out.append("<div class=\"eg-title\">");
        let blocks = parse(title.as_str());
        match &embed.url {
            Some(link_url) => {
                out.append("<a href=\"");
                push_esc(out, link_url.as_str());
                out.append("\" target=\"_blank\" rel=\"noopener noreferrer\">");
                write_blocks(&blocks, out, ctx);
                out.append("</a>");
            },
            None => write_blocks(&blocks, out, ctx),
        }
        out.append("</div>");
        assert(out@ =~= start + title_html(*embed, ctx.now_unix));
    }
}

fn write_footer(embed: &Embed, out: &mut String, ctx: &RenderCtx)
    ensures
        final(out)@ == old(out)@ + footer_html(*embed, ctx.now_unix),
{
    if embed.timestamp.is_some() || embed.footer.is_some() {
        let ghost start = out@;
        out.append("<div class=\"eg-footer\">");
        let ghost a = out@;
        if let Some(footer) = &embed.footer {
            if let Some(icon_url) = &footer.icon_url {
                push_img(out, "eg-footer-icon", icon_url.as_str());
            }
            out.append("<span>");
            push_esc(out, footer.text.as_str());
            out.append("</span>");
        }
        let ghost b = out@;
        if let Some(ts) = &embed.timestamp {
            let formatted = fmt_embed_timestamp(ts.as_str(), ctx);
            out.append("<span>&bull; ");
            push_esc(out, formatted.as_str());
            out.append("</span>");
        }
        out.append("</div>");
        assert(out@ =~= start + footer_html(*embed, ctx.now_unix));
    }
}

/// Renders an embed: color bar, thumbnail, author, title, description, fields,
/// image and footer.
pub fn write_embed(embed: &Embed, out: &mut String, ctx: &RenderCtx)
    ensures
        final(out)@ == old(out)@ + embed_html(*embed, ctx.now_unix),
{
    let ghost start = out@;
    let ghost e = *embed;
    let ghost now = ctx.now_unix;
    out.append("<div class=\"eg-embed\">");
    let ghost acc = "<div class=\"eg-embed\">"@;
    write_bar(embed, out);
    proof { lemma_append_assoc(start, acc, bar_html(e)); acc = acc + bar_html(e); }
    out.append("<div class=\"eg-embed-inner\">");
    proof { lemma_append_assoc(start, acc, "<div class=\"eg-embed-inner\">"@); acc = acc + "<div class=\"eg-embed-inner\">"@; }
    if let Some(thumbnail) = &embed.thumbnail {
        push_img(out, "eg-thumbnail", thumbnail.url.as_str());
    }
    assert(out@ == start + acc + thumbnail_html(e));
    proof { lemma_append_assoc(start, acc, thumbnail_html(e)); acc = acc + thumbnail_html(e); }
    write_author(embed, out);
    proof { lemma_append_assoc(start, acc, author_html(e)); acc = acc + author_html(e); }
    write_title(embed, out, ctx);
    proof { lemma_append_assoc(start, acc, title_html(e, now)); acc = acc + title_html(e, now); }
    write_description(embed, out, ctx);
    proof { lemma_append_assoc(start, acc, description_html(e, now)); acc = acc + description_html(e, now); }
    if embed.fields.len() != 0 {
        render_fields(&embed.fields, out);
    }
    assert(out@ == start + acc + opt(e.fields@.len() != 0, fields_html(e.fields@)));
    proof {
        lemma_append_assoc(start, acc, opt(e.fields@.len() != 0, fields_html(e.fields@)));
        acc = acc + opt(e.fields@.len() != 0, fields_html(e.fields@));
    }
    if let Some(image) = &embed.image {
        push_img(out, "eg-image", image.url.as_str());
    }
    assert(out@ == start + acc + image_html(e));
    proof { lemma_append_assoc(start, acc, image_html(e)); acc = acc + image_html(e); }
    write_footer(embed, out, ctx);
    proof { lemma_append_assoc(start, acc, footer_html(e, now)); acc = acc + footer_html(e, now); }
    out.append("</div></div>");
    proof { lemma_append_assoc(start, acc, "</div></div>"@); acc = acc + "</div></div>"@; }
    assert(acc == embed_html(e, now));
}


/// One of the five characters HTML escaping replaces.
pub open spec fn html_special(c: char) -> bool {
    c == '&' || c == '<' || c == '>' || c == '"' || c == '\''
}

proof fn lemma_esc_concat(a: Seq<char>, b: Seq<char>)
    ensures
        esc_m(a + b) == esc_m(a) + esc_m(b),
    decreases b.len(),
{
    if b.len() == 0 {
        assert(a + b =~= a);
        assert(esc_m(a) + esc_m(b) =~= esc_m(a));
    } else {
        assert((a + b).drop_last() =~= a + b.drop_last());
        lemma_esc_concat(a, b.drop_last());
        assert(esc_m(a) + esc_m(b) =~= esc_m(a) + esc_m(b.drop_last()) + esc_char(b.last()));
    }
}

/// Escaped text never holds `<`, `>`, `"` or `'` raw, and each `&` in it opens one
/// of the five entities.
pub proof fn law_escaping_is_strict(s: Seq<char>)
    ensures
        forall|i: int|
            0 <= i < esc_m(s).len() ==> {
                let c = #[trigger] esc_m(s)[i];
                c != '<' && c != '>' && c != '"' && c != '\''
            },
        forall|i: int|
            0 <= i < esc_m(s).len() && #[trigger] esc_m(s)[i] == '&' ==> {
                let rest = esc_m(s).skip(i);
                "&amp;"@.is_prefix_of(rest) || "&lt;"@.is_prefix_of(rest) || "&gt;"@.is_prefix_of(rest)
                    || "&quot;"@.is_prefix_of(rest) || "&#39;"@.is_prefix_of(rest)
            },
    decreases s.len(),
{
    reveal_strlit("&amp;");
    reveal_strlit("&lt;");
    reveal_strlit("&gt;");
    reveal_strlit("&quot;");
    reveal_strlit("&#39;");
    if s.len() > 0 {
        law_escaping_is_strict(s.drop_last());
        let a = esc_m(s.drop_last());
        let e = esc_char(s.last());
        let r = esc_m(s);
        assert(r == a + e);
        assert forall|i: int| 0 <= i < r.len() implies {
            let c = #[trigger] r[i];
            c != '<' && c != '>' && c != '"' && c != '\''
        } by {
            if i < a.len() {
                assert(r[i] == a[i]);
            } else {
                assert(r[i] == e[i - a.len()]);
            }
        }
        assert forall|i: int| 0 <= i < r.len() && #[trigger] r[i] == '&' implies {
            let rest = r.skip(i);
            "&amp;"@.is_prefix_of(rest) || "&lt;"@.is_prefix_of(rest) || "&gt;"@.is_prefix_of(rest)
                || "&quot;"@.is_prefix_of(rest) || "&#39;"@.is_prefix_of(rest)
        } by {
            if i < a.len() {
                assert(r[i] == a[i]);
                let ra = a.skip(i);
                let rest = r.skip(i);
                assert(rest =~= ra + e);
                assert(ra[0] == '&');
                if "&amp;"@.is_prefix_of(ra) {
                    assert("&amp;"@.is_prefix_of(rest));
                } else if "&lt;"@.is_prefix_of(ra) {
                    assert("&lt;"@.is_prefix_of(rest));
                } else if "&gt;"@.is_prefix_of(ra) {
                    assert("&gt;"@.is_prefix_of(rest));
                } else if "&quot;"@.is_prefix_of(ra) {
                    assert("&quot;"@.is_prefix_of(rest));
                } else {
                    assert("&#39;"@.is_prefix_of(rest));
                }
            } else {
                assert(r[i] == e[i - a.len()]);
                assert(i == a.len());
                assert(r.skip(i) =~= e);
            }
        }
    }
}

/// Text without any of the five special characters escapes to itself.
pub proof fn law_plain_text_is_unchanged(s: Seq<char>)
    requires
        forall|i: int| 0 <= i < s.len() ==> !html_special(#[trigger] s[i]),
    ensures
        esc_m(s) == s,
    decreases s.len(),
{
    if s.len() > 0 {
        law_plain_text_is_unchanged(s.drop_last());
        assert(!html_special(s[s.len() - 1]));
        assert(s.drop_last().push(s.last()) =~= s);
    }
}

/// Escaping a concatenation escapes each part.
pub proof fn law_escaping_distributes(a: Seq<char>, b: Seq<char>)
    ensures
        esc_m(a + b) == esc_m(a) + esc_m(b),
{
    lemma_esc_concat(a, b);
}

/// Embed fields are laid out in rows: every row holds one to three fields, a
/// field that is not inline sits alone, a row of several holds only inline fields,
/// and an inline row ends only at three fields, at a field that is not inline, or
/// at the last field.
pub proof fn law_field_rows(fs: Seq<Field>, i: int)
    requires
        0 <= i < fs.len(),
    ensures
        i < run_end(fs, i) <= fs.len(),
        run_end(fs, i) - i <= 3,
        !fs[i].inline ==> run_end(fs, i) == i + 1,
        forall|k: int| i <= k < run_end(fs, i) && run_end(fs, i) - i > 1 ==> (#[trigger] fs[k]).inline,
        fs[i].inline ==> run_end(fs, i) == fs.len() || run_end(fs, i) - i == 3
            || !fs[run_end(fs, i)].inline,
{
    if fs[i].inline {
        lemma_run_end_inline(fs, i, i + 1);
    }
}

proof fn lemma_run_end_inline(fs: Seq<Field>, i: int, j: int)
    requires
        0 <= i < j <= fs.len(),
        j - i <= 3,
        forall|k: int| i <= k < j ==> (#[trigger] fs[k]).inline,
    ensures
        j <= inline_run_end(fs, i, j) <= fs.len(),
        inline_run_end(fs, i, j) - i <= 3,
        forall|k: int| i <= k < inline_run_end(fs, i, j) ==> (#[trigger] fs[k]).inline,
        inline_run_end(fs, i, j) == fs.len() || inline_run_end(fs, i, j) - i == 3
            || !fs[inline_run_end(fs, i, j)].inline,
    decreases fs.len() - j,
{
    if j < fs.len() && j - i < 3 && fs[j].inline {
        lemma_run_end_inline(fs, i, j + 1);
    }
}


/// `s` starts with the five characters `a b c d e`.
pub open spec fn starts5(s: Seq<char>, a: char, b: char, c: char, d: char, e: char) -> bool {
    s.len() >= 5 && s[0] == a && s[1] == b && s[2] == c && s[3] == d && s[4] == e
}

/// `s` starts with the four characters `a b c d`.
pub open spec fn starts4(s: Seq<char>, a: char, b: char, c: char, d: char) -> bool {
    s.len() >= 4 && s[0] == a && s[1] == b && s[2] == c && s[3] == d
}

/// Text with the five entities decoded, read from the front: `&amp;`, `&lt;`,
/// `&gt;`, `&quot;` and `&#39;` become `&`, `<`, `>`, `"` and `'`.
pub open spec fn unesc_m(s: Seq<char>) -> Seq<char>
    decreases s.len(),
{
    if s.len() == 0 {
        Seq::empty()
    } else if starts5(s, '&', 'a', 'm', 'p', ';') {
        seq!['&'] + unesc_m(s.skip(5))
    } else if starts4(s, '&', 'l', 't', ';') {
        seq!['<'] + unesc_m(s.skip(4))
    } else if starts4(s, '&', 'g', 't', ';') {
        seq!['>'] + unesc_m(s.skip(4))
    } else if s.len() >= 6 && starts5(s, '&', 'q', 'u', 'o', 't') && s[5] == ';' {
        seq!['"'] + unesc_m(s.skip(6))
    } else if starts5(s, '&', '#', '3', '9', ';') {
        seq!['\''] + unesc_m(s.skip(5))
    } else {
        seq![s[0]] + unesc_m(s.skip(1))
    }
}

proof fn lemma_unesc_char(c: char, x: Seq<char>)
    ensures
        unesc_m(esc_char(c) + x) == seq![c] + unesc_m(x),
{
    reveal_strlit("&amp;");
    reveal_strlit("&lt;");
    reveal_strlit("&gt;");
    reveal_strlit("&quot;");
    reveal_strlit("&#39;");
    let e = esc_char(c);
    let s = e + x;
    assert(s.skip(e.len() as int) =~= x);
    assert(s[0] == e[0]);
    if e.len() > 1 {
        assert(s[1] == e[1]);
        assert(s[2] == e[2]);
        assert(s[3] == e[3]);
    }
    if e.len() > 4 {
        assert(s[4] == e[4]);
    }
    if e.len() > 5 {
        assert(s[5] == e[5]);
    }
}

/// Decoding the five entities gives back the text that was escaped.
pub proof fn law_unescaping_inverts_escaping(s: Seq<char>)
    ensures
        unesc_m(esc_m(s)) == s,
    decreases s.len(),
{
    if s.len() > 0 {
        let head = seq![s[0]];
        let rest = s.skip(1);
        assert(s =~= head + rest);
        lemma_esc_concat(head, rest);
        assert(head.drop_last() =~= Seq::<char>::empty());
        assert(esc_m(Seq::<char>::empty()) == Seq::<char>::empty());
        assert(head.last() == s[0]);
        assert(esc_m(head) =~= esc_char(s[0]));
        lemma_unesc_char(s[0], esc_m(rest));
        law_unescaping_inverts_escaping(rest);
    }
}

/// The starts of the rows of fields from `i` on, in order.
pub open spec fn row_starts(fs: Seq<Field>, i: int) -> Seq<int>
    decreases fs.len() - i,
{
    if i < 0 || i >= fs.len() {
        Seq::empty()
    } else {
        proof {
            if fs[i].inline {
                lemma_inline_run_end(fs, i, i + 1);
            }
        }
        seq![i] + row_starts(fs, run_end(fs, i))
    }
}

/// The rows whose starts are given, one after another.
pub open spec fn rows_html(fs: Seq<Field>, starts: Seq<int>) -> Seq<char>
    decreases starts.len(),
{
    if starts.len() == 0 {
        Seq::empty()
    } else {
        group_html(fs, starts[0], run_end(fs, starts[0])) + rows_html(fs, starts.drop_first())
    }
}

/// The rows partition the fields in order: the first starts at `i`, each ends where
/// the next starts, and the last ends with the last field; the field grid is these
/// rows, one after another.
pub proof fn law_rows_partition_fields(fs: Seq<Field>, i: int)
    requires
        0 <= i < fs.len(),
    ensures
        row_starts(fs, i).len() > 0,
        row_starts(fs, i)[0] == i,
        forall|k: int|
            0 <= k < row_starts(fs, i).len() ==> row_starts(fs, i)[k] < run_end(
                fs,
                #[trigger] row_starts(fs, i)[k],
            ),
        forall|k: int|
            0 <= k < row_starts(fs, i).len() - 1 ==> run_end(fs, #[trigger] row_starts(fs, i)[k])
                == row_starts(fs, i)[k + 1],
        run_end(fs, row_starts(fs, i).last()) == fs.len(),
        groups_html(fs, i) == rows_html(fs, row_starts(fs, i)),
    decreases fs.len() - i,
{
    if fs[i].inline {
        lemma_inline_run_end(fs, i, i + 1);
    }
    let e = run_end(fs, i);
    let r = row_starts(fs, i);
    assert(r == seq![i] + row_starts(fs, e));
    assert(r.drop_first() =~= row_starts(fs, e));
    if e < fs.len() {
        law_rows_partition_fields(fs, e);
        let t = row_starts(fs, e);
        assert forall|k: int| 0 <= k < r.len() implies r[k] < run_end(fs, #[trigger] r[k]) by {
            if k > 0 {
                assert(r[k] == t[k - 1]);
            }
        }
        assert forall|k: int| 0 <= k < r.len() - 1 implies run_end(fs, #[trigger] r[k]) == r[k
            + 1] by {
            if k > 0 {
                assert(r[k] == t[k - 1]);
                assert(r[k + 1] == t[k]);
            }
        }
        assert(r.last() == t.last());
    } else {
        assert(row_starts(fs, e) =~= Seq::<int>::empty());
        assert(r =~= seq![i]);
        assert(rows_html(fs, Seq::<int>::empty()) == Seq::<char>::empty());
        assert(groups_html(fs, e) == Seq::<char>::empty());
    }
}

/// A heading of level 1, 2 or 3 renders with the tag of its own level, around its
/// spans; deeper levels render as level 3 and level 0 as level 1.
pub proof fn law_heading_keeps_its_level(level: u8, v: Seq<SpanM>, now: i64)
    ensures
        1 <= level <= 3 ==> block_html(BlockM::Heading(level, v), now) == seq!['<', 'h', digit_char(
            level as nat,
        ), '>'] + spans_html(v, now) + seq!['<', '/', 'h', digit_char(level as nat), '>'],
        level > 3 ==> block_html(BlockM::Heading(level, v), now) == block_html(
            BlockM::Heading(3, v),
            now,
        ),
        level == 0 ==> block_html(BlockM::Heading(level, v), now) == block_html(
            BlockM::Heading(1, v),
            now,
        ),
{
    reveal_strlit("<h");
    reveal_strlit(">");
    reveal_strlit("</h");
    if 1 <= level <= 3 {
        let d = level as nat;
        assert(decimal(d) == seq![digit_char(d)]);
        assert(block_html(BlockM::Heading(level, v), now) =~= seq!['<', 'h', digit_char(d), '>']
            + spans_html(v, now) + seq!['<', '/', 'h', digit_char(d), '>']);
    }
}

} // verus!
