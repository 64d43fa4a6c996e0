pub mod components;
pub mod figures;
pub mod html;
pub mod style;

pub use style::STYLESHEET;

use vstd::prelude::*;

use crate::markdown::chars::all_whitespace;
use crate::markdown::is_blank;
use crate::markdown::parse;
use crate::markdown::parse_m;
use crate::model::components_v2;
use crate::model::Embed;
use crate::model::Message;
use crate::render::components::children_html;
use crate::render::components::components_html;
use crate::render::components::write_components;
use crate::render::html::blocks_html;
use crate::render::html::embed_html;
use crate::render::html::esc_m;
use crate::render::html::opt;
use crate::render::html::push_esc;
use crate::render::html::write_blocks;
use crate::render::html::write_embed;
use crate::render::html::RenderCtx;
use crate::text::chars_of;
use crate::text::decimal;
use crate::text::push_decimal;

verus! {

/// The content width, in pixels, of a full document.
pub const DEFAULT_CONTENT_WIDTH: u32 = 600;

/// The message body exists: non-blank content, an embed or a component.
pub open spec fn has_body(m: Message) -> bool {
    !all_whitespace(m.content@) || m.embeds@.len() > 0 || m.components@.len() > 0
}

/// The opening of the outer wrapper, with the content width when one is given.
pub open spec fn wrap_open(width: Option<u32>) -> Seq<char> {
    match width {
        Some(w) => "<div id=\"wrap\" style=\"--eg-width:"@ + decimal(w as nat) + "px\">"@,
        None => "<div id=\"wrap\">"@,
    }
}

/// The header: avatar (or its placeholder) and username, present when either is set.
pub open spec fn header_html(m: Message) -> Seq<char> {
    if m.username is Some || m.avatar_url is Some {
        "<div class=\"eg-header\">"@ + (match m.avatar_url {
            Some(url) => "<img class=\"eg-avatar\" src=\""@ + esc_m(url@) + "\" alt=\"\">"@,
            None => "<span class=\"eg-avatar-placeholder\"></span>"@,
        }) + (match m.username {
            Some(name) => "<span class=\"eg-username\">"@ + esc_m(name@) + "</span>"@,
            None => Seq::empty(),
        }) + "</div>"@
    } else {
        Seq::empty()
    }
}

/// The markdown content, shown unless blank or the message uses components v2.
pub open spec fn content_html(m: Message, now: i64) -> Seq<char> {
    if !components_v2(m) && !all_whitespace(m.content@) {
        "<div class=\"eg-content\">"@ + blocks_html(parse_m(m.content@), now) + "</div>"@
    } else {
        Seq::empty()
    }
}

/// Embeds one after another.
pub open spec fn embeds_html(es: Seq<Embed>, now: i64) -> Seq<char>
    decreases es.len(),
{
    if es.len() == 0 {
        Seq::empty()
    } else {
        embeds_html(es.drop_last(), now) + embed_html(es.last(), now)
    }
}

/// The embed list, shown when there are embeds and the message does not use components v2.
pub open spec fn embeds_section_html(m: Message, now: i64) -> Seq<char> {
    if !components_v2(m) && m.embeds@.len() > 0 {
        "<div class=\"eg-embeds\">"@ + embeds_html(m.embeds@, now) + "</div>"@
    } else {
        Seq::empty()
    }
}

/// The message fragment: wrapper, header, body with content, embeds and components.
pub open spec fn message_html(m: Message, now: i64, width: Option<u32>) -> Seq<char> {
    wrap_open(width) + header_html(m) + opt(has_body(m), "<div class=\"eg-body\">"@)
        + content_html(m, now) + embeds_section_html(m, now) + components_html(m.components@, now)
        + opt(has_body(m), "</div>"@) + "</div>"@
}

/// A full HTML document around the message fragment, with the stylesheet in its head.
pub open spec fn document_html(m: Message, now: i64, width: u32) -> Seq<char> {
    "<!DOCTYPE html><html><head><meta charset=\"utf-8\"><style>"@ + STYLESHEET@
        + "</style></head><body>"@ + message_html(m, now, Some(width)) + "</body></html>"@
}

/// With the components v2 flag set, a message shows no content and no embeds:
/// only its header and components, inside the body when it has one.
pub proof fn law_v2_shows_only_components(m: Message, now: i64, width: Option<u32>)
    requires
        components_v2(m),
    ensures
        message_html(m, now, width) == wrap_open(width) + header_html(m) + opt(
            has_body(m),
            "<div class=\"eg-body\">"@,
        ) + components_html(m.components@, now) + opt(has_body(m), "</div>"@) + "</div>"@,
{
    assert(content_html(m, now) == Seq::<char>::empty());
    assert(embeds_section_html(m, now) == Seq::<char>::empty());
    assert(message_html(m, now, width) =~= wrap_open(width) + header_html(m) + opt(
        has_body(m),
        "<div class=\"eg-body\">"@,
    ) + components_html(m.components@, now) + opt(has_body(m), "</div>"@) + "</div>"@);
}

/// Rendering reads the flags only through the components v2 bit: two messages that
/// differ in other flag bits render alike.
pub proof fn law_only_the_v2_bit_matters(m1: Message, m2: Message, now: i64, width: u32)
    requires
        m1.content == m2.content,
        m1.username == m2.username,
        m1.avatar_url == m2.avatar_url,
        m1.tts == m2.tts,
        m1.embeds == m2.embeds,
        m1.components == m2.components,
        components_v2(m1) == components_v2(m2),
    ensures
        document_html(m1, now, width) == document_html(m2, now, width),
{
}

proof fn lemma_prefix_extends(p: Seq<char>, x: Seq<char>, y: Seq<char>)
    requires
        p.is_prefix_of(x),
    ensures
        p.is_prefix_of(x + y),
{
    assert((x + y).subrange(0, p.len() as int) =~= x.subrange(0, p.len() as int));
}

proof fn lemma_prefix_differs(p: Seq<char>, x: Seq<char>, y: Seq<char>, k: int)
    requires
        0 <= k < p.len(),
        k < x.len(),
        p[k] != x[k],
    ensures
        !p.is_prefix_of(x + y),
{
    if p.is_prefix_of(x + y) {
        assert((x + y).subrange(0, p.len() as int)[k] == (x + y)[k]);
    }
}

proof fn lemma_no_content_after(eo: Seq<char>, ko: Seq<char>, bc: Seq<char>)
    requires
        eo.len() == 0 || "<div class=\"eg-embeds\">"@.is_prefix_of(eo),
        ko.len() == 0 || "<div class=\"eg-components\">"@.is_prefix_of(ko),
        bc.len() == 0 || bc == "</div>"@,
    ensures
        !"<div class=\"eg-content\">"@.is_prefix_of(eo + ko + bc + "</div>"@),
{
    reveal_strlit("<div class=\"eg-content\">");
    reveal_strlit("<div class=\"eg-embeds\">");
    reveal_strlit("<div class=\"eg-components\">");
    reveal_strlit("</div>");
    let ct = "<div class=\"eg-content\">"@;
    let close = "</div>"@;
    if eo.len() > 0 {
        assert(eo[15] == "<div class=\"eg-embeds\">"@[15]);
        lemma_prefix_differs(ct, eo, ko + bc + close, 15);
        assert(eo + ko + bc + close =~= eo + (ko + bc + close));
    } else if ko.len() > 0 {
        assert(ko[17] == "<div class=\"eg-components\">"@[17]);
        lemma_prefix_differs(ct, ko, bc + close, 17);
        assert(eo + ko + bc + close =~= ko + (bc + close));
    } else if bc.len() > 0 {
        lemma_prefix_differs(ct, bc, close, 1);
        assert(eo + ko + bc + close =~= bc + close);
    } else {
        lemma_prefix_differs(ct, close, Seq::<char>::empty(), 1);
        assert(eo + ko + bc + close =~= close + Seq::<char>::empty());
    }
}

proof fn lemma_content_presence(m: Message, now: i64)
    ensures
        (!components_v2(m) && !all_whitespace(m.content@)) <==> "<div class=\"eg-content\">"@.is_prefix_of(
            content_html(m, now) + embeds_section_html(m, now) + components_html(m.components@, now)
                + opt(has_body(m), "</div>"@) + "</div>"@,
        ),
{
    reveal_strlit("<div class=\"eg-content\">");
    let ct = "<div class=\"eg-content\">"@;
    let co = content_html(m, now);
    let eo = embeds_section_html(m, now);
    let ko = components_html(m.components@, now);
    let bc = opt(has_body(m), "</div>"@);
    let close = "</div>"@;
    if !components_v2(m) && !all_whitespace(m.content@) {
        let inner = blocks_html(parse_m(m.content@), now) + "</div>"@;
        assert(co =~= ct + inner);
        assert(co + eo + ko + bc + close =~= ct + (inner + eo + ko + bc + close));
        lemma_prefix_extends(ct, ct, inner + eo + ko + bc + close);
    } else {
        assert(co =~= Seq::<char>::empty());
        if eo.len() > 0 {
            let rest = embeds_html(m.embeds@, now) + "</div>"@;
            assert(eo =~= "<div class=\"eg-embeds\">"@ + rest);
            lemma_prefix_extends("<div class=\"eg-embeds\">"@, "<div class=\"eg-embeds\">"@, rest);
        }
        if ko.len() > 0 {
            let rest = children_html(m.components@, now) + "</div>"@;
            assert(ko =~= "<div class=\"eg-components\">"@ + rest);
            lemma_prefix_extends(
                "<div class=\"eg-components\">"@,
                "<div class=\"eg-components\">"@,
                rest,
            );
        }
        lemma_no_content_after(eo, ko, bc);
        assert(co + eo + ko + bc + close =~= eo + ko + bc + close);
    }
}

proof fn lemma_body_presence(m: Message, after: Seq<char>)
    requires
        !has_body(m) ==> after == "</div>"@,
    ensures
        has_body(m) <==> "<div class=\"eg-body\">"@.is_prefix_of(
            opt(has_body(m), "<div class=\"eg-body\">"@) + after,
        ),
{
    reveal_strlit("<div class=\"eg-body\">");
    reveal_strlit("</div>");
    let bd = "<div class=\"eg-body\">"@;
    if has_body(m) {
        lemma_prefix_extends(bd, bd, after);
    } else {
        assert(opt(has_body(m), bd) + after =~= after + Seq::<char>::empty());
        lemma_prefix_differs(bd, after, Seq::<char>::empty(), 1);
    }
}

proof fn lemma_header_presence(m: Message, after: Seq<char>)
    requires
        after == "</div>"@ || "<div class=\"eg-body\">"@.is_prefix_of(after),
    ensures
        (m.username is Some || m.avatar_url is Some) <==> "<div class=\"eg-header\">"@.is_prefix_of(
            header_html(m) + after,
        ),
{
    reveal_strlit("<div class=\"eg-header\">");
    reveal_strlit("<div class=\"eg-body\">");
    reveal_strlit("</div>");
    let hd = "<div class=\"eg-header\">"@;
    let hh = header_html(m);
    if m.username is Some || m.avatar_url is Some {
        let inner = hh.skip(hd.len() as int);
        assert(hh =~= hd + inner);
        lemma_prefix_extends(hd, hd, inner + after);
        assert(hh + after =~= hd + (inner + after));
    } else {
        assert(hh + after =~= after + Seq::<char>::empty());
        if after == "</div>"@ {
            lemma_prefix_differs(hd, after, Seq::<char>::empty(), 1);
        } else {
            assert(after[15] == "<div class=\"eg-body\">"@[15]);
            lemma_prefix_differs(hd, after, Seq::<char>::empty(), 15);
        }
    }
}

/// Right after the wrapper's opening comes the header exactly when the message has
/// a username or an avatar; next comes the body exactly when the content is not
/// blank or there are embeds or components; and the body begins with the content
/// block exactly when the content is not blank and the components v2 flag is off.
pub proof fn law_header_body_content_presence(m: Message, now: i64, width: Option<u32>)
    ensures
        ({
            let h = message_html(m, now, width);
            let a = wrap_open(width).len() as int;
            let b = a + header_html(m).len();
            let c = b + opt(has_body(m), "<div class=\"eg-body\">"@).len();
            &&& (m.username is Some || m.avatar_url is Some) <==> "<div class=\"eg-header\">"@.is_prefix_of(
                h.skip(a),
            )
            &&& has_body(m) <==> "<div class=\"eg-body\">"@.is_prefix_of(h.skip(b))
            &&& (!components_v2(m) && !all_whitespace(m.content@)) <==> "<div class=\"eg-content\">"@.is_prefix_of(
                h.skip(c),
            )
        }),
{
    let w = wrap_open(width);
    let hh = header_html(m);
    let bo = opt(has_body(m), "<div class=\"eg-body\">"@);
    let after_c = content_html(m, now) + embeds_section_html(m, now) + components_html(
        m.components@,
        now,
    ) + opt(has_body(m), "</div>"@) + "</div>"@;
    let h = message_html(m, now, width);
    assert(h =~= w + hh + bo + after_c);
    let a = w.len() as int;
    let b = a + hh.len();
    let c = b + bo.len();
    assert(h.skip(c) =~= after_c);
    assert(h.skip(b) =~= bo + after_c);
    assert(h.skip(a) =~= hh + (bo + after_c));
    lemma_content_presence(m, now);
    if !has_body(m) {
        assert(after_c =~= "</div>"@);
    }
    lemma_body_presence(m, after_c);
    reveal_strlit("<div class=\"eg-body\">");
    if has_body(m) {
        lemma_prefix_extends("<div class=\"eg-body\">"@, "<div class=\"eg-body\">"@, after_c);
    } else {
        assert(bo + after_c =~= after_c);
    }
    lemma_header_presence(m, bo + after_c);
}

/// Renders a full HTML document at the default content width.
pub fn render_html(message: &Message, now_unix: i64) -> (r: String)
    ensures
        r@ == document_html(*message, now_unix, DEFAULT_CONTENT_WIDTH),
{
    render_html_with_width(message, now_unix, DEFAULT_CONTENT_WIDTH)
}

/// Renders a full HTML document whose content is `content_width` pixels wide.
pub fn render_html_with_width(message: &Message, now_unix: i64, content_width: u32) -> (r: String)
    ensures
        r@ == document_html(*message, now_unix, content_width),
{
    let mut out = String::new();
    out.append("<!DOCTYPE html><html><head><meta charset=\"utf-8\"><style>");
    out.append(STYLESHEET);
    out.append("</style></head><body>");
    let fragment = render_message_html_with_width(message, now_unix, Some(content_width));
    out.append(fragment.as_str());
    out.append("</body></html>");
    assert(out@ =~= document_html(*message, now_unix, content_width));
    out
}

/// Renders the message fragment alone, without a document or a fixed width.
pub fn render_message_html(message: &Message, now_unix: i64) -> (r: String)
    ensures
        r@ == message_html(*message, now_unix, None),
{
    render_message_html_with_width(message, now_unix, None)
}

/// Renders the message fragment, with a content width when one is given.
pub fn render_message_html_with_width(
    message: &Message,
    now_unix: i64,
    content_width: Option<u32>,
) -> (r: String)
    ensures
        r@ == message_html(*message, now_unix, content_width),
{
    let ctx = RenderCtx { now_unix };
    let mut out = String::new();
    match content_width {
        Some(width) => {
            out.append("<div id=\"wrap\" style=\"--eg-width:");
            push_decimal(&mut out, width as u64);
            out.append("px\">");
        },
        None => out.append("<div id=\"wrap\">"),
    }
    assert(out@ =~= wrap_open(content_width));
    push_header(message, &mut out);
    let content = chars_of(message.content.as_str());
    let blank = is_blank(&content);
    let body = !blank || message.embeds.len() > 0 || message.components.len() > 0;
    if body {
        out.append("<div class=\"eg-body\">");
    }
    let ghost body_start = out@;
    assert(body_start =~= wrap_open(content_width) + header_html(*message) + opt(
        has_body(*message),
        "<div class=\"eg-body\">"@,
    ));
    let v2 = message.is_components_v2();
    if !v2 && !blank {
        out.append("<div class=\"eg-content\">");
        let blocks = parse(message.content.as_str());
        write_blocks(&blocks, &mut out, &ctx);
        out.append("</div>");
    }
    assert(out@ =~= body_start + content_html(*message, now_unix));
    push_embeds_section(message, v2, &mut out, &ctx);
    write_components(&message.components, &mut out, &ctx);
    if body {
        out.append("</div>");
    }
    out.append("</div>");
    assert(out@ =~= message_html(*message, now_unix, content_width));
    out
}

fn push_header(message: &Message, out: &mut String)
    ensures
        final(out)@ == old(out)@ + header_html(*message),
{
    if message.username.is_none() && message.avatar_url.is_none() {
        return ;
    }
    let ghost start = out@;
    out.append("<div class=\"eg-header\">");
    match &message.avatar_url {
        Some(url) => {
            out.append("<img class=\"eg-avatar\" src=\"");
            push_esc(out, url.as_str());
            out.append("\" alt=\"\">");
        },
        None => out.append("<span class=\"eg-avatar-placeholder\"></span>"),
    }
    if let Some(name) = &message.username {
        out.append("<span class=\"eg-username\">");
        push_esc(out, name.as_str());
        out.append("</span>");
    }
    out.append("</div>");
    assert(out@ =~= start + header_html(*message));
}

fn push_embeds_section(message: &Message, v2: bool, out: &mut String, ctx: &RenderCtx)
    requires
        v2 == components_v2(*message),
    ensures
        final(out)@ == old(out)@ + embeds_section_html(*message, ctx.now_unix),
{
    if v2 || message.embeds.len() == 0 {
        return ;
    }
    let ghost start = out@;
    out.append("<div class=\"eg-embeds\">");
    let ghost mid = out@;
    let mut k: usize = 0;
    while k < message.embeds.len()
        invariant
            k <= message.embeds@.len(),
            out@ == mid + embeds_html(message.embeds@.take(k as int), ctx.now_unix),
        decreases message.embeds@.len() - k,
    {
        write_embed(&message.embeds[k], out, ctx);
        assert(message.embeds@.take(k + 1).drop_last() =~= message.embeds@.take(k as int));
        k += 1;
    }
    assert(message.embeds@.take(k as int) =~= message.embeds@);
    out.append("</div>");
    assert(out@ =~= start + embeds_section_html(*message, ctx.now_unix));
}

} // verus!
