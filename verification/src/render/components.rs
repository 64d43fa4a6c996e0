use vstd::prelude::*;

use crate::markdown::chars::find_char;
use crate::markdown::chars::find_char_in;
use crate::markdown::chars::lemma_find_char;
use crate::markdown::parse;
use crate::markdown::parse_m;
use crate::model::Component;
use crate::model::Emoji;
use crate::model::MediaGalleryItem;
use crate::model::UnfurledMediaItem;
use crate::render::html::blocks_html;
use crate::render::html::clamp_color;
use crate::render::html::emoji_img;
use crate::render::html::esc_m;
use crate::render::html::hex6;
use crate::render::html::opt;
use crate::render::html::push_color_hex;
use crate::render::html::push_emoji_img;
use crate::render::html::push_esc;
use crate::render::html::write_blocks;
use crate::render::html::RenderCtx;
use crate::text::chars_of;
use crate::text::decimal;
use crate::text::lemma_append_assoc;
use crate::text::push_decimal;
use crate::text::string_of;

verus! {

pub open spec fn button_class_m(style: u8) -> Seq<char> {
    if style == 1 {
        "eg-btn-primary"@
    } else if style == 2 {
        "eg-btn-secondary"@
    } else if style == 3 {
        "eg-btn-success"@
    } else if style == 4 {
        "eg-btn-danger"@
    } else {
        "eg-btn-link"@
    }
}

/// The color class of a button style.
pub fn button_class(style: u8) -> (s: &'static str)
    ensures
        s@ == button_class_m(style),
{
    if style == 1 {
        "eg-btn-primary"
    } else if style == 2 {
        "eg-btn-secondary"
    } else if style == 3 {
        "eg-btn-success"
    } else if style == 4 {
        "eg-btn-danger"
    } else {
        "eg-btn-link"
    }
}

/// The part of `s` before the first `c`.
pub open spec fn before_char(s: Seq<char>, c: char) -> Seq<char> {
    match find_char(s, c) {
        Some(k) => s.take(k),
        None => s,
    }
}

/// The position of the last `c` in `s`.
pub open spec fn rfind_char(s: Seq<char>, c: char) -> Option<int>
    decreases s.len(),
{
    if s.len() == 0 {
        None
    } else if s.last() == c {
        Some(s.len() - 1)
    } else {
        rfind_char(s.drop_last(), c)
    }
}

/// The part of `s` after the last `c`, or all of `s`.
pub open spec fn after_last_char(s: Seq<char>, c: char) -> Seq<char> {
    match rfind_char(s, c) {
        Some(k) => s.skip(k + 1),
        None => s,
    }
}

/// The last path segment of a URL without query or fragment, or `file`.
pub open spec fn file_name_m(url: Seq<char>) -> Seq<char> {
    let seg = after_last_char(before_char(before_char(url, '#'), '?'), '/');
    if seg.len() == 0 {
        "file"@
    } else {
        seg
    }
}

/// The name a file component shows: the URL's last path segment without query or
/// fragment, or `file`.
pub fn file_name(url: &str) -> (r: String)
    ensures
        r@ == file_name_m(url@),
{
    let chars = chars_of(url);
    let len = chars.len();
    proof {
        lemma_find_char(url@, '#');
    }
    assert(chars@.subrange(0, len as int) =~= chars@);
    let a = match find_char_in(&chars, 0, len, '#') {
        Some(k) => k,
        None => len,
    };
    assert(chars@.subrange(0, a as int) =~= before_char(url@, '#'));
    let ghost na = chars@.subrange(0, a as int);
    proof {
        lemma_find_char(na, '?');
    }
    let b = match find_char_in(&chars, 0, a, '?') {
        Some(k) => k,
        None => a,
    };
    let ghost nq = chars@.subrange(0, b as int);
    assert(nq =~= before_char(na, '?'));
    assert(nq.take(b as int) =~= nq);
    let mut j = b;
    while j > 0 && chars[j - 1] != '/'
        invariant
            b <= len == chars@.len(),
            j <= b,
            nq == chars@.subrange(0, b as int),
            rfind_char(nq.take(j as int), '/') == rfind_char(nq, '/'),
        decreases j,
    {
        assert(nq.take(j as int).drop_last() =~= nq.take(j - 1));
        j -= 1;
    }
    if j == 0 {
        assert(nq.take(0) =~= Seq::<char>::empty());
    }
    assert(chars@.subrange(j as int, b as int) =~= after_last_char(nq, '/'));
    if j == b {
        proof {
            reveal_strlit("file");
        }
        String::from_str("file")
    } else {
        string_of(&chars, j, b)
    }
}

/// A button of any style outside 1 to 4 (a link button's 5, a premium button's 6)
/// renders like a link button.
pub proof fn law_premium_button_renders_like_link(
    style: u8,
    label: Option<String>,
    emoji: Option<Emoji>,
    url: Option<String>,
    disabled: bool,
)
    requires
        style < 1 || style > 4,
    ensures
        button_html(style, label, emoji, url, disabled) == button_html(
            5,
            label,
            emoji,
            url,
            disabled,
        ),
{
}

/// Every kind of select menu (string, user, role, mentionable, channel) renders as
/// the same closed menu, enabled or not.
pub proof fn law_select_kind_does_not_change_render(c1: Component, c2: Component, now: i64)
    requires
        c1 is SelectMenu,
        c2 is SelectMenu,
        c1->SelectMenu_placeholder == c2->SelectMenu_placeholder,
        c1->SelectMenu_options == c2->SelectMenu_options,
    ensures
        component_html(c1, now) == component_html(c2, now),
{
}

/// A gallery's grid has one column per item, at least one and at most three.
pub proof fn law_gallery_columns(n: nat)
    ensures
        1 <= gallery_cols(n) <= 3,
        1 <= n <= 3 ==> gallery_cols(n) == n,
        n > 3 ==> gallery_cols(n) == 3,
{
}

proof fn lemma_before_char(s: Seq<char>, c: char)
    ensures
        !before_char(s, c).contains(c),
        before_char(s, c).len() <= s.len(),
        forall|i: int| 0 <= i < before_char(s, c).len() ==> #[trigger] before_char(s, c)[i] == s[i],
{
    lemma_find_char(s, c);
}

proof fn lemma_rfind_char(s: Seq<char>, c: char)
    ensures
        match rfind_char(s, c) {
            Some(k) => 0 <= k < s.len() && s[k] == c && forall|j: int| k < j < s.len() ==> s[j] != c,
            None => !s.contains(c),
        },
    decreases s.len(),
{
    if s.len() > 0 && s.last() != c {
        let d = s.drop_last();
        lemma_rfind_char(d, c);
        match rfind_char(d, c) {
            Some(k) => {
                assert forall|j: int| k < j < s.len() implies s[j] != c by {
                    if j < s.len() - 1 {
                        assert(d[j] == s[j]);
                    }
                }
            },
            None => {
                assert forall|j: int| 0 <= j < s.len() implies s[j] != c by {
                    if j < s.len() - 1 {
                        assert(d[j] == s[j]);
                        assert(!d.contains(c));
                    }
                }
            },
        }
    }
}

/// A file's shown name is never empty and holds no `/`, `?` or `#`: it is the last
/// path segment of the URL with query and fragment cut off, or `file`.
pub proof fn law_file_name_is_a_bare_segment(url: Seq<char>)
    ensures
        file_name_m(url).len() > 0,
        !file_name_m(url).contains('/'),
        !file_name_m(url).contains('?'),
        !file_name_m(url).contains('#'),
{
    reveal_strlit("file");
    let a = before_char(url, '#');
    let b = before_char(a, '?');
    lemma_before_char(url, '#');
    lemma_before_char(a, '?');
    assert(!b.contains('#')) by {
        if b.contains('#') {
            let i = choose|i: int| 0 <= i < b.len() && b[i] == '#';
            assert(a[i] == '#');
        }
    }
    lemma_rfind_char(b, '/');
    let seg = after_last_char(b, '/');
    let off: int = match rfind_char(b, '/') {
        Some(k) => k + 1,
        None => 0,
    };
    assert(seg =~= b.skip(off));
    assert(!seg.contains('/')) by {
        if seg.contains('/') {
            let i = choose|i: int| 0 <= i < seg.len() && seg[i] == '/';
            assert(b[off + i] == '/');
        }
    }
    assert(!seg.contains('?')) by {
        if seg.contains('?') {
            let i = choose|i: int| 0 <= i < seg.len() && seg[i] == '?';
            assert(b[off + i] == '?');
        }
    }
    assert(!seg.contains('#')) by {
        if seg.contains('#') {
            let i = choose|i: int| 0 <= i < seg.len() && seg[i] == '#';
            assert(b[off + i] == '#');
        }
    }
    if seg.len() == 0 {
        let f = file_name_m(url);
        assert(f == "file"@);
        assert(!f.contains('/') && !f.contains('?') && !f.contains('#')) by {
            assert(f[0] == 'f' && f[1] == 'i' && f[2] == 'l' && f[3] == 'e');
        }
    }
}

pub open spec fn emoji_html_m(e: Emoji) -> Seq<char> {
    emoji_img(
        e.name@,
        match e.id {
            Some(id) => id@,
            None => Seq::empty(),
        },
        e.animated,
    )
}

pub open spec fn button_content_html(label: Option<String>, emoji: Option<Emoji>) -> Seq<char> {
    (match emoji {
        Some(e) => emoji_html_m(e),
        None => Seq::empty(),
    }) + (match label {
        Some(l) => "<span>"@ + esc_m(l@) + "</span>"@,
        None => Seq::empty(),
    })
}

pub open spec fn spoiler_overlay() -> Seq<char> {
    "<div class=\"spoiler-overlay\"></div>"@
}

/// An image in a `<figure>`, covered when it is a spoiler.
pub open spec fn media_figure_html(
    url: Seq<char>,
    description: Option<String>,
    spoiler: bool,
    class: Seq<char>,
) -> Seq<char> {
    "<figure class=\"eg-media"@ + opt(spoiler, " eg-has-spoiler"@) + "\">"@ + "<img class=\""@
        + class + "\" src=\""@ + esc_m(url) + "\" alt=\""@ + esc_m(
        match description {
            Some(d) => d@,
            None => Seq::empty(),
        },
    ) + "\">"@ + opt(spoiler, spoiler_overlay()) + "</figure>"@
}

pub open spec fn gallery_items_html(items: Seq<MediaGalleryItem>) -> Seq<char>
    decreases items.len(),
{
    if items.len() == 0 {
        Seq::empty()
    } else {
        gallery_items_html(items.drop_last()) + media_figure_html(
            items.last().media.url@,
            items.last().description,
            items.last().spoiler,
            "eg-gallery-item"@,
        )
    }
}

/// Gallery columns: one per item, at least one and at most three.
pub open spec fn gallery_cols(n: nat) -> nat {
    if n < 1 {
        1
    } else if n > 3 {
        3
    } else {
        n
    }
}

pub open spec fn separator_size(spacing: Option<u8>) -> Seq<char> {
    if (match spacing {
        Some(s) => s,
        None => 1,
    }) == 1 {
        "sm"@
    } else {
        "lg"@
    }
}

/// The text a closed select menu shows: its placeholder, else its first option's
/// label, else nothing.
pub open spec fn select_shown(c: Component) -> Seq<char> {
    match c {
        Component::SelectMenu { placeholder, options, .. } => match placeholder {
            Some(p) => p@,
            None => if options@.len() > 0 {
                options@[0].label@
            } else {
                Seq::empty()
            },
        },
        _ => Seq::empty(),
    }
}

pub open spec fn button_html(
    style: u8,
    label: Option<String>,
    emoji: Option<Emoji>,
    url: Option<String>,
    disabled: bool,
) -> Seq<char> {
    let classes = "eg-btn "@ + button_class_m(style) + opt(disabled, " is-disabled"@);
    if !disabled && url is Some {
        "<a class=\""@ + classes + "\" href=\""@ + esc_m(url->0@)
            + "\" target=\"_blank\" rel=\"noopener noreferrer\">"@ + button_content_html(label, emoji)
            + "</a>"@
    } else {
        "<button type=\"button\" class=\""@ + classes + "\""@ + opt(disabled, " disabled"@) + ">"@
            + button_content_html(label, emoji) + "</button>"@
    }
}

/// The HTML of a component with the clock at `now`.
pub open spec fn component_html(c: Component, now: i64) -> Seq<char>
    decreases c, 0int,
{
    match c {
        Component::ActionRow { components } => "<div class=\"eg-action-row\">"@ + children_html(
            components@,
            now,
        ) + "</div>"@,
        Component::Button { style, label, emoji, url, disabled } => button_html(
            style,
            label,
            emoji,
            url,
            disabled,
        ),
        Component::SelectMenu { .. } => "<div class=\"eg-select\">"@ + "<span>"@ + esc_m(
            select_shown(c),
        ) + "</span>"@ + "<span class=\"eg-select-chevron\"></span>"@ + "</div>"@,
        Component::TextDisplay { content } => "<div class=\"eg-text-display\">"@ + blocks_html(
            parse_m(content@),
            now,
        ) + "</div>"@,
        Component::Section { components, accessory } => "<div class=\"eg-section\">"@
            + "<div class=\"eg-section-text\">"@ + children_html(components@, now) + "</div>"@
            + accessory_html(*accessory, now) + "</div>"@,
        Component::Thumbnail { media, description, spoiler } => media_figure_html(
            media.url@,
            description,
            spoiler,
            "eg-thumb"@,
        ),
        Component::MediaGallery { items } => "<div class=\"eg-gallery\" style=\"grid-template-columns:repeat("@
            + decimal(gallery_cols(items@.len())) + ",1fr)\">"@ + gallery_items_html(items@)
            + "</div>"@,
        Component::File { file, spoiler } => "<div class=\"eg-file-wrap"@ + opt(
            spoiler,
            " eg-has-spoiler"@,
        ) + "\"><a class=\"eg-file-card\" href=\"#\"><span class=\"eg-file-name\">"@ + esc_m(
            file_name_m(file.url@),
        ) + "</span><span class=\"eg-file-download\"></span></a>"@ + opt(spoiler, spoiler_overlay())
            + "</div>"@,
        Component::Separator { divider, spacing } => if divider {
            "<hr class=\"eg-separator eg-sep-"@ + separator_size(spacing) + "\">"@
        } else {
            "<div class=\"eg-sep-spacer-"@ + separator_size(spacing) + "\"></div>"@
        },
        Component::Container { components, accent_color, spoiler } => "<div class=\"eg-container"@
            + opt(spoiler, " eg-has-spoiler"@) + "\">"@ + (match accent_color {
            Some(color) => "<div class=\"eg-container-bar\" style=\"background:#"@ + hex6(
                clamp_color(color),
            ) + "\"></div>"@,
            None => Seq::empty(),
        }) + "<div class=\"eg-container-inner\">"@ + children_html(components@, now) + "</div>"@
            + opt(spoiler, spoiler_overlay()) + "</div>"@,
    }
}

/// A section's accessory: a thumbnail figure, or any other component.
pub open spec fn accessory_html(a: Component, now: i64) -> Seq<char>
    decreases a, 1int,
{
    match a {
        Component::Thumbnail { media, description, spoiler } => "<div class=\"eg-accessory\">"@
            + media_figure_html(media.url@, description, spoiler, "eg-accessory-thumbnail"@)
            + "</div>"@,
        _ => "<div class=\"eg-accessory\">"@ + component_html(a, now) + "</div>"@,
    }
}

/// Components one after another.
pub open spec fn children_html(cs: Seq<Component>, now: i64) -> Seq<char>
    decreases cs, 0int,
{
    if cs.len() == 0 {
        Seq::empty()
    } else {
        children_html(cs.drop_last(), now) + component_html(cs.last(), now)
    }
}

/// The component area of a message: nothing when there are no components.
pub open spec fn components_html(cs: Seq<Component>, now: i64) -> Seq<char> {
    if cs.len() == 0 {
        Seq::empty()
    } else {
        "<div class=\"eg-components\">"@ + children_html(cs, now) + "</div>"@
    }
}

/// Renders the component area of a message.
pub fn write_components(components: &Vec<Component>, out: &mut String, ctx: &RenderCtx)
    ensures
        final(out)@ == old(out)@ + components_html(components@, ctx.now_unix),
{
    if components.len() == 0 {
        return ;
    }
    let ghost start = out@;
    out.append("<div class=\"eg-components\">");
    write_children(components, out, ctx);
    out.append("</div>");
    assert(out@ =~= start + components_html(components@, ctx.now_unix));
}

fn write_children(components: &Vec<Component>, out: &mut String, ctx: &RenderCtx)
    ensures
        final(out)@ == old(out)@ + children_html(components@, ctx.now_unix),
    decreases components@, 0int,
{
    let ghost start = out@;
    let mut k: usize = 0;
    while k < components.len()
        invariant
            k <= components@.len(),
            out@ == start + children_html(components@.take(k as int), ctx.now_unix),
        decreases components@.len() - k,
    {
        write_component(&components[k], out, ctx);
        assert(components@.take(k + 1).drop_last() =~= components@.take(k as int));
        assert(components@.take(k + 1).last() == components@[k as int]);
        k += 1;
    }
    assert(components@.take(k as int) =~= components@);
}

fn write_button(
    style: u8,
    label: &Option<String>,
    emoji: &Option<Emoji>,
    url: &Option<String>,
    disabled: bool,
    out: &mut String,
)
    ensures
        final(out)@ == old(out)@ + button_html(style, *label, *emoji, *url, disabled),
{
    let mut classes = String::from_str("eg-btn ");
    classes.append(button_class(style));
    if disabled {
        classes.append(" is-disabled");
    }
    proof {
        reveal_strlit("eg-btn ");
        reveal_strlit(" is-disabled");
    }
    assert(classes@ =~= "eg-btn "@ + button_class_m(style) + opt(disabled, " is-disabled"@));
    match url {
        Some(href) => {
            if disabled {
                push_plain_button(classes.as_str(), label, emoji, disabled, out);
            } else {
                push_anchor_button(classes.as_str(), href.as_str(), label, emoji, out);
            }
        },
        None => {
            push_plain_button(classes.as_str(), label, emoji, disabled, out);
        },
    }
}

fn push_anchor_button(
    classes: &str,
    href: &str,
    label: &Option<String>,
    emoji: &Option<Emoji>,
    out: &mut String,
)
    ensures
        final(out)@ == old(out)@ + ("<a class=\""@ + classes@ + "\" href=\""@ + esc_m(href@)
            + "\" target=\"_blank\" rel=\"noopener noreferrer\">"@ + button_content_html(
            *label,
            *emoji,
        ) + "</a>"@),
{
    let ghost start = out@;
    out.append("<a class=\"");
    out.append(classes);
    out.append("\" href=\"");
    push_esc(out, href);
    out.append("\" target=\"_blank\" rel=\"noopener noreferrer\">");
    push_button_content(label, emoji, out);
    out.append("</a>");
    assert(out@ =~= start + ("<a class=\""@ + classes@ + "\" href=\""@ + esc_m(href@)
        + "\" target=\"_blank\" rel=\"noopener noreferrer\">"@ + button_content_html(
        *label,
        *emoji,
    ) + "</a>"@));
}

fn push_plain_button(
    classes: &str,
    label: &Option<String>,
    emoji: &Option<Emoji>,
    disabled: bool,
    out: &mut String,
)
    ensures
        final(out)@ == old(out)@ + ("<button type=\"button\" class=\""@ + classes@ + "\""@ + opt(
            disabled,
            " disabled"@,
        ) + ">"@ + button_content_html(*label, *emoji) + "</button>"@),
{
    let ghost start = out@;
    out.append("<button type=\"button\" class=\"");
    out.append(classes);
    out.append("\"");
    if disabled {
        out.append(" disabled");
    }
    out.append(">");
    push_button_content(label, emoji, out);
    out.append("</button>");
    assert(out@ =~= start + ("<button type=\"button\" class=\""@ + classes@ + "\""@ + opt(
        disabled,
        " disabled"@,
    ) + ">"@ + button_content_html(*label, *emoji) + "</button>"@));
}

fn write_select(component: &Component, out: &mut String)
    requires
        component is SelectMenu,
    ensures
        final(out)@ == old(out)@ + component_html(*component, 0),
{
    if let Component::SelectMenu { placeholder, options, .. } = component {
        let ghost start = out@;
        out.append("<div class=\"eg-select\">");
        out.append("<span>");
        match placeholder {
            Some(p) => push_esc(out, p.as_str()),
            None => {
                if options.len() > 0 {
                    push_esc(out, options[0].label.as_str());
                } else {
                    push_esc(out, "");
                }
            },
        }
        out.append("</span>");
        out.append("<span class=\"eg-select-chevron\"></span>");
        out.append("</div>");
        proof {
            reveal_strlit("");
        }
        assert(out@ =~= start + component_html(*component, 0));
    }
}

fn write_file(file: &UnfurledMediaItem, spoiler: bool, out: &mut String)
    ensures
        final(out)@ == old(out)@ + "<div class=\"eg-file-wrap"@ + opt(spoiler, " eg-has-spoiler"@)
            + "\"><a class=\"eg-file-card\" href=\"#\"><span class=\"eg-file-name\">"@ + esc_m(
            file_name_m(file.url@),
        ) + "</span><span class=\"eg-file-download\"></span></a>"@ + opt(spoiler, spoiler_overlay())
            + "</div>"@,
{
    let ghost start = out@;
    let name = file_name(file.url.as_str());
    out.append("<div class=\"eg-file-wrap");
    if spoiler {
        out.append(" eg-has-spoiler");
    }
    out.append("\"><a class=\"eg-file-card\" href=\"#\"><span class=\"eg-file-name\">");
    push_esc(out, name.as_str());
    out.append("</span><span class=\"eg-file-download\"></span></a>");
    if spoiler {
        out.append("<div class=\"spoiler-overlay\"></div>");
    }
    out.append("</div>");
    assert(out@ =~= start + "<div class=\"eg-file-wrap"@ + opt(spoiler, " eg-has-spoiler"@)
        + "\"><a class=\"eg-file-card\" href=\"#\"><span class=\"eg-file-name\">"@ + esc_m(
        file_name_m(file.url@),
    ) + "</span><span class=\"eg-file-download\"></span></a>"@ + opt(spoiler, spoiler_overlay())
        + "</div>"@);
}

fn write_gallery(items: &Vec<MediaGalleryItem>, out: &mut String)
    ensures
        final(out)@ == old(out)@ + "<div class=\"eg-gallery\" style=\"grid-template-columns:repeat("@
            + decimal(gallery_cols(items@.len())) + ",1fr)\">"@ + gallery_items_html(items@)
            + "</div>"@,
{
    let ghost start = out@;
    let n = items.len();
    let cols: u64 = if n < 1 {
        1
    } else if n > 3 {
        3
    } else {
        n as u64
    };
    out.append("<div class=\"eg-gallery\" style=\"grid-template-columns:repeat(");
    push_decimal(out, cols);
    out.append(",1fr)\">");
    let ghost mid = out@;
    let mut k: usize = 0;
    while k < items.len()
        invariant
            k <= items@.len(),
            out@ == mid + gallery_items_html(items@.take(k as int)),
        decreases items@.len() - k,
    {
        let item = &items[k];
        push_media_figure(&item.media, &item.description, item.spoiler, "eg-gallery-item", out);
        assert(items@.take(k + 1).drop_last() =~= items@.take(k as int));
        k += 1;
    }
    assert(items@.take(k as int) =~= items@);
    out.append("</div>");
    assert(out@ =~= start + "<div class=\"eg-gallery\" style=\"grid-template-columns:repeat("@
        + decimal(gallery_cols(items@.len())) + ",1fr)\">"@ + gallery_items_html(items@)
        + "</div>"@);
}

fn write_separator(divider: bool, spacing: Option<u8>, out: &mut String)
    ensures
        final(out)@ == old(out)@ + if divider {
            "<hr class=\"eg-separator eg-sep-"@ + separator_size(spacing) + "\">"@
        } else {
            "<div class=\"eg-sep-spacer-"@ + separator_size(spacing) + "\"></div>"@
        },
{
    let ghost start = out@;
    let size = match spacing.unwrap_or(1) {
        1 => "sm",
        _ => "lg",
    };
    if divider {
        out.append("<hr class=\"eg-separator eg-sep-");
        out.append(size);
        out.append("\">");
    } else {
        out.append("<div class=\"eg-sep-spacer-");
        out.append(size);
        out.append("\"></div>");
    }
    assert(out@ =~= start + if divider {
        "<hr class=\"eg-separator eg-sep-"@ + separator_size(spacing) + "\">"@
    } else {
        "<div class=\"eg-sep-spacer-"@ + separator_size(spacing) + "\"></div>"@
    });
}

/// Renders one component.
pub fn write_component(component: &Component, out: &mut String, ctx: &RenderCtx)
    ensures
        final(out)@ == old(out)@ + component_html(*component, ctx.now_unix),
    decreases *component, 2int,
{
    match component {
        Component::ActionRow { .. } => write_action_row(component, out, ctx),
        Component::Button { style, label, emoji, url, disabled } => {
            write_button(*style, label, emoji, url, *disabled, out);
        },
        Component::SelectMenu { .. } => {
            write_select(component, out);
            assert(component_html(*component, 0) == component_html(*component, ctx.now_unix));
        },
        Component::TextDisplay { .. } => write_text_display(component, out, ctx),
        Component::Section { .. } => write_section(component, out, ctx),
        Component::Thumbnail { media, description, spoiler } => {
            push_media_figure(media, description, *spoiler, "eg-thumb", out);
        },
        Component::MediaGallery { items } => {
            write_gallery(items, out);
        },
        Component::File { file, spoiler } => {
            write_file(file, *spoiler, out);
        },
        Component::Separator { divider, spacing } => {
            write_separator(*divider, *spacing, out);
        },
        Component::Container { .. } => write_container(component, out, ctx),
    }
}

fn write_action_row(component: &Component, out: &mut String, ctx: &RenderCtx)
    requires
        component is ActionRow,
    ensures
        final(out)@ == old(out)@ + component_html(*component, ctx.now_unix),
    decreases *component, 1int,
{
    if let Component::ActionRow { components } = component {
        let ghost start = out@;
        out.append("<div class=\"eg-action-row\">");
        write_children(components, out, ctx);
        out.append("</div>");
        assert(out@ =~= start + component_html(*component, ctx.now_unix));
    }
}

fn write_text_display(component: &Component, out: &mut String, ctx: &RenderCtx)
    requires
        component is TextDisplay,
    ensures
        final(out)@ == old(out)@ + component_html(*component, ctx.now_unix),
{
    if let Component::TextDisplay { content } = component {
        let ghost start = out@;
        out.append("<div class=\"eg-text-display\">");
        let blocks = parse(content.as_str());
        write_blocks(&blocks, out, ctx);
        out.append("</div>");
        assert(out@ =~= start + component_html(*component, ctx.now_unix));
    }
}

fn write_section(component: &Component, out: &mut String, ctx: &RenderCtx)
    requires
        component is Section,
    ensures
        final(out)@ == old(out)@ + component_html(*component, ctx.now_unix),
    decreases *component, 1int,
{
    if let Component::Section { components, accessory } = component {
        let ghost start = out@;
        out.append("<div class=\"eg-section\">");
        out.append("<div class=\"eg-section-text\">");
        write_children(components, out, ctx);
        out.append("</div>");
        write_accessory(accessory, out, ctx);
        out.append("</div>");
        assert(out@ =~= start + component_html(*component, ctx.now_unix));
    }
}

fn write_container(component: &Component, out: &mut String, ctx: &RenderCtx)
    requires
        component is Container,
    ensures
        final(out)@ == old(out)@ + component_html(*component, ctx.now_unix),
    decreases *component, 1int,
{
    if let Component::Container { components, accent_color, spoiler } = component {
        let ghost start = out@;
        out.append("<div class=\"eg-container");
        if *spoiler {
            out.append(" eg-has-spoiler");
        }
        out.append("\">");
        let ghost head = out@;
        if let Some(color) = accent_color {
            out.append("<div class=\"eg-container-bar\" style=\"background:#");
            push_color_hex(out, *color);
            out.append("\"></div>");
        }
        let ghost bar = out@;
        out.append("<div class=\"eg-container-inner\">");
        write_children(components, out, ctx);
        out.append("</div>");
        if *spoiler {
            out.append("<div class=\"spoiler-overlay\"></div>");
        }
        out.append("</div>");
        assert(out@ =~= start + component_html(*component, ctx.now_unix));
    }
}

fn write_accessory(accessory: &Component, out: &mut String, ctx: &RenderCtx)
    ensures
        final(out)@ == old(out)@ + accessory_html(*accessory, ctx.now_unix),
    decreases *accessory, 3int,
{
    let ghost start = out@;
    match accessory {
        Component::Thumbnail { media, description, spoiler } => {
            out.append("<div class=\"eg-accessory\">");
            push_media_figure(media, description, *spoiler, "eg-accessory-thumbnail", out);
            out.append("</div>");
        },
        other => {
            out.append("<div class=\"eg-accessory\">");
            write_component(other, out, ctx);
            out.append("</div>");
        },
    }
    assert(out@ =~= start + accessory_html(*accessory, ctx.now_unix));
}

fn push_button_content(label: &Option<String>, emoji: &Option<Emoji>, out: &mut String)
    ensures
        final(out)@ == old(out)@ + button_content_html(*label, *emoji),
{
    let ghost start = out@;
    if let Some(emoji) = emoji {
        push_emoji(emoji, out);
    }
    if let Some(label) = label {
        out.append("<span>");
        push_esc(out, label.as_str());
        out.append("</span>");
    }
    assert(out@ =~= start + button_content_html(*label, *emoji));
}

fn push_media_figure(
    media: &UnfurledMediaItem,
    description: &Option<String>,
    spoiler: bool,
    class: &str,
    out: &mut String,
)
    ensures
        final(out)@ == old(out)@ + media_figure_html(media.url@, *description, spoiler, class@),
{
    let ghost start = out@;
    out.append("<figure class=\"eg-media");
    if spoiler {
        out.append(" eg-has-spoiler");
    }
    out.append("\">");
    out.append("<img class=\"");
    out.append(class);
    out.append("\" src=\"");
    push_esc(out, media.url.as_str());
    out.append("\" alt=\"");
    match description {
        Some(d) => push_esc(out, d.as_str()),
        None => push_esc(out, ""),
    }
    out.append("\">");
    if spoiler {
        out.append("<div class=\"spoiler-overlay\"></div>");
    }
    out.append("</figure>");
    proof {
        reveal_strlit("");
    }
    assert(out@ =~= start + media_figure_html(media.url@, *description, spoiler, class@));
}

fn push_emoji(emoji: &Emoji, out: &mut String)
    ensures
        final(out)@ == old(out)@ + emoji_html_m(*emoji),
{
    match &emoji.id {
        Some(id) => push_emoji_img(out, emoji.name.as_str(), id.as_str(), emoji.animated),
        None => {
            proof {
                reveal_strlit("");
            }
            push_emoji_img(out, emoji.name.as_str(), "", emoji.animated)
        },
    }
}

} // verus!
