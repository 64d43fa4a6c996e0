use vstd::prelude::*;

use crate::model::Component;
use crate::model::MediaGalleryItem;
use crate::render::components::component_html;
use crate::render::components::gallery_cols;
use crate::render::components::gallery_items_html;
use crate::render::components::media_figure_html;
use crate::render::components::spoiler_overlay;
use crate::render::html::esc_m;
use crate::render::html::law_escaping_is_strict;
use crate::render::html::opt;
use crate::text::decimal;
use crate::text::digit_char;

verus! {

/// `s` opens with `<figure `.
pub open spec fn opens_figure(s: Seq<char>) -> bool {
    &&& s.len() >= 8
    &&& s[0] == '<' && s[1] == 'f' && s[2] == 'i' && s[3] == 'g'
    &&& s[4] == 'u' && s[5] == 'r' && s[6] == 'e' && s[7] == ' '
}

/// How many times `<figure ` occurs in `s`.
pub open spec fn figure_count(s: Seq<char>) -> nat
    decreases s.len(),
{
    if s.len() == 0 {
        0
    } else {
        (if opens_figure(s) {
            1nat
        } else {
            0nat
        }) + figure_count(s.skip(1))
    }
}

/// Every `<` in `s` is followed, within `s`, by something other than `f`.
pub open spec fn no_lt_f(s: Seq<char>) -> bool {
    forall|i: int| 0 <= i < s.len() && #[trigger] s[i] == '<' ==> i + 1 < s.len() && s[i + 1] != 'f'
}

/// No `<figure ` can begin in the last seven characters of `s`.
pub open spec fn tail_safe(s: Seq<char>) -> bool {
    forall|p: int|
        s.len() - 7 <= p < s.len() && 0 <= p && #[trigger] s[p] == '<' ==> p + 1 < s.len() && s[p
            + 1] != 'f'
}

proof fn lemma_no_lt_f_count(s: Seq<char>)
    requires
        no_lt_f(s),
    ensures
        figure_count(s) == 0,
    decreases s.len(),
{
    if s.len() > 0 {
        let t = s.skip(1);
        assert forall|i: int| 0 <= i < t.len() && #[trigger] t[i] == '<' implies i + 1 < t.len()
            && t[i + 1] != 'f' by {
            assert(s[i + 1] == '<');
        }
        lemma_no_lt_f_count(t);
        if s[0] == '<' {
            assert(s[1] != 'f');
        }
    }
}

proof fn lemma_no_lt_f_concat(a: Seq<char>, b: Seq<char>)
    requires
        no_lt_f(a),
        no_lt_f(b),
    ensures
        no_lt_f(a + b),
{
    let s = a + b;
    assert forall|i: int| 0 <= i < s.len() && #[trigger] s[i] == '<' implies i + 1 < s.len() && s[i
        + 1] != 'f' by {
        if i < a.len() {
            assert(a[i] == '<');
            assert(s[i + 1] == a[i + 1]);
        } else {
            assert(b[i - a.len()] == '<');
            assert(s[i + 1] == b[i + 1 - a.len()]);
        }
    }
}

proof fn lemma_count_concat(a: Seq<char>, b: Seq<char>)
    requires
        tail_safe(a),
    ensures
        figure_count(a + b) == figure_count(a) + figure_count(b),
    decreases a.len(),
{
    if a.len() == 0 {
        assert(a + b =~= b);
    } else {
        let s = a + b;
        let t = a.skip(1);
        assert(s.skip(1) =~= t + b);
        assert forall|p: int|
            t.len() - 7 <= p < t.len() && 0 <= p && #[trigger] t[p] == '<' implies p + 1 < t.len()
                && t[p + 1] != 'f' by {
            assert(a[p + 1] == '<');
        }
        lemma_count_concat(t, b);
        if a.len() >= 8 {
            assert(opens_figure(s) == opens_figure(a));
        } else {
            assert(!opens_figure(a));
            if s[0] == '<' {
                assert(a[0] == '<');
                assert(s[1] == a[1]);
            }
        }
    }
}

proof fn lemma_tail_safe_after(a: Seq<char>, z: Seq<char>)
    requires
        z.len() >= 7,
        no_lt_f(z),
        forall|i: int| z.len() - 7 <= i < z.len() ==> #[trigger] z[i] != '<',
    ensures
        tail_safe(a + z),
{
    let s = a + z;
    assert forall|p: int|
        s.len() - 7 <= p < s.len() && 0 <= p && #[trigger] s[p] == '<' implies p + 1 < s.len() && s[p
            + 1] != 'f' by {
        assert(s[p] == z[p - a.len()]);
    }
}

proof fn lemma_no_lt(s: Seq<char>)
    requires
        forall|i: int| 0 <= i < s.len() ==> #[trigger] s[i] != '<',
    ensures
        no_lt_f(s),
{
}

proof fn lemma_decimal_digits(n: nat)
    ensures
        forall|i: int| 0 <= i < decimal(n).len() ==> #[trigger] decimal(n)[i] != '<',
    decreases n,
{
    if n >= 10 {
        lemma_decimal_digits(n / 10);
        let d = decimal(n / 10);
        assert forall|i: int| 0 <= i < decimal(n).len() implies #[trigger] decimal(n)[i] != '<' by {
            if i < d.len() {
                assert(decimal(n)[i] == d[i]);
            } else {
                assert(decimal(n)[i] == digit_char(n % 10));
            }
        }
    } else {
        assert(decimal(n)[0] == digit_char(n));
    }
}

proof fn lemma_escaped_no_lt(s: Seq<char>)
    ensures
        no_lt_f(esc_m(s)),
{
    law_escaping_is_strict(s);
    lemma_no_lt(esc_m(s));
}

/// A media figure holds exactly one `<figure `, as long as its class holds no `<`.
proof fn lemma_one_figure(url: Seq<char>, description: Option<String>, spoiler: bool, class: Seq<char>)
    requires
        forall|i: int| 0 <= i < class.len() ==> #[trigger] class[i] != '<',
    ensures
        figure_count(media_figure_html(url, description, spoiler, class)) == 1,
        tail_safe(media_figure_html(url, description, spoiler, class)),
{
    reveal_strlit("<figure class=\"eg-media");
    reveal_strlit(" eg-has-spoiler");
    reveal_strlit("\">");
    reveal_strlit("<img class=\"");
    reveal_strlit("\" src=\"");
    reveal_strlit("\" alt=\"");
    reveal_strlit("<div class=\"spoiler-overlay\"></div>");
    reveal_strlit("</figure>");
    let head = "<figure class=\"eg-media"@;
    let desc = match description {
        Some(d) => d@,
        None => Seq::empty(),
    };
    let parts = seq![
        opt(spoiler, " eg-has-spoiler"@),
        "\">"@,
        "<img class=\""@,
        class,
        "\" src=\""@,
        esc_m(url),
        "\" alt=\""@,
        esc_m(desc),
        "\">"@,
        opt(spoiler, spoiler_overlay()),
        "</figure>"@,
    ];
    lemma_no_lt(opt(spoiler, " eg-has-spoiler"@));
    lemma_no_lt("\">"@);
    assert(no_lt_f("<img class=\""@));
    lemma_no_lt(class);
    lemma_no_lt("\" src=\""@);
    lemma_escaped_no_lt(url);
    lemma_no_lt("\" alt=\""@);
    lemma_escaped_no_lt(desc);
    assert(no_lt_f(opt(spoiler, spoiler_overlay())));
    assert(no_lt_f("</figure>"@));
    let r1 = opt(spoiler, " eg-has-spoiler"@) + "\">"@;
    lemma_no_lt_f_concat(opt(spoiler, " eg-has-spoiler"@), "\">"@);
    let r2 = r1 + "<img class=\""@;
    lemma_no_lt_f_concat(r1, "<img class=\""@);
    let r3 = r2 + class;
    lemma_no_lt_f_concat(r2, class);
    let r4 = r3 + "\" src=\""@;
    lemma_no_lt_f_concat(r3, "\" src=\""@);
    let r5 = r4 + esc_m(url);
    lemma_no_lt_f_concat(r4, esc_m(url));
    let r6 = r5 + "\" alt=\""@;
    lemma_no_lt_f_concat(r5, "\" alt=\""@);
    let r7 = r6 + esc_m(desc);
    lemma_no_lt_f_concat(r6, esc_m(desc));
    let r8 = r7 + "\">"@;
    lemma_no_lt_f_concat(r7, "\">"@);
    let r9 = r8 + opt(spoiler, spoiler_overlay());
    lemma_no_lt_f_concat(r8, opt(spoiler, spoiler_overlay()));
    let r10 = r9 + "</figure>"@;
    lemma_no_lt_f_concat(r9, "</figure>"@);
    let f = media_figure_html(url, description, spoiler, class);
    assert(f =~= head + r10);
    assert(tail_safe(head));
    lemma_count_concat(head, r10);
    lemma_no_lt_f_count(r10);
    let ht = head.skip(1);
    lemma_no_lt(ht);
    lemma_no_lt_f_count(ht);
    assert(opens_figure(head));
    assert(figure_count(head) == 1);
    lemma_tail_safe_after(r9, "</figure>"@);
    assert(f =~= (head + r9) + "</figure>"@);
    lemma_tail_safe_after(head + r9, "</figure>"@);
}

proof fn lemma_gallery_figures(items: Seq<MediaGalleryItem>)
    ensures
        figure_count(gallery_items_html(items)) == items.len(),
        items.len() > 0 ==> tail_safe(gallery_items_html(items)),
    decreases items.len(),
{
    reveal_strlit("eg-gallery-item");
    if items.len() == 0 {
        assert(gallery_items_html(items) =~= Seq::<char>::empty());
    } else {
        let init = items.drop_last();
        let last = items.last();
        lemma_gallery_figures(init);
        lemma_one_figure(last.media.url@, last.description, last.spoiler, "eg-gallery-item"@);
        let g = gallery_items_html(init);
        let f = media_figure_html(last.media.url@, last.description, last.spoiler, "eg-gallery-item"@);
        if init.len() == 0 {
            assert(g =~= Seq::<char>::empty());
            assert(g + f =~= f);
        } else {
            lemma_count_concat(g, f);
        }
        let s = g + f;
        assert forall|p: int|
            s.len() - 7 <= p < s.len() && 0 <= p && #[trigger] s[p] == '<' implies p + 1 < s.len()
                && s[p + 1] != 'f' by {
            assert(s[p] == f[p - g.len()]);
            assert(s[p + 1] == f[p + 1 - g.len()]);
        }
    }
}

/// A media gallery renders one `<figure ` per item, inside a grid of one to three
/// columns.
pub proof fn law_gallery_has_one_figure_per_item(c: Component, now: i64)
    requires
        c is MediaGallery,
    ensures
        figure_count(component_html(c, now)) == c->MediaGallery_items@.len(),
        component_html(c, now) == "<div class=\"eg-gallery\" style=\"grid-template-columns:repeat("@
            + decimal(gallery_cols(c->MediaGallery_items@.len())) + ",1fr)\">"@ + gallery_items_html(
            c->MediaGallery_items@,
        ) + "</div>"@,
{
    reveal_strlit("<div class=\"eg-gallery\" style=\"grid-template-columns:repeat(");
    reveal_strlit(",1fr)\">");
    reveal_strlit("</div>");
    let items = c->MediaGallery_items@;
    let open = "<div class=\"eg-gallery\" style=\"grid-template-columns:repeat("@;
    let dec = decimal(gallery_cols(items.len()));
    let mid = ",1fr)\">"@;
    let g = gallery_items_html(items);
    let close = "</div>"@;
    assert(no_lt_f(open));
    lemma_decimal_digits(gallery_cols(items.len()));
    lemma_no_lt(dec);
    lemma_no_lt(mid);
    lemma_no_lt_f_concat(open, dec);
    lemma_no_lt_f_concat(open + dec, mid);
    let head = open + dec + mid;
    lemma_no_lt_f_count(head);
    lemma_tail_safe_after(open + dec, mid);
    lemma_gallery_figures(items);
    lemma_count_concat(head, g);
    assert(no_lt_f(close));
    lemma_no_lt_f_count(close);
    if items.len() > 0 {
        assert forall|p: int|
            (head + g).len() - 7 <= p < (head + g).len() && 0 <= p && #[trigger] (head + g)[p] == '<'
                implies p + 1 < (head + g).len() && (head + g)[p + 1] != 'f' by {
            if p >= head.len() {
                assert((head + g)[p] == g[p - head.len()]);
                assert((head + g)[p + 1] == g[p + 1 - head.len()]);
            } else {
                assert((head + g)[p] == head[p]);
                assert((head + g)[p + 1] == head[p + 1]);
            }
        }
    } else {
        assert(head + g =~= head);
    }
    lemma_count_concat(head + g, close);
}

} // verus!
