use pwr_viewgen::markdown::parse;
use pwr_viewgen::model::Embed;
use pwr_viewgen::model::Field;
use pwr_viewgen::render::html::esc;
use pwr_viewgen::render::html::render_fields;
use pwr_viewgen::render::html::write_blocks;
use pwr_viewgen::render::html::write_embed;
use pwr_viewgen::render::html::RenderCtx;

fn cat(parts: &[&str]) -> String {
    parts.concat()
}

const NOW: i64 = 1_755_878_400;

fn render_inline(input: &str) -> String {
    let blocks = parse(input);
    let mut out = String::new();
    write_blocks(&blocks, &mut out, &RenderCtx { now_unix: NOW });
    out
}

#[test]
fn strict_escaping_covers_all_five_characters() {
    assert_eq!(esc("&<>\"'"), "&amp;&lt;&gt;&quot;&#39;");
    assert_eq!(esc("plain"), "plain");
}

#[test]
fn emphasis_and_code_map_to_expected_tags() {
    assert_eq!(render_inline("**b**"), "<p><strong>b</strong></p>");
    assert_eq!(render_inline("*i*"), "<p><em>i</em></p>");
    assert_eq!(render_inline("__u__"), "<p><u>u</u></p>");
    assert_eq!(render_inline("~~s~~"), "<p><s>s</s></p>");
    assert_eq!(
        render_inline("||x||"),
        "<p><span class=\"spoiler\">x</span></p>"
    );
    assert_eq!(render_inline("`c`"), "<p><code>c</code></p>");
    assert_eq!(
        render_inline("<script>alert(1)</script>"),
        "<p>&lt;script&gt;alert(1)&lt;/script&gt;</p>"
    );
}

#[test]
fn links_open_in_new_tab_with_noopener() {
    assert_eq!(
        render_inline("[go](https://x.test)"),
        "<p><a href=\"https://x.test\" target=\"_blank\" rel=\"noopener noreferrer\">go</a></p>"
    );
    assert_eq!(
        render_inline("https://x.test"),
        "<p><a href=\"https://x.test\" target=\"_blank\" rel=\"noopener noreferrer\">https://x.test</a></p>"
    );
}

#[test]
fn custom_emoji_becomes_cdn_image_with_gif_or_png() {
    assert_eq!(
        render_inline("<a:dance:42>"),
        "<p><img class=\"emoji\" alt=\":dance:\" src=\"https://cdn.discordapp.com/emojis/42.gif\"></p>"
    );
    assert_eq!(
        render_inline("<:tada:7>"),
        "<p><img class=\"emoji\" alt=\":tada:\" src=\"https://cdn.discordapp.com/emojis/7.png\"></p>"
    );
}

#[test]
fn mentions_render_as_pills() {
    assert_eq!(
        render_inline("<@123>"),
        "<p><span class=\"mention\">@123</span></p>"
    );
    assert_eq!(
        render_inline("<@&9>"),
        "<p><span class=\"mention\">@9</span></p>"
    );
    assert_eq!(
        render_inline("<#5>"),
        "<p><span class=\"mention\">#5</span></p>"
    );
    assert_eq!(
        render_inline("@everyone @here"),
        "<p><span class=\"mention\">@everyone</span> <span class=\"mention\">@here</span></p>"
    );
}

#[test]
fn timestamp_is_formatted_with_injected_clock() {
    // 1755878400 = Fri Aug 22 2025 16:00:00 UTC (verified via date(1))
    assert_eq!(
        render_inline("<t:0:f>"),
        "<p><span class=\"timestamp\">January 1, 1970 12:00 AM</span></p>"
    );
    assert_eq!(
        render_inline("<t:1755870000:r>"),
        "<p>&lt;t:1755870000:r&gt;</p>",
        "lowercase r is not a style; the rule declines and text remains"
    );
    assert_eq!(
        render_inline("<t:1755871200:R>"),
        "<p><span class=\"timestamp\">2 hours ago</span></p>",
        "relative style uses the injected now"
    );
}

#[test]
fn block_structures_render_discord_chrome() {
    assert_eq!(render_inline("# Title\nbody"), "<h1>Title</h1><p>body</p>");
    assert_eq!(render_inline("- a\n- b"), "<ul><li>a</li><li>b</li></ul>");
    assert_eq!(render_inline("1. x\n2. y"), "<ol><li>x</li><li>y</li></ol>");
    assert_eq!(
        render_inline("-# note"),
        "<div class=\"eg-subtext\">note</div>"
    );
    assert_eq!(
        render_inline("> quoted"),
        "<blockquote class=\"eg-quote\"><p>quoted</p></blockquote>"
    );
    assert_eq!(
        render_inline("```\na<b\n```"),
        "<pre><code>a&lt;b</code></pre>",
        "code bodies are escaped but not markdown-parsed"
    );
}

#[test]
fn field_grid_chunks_contiguous_inline_runs_by_three() {
    let field = |name: &str, inline: bool| Field {
        name: name.to_owned(),
        value: "v".to_owned(),
        inline,
    };
    let fields = vec![
        field("a", true),
        field("b", true),
        field("c", true),
        field("d", true),
        field("full", false),
        field("e", true),
    ];
    let mut out = String::new();
    render_fields(&fields, &mut out);
    assert_eq!(
        out,
        cat(&[
            "<div class=\"eg-fields\">",
            "<div class=\"eg-field-group\" style=\"grid-template-columns:repeat(3,1fr)\">",
            "<div class=\"eg-field\"><div class=\"eg-field-name\">a</div><div class=\"eg-field-value\">v</div></div>",
            "<div class=\"eg-field\"><div class=\"eg-field-name\">b</div><div class=\"eg-field-value\">v</div></div>",
            "<div class=\"eg-field\"><div class=\"eg-field-name\">c</div><div class=\"eg-field-value\">v</div></div>",
            "</div>",
            "<div class=\"eg-field-group\" style=\"grid-template-columns:repeat(1,1fr)\">",
            "<div class=\"eg-field\"><div class=\"eg-field-name\">d</div><div class=\"eg-field-value\">v</div></div>",
            "</div>",
            "<div class=\"eg-field-group\" style=\"grid-template-columns:repeat(1,1fr)\">",
            "<div class=\"eg-field\"><div class=\"eg-field-name\">full</div><div class=\"eg-field-value\">v</div></div>",
            "</div>",
            "<div class=\"eg-field-group\" style=\"grid-template-columns:repeat(1,1fr)\">",
            "<div class=\"eg-field\"><div class=\"eg-field-name\">e</div><div class=\"eg-field-value\">v</div></div>",
            "</div>",
            "</div>"
        ])
    );
}

#[test]
fn embed_color_renders_as_hex_bar_only_when_set() {
    let colored = Embed {
        color: Some(0x58_65_f2),
        ..Embed::default()
    };
    let mut out = String::new();
    write_embed(&colored, &mut out, &RenderCtx { now_unix: NOW });
    assert!(
        out.contains("<div class=\"eg-embed-bar\" style=\"background:#5865f2\"></div>"),
        "got: {out}"
    );

    let bare = Embed::default();
    let mut out = String::new();
    write_embed(&bare, &mut out, &RenderCtx { now_unix: NOW });
    assert!(!out.contains("eg-embed-bar"), "no bar without color: {out}");
}

#[test]
fn embed_timestamp_formats_like_the_timestamp_markdown_rule() {
    let pinned = Embed {
        timestamp: Some("2025-08-22T12:00:00.000Z".to_owned()),
        ..Embed::default()
    };
    let mut out = String::new();
    write_embed(&pinned, &mut out, &RenderCtx { now_unix: NOW });
    assert!(
        out.contains(
            "<div class=\"eg-footer\"><span>&bull; August 22, 2025 12:00 PM</span></div>"
        ),
        "got: {out}"
    );
}

#[test]
fn unparseable_embed_timestamp_falls_back_to_raw_text() {
    let odd = Embed {
        timestamp: Some("not-a-date".to_owned()),
        ..Embed::default()
    };
    let mut out = String::new();
    write_embed(&odd, &mut out, &RenderCtx { now_unix: NOW });
    assert!(out.contains("<span>&bull; not-a-date</span>"), "got: {out}");
}

#[test]
fn escaped_text_keeps_no_raw_markup_characters() {
    let escaped = esc("<a href='x'>\"&amp;\"</a>");
    assert_eq!(
        escaped,
        "&lt;a href=&#39;x&#39;&gt;&quot;&amp;amp;&quot;&lt;/a&gt;"
    );
    for c in ['<', '>', '"', '\''] {
        assert!(!escaped.contains(c));
    }
    assert_eq!(esc("plain text, no specials"), "plain text, no specials");
    assert_eq!(
        format!("{}{}", esc("a<"), esc(">b")),
        esc("a<>b"),
        "escaping distributes over concatenation"
    );
}

#[test]
fn field_rows_hold_one_to_three_fields() {
    let field = |name: &str, inline: bool| Field {
        name: name.to_owned(),
        value: "v".to_owned(),
        inline,
    };
    let fields = vec![field("a", true), field("b", true), field("x", false), field("c", true)];
    let mut out = String::new();
    render_fields(&fields, &mut out);
    assert_eq!(out.matches("repeat(2,1fr)").count(), 1);
    assert_eq!(out.matches("repeat(1,1fr)").count(), 2);
    let mut empty = String::new();
    render_fields(&vec![], &mut empty);
    assert_eq!(empty, "<div class=\"eg-fields\"></div>");
}

#[test]
fn code_block_language_becomes_a_class() {
    assert_eq!(
        render_inline("```rust\nlet x = 1;\n```"),
        "<pre><code class=\"language-rust\">let x = 1;</code></pre>"
    );
}

fn unescape(s: &str) -> String {
    let mut out = String::new();
    let mut rest = s;
    while let Some(c) = rest.chars().next() {
        let entities = [("&amp;", '&'), ("&lt;", '<'), ("&gt;", '>'), ("&quot;", '"'), ("&#39;", '\'')];
        if let Some((entity, plain)) = entities.iter().find(|(e, _)| rest.starts_with(e)) {
            out.push(*plain);
            rest = &rest[entity.len()..];
        } else {
            out.push(c);
            rest = &rest[c.len_utf8()..];
        }
    }
    out
}

#[test]
fn unescaping_gives_back_the_escaped_text() {
    for text in ["&amp;", "<a href='x'>", "\"q\" & 'r'", "plain", "&#39;&lt;", "é<ü>"] {
        assert_eq!(unescape(&esc(text)), text);
    }
}
