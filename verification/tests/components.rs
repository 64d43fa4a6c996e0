use pwr_viewgen::model::Component;
use pwr_viewgen::model::MediaGalleryItem;
use pwr_viewgen::model::SelectOption;
use pwr_viewgen::model::UnfurledMediaItem;
use pwr_viewgen::render::components::file_name;
use pwr_viewgen::render::components::write_component;
use pwr_viewgen::render::html::RenderCtx;

fn cat(parts: &[&str]) -> String {
    parts.concat()
}

fn render(component: &Component) -> String {
    let mut out = String::new();
    write_component(component, &mut out, &RenderCtx { now_unix: 0 });
    out
}

fn button(style: u8) -> Component {
    Component::Button {
        style,
        label: Some("B".into()),
        emoji: None,
        url: None,
        disabled: false,
    }
}

#[test]
fn button_styles_map_to_discord_color_classes() {
    assert_eq!(
        render(&button(1)),
        "<button type=\"button\" class=\"eg-btn eg-btn-primary\"><span>B</span></button>"
    );
    assert!(render(&button(2)).contains("eg-btn-secondary"));
    assert!(render(&button(3)).contains("eg-btn-success"));
    assert!(render(&button(4)).contains("eg-btn-danger"));
    assert!(render(&button(5)).contains("eg-btn-link"));
}

#[test]
fn link_button_with_url_becomes_anchor_with_external_glyph() {
    let btn = Component::Button {
        style: 5,
        label: Some("Docs".into()),
        emoji: None,
        url: Some("https://x.test/d".into()),
        disabled: false,
    };
    assert_eq!(
        render(&btn),
        cat(&[
            "<a class=\"eg-btn eg-btn-link\" href=\"https://x.test/d\" ",
            "target=\"_blank\" rel=\"noopener noreferrer\"><span>Docs</span></a>"
        ]),
        "the ↗ glyph comes from CSS ::after"
    );
}

#[test]
fn disabled_link_button_never_renders_as_anchor() {
    let btn = Component::Button {
        style: 5,
        label: Some("Docs".into()),
        emoji: None,
        url: Some("https://x.test/d".into()),
        disabled: true,
    };
    let html = render(&btn);
    assert!(html.starts_with("<button type=\"button\""));
    assert!(html.contains("is-disabled"));
    assert!(html.contains("disabled>"));
    assert!(!html.contains("<a "));
}

#[test]
fn select_menu_closed_shows_placeholder_then_first_option() {
    let menu = |placeholder: Option<&str>| Component::SelectMenu {
        kind: 3,
        placeholder: placeholder.map(str::to_owned),
        disabled: false,
        options: vec![SelectOption {
            label: "First".into(),
            value: None,
            description: None,
            emoji: None,
        }],
    };
    assert_eq!(
        render(&menu(Some("Pick one…"))),
        "<div class=\"eg-select\"><span>Pick one…</span><span class=\"eg-select-chevron\"></span></div>"
    );
    assert!(render(&menu(None)).contains("<span>First</span>"));
}

#[test]
fn file_name_uses_url_basename_without_query_or_fragment() {
    for (url, expected) in [
        ("attachment://notes.pdf", "notes.pdf"),
        ("attachment://notes.pdf?v=2#frag", "notes.pdf"),
        ("https://cdn.example.test/a/b/img.png", "img.png"),
        ("https://cdn.example.test/", "file"),
    ] {
        assert_eq!(file_name(url), expected, "url {url}");
    }
}

#[test]
fn spoilers_cover_media_files_and_containers() {
    let overlay = "<div class=\"spoiler-overlay\"></div>";
    let thumb = Component::Thumbnail {
        media: UnfurledMediaItem {
            url: "https://x.test/a.png".into(),
        },
        description: None,
        spoiler: true,
    };
    let html = render(&thumb);
    assert!(html.contains("eg-has-spoiler") && html.contains(overlay));

    let file = Component::File {
        file: UnfurledMediaItem {
            url: "attachment://f.zip".into(),
        },
        spoiler: true,
    };
    assert!(render(&file).contains(overlay));

    let container = Component::Container {
        components: vec![],
        accent_color: None,
        spoiler: true,
    };
    let html = render(&container);
    assert!(html.contains("eg-has-spoiler") && html.contains(overlay));
}

#[test]
fn separator_divider_and_spacing_variants() {
    let sep = |divider: bool, spacing: Option<u8>| Component::Separator { divider, spacing };
    assert_eq!(
        render(&sep(true, Some(1))),
        "<hr class=\"eg-separator eg-sep-sm\">"
    );
    assert_eq!(
        render(&sep(true, None)),
        "<hr class=\"eg-separator eg-sep-sm\">",
        "absent spacing defaults to small"
    );
    assert_eq!(
        render(&sep(true, Some(2))),
        "<hr class=\"eg-separator eg-sep-lg\">"
    );
    assert_eq!(
        render(&sep(false, Some(1))),
        "<div class=\"eg-sep-spacer-sm\"></div>"
    );
    assert_eq!(
        render(&sep(false, Some(2))),
        "<div class=\"eg-sep-spacer-lg\"></div>",
        "divider false renders an invisible spacer"
    );
}

#[test]
fn media_gallery_grid_columns_capped_at_three() {
    let gallery = |count: usize| Component::MediaGallery {
        items: (0..count)
            .map(|i| MediaGalleryItem {
                media: UnfurledMediaItem {
                    url: format!("https://x.test/{i}.png"),
                },
                description: None,
                spoiler: false,
            })
            .collect(),
    };
    assert!(render(&gallery(2)).contains("repeat(2,1fr)"));
    assert!(render(&gallery(5)).contains("repeat(3,1fr)"), "capped at 3");
}

#[test]
fn text_display_parses_markdown_and_timestamps_flow_through_ctx() {
    let td = Component::TextDisplay {
        content: "# Hi <t:0:f>".into(),
    };
    let mut out = String::new();
    write_component(
        &td,
        &mut out,
        &RenderCtx {
            now_unix: 1_755_878_400,
        },
    );
    assert_eq!(
        out,
        "<div class=\"eg-text-display\"><h1>Hi <span class=\"timestamp\">January 1, 1970 12:00 AM</span></h1></div>",
        "timestamps render inline wherever markdown puts them"
    );
}

#[test]
fn section_places_text_column_before_right_accessory() {
    let section = Component::Section {
        components: vec![Component::TextDisplay {
            content: "body text".into(),
        }],
        accessory: Box::new(Component::Thumbnail {
            media: UnfurledMediaItem {
                url: "https://x.test/t.png".into(),
            },
            description: None,
            spoiler: false,
        }),
    };
    let html = render(&section);
    let text_pos = html.find("eg-section-text").expect("text column");
    let acc_pos = html.find("eg-accessory-thumbnail").expect("accessory");
    assert!(
        text_pos < acc_pos,
        "accessory must come after the text column"
    );
}

#[test]
fn container_has_accent_bar_when_color_present() {
    let container = Component::Container {
        components: vec![],
        accent_color: Some(0x58_65_f2),
        spoiler: false,
    };
    let html = render(&container);
    assert!(html.contains("style=\"background:#5865f2\""));

    let bare = Component::Container {
        components: vec![],
        accent_color: None,
        spoiler: false,
    };
    assert!(!render(&bare).contains("eg-container-bar"));
}

#[test]
fn file_names_never_hold_separators() {
    for url in ["", "a/b/", "x?y/z", "#frag/x", "p/q?r#s/t", "a b/c d.txt"] {
        let name = file_name(url);
        assert!(!name.is_empty(), "url {url:?}");
        assert!(!name.contains('/') && !name.contains('?') && !name.contains('#'));
    }
    assert_eq!(file_name("a b/c d.txt"), "c d.txt");
    assert_eq!(file_name("x?y/z"), "x");
}

#[test]
fn empty_gallery_still_has_one_column() {
    let gallery = Component::MediaGallery { items: vec![] };
    assert_eq!(
        render(&gallery),
        "<div class=\"eg-gallery\" style=\"grid-template-columns:repeat(1,1fr)\"></div>"
    );
}

#[test]
fn button_with_emoji_and_escaped_label() {
    let btn = Component::Button {
        style: 9,
        label: Some("a<b".into()),
        emoji: Some(pwr_viewgen::model::Emoji {
            id: None,
            name: "x\"y".into(),
            animated: true,
        }),
        url: None,
        disabled: true,
    };
    assert_eq!(
        render(&btn),
        cat(&[
            "<button type=\"button\" class=\"eg-btn eg-btn-link is-disabled\" disabled>",
            "<img class=\"emoji\" alt=\":x&quot;y:\" src=\"https://cdn.discordapp.com/emojis/.gif\">",
            "<span>a&lt;b</span></button>"
        ])
    );
}

#[test]
fn select_without_placeholder_or_options_shows_nothing() {
    let menu = Component::SelectMenu {
        kind: 5,
        placeholder: None,
        disabled: false,
        options: vec![],
    };
    assert_eq!(
        render(&menu),
        "<div class=\"eg-select\"><span></span><span class=\"eg-select-chevron\"></span></div>"
    );
}

#[test]
fn premium_button_renders_like_a_link_button() {
    assert_eq!(render(&button(6)), render(&button(5)));
    assert_eq!(
        render(&button(6)),
        "<button type=\"button\" class=\"eg-btn eg-btn-link\"><span>B</span></button>"
    );
}

#[test]
fn every_select_kind_renders_the_same_closed_menu() {
    let menu = |kind: u8, disabled: bool| Component::SelectMenu {
        kind,
        placeholder: Some("who?".into()),
        disabled,
        options: vec![],
    };
    let string_select = render(&menu(3, false));
    for kind in [5, 6, 7, 8] {
        assert_eq!(render(&menu(kind, kind % 2 == 0)), string_select);
    }
}

#[test]
fn gallery_renders_one_figure_per_item() {
    for count in [0usize, 1, 2, 3, 5, 10] {
        let gallery = Component::MediaGallery {
            items: (0..count)
                .map(|i| MediaGalleryItem {
                    media: UnfurledMediaItem {
                        url: format!("https://x.test/<figure {i}>.png"),
                    },
                    description: Some("<figure >".into()),
                    spoiler: i % 2 == 0,
                })
                .collect(),
        };
        let html = render(&gallery);
        assert_eq!(html.matches("<figure ").count(), count);
        let cols = count.clamp(1, 3);
        assert!(html.starts_with(&format!(
            "<div class=\"eg-gallery\" style=\"grid-template-columns:repeat({cols},1fr)\">"
        )));
        assert!(html.ends_with("</div>"));
    }
}
