use pwr_viewgen::model::Author;
use pwr_viewgen::model::Component;
use pwr_viewgen::model::Embed;
use pwr_viewgen::model::EmbedImage;
use pwr_viewgen::model::Field;
use pwr_viewgen::model::Footer;
use pwr_viewgen::model::MediaGalleryItem;
use pwr_viewgen::model::Message;
use pwr_viewgen::model::SelectOption;
use pwr_viewgen::model::UnfurledMediaItem;
use pwr_viewgen::render::render_html;
use pwr_viewgen::render::render_message_html;

fn cat(parts: &[&str]) -> String {
    parts.concat()
}

const NOW: i64 = 1_755_878_400;

fn s(text: &str) -> String {
    text.to_owned()
}

fn simple() -> Message {
    Message {
        content: s("**gm** world 🌍"),
        ..Message::default()
    }
}

fn full() -> Message {
    let field = |name: &str, value: &str, inline: bool| Field {
        name: s(name),
        value: s(value),
        inline,
    };
    Message {
        content: s("Deploy **finished**"),
        username: Some(s("Notifier")),
        avatar_url: Some(s("https://cdn.example.test/avatar.png")),
        embeds: vec![Embed {
            title: Some(s("Release notes")),
            url: Some(s("https://example.test/rel/7")),
            description: Some(s("All systems *nominal*")),
            color: Some(3066993),
            author: Some(Author {
                name: s("Ada"),
                url: None,
                icon_url: Some(s("https://cdn.example.test/ada.png")),
            }),
            thumbnail: Some(EmbedImage {
                url: s("https://cdn.example.test/thumb.png"),
            }),
            image: Some(EmbedImage {
                url: s("https://cdn.example.test/chart.png"),
            }),
            footer: Some(Footer {
                text: s("CI bot"),
                icon_url: Some(s("https://cdn.example.test/ci.png")),
            }),
            timestamp: Some(s("2025-08-22T12:00:00.000Z")),
            fields: vec![
                field("Branch", "main", true),
                field("Duration", "3m 12s", true),
                field("Commit", "abc1234", true),
                field("Notes", "see <docs>", false),
            ],
        }],
        ..Message::default()
    }
}

fn button(style: u8, label: &str, disabled: bool, url: Option<&str>) -> Component {
    Component::Button {
        style,
        label: Some(s(label)),
        emoji: None,
        url: url.map(s),
        disabled,
    }
}

fn components_v1() -> Message {
    let option = |label: &str| SelectOption {
        label: s(label),
        value: None,
        description: None,
        emoji: None,
    };
    Message {
        content: s("Pick one:"),
        components: vec![
            Component::ActionRow {
                components: vec![
                    button(1, "Primary", false, None),
                    button(2, "Grey", false, None),
                    button(3, "Green", false, None),
                    button(4, "Red", true, None),
                    button(5, "Docs", false, Some("https://example.test/docs")),
                ],
            },
            Component::ActionRow {
                components: vec![Component::SelectMenu {
                    kind: 3,
                    placeholder: Some(s("Choose…")),
                    disabled: false,
                    options: vec![option("Red"), option("Blue")],
                }],
            },
        ],
        ..Message::default()
    }
}

fn text_display(content: &str) -> Component {
    Component::TextDisplay { content: s(content) }
}

fn media(url: &str) -> UnfurledMediaItem {
    UnfurledMediaItem { url: s(url) }
}

fn components_v2() -> Message {
    let item = |url: &str| MediaGalleryItem {
        media: media(url),
        description: None,
        spoiler: false,
    };
    Message {
        flags: Some(32768),
        components: vec![
            text_display("# Release notes\n- one\n- two"),
            Component::Separator {
                divider: true,
                spacing: Some(2),
            },
            Component::Section {
                components: vec![text_display("section *body*")],
                accessory: Box::new(Component::Thumbnail {
                    media: media("https://cdn.example.test/thumb.png"),
                    description: None,
                    spoiler: true,
                }),
            },
            Component::MediaGallery {
                items: vec![
                    item("https://cdn.example.test/a.png"),
                    item("https://cdn.example.test/b.png"),
                ],
            },
            Component::File {
                file: media("attachment://notes.pdf?v=2"),
                spoiler: false,
            },
            Component::Container {
                accent_color: Some(8912896),
                spoiler: false,
                components: vec![
                    text_display("inside **container**"),
                    Component::ActionRow {
                        components: vec![button(3, "OK", false, None)],
                    },
                    Component::Separator {
                        divider: false,
                        spacing: Some(1),
                    },
                ],
            },
        ],
        ..Message::default()
    }
}

#[test]
fn golden_simple() {
    let msg = simple();
    assert_eq!(
        render_message_html(&msg, NOW),
        cat(&[
            r#"<div id="wrap">"#,
            r#"<div class="eg-body">"#,
            r#"<div class="eg-content"><p><strong>gm</strong> world 🌍</p></div>"#,
            r#"</div>"#,
            r#"</div>"#
        ])
    );
}

#[test]
fn golden_full_embed() {
    let msg = full();
    assert_eq!(
        render_message_html(&msg, NOW),
        cat(&[
            r#"<div id="wrap">"#,
            r#"<div class="eg-header">"#,
            r#"<img class="eg-avatar" src="https://cdn.example.test/avatar.png" alt="">"#,
            r#"<span class="eg-username">Notifier</span>"#,
            r#"</div>"#,
            r#"<div class="eg-body">"#,
            r#"<div class="eg-content"><p>Deploy <strong>finished</strong></p></div>"#,
            r#"<div class="eg-embeds">"#,
            r#"<div class="eg-embed">"#,
            r#"<div class="eg-embed-bar" style="background:#2ecc71"></div>"#,
            r#"<div class="eg-embed-inner">"#,
            r#"<img class="eg-thumbnail" src="https://cdn.example.test/thumb.png" alt="">"#,
            r#"<div class="eg-author-row">"#,
            r#"<img class="eg-author-icon" src="https://cdn.example.test/ada.png" alt="">"#,
            r#"<span class="eg-author-name">Ada</span>"#,
            r#"</div>"#,
            r#"<div class="eg-title"><a href="https://example.test/rel/7" target="_blank" rel="noopener noreferrer"><p>Release notes</p></a></div>"#,
            r#"<div class="eg-description"><p>All systems <em>nominal</em></p></div>"#,
            r#"<div class="eg-fields">"#,
            r#"<div class="eg-field-group" style="grid-template-columns:repeat(3,1fr)">"#,
            r#"<div class="eg-field"><div class="eg-field-name">Branch</div><div class="eg-field-value">main</div></div>"#,
            r#"<div class="eg-field"><div class="eg-field-name">Duration</div><div class="eg-field-value">3m 12s</div></div>"#,
            r#"<div class="eg-field"><div class="eg-field-name">Commit</div><div class="eg-field-value">abc1234</div></div>"#,
            r#"</div>"#,
            r#"<div class="eg-field-group" style="grid-template-columns:repeat(1,1fr)">"#,
            r#"<div class="eg-field"><div class="eg-field-name">Notes</div><div class="eg-field-value">see &lt;docs&gt;</div></div>"#,
            r#"</div>"#,
            r#"</div>"#,
            r#"<img class="eg-image" src="https://cdn.example.test/chart.png" alt="">"#,
            r#"<div class="eg-footer">"#,
            r#"<img class="eg-footer-icon" src="https://cdn.example.test/ci.png" alt="">"#,
            r#"<span>CI bot</span>"#,
            r#"<span>&bull; August 22, 2025 12:00 PM</span>"#,
            r#"</div>"#,
            r#"</div>"#,
            r#"</div>"#,
            r#"</div>"#,
            r#"</div>"#,
            r#"</div>"#
        ])
    );
}

#[test]
fn golden_components_v1_buttons_and_select() {
    let msg = components_v1();
    assert_eq!(
        render_message_html(&msg, NOW),
        cat(&[
            r#"<div id="wrap">"#,
            r#"<div class="eg-body">"#,
            r#"<div class="eg-content"><p>Pick one:</p></div>"#,
            r#"<div class="eg-components">"#,
            r#"<div class="eg-action-row">"#,
            r#"<button type="button" class="eg-btn eg-btn-primary"><span>Primary</span></button>"#,
            r#"<button type="button" class="eg-btn eg-btn-secondary"><span>Grey</span></button>"#,
            r#"<button type="button" class="eg-btn eg-btn-success"><span>Green</span></button>"#,
            r#"<button type="button" class="eg-btn eg-btn-danger is-disabled" disabled><span>Red</span></button>"#,
            r#"<a class="eg-btn eg-btn-link" href="https://example.test/docs" target="_blank" rel="noopener noreferrer"><span>Docs</span></a>"#,
            r#"</div>"#,
            r#"<div class="eg-action-row">"#,
            r#"<div class="eg-select"><span>Choose…</span><span class="eg-select-chevron"></span></div>"#,
            r#"</div>"#,
            r#"</div>"#,
            r#"</div>"#,
            r#"</div>"#
        ])
    );
}

#[test]
fn golden_components_v2_renders_all_container_children() {
    let msg = components_v2();
    assert_eq!(
        render_message_html(&msg, NOW),
        cat(&[
            r#"<div id="wrap">"#,
            r#"<div class="eg-body">"#,
            r#"<div class="eg-components">"#,
            r#"<div class="eg-text-display"><h1>Release notes</h1><ul><li>one</li><li>two</li></ul></div>"#,
            r#"<hr class="eg-separator eg-sep-lg">"#,
            r#"<div class="eg-section">"#,
            r#"<div class="eg-section-text">"#,
            r#"<div class="eg-text-display"><p>section <em>body</em></p></div>"#,
            r#"</div>"#,
            r#"<div class="eg-accessory">"#,
            r#"<figure class="eg-media eg-has-spoiler">"#,
            r#"<img class="eg-accessory-thumbnail" src="https://cdn.example.test/thumb.png" alt="">"#,
            r#"<div class="spoiler-overlay"></div>"#,
            r#"</figure>"#,
            r#"</div>"#,
            r#"</div>"#,
            r#"<div class="eg-gallery" style="grid-template-columns:repeat(2,1fr)">"#,
            r#"<figure class="eg-media"><img class="eg-gallery-item" src="https://cdn.example.test/a.png" alt=""></figure>"#,
            r#"<figure class="eg-media"><img class="eg-gallery-item" src="https://cdn.example.test/b.png" alt=""></figure>"#,
            r#"</div>"#,
            r##"<div class="eg-file-wrap"><a class="eg-file-card" href="#"><span class="eg-file-name">notes.pdf</span><span class="eg-file-download"></span></a></div>"##,
            r#"<div class="eg-container">"#,
            r#"<div class="eg-container-bar" style="background:#880000"></div>"#,
            r#"<div class="eg-container-inner">"#,
            r#"<div class="eg-text-display"><p>inside <strong>container</strong></p></div>"#,
            r#"<div class="eg-action-row">"#,
            r#"<button type="button" class="eg-btn eg-btn-success"><span>OK</span></button>"#,
            r#"</div>"#,
            r#"<div class="eg-sep-spacer-sm"></div>"#,
            r#"</div>"#,
            r#"</div>"#,
            r#"</div>"#,
            r#"</div>"#,
            r#"</div>"#
        ])
    );
}

#[test]
fn v2_flag_suppresses_content_and_embed_chrome_even_when_present() {
    let msg = Message {
        flags: Some(32768),
        content: s("should vanish"),
        embeds: vec![Embed {
            title: Some(s("vanish too")),
            ..Embed::default()
        }],
        components: vec![text_display("kept")],
        ..Message::default()
    };
    let html = render_message_html(&msg, NOW);
    assert_eq!(
        html,
        cat(&[
            r#"<div id="wrap">"#,
            r#"<div class="eg-body">"#,
            r#"<div class="eg-components">"#,
            r#"<div class="eg-text-display"><p>kept</p></div>"#,
            r#"</div>"#,
            r#"</div>"#,
            r#"</div>"#
        ])
    );
}

#[test]
fn full_document_has_doctype_and_stylesheet_once() {
    let msg = simple();
    let html = render_html(&msg, NOW);
    assert!(html.starts_with("<!DOCTYPE html>"));
    assert_eq!(html.matches("<style>").count(), 1);
    assert!(html.contains("</body></html>"));
}
