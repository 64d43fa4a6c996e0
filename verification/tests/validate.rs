use pwr_viewgen::model::Component;
use pwr_viewgen::model::Embed;
use pwr_viewgen::model::Field;
use pwr_viewgen::model::Footer;
use pwr_viewgen::model::MediaGalleryItem;
use pwr_viewgen::model::Message;
use pwr_viewgen::model::UnfurledMediaItem;
use pwr_viewgen::validate::text_display_char_count;
use pwr_viewgen::validate::validate;
use pwr_viewgen::validate::ValidationError;
use pwr_viewgen::validate::MAX_COMBINED_TEXT_CHARS;
use pwr_viewgen::validate::MAX_CONTENT_CHARS;
use pwr_viewgen::validate::MAX_GALLERY_ITEMS;
use pwr_viewgen::validate::MAX_TEXT_DISPLAY_CHARS;

fn plain_msg() -> Message {
    Message {
        content: "hello".into(),
        ..Message::default()
    }
}

fn sized_string(len: usize, ch: char) -> String {
    std::iter::repeat_n(ch, len).collect()
}

fn embed_with_title(len: usize) -> Embed {
    Embed {
        title: Some(sized_string(len, 'x')),
        ..Embed::default()
    }
}

#[test]
fn valid_message_with_embed_and_components_passes() {
    let msg = Message {
        content: "hello".into(),
        username: Some("Bot".into()),
        embeds: vec![Embed {
            title: Some("t".into()),
            description: Some("d".into()),
            color: Some(16711680),
            footer: Some(Footer {
                text: "ft".into(),
                icon_url: None,
            }),
            author: Some(pwr_viewgen::model::Author {
                name: "ada".into(),
                url: None,
                icon_url: None,
            }),
            fields: vec![Field {
                name: "k".into(),
                value: "v".into(),
                inline: true,
            }],
            ..Embed::default()
        }],
        components: vec![Component::ActionRow {
            components: vec![Component::Button {
                style: 3,
                label: Some("go".into()),
                emoji: None,
                url: None,
                disabled: false,
            }],
        }],
        ..Message::default()
    };
    assert_eq!(validate(&msg), Ok(()));
}

#[test]
fn all_exact_limits_pass() {
    let mut msg = plain_msg();
    msg.content = sized_string(2000, 'a');
    msg.embeds = vec![Embed {
        title: Some(sized_string(256, 't')),
        description: Some(sized_string(4096, 'd')),
        color: Some(0xFF_FFFF),
        footer: Some(Footer {
            text: sized_string(2048, 'f'),
            icon_url: None,
        }),
        author: Some(pwr_viewgen::model::Author {
            name: sized_string(256, 'n'),
            url: None,
            icon_url: None,
        }),
        fields: (0..25)
            .map(|_| Field {
                name: sized_string(256, 'n'),
                value: sized_string(1024, 'v'),
                inline: false,
            })
            .collect(),
        ..Embed::default()
    }];
    msg.components = vec![Component::ActionRow {
        components: (1..=5)
            .map(|style| Component::Button {
                style,
                label: Some("b".into()),
                emoji: None,
                url: None,
                disabled: false,
            })
            .collect(),
    }];
    assert_eq!(validate(&msg), Ok(()));
}

#[test]
fn content_over_2000_is_rejected_at_content_path() {
    let mut msg = plain_msg();
    msg.content = sized_string(2001, 'a');
    assert_eq!(
        validate(&msg),
        Err(ValidationError::TooLong {
            path: "content".into(),
            limit: 2000,
            actual: 2001
        })
    );
}

#[test]
fn eleven_embeds_are_rejected_at_embeds_path() {
    let mut msg = plain_msg();
    msg.embeds = vec![Embed::default(); 11];
    assert_eq!(
        validate(&msg),
        Err(ValidationError::TooManyItems {
            path: "embeds".into(),
            limit: 10,
            actual: 11
        })
    );
}

#[test]
fn oversized_title_reports_embed_indexed_path() {
    let mut msg = plain_msg();
    msg.embeds = vec![embed_with_title(257)];
    assert_eq!(
        validate(&msg),
        Err(ValidationError::TooLong {
            path: "embeds[0].title".into(),
            limit: 256,
            actual: 257
        })
    );
}

#[test]
fn oversized_field_name_reports_ticket_example_path() {
    let mut msg = plain_msg();
    msg.embeds = vec![Embed::default(); 3];
    msg.embeds[2].fields = vec![Field {
        name: sized_string(257, 'n'),
        value: "v".into(),
        inline: false,
    }];
    assert_eq!(
        validate(&msg),
        Err(ValidationError::TooLong {
            path: "embeds[2].fields[0].name".into(),
            limit: 256,
            actual: 257
        })
    );
}

#[test]
fn oversized_field_value_reports_value_path() {
    let mut msg = plain_msg();
    msg.embeds = vec![Embed {
        fields: vec![Field {
            name: "n".into(),
            value: sized_string(1025, 'v'),
            inline: false,
        }],
        ..Embed::default()
    }];
    assert_eq!(
        validate(&msg),
        Err(ValidationError::TooLong {
            path: "embeds[0].fields[0].value".into(),
            limit: 1024,
            actual: 1025
        })
    );
}

#[test]
fn twenty_six_fields_are_rejected_at_fields_path() {
    let mut msg = plain_msg();
    msg.embeds = vec![Embed {
        fields: vec![
            Field {
                name: "n".into(),
                value: "v".into(),
                inline: false
            };
            26
        ],
        ..Embed::default()
    }];
    assert_eq!(
        validate(&msg),
        Err(ValidationError::TooManyItems {
            path: "embeds[0].fields".into(),
            limit: 25,
            actual: 26
        })
    );
}

#[test]
fn oversized_footer_text_reports_footer_path() {
    let mut msg = plain_msg();
    msg.embeds = vec![Embed {
        footer: Some(Footer {
            text: sized_string(2049, 'f'),
            icon_url: None,
        }),
        ..Embed::default()
    }];
    assert_eq!(
        validate(&msg),
        Err(ValidationError::TooLong {
            path: "embeds[0].footer.text".into(),
            limit: 2048,
            actual: 2049
        })
    );
}

#[test]
fn oversized_author_name_reports_author_path() {
    let mut msg = plain_msg();
    msg.embeds = vec![Embed {
        author: Some(pwr_viewgen::model::Author {
            name: sized_string(257, 'n'),
            url: None,
            icon_url: None,
        }),
        ..Embed::default()
    }];
    assert_eq!(
        validate(&msg),
        Err(ValidationError::TooLong {
            path: "embeds[0].author.name".into(),
            limit: 256,
            actual: 257
        })
    );
}

#[test]
fn color_out_of_range_is_rejected_at_color_path() {
    for color in [-1, 0x100_0000] {
        let mut msg = plain_msg();
        msg.embeds = vec![Embed {
            color: Some(color),
            ..Embed::default()
        }];
        assert_eq!(
            validate(&msg),
            Err(ValidationError::OutOfRange {
                path: "embeds[0].color".into(),
                min: 0,
                max: 0xFF_FFFF,
                actual: color
            }),
            "color {color} should be rejected"
        );
    }
}

#[test]
fn v2_flag_forbids_nonempty_content() {
    let mut msg = plain_msg();
    msg.flags = Some(1 << 15);
    msg.components = vec![text_display("hi")];
    assert_eq!(
        validate(&msg),
        Err(ValidationError::ForbiddenWithComponentsV2 {
            path: "content".into()
        })
    );
}

#[test]
fn v2_flag_forbids_embeds() {
    let mut msg = plain_msg();
    msg.flags = Some(1 << 15);
    msg.content.clear();
    msg.embeds = vec![Embed::default()];
    msg.components = vec![text_display("hi")];
    assert_eq!(
        validate(&msg),
        Err(ValidationError::ForbiddenWithComponentsV2 {
            path: "embeds".into()
        })
    );
}

#[test]
fn v2_flag_requires_at_least_one_component() {
    let mut msg = plain_msg();
    msg.flags = Some(1 << 15);
    msg.content.clear();
    assert_eq!(
        validate(&msg),
        Err(ValidationError::MissingComponentsForV2 {
            path: "components".into()
        })
    );
}

#[test]
fn action_row_over_five_children_is_rejected_with_path() {
    let mut msg = plain_msg();
    msg.components = vec![Component::Container {
        components: vec![Component::ActionRow {
            components: (0..6).map(|_| button(1)).collect(),
        }],
        accent_color: None,
        spoiler: false,
    }];
    assert_eq!(
        validate(&msg),
        Err(ValidationError::ActionRowTooLarge {
            path: "components[0].components[0]".into(),
            limit: 5,
            actual: 6
        })
    );
}

#[test]
fn button_style_outside_1_to_5_is_rejected() {
    let mut msg = plain_msg();
    msg.components = vec![Component::ActionRow {
        components: vec![button(0)],
    }];
    assert_eq!(
        validate(&msg),
        Err(ValidationError::OutOfRange {
            path: "components[0].components[0].style".into(),
            min: 1,
            max: 5,
            actual: 0
        })
    );
}

#[test]
fn text_display_at_exact_char_limit_passes() {
    let msg = v2_message(vec![text_display(&sized_string(
        MAX_TEXT_DISPLAY_CHARS,
        'x',
    ))]);
    assert_eq!(validate(&msg), Ok(()));
}

#[test]
fn oversized_text_display_reports_component_content_path() {
    let msg = v2_message(vec![text_display(&sized_string(
        MAX_TEXT_DISPLAY_CHARS + 1,
        'x',
    ))]);
    assert_eq!(
        validate(&msg),
        Err(ValidationError::TooLong {
            path: "components[0].content".into(),
            limit: MAX_TEXT_DISPLAY_CHARS,
            actual: MAX_TEXT_DISPLAY_CHARS + 1
        })
    );
}

#[test]
fn two_text_displays_at_combined_limit_pass() {
    let msg = v2_message(vec![
        text_display(&sized_string(2000, 'a')),
        text_display(&sized_string(2000, 'b')),
    ]);
    assert_eq!(validate(&msg), Ok(()));
}

#[test]
fn text_displays_over_combined_budget_are_rejected_without_single_overflow() {
    let msg = v2_message(vec![
        text_display(&sized_string(2000, 'a')),
        text_display(&sized_string(2001, 'b')),
    ]);
    assert_eq!(
        validate(&msg),
        Err(ValidationError::CombinedTextTooLong {
            limit: MAX_COMBINED_TEXT_CHARS,
            actual: MAX_COMBINED_TEXT_CHARS + 1
        })
    );
}

#[test]
fn message_content_counts_toward_the_combined_text_budget() {
    let mut msg = plain_msg();
    msg.content = sized_string(1000, 'c');
    msg.components = vec![Component::Container {
        components: vec![text_display(&sized_string(3001, 't'))],
        accent_color: None,
        spoiler: false,
    }];
    assert_eq!(
        validate(&msg),
        Err(ValidationError::CombinedTextTooLong {
            limit: MAX_COMBINED_TEXT_CHARS,
            actual: MAX_COMBINED_TEXT_CHARS + 1
        })
    );
}

#[test]
fn content_only_message_at_content_limit_passes_combined_check() {
    let mut msg = plain_msg();
    msg.content = sized_string(MAX_CONTENT_CHARS, 'a');
    assert_eq!(validate(&msg), Ok(()));
}

#[test]
fn media_gallery_at_item_limit_passes() {
    let msg = v2_message(vec![media_gallery(MAX_GALLERY_ITEMS)]);
    assert_eq!(validate(&msg), Ok(()));
}

#[test]
fn eleven_gallery_items_are_rejected_at_gallery_path() {
    let msg = v2_message(vec![media_gallery(MAX_GALLERY_ITEMS + 1)]);
    assert_eq!(
        validate(&msg),
        Err(ValidationError::TooManyItems {
            path: "components[0]".into(),
            limit: MAX_GALLERY_ITEMS,
            actual: MAX_GALLERY_ITEMS + 1
        })
    );
}

fn button(style: u8) -> Component {
    Component::Button {
        style,
        label: Some("b".into()),
        emoji: None,
        url: None,
        disabled: false,
    }
}

fn text_display(content: &str) -> Component {
    Component::TextDisplay {
        content: content.into(),
    }
}

fn v2_message(components: Vec<Component>) -> Message {
    Message {
        flags: Some(1 << 15),
        components,
        ..Message::default()
    }
}

fn media_gallery(item_count: usize) -> Component {
    Component::MediaGallery {
        items: std::iter::repeat_n(
            MediaGalleryItem {
                media: UnfurledMediaItem {
                    url: "https://cdn.example.test/item.png".into(),
                },
                description: None,
                spoiler: false,
            },
            item_count,
        )
        .collect(),
    }
}

#[test]
fn error_messages_name_path_limit_and_actual() {
    let cases = [
        (
            ValidationError::TooLong {
                path: "content".into(),
                limit: 2000,
                actual: 2001,
            },
            "content must be at most 2000 characters, got 2001",
        ),
        (
            ValidationError::TooManyItems {
                path: "embeds".into(),
                limit: 10,
                actual: 11,
            },
            "embeds must contain at most 10 items, got 11",
        ),
        (
            ValidationError::OutOfRange {
                path: "embeds[0].color".into(),
                min: 0,
                max: 0xFF_FFFF,
                actual: -1,
            },
            "embeds[0].color must be between 0 and 16777215, got -1",
        ),
        (
            ValidationError::OutOfRange {
                path: "x".into(),
                min: i64::MIN,
                max: 5,
                actual: 7,
            },
            "x must be between -9223372036854775808 and 5, got 7",
        ),
        (
            ValidationError::ForbiddenWithComponentsV2 {
                path: "content".into(),
            },
            "content: not allowed when the components v2 flag is set",
        ),
        (
            ValidationError::MissingComponentsForV2 {
                path: "components".into(),
            },
            "components: at least one component is required when the components v2 flag is set",
        ),
        (
            ValidationError::ActionRowTooLarge {
                path: "components[0]".into(),
                limit: 5,
                actual: 6,
            },
            "components[0]: action rows allow at most 5 child components, got 6",
        ),
        (
            ValidationError::CombinedTextTooLong {
                limit: 4000,
                actual: 4001,
            },
            "content and text display contents must total at most 4000 characters, got 4001",
        ),
    ];
    for (error, expected) in cases {
        assert_eq!(error.to_string(), expected);
    }
}

#[test]
fn section_accessory_reports_its_own_path() {
    let msg = v2_message(vec![Component::Section {
        components: vec![text_display("ok")],
        accessory: Box::new(button(7)),
    }]);
    assert_eq!(
        validate(&msg),
        Err(ValidationError::OutOfRange {
            path: "components[0].accessory.style".into(),
            min: 1,
            max: 5,
            actual: 7
        })
    );
}

#[test]
fn first_failing_embed_wins_over_later_ones() {
    let mut msg = plain_msg();
    msg.embeds = vec![
        Embed::default(),
        Embed {
            description: Some(sized_string(4097, 'd')),
            ..Embed::default()
        },
        embed_with_title(300),
    ];
    assert_eq!(
        validate(&msg),
        Err(ValidationError::TooLong {
            path: "embeds[1].description".into(),
            limit: 4096,
            actual: 4097
        })
    );
}

#[test]
fn accepted_v2_messages_have_components_and_no_content() {
    let msg = v2_message(vec![text_display("a")]);
    assert_eq!(validate(&msg), Ok(()));
    assert!(msg.content.is_empty() && msg.embeds.is_empty() && !msg.components.is_empty());
}

#[test]
fn premium_buttons_fail_validation_at_any_depth() {
    let nested = v2_message(vec![Component::Container {
        components: vec![Component::Section {
            components: vec![text_display("x")],
            accessory: Box::new(button(6)),
        }],
        accent_color: None,
        spoiler: false,
    }]);
    assert_eq!(
        validate(&nested),
        Err(ValidationError::OutOfRange {
            path: "components[0].components[0].accessory.style".into(),
            min: 1,
            max: 5,
            actual: 6
        })
    );
}

#[test]
fn text_display_count_sums_nested_displays() {
    let tree = Component::Container {
        components: vec![
            text_display("héllo"),
            Component::Section {
                components: vec![text_display("ab")],
                accessory: Box::new(button(1)),
            },
            Component::ActionRow {
                components: vec![button(2)],
            },
        ],
        accent_color: None,
        spoiler: false,
    };
    assert_eq!(text_display_char_count(&tree), 7);
    assert_eq!(text_display_char_count(&button(1)), 0);
}
