use pwr_viewgen::model::Component;
use pwr_viewgen::model::SelectOption;
use pwr_viewgen::model::UnfurledMediaItem;
use pwr_viewgen::shape::check_shape;

fn button(style: u8) -> Component {
    Component::Button {
        style,
        label: Some("b".into()),
        emoji: None,
        url: None,
        disabled: false,
    }
}

fn select(kind: u8, values: &[Option<&str>]) -> Component {
    Component::SelectMenu {
        kind,
        placeholder: None,
        disabled: false,
        options: values
            .iter()
            .map(|v| SelectOption {
                label: "o".into(),
                value: v.map(str::to_owned),
                description: None,
                emoji: None,
            })
            .collect(),
    }
}

fn row(components: Vec<Component>) -> Component {
    Component::ActionRow { components }
}

fn text(content: &str) -> Component {
    Component::TextDisplay {
        content: content.into(),
    }
}

fn thumb() -> Component {
    Component::Thumbnail {
        media: UnfurledMediaItem { url: "u".into() },
        description: None,
        spoiler: false,
    }
}

fn fault(components: Vec<Component>) -> Option<String> {
    check_shape(&components).err().map(|e| e.to_string())
}

#[test]
fn well_formed_trees_pass() {
    assert_eq!(fault(vec![]), None);
    assert_eq!(fault(vec![row(vec![button(1), button(5)])]), None);
    assert_eq!(fault(vec![row(vec![select(3, &[Some("a")])])]), None);
    assert_eq!(fault(vec![row(vec![select(5, &[None])])]), None);
    assert_eq!(fault(vec![row(vec![])]), None);
    assert_eq!(
        fault(vec![Component::Container {
            components: vec![
                text("t"),
                Component::Section {
                    components: vec![text("s")],
                    accessory: Box::new(thumb()),
                },
                row(vec![button(2)]),
            ],
            accent_color: None,
            spoiler: false,
        }]),
        None
    );
}

#[test]
fn select_menu_outside_an_action_row_is_rejected() {
    assert_eq!(
        fault(vec![text("x"), select(3, &[Some("a")])]),
        Some("unsupported component type 3".to_owned())
    );
    assert_eq!(
        fault(vec![button(1)]),
        Some("unsupported component type 2".to_owned())
    );
    assert_eq!(
        fault(vec![Component::Container {
            components: vec![thumb()],
            accent_color: None,
            spoiler: false,
        }]),
        Some("unsupported container component type 11".to_owned())
    );
}

#[test]
fn action_rows_do_not_mix_kinds() {
    assert_eq!(
        fault(vec![row(vec![button(1), select(3, &[Some("a")])])]),
        Some("cannot mix component types in one action row".to_owned())
    );
    assert_eq!(
        fault(vec![row(vec![select(5, &[]), select(6, &[])])]),
        Some("a select-menu action row holds exactly one component, got 2".to_owned())
    );
    assert_eq!(
        fault(vec![row(vec![text("x")])]),
        Some("unsupported action-row component type 10".to_owned())
    );
}

#[test]
fn string_select_options_need_values() {
    assert_eq!(
        fault(vec![row(vec![select(3, &[Some("a"), None])])]),
        Some("string select option without \"value\"".to_owned())
    );
}

#[test]
fn sections_hold_text_beside_thumbnail_or_button() {
    assert_eq!(
        fault(vec![Component::Section {
            components: vec![button(1)],
            accessory: Box::new(thumb()),
        }]),
        Some("section components must be text displays".to_owned())
    );
    assert_eq!(
        fault(vec![Component::Section {
            components: vec![text("a")],
            accessory: Box::new(text("b")),
        }]),
        Some("unsupported section accessory type 10".to_owned())
    );
    assert_eq!(
        fault(vec![Component::Section {
            components: vec![],
            accessory: Box::new(button(6)),
        }]),
        None
    );
}

#[test]
fn nested_containers_are_rejected_and_first_fault_wins() {
    let inner = Component::Container {
        components: vec![],
        accent_color: None,
        spoiler: false,
    };
    assert_eq!(
        fault(vec![
            row(vec![]),
            Component::Container {
                components: vec![inner],
                accent_color: None,
                spoiler: false,
            },
            select(3, &[]),
        ]),
        Some("unsupported container component type 17".to_owned())
    );
}

#[test]
fn section_children_are_text_displays() {
    assert_eq!(
        fault(vec![Component::Section {
            components: vec![text("a"), text("b")],
            accessory: Box::new(button(1)),
        }]),
        None
    );
}
