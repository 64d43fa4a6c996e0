use vstd::prelude::*;

verus! {

/// A message-parsing failure: malformed JSON, or a payload whose shape the message
/// model does not accept.
#[derive(Debug, Clone, PartialEq, Eq)]
pub struct ParseError(String);

impl View for ParseError {
    type V = Seq<char>;

    closed spec fn view(&self) -> Seq<char> {
        self.0@
    }
}

impl ParseError {
    /// A parse error with the given message.
    pub fn new(message: String) -> (e: ParseError)
        ensures
            e@ == message@,
    {
        ParseError(message)
    }

    /// The error message.
    pub fn to_string(&self) -> (s: String)
        ensures
            s@ == self@,
    {
        self.0.clone()
    }
}

/// `serde_json::Value`, carried through without looking inside.
#[verifier::external_type_specification]
#[verifier::external_body]
pub struct ExJsonValue(serde_json::Value);

/// A parsed message together with the canonical payload it was loaded from; the
/// webhook send path forwards `canonical` verbatim.
#[derive(Debug)]
pub struct ParsedMessage {
    pub message: Message,
    pub canonical: serde_json::Value,
}

/// The render-side view of a webhook message.
#[derive(Debug, Clone, Default, PartialEq)]
pub struct Message {
    pub content: String,
    pub username: Option<String>,
    pub avatar_url: Option<String>,
    pub tts: bool,
    pub embeds: Vec<Embed>,
    pub flags: Option<i64>,
    pub components: Vec<Component>,
}

/// Bit 15 of the message flags: the components v2 layout.
pub open spec fn components_v2(m: Message) -> bool {
    match m.flags {
        Some(flags) => flags & 0x8000 != 0,
        None => false,
    }
}

impl Message {
    /// True when the payload carries the components v2 flag (bit 15).
    pub fn is_components_v2(&self) -> (b: bool)
        ensures
            b == components_v2(*self),
    {
        match self.flags {
            Some(flags) => flags & 0x8000 != 0,
            None => false,
        }
    }
}

/// A rich embed: title, description, color bar, author, fields, images, footer.
#[derive(Debug, Clone, Default, PartialEq)]
pub struct Embed {
    pub title: Option<String>,
    pub description: Option<String>,
    pub url: Option<String>,
    pub timestamp: Option<String>,
    pub color: Option<i64>,
    pub footer: Option<Footer>,
    pub image: Option<EmbedImage>,
    pub thumbnail: Option<EmbedImage>,
    pub author: Option<Author>,
    pub fields: Vec<Field>,
}

/// The footer line of an embed.
#[derive(Debug, Clone, Default, PartialEq)]
pub struct Footer {
    pub text: String,
    pub icon_url: Option<String>,
}

/// An image of an embed, by URL.
#[derive(Debug, Clone, Default, PartialEq)]
pub struct EmbedImage {
    pub url: String,
}

/// The author row of an embed.
#[derive(Debug, Clone, Default, PartialEq)]
pub struct Author {
    pub name: String,
    pub url: Option<String>,
    pub icon_url: Option<String>,
}

/// A name/value field of an embed; inline fields share a row.
#[derive(Debug, Clone, Default, PartialEq)]
pub struct Field {
    pub name: String,
    pub value: String,
    pub inline: bool,
}

/// A custom emoji (with an id) or a Unicode one (name only).
#[derive(Debug, Clone, Default, PartialEq)]
pub struct Emoji {
    pub id: Option<String>,
    pub name: String,
    pub animated: bool,
}

/// An option of a select menu.
#[derive(Debug, Clone, Default, PartialEq)]
pub struct SelectOption {
    pub label: String,
    pub value: Option<String>,
    pub description: Option<String>,
    pub emoji: Option<Emoji>,
}

/// A media reference of a component, by URL.
#[derive(Debug, Clone, Default, PartialEq)]
pub struct UnfurledMediaItem {
    pub url: String,
}

/// One item of a media gallery.
#[derive(Debug, Clone, Default, PartialEq)]
pub struct MediaGalleryItem {
    pub media: UnfurledMediaItem,
    pub description: Option<String>,
    pub spoiler: bool,
}

/// What a component's numeric `type` tag names.
#[derive(Debug, Clone, Copy, PartialEq, Eq)]
pub enum ComponentKind {
    ActionRow,
    Button,
    SelectMenu,
    Section,
    TextDisplay,
    Thumbnail,
    MediaGallery,
    File,
    Separator,
    Container,
}

/// The kind of component a `type` tag names: 1 action row, 2 button, 3 and 5 to 8
/// select menus, 9 section, 10 text display, 11 thumbnail, 12 media gallery, 13
/// file, 14 separator, 17 container; any other tag names none.
pub open spec fn kind_of_tag(tag: i64) -> Option<ComponentKind> {
    if tag == 1 {
        Some(ComponentKind::ActionRow)
    } else if tag == 2 {
        Some(ComponentKind::Button)
    } else if tag == 3 || (5 <= tag <= 8) {
        Some(ComponentKind::SelectMenu)
    } else if tag == 9 {
        Some(ComponentKind::Section)
    } else if tag == 10 {
        Some(ComponentKind::TextDisplay)
    } else if tag == 11 {
        Some(ComponentKind::Thumbnail)
    } else if tag == 12 {
        Some(ComponentKind::MediaGallery)
    } else if tag == 13 {
        Some(ComponentKind::File)
    } else if tag == 14 {
        Some(ComponentKind::Separator)
    } else if tag == 17 {
        Some(ComponentKind::Container)
    } else {
        None
    }
}

/// The component tags: 1 action row, 2 button, 3 and 5 to 8 select menus, 9
/// section, 10 text display, 11 thumbnail, 12 media gallery, 13 file, 14
/// separator, 17 container; every other tag names nothing.
pub proof fn law_component_tags(t: i64)
    ensures
        kind_of_tag(1) == Some(ComponentKind::ActionRow),
        kind_of_tag(2) == Some(ComponentKind::Button),
        kind_of_tag(3) == Some(ComponentKind::SelectMenu),
        kind_of_tag(5) == Some(ComponentKind::SelectMenu),
        kind_of_tag(6) == Some(ComponentKind::SelectMenu),
        kind_of_tag(7) == Some(ComponentKind::SelectMenu),
        kind_of_tag(8) == Some(ComponentKind::SelectMenu),
        kind_of_tag(9) == Some(ComponentKind::Section),
        kind_of_tag(10) == Some(ComponentKind::TextDisplay),
        kind_of_tag(11) == Some(ComponentKind::Thumbnail),
        kind_of_tag(12) == Some(ComponentKind::MediaGallery),
        kind_of_tag(13) == Some(ComponentKind::File),
        kind_of_tag(14) == Some(ComponentKind::Separator),
        kind_of_tag(17) == Some(ComponentKind::Container),
        kind_of_tag(t) is Some <==> (1 <= t <= 3 || 5 <= t <= 14 || t == 17),
{
}

/// Reads a component's `type` tag.
pub fn component_kind(tag: i64) -> (r: Option<ComponentKind>)
    ensures
        r == kind_of_tag(tag),
{
    match tag {
        1 => Some(ComponentKind::ActionRow),
        2 => Some(ComponentKind::Button),
        3 | 5 | 6 | 7 | 8 => Some(ComponentKind::SelectMenu),
        9 => Some(ComponentKind::Section),
        10 => Some(ComponentKind::TextDisplay),
        11 => Some(ComponentKind::Thumbnail),
        12 => Some(ComponentKind::MediaGallery),
        13 => Some(ComponentKind::File),
        14 => Some(ComponentKind::Separator),
        17 => Some(ComponentKind::Container),
        _ => None,
    }
}

/// A message component, v1 (action rows, buttons, select menus) or v2.
#[derive(Debug, PartialEq)]
pub enum Component {
    ActionRow { components: Vec<Component> },
    Button {
        style: u8,
        label: Option<String>,
        emoji: Option<Emoji>,
        url: Option<String>,
        disabled: bool,
    },
    SelectMenu { kind: u8, placeholder: Option<String>, disabled: bool, options: Vec<SelectOption> },
    TextDisplay { content: String },
    Section { components: Vec<Component>, accessory: Box<Component> },
    Thumbnail { media: UnfurledMediaItem, description: Option<String>, spoiler: bool },
    MediaGallery { items: Vec<MediaGalleryItem> },
    File { file: UnfurledMediaItem, spoiler: bool },
    Separator { divider: bool, spacing: Option<u8> },
    Container { components: Vec<Component>, accent_color: Option<i64>, spoiler: bool },
}

impl Clone for Component {
    fn clone(&self) -> Self
        decreases self,
    {
        match self {
            Component::ActionRow { components } => Component::ActionRow {
                components: clone_components(components),
            },
            Component::Button { style, label, emoji, url, disabled } => Component::Button {
                style: *style,
                label: label.clone(),
                emoji: emoji.clone(),
                url: url.clone(),
                disabled: *disabled,
            },
            Component::SelectMenu { kind, placeholder, disabled, options } => Component::SelectMenu {
                kind: *kind,
                placeholder: placeholder.clone(),
                disabled: *disabled,
                options: options.clone(),
            },
            Component::TextDisplay { content } => Component::TextDisplay { content: content.clone() },
            Component::Section { components, accessory } => Component::Section {
                components: clone_components(components),
                accessory: Box::new((**accessory).clone()),
            },
            Component::Thumbnail { media, description, spoiler } => Component::Thumbnail {
                media: media.clone(),
                description: description.clone(),
                spoiler: *spoiler,
            },
            Component::MediaGallery { items } => Component::MediaGallery { items: items.clone() },
            Component::File { file, spoiler } => Component::File {
                file: file.clone(),
                spoiler: *spoiler,
            },
            Component::Separator { divider, spacing } => Component::Separator {
                divider: *divider,
                spacing: *spacing,
            },
            Component::Container { components, accent_color, spoiler } => Component::Container {
                components: clone_components(components),
                accent_color: *accent_color,
                spoiler: *spoiler,
            },
        }
    }
}

/// Copies a list of components one by one.
fn clone_components(components: &Vec<Component>) -> (r: Vec<Component>)
    ensures
        r@.len() == components@.len(),
    decreases components@,
{
    let mut r: Vec<Component> = Vec::new();
    let mut k: usize = 0;
    while k < components.len()
        invariant
            k <= components@.len(),
            r@.len() == k,
        decreases components@.len() - k,
    {
        r.push(components[k].clone());
        k += 1;
    }
    r
}

} // verus!
