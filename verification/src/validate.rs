use vstd::prelude::*;
use vstd::string::StrSliceExecFns;

use crate::model::components_v2;
use crate::model::Component;
use crate::model::Embed;
use crate::model::Field;
use crate::model::Message;
use crate::text::decimal;
use crate::text::push_char;
use crate::text::push_decimal;

verus! {

/// The most characters of message content.
pub const MAX_CONTENT_CHARS: usize = 2000;

/// The most embeds of a message.
pub const MAX_EMBEDS: usize = 10;

/// The most characters of an embed title.
pub const MAX_TITLE_CHARS: usize = 256;

/// The most characters of an embed description.
pub const MAX_DESCRIPTION_CHARS: usize = 4096;

/// The most fields of an embed.
pub const MAX_FIELDS: usize = 25;

/// The most characters of a field name.
pub const MAX_FIELD_NAME_CHARS: usize = 256;

/// The most characters of a field value.
pub const MAX_FIELD_VALUE_CHARS: usize = 1024;

/// The most characters of an embed footer.
pub const MAX_FOOTER_TEXT_CHARS: usize = 2048;

/// The most characters of an embed author name.
pub const MAX_AUTHOR_NAME_CHARS: usize = 256;

/// The least embed color.
pub const MIN_COLOR: i64 = 0;

/// The greatest embed color, `0xFFFFFF`.
pub const MAX_COLOR: i64 = 0xFF_FFFF;

/// The most components of an action row.
pub const MAX_ACTION_ROW_CHILDREN: usize = 5;

/// The most characters of one text display.
pub const MAX_TEXT_DISPLAY_CHARS: usize = 4000;

/// The most characters of content and text displays together.
pub const MAX_COMBINED_TEXT_CHARS: usize = 4000;

/// The most items of a media gallery.
pub const MAX_GALLERY_ITEMS: usize = 10;

/// The least button style a webhook can send.
pub const MIN_BUTTON_STYLE: u8 = 1;

/// The greatest button style a webhook can send.
pub const MAX_BUTTON_STYLE: u8 = 5;

/// The first limit a message breaks, with the JSON-style path of the offending value.
#[derive(Debug, Clone, PartialEq, Eq)]
pub enum ValidationError {
    TooLong { path: String, limit: usize, actual: usize },
    TooManyItems { path: String, limit: usize, actual: usize },
    OutOfRange { path: String, min: i64, max: i64, actual: i64 },
    ForbiddenWithComponentsV2 { path: String },
    MissingComponentsForV2 { path: String },
    ActionRowTooLarge { path: String, limit: usize, actual: usize },
    CombinedTextTooLong { limit: usize, actual: usize },
}

/// The mathematical value of a [`ValidationError`]: paths as character sequences.
pub enum ViolationM {
    TooLong { path: Seq<char>, limit: int, actual: int },
    TooManyItems { path: Seq<char>, limit: int, actual: int },
    OutOfRange { path: Seq<char>, min: int, max: int, actual: int },
    ForbiddenWithComponentsV2 { path: Seq<char> },
    MissingComponentsForV2 { path: Seq<char> },
    ActionRowTooLarge { path: Seq<char>, limit: int, actual: int },
    CombinedTextTooLong { limit: int, actual: int },
}

impl View for ValidationError {
    type V = ViolationM;

    open spec fn view(&self) -> ViolationM {
        match self {
            ValidationError::TooLong { path, limit, actual } => ViolationM::TooLong {
                path: path@,
                limit: *limit as int,
                actual: *actual as int,
            },
            ValidationError::TooManyItems { path, limit, actual } => ViolationM::TooManyItems {
                path: path@,
                limit: *limit as int,
                actual: *actual as int,
            },
            ValidationError::OutOfRange { path, min, max, actual } => ViolationM::OutOfRange {
                path: path@,
                min: *min as int,
                max: *max as int,
                actual: *actual as int,
            },
            ValidationError::ForbiddenWithComponentsV2 { path } => {
                ViolationM::ForbiddenWithComponentsV2 { path: path@ }
            },
            ValidationError::MissingComponentsForV2 { path } => ViolationM::MissingComponentsForV2 {
                path: path@,
            },
            ValidationError::ActionRowTooLarge { path, limit, actual } => {
                ViolationM::ActionRowTooLarge {
                    path: path@,
                    limit: *limit as int,
                    actual: *actual as int,
                }
            },
            ValidationError::CombinedTextTooLong { limit, actual } => {
                ViolationM::CombinedTextTooLong { limit: *limit as int, actual: *actual as int }
            },
        }
    }
}

/// The first of two findings: `a` when there is one, else `b`.
pub open spec fn first_of(a: Option<ViolationM>, b: Option<ViolationM>) -> Option<ViolationM> {
    if a is Some {
        a
    } else {
        b
    }
}

/// A result agrees with a finding: `Ok` for none, the finding's error otherwise.
pub open spec fn reports(r: Result<(), ValidationError>, f: Option<ViolationM>) -> bool {
    match r {
        Ok(_) => f is None,
        Err(e) => f == Some(e@),
    }
}

/// `prefix[i]`.
pub open spec fn indexed(prefix: Seq<char>, i: nat) -> Seq<char> {
    prefix + "["@ + decimal(i) + "]"@
}

/// A text longer than `limit` characters.
pub open spec fn len_violation(text: Seq<char>, path: Seq<char>, limit: int) -> Option<
    ViolationM,
> {
    if text.len() > limit {
        Some(ViolationM::TooLong { path, limit, actual: text.len() as int })
    } else {
        None
    }
}

/// An optional text longer than `limit` characters.
pub open spec fn opt_len_violation(text: Option<String>, path: Seq<char>, limit: int) -> Option<
    ViolationM,
> {
    match text {
        Some(t) => len_violation(t@, path, limit),
        None => None,
    }
}

/// The first violation among an embed's fields, each at `base.fields[i]`.
pub open spec fn fields_violation(fs: Seq<Field>, base: Seq<char>) -> Option<ViolationM>
    decreases fs.len(),
{
    if fs.len() == 0 {
        None
    } else {
        let path = indexed(base + ".fields"@, (fs.len() - 1) as nat);
        first_of(
            fields_violation(fs.drop_last(), base),
            first_of(
                len_violation(fs.last().name@, path + ".name"@, MAX_FIELD_NAME_CHARS as int),
                len_violation(fs.last().value@, path + ".value"@, MAX_FIELD_VALUE_CHARS as int),
            ),
        )
    }
}

/// The first limit an embed at `base` breaks: title, description, color, footer text,
/// author name, field count, then the fields in order.
pub open spec fn embed_violation(e: Embed, base: Seq<char>) -> Option<ViolationM> {
    first_of(
        opt_len_violation(e.title, base + ".title"@, MAX_TITLE_CHARS as int),
        first_of(
            opt_len_violation(e.description, base + ".description"@, MAX_DESCRIPTION_CHARS as int),
            first_of(
                match e.color {
                    Some(c) => if c < MIN_COLOR || c > MAX_COLOR {
                        Some(
                            ViolationM::OutOfRange {
                                path: base + ".color"@,
                                min: MIN_COLOR as int,
                                max: MAX_COLOR as int,
                                actual: c as int,
                            },
                        )
                    } else {
                        None
                    },
                    None => None,
                },
                first_of(
                    match e.footer {
                        Some(f) => len_violation(
                            f.text@,
                            base + ".footer.text"@,
                            MAX_FOOTER_TEXT_CHARS as int,
                        ),
                        None => None,
                    },
                    first_of(
                        match e.author {
                            Some(a) => len_violation(
                                a.name@,
                                base + ".author.name"@,
                                MAX_AUTHOR_NAME_CHARS as int,
                            ),
                            None => None,
                        },
                        if e.fields@.len() > MAX_FIELDS {
                            Some(
                                ViolationM::TooManyItems {
                                    path: base + ".fields"@,
                                    limit: MAX_FIELDS as int,
                                    actual: e.fields@.len() as int,
                                },
                            )
                        } else {
                            fields_violation(e.fields@, base)
                        },
                    ),
                ),
            ),
        ),
    )
}

/// The first violation among embeds, each at `embeds[i]`.
pub open spec fn embeds_violation(es: Seq<Embed>) -> Option<ViolationM>
    decreases es.len(),
{
    if es.len() == 0 {
        None
    } else {
        first_of(
            embeds_violation(es.drop_last()),
            embed_violation(es.last(), indexed("embeds"@, (es.len() - 1) as nat)),
        )
    }
}

/// The first limit a component at `path` breaks, its children included.
pub open spec fn component_violation(c: Component, path: Seq<char>) -> Option<ViolationM>
    decreases c, 1int,
{
    match c {
        Component::ActionRow { components } => if components@.len() > MAX_ACTION_ROW_CHILDREN {
            Some(
                ViolationM::ActionRowTooLarge {
                    path,
                    limit: MAX_ACTION_ROW_CHILDREN as int,
                    actual: components@.len() as int,
                },
            )
        } else {
            list_violation(components@, path + ".components"@)
        },
        Component::Button { style, .. } => if style < MIN_BUTTON_STYLE || style > MAX_BUTTON_STYLE {
            Some(
                ViolationM::OutOfRange {
                    path: path + ".style"@,
                    min: MIN_BUTTON_STYLE as int,
                    max: MAX_BUTTON_STYLE as int,
                    actual: style as int,
                },
            )
        } else {
            None
        },
        Component::Section { components, accessory } => first_of(
            list_violation(components@, path + ".components"@),
            component_violation(*accessory, path + ".accessory"@),
        ),
        Component::Container { components, .. } => list_violation(
            components@,
            path + ".components"@,
        ),
        Component::TextDisplay { content } => len_violation(
            content@,
            path + ".content"@,
            MAX_TEXT_DISPLAY_CHARS as int,
        ),
        Component::MediaGallery { items } => if items@.len() > MAX_GALLERY_ITEMS {
            Some(
                ViolationM::TooManyItems {
                    path,
                    limit: MAX_GALLERY_ITEMS as int,
                    actual: items@.len() as int,
                },
            )
        } else {
            None
        },
        _ => None,
    }
}

/// The first violation among components, each at `prefix[i]`.
pub open spec fn list_violation(cs: Seq<Component>, prefix: Seq<char>) -> Option<ViolationM>
    decreases cs, 0int,
{
    if cs.len() == 0 {
        None
    } else {
        first_of(
            list_violation(cs.drop_last(), prefix),
            component_violation(cs.last(), indexed(prefix, (cs.len() - 1) as nat)),
        )
    }
}

/// The characters of every text display in a component, nested ones included.
pub open spec fn text_chars(c: Component) -> nat
    decreases c, 1int,
{
    match c {
        Component::TextDisplay { content } => content@.len(),
        Component::ActionRow { components } => text_chars_in(components@),
        Component::Section { components, accessory } => text_chars_in(components@) + text_chars(
            *accessory,
        ),
        Component::Container { components, .. } => text_chars_in(components@),
        _ => 0,
    }
}

/// The characters of every text display in a list of components.
pub open spec fn text_chars_in(cs: Seq<Component>) -> nat
    decreases cs, 0int,
{
    if cs.len() == 0 {
        0
    } else {
        text_chars_in(cs.drop_last()) + text_chars(cs.last())
    }
}

/// A count as a `usize` holds it: saturated at `usize::MAX`.
pub open spec fn saturated(n: nat) -> int {
    if n > usize::MAX {
        usize::MAX as int
    } else {
        n as int
    }
}

/// The rules of the components v2 flag, or the plain content limit without it.
pub open spec fn layout_violation(m: Message) -> Option<ViolationM> {
    if components_v2(m) {
        if m.content@.len() > 0 {
            Some(ViolationM::ForbiddenWithComponentsV2 { path: "content"@ })
        } else if m.embeds@.len() > 0 {
            Some(ViolationM::ForbiddenWithComponentsV2 { path: "embeds"@ })
        } else if m.components@.len() == 0 {
            Some(ViolationM::MissingComponentsForV2 { path: "components"@ })
        } else {
            None
        }
    } else {
        len_violation(m.content@, "content"@, MAX_CONTENT_CHARS as int)
    }
}

/// The combined budget of content and text displays.
pub open spec fn combined_violation(m: Message) -> Option<ViolationM> {
    let total = m.content@.len() + text_chars_in(m.components@);
    if total > MAX_COMBINED_TEXT_CHARS {
        Some(
            ViolationM::CombinedTextTooLong {
                limit: MAX_COMBINED_TEXT_CHARS as int,
                actual: saturated(total),
            },
        )
    } else {
        None
    }
}

/// The first limit a message breaks, in the order the checks run: layout, embed
/// count, embeds, components, combined text.
pub open spec fn message_violation(m: Message) -> Option<ViolationM> {
    first_of(
        layout_violation(m),
        first_of(
            if m.embeds@.len() > MAX_EMBEDS {
                Some(
                    ViolationM::TooManyItems {
                        path: "embeds"@,
                        limit: MAX_EMBEDS as int,
                        actual: m.embeds@.len() as int,
                    },
                )
            } else {
                None
            },
            first_of(
                embeds_violation(m.embeds@),
                first_of(list_violation(m.components@, "components"@), combined_violation(m)),
            ),
        ),
    )
}

/// A component holds a button whose style a webhook cannot send (outside 1 to 5,
/// such as a premium button's 6), at any depth.
pub open spec fn has_unsendable_button(c: Component) -> bool
    decreases c, 1int,
{
    match c {
        Component::Button { style, .. } => style < MIN_BUTTON_STYLE || style > MAX_BUTTON_STYLE,
        Component::ActionRow { components } => any_unsendable_button(components@),
        Component::Section { components, accessory } => any_unsendable_button(components@)
            || has_unsendable_button(*accessory),
        Component::Container { components, .. } => any_unsendable_button(components@),
        _ => false,
    }
}

/// Some component of a list holds an unsendable button.
pub open spec fn any_unsendable_button(cs: Seq<Component>) -> bool
    decreases cs, 0int,
{
    if cs.len() == 0 {
        false
    } else {
        any_unsendable_button(cs.drop_last()) || has_unsendable_button(cs.last())
    }
}

proof fn lemma_unsendable_component(c: Component, path: Seq<char>)
    requires
        has_unsendable_button(c),
    ensures
        component_violation(c, path) is Some,
    decreases c, 1int,
{
    match c {
        Component::ActionRow { components } => {
            if components@.len() <= MAX_ACTION_ROW_CHILDREN {
                lemma_unsendable_list(components@, path + ".components"@);
            }
        },
        Component::Section { components, accessory } => {
            if any_unsendable_button(components@) {
                lemma_unsendable_list(components@, path + ".components"@);
            } else {
                lemma_unsendable_component(*accessory, path + ".accessory"@);
            }
        },
        Component::Container { components, .. } => {
            lemma_unsendable_list(components@, path + ".components"@);
        },
        _ => {},
    }
}

proof fn lemma_unsendable_list(cs: Seq<Component>, prefix: Seq<char>)
    requires
        any_unsendable_button(cs),
    ensures
        list_violation(cs, prefix) is Some,
    decreases cs, 0int,
{
    if any_unsendable_button(cs.drop_last()) {
        lemma_unsendable_list(cs.drop_last(), prefix);
    } else {
        lemma_unsendable_component(cs.last(), indexed(prefix, (cs.len() - 1) as nat));
    }
}

/// Validation refuses any message that holds a button a webhook cannot send, such
/// as a premium button, wherever it sits in the component tree.
pub proof fn law_unsendable_buttons_fail_validation(m: Message)
    requires
        any_unsendable_button(m.components@),
    ensures
        message_violation(m) is Some,
{
    lemma_unsendable_list(m.components@, "components"@);
}

/// An optional text of at most `limit` characters.
pub open spec fn text_fits(t: Option<String>, limit: int) -> bool {
    match t {
        Some(x) => x@.len() <= limit,
        None => true,
    }
}

/// A field's name and value fit their limits.
pub open spec fn field_ok(f: Field) -> bool {
    f.name@.len() <= MAX_FIELD_NAME_CHARS && f.value@.len() <= MAX_FIELD_VALUE_CHARS
}

/// An embed keeps every limit: title, description, color, footer, author, field
/// count, and each field.
pub open spec fn embed_ok(e: Embed) -> bool {
    &&& text_fits(e.title, MAX_TITLE_CHARS as int)
    &&& text_fits(e.description, MAX_DESCRIPTION_CHARS as int)
    &&& match e.color {
        Some(c) => MIN_COLOR <= c <= MAX_COLOR,
        None => true,
    }
    &&& match e.footer {
        Some(f) => f.text@.len() <= MAX_FOOTER_TEXT_CHARS,
        None => true,
    }
    &&& match e.author {
        Some(a) => a.name@.len() <= MAX_AUTHOR_NAME_CHARS,
        None => true,
    }
    &&& e.fields@.len() <= MAX_FIELDS
    &&& forall|i: int| 0 <= i < e.fields@.len() ==> field_ok(#[trigger] e.fields@[i])
}

/// A component and all it holds keep every limit: action rows of at most five,
/// button styles 1 to 5, text displays and galleries within their sizes.
pub open spec fn component_ok(c: Component) -> bool
    decreases c, 1int,
{
    match c {
        Component::ActionRow { components } => components@.len() <= MAX_ACTION_ROW_CHILDREN
            && components_ok(components@),
        Component::Button { style, .. } => MIN_BUTTON_STYLE <= style <= MAX_BUTTON_STYLE,
        Component::Section { components, accessory } => components_ok(components@) && component_ok(
            *accessory,
        ),
        Component::Container { components, .. } => components_ok(components@),
        Component::TextDisplay { content } => content@.len() <= MAX_TEXT_DISPLAY_CHARS,
        Component::MediaGallery { items } => items@.len() <= MAX_GALLERY_ITEMS,
        _ => true,
    }
}

/// Every component of a list keeps every limit.
pub open spec fn components_ok(cs: Seq<Component>) -> bool
    decreases cs, 0int,
{
    cs.len() == 0 || (components_ok(cs.drop_last()) && component_ok(cs.last()))
}

/// A message keeps every rule: the components v2 layout (or the content limit
/// without it), at most ten embeds each within its limits, every component within
/// its limits, and content plus text displays within the combined budget.
pub open spec fn keeps_limits(m: Message) -> bool {
    &&& if components_v2(m) {
        m.content@.len() == 0 && m.embeds@.len() == 0 && m.components@.len() > 0
    } else {
        m.content@.len() <= MAX_CONTENT_CHARS
    }
    &&& m.embeds@.len() <= MAX_EMBEDS
    &&& forall|i: int| 0 <= i < m.embeds@.len() ==> embed_ok(#[trigger] m.embeds@[i])
    &&& components_ok(m.components@)
    &&& m.content@.len() + text_chars_in(m.components@) <= MAX_COMBINED_TEXT_CHARS
}

proof fn lemma_fields_ok(fs: Seq<Field>, base: Seq<char>)
    ensures
        fields_violation(fs, base) is None <==> forall|i: int|
            0 <= i < fs.len() ==> field_ok(#[trigger] fs[i]),
    decreases fs.len(),
{
    if fs.len() > 0 {
        lemma_fields_ok(fs.drop_last(), base);
        if fields_violation(fs, base) is None {
            assert forall|i: int| 0 <= i < fs.len() implies field_ok(#[trigger] fs[i]) by {
                if i < fs.len() - 1 {
                    assert(fs.drop_last()[i] == fs[i]);
                }
            }
        }
        if forall|i: int| 0 <= i < fs.len() ==> field_ok(#[trigger] fs[i]) {
            assert forall|i: int| 0 <= i < fs.drop_last().len() implies field_ok(
                #[trigger] fs.drop_last()[i],
            ) by {
                assert(fs.drop_last()[i] == fs[i]);
            }
            assert(field_ok(fs[fs.len() - 1]));
        }
    }
}

proof fn lemma_embed_ok(e: Embed, base: Seq<char>)
    ensures
        embed_violation(e, base) is None <==> embed_ok(e),
{
    lemma_fields_ok(e.fields@, base);
}

proof fn lemma_embeds_ok(es: Seq<Embed>)
    ensures
        embeds_violation(es) is None <==> forall|i: int| 0 <= i < es.len() ==> embed_ok(#[trigger] es[i]),
    decreases es.len(),
{
    if es.len() > 0 {
        lemma_embeds_ok(es.drop_last());
        lemma_embed_ok(es.last(), indexed("embeds"@, (es.len() - 1) as nat));
        if embeds_violation(es) is None {
            assert forall|i: int| 0 <= i < es.len() implies embed_ok(#[trigger] es[i]) by {
                if i < es.len() - 1 {
                    assert(es.drop_last()[i] == es[i]);
                }
            }
        }
        if forall|i: int| 0 <= i < es.len() ==> embed_ok(#[trigger] es[i]) {
            assert forall|i: int| 0 <= i < es.drop_last().len() implies embed_ok(
                #[trigger] es.drop_last()[i],
            ) by {
                assert(es.drop_last()[i] == es[i]);
            }
            assert(embed_ok(es[es.len() - 1]));
        }
    }
}

proof fn lemma_component_ok(c: Component, path: Seq<char>)
    ensures
        component_violation(c, path) is None <==> component_ok(c),
    decreases c, 1int,
{
    match c {
        Component::ActionRow { components } => {
            lemma_list_ok(components@, path + ".components"@);
        },
        Component::Section { components, accessory } => {
            lemma_list_ok(components@, path + ".components"@);
            lemma_component_ok(*accessory, path + ".accessory"@);
        },
        Component::Container { components, .. } => {
            lemma_list_ok(components@, path + ".components"@);
        },
        _ => {},
    }
}

proof fn lemma_list_ok(cs: Seq<Component>, prefix: Seq<char>)
    ensures
        list_violation(cs, prefix) is None <==> components_ok(cs),
    decreases cs, 0int,
{
    if cs.len() > 0 {
        lemma_list_ok(cs.drop_last(), prefix);
        lemma_component_ok(cs.last(), indexed(prefix, (cs.len() - 1) as nat));
    }
}

/// Validation accepts exactly the messages that keep every rule.
pub proof fn law_validation_accepts_exactly_rule_abiding_messages(m: Message)
    ensures
        message_violation(m) is None <==> keeps_limits(m),
{
    lemma_embeds_ok(m.embeds@);
    lemma_list_ok(m.components@, "components"@);
}

/// Checks a message against the platform's limits and reports the first violation.
pub fn validate(message: &Message) -> (r: Result<(), ValidationError>)
    ensures
        reports(r, message_violation(*message)),
{
    let r = check_layout(message);
    if r.is_err() {
        return r;
    }
    if message.embeds.len() > MAX_EMBEDS {
        return Err(
            ValidationError::TooManyItems {
                path: String::from_str("embeds"),
                limit: MAX_EMBEDS,
                actual: message.embeds.len(),
            },
        );
    }
    let r = check_embeds(&message.embeds);
    if r.is_err() {
        return r;
    }
    let prefix = String::from_str("components");
    let r = walk_list(&message.components, prefix.as_str());
    if r.is_err() {
        return r;
    }
    let content_chars = message.content.as_str().unicode_len();
    let text = text_display_char_count_in(&message.components);
    let total = content_chars.saturating_add(text);
    if total > MAX_COMBINED_TEXT_CHARS {
        return Err(ValidationError::CombinedTextTooLong { limit: MAX_COMBINED_TEXT_CHARS, actual: total });
    }
    Ok(())
}

fn check_layout(message: &Message) -> (r: Result<(), ValidationError>)
    ensures
        reports(r, layout_violation(*message)),
{
    let content_chars = message.content.as_str().unicode_len();
    if message.is_components_v2() {
        if content_chars > 0 {
            return Err(
                ValidationError::ForbiddenWithComponentsV2 { path: String::from_str("content") },
            );
        }
        if message.embeds.len() > 0 {
            return Err(
                ValidationError::ForbiddenWithComponentsV2 { path: String::from_str("embeds") },
            );
        }
        if message.components.len() == 0 {
            return Err(
                ValidationError::MissingComponentsForV2 { path: String::from_str("components") },
            );
        }
        Ok(())
    } else {
        let path = String::from_str("content");
        check_len(message.content.as_str(), path, MAX_CONTENT_CHARS)
    }
}

fn check_len(text: &str, path: String, limit: usize) -> (r: Result<(), ValidationError>)
    ensures
        reports(r, len_violation(text@, path@, limit as int)),
{
    let len = text.unicode_len();
    if len > limit {
        Err(ValidationError::TooLong { path, limit, actual: len })
    } else {
        Ok(())
    }
}

fn check_opt_len(text: &Option<String>, path: String, limit: usize) -> (r: Result<
    (),
    ValidationError,
>)
    ensures
        reports(r, opt_len_violation(*text, path@, limit as int)),
{
    match text {
        Some(t) => check_len(t.as_str(), path, limit),
        None => Ok(()),
    }
}

/// `a` followed by `b`.
fn joined(a: &str, b: &str) -> (r: String)
    ensures
        r@ == a@ + b@,
{
    let mut r = String::from_str(a);
    r.append(b);
    r
}

/// `prefix[i]`.
fn indexed_path(prefix: &str, i: usize) -> (r: String)
    ensures
        r@ == indexed(prefix@, i as nat),
{
    let mut r = String::from_str(prefix);
    r.append("[");
    push_decimal(&mut r, i as u64);
    r.append("]");
    r
}

fn check_embeds(embeds: &Vec<Embed>) -> (r: Result<(), ValidationError>)
    ensures
        reports(r, embeds_violation(embeds@)),
{
    let mut k: usize = 0;
    while k < embeds.len()
        invariant
            k <= embeds@.len(),
            embeds_violation(embeds@.take(k as int)) is None,
        decreases embeds@.len() - k,
    {
        proof {
            assert(embeds@.take(k + 1).drop_last() =~= embeds@.take(k as int));
        }
        let base = indexed_path("embeds", k);
        let r = check_embed(&embeds[k], base.as_str());
        if r.is_err() {
            proof {
                lemma_embeds_prefix(embeds@, k + 1);
            }
            return r;
        }
        k += 1;
    }
    assert(embeds@.take(k as int) =~= embeds@);
    Ok(())
}

/// A violation in a prefix of the embeds is the violation of all of them.
proof fn lemma_embeds_prefix(es: Seq<Embed>, n: int)
    requires
        0 <= n <= es.len(),
        embeds_violation(es.take(n)) is Some,
    ensures
        embeds_violation(es) == embeds_violation(es.take(n)),
    decreases es.len() - n,
{
    if n < es.len() {
        assert(es.take(n + 1).drop_last() =~= es.take(n));
        lemma_embeds_prefix(es, n + 1);
    } else {
        assert(es.take(n) =~= es);
    }
}

fn check_embed(embed: &Embed, base: &str) -> (r: Result<(), ValidationError>)
    ensures
        reports(r, embed_violation(*embed, base@)),
{
    let r = check_opt_len(&embed.title, joined(base, ".title"), MAX_TITLE_CHARS);
    if r.is_err() {
        return r;
    }
    let r = check_opt_len(&embed.description, joined(base, ".description"), MAX_DESCRIPTION_CHARS);
    if r.is_err() {
        return r;
    }
    if let Some(color) = embed.color {
        if color < MIN_COLOR || color > MAX_COLOR {
            return Err(
                ValidationError::OutOfRange {
                    path: joined(base, ".color"),
                    min: MIN_COLOR,
                    max: MAX_COLOR,
                    actual: color,
                },
            );
        }
    }
    if let Some(footer) = &embed.footer {
        let r = check_len(footer.text.as_str(), joined(base, ".footer.text"), MAX_FOOTER_TEXT_CHARS);
        if r.is_err() {
            return r;
        }
    }
    if let Some(author) = &embed.author {
        let r = check_len(author.name.as_str(), joined(base, ".author.name"), MAX_AUTHOR_NAME_CHARS);
        if r.is_err() {
            return r;
        }
    }
    if embed.fields.len() > MAX_FIELDS {
        return Err(
            ValidationError::TooManyItems {
                path: joined(base, ".fields"),
                limit: MAX_FIELDS,
                actual: embed.fields.len(),
            },
        );
    }
    check_fields(&embed.fields, base)
}

fn check_fields(fields: &Vec<Field>, base: &str) -> (r: Result<(), ValidationError>)
    ensures
        reports(r, fields_violation(fields@, base@)),
{
    let prefix = joined(base, ".fields");
    let mut k: usize = 0;
    while k < fields.len()
        invariant
            k <= fields@.len(),
            prefix@ == base@ + ".fields"@,
            fields_violation(fields@.take(k as int), base@) is None,
        decreases fields@.len() - k,
    {
        proof {
            assert(fields@.take(k + 1).drop_last() =~= fields@.take(k as int));
        }
        let field = &fields[k];
        let path = indexed_path(prefix.as_str(), k);
        let r = check_len(field.name.as_str(), joined(path.as_str(), ".name"), MAX_FIELD_NAME_CHARS);
        if r.is_err() {
            proof {
                lemma_fields_prefix(fields@, base@, k + 1);
            }
            return r;
        }
        let r = check_len(
            field.value.as_str(),
            joined(path.as_str(), ".value"),
            MAX_FIELD_VALUE_CHARS,
        );
        if r.is_err() {
            proof {
                lemma_fields_prefix(fields@, base@, k + 1);
            }
            return r;
        }
        k += 1;
    }
    assert(fields@.take(k as int) =~= fields@);
    Ok(())
}

/// A violation in a prefix of the fields is the violation of all of them.
proof fn lemma_fields_prefix(fs: Seq<Field>, base: Seq<char>, n: int)
    requires
        0 <= n <= fs.len(),
        fields_violation(fs.take(n), base) is Some,
    ensures
        fields_violation(fs, base) == fields_violation(fs.take(n), base),
    decreases fs.len() - n,
{
    if n < fs.len() {
        assert(fs.take(n + 1).drop_last() =~= fs.take(n));
        lemma_fields_prefix(fs, base, n + 1);
    } else {
        assert(fs.take(n) =~= fs);
    }
}

/// A violation in a prefix of a component list is the violation of the whole list.
proof fn lemma_list_prefix(cs: Seq<Component>, prefix: Seq<char>, n: int)
    requires
        0 <= n <= cs.len(),
        list_violation(cs.take(n), prefix) is Some,
    ensures
        list_violation(cs, prefix) == list_violation(cs.take(n), prefix),
    decreases cs.len() - n,
{
    if n < cs.len() {
        assert(cs.take(n + 1).drop_last() =~= cs.take(n));
        lemma_list_prefix(cs, prefix, n + 1);
    } else {
        assert(cs.take(n) =~= cs);
    }
}

fn walk_list(components: &Vec<Component>, prefix: &str) -> (r: Result<(), ValidationError>)
    ensures
        reports(r, list_violation(components@, prefix@)),
    decreases components@, 0int,
{
    let mut k: usize = 0;
    while k < components.len()
        invariant
            k <= components@.len(),
            list_violation(components@.take(k as int), prefix@) is None,
        decreases components@.len() - k,
    {
        proof {
            assert(components@.take(k + 1).drop_last() =~= components@.take(k as int));
        }
        let path = indexed_path(prefix, k);
        let r = check_component(&components[k], path.as_str());
        if r.is_err() {
            proof {
                lemma_list_prefix(components@, prefix@, k + 1);
            }
            return r;
        }
        k += 1;
    }
    assert(components@.take(k as int) =~= components@);
    Ok(())
}

fn check_component(component: &Component, path: &str) -> (r: Result<(), ValidationError>)
    ensures
        reports(r, component_violation(*component, path@)),
    decreases *component, 1int,
{
    match component {
        Component::ActionRow { components } => {
            if components.len() > MAX_ACTION_ROW_CHILDREN {
                return Err(
                    ValidationError::ActionRowTooLarge {
                        path: String::from_str(path),
                        limit: MAX_ACTION_ROW_CHILDREN,
                        actual: components.len(),
                    },
                );
            }
            let children = joined(path, ".components");
            walk_list(components, children.as_str())
        },
        Component::Button { style, .. } => {
            if *style < MIN_BUTTON_STYLE || *style > MAX_BUTTON_STYLE {
                return Err(
                    ValidationError::OutOfRange {
                        path: joined(path, ".style"),
                        min: MIN_BUTTON_STYLE as i64,
                        max: MAX_BUTTON_STYLE as i64,
                        actual: *style as i64,
                    },
                );
            }
            Ok(())
        },
        Component::Section { components, accessory } => {
            let children = joined(path, ".components");
            let r = walk_list(components, children.as_str());
            if r.is_err() {
                return r;
            }
            let at = joined(path, ".accessory");
            check_component(accessory, at.as_str())
        },
        Component::Container { components, .. } => {
            let children = joined(path, ".components");
            walk_list(components, children.as_str())
        },
        Component::TextDisplay { content } => {
            check_len(content.as_str(), joined(path, ".content"), MAX_TEXT_DISPLAY_CHARS)
        },
        Component::MediaGallery { items } => {
            if items.len() > MAX_GALLERY_ITEMS {
                return Err(
                    ValidationError::TooManyItems {
                        path: String::from_str(path),
                        limit: MAX_GALLERY_ITEMS,
                        actual: items.len(),
                    },
                );
            }
            Ok(())
        },
        _ => Ok(()),
    }
}

/// The text display characters of a component, saturated at `usize::MAX`.
pub fn text_display_char_count(component: &Component) -> (n: usize)
    ensures
        n == saturated(text_chars(*component)),
        text_chars(*component) <= usize::MAX ==> n == text_chars(*component),
    decreases *component, 1int,
{
    match component {
        Component::TextDisplay { content } => content.as_str().unicode_len(),
        Component::ActionRow { components } => text_display_char_count_in(components),
        Component::Section { components, accessory } => {
            let a = text_display_char_count_in(components);
            let b = text_display_char_count(accessory);
            a.saturating_add(b)
        },
        Component::Container { components, .. } => text_display_char_count_in(components),
        _ => 0,
    }
}

/// The text display characters of a list of components, saturated at `usize::MAX`.
pub fn text_display_char_count_in(components: &Vec<Component>) -> (n: usize)
    ensures
        n == saturated(text_chars_in(components@)),
        text_chars_in(components@) <= usize::MAX ==> n == text_chars_in(components@),
    decreases components@, 0int,
{
    let mut total: usize = 0;
    let mut k: usize = 0;
    while k < components.len()
        invariant
            k <= components@.len(),
            total == saturated(text_chars_in(components@.take(k as int))),
        decreases components@.len() - k,
    {
        proof {
            assert(components@.take(k + 1).drop_last() =~= components@.take(k as int));
        }
        let n = text_display_char_count(&components[k]);
        total = total.saturating_add(n);
        k += 1;
    }
    assert(components@.take(k as int) =~= components@);
    total
}

/// The decimal notation of an integer, with a minus sign when negative.
pub open spec fn signed_decimal(n: int) -> Seq<char> {
    if n < 0 {
        seq!['-'] + decimal((-n) as nat)
    } else {
        decimal(n as nat)
    }
}

/// The message a violation reads as.
pub open spec fn violation_text(v: ViolationM) -> Seq<char> {
    match v {
        ViolationM::TooLong { path, limit, actual } => path + " must be at most "@ + decimal(
            limit as nat,
        ) + " characters, got "@ + decimal(actual as nat),
        ViolationM::TooManyItems { path, limit, actual } => path + " must contain at most "@
            + decimal(limit as nat) + " items, got "@ + decimal(actual as nat),
        ViolationM::OutOfRange { path, min, max, actual } => path + " must be between "@
            + signed_decimal(min) + " and "@ + signed_decimal(max) + ", got "@ + signed_decimal(
            actual,
        ),
        ViolationM::ForbiddenWithComponentsV2 { path } => path
            + ": not allowed when the components v2 flag is set"@,
        ViolationM::MissingComponentsForV2 { path } => path
            + ": at least one component is required when the components v2 flag is set"@,
        ViolationM::ActionRowTooLarge { path, limit, actual } => path
            + ": action rows allow at most "@ + decimal(limit as nat) + " child components, got "@
            + decimal(actual as nat),
        ViolationM::CombinedTextTooLong { limit, actual } =>
            "content and text display contents must total at most "@ + decimal(limit as nat)
            + " characters, got "@ + decimal(actual as nat),
    }
}

/// Appends the decimal notation of a signed integer.
fn push_signed(out: &mut String, n: i64)
    ensures
        final(out)@ == old(out)@ + signed_decimal(n as int),
{
    if n < 0 {
        push_char(out, '-');
        let magnitude: u64 = if n == i64::MIN {
            9223372036854775808
        } else {
            (-n) as u64
        };
        push_decimal(out, magnitude);
        assert(out@ =~= old(out)@ + signed_decimal(n as int));
    } else {
        push_decimal(out, n as u64);
    }
}

impl ValidationError {
    /// The error message.
    pub fn to_string(&self) -> (s: String)
        ensures
            s@ == violation_text(self@),
    {
        let mut s = String::new();
        match self {
            ValidationError::TooLong { path, limit, actual } => {
                s.append(path.as_str());
                s.append(" must be at most ");
                push_decimal(&mut s, *limit as u64);
                s.append(" characters, got ");
                push_decimal(&mut s, *actual as u64);
            },
            ValidationError::TooManyItems { path, limit, actual } => {
                s.append(path.as_str());
                s.append(" must contain at most ");
                push_decimal(&mut s, *limit as u64);
                s.append(" items, got ");
                push_decimal(&mut s, *actual as u64);
            },
            ValidationError::OutOfRange { path, min, max, actual } => {
                s.append(path.as_str());
                s.append(" must be between ");
                push_signed(&mut s, *min);
                s.append(" and ");
                push_signed(&mut s, *max);
                s.append(", got ");
                push_signed(&mut s, *actual);
            },
            ValidationError::ForbiddenWithComponentsV2 { path } => {
                s.append(path.as_str());
                s.append(": not allowed when the components v2 flag is set");
            },
            ValidationError::MissingComponentsForV2 { path } => {
                s.append(path.as_str());
                s.append(": at least one component is required when the components v2 flag is set");
            },
            ValidationError::ActionRowTooLarge { path, limit, actual } => {
                s.append(path.as_str());
                s.append(": action rows allow at most ");
                push_decimal(&mut s, *limit as u64);
                s.append(" child components, got ");
                push_decimal(&mut s, *actual as u64);
            },
            ValidationError::CombinedTextTooLong { limit, actual } => {
                s.append("content and text display contents must total at most ");
                push_decimal(&mut s, *limit as u64);
                s.append(" characters, got ");
                push_decimal(&mut s, *actual as u64);
            },
        }
        assert(s@ =~= violation_text(self@));
        s
    }
}

} // verus!
