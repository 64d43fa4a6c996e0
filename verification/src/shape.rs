use vstd::prelude::*;

use crate::model::Component;
use crate::model::ParseError;
use crate::model::SelectOption;
use crate::text::decimal;
use crate::text::push_decimal;

verus! {

/// The numeric `type` tag of a component.
pub open spec fn tag_of(c: Component) -> nat {
    match c {
        Component::ActionRow { .. } => 1,
        Component::Button { .. } => 2,
        Component::SelectMenu { kind, .. } => kind as nat,
        Component::Section { .. } => 9,
        Component::TextDisplay { .. } => 10,
        Component::Thumbnail { .. } => 11,
        Component::MediaGallery { .. } => 12,
        Component::File { .. } => 13,
        Component::Separator { .. } => 14,
        Component::Container { .. } => 17,
    }
}

/// A select-menu tag: string (3), user, role, mentionable or channel (5 to 8).
pub open spec fn select_tag(t: nat) -> bool {
    t == 3 || (5 <= t <= 8)
}

/// Some option of a string select carries no `value`.
pub open spec fn option_without_value(options: Seq<SelectOption>) -> bool {
    exists|i: int| 0 <= i < options.len() && (#[trigger] options[i]).value is None
}

/// What is wrong with a select menu: a string select needs a value on every option.
pub open spec fn select_fault(c: Component) -> Option<Seq<char>> {
    match c {
        Component::SelectMenu { kind, options, .. } => if kind == 3 && option_without_value(
            options@,
        ) {
            Some("string select option without \"value\""@)
        } else {
            None
        },
        _ => None,
    }
}

/// Every component is a button.
pub open spec fn all_buttons(cs: Seq<Component>) -> bool {
    forall|i: int| 0 <= i < cs.len() ==> (#[trigger] cs[i]) is Button
}

/// What is wrong with the children of an action row: its first child decides its
/// kind; a button row holds only buttons, a select row exactly one select menu.
pub open spec fn row_fault(cs: Seq<Component>) -> Option<Seq<char>> {
    if cs.len() == 0 {
        None
    } else if tag_of(cs[0]) == 2 {
        if all_buttons(cs) {
            None
        } else {
            Some("cannot mix component types in one action row"@)
        }
    } else if select_tag(tag_of(cs[0])) {
        if cs.len() != 1 {
            Some(
                "a select-menu action row holds exactly one component, got "@ + decimal(
                    cs.len(),
                ),
            )
        } else {
            select_fault(cs[0])
        }
    } else {
        Some("unsupported action-row component type "@ + decimal(tag_of(cs[0])))
    }
}

/// Every component is a text display.
pub open spec fn all_text(cs: Seq<Component>) -> bool {
    forall|i: int| 0 <= i < cs.len() ==> (#[trigger] cs[i]) is TextDisplay
}

/// What is wrong with a section: text displays beside a thumbnail or button. (The
/// JSON front end reads every section child as a text display, whatever its tag.)
pub open spec fn section_fault(cs: Seq<Component>, accessory: Component) -> Option<Seq<char>> {
    if !all_text(cs) {
        Some("section components must be text displays"@)
    } else if accessory is Thumbnail || accessory is Button {
        None
    } else {
        Some("unsupported section accessory type "@ + decimal(tag_of(accessory)))
    }
}

/// The message for a component that cannot stand at its place.
pub open spec fn misplaced(c: Component, top: bool) -> Seq<char> {
    (if top {
        "unsupported component type "@
    } else {
        "unsupported container component type "@
    }) + decimal(tag_of(c))
}

/// What is wrong with a component at the top of a message (`top`) or inside a
/// container: action rows, sections, text displays, galleries, files and
/// separators may stand in both, containers only at the top.
pub open spec fn component_fault(c: Component, top: bool) -> Option<Seq<char>>
    decreases c, 1int,
{
    match c {
        Component::ActionRow { components } => row_fault(components@),
        Component::Section { components, accessory } => section_fault(components@, *accessory),
        Component::TextDisplay { .. } => None,
        Component::MediaGallery { .. } => None,
        Component::File { .. } => None,
        Component::Separator { .. } => None,
        Component::Container { components, .. } => if top {
            list_fault(components@, false)
        } else {
            Some(misplaced(c, top))
        },
        _ => Some(misplaced(c, top)),
    }
}

/// The first fault of a list of components, in order.
pub open spec fn list_fault(cs: Seq<Component>, top: bool) -> Option<Seq<char>>
    decreases cs, 0int,
{
    if cs.len() == 0 {
        None
    } else {
        let before = list_fault(cs.drop_last(), top);
        if before is Some {
            before
        } else {
            component_fault(cs.last(), top)
        }
    }
}

/// The components of a message have a shape the webhook API accepts.
pub open spec fn shape_ok(cs: Seq<Component>, top: bool) -> bool {
    list_fault(cs, top) is None
}

/// A text display, a separator, a media gallery or a file.
pub open spec fn plain_kind(c: Component) -> bool {
    c is TextDisplay || c is Separator || c is MediaGallery || c is File
}

proof fn lemma_plain_list(cs: Seq<Component>, top: bool)
    requires
        forall|i: int| 0 <= i < cs.len() ==> plain_kind(#[trigger] cs[i]),
    ensures
        list_fault(cs, top) is None,
    decreases cs.len(),
{
    if cs.len() > 0 {
        let init = cs.drop_last();
        assert forall|i: int| 0 <= i < init.len() implies plain_kind(#[trigger] init[i]) by {
            assert(init[i] == cs[i]);
        }
        lemma_plain_list(init, top);
        let c = cs.last();
        assert(c == cs[cs.len() - 1]);
        assert(plain_kind(c));
        assert(component_fault(c, top) is None);
        assert(list_fault(cs, top) == (if list_fault(init, top) is Some {
            list_fault(init, top)
        } else {
            component_fault(c, top)
        }));
    }
}

/// Text displays, separators, media galleries and files are accepted wherever they
/// stand, at the top of a message and inside a container; a list made only of them
/// is accepted at both places.
pub proof fn law_plain_components_are_accepted_everywhere(cs: Seq<Component>, top: bool)
    requires
        forall|i: int| 0 <= i < cs.len() ==> plain_kind(#[trigger] cs[i]),
    ensures
        forall|i: int| 0 <= i < cs.len() ==> component_fault(#[trigger] cs[i], top) is None,
        shape_ok(cs, top),
        shape_ok(cs, false),
        shape_ok(cs, true),
{
    assert forall|i: int| 0 <= i < cs.len() implies component_fault(#[trigger] cs[i], top) is None by {
        assert(plain_kind(cs[i]));
    }
    lemma_plain_list(cs, top);
    lemma_plain_list(cs, false);
    lemma_plain_list(cs, true);
}

/// A container at the top of a message holding only text displays, separators,
/// media galleries and files is accepted.
pub proof fn law_plain_container_is_accepted(c: Component)
    requires
        c is Container,
        forall|i: int|
            0 <= i < c->Container_components@.len() ==> plain_kind(
                #[trigger] c->Container_components@[i],
            ),
    ensures
        component_fault(c, true) is None,
        shape_ok(seq![c], true),
{
    law_plain_components_are_accepted_everywhere(c->Container_components@, false);
    assert(component_fault(c, true) is None);
    assert(seq![c].drop_last() =~= Seq::<Component>::empty());
    assert(list_fault(Seq::<Component>::empty(), true) is None);
    assert(seq![c].last() == c);
}

/// A fault in a prefix of a list is the fault of the whole list.
proof fn lemma_list_fault_prefix(cs: Seq<Component>, top: bool, n: int)
    requires
        0 <= n <= cs.len(),
        list_fault(cs.take(n), top) is Some,
    ensures
        list_fault(cs, top) == list_fault(cs.take(n), top),
    decreases cs.len() - n,
{
    if n < cs.len() {
        assert(cs.take(n + 1).drop_last() =~= cs.take(n));
        lemma_list_fault_prefix(cs, top, n + 1);
    } else {
        assert(cs.take(n) =~= cs);
    }
}

/// A faulty member makes the whole list faulty.
proof fn lemma_list_fault_member(cs: Seq<Component>, top: bool, i: int)
    requires
        0 <= i < cs.len(),
        component_fault(cs[i], top) is Some,
    ensures
        list_fault(cs, top) is Some,
{
    let p = cs.take(i + 1);
    assert(p.drop_last() =~= cs.take(i));
    assert(p.last() == cs[i]);
    assert(list_fault(p, top) is Some);
    lemma_list_fault_prefix(cs, top, i + 1);
}

/// A select menu, a button or a thumbnail standing on its own among a message's
/// or a container's components makes the message's shape unacceptable: select
/// menus and buttons belong in action rows, thumbnails in sections.
pub proof fn law_select_menus_only_in_rows(cs: Seq<Component>, i: int, top: bool)
    requires
        0 <= i < cs.len(),
        cs[i] is SelectMenu || cs[i] is Button || cs[i] is Thumbnail,
    ensures
        !shape_ok(cs, top),
{
    lemma_list_fault_member(cs, top, i);
}

/// An action row that holds a button and a select menu, or two select menus, is
/// refused.
pub proof fn law_rows_do_not_mix(row: Component, i: int, j: int, top: bool)
    requires
        row is ActionRow,
        0 <= i < j < row->ActionRow_components@.len(),
        row->ActionRow_components@[i] is SelectMenu || row->ActionRow_components@[j] is SelectMenu,
    ensures
        component_fault(row, top) is Some,
{
    let cs = row->ActionRow_components@;
    if tag_of(cs[0]) == 2 {
        if cs[i] is SelectMenu {
            assert(!(cs[i] is Button));
        } else {
            assert(!(cs[j] is Button));
        }
    }
}

/// A string select with an option that has no `value` is refused.
pub proof fn law_string_select_options_need_values(c: Component)
    requires
        c is SelectMenu,
        c->SelectMenu_kind == 3,
        option_without_value(c->SelectMenu_options@),
    ensures
        select_fault(c) is Some,
{
}

/// The tag of a component.
fn tag_number(c: &Component) -> (t: u8)
    ensures
        t == tag_of(*c),
{
    match c {
        Component::ActionRow { .. } => 1,
        Component::Button { .. } => 2,
        Component::SelectMenu { kind, .. } => *kind,
        Component::Section { .. } => 9,
        Component::TextDisplay { .. } => 10,
        Component::Thumbnail { .. } => 11,
        Component::MediaGallery { .. } => 12,
        Component::File { .. } => 13,
        Component::Separator { .. } => 14,
        Component::Container { .. } => 17,
    }
}

/// A parse error made of a text and a number.
fn numbered(text: &str, n: u64) -> (e: ParseError)
    ensures
        e@ == text@ + decimal(n as nat),
{
    let mut s = String::from_str(text);
    push_decimal(&mut s, n);
    ParseError::new(s)
}

/// Reports what `shape_ok` refuses.
pub open spec fn reports_fault(r: Result<(), ParseError>, f: Option<Seq<char>>) -> bool {
    match r {
        Ok(_) => f is None,
        Err(e) => f == Some(e@),
    }
}

fn any_option_without_value(options: &Vec<SelectOption>) -> (b: bool)
    ensures
        b == option_without_value(options@),
{
    let mut k: usize = 0;
    while k < options.len()
        invariant
            k <= options@.len(),
            forall|m: int| 0 <= m < k ==> (#[trigger] options@[m]).value is Some,
        decreases options@.len() - k,
    {
        if options[k].value.is_none() {
            assert((options@[k as int]).value is None);
            return true;
        }
        k += 1;
    }
    false
}

fn only_buttons(cs: &Vec<Component>) -> (b: bool)
    ensures
        b == all_buttons(cs@),
{
    let mut k: usize = 0;
    while k < cs.len()
        invariant
            k <= cs@.len(),
            forall|m: int| 0 <= m < k ==> (#[trigger] cs@[m]) is Button,
        decreases cs@.len() - k,
    {
        if !matches!(cs[k], Component::Button { .. }) {
            assert(!((cs@[k as int]) is Button));
            return false;
        }
        k += 1;
    }
    true
}

fn only_text(cs: &Vec<Component>) -> (b: bool)
    ensures
        b == all_text(cs@),
{
    let mut k: usize = 0;
    while k < cs.len()
        invariant
            k <= cs@.len(),
            forall|m: int| 0 <= m < k ==> (#[trigger] cs@[m]) is TextDisplay,
        decreases cs@.len() - k,
    {
        if !matches!(cs[k], Component::TextDisplay { .. }) {
            assert(!((cs@[k as int]) is TextDisplay));
            return false;
        }
        k += 1;
    }
    true
}

fn check_select(c: &Component) -> (r: Result<(), ParseError>)
    ensures
        reports_fault(r, select_fault(*c)),
{
    if let Component::SelectMenu { kind, options, .. } = c {
        if *kind == 3 && any_option_without_value(options) {
            return Err(
                ParseError::new(String::from_str("string select option without \"value\"")),
            );
        }
    }
    Ok(())
}

fn check_row(cs: &Vec<Component>) -> (r: Result<(), ParseError>)
    ensures
        reports_fault(r, row_fault(cs@)),
{
    if cs.len() == 0 {
        return Ok(());
    }
    let first = tag_number(&cs[0]);
    if first == 2 {
        if only_buttons(cs) {
            Ok(())
        } else {
            Err(ParseError::new(String::from_str("cannot mix component types in one action row")))
        }
    } else if first == 3 || (5 <= first && first <= 8) {
        if cs.len() != 1 {
            return Err(
                numbered(
                    "a select-menu action row holds exactly one component, got ",
                    cs.len() as u64,
                ),
            );
        }
        check_select(&cs[0])
    } else {
        Err(numbered("unsupported action-row component type ", first as u64))
    }
}

fn check_section(cs: &Vec<Component>, accessory: &Component) -> (r: Result<(), ParseError>)
    ensures
        reports_fault(r, section_fault(cs@, *accessory)),
{
    if !only_text(cs) {
        return Err(ParseError::new(String::from_str("section components must be text displays")));
    }
    match accessory {
        Component::Thumbnail { .. } => Ok(()),
        Component::Button { .. } => Ok(()),
        _ => Err(numbered("unsupported section accessory type ", tag_number(accessory) as u64)),
    }
}

fn check_misplaced(c: &Component, top: bool) -> (e: ParseError)
    ensures
        e@ == misplaced(*c, top),
{
    let t = tag_number(c) as u64;
    if top {
        numbered("unsupported component type ", t)
    } else {
        numbered("unsupported container component type ", t)
    }
}

fn check_component(c: &Component, top: bool) -> (r: Result<(), ParseError>)
    ensures
        reports_fault(r, component_fault(*c, top)),
    decreases *c, 1int,
{
    match c {
        Component::ActionRow { components } => check_row(components),
        Component::Section { components, accessory } => check_section(components, accessory),
        Component::TextDisplay { .. } => Ok(()),
        Component::MediaGallery { .. } => Ok(()),
        Component::File { .. } => Ok(()),
        Component::Separator { .. } => Ok(()),
        Component::Container { components, .. } => {
            if top {
                check_list(components, false)
            } else {
                Err(check_misplaced(c, top))
            }
        },
        _ => Err(check_misplaced(c, top)),
    }
}

fn check_list(cs: &Vec<Component>, top: bool) -> (r: Result<(), ParseError>)
    ensures
        reports_fault(r, list_fault(cs@, top)),
    decreases cs@, 0int,
{
    let mut k: usize = 0;
    while k < cs.len()
        invariant
            k <= cs@.len(),
            list_fault(cs@.take(k as int), top) is None,
        decreases cs@.len() - k,
    {
        proof {
            assert(cs@.take(k + 1).drop_last() =~= cs@.take(k as int));
        }
        let r = check_component(&cs[k], top);
        if r.is_err() {
            proof {
                lemma_list_fault_prefix(cs@, top, k + 1);
            }
            return r;
        }
        k += 1;
    }
    assert(cs@.take(k as int) =~= cs@);
    Ok(())
}

/// Checks that a message's components have a shape the webhook API accepts, and
/// names the first fault: a component out of place, an action row that mixes kinds
/// or holds more than one select menu, a section with other than text displays
/// beside a thumbnail or button, or a string select option without a value.
pub fn check_shape(components: &Vec<Component>) -> (r: Result<(), ParseError>)
    ensures
        r is Ok <==> shape_ok(components@, true),
        reports_fault(r, list_fault(components@, true)),
{
    check_list(components, true)
}

} // verus!
