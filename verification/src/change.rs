//! Semantic changes to a card.

use crate::error;
use crate::error::{Error, ErrorKind, Failure};
use crate::markdown;
use crate::model::{Card, CardView, MetadataView};
use crate::text;
use vstd::prelude::*;

verus! {

/// Changes to the metadata of a card.
#[derive(Clone, Debug, PartialEq, Eq)]
pub struct Edit {
    pub title: Option<String>,
    pub status: Option<String>,
    pub add_labels: Vec<String>,
    pub remove_labels: Vec<String>,
    pub add_assignees: Vec<String>,
    pub remove_assignees: Vec<String>,
}

/// A change to a card.
#[derive(Clone, Debug, PartialEq, Eq)]
pub enum Change {
    /// To another column.
    Move(String),
    /// Of its metadata.
    Edit(Edit),
    /// A custom field is set to a JSON text.
    SetField { key: String, value: String },
    /// A custom field is removed.
    UnsetField { key: String },
    /// The content of a section is set.
    SetSection { heading: String, content: String },
    /// A paragraph is added to a section.
    AppendSection { heading: String, content: String },
    /// A section is removed.
    RemoveSection { heading: String },
    /// A checklist item is added to a section.
    AddItem { section: String, text: String },
    /// A checklist item of a section is turned over.
    ToggleItem { section: String, index: usize },
    /// A checklist item of a section is set.
    SetItem { section: String, index: usize, checked: bool },
    /// A checklist item of a section is removed.
    RemoveItem { section: String, index: usize },
    /// A checklist item of the body is turned over.
    ToggleGlobal { index: usize },
    /// A checklist item of the body is set.
    SetGlobal { index: usize, checked: bool },
    /// A checklist item of the body is removed.
    RemoveGlobal { index: usize },
}

/// Whether one of the values has the same letters, whatever their case.
pub open spec fn has_alike(values: Seq<Seq<char>>, value: Seq<char>) -> bool {
    exists|i: int| 0 <= i < values.len() && text::alike(#[trigger] values[i], value)
}

/// The additions from `i` on, trimmed, that are neither empty nor there already, behind the values.
pub open spec fn extended(values: Seq<Seq<char>>, additions: Seq<Seq<char>>, i: int) -> Seq<
    Seq<char>,
>
    decreases additions.len() - i,
{
    if i < 0 || i >= additions.len() {
        values
    } else {
        let addition = text::trim(additions[i]);
        if addition.len() == 0 || has_alike(values, addition) {
            extended(values, additions, i + 1)
        } else {
            extended(values.push(addition), additions, i + 1)
        }
    }
}

/// Whether a value is to be removed.
pub open spec fn is_removed(value: Seq<char>, removals: Seq<Seq<char>>) -> bool {
    exists|i: int| 0 <= i < removals.len() && text::alike(value, text::trim(#[trigger] removals[i]))
}

/// The first `n` values without those that are to be removed.
pub open spec fn retained(values: Seq<Seq<char>>, removals: Seq<Seq<char>>, n: nat) -> Seq<
    Seq<char>,
>
    decreases n,
{
    if n == 0 || n > values.len() {
        Seq::empty()
    } else {
        let before = retained(values, removals, (n - 1) as nat);
        if is_removed(values[n - 1], removals) {
            before
        } else {
            before.push(values[n - 1])
        }
    }
}

/// Values with additions and without removals.
pub open spec fn revised(
    values: Seq<Seq<char>>,
    additions: Seq<Seq<char>>,
    removals: Seq<Seq<char>>,
) -> Seq<Seq<char>> {
    let more = extended(values, additions, 0);
    retained(more, removals, more.len())
}

/// Whether one of the values has the same letters.
pub fn holds_alike(values: &Vec<String>, value: &str) -> (r: bool)
    ensures
        r == has_alike(text::strings(values@), value@),
{
    let ghost views = text::strings(values@);
    let mut i: usize = 0;
    while i < values.len()
        invariant
            i <= values@.len(),
            views == text::strings(values@),
            forall|k: int| 0 <= k < i ==> !text::alike(#[trigger] views[k], value@),
        decreases values@.len() - i,
    {
        assert(views[i as int] == values@[i as int]@);
        if text::alike_strings(&values[i], value) {
            return true;
        }
        i += 1;
    }
    false
}

/// Adds values that are not there yet.
pub fn extend_unique(target: &mut Vec<String>, additions: &Vec<String>)
    ensures
        text::strings(final(target)@) == extended(
            text::strings(old(target)@),
            text::strings(additions@),
            0,
        ),
{
    let ghost views = text::strings(additions@);
    let ghost all = extended(text::strings(target@), views, 0);
    let mut i: usize = 0;
    while i < additions.len()
        invariant
            i <= additions@.len(),
            views == text::strings(additions@),
            extended(text::strings(target@), views, i as int) == all,
        decreases additions@.len() - i,
    {
        assert(views[i as int] == additions@[i as int]@);
        let addition = text::trim_string(&additions[i]);
        if text::chars_of(&addition).len() > 0 && !holds_alike(target, &addition) {
            let ghost before = text::strings(target@);
            let ghost added = addition@;
            target.push(addition);
            assert(text::strings(target@) =~= before.push(added));
        }
        i += 1;
    }
}

/// Whether a value is to be removed.
fn to_remove(value: &str, removals: &Vec<String>) -> (r: bool)
    ensures
        r == is_removed(value@, text::strings(removals@)),
{
    let ghost views = text::strings(removals@);
    let mut i: usize = 0;
    while i < removals.len()
        invariant
            i <= removals@.len(),
            views == text::strings(removals@),
            forall|k: int| 0 <= k < i ==> !text::alike(value@, text::trim(#[trigger] views[k])),
        decreases removals@.len() - i,
    {
        assert(views[i as int] == removals@[i as int]@);
        let removal = text::trim_string(&removals[i]);
        if text::alike_strings(value, &removal) {
            return true;
        }
        i += 1;
    }
    false
}

/// Removes values.
pub fn remove_values(target: &Vec<String>, removals: &Vec<String>) -> (r: Vec<String>)
    ensures
        text::strings(r@) == retained(
            text::strings(target@),
            text::strings(removals@),
            target@.len(),
        ),
{
    let ghost views = text::strings(target@);
    let mut out: Vec<String> = Vec::new();
    assert(text::strings(out@) =~= Seq::empty());
    let mut i: usize = 0;
    while i < target.len()
        invariant
            i <= target@.len(),
            views == text::strings(target@),
            views.len() == target@.len(),
            text::strings(out@) == retained(views, text::strings(removals@), i as nat),
        decreases target@.len() - i,
    {
        assert(views[i as int] == target@[i as int]@);
        if !to_remove(&target[i], removals) {
            let value = text::copy_string(&target[i]);
            let ghost before = text::strings(out@);
            let ghost added = value@;
            out.push(value);
            assert(text::strings(out@) =~= before.push(added));
        }
        i += 1;
    }
    out
}

/// Adds values that are not there yet, then removes values.
fn revise(values: &Vec<String>, additions: &Vec<String>, removals: &Vec<String>) -> (r: Vec<String>)
    ensures
        text::strings(r@) == revised(
            text::strings(values@),
            text::strings(additions@),
            text::strings(removals@),
        ),
{
    let mut more = text::copy_strings(values);
    extend_unique(&mut more, additions);
    assert(text::strings(more@).len() == more@.len());
    remove_values(&more, removals)
}

/// Whether there is nothing to change.
pub open spec fn is_empty_edit(edit: Edit) -> bool {
    &&& edit.title is None
    &&& edit.status is None
    &&& edit.add_labels@.len() == 0
    &&& edit.remove_labels@.len() == 0
    &&& edit.add_assignees@.len() == 0
    &&& edit.remove_assignees@.len() == 0
}

/// Refuses an edit that changes nothing.
pub fn ensure_edit(edit: &Edit) -> (r: Result<(), Error>)
    ensures
        error::decides(
            r,
            if is_empty_edit(*edit) {
                Err(error::plain(ErrorKind::NoEdits))
            } else {
                Ok(())
            },
        ),
{
    if edit.title.is_none() && edit.status.is_none() && edit.add_labels.len() == 0
        && edit.remove_labels.len() == 0 && edit.add_assignees.len() == 0
        && edit.remove_assignees.len() == 0 {
        return Err(Error::plain(ErrorKind::NoEdits));
    }
    Ok(())
}

/// Metadata after an edit.
pub open spec fn edited(metadata: MetadataView, edit: Edit) -> MetadataView {
    MetadataView {
        title: match edit.title {
            Some(title) => title@,
            None => metadata.title,
        },
        status: match edit.status {
            Some(status) => status@,
            None => metadata.status,
        },
        labels: revised(
            metadata.labels,
            text::strings(edit.add_labels@),
            text::strings(edit.remove_labels@),
        ),
        assignees: revised(
            metadata.assignees,
            text::strings(edit.add_assignees@),
            text::strings(edit.remove_assignees@),
        ),
        ..metadata
    }
}

/// A card with another body, where there is one.
pub open spec fn with_body(card: CardView, body: Result<Seq<char>, Failure>) -> Result<
    CardView,
    Failure,
> {
    match body {
        Ok(body) => Ok(CardView { body, ..card }),
        Err(failure) => Err(failure),
    }
}

/// The body that a change of the body makes.
#[verifier::opaque]
pub open spec fn rewritten(s: Seq<char>, change: Change) -> Result<Seq<char>, Failure> {
    match change {
        Change::SetSection { heading, content } => markdown::section_set(s, heading@, content@),
        Change::AppendSection { heading, content } => markdown::section_extended(
            s,
            heading@,
            content@,
        ),
        Change::RemoveSection { heading } => markdown::section_removed(s, heading@),
        Change::AddItem { section, text } => markdown::item_added(s, section@, text@),
        Change::ToggleItem { section, index } => markdown::item_toggled(
            s,
            markdown::item_named(s, section@, index as nat),
        ),
        Change::SetItem { section, index, checked } => markdown::item_set(
            s,
            markdown::item_named(s, section@, index as nat),
            checked,
        ),
        Change::RemoveItem { section, index } => markdown::item_removed(
            s,
            markdown::item_named(s, section@, index as nat),
        ),
        Change::ToggleGlobal { index } => markdown::item_toggled(
            s,
            markdown::item_numbered(s, index as nat),
        ),
        Change::SetGlobal { index, checked } => markdown::item_set(
            s,
            markdown::item_numbered(s, index as nat),
            checked,
        ),
        Change::RemoveGlobal { index } => markdown::item_removed(
            s,
            markdown::item_numbered(s, index as nat),
        ),
        _ => Ok(s),
    }
}

/// A card after a change.
pub open spec fn changed(card: CardView, change: Change) -> Result<CardView, Failure> {
    let extra = card.metadata.extra;
    match change {
        Change::Move(status) => Ok(
            CardView { metadata: MetadataView { status: status@, ..card.metadata }, ..card },
        ),
        Change::Edit(edit) => Ok(CardView { metadata: edited(card.metadata, edit), ..card }),
        Change::SetField { key, value } => Ok(
            CardView {
                metadata: MetadataView { extra: extra.insert(key@, value@), ..card.metadata },
                ..card
            },
        ),
        Change::UnsetField { key } => if extra.dom().contains(key@) {
            Ok(
                CardView {
                    metadata: MetadataView { extra: extra.remove(key@), ..card.metadata },
                    ..card
                },
            )
        } else {
            Err(error::about(ErrorKind::FieldNotFound, key@))
        },
        _ => with_body(card, rewritten(card.body, change)),
    }
}

/// Gives a card another body.
fn put_body(card: Card, body: Result<String, Error>, Ghost(expected): Ghost<
    Result<Seq<char>, Failure>,
>) -> (r: Result<Card, Error>)
    requires
        error::agrees(body, expected),
    ensures
        error::agrees(r, with_body(card@, expected)),
{
    let mut card = card;
    match body {
        Ok(body) => {
            card.body = body;
            Ok(card)
        },
        Err(error) => Err(error),
    }
}

/// Applies an edit to a card.
fn edit_card(card: Card, edit: &Edit) -> (r: Card)
    ensures
        r@ == (CardView { metadata: edited(card@.metadata, *edit), ..card@ }),
{
    let mut card = card;
    if let Some(title) = &edit.title {
        card.metadata.title = text::copy_string(title);
    }
    if let Some(status) = &edit.status {
        card.metadata.status = text::copy_string(status);
    }
    card.metadata.labels = revise(&card.metadata.labels, &edit.add_labels, &edit.remove_labels);
    card.metadata.assignees = revise(
        &card.metadata.assignees,
        &edit.add_assignees,
        &edit.remove_assignees,
    );
    card
}

/// Applies a change to a card.
pub fn apply(card: Card, change: &Change) -> (r: Result<Card, Error>)
    ensures
        error::agrees(r, changed(card@, *change)),
{
    let mut card = card;
    let ghost s = card@.body;
    proof {
        reveal(rewritten);
    }
    match change {
        Change::Move(status) => {
            card.metadata.status = text::copy_string(status);
            Ok(card)
        },
        Change::Edit(edit) => Ok(edit_card(card, edit)),
        Change::SetField { key, value } => {
            card.metadata.extra = card.metadata.extra.with(key, value);
            Ok(card)
        },
        Change::UnsetField { key } => {
            if card.metadata.extra.get(key).is_none() {
                return Err(Error::about(ErrorKind::FieldNotFound, &text::chars_of(key)));
            }
            card.metadata.extra = card.metadata.extra.without(key);
            Ok(card)
        },
        Change::SetSection { heading, content } => {
            let body = markdown::set_section(&card.body, heading, content);
            put_body(card, body, Ghost(markdown::section_set(s, heading@, content@)))
        },
        Change::AppendSection { heading, content } => {
            let body = markdown::append_section(&card.body, heading, content);
            put_body(card, body, Ghost(markdown::section_extended(s, heading@, content@)))
        },
        Change::RemoveSection { heading } => {
            let body = markdown::remove_section(&card.body, heading);
            put_body(card, body, Ghost(markdown::section_removed(s, heading@)))
        },
        Change::AddItem { section, text } => {
            let body = markdown::add_checklist_item(&card.body, section, text);
            put_body(card, body, Ghost(markdown::item_added(s, section@, text@)))
        },
        Change::ToggleItem { section, index } => {
            let body = markdown::toggle_checklist_item(&card.body, section, *index);
            let ghost item = markdown::item_named(s, section@, *index as nat);
            put_body(card, body, Ghost(markdown::item_toggled(s, item)))
        },
        Change::SetItem { section, index, checked } => {
            let body = markdown::set_checklist_item(&card.body, section, *index, *checked);
            let ghost item = markdown::item_named(s, section@, *index as nat);
            put_body(card, body, Ghost(markdown::item_set(s, item, *checked)))
        },
        Change::RemoveItem { section, index } => {
            let body = markdown::remove_checklist_item(&card.body, section, *index);
            let ghost item = markdown::item_named(s, section@, *index as nat);
            put_body(card, body, Ghost(markdown::item_removed(s, item)))
        },
        Change::ToggleGlobal { index } => {
            let body = markdown::toggle_checklist_global(&card.body, *index);
            let ghost item = markdown::item_numbered(s, *index as nat);
            put_body(card, body, Ghost(markdown::item_toggled(s, item)))
        },
        Change::SetGlobal { index, checked } => {
            let body = markdown::set_checklist_global(&card.body, *index, *checked);
            let ghost item = markdown::item_numbered(s, *index as nat);
            put_body(card, body, Ghost(markdown::item_set(s, item, *checked)))
        },
        Change::RemoveGlobal { index } => {
            let body = markdown::remove_checklist_global(&card.body, *index);
            let ghost item = markdown::item_numbered(s, *index as nat);
            put_body(card, body, Ghost(markdown::item_removed(s, item)))
        },
    }
}

} // verus!
