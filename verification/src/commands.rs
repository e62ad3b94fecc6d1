//! What the commands take and show, said of characters and of cards.

use crate::change;
use crate::change::Change;
use crate::characters;
use crate::characters::same_letters;
use crate::cli;
use crate::cli::{CheckCommand, SectionCommand};
use crate::error::{Error, Failure};
use crate::fields;
use crate::markdown;
use crate::markdown::ItemView;
use crate::model::CardView;
use crate::store;
use crate::store::{CardWrite, FileView, ProjectView};
use crate::text;
use vstd::prelude::*;

verus! {

/// Whether a field of that name is there on every card.
pub open spec fn is_everywhere(key: Seq<char>) -> bool {
    ||| same_letters(key, "id"@)
    ||| same_letters(key, "title"@)
    ||| same_letters(key, "status"@)
    ||| same_letters(key, "labels"@)
    ||| same_letters(key, "assignee"@)
    ||| same_letters(key, "assignees"@)
    ||| same_letters(key, "ordinal"@)
    ||| same_letters(key, "created_date"@)
    ||| same_letters(key, "updated_date"@)
}

/// Whether a custom field can have a name: it is no white space, keeps to one line and is the name of
/// no field that every card has.
pub open spec fn is_key(key: Seq<char>) -> bool {
    &&& exists|i: int| 0 <= i < key.len() && !text::is_space(#[trigger] key[i])
    &&& forall|i: int| 0 <= i < key.len() ==> !characters::is_line_end(#[trigger] key[i])
    &&& !is_everywhere(key)
}

/// Custom fields have every name but those that every card has, whatever the case of their letters,
/// white space and what takes several lines.
pub proof fn custom_names_are_free(key: Seq<char>)
    ensures
        cli::key_check(key) is Ok <==> is_key(key),
        fields::is_reserved(key) <==> is_everywhere(key),
{
    characters::alike_is_same_letters(key, "id"@);
    characters::alike_is_same_letters(key, "title"@);
    characters::alike_is_same_letters(key, "status"@);
    characters::alike_is_same_letters(key, "labels"@);
    characters::alike_is_same_letters(key, "assignee"@);
    characters::alike_is_same_letters(key, "assignees"@);
    characters::alike_is_same_letters(key, "ordinal"@);
    characters::alike_is_same_letters(key, "created_date"@);
    characters::alike_is_same_letters(key, "updated_date"@);
    if key.contains('\r') {
        let i = key.index_of('\r');
        assert(characters::is_line_end(key[i]));
    }
    if key.contains('\n') {
        let i = key.index_of('\n');
        assert(characters::is_line_end(key[i]));
    }
}

/// An assignment gives what stands behind its first equals sign, character for character, to the name
/// before it, without white space around it. Without the sign, or without a name, it is refused.
pub proof fn assignments_name_and_give(name: Seq<char>, value: Seq<char>, kind: Seq<char>)
    requires
        forall|i: int| 0 <= i < name.len() ==> #[trigger] name[i] != '=',
    ensures
        cli::assignment(name, kind) is Err,
        ({
            let read = cli::assignment(name + seq!['='] + value, kind);
            &&& read is Ok <==> exists|i: int|
                0 <= i < name.len() && !text::is_space(#[trigger] name[i])
            &&& read is Ok ==> characters::strips_space(name, read->Ok_0.0)
            &&& read is Ok ==> read->Ok_0.1 == value
        }),
{
    let definition = name + seq!['='] + value;
    let n = name.len() as int;
    text::lemma_next_index(name, '=', 0, n);
    text::lemma_next_index(definition, '=', 0, n);
    assert(definition.take(n) =~= name);
    assert(definition.skip(n + 1) =~= value);
    characters::trimming_strips(name);
}

/// Whether a card is asked for by a list that is restricted to a status, a label, both or neither.
pub open spec fn is_asked(
    card: CardView,
    status: Option<Seq<char>>,
    label: Option<Seq<char>>,
) -> bool {
    &&& status is Some ==> same_letters(card.metadata.status, status->0)
    &&& label is Some ==> exists|i: int|
        0 <= i < card.metadata.labels.len() && same_letters(
            #[trigger] card.metadata.labels[i],
            label->0,
        )
}

proof fn lemma_asked(card: CardView, status: Option<Seq<char>>, label: Option<Seq<char>>)
    ensures
        cli::is_in_list(card, status, label) == is_asked(card, status, label),
{
    if status is Some {
        characters::alike_is_same_letters(card.metadata.status, status->0);
    }
    if label is Some {
        let labels = card.metadata.labels;
        assert forall|i: int| 0 <= i < labels.len() implies text::alike(
            #[trigger] labels[i],
            label->0,
        ) == same_letters(labels[i], label->0) by {
            characters::alike_is_same_letters(labels[i], label->0);
        }
        if change::has_alike(labels, label->0) {
            let i = choose|i: int|
                0 <= i < labels.len() && text::alike(#[trigger] labels[i], label->0);
            assert(same_letters(labels[i], label->0));
        }
        if is_asked(card, None, label) {
            let i = choose|i: int|
                0 <= i < labels.len() && same_letters(#[trigger] labels[i], label->0);
            assert(text::alike(labels[i], label->0));
        }
    }
}

proof fn lemma_listed(
    cards: Seq<CardView>,
    status: Option<Seq<char>>,
    label: Option<Seq<char>>,
    n: nat,
)
    requires
        n <= cards.len(),
    ensures
        cli::in_list(cards, status, label, n) == cards.take(n as int).filter(
            |card: CardView| is_asked(card, status, label),
        ),
    decreases n,
{
    reveal(Seq::filter);
    let first = cards.take(n as int);
    if n > 0 {
        lemma_listed(cards, status, label, (n - 1) as nat);
        lemma_asked(cards[n - 1], status, label);
        assert(first.drop_last() =~= cards.take(n - 1));
        assert(first.last() == cards[n - 1]);
    }
}

/// A list holds the cards that it is restricted to, all of them, each once and in their order.
pub proof fn lists_hold_what_is_asked(
    cards: Seq<CardView>,
    status: Option<Seq<char>>,
    label: Option<Seq<char>>,
)
    ensures
        cli::in_list(cards, status, label, cards.len()) == cards.filter(
            |card: CardView| is_asked(card, status, label),
        ),
{
    lemma_listed(cards, status, label, cards.len());
    assert(cards.take(cards.len() as int) =~= cards);
}

/// Whether an item is asked for by a list that may be restricted to a section.
pub open spec fn is_asked_item(item: ItemView, section: Option<Seq<char>>) -> bool {
    section is Some ==> item.section is Some && same_letters(item.section->0, section->0)
}

proof fn lemma_listed_items(items: Seq<ItemView>, section: Option<Seq<char>>, n: nat)
    requires
        n <= items.len(),
    ensures
        cli::listed_items(items, section, n) == items.take(n as int).filter(
            |item: ItemView| is_asked_item(item, section),
        ),
    decreases n,
{
    reveal(Seq::filter);
    let first = items.take(n as int);
    if n > 0 {
        lemma_listed_items(items, section, (n - 1) as nat);
        let item = items[n - 1];
        if section is Some && item.section is Some {
            characters::alike_is_same_letters(item.section->0, section->0);
        }
        assert(first.drop_last() =~= items.take(n - 1));
        assert(first.last() == item);
    }
}

/// A checklist that is restricted to a section holds the items of that section, all of them, each
/// once and in their order; one that is not holds every item.
pub proof fn checklists_hold_what_is_asked(items: Seq<ItemView>, section: Option<Seq<char>>)
    ensures
        cli::listed_items(items, section, items.len()) == items.filter(
            |item: ItemView| is_asked_item(item, section),
        ),
{
    lemma_listed_items(items, section, items.len());
    assert(items.take(items.len() as int) =~= items);
}

/// The last of several sections that are given for a new card is set in the body that the others
/// leave; so each is set, in their order.
pub proof fn given_sections_are_set_in_turn(
    body: Seq<char>,
    definitions: Seq<Seq<char>>,
    last: Seq<char>,
    i: int,
)
    requires
        0 <= i <= definitions.len(),
    ensures
        cli::with_sections(body, definitions.push(last), i) == (match cli::with_sections(
            body,
            definitions,
            i,
        ) {
            Ok(next) => match cli::assignment(last, "section"@) {
                Ok((heading, content)) => markdown::section_set(next, heading, content),
                Err(failure) => Err(failure),
            },
            Err(failure) => Err(failure),
        }),
    decreases definitions.len() - i,
{
    let all = definitions.push(last);
    if i < definitions.len() {
        assert(all[i] == definitions[i]);
        if let Ok((heading, content)) = cli::assignment(definitions[i], "section"@) {
            if let Ok(next) = markdown::section_set(body, heading, content) {
                given_sections_are_set_in_turn(next, definitions, last, i + 1);
            }
        }
    } else {
        assert(all[i] == last);
        if let Ok((heading, content)) = cli::assignment(last, "section"@) {
            if let Ok(next) = markdown::section_set(body, heading, content) {
                assert(cli::with_sections(next, all, i + 1) == Ok::<Seq<char>, Failure>(next));
            }
        }
    }
}

/// The last of several items that are given for a new card is added to the body that the others
/// leave; so each is added, in their order.
pub proof fn given_items_are_added_in_turn(
    body: Seq<char>,
    definitions: Seq<Seq<char>>,
    last: Seq<char>,
    i: int,
)
    requires
        0 <= i <= definitions.len(),
    ensures
        cli::with_checks(body, definitions.push(last), i) == (match cli::with_checks(
            body,
            definitions,
            i,
        ) {
            Ok(next) => match cli::assignment(last, "check"@) {
                Ok((heading, text)) => markdown::item_added(next, heading, text),
                Err(failure) => Err(failure),
            },
            Err(failure) => Err(failure),
        }),
    decreases definitions.len() - i,
{
    let all = definitions.push(last);
    if i < definitions.len() {
        assert(all[i] == definitions[i]);
        if let Ok((heading, text)) = cli::assignment(definitions[i], "check"@) {
            if let Ok(next) = markdown::item_added(body, heading, text) {
                given_items_are_added_in_turn(next, definitions, last, i + 1);
            }
        }
    } else {
        assert(all[i] == last);
        if let Ok((heading, text)) = cli::assignment(last, "check"@) {
            if let Ok(next) = markdown::item_added(body, heading, text) {
                assert(cli::with_checks(next, all, i + 1) == Ok::<Seq<char>, Failure>(next));
            }
        }
    }
}

/// Whether an assignment among those from `i` on names a field.
pub open spec fn is_named(definitions: Seq<Seq<char>>, kind: Seq<char>, i: int, key: Seq<char>) -> bool {
    exists|k: int|
        i <= k < definitions.len() && cli::assignment(#[trigger] definitions[k], kind) is Ok
            && cli::assignment(definitions[k], kind)->Ok_0.0 == key
}

/// Fields that are given for a card are all there, those that none names stay as they were, and the
/// last of them has the value that it was given.
pub proof fn given_fields_are_set(
    extra: Map<Seq<char>, Seq<char>>,
    definitions: Seq<Seq<char>>,
    yaml: bool,
    i: int,
)
    requires
        0 <= i <= definitions.len(),
        cli::with_fields(extra, definitions, yaml, i) is Ok,
    ensures
        ({
            let all = cli::with_fields(extra, definitions, yaml, i)->Ok_0;
            let kind = cli::field_kind(yaml);
            &&& forall|key: Seq<char>| #[trigger]
                all.dom().contains(key) <==> extra.dom().contains(key) || is_named(
                    definitions,
                    kind,
                    i,
                    key,
                )
            &&& forall|key: Seq<char>|
                extra.dom().contains(key) && !is_named(definitions, kind, i, key)
                    ==> #[trigger] all[key] == extra[key]
            &&& i < definitions.len() ==> {
                let (key, value) = cli::assignment(definitions.last(), kind)->Ok_0;
                is_key(key) && cli::field_value(value, yaml) == Ok::<Seq<char>, Failure>(all[key])
            }
        }),
    decreases definitions.len() - i,
{
    let kind = cli::field_kind(yaml);
    let all = cli::with_fields(extra, definitions, yaml, i)->Ok_0;
    if i < definitions.len() {
        let (name, value) = cli::assignment(definitions[i], kind)->Ok_0;
        let json = cli::field_value(value, yaml)->Ok_0;
        custom_names_are_free(name);
        let next = extra.insert(name, json);
        given_fields_are_set(next, definitions, yaml, i + 1);
        assert forall|key: Seq<char>|
            is_named(definitions, kind, i, key) == (key == name || is_named(
                definitions,
                kind,
                i + 1,
                key,
            )) by {
            if is_named(definitions, kind, i, key) {
                let k = choose|k: int|
                    i <= k < definitions.len() && cli::assignment(
                        #[trigger] definitions[k],
                        kind,
                    ) is Ok && cli::assignment(definitions[k], kind)->Ok_0.0 == key;
                assert(k == i || is_named(definitions, kind, i + 1, key));
            }
            assert(is_named(definitions, kind, i, name)) by {
                assert(cli::assignment(definitions[i], kind)->Ok_0.0 == name);
            }
        }
        assert forall|key: Seq<char>|
            extra.dom().contains(key) && !is_named(definitions, kind, i, key) implies #[trigger]
        all[key] == extra[key] by {
            assert(next.dom().contains(key));
            assert(next[key] == extra[key]);
        }
        if i + 1 == definitions.len() {
            assert(all == next);
        }
    }
}

/// A new card has the title, the status, the labels and the assignees that are given, whatever
/// sections, items and fields are given beside them; without those its body is the one that is given.
pub proof fn given_cards_keep_what_is_given(input: cli::AddView)
    requires
        cli::add_plan(input) is Ok,
    ensures
        ({
            let card = cli::add_plan(input)->Ok_0;
            &&& card.title == input.card.title
            &&& card.status == input.card.status
            &&& card.labels == input.card.labels
            &&& card.assignees == input.card.assignees
            &&& input.sections.len() == 0 && input.checks.len() == 0 ==> card.body
                == input.card.body
            &&& input.fields.len() == 0 && input.yaml_fields.len() == 0 ==> card.extra
                == Map::<Seq<char>, Seq<char>>::empty()
        }),
{
}

/// The commands on a checklist do what they are called: one adds an item, one turns an item over, one
/// checks it, one takes its mark away and one removes it, in a section or by its number on the card.
pub proof fn checklist_commands_do_what_they_say(
    s: Seq<char>,
    section: String,
    text: String,
    index: usize,
)
    ensures
        ({
            let named = markdown::item_named(s, section@, index as nat);
            let numbered = markdown::item_numbered(s, index as nat);
            &&& change::rewritten(s, cli::check_change(CheckCommand::Add { section, text }))
                == markdown::item_added(s, section@, text@)
            &&& change::rewritten(s, cli::check_change(CheckCommand::Toggle { section, index }))
                == markdown::item_toggled(s, named)
            &&& change::rewritten(s, cli::check_change(CheckCommand::Check { section, index }))
                == markdown::item_set(s, named, true)
            &&& change::rewritten(s, cli::check_change(CheckCommand::Uncheck { section, index }))
                == markdown::item_set(s, named, false)
            &&& change::rewritten(s, cli::check_change(CheckCommand::Remove { section, index }))
                == markdown::item_removed(s, named)
            &&& change::rewritten(s, cli::check_change(CheckCommand::ToggleGlobal { index }))
                == markdown::item_toggled(s, numbered)
            &&& change::rewritten(s, cli::check_change(CheckCommand::CheckGlobal { index }))
                == markdown::item_set(s, numbered, true)
            &&& change::rewritten(s, cli::check_change(CheckCommand::UncheckGlobal { index }))
                == markdown::item_set(s, numbered, false)
            &&& change::rewritten(s, cli::check_change(CheckCommand::RemoveGlobal { index }))
                == markdown::item_removed(s, numbered)
        }),
{
    reveal(change::rewritten);
}

/// The commands on a section do what they are called, to the section that they name and with the
/// content that they are given. White space alone is not appended.
pub proof fn section_commands_do_what_they_say(
    project: ProjectView,
    files: Seq<FileView>,
    id: Seq<char>,
    heading: String,
    content: String,
    result: Result<(CardWrite, String), Error>,
)
    ensures
        cli::is_section_changed(
            project,
            files,
            id,
            SectionCommand::Replace { heading, content },
            result,
        ) && result is Ok ==> store::is_update(
            project,
            files,
            id,
            Change::SetSection { heading, content },
            Ok(result->Ok_0.0),
        ),
        cli::is_section_changed(
            project,
            files,
            id,
            SectionCommand::Append { heading, content },
            result,
        ) && result is Ok ==> store::is_update(
            project,
            files,
            id,
            Change::AppendSection { heading, content },
            Ok(result->Ok_0.0),
        ) && exists|i: int| 0 <= i < content@.len() && !text::is_space(#[trigger] content@[i]),
        cli::is_section_changed(
            project,
            files,
            id,
            SectionCommand::Remove { heading },
            result,
        ) && result is Ok ==> store::is_update(
            project,
            files,
            id,
            Change::RemoveSection { heading },
            Ok(result->Ok_0.0),
        ),
{
}

} // verus!
