//! What becomes of a card that is made, moved, edited or sought.

use crate::change;
use crate::change::{Change, Edit};
use crate::config;
use crate::config::ConfigView;
use crate::document;
use crate::error::{Error, Failure};
use crate::fields;
use crate::model::{CardView, MetadataView};
use crate::store;
use crate::store::{CardWrite, CreateView, FileView, ProjectView, WriteView};
use crate::text;
use crate::text::CharClass;
use vstd::prelude::*;

verus! {

/// Whether a card is the one of a collection that has an id, whatever the case of its letters and the
/// white space around it.
pub open spec fn is_card(cards: Seq<CardView>, id: Seq<char>, k: int) -> bool {
    &&& 0 <= k < cards.len()
    &&& text::alike(cards[k].metadata.id, text::trim(id))
    &&& forall|j: int|
        0 <= j < cards.len() && j != k ==> !text::alike(
            (#[trigger] cards[j]).metadata.id,
            text::trim(id),
        )
}

/// The cards of a column but for the one with an id.
pub open spec fn others_in(cards: Seq<CardView>, status: Seq<char>, id: Seq<char>) -> Seq<CardView> {
    cards.filter(
        |card: CardView|
            text::alike(card.metadata.status, status) && !text::alike(card.metadata.id, id),
    )
}

/// The cards of a column.
pub open spec fn all_in(cards: Seq<CardView>, status: Seq<char>) -> Seq<CardView> {
    cards.filter(|card: CardView| text::alike(card.metadata.status, status))
}

pub proof fn lemma_first_with(cards: Seq<CardView>, id: Seq<char>, i: int, k: int)
    requires
        0 <= i <= k <= cards.len(),
        forall|j: int| i <= j < k ==> !store::has_id(#[trigger] cards[j], id),
        k < cards.len() ==> store::has_id(cards[k], id),
    ensures
        store::first_with(cards, id, i) == if k < cards.len() {
            Some(k)
        } else {
            None
        },
    decreases k - i,
{
    if i < k {
        lemma_first_with(cards, id, i + 1, k);
    }
}

proof fn lemma_first_is(cards: Seq<CardView>, id: Seq<char>, i: int)
    requires
        0 <= i,
    ensures
        match store::first_with(cards, id, i) {
            Some(k) => i <= k < cards.len() && store::has_id(cards[k], id) && forall|j: int|
                i <= j < k ==> !store::has_id(#[trigger] cards[j], id),
            None => forall|j: int| i <= j < cards.len() ==> !store::has_id(#[trigger] cards[j], id),
        },
    decreases cards.len() - i,
{
    if i < cards.len() && !store::has_id(cards[i], id) {
        lemma_first_is(cards, id, i + 1);
    }
}

proof fn lemma_count_only(cards: Seq<CardView>, id: Seq<char>, n: nat, k: int)
    requires
        n <= cards.len(),
        forall|j: int| 0 <= j < n && j != k ==> !store::has_id(#[trigger] cards[j], id),
    ensures
        store::count_id(cards, id, n) <= 1,
        k >= n ==> store::count_id(cards, id, n) == 0,
    decreases n,
{
    if n > 0 {
        lemma_count_only(cards, id, (n - 1) as nat, k);
    }
}

pub proof fn lemma_card_with(cards: Seq<CardView>, id: Seq<char>, k: int)
    requires
        is_card(cards, id, k),
    ensures
        store::card_with(cards, id) == Ok::<CardView, Failure>(cards[k]),
{
    let wanted = text::trim(id);
    assert forall|j: int| 0 <= j < cards.len() && j != k implies !store::has_id(
        #[trigger] cards[j],
        wanted,
    ) by {
        assert(!text::alike(cards[j].metadata.id, wanted));
    }
    lemma_first_with(cards, wanted, 0, k);
    lemma_count_only(cards, wanted, cards.len(), k);
}

/// A card is given by its id where it is the only one with it. Where none or several have it, none is
/// given, and no card is given by the id of another one.
pub proof fn cards_are_found_by_id(cards: Seq<CardView>, id: Seq<char>)
    ensures
        store::card_with(cards, id) matches Ok(card) ==> exists|k: int|
            #[trigger] is_card(cards, id, k) && card == cards[k],
        forall|k: int| #[trigger]
            is_card(cards, id, k) ==> store::card_with(cards, id) == Ok::<CardView, Failure>(
                cards[k],
            ),
{
    let wanted = text::trim(id);
    lemma_first_is(cards, wanted, 0);
    if let Ok(card) = store::card_with(cards, id) {
        let k = store::first_with(cards, wanted, 0)->0;
        assert forall|j: int| 0 <= j < cards.len() && j != k implies !text::alike(
            (#[trigger] cards[j]).metadata.id,
            wanted,
        ) by {
            if store::has_id(cards[j], wanted) {
                store::lemma_count_two(cards, wanted, cards.len(), k, j);
            }
        }
        assert(is_card(cards, id, k));
    }
    assert forall|k: int| #[trigger] is_card(cards, id, k) implies store::card_with(cards, id) == Ok::<
        CardView,
        Failure,
    >(cards[k]) by {
        lemma_card_with(cards, id, k);
    }
}

/// A card is shown by its id where no file is broken or the card is found, whatever other files hold.
pub proof fn shown_cards_are_those_with_the_id(files: Seq<FileView>, id: Seq<char>, k: int)
    requires
        is_card(store::all_cards(files), id, k),
    ensures
        store::requested(files, id) == Ok::<CardView, Failure>(store::all_cards(files)[k]),
{
    lemma_card_with(store::all_cards(files), id, k);
}

proof fn lemma_count_others(
    cards: Seq<CardView>,
    status: Seq<char>,
    moving: Option<Seq<char>>,
    n: nat,
    keep: spec_fn(CardView) -> bool,
)
    requires
        n <= cards.len(),
        forall|card: CardView| #[trigger] keep(card) == store::counts(card, status, moving),
    ensures
        store::count_in_column(cards, status, moving, n) == cards.take(n as int).filter(keep).len(),
    decreases n,
{
    reveal(Seq::filter);
    if n > 0 {
        lemma_count_others(cards, status, moving, (n - 1) as nat, keep);
        let first = cards.take(n as int);
        assert(first.drop_last() =~= cards.take(n - 1));
        assert(first.last() == cards[n - 1]);
        assert(keep(cards[n - 1]) == store::counts(cards[n - 1], status, moving));
    }
}

pub proof fn lemma_column_size(cards: Seq<CardView>, status: Seq<char>, id: Seq<char>)
    ensures
        store::count_in_column(cards, status, None, cards.len()) == all_in(cards, status).len(),
        store::count_in_column(cards, status, Some(id), cards.len()) == others_in(
            cards,
            status,
            id,
        ).len(),
{
    lemma_count_others(
        cards,
        status,
        None,
        cards.len(),
        |card: CardView| text::alike(card.metadata.status, status),
    );
    lemma_count_others(
        cards,
        status,
        Some(id),
        cards.len(),
        |card: CardView|
            text::alike(card.metadata.status, status) && !text::alike(card.metadata.id, id),
    );
    assert(cards.take(cards.len() as int) =~= cards);
}

/// Whether an ordinal is behind all those of a column.
pub open spec fn is_last(cards: Seq<CardView>, status: Seq<char>, ordinal: i64) -> bool {
    forall|i: int|
        0 <= i < cards.len() && text::alike((#[trigger] cards[i]).metadata.status, status)
            ==> (cards[i].metadata.ordinal matches Some(other) ==> other < ordinal)
}

proof fn lemma_is_last(cards: Seq<CardView>, status: Seq<char>)
    ensures
        store::ordinal_after(cards, status) matches Ok(ordinal) ==> is_last(cards, status, ordinal),
{
    if let Ok(ordinal) = store::ordinal_after(cards, status) {
        assert forall|i: int| 0 <= i < cards.len() && text::alike(
            (#[trigger] cards[i]).metadata.status,
            status,
        ) implies (cards[i].metadata.ordinal matches Some(other) ==> other < ordinal) by {
            store::lemma_ordinal_bound(cards, status, cards.len(), i);
        }
    }
}

/// Whether a status is the name of a column of a board.
pub open spec fn is_column(config: ConfigView, name: Seq<char>) -> bool {
    exists|c: int| 0 <= c < config.columns.len() && (#[trigger] config.columns[c]).name == name
}

pub proof fn lemma_status_of(config: ConfigView, candidate: Seq<char>)
    ensures
        config::status_of(config, candidate) matches Some(name) ==> is_column(config, name)
            && text::alike(name, text::trim(candidate)),
{
    config::lemma_column_at(config.columns, text::trim(candidate), 0);
}

/// Where an update moves a card to another column, the card that is written comes behind all cards that
/// are there: it has an ordinal, and it is larger than that of every card of the column that has one. The
/// column has room for it: but for the card, fewer cards than its limit are in it.
pub proof fn moved_cards_come_last(
    project: ProjectView,
    files: Seq<FileView>,
    id: Seq<char>,
    change: Change,
    result: Result<CardWrite, Error>,
    k: int,
    c: int,
)
    requires
        store::is_update(project, files, id, change, result),
        result is Ok,
        is_card(store::all_cards(files), id, k),
        config::config_check(project.config) is Ok,
        0 <= c < project.config.columns.len(),
        project.config.columns[c].name == result->Ok_0@.card.metadata.status,
        !text::alike(
            store::all_cards(files)[k].metadata.status,
            result->Ok_0@.card.metadata.status,
        ),
    ensures
        ({
            let cards = store::all_cards(files);
            let metadata = result->Ok_0@.card.metadata;
            &&& metadata.ordinal matches Some(ordinal) && is_last(cards, metadata.status, ordinal)
            &&& project.config.columns[c].wip_limit matches Some(limit) ==> others_in(
                cards,
                metadata.status,
                metadata.id,
            ).len() < limit
        }),
{
    let cards = store::all_cards(files);
    let time = choose|time: Seq<char>|
        store::is_dated(result, time) && crate::error::agrees(
            result,
            #[trigger] store::update(project, files, id, change, time),
        );
    lemma_card_with(cards, id, k);
    let write = result->Ok_0@;
    let card = cards[k];
    let changed = change::changed(card, change)->Ok_0;
    assert(store::settled(project.config, cards, card, changed, time) == Ok::<WriteView, Failure>(
        write,
    ));
    let status = write.card.metadata.status;
    lemma_is_last(cards, status);
    config::columns_are_found_at_their_place(project.config, c);
    lemma_column_size(cards, status, write.card.metadata.id);
}

/// A change keeps the id of a card, its path, its creation date and its ordinal.
proof fn lemma_changed(card: CardView, change: Change)
    ensures
        change::changed(card, change) matches Ok(changed) ==> changed.path == card.path
            && changed.metadata.id == card.metadata.id && changed.metadata.created_date
            == card.metadata.created_date && changed.metadata.ordinal == card.metadata.ordinal,
{
}

/// The card that an update settles.
proof fn lemma_update(
    project: ProjectView,
    files: Seq<FileView>,
    id: Seq<char>,
    change: Change,
    result: Result<CardWrite, Error>,
    k: int,
) -> (r: (CardView, Seq<char>))
    requires
        store::is_update(project, files, id, change, result),
        result is Ok,
        is_card(store::all_cards(files), id, k),
    ensures
        ({
            let cards = store::all_cards(files);
            &&& change::changed(cards[k], change) == Ok::<CardView, Failure>(r.0)
            &&& store::settled(project.config, cards, cards[k], r.0, r.1) == Ok::<
                WriteView,
                Failure,
            >(result->Ok_0@)
            &&& store::collected(files, project.config) == Ok::<Seq<CardView>, Failure>(cards)
        }),
{
    let cards = store::all_cards(files);
    let time = choose|time: Seq<char>|
        store::is_dated(result, time) && crate::error::agrees(
            result,
            #[trigger] store::update(project, files, id, change, time),
        );
    lemma_card_with(cards, id, k);
    (change::changed(cards[k], change)->Ok_0, time)
}

/// What settling keeps of a card.
proof fn lemma_settled(
    config: ConfigView,
    cards: Seq<CardView>,
    previous: CardView,
    card: CardView,
    time: Seq<char>,
)
    ensures
        store::settled(config, cards, previous, card, time) matches Ok(write) ==> {
            let metadata = write.card.metadata;
            &&& metadata.id == card.metadata.id
            &&& write.card.path == card.path
            &&& write.body == card.body
            &&& metadata.created_date == card.metadata.created_date
            &&& metadata.updated_date == time
            &&& is_column(config, metadata.status)
            &&& text::alike(metadata.status, text::trim(card.metadata.status))
            &&& text::alike(previous.metadata.status, metadata.status) ==> metadata.ordinal
                == card.metadata.ordinal
            &&& metadata.title == text::trim(card.metadata.title)
            &&& metadata.title.len() > 0
            &&& metadata.extra == card.metadata.extra
            &&& metadata.labels == store::distinct(card.metadata.labels)
            &&& metadata.assignees == store::distinct(card.metadata.assignees)
            &&& crate::characters::strips_lines(write.body, write.card.body)
        },
{
    lemma_status_of(config, card.metadata.status);
    crate::characters::trimming_strips(card.body);
}

/// Every update gives the card a status that is the name of a column, keeps its id, its path and its
/// creation date, and where the column is the same, its place in it.
pub proof fn updates_keep_the_card(
    project: ProjectView,
    files: Seq<FileView>,
    id: Seq<char>,
    change: Change,
    result: Result<CardWrite, Error>,
    k: int,
)
    requires
        store::is_update(project, files, id, change, result),
        result is Ok,
        is_card(store::all_cards(files), id, k),
    ensures
        ({
            let card = store::all_cards(files)[k];
            let write = result->Ok_0@;
            let metadata = write.card.metadata;
            &&& metadata.id == card.metadata.id
            &&& write.card.path == card.path
            &&& metadata.created_date == card.metadata.created_date
            &&& is_column(project.config, metadata.status)
            &&& text::alike(card.metadata.status, metadata.status) ==> metadata.ordinal
                == card.metadata.ordinal
            &&& metadata.title.len() > 0
            &&& crate::characters::strips_lines(write.body, write.card.body)
        }),
{
    let card = store::all_cards(files)[k];
    let (changed, time) = lemma_update(project, files, id, change, result, k);
    lemma_changed(card, change);
    lemma_settled(project.config, store::all_cards(files), card, changed, time);
}

/// A card can be moved to a column by its name, whatever the case of its letters: where the cards are in
/// order, the column has room, and the ordinals are not exhausted. The card is then in that column, and
/// its body, its custom fields and its title are as before, but for white space around the title.
pub proof fn cards_can_be_moved(
    project: ProjectView,
    files: Seq<FileView>,
    id: Seq<char>,
    change: Change,
    result: Result<CardWrite, Error>,
    k: int,
    c: int,
)
    requires
        store::is_update(project, files, id, change, result),
        change is Move,
        store::collected(files, project.config) is Ok,
        is_card(store::all_cards(files), id, k),
        config::config_check(project.config) is Ok,
        0 <= c < project.config.columns.len(),
        text::alike(project.config.columns[c].name, text::trim(change->Move_0@)),
        ({
            let cards = store::all_cards(files);
            let card = cards[k];
            let column = project.config.columns[c];
            &&& column.wip_limit matches Some(limit) ==> others_in(
                cards,
                column.name,
                card.metadata.id,
            ).len() < limit
            &&& is_sound(card)
            &&& forall|i: int|
                0 <= i < cards.len() ==> ((#[trigger] cards[i]).metadata.ordinal matches Some(other)
                    ==> other <= i64::MAX - 1024)
        }),
    ensures
        ({
            let card = store::all_cards(files)[k];
            let write = result->Ok_0@;
            &&& result is Ok
            &&& write.card.metadata.status == project.config.columns[c].name
            &&& write.body == card.body
            &&& write.card.metadata.extra == card.metadata.extra
            &&& write.card.metadata.title == text::trim(card.metadata.title)
            &&& write.card.metadata.labels == store::distinct(card.metadata.labels)
            &&& write.card.metadata.assignees == store::distinct(card.metadata.assignees)
        }),
{
    let cards = store::all_cards(files);
    let config = project.config;
    let card = cards[k];
    let time = choose|time: Seq<char>|
        store::is_dated(result, time) && crate::error::agrees(
            result,
            #[trigger] store::update(project, files, id, change, time),
        );
    lemma_card_with(cards, id, k);
    let wanted = text::trim(change->Move_0@);
    let name = config.columns[c].name;
    config::checked_boards_are_sound(config);
    config::lemma_column_at(config.columns, wanted, 0);
    let found = config::column_at(config.columns, wanted, 0)->0;
    assert(found == c) by {
        if found < c {
            assert(!config::same_name(config.columns[found].name, config.columns[c].name));
        }
    }
    config::columns_are_found_at_their_place(config, c);
    lemma_column_size(cards, name, card.metadata.id);
    lemma_largest(cards, name, cards.len());
    lemma_trimmed_title(card.metadata.title);
    config::lemma_columns_ok(config.columns, 0, c);
    assert(name.len() > 0);
    assert(text::fold(name).len() == text::fold(wanted).len());
    lemma_blank(change->Move_0@);
}

/// Whether a card can be written: its id, its title and its status hold something, and its custom fields
/// are none of the fields that every card has.
pub open spec fn is_sound(card: CardView) -> bool {
    &&& !text::is_blank(card.metadata.id)
    &&& !text::is_blank(card.metadata.title)
    &&& !text::is_blank(card.metadata.status)
    &&& store::fields_check(card.metadata.extra) is Ok
}

pub proof fn lemma_blank(s: Seq<char>)
    ensures
        text::is_blank(s) <==> text::trim(s).len() == 0,
{
    if text::is_blank(s) {
        text::lemma_lead(s, CharClass::Space, s.len() as int);
    } else {
        lemma_trimmed_title(s);
    }
}

pub proof fn lemma_trimmed_title(title: Seq<char>)
    requires
        !text::is_blank(title),
    ensures
        !text::is_blank(text::trim(title)),
{
    let t = text::trim(title);
    crate::characters::trimming_strips(title);
    let drop = |c: char| text::is_space(c);
    let (from, to) = choose|from: int, to: int|
        crate::characters::strips_to(title, t, drop, from, to);
    let i = choose|i: int| 0 <= i < title.len() && !text::is_space(#[trigger] title[i]);
    if i < from || i >= to {
        assert(drop(title[i]));
    }
    assert(t[i - from] == title[i]);
}

proof fn lemma_largest(cards: Seq<CardView>, status: Seq<char>, n: nat)
    requires
        n <= cards.len(),
    ensures
        match store::largest_ordinal(cards, status, n) {
            Some(largest) => exists|i: int|
                0 <= i < n && text::alike((#[trigger] cards[i]).metadata.status, status)
                    && cards[i].metadata.ordinal == Some(largest),
            None => forall|i: int|
                0 <= i < n && text::alike((#[trigger] cards[i]).metadata.status, status)
                    ==> cards[i].metadata.ordinal is None,
        },
    decreases n,
{
    if n > 0 {
        lemma_largest(cards, status, (n - 1) as nat);
        let before = store::largest_ordinal(cards, status, (n - 1) as nat);
        let now = store::largest_ordinal(cards, status, n);
        if now != before {
            assert(text::alike(cards[n - 1].metadata.status, status));
        } else if before is Some {
            let i = choose|i: int|
                0 <= i < n - 1 && text::alike((#[trigger] cards[i]).metadata.status, status)
                    && cards[i].metadata.ordinal == before;
            assert(cards[i].metadata.ordinal == now);
        }
    }
}

/// The ordinal of a card that comes into a column is 1024 more than the largest one there, and 1024 where
/// there is none.
pub proof fn ordinals_keep_their_distance(cards: Seq<CardView>, status: Seq<char>, ordinal: i64)
    requires
        store::ordinal_after(cards, status) == Ok::<i64, Failure>(ordinal),
    ensures
        is_last(cards, status, ordinal),
        ({
            ||| exists|i: int|
                0 <= i < cards.len() && text::alike((#[trigger] cards[i]).metadata.status, status)
                    && (cards[i].metadata.ordinal matches Some(other) && ordinal == other + 1024)
            ||| ordinal == 1024 && forall|i: int|
                0 <= i < cards.len() && text::alike((#[trigger] cards[i]).metadata.status, status)
                    ==> cards[i].metadata.ordinal is None
        }),
{
    lemma_is_last(cards, status);
    lemma_largest(cards, status, cards.len());
}

/// What an update makes of the rest of a card. A change of the body writes the body that it makes, or
/// fails where that fails, and keeps the labels, the assignees, the custom fields and the title, but for
/// white space and repeated values. A custom field that is set has its value, one that is removed is
/// gone, and the others are kept. An edit gives the title and the status that it names.
pub proof fn updates_change_what_they_name(
    project: ProjectView,
    files: Seq<FileView>,
    id: Seq<char>,
    change: Change,
    result: Result<CardWrite, Error>,
    k: int,
)
    requires
        store::is_update(project, files, id, change, result),
        result is Ok,
        is_card(store::all_cards(files), id, k),
    ensures
        ({
            let card = store::all_cards(files)[k];
            let write = result->Ok_0@;
            let metadata = write.card.metadata;
            let extra = card.metadata.extra;
            &&& change is Edit || metadata.title == text::trim(card.metadata.title)
            &&& change is Edit || metadata.labels == store::distinct(card.metadata.labels)
            &&& change is Edit || metadata.assignees == store::distinct(card.metadata.assignees)
            &&& change is Edit || change is Move || text::alike(
                metadata.status,
                text::trim(card.metadata.status),
            )
            &&& match change {
                Change::Move(status) => write.body == card.body && metadata.extra == extra
                    && text::alike(metadata.status, text::trim(status@)),
                Change::Edit(edit) => {
                    &&& write.body == card.body
                    &&& metadata.extra == extra
                    &&& metadata.title == match edit.title {
                        Some(title) => text::trim(title@),
                        None => text::trim(card.metadata.title),
                    }
                    &&& text::alike(
                        metadata.status,
                        match edit.status {
                            Some(status) => text::trim(status@),
                            None => text::trim(card.metadata.status),
                        },
                    )
                    &&& metadata.labels == store::distinct(
                        change::revised(
                            card.metadata.labels,
                            text::strings(edit.add_labels@),
                            text::strings(edit.remove_labels@),
                        ),
                    )
                    &&& metadata.assignees == store::distinct(
                        change::revised(
                            card.metadata.assignees,
                            text::strings(edit.add_assignees@),
                            text::strings(edit.remove_assignees@),
                        ),
                    )
                },
                Change::SetField { key, value } => write.body == card.body
                    && metadata.extra.dom().contains(key@) && metadata.extra[key@] == value@ && (
                forall|other: Seq<char>|
                    other != key@ ==> metadata.extra.dom().contains(other) == extra.dom().contains(
                        other,
                    ) && (extra.dom().contains(other) ==> #[trigger] metadata.extra[other]
                        == extra[other])),
                Change::UnsetField { key } => write.body == card.body && extra.dom().contains(key@)
                    && !metadata.extra.dom().contains(key@) && (forall|other: Seq<char>|
                    other != key@ ==> metadata.extra.dom().contains(other) == extra.dom().contains(
                        other,
                    ) && (extra.dom().contains(other) ==> #[trigger] metadata.extra[other]
                        == extra[other])),
                _ => metadata.extra == extra && change::rewritten(card.body, change) == Ok::<
                    Seq<char>,
                    Failure,
                >(write.body),
            }
        }),
{
    let card = store::all_cards(files)[k];
    let (changed, time) = lemma_update(project, files, id, change, result, k);
    lemma_settled(project.config, store::all_cards(files), card, changed, time);
}

/// A body that a change would make with its comments out of order is not written, and neither is one
/// that the change cannot make. Where the change can be made, the comments are in order, and the column
/// of the card is one of the board, it is written.
pub proof fn bodies_can_be_changed(
    project: ProjectView,
    files: Seq<FileView>,
    id: Seq<char>,
    change: Change,
    result: Result<CardWrite, Error>,
    k: int,
)
    requires
        store::is_update(project, files, id, change, result),
        !(change is Move) && !(change is Edit) && !(change is SetField) && !(
        change is UnsetField),
        store::collected(files, project.config) is Ok,
        is_card(store::all_cards(files), id, k),
        is_sound(store::all_cards(files)[k]),
        text::alike(
            store::all_cards(files)[k].metadata.status,
            text::trim(store::all_cards(files)[k].metadata.status),
        ),
    ensures
        result is Ok <==> (change::rewritten(
            store::all_cards(files)[k].body,
            change,
        ) matches Ok(body) && (body == store::all_cards(files)[k].body || document::document(
            body,
        ) is Ok)),
{
    let cards = store::all_cards(files);
    let card = cards[k];
    let time = choose|time: Seq<char>|
        store::is_dated(result, time) && crate::error::agrees(
            result,
            #[trigger] store::update(project, files, id, change, time),
        );
    lemma_card_with(cards, id, k);
    lemma_trimmed_title(card.metadata.title);
    store::checked_collections_are_sound(cards, project.config);
    lemma_status_of(project.config, card.metadata.status);
    let status = config::status_of(project.config, card.metadata.status)->0;
    lemma_alike(card.metadata.status, text::trim(card.metadata.status), status);
}

pub proof fn lemma_alike(a: Seq<char>, b: Seq<char>, c: Seq<char>)
    requires
        text::alike(a, b),
        text::alike(c, b),
    ensures
        text::alike(a, c),
{
}

proof fn lemma_kept(values: Seq<Seq<char>>, i: int, done: Seq<Seq<char>>, value: Seq<char>)
    requires
        0 <= i,
    ensures
        done.contains(value) ==> store::kept(values, i, done).contains(value),
        (exists|j: int| i <= j < values.len() && text::trim(#[trigger] values[j]) == value)
            && value.len() > 0 ==> store::kept(values, i, done).contains(value),
        store::kept(values, i, done).contains(value) ==> done.contains(value) || (exists|j: int|
            i <= j < values.len() && text::trim(#[trigger] values[j]) == value) && value.len() > 0,
    decreases values.len() - i,
{
    if i < values.len() {
        let first = text::trim(values[i]);
        if first.len() == 0 || done.contains(first) {
            lemma_kept(values, i + 1, done, value);
        } else {
            let more = done.push(first);
            lemma_kept(values, i + 1, more, value);
            if done.contains(value) {
                let k = choose|k: int| 0 <= k < done.len() && done[k] == value;
                assert(more[k] == value);
            }
            assert(more[done.len() as int] == first);
            if more.contains(value) && !done.contains(value) {
                let k = choose|k: int| 0 <= k < more.len() && more[k] == value;
                if k < done.len() {
                    assert(done[k] == value);
                }
                assert(value == first);
                assert(text::trim(values[i]) == value);
            }
        }
        if exists|j: int| i <= j < values.len() && text::trim(#[trigger] values[j]) == value {
            let j = choose|j: int|
                i <= j < values.len() && text::trim(#[trigger] values[j]) == value;
            if j > i {
                assert(text::trim(values[j]) == value);
            }
        }
    }
}

proof fn lemma_kept_whole(values: Seq<Seq<char>>, i: int)
    requires
        0 <= i <= values.len(),
        values.no_duplicates(),
        forall|j: int|
            0 <= j < values.len() ==> text::trim(#[trigger] values[j]) == values[j]
                && values[j].len() > 0,
    ensures
        store::kept(values, i, values.take(i)) == values,
    decreases values.len() - i,
{
    if i < values.len() {
        let done = values.take(i);
        assert(text::trim(values[i]) == values[i]);
        if done.contains(values[i]) {
            let j = choose|j: int| 0 <= j < done.len() && done[j] == values[i];
            assert(values[j] == values[i]);
        }
        assert(done.push(values[i]) =~= values.take(i + 1));
        lemma_kept_whole(values, i + 1);
    } else {
        assert(values.take(i) =~= values);
    }
}

/// Labels and assignees are kept without the white space around them, each of them once, and none that
/// is empty. Where they are such already, they are kept as they are, in their order.
pub proof fn values_are_kept_once(values: Seq<Seq<char>>, value: Seq<char>)
    ensures
        store::distinct(values).contains(value) <==> value.len() > 0 && exists|j: int|
            0 <= j < values.len() && text::trim(#[trigger] values[j]) == value,
        store::distinct(values).no_duplicates(),
        values.no_duplicates() && (forall|j: int|
            0 <= j < values.len() ==> text::trim(#[trigger] values[j]) == values[j]
                && values[j].len() > 0) ==> store::distinct(values) == values,
{
    lemma_kept(values, 0, Seq::empty(), value);
    store::kept_values_are_distinct(values);
    assert(values.take(0) =~= Seq::<Seq<char>>::empty());
    if values.no_duplicates() && (forall|j: int|
        0 <= j < values.len() ==> text::trim(#[trigger] values[j]) == values[j] && values[j].len()
            > 0) {
        lemma_kept_whole(values, 0);
    }
}

proof fn lemma_extended(values: Seq<Seq<char>>, additions: Seq<Seq<char>>, i: int, k: int)
    requires
        0 <= i,
    ensures
        ({
            let more = change::extended(values, additions, i);
            &&& more.len() >= values.len()
            &&& more.take(values.len() as int) == values
            &&& values.len() <= k < more.len() ==> more[k].len() > 0 && exists|j: int|
                i <= j < additions.len() && text::trim(#[trigger] additions[j]) == more[k]
            &&& i <= k < additions.len() && text::trim(additions[k]).len() > 0
                ==> change::has_alike(more, text::trim(additions[k]))
        }),
    decreases additions.len() - i,
{
    let more = change::extended(values, additions, i);
    assert(values.take(values.len() as int) =~= values);
    if i < additions.len() {
        let addition = text::trim(additions[i]);
        let wider = if addition.len() == 0 || change::has_alike(values, addition) {
            values
        } else {
            values.push(addition)
        };
        lemma_extended(wider, additions, i + 1, k);
        lemma_extended(wider, additions, i + 1, values.len() as int);
        assert(more.take(values.len() as int) =~= values) by {
            assert(more.take(wider.len() as int).take(values.len() as int) =~= more.take(
                values.len() as int,
            ));
            assert(wider.take(values.len() as int) =~= values);
        }
        if k == i && addition.len() > 0 {
            let at = if wider.len() > values.len() {
                values.len() as int
            } else {
                choose|j: int| 0 <= j < values.len() && text::alike(#[trigger] values[j], addition)
            };
            assert(more.take(wider.len() as int)[at] == more[at]);
            assert(text::alike(more[at], addition));
        }
        if wider.len() > values.len() && k == values.len() {
            assert(more.take(wider.len() as int)[k] == more[k]);
            assert(text::trim(additions[i]) == more[k]);
        }
    }
}

proof fn lemma_retained(values: Seq<Seq<char>>, removals: Seq<Seq<char>>, n: nat, value: Seq<char>)
    requires
        n <= values.len(),
    ensures
        change::retained(values, removals, n).contains(value) <==> !change::is_removed(
            value,
            removals,
        ) && exists|i: int| 0 <= i < n && #[trigger] values[i] == value,
    decreases n,
{
    let kept = change::retained(values, removals, n);
    if n > 0 {
        lemma_retained(values, removals, (n - 1) as nat, value);
        let before = change::retained(values, removals, (n - 1) as nat);
        let last = values[n - 1];
        if !change::is_removed(last, removals) {
            assert(kept == before.push(last));
            assert(kept[before.len() as int] == last);
            if before.contains(value) {
                let k = choose|k: int| 0 <= k < before.len() && before[k] == value;
                assert(kept[k] == value);
            }
            if kept.contains(value) {
                let k = choose|k: int| 0 <= k < kept.len() && kept[k] == value;
                if k < before.len() {
                    assert(before[k] == value);
                }
            }
        }
    }
}

/// What an edit makes of the labels or assignees of a card: one that was there is kept, unless it is to
/// be removed. One that is to be added is there, unless it is to be removed. One that is to be removed,
/// whatever the case of its letters, is not there, and nothing else comes in.
pub proof fn edits_add_and_remove(
    values: Seq<Seq<char>>,
    additions: Seq<Seq<char>>,
    removals: Seq<Seq<char>>,
    value: Seq<char>,
    i: int,
)
    ensures
        ({
            let revised = change::revised(values, additions, removals);
            let gone = exists|j: int|
                0 <= j < removals.len() && text::alike(value, text::trim(#[trigger] removals[j]));
            &&& revised.contains(value) ==> !gone && (values.contains(value) || exists|j: int|
                0 <= j < additions.len() && text::trim(#[trigger] additions[j]) == value)
            &&& values.contains(value) && !gone ==> revised.contains(value)
            &&& 0 <= i < additions.len() && text::trim(additions[i]) == value && value.len() > 0
                && !gone ==> change::has_alike(revised, value)
        }),
{
    let more = change::extended(values, additions, 0);
    let revised = change::revised(values, additions, removals);
    lemma_extended(values, additions, 0, i);
    lemma_retained(more, removals, more.len(), value);
    if revised.contains(value) {
        let k = choose|k: int| 0 <= k < more.len() && #[trigger] more[k] == value;
        if k < values.len() {
            assert(more.take(values.len() as int)[k] == more[k]);
            assert(values[k] == value);
        } else {
            lemma_extended(values, additions, 0, k);
        }
    }
    if values.contains(value) {
        let k = choose|k: int| 0 <= k < values.len() && values[k] == value;
        assert(more.take(values.len() as int)[k] == more[k]);
        assert(more[k] == value);
    }
    if 0 <= i < additions.len() && text::trim(additions[i]) == value && value.len() > 0
        && !change::is_removed(value, removals) {
        let k = choose|k: int| 0 <= k < more.len() && text::alike(#[trigger] more[k], value);
        lemma_retained(more, removals, more.len(), more[k]);
        assert(!change::is_removed(more[k], removals)) by {
            if change::is_removed(more[k], removals) {
                let j = choose|j: int|
                    0 <= j < removals.len() && text::alike(
                        more[k],
                        text::trim(#[trigger] removals[j]),
                    );
                assert(text::alike(value, text::trim(removals[j])));
            }
        }
        assert(revised.contains(more[k]));
        let at = choose|at: int| 0 <= at < revised.len() && revised[at] == more[k];
        assert(text::alike(revised[at], value));
    }
}

/// The status that a new card asks for: the one that is given, or the default one of the board.
pub open spec fn asked_status(config: ConfigView, input: CreateView) -> Seq<char> {
    match input.status {
        Some(status) => status,
        None => config.default_status,
    }
}

/// A new card is as it was given: with its title without the white space around it, its body, its custom
/// fields, its labels and assignees. It is in the column that it asks for, behind all cards there, and
/// that column had room for it. Its id is that of no other card, and names its file.
pub proof fn new_cards_are_as_given(
    project: ProjectView,
    files: Seq<FileView>,
    input: CreateView,
    result: Result<CardWrite, Error>,
    c: int,
    i: int,
)
    requires
        store::is_creation(project, files, input, result),
        result is Ok,
        config::config_check(project.config) is Ok,
        0 <= c < project.config.columns.len(),
        text::alike(
            project.config.columns[c].name,
            text::trim(asked_status(project.config, input)),
        ),
    ensures
        ({
            let cards = store::all_cards(files);
            let write = result->Ok_0@;
            let metadata = write.card.metadata;
            let column = project.config.columns[c];
            &&& metadata.title == text::trim(input.title)
            &&& metadata.title.len() > 0
            &&& metadata.status == column.name
            &&& metadata.labels == store::distinct(input.labels)
            &&& metadata.assignees == store::distinct(input.assignees)
            &&& metadata.extra == input.extra
            &&& write.body == input.body
            &&& crate::characters::strips_lines(input.body, write.card.body)
            &&& metadata.created_date == metadata.updated_date
            &&& metadata.ordinal matches Some(ordinal) && is_last(cards, column.name, ordinal)
            &&& column.wip_limit matches Some(limit) ==> all_in(cards, column.name).len() < limit
            &&& 0 <= i < cards.len() ==> !text::alike(metadata.id, cards[i].metadata.id)
            &&& text::begins(metadata.id, text::raise(project.config.id_prefix) + "-"@)
            &&& write.card.path == store::below(project.cards_dir, metadata.id + ".md"@)
        }),
{
    let cards = store::all_cards(files);
    let config = project.config;
    let time = choose|time: Seq<char>|
        store::is_dated(result, time) && crate::error::agrees(
            result,
            #[trigger] store::creation(project, files, input, time),
        );
    let write = result->Ok_0@;
    assert(store::created(project, cards, input, time) == Ok::<WriteView, Failure>(write));
    lemma_named_column(config, asked_status(config, input), c);
    let name = config.columns[c].name;
    lemma_is_last(cards, name);
    config::columns_are_found_at_their_place(config, c);
    lemma_column_size(cards, name, write.card.metadata.id);
    crate::characters::trimming_strips(input.body);
    if 0 <= i < cards.len() {
        store::new_ids_are_new(project, cards, input, time, i);
    }
    let number = store::next_number(cards, config.id_prefix)->Ok_0;
    let start = text::raise(config.id_prefix) + "-"@;
    let id = start + text::decimal(number as nat);
    assert(write.card.metadata.id == id);
    assert(id.subrange(0, start.len() as int) =~= start);
}

proof fn lemma_named_column(config: ConfigView, candidate: Seq<char>, c: int)
    requires
        config::config_check(config) is Ok,
        0 <= c < config.columns.len(),
        text::alike(config.columns[c].name, text::trim(candidate)),
    ensures
        config::status_of(config, candidate) == Some(config.columns[c].name),
{
    let wanted = text::trim(candidate);
    config::checked_boards_are_sound(config);
    config::lemma_column_at(config.columns, wanted, 0);
    let found = config::column_at(config.columns, wanted, 0)->0;
    assert(found == c) by {
        if found < c {
            assert(!config::same_name(config.columns[found].name, config.columns[c].name));
        }
    }
}

/// A card can be made with any title of one line that holds something and has no control characters, in
/// a column of the board with room for it, where the cards are in order, no custom field is reserved, and
/// neither the ids nor the ordinals are exhausted.
pub proof fn cards_can_be_made(
    project: ProjectView,
    files: Seq<FileView>,
    input: CreateView,
    result: Result<CardWrite, Error>,
    c: int,
)
    requires
        store::is_creation(project, files, input, result),
        config::config_check(project.config) is Ok,
        store::collected(files, project.config) is Ok,
        !text::is_blank(input.title),
        forall|i: int|
            0 <= i < text::trim(input.title).len() ==> !text::is_control(
                #[trigger] text::trim(input.title)[i],
            ),
        0 <= c < project.config.columns.len(),
        text::alike(
            project.config.columns[c].name,
            text::trim(asked_status(project.config, input)),
        ),
        ({
            let cards = store::all_cards(files);
            let column = project.config.columns[c];
            &&& column.wip_limit matches Some(limit) ==> all_in(cards, column.name).len() < limit
            &&& forall|i: int|
                0 <= i < cards.len() ==> ((#[trigger] cards[i]).metadata.ordinal matches Some(other)
                    ==> other <= i64::MAX - 1024)
            &&& store::next_number(cards, project.config.id_prefix) is Ok
        }),
        forall|key: Seq<char>| #[trigger] input.extra.dom().contains(key) ==> !fields::is_reserved(key),
    ensures
        result is Ok,
{
    let cards = store::all_cards(files);
    let config = project.config;
    let time = choose|time: Seq<char>|
        store::is_dated(result, time) && crate::error::agrees(
            result,
            #[trigger] store::creation(project, files, input, time),
        );
    lemma_named_column(config, asked_status(config, input), c);
    let name = config.columns[c].name;
    config::columns_are_found_at_their_place(config, c);
    lemma_column_size(cards, name, Seq::empty());
    lemma_largest(cards, name, cards.len());
    lemma_trimmed_title(input.title);
    config::lemma_columns_ok(config.columns, 0, c);
    let number = store::next_number(cards, config.id_prefix)->Ok_0;
    text::lemma_decimal(number as nat);
    let digits = text::decimal(number as nat);
    let start = text::raise(config.id_prefix) + "-"@;
    let id = start + digits;
    assert(id[start.len() as int] == digits[0]);
    assert(!text::is_space(id[start.len() as int]));
}

/// Whether an id is a prefix, whatever the case of its letters, a hyphen and a number.
pub open spec fn is_numbered(id: Seq<char>, prefix: Seq<char>, number: u64) -> bool {
    &&& id.len() > prefix.len() + 1
    &&& text::alike(id.take(prefix.len() as int), prefix)
    &&& id[prefix.len() as int] == '-'
    &&& text::all_digits(id.skip(prefix.len() as int + 1))
    &&& text::digits_value(id.skip(prefix.len() as int + 1)) == number
}

proof fn lemma_numbered(id: Seq<char>, prefix: Seq<char>, number: u64)
    requires
        is_numbered(id, prefix, number),
    ensures
        store::id_number(id, prefix) == Some(number),
{
    let n = prefix.len() as int;
    let folded = text::fold(id);
    let digits = id.skip(n + 1);
    reveal_strlit("-");
    assert("-"@ =~= seq!['-']);
    let start = text::fold(prefix) + "-"@;
    assert(folded.subrange(0, n + 1) =~= start) by {
        let front = id.take(n);
        assert forall|i: int| 0 <= i < n implies folded[i] == text::fold(prefix)[i] by {
            assert(text::fold(front)[i] == text::fold(prefix)[i]);
            assert(front[i] == id[i]);
        }
    }
    assert forall|i: int| 0 <= i < digits.len() implies folded[n + 1 + i] == digits[i] by {
        assert('0' <= digits[i] <= '9');
    }
    assert(folded.skip(n + 1) =~= digits);
    assert(!text::begins(digits, seq!['+'])) by {
        if text::begins(digits, seq!['+']) {
            assert(digits.subrange(0, 1)[0] == '+');
            assert('0' <= digits[0] <= '9');
        }
    }
}

/// The number of a new card is larger than that of every card of the board.
pub proof fn new_numbers_are_larger(cards: Seq<CardView>, prefix: Seq<char>, i: int, number: u64)
    requires
        0 <= i < cards.len(),
        is_numbered(cards[i].metadata.id, prefix, number),
    ensures
        store::next_number(cards, prefix) matches Ok(next) ==> number < next,
{
    lemma_numbered(cards[i].metadata.id, prefix, number);
    store::lemma_number_bound(cards, prefix, cards.len(), i);
}

/// The first card of a board has the number one, and each further one the number behind the largest.
pub proof fn numbers_have_no_gap(cards: Seq<CardView>, prefix: Seq<char>)
    ensures
        store::next_number(cards, prefix) matches Ok(next) ==> next == 1 || exists|i: int|
            0 <= i < cards.len() && store::id_number(
                (#[trigger] cards[i]).metadata.id,
                prefix,
            ) == Some((next - 1) as u64),
        cards.len() == 0 ==> store::next_number(cards, prefix) == Ok::<u64, Failure>(1),
{
    lemma_largest_number(cards, prefix, cards.len());
}

proof fn lemma_largest_number(cards: Seq<CardView>, prefix: Seq<char>, n: nat)
    requires
        n <= cards.len(),
    ensures
        ({
            let largest = store::largest_number(cards, prefix, n);
            largest == 0 || exists|i: int|
                0 <= i < n && store::id_number((#[trigger] cards[i]).metadata.id, prefix) == Some(
                    largest,
                )
        }),
    decreases n,
{
    if n > 0 {
        lemma_largest_number(cards, prefix, (n - 1) as nat);
        let before = store::largest_number(cards, prefix, (n - 1) as nat);
        let largest = store::largest_number(cards, prefix, n);
        if largest != before {
            assert(store::id_number(cards[n - 1].metadata.id, prefix) == Some(largest));
        } else if before != 0 {
            let i = choose|i: int|
                0 <= i < n - 1 && store::id_number((#[trigger] cards[i]).metadata.id, prefix)
                    == Some(before);
            assert(store::id_number(cards[i].metadata.id, prefix) == Some(largest));
        }
    }
}

/// Whether a card is in a column, and in none before it.
pub open spec fn stands_in(config: ConfigView, card: CardView, c: int) -> bool {
    &&& 0 <= c < config.columns.len() <= usize::MAX
    &&& text::alike(config.columns[c].name, card.metadata.status)
    &&& forall|d: int|
        0 <= d < c ==> !text::alike((#[trigger] config.columns[d]).name, card.metadata.status)
}

/// Cards are listed by their columns, in the order of the board. In a column a smaller ordinal comes
/// first, and a card without one behind those with one; where they are the same, the smaller id does.
pub proof fn cards_are_listed_by_column_and_ordinal(
    cards: Seq<CardView>,
    config: ConfigView,
    i: int,
    j: int,
    c: int,
    d: int,
)
    requires
        store::in_card_order(cards, config),
        0 <= i < j < cards.len(),
        stands_in(config, cards[i], c),
        stands_in(config, cards[j], d),
    ensures
        ({
            let first = cards[i].metadata;
            let second = cards[j].metadata;
            &&& c <= d
            &&& c == d ==> {
                &&& first.ordinal matches Some(x) ==> (second.ordinal matches Some(y) ==> x <= y)
                &&& first.ordinal is None && second.ordinal is Some ==> second.ordinal == Some(
                    i64::MAX,
                )
                &&& first.ordinal == second.ordinal ==> !text::precedes(second.id, first.id)
            }
        }),
{
    lemma_column_rank(config, cards[i], c);
    lemma_column_rank(config, cards[j], d);
    assert(!store::goes_before(cards[j], cards[i], config));
}

proof fn lemma_column_rank(config: ConfigView, card: CardView, c: int)
    requires
        stands_in(config, card, c),
    ensures
        store::column_rank(card, config) == c,
{
    config::lemma_column_at(config.columns, card.metadata.status, 0);
    let found = config::column_at(config.columns, card.metadata.status, 0);
    assert(text::alike(config.columns[c].name, card.metadata.status));
    if let Some(k) = found {
        if k < c {
            assert(!text::alike(config.columns[k].name, card.metadata.status));
        }
    }
}

/// A card comes before another one where it is in an earlier column, or has the smaller ordinal there.
pub proof fn earlier_cards_go_before(a: CardView, b: CardView, config: ConfigView, c: int, d: int)
    requires
        stands_in(config, a, c),
        stands_in(config, b, d),
    ensures
        c < d ==> store::goes_before(a, b, config),
        c == d ==> (a.metadata.ordinal matches Some(x) ==> (b.metadata.ordinal matches Some(y) ==> (x
            < y ==> store::goes_before(a, b, config)))),
{
    lemma_column_rank(config, a, c);
    lemma_column_rank(config, b, d);
}

/// Whether nothing is wrong with a card among others.
pub open spec fn is_right(cards: Seq<CardView>, config: ConfigView, k: int) -> bool {
    &&& exists|c: int|
        0 <= c < config.columns.len() && text::alike(
            (#[trigger] config.columns[c]).name,
            text::trim(cards[k].metadata.status),
        )
    &&& forall|j: int|
        0 <= j < cards.len() && j != k ==> !text::alike(
            (#[trigger] cards[j]).metadata.id,
            cards[k].metadata.id,
        )
    &&& document::document(cards[k].body) is Ok
}

proof fn lemma_card_issues(cards: Seq<CardView>, config: ConfigView, k: int)
    requires
        0 <= k < cards.len(),
    ensures
        store::card_issues(cards, config, cards[k]).len() == 0 <==> is_right(cards, config, k),
{
    reveal(store::card_issues);
    let card = cards[k];
    let id = card.metadata.id;
    config::statuses_are_names_of_columns(config, card.metadata.status);
    if forall|j: int|
        0 <= j < cards.len() && j != k ==> !text::alike((#[trigger] cards[j]).metadata.id, id) {
        assert forall|j: int| 0 <= j < cards.len() && j != k implies !store::has_id(
            #[trigger] cards[j],
            id,
        ) by {
            assert(!text::alike(cards[j].metadata.id, id));
        }
        lemma_count_only(cards, id, cards.len(), k);
    } else {
        let j = choose|j: int|
            0 <= j < cards.len() && j != k && text::alike((#[trigger] cards[j]).metadata.id, id);
        if j < k {
            store::lemma_count_two(cards, id, cards.len(), j, k);
        } else {
            store::lemma_count_two(cards, id, cards.len(), k, j);
        }
    }
}

proof fn lemma_files_issues(
    cards: Seq<CardView>,
    config: ConfigView,
    files: Seq<FileView>,
    n: nat,
)
    requires
        n <= files.len(),
    ensures
        store::files_issues(cards, config, files, n).len() == 0 <==> forall|f: int|
            0 <= f < n ==> store::file_issues(cards, config, #[trigger] files[f]).len() == 0,
    decreases n,
{
    if n > 0 {
        lemma_files_issues(cards, config, files, (n - 1) as nat);
    }
}

proof fn lemma_column_issues(
    cards: Seq<CardView>,
    columns: Seq<config::ColumnView>,
    dir: Seq<char>,
    n: nat,
)
    requires
        n <= columns.len(),
    ensures
        store::column_issues(cards, columns, dir, n).len() == 0 <==> forall|c: int|
            0 <= c < n ==> !store::is_overfull(cards, #[trigger] columns[c]),
    decreases n,
{
    if n > 0 {
        lemma_column_issues(cards, columns, dir, (n - 1) as nat);
    }
}

proof fn lemma_cards_in(files: Seq<FileView>, n: nat)
    requires
        n <= files.len(),
    ensures
        forall|f: int|
            0 <= f < n && (#[trigger] files[f]) is Card ==> store::cards_in(files, n).contains(
                files[f]->Card_0,
            ),
        forall|k: int|
            0 <= k < store::cards_in(files, n).len() ==> exists|f: int|
                0 <= f < n && #[trigger] files[f] == FileView::Card(
                    #[trigger] store::cards_in(files, n)[k],
                ),
    decreases n,
{
    if n > 0 {
        lemma_cards_in(files, (n - 1) as nat);
        let before = store::cards_in(files, (n - 1) as nat);
        let all = store::cards_in(files, n);
        assert forall|f: int| 0 <= f < n && (#[trigger] files[f]) is Card implies all.contains(
            files[f]->Card_0,
        ) by {
            if f < n - 1 {
                let k = choose|k: int| 0 <= k < before.len() && before[k] == files[f]->Card_0;
                assert(all[k] == before[k]);
            } else {
                assert(all[before.len() as int] == files[f]->Card_0);
            }
        }
        assert forall|k: int| 0 <= k < all.len() implies exists|f: int|
            0 <= f < n && #[trigger] files[f] == FileView::Card(#[trigger] all[k]) by {
            if k < before.len() {
                assert(all[k] == before[k]);
                let f = choose|f: int|
                    0 <= f < n - 1 && #[trigger] files[f] == FileView::Card(before[k]);
                assert(files[f] == FileView::Card(all[k]));
            } else {
                assert(files[n - 1] == FileView::Card(all[k]));
            }
        }
    }
}

/// A project has no issue just where every file holds a card, the status of every card is a column, no
/// two cards have one id, the comments of every card are in order, and no column holds more cards than
/// its limit.
pub proof fn sound_projects_have_no_issue(project: ProjectView, files: Seq<FileView>)
    ensures
        store::issues_of(project, files).len() == 0 <==> {
            let cards = store::all_cards(files);
            &&& forall|f: int| 0 <= f < files.len() ==> (#[trigger] files[f]) is Card
            &&& forall|k: int|
                0 <= k < cards.len() ==> #[trigger] is_right(cards, project.config, k)
            &&& forall|c: int|
                0 <= c < project.config.columns.len() ==> ((
                #[trigger] project.config.columns[c]).wip_limit matches Some(limit) ==> all_in(
                    cards,
                    project.config.columns[c].name,
                ).len() <= limit)
        },
{
    let cards = store::all_cards(files);
    let config = project.config;
    lemma_files_issues(cards, config, files, files.len());
    lemma_column_issues(cards, config.columns, project.cards_dir, config.columns.len());
    lemma_cards_in(files, files.len());
    assert forall|c: int| 0 <= c < config.columns.len() implies store::is_overfull(
        cards,
        #[trigger] config.columns[c],
    ) == !(config.columns[c].wip_limit matches Some(limit) ==> all_in(
        cards,
        config.columns[c].name,
    ).len() <= limit) by {
        lemma_column_size(cards, config.columns[c].name, Seq::empty());
    }
    assert forall|k: int| 0 <= k < cards.len() implies (store::card_issues(
        cards,
        config,
        cards[k],
    ).len() == 0) == #[trigger] is_right(cards, config, k) by {
        lemma_card_issues(cards, config, k);
    }
    let sound = forall|f: int| 0 <= f < files.len() ==> (#[trigger] files[f]) is Card;
    let right = forall|k: int| 0 <= k < cards.len() ==> #[trigger] is_right(cards, config, k);
    let none = forall|f: int|
        0 <= f < files.len() ==> store::file_issues(cards, config, #[trigger] files[f]).len() == 0;
    if none {
        assert forall|f: int| 0 <= f < files.len() implies (#[trigger] files[f]) is Card by {
            assert(store::file_issues(cards, config, files[f]).len() == 0);
        }
        assert forall|k: int| 0 <= k < cards.len() implies #[trigger] is_right(cards, config, k) by {
            let f = choose|f: int|
                0 <= f < files.len() && #[trigger] files[f] == FileView::Card(cards[k]);
            assert(store::file_issues(cards, config, files[f]).len() == 0);
        }
    }
    if sound && right {
        assert forall|f: int| 0 <= f < files.len() implies store::file_issues(
            cards,
            config,
            #[trigger] files[f],
        ).len() == 0 by {
            assert(files[f] is Card);
            assert(cards.contains(files[f]->Card_0));
            let k = choose|k: int| 0 <= k < cards.len() && cards[k] == files[f]->Card_0;
            assert(is_right(cards, config, k));
        }
    }
}

/// The cards of a project are read where every file holds one, every status is a column, and no two have
/// one id. They are then all of them.
pub proof fn sound_cards_are_read(files: Seq<FileView>, config: ConfigView)
    requires
        forall|f: int| 0 <= f < files.len() ==> (#[trigger] files[f]) is Card,
        ({
            let cards = store::all_cards(files);
            &&& forall|k: int|
                0 <= k < cards.len() ==> config::status_of(
                    config,
                    (#[trigger] cards[k]).metadata.status,
                ) is Some
            &&& forall|i: int, j: int|
                0 <= i < j < cards.len() ==> !text::alike(
                    (#[trigger] cards[i]).metadata.id,
                    (#[trigger] cards[j]).metadata.id,
                )
        }),
    ensures
        store::collected(files, config) == Ok::<Seq<CardView>, Failure>(store::all_cards(files)),
{
    let cards = store::all_cards(files);
    lemma_none_broken(files, 0);
    lemma_statuses(cards, config, 0);
    lemma_not_shared(cards, 0);
}

proof fn lemma_none_broken(files: Seq<FileView>, i: int)
    requires
        0 <= i,
        forall|f: int| 0 <= f < files.len() ==> (#[trigger] files[f]) is Card,
    ensures
        store::first_broken(files, i) is None,
    decreases files.len() - i,
{
    if i < files.len() {
        assert(files[i] is Card);
        lemma_none_broken(files, i + 1);
    }
}

proof fn lemma_statuses(cards: Seq<CardView>, config: ConfigView, i: int)
    requires
        0 <= i,
        forall|k: int|
            0 <= k < cards.len() ==> config::status_of(
                config,
                (#[trigger] cards[k]).metadata.status,
            ) is Some,
    ensures
        store::statuses_check(cards, config, i) is Ok,
    decreases cards.len() - i,
{
    if i < cards.len() {
        assert(config::status_of(config, cards[i].metadata.status) is Some);
        lemma_statuses(cards, config, i + 1);
    }
}

proof fn lemma_not_shared(cards: Seq<CardView>, i: int)
    requires
        0 <= i,
        forall|i: int, j: int|
            0 <= i < j < cards.len() ==> !text::alike(
                (#[trigger] cards[i]).metadata.id,
                (#[trigger] cards[j]).metadata.id,
            ),
    ensures
        store::first_shared(cards, i) is None,
    decreases cards.len() - i,
{
    if i < cards.len() {
        let id = cards[i].metadata.id;
        assert forall|j: int| 0 <= j < cards.len() && j != i implies !store::has_id(
            #[trigger] cards[j],
            id,
        ) by {
            if j < i {
                assert(!text::alike(cards[j].metadata.id, cards[i].metadata.id));
            } else {
                assert(!text::alike(cards[i].metadata.id, cards[j].metadata.id));
            }
        }
        lemma_count_only(cards, id, cards.len(), i);
        lemma_not_shared(cards, i + 1);
    }
}

/// A project is that of the nearest directory with a configuration file, and is not found where none has
/// one.
pub proof fn the_nearest_project_is_found(ancestors: Seq<store::Ancestor>, i: int)
    requires
        0 <= i <= ancestors.len(),
        forall|j: int| 0 <= j < i ==> !(#[trigger] ancestors[j]).has_config,
        i < ancestors.len() ==> ancestors[i].has_config,
    ensures
        store::nearest(ancestors, 0) == if i < ancestors.len() {
            Some(i)
        } else {
            None
        },
{
    lemma_nearest(ancestors, 0, i);
}

proof fn lemma_nearest(ancestors: Seq<store::Ancestor>, from: int, i: int)
    requires
        0 <= from <= i <= ancestors.len(),
        forall|j: int| from <= j < i ==> !(#[trigger] ancestors[j]).has_config,
        i < ancestors.len() ==> ancestors[i].has_config,
    ensures
        store::nearest(ancestors, from) == if i < ancestors.len() {
            Some(i)
        } else {
            None
        },
    decreases i - from,
{
    if from < i {
        lemma_nearest(ancestors, from + 1, i);
    }
}

/// A file is one of a card where its name has something before its last point, and md, whatever the case
/// of the letters, behind it.
pub proof fn card_files_end_in_md(stem: Seq<char>, extension: Seq<char>)
    requires
        !extension.contains('.'),
    ensures
        store::is_card_name(stem + seq!['.'] + extension) == (stem.len() > 0 && text::alike(
            extension,
            "md"@,
        )),
        !store::is_card_name(extension),
{
    let name = stem + seq!['.'] + extension;
    let at = stem.len() as int;
    assert(name[at] == '.');
    assert forall|k: int| at < k < name.len() implies name[k] != '.' by {
        assert(name[k] == extension[k - at - 1]);
        assert(extension.contains(extension[k - at - 1]));
    }
    lemma_last_index(name, name.len() as int, at);
    assert(name.skip(at + 1) =~= extension);
    assert forall|k: int| 0 <= k < extension.len() implies extension[k] != '.' by {
        assert(extension.contains(extension[k]));
    }
    lemma_last_index(extension, extension.len() as int, -1);
}

proof fn lemma_last_index(s: Seq<char>, n: int, at: int)
    requires
        -1 <= at < n <= s.len() || at == -1 && n == 0,
        n <= s.len(),
        at >= 0 ==> s[at] == '.',
        forall|k: int| at < k < n ==> s[k] != '.',
    ensures
        store::last_index(s, '.', n) == if at >= 0 {
            Some(at)
        } else {
            None
        },
    decreases n,
{
    if n > 0 && at < n - 1 {
        assert(s[n - 1] != '.');
        lemma_last_index(s, n - 1, at);
    }
}

/// A file holds a card where its id, its title and its status hold something, and no custom field is
/// reserved. The card is as it was read.
pub proof fn sound_files_hold_cards(path: Seq<char>, metadata: MetadataView, body: Seq<char>)
    ensures
        store::held(path, metadata, body) is Card <==> !text::is_blank(metadata.id)
            && !text::is_blank(metadata.title) && !text::is_blank(metadata.status) && (forall|
            key: Seq<char>,
        | #[trigger]
            metadata.extra.dom().contains(key) ==> !fields::is_reserved(key)),
        store::held(path, metadata, body) matches FileView::Card(card) ==> card == (CardView {
            metadata,
            body,
            path,
        }),
        store::held(path, metadata, body) matches FileView::Broken { path: at, .. } ==> at == path,
{
}

/// A comment on a card holds the text that was given, and leaves the rest of the card: its id, its
/// status, but for the case of its letters, its place, its custom fields and its title, but for white
/// space around it. Every character of its body is kept, before or behind one added text, which
/// holds that of the comment.
pub proof fn comments_keep_the_card(
    project: ProjectView,
    files: Seq<FileView>,
    id: Seq<char>,
    author: Seq<char>,
    text: Seq<char>,
    result: Result<(CardWrite, crate::comments::Comment), Error>,
    k: int,
)
    requires
        store::is_comment(project, files, id, author, text, result),
        result is Ok,
        is_card(store::all_cards(files), id, k),
        crate::source::fits(store::all_cards(files)[k].body),
        text::alike(
            store::all_cards(files)[k].metadata.status,
            text::trim(store::all_cards(files)[k].metadata.status),
        ),
    ensures
        ({
            let card = store::all_cards(files)[k];
            let (write, comment) = result->Ok_0;
            let metadata = write@.card.metadata;
            &&& crate::characters::strips_lines(text, comment@.body)
            &&& crate::characters::strips_space(author, comment@.author)
            &&& metadata.id == card.metadata.id
            &&& text::alike(metadata.status, card.metadata.status)
            &&& metadata.ordinal == card.metadata.ordinal
            &&& metadata.extra == card.metadata.extra
            &&& metadata.title == text::trim(card.metadata.title)
            &&& exists|at: int, added: Seq<char>| #[trigger]
                crate::comments::is_extension(card.body, at, added, write@.body) && text::occurs(
                    added,
                    comment@.body,
                )
        }),
{
    let cards = store::all_cards(files);
    let card = cards[k];
    lemma_card_with(cards, id, k);
    let appended = choose|appended: Result<(String, crate::comments::Comment), Error>|
        crate::comments::is_appended(card.body, author, text, appended) && #[trigger]
        store::is_comment_settled(project, files, card, appended, result);
    let body = appended->Ok_0.0;
    let write = result->Ok_0.0;
    crate::commenting::comments_hold_the_given_text(card.body, author, text, appended);
    let changed = CardView { body: body@, ..card };
    let settled = Ok::<CardWrite, Error>(write);
    assert(store::is_settled(project.config, cards, card, changed, settled));
    let time = choose|time: Seq<char>|
        store::is_dated(settled, time) && crate::error::agrees(
            settled,
            #[trigger] store::settled(project.config, cards, card, changed, time),
        );
    lemma_settled(project.config, cards, card, changed, time);
    lemma_alike(card.metadata.status, text::trim(card.metadata.status), write@.card.metadata.status);
    crate::commenting::appended_bodies_only_grow(card.body, author, text, appended);
}

} // verus!
