//! Which changes of a card are made, and which are refused.

use crate::boards;
use crate::cards;
use crate::cards::{is_card, is_sound};
use crate::change::{Change, Edit};
use crate::commands;
use crate::comments;
use crate::comments::Comment;
use crate::config;
use crate::document;
use crate::error;
use crate::error::{Error, Failure};
use crate::fields;
use crate::model::{CardView, MetadataView};
use crate::store;
use crate::store::{CardWrite, FileView, ProjectView};
use crate::text;
use vstd::prelude::*;

verus! {

/// Whether a card is one of a project whose cards are in order, and can be written.
pub open spec fn is_ready(project: ProjectView, files: Seq<FileView>, id: Seq<char>, k: int) -> bool {
    let card = store::all_cards(files)[k];
    &&& store::collected(files, project.config) is Ok
    &&& is_card(store::all_cards(files), id, k)
    &&& is_sound(card)
    &&& text::alike(card.metadata.status, text::trim(card.metadata.status))
}

proof fn lemma_stays(project: ProjectView, files: Seq<FileView>, id: Seq<char>, k: int)
    requires
        is_ready(project, files, id, k),
    ensures
        ({
            let card = store::all_cards(files)[k];
            &&& store::begun(files, project.config, id) == Ok::<CardView, Failure>(card)
            &&& config::status_of(project.config, card.metadata.status) matches Some(status)
                && text::alike(card.metadata.status, status)
            &&& !text::is_blank(text::trim(card.metadata.title))
        }),
{
    let cards = store::all_cards(files);
    let card = cards[k];
    cards::lemma_card_with(cards, id, k);
    cards::lemma_trimmed_title(card.metadata.title);
    store::checked_collections_are_sound(cards, project.config);
    cards::lemma_status_of(project.config, card.metadata.status);
    let status = config::status_of(project.config, card.metadata.status)->0;
    cards::lemma_alike(card.metadata.status, text::trim(card.metadata.status), status);
}

/// Custom fields are accepted just where none has the name of a field that every card has, whatever
/// the case of its letters.
pub proof fn custom_fields_are_accepted(extra: Map<Seq<char>, Seq<char>>)
    ensures
        store::fields_check(extra) is Ok <==> forall|key: Seq<char>| #[trigger]
            extra.dom().contains(key) ==> !commands::is_everywhere(key),
{
    assert forall|key: Seq<char>| #[trigger] extra.dom().contains(key) implies fields::is_reserved(
        key,
    ) == commands::is_everywhere(key) by {
        commands::custom_names_are_free(key);
    }
    if fields::has_reserved(extra) {
        let key = choose|key: Seq<char>| #[trigger]
            extra.dom().contains(key) && fields::is_reserved(key);
        assert(commands::is_everywhere(key));
    }
}

/// A custom field of a card can be set just where its name is not that of a field that every card
/// has, and can be removed just where it is there.
pub proof fn fields_can_be_changed(
    project: ProjectView,
    files: Seq<FileView>,
    id: Seq<char>,
    change: Change,
    result: Result<CardWrite, Error>,
    k: int,
)
    requires
        store::is_update(project, files, id, change, result),
        is_ready(project, files, id, k),
    ensures
        change matches Change::SetField { key, value } ==> (result is Ok
            <==> !commands::is_everywhere(key@)),
        change matches Change::UnsetField { key } ==> (result is Ok <==> store::all_cards(
            files,
        )[k].metadata.extra.dom().contains(key@)),
{
    let card = store::all_cards(files)[k];
    let extra = card.metadata.extra;
    let time = choose|time: Seq<char>|
        store::is_dated(result, time) && error::agrees(
            result,
            #[trigger] store::update(project, files, id, change, time),
        );
    lemma_stays(project, files, id, k);
    custom_fields_are_accepted(extra);
    match change {
        Change::SetField { key, value } => {
            let more = extra.insert(key@, value@);
            custom_fields_are_accepted(more);
            assert(more.dom().contains(key@));
            assert forall|other: Seq<char>| #[trigger] more.dom().contains(other) && other
                != key@ implies extra.dom().contains(other) by {}
            assert forall|other: Seq<char>| #[trigger] extra.dom().contains(other) implies
                more.dom().contains(other) by {}
        },
        Change::UnsetField { key } => {
            let fewer = extra.remove(key@);
            custom_fields_are_accepted(fewer);
            assert forall|other: Seq<char>| #[trigger] fewer.dom().contains(other) implies
                extra.dom().contains(other) by {}
        },
        _ => {},
    }
}

/// An edit that leaves the column of a card is made just where the title it gives, if it gives one, is
/// more than white space and without control characters. A title that stays the same is kept.
pub proof fn titles_can_be_changed(
    project: ProjectView,
    files: Seq<FileView>,
    id: Seq<char>,
    edit: Edit,
    result: Result<CardWrite, Error>,
    k: int,
)
    requires
        store::is_update(project, files, id, Change::Edit(edit), result),
        is_ready(project, files, id, k),
        edit.status is None,
    ensures
        result is Ok <==> (edit.title is Some && edit.title->0@ != store::all_cards(
            files,
        )[k].metadata.title ==> boards::is_written(edit.title->0@) && boards::is_printed(
            text::trim(edit.title->0@),
        )),
{
    let card = store::all_cards(files)[k];
    let change = Change::Edit(edit);
    let time = choose|time: Seq<char>|
        store::is_dated(result, time) && error::agrees(
            result,
            #[trigger] store::update(project, files, id, change, time),
        );
    lemma_stays(project, files, id, k);
    if let Some(title) = edit.title {
        cards::lemma_blank(title@);
        if !text::is_blank(title@) {
            cards::lemma_trimmed_title(title@);
        } else {
            assert(text::is_blank(text::trim(title@)));
        }
        boards::metadata_is_accepted(MetadataView { title: text::trim(title@), ..card.metadata });
    }
}

/// A comment on a card is written wherever it can be appended to the body and leaves the comments of
/// the body in order.
pub proof fn cards_can_be_commented(
    project: ProjectView,
    files: Seq<FileView>,
    id: Seq<char>,
    author: Seq<char>,
    text: Seq<char>,
    result: Result<(CardWrite, Comment), Error>,
    k: int,
)
    requires
        store::is_comment(project, files, id, author, text, result),
        is_ready(project, files, id, k),
        forall|appended: Result<(String, Comment), Error>| #[trigger]
            comments::is_appended(store::all_cards(files)[k].body, author, text, appended)
                ==> appended is Ok && document::document(appended->Ok_0.0@) is Ok,
    ensures
        result is Ok,
{
    let cards = store::all_cards(files);
    let card = cards[k];
    lemma_stays(project, files, id, k);
    let appended = choose|appended: Result<(String, Comment), Error>|
        comments::is_appended(card.body, author, text, appended) && #[trigger]
        store::is_comment_settled(project, files, card, appended, result);
    assert(comments::is_appended(card.body, author, text, appended));
    let changed = CardView { body: appended->Ok_0.0@, ..card };
    if let Err(other) = result {
        let refused = Err::<CardWrite, Error>(other);
        assert(store::is_settled(project.config, cards, card, changed, refused));
        let time = choose|time: Seq<char>|
            store::is_dated(refused, time) && error::agrees(
                refused,
                #[trigger] store::settled(project.config, cards, card, changed, time),
            );
        assert(store::settled(project.config, cards, card, changed, time) is Ok);
    }
}

} // verus!
