//! What becomes of what the board asks for, and what it shows then.

use crate::cards;
use crate::change;
use crate::change::Change;
use crate::characters;
use crate::comments;
use crate::comments::Comment;
use crate::error::{Error, Failure};
use crate::markdown;
use crate::model;
use crate::model::CardView;
use crate::store;
use crate::store::{CardWrite, FileView, ProjectView};
use crate::text;
use crate::tui::app;
use crate::tui::app::{AppView, Effect, Focus, ModeView, Outcome, Plan, Snapshot};
use crate::tui::keys;
use vstd::prelude::*;

verus! {

/// A card that is moved on the board is written with the status of the column it was moved to, and
/// with its body and its custom fields as they were.
pub proof fn moves_write_the_new_column(
    project: ProjectView,
    files: Seq<FileView>,
    id: String,
    status: String,
    result: Result<CardWrite, Error>,
    k: int,
)
    requires
        app::is_plan(project, files, Effect::MoveCard { id, status }, Plan::Write(result)),
        result is Ok,
        cards::is_card(store::all_cards(files), id@, k),
    ensures
        ({
            let card = store::all_cards(files)[k];
            let metadata = result->Ok_0@.card.metadata;
            &&& metadata.id == card.metadata.id
            &&& text::alike(metadata.status, text::trim(status@))
            &&& metadata.extra == card.metadata.extra
            &&& result->Ok_0@.body == card.body
        }),
{
    let change = choose|change: Change| #[trigger]
        store::is_update(project, files, id@, change, result) && (change matches Change::Move(to)
            && to@ == status@);
    cards::updates_change_what_they_name(project, files, id@, change, result, k);
    cards::updates_keep_the_card(project, files, id@, change, result, k);
}

/// An item that is ticked on the board is the one with that number on its card: the body is written
/// with that item turned over.
pub proof fn ticks_turn_the_item_over(
    project: ProjectView,
    files: Seq<FileView>,
    id: String,
    global_index: usize,
    result: Result<CardWrite, Error>,
    k: int,
)
    requires
        app::is_plan(
            project,
            files,
            Effect::ToggleChecklist { id, global_index },
            Plan::Write(result),
        ),
        result is Ok,
        cards::is_card(store::all_cards(files), id@, k),
    ensures
        ({
            let card = store::all_cards(files)[k];
            &&& result->Ok_0@.card.metadata.id == card.metadata.id
            &&& markdown::item_toggled(
                card.body,
                markdown::item_numbered(card.body, global_index as nat),
            ) == Ok::<Seq<char>, Failure>(result->Ok_0@.body)
        }),
{
    let change = Change::ToggleGlobal { index: global_index };
    cards::updates_change_what_they_name(project, files, id@, change, result, k);
    cards::updates_keep_the_card(project, files, id@, change, result, k);
    reveal(change::rewritten);
}

/// A comment that is made on the board only adds to the body of its card one text that holds what was
/// typed, but for line endings around it, and leaves the id and the custom fields of the card.
pub proof fn comments_are_written_to_their_card(
    project: ProjectView,
    files: Seq<FileView>,
    id: String,
    author: String,
    text: String,
    result: Result<CardWrite, Error>,
    k: int,
)
    requires
        app::is_plan(project, files, Effect::AddComment { id, author, text }, Plan::Write(result)),
        result is Ok,
        cards::is_card(store::all_cards(files), id@, k),
        crate::source::fits(store::all_cards(files)[k].body),
        text::alike(
            store::all_cards(files)[k].metadata.status,
            text::trim(store::all_cards(files)[k].metadata.status),
        ),
    ensures
        ({
            let card = store::all_cards(files)[k];
            let write = result->Ok_0@;
            &&& write.card.metadata.id == card.metadata.id
            &&& write.card.metadata.extra == card.metadata.extra
            &&& exists|at: int, added: Seq<char>, kept: Seq<char>|
                #![trigger comments::is_extension(card.body, at, added, write.body), text::occurs(added, kept)]
                comments::is_extension(card.body, at, added, write.body) && text::occurs(
                    added,
                    kept,
                ) && characters::strips_lines(text@, kept)
        }),
{
    let commented = choose|commented: Result<(CardWrite, Comment), Error>| #[trigger]
        store::is_comment(project, files, id@, author@, text@, commented) && result == (
        match commented {
            Ok((write, _)) => Ok::<CardWrite, Error>(write),
            Err(error) => Err::<CardWrite, Error>(error),
        });
    cards::comments_keep_the_card(project, files, id@, author@, text@, commented, k);
    let kept = commented->Ok_0.1@.body;
    let write = result->Ok_0@;
    let body = store::all_cards(files)[k].body;
    let (at, added) = choose|at: int, added: Seq<char>| #[trigger]
        comments::is_extension(body, at, added, write.body) && text::occurs(added, kept);
    assert(comments::is_extension(body, at, added, write.body) && text::occurs(added, kept)
        && characters::strips_lines(text@, kept));
}

/// A card that is made on the board has the title that was typed and nothing else, in the column it
/// was made in.
pub proof fn typed_cards_are_written(
    project: ProjectView,
    files: Seq<FileView>,
    title: String,
    status: String,
    result: Result<CardWrite, Error>,
    c: int,
)
    requires
        app::is_plan(project, files, Effect::CreateCard { title, status }, Plan::Write(result)),
        result is Ok,
        crate::config::config_check(project.config) is Ok,
        0 <= c < project.config.columns.len(),
        text::alike(project.config.columns[c].name, text::trim(status@)),
    ensures
        ({
            let write = result->Ok_0@;
            let metadata = write.card.metadata;
            &&& characters::strips_space(title@, metadata.title)
            &&& metadata.status == project.config.columns[c].name
            &&& metadata.labels.len() == 0
            &&& metadata.assignees.len() == 0
            &&& metadata.extra == Map::<Seq<char>, Seq<char>>::empty()
            &&& write.body.len() == 0
        }),
{
    let input = app::quick_card(title@, status@);
    cards::new_cards_are_as_given(project, files, input, result, c, 0);
    characters::trimming_strips(title@);
}

/// Leaving the board and reading it again write nothing.
pub proof fn only_changes_are_written(
    project: ProjectView,
    files: Seq<FileView>,
    effect: Effect,
    plan: Plan,
)
    requires
        app::is_plan(project, files, effect, plan),
    ensures
        plan is Write <==> !(effect is Quit) && !(effect is Reload),
        plan is Quit <==> effect is Quit,
{
}

/// The card that stays in view once an effect was done: the one that it was about, or the one that was
/// selected.
pub open spec fn kept_in_view(app: AppView, effect: Effect, written: Seq<char>) -> Option<Seq<char>> {
    match effect {
        Effect::CreateCard { .. } => Some(written),
        Effect::AddComment { id, .. } => Some(id@),
        Effect::MoveCard { id, .. } => Some(id@),
        Effect::ToggleChecklist { id, .. } => Some(id@),
        _ => app.selected_id,
    }
}

/// Whether a card stands in a row of a column of the board, first of its id in both.
pub open spec fn stands_at(app: AppView, id: Seq<char>, k: int, column: int, row: int) -> bool {
    let shown = cards::all_in(app.cards, app.columns()[column].name);
    &&& 0 <= k < app.cards.len()
    &&& text::alike(app.cards[k].metadata.id, id)
    &&& forall|j: int| 0 <= j < k ==> !text::alike((#[trigger] app.cards[j]).metadata.id, id)
    &&& keys::is_in(app, app.cards[k], column)
    &&& 0 <= row < shown.len()
    &&& text::alike(shown[row].metadata.id, id)
    &&& forall|j: int| 0 <= j < row ==> !text::alike((#[trigger] shown[j]).metadata.id, id)
}

proof fn lemma_first(cards: Seq<CardView>, id: Seq<char>, k: int)
    requires
        0 <= k < cards.len(),
        text::alike(cards[k].metadata.id, id),
        forall|j: int| 0 <= j < k ==> !text::alike((#[trigger] cards[j]).metadata.id, id),
    ensures
        store::first_with(cards, id, 0) == Some(k),
{
    assert forall|j: int| 0 <= j < k implies !store::has_id(#[trigger] cards[j], id) by {
        assert(!text::alike(cards[j].metadata.id, id));
    }
    cards::lemma_first_with(cards, id, 0, k);
}

proof fn lemma_position(app: AppView, id: Seq<char>, k: int, column: int, row: int)
    requires
        stands_at(app, id, k, column, row),
    ensures
        app.position(id) == Some((column, row)),
{
    lemma_first(app.cards, id, k);
    keys::lemma_in(app, app.cards[k], column);
    keys::columns_show_their_cards(app, column);
    lemma_first(app.column_cards(column), id, row);
}

/// Once an effect was done and everything was read again, the board shows what was read, drags no
/// card, and has the card selected that the effect was about, in its column and row. A comment that
/// was written closes its composer; otherwise what is being typed stays.
pub proof fn done_effects_are_shown(
    app: AppView,
    effect: Effect,
    written: String,
    project: crate::store::Project,
    cards: Vec<crate::model::Card>,
    k: int,
    column: int,
    row: int,
)
    requires
        !(effect is Quit),
        project@.config.columns.len() <= usize::MAX,
        cards@.len() <= usize::MAX,
        kept_in_view(app, effect, written@) is Some,
        stands_at(
            (AppView { project: project@, cards: model::card_views(cards@), ..app }),
            kept_in_view(app, effect, written@)->0,
            k,
            column,
            row,
        ),
    ensures
        ({
            let snapshot = Snapshot::Loaded { project, cards };
            let shown = app.concluded(effect, Outcome::Done { id: written, snapshot });
            &&& shown.project == project@
            &&& shown.cards == model::card_views(cards@)
            &&& shown.drag is None
            &&& shown.error is None
            &&& shown.message is Some
            &&& shown.selected_id == kept_in_view(app, effect, written@)
            &&& shown.active_column == column
            &&& shown.selected_row == row
            &&& shown.focus == app.focus
            &&& shown.mode == if effect is AddComment {
                ModeView::Normal
            } else {
                app.mode
            }
        }),
{
    let id = kept_in_view(app, effect, written@)->0;
    let views = model::card_views(cards@);
    let shown = AppView { project: project@, cards: views, drag: None, ..app };
    assert(stands_at(shown, id, k, column, row));
    lemma_position(shown, id, k, column, row);
    keys::columns_show_their_cards(shown, column);
    keys::lemma_cards_bound(views, shown.columns()[column].name, views.len());
}

/// A board that was just opened shows its cards, and has the first card of its first column with a
/// card selected; where it has no card, none.
pub proof fn opened_boards_select_the_first_card(
    project: ProjectView,
    cards: Seq<CardView>,
    column: int,
)
    requires
        0 <= column <= project.config.columns.len() <= usize::MAX,
        forall|j: int|
            0 <= j < column ==> cards::all_in(
                cards,
                (#[trigger] project.config.columns[j]).name,
            ).len() == 0,
        column < project.config.columns.len() ==> cards::all_in(
            cards,
            project.config.columns[column].name,
        ).len() > 0,
    ensures
        ({
            let shown = app::opened(project, cards);
            &&& shown.project == project
            &&& shown.cards == cards
            &&& shown.mode is Normal
            &&& shown.focus == Focus::Board
            &&& shown.drag is None
            &&& shown.error is None
            &&& shown.selected_row == 0
            &&& column == project.config.columns.len() ==> shown.selected_id is None
            &&& column < project.config.columns.len() ==> shown.active_column == column
                && shown.selected_id == Some(
                cards::all_in(cards, project.config.columns[column].name)[0].metadata.id,
            )
        }),
{
    let empty = AppView {
        project,
        cards,
        selected_id: None,
        active_column: 0,
        selected_row: 0,
        focus: Focus::Board,
        mode: ModeView::Normal,
        detail_checklist: 0,
        detail_scroll: 0,
        detail_follow_cursor: true,
        drag: None,
        error: None,
        message: None,
    };
    assert forall|j: int| 0 <= j < project.config.columns.len() implies #[trigger]
    empty.column_cards(j) == cards::all_in(cards, project.config.columns[j].name) by {
        keys::columns_show_their_cards(empty, j);
    }
    lemma_first_filled(empty, 0, column);
}

proof fn lemma_first_filled(app: AppView, from: int, column: int)
    requires
        0 <= from <= column <= app.columns().len(),
        forall|j: int| from <= j < column ==> (#[trigger] app.column_cards(j)).len() == 0,
        column < app.columns().len() ==> app.column_cards(column).len() > 0,
    ensures
        app::first_filled(app, from) == if column < app.columns().len() {
            Some(column)
        } else {
            None
        },
    decreases column - from,
{
    if from < column {
        assert(app.column_cards(from).len() == 0);
        lemma_first_filled(app, from + 1, column);
    }
}

} // verus!
