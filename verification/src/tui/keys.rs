//! What the keys and the mouse do on the board.

use crate::cards;
use crate::config;
use crate::markdown;
use crate::model::CardView;
use crate::store;
use crate::text;
use crate::tui::app;
use crate::tui::app::{AppView, Author, DragView, EffectView, Focus, ModeView};
use crate::tui::input;
use crate::tui::input::{Key, KeyCode, Mouse, MouseKind};
use crate::tui::ui;
use crate::tui::ui::{HitView, TargetView};
use vstd::prelude::*;

verus! {

/// Whether a card is in a column, and in none before it.
pub open spec fn is_in(app: AppView, card: CardView, i: int) -> bool {
    &&& 0 <= i < app.columns().len()
    &&& text::alike(app.columns()[i].name, card.metadata.status)
    &&& forall|j: int|
        0 <= j < i ==> !text::alike((#[trigger] app.columns()[j]).name, card.metadata.status)
}

/// Whether a card is the selected one: the first with the selected id.
pub open spec fn is_selected(app: AppView, k: int) -> bool {
    &&& 0 <= k < app.cards.len()
    &&& app.selected_id matches Some(id) && text::alike(app.cards[k].metadata.id, id) && forall|
        j: int,
    |
        0 <= j < k ==> !text::alike((#[trigger] app.cards[j]).metadata.id, id)
}

proof fn lemma_selected(app: AppView, k: int)
    requires
        is_selected(app, k),
    ensures
        app.selected() == Some(app.cards[k]),
{
    let id = app.selected_id->0;
    assert forall|j: int| 0 <= j < k implies !store::has_id(#[trigger] app.cards[j], id) by {
        assert(!text::alike(app.cards[j].metadata.id, id));
    }
    cards::lemma_first_with(app.cards, id, 0, k);
}

pub proof fn lemma_in(app: AppView, card: CardView, i: int)
    requires
        is_in(app, card, i),
    ensures
        config::column_at(app.columns(), card.metadata.status, 0) == Some(i),
{
    config::lemma_column_at(app.columns(), card.metadata.status, 0);
    let found = config::column_at(app.columns(), card.metadata.status, 0);
    assert(text::alike(app.columns()[i].name, card.metadata.status));
    if let Some(k) = found {
        if k < i {
            assert(!text::alike(app.columns()[k].name, card.metadata.status));
        }
    }
}

/// On the board, the opening bracket asks for one move of the selected card: to the column left of its
/// own, and for nothing where it is in the first one. The closing bracket asks for its move to the column
/// right of its own, and for nothing where it is in the last one.
pub proof fn brackets_move_the_selected_card(
    app: AppView,
    key: Key,
    author: Author,
    k: int,
    i: int,
)
    requires
        app.mode is Normal,
        app.columns().len() <= usize::MAX,
        is_selected(app, k),
        is_in(app, app.cards[k], i),
    ensures
        ({
            let id = app.cards[k].metadata.id;
            let columns = app.columns();
            &&& key.code == KeyCode::Char('[') ==> input::key_handled(app, key, author) == (
                app,
                if i > 0 {
                    seq![EffectView::MoveCard { id, status: columns[i - 1].name }]
                } else {
                    Seq::empty()
                },
            )
            &&& key.code == KeyCode::Char(']') ==> input::key_handled(app, key, author) == (
                app,
                if i + 1 < columns.len() {
                    seq![EffectView::MoveCard { id, status: columns[i + 1].name }]
                } else {
                    Seq::empty()
                },
            )
        }),
{
    lemma_selected(app, k);
    lemma_in(app, app.cards[k], i);
}

/// Where no card is selected, the brackets ask for nothing.
pub proof fn brackets_move_no_other_card(app: AppView, key: Key, author: Author)
    requires
        app.mode is Normal,
        app.selected_id is None,
        key.code == KeyCode::Char('[') || key.code == KeyCode::Char(']'),
    ensures
        input::key_handled(app, key, author) == (app, Seq::<EffectView>::empty()),
{
}

proof fn lemma_cards_of(cards: Seq<CardView>, status: Seq<char>, n: nat, keep: spec_fn(CardView) -> bool)
    requires
        n <= cards.len(),
        forall|card: CardView| #[trigger] keep(card) == text::alike(card.metadata.status, status),
    ensures
        app::cards_of(cards, status, n) == cards.take(n as int).filter(keep),
    decreases n,
{
    reveal(Seq::filter);
    if n > 0 {
        lemma_cards_of(cards, status, (n - 1) as nat, keep);
        let first = cards.take(n as int);
        assert(first.drop_last() =~= cards.take(n - 1));
        assert(first.last() == cards[n - 1]);
        assert(keep(cards[n - 1]) == text::alike(cards[n - 1].metadata.status, status));
    } else {
        assert(cards.take(0).filter(keep) =~= Seq::<CardView>::empty());
    }
}

/// A column shows the cards whose status is its name, whatever the case of its letters, in their order.
pub proof fn columns_show_their_cards(app: AppView, column: int)
    requires
        0 <= column < app.columns().len(),
    ensures
        app.column_cards(column) == cards::all_in(app.cards, app.columns()[column].name),
{
    let name = app.columns()[column].name;
    lemma_cards_of(
        app.cards,
        name,
        app.cards.len(),
        |card: CardView| text::alike(card.metadata.status, name),
    );
    assert(app.cards.take(app.cards.len() as int) =~= app.cards);
}

/// The card that is selected in a column: the one in a row, the last one where there are fewer, or none
/// where the column is empty.
pub open spec fn card_in(cards: Seq<CardView>, row: int) -> Option<Seq<char>> {
    if cards.len() == 0 {
        None
    } else if row < cards.len() {
        Some(cards[row].metadata.id)
    } else {
        Some(cards.last().metadata.id)
    }
}

/// On the board, the left arrow and h go one column to the left, the right arrow and l one column to the
/// right, and no further than the first and the last one. The card in the same row of that column is
/// selected, the last one where there are fewer. Nothing is asked for.
pub proof fn arrows_change_the_column(app: AppView, key: Key, author: Author)
    requires
        app.mode is Normal,
        app.focus == Focus::Board,
        app.is_sound(),
    ensures
        ({
            let (after, effects) = input::key_handled(app, key, author);
            let at = app.active_column as int;
            let left = key.code == KeyCode::Left || key.code == KeyCode::Char('h');
            let right = key.code == KeyCode::Right || key.code == KeyCode::Char('l');
            &&& left || right ==> effects.len() == 0 && after.cards == app.cards && after.columns()
                == app.columns() && after.mode == app.mode && after.focus == app.focus
            &&& left && at == 0 ==> after == app
            &&& left && at > 0 ==> after.active_column == at - 1 && after.selected_id == card_in(
                app.column_cards(at - 1),
                app.selected_row as int,
            )
            &&& right && at + 1 < app.columns().len() ==> after.active_column == at + 1
                && after.selected_id == card_in(app.column_cards(at + 1), app.selected_row as int)
            &&& right && at + 1 == app.columns().len() ==> after.active_column == at
        }),
{
}

/// On the board, the up arrow and k select the card above, the down arrow and j the card below, in the
/// same column, and no further than the first and the last one. Nothing is asked for.
pub proof fn arrows_change_the_card(app: AppView, key: Key, author: Author)
    requires
        app.mode is Normal,
        app.focus == Focus::Board,
        app.is_sound(),
        app.selected_row < app.column_cards(app.active_column as int).len(),
    ensures
        ({
            let (after, effects) = input::key_handled(app, key, author);
            let cards = app.column_cards(app.active_column as int);
            let row = app.selected_row as int;
            let up = key.code == KeyCode::Up || key.code == KeyCode::Char('k');
            let down = key.code == KeyCode::Down || key.code == KeyCode::Char('j');
            let next = if up {
                if row > 0 {
                    row - 1
                } else {
                    0
                }
            } else if row + 1 < cards.len() {
                row + 1
            } else {
                row
            };
            up || down ==> {
                &&& effects.len() == 0
                &&& after.active_column == app.active_column
                &&& after.cards == app.cards
                &&& after.mode == app.mode
                &&& after.selected_row == next
                &&& after.selected_id == Some(cards[next].metadata.id)
            }
        }),
{
    lemma_column_bound(app, app.active_column as int);
}

pub proof fn lemma_cards_bound(cards: Seq<CardView>, status: Seq<char>, n: nat)
    requires
        n <= cards.len(),
    ensures
        app::cards_of(cards, status, n).len() <= n,
    decreases n,
{
    if n > 0 {
        lemma_cards_bound(cards, status, (n - 1) as nat);
    }
}

proof fn lemma_column_bound(app: AppView, column: int)
    requires
        app.is_sound(),
    ensures
        app.column_cards(column).len() <= usize::MAX,
{
    if 0 <= column < app.columns().len() {
        lemma_cards_bound(app.cards, app.columns()[column].name, app.cards.len());
    }
}

/// In the details of the selected card, the up arrow and k go to the checklist item above, the down arrow
/// and j to the one below, and no further than the first and the last one. The space bar asks for the item
/// there to be turned over, by its number in the card, and for nothing else.
pub proof fn detail_keys_reach_the_checklist(app: AppView, key: Key, author: Author, k: int)
    requires
        app.mode is Normal,
        app.focus == Focus::Detail,
        is_selected(app, k),
        markdown::items_in(app.cards[k].body).len() <= usize::MAX,
        app.detail_checklist < markdown::items_in(app.cards[k].body).len(),
    ensures
        ({
            let (after, effects) = input::key_handled(app, key, author);
            let items = markdown::items_in(app.cards[k].body);
            let at = app.detail_checklist as int;
            let up = key.code == KeyCode::Up || key.code == KeyCode::Char('k');
            let down = key.code == KeyCode::Down || key.code == KeyCode::Char('j');
            &&& up || down ==> effects.len() == 0 && after.selected_id == app.selected_id
                && after.cards == app.cards
            &&& up ==> after.detail_checklist == if at > 0 {
                at - 1
            } else {
                0
            }
            &&& down ==> after.detail_checklist == if at + 1 < items.len() {
                at + 1
            } else {
                at
            }
            &&& key.code == KeyCode::Char(' ') ==> after == app && effects == seq![
                EffectView::ToggleChecklist {
                    id: app.selected_id->0,
                    global_index: (at + 1) as usize,
                },
            ]
        }),
{
    lemma_selected(app, k);
}

/// On the board, the space bar does nothing, and in the details the keys for columns do nothing.
pub proof fn keys_keep_to_their_pane(app: AppView, key: Key, author: Author)
    requires
        app.mode is Normal,
    ensures
        app.focus == Focus::Board && key.code == KeyCode::Char(' ') ==> input::key_handled(
            app,
            key,
            author,
        ) == (app, Seq::<EffectView>::empty()),
        app.focus == Focus::Detail && (key.code == KeyCode::Left || key.code == KeyCode::Right
            || key.code == KeyCode::Char('h') || key.code == KeyCode::Char('l'))
            ==> input::key_handled(app, key, author) == (app, Seq::<EffectView>::empty()),
{
}

/// Tab goes over between the board and the details, and Enter goes from the board to the details. Page
/// keys scroll the details. The question mark shows the help, n asks for the title of a new card, r for
/// everything to be read again, and q leaves.
pub proof fn keys_open_what_they_name(app: AppView, key: Key, author: Author)
    requires
        app.mode is Normal,
        !key.control,
    ensures
        ({
            let (after, effects) = input::key_handled(app, key, author);
            let none = Seq::<EffectView>::empty();
            &&& key.code == KeyCode::Tab || key.code == KeyCode::BackTab ==> effects == none
                && after.focus != app.focus && after == (AppView { focus: after.focus, ..app })
            &&& key.code == KeyCode::Enter && app.focus == Focus::Board ==> effects == none && after
                == (AppView { focus: Focus::Detail, ..app })
            &&& key.code == KeyCode::Char('?') ==> effects == none && after == (AppView {
                mode: ModeView::Help,
                ..app
            })
            &&& key.code == KeyCode::Char('n') ==> effects == none && after == (AppView {
                mode: ModeView::QuickAdd { title: Seq::empty() },
                error: None,
                ..app
            })
            &&& key.code == KeyCode::Char('r') ==> after == app && effects == seq![
                EffectView::Reload,
            ]
            &&& key.code == KeyCode::Char('q') ==> after == app && effects == seq![
                EffectView::Quit,
            ]
            &&& key.code == KeyCode::PageDown && app.focus == Focus::Detail && app.detail_scroll
                <= usize::MAX - 8 ==> effects == none && after.detail_scroll == app.detail_scroll
                + 8
            &&& key.code == KeyCode::PageUp && app.focus == Focus::Detail ==> effects == none
                && after.detail_scroll == if app.detail_scroll >= 8 {
                app.detail_scroll - 8
            } else {
                0
            }
        }),
{
}

/// A comment is written on the selected card by the author that is known. Where no card is selected, or
/// no author is known, none is begun.
pub proof fn comments_are_begun_on_the_selected_card(
    app: AppView,
    key: Key,
    author: Author,
    k: int,
)
    requires
        app.mode is Normal,
        key.code == KeyCode::Char('c'),
        !key.control,
        is_selected(app, k) || app.selected_id is None,
    ensures
        ({
            let (after, effects) = input::key_handled(app, key, author);
            &&& effects.len() == 0
            &&& is_selected(app, k) && author is Known ==> after.mode == (ModeView::AddComment {
                card_id: app.cards[k].metadata.id,
                author: author->Known_0@,
                text: Seq::empty(),
            }) && after.cards == app.cards && after.selected_id == app.selected_id
            &&& app.selected_id is None || author is Unknown ==> after.mode is Normal
                && after.error is Some
        }),
{
    if is_selected(app, k) {
        lemma_selected(app, k);
    }
}

/// Enter makes a card of the title that was typed, without the white space around it, in the column that
/// is active, and goes back to the board. A title with nothing on it is refused, and the prompt stays.
/// Escape gives up, Backspace takes off the last character, and Control and U all of them.
pub proof fn titles_are_typed(app: AppView, key: Key, author: Author, title: Seq<char>)
    requires
        app.mode == (ModeView::QuickAdd { title }),
        app.is_sound(),
    ensures
        ({
            let (after, effects) = input::key_handled(app, key, author);
            let none = Seq::<EffectView>::empty();
            &&& after.cards == app.cards && after.selected_id == app.selected_id
            &&& key.code == KeyCode::Enter && text::trim(title).len() > 0 ==> after.mode is Normal
                && effects == seq![
                EffectView::CreateCard {
                    title: text::trim(title),
                    status: app.columns()[app.active_column as int].name,
                },
            ]
            &&& key.code == KeyCode::Enter && text::trim(title).len() == 0 ==> after.mode
                == app.mode && after.error is Some && effects == none
            &&& key.code == KeyCode::Esc ==> after.mode is Normal && effects == none
            &&& key.code == KeyCode::Backspace && title.len() > 0 ==> after.mode == (
            ModeView::QuickAdd { title: title.drop_last() }) && effects == none
            &&& key.code == KeyCode::Char('u') && key.control ==> after.mode == (
            ModeView::QuickAdd { title: Seq::empty() }) && effects == none
        }),
{
}

/// Enter asks for the comment that was typed, on the card that it was begun on, by its author, and keeps
/// the draft until it is written. A text with nothing on it is refused. Escape gives up, Backspace takes
/// off the last character, and Control and U all of them.
pub proof fn comments_are_typed(
    app: AppView,
    key: Key,
    by: Author,
    card_id: Seq<char>,
    author: Seq<char>,
    text: Seq<char>,
)
    requires
        app.mode == (ModeView::AddComment { card_id, author, text }),
    ensures
        ({
            let (after, effects) = input::key_handled(app, key, by);
            let none = Seq::<EffectView>::empty();
            &&& after.cards == app.cards && after.selected_id == app.selected_id
            &&& key.code == KeyCode::Enter && !text::is_blank(text) ==> after.mode == app.mode
                && effects == seq![EffectView::AddComment { id: card_id, author, text }]
            &&& key.code == KeyCode::Enter && text::is_blank(text) ==> after.mode == app.mode
                && after.error is Some && effects == none
            &&& key.code == KeyCode::Esc ==> after.mode is Normal && effects == none
            &&& key.code == KeyCode::Backspace && text.len() > 0 ==> after.mode == (
            ModeView::AddComment { card_id, author, text: text.drop_last() }) && effects == none
            &&& key.code == KeyCode::Char('u') && key.control ==> after.mode == (
            ModeView::AddComment { card_id, author, text: Seq::empty() }) && effects == none
        }),
{
}

/// The help goes away with Escape or the question mark, and asks for nothing.
pub proof fn the_help_is_left(app: AppView, key: Key, author: Author)
    requires
        app.mode is Help,
        key.code == KeyCode::Esc || key.code == KeyCode::Char('?'),
    ensures
        input::key_handled(app, key, author) == (
            AppView { mode: ModeView::Normal, ..app },
            Seq::<EffectView>::empty(),
        ),
{
}

/// Whether the place at a column and a row of the screen is in a region.
pub open spec fn is_over(hit: HitView, x: u16, y: u16) -> bool {
    &&& hit.rect.x <= x < hit.rect.x + hit.rect.width
    &&& hit.rect.y <= y < hit.rect.y + hit.rect.height
    &&& x < u16::MAX && y < u16::MAX
}

/// Whether a region is the uppermost one at a place.
pub open spec fn is_uppermost(hits: Seq<HitView>, x: u16, y: u16, i: int) -> bool {
    &&& 0 <= i < hits.len()
    &&& is_over(hits[i], x, y)
    &&& forall|j: int| i < j < hits.len() ==> !is_over(#[trigger] hits[j], x, y)
}

/// Whether a region is the uppermost one of a column at a place.
pub open spec fn is_column_at(hits: Seq<HitView>, x: u16, y: u16, i: int) -> bool {
    &&& 0 <= i < hits.len()
    &&& is_over(hits[i], x, y)
    &&& hits[i].target is Column
    &&& forall|j: int|
        i < j < hits.len() && is_over(#[trigger] hits[j], x, y) ==> !(hits[j].target is Column)
}

proof fn lemma_uppermost(hits: Seq<HitView>, x: u16, y: u16, n: nat, i: int)
    requires
        0 <= i < n <= hits.len(),
        is_over(hits[i], x, y),
        forall|j: int| i < j < n ==> !is_over(#[trigger] hits[j], x, y),
    ensures
        ui::uppermost(hits, x, y, n) == Some(hits[i].target),
    decreases n,
{
    if i < n - 1 {
        assert(!is_over(hits[n - 1], x, y));
        lemma_uppermost(hits, x, y, (n - 1) as nat, i);
    }
}

proof fn lemma_column_over(hits: Seq<HitView>, x: u16, y: u16, n: nat, i: int)
    requires
        0 <= i < n <= hits.len(),
        is_over(hits[i], x, y),
        hits[i].target is Column,
        forall|j: int|
            i < j < n && is_over(#[trigger] hits[j], x, y) ==> !(hits[j].target is Column),
    ensures
        ui::uppermost_column(hits, x, y, n) == Some(hits[i].target->Column_0),
    decreases n,
{
    if i < n - 1 {
        assert(is_over(hits[n - 1], x, y) ==> !(hits[n - 1].target is Column));
        lemma_column_over(hits, x, y, (n - 1) as nat, i);
    }
}

proof fn lemma_no_column(hits: Seq<HitView>, x: u16, y: u16, n: nat)
    requires
        n <= hits.len(),
        forall|j: int|
            0 <= j < n && is_over(#[trigger] hits[j], x, y) ==> !(hits[j].target is Column),
    ensures
        ui::uppermost_column(hits, x, y, n) is None,
    decreases n,
{
    if n > 0 {
        assert(is_over(hits[n - 1], x, y) ==> !(hits[n - 1].target is Column));
        lemma_no_column(hits, x, y, (n - 1) as nat);
    }
}

/// Pressing the button over a card selects that card and begins to drag it. Pressing it over a checklist
/// item selects the item in the details of its card, and asks for it to be turned over. Pressing it over a
/// column, the details or the board goes there, and asks for nothing.
pub proof fn presses_reach_what_is_uppermost(
    app: AppView,
    mouse: Mouse,
    hits: Seq<HitView>,
    i: int,
)
    requires
        app.mode is Normal,
        mouse.kind == MouseKind::Down,
        is_uppermost(hits, mouse.column, mouse.row, i),
    ensures
        ({
            let (after, effects) = input::mouse_handled(app, mouse, hits);
            let none = Seq::<EffectView>::empty();
            &&& after.cards == app.cards && after.mode == app.mode
            &&& match hits[i].target {
                TargetView::Card { id, column, row } => {
                    &&& effects == none
                    &&& after.focus == Focus::Board
                    &&& after.drag == Some(DragView { card_id: id, hover_column: column })
                    &&& app.position(id) is Some ==> after.selected_id == Some(id)
                        && after.selected_row == row
                    &&& app.position(id) is None ==> after.selected_id == app.selected_id
                },
                TargetView::Checklist { card_id, global_index } => {
                    &&& effects == seq![
                        EffectView::ToggleChecklist { id: card_id, global_index },
                    ]
                    &&& after.focus == Focus::Detail
                    &&& app.position(card_id) is Some && global_index > 0 ==> after.selected_id
                        == Some(card_id) && after.detail_checklist == global_index - 1
                },
                TargetView::Column(column) => {
                    &&& effects == none
                    &&& after.focus == Focus::Board
                    &&& column < app.columns().len() <= usize::MAX ==> after.active_column == column
                        && after.selected_id == card_in(
                        app.column_cards(column as int),
                        app.selected_row as int,
                    )
                },
                TargetView::DetailPane => effects == none && after == (AppView {
                    focus: Focus::Detail,
                    ..app
                }),
                TargetView::BoardPane => effects == none && after == (AppView {
                    focus: Focus::Board,
                    ..app
                }),
            }
        }),
{
    lemma_uppermost(hits, mouse.column, mouse.row, hits.len(), i);
    let there = AppView { focus: Focus::Board, ..app };
    if let TargetView::Card { id, .. } = hits[i].target {
        assert(there.position(id) == app.position(id));
    }
    if let TargetView::Checklist { card_id, .. } = hits[i].target {
        let detail = AppView { focus: Focus::Detail, ..app };
        assert(detail.position(card_id) == app.position(card_id));
    }
    if let TargetView::Column(column) = hits[i].target {
        assert(there.column_cards(column as int) == app.column_cards(column as int));
    }
}

/// Releasing the button over a column drops the card that was dragged there: it asks for the move of that
/// card to that column, and for nothing where it is there already. Released elsewhere, or with no card
/// dragged, it asks for nothing. Nothing is dragged then.
pub proof fn releases_drop_the_dragged_card(
    app: AppView,
    mouse: Mouse,
    hits: Seq<HitView>,
    i: int,
    k: int,
)
    requires
        app.mode is Normal,
        mouse.kind == MouseKind::Up,
    ensures
        ({
            let (after, effects) = input::mouse_handled(app, mouse, hits);
            let (x, y) = (mouse.column, mouse.row);
            &&& after == (AppView { drag: None, ..app })
            &&& app.drag is None ==> effects.len() == 0
            &&& (forall|j: int|
                0 <= j < hits.len() && is_over(#[trigger] hits[j], x, y) ==> !(
                hits[j].target is Column)) ==> effects.len() == 0
            &&& is_column_at(hits, x, y, i) && hits[i].target->Column_0 < app.columns().len()
                && app.drag is Some && is_dragged(app, k) ==> {
                let name = app.columns()[hits[i].target->Column_0 as int].name;
                effects == if text::alike(app.cards[k].metadata.status, name) {
                    Seq::<EffectView>::empty()
                } else {
                    seq![EffectView::MoveCard { id: app.drag->0.card_id, status: name }]
                }
            }
        }),
{
    let (x, y) = (mouse.column, mouse.row);
    if is_column_at(hits, x, y, i) {
        lemma_column_over(hits, x, y, hits.len(), i);
    }
    if forall|j: int|
        0 <= j < hits.len() && is_over(#[trigger] hits[j], x, y) ==> !(hits[j].target is Column) {
        lemma_no_column(hits, x, y, hits.len());
    }
    if app.drag is Some && is_dragged(app, k) {
        let id = app.drag->0.card_id;
        assert forall|j: int| 0 <= j < k implies !store::has_id(#[trigger] app.cards[j], id) by {
            assert(!text::alike(app.cards[j].metadata.id, id));
        }
        cards::lemma_first_with(app.cards, id, 0, k);
    }
}

/// Whether a card is the one that is dragged: the first with its id.
pub open spec fn is_dragged(app: AppView, k: int) -> bool {
    &&& 0 <= k < app.cards.len()
    &&& app.drag matches Some(drag) && text::alike(app.cards[k].metadata.id, drag.card_id) && forall|
        j: int,
    |
        0 <= j < k ==> !text::alike((#[trigger] app.cards[j]).metadata.id, drag.card_id)
}

/// Moving the mouse with the button down marks the column under it for the card that is dragged, and
/// changes nothing else.
pub proof fn drags_mark_the_column(app: AppView, mouse: Mouse, hits: Seq<HitView>, i: int)
    requires
        app.mode is Normal,
        mouse.kind == MouseKind::Drag,
        is_column_at(hits, mouse.column, mouse.row, i),
    ensures
        input::mouse_handled(app, mouse, hits) == (
            AppView {
                drag: match app.drag {
                    Some(drag) => Some(
                        DragView {
                            card_id: drag.card_id,
                            hover_column: hits[i].target->Column_0,
                        },
                    ),
                    None => None,
                },
                ..app
            },
            Seq::<EffectView>::empty(),
        ),
{
    lemma_column_over(hits, mouse.column, mouse.row, hits.len(), i);
}

/// The wheel scrolls what is under the mouse: over the details it goes three lines up or down, over a
/// column to the card above or below in that column. It asks for nothing.
pub proof fn the_wheel_scrolls_what_is_under_it(
    app: AppView,
    mouse: Mouse,
    hits: Seq<HitView>,
    i: int,
)
    requires
        app.mode is Normal,
        mouse.kind == MouseKind::ScrollUp || mouse.kind == MouseKind::ScrollDown,
        0 <= i < hits.len(),
        is_over(hits[i], mouse.column, mouse.row),
        app.detail_scroll <= usize::MAX - 3,
    ensures
        ({
            let (after, effects) = input::mouse_handled(app, mouse, hits);
            let (x, y) = (mouse.column, mouse.row);
            let up = mouse.kind == MouseKind::ScrollUp;
            &&& effects.len() == 0
            &&& after.cards == app.cards
            &&& hits[i].target is DetailPane ==> after.focus == Focus::Detail
                && after.detail_scroll == if !up {
                app.detail_scroll + 3
            } else if app.detail_scroll >= 3 {
                app.detail_scroll - 3
            } else {
                0
            }
            &&& is_column_at(hits, x, y, i) && (forall|j: int|
                0 <= j < hits.len() && is_over(#[trigger] hits[j], x, y) ==> !(
                hits[j].target is DetailPane)) ==> after.focus == Focus::Board && after
                == input::focused(app, Focus::Board).column_selected(
                hits[i].target->Column_0,
            ).card_changed(
                if up {
                    -1
                } else {
                    1
                },
            )
        }),
{
    let (x, y) = (mouse.column, mouse.row);
    assert(hits[i].rect.holds(x, y));
    if is_column_at(hits, x, y, i) {
        lemma_column_over(hits, x, y, hits.len(), i);
    }
    if ui::in_detail(hits, x, y) {
        let j = choose|j: int|
            0 <= j < hits.len() && (#[trigger] hits[j]).rect.holds(x, y)
                && hits[j].target is DetailPane;
        assert(is_over(hits[j], x, y));
    }
}

} // verus!
