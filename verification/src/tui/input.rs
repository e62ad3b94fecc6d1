//! What keys and the mouse do.

use crate::text;
use crate::tui::app;
use crate::tui::app::{
    Action, App, AppView, Author, DragView, Effect, EffectView, Focus, Mode, ModeView,
};
use crate::tui::ui;
use crate::tui::ui::{HitMap, HitTarget, HitView, TargetView};
use vstd::prelude::*;

verus! {

/// A key.
#[derive(Clone, Copy, Debug, PartialEq, Eq, Structural)]
pub enum KeyCode {
    Char(char),
    Esc,
    Enter,
    Backspace,
    Tab,
    BackTab,
    Left,
    Right,
    Up,
    Down,
    PageUp,
    PageDown,
    Other,
}

/// A key that was pressed, with what was held down.
#[derive(Clone, Copy, Debug, PartialEq, Eq, Structural)]
pub struct Key {
    pub code: KeyCode,
    pub control: bool,
    pub alt: bool,
}

/// What the mouse did.
#[derive(Clone, Copy, Debug, PartialEq, Eq, Structural)]
pub enum MouseKind {
    /// The left button went down.
    Down,
    /// The mouse was moved with the left button down.
    Drag,
    /// The left button went up.
    Up,
    ScrollUp,
    ScrollDown,
    ScrollLeft,
    ScrollRight,
    Other,
}

/// What the mouse did at a place.
#[derive(Clone, Copy, Debug, PartialEq, Eq, Structural)]
pub struct Mouse {
    pub kind: MouseKind,
    pub column: u16,
    pub row: u16,
}

/// What a key does in the prompt for a new card.
pub open spec fn quick_add_action(key: Key) -> Option<Action> {
    match key.code {
        KeyCode::Esc => Some(Action::CancelModal),
        KeyCode::Enter => Some(Action::SubmitQuickAdd),
        KeyCode::Backspace => Some(Action::QuickAddBackspace),
        KeyCode::Char(c) => if c == 'u' && key.control {
            Some(Action::QuickAddClear)
        } else if !key.control && !key.alt {
            Some(Action::QuickAddCharacter(c))
        } else {
            None
        },
        _ => None,
    }
}

/// What a key does in the composer for a comment.
pub open spec fn comment_action(key: Key) -> Option<Action> {
    match key.code {
        KeyCode::Esc => Some(Action::CancelModal),
        KeyCode::Enter => Some(Action::SubmitComment),
        KeyCode::Backspace => Some(Action::CommentBackspace),
        KeyCode::Char(c) => if c == 'u' && key.control {
            Some(Action::CommentClear)
        } else if !key.control && !key.alt {
            Some(Action::CommentCharacter(c))
        } else {
            None
        },
        _ => None,
    }
}

/// What a key does in the help.
pub open spec fn help_action(key: Key) -> Option<Action> {
    match key.code {
        KeyCode::Char(c) => if c == 'q' {
            Some(Action::Quit)
        } else if c == '?' {
            Some(Action::ToggleHelp)
        } else {
            None
        },
        KeyCode::Esc => Some(Action::ToggleHelp),
        _ => None,
    }
}

/// What a character does on the board.
pub open spec fn char_action(c: char, focus: Focus, author: Author) -> Option<Action> {
    if c == 'q' {
        Some(Action::Quit)
    } else if c == 'r' {
        Some(Action::Reload)
    } else if c == '?' {
        Some(Action::ToggleHelp)
    } else if c == 'n' {
        Some(Action::OpenQuickAdd)
    } else if c == 'c' {
        Some(Action::OpenComment(author))
    } else if c == '[' {
        Some(Action::MoveSelected(-1i32))
    } else if c == ']' {
        Some(Action::MoveSelected(1))
    } else if c == ' ' {
        detailed(focus, Action::ToggleSelectedChecklist)
    } else if c == 'h' {
        sideways(focus, Action::PreviousColumn)
    } else if c == 'l' {
        sideways(focus, Action::NextColumn)
    } else if c == 'k' {
        Some(upward(focus))
    } else if c == 'j' {
        Some(downward(focus))
    } else {
        None
    }
}

/// What is only done on the board.
pub open spec fn sideways(focus: Focus, action: Action) -> Option<Action> {
    match focus {
        Focus::Board => Some(action),
        Focus::Detail => None,
    }
}

/// What is only done in the detail.
pub open spec fn detailed(focus: Focus, action: Action) -> Option<Action> {
    match focus {
        Focus::Board => None,
        Focus::Detail => Some(action),
    }
}

/// What going up does.
pub open spec fn upward(focus: Focus) -> Action {
    match focus {
        Focus::Board => Action::PreviousCard,
        Focus::Detail => Action::PreviousChecklist,
    }
}

/// What going down does.
pub open spec fn downward(focus: Focus) -> Action {
    match focus {
        Focus::Board => Action::NextCard,
        Focus::Detail => Action::NextChecklist,
    }
}

/// What a key does on the board and in the detail.
pub open spec fn normal_action(key: Key, focus: Focus, author: Author) -> Option<Action> {
    match key.code {
        KeyCode::Char(c) => char_action(c, focus, author),
        KeyCode::Tab | KeyCode::BackTab => Some(Action::ToggleFocus),
        KeyCode::Enter => sideways(focus, Action::Focus(Focus::Detail)),
        KeyCode::Left => sideways(focus, Action::PreviousColumn),
        KeyCode::Right => sideways(focus, Action::NextColumn),
        KeyCode::Up => Some(upward(focus)),
        KeyCode::Down => Some(downward(focus)),
        KeyCode::PageUp => detailed(focus, Action::ScrollDetail(-8i32)),
        KeyCode::PageDown => detailed(focus, Action::ScrollDetail(8)),
        _ => None,
    }
}

/// What a key does. The author is the one that a comment would have.
pub open spec fn key_action(app: AppView, key: Key, author: Author) -> Option<Action> {
    if key.code == KeyCode::Char('c') && key.control {
        Some(Action::Quit)
    } else if app.mode is QuickAdd {
        quick_add_action(key)
    } else if app.mode is AddComment {
        comment_action(key)
    } else if app.mode is Help {
        help_action(key)
    } else {
        normal_action(key, app.focus, author)
    }
}

/// The board after a key, and what the key asks for.
pub open spec fn key_handled(app: AppView, key: Key, author: Author) -> (AppView, Seq<EffectView>) {
    match key_action(app, key, author) {
        Some(action) => app.reduced(action),
        None => if app.mode is Normal && key.code == KeyCode::Esc {
            (AppView { drag: None, error: None, ..app }, Seq::empty())
        } else {
            (app, Seq::empty())
        },
    }
}

/// Whether a key opens the composer for a comment, so that an author is needed.
pub open spec fn needs_author(app: AppView, key: Key) -> bool {
    app.mode is Normal && key.code == KeyCode::Char('c') && !key.control && app.selected() is Some
}

/// Finds what a key does in the prompt for a new card.
fn read_quick_add_key(key: Key) -> (r: Option<Action>)
    ensures
        r == quick_add_action(key),
{
    match key.code {
        KeyCode::Esc => Some(Action::CancelModal),
        KeyCode::Enter => Some(Action::SubmitQuickAdd),
        KeyCode::Backspace => Some(Action::QuickAddBackspace),
        KeyCode::Char(c) => if c == 'u' && key.control {
            Some(Action::QuickAddClear)
        } else if !key.control && !key.alt {
            Some(Action::QuickAddCharacter(c))
        } else {
            None
        },
        _ => None,
    }
}

/// Finds what a key does in the composer for a comment.
fn read_comment_key(key: Key) -> (r: Option<Action>)
    ensures
        r == comment_action(key),
{
    match key.code {
        KeyCode::Esc => Some(Action::CancelModal),
        KeyCode::Enter => Some(Action::SubmitComment),
        KeyCode::Backspace => Some(Action::CommentBackspace),
        KeyCode::Char(c) => if c == 'u' && key.control {
            Some(Action::CommentClear)
        } else if !key.control && !key.alt {
            Some(Action::CommentCharacter(c))
        } else {
            None
        },
        _ => None,
    }
}

/// Finds what a key does in the help.
fn read_help_key(key: Key) -> (r: Option<Action>)
    ensures
        r == help_action(key),
{
    match key.code {
        KeyCode::Char(c) => if c == 'q' {
            Some(Action::Quit)
        } else if c == '?' {
            Some(Action::ToggleHelp)
        } else {
            None
        },
        KeyCode::Esc => Some(Action::ToggleHelp),
        _ => None,
    }
}

/// Finds what a character does on the board.
fn read_char(c: char, focus: Focus, author: Author) -> (r: Option<Action>)
    ensures
        r == char_action(c, focus, author),
{
    let board = match focus {
        Focus::Board => true,
        Focus::Detail => false,
    };
    if c == 'q' {
        Some(Action::Quit)
    } else if c == 'r' {
        Some(Action::Reload)
    } else if c == '?' {
        Some(Action::ToggleHelp)
    } else if c == 'n' {
        Some(Action::OpenQuickAdd)
    } else if c == 'c' {
        Some(Action::OpenComment(author))
    } else if c == '[' {
        Some(Action::MoveSelected(-1))
    } else if c == ']' {
        Some(Action::MoveSelected(1))
    } else if c == ' ' && !board {
        Some(Action::ToggleSelectedChecklist)
    } else if c == 'h' && board {
        Some(Action::PreviousColumn)
    } else if c == 'l' && board {
        Some(Action::NextColumn)
    } else if c == 'k' {
        Some(read_up(focus))
    } else if c == 'j' {
        Some(read_down(focus))
    } else {
        None
    }
}

/// Finds what going up does.
fn read_up(focus: Focus) -> (r: Action)
    ensures
        r == upward(focus),
{
    match focus {
        Focus::Board => Action::PreviousCard,
        Focus::Detail => Action::PreviousChecklist,
    }
}

/// Finds what going down does.
fn read_down(focus: Focus) -> (r: Action)
    ensures
        r == downward(focus),
{
    match focus {
        Focus::Board => Action::NextCard,
        Focus::Detail => Action::NextChecklist,
    }
}

/// Finds what a key does on the board and in the detail.
fn read_normal_key(key: Key, focus: Focus, author: Author) -> (r: Option<Action>)
    ensures
        r == normal_action(key, focus, author),
{
    let board = match focus {
        Focus::Board => true,
        Focus::Detail => false,
    };
    match key.code {
        KeyCode::Char(c) => read_char(c, focus, author),
        KeyCode::Tab | KeyCode::BackTab => Some(Action::ToggleFocus),
        KeyCode::Enter => if board {
            Some(Action::Focus(Focus::Detail))
        } else {
            None
        },
        KeyCode::Left => if board {
            Some(Action::PreviousColumn)
        } else {
            None
        },
        KeyCode::Right => if board {
            Some(Action::NextColumn)
        } else {
            None
        },
        KeyCode::Up => Some(read_up(focus)),
        KeyCode::Down => Some(read_down(focus)),
        KeyCode::PageUp => if board {
            None
        } else {
            Some(Action::ScrollDetail(-8))
        },
        KeyCode::PageDown => if board {
            None
        } else {
            Some(Action::ScrollDetail(8))
        },
        _ => None,
    }
}

/// Whether a key opens the composer for a comment, so that an author is needed.
pub fn opens_composer(app: &App, key: Key) -> (r: bool)
    ensures
        r == needs_author(app@, key),
{
    let normal = match &app.mode {
        Mode::Normal => true,
        _ => false,
    };
    normal && key.code == KeyCode::Char('c') && !key.control && app.selected_card().is_some()
}

/// Does what a key does. The author is the one that a comment would have.
pub fn handle_key(app: &mut App, key: Key, author: Author) -> (r: Vec<Effect>)
    ensures
        (final(app)@, app::effect_views(r@)) == key_handled(old(app)@, key, author),
{
    let action = if key.code == KeyCode::Char('c') && key.control {
        Some(Action::Quit)
    } else {
        match &app.mode {
            Mode::QuickAdd { .. } => read_quick_add_key(key),
            Mode::AddComment { .. } => read_comment_key(key),
            Mode::Help => read_help_key(key),
            Mode::Normal => read_normal_key(key, app.focus, author),
        }
    };
    match action {
        Some(action) => app.reduce(action),
        None => {
            let normal = match &app.mode {
                Mode::Normal => true,
                _ => false,
            };
            if normal && key.code == KeyCode::Esc {
                app.drag = None;
                app.error = None;
            }
            no_effects()
        },
    }
}

/// The board with the keys going to a part of it.
pub open spec fn focused(app: AppView, focus: Focus) -> AppView {
    AppView { focus, ..app }
}

/// The board after the left button went down on something, and what that asks for.
pub open spec fn pressed(app: AppView, target: Option<TargetView>) -> (AppView, Seq<EffectView>) {
    match target {
        Some(TargetView::Checklist { card_id, global_index }) => (
            focused(app, Focus::Detail).item_selected(card_id, global_index),
            seq![EffectView::ToggleChecklist { id: card_id, global_index }],
        ),
        Some(TargetView::Card { id, column, row }) => (
            AppView {
                drag: Some(DragView { card_id: id, hover_column: column }),
                ..focused(app, Focus::Board).card_selected(id, column, row)
            },
            Seq::empty(),
        ),
        Some(TargetView::Column(column)) => (
            focused(app, Focus::Board).column_selected(column),
            Seq::empty(),
        ),
        Some(TargetView::DetailPane) => (focused(app, Focus::Detail), Seq::empty()),
        Some(TargetView::BoardPane) => (focused(app, Focus::Board), Seq::empty()),
        None => (app, Seq::empty()),
    }
}

/// The board after the wheel was turned at a place: the detail is scrolled there, or another card is
/// selected in the column there.
pub open spec fn scrolled(
    app: AppView,
    hits: Seq<HitView>,
    x: u16,
    y: u16,
    lines: int,
    cards: int,
) -> AppView {
    if ui::in_detail(hits, x, y) {
        let detail = focused(app, Focus::Detail);
        AppView {
            detail_scroll: app::shifted(detail.detail_scroll, lines),
            detail_follow_cursor: false,
            ..detail
        }
    } else {
        match ui::uppermost_column(hits, x, y, hits.len()) {
            Some(column) => focused(app, Focus::Board).column_selected(column).card_changed(cards),
            None => app,
        }
    }
}

/// The board after the mouse did something, and what that asks for.
pub open spec fn mouse_handled(app: AppView, mouse: Mouse, hits: Seq<HitView>) -> (
    AppView,
    Seq<EffectView>,
) {
    let column = ui::uppermost_column(hits, mouse.column, mouse.row, hits.len());
    if !(app.mode is Normal) {
        (app, Seq::empty())
    } else {
        match mouse.kind {
            MouseKind::Down => pressed(
                app,
                ui::uppermost(hits, mouse.column, mouse.row, hits.len()),
            ),
            MouseKind::Drag => app.reduced(Action::DragOver(column)),
            MouseKind::Up => app.reduced(Action::DropOn(column)),
            MouseKind::ScrollUp => (
                scrolled(app, hits, mouse.column, mouse.row, -3, -1),
                Seq::empty(),
            ),
            MouseKind::ScrollDown => (
                scrolled(app, hits, mouse.column, mouse.row, 3, 1),
                Seq::empty(),
            ),
            MouseKind::ScrollLeft => (app.column_changed(-1), Seq::empty()),
            MouseKind::ScrollRight => (app.column_changed(1), Seq::empty()),
            MouseKind::Other => (app, Seq::empty()),
        }
    }
}

/// Lets the keys go to a part of the board.
fn turn_to(app: &mut App, focus: Focus) -> (r: Vec<Effect>)
    ensures
        final(app)@ == focused(old(app)@, focus),
        app::effect_views(r@) == Seq::<EffectView>::empty(),
{
    app.reduce(Action::Focus(focus))
}

/// Selects a column.
fn pick_column(app: &mut App, column: usize) -> (r: Vec<Effect>)
    ensures
        final(app)@ == old(app)@.column_selected(column),
        app::effect_views(r@) == Seq::<EffectView>::empty(),
{
    app.reduce(Action::SelectColumn(column))
}

/// Selects the next card, or the one before.
fn step_card(app: &mut App, up: bool) -> (r: Vec<Effect>)
    ensures
        final(app)@ == old(app)@.card_changed(
            if up {
                -1
            } else {
                1
            },
        ),
        app::effect_views(r@) == Seq::<EffectView>::empty(),
{
    if up {
        app.reduce(Action::PreviousCard)
    } else {
        app.reduce(Action::NextCard)
    }
}

/// Scrolls the detail.
fn scroll_detail(app: &mut App, lines: i32) -> (r: Vec<Effect>)
    ensures
        final(app)@ == (AppView {
            detail_scroll: app::shifted(old(app)@.detail_scroll, lines as int),
            detail_follow_cursor: false,
            ..old(app)@
        }),
        app::effect_views(r@) == Seq::<EffectView>::empty(),
{
    app.reduce(Action::ScrollDetail(lines))
}

/// Starts to drag a card.
fn drag_card(app: &mut App, id: String, column: usize, row: usize) -> (r: Vec<Effect>)
    ensures
        final(app)@ == (AppView {
            drag: Some(DragView { card_id: id@, hover_column: column }),
            ..old(app)@.card_selected(id@, column, row)
        }),
        app::effect_views(r@) == Seq::<EffectView>::empty(),
{
    app.reduce(Action::BeginDrag { id, column, row })
}

/// Selects a checklist item and asks to toggle it.
fn toggle_item(app: &mut App, card_id: String, global_index: usize) -> (r: Vec<Effect>)
    ensures
        final(app)@ == old(app)@.item_selected(card_id@, global_index),
        app::effect_views(r@) == seq![
            EffectView::ToggleChecklist { id: card_id@, global_index },
        ],
{
    app.reduce(Action::ToggleChecklist { card_id, global_index })
}

/// Does what the left button does that went down on something.
fn press(app: &mut App, target: Option<&HitTarget>) -> (r: Vec<Effect>)
    ensures
        (final(app)@, app::effect_views(r@)) == pressed(old(app)@, ui::target_of(target)),
{
    match target {
        Some(HitTarget::Checklist { card_id, global_index }) => {
            let _ = turn_to(app, Focus::Detail);
            toggle_item(app, text::copy_string(card_id), *global_index)
        },
        Some(HitTarget::Card { id, column, row }) => {
            let _ = turn_to(app, Focus::Board);
            drag_card(app, text::copy_string(id), *column, *row)
        },
        Some(HitTarget::Column(column)) => {
            let _ = turn_to(app, Focus::Board);
            pick_column(app, *column)
        },
        Some(HitTarget::DetailPane) => turn_to(app, Focus::Detail),
        Some(HitTarget::BoardPane) => turn_to(app, Focus::Board),
        None => no_effects(),
    }
}

/// Asks for nothing.
fn no_effects() -> (r: Vec<Effect>)
    ensures
        app::effect_views(r@) == Seq::<EffectView>::empty(),
{
    let effects: Vec<Effect> = Vec::new();
    assert(app::effect_views(effects@) =~= Seq::empty());
    effects
}

/// Does what turning the wheel does.
fn scroll(app: &mut App, hit_map: &HitMap, x: u16, y: u16, up: bool) -> (r: Vec<Effect>)
    ensures
        app::effect_views(r@) == Seq::<EffectView>::empty(),
        final(app)@ == if up {
            scrolled(old(app)@, hit_map@, x, y, -3, -1)
        } else {
            scrolled(old(app)@, hit_map@, x, y, 3, 1)
        },
{
    if hit_map.is_detail_at(x, y) {
        let _ = turn_to(app, Focus::Detail);
        if up {
            scroll_detail(app, -3)
        } else {
            scroll_detail(app, 3)
        }
    } else if let Some(column) = hit_map.column_at(x, y) {
        let _ = turn_to(app, Focus::Board);
        let _ = pick_column(app, column);
        step_card(app, up)
    } else {
        no_effects()
    }
}

/// Does what the mouse did. Nothing under a prompt or the help is met.
pub fn handle_mouse(app: &mut App, mouse: Mouse, hit_map: &HitMap) -> (r: Vec<Effect>)
    ensures
        (final(app)@, app::effect_views(r@)) == mouse_handled(old(app)@, mouse, hit_map@),
{
    let normal = match &app.mode {
        Mode::Normal => true,
        _ => false,
    };
    if !normal {
        return no_effects();
    }
    match mouse.kind {
        MouseKind::Down => press(app, hit_map.target_at(mouse.column, mouse.row)),
        MouseKind::Drag => app.reduce(
            Action::DragOver(hit_map.column_at(mouse.column, mouse.row)),
        ),
        MouseKind::Up => app.reduce(Action::DropOn(hit_map.column_at(mouse.column, mouse.row))),
        MouseKind::ScrollUp => scroll(app, hit_map, mouse.column, mouse.row, true),
        MouseKind::ScrollDown => scroll(app, hit_map, mouse.column, mouse.row, false),
        MouseKind::ScrollLeft => app.reduce(Action::PreviousColumn),
        MouseKind::ScrollRight => app.reduce(Action::NextColumn),
        MouseKind::Other => no_effects(),
    }
}

/// A prompt or the help keeps the mouse away from the board: nothing changes, and nothing is asked
/// for.
pub proof fn modals_block_the_mouse(app: AppView, mouse: Mouse, hits: Seq<HitView>)
    requires
        !(app.mode is Normal),
    ensures
        mouse_handled(app, mouse, hits) == (app, Seq::<EffectView>::empty()),
{
}

/// Control and C leave the board, whatever the screen is busy with.
pub proof fn the_board_can_always_be_left(app: AppView, key: Key, author: Author)
    requires
        key.code == KeyCode::Char('c'),
        key.control,
    ensures
        key_handled(app, key, author) == (app, seq![EffectView::Quit]),
{
}

/// Characters that are typed into a prompt are written, whatever they do on the board.
pub proof fn prompts_take_every_character(app: AppView, key: Key, author: Author, c: char)
    requires
        key.code == KeyCode::Char(c),
        !key.control,
        !key.alt,
    ensures
        app.mode matches ModeView::AddComment { card_id, author: by, text } ==> key_handled(
            app,
            key,
            author,
        ) == (
            AppView {
                mode: ModeView::AddComment { card_id, author: by, text: text.push(c) },
                error: None,
                ..app
            },
            Seq::<EffectView>::empty(),
        ),
        app.mode matches ModeView::QuickAdd { title } ==> key_handled(app, key, author) == (
            AppView { mode: ModeView::QuickAdd { title: title.push(c) }, ..app },
            Seq::<EffectView>::empty(),
        ),
{
}

} // verus!
