//! The state of the board, what actions do to it, and what they ask for.

use crate::change::Change;
use crate::comments::Comment;
use crate::config;
use crate::error::Error;
use crate::markdown;
use crate::model;
use crate::model::{Card, CardView};
use crate::store;
use crate::store::{CardWrite, CreateCard, CreateView, FileView, LoadedFile, Project, ProjectView};
use crate::text;
use crate::text::CharClass;
use vstd::prelude::*;

verus! {

/// Which part of the screen the keys go to.
#[derive(Clone, Copy, Debug, PartialEq, Eq, Structural)]
pub enum Focus {
    Board,
    Detail,
}

/// What the screen is busy with.
#[derive(Clone, Debug, PartialEq, Eq)]
pub enum Mode {
    /// The board.
    Normal,
    /// The title of a new card.
    QuickAdd { title: String },
    /// A comment on a card.
    AddComment { card_id: String, author: String, text: String },
    /// The help.
    Help,
}

/// What the screen is busy with, as specifications speak of it.
#[verifier::ext_equal]
pub enum ModeView {
    Normal,
    QuickAdd { title: Seq<char> },
    AddComment { card_id: Seq<char>, author: Seq<char>, text: Seq<char> },
    Help,
}

impl View for Mode {
    type V = ModeView;

    open spec fn view(&self) -> ModeView {
        match self {
            Mode::Normal => ModeView::Normal,
            Mode::QuickAdd { title } => ModeView::QuickAdd { title: title@ },
            Mode::AddComment { card_id, author, text } => ModeView::AddComment {
                card_id: card_id@,
                author: author@,
                text: text@,
            },
            Mode::Help => ModeView::Help,
        }
    }
}

/// A card that is being dragged.
#[derive(Clone, Debug, PartialEq, Eq)]
pub struct DragState {
    pub card_id: String,
    pub hover_column: usize,
}

/// A card that is being dragged, as specifications speak of it.
#[verifier::ext_equal]
pub struct DragView {
    pub card_id: Seq<char>,
    pub hover_column: usize,
}

impl View for DragState {
    type V = DragView;

    open spec fn view(&self) -> DragView {
        DragView { card_id: self.card_id@, hover_column: self.hover_column }
    }
}

/// Who comments, or why nobody can.
#[derive(Clone, Debug, PartialEq, Eq)]
pub enum Author {
    Known(String),
    Unknown(String),
}

/// What the user asks of the board.
#[derive(Clone, Debug, PartialEq, Eq)]
pub enum Action {
    Quit,
    Reload,
    ToggleHelp,
    OpenQuickAdd,
    OpenComment(Author),
    CancelModal,
    QuickAddCharacter(char),
    QuickAddBackspace,
    QuickAddClear,
    SubmitQuickAdd,
    CommentCharacter(char),
    CommentBackspace,
    CommentClear,
    SubmitComment,
    Focus(Focus),
    ToggleFocus,
    PreviousColumn,
    NextColumn,
    PreviousCard,
    NextCard,
    PreviousChecklist,
    NextChecklist,
    ScrollDetail(i32),
    MoveSelected(i32),
    ToggleSelectedChecklist,
    SelectColumn(usize),
    BeginDrag { id: String, column: usize, row: usize },
    DragOver(Option<usize>),
    DropOn(Option<usize>),
    ToggleChecklist { card_id: String, global_index: usize },
}

/// What the board asks of the project.
#[derive(Clone, Debug, PartialEq, Eq)]
pub enum Effect {
    Quit,
    Reload,
    CreateCard { title: String, status: String },
    AddComment { id: String, author: String, text: String },
    MoveCard { id: String, status: String },
    ToggleChecklist { id: String, global_index: usize },
}

/// What the board asks of the project, as specifications speak of it.
#[verifier::ext_equal]
pub enum EffectView {
    Quit,
    Reload,
    CreateCard { title: Seq<char>, status: Seq<char> },
    AddComment { id: Seq<char>, author: Seq<char>, text: Seq<char> },
    MoveCard { id: Seq<char>, status: Seq<char> },
    ToggleChecklist { id: Seq<char>, global_index: usize },
}

impl View for Effect {
    type V = EffectView;

    open spec fn view(&self) -> EffectView {
        match self {
            Effect::Quit => EffectView::Quit,
            Effect::Reload => EffectView::Reload,
            Effect::CreateCard { title, status } => EffectView::CreateCard {
                title: title@,
                status: status@,
            },
            Effect::AddComment { id, author, text } => EffectView::AddComment {
                id: id@,
                author: author@,
                text: text@,
            },
            Effect::MoveCard { id, status } => EffectView::MoveCard { id: id@, status: status@ },
            Effect::ToggleChecklist { id, global_index } => EffectView::ToggleChecklist {
                id: id@,
                global_index: *global_index,
            },
        }
    }
}

/// The effects in a list.
pub open spec fn effect_views(effects: Seq<Effect>) -> Seq<EffectView> {
    effects.map_values(|e: Effect| e@)
}

/// The state of the board.
pub struct App {
    pub project: Project,
    pub cards: Vec<Card>,
    pub selected_id: Option<String>,
    pub active_column: usize,
    pub selected_row: usize,
    pub focus: Focus,
    pub mode: Mode,
    pub detail_checklist: usize,
    pub detail_scroll: usize,
    pub detail_follow_cursor: bool,
    pub drag: Option<DragState>,
    pub error: Option<String>,
    pub message: Option<String>,
}

/// The state of the board as specifications speak of it.
#[verifier::ext_equal]
pub struct AppView {
    pub project: ProjectView,
    pub cards: Seq<CardView>,
    pub selected_id: Option<Seq<char>>,
    pub active_column: usize,
    pub selected_row: usize,
    pub focus: Focus,
    pub mode: ModeView,
    pub detail_checklist: usize,
    pub detail_scroll: usize,
    pub detail_follow_cursor: bool,
    pub drag: Option<DragView>,
    pub error: Option<Seq<char>>,
    pub message: Option<Seq<char>>,
}

/// The text of an optional string.
pub open spec fn text_of(value: Option<String>) -> Option<Seq<char>> {
    match value {
        Some(value) => Some(value@),
        None => None,
    }
}

impl View for App {
    type V = AppView;

    open spec fn view(&self) -> AppView {
        AppView {
            project: self.project@,
            cards: model::card_views(self.cards@),
            selected_id: text_of(self.selected_id),
            active_column: self.active_column,
            selected_row: self.selected_row,
            focus: self.focus,
            mode: self.mode@,
            detail_checklist: self.detail_checklist,
            detail_scroll: self.detail_scroll,
            detail_follow_cursor: self.detail_follow_cursor,
            drag: match self.drag {
                Some(drag) => Some(drag@),
                None => None,
            },
            error: text_of(self.error),
            message: text_of(self.message),
        }
    }
}

/// The smaller of two numbers.
pub open spec fn least(a: int, b: int) -> int {
    if a < b {
        a
    } else {
        b
    }
}

/// A number moved by a distance, kept within machine numbers.
pub open spec fn shifted(value: usize, delta: int) -> usize {
    let moved = value + delta;
    if moved < 0 {
        0
    } else if moved > usize::MAX {
        usize::MAX
    } else {
        moved as usize
    }
}

/// A place moved by a distance, at most to the last one. There is none before the first.
pub open spec fn moved_index(index: usize, delta: int, maximum: usize) -> Option<usize> {
    if delta < 0 {
        if index + delta < 0 {
            None
        } else {
            Some((index + delta) as usize)
        }
    } else {
        Some(least(index + delta, maximum as int) as usize)
    }
}

/// The cards among the first `n` that have a status.
pub open spec fn cards_of(cards: Seq<CardView>, status: Seq<char>, n: nat) -> Seq<CardView>
    decreases n,
{
    if n == 0 || n > cards.len() {
        Seq::empty()
    } else {
        let before = cards_of(cards, status, (n - 1) as nat);
        if store::in_column(cards[n - 1], status) {
            before.push(cards[n - 1])
        } else {
            before
        }
    }
}

impl AppView {
    /// The columns.
    pub open spec fn columns(self) -> Seq<config::ColumnView> {
        self.project.config.columns
    }

    /// The place of the last column.
    pub open spec fn last_column(self) -> usize {
        if self.columns().len() == 0 {
            0
        } else {
            (self.columns().len() - 1) as usize
        }
    }

    /// The cards in a column.
    pub open spec fn column_cards(self, column: int) -> Seq<CardView> {
        if 0 <= column < self.columns().len() {
            cards_of(self.cards, self.columns()[column].name, self.cards.len())
        } else {
            Seq::empty()
        }
    }

    /// The selected card.
    pub open spec fn selected(self) -> Option<CardView> {
        match self.selected_id {
            None => None,
            Some(id) => match store::first_with(self.cards, id, 0) {
                Some(i) => Some(self.cards[i]),
                None => None,
            },
        }
    }

    /// How many checklist items the selected card has.
    pub open spec fn item_count(self) -> nat {
        match self.selected() {
            Some(card) => markdown::items_in(card.body).len(),
            None => 0,
        }
    }

    /// The number of the selected checklist item in its card.
    pub open spec fn selected_item(self) -> Option<nat> {
        match self.selected() {
            Some(card) => if self.detail_checklist < markdown::items_in(card.body).len() {
                Some(markdown::items_in(card.body)[self.detail_checklist as int].global_index)
            } else {
                None
            },
            None => None,
        }
    }

    /// Where the card with an id is: its column, and its place there.
    pub open spec fn position(self, id: Seq<char>) -> Option<(int, int)> {
        match store::first_with(self.cards, id, 0) {
            None => None,
            Some(i) => match config::column_at(self.columns(), self.cards[i].metadata.status, 0) {
                None => None,
                Some(column) => match store::first_with(self.column_cards(column), id, 0) {
                    None => None,
                    Some(row) => Some((column, row)),
                },
            },
        }
    }

    /// The detail starts from its top.
    pub open spec fn detail_reset(self) -> AppView {
        AppView { detail_checklist: 0, detail_scroll: 0, detail_follow_cursor: true, ..self }
    }

    /// The selected item is one that the selected card has.
    pub open spec fn detail_normalized(self) -> AppView {
        let last = if self.item_count() == 0 {
            0
        } else {
            self.item_count() - 1
        };
        AppView { detail_checklist: least(self.detail_checklist as int, last) as usize, ..self }
    }

    /// A column is selected, and the card in it that is at the selected place or before.
    pub open spec fn column_selected(self, column: usize) -> AppView {
        if self.columns().len() == 0 {
            self
        } else {
            let active = least(column as int, self.last_column() as int) as usize;
            let cards = self.column_cards(active as int);
            let row = least(self.selected_row as int, cards.len() - 1);
            if cards.len() == 0 {
                AppView { active_column: active, selected_id: None, ..self }.detail_reset()
            } else {
                AppView {
                    active_column: active,
                    selected_row: row as usize,
                    selected_id: Some(cards[row].metadata.id),
                    ..self
                }.detail_reset()
            }
        }
    }

    /// A card is selected, where there is one with the id.
    pub open spec fn card_selected(self, id: Seq<char>, column: usize, row: usize) -> AppView {
        if self.position(id) is None {
            self
        } else {
            let placed = AppView {
                active_column: least(column as int, self.last_column() as int) as usize,
                selected_row: row,
                selected_id: Some(id),
                ..self
            };
            if self.selected_id == Some(id) {
                placed
            } else {
                placed.detail_reset()
            }
        }
    }

    /// The selected column is moved.
    pub open spec fn column_changed(self, delta: int) -> AppView {
        match moved_index(self.active_column, delta, self.last_column()) {
            None => self,
            Some(column) => self.column_selected(column),
        }
    }

    /// The selected card is moved within its column.
    pub open spec fn card_changed(self, delta: int) -> AppView {
        let cards = self.column_cards(self.active_column as int);
        if cards.len() == 0 {
            AppView { selected_id: None, selected_row: 0, ..self }
        } else {
            let last = (cards.len() - 1) as usize;
            let from = least(self.selected_row as int, last as int) as usize;
            let row = match moved_index(from, delta, last) {
                Some(row) => row,
                None => 0usize,
            };
            AppView {
                selected_row: row,
                selected_id: Some(cards[row as int].metadata.id),
                ..self
            }.detail_reset()
        }
    }

    /// The selected checklist item is moved, or the detail is scrolled where there is none.
    pub open spec fn checklist_changed(self, delta: int) -> AppView {
        let count = self.item_count();
        if self.selected() is None {
            self
        } else if count == 0 {
            AppView {
                detail_scroll: shifted(self.detail_scroll, delta),
                detail_follow_cursor: false,
                ..self
            }
        } else {
            let last = (count - 1) as usize;
            let from = least(self.detail_checklist as int, last as int) as usize;
            AppView {
                detail_checklist: match moved_index(from, delta, last) {
                    Some(item) => item,
                    None => 0,
                },
                detail_follow_cursor: true,
                ..self
            }
        }
    }

    /// An error is shown.
    pub open spec fn with_error(self, error: Seq<char>) -> AppView {
        AppView { error: Some(error), ..self }
    }

    /// A new project and its cards are shown. The card with the preserved id stays selected where
    /// it is still there.
    pub open spec fn snapshot_applied(
        self,
        project: ProjectView,
        cards: Seq<CardView>,
        preserved: Option<Seq<char>>,
    ) -> AppView {
        let shown = AppView { project, cards, drag: None, ..self };
        let active = least(shown.active_column as int, shown.last_column() as int) as usize;
        let kept = AppView { active_column: active, ..shown };
        match preserved {
            Some(id) => match shown.position(id) {
                Some((column, row)) => AppView {
                    active_column: column as usize,
                    selected_row: row as usize,
                    selected_id: Some(id),
                    ..shown
                }.detail_normalized(),
                None => kept.column_selected(active),
            },
            None => kept.column_selected(active),
        }
    }
}

/// A text that was cut by its last character.
pub open spec fn shortened(s: Seq<char>) -> Seq<char> {
    if s.len() == 0 {
        s
    } else {
        s.drop_last()
    }
}

impl AppView {
    /// The title of the new card is changed, where there is one.
    pub open spec fn titled(self, change: spec_fn(Seq<char>) -> Seq<char>) -> AppView {
        match self.mode {
            ModeView::QuickAdd { title } => AppView {
                mode: ModeView::QuickAdd { title: change(title) },
                ..self
            },
            _ => self,
        }
    }

    /// The draft of a comment is changed, where there is one.
    pub open spec fn drafted(self, change: spec_fn(Seq<char>) -> Seq<char>) -> AppView {
        match self.mode {
            ModeView::AddComment { card_id, author, text } => AppView {
                mode: ModeView::AddComment { card_id, author, text: change(text) },
                error: None,
                ..self
            },
            _ => self,
        }
    }

    /// The composer for a comment on the selected card is opened.
    pub open spec fn comment_opened(self, author: Author) -> AppView {
        match self.selected() {
            None => self.with_error("Select a card before adding a comment"@),
            Some(card) => match author {
                Author::Known(author) => AppView {
                    mode: ModeView::AddComment {
                        card_id: card.metadata.id,
                        author: author@,
                        text: Seq::empty(),
                    },
                    error: None,
                    ..self
                },
                Author::Unknown(reason) => self.with_error(
                    "Could not resolve comment author: "@ + reason@,
                ),
            },
        }
    }

    /// The new card is asked for.
    pub open spec fn title_submitted(self) -> (AppView, Seq<EffectView>) {
        match self.mode {
            ModeView::QuickAdd { title } => if text::trim(title).len() == 0 {
                (self.with_error("Card title cannot be empty"@), Seq::empty())
            } else if self.active_column >= self.columns().len() {
                (self.with_error("No board column is available"@), Seq::empty())
            } else {
                (
                    AppView { mode: ModeView::Normal, error: None, ..self },
                    seq![
                        EffectView::CreateCard {
                            title: text::trim(title),
                            status: self.columns()[self.active_column as int].name,
                        },
                    ],
                )
            },
            _ => (self, Seq::empty()),
        }
    }

    /// The comment is asked for. Its draft stays until it was written.
    pub open spec fn comment_submitted(self) -> (AppView, Seq<EffectView>) {
        match self.mode {
            ModeView::AddComment { card_id, author, text } => if text::is_blank(text) {
                (self.with_error("Comment text cannot be empty"@), Seq::empty())
            } else {
                (
                    AppView { error: None, ..self },
                    seq![EffectView::AddComment { id: card_id, author, text }],
                )
            },
            _ => (self, Seq::empty()),
        }
    }

    /// What moving the selected card by columns asks for.
    pub open spec fn selected_move(self, delta: int) -> Seq<EffectView> {
        match self.selected() {
            None => Seq::empty(),
            Some(card) => match config::column_at(self.columns(), card.metadata.status, 0) {
                None => Seq::empty(),
                Some(current) => match moved_index(current as usize, delta, self.last_column()) {
                    None => Seq::empty(),
                    Some(target) => if target == current {
                        Seq::empty()
                    } else {
                        seq![
                            EffectView::MoveCard {
                                id: card.metadata.id,
                                status: self.columns()[target as int].name,
                            },
                        ]
                    },
                },
            },
        }
    }

    /// What dropping the dragged card on a column asks for.
    pub open spec fn dropped(self, column: Option<usize>) -> Seq<EffectView> {
        match (self.drag, column) {
            (Some(drag), Some(target)) => if target >= self.columns().len() {
                Seq::empty()
            } else {
                match store::first_with(self.cards, drag.card_id, 0) {
                    None => Seq::empty(),
                    Some(i) => if store::in_column(
                        self.cards[i],
                        self.columns()[target as int].name,
                    ) {
                        Seq::empty()
                    } else {
                        seq![
                            EffectView::MoveCard {
                                id: drag.card_id,
                                status: self.columns()[target as int].name,
                            },
                        ]
                    },
                }
            },
            _ => Seq::empty(),
        }
    }

    /// What toggling the selected checklist item asks for.
    pub open spec fn selected_toggle(self) -> Seq<EffectView> {
        match (self.selected_id, self.selected_item()) {
            (Some(id), Some(n)) => seq![
                EffectView::ToggleChecklist { id, global_index: n as usize },
            ],
            _ => Seq::empty(),
        }
    }

    /// A checklist item is selected, where its card is there.
    pub open spec fn item_selected(self, id: Seq<char>, global_index: usize) -> AppView {
        match self.position(id) {
            None => self,
            Some((column, row)) => AppView {
                focus: Focus::Detail,
                detail_checklist: if global_index == 0 {
                    0
                } else {
                    (global_index - 1) as usize
                },
                detail_follow_cursor: true,
                ..self.card_selected(id, column as usize, row as usize)
            },
        }
    }

    /// What an action does to the board, and what it asks for.
    pub open spec fn reduced(self, action: Action) -> (AppView, Seq<EffectView>) {
        match action {
            Action::Quit => (self, seq![EffectView::Quit]),
            Action::Reload => (self, seq![EffectView::Reload]),
            Action::ToggleHelp => (
                AppView {
                    mode: if self.mode is Help {
                        ModeView::Normal
                    } else {
                        ModeView::Help
                    },
                    ..self
                },
                Seq::empty(),
            ),
            Action::OpenQuickAdd => (
                AppView { mode: ModeView::QuickAdd { title: Seq::empty() }, error: None, ..self },
                Seq::empty(),
            ),
            Action::OpenComment(author) => (self.comment_opened(author), Seq::empty()),
            Action::CancelModal => (
                AppView { mode: ModeView::Normal, error: None, ..self },
                Seq::empty(),
            ),
            Action::QuickAddCharacter(c) => (
                self.titled(|t: Seq<char>| t.push(c)),
                Seq::empty(),
            ),
            Action::QuickAddBackspace => (self.titled(|t: Seq<char>| shortened(t)), Seq::empty()),
            Action::QuickAddClear => (self.titled(|t: Seq<char>| Seq::empty()), Seq::empty()),
            Action::SubmitQuickAdd => self.title_submitted(),
            Action::CommentCharacter(c) => (self.drafted(|t: Seq<char>| t.push(c)), Seq::empty()),
            Action::CommentBackspace => (self.drafted(|t: Seq<char>| shortened(t)), Seq::empty()),
            Action::CommentClear => (self.drafted(|t: Seq<char>| Seq::empty()), Seq::empty()),
            Action::SubmitComment => self.comment_submitted(),
            Action::Focus(focus) => (AppView { focus, ..self }, Seq::empty()),
            Action::ToggleFocus => (
                AppView {
                    focus: match self.focus {
                        Focus::Board => Focus::Detail,
                        Focus::Detail => Focus::Board,
                    },
                    ..self
                },
                Seq::empty(),
            ),
            Action::PreviousColumn => (self.column_changed(-1), Seq::empty()),
            Action::NextColumn => (self.column_changed(1), Seq::empty()),
            Action::PreviousCard => (self.card_changed(-1), Seq::empty()),
            Action::NextCard => (self.card_changed(1), Seq::empty()),
            Action::PreviousChecklist => (self.checklist_changed(-1), Seq::empty()),
            Action::NextChecklist => (self.checklist_changed(1), Seq::empty()),
            Action::ScrollDetail(delta) => (
                AppView {
                    detail_scroll: shifted(self.detail_scroll, delta as int),
                    detail_follow_cursor: false,
                    ..self
                },
                Seq::empty(),
            ),
            Action::MoveSelected(delta) => (self, self.selected_move(delta as int)),
            Action::ToggleSelectedChecklist => (self, self.selected_toggle()),
            Action::SelectColumn(column) => (self.column_selected(column), Seq::empty()),
            Action::BeginDrag { id, column, row } => (
                AppView {
                    drag: Some(DragView { card_id: id@, hover_column: column }),
                    ..self.card_selected(id@, column, row)
                },
                Seq::empty(),
            ),
            Action::DragOver(column) => (
                match (self.drag, column) {
                    (Some(drag), Some(column)) => AppView {
                        drag: Some(DragView { hover_column: column, ..drag }),
                        ..self
                    },
                    _ => self,
                },
                Seq::empty(),
            ),
            Action::DropOn(column) => (AppView { drag: None, ..self }, self.dropped(column)),
            Action::ToggleChecklist { card_id, global_index } => (
                self.item_selected(card_id@, global_index),
                seq![EffectView::ToggleChecklist { id: card_id@, global_index }],
            ),
        }
    }
}

/// The first column from `column` on that holds a card.
pub open spec fn first_filled(app: AppView, column: int) -> Option<int>
    decreases app.columns().len() - column,
{
    if column < 0 || column >= app.columns().len() {
        None
    } else if app.column_cards(column).len() > 0 {
        Some(column)
    } else {
        first_filled(app, column + 1)
    }
}

/// The state of a board that was just opened.
pub open spec fn opened(project: ProjectView, cards: Seq<CardView>) -> AppView {
    let app = AppView {
        project,
        cards,
        selected_id: None,
        active_column: 0,
        selected_row: 0,
        focus: Focus::Board,
        mode: ModeView::Normal,
        detail_checklist: 0,
        detail_scroll: 0,
        detail_follow_cursor: true,
        drag: None,
        error: None,
        message: None,
    };
    match first_filled(app, 0) {
        None => app,
        Some(column) => AppView {
            active_column: column as usize,
            selected_id: Some(app.column_cards(column)[0].metadata.id),
            ..app
        },
    }
}

/// Moves a number by a distance, within machine numbers.
fn add_signed(value: usize, delta: i32) -> (r: usize)
    ensures
        r == shifted(value, delta as int),
{
    if delta < 0 {
        let back = (-(delta as i64)) as usize;
        if back > value {
            0
        } else {
            value - back
        }
    } else {
        let forth = delta as usize;
        if forth > usize::MAX - value {
            usize::MAX
        } else {
            value + forth
        }
    }
}

/// Moves a place by a distance, at most to the last one.
fn offset_index(index: usize, delta: i32, maximum: usize) -> (r: Option<usize>)
    ensures
        r == moved_index(index, delta as int, maximum),
{
    if delta < 0 {
        let back = (-(delta as i64)) as usize;
        if back > index {
            None
        } else {
            Some(index - back)
        }
    } else {
        let forth = delta as usize;
        if index > maximum || forth > maximum - index {
            Some(maximum)
        } else {
            Some(index + forth)
        }
    }
}

/// Finds the first card that has an id.
fn find_card(cards: &Vec<Card>, id: &str) -> (r: Option<usize>)
    ensures
        match r {
            Some(i) => i < cards@.len() && store::first_with(model::card_views(cards@), id@, 0)
                == Some(i as int),
            None => store::first_with(model::card_views(cards@), id@, 0) is None,
        },
{
    let ghost views = model::card_views(cards@);
    let mut i: usize = 0;
    while i < cards.len()
        invariant
            i <= cards@.len(),
            views == model::card_views(cards@),
            views.len() == cards@.len(),
            store::first_with(views, id@, i as int) == store::first_with(views, id@, 0),
        decreases cards@.len() - i,
    {
        assert(views[i as int] == cards@[i as int]@);
        if text::alike_strings(&cards[i].metadata.id, id) {
            return Some(i);
        }
        i += 1;
    }
    None
}

/// The cards in a list of references.
pub open spec fn referred(cards: Seq<&Card>) -> Seq<CardView> {
    cards.map_values(|c: &Card| c@)
}

/// Finds the first card that has an id, in a list of references.
fn find_referred(cards: &Vec<&Card>, id: &str) -> (r: Option<usize>)
    ensures
        match r {
            Some(i) => store::first_with(referred(cards@), id@, 0) == Some(i as int),
            None => store::first_with(referred(cards@), id@, 0) is None,
        },
{
    let ghost views = referred(cards@);
    let mut i: usize = 0;
    while i < cards.len()
        invariant
            i <= cards@.len(),
            views == referred(cards@),
            views.len() == cards@.len(),
            store::first_with(views, id@, i as int) == store::first_with(views, id@, 0),
        decreases cards@.len() - i,
    {
        assert(views[i as int] == cards@[i as int]@);
        if text::alike_strings(&cards[i].metadata.id, id) {
            return Some(i);
        }
        i += 1;
    }
    None
}

/// Copies an optional string.
fn copy_optional(value: &Option<String>) -> (r: Option<String>)
    ensures
        text_of(r) == text_of(*value),
{
    match value {
        Some(value) => Some(text::copy_string(value)),
        None => None,
    }
}

impl App {
    /// Opens a board.
    pub fn new(project: Project, cards: Vec<Card>) -> (r: App)
        ensures
            r@ == opened(project@, model::card_views(cards@)),
    {
        let mut app = App {
            project,
            cards,
            selected_id: None,
            active_column: 0,
            selected_row: 0,
            focus: Focus::Board,
            mode: Mode::Normal,
            detail_checklist: 0,
            detail_scroll: 0,
            detail_follow_cursor: true,
            drag: None,
            error: None,
            message: None,
        };
        app.select_first_available();
        app
    }

    /// Selects the first card of the first column that holds one.
    fn select_first_available(&mut self)
        requires
            old(self)@.detail_checklist == 0,
            old(self)@.selected_row == 0,
        ensures
            final(self)@ == match first_filled(old(self)@, 0) {
                None => old(self)@,
                Some(column) => AppView {
                    active_column: column as usize,
                    selected_id: Some(old(self)@.column_cards(column)[0].metadata.id),
                    ..old(self)@
                },
            },
    {
        let mut column: usize = 0;
        while column < self.project.config.columns.len()
            invariant
                self@ == old(self)@,
                column <= self@.columns().len(),
                self@.columns().len() == self.project.config.columns@.len(),
                first_filled(self@, column as int) == first_filled(self@, 0),
                self@.selected_row == 0,
                self@.detail_checklist == 0,
            decreases self.project.config.columns@.len() - column,
        {
            let cards = self.cards_in_column(column);
            if cards.len() > 0 {
                assert(self@.column_cards(column as int)[0] == cards@[0]@);
                let id = text::copy_string(&cards[0].metadata.id);
                self.active_column = column;
                self.selected_id = Some(id);
                return;
            }
            column += 1;
        }
    }

    /// The selected card.
    pub fn selected_card(&self) -> (r: Option<&Card>)
        ensures
            match r {
                Some(card) => self@.selected() == Some(card@),
                None => self@.selected() is None,
            },
    {
        match &self.selected_id {
            None => None,
            Some(id) => match find_card(&self.cards, id) {
                Some(i) => {
                    assert(self@.cards[i as int] == self.cards@[i as int]@);
                    Some(&self.cards[i])
                },
                None => None,
            },
        }
    }

    /// The number of the selected checklist item in its card.
    pub fn selected_checklist_global(&self) -> (r: Option<usize>)
        ensures
            match r {
                Some(n) => self@.selected_item() == Some(n as nat),
                None => self@.selected_item() is None,
            },
    {
        match self.selected_card() {
            None => None,
            Some(card) => {
                let items = markdown::checklist_items(&card.body);
                let ghost views = markdown::item_views(items@);
                if self.detail_checklist < items.len() {
                    let item = &items[self.detail_checklist];
                    assert(views[self.detail_checklist as int] == item@);
                    Some(item.global_index)
                } else {
                    assert(views.len() == items@.len());
                    None
                }
            },
        }
    }

    /// The cards in a column.
    pub fn cards_in_column(&self, column: usize) -> (r: Vec<&Card>)
        ensures
            referred(r@) == self@.column_cards(column as int),
    {
        let mut out: Vec<&Card> = Vec::new();
        assert(self@.columns().len() == self.project.config.columns@.len());
        if column >= self.project.config.columns.len() {
            assert(referred(out@) =~= Seq::empty());
            return out;
        }
        let status = &self.project.config.columns[column].name;
        assert(self@.columns()[column as int].name == status@);
        let ghost views = self@.cards;
        let mut i: usize = 0;
        assert(referred(out@) =~= cards_of(views, status@, 0));
        while i < self.cards.len()
            invariant
                i <= self.cards@.len(),
                views == model::card_views(self.cards@),
                views.len() == self.cards@.len(),
                referred(out@) == cards_of(views, status@, i as nat),
            decreases self.cards@.len() - i,
        {
            let card = &self.cards[i];
            assert(views[i as int] == card@);
            if text::alike_strings(&card.metadata.status, status) {
                let ghost before = referred(out@);
                out.push(card);
                assert(referred(out@) =~= before.push(card@));
            }
            i += 1;
        }
        out
    }

    /// How many checklist items the selected card has.
    fn count_items(&self) -> (r: usize)
        ensures
            r == self@.item_count(),
    {
        match self.selected_card() {
            None => 0,
            Some(card) => {
                let items = markdown::checklist_items(&card.body);
                assert(markdown::item_views(items@).len() == items@.len());
                items.len()
            },
        }
    }

    /// Where the card with an id is: its column, and its place there.
    fn card_position(&self, id: &str) -> (r: Option<(usize, usize)>)
        ensures
            match r {
                Some((column, row)) => self@.position(id@) == Some((column as int, row as int)),
                None => self@.position(id@) is None,
            },
            r matches Some((column, _)) ==> column < self@.columns().len(),
    {
        let i = match find_card(&self.cards, id) {
            Some(i) => i,
            None => {
                return None;
            },
        };
        assert(self@.cards[i as int] == self.cards@[i as int]@);
        let column = match self.project.config.column_index(&self.cards[i].metadata.status) {
            Some(column) => column,
            None => {
                return None;
            },
        };
        assert(self@.columns().len() == self.project.config.columns@.len());
        match find_referred(&self.cards_in_column(column), id) {
            Some(row) => Some((column, row)),
            None => None,
        }
    }

    /// Starts the detail from its top.
    fn reset_detail_cursor(&mut self)
        ensures
            final(self)@ == old(self)@.detail_reset(),
    {
        self.detail_checklist = 0;
        self.detail_scroll = 0;
        self.detail_follow_cursor = true;
    }

    /// Selects an item that the selected card has.
    fn normalize_detail_cursor(&mut self)
        ensures
            final(self)@ == old(self)@.detail_normalized(),
    {
        let count = self.count_items();
        let last: usize = if count == 0 {
            0
        } else {
            count - 1
        };
        if self.detail_checklist > last {
            self.detail_checklist = last;
        }
    }

    /// The place of the last column.
    fn last_column(&self) -> (r: usize)
        ensures
            r == self@.last_column(),
    {
        let count = self.project.config.columns.len();
        assert(self@.columns().len() == count);
        if count == 0 {
            0
        } else {
            count - 1
        }
    }

    /// Selects a column.
    fn select_column(&mut self, column: usize)
        ensures
            final(self)@ == old(self)@.column_selected(column),
    {
        if self.project.config.columns.len() == 0 {
            assert(self@.columns().len() == 0);
            return;
        }
        let ghost before = self@;
        let last = self.last_column();
        let active = if column < last {
            column
        } else {
            last
        };
        let cards = self.cards_in_column(active);
        let ghost views = self@.column_cards(active as int);
        assert(views.len() == cards@.len());
        assert(before.columns().len() == self.project.config.columns@.len());
        if cards.len() == 0 {
            self.active_column = active;
            self.selected_id = None;
        } else {
            let last_row = cards.len() - 1;
            let row = if self.selected_row < last_row {
                self.selected_row
            } else {
                last_row
            };
            assert(views[row as int] == cards@[row as int]@);
            let id = text::copy_string(&cards[row].metadata.id);
            self.active_column = active;
            self.selected_row = row;
            self.selected_id = Some(id);
        }
        self.reset_detail_cursor();
    }

    /// Selects a card, where there is one with the id.
    fn select_card(&mut self, id: &str, column: usize, row: usize)
        ensures
            final(self)@ == old(self)@.card_selected(id@, column, row),
    {
        match self.card_position(id) {
            None => {
                return;
            },
            Some(_) => {},
        }
        let last = self.last_column();
        self.active_column = if column < last {
            column
        } else {
            last
        };
        self.selected_row = row;
        let same = match &self.selected_id {
            Some(selected) => text::same_string(selected, id),
            None => false,
        };
        self.selected_id = Some(text::copy_string(id));
        if !same {
            self.reset_detail_cursor();
        }
    }

    /// Moves the selected column.
    fn change_column(&mut self, delta: i32)
        ensures
            final(self)@ == old(self)@.column_changed(delta as int),
    {
        let last = self.last_column();
        match offset_index(self.active_column, delta, last) {
            None => {},
            Some(column) => {
                self.select_column(column);
            },
        }
    }

    /// Moves the selected card within its column.
    fn change_card(&mut self, delta: i32)
        ensures
            final(self)@ == old(self)@.card_changed(delta as int),
    {
        let cards = self.cards_in_column(self.active_column);
        let ghost views = self@.column_cards(self.active_column as int);
        assert(views.len() == cards@.len());
        if cards.len() == 0 {
            self.selected_id = None;
            self.selected_row = 0;
            return;
        }
        let last = cards.len() - 1;
        let from = if self.selected_row < last {
            self.selected_row
        } else {
            last
        };
        let row = match offset_index(from, delta, last) {
            Some(row) => row,
            None => 0,
        };
        assert(views[row as int] == cards@[row as int]@);
        let id = text::copy_string(&cards[row].metadata.id);
        self.selected_row = row;
        self.selected_id = Some(id);
        self.reset_detail_cursor();
    }

    /// Moves the selected checklist item, or scrolls the detail where there is none.
    fn change_checklist(&mut self, delta: i32)
        ensures
            final(self)@ == old(self)@.checklist_changed(delta as int),
    {
        match self.selected_card() {
            None => {
                return;
            },
            Some(_) => {},
        }
        let count = self.count_items();
        if count == 0 {
            self.detail_scroll = add_signed(self.detail_scroll, delta);
            self.detail_follow_cursor = false;
            return;
        }
        let last = count - 1;
        let from = if self.detail_checklist < last {
            self.detail_checklist
        } else {
            last
        };
        self.detail_checklist = match offset_index(from, delta, last) {
            Some(item) => item,
            None => 0,
        };
        self.detail_follow_cursor = true;
    }

    /// Shows a new project and its cards.
    fn apply_snapshot(&mut self, project: Project, cards: Vec<Card>, preserved: &Option<String>)
        ensures
            final(self)@ == old(self)@.snapshot_applied(
                project@,
                model::card_views(cards@),
                text_of(*preserved),
            ),
    {
        self.project = project;
        self.cards = cards;
        self.drag = None;
        if let Some(id) = preserved {
            if let Some((column, row)) = self.card_position(id) {
                self.active_column = column;
                self.selected_row = row;
                self.selected_id = Some(text::copy_string(id));
                self.normalize_detail_cursor();
                return;
            }
        }
        let last = self.last_column();
        let active = if self.active_column < last {
            self.active_column
        } else {
            last
        };
        self.active_column = active;
        self.select_column(active);
    }

    /// Shows an error.
    pub fn set_error(&mut self, message: String)
        ensures
            final(self)@ == old(self)@.with_error(message@),
    {
        self.error = Some(message);
    }

    /// Changes the title of the new card, where there is one.
    fn set_title(&mut self, title: Vec<char>)
        requires
            old(self)@.mode is QuickAdd,
        ensures
            final(self)@ == (AppView {
                mode: ModeView::QuickAdd { title: title@ },
                ..old(self)@
            }),
    {
        self.mode = Mode::QuickAdd { title: text::string_of(&title) };
    }

    /// The title of the new card, where there is one.
    fn title(&self) -> (r: Option<Vec<char>>)
        ensures
            match r {
                Some(title) => self@.mode == (ModeView::QuickAdd { title: title@ }),
                None => !(self@.mode is QuickAdd),
            },
    {
        match &self.mode {
            Mode::QuickAdd { title } => Some(text::chars_of(title)),
            _ => None,
        }
    }

    /// The draft of a comment, where there is one.
    fn draft(&self) -> (r: Option<Vec<char>>)
        ensures
            match r {
                Some(draft) => self@.mode is AddComment && self@.mode->text == draft@,
                None => !(self@.mode is AddComment),
            },
    {
        match &self.mode {
            Mode::AddComment { text, .. } => Some(text::chars_of(text)),
            _ => None,
        }
    }

    /// Changes the draft of a comment, where there is one.
    fn set_draft(&mut self, draft: Vec<char>)
        ensures
            final(self)@ == old(self)@.drafted(|t: Seq<char>| draft@),
    {
        let copies = match &self.mode {
            Mode::AddComment { card_id, author, .. } => Some(
                (text::copy_string(card_id), text::copy_string(author)),
            ),
            _ => None,
        };
        if let Some((card_id, author)) = copies {
            self.mode = Mode::AddComment { card_id, author, text: text::string_of(&draft) };
            self.error = None;
        }
    }

    /// Asks for the new card.
    fn submit_quick_add(&mut self) -> (r: Vec<Effect>)
        ensures
            (final(self)@, effect_views(r@)) == old(self)@.title_submitted(),
    {
        let mut effects: Vec<Effect> = Vec::new();
        assert(effect_views(effects@) =~= Seq::empty());
        let title = match self.title() {
            Some(title) => title,
            None => {
                return effects;
            },
        };
        let title = text::string_of(text::trimmed(&title, CharClass::Space));
        if text::chars_of(&title).len() == 0 {
            self.error = Some(text::copy_string("Card title cannot be empty"));
            return effects;
        }
        assert(self@.columns().len() == self.project.config.columns@.len());
        if self.active_column >= self.project.config.columns.len() {
            self.error = Some(text::copy_string("No board column is available"));
            return effects;
        }
        let status = text::copy_string(&self.project.config.columns[self.active_column].name);
        assert(self@.columns()[self.active_column as int].name == status@);
        self.mode = Mode::Normal;
        self.error = None;
        let effect = Effect::CreateCard { title, status };
        let ghost added = effect@;
        effects.push(effect);
        assert(effect_views(effects@) =~= seq![added]);
        effects
    }

    /// Opens the composer for a comment on the selected card.
    fn open_comment(&mut self, author: Author)
        ensures
            final(self)@ == old(self)@.comment_opened(author),
    {
        let card_id = match self.selected_card() {
            Some(card) => text::copy_string(&card.metadata.id),
            None => {
                self.error = Some(text::copy_string("Select a card before adding a comment"));
                return;
            },
        };
        match author {
            Author::Known(author) => {
                let text = String::new();
                assert(text@ =~= Seq::empty());
                self.mode = Mode::AddComment { card_id, author, text };
                self.error = None;
            },
            Author::Unknown(reason) => {
                let mut message = text::chars_of("Could not resolve comment author: ");
                text::push_str(&mut message, &reason);
                self.error = Some(text::string_of(&message));
            },
        }
    }

    /// Asks for the comment.
    fn submit_comment(&mut self) -> (r: Vec<Effect>)
        ensures
            (final(self)@, effect_views(r@)) == old(self)@.comment_submitted(),
    {
        let mut effects: Vec<Effect> = Vec::new();
        assert(effect_views(effects@) =~= Seq::empty());
        let effect = match &self.mode {
            Mode::AddComment { card_id, author, text } => if text::blank(&text::chars_of(text)) {
                None
            } else {
                Some(
                    Effect::AddComment {
                        id: text::copy_string(card_id),
                        author: text::copy_string(author),
                        text: text::copy_string(text),
                    },
                )
            },
            _ => {
                return effects;
            },
        };
        match effect {
            None => {
                self.error = Some(text::copy_string("Comment text cannot be empty"));
            },
            Some(effect) => {
                self.error = None;
                let ghost added = effect@;
                effects.push(effect);
                assert(effect_views(effects@) =~= seq![added]);
            },
        }
        effects
    }

    /// Asks to move the selected card by columns.
    fn move_selected(&self, delta: i32) -> (r: Vec<Effect>)
        ensures
            effect_views(r@) == self@.selected_move(delta as int),
    {
        let mut effects: Vec<Effect> = Vec::new();
        assert(effect_views(effects@) =~= Seq::empty());
        let card = match self.selected_card() {
            Some(card) => card,
            None => {
                return effects;
            },
        };
        let current = match self.project.config.column_index(&card.metadata.status) {
            Some(current) => current,
            None => {
                return effects;
            },
        };
        assert(self@.columns().len() == self.project.config.columns@.len());
        let last = self.last_column();
        let target = match offset_index(current, delta, last) {
            Some(target) => target,
            None => {
                return effects;
            },
        };
        if target == current {
            return effects;
        }
        assert(self@.columns()[target as int] == self.project.config.columns@[target as int]@);
        let effect = Effect::MoveCard {
            id: text::copy_string(&card.metadata.id),
            status: text::copy_string(&self.project.config.columns[target].name),
        };
        let ghost added = effect@;
        effects.push(effect);
        assert(effect_views(effects@) =~= seq![added]);
        effects
    }

    /// Drops the dragged card on a column.
    fn drop_card(&mut self, column: Option<usize>) -> (r: Vec<Effect>)
        ensures
            final(self)@ == (AppView { drag: None, ..old(self)@ }),
            effect_views(r@) == old(self)@.dropped(column),
    {
        let mut effects: Vec<Effect> = Vec::new();
        assert(effect_views(effects@) =~= Seq::empty());
        let id = match &self.drag {
            Some(drag) => text::copy_string(&drag.card_id),
            None => {
                return effects;
            },
        };
        self.drag = None;
        let target = match column {
            Some(target) => target,
            None => {
                return effects;
            },
        };
        assert(self@.columns().len() == self.project.config.columns@.len());
        if target >= self.project.config.columns.len() {
            return effects;
        }
        let status = text::copy_string(&self.project.config.columns[target].name);
        assert(self@.columns()[target as int].name == status@);
        let i = match find_card(&self.cards, &id) {
            Some(i) => i,
            None => {
                return effects;
            },
        };
        assert(self@.cards[i as int] == self.cards@[i as int]@);
        if text::alike_strings(&self.cards[i].metadata.status, &status) {
            return effects;
        }
        let effect = Effect::MoveCard { id, status };
        let ghost added = effect@;
        effects.push(effect);
        assert(effect_views(effects@) =~= seq![added]);
        effects
    }

    /// Does what an action does to the board, and gives what it asks for.
    pub fn reduce(&mut self, action: Action) -> (r: Vec<Effect>)
        ensures
            (final(self)@, effect_views(r@)) == old(self)@.reduced(action),
    {
        let mut effects: Vec<Effect> = Vec::new();
        assert(effect_views(effects@) =~= Seq::empty());
        match action {
            Action::Quit => {
                effects.push(Effect::Quit);
                assert(effect_views(effects@) =~= seq![EffectView::Quit]);
            },
            Action::Reload => {
                effects.push(Effect::Reload);
                assert(effect_views(effects@) =~= seq![EffectView::Reload]);
            },
            Action::ToggleHelp => {
                let helping = match &self.mode {
                    Mode::Help => true,
                    _ => false,
                };
                self.mode = if helping {
                    Mode::Normal
                } else {
                    Mode::Help
                };
            },
            Action::OpenQuickAdd => {
                let title = String::new();
                assert(title@ =~= Seq::empty());
                self.mode = Mode::QuickAdd { title };
                self.error = None;
            },
            Action::OpenComment(author) => {
                self.open_comment(author);
            },
            Action::CancelModal => {
                self.mode = Mode::Normal;
                self.error = None;
            },
            Action::QuickAddCharacter(c) => {
                if let Some(mut title) = self.title() {
                    title.push(c);
                    self.set_title(title);
                }
            },
            Action::QuickAddBackspace => {
                if let Some(mut title) = self.title() {
                    let _ = title.pop();
                    self.set_title(title);
                }
            },
            Action::QuickAddClear => {
                if let Some(_) = self.title() {
                    self.set_title(Vec::new());
                }
            },
            Action::SubmitQuickAdd => {
                return self.submit_quick_add();
            },
            Action::CommentCharacter(c) => {
                if let Some(mut draft) = self.draft() {
                    draft.push(c);
                    self.set_draft(draft);
                }
            },
            Action::CommentBackspace => {
                if let Some(mut draft) = self.draft() {
                    let _ = draft.pop();
                    self.set_draft(draft);
                }
            },
            Action::CommentClear => {
                self.set_draft(Vec::new());
            },
            Action::SubmitComment => {
                return self.submit_comment();
            },
            Action::Focus(focus) => {
                self.focus = focus;
            },
            Action::ToggleFocus => {
                self.focus = match self.focus {
                    Focus::Board => Focus::Detail,
                    Focus::Detail => Focus::Board,
                };
            },
            Action::PreviousColumn => {
                self.change_column(-1);
            },
            Action::NextColumn => {
                self.change_column(1);
            },
            Action::PreviousCard => {
                self.change_card(-1);
            },
            Action::NextCard => {
                self.change_card(1);
            },
            Action::PreviousChecklist => {
                self.change_checklist(-1);
            },
            Action::NextChecklist => {
                self.change_checklist(1);
            },
            Action::ScrollDetail(delta) => {
                self.detail_follow_cursor = false;
                self.detail_scroll = add_signed(self.detail_scroll, delta);
            },
            Action::MoveSelected(delta) => {
                return self.move_selected(delta);
            },
            Action::ToggleSelectedChecklist => {
                if let Some(id) = &self.selected_id {
                    if let Some(global_index) = self.selected_checklist_global() {
                        let effect = Effect::ToggleChecklist {
                            id: text::copy_string(id),
                            global_index,
                        };
                        let ghost added = effect@;
                        effects.push(effect);
                        assert(effect_views(effects@) =~= seq![added]);
                    }
                }
            },
            Action::SelectColumn(column) => {
                self.select_column(column);
            },
            Action::BeginDrag { id, column, row } => {
                self.select_card(&id, column, row);
                self.drag = Some(DragState { card_id: id, hover_column: column });
            },
            Action::DragOver(column) => {
                let dragged = match &self.drag {
                    Some(drag) => Some(text::copy_string(&drag.card_id)),
                    None => None,
                };
                if let Some(card_id) = dragged {
                    if let Some(column) = column {
                        self.drag = Some(DragState { card_id, hover_column: column });
                    }
                }
            },
            Action::DropOn(column) => {
                return self.drop_card(column);
            },
            Action::ToggleChecklist { card_id, global_index } => {
                if let Some((column, row)) = self.card_position(&card_id) {
                    self.select_card(&card_id, column, row);
                    self.focus = Focus::Detail;
                    self.detail_checklist = if global_index == 0 {
                        0
                    } else {
                        global_index - 1
                    };
                    self.detail_follow_cursor = true;
                }
                let effect = Effect::ToggleChecklist { id: card_id, global_index };
                let ghost added = effect@;
                effects.push(effect);
                assert(effect_views(effects@) =~= seq![added]);
            },
        }
        effects
    }
}

/// What a new card is made of that only has a title and a column.
pub open spec fn quick_card(title: Seq<char>, status: Seq<char>) -> CreateView {
    CreateView {
        title,
        status: Some(status),
        body: Seq::empty(),
        labels: Seq::empty(),
        assignees: Seq::empty(),
        extra: Map::empty(),
    }
}

/// What is to be done for an effect.
#[derive(Debug)]
pub enum Plan {
    Quit,
    /// The project and its cards are to be read again.
    Read,
    /// A card is to be written, and everything read again; or this is why not.
    Write(Result<CardWrite, Error>),
}

/// Whether a plan is one for an effect at some time.
pub open spec fn is_plan(
    project: ProjectView,
    files: Seq<FileView>,
    effect: Effect,
    plan: Plan,
) -> bool {
    match effect {
        Effect::Quit => plan is Quit,
        Effect::Reload => plan is Read,
        Effect::CreateCard { title, status } => plan matches Plan::Write(result)
            && store::is_creation(project, files, quick_card(title@, status@), result),
        Effect::AddComment { id, author, text } => plan matches Plan::Write(result) && exists|
            commented: Result<(CardWrite, Comment), Error>,
        | #[trigger]
            store::is_comment(project, files, id@, author@, text@, commented) && result == (
            match commented {
                Ok((write, _)) => Ok::<CardWrite, Error>(write),
                Err(error) => Err::<CardWrite, Error>(error),
            }),
        Effect::MoveCard { id, status } => plan matches Plan::Write(result) && exists|
            change: Change,
        | #[trigger]
            store::is_update(project, files, id@, change, result) && (change matches Change::Move(
                to,
            ) && to@ == status@),
        Effect::ToggleChecklist { id, global_index } => plan matches Plan::Write(result)
            && store::is_update(
            project,
            files,
            id@,
            Change::ToggleGlobal { index: global_index },
            result,
        ),
    }
}

/// Plans what is to be done for an effect, given the files of the project.
pub fn plan_effect(project: &Project, files: &Vec<LoadedFile>, effect: &Effect) -> (r: Plan)
    ensures
        is_plan(project@, store::file_views(files@), *effect, r),
{
    match effect {
        Effect::Quit => Plan::Quit,
        Effect::Reload => Plan::Read,
        Effect::CreateCard { title, status } => {
            let mut input = CreateCard::default();
            input.title = text::copy_string(title);
            input.status = Some(text::copy_string(status));
            assert(input@ =~= quick_card(title@, status@));
            Plan::Write(project.create_card(files, input))
        },
        Effect::AddComment { id, author, text } => {
            match project.comment_on_card(files, id, author, text) {
                Ok((write, _)) => Plan::Write(Ok(write)),
                Err(error) => Plan::Write(Err(error)),
            }
        },
        Effect::MoveCard { id, status } => Plan::Write(project.move_card(files, id, status)),
        Effect::ToggleChecklist { id, global_index } => Plan::Write(
            project.update_card(files, id, &Change::ToggleGlobal { index: *global_index }),
        ),
    }
}

/// The project and its cards as they were read again, or why they could not be.
pub enum Snapshot {
    Loaded { project: Project, cards: Vec<Card> },
    Failed(String),
}

/// What became of an effect.
pub enum Outcome {
    /// It was done, on the card with this id where there is one, and everything was read again.
    Done { id: String, snapshot: Snapshot },
    /// It could not be done, for this reason.
    Refused(String),
}

impl AppView {
    /// What was read again is shown. Where that failed, the last good project and cards stay.
    pub open spec fn reloaded(self, snapshot: Snapshot, preserved: Option<Seq<char>>) -> AppView {
        match snapshot {
            Snapshot::Loaded { project, cards } => AppView {
                error: None,
                ..self.snapshot_applied(project@, model::card_views(cards@), preserved)
            },
            Snapshot::Failed(reason) => self.with_error("Reload failed: "@ + reason@),
        }
    }

    /// A message is shown.
    pub open spec fn with_message(self, message: Seq<char>) -> AppView {
        AppView { message: Some(message), ..self }
    }

    /// A message is shown, unless there is an error.
    pub open spec fn with_news(self, message: Seq<char>) -> AppView {
        if self.error is None {
            self.with_message(message)
        } else {
            self
        }
    }

    /// What the board shows once an effect was done.
    pub open spec fn done(self, effect: Effect, written: Seq<char>, snapshot: Snapshot) -> AppView {
        match effect {
            Effect::Quit => self,
            Effect::Reload => self.reloaded(snapshot, self.selected_id).with_news(
                "Reloaded project"@,
            ),
            Effect::CreateCard { .. } => self.reloaded(snapshot, Some(written)).with_message(
                "Created "@ + written,
            ),
            Effect::AddComment { id, .. } => (AppView {
                mode: ModeView::Normal,
                ..self.reloaded(snapshot, Some(id@))
            }).with_news("Commented on "@ + id@),
            Effect::MoveCard { id, status } => self.reloaded(snapshot, Some(id@)).with_message(
                "Moved "@ + id@ + " to "@ + status@,
            ),
            Effect::ToggleChecklist { id, .. } => self.reloaded(snapshot, Some(id@)).with_message(
                "Updated checklist on "@ + id@,
            ),
        }
    }

    /// What the board shows once an effect was done or refused.
    pub open spec fn concluded(self, effect: Effect, outcome: Outcome) -> AppView {
        match outcome {
            Outcome::Done { id, snapshot } => self.done(effect, id@, snapshot),
            Outcome::Refused(reason) => if effect is Quit {
                self
            } else {
                self.with_error(refusal(effect, reason@))
            },
        }
    }
}

/// How it is told that an effect was refused.
pub open spec fn refusal(effect: Effect, reason: Seq<char>) -> Seq<char> {
    match effect {
        Effect::Quit => reason,
        Effect::Reload => "Reload failed: "@ + reason,
        Effect::CreateCard { .. } => "Could not create card: "@ + reason,
        Effect::AddComment { id, .. } => "Could not comment on "@ + id@ + ": "@ + reason,
        Effect::MoveCard { id, .. } => "Could not move "@ + id@ + ": "@ + reason,
        Effect::ToggleChecklist { id, .. } => "Could not update checklist on "@ + id@ + ": "@
            + reason,
    }
}

/// Two texts, one after the other.
fn tell(a: &str, b: &str) -> (r: String)
    ensures
        r@ == a@ + b@,
{
    let mut out = text::chars_of(a);
    text::push_str(&mut out, b);
    text::string_of(&out)
}

/// Four texts, one after the other.
fn tell_all(a: &str, b: &str, c: &str, d: &str) -> (r: String)
    ensures
        r@ == a@ + b@ + c@ + d@,
{
    let mut out = text::chars_of(a);
    text::push_str(&mut out, b);
    text::push_str(&mut out, c);
    text::push_str(&mut out, d);
    text::string_of(&out)
}

impl App {
    /// Shows what was read again.
    fn reload_preserving(&mut self, snapshot: Snapshot, preserved: &Option<String>)
        ensures
            final(self)@ == old(self)@.reloaded(snapshot, text_of(*preserved)),
    {
        match snapshot {
            Snapshot::Loaded { project, cards } => {
                self.apply_snapshot(project, cards, preserved);
                self.error = None;
            },
            Snapshot::Failed(reason) => {
                self.error = Some(tell("Reload failed: ", &reason));
            },
        }
    }

    /// Shows what was read again, with the same card selected.
    pub fn reload(&mut self, snapshot: Snapshot)
        ensures
            final(self)@ == old(self)@.reloaded(snapshot, old(self)@.selected_id),
    {
        let preserved = copy_optional(&self.selected_id);
        self.reload_preserving(snapshot, &preserved);
    }

    /// Shows what became of an effect, and tells whether the board is to be left.
    pub fn apply_effect(&mut self, effect: Effect, outcome: Outcome) -> (r: bool)
        ensures
            r == (effect is Quit),
            final(self)@ == old(self)@.concluded(effect, outcome),
    {
        match effect {
            Effect::Quit => {
                return true;
            },
            Effect::Reload => match outcome {
                Outcome::Done { id: _, snapshot } => {
                    self.reload(snapshot);
                    if self.error.is_none() {
                        self.message = Some(text::copy_string("Reloaded project"));
                    }
                },
                Outcome::Refused(reason) => {
                    self.error = Some(tell("Reload failed: ", &reason));
                },
            },
            Effect::CreateCard { .. } => match outcome {
                Outcome::Done { id, snapshot } => {
                    let message = tell("Created ", &id);
                    self.reload_preserving(snapshot, &Some(id));
                    self.message = Some(message);
                },
                Outcome::Refused(reason) => {
                    self.error = Some(tell("Could not create card: ", &reason));
                },
            },
            Effect::AddComment { id, .. } => match outcome {
                Outcome::Done { id: _, snapshot } => {
                    let message = tell("Commented on ", &id);
                    self.reload_preserving(snapshot, &Some(id));
                    self.mode = Mode::Normal;
                    if self.error.is_none() {
                        self.message = Some(message);
                    }
                },
                Outcome::Refused(reason) => {
                    self.error = Some(tell_all("Could not comment on ", &id, ": ", &reason));
                },
            },
            Effect::MoveCard { id, status } => match outcome {
                Outcome::Done { id: _, snapshot } => {
                    let message = tell_all("Moved ", &id, " to ", &status);
                    self.reload_preserving(snapshot, &Some(id));
                    self.message = Some(message);
                },
                Outcome::Refused(reason) => {
                    self.error = Some(tell_all("Could not move ", &id, ": ", &reason));
                },
            },
            Effect::ToggleChecklist { id, .. } => match outcome {
                Outcome::Done { id: _, snapshot } => {
                    let message = tell("Updated checklist on ", &id);
                    self.reload_preserving(snapshot, &Some(id));
                    self.message = Some(message);
                },
                Outcome::Refused(reason) => {
                    self.error = Some(
                        tell_all("Could not update checklist on ", &id, ": ", &reason),
                    );
                },
            },
        }
        false
    }
}

impl AppView {
    /// The selected column is one of the board, and the selected card is one of the cards.
    pub open spec fn is_sound(self) -> bool {
        &&& self.columns().len() > 0
        &&& self.columns().len() <= usize::MAX
        &&& self.cards.len() <= usize::MAX
        &&& self.active_column < self.columns().len()
        &&& (self.selected_id matches Some(id) ==> store::first_with(self.cards, id, 0) is Some)
    }
}

/// A card in a column is one of the cards.
proof fn lemma_cards_of(cards: Seq<CardView>, status: Seq<char>, n: nat, k: int)
    requires
        n <= cards.len(),
        0 <= k < cards_of(cards, status, n).len(),
    ensures
        exists|i: int| 0 <= i < n && #[trigger] cards[i] == cards_of(cards, status, n)[k],
    decreases n,
{
    let before = cards_of(cards, status, (n - 1) as nat);
    if k < before.len() {
        lemma_cards_of(cards, status, (n - 1) as nat, k);
    } else {
        assert(cards[n - 1] == cards_of(cards, status, n)[k]);
    }
}

/// A card with an id is found.
proof fn lemma_first_with(cards: Seq<CardView>, id: Seq<char>, i: int, j: int)
    requires
        0 <= i <= j < cards.len(),
        store::has_id(cards[j], id),
    ensures
        store::first_with(cards, id, i) is Some,
    decreases j - i,
{
    if i < j && !store::has_id(cards[i], id) {
        lemma_first_with(cards, id, i + 1, j);
    }
}

/// The cards of a column are found by their ids.
proof fn lemma_column_cards(app: AppView, column: int, k: int)
    requires
        0 <= k < app.column_cards(column).len(),
    ensures
        store::first_with(app.cards, app.column_cards(column)[k].metadata.id, 0) is Some,
{
    let status = app.columns()[column].name;
    lemma_cards_of(app.cards, status, app.cards.len(), k);
    let i = choose|i: int|
        0 <= i < app.cards.len() && #[trigger] app.cards[i] == cards_of(
            app.cards,
            status,
            app.cards.len(),
        )[k];
    lemma_first_with(app.cards, app.cards[i].metadata.id, 0, i);
}

/// Selecting a column keeps a board sound, whatever card was selected.
proof fn lemma_column_selected(app: AppView, column: usize)
    requires
        0 < app.columns().len() <= usize::MAX,
        app.cards.len() <= usize::MAX,
    ensures
        app.column_selected(column).is_sound(),
{
    let active = least(column as int, app.last_column() as int);
    let cards = app.column_cards(active);
    if cards.len() > 0 {
        lemma_column_cards(app, active, least(app.selected_row as int, cards.len() - 1));
    }
}

/// A board that was just opened has a column selected, and a card that is there.
pub proof fn opened_boards_are_sound(project: ProjectView, cards: Seq<CardView>)
    requires
        0 < project.config.columns.len() <= usize::MAX,
        cards.len() <= usize::MAX,
    ensures
        opened(project, cards).is_sound(),
{
    let app = AppView { selected_id: None, active_column: 0, ..opened(project, cards) };
    lemma_first_filled(app, 0);
    if let Some(column) = first_filled(app, 0) {
        lemma_column_cards(app, column, 0);
    }
}

/// A column that holds a card is a column of the board.
proof fn lemma_first_filled(app: AppView, column: int)
    requires
        0 <= column,
    ensures
        first_filled(app, column) matches Some(found) ==> 0 <= found < app.columns().len()
            && app.column_cards(found).len() > 0,
    decreases app.columns().len() - column,
{
    if column < app.columns().len() && app.column_cards(column).len() == 0 {
        lemma_first_filled(app, column + 1);
    }
}

/// Whatever the user does, the selected column stays one of the board, and the selected card one
/// of the cards.
#[verifier::rlimit(40)]
#[verifier::spinoff_prover]
pub proof fn actions_keep_boards_sound(app: AppView, action: Action)
    requires
        app.is_sound(),
    ensures
        app.reduced(action).0.is_sound(),
{
    match action {
        Action::PreviousColumn => {
            if let Some(column) = moved_index(app.active_column, -1, app.last_column()) {
                lemma_column_selected(app, column);
            }
        },
        Action::NextColumn => {
            if let Some(column) = moved_index(app.active_column, 1, app.last_column()) {
                lemma_column_selected(app, column);
            }
        },
        Action::PreviousCard => {
            lemma_card_changed(app, -1);
        },
        Action::NextCard => {
            lemma_card_changed(app, 1);
        },
        Action::SelectColumn(column) => {
            lemma_column_selected(app, column);
        },
        Action::BeginDrag { id, column, row } => {
            lemma_card_selected(app, id@, column, row);
        },
        Action::ToggleChecklist { card_id, global_index } => {
            if let Some((column, row)) = app.position(card_id@) {
                lemma_card_selected(app, card_id@, column as usize, row as usize);
            }
        },
        _ => {
            let after = app.reduced(action).0;
            assert(after.project == app.project && after.cards == app.cards);
            assert(after.active_column == app.active_column);
            assert(after.selected_id == app.selected_id);
        },
    }
}

/// Selecting a card keeps a board sound.
proof fn lemma_card_selected(app: AppView, id: Seq<char>, column: usize, row: usize)
    requires
        app.is_sound(),
    ensures
        app.card_selected(id, column, row).is_sound(),
{
}

/// Moving the selected card keeps a board sound.
proof fn lemma_card_changed(app: AppView, delta: int)
    requires
        app.is_sound(),
    ensures
        app.card_changed(delta).is_sound(),
{
    let cards = app.column_cards(app.active_column as int);
    if cards.len() > 0 {
        let last = (cards.len() - 1) as usize;
        let from = least(app.selected_row as int, last as int) as usize;
        let row = match moved_index(from, delta, last) {
            Some(row) => row,
            None => 0usize,
        };
        lemma_column_cards(app, app.active_column as int, row as int);
    }
}

/// What is read again is shown with a column and a card that are there.
pub proof fn reloads_keep_boards_sound(
    app: AppView,
    snapshot: Snapshot,
    preserved: Option<Seq<char>>,
)
    requires
        app.is_sound(),
        snapshot matches Snapshot::Loaded { project, cards } ==> project@.config.columns.len() > 0,
    ensures
        app.reloaded(snapshot, preserved).is_sound(),
{
    if let Snapshot::Loaded { project, cards } = snapshot {
        let views = model::card_views(cards@);
        let shown = AppView { project: project@, cards: views, drag: None, ..app };
        assert(shown.columns().len() == project.config.columns.len());
        assert(views.len() == cards.len());
        let active = least(shown.active_column as int, shown.last_column() as int) as usize;
        lemma_column_selected(AppView { active_column: active, ..shown }, active);
        if let Some(id) = preserved {
            if let Some(i) = store::first_with(views, id, 0) {
                config::lemma_column_at(shown.columns(), views[i].metadata.status, 0);
            }
        }
    }
}

/// Whatever becomes of an effect, the selected column stays one of the board, and the selected card
/// one of the cards.
pub proof fn effects_keep_boards_sound(app: AppView, effect: Effect, outcome: Outcome)
    requires
        app.is_sound(),
        outcome matches Outcome::Done { id, snapshot } ==> (snapshot matches Snapshot::Loaded {
            project,
            cards,
        } ==> project@.config.columns.len() > 0),
    ensures
        app.concluded(effect, outcome).is_sound(),
{
    if let Outcome::Done { id: written, snapshot } = outcome {
        reloads_keep_boards_sound(app, snapshot, app.selected_id);
        reloads_keep_boards_sound(app, snapshot, Some(written@));
        match effect {
            Effect::AddComment { id, .. } => {
                reloads_keep_boards_sound(app, snapshot, Some(id@));
            },
            Effect::MoveCard { id, .. } => {
                reloads_keep_boards_sound(app, snapshot, Some(id@));
            },
            Effect::ToggleChecklist { id, .. } => {
                reloads_keep_boards_sound(app, snapshot, Some(id@));
            },
            _ => {},
        }
    }
}

/// No action of the user changes the project or the cards: all changes are asked for as effects.
pub proof fn actions_leave_the_cards(app: AppView, action: Action)
    ensures
        app.reduced(action).0.project == app.project,
        app.reduced(action).0.cards == app.cards,
{
}

/// A comment that is being written keeps the card that it is on and its author, unless the composer
/// is left or opened again. Sending it keeps it.
pub proof fn drafts_keep_their_target(app: AppView, action: Action)
    requires
        app.mode is AddComment,
        !(action is ToggleHelp),
        !(action is OpenQuickAdd),
        !(action is OpenComment),
        !(action is CancelModal),
    ensures
        app.reduced(action).0.mode is AddComment,
        app.reduced(action).0.mode->card_id == app.mode->card_id,
        app.reduced(action).0.mode->author == app.mode->author,
        action is SubmitComment ==> app.reduced(action).0.mode == app.mode,
{
}

/// Reading the project again leaves what is being written alone.
pub proof fn reloads_keep_drafts(app: AppView, snapshot: Snapshot, preserved: Option<Seq<char>>)
    ensures
        app.reloaded(snapshot, preserved).mode == app.mode,
{
}

/// A reload that fails keeps the last good project, its cards, and the selection.
pub proof fn failed_reloads_keep_the_board(
    app: AppView,
    reason: String,
    preserved: Option<Seq<char>>,
)
    ensures
        app.reloaded(Snapshot::Failed(reason), preserved) == (AppView {
            error: Some("Reload failed: "@ + reason@),
            ..app
        }),
{
}

/// An effect that is refused changes nothing that is shown but the error: what is being written
/// stays.
pub proof fn refusals_keep_the_board(app: AppView, effect: Effect, reason: String)
    requires
        !(effect is Quit),
    ensures
        app.concluded(effect, Outcome::Refused(reason)) == (AppView {
            error: Some(refusal(effect, reason@)),
            ..app
        }),
{
}

/// A card that is let go outside the columns, or on the column that it is in, stays there.
pub proof fn drops_elsewhere_move_nothing(app: AppView, column: Option<usize>)
    requires
        app.drag matches Some(drag) ==> (match (column, store::first_with(app.cards, drag.card_id, 0)) {
            (Some(target), Some(i)) => target >= app.columns().len() || store::in_column(
                app.cards[i],
                app.columns()[target as int].name,
            ),
            _ => true,
        }),
    ensures
        app.reduced(Action::DropOn(column)).1.len() == 0,
        app.reduced(Action::DropOn(column)).0.drag is None,
{
}

} // verus!
