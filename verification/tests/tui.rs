use kbmd::change::Change;
use kbmd::comments;
use kbmd::comments::{resolve_author, AuthorVariable};
use kbmd::markdown;
use kbmd::store::{CardWrite, LoadedFile};
use kbmd::tui::app::{
    plan_effect, Action, App, Author, DragState, Effect, Focus, Mode, Outcome, Plan, Snapshot,
};
use kbmd::tui::input::{handle_key, handle_mouse, opens_composer, Key, KeyCode, Mouse, MouseKind};
use kbmd::tui::ui::{
    compose, detail_lines, find_pane_extents, lay_out, parse_color, render, truncate, Color,
    HitMap, HitTarget, Item, Look, Rect, Scene,
};
use kbmd::tui::watch::{LiveReload, Signal, DEBOUNCE, RECONCILE_INTERVAL};
use kbmd::{BoardConfig, Card, CreateCard, Project};
use unicode_width::UnicodeWidthStr;

struct Board {
    project: Project,
    files: Vec<LoadedFile>,
}

impl Board {
    fn new(name: &str, prefix: &str, statuses: &[&str]) -> Board {
        let statuses = statuses.iter().map(|status| status.to_string()).collect();
        let config = BoardConfig::new(name, prefix, statuses);
        Board { project: Project::init("/demo", config, false).unwrap(), files: Vec::new() }
    }

    fn keep(&mut self, write: CardWrite) -> Card {
        let stored = Card {
            metadata: write.card.metadata.copied(),
            body: write.body,
            path: write.card.path.clone(),
        };
        let id = stored.metadata.id.clone();
        self.files.retain(
            |file| !matches!(file, LoadedFile::Card(card) if card.metadata.id == id),
        );
        self.files.push(LoadedFile::Card(stored));
        write.card
    }

    fn create(&mut self, input: CreateCard) -> Card {
        let write = self.project.create_card(&self.files, input).unwrap();
        self.keep(write)
    }

    fn change(&mut self, id: &str, change: Change) -> Card {
        let write = self.project.update_card(&self.files, id, &change).unwrap();
        self.keep(write)
    }

    fn cards(&self) -> Vec<Card> {
        self.project.load_cards(&self.files).unwrap()
    }

    fn card(&self, id: &str) -> Card {
        self.project.load_card(&self.files, id).unwrap()
    }
}

impl Board {
    fn snapshot(&self) -> Snapshot {
        let config = BoardConfig::new(
            &self.project.config.name,
            &self.project.config.id_prefix,
            self.project.config.columns.iter().map(|column| column.name.clone()).collect(),
        );
        match self.project.load_cards(&self.files) {
            Ok(cards) => Snapshot::Loaded {
                project: Project::open("/demo", config).unwrap(),
                cards,
            },
            Err(error) => Snapshot::Failed(error.message()),
        }
    }

    /// Does what the program does for an effect, on files in memory.
    fn perform(&mut self, app: &mut App, effect: Effect) -> bool {
        let outcome = match plan_effect(&self.project, &self.files, &effect) {
            Plan::Quit => Outcome::Refused(String::new()),
            Plan::Read => Outcome::Done { id: String::new(), snapshot: self.snapshot() },
            Plan::Write(Ok(write)) => {
                let id = self.keep(write).metadata.id;
                Outcome::Done { id, snapshot: self.snapshot() }
            }
            Plan::Write(Err(error)) => Outcome::Refused(error.message()),
        };
        app.apply_effect(effect, outcome)
    }
}

fn app() -> (Board, App) {
    let mut board = Board::new("TUI test", "T", &["Inbox", "Doing", "Done"]);
    board.create(CreateCard {
        title: "First".to_owned(),
        body: "## Plan\n\n- [ ] One\n- [x] Two\n".to_owned(),
        ..CreateCard::default()
    });
    board.create(CreateCard { title: "Second".to_owned(), ..CreateCard::default() });
    let cards = board.cards();
    let project = match board.snapshot() {
        Snapshot::Loaded { project, .. } => project,
        Snapshot::Failed(reason) => panic!("{reason}"),
    };
    (board, App::new(project, cards))
}

fn nobody() -> Author {
    Author::Unknown("nobody".to_owned())
}

fn key(code: KeyCode) -> Key {
    Key { code, control: false, alt: false }
}

fn control(c: char) -> Key {
    Key { code: KeyCode::Char(c), control: true, alt: false }
}

#[test]
fn reducer_navigates_and_emits_move_without_mutating_storage() {
    let (board, mut app) = app();

    app.reduce(Action::NextCard);
    assert_eq!(app.selected_id.as_deref(), Some("T-2"));
    let effects = app.reduce(Action::MoveSelected(1));

    assert_eq!(
        effects,
        vec![Effect::MoveCard {
            id: "T-2".to_owned(),
            status: "Doing".to_owned(),
        }]
    );
    assert_eq!(board.card("T-2").metadata.status, "Inbox");
}

#[test]
fn reducer_builds_quick_add_for_the_active_column() {
    let (_board, mut app) = app();
    app.reduce(Action::NextColumn);
    app.reduce(Action::OpenQuickAdd);
    for character in "A new card".chars() {
        app.reduce(Action::QuickAddCharacter(character));
    }

    assert_eq!(
        app.reduce(Action::SubmitQuickAdd),
        vec![Effect::CreateCard {
            title: "A new card".to_owned(),
            status: "Doing".to_owned(),
        }]
    );
    assert_eq!(app.mode, Mode::Normal);
}

#[test]
fn reducer_tracks_drag_hover_and_emits_drop_move() {
    let (_board, mut app) = app();
    app.reduce(Action::BeginDrag {
        id: "T-1".to_owned(),
        column: 0,
        row: 0,
    });
    app.reduce(Action::DragOver(Some(2)));
    assert_eq!(app.drag, Some(DragState { card_id: "T-1".to_owned(), hover_column: 2 }));

    assert_eq!(
        app.reduce(Action::DropOn(Some(2))),
        vec![Effect::MoveCard {
            id: "T-1".to_owned(),
            status: "Done".to_owned(),
        }]
    );
    assert!(app.drag.is_none());
}

#[test]
fn reducer_captures_comment_target_author_and_draft_until_persisted() {
    let (_board, mut app) = app();
    let expected_author =
        resolve_author(None, &AuthorVariable::Absent, Some("TUI Author")).unwrap();

    let opened = Action::OpenComment(Author::Known(expected_author.clone()));
    assert!(app.reduce(opened).is_empty());
    for character in "Looks good".chars() {
        app.reduce(Action::CommentCharacter(character));
    }
    let expected_mode = Mode::AddComment {
        card_id: "T-1".to_owned(),
        author: expected_author.clone(),
        text: "Looks good".to_owned(),
    };
    assert_eq!(app.mode, expected_mode);

    let effects = app.reduce(Action::SubmitComment);

    assert_eq!(
        effects,
        vec![Effect::AddComment {
            id: "T-1".to_owned(),
            author: expected_author,
            text: "Looks good".to_owned(),
        }]
    );
    assert_eq!(app.mode, expected_mode);
}

#[test]
fn comment_draft_survives_reload_and_selection_changes_without_retargeting() {
    let (board, mut app) = app();
    app.mode = Mode::AddComment {
        card_id: "T-1".to_owned(),
        author: "TUI Author".to_owned(),
        text: "Still writing".to_owned(),
    };
    app.selected_id = Some("T-2".to_owned());
    app.selected_row = 1;

    app.reload(board.snapshot());

    assert_eq!(app.selected_id.as_deref(), Some("T-2"));
    assert_eq!(
        app.mode,
        Mode::AddComment {
            card_id: "T-1".to_owned(),
            author: "TUI Author".to_owned(),
            text: "Still writing".to_owned(),
        }
    );
    assert!(matches!(
        app.reduce(Action::SubmitComment).as_slice(),
        [Effect::AddComment { id, .. }] if id == "T-1"
    ));
}

#[test]
fn empty_comment_and_failed_write_retain_the_modal_and_draft() {
    let (mut board, mut app) = app();
    app.mode = Mode::AddComment {
        card_id: "T-404".to_owned(),
        author: "TUI Author".to_owned(),
        text: "   ".to_owned(),
    };

    assert!(app.reduce(Action::SubmitComment).is_empty());
    assert_eq!(app.error.as_deref(), Some("Comment text cannot be empty"));
    assert!(matches!(app.mode, Mode::AddComment { .. }));

    app.reduce(Action::CommentClear);
    for character in "Keep this draft".chars() {
        app.reduce(Action::CommentCharacter(character));
    }
    let effect = app.reduce(Action::SubmitComment).pop().unwrap();
    board.perform(&mut app, effect);

    assert!(app.error.as_deref().unwrap().contains("Could not comment on T-404"));
    assert_eq!(
        app.mode,
        Mode::AddComment {
            card_id: "T-404".to_owned(),
            author: "TUI Author".to_owned(),
            text: "Keep this draft".to_owned(),
        }
    );
}

#[test]
fn comment_effect_persists_then_closes_without_resetting_detail_position() {
    let (mut board, mut app) = app();
    app.detail_checklist = 1;
    app.detail_scroll = 4;
    app.detail_follow_cursor = false;
    app.mode = Mode::AddComment {
        card_id: "T-1".to_owned(),
        author: "TUI Author".to_owned(),
        text: "Persist me".to_owned(),
    };

    board.perform(
        &mut app,
        Effect::AddComment {
            id: "T-1".to_owned(),
            author: "TUI Author".to_owned(),
            text: "Persist me".to_owned(),
        },
    );

    assert_eq!(app.mode, Mode::Normal);
    assert_eq!(app.detail_checklist, 1);
    assert_eq!(app.detail_scroll, 4);
    assert!(!app.detail_follow_cursor);
    assert_eq!(app.message.as_deref(), Some("Commented on T-1"));
    let stored = comments::parse(&board.card("T-1").body).unwrap();
    assert_eq!(stored.len(), 1);
    assert_eq!(stored[0].author, "TUI Author");
    assert_eq!(stored[0].body, "Persist me");
}

#[test]
fn failed_reload_keeps_last_good_cards_and_sets_banner() {
    let (mut board, mut app) = app();
    board.files[0] = LoadedFile::Broken {
        path: app.cards[0].path.clone(),
        message: "broken".to_owned(),
    };
    let before: Vec<Card> = app.cards.iter().map(|card| card.copied()).collect();

    app.reload(board.snapshot());

    assert_eq!(app.cards, before);
    assert!(app.error.as_deref().unwrap().contains("Reload failed"));
}

#[test]
fn project_effects_persist_and_preserve_the_selected_card() {
    let (mut board, mut app) = app();

    board.perform(&mut app, Effect::ToggleChecklist { id: "T-1".to_owned(), global_index: 1 });
    assert!(markdown::checklist_items(&board.card("T-1").body)[0].checked);
    assert_eq!(app.selected_id.as_deref(), Some("T-1"));

    board.perform(
        &mut app,
        Effect::MoveCard { id: "T-1".to_owned(), status: "Doing".to_owned() },
    );
    assert_eq!(board.card("T-1").metadata.status, "Doing");
    assert_eq!(app.selected_id.as_deref(), Some("T-1"));
    assert_eq!(app.active_column, 1);
    assert_eq!(app.message.as_deref(), Some("Moved T-1 to Doing"));
}

#[test]
fn effects_end_tell_and_fail() {
    let (mut board, mut app) = app();
    assert!(board.perform(&mut app, Effect::Quit));
    assert!(!board.perform(&mut app, Effect::Reload));
    assert_eq!(app.message.as_deref(), Some("Reloaded project"));
    let create = |title: &str| Effect::CreateCard {
        title: title.to_owned(),
        status: "Done".to_owned(),
    };
    assert!(!board.perform(&mut app, create("Third")));
    assert_eq!(app.message.as_deref(), Some("Created T-3"));
    assert_eq!(app.selected_id.as_deref(), Some("T-3"));
    assert_eq!(app.active_column, 2);
    board.perform(&mut app, create("a\nb"));
    assert!(app.error.as_deref().unwrap().starts_with("Could not create card: "));
    board.perform(
        &mut app,
        Effect::MoveCard { id: "T-1".to_owned(), status: "Nowhere".to_owned() },
    );
    assert!(app.error.as_deref().unwrap().starts_with("Could not move T-1: "));
    board.perform(&mut app, Effect::ToggleChecklist { id: "T-1".to_owned(), global_index: 9 });
    assert!(app.error.as_deref().unwrap().starts_with("Could not update checklist on T-1: "));
}

#[test]
fn modal_overlays_block_mouse_actions_on_the_board_beneath_them() {
    let mut board = Board::new("Mouse test", "T", &["Todo"]);
    let card = board.create(CreateCard {
        title: "Card".to_owned(),
        body: "- [ ] item\n".to_owned(),
        ..CreateCard::default()
    });
    let id = card.metadata.id.clone();
    let Board { project, .. } = board;
    let mut app = App::new(project, vec![card]);
    let mut hit_map = HitMap::default();
    hit_map.push(
        Rect { x: 0, y: 0, width: 5, height: 1 },
        HitTarget::Checklist { card_id: id.clone(), global_index: 1 },
    );
    let click = Mouse { kind: MouseKind::Down, column: 1, row: 0 };

    app.mode = Mode::QuickAdd { title: String::new() };
    assert!(handle_mouse(&mut app, click, &hit_map).is_empty());
    app.mode = Mode::AddComment {
        card_id: id.clone(),
        author: "Mouse Author".to_owned(),
        text: "draft".to_owned(),
    };
    assert!(handle_mouse(&mut app, click, &hit_map).is_empty());
    app.mode = Mode::Help;
    assert!(handle_mouse(&mut app, click, &hit_map).is_empty());
    assert!(app.drag.is_none());
    app.mode = Mode::Normal;
    assert_eq!(
        handle_mouse(&mut app, click, &hit_map),
        vec![Effect::ToggleChecklist { id, global_index: 1 }]
    );
    assert_eq!(app.focus, Focus::Detail);
}

#[test]
fn comment_composer_keys_type_command_letters_and_control_the_draft() {
    let mut board = Board::new("Key test", "K", &["Todo"]);
    let card = board.create(CreateCard { title: "Card".to_owned(), ..CreateCard::default() });
    let Board { project, .. } = board;
    let mut app = App::new(project, vec![card]);
    app.mode = Mode::AddComment {
        card_id: "K-1".to_owned(),
        author: "Key Author".to_owned(),
        text: String::new(),
    };

    assert!(handle_key(&mut app, key(KeyCode::Char('c')), nobody()).is_empty());
    assert!(handle_key(&mut app, key(KeyCode::Char('r')), nobody()).is_empty());
    assert!(matches!(
        app.mode,
        Mode::AddComment { ref text, .. } if text == "cr"
    ));

    handle_key(&mut app, key(KeyCode::Backspace), nobody());
    assert!(matches!(
        app.mode,
        Mode::AddComment { ref text, .. } if text == "c"
    ));
    handle_key(&mut app, control('u'), nobody());
    assert!(matches!(
        app.mode,
        Mode::AddComment { ref text, .. } if text.is_empty()
    ));

    handle_key(&mut app, key(KeyCode::Char('x')), nobody());
    assert_eq!(
        handle_key(&mut app, key(KeyCode::Enter), nobody()),
        vec![Effect::AddComment {
            id: "K-1".to_owned(),
            author: "Key Author".to_owned(),
            text: "x".to_owned(),
        }]
    );
    assert!(matches!(app.mode, Mode::AddComment { .. }));

    assert_eq!(handle_key(&mut app, control('c'), nobody()), vec![Effect::Quit]);
    assert!(handle_key(&mut app, key(KeyCode::Esc), nobody()).is_empty());
    assert_eq!(app.mode, Mode::Normal);
}

#[test]
fn hit_map_prefers_card_over_containing_column_and_is_half_open() {
    let mut map = HitMap::default();
    map.push(Rect { x: 0, y: 0, width: 20, height: 10 }, HitTarget::Column(0));
    map.push(
        Rect { x: 1, y: 2, width: 18, height: 4 },
        HitTarget::Card {
            id: "KB-1".to_owned(),
            column: 0,
            row: 0,
        },
    );

    assert!(matches!(map.target_at(2, 3), Some(HitTarget::Card { .. })));
    assert_eq!(map.column_at(2, 3), Some(0));
    assert_eq!(map.target_at(20, 3), None);
}

fn drawn_app() -> App {
    let mut board = Board::new("Flexible board", "KB", &["Ideas", "Building", "Done"]);
    board.create(CreateCard {
        title: "Mouse-friendly card".to_owned(),
        body: "## Bespoke plan\n\n- [ ] Flexible item\n- [x] Finished item\n".to_owned(),
        ..CreateCard::default()
    });
    let cards = board.cards();
    let Board { project, .. } = board;
    App::new(project, cards)
}

fn screen(width: u16, height: u16) -> Rect {
    Rect { x: 0, y: 0, width, height }
}

fn texts(scene: &Scene) -> Vec<String> {
    let mut texts = Vec::new();
    for item in &scene.items {
        match item {
            Item::Line { text, .. } => texts.push(text.clone()),
            Item::Frame { title, .. } => texts.push(title.clone()),
            Item::Clear(_) | Item::Rule(_) => {}
        }
    }
    texts
}

#[test]
fn render_contains_columns_progress_and_arbitrary_markdown() {
    let mut app = drawn_app();
    app.focus = Focus::Detail;
    let scene = render(&app, "id: KB-1\n", screen(110, 30));

    let rendered = texts(&scene).join("\n");
    assert!(rendered.contains("Ideas"));
    assert!(rendered.contains("1/2"));
    assert!(rendered.contains("Bespoke plan"));
    assert!(scene.hit_map.regions.iter().any(|region| matches!(
        region.target,
        HitTarget::Checklist {
            global_index: 1,
            ..
        }
    )));
}

#[test]
fn board_columns_fill_the_unframed_board_pane() {
    let app = drawn_app();
    let scene = render(&app, "id: KB-1\n", screen(80, 30));
    let regions = &scene.hit_map.regions;

    let board = regions
        .iter()
        .find(|region| matches!(region.target, HitTarget::BoardPane))
        .unwrap()
        .rect;
    let columns = regions
        .iter()
        .filter_map(|region| matches!(region.target, HitTarget::Column(_)).then_some(region.rect))
        .collect::<Vec<_>>();

    assert!(!columns.is_empty());
    assert_eq!(columns.first().unwrap().x, board.x);
    assert_eq!(columns.last().unwrap().right(), board.right());
    assert!(
        columns
            .iter()
            .all(|column| column.y == board.y && column.height == board.height)
    );
}

#[test]
fn truncate_respects_wide_characters() {
    assert_eq!(truncate("ab界cd", 5), "ab界…");
    assert_eq!(UnicodeWidthStr::width(truncate("ab界cd", 5).as_str()), 5);
}

#[test]
fn truncate_handles_narrow_widths() {
    assert_eq!(truncate("abc", 3), "abc");
    assert_eq!(truncate("abc", 0), "");
    assert_eq!(truncate("\u{301}abc", 1), "…");
    assert_eq!(truncate("abc", 2), "a…");
    assert_eq!(truncate("界界", 2), "…");
    assert_eq!(truncate("a\u{7}bcd", 3), "a\u{7}b…");
}

#[test]
fn native_events_use_a_trailing_edge_debounce() {
    let now = 1_000;
    let mut reload = LiveReload::start(false, now);
    let change = vec![Signal::Event { rescan: false, access: false }];
    let quiet = Vec::new();

    assert!(!reload.tick(now, &change).reload);
    assert!(!reload.tick(now + DEBOUNCE - 1, &quiet).reload);
    assert!(reload.tick(now + DEBOUNCE, &quiet).reload);
    assert!(!reload.tick(now + DEBOUNCE, &quiet).reload);
}

#[test]
fn polling_reconciliation_runs_without_a_watcher() {
    let now = 1_000;
    let mut reload = LiveReload::start(false, now);
    let quiet = Vec::new();

    assert!(!reload.tick(now, &quiet).reload);
    assert!(reload.tick(now + RECONCILE_INTERVAL, &quiet).reload);
    assert!(!reload.tick(now + RECONCILE_INTERVAL, &quiet).reload);
}

#[test]
fn every_event_starts_the_debounce_anew_and_reading_starts_none() {
    let mut reload = LiveReload::start(true, 0);
    let change = vec![Signal::Event { rescan: false, access: false }];
    let access = vec![Signal::Event { rescan: false, access: true }];
    let rescan = vec![Signal::Event { rescan: true, access: true }];
    reload.tick(10, &change);
    reload.tick(90, &rescan);
    assert!(!reload.tick(150, &access).reload);
    assert!(reload.tick(190, &access).reload);
    assert!(!reload.tick(400, &access).reload);
}

#[test]
fn a_lost_watcher_is_told_once_and_failures_always() {
    let mut reload = LiveReload::start(true, 0);
    let signals = vec![Signal::Failure("oops".to_owned()), Signal::Disconnected];
    assert_eq!(
        reload.tick(1, &signals).errors,
        vec![
            "File watch error: oops".to_owned(),
            "File watcher stopped; polling reconciliation remains active".to_owned(),
        ]
    );
    assert!(reload.tick(2, &vec![Signal::Disconnected]).errors.is_empty());
    let mut unwatched = LiveReload::start(false, 0);
    assert!(unwatched.tick(1, &vec![Signal::Disconnected]).errors.is_empty());
}

#[test]
fn normal_keys_do_what_the_help_says() {
    let (_board, mut app) = app();
    let mut press = |app: &mut App, code: KeyCode| handle_key(app, key(code), nobody());
    assert_eq!(press(&mut app, KeyCode::Char('q')), vec![Effect::Quit]);
    assert_eq!(press(&mut app, KeyCode::Char('r')), vec![Effect::Reload]);
    press(&mut app, KeyCode::Char('j'));
    assert_eq!(app.selected_id.as_deref(), Some("T-2"));
    press(&mut app, KeyCode::Up);
    assert_eq!(app.selected_id.as_deref(), Some("T-1"));
    press(&mut app, KeyCode::Char('l'));
    assert_eq!(app.active_column, 1);
    assert_eq!(app.selected_id, None);
    press(&mut app, KeyCode::Left);
    assert_eq!(app.selected_id.as_deref(), Some("T-1"));
    assert_eq!(
        press(&mut app, KeyCode::Char(']')),
        vec![Effect::MoveCard { id: "T-1".to_owned(), status: "Doing".to_owned() }]
    );
    assert!(press(&mut app, KeyCode::Char('[')).is_empty());
    assert!(press(&mut app, KeyCode::Char(' ')).is_empty());
    assert_eq!(app.focus, Focus::Board);
    press(&mut app, KeyCode::Enter);
    assert_eq!(app.focus, Focus::Detail);
    press(&mut app, KeyCode::Char('j'));
    assert_eq!(
        press(&mut app, KeyCode::Char(' ')),
        vec![Effect::ToggleChecklist { id: "T-1".to_owned(), global_index: 2 }]
    );
    press(&mut app, KeyCode::PageDown);
    assert_eq!(app.detail_scroll, 8);
    press(&mut app, KeyCode::PageUp);
    assert_eq!(app.detail_scroll, 0);
    press(&mut app, KeyCode::Tab);
    assert_eq!(app.focus, Focus::Board);
    press(&mut app, KeyCode::Char('?'));
    assert_eq!(app.mode, Mode::Help);
    press(&mut app, KeyCode::Esc);
    assert_eq!(app.mode, Mode::Normal);
    app.error = Some("old".to_owned());
    press(&mut app, KeyCode::Esc);
    assert_eq!(app.error, None);
}

#[test]
fn the_composer_needs_a_card_and_an_author() {
    let (_board, mut app) = app();
    assert!(opens_composer(&app, key(KeyCode::Char('c'))));
    assert!(!opens_composer(&app, control('c')));
    handle_key(&mut app, key(KeyCode::Char('c')), nobody());
    assert_eq!(app.error.as_deref(), Some("Could not resolve comment author: nobody"));
    app.reduce(Action::SelectColumn(2));
    assert!(!opens_composer(&app, key(KeyCode::Char('c'))));
    app.reduce(Action::OpenComment(Author::Known("A".to_owned())));
    assert_eq!(app.error.as_deref(), Some("Select a card before adding a comment"));
}

#[test]
fn quick_add_refuses_blank_titles() {
    let (_board, mut app) = app();
    app.reduce(Action::OpenQuickAdd);
    app.reduce(Action::QuickAddCharacter(' '));
    assert!(app.reduce(Action::SubmitQuickAdd).is_empty());
    assert_eq!(app.error.as_deref(), Some("Card title cannot be empty"));
    app.reduce(Action::QuickAddBackspace);
    app.reduce(Action::QuickAddBackspace);
    assert_eq!(app.mode, Mode::QuickAdd { title: String::new() });
    app.reduce(Action::CancelModal);
    assert_eq!(app.mode, Mode::Normal);
    assert_eq!(app.error, None);
}

#[test]
fn the_mouse_drags_selects_and_scrolls() {
    let (_board, mut app) = app();
    let mut map = HitMap::default();
    map.push(screen(60, 20), HitTarget::BoardPane);
    map.push(Rect { x: 0, y: 0, width: 20, height: 20 }, HitTarget::Column(0));
    map.push(
        Rect { x: 1, y: 1, width: 18, height: 4 },
        HitTarget::Card { id: "T-1".to_owned(), column: 0, row: 0 },
    );
    map.push(Rect { x: 21, y: 0, width: 20, height: 20 }, HitTarget::Column(1));
    map.push(Rect { x: 42, y: 0, width: 18, height: 20 }, HitTarget::DetailPane);
    let mut mouse = |app: &mut App, kind: MouseKind, column: u16| {
        handle_mouse(app, Mouse { kind, column, row: 2 }, &map)
    };
    mouse(&mut app, MouseKind::Down, 2);
    mouse(&mut app, MouseKind::Drag, 25);
    assert_eq!(app.drag.as_ref().unwrap().hover_column, 1);
    assert_eq!(
        mouse(&mut app, MouseKind::Up, 25),
        vec![Effect::MoveCard { id: "T-1".to_owned(), status: "Doing".to_owned() }]
    );
    mouse(&mut app, MouseKind::Down, 2);
    assert!(mouse(&mut app, MouseKind::Up, 50).is_empty());
    mouse(&mut app, MouseKind::ScrollDown, 2);
    assert_eq!(app.selected_id.as_deref(), Some("T-2"));
    mouse(&mut app, MouseKind::ScrollUp, 2);
    assert_eq!(app.selected_id.as_deref(), Some("T-1"));
    mouse(&mut app, MouseKind::ScrollDown, 50);
    assert_eq!(app.focus, Focus::Detail);
    assert_eq!(app.detail_scroll, 3);
    mouse(&mut app, MouseKind::ScrollUp, 50);
    assert_eq!(app.detail_scroll, 0);
    mouse(&mut app, MouseKind::ScrollRight, 2);
    assert_eq!(app.active_column, 1);
    mouse(&mut app, MouseKind::ScrollLeft, 2);
    assert_eq!(app.active_column, 0);
    assert!(mouse(&mut app, MouseKind::Other, 2).is_empty());
}

#[test]
fn colors_are_read_by_name_and_number() {
    assert_eq!(parse_color(" Purple "), Some(Color::Magenta));
    assert_eq!(parse_color("dark_gray"), Some(Color::DarkGray));
    assert_eq!(parse_color("grey"), Some(Color::Gray));
    assert_eq!(parse_color("#1aFf00"), Some(Color::Rgb(0x1a, 0xff, 0)));
    assert_eq!(parse_color("#1aff0"), None);
    assert_eq!(parse_color("#1aff0g"), None);
    assert_eq!(parse_color("pink"), None);
}

#[test]
fn a_screen_is_divided_into_its_parts() {
    let places = lay_out(screen(110, 30));
    assert_eq!(places.header, screen(110, 2));
    assert_eq!(places.main, Rect { x: 0, y: 2, width: 110, height: 26 });
    assert_eq!(places.status, Rect { x: 0, y: 28, width: 110, height: 1 });
    assert_eq!(places.footer, Rect { x: 0, y: 29, width: 110, height: 1 });
    assert_eq!(
        places.panes,
        Some((
            Rect { x: 0, y: 2, width: 73, height: 26 },
            Rect { x: 74, y: 2, width: 36, height: 26 },
        ))
    );
    assert_eq!(places.input, Rect { x: 24, y: 13, width: 62, height: 1 });
    assert_eq!(places.hint, Rect { x: 24, y: 14, width: 62, height: 1 });
    assert_eq!(lay_out(screen(85, 30)).panes, None);
    assert!(find_pane_extents(85).is_none());
    for height in 0..8 {
        let places = lay_out(screen(110, height));
        assert_eq!(places.header.width, 110);
        render(&drawn_app(), "", screen(110, height));
    }
}

#[test]
fn screens_of_all_sizes_are_divided_alike() {
    for width in (0u16..260).step_by(7).chain([85, 86, 87, 155, 156, 157, 1000, 65000]) {
        for height in (7u16..60).step_by(3).chain([400, 30000]) {
            let (x, y) = (width % 5, height % 4);
            let area = Rect { x, y, width, height };
            let row = |top: u16, height: u16| Rect { x, y: y + top, width, height };
            let places = lay_out(area);
            assert_eq!(places.header, row(0, 2));
            assert_eq!(places.main, row(2, height - 4));
            assert_eq!(places.status, row(height - 2, 1));
            assert_eq!(places.footer, row(height - 1, 1));
            assert_eq!(places.hint.y, places.input.y + 1);
            assert_eq!((places.input.height, places.hint.height), (1, 1));
            assert_eq!(places.panes.is_some(), width >= 86);
            if let Some((board, detail)) = places.panes {
                assert_eq!(detail.width, (width / 3).clamp(30, 52));
                assert_eq!(board.width, width - 1 - detail.width);
                assert_eq!((board.x, detail.x), (x, x + board.width + 1));
            }
        }
    }
}

#[test]
fn a_prompt_has_its_rows_on_a_low_screen() {
    let places = lay_out(screen(40, 6));
    assert_eq!(places.input, Rect { x: 2, y: 2, width: 36, height: 1 });
    assert_eq!(places.hint, Rect { x: 2, y: 3, width: 36, height: 1 });
}

#[test]
fn prompts_and_help_are_drawn_over_the_board() {
    let mut app = drawn_app();
    let places = lay_out(screen(110, 30));
    let plain = compose(&app, "", &places);
    assert_eq!(plain.cursor, None);
    app.mode = Mode::QuickAdd { title: "Neu 界".to_owned() };
    let prompt = compose(&app, "", &places);
    assert_eq!(prompt.hit_map, plain.hit_map);
    assert_eq!(prompt.cursor, Some((30, 13)));
    assert!(texts(&prompt).contains(&" New card in Ideas ".to_owned()));
    app.mode = Mode::AddComment {
        card_id: "KB-1".to_owned(),
        author: "Me".to_owned(),
        text: String::new(),
    };
    let composer = compose(&app, "", &places);
    assert!(texts(&composer).contains(&" Comment on KB-1 as Me ".to_owned()));
    assert_eq!(composer.cursor, Some((24, 13)));
    app.mode = Mode::Help;
    let help = compose(&app, "", &places);
    assert_eq!(help.hit_map, plain.hit_map);
    assert!(texts(&help).contains(&"  q               quit".to_owned()));
}

#[test]
fn the_status_line_tells_the_most_urgent() {
    let mut app = drawn_app();
    let places = lay_out(screen(110, 30));
    let line = |app: &App| {
        let scene = compose(app, "", &places);
        let found = scene.items.into_iter().find_map(|item| match item {
            Item::Line { rect, text, look } if rect == places.status => Some((text, look)),
            _ => None,
        });
        found.unwrap()
    };
    assert_eq!(line(&app), (String::new(), Look::plain()));
    app.drag = Some(DragState { card_id: "KB-1".to_owned(), hover_column: 0 });
    assert_eq!(line(&app).0, " Drag KB-1 onto a column and release");
    app.message = Some("done".to_owned());
    assert_eq!(line(&app), (" done".to_owned(), Look::colored(Color::Green)));
    app.error = Some("bad".to_owned());
    assert_eq!(line(&app).0, " Error: bad");
}

#[test]
fn detail_lines_tell_items_and_headings() {
    let app = drawn_app();
    let lines = detail_lines(app.selected_card().unwrap(), "id: KB-1\ntitle: x\n");
    let told: Vec<(&str, Option<usize>)> =
        lines.iter().map(|line| (line.text.as_str(), line.checklist)).collect();
    assert_eq!(
        told,
        vec![
            ("FRONTMATTER", None),
            ("id: KB-1", None),
            ("title: x", None),
            ("", None),
            ("MARKDOWN", None),
            ("## Bespoke plan", None),
            ("", None),
            ("- [ ] Flexible item", Some(1)),
            ("- [x] Finished item", Some(2)),
        ]
    );
    assert_eq!(lines[5].look, Look::bold(Color::Magenta));
    assert_eq!(lines[7].look, Look::colored(Color::White));
}

#[test]
fn a_changed_card_is_moved_in_memory() {
    let (mut board, mut app) = app();
    board.change("T-2", Change::Move("Done".to_owned()));
    app.reduce(Action::NextCard);
    app.reload(board.snapshot());
    assert_eq!(app.selected_id.as_deref(), Some("T-2"));
    assert_eq!(app.active_column, 2);
    assert_eq!(app.selected_row, 0);
}
