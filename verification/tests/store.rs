use kbmd::change::{Change, Edit};
use kbmd::fields::Fields;
use kbmd::store::{Ancestor, CardWrite, LoadedFile};
use kbmd::{BoardConfig, Card, CreateCard, Project};

struct Board {
    project: Project,
    files: Vec<LoadedFile>,
}

impl Board {
    fn new(name: &str, prefix: &str, statuses: &[&str]) -> Board {
        let statuses = statuses.iter().map(|status| status.to_string()).collect();
        let config = BoardConfig::new(name, prefix, statuses);
        Board { project: Project::init("/demo", config, false).unwrap(), files: Vec::new() }
    }

    fn keep(&mut self, write: CardWrite) -> Card {
        let stored = Card {
            metadata: write.card.metadata.copied(),
            body: write.body,
            path: write.card.path.clone(),
        };
        let id = stored.metadata.id.clone();
        self.files.retain(
            |file| !matches!(file, LoadedFile::Card(card) if card.metadata.id == id),
        );
        self.files.push(LoadedFile::Card(stored));
        write.card
    }

    fn create(&mut self, input: CreateCard) -> Card {
        let write = self.project.create_card(&self.files, input).unwrap();
        self.keep(write)
    }

    fn change(&mut self, id: &str, change: Change) -> Card {
        let write = self.project.update_card(&self.files, id, &change).unwrap();
        self.keep(write)
    }

    fn cards(&self) -> Vec<Card> {
        self.project.load_cards(&self.files).unwrap()
    }

    fn card(&self, id: &str) -> Card {
        self.project.load_card(&self.files, id).unwrap()
    }
}

fn unedited() -> Edit {
    Edit {
        title: None,
        status: None,
        add_labels: Vec::new(),
        remove_labels: Vec::new(),
        add_assignees: Vec::new(),
        remove_assignees: Vec::new(),
    }
}

fn project() -> Board {
    Board::new("Test board", "KB", &["Todo", "Doing", "Done"])
}

#[test]
fn initializes_and_discovers_from_a_child_directory() {
    let board = project();
    let ancestors = ["/demo/src/deep", "/demo/src", "/demo", "/"]
        .iter()
        .map(|path| Ancestor { path: path.to_string(), has_config: *path == "/demo" })
        .collect();
    assert_eq!(Project::discover("/demo/src/deep", &ancestors).unwrap(), board.project.root);
    assert_eq!(board.project.config_path, "/demo/.kbmd/config.yml");
    assert_eq!(board.project.cards_dir, "/demo/.kbmd/cards");
    assert_eq!(kbmd::store::GITIGNORE, ".lock\n*.tmp\n");
    assert!(Project::discover("/tmp", &Vec::new()).is_err());
}

#[test]
fn creates_loads_and_moves_a_card() {
    let mut board = project();
    let created = board.create(CreateCard {
        title: "A flexible card".to_owned(),
        body: "## Release checklist\n\n- [ ] macOS\n".to_owned(),
        labels: vec!["mvp".to_owned()],
        ..CreateCard::default()
    });

    assert_eq!(created.metadata.id, "KB-1");
    assert_eq!(created.metadata.status, "Todo");
    assert!(created.path.ends_with("KB-1.md"));
    assert_eq!(board.cards().len(), 1);

    let write = board.project.move_card(&board.files, "kb-1", "doing").unwrap();
    let moved = board.keep(write);
    assert_eq!(moved.metadata.status, "Doing");
    assert_eq!(board.card("KB-1").metadata.status, "Doing");
}

#[test]
fn preserves_nested_custom_frontmatter_and_unrelated_body() {
    let mut board = project();
    let created = board.create(CreateCard {
        title: "Custom".to_owned(),
        body: "## Strange section\n\nNever discard this.\n".to_owned(),
        extra: Fields::new().with("estimate", "{\"points\":3}"),
        ..CreateCard::default()
    });

    board.change(&created.metadata.id, Change::Move("Done".to_owned()));
    let loaded = board.card("KB-1");
    assert_eq!(loaded.metadata.extra.get("estimate"), Some("{\"points\":3}"));
    assert_eq!(loaded.body, "## Strange section\n\nNever discard this.\n");
}

#[test]
fn creates_in_turn_allocate_unique_ids() {
    let mut board = project();
    let mut ids = Vec::new();
    for index in 0..8 {
        let card = board.create(CreateCard {
            title: format!("Card {index}"),
            ..CreateCard::default()
        });
        ids.push(card.metadata.id);
    }
    ids.sort();
    ids.dedup();

    assert_eq!(ids.len(), 8);
    assert_eq!(board.cards().len(), 8);
}

#[test]
fn doctor_reports_broken_and_duplicate_cards() {
    let mut board = project();
    let card = board.create(CreateCard { title: "Valid".to_owned(), ..CreateCard::default() });
    let mut copy = card.copied();
    copy.path = "/demo/.kbmd/cards/copy.md".to_owned();
    board.files.push(LoadedFile::Card(copy));
    let message = kbmd::frontmatter::parse("not frontmatter").unwrap_err().message();
    board.files.push(LoadedFile::Broken {
        path: "/demo/.kbmd/cards/broken.md".to_owned(),
        message,
    });

    let issues = board.project.validate(&board.files);
    assert_eq!(issues.len(), 3);
    assert!(issues.iter().any(|issue| issue.message.contains("duplicate")));
    assert!(issues.iter().any(|issue| issue.message.contains("frontmatter")));
}

#[test]
fn wip_limits_are_enforced() {
    let mut board = project();
    board.project.config.columns[1].wip_limit = Some(1);
    let first = board.create(CreateCard {
        title: "First".to_owned(),
        status: Some("Doing".to_owned()),
        ..CreateCard::default()
    });
    let second = board.create(CreateCard { title: "Second".to_owned(), ..CreateCard::default() });

    let refused = board.project.move_card(&board.files, &second.metadata.id, "Doing");
    assert!(refused.is_err());
    assert_eq!(board.card(&first.metadata.id).metadata.status, "Doing");
}

#[test]
fn ids_and_ordinals_follow_the_largest() {
    let mut board = project();
    let mut high = board.create(CreateCard { title: "One".to_owned(), ..CreateCard::default() });
    assert_eq!(high.metadata.ordinal, Some(1024));
    high.metadata.id = "kb-41".to_owned();
    high.metadata.ordinal = Some(2500);
    board.files = vec![LoadedFile::Card(high)];
    let next = board.create(CreateCard { title: "Two".to_owned(), ..CreateCard::default() });
    assert_eq!(next.metadata.id, "KB-42");
    assert_eq!(next.metadata.ordinal, Some(3524));
}

#[test]
fn full_columns_and_unknown_statuses_are_refused() {
    let mut board = project();
    board.project.config.columns[0].wip_limit = Some(1);
    board.create(CreateCard { title: "One".to_owned(), ..CreateCard::default() });
    let full = board.project.create_card(
        &board.files,
        CreateCard { title: "Two".to_owned(), ..CreateCard::default() },
    );
    assert!(full.unwrap_err().message().contains("WIP limit"));
    let unknown = board.project.create_card(
        &board.files,
        CreateCard {
            title: "Three".to_owned(),
            status: Some("Nowhere".to_owned()),
            ..CreateCard::default()
        },
    );
    assert!(unknown.unwrap_err().message().contains("unknown status"));
    let untitled = board.project.create_card(&board.files, CreateCard::default());
    assert!(untitled.is_err());
    let reserved = board.project.create_card(
        &board.files,
        CreateCard {
            title: "Four".to_owned(),
            status: Some("Doing".to_owned()),
            extra: Fields::new().with("Status", "1"),
            ..CreateCard::default()
        },
    );
    assert!(reserved.is_err());
}

#[test]
fn labels_are_kept_once() {
    let mut board = project();
    let card = board.create(CreateCard {
        title: "Labels".to_owned(),
        labels: vec![" a ".to_owned(), "b".to_owned(), "A".to_owned(), "".to_owned()],
        ..CreateCard::default()
    });
    assert_eq!(card.metadata.labels, vec!["a".to_owned(), "b".to_owned(), "A".to_owned()]);
}

#[test]
fn cards_are_listed_by_column_and_ordinal() {
    let mut board = project();
    for (title, status) in [("A", "Done"), ("B", "Todo"), ("C", "Doing"), ("D", "Todo")] {
        board.create(CreateCard {
            title: title.to_owned(),
            status: Some(status.to_owned()),
            ..CreateCard::default()
        });
    }
    let titles: Vec<String> = board.cards().into_iter().map(|card| card.metadata.title).collect();
    assert_eq!(titles, vec!["B", "D", "C", "A"]);
}

#[test]
fn a_comment_is_written_to_its_card() {
    let mut board = project();
    board.create(CreateCard { title: "Talk".to_owned(), ..CreateCard::default() });
    let (write, comment) =
        board.project.comment_on_card(&board.files, "KB-1", "Alice", "Hello").unwrap();
    board.keep(write);
    let found = kbmd::comments::parse(&board.card("KB-1").body).unwrap();
    assert_eq!(found, vec![comment]);
    assert!(board.project.comment_on_card(&board.files, "KB-2", "Alice", "Hello").is_err());
    assert!(board.project.comment_on_card(&board.files, "KB-1", "Alice", " ").is_err());
}

#[test]
fn damaged_comments_are_not_written() {
    let mut board = project();
    board.create(CreateCard { title: "Talk".to_owned(), ..CreateCard::default() });
    let change = Change::SetSection {
        heading: "Notes".to_owned(),
        content: "<!-- kbmd:comments:v1 -->\n\n<!-- kbmd:comment:end x -->".to_owned(),
    };
    assert!(board.project.update_card(&board.files, "KB-1", &change).is_err());
}

#[test]
fn only_a_changed_body_is_checked_for_comments() {
    let mut board = project();
    let damaged = "<!-- kbmd:comment:end x -->\n";
    let card = board.create(CreateCard {
        title: "Damaged".to_owned(),
        body: damaged.to_owned(),
        ..CreateCard::default()
    });
    assert_eq!(card.body, damaged.trim_end());
    assert!(kbmd::comments::validate(&card.body).is_err());
    board.change("KB-1", Change::Move("Doing".to_owned()));
    assert_eq!(board.card("KB-1").metadata.status, "Doing");
    let change = Change::SetSection { heading: "Notes".to_owned(), content: "text".to_owned() };
    assert!(board.project.update_card(&board.files, "KB-1", &change).is_err());
    board.create(CreateCard {
        title: "Opaque".to_owned(),
        body: "a\0b".to_owned(),
        ..CreateCard::default()
    });
    assert_eq!(board.card("KB-2").body, "a\0b");
}

#[test]
fn only_a_given_title_is_checked_for_control_characters() {
    let mut board = project();
    let input = CreateCard { title: "a\tb".to_owned(), ..CreateCard::default() };
    let refused = board.project.create_card(&board.files, input).unwrap_err();
    assert_eq!(refused.message(), "card title cannot contain control characters");
    let card = board.create(CreateCard { title: "One".to_owned(), ..CreateCard::default() });
    let mut metadata = card.metadata.copied();
    metadata.title = "a\tb".to_owned();
    board.files = vec![kbmd::store::check_file(card.path, metadata, String::new())];
    assert_eq!(board.card("KB-1").metadata.title, "a\tb");
    board.change("KB-1", Change::Move("Done".to_owned()));
    assert_eq!(board.card("KB-1").metadata.title, "a\tb");
    let edit = Edit { title: Some("c\td".to_owned()), ..unedited() };
    assert!(board.project.update_card(&board.files, "KB-1", &Change::Edit(edit)).is_err());
    let edit = Edit { title: Some(" c ".to_owned()), ..unedited() };
    assert_eq!(board.change("KB-1", Change::Edit(edit)).metadata.title, "c");
}

#[test]
fn dates_are_times_in_utc() {
    let mut board = project();
    let card = board.create(CreateCard { title: "Dated".to_owned(), ..CreateCard::default() });
    for date in [&card.metadata.created_date, &card.metadata.updated_date, &kbmd::model::now()] {
        assert_eq!(date.len(), 20);
        let time = chrono::DateTime::parse_from_rfc3339(date).unwrap();
        assert_eq!(time.offset().local_minus_utc(), 0);
    }
}

#[test]
fn issues_are_told_in_the_order_of_the_paths() {
    let mut board = project();
    for title in ["One", "Two", "Three"] {
        board.create(CreateCard { title: title.to_owned(), ..CreateCard::default() });
    }
    board.project.config.columns[0].wip_limit = Some(2);
    board.files.insert(
        0,
        LoadedFile::Broken {
            path: "/demo/.kbmd/cards/A.md".to_owned(),
            message: "nothing".to_owned(),
        },
    );
    if let LoadedFile::Card(card) = &mut board.files[2] {
        card.metadata.id = "kb-1".to_owned();
    }
    let issues = board.project.validate(&board.files);
    let paths: Vec<&str> = issues.iter().map(|issue| issue.path.as_str()).collect();
    assert_eq!(
        paths,
        vec![
            "/demo/.kbmd/cards",
            "/demo/.kbmd/cards/A.md",
            "/demo/.kbmd/cards/KB-1.md",
            "/demo/.kbmd/cards/KB-2.md",
        ]
    );
}

#[test]
fn fields_are_listed_in_the_order_of_their_names() {
    let fields = Fields::new().with("b", "1").with("a", "2").with("c", "3").with("a", "4");
    assert_eq!(
        fields.entries(),
        vec![
            ("a".to_owned(), "4".to_owned()),
            ("b".to_owned(), "1".to_owned()),
            ("c".to_owned(), "3".to_owned()),
        ]
    );
    assert_eq!(fields.len(), 3);
}

#[test]
fn a_card_is_found_whatever_other_files_hold() {
    let mut board = project();
    board.create(CreateCard { title: "Still readable".to_owned(), ..CreateCard::default() });
    board.files.push(LoadedFile::Broken {
        path: "broken.md".to_owned(),
        message: "nothing".to_owned(),
    });
    assert_eq!(board.card("kb-1").metadata.title, "Still readable");
    assert!(board.project.load_cards(&board.files).is_err());
}

#[test]
fn card_files_are_known_by_their_extension() {
    for name in ["KB-1.md", "a.b.MD", "x.md"] {
        assert!(kbmd::store::is_card_file(name), "{name}");
    }
    for name in [".md", "md", "KB-1.txt", "KB-1.md.tmp", "", "KB-1."] {
        assert!(!kbmd::store::is_card_file(name), "{name}");
    }
}

#[test]
fn files_without_sound_metadata_hold_no_card() {
    let mut board = project();
    let card = board.create(CreateCard { title: "One".to_owned(), ..CreateCard::default() });
    let read = |metadata| {
        kbmd::store::check_file("a.md".to_owned(), metadata, "Body".to_owned())
    };
    assert!(matches!(read(card.metadata.copied()), LoadedFile::Card(_)));
    let mut metadata = card.metadata.copied();
    metadata.title = " ".to_owned();
    assert!(matches!(
        read(metadata),
        LoadedFile::Broken { message, .. }
            if message == "invalid card a.md: card title cannot be empty"
    ));
    let mut metadata = card.metadata.copied();
    metadata.extra = metadata.extra.with("Title", "1");
    assert!(matches!(
        read(metadata),
        LoadedFile::Broken { message, .. } if message.contains("reserved")
    ));
}

#[test]
fn issues_are_arranged_whatever_the_order_of_the_files() {
    let mut board = project();
    for name in ["C", "A", "B"] {
        board.files.push(LoadedFile::Broken {
            path: format!("/demo/.kbmd/cards/{name}.md"),
            message: format!("broken {name}"),
        });
    }
    let told = |board: &Board| {
        board.project.validate(&board.files).into_iter().map(|issue| issue.message).collect::<Vec<_>>()
    };
    assert_eq!(told(&board), vec!["broken A", "broken B", "broken C"]);
    board.files.reverse();
    assert_eq!(told(&board), vec!["broken A", "broken B", "broken C"]);
}
