use kbmd::change::{Change, Edit};
use kbmd::cli::{
    board_text, change_checklist, change_field, change_section, created_text, edit_card, mutation_text,
    CheckCommand, FieldCommand, SectionCommand, ensure_content, ensure_custom_key, field_list_text, field_text, filter_cards,
    filter_items, get_custom_field, init_config, issues_text, items_text, list_comments,
    parse_field_value, parse_yaml_value, plan_add, read_comments, sections_text, show_comment,
    show_section, show_text, split_assignment, table_text, validation_outcome, AddCard,
};
use kbmd::comments::{resolve_author, AuthorVariable};
use kbmd::store::{CardWrite, LoadedFile};
use kbmd::{BoardConfig, Card, CreateCard, Project};
use serde_json::Value;

struct Board {
    project: Project,
    files: Vec<LoadedFile>,
}

impl Board {
    fn new(name: &str, prefix: &str, statuses: &[&str]) -> Board {
        let statuses = statuses.iter().map(|status| status.to_string()).collect();
        let config = BoardConfig::new(name, prefix, statuses);
        Board { project: Project::init("/demo", config, false).unwrap(), files: Vec::new() }
    }

    fn keep(&mut self, write: CardWrite) -> Card {
        let stored = Card {
            metadata: write.card.metadata.copied(),
            body: write.body,
            path: write.card.path.clone(),
        };
        let id = stored.metadata.id.clone();
        self.files.retain(
            |file| !matches!(file, LoadedFile::Card(card) if card.metadata.id == id),
        );
        self.files.push(LoadedFile::Card(stored));
        write.card
    }

    fn create(&mut self, input: CreateCard) -> Card {
        let write = self.project.create_card(&self.files, input).unwrap();
        self.keep(write)
    }

    fn change(&mut self, id: &str, change: Change) -> Card {
        let write = self.project.update_card(&self.files, id, &change).unwrap();
        self.keep(write)
    }

    fn cards(&self) -> Vec<Card> {
        self.project.load_cards(&self.files).unwrap()
    }

    fn card(&self, id: &str) -> Card {
        self.project.load_card(&self.files, id).unwrap()
    }
}

fn initialized() -> Board {
    Board::new("Demo", "DEMO", &["Inbox", "Doing", "Done"])
}

fn adding(title: &str) -> AddCard {
    AddCard {
        title: title.to_owned(),
        status: None,
        body: String::new(),
        labels: Vec::new(),
        assignees: Vec::new(),
        sections: Vec::new(),
        checks: Vec::new(),
        fields: Vec::new(),
        yaml_fields: Vec::new(),
    }
}

fn json(text: &str) -> Value {
    serde_json::from_str(text).unwrap()
}

#[test]
fn assignment_splits_only_once() {
    assert_eq!(
        split_assignment("Notes=a=b", "section").unwrap(),
        ("Notes".to_owned(), "a=b".to_owned())
    );
}

#[test]
fn reserved_keys_cannot_be_custom_fields() {
    assert!(ensure_custom_key("status").is_err());
    assert!(ensure_custom_key("STATUS").is_err());
    assert!(ensure_custom_key("due_date").is_ok());
    assert!(ensure_custom_key("estimate").is_ok());
}

#[test]
fn yaml_values_keep_nested_types() {
    let value = json(&parse_yaml_value("{points: 3, risky: false}").unwrap());
    assert_eq!(value, json("{\"points\": 3, \"risky\": false}"));
}

#[test]
fn complete_card_cli_workflow() {
    let mut board = initialized();
    let mut input = adding("Ship it");
    input.labels = vec!["mvp".to_owned()];
    input.sections = vec!["Plan=Build the thing".to_owned()];
    input.checks = vec!["Release=macOS".to_owned()];
    let created = board.create(plan_add(input).unwrap());
    assert_eq!(created.metadata.id, "DEMO-1");
    assert!(created_text(&created).contains("Created DEMO-1"));

    let listed = table_text(&board.cards());
    assert!(listed.contains("DEMO-1"));
    assert!(listed.contains("[0/1]"));

    board.change("demo-1", Change::Move("doing".to_owned()));
    let shown = show_text(&board.card("DEMO-1")).unwrap();
    assert!(shown.contains("Status: Doing"));
    assert!(shown.contains("## Plan"));
    assert!(shown.contains("## Release"));
}

#[test]
fn arbitrary_sections_and_checklists_are_editable() {
    let mut board = initialized();
    board.create(plan_add(adding("Flexible")).unwrap());
    let section = || "Launch ritual".to_owned();
    board.change(
        "DEMO-1",
        Change::SetSection { heading: section(), content: "Watch the metrics.".to_owned() },
    );
    board.change(
        "DEMO-1",
        Change::AddItem { section: section(), text: "Notify support".to_owned() },
    );
    board.change("DEMO-1", Change::SetItem { section: section(), index: 1, checked: true });

    let shown = show_section(&board.card("DEMO-1").body, "Launch ritual").unwrap();
    assert!(shown.contains("Watch the metrics."));
    assert!(shown.contains("- [x] Notify support"));
}

#[test]
fn custom_fields_keep_string_and_typed_yaml_semantics() {
    let mut board = initialized();
    let mut input = adding("Fields");
    input.fields = vec!["team=007".to_owned()];
    board.create(plan_add(input).unwrap());
    let value = parse_field_value("{points: 3, risky: false}", true).unwrap();
    board.change("DEMO-1", Change::SetField { key: "estimate".to_owned(), value });

    let card = board.card("DEMO-1");
    assert_eq!(json(card.metadata.extra.get("team").unwrap()), "007");
    let estimate = json(card.metadata.extra.get("estimate").unwrap());
    assert_eq!(estimate["points"], 3);
    assert_eq!(estimate["risky"], false);
}

#[test]
fn body_can_be_read_from_stdin() {
    let mut board = initialized();
    let mut input = adding("Piped");
    input.body = "## Any heading\n\n- [ ] Any checklist\n".to_owned();
    board.create(plan_add(input).unwrap());
    assert!(board.card("DEMO-1").body.contains("## Any heading"));
}

#[test]
fn invalid_status_does_not_create_a_card() {
    let board = initialized();
    let mut input = adding("Nope");
    input.status = Some("Unknown".to_owned());
    let refused = board.project.create_card(&board.files, plan_add(input).unwrap());
    assert!(refused.unwrap_err().message().contains("unknown status"));
}

#[test]
fn validation_reports_malformed_files() {
    let mut board = initialized();
    let message = kbmd::frontmatter::parse("not frontmatter\n").unwrap_err().message();
    board.files.push(LoadedFile::Broken {
        path: "/demo/.kbmd/cards/broken.md".to_owned(),
        message,
    });
    let issues = board.project.validate(&board.files);
    assert!(issues_text(&issues).contains("broken.md"));
    assert!(validation_outcome(&issues).unwrap_err().message().contains("1 issue"));
    assert!(validation_outcome(&Vec::new()).is_ok());
}

#[test]
fn read_only_show_survives_an_unrelated_malformed_card() {
    let mut board = initialized();
    board.create(plan_add(adding("Still readable")).unwrap());
    board.files.push(LoadedFile::Broken {
        path: "/demo/.kbmd/cards/broken.md".to_owned(),
        message: "not frontmatter".to_owned(),
    });
    let card = board.card("DEMO-1");
    assert!(show_text(&card).unwrap().contains("Still readable"));
    assert!(card.path.contains("DEMO-1.md"));
}

#[test]
fn failed_checklist_mutation_leaves_file_unchanged() {
    let mut board = initialized();
    let mut input = adding("Safe");
    input.checks = vec!["Release=Existing".to_owned()];
    board.create(plan_add(input).unwrap());
    let before = board.card("DEMO-1");
    let change = Change::ToggleItem { section: "Release".to_owned(), index: 99 };
    let refused = board.project.update_card(&board.files, "DEMO-1", &change);
    assert!(refused.unwrap_err().message().contains("was not found"));
    assert_eq!(board.card("DEMO-1").body, before.body);
    assert_eq!(board.card("DEMO-1").metadata, before.metadata);
}

#[test]
fn valid_noncanonical_status_casing_still_appears_everywhere() {
    let mut board = initialized();
    let mut input = adding("Manual casing");
    input.status = Some("Doing".to_owned());
    let mut card = board.create(plan_add(input).unwrap());
    card.metadata.status = "doing".to_owned();
    board.files = vec![LoadedFile::Card(card)];
    assert!(board.project.validate(&board.files).is_empty());
    let cards = board.cards();
    let kept = filter_cards(&cards, &board.project.config, &Some("Doing".to_owned()), &None);
    assert!(table_text(&kept.unwrap()).contains("DEMO-1"));
    assert!(board_text(&board.project.config, &cards).contains("Doing (1)\n"));
}

#[test]
fn init_defaults_to_current_directory_name_and_normalizes_prefix() {
    let config = init_config(
        &None,
        &Some("somewhere".to_owned()),
        " KB ",
        vec!["Todo".to_owned(), "Done".to_owned()],
    );
    assert_eq!(config.name, "somewhere");
    let project = Project::init("/demo", config, false).unwrap();
    let created = project.create_card(&Vec::new(), plan_add(adding("Normalized")).unwrap());
    let created = created.unwrap().card;
    assert_eq!(created.metadata.id, "KB-1");
    assert_eq!(created.path, "/demo/.kbmd/cards/KB-1.md");
    let unnamed = init_config(&None, &None, "KB", vec!["Todo".to_owned()]);
    assert_eq!(unnamed.name, "Kanban");
}

#[test]
fn help_advertises_the_tui_and_display_controls_are_rejected() {
    let board = initialized();
    let input = plan_add(adding("first line\nsecond line")).unwrap();
    let refused = board.project.create_card(&board.files, input);
    assert!(refused.unwrap_err().message().contains("control characters"));
}

#[test]
fn global_checklist_commands_can_mutate_preamble_items() {
    let mut board = initialized();
    let mut input = adding("Preamble");
    input.body = "- [ ] first\n- [ ] second\n".to_owned();
    board.create(plan_add(input).unwrap());
    board.change("DEMO-1", Change::SetGlobal { index: 1, checked: true });
    board.change("DEMO-1", Change::ToggleGlobal { index: 2 });
    board.change("DEMO-1", Change::SetGlobal { index: 1, checked: false });
    board.change("DEMO-1", Change::RemoveGlobal { index: 1 });

    let body = board.card("DEMO-1").body;
    assert!(body.contains("- [x] second"));
    assert!(!body.contains("first"));
}

#[test]
fn markdown_and_field_values_may_begin_with_hyphens() {
    let mut board = initialized();
    board.create(plan_add(adding("Hyphen values")).unwrap());
    board.change(
        "DEMO-1",
        Change::SetSection { heading: "Plan".to_owned(), content: "- [ ] first".to_owned() },
    );
    board.change(
        "DEMO-1",
        Change::AddItem { section: "Plan".to_owned(), text: "- follow-up".to_owned() },
    );
    let value = parse_field_value("-1", true).unwrap();
    board.change("DEMO-1", Change::SetField { key: "offset".to_owned(), value });

    let card = board.card("DEMO-1");
    assert_eq!(json(card.metadata.extra.get("offset").unwrap()), -1);
    assert!(card.body.contains("- [ ] - follow-up"));
}

#[test]
fn comment_author_resolution_prefers_explicit_then_environment() {
    let mut board = initialized();
    board.create(plan_add(adding("Authors")).unwrap());
    let variable = AuthorVariable::Value("Environment Author".to_owned());
    let author = resolve_author(None, &variable, None).unwrap();
    let (write, comment) =
        board.project.comment_on_card(&board.files, "DEMO-1", &author, "from env").unwrap();
    board.keep(write);
    assert_eq!(comment.author, "Environment Author");

    let author = resolve_author(Some("Explicit Author"), &variable, None).unwrap();
    let (_, comment) =
        board.project.comment_on_card(&board.files, "DEMO-1", &author, "explicit wins").unwrap();
    assert_eq!(comment.author, "Explicit Author");

    let broken = AuthorVariable::Value("bad\nname".to_owned());
    let refused = resolve_author(None, &broken, None).unwrap_err();
    assert!(refused.message().contains("invalid KBMD_AUTHOR"));
}

#[test]
fn generic_markdown_commands_cannot_damage_comments() {
    let mut board = initialized();
    let mut input = adding("Protected");
    input.body =
        "# Project\n\n- [ ] real task\n\n## Comments\n\nLegacy context\n".to_owned();
    board.create(plan_add(input).unwrap());
    let (write, _) = board
        .project
        .comment_on_card(&board.files, "DEMO-1", "Alice", "- [ ] discussion only")
        .unwrap();
    board.keep(write);
    board.change("DEMO-1", Change::ToggleItem { section: "Project".to_owned(), index: 1 });
    board.change("DEMO-1", Change::ToggleGlobal { index: 1 });
    board.change(
        "DEMO-1",
        Change::AddItem { section: "Project".to_owned(), text: "second task".to_owned() },
    );
    let before = board.card("DEMO-1").body;
    let refused = [
        Change::SetSection { heading: "Project".to_owned(), content: "replacement".to_owned() },
        Change::RemoveSection { heading: "Project".to_owned() },
        Change::SetSection { heading: "Comments".to_owned(), content: "replacement".to_owned() },
        Change::RemoveSection { heading: "Comments".to_owned() },
        Change::AddItem { section: "Comments".to_owned(), text: "unsafe".to_owned() },
        Change::SetSection {
            heading: "Notes".to_owned(),
            content: "<!-- kbmd:comments:v1 -->".to_owned(),
        },
    ];
    for change in &refused {
        assert!(board.project.update_card(&board.files, "DEMO-1", change).is_err());
    }
    assert_eq!(board.card("DEMO-1").body, before);
    let items = filter_items(&before, &None);
    assert!(items.iter().all(|item| item.text != "discussion only"));
    assert_eq!(items.len(), 2);
}

#[test]
fn malformed_requested_comments_are_reported_by_path() {
    let mut board = initialized();
    board.create(plan_add(adding("Broken discussion")).unwrap());
    let (write, _) = board
        .project
        .comment_on_card(&board.files, "DEMO-1", "Alice", "Will be malformed")
        .unwrap();
    let mut card = board.keep(write);
    card.body = card
        .body
        .lines()
        .filter(|line| !line.starts_with("<!-- kbmd:comment:end "))
        .collect::<Vec<_>>()
        .join("\n");
    board.files = vec![LoadedFile::Card(card)];
    let refused = read_comments(&board.card("DEMO-1")).unwrap_err().message();
    assert!(refused.contains("DEMO-1.md"));
    assert!(refused.contains("no matching end marker"));
    let issues = board.project.validate(&board.files);
    assert_eq!(issues.len(), 1);
    assert!(issues[0].path.contains("DEMO-1.md"));
    assert!(issues[0].message.contains("no matching end marker"));
    let told = issues_text(&issues);
    assert!(told.contains("DEMO-1.md"));
    assert!(told.contains("no matching end marker"));
}

#[test]
fn numbers_keep_all_their_digits() {
    let value = parse_yaml_value("31.245270191439438").unwrap();
    assert_eq!(value, "31.245270191439438");
    let mut board = initialized();
    let mut input = adding("Measured");
    input.yaml_fields = vec!["mass=31.245270191439438".to_owned()];
    let created = board.create(plan_add(input).unwrap());
    assert!(show_text(&created).unwrap().contains("31.245270191439438"));
}

#[test]
fn flat_comments_are_listed_in_order() {
    let mut board = initialized();
    board.create(plan_add(adding("Discuss")).unwrap());
    assert_eq!(list_comments(&read_comments(&board.card("DEMO-1")).unwrap()), "No comments.\n");
    for (author, text) in [("Alice", "First observation"), ("Bob", "### A heading\n\nText")] {
        let (write, _) =
            board.project.comment_on_card(&board.files, "DEMO-1", author, text).unwrap();
        board.keep(write);
    }
    let comments = read_comments(&board.card("DEMO-1")).unwrap();
    assert_eq!(comments.len(), 2);
    let first = show_comment(&comments[0]);
    assert_eq!(
        first,
        format!("{} — Alice — {}\n\nFirst observation\n", comments[0].id, comments[0].created_at)
    );
    assert_eq!(list_comments(&comments), format!("{first}\n{}", show_comment(&comments[1])));
}

#[test]
fn texts_are_exact() {
    let mut board = initialized();
    let mut input = adding("One");
    input.checks = vec!["Do=a".to_owned(), "Do=b".to_owned()];
    board.create(plan_add(input).unwrap());
    board.change("DEMO-1", Change::SetGlobal { index: 1, checked: true });
    let cards = board.cards();
    assert_eq!(
        board_text(&board.project.config, &cards),
        "Demo\n\nInbox (1)\n  DEMO-1     One [1/2]\n\nDoing (0)\n  ·\n\nDone (0)\n  ·\n"
    );
    assert_eq!(
        table_text(&cards),
        "ID      STATUS  TITLE\nDEMO-1  Inbox   One [1/2]\n"
    );
    assert_eq!(table_text(&Vec::new()), "No cards.\n");
    assert_eq!(
        show_text(&cards[0]).unwrap(),
        "DEMO-1 — One\nStatus: Inbox\nChecklist: 1/2\n\n## Do\n\n- [x] a\n- [ ] b\n"
    );
}

#[test]
fn sections_and_items_are_listed() {
    let body = "## Plan\n\n- [ ] a\n\n### Detail\n\n- [x] b\n";
    let listed = sections_text(body);
    assert!(listed.contains("Plan"));
    assert!(listed.contains("Detail"));
    let some = filter_items(body, &Some("detail".to_owned()));
    assert_eq!(some.len(), 1);
    assert!(items_text(&some).contains("[x] b"));
    assert!(show_section(body, "Missing").is_err());
    assert!(ensure_content(" \n").is_err());
    assert!(ensure_content("x").is_ok());
}

#[test]
fn fields_are_shown() {
    let mut board = initialized();
    let mut input = adding("Fields");
    input.yaml_fields = vec!["points=3".to_owned()];
    input.fields = vec!["team=red".to_owned()];
    board.create(plan_add(input).unwrap());
    let card = board.card("DEMO-1");
    assert_eq!(get_custom_field(&card, "points").unwrap(), "3");
    assert_eq!(field_text(&card, "points").unwrap().trim_end(), "3");
    assert!(get_custom_field(&card, "missing").is_err());
    let listed = field_list_text(&card.metadata.extra).unwrap();
    assert!(listed.contains("points: 3"));
    assert!(listed.contains("team: red"));
    board.change("DEMO-1", Change::UnsetField { key: "points".to_owned() });
    assert!(get_custom_field(&board.card("DEMO-1"), "points").is_err());
    assert!(parse_field_value("[", true).is_err());
    assert_eq!(parse_field_value("[", false).unwrap(), "\"[\"");
}

#[test]
fn editing_changes_title_status_and_lists() {
    let mut board = initialized();
    let mut input = adding("Old");
    input.labels = vec!["a".to_owned(), "b".to_owned()];
    board.create(plan_add(input).unwrap());
    let edit = Edit {
        title: Some("New".to_owned()),
        status: Some("done".to_owned()),
        add_labels: vec!["c".to_owned(), "A".to_owned()],
        remove_labels: vec!["B".to_owned()],
        add_assignees: vec!["me".to_owned()],
        remove_assignees: Vec::new(),
    };
    let card = board.change("DEMO-1", Change::Edit(edit));
    assert_eq!(card.metadata.title, "New");
    assert_eq!(card.metadata.status, "Done");
    assert_eq!(card.metadata.labels, vec!["a".to_owned(), "c".to_owned()]);
    assert_eq!(card.metadata.assignees, vec!["me".to_owned()]);
}

#[test]
fn bad_definitions_are_refused() {
    assert!(split_assignment("nothing", "field").is_err());
    assert!(split_assignment(" =x", "field").is_err());
    let mut input = adding("Bad");
    input.fields = vec!["status=x".to_owned()];
    assert!(plan_add(input).is_err());
    let mut input = adding("Bad");
    input.yaml_fields = vec!["points=[".to_owned()];
    assert!(plan_add(input).is_err());
    let mut input = adding("Bad");
    input.sections = vec!["no assignment".to_owned()];
    assert!(plan_add(input).is_err());
    let mut input = adding("Bad");
    input.checks = vec!["Do= ".to_owned()];
    assert!(plan_add(input).is_err());
}

#[test]
fn checklist_commands_change_and_answer() {
    let mut board = initialized();
    let mut input = adding("Checks");
    input.checks = vec!["Do=a".to_owned(), "Do=b".to_owned()];
    let created = board.create(plan_add(input).unwrap());
    assert_eq!(
        created_text(&created),
        "Created DEMO-1 — Checks\n/demo/.kbmd/cards/DEMO-1.md\n"
    );
    assert_eq!(mutation_text(&created, "Moved"), "Moved DEMO-1 — Checks\n");
    let section = || "Do".to_owned();
    let steps = [
        (CheckCommand::Check { section: section(), index: 1 }, "xb "),
        (CheckCommand::Toggle { section: section(), index: 2 }, "xbx"),
        (CheckCommand::Uncheck { section: section(), index: 1 }, " bx"),
        (CheckCommand::CheckGlobal { index: 1 }, "xbx"),
        (CheckCommand::UncheckGlobal { index: 2 }, "xb "),
        (CheckCommand::ToggleGlobal { index: 1 }, " b "),
    ];
    for (command, states) in steps {
        let global = matches!(
            command,
            CheckCommand::CheckGlobal { .. }
                | CheckCommand::UncheckGlobal { .. }
                | CheckCommand::ToggleGlobal { .. }
        );
        let (write, answer) =
            change_checklist(&board.project, &board.files, "demo-1", command).unwrap();
        let name = if global { "global" } else { "Do" };
        assert_eq!(answer, format!("Updated checklist \"{name}\" on DEMO-1\n"));
        board.keep(write);
        let items = filter_items(&board.card("DEMO-1").body, &None);
        let marks: Vec<&str> =
            items.iter().map(|item| if item.checked { "x" } else { " " }).collect();
        assert_eq!(marks.join("b"), states);
    }
    let remove = CheckCommand::RemoveGlobal { index: 1 };
    let (write, _) = change_checklist(&board.project, &board.files, "DEMO-1", remove).unwrap();
    board.keep(write);
    let add = CheckCommand::Add { section: section(), text: "c".to_owned() };
    let (write, _) = change_checklist(&board.project, &board.files, "DEMO-1", add).unwrap();
    board.keep(write);
    let remove = CheckCommand::Remove { section: section(), index: 1 };
    let (write, _) = change_checklist(&board.project, &board.files, "DEMO-1", remove).unwrap();
    board.keep(write);
    let items = filter_items(&board.card("DEMO-1").body, &None);
    assert_eq!(items.len(), 1);
    assert_eq!(items[0].text, "c");
}

#[test]
fn section_field_and_edit_commands_change_and_answer() {
    let mut board = initialized();
    board.create(plan_add(adding("Commands")).unwrap());
    let heading = || "Plan \"A\"".to_owned();
    let set = SectionCommand::Replace { heading: heading(), content: "one".to_owned() };
    let (write, answer) = change_section(&board.project, &board.files, "DEMO-1", set).unwrap();
    assert_eq!(answer, "Set section \"Plan \\\"A\\\"\" on DEMO-1\n");
    board.keep(write);
    let append = SectionCommand::Append { heading: heading(), content: "two".to_owned() };
    let (write, answer) = change_section(&board.project, &board.files, "DEMO-1", append).unwrap();
    assert!(answer.starts_with("Appended to section "));
    board.keep(write);
    assert_eq!(show_section(&board.card("DEMO-1").body, &heading()).unwrap(), "one\n\ntwo");
    let nothing = SectionCommand::Append { heading: heading(), content: " ".to_owned() };
    assert!(change_section(&board.project, &board.files, "DEMO-1", nothing).is_err());
    let remove = SectionCommand::Remove { heading: heading() };
    let (write, answer) = change_section(&board.project, &board.files, "DEMO-1", remove).unwrap();
    assert!(answer.starts_with("Removed section "));
    board.keep(write);

    let assign = |key: &str, value: &str, yaml: bool| FieldCommand::Assign {
        key: key.to_owned(),
        value: value.to_owned(),
        yaml,
    };
    let points = assign("points", "3", true);
    let (write, answer) = change_field(&board.project, &board.files, "DEMO-1", points).unwrap();
    assert_eq!(answer, "Set points on DEMO-1\n");
    board.keep(write);
    assert_eq!(board.card("DEMO-1").metadata.extra.get("points"), Some("3"));
    for refused in [assign("status", "x", false), assign("x", "[", true), assign(" ", "x", false)] {
        assert!(change_field(&board.project, &board.files, "DEMO-1", refused).is_err());
    }
    let unset = || FieldCommand::Unset { key: "points".to_owned() };
    let (write, answer) = change_field(&board.project, &board.files, "DEMO-1", unset()).unwrap();
    assert_eq!(answer, "Removed points from DEMO-1\n");
    board.keep(write);
    assert!(change_field(&board.project, &board.files, "DEMO-1", unset()).is_err());

    let edit = |title: Option<String>| Edit {
        title,
        status: None,
        add_labels: Vec::new(),
        remove_labels: Vec::new(),
        add_assignees: Vec::new(),
        remove_assignees: Vec::new(),
    };
    let refused = edit_card(&board.project, &board.files, "DEMO-1", edit(None)).unwrap_err();
    assert_eq!(refused.message(), "no edits were supplied");
    let write = edit_card(&board.project, &board.files, "DEMO-1", edit(Some(" New ".to_owned())));
    assert_eq!(write.unwrap().card.metadata.title, "New");
}
