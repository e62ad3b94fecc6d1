use kbmd::comments;
use kbmd::markdown::{
    add_checklist_item, append_section, checklist_items, remove_checklist_global,
    remove_checklist_item, remove_section, section_content, sections, set_checklist_global,
    set_checklist_item, set_section, toggle_checklist_global, toggle_checklist_item,
};

const BODY: &str = "Intro\n\n## Plan\n\n- [ ] First\n- [x] Second\n\n### Detail\n\n- [ ] Nested\n\n## Notes\n\nKeep this\n";

#[test]
fn finds_sections_and_nested_boundaries() {
    let found = sections(BODY);
    assert_eq!(
        found
            .iter()
            .map(|section| (&*section.title, section.level))
            .collect::<Vec<_>>(),
        vec![("Plan", 2), ("Detail", 3), ("Notes", 2)]
    );
    assert_eq!(
        section_content(BODY, "plan").unwrap().unwrap(),
        "- [ ] First\n- [x] Second\n\n### Detail\n\n- [ ] Nested"
    );
}

#[test]
fn ignores_headings_and_checkboxes_inside_fences() {
    let body = "## Real\n\n```md\n## Fake\n- [ ] fake\n```still code\n## Also fake\n```\n\n- [ ] real\n";
    assert_eq!(sections(body).len(), 1);
    let items = checklist_items(body);
    assert_eq!(items.len(), 1);
    assert_eq!(items[0].text, "real");
}

#[test]
fn arbitrary_section_mutations_leave_neighbors() {
    let set = set_section(BODY, "Plan", "A new plan").unwrap();
    assert_eq!(
        section_content(&set, "Plan").unwrap().unwrap(),
        "A new plan"
    );
    assert_eq!(
        section_content(&set, "Notes").unwrap().unwrap(),
        "Keep this"
    );

    let appended = append_section(&set, "Ideas", "Try one").unwrap();
    assert_eq!(
        section_content(&appended, "Ideas").unwrap().unwrap(),
        "Try one"
    );

    let removed = remove_section(&appended, "Plan").unwrap();
    assert!(section_content(&removed, "Plan").unwrap().is_none());
    assert_eq!(
        section_content(&removed, "Notes").unwrap().unwrap(),
        "Keep this"
    );
}

#[test]
fn supports_checklists_in_any_section() {
    let toggled = toggle_checklist_item(BODY, "Plan", 1).unwrap();
    assert!(checklist_items(&toggled)[0].checked);

    let added = add_checklist_item(&toggled, "Notes", "Call Alice").unwrap();
    let note_item = checklist_items(&added)
        .into_iter()
        .find(|item| item.section.as_deref() == Some("Notes"))
        .unwrap();
    assert_eq!(note_item.text, "Call Alice");

    let adjacent = add_checklist_item(&toggled, "Plan", "Third").unwrap();
    assert!(adjacent.contains("- [x] First\n- [x] Second\n- [ ] Third\n\n### Detail"));
    assert_eq!(
        checklist_items(&adjacent)
            .iter()
            .filter(|item| item.section.as_deref() == Some("Plan"))
            .count(),
        3
    );

    let removed = remove_checklist_item(&added, "Plan", 2).unwrap();
    assert_eq!(
        checklist_items(&removed)
            .into_iter()
            .filter(|item| item.section.as_deref() == Some("Plan"))
            .count(),
        1
    );
}

#[test]
fn duplicate_section_names_fail_closed() {
    let body = "## Notes\nOne\n\n## notes\nTwo\n";
    assert!(set_section(body, "Notes", "unsafe").is_err());
    assert!(toggle_checklist_item(body, "Notes", 1).is_err());
}

#[test]
fn global_toggle_changes_only_one_state_byte() {
    let toggled = toggle_checklist_global(BODY, 2).unwrap();
    assert_eq!(toggled, BODY.replacen("- [x] Second", "- [ ] Second", 1));

    let checked = set_checklist_global(&toggled, 2, true).unwrap();
    assert_eq!(checked, BODY);

    let removed = remove_checklist_global(BODY, 2).unwrap();
    assert!(!removed.contains("Second"));
    assert!(removed.contains("First"));
}

#[test]
fn preserves_hashes_that_are_part_of_heading_text() {
    let body = "## C#\n\nText\n\n## Closed heading ###\n";
    let found = sections(body);
    assert_eq!(found[0].title, "C#");
    assert_eq!(found[1].title, "Closed heading");
}

#[test]
fn parses_ordered_and_spaced_task_list_markers() {
    let body = "## Checks\n\n1. [ ] ordered\n-   [X] spaced\n* [ ] ordinary\n";
    let items = checklist_items(body);
    assert_eq!(items.len(), 3);
    assert_eq!(items[0].text, "ordered");
    assert!(items[1].checked);

    let toggled = toggle_checklist_global(body, 1).unwrap();
    assert!(toggled.contains("1. [x] ordered"));
}

#[test]
fn ignores_indented_code_but_keeps_real_nested_task_lists() {
    let body = "## Real\n\n    ## code heading\n    - [ ] literal code\n\n- parent\n  - [ ] nested task\n";
    let found = sections(body);
    assert_eq!(found.len(), 1);
    assert_eq!(found[0].title, "Real");
    let items = checklist_items(body);
    assert_eq!(items.len(), 1);
    assert_eq!(items[0].text, "nested task");
}

#[test]
fn indented_fence_literal_does_not_hide_later_structure() {
    let body = "    ```literal indented code\n## Real heading\n\n- [ ] real task\n";
    let found = sections(body);
    assert_eq!(found.len(), 1);
    assert_eq!(found[0].title, "Real heading");
    let items = checklist_items(body);
    assert_eq!(items.len(), 1);
    assert_eq!(items[0].text, "real task");
}

#[test]
fn unsupported_control_bytes_are_treated_as_opaque() {
    let body = "## Before\n\0\n- [ ] unsafe";
    assert!(sections(body).is_empty());
    assert!(checklist_items(body).is_empty());
}

#[test]
fn comment_markdown_is_opaque_to_sections_and_checklists() {
    let base = "# Project\n\n- [ ] real task\n\n## Comments\n\nLegacy context\n";
    let (body, comment) = comments::append(
        base,
        "Alice",
        "### Suggested work\n\n- [ ] this is discussion, not a task",
    )
    .unwrap();

    assert_eq!(
        sections(&body)
            .iter()
            .map(|section| section.title.as_str())
            .collect::<Vec<_>>(),
        vec!["Project", "Comments"]
    );
    let items = checklist_items(&body);
    assert_eq!(items.len(), 1);
    assert_eq!(items[0].text, "real task");
    assert_eq!(
        comments::find(&body, &comment.id).unwrap().body,
        comment.body
    );
}

#[test]
fn parent_checklists_remain_editable_while_comment_section_is_protected() {
    let base = "# Project\n\n- [ ] real task\n\n## Comments\n\nLegacy context\n";
    let (body, comment) = comments::append(base, "Alice", "- [ ] discussion only").unwrap();

    let toggled = toggle_checklist_item(&body, "Project", 1).unwrap();
    assert!(checklist_items(&toggled)[0].checked);
    let globally_toggled = toggle_checklist_global(&toggled, 1).unwrap();
    assert!(!checklist_items(&globally_toggled)[0].checked);
    let added = add_checklist_item(&globally_toggled, "Project", "second real task").unwrap();
    assert_eq!(checklist_items(&added).len(), 2);
    assert_eq!(
        comments::find(&added, &comment.id).unwrap().body,
        "- [ ] discussion only"
    );

    assert!(set_section(&body, "Project", "replacement").is_err());
    assert!(remove_section(&body, "Project").is_err());
    assert!(set_section(&body, "Comments", "replacement").is_err());
    assert!(add_checklist_item(&body, "Comments", "unsafe").is_err());
}

#[test]
fn adopted_comment_section_checkboxes_are_not_presented_as_card_work() {
    let base = "## Comments\n\n- [ ] legacy discussion checkbox\n";
    let (body, _) = comments::append(base, "Alice", "A normal comment").unwrap();

    assert!(checklist_items(&body).is_empty());
    assert!(toggle_checklist_global(&body, 1).is_err());
    assert!(toggle_checklist_item(&body, "Comments", 1).is_err());
}

#[test]
fn unclosed_comment_markup_does_not_change_neighboring_markdown_structure() {
    let base = "# Project\n\n- [ ] project task\n\n## Comments\n\nLegacy.\n\n## Notes\n\n- [ ] notes task\n";
    for text in ["```md\nunclosed", "<script>\nunclosed", "<style>\nunclosed"] {
        let (body, _) = comments::append(base, "Alice", text).unwrap();
        assert_eq!(
            sections(&body)
                .iter()
                .map(|section| section.title.as_str())
                .collect::<Vec<_>>(),
            vec!["Project", "Comments", "Notes"],
            "comment: {text}"
        );
        assert_eq!(
            checklist_items(&body)
                .iter()
                .map(|item| item.text.as_str())
                .collect::<Vec<_>>(),
            vec!["project task", "notes task"],
            "comment: {text}"
        );
    }
}

#[test]
fn items_carry_their_place() {
    let items = checklist_items(BODY);
    assert_eq!(items.len(), 3);
    assert_eq!(
        items
            .iter()
            .map(|item| (item.section.as_deref(), item.index, item.global_index, item.line_number))
            .collect::<Vec<_>>(),
        vec![
            (Some("Plan"), 1, 1, 5),
            (Some("Plan"), 2, 2, 6),
            (Some("Detail"), 1, 3, 10),
        ]
    );
}

#[test]
fn turning_an_item_over_and_back_restores_the_body() {
    let turned = toggle_checklist_global(BODY, 1).unwrap();
    assert_ne!(turned, BODY);
    assert_eq!(turned.len(), BODY.len());
    assert_eq!(toggle_checklist_global(&turned, 1).unwrap(), BODY);
    assert_eq!(set_checklist_item(BODY, "Plan", 1, true).unwrap(), turned);
    assert_eq!(set_checklist_item(BODY, "Plan", 2, true).unwrap(), BODY);
}

#[test]
fn removing_a_section_leaves_one_line_ending() {
    assert_eq!(remove_section("## A\n\nx\n\n## B\n\ny\n", "A").unwrap(), "## B\n\ny\n");
    assert_eq!(remove_section("## A\n\nx\n\n## B\n\ny\n", "B").unwrap(), "## A\n\nx\n");
    assert_eq!(remove_section("Intro\n\n## A\n\nx", "A").unwrap(), "Intro");
    assert_eq!(remove_section("## A\n\nx\n", "A").unwrap(), "");
}

#[test]
fn replacing_a_section_keeps_every_other_byte() {
    let body = "Intro\n\n## A\nold\n\n\n## B\n\ny";
    assert_eq!(
        set_section(body, "A", "\nnew\n").unwrap(),
        "Intro\n\n## A\n\nnew\n\n## B\n\ny"
    );
    assert_eq!(set_section(body, "A", " ").unwrap(), "Intro\n\n## A\n\n## B\n\ny");
    assert_eq!(
        set_section(body, "B", "z").unwrap(),
        "Intro\n\n## A\nold\n\n\n## B\n\nz\n"
    );
}

#[test]
fn items_are_counted_under_the_deepest_heading() {
    let body = "- [ ]  loose \n\n## A\n\n- [ ] one\n\n### B\n\n- [X] two\n\n## A\n\n- [x] three\n";
    let items = checklist_items(body);
    assert_eq!(
        items
            .iter()
            .map(|item| {
                (item.section.as_deref(), item.index, item.line_number, item.text.as_str(), item.checked)
            })
            .collect::<Vec<_>>(),
        vec![
            (None, 1, 1, "loose", false),
            (Some("A"), 1, 5, "one", false),
            (Some("B"), 1, 9, "two", true),
            (Some("A"), 1, 13, "three", true),
        ]
    );
    assert!(toggle_checklist_item(body, "A", 1).is_err());
    assert_eq!(
        toggle_checklist_item(body, "b", 1).unwrap(),
        toggle_checklist_global(body, 3).unwrap()
    );
    assert_eq!(
        set_checklist_global(body, 3, false).unwrap(),
        toggle_checklist_global(body, 3).unwrap()
    );
}

#[test]
fn setting_an_item_leaves_the_others() {
    let before = checklist_items(BODY);
    let set = set_checklist_global(BODY, 1, true).unwrap();
    assert_eq!(set_checklist_global(&set, 1, true).unwrap(), set);
    let after = checklist_items(&set);
    assert_eq!(after.len(), before.len());
    assert!(after[0].checked && !before[0].checked);
    assert_eq!(after[1..], before[1..]);
    assert_eq!(sections(&set), sections(BODY));
}

#[test]
fn every_item_can_be_turned_over() {
    let comments = "## Comments\n\n<!-- kbmd:comments:v1 -->\n\n- [ ] hidden\n\n### More\n\n- [ ] too\n";
    let body = format!("- [ ] a\n\n{comments}\n## Last\n\n- [ ] b");
    let items = checklist_items(&body);
    assert_eq!(items.iter().map(|item| item.text.as_str()).collect::<Vec<_>>(), vec!["a", "b"]);
    for number in 1..=items.len() {
        assert!(toggle_checklist_global(&body, number).is_ok());
    }
    assert!(toggle_checklist_global(&body, 0).is_err());
    assert!(toggle_checklist_global(&body, 3).is_err());
}

#[test]
fn missing_items_and_sections_are_told() {
    assert_eq!(
        toggle_checklist_global(BODY, 9).unwrap_err().message(),
        "checklist item 9 was not found"
    );
    assert!(toggle_checklist_item(BODY, "Plan", 9).unwrap_err().message().contains("was not found"));
    assert!(remove_section(BODY, "Missing").unwrap_err().message().contains("was not found"));
    assert!(add_checklist_item(BODY, "Plan", "  ").is_err());
    assert!(set_section(BODY, "a\nb", "text").is_err());
}

#[test]
fn sections_are_given_in_bytes() {
    let body = "Öl\n\n## Plan\n\nText\n";
    let found = sections(body);
    assert_eq!(found.len(), 1);
    assert_eq!(&body[found[0].start..found[0].end], "## Plan\n\nText\n");
    assert_eq!(&body[found[0].content_start..found[0].end], "\nText\n");
}

#[test]
fn a_set_section_gives_back_its_content() {
    let set = set_section(BODY, " plan ", "\n\nNew\n\n### Part\n\nplan\n\n").unwrap();
    assert_eq!(section_content(&set, "Plan").unwrap().unwrap(), "New\n\n### Part\n\nplan");
    assert_eq!(section_content(&set, "Part").unwrap().unwrap(), "plan");
    assert_eq!(section_content(&set, "Notes").unwrap().unwrap(), "Keep this");
    assert_eq!(section_content(&set, "Detail").unwrap(), None);
    assert_eq!(set_section(&set, "Plan", "New\n\n### Part\n\nplan").unwrap(), set);

    let bare = set_section("## Plan", "Plan", "One").unwrap();
    assert_eq!(section_content(&bare, "Plan").unwrap().unwrap(), "One");
    let again = set_section(&bare, "Plan", "One").unwrap();
    assert_eq!(section_content(&again, "Plan").unwrap().unwrap(), "One");

    let new = set_section(BODY, "Ideas", "Try one\n").unwrap();
    assert_eq!(section_content(&new, "Ideas").unwrap().unwrap(), "Try one");
    for title in ["Plan", "Detail", "Notes"] {
        assert_eq!(section_content(&new, title), section_content(BODY, title));
    }
}

#[test]
fn an_extended_section_gives_back_both_parts() {
    let extended = append_section(BODY, "Notes", "\nAnd this\n").unwrap();
    assert_eq!(section_content(&extended, "Notes").unwrap().unwrap(), "Keep this\n\nAnd this");
    assert_eq!(section_content(&extended, "Plan"), section_content(BODY, "Plan"));
    let made = append_section(BODY, "Ideas", "\nTry one\n").unwrap();
    assert_eq!(section_content(&made, "Ideas").unwrap().unwrap(), "Try one");
    assert_eq!(append_section(BODY, "Notes", " \n").unwrap(), BODY);
}

#[test]
fn a_removed_section_is_gone_with_what_it_holds() {
    let removed = remove_section(BODY, "Plan").unwrap();
    assert_eq!(section_content(&removed, "Plan").unwrap(), None);
    assert_eq!(section_content(&removed, "Detail").unwrap(), None);
    assert_eq!(section_content(&removed, "Notes").unwrap().unwrap(), "Keep this");
    assert!(remove_section(&removed, "Plan").is_err());
    let removed = remove_section(BODY, "Notes").unwrap();
    assert_eq!(section_content(&removed, "Plan"), section_content(BODY, "Plan"));
}

fn told(body: &str) -> Vec<(Option<String>, String, bool)> {
    checklist_items(body)
        .into_iter()
        .map(|item| (item.section, item.text, item.checked))
        .collect()
}

fn titles(body: &str) -> Vec<(String, u8)> {
    sections(body).into_iter().map(|section| (section.title, section.level)).collect()
}

#[test]
fn an_added_item_stands_among_the_others() {
    let body = BODY.replace("Intro\n", "- [x] Early\n");
    for (section, title, at) in [("plan", "Plan", 3), ("Detail", "Detail", 4), ("Notes", "Notes", 4)] {
        let added = add_checklist_item(&body, section, " New\n").unwrap();
        let mut expected = told(&body);
        expected.insert(at, (Some(title.to_owned()), "New".to_owned(), false));
        assert_eq!(told(&added), expected);
        assert_eq!(titles(&added), titles(&body));
    }
    let added = add_checklist_item(&body, "Ideas", "New").unwrap();
    let mut expected = told(&body);
    expected.push((Some("Ideas".to_owned()), "New".to_owned(), false));
    assert_eq!(told(&added), expected);
    let mut expected = titles(&body);
    expected.push(("Ideas".to_owned(), 2));
    assert_eq!(titles(&added), expected);
}

#[test]
fn sections_that_hold_comments_are_kept() {
    let base = "# Project\n\n## Notes\n\nKeep\n\n## Comments\n\n### Policy\n\nBe kind\n";
    let (body, _) = comments::append(base, "Alice", "One").unwrap();
    let range = comments::registry_section_range(&body).unwrap().unwrap();
    let mut same = 0;
    for section in sections(&body) {
        if section.start == range.start {
            assert_eq!(section.end, range.end);
            same += 1;
        }
        let kept = section.start < range.end && range.start < section.end;
        let title = section.title.as_str();
        assert_eq!(set_section(&body, title, "New").is_err(), kept);
        assert_eq!(append_section(&body, title, "New").is_err(), kept);
        assert_eq!(remove_section(&body, title).is_err(), kept);
    }
    assert_eq!(same, 1);
}
