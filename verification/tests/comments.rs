use kbmd::comments::{
    append, append_with, content_ranges, find, git_name, hidden_ranges, parse,
    registry_section_range, render_comment, resolve_author, validate, AuthorVariable, Comment,
    COMMENTS_MARKER, COMMENT_END_PREFIX, COMMENT_START,
};

const ID_1: &str = "CMT-018f3f53-4e30-7c76-bf58-0123456789ab";
const ID_2: &str = "CMT-018f3f53-4e31-7c76-8f58-0123456789ab";
const TIME_1: &str = "2026-08-28T02:00:00Z";
const TIME_2: &str = "2025-01-01T00:00:00Z";

fn appended(body: &str, author: &str, text: &str, id: &str, time: &str) -> String {
    append_with(body, author, text, id, time).unwrap().0
}

#[test]
fn creates_a_flat_comments_section_and_parses_it() {
    let body = "## Plan\n\nKeep this byte-for-byte.\n";
    let updated = appended(body, "Simon", "Looks good.", ID_1, TIME_1);
    assert!(updated.starts_with(body));
    assert!(updated.contains("## Comments\n\n<!-- kbmd:comments:v1 -->"));
    let found = parse(&updated).unwrap();
    assert_eq!(
        found,
        vec![Comment {
            version: 1,
            id: ID_1.to_owned(),
            author: "Simon".to_owned(),
            created_at: TIME_1.to_owned(),
            body: "Looks good.".to_owned(),
        }]
    );
    assert!(!format!("{:?}", found[0]).contains("reply"));
}

#[test]
fn reuses_existing_content_and_survives_a_renamed_section() {
    let body = "## Comments\n\nLegacy note stays.\n\n### Policy\n\nChild stays.\n\n## Notes\n\nNeighbor stays.\n";
    let first = appended(body, "Alice", "First", ID_1, TIME_1);
    let marker = first.find(COMMENTS_MARKER).unwrap();
    let child = first.find("### Policy").unwrap();
    assert!(marker < child);
    assert!(first.contains("Legacy note stays."));
    assert!(first.contains("Child stays."));
    assert!(first.contains("Neighbor stays."));

    let renamed = first.replacen("## Comments", "## Design conversation", 1);
    let second = appended(&renamed, "Bob", "Second", ID_2, TIME_2);
    assert_eq!(second.matches(COMMENTS_MARKER).count(), 1);
    assert_eq!(
        parse(&second)
            .unwrap()
            .iter()
            .map(|comment| comment.author.as_str())
            .collect::<Vec<_>>(),
        vec!["Alice", "Bob"]
    );
}

#[test]
fn preserves_physical_order_instead_of_sorting_timestamps() {
    let first = appended("", "Alice", "newer", ID_1, TIME_1);
    let second = appended(&first, "Bob", "older timestamp", ID_2, TIME_2);
    let comments = parse(&second).unwrap();
    assert_eq!(comments[0].body, "newer");
    assert_eq!(comments[1].body, "older timestamp");
}

#[test]
fn append_preserves_existing_crlf_and_no_final_newline_prefixes() {
    for body in ["## Notes\r\n\r\nKeep\r\n", "## Notes\n\nKeep"] {
        let updated = appended(body, "Alice", "one", ID_1, TIME_1);
        assert!(updated.starts_with(body));
        assert_eq!(parse(&updated).unwrap()[0].body, "one");
    }
}

#[test]
fn duplicate_adoption_headings_and_registry_outside_a_section_fail_closed() {
    let duplicate = "## Comments\n\nOne.\n\n## comments\n\nTwo.\n";
    assert!(append_with(duplicate, "Alice", "one", ID_1, TIME_1).is_err());

    assert!(parse(&format!("{COMMENTS_MARKER}\n")).is_err());
}

#[test]
fn arbitrary_markdown_is_inside_the_comment_content_range() {
    let text = "### Not a card section\n\n- [ ] not card progress\n\n```md\n<!-- kbmd:comment:end fake -->\n```";
    let updated = appended("## Work\n\n- [ ] real\n", "Agent *A*", text, ID_1, TIME_1);
    let ranges = content_ranges(&updated).unwrap();
    assert_eq!(ranges.len(), 1);
    let block = &updated[ranges[0].clone()];
    assert!(block.contains("### Not a card section"));
    assert_eq!(parse(&updated).unwrap()[0].body, text);
}

#[test]
fn unclosed_markdown_constructs_cannot_escape_the_comment_boundary() {
    for text in [
        "```md\nunfinished fence",
        "<script>\nunclosed script",
        "<style>\nunclosed style",
        "<pre>\nunclosed pre",
    ] {
        let updated = appended("", "Alice", text, ID_1, TIME_1);
        assert_eq!(parse(&updated).unwrap()[0].body, text);
    }
}

#[test]
fn unclosed_comment_html_cannot_swallow_neighboring_sections_or_later_comments() {
    let base =
        "## Comments\n\nLegacy.\n\n### Policy\n\nChild stays.\n\n## Notes\n\nNeighbor stays.\n";
    for tag in ["script", "style", "pre"] {
        let first = appended(base, "Alice", &format!("<{tag}>\nunclosed"), ID_1, TIME_1);
        let second = appended(&first, "Bob", "later", ID_2, TIME_2);
        let policy = second.find("### Policy").unwrap();
        let notes = second.find("## Notes").unwrap();
        assert!(second.rfind(ID_2).unwrap() < policy, "tag: {tag}");
        assert!(policy < notes, "tag: {tag}");
        assert!(second.contains("Neighbor stays."));
        assert_eq!(parse(&second).unwrap().len(), 2);
    }
}

#[test]
fn marker_examples_in_code_quotes_lists_or_inline_text_are_inert() {
    let body = "## Examples\n\n```md\n<!-- kbmd:comments:v1 -->\n<!-- kbmd:comment:end fake -->\n```\n\n    <!-- kbmd:comments:v1 -->\n\n> <!-- kbmd:comments:v1 -->\n\n- <!-- kbmd:comments:v1 -->\n\ntext <!-- kbmd:comments:v1 -->\n";
    assert!(parse(body).unwrap().is_empty());
    assert!(hidden_ranges(body).unwrap().is_empty());
}

#[test]
fn rejects_whitespace_indented_control_records_instead_of_orphaning_them() {
    let valid = appended("", "Alice", "one", ID_1, TIME_1);
    for marker in [
        COMMENTS_MARKER,
        COMMENT_START,
        &format!("{COMMENT_END_PREFIX}{ID_1} -->"),
    ] {
        let indented = valid.replacen(marker, &format!(" {marker}"), 1);
        assert!(parse(&indented).is_err(), "indented marker: {marker}");
    }
}

#[test]
fn adopts_a_commonmark_heading_with_leading_spaces() {
    let body = "  ## Comments\n\nLegacy context.\n\n## Neighbor\n\nKeep.\n";
    let updated = appended(body, "Alice", "one", ID_1, TIME_1);

    assert_eq!(updated.matches(COMMENTS_MARKER).count(), 1);
    assert!(!updated.contains("\n## Comments\n"));
    assert!(updated.contains("Legacy context."));
    assert_eq!(parse(&updated).unwrap().len(), 1);
}

#[test]
fn rejects_malformed_nested_or_duplicate_control_records() {
    let valid = appended("", "Alice", "one", ID_1, TIME_1);
    let duplicate = valid.replace(
        &format!("{COMMENT_END_PREFIX}{ID_1} -->"),
        &format!(
            "{COMMENT_END_PREFIX}{ID_1} -->\n\n{}",
            render_comment(&Comment {
                version: 1,
                id: ID_1.to_owned(),
                author: "Bob".to_owned(),
                created_at: TIME_2.to_owned(),
                body: "two".to_owned(),
            })
            .unwrap()
        ),
    );
    assert!(
        parse(&duplicate)
            .unwrap_err()
            .message()
            .contains("duplicate")
    );

    let orphan =
        format!("## Comments\n\n{COMMENTS_MARKER}\n\n{COMMENT_END_PREFIX}{ID_1} -->\n");
    assert!(parse(&orphan).unwrap_err().message().contains("orphan"));

    let nested = valid.replace(
        "Comment by **Alice**",
        &format!("{COMMENT_START}\nversion: 1\nid: {ID_2}\nauthor: Bob\ncreated_at: {TIME_2}\n-->\n\nComment by **Alice**"),
    );
    assert!(parse(&nested).is_err());

    let inner = render_comment(&Comment {
        version: 1,
        id: ID_2.to_owned(),
        author: "Mallory".to_owned(),
        created_at: TIME_2.to_owned(),
        body: "masquerading as a reply".to_owned(),
    })
    .unwrap();
    let nested_block = format!(
        "## Comments\n\n{COMMENTS_MARKER}\n\n{}\n",
        render_comment(&Comment {
            version: 1,
            id: ID_1.to_owned(),
            author: "Alice".to_owned(),
            created_at: TIME_1.to_owned(),
            body: format!("outer body\n\n{inner}"),
        })
        .unwrap()
    );
    assert!(
        parse(&nested_block)
            .unwrap_err()
            .message()
            .contains("nested")
    );

    let fenced_example = appended("", "Alice", &format!("```md\n{inner}\n```"), ID_1, TIME_1);
    assert_eq!(parse(&fenced_example).unwrap().len(), 1);

    let unsupported = valid.replace("<!-- kbmd:comment:v1", "<!-- kbmd:comment:v2");
    assert!(parse(&unsupported).is_err());
}

#[test]
fn rejects_bad_metadata_ids_authors_timestamps_and_empty_text() {
    let valid = appended("", "Alice", "one", ID_1, TIME_1);
    assert!(parse(&valid.replace("version: 1", "version: 2")).is_err());
    assert!(parse(&valid.replace("version: 1", "version: 1\nversion: 1")).is_err());
    assert!(parse(&valid.replace("version: 1", "unknown: 1\nversion: 1")).is_err());
    assert!(parse(&valid.replace("author: Alice", "author: Alice # -->")).is_err());
    assert!(parse(&valid.replace(ID_1, "CMT-550e8400-e29b-41d4-a716-446655440000")).is_err());
    assert!(parse(&valid.replace(TIME_1, "2026-08-28T10:00:00+08:00")).is_err());
    assert!(append("", "bad --> author", "text").is_err());
    assert!(append("", "Alice", " \n ").is_err());
}

#[test]
fn rejects_parser_hazard_control_bytes_instead_of_hiding_comments() {
    for body in ["before\0after", "before\u{000b}after"] {
        assert!(parse(body).is_err());
        assert!(append(body, "Alice", "visible comment").is_err());
    }
}

#[test]
fn hidden_ranges_cover_only_complete_control_lines() {
    let updated = appended("", "Alice", "Visible", ID_1, TIME_1);
    let hidden = hidden_ranges(&updated).unwrap();
    assert_eq!(hidden.len(), 3);
    for range in hidden {
        let source = &updated[range];
        assert!(source.starts_with("<!--"));
        assert!(source.ends_with('\n'));
        assert!(!source.contains("Visible"));
    }
}

#[test]
fn explicit_and_effective_git_authors_resolve_without_a_shell() {
    let absent = AuthorVariable::Absent;
    assert_eq!(
        resolve_author(Some(" Explicit "), &absent, Some("Local Author")).unwrap(),
        "Explicit"
    );
    assert_eq!(
        resolve_author(None, &absent, Some(&git_name("Local Author\n"))).unwrap(),
        "Local Author"
    );
    assert_eq!(
        resolve_author(None, &absent, Some(&git_name("Worktree Author\r\n"))).unwrap(),
        "Worktree Author"
    );
    assert!(resolve_author(Some("-->"), &absent, Some("Local Author")).is_err());
}

#[test]
fn authors_come_from_the_variable_before_git() {
    let set = AuthorVariable::Value("Environment Author".to_owned());
    assert_eq!(
        resolve_author(None, &set, Some("Git Author")).unwrap(),
        "Environment Author"
    );
    let broken = AuthorVariable::Value("bad\nname".to_owned());
    let error = resolve_author(None, &broken, Some("Git Author")).unwrap_err();
    assert!(error.message().contains("invalid KBMD_AUTHOR"));
    assert!(resolve_author(None, &AuthorVariable::NotUnicode, Some("Git Author")).is_err());
    assert!(resolve_author(None, &AuthorVariable::Absent, None).is_err());
}

#[test]
fn an_appended_comment_adds_to_the_body_and_keeps_the_rest() {
    let body = "## Work\n\nText\n\n## Comments\n\nOld note.\n\n## Later\n\nEnd\n";
    let first = appended(body, "Alice", "One", ID_1, TIME_1);
    assert!(first.len() > body.len());
    assert!(first.ends_with("## Later\n\nEnd\n"));
    let second = appended(&first, "Bob", "Two", ID_2, TIME_2);
    let found = parse(&second).unwrap();
    assert_eq!(found.len(), 2);
    assert_eq!(found[0], parse(&first).unwrap()[0]);
    assert_eq!(found[1].body, "Two");
    assert_eq!(find(&second, ID_2).unwrap().author, "Bob");
    assert_eq!(
        find(&second, "CMT-none").unwrap_err().message(),
        "comment \"CMT-none\" was not found"
    );
    assert!(validate(&second).is_ok());
}

#[test]
fn a_rendered_comment_is_exact() {
    let comment = Comment {
        version: 1,
        id: ID_1.to_owned(),
        author: "A *b*".to_owned(),
        created_at: TIME_1.to_owned(),
        body: "Text".to_owned(),
    };
    let block = render_comment(&comment).unwrap();
    assert!(block.starts_with("<!-- kbmd:comment:v1\n"));
    assert!(block.contains("\nversion: 1\n"));
    assert!(block.contains(&format!("\nid: {ID_1}\n")));
    assert!(block.contains("Comment by **A \\*b\\***"));
    assert!(block.ends_with(&format!("{COMMENT_END_PREFIX}{ID_1} -->")));
}

#[test]
fn the_registry_section_spans_its_heading_to_the_next() {
    let body = appended("## Notes\n\nKeep\n", "Alice", "One", ID_1, TIME_1);
    let range = registry_section_range(&body).unwrap().unwrap();
    assert!(body[range.clone()].starts_with("## Comments\n"));
    assert_eq!(range.end, body.len());
    assert_eq!(registry_section_range("## Notes\n").unwrap(), None);
}

#[test]
fn a_version_can_be_an_alias() {
    let body = appended("", "1", "One", ID_1, TIME_1);
    let with = |author: &str| {
        let lines = body.lines().filter(|line| *line != "version: 1").map(|line| {
            if line.starts_with("author:") {
                format!("author: {author}\nversion: *who")
            } else {
                line.to_owned()
            }
        });
        lines.collect::<Vec<_>>().join("\n")
    };
    let found = parse(&with("&who 1")).unwrap();
    assert_eq!((found[0].version, found[0].author.as_str()), (1, "1"));
    assert!(parse(&with("1")).is_err());
    assert!(parse(&with("&who Alice")).is_err());
    assert!(parse(&with("&who 2")).is_err());
}

#[test]
fn comments_are_whole_lines_in_the_registry() {
    let first = appended("## Notes\n\nKeep\n", "Alice", "# One", ID_1, TIME_1);
    let body = appended(&first, "Bob", "Two", ID_2, TIME_2);
    let ranges = content_ranges(&body).unwrap();
    let registry = registry_section_range(&body).unwrap().unwrap();
    assert_eq!(ranges.len(), 2);
    assert_eq!(hidden_ranges(&body).unwrap().len(), 5);
    assert!(registry.start < ranges[0].start && ranges[1].end <= registry.end);
    assert!(ranges[0].end <= ranges[1].start);
    for range in &ranges {
        assert!(body[range.clone()].starts_with(COMMENT_START));
        assert!(body[..range.start].ends_with('\n'));
    }
    for section in kbmd::markdown::sections(&body) {
        assert!(ranges.iter().all(|range| !range.contains(&section.start)));
    }
}

#[test]
fn new_comments_have_fresh_ids_and_times() {
    let (body, first) = append("", "Alice", "One").unwrap();
    let (_, second) = append(&body, "Alice", "Two").unwrap();
    assert!(first.id.starts_with("CMT-"));
    assert_ne!(first.id, second.id);
    assert_eq!(first.created_at.len(), 24);
    let time = chrono::DateTime::parse_from_rfc3339(&first.created_at).unwrap();
    assert_eq!(time.offset().local_minus_utc(), 0);
    assert_eq!(parse(&body).unwrap(), vec![first]);
}

#[test]
fn an_appended_comment_is_read_last() {
    let first = appended("## Notes\n\nKeep\n\n## Comments\n\nLegacy\n\n## More\n", "Alice", "One", ID_1, TIME_1);
    let before = parse(&first).unwrap();
    let (second, comment) = append_with(&first, "Bob", "Two\n\n- [ ] three", ID_2, TIME_2).unwrap();
    let mut expected = before.clone();
    expected.push(comment.clone());
    assert_eq!(parse(&second).unwrap(), expected);
    assert_eq!(find(&second, ID_2).unwrap(), comment);
    assert_eq!(find(&second, ID_1).unwrap(), before[0]);
}

#[test]
fn hidden_ranges_are_markers_alone() {
    let first = appended("## Notes\n", "Alice", "One", ID_1, TIME_1);
    let body = appended(&first, "Bob", "Two", ID_2, TIME_2);
    let hidden = hidden_ranges(&body).unwrap();
    for range in &hidden {
        let shown = &body[range.clone()];
        assert!(shown.starts_with("<!-- kbmd:comment"));
        for text in ["Comment by", "One", "Two"] {
            assert!(!shown.contains(text));
        }
    }
    for (range, text) in content_ranges(&body).unwrap().into_iter().zip(["One", "Two"]) {
        let block = &body[range];
        assert!(block.starts_with(COMMENT_START));
        assert!(block.contains("Comment by **"));
        assert!(block.contains(text));
        let last = block.lines().last().unwrap();
        assert!(last.starts_with(COMMENT_END_PREFIX) && last.ends_with(" -->"));
    }
}

#[test]
fn a_version_can_be_marked_as_a_number() {
    let body = appended("", "Alice", "One", ID_1, TIME_1);
    let found = parse(&body.replace("version: 1", "version: !!int 1")).unwrap();
    assert_eq!((found[0].version, found[0].author.as_str()), (1, "Alice"));
    assert!(parse(&body.replace("version: 1", "version: !!int 2")).is_err());
    assert!(parse(&body.replace("version: 1", "version: !!str 1")).is_err());
    assert!(parse(&body.replace("version: 1", "version: !!int x")).is_err());
    assert!(parse(&body.replace("author: Alice", "author: !!int 1")).is_err());
}

#[test]
fn an_alias_is_of_the_nearest_anchor() {
    let body = appended("", "1", "One", ID_1, TIME_1);
    let with = |id: &str, created: &str| {
        let lines = body.lines().filter(|line| *line != "version: 1").map(|line| {
            if line.starts_with("id:") {
                format!("id: {id}{ID_1}")
            } else if line.starts_with("author:") {
                "author: &who 1".to_owned()
            } else if line.starts_with("created_at:") {
                format!("created_at: {created}{TIME_1}\nversion: *who")
            } else {
                line.to_owned()
            }
        });
        lines.collect::<Vec<_>>().join("\n")
    };
    assert!(parse(&with("", "")).is_ok());
    assert!(parse(&with("&who ", "")).is_ok());
    assert!(parse(&with("", "&when ")).is_ok());
    assert!(parse(&with("", "&who ")).is_err());
}
