use kbmd::frontmatter::{parse, serialize};
use serde_json::Value;

fn value_of(yaml: &str) -> Value {
    serde_saphyr::from_str(yaml).unwrap()
}

#[test]
fn parses_crlf_and_preserves_unknown_fields() {
    let input = "---\r\ntitle: Hello\r\nestimate: 3\r\n---\r\n\r\n## Notes\r\n\r\nKeep me\r\n";
    let document = parse(input).unwrap();
    let metadata = value_of(&document.metadata);

    assert_eq!(metadata["title"], "Hello");
    assert_eq!(metadata["estimate"], 3);
    assert_eq!(document.body, "## Notes\r\n\r\nKeep me\r\n");
}

#[test]
fn round_trip_keeps_arbitrary_nested_values_and_body() {
    let input = "---\ntitle: Demo\ncustom:\n  points: 5\n  flags: [one, two]\n---\n\n## Bespoke\n\n- [ ] flexible\n";
    let first = parse(input).unwrap();
    let metadata = value_of(&first.metadata);
    let rendered = serialize(&serde_saphyr::to_string(&metadata).unwrap(), &first.body);
    let second = parse(&rendered).unwrap();

    assert_eq!(value_of(&second.metadata), metadata);
    assert_eq!(second.body, first.body);
}

#[test]
fn round_trip_preserves_body_boundaries_exactly() {
    let input = "---\ntitle: Demo\n---\n\n\nIntentional leading blank\n\nNo final newline";
    let first = parse(input).unwrap();
    assert_eq!(
        first.body,
        "\nIntentional leading blank\n\nNo final newline"
    );

    let rendered = serialize(&first.metadata, &first.body);
    let second = parse(&rendered).unwrap();
    assert_eq!(second.body, first.body);
    assert!(!rendered.ends_with('\n'));
}

#[test]
fn rejects_missing_or_unterminated_frontmatter() {
    assert!(parse("# title").is_err());
    assert!(parse("---\ntitle: nope").is_err());
}

#[test]
fn a_document_is_read_as_it_was_written() {
    let document = parse(&serialize("title: A\n\n", "Body\n")).unwrap();
    assert_eq!(document.metadata, "title: A");
    assert_eq!(document.body, "Body\n");
    assert_eq!(serialize("title: A", "Body\n"), "---\ntitle: A\n---\n\nBody\n");
    let marked = parse("\u{feff}---\ntitle: A\n---\nBody").unwrap();
    assert_eq!(marked.body, "Body");
}
