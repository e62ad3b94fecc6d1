use kbmd::BoardConfig;

#[test]
fn new_config_uses_first_status_as_default() {
    let config = BoardConfig::new("Demo", "demo", vec!["Inbox".to_owned(), "Done".to_owned()]);

    assert_eq!(config.default_status, "Inbox");
    assert_eq!(config.id_prefix, "DEMO");
    assert_eq!(config.resolve_status("done"), Some("Done"));
    config.validate().unwrap();
}

#[test]
fn config_rejects_escaping_cards_directory() {
    let mut config = BoardConfig::new("Demo", "KB", vec!["Todo".to_owned()]);
    config.cards_dir = "../outside".to_owned();

    assert!(
        config
            .validate()
            .unwrap_err()
            .message()
            .contains("cards_dir")
    );
}

#[test]
fn config_rejects_case_insensitive_duplicate_columns() {
    let config = BoardConfig::new("Demo", "KB", vec!["Doing".to_owned(), "doing".to_owned()]);

    assert!(
        config
            .validate()
            .unwrap_err()
            .message()
            .contains("duplicate")
    );
}

#[test]
fn new_config_normalizes_user_supplied_boundaries() {
    let config = BoardConfig::new(" Demo ", " kb ", vec![" Todo ".to_owned()]);
    assert_eq!(config.name, "Demo");
    assert_eq!(config.id_prefix, "KB");
    assert_eq!(config.columns[0].name, "Todo");
    config.validate().unwrap();
}

#[test]
fn config_rejects_padded_values_loaded_from_yaml() {
    let mut config = BoardConfig::new("Demo", "KB", vec!["Todo".to_owned(), "Done".to_owned()]);
    config.columns[1].name = " Done ".to_owned();
    assert!(
        config
            .validate()
            .unwrap_err()
            .message()
            .contains("whitespace")
    );

    config.columns[1].name = "Done".to_owned();
    config.id_prefix = " KB ".to_owned();
    assert!(
        config
            .validate()
            .unwrap_err()
            .message()
            .contains("id_prefix")
    );
}

#[test]
fn config_rejects_multiline_display_values() {
    let mut config = BoardConfig::new("Demo", "KB", vec!["Todo".to_owned()]);
    config.name = "Demo\nspoofed".to_owned();
    assert!(
        config
            .validate()
            .unwrap_err()
            .message()
            .contains("control")
    );

    config.name = "Demo".to_owned();
    config.columns[0].name = "Todo\rDone".to_owned();
    assert!(
        config
            .validate()
            .unwrap_err()
            .message()
            .contains("control")
    );
}

#[test]
fn resolving_a_resolved_status_changes_nothing() {
    let config = BoardConfig::new("Demo", "KB", vec!["Todo".to_owned(), "Done".to_owned()]);
    let status = config.resolve_status("DONE").unwrap();
    assert_eq!(status, "Done");
    assert_eq!(config.resolve_status(status), Some("Done"));
    assert_eq!(config.resolve_status("missing"), None);
    assert_eq!(config.column_index("done"), Some(1));
    assert_eq!(config.column_index(" done"), None);
}

#[test]
fn every_part_of_a_configuration_is_checked() {
    let good = || BoardConfig::new("Demo", "KB", vec!["Todo".to_owned(), "Done".to_owned()]);
    assert!(good().validate().is_ok());
    let mut config = good();
    config.version = 2;
    assert!(config.validate().unwrap_err().message().contains("version"));
    let mut config = good();
    config.name = " ".to_owned();
    assert!(config.validate().is_err());
    let mut config = good();
    config.columns.clear();
    assert!(config.validate().is_err());
    let mut config = good();
    config.default_status = "Missing".to_owned();
    assert!(config.validate().unwrap_err().message().contains("default status"));
    let mut config = good();
    config.columns[0].wip_limit = Some(0);
    assert!(config.validate().is_err());
    let mut config = good();
    config.cards_dir = "/cards".to_owned();
    assert!(config.validate().is_err());
    let mut config = good();
    config.id_prefix = "K B".to_owned();
    assert!(config.validate().is_err());
}

#[test]
fn every_column_is_found_at_its_place() {
    let names = ["Todo", "In progress", "Done", "Erledigt für heute"];
    let config = BoardConfig::new("Demo", "KB", names.iter().map(|name| name.to_string()).collect());
    assert!(config.validate().is_ok());
    for (place, name) in names.iter().enumerate() {
        assert_eq!(config.column_index(name), Some(place));
        assert_eq!(config.column_index(&name.to_ascii_uppercase()), Some(place));
        assert_eq!(config.resolve_status(name), Some(*name));
    }
}
