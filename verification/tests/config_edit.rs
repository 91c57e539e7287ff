use typos_lsp::config_edit::{add_typo, ConfigEditError};

#[test]
fn test_add_typo_to_empty_file() {
    let empty_file = "";
    let document = add_typo(empty_file, "typo").unwrap();

    assert_eq!(
        document.to_string(),
        ["[default]", "", "[default.extend-words]", "typo = \"typo\"", ""].join("\n")
    );
}

#[test]
fn test_add_typo_to_existing_file() {
    // should preserve comments and formatting

    let existing_file = [
        "[files] # comment",
        "# comment",
        "extend-exclude = [\"CHANGELOG.md\", \"crates/typos-lsp/tests/integration_test.rs\"]",
    ]
    .join("\n");

    // make sure the config is valid (so the test makes sense)
    let _ = typos_cli::config::Config::from_toml(&existing_file).unwrap();

    let document = add_typo(&existing_file, "typo").unwrap();

    assert_eq!(
        document.to_string(),
        [
            "[files] # comment",
            "# comment",
            "extend-exclude = [\"CHANGELOG.md\", \"crates/typos-lsp/tests/integration_test.rs\"]",
            "",
            "[default]",
            "",
            "[default.extend-words]",
            "typo = \"typo\"",
            ""
        ]
        .join("\n")
    );
}

#[test]
fn add_typo_to_existing_extend_words() {
    let input = "[default.extend-words]\nteh = \"teh\"\n";
    let document = add_typo(input, "fo").unwrap();
    assert_eq!(document.to_string(), "[default.extend-words]\nteh = \"teh\"\nfo = \"fo\"\n");
}

#[test]
fn add_typo_rejects_invalid_toml() {
    assert_eq!(add_typo("[default", "typo").err(), Some(ConfigEditError::Parse));
    assert_eq!(
        ConfigEditError::Parse.message("test.toml"),
        "Cannot parse config file at test.toml"
    );
}

#[test]
fn add_typo_rejects_default_that_is_not_a_table() {
    assert_eq!(add_typo("default = 1\n", "typo").err(), Some(ConfigEditError::DefaultNotTable));
    assert_eq!(ConfigEditError::DefaultNotTable.message("x"), "Cannot get 'default' table");
}

#[test]
fn add_typo_rejects_extend_words_that_is_not_a_table() {
    assert_eq!(
        add_typo("[default]\nextend-words = \"x\"\n", "typo").err(),
        Some(ConfigEditError::ExtendWordsNotTable)
    );
    assert_eq!(
        ConfigEditError::ExtendWordsNotTable.message("x"),
        "Cannot get 'extend-words' table"
    );
}

#[test]
fn adding_a_typo_twice_changes_nothing_more() {
    let once = add_typo("[files]\nextend-exclude = []\n", "teh").unwrap().to_string();
    let twice = add_typo(&once, "teh").unwrap().to_string();
    assert_eq!(once, twice);
    assert!(once.contains("teh = \"teh\""));
    assert!(once.starts_with("[files]\nextend-exclude = []\n"));
}

#[test]
fn add_typo_writes_the_typo_as_its_own_value() {
    let document = add_typo("[default.extend-words]\nfo = \"x\"\nteh = \"teh\"\n", "fo").unwrap();
    let text = document.to_string();
    assert!(text.contains("fo = \"fo\""));
    assert!(!text.contains("\"x\""));
    assert!(text.contains("teh = \"teh\""));
}

#[test]
fn add_typo_rejects_inline_default_table() {
    assert_eq!(
        add_typo("default = { locale = \"en\" }\n", "typo").err(),
        Some(ConfigEditError::DefaultNotTable)
    );
}
