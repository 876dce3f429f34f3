use project_info::{ProjectInfo, ProjectType};

fn entries(names: &[&str]) -> Vec<String> {
    names.iter().map(|n| n.to_string()).collect()
}

fn assert_fields_equal(a: &ProjectInfo, b: &ProjectInfo) {
    assert_eq!(a.name, b.name);
    assert_eq!(a.alias, b.alias);
    assert_eq!(a.project_type, b.project_type);
    assert_eq!(a.tags, b.tags);
    assert_eq!(a.date_created, b.date_created);
    assert_eq!(a.date_modified, b.date_modified);
    assert_eq!(a.notes, b.notes);
    assert_eq!(a.git_url, b.git_url);
}

#[test]
fn round_trip_preserves_every_field() {
    let listing = entries(&["Cargo.toml", "main.rs", "kick.wav"]);
    let mut info = ProjectInfo::generate_project_info(
        Some("myproj".to_string()),
        &listing,
        Some(1_700_000_000),
        Some(1_700_000_100),
        1_700_000_200,
        Some("git@example.com:org/repo.git".to_string()),
    );
    info.set_alias("mp".to_string());
    info.add_note("started".to_string());
    info.add_note("added tags".to_string());
    let doc = info.to_toml_string();
    let back = ProjectInfo::from_toml_str(&doc).expect("document should parse back");
    assert_fields_equal(&info, &back);
}

#[test]
fn round_trip_handles_quotes_backslashes_and_negative_dates() {
    let info = ProjectInfo {
        name: "odd \"name\" with \\ slashes".to_string(),
        alias: String::new(),
        project_type: ProjectType::Unknown,
        tags: vec!["A\"B".to_string(), "C\\D".to_string()],
        date_created: -12345,
        date_modified: i64::MIN,
        notes: vec!["note with \"quotes\"".to_string()],
        git_url: None,
    };
    let doc = info.to_toml_string();
    let back = ProjectInfo::from_toml_str(&doc).expect("document should parse back");
    assert_fields_equal(&info, &back);
}

#[test]
fn emitted_document_has_expected_text() {
    let info = ProjectInfo {
        name: "p".to_string(),
        alias: "a".to_string(),
        project_type: ProjectType::Music,
        tags: vec!["WAV".to_string(), "audio".to_string()],
        date_created: 5,
        date_modified: -3,
        notes: Vec::new(),
        git_url: Some("url".to_string()),
    };
    let doc = info.to_toml_string();
    let expected = "name = \"p\"\nalias = \"a\"\nproject_type = \"music\"\ntags = [\"WAV\", \"audio\"]\ndate_created = 5\ndate_modified = -3\nnotes = []\ngit_url = \"url\"\n";
    assert_eq!(doc, expected);
}

#[test]
fn emitted_document_is_valid_toml() {
    let listing = entries(&["Cargo.toml"]);
    let mut info = ProjectInfo::generate_project_info(
        Some("myproj".to_string()),
        &listing,
        Some(1_700_000_000),
        Some(1_700_000_100),
        1_700_000_200,
        Some("git@example.com:org/repo.git".to_string()),
    );
    info.set_alias("mp".to_string());
    info.add_note("a note".to_string());
    let doc = info.to_toml_string();
    let table: toml::Table = doc.parse().expect("the document should be valid TOML");
    assert_eq!(
        table.get("name").and_then(|v| v.as_str()),
        Some("myproj")
    );
    assert_eq!(table.get("alias").and_then(|v| v.as_str()), Some("mp"));
    assert_eq!(
        table.get("project_type").and_then(|v| v.as_str()),
        Some("programming")
    );
    assert_eq!(
        table.get("date_created").and_then(|v| v.as_integer()),
        Some(1_700_000_000)
    );
    assert_eq!(
        table.get("git_url").and_then(|v| v.as_str()),
        Some("git@example.com:org/repo.git")
    );
    let tags: Vec<&str> = table
        .get("tags")
        .and_then(|v| v.as_array())
        .expect("tags should be an array")
        .iter()
        .filter_map(|v| v.as_str())
        .collect();
    assert_eq!(tags, vec!["command-line", "rust", "software development"]);
    let notes: Vec<&str> = table
        .get("notes")
        .and_then(|v| v.as_array())
        .expect("notes should be an array")
        .iter()
        .filter_map(|v| v.as_str())
        .collect();
    assert_eq!(notes, vec!["a note"]);
}

#[test]
fn parser_rejects_malformed_documents() {
    assert!(ProjectInfo::from_toml_str("").is_none());
    assert!(ProjectInfo::from_toml_str("name = \"p\"").is_none());
    assert!(ProjectInfo::from_toml_str("nonsense").is_none());
    let unterminated = "name = \"p\nalias = \"a\"\n";
    assert!(ProjectInfo::from_toml_str(unterminated).is_none());
}

#[test]
fn parser_rejects_out_of_range_timestamps() {
    let doc = "name = \"p\"\nalias = \"\"\nproject_type = \"unknown\"\ntags = []\ndate_created = 99999999999999999999999999\ndate_modified = 0\nnotes = []\n";
    assert!(ProjectInfo::from_toml_str(doc).is_none());
}
