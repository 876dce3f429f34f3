use project_info::{ProjectInfo, ProjectType};

fn entries(names: &[&str]) -> Vec<String> {
    names.iter().map(|n| n.to_string()).collect()
}

#[test]
fn test_generate_project_type_programming() {
    let listing = entries(&["Cargo.toml"]);
    let project_type = ProjectInfo::generate_project_type(&listing);
    assert_eq!(project_type.as_str(), "programming");
}

#[test]
fn test_generate_project_type_music() {
    let listing = entries(&["project.rpp"]);
    let project_type = ProjectInfo::generate_project_type(&listing);
    assert_eq!(project_type.as_str(), "music");
}

#[test]
fn test_generate_project_type_unknown() {
    let listing = entries(&["image.png", "document.pdf"]);
    let project_type = ProjectInfo::generate_project_type(&listing);
    assert_eq!(project_type.as_str(), "unknown");
}

#[test]
fn programming_marker_wins_over_earlier_audio_extension() {
    let listing = entries(&["kick.wav", "Cargo.toml"]);
    assert_eq!(
        ProjectInfo::generate_project_type(&listing),
        ProjectType::Programming
    );
}

#[test]
fn music_marker_scanned_first_wins() {
    let listing = entries(&["project.als", "Cargo.toml"]);
    assert_eq!(
        ProjectInfo::generate_project_type(&listing),
        ProjectType::Music
    );
}

#[test]
fn extension_tie_reports_programming() {
    let listing = entries(&["main.rs", "kick.wav"]);
    assert_eq!(
        ProjectInfo::generate_project_type(&listing),
        ProjectType::Programming
    );
}

#[test]
fn extension_matching_is_case_insensitive() {
    let listing = entries(&["MAIN.RS"]);
    assert_eq!(
        ProjectInfo::generate_project_type(&listing),
        ProjectType::Programming
    );
}

#[test]
fn unknown_tags_are_uppercased_extensions() {
    let listing = entries(&["image.png", "document.pdf"]);
    let tags = ProjectInfo::generate_tags(&listing, ProjectType::Unknown);
    assert_eq!(tags, vec!["PDF".to_string(), "PNG".to_string()]);
}

#[test]
fn empty_directory_is_unknown_with_no_tags() {
    let listing: Vec<String> = Vec::new();
    assert_eq!(
        ProjectInfo::generate_project_type(&listing),
        ProjectType::Unknown
    );
    let tags = ProjectInfo::generate_tags(&listing, ProjectType::Unknown);
    assert!(tags.is_empty());
}

#[test]
fn tags_are_deduplicated_and_sorted() {
    let listing = entries(&["a.rs", "b.rs", "z.py", "a.py"]);
    let tags = ProjectInfo::generate_tags(&listing, ProjectType::Programming);
    assert_eq!(
        tags,
        vec![
            "command-line".to_string(),
            "python".to_string(),
            "rust".to_string(),
            "software development".to_string(),
        ]
    );
    let mut sorted = tags.clone();
    sorted.sort();
    sorted.dedup();
    assert_eq!(tags, sorted);
}

#[test]
fn cargo_toml_alone_gives_programming_record() {
    let listing = entries(&["Cargo.toml"]);
    let info = ProjectInfo::generate_project_info(
        Some("myproj".to_string()),
        &listing,
        Some(1_700_000_000),
        Some(1_700_000_100),
        1_700_000_200,
        None,
    );
    assert_eq!(info.project_type, ProjectType::Programming);
    assert_eq!(
        info.tags,
        vec![
            "command-line".to_string(),
            "rust".to_string(),
            "software development".to_string(),
        ]
    );
    assert_eq!(info.name, "myproj");
    assert_eq!(info.alias, "");
    assert_eq!(info.date_created, 1_700_000_000);
    assert_eq!(info.date_modified, 1_700_000_100);
    assert!(info.notes.is_empty());
    assert!(info.git_url.is_none());
}

#[test]
fn missing_name_falls_back_to_placeholder() {
    let listing: Vec<String> = Vec::new();
    let info = ProjectInfo::generate_project_info(None, &listing, Some(0), Some(0), 7, None);
    assert_eq!(info.name, "Unnamed Project");
    let info2 =
        ProjectInfo::generate_project_info(Some(String::new()), &listing, Some(0), Some(0), 7, None);
    assert_eq!(info2.name, "Unnamed Project");
}

#[test]
fn missing_timestamps_fall_back_to_given_now() {
    let listing: Vec<String> = Vec::new();
    let info = ProjectInfo::generate_project_info(None, &listing, None, None, 42, None);
    assert_eq!(info.date_created, 42);
    assert_eq!(info.date_modified, 42);
}

#[test]
fn unknown_tags_hold_each_extension_once() {
    let listing = entries(&["a.png", "b.PNG", "c.pdf"]);
    let tags = ProjectInfo::generate_unknown_tags(&listing);
    assert_eq!(tags, vec!["PDF".to_string(), "PNG".to_string()]);
}

#[test]
fn set_alias_and_add_note_mutate_only_their_fields() {
    let listing = entries(&["Cargo.toml"]);
    let mut info = ProjectInfo::generate_project_info(
        Some("p".to_string()),
        &listing,
        Some(1),
        Some(2),
        3,
        Some("git@example.com:org/repo.git".to_string()),
    );
    info.set_alias("shortname".to_string());
    info.add_note("first note".to_string());
    info.add_note("second note".to_string());
    assert_eq!(info.alias, "shortname");
    assert_eq!(
        info.notes,
        vec!["first note".to_string(), "second note".to_string()]
    );
    assert_eq!(info.name, "p");
    assert_eq!(info.project_type, ProjectType::Programming);
    assert_eq!(info.git_url, Some("git@example.com:org/repo.git".to_string()));
}
