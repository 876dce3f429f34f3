use project_info::programming::{first_remote, generate_programming_tags, push_url_from_output};

fn entries(names: &[&str]) -> Vec<String> {
    names.iter().map(|n| n.to_string()).collect()
}

#[test]
fn test_generate_tags_programming_with_cargo_toml() {
    let listing = entries(&["Cargo.toml", "src", "main.rs"]);
    let tags = generate_programming_tags(&listing);
    assert!(tags.contains(&"rust".to_string()));
    assert!(tags.contains(&"command-line".to_string()));
    assert!(tags.contains(&"software development".to_string()));
}

#[test]
fn rust_tag_forced_by_manifest_without_rust_sources() {
    let listing = entries(&["Cargo.toml", "README.md"]);
    let tags = generate_programming_tags(&listing);
    assert!(tags.contains(&"rust".to_string()));
}

#[test]
fn no_rust_tag_without_manifest_or_sources() {
    let listing = entries(&["setup.py", "module.py"]);
    let tags = generate_programming_tags(&listing);
    assert!(!tags.contains(&"rust".to_string()));
    assert!(tags.contains(&"python".to_string()));
}

#[test]
fn language_tags_cover_known_extensions() {
    let listing = entries(&["a.RS", "b.go", "c.SwIfT", "d.cs"]);
    let tags = generate_programming_tags(&listing);
    assert!(tags.contains(&"rust".to_string()));
    assert!(tags.contains(&"go".to_string()));
    assert!(tags.contains(&"swift".to_string()));
    assert!(tags.contains(&"c#".to_string()));
}

#[test]
fn no_push_url_without_vcs_metadata() {
    assert_eq!(first_remote(false, Some(&"origin\n".to_string())), None);
    assert_eq!(first_remote(false, None), None);
}

#[test]
fn first_remote_takes_first_listed_line() {
    assert_eq!(
        first_remote(true, Some(&"origin\nupstream\n".to_string())),
        Some("origin".to_string())
    );
    assert_eq!(first_remote(true, Some(&"".to_string())), None);
    assert_eq!(first_remote(true, None), None);
}

#[test]
fn push_url_is_trimmed_tool_output() {
    assert_eq!(
        push_url_from_output(Some(&"git@example.com:org/repo.git\n".to_string())),
        Some("git@example.com:org/repo.git".to_string())
    );
    assert_eq!(push_url_from_output(None), None);
    assert_eq!(
        push_url_from_output(Some(&"  spaced  ".to_string())),
        Some("spaced".to_string())
    );
}
