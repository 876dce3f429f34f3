use project_info::music::generate_music_tags;
use project_info::{ProjectInfo, ProjectType};

fn entries(names: &[&str]) -> Vec<String> {
    names.iter().map(|n| n.to_string()).collect()
}

#[test]
fn test_generate_tags_music() {
    let listing = entries(&["project.rpp", "samples", "kick.wav", "snare.mp3"]);
    let tags = generate_music_tags(&listing);
    assert!(tags.contains(&"WAV".to_string()));
    assert!(tags.contains(&"MP3".to_string()));
    assert!(tags.contains(&"RPP".to_string()));
    assert!(tags.contains(&"audio".to_string()));
    assert!(tags.contains(&"production".to_string()));
}

#[test]
fn music_scenario_tags_sorted_and_deduplicated() {
    let listing = entries(&["project.rpp", "kick.wav", "snare.mp3"]);
    let tags = ProjectInfo::generate_tags(&listing, ProjectType::Music);
    assert_eq!(
        tags,
        vec![
            "MP3".to_string(),
            "RPP".to_string(),
            "WAV".to_string(),
            "audio".to_string(),
            "production".to_string(),
        ]
    );
}

#[test]
fn daw_name_substring_adds_display_name() {
    let listing = entries(&["My Reaper Project.rpp"]);
    let tags = generate_music_tags(&listing);
    assert!(tags.contains(&"Reaper".to_string()));
    let listing2 = entries(&["fl studio song.flp"]);
    let tags2 = generate_music_tags(&listing2);
    assert!(tags2.contains(&"FL Studio".to_string()));
}

#[test]
fn daw_match_is_case_insensitive() {
    let listing = entries(&["ABLETON LIVE set.als"]);
    let tags = generate_music_tags(&listing);
    assert!(tags.contains(&"Ableton Live".to_string()));
}

#[test]
fn no_daw_tag_without_substring() {
    let listing = entries(&["project.rpp"]);
    let tags = generate_music_tags(&listing);
    assert!(!tags.contains(&"Reaper".to_string()));
}
