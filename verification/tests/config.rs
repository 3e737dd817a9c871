use rustamp::config::Config;

#[test]
fn add_folder_deduplicates_and_sorts() {
    let mut config = Config::default();
    assert!(config.add_folder("/b".to_string()));
    assert!(config.add_folder("/a".to_string()));
    assert!(!config.add_folder("/b".to_string()));
    assert_eq!(config.folders, vec!["/a".to_string(), "/b".to_string()]);
}

#[test]
fn remove_folder_works() {
    let mut config = Config::default();
    config.add_folder("/a".to_string());
    config.add_folder("/b".to_string());
    config.remove_folder("/a");
    assert_eq!(config.folders, vec!["/b".to_string()]);
}

#[test]
fn add_folder_treats_trailing_slash_as_same_path() {
    let mut config = Config::default();
    assert!(config.add_folder("/music/rock".to_string()));
    assert!(!config.add_folder("/music/rock/".to_string()));
    assert!(!config.add_folder("/music//rock".to_string()));
    assert_eq!(config.folders, vec!["/music/rock".to_string()]);
}

#[test]
fn folders_sort_by_component_not_by_text() {
    // As paths, "/a/b" sorts before "/a-b" (component "a" < "a-b"), although
    // as plain text '-' < '/'.
    let mut config = Config::default();
    config.add_folder("/a-b".to_string());
    config.add_folder("/a/b".to_string());
    assert_eq!(config.folders, vec!["/a/b".to_string(), "/a-b".to_string()]);
}

#[test]
fn remove_folder_removes_equal_paths() {
    let mut config = Config {
        folders: vec!["/x/".to_string(), "/y".to_string(), "/x".to_string()],
        last_track: Some("/x/1.mp3".to_string()),
    };
    config.remove_folder("/x");
    assert_eq!(config.folders, vec!["/y".to_string()]);
    assert_eq!(config.last_track.as_deref(), Some("/x/1.mp3"));
}
