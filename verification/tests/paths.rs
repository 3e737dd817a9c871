use rustamp::library::Track;
use rustamp::paths::{extension_of_path, file_stem_of, is_same_path, parent_file_name_of};

fn s(v: Option<Vec<char>>) -> Option<String> {
    v.map(|c| c.into_iter().collect())
}

#[test]
fn file_stem_and_extension_follow_last_dot() {
    assert_eq!(s(file_stem_of("/music/a.b.mp3")), Some("a.b".to_string()));
    assert_eq!(s(extension_of_path("/music/a.b.mp3")), Some("mp3".to_string()));
    assert_eq!(s(file_stem_of("/music/.hidden")), Some(".hidden".to_string()));
    assert_eq!(s(extension_of_path("/music/.hidden")), None);
    assert_eq!(s(extension_of_path("/music/noext")), None);
    assert_eq!(s(extension_of_path("/music/song.")), Some(String::new()));
    assert_eq!(s(file_stem_of("/music/dir/")), Some("dir".to_string()));
    assert_eq!(s(file_stem_of("/")), None);
    assert_eq!(s(file_stem_of("/music/..")), None);
}

#[test]
fn parent_name_skips_dot_components() {
    assert_eq!(s(parent_file_name_of("/a/b/./c.mp3")), Some("b".to_string()));
    assert_eq!(s(parent_file_name_of("c.mp3")), None);
    assert_eq!(s(parent_file_name_of("/c.mp3")), None);
    assert_eq!(s(parent_file_name_of("x/../c.mp3")), None);
}

#[test]
fn same_path_compares_components() {
    assert!(is_same_path("/a/b", "/a//b/"));
    assert!(is_same_path("a/./b", "a/b"));
    assert!(!is_same_path("./a", "a"));
    assert!(!is_same_path("/a", "a"));
    assert!(!is_same_path("/a/B", "/a/b"));
}

#[test]
fn display_title_without_stem_uses_whole_path() {
    let t = Track {
        path: "/".to_string(),
        title: None,
        artist: Some("Band".to_string()),
        album: None,
        duration: None,
    };
    assert_eq!(t.display_title(), "/");
    assert_eq!(t.title_or_stem(), "/");
}
