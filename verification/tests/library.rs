use rustamp::library::{infer_from_folder, is_audio, matches_filter, Track};

#[test]
fn display_title_falls_back_to_file_stem() {
    let track = Track {
        path: "/music/01 - Cool Song.mp3".to_string(),
        title: None,
        artist: None,
        album: None,
        duration: None,
    };
    assert_eq!(track.display_title(), "01 - Cool Song");
}

#[test]
fn display_title_prefers_artist_and_title() {
    let track = Track {
        path: "/music/track.mp3".to_string(),
        title: Some("Song".to_string()),
        artist: Some("Band".to_string()),
        album: None,
        duration: None,
    };
    assert_eq!(track.display_title(), "Band - Song");
}

#[test]
fn matches_filter_is_case_insensitive() {
    let track = Track {
        path: "/music/song.mp3".to_string(),
        title: Some("Yellow Submarine".to_string()),
        artist: Some("The Beatles".to_string()),
        album: Some("Revolver".to_string()),
        duration: None,
    };
    assert!(matches_filter(&track, "beatles"));
    assert!(matches_filter(&track, "SUBMARINE"));
    assert!(matches_filter(&track, "revolver"));
    assert!(matches_filter(&track, ""));
    assert!(!matches_filter(&track, "zeppelin"));
}

#[test]
fn is_audio_checks_extension_case_insensitively() {
    assert!(is_audio("song.mp3"));
    assert!(is_audio("song.MP3"));
    assert!(is_audio("song.Flac"));
    assert!(is_audio("song.m4a"));
    assert!(is_audio("song.wav"));
    assert!(!is_audio("song.txt"));
    assert!(!is_audio("song"));
}

#[test]
fn infer_from_folder_parses_artist_album_convention() {
    let path = "/music/iced-earth--horror-show/01-song.mp3";
    assert_eq!(
        infer_from_folder(path),
        Some(("Iced Earth".to_string(), "Horror Show".to_string()))
    );
}

#[test]
fn infer_from_folder_rejects_non_conforming_names() {
    for dir in [
        "iced-earth-horror-show",
        "iced-earth--horror-show--1998",
        "--horror-show",
        "iced-earth--",
        "--",
    ] {
        let path = format!("/music/{dir}/song.mp3");
        assert_eq!(infer_from_folder(&path), None, "dir: {dir}");
    }
}

#[test]
fn infer_from_folder_handles_spaces_and_extra_hyphens() {
    let path = "/music/AC-DC--back in-black/song.mp3";
    assert_eq!(
        infer_from_folder(path),
        Some(("AC DC".to_string(), "Back In Black".to_string()))
    );
}

#[test]
fn display_title_without_artist_uses_title() {
    let track = Track {
        path: "/music/x.mp3".to_string(),
        title: Some("Only Title".to_string()),
        artist: None,
        album: None,
        duration: None,
    };
    assert_eq!(track.display_title(), "Only Title");
    let no_title = Track { title: None, artist: Some("A".to_string()), ..track };
    assert_eq!(no_title.display_title(), "x");
}

#[test]
fn matches_filter_searches_album_and_path() {
    let track = Track {
        path: "/Music/Prog/song.mp3".to_string(),
        title: None,
        artist: None,
        album: Some("Fragile".to_string()),
        duration: None,
    };
    assert!(matches_filter(&track, "frag"));
    assert!(matches_filter(&track, "prog/"));
    assert!(!matches_filter(&track, "yes"));
}

#[test]
fn is_audio_knows_every_supported_extension() {
    for ext in ["mp3", "flac", "ogg", "opus", "m4a", "aac", "wav", "aiff", "aif", "wv"] {
        assert!(is_audio(&format!("/x/y.{ext}")));
        assert!(is_audio(&format!("/x/y.{}", ext.to_uppercase())));
    }
    assert!(!is_audio("/x/.mp3"));
    assert!(is_audio("/x/y.mp3/")); // the trailing separator is not part of the name
    assert!(!is_audio("/x/y.mp"));
}
