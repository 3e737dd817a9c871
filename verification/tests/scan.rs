use rustamp::library::{missing_tag, scan_folders, track_from_path, FileTags, Track};
use rustamp::time::Duration;

fn bare(path: &str, artist: Option<&str>, title: Option<&str>) -> Track {
    Track {
        path: path.to_string(),
        title: title.map(String::from),
        artist: artist.map(String::from),
        album: None,
        duration: None,
    }
}

#[test]
fn track_from_path_infers_missing_tags_from_folder() {
    let track = track_from_path(
        "/tmp/root/iced-earth--horror-show/01-burning-times.mp3",
        FileTags::unreadable(),
    );
    assert_eq!(track.artist.as_deref(), Some("Iced Earth"));
    assert_eq!(track.album.as_deref(), Some("Horror Show"));
    assert_eq!(track.duration, None);
}

#[test]
fn track_from_path_leaves_tags_empty_for_plain_folder() {
    let track = track_from_path("/tmp/root/misc/song.mp3", FileTags::unreadable());
    assert_eq!(track.artist, None);
    assert_eq!(track.album, None);
}

#[test]
fn track_from_path_fills_fields_independently() {
    let tags = FileTags {
        title: Some("Burning Times".to_string()),
        artist: Some("Tagged Artist".to_string()),
        album: Some("   ".to_string()),
        duration: Some(Duration::from_secs(241)),
    };
    let track = track_from_path("/m/iced-earth--horror-show/01.mp3", tags);
    assert_eq!(track.artist.as_deref(), Some("Tagged Artist"));
    assert_eq!(track.album.as_deref(), Some("Horror Show"));
    assert_eq!(track.title.as_deref(), Some("Burning Times"));
    assert_eq!(track.duration, Some(Duration::from_secs(241)));
    assert_eq!(track.path, "/m/iced-earth--horror-show/01.mp3");
}

#[test]
fn zero_length_counts_as_unknown() {
    let tags = FileTags {
        title: None,
        artist: None,
        album: None,
        duration: Some(Duration::new(0, 0)),
    };
    let track = track_from_path("/m/a.mp3", tags);
    assert_eq!(track.duration, None);
    let tags = FileTags {
        title: None,
        artist: None,
        album: None,
        duration: Some(Duration::new(0, 1)),
    };
    assert_eq!(track_from_path("/m/a.mp3", tags).duration, Some(Duration::new(0, 1)));
}

#[test]
fn missing_tag_means_absent_or_blank() {
    assert!(missing_tag(&None));
    assert!(missing_tag(&Some(String::new())));
    assert!(missing_tag(&Some(" \t\u{a0}".to_string())));
    assert!(!missing_tag(&Some(" x ".to_string())));
}

#[test]
fn scan_folders_deduplicates_shared_files() {
    let root = vec![bare("/root/sub/x.mp3", None, None)];
    let sub = vec![bare("/root/sub/x.mp3", None, None)];
    let tracks = scan_folders(vec![root, sub]);
    assert_eq!(tracks.len(), 1);
}

#[test]
fn scan_folders_sorts_by_artist_then_title_ignoring_case() {
    let found = vec![
        vec![
            bare("/m/3.mp3", Some("beta"), Some("a")),
            bare("/m/1.mp3", Some("Alpha"), Some("Zed")),
        ],
        vec![
            bare("/m/2.mp3", Some("alpha"), Some("apple")),
            bare("/m/4.mp3", None, Some("Solo")),
            bare("/m//1.mp3", Some("dup"), Some("dup")),
        ],
    ];
    let tracks = scan_folders(found);
    let paths: Vec<&str> = tracks.iter().map(|t| t.path.as_str()).collect();
    assert_eq!(paths, vec!["/m/4.mp3", "/m/2.mp3", "/m/1.mp3", "/m/3.mp3"]);
}
