use rustamp::library::Track;
use rustamp::time::Duration;
use rustamp::ui::widgets::{format_khz, now_playing};

fn track(artist: Option<&str>, title: Option<&str>, album: Option<&str>) -> Track {
    Track {
        path: "/music/01 - Templars.mp3".to_string(),
        title: title.map(String::from),
        artist: artist.map(String::from),
        album: album.map(String::from),
        duration: None,
    }
}

#[test]
fn now_playing_joins_all_parts() {
    let t = track(Some("Sabaton"), Some("Templars"), Some("The Great War"));
    assert_eq!(
        now_playing(&t, Some(Duration::from_secs(225)), Some(44_100)),
        "Sabaton - Templars - The Great War :: 3:45 :: 44.1kHz"
    );
}

#[test]
fn now_playing_skips_missing_parts() {
    let t = track(Some("Sabaton"), Some("Templars"), None);
    assert_eq!(
        now_playing(&t, Some(Duration::from_secs(225)), Some(48_000)),
        "Sabaton - Templars :: 3:45 :: 48kHz"
    );
    let t = track(None, Some("Templars"), None);
    assert_eq!(now_playing(&t, None, None), "Templars");
}

#[test]
fn now_playing_falls_back_to_file_stem_for_title() {
    let t = track(None, None, None);
    assert_eq!(now_playing(&t, None, None), "01 - Templars");
}

#[test]
fn now_playing_ignores_blank_tags() {
    let t = track(Some("  "), Some("Templars"), Some(""));
    assert_eq!(now_playing(&t, None, None), "Templars");
}

#[test]
fn format_khz_trims_whole_rates() {
    assert_eq!(format_khz(44_100), "44.1kHz");
    assert_eq!(format_khz(48_000), "48kHz");
    assert_eq!(format_khz(22_050), "22.05kHz");
    assert_eq!(format_khz(96_000), "96kHz");
}
