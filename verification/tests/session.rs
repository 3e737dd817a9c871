use rand::rngs::StdRng;
use rand::SeedableRng;
use rustamp::audio::PlayState;
use rustamp::library::Track;
use rustamp::playlist::{Playlist, RepeatMode};
use rustamp::time::Duration;
use rustamp::ui::app::{
    auto_advance_next, current_duration, dropped_status, dropped_track_to_play, merge_extra_tracks,
    new_dropped_files, now_playing_prefix, play_button_label,
    step_target_track, toggle_play_action, visible_rows, AdvanceAction, ToggleAction,
};

fn track(p: &str) -> Track {
    Track { path: p.to_string(), title: None, artist: None, album: None, duration: None }
}

#[test]
fn toggle_play_follows_player_state() {
    assert_eq!(toggle_play_action(None, Some(1), None, false), ToggleAction::NoDevice);
    assert_eq!(toggle_play_action(Some(PlayState::Playing), None, None, false), ToggleAction::Pause);
    assert_eq!(toggle_play_action(Some(PlayState::Paused), None, None, false), ToggleAction::Resume);
    assert_eq!(toggle_play_action(Some(PlayState::Stopped), Some(3), Some(1), false), ToggleAction::Play(3));
    assert_eq!(toggle_play_action(Some(PlayState::Stopped), None, Some(1), false), ToggleAction::Play(1));
    assert_eq!(toggle_play_action(Some(PlayState::Stopped), None, None, false), ToggleAction::Play(0));
    assert_eq!(toggle_play_action(Some(PlayState::Stopped), None, None, true), ToggleAction::EmptyPlaylist);
}

#[test]
fn step_without_current_selects_first() {
    let mut p = Playlist::new();
    let mut rng = StdRng::seed_from_u64(3);
    assert_eq!(step_target_track(&mut p, true), None);
    p.set_tracks(vec![track("/a.mp3"), track("/b.mp3")], &mut rng);
    assert_eq!(step_target_track(&mut p, false), Some(0));
    assert_eq!(step_target_track(&mut p, false), Some(1));
    assert_eq!(step_target_track(&mut p, true), Some(0));
}

#[test]
fn current_duration_prefers_the_decoder() {
    let mut p = Playlist::new();
    let mut rng = StdRng::seed_from_u64(3);
    let mut t = track("/a.mp3");
    t.duration = Some(Duration::from_secs(10));
    p.set_tracks(vec![t], &mut rng);
    assert_eq!(current_duration(None, &p), None);
    p.select(0);
    assert_eq!(current_duration(None, &p), Some(Duration::from_secs(10)));
    assert_eq!(current_duration(Some(Duration::from_secs(12)), &p), Some(Duration::from_secs(12)));
    p.set_duration(0, Duration::from_secs(11));
    assert_eq!(current_duration(None, &p), Some(Duration::from_secs(11)));
}

#[test]
fn rescan_keeps_loose_dropped_files_once() {
    let scanned = vec![track("/lib/a.mp3")];
    let extras = vec![track("/lib//a.mp3"), track("/tmp/x.mp3"), track("/tmp/x.mp3")];
    let merged = merge_extra_tracks(scanned, extras);
    let paths: Vec<&str> = merged.iter().map(|t| t.path.as_str()).collect();
    assert_eq!(paths, vec!["/lib/a.mp3", "/tmp/x.mp3"]);
}

#[test]
fn dropped_files_keep_new_audio_only() {
    let files = vec![
        "/d/a.mp3".to_string(),
        "/d/notes.txt".to_string(),
        "/d/b.FLAC".to_string(),
        "/lib/c.mp3".to_string(),
    ];
    let extras = vec![track("/d/b.flac")];
    let tracks = vec![track("/lib/c.mp3")];
    assert_eq!(
        new_dropped_files(&files, &extras, &tracks),
        vec!["/d/a.mp3".to_string(), "/d/b.FLAC".to_string()]
    );
}

#[test]
fn dropped_status_lists_nonzero_parts() {
    assert_eq!(dropped_status(0, 0), None);
    assert_eq!(dropped_status(2, 0).as_deref(), Some("Dropped: 2 folder(s) added"));
    assert_eq!(dropped_status(0, 3).as_deref(), Some("Dropped: 3 track(s) added"));
    assert_eq!(
        dropped_status(1, 12).as_deref(),
        Some("Dropped: 1 folder(s) added, 12 track(s) added")
    );
}

fn three_tracks() -> Playlist {
    let mut p = Playlist::new();
    let mut rng = StdRng::seed_from_u64(5);
    p.set_tracks(vec![track("/m/a.mp3"), track("/m/b.mp3"), track("/m/c.mp3")], &mut rng);
    p
}

#[test]
fn auto_advance_tries_the_next_track() {
    let mut p = three_tracks();
    p.select(0);
    assert_eq!(auto_advance_next(&mut p, 0), AdvanceAction::Play(1));
    // The next one failed to start: skip it too.
    assert_eq!(auto_advance_next(&mut p, 1), AdvanceAction::Play(2));
    assert_eq!(p.current_index(), Some(2));
}

#[test]
fn auto_advance_stops_at_the_end_without_repeat() {
    let mut p = three_tracks();
    p.select(2);
    assert_eq!(auto_advance_next(&mut p, 0), AdvanceAction::Stop);
    assert_eq!(p.current_index(), Some(2));
}

#[test]
fn auto_advance_gives_up_after_trying_every_track() {
    let mut p = three_tracks();
    p.repeat = RepeatMode::All;
    p.select(1);
    assert_eq!(auto_advance_next(&mut p, 2), AdvanceAction::Play(2));
    assert_eq!(auto_advance_next(&mut p, 3), AdvanceAction::Stop);
    assert_eq!(p.current_index(), Some(2));
}

#[test]
fn auto_advance_on_an_empty_playlist_stops() {
    let mut p = Playlist::new();
    assert_eq!(auto_advance_next(&mut p, 0), AdvanceAction::Stop);
    assert_eq!(auto_advance_next(&mut p, 1), AdvanceAction::Stop);
}

#[test]
fn auto_advance_with_repeat_one_replays_the_track() {
    let mut p = three_tracks();
    p.repeat = RepeatMode::One;
    p.select(1);
    assert_eq!(auto_advance_next(&mut p, 0), AdvanceAction::Play(1));
}

#[test]
fn visible_rows_follow_the_filter() {
    let mut a = track("/m/Iron Maiden - Aces High.mp3");
    a.artist = Some("Iron Maiden".to_string());
    a.title = Some("Aces High".to_string());
    let b = track("/m/other.mp3");
    let mut c = track("/m/c.mp3");
    c.album = Some("Powerslave".to_string());
    let tracks = vec![a, b, c];
    assert_eq!(visible_rows(&tracks, ""), vec![0, 1, 2]);
    assert_eq!(visible_rows(&tracks, "ACES"), vec![0]);
    assert_eq!(visible_rows(&tracks, "powerslave"), vec![2]);
    assert_eq!(visible_rows(&tracks, "/m/"), vec![0, 1, 2]);
    assert!(visible_rows(&tracks, "zzz").is_empty());
}

#[test]
fn transport_labels_follow_the_player_state() {
    assert_eq!(play_button_label(Some(PlayState::Playing)), "|| Pause");
    assert_eq!(play_button_label(Some(PlayState::Paused)), "> Resume");
    assert_eq!(play_button_label(Some(PlayState::Stopped)), "> Play");
    assert_eq!(play_button_label(None), "> Play");
    assert_eq!(now_playing_prefix(Some(PlayState::Playing)), "> ");
    assert_eq!(now_playing_prefix(Some(PlayState::Paused)), "|| ");
    assert_eq!(now_playing_prefix(Some(PlayState::Stopped)), "");
    assert_eq!(now_playing_prefix(None), "");
}

#[test]
fn dropped_files_start_from_the_first_new_track() {
    assert_eq!(dropped_track_to_play(5, 2), Some(3));
    assert_eq!(dropped_track_to_play(2, 2), Some(0));
    assert_eq!(dropped_track_to_play(5, 0), None);
}
