use rand::rngs::StdRng;
use rand::SeedableRng;
use rustamp::library::Track;
use rustamp::playlist::{Playlist, RepeatMode};

fn track(name: &str) -> Track {
    Track {
        path: format!("/music/{name}.mp3"),
        title: Some(name.to_string()),
        artist: None,
        album: None,
        duration: None,
    }
}

fn playlist(n: usize) -> Playlist {
    let mut p = Playlist::new();
    let mut rng = StdRng::seed_from_u64(1);
    p.set_tracks((0..n).map(|i| track(&format!("t{i}"))).collect(), &mut rng);
    p
}

#[test]
fn repeat_mode_cycles() {
    assert_eq!(RepeatMode::Off.cycle(), RepeatMode::All);
    assert_eq!(RepeatMode::All.cycle(), RepeatMode::One);
    assert_eq!(RepeatMode::One.cycle(), RepeatMode::Off);
}

#[test]
fn select_sets_current() {
    let mut p = playlist(3);
    assert_eq!(p.select(2), Some(2));
    assert_eq!(p.current_index(), Some(2));
    assert_eq!(p.current().unwrap().title.as_deref(), Some("t2"));
}

#[test]
fn auto_advance_stops_at_end_when_repeat_off() {
    let mut p = playlist(3);
    p.select(0);
    assert_eq!(p.advance_auto(), Some(1));
    assert_eq!(p.advance_auto(), Some(2));
    assert_eq!(p.advance_auto(), None);
}

#[test]
fn auto_advance_wraps_when_repeat_all() {
    let mut p = playlist(2);
    p.repeat = RepeatMode::All;
    p.select(1);
    assert_eq!(p.advance_auto(), Some(0));
}

#[test]
fn auto_advance_repeats_track_when_repeat_one() {
    let mut p = playlist(2);
    p.repeat = RepeatMode::One;
    p.select(0);
    assert_eq!(p.advance_auto(), Some(0));
    assert_eq!(p.advance_auto(), Some(0));
}

#[test]
fn manual_next_wraps_even_when_repeat_off() {
    let mut p = playlist(2);
    p.select(1);
    assert_eq!(p.step_manual(true), Some(0));
}

#[test]
fn manual_prev_wraps() {
    let mut p = playlist(3);
    p.select(0);
    assert_eq!(p.step_manual(false), Some(2));
    assert_eq!(p.step_manual(false), Some(1));
}

#[test]
fn shuffle_keeps_current_track_under_cursor() {
    let mut p = playlist(10);
    let mut rng = StdRng::seed_from_u64(42);
    p.select(4);
    p.set_shuffle(true, &mut rng);
    assert!(p.shuffle);
    assert_eq!(p.current_index(), Some(4));
    // order is a permutation covering every track exactly once
    let mut sorted = p.order.clone();
    sorted.sort_unstable();
    assert_eq!(sorted, (0..10).collect::<Vec<_>>());
}

#[test]
fn unshuffle_restores_sequential_order() {
    let mut p = playlist(5);
    let mut rng = StdRng::seed_from_u64(7);
    p.select(2);
    p.set_shuffle(true, &mut rng);
    p.set_shuffle(false, &mut rng);
    assert_eq!(p.order, vec![0, 1, 2, 3, 4]);
    assert_eq!(p.current_index(), Some(2));
    assert_eq!(p.cursor, Some(2));
}

#[test]
fn set_tracks_preserves_current_by_path() {
    let mut p = playlist(3);
    let mut rng = StdRng::seed_from_u64(1);
    p.select(1);
    // Rescan finds same files plus one new, order may shift.
    let tracks = vec![track("new"), track("t0"), track("t1"), track("t2")];
    p.set_tracks(tracks, &mut rng);
    assert_eq!(p.current().unwrap().title.as_deref(), Some("t1"));
}

#[test]
fn add_tracks_appends_to_order() {
    let mut p = playlist(2);
    let mut rng = StdRng::seed_from_u64(1);
    assert_eq!(p.add_tracks(vec![track("extra")], &mut rng), 1);
    assert_eq!(p.tracks.len(), 3);
    assert_eq!(p.order, vec![0, 1, 2]);
}

#[test]
fn add_tracks_deduplicates_by_path() {
    let mut p = playlist(2);
    let mut rng = StdRng::seed_from_u64(1);
    assert_eq!(p.add_tracks(vec![track("t0"), track("new")], &mut rng), 1);
    assert_eq!(p.tracks.len(), 3);
}

#[test]
fn add_tracks_keeps_cursor_on_current_track_when_shuffled() {
    let mut p = playlist(5);
    let mut rng = StdRng::seed_from_u64(9);
    p.select(2);
    p.set_shuffle(true, &mut rng);
    let current = p.current_index();
    p.add_tracks(vec![track("x"), track("y")], &mut rng);
    assert_eq!(p.current_index(), current);
    let mut sorted = p.order.clone();
    sorted.sort_unstable();
    assert_eq!(sorted, (0..7).collect::<Vec<_>>());
}

#[test]
fn empty_playlist_yields_none() {
    let mut p = playlist(0);
    assert_eq!(p.current_index(), None);
    assert_eq!(p.advance_auto(), None);
    assert_eq!(p.step_manual(true), None);
}

#[test]
fn repeat_labels() {
    assert_eq!(RepeatMode::Off.label(), "Repeat: Off");
    assert_eq!(RepeatMode::All.label(), "Repeat: All");
    assert_eq!(RepeatMode::One.label(), "Repeat: One");
}

#[test]
fn next_then_previous_returns_to_the_same_track() {
    let mut p = playlist(4);
    let mut rng = StdRng::seed_from_u64(5);
    p.set_shuffle(true, &mut rng);
    p.select(3);
    for _ in 0..5 {
        p.step_manual(true);
        assert!(p.step_manual(false) == Some(3));
    }
}

#[test]
fn set_tracks_drops_cursor_when_current_vanishes() {
    let mut p = playlist(3);
    let mut rng = StdRng::seed_from_u64(1);
    p.select(1);
    p.set_tracks(vec![track("t0"), track("t2")], &mut rng);
    assert_eq!(p.current_index(), None);
    assert_eq!(p.cursor, None);
}

#[test]
fn select_out_of_range_clears_cursor() {
    let mut p = playlist(3);
    p.select(1);
    assert_eq!(p.select(7), None);
    assert_eq!(p.cursor, None);
}

#[test]
fn shuffled_add_keeps_old_relative_order() {
    let mut p = playlist(6);
    let mut rng = StdRng::seed_from_u64(11);
    p.set_shuffle(true, &mut rng);
    let before = p.order.clone();
    p.add_tracks(vec![track("n1"), track("n2"), track("n3")], &mut rng);
    let kept: Vec<usize> = p.order.iter().copied().filter(|&i| i < 6).collect();
    assert_eq!(kept, before);
}

#[test]
fn set_duration_ignores_out_of_range() {
    let mut p = playlist(2);
    p.set_duration(5, rustamp::time::Duration::from_secs(3));
    assert!(p.tracks.iter().all(|t| t.duration.is_none()));
    p.set_duration(1, rustamp::time::Duration::from_secs(3));
    assert_eq!(p.tracks[1].duration, Some(rustamp::time::Duration::from_secs(3)));
}

#[test]
fn adding_the_same_tracks_again_adds_nothing() {
    let mut p = playlist(2);
    let mut rng = StdRng::seed_from_u64(3);
    let incoming = vec![track("x"), track("t0"), track("y"), track("x")];
    assert_eq!(p.add_tracks(incoming.clone(), &mut rng), 2);
    let before: Vec<String> = p.tracks.iter().map(|t| t.path.clone()).collect();
    assert_eq!(p.add_tracks(incoming, &mut rng), 0);
    let after: Vec<String> = p.tracks.iter().map(|t| t.path.clone()).collect();
    assert_eq!(before, after);
}

#[test]
fn unshuffled_playlist_leaves_the_generator_alone() {
    let mut p = Playlist::new();
    let mut rng = StdRng::seed_from_u64(9);
    let twin = StdRng::seed_from_u64(9);
    p.set_tracks(vec![track("a"), track("b"), track("c")], &mut rng);
    p.add_tracks(vec![track("d"), track("e")], &mut rng);
    p.set_shuffle(false, &mut rng);
    assert_eq!(rng, twin);
    // Turning shuffle on draws from it; turning it off again does not.
    p.set_shuffle(true, &mut rng);
    let mut after_on = StdRng::seed_from_u64(9);
    let mut q = Playlist::new();
    q.set_tracks(vec![track("a"), track("b"), track("c"), track("d"), track("e")], &mut after_on);
    q.set_shuffle(true, &mut after_on);
    assert_eq!(rng, after_on);
    p.set_shuffle(false, &mut rng);
    assert_eq!(rng, after_on);
}
