//! The player window's decisions, apart from the window itself: what the
//! play/pause control does, which track the prev/next controls load, which
//! duration the seek bar shows, how rescans and dropped files merge into the
//! playlist, and the status line for a drop.

use vstd::prelude::*;

use crate::audio::PlayState;
use crate::library::{
    find_track, fresh_tracks, has_path, is_audio, matches_filter, spec_is_audio, spec_matches_filter,
    Track,
};
use crate::playlist::Playlist;
use crate::text::push_str;
use crate::time::Duration;
use crate::ui::widgets::{decimal, push_decimal};

verus! {

/// What the play/pause control does.
#[derive(Debug, Clone, Copy, PartialEq, Eq, Structural)]
pub enum ToggleAction {
    /// No audio device: report it.
    NoDevice,
    Pause,
    Resume,
    /// Start this track (an index into the playlist's tracks).
    Play(usize),
    /// Nothing to play: ask for a folder.
    EmptyPlaylist,
}

/// Toggle play/pause. If stopped, (re)start the selected or current track,
/// else the first one. `state` is `None` when there is no audio device.
pub fn toggle_play_action(
    state: Option<PlayState>,
    selected: Option<usize>,
    current: Option<usize>,
    playlist_empty: bool,
) -> (a: ToggleAction)
    ensures
        a == (match state {
            None => ToggleAction::NoDevice,
            Some(PlayState::Playing) => ToggleAction::Pause,
            Some(PlayState::Paused) => ToggleAction::Resume,
            Some(PlayState::Stopped) => match selected {
                Some(i) => ToggleAction::Play(i),
                None => match current {
                    Some(i) => ToggleAction::Play(i),
                    None => if playlist_empty {
                        ToggleAction::EmptyPlaylist
                    } else {
                        ToggleAction::Play(0)
                    },
                },
            },
        }),
{
    match state {
        None => ToggleAction::NoDevice,
        Some(PlayState::Playing) => ToggleAction::Pause,
        Some(PlayState::Paused) => ToggleAction::Resume,
        Some(PlayState::Stopped) => {
            let idx = match selected {
                Some(i) => Some(i),
                None => current,
            };
            match idx {
                Some(i) => ToggleAction::Play(i),
                None => if playlist_empty {
                    ToggleAction::EmptyPlaylist
                } else {
                    ToggleAction::Play(0)
                },
            }
        },
    }
}

/// Move to the next/previous track (user-initiated, wraps around): with no
/// current track, the first track is selected instead. Returns the track
/// index to load, if any.
pub fn step_target_track(playlist: &mut Playlist, forward: bool) -> (r: Option<usize>)
    requires
        old(playlist).wf(),
    ensures
        final(playlist).wf(),
        final(playlist).tracks == old(playlist).tracks,
        final(playlist).order@ == old(playlist).order@,
        final(playlist).shuffle == old(playlist).shuffle,
        final(playlist).repeat == old(playlist).repeat,
        old(playlist).tracks@.len() == 0 ==> r is None && final(playlist).cursor == old(playlist).cursor,
        old(playlist).tracks@.len() > 0 && old(playlist).cursor is None ==> r == Some(0usize)
            && final(playlist).spec_current_index() == Some(0usize),
        old(playlist).tracks@.len() > 0 && old(playlist).cursor is Some ==> Playlist::stepped(
            *old(playlist),
            *final(playlist),
            r,
            forward,
            true,
        ),
{
    if playlist.is_empty() {
        return None;
    }
    if playlist.current_index().is_none() {
        return playlist.select(0);
    }
    playlist.step_manual(forward)
}

/// What to do after a track ended (or failed to start) while advancing
/// automatically.
#[derive(Debug, Clone, Copy, PartialEq, Eq, Structural)]
pub enum AdvanceAction {
    /// Load this track (an index into the playlist's tracks).
    Play(usize),
    /// Give up: stop playback.
    Stop,
}

/// The track an action loads, if any.
pub open spec fn advance_target(a: AdvanceAction) -> Option<usize> {
    match a {
        AdvanceAction::Play(i) => Some(i),
        AdvanceAction::Stop => None,
    }
}

/// How many tracks an automatic advance tries before giving up: one per
/// track, and at least one.
pub open spec fn advance_attempt_limit(playlist: Playlist) -> nat {
    if playlist.tracks@.len() == 0 {
        1
    } else {
        playlist.tracks@.len()
    }
}

/// One round of the automatic advance after a track finished: `attempts`
/// tracks have already failed to start in this advance. Unplayable files
/// are skipped by calling this again with one more attempt; once every
/// track has been tried, or the playlist has nothing next (repeat off at
/// the end), playback stops.
pub fn auto_advance_next(playlist: &mut Playlist, attempts: usize) -> (a: AdvanceAction)
    requires
        old(playlist).wf(),
    ensures
        final(playlist).wf(),
        attempts >= advance_attempt_limit(*old(playlist)) ==> a == AdvanceAction::Stop
            && *final(playlist) == *old(playlist),
        attempts < advance_attempt_limit(*old(playlist)) ==> Playlist::auto_advanced(
            *old(playlist),
            *final(playlist),
            advance_target(a),
        ),
{
    let n = playlist.tracks.len();
    let limit = if n == 0 {
        1
    } else {
        n
    };
    if attempts >= limit {
        return AdvanceAction::Stop;
    }
    match playlist.advance_auto() {
        Some(i) => AdvanceAction::Play(i),
        None => AdvanceAction::Stop,
    }
}

/// The play/pause button's label for the player's state (`None` when there
/// is no audio device).
pub fn play_button_label(state: Option<PlayState>) -> (r: &'static str)
    ensures
        r@ == (match state {
            Some(PlayState::Playing) => "|| Pause"@,
            Some(PlayState::Paused) => "> Resume"@,
            _ => "> Play"@,
        }),
{
    match state {
        Some(PlayState::Playing) => "|| Pause",
        Some(PlayState::Paused) => "> Resume",
        _ => "> Play",
    }
}

/// What the "now playing" marquee puts before the title.
pub fn now_playing_prefix(state: Option<PlayState>) -> (r: &'static str)
    ensures
        r@ == (match state {
            Some(PlayState::Playing) => "> "@,
            Some(PlayState::Paused) => "|| "@,
            _ => ""@,
        }),
{
    match state {
        Some(PlayState::Playing) => "> ",
        Some(PlayState::Paused) => "|| ",
        _ => "",
    }
}

/// Which track starts after `dropped` dropped files were handed to
/// `Playlist::add_tracks`: the one `dropped` places from the end of the
/// grown list, where the first of them landed when all were new. Nothing
/// starts when nothing was dropped.
pub fn dropped_track_to_play(tracks_len: usize, dropped: usize) -> (r: Option<usize>)
    requires
        dropped <= tracks_len,
    ensures
        r == (if dropped == 0 {
            None
        } else {
            Some((tracks_len - dropped) as usize)
        }),
{
    if dropped == 0 {
        None
    } else {
        Some(tracks_len - dropped)
    }
}

/// The duration the seek bar shows: the decoder's when it reports one, else
/// the current track's stored duration.
pub fn current_duration(player_duration: Option<Duration>, playlist: &Playlist) -> (r: Option<
    Duration,
>)
    requires
        playlist.wf(),
    ensures
        r == (match player_duration {
            Some(d) => Some(d),
            None => match playlist.spec_current_index() {
                Some(i) => playlist.tracks@[i as int].duration,
                None => None,
            },
        }),
{
    match player_duration {
        Some(d) => Some(d),
        None => match playlist.current_index() {
            Some(i) => playlist.tracks[i].duration,
            None => None,
        },
    }
}

/// A finished rescan plus the loose dropped files: every dropped track whose
/// path the scan did not find is appended (once), so a rescan keeps them.
pub fn merge_extra_tracks(scanned: Vec<Track>, extras: Vec<Track>) -> (r: Vec<Track>)
    ensures
        r@ == scanned@ + fresh_tracks(scanned@, extras@),
{
    let ghost base = scanned@;
    let ghost src = extras@;
    let mut tracks = scanned;
    for extra in it: extras
        invariant
            it.seq() == src,
            tracks@ == base + fresh_tracks(base, src.take(it.index() as int)),
    {
        proof {
            assert(src.take(it.index() + 1).drop_last() == src.take(it.index() as int));
            assert(src.take(it.index() + 1).last() == extra);
        }
        if find_track(&tracks, extra.path.as_str()).is_none() {
            tracks.push(extra);
        }
    }
    proof {
        assert(src.take(src.len() as int) == src);
    }
    tracks
}

/// The dropped non-folder paths, in order, that name an audio file not yet
/// among the loose dropped tracks nor in the playlist.
pub open spec fn spec_new_dropped_files(
    files: Seq<String>,
    extras: Seq<Track>,
    tracks: Seq<Track>,
) -> Seq<String> {
    files.filter(
        |f: String| spec_is_audio(f@) && !has_path(extras, f@) && !has_path(tracks, f@),
    )
}

/// Which dropped files become new tracks: audio files not already loaded.
pub fn new_dropped_files(files: &Vec<String>, extras: &Vec<Track>, tracks: &Vec<Track>) -> (r: Vec<
    String,
>)
    ensures
        r@ == spec_new_dropped_files(files@, extras@, tracks@),
{
    let ghost keep = |f: String| spec_is_audio(f@) && !has_path(extras@, f@) && !has_path(tracks@, f@);
    let mut r: Vec<String> = Vec::new();
    let n = files.len();
    for i in 0..n
        invariant
            n == files.len(),
            keep == (|f: String| spec_is_audio(f@) && !has_path(extras@, f@) && !has_path(
                tracks@,
                f@,
            )),
            r@ == files@.take(i as int).filter(keep),
    {
        proof {
            reveal_with_fuel(Seq::<_>::filter, 1);
            assert(files@.take(i + 1).drop_last() == files@.take(i as int));
            assert(files@.take(i + 1).last() == files@[i as int]);
        }
        let f = &files[i];
        if is_audio(f.as_str()) && find_track(extras, f.as_str()).is_none() && find_track(
            tracks,
            f.as_str(),
        ).is_none() {
            r.push(f.clone());
        }
    }
    proof {
        assert(files@.take(n as int) == files@);
    }
    r
}

/// The indices of the tracks the filter box lets through, in order.
pub open spec fn spec_visible_rows(tracks: Seq<Track>, filter: Seq<char>) -> Seq<usize> {
    Seq::new(tracks.len(), |i: int| i as usize).filter(
        |i: usize| spec_matches_filter(tracks[i as int], filter),
    )
}

/// The rows the playlist shows for the filter text.
pub fn visible_rows(tracks: &Vec<Track>, filter: &str) -> (r: Vec<usize>)
    ensures
        r@ == spec_visible_rows(tracks@, filter@),
{
    let ghost keep = |i: usize| spec_matches_filter(tracks@[i as int], filter@);
    let ghost all = Seq::new(tracks@.len(), |i: int| i as usize);
    let mut r: Vec<usize> = Vec::new();
    let n = tracks.len();
    for i in 0..n
        invariant
            n == tracks.len(),
            all == Seq::new(tracks@.len(), |i: int| i as usize),
            keep == (|i: usize| spec_matches_filter(tracks@[i as int], filter@)),
            r@ == all.take(i as int).filter(keep),
    {
        proof {
            reveal_with_fuel(Seq::<_>::filter, 1);
            assert(all.take(i + 1).drop_last() == all.take(i as int));
            assert(all.take(i + 1).last() == i);
        }
        if matches_filter(&tracks[i], filter) {
            r.push(i);
        }
    }
    proof {
        assert(all.take(n as int) == all);
    }
    r
}

/// "Dropped: 2 folder(s) added, 3 track(s) added" (parts with a zero count
/// left out; nothing at all when both are zero).
pub open spec fn dropped_status_text(folders: nat, tracks: nat) -> Option<Seq<char>> {
    let f = decimal(folders) + " folder(s) added"@;
    let t = decimal(tracks) + " track(s) added"@;
    if folders > 0 && tracks > 0 {
        Some("Dropped: "@ + f + ", "@ + t)
    } else if folders > 0 {
        Some("Dropped: "@ + f)
    } else if tracks > 0 {
        Some("Dropped: "@ + t)
    } else {
        None
    }
}

/// The status line after a drag-and-drop.
pub fn dropped_status(folders_added: u64, tracks_added: u64) -> (r: Option<String>)
    ensures
        match r {
            Some(s) => dropped_status_text(folders_added as nat, tracks_added as nat) == Some(s@),
            None => dropped_status_text(folders_added as nat, tracks_added as nat) is None,
        },
{
    if folders_added == 0 && tracks_added == 0 {
        return None;
    }
    let mut s = String::new();
    push_str(&mut s, "Dropped: ");
    if folders_added > 0 {
        push_decimal(&mut s, folders_added);
        push_str(&mut s, " folder(s) added");
        if tracks_added > 0 {
            push_str(&mut s, ", ");
        }
    }
    if tracks_added > 0 {
        push_decimal(&mut s, tracks_added);
        push_str(&mut s, " track(s) added");
    }
    Some(s)
}

} // verus!
