use vstd::prelude::*;

use crate::paths::{file_stem, file_stem_of, is_same_path, same_path};
use crate::text::{
    chars_of, contains_chars, contains_run, lowercase, push_str, string_of, to_lowercase,
};
use crate::time::Duration;

verus! {

/// A single audio file discovered in a watched folder.
#[derive(Debug, Clone)]
pub struct Track {
    pub path: String,
    pub title: Option<String>,
    pub artist: Option<String>,
    pub album: Option<String>,
    /// Duration read from the file's tags; replaced by the decoder's value
    /// once the track has been loaded for playback.
    pub duration: Option<Duration>,
}

/// The file stem of the track's path, or the whole path when it has none.
pub open spec fn stem_or_path(t: Track) -> Seq<char> {
    match file_stem(t.path@) {
        Some(s) => s,
        None => t.path@,
    }
}

/// "Artist - Title", else the title, else the file stem (else the path).
pub open spec fn spec_display_title(t: Track) -> Seq<char> {
    match (t.artist, t.title) {
        (Some(a), Some(ti)) => a@ + seq![' ', '-', ' '] + ti@,
        (None, Some(ti)) => ti@,
        _ => stem_or_path(t),
    }
}

/// The title, else the file stem (else the path).
pub open spec fn spec_title_or_stem(t: Track) -> Seq<char> {
    match t.title {
        Some(ti) => ti@,
        None => stem_or_path(t),
    }
}

/// The album text, empty when there is none.
pub open spec fn album_text(t: Track) -> Seq<char> {
    match t.album {
        Some(a) => a@,
        None => seq![],
    }
}

/// Case-insensitive filter: an empty filter matches everything; otherwise
/// the lowercased filter must occur in the lowercased display title, album
/// or path.
pub open spec fn spec_matches_filter(t: Track, filter: Seq<char>) -> bool {
    filter.len() == 0 || {
        let needle = lowercase(filter);
        contains_run(lowercase(spec_display_title(t)), needle) || contains_run(
            lowercase(album_text(t)),
            needle,
        ) || contains_run(lowercase(t.path@), needle)
    }
}

impl Track {
    fn stem_or_path_text(&self) -> (r: String)
        ensures
            r@ == stem_or_path(*self),
    {
        match file_stem_of(self.path.as_str()) {
            Some(v) => string_of(&v),
            None => self.path.clone(),
        }
    }

    /// Human-readable label used in the playlist: "Artist - Title", falling
    /// back to title alone, then to the file name.
    pub fn display_title(&self) -> (r: String)
        ensures
            r@ == spec_display_title(*self),
    {
        match (&self.artist, &self.title) {
            (Some(a), Some(t)) => {
                let mut s = String::new();
                push_str(&mut s, a.as_str());
                proof {
                    reveal_strlit(" - ");
                }
                push_str(&mut s, " - ");
                push_str(&mut s, t.as_str());
                s
            },
            (None, Some(t)) => t.clone(),
            _ => self.stem_or_path_text(),
        }
    }

    /// The title, falling back to the file stem like the playlist does.
    pub fn title_or_stem(&self) -> (r: String)
        ensures
            r@ == spec_title_or_stem(*self),
    {
        match &self.title {
            Some(t) => t.clone(),
            None => self.stem_or_path_text(),
        }
    }
}

fn lowered_chars(s: &str) -> (v: Vec<char>)
    ensures
        v@ == lowercase(s@),
{
    let l = to_lowercase(s);
    chars_of(l.as_str())
}

/// Case-insensitive substring match used by the playlist filter box.
pub fn matches_filter(track: &Track, filter: &str) -> (r: bool)
    ensures
        r == spec_matches_filter(*track, filter@),
{
    if filter.is_empty() {
        return true;
    }
    let needle = lowered_chars(filter);
    let title = track.display_title();
    if contains_chars(&lowered_chars(title.as_str()), &needle) {
        return true;
    }
    let album = match &track.album {
        Some(a) => a.clone(),
        None => String::new(),
    };
    if contains_chars(&lowered_chars(album.as_str()), &needle) {
        return true;
    }
    contains_chars(&lowered_chars(track.path.as_str()), &needle)
}

/// Some track in `ts` has the path `p`.
pub open spec fn has_path(ts: Seq<Track>, p: Seq<char>) -> bool {
    exists|i: int| 0 <= i < ts.len() && same_path(#[trigger] ts[i].path@, p)
}

/// The tracks of `incoming` whose path is new: each one whose path is not
/// already among `existing` or among those kept before it.
pub open spec fn fresh_tracks(existing: Seq<Track>, incoming: Seq<Track>) -> Seq<Track>
    decreases incoming.len(),
{
    if incoming.len() == 0 {
        seq![]
    } else {
        let k = fresh_tracks(existing, incoming.drop_last());
        if has_path(existing + k, incoming.last().path@) {
            k
        } else {
            k.push(incoming.last())
        }
    }
}

pub proof fn lemma_fresh_tracks_len(existing: Seq<Track>, incoming: Seq<Track>)
    ensures
        fresh_tracks(existing, incoming).len() <= incoming.len(),
    decreases incoming.len(),
{
    if incoming.len() > 0 {
        lemma_fresh_tracks_len(existing, incoming.drop_last());
    }
}

/// Index of the first track in `ts` whose path is `p`.
pub open spec fn first_with_path(ts: Seq<Track>, p: Seq<char>) -> Option<usize> {
    if has_path(ts, p) {
        Some(
            (choose|i: int|
                0 <= i < ts.len() && same_path(ts[i].path@, p) && forall|j: int|
                    0 <= j < i ==> !same_path(#[trigger] ts[j].path@, p)) as usize,
        )
    } else {
        None
    }
}

/// The first track in `tracks` whose path is `path`.
pub fn find_track(tracks: &Vec<Track>, path: &str) -> (r: Option<usize>)
    ensures
        r == first_with_path(tracks@, path@),
        r matches Some(i) ==> i < tracks.len(),
{
    let n = tracks.len();
    for i in 0..n
        invariant
            n == tracks.len(),
            forall|j: int| 0 <= j < i ==> !same_path(#[trigger] tracks@[j].path@, path@),
    {
        if is_same_path(tracks[i].path.as_str(), path) {
            let ghost k = choose|k: int|
                0 <= k < tracks@.len() && same_path(tracks@[k].path@, path@) && forall|j: int|
                    0 <= j < k ==> !same_path(#[trigger] tracks@[j].path@, path@);
            assert(same_path(tracks@[i as int].path@, path@));
            assert(k == i) by {
                if k < i {
                    assert(!same_path(tracks@[k].path@, path@));
                }
                if i < k {
                    assert(!same_path(tracks@[i as int].path@, path@));
                }
            }
            return Some(i);
        }
    }
    None
}

/// Law: the tracks kept as new never share a path with one another nor with
/// the tracks already present.
pub proof fn lemma_fresh_tracks_distinct(existing: Seq<Track>, incoming: Seq<Track>)
    ensures
        forall|i: int, j: int|
            0 <= i < j < fresh_tracks(existing, incoming).len() ==> !same_path(
                (#[trigger] fresh_tracks(existing, incoming)[i]).path@,
                (#[trigger] fresh_tracks(existing, incoming)[j]).path@,
            ),
        forall|i: int, k: int|
            0 <= i < fresh_tracks(existing, incoming).len() && 0 <= k < existing.len() ==> !same_path(
                (#[trigger] fresh_tracks(existing, incoming)[i]).path@,
                (#[trigger] existing[k]).path@,
            ),
    decreases incoming.len(),
{
    if incoming.len() > 0 {
        lemma_fresh_tracks_distinct(existing, incoming.drop_last());
        let k = fresh_tracks(existing, incoming.drop_last());
        let x = incoming.last();
        let f = fresh_tracks(existing, incoming);
        if !has_path(existing + k, x.path@) {
            assert(f == k.push(x));
            assert forall|i: int| 0 <= i < k.len() implies !same_path(k[i].path@, x.path@) by {
                assert((existing + k)[existing.len() + i] == k[i]);
            }
            assert forall|k2: int| 0 <= k2 < existing.len() implies !same_path(x.path@, existing[k2].path@) by {
                assert((existing + k)[k2] == existing[k2]);
            }
            assert forall|i: int, j: int| 0 <= i < j < f.len() implies !same_path(
                (#[trigger] f[i]).path@,
                (#[trigger] f[j]).path@,
            ) by {
                if j == k.len() {
                    assert(f[i] == k[i]);
                } else {
                    assert(f[i] == k[i] && f[j] == k[j]);
                }
            }
            assert forall|i: int, k2: int| 0 <= i < f.len() && 0 <= k2 < existing.len() implies !same_path(
                (#[trigger] f[i]).path@,
                (#[trigger] existing[k2]).path@,
            ) by {
                if i < k.len() {
                    assert(f[i] == k[i]);
                }
            }
        }
    }
}

/// Every incoming track's path is present once the fresh ones are appended.
proof fn lemma_fresh_tracks_cover(existing: Seq<Track>, incoming: Seq<Track>)
    ensures
        forall|i: int|
            0 <= i < incoming.len() ==> has_path(
                existing + fresh_tracks(existing, incoming),
                (#[trigger] incoming[i]).path@,
            ),
    decreases incoming.len(),
{
    if incoming.len() > 0 {
        let s = incoming.drop_last();
        let x = incoming.last();
        lemma_fresh_tracks_cover(existing, s);
        let k = fresh_tracks(existing, s);
        let f = fresh_tracks(existing, incoming);
        let all = existing + f;
        assert forall|i: int| 0 <= i < incoming.len() implies has_path(all, (#[trigger] incoming[i]).path@) by {
            if i < s.len() {
                assert(incoming[i] == s[i]);
                assert(has_path(existing + k, s[i].path@));
                let w = choose|w: int| 0 <= w < (existing + k).len() && same_path(#[trigger] (existing + k)[w].path@, s[i].path@);
                if f == k {
                } else {
                    assert(f == k.push(x));
                    assert(all[w] == (existing + k)[w]);
                }
            } else {
                if has_path(existing + k, x.path@) {
                    assert(f == k);
                } else {
                    assert(f == k.push(x));
                    assert(all[all.len() - 1] == x);
                    assert(same_path(all[all.len() - 1].path@, x.path@));
                }
            }
        }
    }
}

/// Law: adding the same tracks a second time adds nothing: once the fresh
/// tracks have been appended, none of the incoming tracks is fresh.
pub proof fn lemma_fresh_tracks_again_empty(existing: Seq<Track>, incoming: Seq<Track>)
    ensures
        fresh_tracks(existing + fresh_tracks(existing, incoming), incoming) == Seq::<Track>::empty(),
{
    lemma_fresh_tracks_cover(existing, incoming);
    lemma_fresh_none_when_covered(existing + fresh_tracks(existing, incoming), incoming);
}

/// When every incoming path is already present, nothing is fresh.
proof fn lemma_fresh_none_when_covered(existing: Seq<Track>, incoming: Seq<Track>)
    requires
        forall|i: int| 0 <= i < incoming.len() ==> has_path(existing, (#[trigger] incoming[i]).path@),
    ensures
        fresh_tracks(existing, incoming) == Seq::<Track>::empty(),
    decreases incoming.len(),
{
    if incoming.len() > 0 {
        let s = incoming.drop_last();
        assert forall|i: int| 0 <= i < s.len() implies has_path(existing, (#[trigger] s[i]).path@) by {
            assert(s[i] == incoming[i]);
        }
        lemma_fresh_none_when_covered(existing, s);
        assert(existing + Seq::<Track>::empty() == existing);
        assert(has_path(existing, incoming[incoming.len() - 1].path@));
    }
}

/// The first track with a path, when there is one, has that path.
pub proof fn lemma_first_with_path(ts: Seq<Track>, p: Seq<char>)
    requires
        ts.len() <= usize::MAX,
    ensures
        has_path(ts, p) ==> (first_with_path(ts, p) matches Some(i) && (i as int) < ts.len()
            && same_path(ts[i as int].path@, p)),
        !has_path(ts, p) ==> first_with_path(ts, p) is None,
{
    if has_path(ts, p) {
        let w = choose|i: int| 0 <= i < ts.len() && same_path(#[trigger] ts[i].path@, p);
        lemma_least_witness(ts, p, w);
        let i = choose|i: int|
            0 <= i < ts.len() && same_path(ts[i].path@, p) && forall|j: int|
                0 <= j < i ==> !same_path(#[trigger] ts[j].path@, p);
        assert((i as usize) as int == i);
    }
}

proof fn lemma_least_witness(ts: Seq<Track>, p: Seq<char>, w: int)
    requires
        0 <= w < ts.len(),
        same_path(ts[w].path@, p),
    ensures
        exists|i: int|
            0 <= i < ts.len() && same_path(ts[i].path@, p) && forall|j: int|
                0 <= j < i ==> !same_path(#[trigger] ts[j].path@, p),
    decreases w,
{
    if exists|j: int| 0 <= j < w && same_path(#[trigger] ts[j].path@, p) {
        let j = choose|j: int| 0 <= j < w && same_path(#[trigger] ts[j].path@, p);
        lemma_least_witness(ts, p, j);
    } else {
        assert(forall|j: int| 0 <= j < w ==> !same_path(#[trigger] ts[j].path@, p));
    }
}

} // verus!
