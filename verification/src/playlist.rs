//! Track list, play order, cursor, shuffle and repeat.
//!
//! `tracks` is display order. The play order is a permutation of track
//! indices (identity when shuffle is off) and the cursor is a position in
//! the play order, not in `tracks`.

use vstd::prelude::*;

use rand::rngs::StdRng;

use crate::library::{
    find_track, first_with_path, fresh_tracks, has_path, lemma_first_with_path, lemma_fresh_tracks_len,
    Track,
};
use crate::paths::same_path;
use crate::random::{random_up_to, shuffle_in_place};
use crate::time::Duration;

verus! {

broadcast use vstd::seq_lib::group_to_multiset_ensures;

#[derive(Debug, Clone, Copy, PartialEq, Eq, Structural)]
pub enum RepeatMode {
    Off,
    All,
    One,
}

impl RepeatMode {
    pub open spec fn spec_cycle(self) -> RepeatMode {
        match self {
            RepeatMode::Off => RepeatMode::All,
            RepeatMode::All => RepeatMode::One,
            RepeatMode::One => RepeatMode::Off,
        }
    }

    /// Off -> All -> One -> Off
    pub fn cycle(self) -> (r: Self)
        ensures
            r == self.spec_cycle(),
    {
        match self {
            RepeatMode::Off => RepeatMode::All,
            RepeatMode::All => RepeatMode::One,
            RepeatMode::One => RepeatMode::Off,
        }
    }

    /// Button label for the mode.
    pub fn label(self) -> (r: &'static str)
        ensures
            r@ == (match self {
                RepeatMode::Off => "Repeat: Off"@,
                RepeatMode::All => "Repeat: All"@,
                RepeatMode::One => "Repeat: One"@,
            }),
    {
        match self {
            RepeatMode::Off => "Repeat: Off",
            RepeatMode::All => "Repeat: All",
            RepeatMode::One => "Repeat: One",
        }
    }
}

/// `order` lists every index below `n` exactly once.
pub open spec fn is_index_permutation(order: Seq<usize>, n: nat) -> bool {
    &&& order.len() == n
    &&& forall|i: int| 0 <= i < order.len() ==> (#[trigger] order[i] as int) < n
    &&& forall|x: usize| (x as int) < n ==> #[trigger] order.contains(x)
    &&& order.no_duplicates()
}

/// The sequential order `0, 1, ..., n - 1`.
pub open spec fn identity_order(n: nat) -> Seq<usize> {
    Seq::new(n, |i: int| i as usize)
}

/// The position of `x` in `order`, if it occurs there.
pub open spec fn position_in(order: Seq<usize>, x: usize) -> Option<usize> {
    if exists|c: int| 0 <= c < order.len() && order[c] == x {
        Some((choose|c: int| 0 <= c < order.len() && order[c] == x) as usize)
    } else {
        None
    }
}

/// Indices below `n`.
pub open spec fn index_below(n: nat) -> spec_fn(usize) -> bool {
    |x: usize| (x as int) < n
}

/// Where the cursor goes from position `c` in an order of length `n`.
pub open spec fn step_target(c: usize, n: nat, forward: bool, wrap: bool) -> Option<usize> {
    if forward {
        if c + 1 < n {
            Some((c + 1) as usize)
        } else if wrap {
            Some(0)
        } else {
            None
        }
    } else if c > 0 {
        Some((c - 1) as usize)
    } else if wrap {
        Some((n - 1) as usize)
    } else {
        None
    }
}

proof fn lemma_identity_is_permutation(n: nat)
    requires
        n <= usize::MAX,
    ensures
        is_index_permutation(identity_order(n), n),
{
    let s = identity_order(n);
    assert forall|i: int| 0 <= i < s.len() implies (#[trigger] s[i] as int) == i by {}
    assert(s.no_duplicates());
    assert forall|x: usize| (x as int) < n implies #[trigger] s.contains(x) by {
        assert(s[x as int] == x);
    }
}

proof fn lemma_rearrangement_is_permutation(a: Seq<usize>, b: Seq<usize>, n: nat)
    requires
        is_index_permutation(a, n),
        b.len() == a.len(),
        b.to_multiset() == a.to_multiset(),
    ensures
        is_index_permutation(b, n),
{
    assert forall|i: int| 0 <= i < b.len() implies (#[trigger] b[i] as int) < n by {
        assert(b.contains(b[i]));
        assert(b.to_multiset().count(b[i]) > 0);
        assert(a.to_multiset().count(b[i]) > 0);
        assert(a.contains(b[i]));
    }
    assert forall|x: usize| (x as int) < n implies #[trigger] b.contains(x) by {
        assert(a.contains(x));
        assert(a.to_multiset().count(x) > 0);
    }
    a.lemma_multiset_has_no_duplicates();
    b.lemma_multiset_has_no_duplicates_conv();
}

proof fn lemma_position_in_permutation(order: Seq<usize>, n: nat, x: usize)
    requires
        is_index_permutation(order, n),
        (x as int) < n,
        n <= usize::MAX,
    ensures
        position_in(order, x) matches Some(c) && (c as int) < n && order[c as int] == x,
{
    assert(order.contains(x));
    let c = choose|c: int| 0 <= c < order.len() && order[c] == x;
}

proof fn lemma_insert_fresh_index(order: Seq<usize>, n: nat, pos: int)
    requires
        is_index_permutation(order, n),
        0 <= pos <= n,
        n < usize::MAX,
    ensures
        is_index_permutation(order.insert(pos, n as usize), n + 1),
        forall|i: int| 0 <= i < pos ==> #[trigger] order.insert(pos, n as usize)[i] == order[i],
        forall|i: int| pos <= i < n ==> order.insert(pos, n as usize)[i + 1] == order[i],
{
    let o2 = order.insert(pos, n as usize);
    order.insert_ensures(pos, n as usize);
    assert forall|i: int| 0 <= i < o2.len() implies (#[trigger] o2[i] as int) < n + 1 by {
        if i > pos {
            assert(o2[i] == order[i - 1]);
        }
    }
    assert forall|x: usize| (x as int) < n + 1 implies #[trigger] o2.contains(x) by {
        if (x as int) == n {
            assert(o2[pos] == x);
        } else {
            assert(order.contains(x));
            let j = choose|j: int| 0 <= j < order.len() && order[j] == x;
            if j < pos {
                assert(o2[j] == x);
            } else {
                assert(o2[j + 1] == x);
            }
        }
    }
    assert forall|i: int, j: int| 0 <= i < o2.len() && 0 <= j < o2.len() && i != j implies o2[i]
        != o2[j] by {
        let oi = if i < pos { i } else { i - 1 };
        let oj = if j < pos { j } else { j - 1 };
        if i != pos && j != pos {
            assert(o2[i] == order[oi]);
            assert(o2[j] == order[oj]);
        } else if i == pos {
            assert(o2[j] == order[oj]);
        } else {
            assert(o2[i] == order[oi]);
        }
    }
}

proof fn lemma_fresh_step(existing: Seq<Track>, prefix: Seq<Track>, x: Track)
    ensures
        fresh_tracks(existing, prefix.push(x)) == (if has_path(
            existing + fresh_tracks(existing, prefix),
            x.path@,
        ) {
            fresh_tracks(existing, prefix)
        } else {
            fresh_tracks(existing, prefix).push(x)
        }),
        existing + fresh_tracks(existing, prefix).push(x) == (existing + fresh_tracks(
            existing,
            prefix,
        )).push(x),
{
    assert(prefix.push(x).drop_last() == prefix);
    assert(existing + fresh_tracks(existing, prefix).push(x) =~= (existing + fresh_tracks(
        existing,
        prefix,
    )).push(x));
}

proof fn lemma_appended_indices(base: Seq<usize>, n: nat, a: nat)
    ensures
        (base + Seq::new(a, |i: int| (n + i) as usize)).push((n + a) as usize) == base + Seq::new(
            a + 1,
            |i: int| (n + i) as usize,
        ),
{
    assert((base + Seq::new(a, |i: int| (n + i) as usize)).push((n + a) as usize) =~= base
        + Seq::new(a + 1, |i: int| (n + i) as usize));
}

proof fn lemma_filter_all_kept(s: Seq<usize>, n: nat)
    requires
        forall|i: int| 0 <= i < s.len() ==> (#[trigger] s[i] as int) < n,
    ensures
        s.filter(index_below(n)) == s,
    decreases s.len(),
{
    reveal_with_fuel(Seq::<_>::filter, 1);
    if s.len() > 0 {
        lemma_filter_all_kept(s.drop_last(), n);
        assert(s == s.drop_last().push(s.last()));
    }
}

proof fn lemma_filter_insert_rejected(s: Seq<usize>, pos: int, x: usize, pred: spec_fn(usize) -> bool)
    requires
        0 <= pos <= s.len(),
        !pred(x),
    ensures
        s.insert(pos, x).filter(pred) == s.filter(pred),
    decreases s.len(),
{
    reveal_with_fuel(Seq::<_>::filter, 1);
    if pos == s.len() {
        assert(s.insert(pos, x) == s.push(x));
        assert(s.push(x).drop_last() == s);
    } else {
        let t = s.drop_last();
        lemma_filter_insert_rejected(t, pos, x, pred);
        assert(s.insert(pos, x) == t.insert(pos, x).push(s.last()));
        assert(s.insert(pos, x).drop_last() == t.insert(pos, x));
        assert(s == t.push(s.last()));
    }
}

fn identity(n: usize) -> (v: Vec<usize>)
    ensures
        v@ == identity_order(n as nat),
{
    let mut v: Vec<usize> = Vec::new();
    for i in 0..n
        invariant
            v@ == identity_order(i as nat),
    {
        v.push(i);
        assert(v@ =~= identity_order((i + 1) as nat));
    }
    v
}

/// The first position of `x` in `order`.
fn position_of(order: &Vec<usize>, x: usize) -> (r: Option<usize>)
    requires
        order@.no_duplicates(),
    ensures
        r == position_in(order@, x),
{
    let n = order.len();
    for c in 0..n
        invariant
            n == order.len(),
            order@.no_duplicates(),
            forall|j: int| 0 <= j < c ==> order@[j] != x,
    {
        if order[c] == x {
            assert(exists|k: int| 0 <= k < order@.len() && order@[k] == x) by {
                assert(order@[c as int] == x);
            }
            let ghost k = choose|k: int| 0 <= k < order@.len() && order@[k] == x;
            assert(order@[k] == order@[c as int]);
            assert(k == c);
            return Some(c);
        }
    }
    None
}

/// The loaded tracks plus the order they play in.
///
/// `tracks` is display order (sorted, filtered only at render time).
/// `order` is play order: a permutation of track indices — identity when
/// shuffle is off. `cursor` points into `order`, not into `tracks`.
/// Every method keeps `wf` (the permutation and cursor bounds) and asks
/// for it on entry.
pub struct Playlist {
    pub tracks: Vec<Track>,
    pub order: Vec<usize>,
    pub cursor: Option<usize>,
    pub shuffle: bool,
    pub repeat: RepeatMode,
}

impl Playlist {
    /// The play order is a permutation of the track indices and the cursor,
    /// when set, lies inside it.
    pub open spec fn wf(&self) -> bool {
        &&& is_index_permutation(self.order@, self.tracks@.len())
        &&& (self.cursor matches Some(c) ==> (c as int) < self.tracks@.len())
    }

    /// Index into `tracks` of the track under the cursor.
    pub open spec fn spec_current_index(&self) -> Option<usize> {
        match self.cursor {
            Some(c) => Some(self.order@[c as int]),
            None => None,
        }
    }

    /// Path of the track under the cursor.
    pub open spec fn spec_current_path(&self) -> Option<Seq<char>> {
        match self.spec_current_index() {
            Some(i) => Some(self.tracks@[i as int].path@),
            None => None,
        }
    }

    pub fn new() -> (p: Self)
        ensures
            p.wf(),
            p.tracks@.len() == 0,
            p.order@.len() == 0,
            p.cursor is None,
            !p.shuffle,
            p.repeat == RepeatMode::Off,
    {
        let p = Playlist {
            tracks: Vec::new(),
            order: Vec::new(),
            cursor: None,
            shuffle: false,
            repeat: RepeatMode::Off,
        };
        proof {
            lemma_identity_is_permutation(0);
            assert(p.order@ =~= identity_order(0));
        }
        p
    }

    /// A fresh play order over the current tracks: sequential when shuffle
    /// is off, a random rearrangement of it otherwise.
    fn rebuild_order(&mut self, rng: &mut StdRng)
        ensures
            final(self).tracks == old(self).tracks,
            final(self).cursor == old(self).cursor,
            final(self).shuffle == old(self).shuffle,
            final(self).repeat == old(self).repeat,
            is_index_permutation(final(self).order@, final(self).tracks@.len()),
            !final(self).shuffle ==> final(self).order@ == identity_order(final(self).tracks@.len()),
            !old(self).shuffle ==> *final(rng) == *old(rng),
    {
        let n = self.tracks.len();
        let mut order = identity(n);
        proof {
            lemma_identity_is_permutation(n as nat);
        }
        if self.shuffle {
            let ghost before = order@;
            shuffle_in_place(&mut order, rng);
            proof {
                lemma_rearrangement_is_permutation(before, order@, n as nat);
            }
        }
        self.order = order;
    }

    /// Replace the track list. Preserves the current track if it is still in
    /// the list (matched by path), so rescanning doesn't kill playback.
    pub fn set_tracks(&mut self, tracks: Vec<Track>, rng: &mut StdRng)
        requires
            old(self).wf(),
        ensures
            final(self).wf(),
            final(self).tracks@ == tracks@,
            final(self).shuffle == old(self).shuffle,
            final(self).repeat == old(self).repeat,
            !final(self).shuffle ==> final(self).order@ == identity_order(tracks@.len()),
            !old(self).shuffle ==> *final(rng) == *old(rng),
            final(self).spec_current_index() == (match old(self).spec_current_path() {
                Some(p) => first_with_path(tracks@, p),
                None => None,
            }),
    {
        let current_path: Option<String> = match self.current() {
            Some(t) => Some(t.path.clone()),
            None => None,
        };
        self.tracks = tracks;
        self.rebuild_order(rng);
        self.cursor = match current_path {
            None => None,
            Some(p) => self.cursor_for_path(p.as_str()),
        };
    }

    /// The cursor position of the first track whose path is `path`.
    fn cursor_for_path(&self, path: &str) -> (r: Option<usize>)
        requires
            is_index_permutation(self.order@, self.tracks@.len()),
        ensures
            match first_with_path(self.tracks@, path@) {
                None => r is None,
                Some(idx) => r matches Some(c) && (c as int) < self.tracks@.len() && self.order@[c as int] == idx,
            },
    {
        match find_track(&self.tracks, path) {
            None => None,
            Some(idx) => {
                proof {
                    lemma_position_in_permutation(self.order@, self.tracks@.len(), idx);
                }
                position_of(&self.order, idx)
            },
        }
    }

    pub fn is_empty(&self) -> (r: bool)
        ensures
            r == (self.tracks@.len() == 0),
    {
        self.tracks.len() == 0
    }

    /// Index into `tracks` of the currently loaded track.
    pub fn current_index(&self) -> (r: Option<usize>)
        requires
            self.wf(),
        ensures
            r == self.spec_current_index(),
            r matches Some(i) ==> (i as int) < self.tracks@.len(),
    {
        match self.cursor {
            Some(c) => Some(self.order[c]),
            None => None,
        }
    }

    /// The currently loaded track.
    pub fn current(&self) -> (r: Option<&Track>)
        requires
            self.wf(),
        ensures
            match r {
                Some(t) => self.spec_current_index() matches Some(i) && *t == self.tracks@[i as int],
                None => self.spec_current_index() is None,
            },
    {
        match self.current_index() {
            Some(i) => Some(&self.tracks[i]),
            None => None,
        }
    }

    /// Jump to a specific track (e.g. user double-clicked a row).
    /// Returns the index into `tracks` that should be played.
    pub fn select(&mut self, track_index: usize) -> (r: Option<usize>)
        requires
            old(self).wf(),
        ensures
            final(self).wf(),
            final(self).tracks == old(self).tracks,
            final(self).order@ == old(self).order@,
            final(self).shuffle == old(self).shuffle,
            final(self).repeat == old(self).repeat,
            final(self).cursor == position_in(old(self).order@, track_index),
            r == final(self).spec_current_index(),
            r == (if (track_index as int) < old(self).tracks@.len() {
                Some(track_index)
            } else {
                None
            }),
    {
        let n = self.tracks.len();
        self.cursor = position_of(&self.order, track_index);
        proof {
            if track_index < n {
                lemma_position_in_permutation(self.order@, n as nat, track_index);
            }
            if self.cursor is Some {
                let k = choose|k: int| 0 <= k < self.order@.len() && self.order@[k] == track_index;
                assert(self.order@.contains(track_index));
            }
        }
        self.current_index()
    }

    /// Track finished on its own. Honors repeat mode: One replays the track,
    /// All wraps at the end, Off yields None at the end (stop).
    pub fn advance_auto(&mut self) -> (r: Option<usize>)
        requires
            old(self).wf(),
        ensures
            final(self).wf(),
            Self::auto_advanced(*old(self), *final(self), r),
    {
        if self.repeat == RepeatMode::One {
            return self.current_index();
        }
        let wrap = self.repeat == RepeatMode::All;
        self.step(true, wrap)
    }

    /// What an automatic advance does: with repeat-one nothing moves and the
    /// current track comes back; otherwise the cursor steps forward, wrapping
    /// only with repeat-all.
    pub open spec fn auto_advanced(before: Playlist, after: Playlist, r: Option<usize>) -> bool {
        &&& after.tracks == before.tracks
        &&& after.order@ == before.order@
        &&& after.shuffle == before.shuffle
        &&& after.repeat == before.repeat
        &&& before.repeat == RepeatMode::One ==> after.cursor == before.cursor && r
            == before.spec_current_index()
        &&& before.repeat != RepeatMode::One ==> Self::stepped(
            before,
            after,
            r,
            true,
            before.repeat == RepeatMode::All,
        )
    }

    /// User pressed next/previous. Always cyclic regardless of repeat mode.
    pub fn step_manual(&mut self, forward: bool) -> (r: Option<usize>)
        requires
            old(self).wf(),
        ensures
            final(self).wf(),
            final(self).tracks == old(self).tracks,
            final(self).order@ == old(self).order@,
            final(self).shuffle == old(self).shuffle,
            final(self).repeat == old(self).repeat,
            Self::stepped(*old(self), *final(self), r, forward, true),
    {
        self.step(forward, true)
    }

    /// The cursor moved from `before` to `after` by one step in the given
    /// direction (wrapping or not) and `r` is the resulting track index;
    /// with no cursor, or at an end without wrapping, nothing moves and `r`
    /// is `None`.
    pub open spec fn stepped(
        before: Playlist,
        after: Playlist,
        r: Option<usize>,
        forward: bool,
        wrap: bool,
    ) -> bool {
        match before.cursor {
            None => r is None && after.cursor is None,
            Some(c) => match step_target(c, before.order@.len(), forward, wrap) {
                None => r is None && after.cursor == before.cursor,
                Some(k) => after.cursor == Some(k) && r == Some(before.order@[k as int]),
            },
        }
    }

    fn step(&mut self, forward: bool, wrap: bool) -> (r: Option<usize>)
        requires
            old(self).wf(),
        ensures
            final(self).wf(),
            final(self).tracks == old(self).tracks,
            final(self).order@ == old(self).order@,
            final(self).shuffle == old(self).shuffle,
            final(self).repeat == old(self).repeat,
            Self::stepped(*old(self), *final(self), r, forward, wrap),
    {
        let cursor = match self.cursor {
            Some(c) => c,
            None => return None,
        };
        let n = self.order.len();
        let next = if forward {
            if cursor + 1 < n {
                cursor + 1
            } else if wrap {
                0
            } else {
                return None;
            }
        } else if cursor > 0 {
            cursor - 1
        } else if wrap {
            n - 1
        } else {
            return None;
        };
        self.cursor = Some(next);
        self.current_index()
    }

    pub fn set_shuffle(&mut self, shuffle: bool, rng: &mut StdRng)
        requires
            old(self).wf(),
        ensures
            final(self).wf(),
            final(self).tracks == old(self).tracks,
            final(self).repeat == old(self).repeat,
            final(self).shuffle == shuffle,
            old(self).shuffle == shuffle ==> final(self).order@ == old(self).order@
                && final(self).cursor == old(self).cursor,
            old(self).shuffle != shuffle && !shuffle ==> final(self).order@ == identity_order(
                old(self).tracks@.len(),
            ),
            final(self).spec_current_index() == old(self).spec_current_index(),
            old(self).shuffle == shuffle ==> *final(self) == *old(self),
            old(self).shuffle == shuffle || !shuffle ==> *final(rng) == *old(rng),
    {
        if self.shuffle == shuffle {
            return;
        }
        self.shuffle = shuffle;
        let current = self.current_index();
        self.rebuild_order(rng);
        // Keep the currently playing track under the cursor.
        let n = self.tracks.len();
        if let Some(idx) = current {
            proof {
                lemma_position_in_permutation(self.order@, n as nat, idx);
            }
            self.cursor = position_of(&self.order, idx);
        }
    }

    /// Append tracks that aren't already in the playlist (matched by path).
    /// New tracks join the play order at the end, or at random positions
    /// when shuffle is on. Returns how many were added.
    #[verifier::rlimit(30)]
    #[verifier::spinoff_prover]
    pub fn add_tracks(&mut self, new_tracks: Vec<Track>, rng: &mut StdRng) -> (added: usize)
        requires
            old(self).wf(),
            old(self).tracks@.len() + new_tracks@.len() < usize::MAX,
        ensures
            final(self).wf(),
            final(self).tracks@ == old(self).tracks@ + fresh_tracks(old(self).tracks@, new_tracks@),
            added == fresh_tracks(old(self).tracks@, new_tracks@).len(),
            final(self).shuffle == old(self).shuffle,
            final(self).repeat == old(self).repeat,
            final(self).spec_current_index() == old(self).spec_current_index(),
            !old(self).shuffle ==> final(self).order@ == old(self).order@ + Seq::new(
                added as nat,
                |i: int| (old(self).tracks@.len() + i) as usize,
            ),
            final(self).order@.filter(index_below(old(self).tracks@.len())) == old(self).order@,
            !old(self).shuffle ==> *final(rng) == *old(rng),
    {
        let ghost old_tracks = self.tracks@;
        let ghost old_order = self.order@;
        let ghost old_current = self.spec_current_index();
        let ghost incoming = new_tracks@;
        proof {
            lemma_filter_all_kept(old_order, old_tracks.len());
        }
        let mut added: usize = 0;
        for track in it: new_tracks
            invariant
                it.seq() == new_tracks@,
                old_tracks.len() + new_tracks@.len() < usize::MAX,
                self.wf(),
                !self.shuffle ==> *rng == *old(rng),
                self.tracks@ == old_tracks + fresh_tracks(old_tracks, it.seq().take(it.index() as int)),
                added == fresh_tracks(old_tracks, it.seq().take(it.index() as int)).len(),
                self.shuffle == old(self).shuffle,
                self.repeat == old(self).repeat,
                self.spec_current_index() == old_current,
                !self.shuffle ==> self.order@ == old_order + Seq::new(
                    added as nat,
                    |i: int| (old_tracks.len() + i) as usize,
                ),
                old_tracks.len() <= self.tracks@.len(),
                self.order@.filter(index_below(old_tracks.len())) == old_order,
        {
            let ghost prefix = it.seq().take(it.index() as int);
            proof {
                assert(it.seq().take(it.index() + 1) == prefix.push(track));
                lemma_fresh_tracks_len(old_tracks, prefix);
                lemma_fresh_step(old_tracks, prefix, track);
            }
            if find_track(&self.tracks, track.path.as_str()).is_none() {
                let ghost before = self.order@;
                let idx = self.tracks.len();
                self.append_new_track(track, rng);
                added += 1;
                proof {
                    let pos = choose|pos: int|
                        0 <= pos <= before.len() && self.order@ == #[trigger] before.insert(pos, idx);
                    lemma_filter_insert_rejected(before, pos, idx, index_below(old_tracks.len()));
                    if !self.shuffle {
                        lemma_appended_indices(old_order, old_tracks.len(), (added - 1) as nat);
                    }
                }
            }
        }
        proof {
            assert(incoming.take(incoming.len() as int) == incoming);
        }
        added
    }

    /// Put `track` at the end of `tracks` and its index into the play order:
    /// at the end, or at a random position when shuffle is on (the cursor
    /// moves with the current track).
    fn append_new_track(&mut self, track: Track, rng: &mut StdRng)
        requires
            old(self).wf(),
            old(self).tracks@.len() + 1 < usize::MAX,
        ensures
            final(self).wf(),
            final(self).tracks@ == old(self).tracks@.push(track),
            final(self).shuffle == old(self).shuffle,
            final(self).repeat == old(self).repeat,
            final(self).spec_current_index() == old(self).spec_current_index(),
            exists|pos: int|
                0 <= pos <= old(self).order@.len() && final(self).order@ == #[trigger] old(
                    self,
                ).order@.insert(pos, old(self).tracks@.len() as usize),
            !old(self).shuffle ==> final(self).order@ == old(self).order@.push(
                old(self).tracks@.len() as usize,
            ),
            !old(self).shuffle ==> *final(rng) == *old(rng),
    {
        let idx = self.tracks.len();
        self.tracks.push(track);
        if self.shuffle {
            let pos = random_up_to(rng, self.order.len());
            proof {
                lemma_insert_fresh_index(self.order@, idx as nat, pos as int);
            }
            self.order.insert(pos, idx);
            if let Some(c) = self.cursor {
                // Inserting at or before the cursor shifts the current
                // track right — keep the cursor on it.
                if pos <= c {
                    self.cursor = Some(c + 1);
                }
            }
        } else {
            proof {
                lemma_insert_fresh_index(self.order@, idx as nat, idx as int);
                assert(self.order@.insert(idx as int, idx) == self.order@.push(idx));
            }
            self.order.push(idx);
        }
    }

    /// Update a track's duration once the decoder reports the real value.
    pub fn set_duration(&mut self, track_index: usize, duration: Duration)
        requires
            old(self).wf(),
        ensures
            final(self).wf(),
            final(self).order@ == old(self).order@,
            final(self).cursor == old(self).cursor,
            final(self).shuffle == old(self).shuffle,
            final(self).repeat == old(self).repeat,
            final(self).tracks@ == (if (track_index as int) < old(self).tracks@.len() {
                old(self).tracks@.update(
                    track_index as int,
                    Track { duration: Some(duration), ..old(self).tracks@[track_index as int] },
                )
            } else {
                old(self).tracks@
            }),
    {
        if track_index < self.tracks.len() {
            self.tracks[track_index].duration = Some(duration);
        }
    }
}

impl Default for Playlist {
    fn default() -> (p: Self)
        ensures
            p.wf(),
            p.tracks@.len() == 0,
            p.order@.len() == 0,
            p.cursor is None,
            !p.shuffle,
            p.repeat == RepeatMode::Off,
    {
        Self::new()
    }
}

/// Law: cycling the repeat mode three times gives the same mode back
/// (Off -> All -> One -> Off).
pub proof fn lemma_repeat_cycle_period(m: RepeatMode)
    ensures
        m.spec_cycle().spec_cycle().spec_cycle() == m,
        m.spec_cycle() != m,
{
}

/// Law: on a non-empty play order, a wrapping step forward and then one
/// back (or back, then forward) return to the starting position; a
/// wrapping step always lands somewhere.
pub proof fn lemma_step_undo(c: usize, n: nat)
    requires
        (c as int) < n,
        n <= usize::MAX,
    ensures
        step_target(c, n, true, true) matches Some(k) && (k as int) < n && step_target(k, n, false, true) == Some(c),
        step_target(c, n, false, true) matches Some(k) && (k as int) < n && step_target(k, n, true, true) == Some(c),
{
}

/// Law: without repeat, auto-advance stops after the last position of the
/// play order; with repeat-all it wraps to the first.
pub proof fn lemma_auto_advance_at_end(n: nat)
    requires
        0 < n <= usize::MAX,
    ensures
        step_target((n - 1) as usize, n, true, false) is None,
        step_target((n - 1) as usize, n, true, true) == Some(0usize),
{
}

/// Law: replacing the track list keeps the current track (matched by path)
/// whenever the new list still holds it.
pub proof fn lemma_set_tracks_keeps_current(before: Playlist, after: Playlist, tracks: Seq<Track>)
    requires
        before.wf(),
        after.wf(),
        after.tracks@ == tracks,
        after.spec_current_index() == (match before.spec_current_path() {
            Some(p) => first_with_path(tracks, p),
            None => None,
        }),
        before.spec_current_path() matches Some(p) && has_path(tracks, p),
    ensures
        after.spec_current_path() matches Some(q) && same_path(q, before.spec_current_path().unwrap()),
{
    let p = before.spec_current_path().unwrap();
    assert(tracks.len() == after.tracks.len());
    lemma_first_with_path(tracks, p);
}

/// Law: a track that is not in the new list leaves nothing current.
pub proof fn lemma_set_tracks_drops_missing_current(before: Playlist, after: Playlist, tracks: Seq<Track>)
    requires
        after.tracks@ == tracks,
        after.spec_current_index() == (match before.spec_current_path() {
            Some(p) => first_with_path(tracks, p),
            None => None,
        }),
        before.spec_current_path() matches Some(p) && !has_path(tracks, p),
    ensures
        after.spec_current_index() is None,
{
    assert(tracks.len() == after.tracks.len());
    lemma_first_with_path(tracks, before.spec_current_path().unwrap());
}

} // verus!
