//! The persisted settings the player's logic reads: the watched folders
//! (kept deduplicated by path and sorted in path order) and the track that
//! was loaded at the last checkpoint.

use vstd::prelude::*;

use crate::paths::{
    compare_components, components, components_order, is_same_path,
    lemma_components_order_props, lemma_components_order_transitive, path_components, same_path,
};
use crate::sort::{
    key_view, lemma_stable_sorted_is_sorted_permutation, stable_sort_by_key, stable_sorted,
    total_preorder, SortKey,
};

verus! {

/// Path order (`Ord for Path`) on component lists: "sorts no later than".
pub open spec fn path_le(a: Seq<Seq<char>>, b: Seq<Seq<char>>) -> bool {
    components_order(a, b) <= 0
}

/// A path's components, cached for sorting.
pub struct PathKey {
    pub comps: Vec<Vec<char>>,
}

impl View for PathKey {
    type V = Seq<Seq<char>>;

    open spec fn view(&self) -> Seq<Seq<char>> {
        self.comps@.map_values(|p: Vec<char>| p@)
    }
}

impl SortKey for PathKey {
    open spec fn ordered(a: Seq<Seq<char>>, b: Seq<Seq<char>>) -> bool {
        path_le(a, b)
    }

    proof fn ordered_total(a: Seq<Seq<char>>, b: Seq<Seq<char>>) {
        lemma_components_order_props(a, b);
    }

    proof fn ordered_transitive(a: Seq<Seq<char>>, b: Seq<Seq<char>>, c: Seq<Seq<char>>) {
        lemma_components_order_transitive(a, b, c);
    }

    fn key_ordered(&self, other: &Self) -> (r: bool) {
        compare_components(&self.comps, &other.comps) <= 0
    }
}

/// Some folder in `folders` is the same path as `f`.
pub open spec fn watches(folders: Seq<String>, f: Seq<char>) -> bool {
    exists|i: int| 0 <= i < folders.len() && same_path(#[trigger] folders[i]@, f)
}

/// `folders` stably sorted in path order (`<[PathBuf]>::sort`).
pub open spec fn sorted_folders(folders: Seq<String>) -> Seq<String> {
    stable_sorted(
        folders.map_values(|f: String| (components(f@), f)),
        |a: Seq<Seq<char>>, b: Seq<Seq<char>>| path_le(a, b),
    ).map_values(|p: (Seq<Seq<char>>, String)| p.1)
}

/// Persisted application state that the logic reads.
pub struct Config {
    pub folders: Vec<String>,
    /// Track that was loaded at the last checkpoint, if any.
    pub last_track: Option<String>,
}

impl Default for Config {
    fn default() -> (c: Self)
        ensures
            c.folders@.len() == 0,
            c.last_track is None,
    {
        Config { folders: Vec::new(), last_track: None }
    }
}

/// Sort folder paths in path order, stable among equal paths.
fn sort_folders(folders: Vec<String>) -> (r: Vec<String>)
    ensures
        r@ == sorted_folders(folders@),
{
    let ghost src = folders@;
    let mut keyed: Vec<(PathKey, String)> = Vec::new();
    for f in it: folders
        invariant
            it.seq() == src,
            keyed@.map_values(|p: (PathKey, String)| key_view(p)) == src.take(
                it.index() as int,
            ).map_values(|f: String| (components(f@), f)),
    {
        let key = PathKey { comps: path_components(f.as_str()) };
        let ghost before = keyed@;
        keyed.push((key, f));
        proof {
            assert(keyed@.map_values(|p: (PathKey, String)| key_view(p)) == before.map_values(
                |p: (PathKey, String)| key_view(p),
            ).push((components(f@), f)));
            assert(src.take(it.index() + 1).map_values(|f: String| (components(f@), f))
                == src.take(it.index() as int).map_values(|f: String| (components(f@), f)).push(
                (components(f@), f),
            ));
        }
    }
    proof {
        assert(src.take(src.len() as int) == src);
    }
    let sorted = stable_sort_by_key(keyed);
    let ghost sv = sorted@.map_values(|p: (PathKey, String)| key_view(p));
    let mut out: Vec<String> = Vec::new();
    for p in it: sorted
        invariant
            it.seq().map_values(|p: (PathKey, String)| key_view(p)) == sv,
            out@ == sv.take(it.index() as int).map_values(|p: (Seq<Seq<char>>, String)| p.1),
    {
        let (_, f) = p;
        proof {
            assert(sv[it.index() as int].1 == f);
            assert(sv.take(it.index() + 1).map_values(|p: (Seq<Seq<char>>, String)| p.1)
                == sv.take(it.index() as int).map_values(|p: (Seq<Seq<char>>, String)| p.1).push(
                f,
            ));
        }
        out.push(f);
    }
    proof {
        assert(sv.take(sv.len() as int) == sv);
        let le1 = |a: Seq<Seq<char>>, b: Seq<Seq<char>>| PathKey::ordered(a, b);
        let le2 = |a: Seq<Seq<char>>, b: Seq<Seq<char>>| path_le(a, b);
        assert(le1 =~= le2);
    }
    out
}

/// Whether `folders` holds a path equal to `f`.
fn contains_folder(folders: &Vec<String>, f: &str) -> (r: bool)
    ensures
        r == watches(folders@, f@),
{
    let n = folders.len();
    for i in 0..n
        invariant
            n == folders.len(),
            forall|j: int| 0 <= j < i ==> !same_path(#[trigger] folders@[j]@, f@),
    {
        if is_same_path(folders[i].as_str(), f) {
            return true;
        }
    }
    false
}

impl Config {
    /// Add a folder if not already watched. Returns true if it was added;
    /// the folder list is then sorted in path order.
    pub fn add_folder(&mut self, folder: String) -> (added: bool)
        ensures
            added == !watches(old(self).folders@, folder@),
            final(self).last_track == old(self).last_track,
            added ==> final(self).folders@ == sorted_folders(old(self).folders@.push(folder)),
            !added ==> final(self).folders@ == old(self).folders@,
    {
        if contains_folder(&self.folders, folder.as_str()) {
            return false;
        }
        let mut folders: Vec<String> = Vec::new();
        std::mem::swap(&mut folders, &mut self.folders);
        folders.push(folder);
        self.folders = sort_folders(folders);
        true
    }

    /// Stop watching every folder equal (as a path) to `folder`.
    pub fn remove_folder(&mut self, folder: &str)
        ensures
            final(self).folders@ == old(self).folders@.filter(|f: String| !same_path(f@, folder@)),
            final(self).last_track == old(self).last_track,
    {
        let mut old_folders: Vec<String> = Vec::new();
        std::mem::swap(&mut old_folders, &mut self.folders);
        let ghost src = old_folders@;
        let ghost keep = |f: String| !same_path(f@, folder@);
        let mut kept: Vec<String> = Vec::new();
        for f in it: old_folders
            invariant
                it.seq() == src,
                keep == (|f: String| !same_path(f@, folder@)),
                kept@ == src.take(it.index() as int).filter(keep),
        {
            proof {
                reveal_with_fuel(Seq::<_>::filter, 1);
                assert(src.take(it.index() + 1).drop_last() == src.take(it.index() as int));
                assert(src.take(it.index() + 1).last() == f);
            }
            if !is_same_path(f.as_str(), folder) {
                kept.push(f);
            }
        }
        proof {
            assert(src.take(src.len() as int) == src);
        }
        self.folders = kept;
    }
}

/// Law: the sorted folder list is in path order and holds exactly the
/// folders given, as many as given.
pub proof fn lemma_sorted_folders(folders: Seq<String>)
    ensures
        forall|i: int, j: int|
            0 <= i < j < sorted_folders(folders).len() ==> path_le(
                components((#[trigger] sorted_folders(folders)[i])@),
                components((#[trigger] sorted_folders(folders)[j])@),
            ),
        sorted_folders(folders).len() == folders.len(),
        forall|f: String| sorted_folders(folders).contains(f) <==> folders.contains(f),
{
    broadcast use vstd::seq_lib::group_to_multiset_ensures;

    let pairs = folders.map_values(|f: String| (components(f@), f));
    let le = |a: Seq<Seq<char>>, b: Seq<Seq<char>>| path_le(a, b);
    assert(total_preorder(le)) by {
        assert forall|a: Seq<Seq<char>>, b: Seq<Seq<char>>| #[trigger] le(a, b) || le(b, a) by {
            PathKey::ordered_total(a, b);
        }
        assert forall|a: Seq<Seq<char>>, b: Seq<Seq<char>>, c: Seq<Seq<char>>|
            #[trigger] le(a, b) && #[trigger] le(b, c) implies le(a, c) by {
            PathKey::ordered_transitive(a, b, c);
        }
    }
    lemma_stable_sorted_is_sorted_permutation(pairs, le);
    let sorted = stable_sorted(pairs, le);
    let r = sorted.map_values(|p: (Seq<Seq<char>>, String)| p.1);
    assert(r == sorted_folders(folders));
    assert(sorted.len() == sorted.to_multiset().len());
    assert(pairs.len() == pairs.to_multiset().len());
    assert forall|i: int| 0 <= i < sorted.len() implies #[trigger] sorted[i].0 == components(
        sorted[i].1@,
    ) && folders.contains(sorted[i].1) by {
        assert(sorted.contains(sorted[i]));
        assert(sorted.to_multiset().count(sorted[i]) > 0);
        assert(pairs.contains(sorted[i]));
        let k = choose|k: int| 0 <= k < pairs.len() && pairs[k] == sorted[i];
        assert(folders[k] == sorted[i].1);
    }
    assert forall|i: int, j: int| 0 <= i < j < r.len() implies path_le(
        components((#[trigger] r[i])@),
        components((#[trigger] r[j])@),
    ) by {
        assert(sorted[i].0 == components(sorted[i].1@));
        assert(sorted[j].0 == components(sorted[j].1@));
        assert(le(sorted[i].0, sorted[j].0));
    }
    assert forall|f: String| r.contains(f) <==> folders.contains(f) by {
        if r.contains(f) {
            let i = choose|i: int| 0 <= i < r.len() && r[i] == f;
            assert(sorted[i].0 == components(sorted[i].1@));
            assert(folders.contains(sorted[i].1));
        }
        if folders.contains(f) {
            let k = choose|k: int| 0 <= k < folders.len() && folders[k] == f;
            assert(pairs[k] == (components(f@), f));
            assert(pairs.contains(pairs[k]));
            assert(pairs.to_multiset().count(pairs[k]) > 0);
            assert(sorted.contains(pairs[k]));
            let i = choose|i: int| 0 <= i < sorted.len() && sorted[i] == pairs[k];
            assert(r[i] == f);
        }
    }
}

/// Law: a folder that was added is watched afterwards, alongside every
/// folder watched before.
pub proof fn lemma_added_folder_is_watched(folders: Seq<String>, f: String)
    ensures
        watches(sorted_folders(folders.push(f)), f@),
        forall|g: Seq<char>| watches(folders, g) ==> watches(sorted_folders(folders.push(f)), g),
{
    let all = folders.push(f);
    let r = sorted_folders(all);
    lemma_sorted_folders(all);
    assert(all.contains(f)) by {
        assert(all[folders.len() as int] == f);
    }
    let i = choose|i: int| 0 <= i < r.len() && r[i] == f;
    assert(same_path(r[i]@, f@));
    assert forall|g: Seq<char>| watches(folders, g) implies watches(r, g) by {
        let k = choose|k: int| 0 <= k < folders.len() && same_path(#[trigger] folders[k]@, g);
        assert(all[k] == folders[k]);
        assert(all.contains(folders[k]));
        let j = choose|j: int| 0 <= j < r.len() && r[j] == folders[k];
        assert(same_path(r[j]@, g));
    }
}

/// Law: after removing a folder it is no longer watched, and every folder
/// that is a different path stays.
pub proof fn lemma_removed_folder_not_watched(folders: Seq<String>, f: Seq<char>)
    ensures
        !watches(folders.filter(|g: String| !same_path(g@, f)), f),
        forall|g: String|
            folders.contains(g) && !same_path(g@, f) ==> folders.filter(
                |g: String| !same_path(g@, f),
            ).contains(g),
{
    broadcast use vstd::seq_lib::group_filter_ensures;

    let keep = |g: String| !same_path(g@, f);
    let r = folders.filter(keep);
    assert forall|i: int| 0 <= i < r.len() implies !same_path(#[trigger] r[i]@, f) by {
        assert(r.contains(r[i]));
    }
    assert forall|g: String| folders.contains(g) && !same_path(g@, f) implies r.contains(g) by {
        let k = choose|k: int| 0 <= k < folders.len() && folders[k] == g;
        assert(keep(folders[k]));
    }
}

/// Law: folders that were already watched are not added again.
pub proof fn lemma_add_watched_folder_is_noop(folders: Seq<String>, f: String)
    requires
        folders.contains(f),
    ensures
        watches(folders, f@),
{
    let i = choose|i: int| 0 <= i < folders.len() && folders[i] == f;
    assert(same_path(folders[i]@, f@));
}

} // verus!
