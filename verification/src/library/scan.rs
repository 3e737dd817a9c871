//! Deciding which files are audio, filling in artist/album from the folder
//! name, and merging the tracks found in several watched folders.

use vstd::prelude::*;

use crate::library::track::{find_track, fresh_tracks, lemma_fresh_tracks_distinct, Track};
use crate::sort::{
    chars_order, compare_chars, lemma_chars_order_is_dictionary_order, lex_less, lemma_chars_order_antisymmetric, lemma_chars_order_transitive,
    stable_sort_by_key, stable_sorted, key_view, keys_sorted, lemma_stable_sorted_is_sorted_permutation,
    total_preorder, SortKey,
};
use crate::paths::{same_path, extension, extension_of_path, parent_file_name, parent_file_name_of};
use crate::text::{
    all_white, char_to_uppercase, chars_of, is_blank, is_white, is_white_char, lowercase, push_char,
    push_chars, to_lowercase, uppercase,
};
use crate::time::Duration;

verus! {

/// `char::to_ascii_lowercase`.
pub open spec fn ascii_lower(c: char) -> char {
    if 'A' <= c && c <= 'Z' {
        ((c as u8) + 32) as char
    } else {
        c
    }
}

/// `str::eq_ignore_ascii_case`.
pub open spec fn eq_ignore_ascii_case(a: Seq<char>, b: Seq<char>) -> bool {
    a.len() == b.len() && forall|i: int| 0 <= i < a.len() ==> ascii_lower(a[i]) == ascii_lower(b[i])
}

/// Extensions handed to the decoder.
pub open spec fn audio_extensions() -> Seq<Seq<char>> {
    seq![
        "mp3"@,
        "flac"@,
        "ogg"@,
        "opus"@,
        "m4a"@,
        "aac"@,
        "wav"@,
        "aiff"@,
        "aif"@,
        "wv"@,
    ]
}

/// The path has one of the audio extensions, compared ignoring ASCII case.
pub open spec fn spec_is_audio(path: Seq<char>) -> bool {
    match extension(path) {
        Some(ext) => exists|k: int|
            0 <= k < audio_extensions().len() && eq_ignore_ascii_case(
                #[trigger] audio_extensions()[k],
                ext,
            ),
        None => false,
    }
}

fn to_ascii_lower(c: char) -> (r: char)
    ensures
        r == ascii_lower(c),
{
    if 'A' <= c && c <= 'Z' {
        ((c as u8) + 32) as char
    } else {
        c
    }
}

fn equal_ignoring_ascii_case(a: &Vec<char>, b: &str) -> (r: bool)
    ensures
        r == eq_ignore_ascii_case(a@, b@),
{
    let bv = chars_of(b);
    if a.len() != bv.len() {
        return false;
    }
    let n = a.len();
    for i in 0..n
        invariant
            n == a.len(),
            n == bv.len(),
            bv@ == b@,
            forall|j: int| 0 <= j < i ==> ascii_lower(a@[j]) == ascii_lower(b@[j]),
    {
        if to_ascii_lower(a[i]) != to_ascii_lower(bv[i]) {
            return false;
        }
    }
    true
}

/// Whether the file's extension is one the decoder handles (any ASCII case).
pub fn is_audio(path: &str) -> (r: bool)
    ensures
        r == spec_is_audio(path@),
{
    let ext = match extension_of_path(path) {
        Some(e) => e,
        None => return false,
    };
    let exts: [&str; 10] = ["mp3", "flac", "ogg", "opus", "m4a", "aac", "wav", "aiff", "aif", "wv"];
    proof {
        assert(exts@.map_values(|s: &str| s@) =~= audio_extensions());
    }
    for k in 0..10
        invariant
            extension(path@) == Some(ext@),
            exts@.map_values(|s: &str| s@) == audio_extensions(),
            forall|j: int| 0 <= j < k ==> !eq_ignore_ascii_case(#[trigger] audio_extensions()[j], ext@),
    {
        assert(exts@[k as int]@ == audio_extensions()[k as int]);
        if equal_ignoring_ascii_case(&ext, exts[k]) {
            proof {
                lemma_eq_ignore_case_symmetric(ext@, audio_extensions()[k as int]);
            }
            return true;
        }
        proof {
            lemma_eq_ignore_case_symmetric(ext@, audio_extensions()[k as int]);
        }
    }
    false
}

proof fn lemma_eq_ignore_case_symmetric(a: Seq<char>, b: Seq<char>)
    ensures
        eq_ignore_ascii_case(a, b) == eq_ignore_ascii_case(b, a),
{
}

/// `-` becomes a space; everything else stays.
pub open spec fn dash_to_space(s: Seq<char>) -> Seq<char> {
    s.map_values(|c: char| if c == '-' { ' ' } else { c })
}

/// Left-to-right scan of `s` split at whitespace: the words closed so far
/// and the word still open.
pub open spec fn word_scan(s: Seq<char>) -> (Seq<Seq<char>>, Seq<char>)
    decreases s.len(),
{
    if s.len() == 0 {
        (seq![], seq![])
    } else {
        let (done, cur) = word_scan(s.drop_last());
        if is_white(s.last()) {
            (if cur.len() > 0 {
                done.push(cur)
            } else {
                done
            }, seq![])
        } else {
            (done, cur.push(s.last()))
        }
    }
}

/// `str::split_whitespace`: the maximal runs of non-whitespace characters.
pub open spec fn words(s: Seq<char>) -> Seq<Seq<char>> {
    let (done, cur) = word_scan(s);
    if cur.len() > 0 {
        done.push(cur)
    } else {
        done
    }
}

/// First character upper-cased (`char::to_uppercase`), the rest as is.
pub open spec fn capitalize(w: Seq<char>) -> Seq<char> {
    if w.len() == 0 {
        seq![]
    } else {
        uppercase(w[0]) + w.drop_first()
    }
}

/// The words joined with single spaces.
pub open spec fn join_words(ws: Seq<Seq<char>>) -> Seq<char>
    decreases ws.len(),
{
    if ws.len() == 0 {
        seq![]
    } else if ws.len() == 1 {
        ws[0]
    } else {
        join_words(ws.drop_last()) + seq![' '] + ws.last()
    }
}

/// A hyphen-separated folder-name fragment as a display name:
/// `horror-show` becomes `Horror Show`.
#[verifier::opaque]
pub open spec fn humanized(part: Seq<char>) -> Seq<char> {
    join_words(words(dash_to_space(part)).map_values(|w: Seq<char>| capitalize(w)))
}

proof fn lemma_join_push(ws: Seq<Seq<char>>, w: Seq<char>)
    ensures
        join_words(ws.push(w)) == if ws.len() == 0 {
            w
        } else {
            join_words(ws) + seq![' '] + w
        },
{
    assert(ws.push(w).drop_last() == ws);
}

fn capitalized(w: &Vec<char>) -> (r: Vec<char>)
    requires
        w.len() > 0,
    ensures
        r@ == capitalize(w@),
{
    let up = char_to_uppercase(w[0]);
    let mut r = chars_of(up.as_str());
    let n = w.len();
    for i in 1..n
        invariant
            n == w.len(),
            n > 0,
            r@ == uppercase(w@[0]) + w@.subrange(1, i as int),
    {
        r.push(w[i]);
        assert(w@.subrange(1, i + 1) == w@.subrange(1, i as int).push(w@[i as int]));
    }
    assert(w@.subrange(1, n as int) == w@.drop_first());
    r
}

/// Turn a hyphen-separated folder-name fragment into a display name:
/// `horror-show` -> `Horror Show`.
fn humanize(part: &Vec<char>) -> (r: String)
    ensures
        r@ == humanized(part@),
{
    let ghost src = dash_to_space(part@);
    let mut out = String::new();
    let mut any = false;
    let mut cur: Vec<char> = Vec::new();
    let n = part.len();
    for i in 0..n
        invariant
            n == part.len(),
            src == dash_to_space(part@),
            out@ == join_words(word_scan(src.take(i as int)).0.map_values(|w: Seq<char>| capitalize(w))),
            cur@ == word_scan(src.take(i as int)).1,
            any == (word_scan(src.take(i as int)).0.len() > 0),
    {
        let c = if part[i] == '-' { ' ' } else { part[i] };
        proof {
            assert(src.take(i + 1).drop_last() == src.take(i as int));
            assert(src.take(i + 1).last() == c);
        }
        if is_white_char(c) {
            if cur.len() > 0 {
                let ghost done = word_scan(src.take(i as int)).0;
                let word = capitalized(&cur);
                proof {
                    lemma_join_push(done.map_values(|w: Seq<char>| capitalize(w)), capitalize(cur@));
                    assert(done.push(cur@).map_values(|w: Seq<char>| capitalize(w)) == done.map_values(
                        |w: Seq<char>| capitalize(w),
                    ).push(capitalize(cur@)));
                }
                if any {
                    push_char(&mut out, ' ');
                }
                push_chars(&mut out, &word);
                any = true;
            }
            cur = Vec::new();
        } else {
            cur.push(c);
        }
    }
    proof {
        assert(src.take(n as int) == src);
        reveal(humanized);
    }
    if cur.len() > 0 {
        let ghost done = word_scan(src).0;
        let word = capitalized(&cur);
        proof {
            lemma_join_push(done.map_values(|w: Seq<char>| capitalize(w)), capitalize(cur@));
            assert(done.push(cur@).map_values(|w: Seq<char>| capitalize(w)) == done.map_values(
                |w: Seq<char>| capitalize(w),
            ).push(capitalize(cur@)));
        }
        if any {
            push_char(&mut out, ' ');
        }
        push_chars(&mut out, &word);
    }
    out
}

/// A `--` separator starts at `i` in `s`.
pub open spec fn dash_pair_at(s: Seq<char>, i: int) -> bool {
    0 <= i && i + 1 < s.len() && s[i] == '-' && s[i + 1] == '-'
}

/// Where the first `--` separator in `s` starts.
pub open spec fn first_dash_pair(s: Seq<char>) -> Option<int> {
    if exists|i: int| dash_pair_at(s, i) {
        Some(
            choose|i: int|
                dash_pair_at(s, i) && forall|j: int| 0 <= j < i ==> !dash_pair_at(s, j),
        )
    } else {
        None
    }
}

/// `(artist, album)` read from a folder name of the form `<artist>--<album>`:
/// exactly one `--` separator and both sides non-empty once humanized.
pub open spec fn artist_album_of(name: Seq<char>) -> Option<(Seq<char>, Seq<char>)> {
    match first_dash_pair(name) {
        None => None,
        Some(i) => {
            let rest = name.skip(i + 2);
            let artist = humanized(name.take(i));
            let album = humanized(rest);
            if first_dash_pair(rest) is Some || artist.len() == 0 || album.len() == 0 {
                None
            } else {
                Some((artist, album))
            }
        },
    }
}

/// `(artist, album)` inferred from the file's immediate parent folder.
pub open spec fn spec_infer_from_folder(path: Seq<char>) -> Option<(Seq<char>, Seq<char>)> {
    match parent_file_name(path) {
        Some(name) => artist_album_of(name),
        None => None,
    }
}

/// Where the first `--` separator in `s` starts.
fn find_dash_pair(s: &Vec<char>) -> (r: Option<usize>)
    ensures
        match r {
            Some(i) => first_dash_pair(s@) == Some(i as int) && i + 1 < s.len(),
            None => first_dash_pair(s@) is None,
        },
{
    let n = s.len();
    let mut i: usize = 0;
    while i < n
        invariant
            n == s.len(),
            forall|j: int| 0 <= j < i ==> !dash_pair_at(s@, j),
        decreases n - i,
    {
        if i + 1 < n && s[i] == '-' && s[i + 1] == '-' {
            assert(dash_pair_at(s@, i as int));
            let ghost k = choose|k: int|
                dash_pair_at(s@, k) && forall|j: int| 0 <= j < k ==> !dash_pair_at(s@, j);
            assert(k == i) by {
                if k < i {
                    assert(!dash_pair_at(s@, k));
                }
                if i < k {
                    assert(!dash_pair_at(s@, i as int));
                }
            }
            return Some(i);
        }
        i = i + 1;
    }
    assert forall|j: int| !dash_pair_at(s@, j) by {
        if 0 <= j < i {
        }
    }
    None
}

/// Infer `(artist, album)` from the immediate parent folder name when it
/// follows the `<artist>--<album>` convention. Single hyphens inside each
/// part are word separators: `iced-earth--horror-show` yields
/// `("Iced Earth", "Horror Show")`. Anything else returns `None`.
pub fn infer_from_folder(path: &str) -> (r: Option<(String, String)>)
    ensures
        match r {
            Some((a, b)) => spec_infer_from_folder(path@) == Some((a@, b@)),
            None => spec_infer_from_folder(path@) is None,
        },
{
    let name = match parent_file_name_of(path) {
        Some(n) => n,
        None => return None,
    };
    let i = match find_dash_pair(&name) {
        Some(i) => i,
        None => return None,
    };
    let (left, rest) = split_around(&name, i);
    let artist = humanize(&left);
    let album = humanize(&rest);
    if find_dash_pair(&rest).is_some() || artist.as_str().is_empty() || album.as_str().is_empty() {
        return None;
    }
    Some((artist, album))
}

/// The characters before position `i` and those after the two at `i`.
fn split_around(name: &Vec<char>, i: usize) -> (r: (Vec<char>, Vec<char>))
    requires
        i + 1 < name.len(),
    ensures
        r.0@ == name@.take(i as int),
        r.1@ == name@.skip(i + 2),
{
    let mut left: Vec<char> = Vec::new();
    for j in 0..i
        invariant
            i + 1 < name.len(),
            left@ == name@.take(j as int),
    {
        left.push(name[j]);
        assert(name@.take(j + 1) == name@.take(j as int).push(name@[j as int]));
    }
    let mut rest: Vec<char> = Vec::new();
    let n = name.len();
    for j in i + 2..n
        invariant
            n == name.len(),
            i + 2 <= n,
            rest@ == name@.subrange(i + 2, j as int),
    {
        rest.push(name[j]);
        assert(name@.subrange(i + 2, j + 1) == name@.subrange(i + 2, j as int).push(
            name@[j as int],
        ));
    }
    assert(rest@ == name@.skip(i + 2));
    (left, rest)
}

/// The tag is absent or blank.
pub open spec fn spec_missing_tag(value: Option<String>) -> bool {
    match value {
        Some(s) => all_white(s@),
        None => true,
    }
}

/// The tag is absent or blank.
pub fn missing_tag(value: &Option<String>) -> (r: bool)
    ensures
        r == spec_missing_tag(*value),
{
    match value {
        Some(s) => is_blank(s.as_str()),
        None => true,
    }
}

/// What reading a file's tags produced: each field is `None` when the file
/// could not be read or the tag is absent; `duration` is the length the
/// file's properties report.
pub struct FileTags {
    pub title: Option<String>,
    pub artist: Option<String>,
    pub album: Option<String>,
    pub duration: Option<Duration>,
}

impl FileTags {
    /// Nothing could be read from the file.
    pub fn unreadable() -> (t: FileTags)
        ensures
            t.title is None,
            t.artist is None,
            t.album is None,
            t.duration is None,
    {
        FileTags { title: None, artist: None, album: None, duration: None }
    }
}

/// A reported length of zero counts as no length.
pub open spec fn nonzero_duration(d: Option<Duration>) -> Option<Duration> {
    match d {
        Some(x) => if x.secs_view() == 0 && x.nanos_view() == 0 {
            None
        } else {
            Some(x)
        },
        None => None,
    }
}

/// The artist/album the track ends up with: the tag, unless it is missing
/// and the folder name supplies one.
pub open spec fn filled_tag(tag: Option<String>, inferred: Option<Seq<char>>) -> Option<Seq<char>> {
    if spec_missing_tag(tag) && inferred is Some {
        inferred
    } else {
        match tag {
            Some(s) => Some(s@),
            None => None,
        }
    }
}

pub open spec fn opt_view(s: Option<String>) -> Option<Seq<char>> {
    match s {
        Some(x) => Some(x@),
        None => None,
    }
}

/// Build a Track for a single file from the tags read from it: artist and
/// album fall back, independently, to the `<artist>--<album>` folder name
/// when missing or blank.
pub fn track_from_path(path: &str, tags: FileTags) -> (t: Track)
    ensures
        t.path@ == path@,
        opt_view(t.title) == opt_view(tags.title),
        t.duration == nonzero_duration(tags.duration),
        opt_view(t.artist) == filled_tag(
            tags.artist,
            match spec_infer_from_folder(path@) {
                Some((a, _)) => Some(a),
                None => None,
            },
        ),
        opt_view(t.album) == filled_tag(
            tags.album,
            match spec_infer_from_folder(path@) {
                Some((_, b)) => Some(b),
                None => None,
            },
        ),
{
    let FileTags { title, artist, album, duration } = tags;
    let mut artist = artist;
    let mut album = album;
    let artist_missing = missing_tag(&artist);
    let album_missing = missing_tag(&album);
    if artist_missing || album_missing {
        if let Some((folder_artist, folder_album)) = infer_from_folder(path) {
            if artist_missing {
                artist = Some(folder_artist);
            }
            if album_missing {
                album = Some(folder_album);
            }
        }
    }
    let duration = match duration {
        Some(d) => if d.is_zero() {
            None
        } else {
            Some(d)
        },
        None => None,
    };
    Track { path: path.to_string(), title, artist, album, duration }
}

/// The text of an optional tag, empty when absent.
pub open spec fn text_or_empty(s: Option<String>) -> Seq<char> {
    match s {
        Some(x) => x@,
        None => seq![],
    }
}

/// The library sort key of a track: lowercased artist, title and path.
pub open spec fn title_key(t: Track) -> (Seq<char>, Seq<char>, Seq<char>) {
    (lowercase(text_or_empty(t.artist)), lowercase(text_or_empty(t.title)), lowercase(t.path@))
}

/// Tuple order on title keys: by artist, then title, then path.
pub open spec fn title_key_le(
    a: (Seq<char>, Seq<char>, Seq<char>),
    b: (Seq<char>, Seq<char>, Seq<char>),
) -> bool {
    chars_order(a.0, b.0) < 0 || (chars_order(a.0, b.0) == 0 && (chars_order(a.1, b.1) < 0 || (
    chars_order(a.1, b.1) == 0 && chars_order(a.2, b.2) <= 0)))
}

/// Cached lowercase key of a track.
pub struct TitleKey {
    pub artist: Vec<char>,
    pub title: Vec<char>,
    pub path: Vec<char>,
}

impl View for TitleKey {
    type V = (Seq<char>, Seq<char>, Seq<char>);

    open spec fn view(&self) -> (Seq<char>, Seq<char>, Seq<char>) {
        (self.artist@, self.title@, self.path@)
    }
}

impl SortKey for TitleKey {
    open spec fn ordered(a: (Seq<char>, Seq<char>, Seq<char>), b: (Seq<char>, Seq<char>, Seq<char>)) -> bool {
        title_key_le(a, b)
    }

    proof fn ordered_total(a: (Seq<char>, Seq<char>, Seq<char>), b: (Seq<char>, Seq<char>, Seq<char>)) {
        lemma_chars_order_antisymmetric(a.0, b.0);
        lemma_chars_order_antisymmetric(a.1, b.1);
        lemma_chars_order_antisymmetric(a.2, b.2);
    }

    proof fn ordered_transitive(
        a: (Seq<char>, Seq<char>, Seq<char>),
        b: (Seq<char>, Seq<char>, Seq<char>),
        c: (Seq<char>, Seq<char>, Seq<char>),
    ) {
        lemma_chars_order_antisymmetric(a.0, b.0);
        lemma_chars_order_antisymmetric(b.0, c.0);
        lemma_chars_order_antisymmetric(a.0, c.0);
        lemma_chars_order_antisymmetric(a.1, b.1);
        lemma_chars_order_antisymmetric(b.1, c.1);
        lemma_chars_order_antisymmetric(a.1, c.1);
        if chars_order(a.0, b.0) <= 0 && chars_order(b.0, c.0) <= 0 {
            lemma_chars_order_transitive(a.0, b.0, c.0);
        }
        if chars_order(a.1, b.1) <= 0 && chars_order(b.1, c.1) <= 0 {
            lemma_chars_order_transitive(a.1, b.1, c.1);
        }
        if chars_order(a.2, b.2) <= 0 && chars_order(b.2, c.2) <= 0 {
            lemma_chars_order_transitive(a.2, b.2, c.2);
        }
    }

    fn key_ordered(&self, other: &Self) -> (r: bool) {
        let a = compare_chars(&self.artist, &other.artist);
        if a != 0 {
            return a < 0;
        }
        let t = compare_chars(&self.title, &other.title);
        if t != 0 {
            return t < 0;
        }
        compare_chars(&self.path, &other.path) <= 0
    }
}

fn lowered_text(s: &Option<String>) -> (v: Vec<char>)
    ensures
        v@ == lowercase(text_or_empty(*s)),
{
    match s {
        Some(x) => chars_of(to_lowercase(x.as_str()).as_str()),
        None => {
            let e = String::new();
            chars_of(to_lowercase(e.as_str()).as_str())
        },
    }
}

fn title_key_of(t: &Track) -> (k: TitleKey)
    ensures
        k@ == title_key(*t),
{
    TitleKey {
        artist: lowered_text(&t.artist),
        title: lowered_text(&t.title),
        path: chars_of(to_lowercase(t.path.as_str()).as_str()),
    }
}

/// The track lists concatenated in order.
pub open spec fn concat_all(lists: Seq<Seq<Track>>) -> Seq<Track>
    decreases lists.len(),
{
    if lists.len() == 0 {
        seq![]
    } else {
        concat_all(lists.drop_last()) + lists.last()
    }
}

/// Every track found, first occurrence of each path kept, then sorted by
/// lowercased artist, title and path (stable among equal keys).
pub open spec fn spec_scan_folders(found: Seq<Seq<Track>>) -> Seq<Track> {
    let unique = fresh_tracks(seq![], concat_all(found));
    stable_sorted(
        unique.map_values(|t: Track| (title_key(t), t)),
        |a: (Seq<char>, Seq<char>, Seq<char>), b: (Seq<char>, Seq<char>, Seq<char>)|
            title_key_le(a, b),
    ).map_values(|p: ((Seq<char>, Seq<char>, Seq<char>), Track)| p.1)
}

/// Merge the tracks found under several watched folders (one list per
/// folder, in folder order), deduplicating tracks that appear in more than
/// one (e.g. a folder and its parent are both watched). Sorted by
/// artist/title.
pub fn scan_folders(found: Vec<Vec<Track>>) -> (r: Vec<Track>)
    ensures
        r@ == spec_scan_folders(found@.map_values(|v: Vec<Track>| v@)),
{
    let ghost lists = found@.map_values(|v: Vec<Track>| v@);
    let mut tracks: Vec<Track> = Vec::new();
    for folder in it: found
        invariant
            it.seq().map_values(|v: Vec<Track>| v@) == lists,
            tracks@ == fresh_tracks(seq![], concat_all(lists.take(it.index() as int))),
    {
        let ghost before = concat_all(lists.take(it.index() as int));
        let ghost fv = folder@;
        proof {
            assert(lists.take(it.index() + 1).drop_last() == lists.take(it.index() as int));
            assert(lists.take(it.index() + 1).last() == folder@);
        }
        for track in it2: folder
            invariant
                it2.seq() == fv,
                tracks@ == fresh_tracks(seq![], before + it2.seq().take(it2.index() as int)),
        {
            proof {
                let s = before + it2.seq().take(it2.index() as int);
                assert((before + it2.seq().take(it2.index() + 1)).drop_last() == s);
                assert((before + it2.seq().take(it2.index() + 1)).last() == track);
                assert(Seq::<Track>::empty() + fresh_tracks(seq![], s) == fresh_tracks(seq![], s));
            }
            if find_track(&tracks, track.path.as_str()).is_none() {
                tracks.push(track);
            }
        }
        proof {
            assert(fv.take(fv.len() as int) == fv);
        }
    }
    proof {
        assert(lists.take(lists.len() as int) == lists);
    }
    let ghost unique = tracks@;
    let mut keyed: Vec<(TitleKey, Track)> = Vec::new();
    for track in it: tracks
        invariant
            it.seq() == unique,
            keyed@.map_values(|p: (TitleKey, Track)| key_view(p)) == unique.take(
                it.index() as int,
            ).map_values(|t: Track| (title_key(t), t)),
    {
        let key = title_key_of(&track);
        let ghost before = keyed@;
        keyed.push((key, track));
        proof {
            assert(keyed@.map_values(|p: (TitleKey, Track)| key_view(p)) == before.map_values(
                |p: (TitleKey, Track)| key_view(p),
            ).push((title_key(track), track)));
            assert(unique.take(it.index() + 1).map_values(|t: Track| (title_key(t), t))
                == unique.take(it.index() as int).map_values(|t: Track| (title_key(t), t)).push(
                (title_key(track), track),
            ));
        }
    }
    proof {
        assert(unique.take(unique.len() as int) == unique);
    }
    let sorted = stable_sort_by_key(keyed);
    let ghost sv = sorted@.map_values(|p: (TitleKey, Track)| key_view(p));
    let mut out: Vec<Track> = Vec::new();
    for p in it: sorted
        invariant
            it.seq().map_values(|p: (TitleKey, Track)| key_view(p)) == sv,
            out@ == sv.take(it.index() as int).map_values(
                |p: ((Seq<char>, Seq<char>, Seq<char>), Track)| p.1,
            ),
    {
        let (_, t) = p;
        proof {
            assert(sv[it.index() as int].1 == t);
            assert(sv.take(it.index() + 1).map_values(
                |p: ((Seq<char>, Seq<char>, Seq<char>), Track)| p.1,
            ) == sv.take(it.index() as int).map_values(
                |p: ((Seq<char>, Seq<char>, Seq<char>), Track)| p.1,
            ).push(t));
        }
        out.push(t);
    }
    proof {
        assert(sv.take(sv.len() as int) == sv);
        let le1 = |a: (Seq<char>, Seq<char>, Seq<char>), b: (Seq<char>, Seq<char>, Seq<char>)|
            TitleKey::ordered(a, b);
        let le2 = |a: (Seq<char>, Seq<char>, Seq<char>), b: (Seq<char>, Seq<char>, Seq<char>)|
            title_key_le(a, b);
        assert(le1 =~= le2);
        assert(unique == fresh_tracks(seq![], concat_all(lists)));
    }
    out
}

/// Law: the merged scan lists each path once and is ordered by the
/// lowercased (artist, title, path) key; it holds exactly the tracks kept
/// by path, no more and no fewer.
pub proof fn lemma_scan_folders_sorted_unique(found: Seq<Seq<Track>>)
    ensures
        forall|i: int, j: int|
            0 <= i < j < spec_scan_folders(found).len() ==> title_key_le(
                title_key(#[trigger] spec_scan_folders(found)[i]),
                title_key(#[trigger] spec_scan_folders(found)[j]),
            ),
        forall|i: int, j: int|
            0 <= i < j < fresh_tracks(seq![], concat_all(found)).len() ==> !same_path(
                (#[trigger] fresh_tracks(seq![], concat_all(found))[i]).path@,
                (#[trigger] fresh_tracks(seq![], concat_all(found))[j]).path@,
            ),
        spec_scan_folders(found).len() == fresh_tracks(seq![], concat_all(found)).len(),
        forall|t: Track|
            spec_scan_folders(found).contains(t) <==> fresh_tracks(seq![], concat_all(found)).contains(t),
{
    broadcast use vstd::seq_lib::group_to_multiset_ensures;

    let unique = fresh_tracks(seq![], concat_all(found));
    lemma_fresh_tracks_distinct(seq![], concat_all(found));
    let pairs = unique.map_values(|t: Track| (title_key(t), t));
    let le = |a: (Seq<char>, Seq<char>, Seq<char>), b: (Seq<char>, Seq<char>, Seq<char>)|
        title_key_le(a, b);
    assert(total_preorder(le)) by {
        assert forall|a: (Seq<char>, Seq<char>, Seq<char>), b: (Seq<char>, Seq<char>, Seq<char>)|
            #[trigger] le(a, b) || le(b, a) by {
            TitleKey::ordered_total(a, b);
        }
        assert forall|
            a: (Seq<char>, Seq<char>, Seq<char>),
            b: (Seq<char>, Seq<char>, Seq<char>),
            c: (Seq<char>, Seq<char>, Seq<char>),
        | #[trigger] le(a, b) && #[trigger] le(b, c) implies le(a, c) by {
            TitleKey::ordered_transitive(a, b, c);
        }
    }
    lemma_stable_sorted_is_sorted_permutation(pairs, le);
    let sorted = stable_sorted(pairs, le);
    let r = sorted.map_values(|p: ((Seq<char>, Seq<char>, Seq<char>), Track)| p.1);
    assert(r == spec_scan_folders(found));
    assert(sorted.len() == sorted.to_multiset().len());
    assert(pairs.len() == pairs.to_multiset().len());
    assert forall|i: int| 0 <= i < sorted.len() implies #[trigger] sorted[i].0 == title_key(sorted[i].1) && unique.contains(sorted[i].1) by {
        assert(sorted.contains(sorted[i]));
        assert(sorted.to_multiset().count(sorted[i]) > 0);
        assert(pairs.contains(sorted[i]));
        let k = choose|k: int| 0 <= k < pairs.len() && pairs[k] == sorted[i];
        assert(unique[k] == sorted[i].1);
    }
    assert forall|i: int, j: int| 0 <= i < j < r.len() implies title_key_le(
        title_key(#[trigger] r[i]),
        title_key(#[trigger] r[j]),
    ) by {
        assert(sorted[i].0 == title_key(sorted[i].1));
        assert(sorted[j].0 == title_key(sorted[j].1));
        assert(le(sorted[i].0, sorted[j].0));
    }
    assert forall|t: Track| r.contains(t) <==> unique.contains(t) by {
        if r.contains(t) {
            let i = choose|i: int| 0 <= i < r.len() && r[i] == t;
            assert(sorted[i].0 == title_key(sorted[i].1));
            assert(unique.contains(sorted[i].1));
        }
        if unique.contains(t) {
            let k = choose|k: int| 0 <= k < unique.len() && unique[k] == t;
            assert(pairs[k] == (title_key(t), t));
            assert(pairs.contains(pairs[k]));
            assert(pairs.to_multiset().count(pairs[k]) > 0);
            assert(sorted.contains(pairs[k]));
            let i = choose|i: int| 0 <= i < sorted.len() && sorted[i] == pairs[k];
            assert(r[i] == t);
        }
    }
}


/// Law: the library's track order is dictionary order on the lowercased
/// (artist, title, path) key: by artist, ties by title, remaining ties by
/// path, each compared as text by code point. Two keys that each sort no
/// later than the other are equal.
pub proof fn lemma_title_key_order_is_dictionary_order(
    a: (Seq<char>, Seq<char>, Seq<char>),
    b: (Seq<char>, Seq<char>, Seq<char>),
)
    ensures
        title_key_le(a, b) <==> (lex_less(a.0, b.0) || (a.0 == b.0 && (lex_less(a.1, b.1) || (a.1
            == b.1 && (lex_less(a.2, b.2) || a.2 == b.2))))),
        title_key_le(a, b) && title_key_le(b, a) ==> a == b,
{
    lemma_chars_order_is_dictionary_order(a.0, b.0);
    lemma_chars_order_is_dictionary_order(a.1, b.1);
    lemma_chars_order_is_dictionary_order(a.2, b.2);
    lemma_chars_order_antisymmetric(a.0, b.0);
    lemma_chars_order_antisymmetric(a.1, b.1);
    lemma_chars_order_antisymmetric(a.2, b.2);
}

/// Law: among the merged tracks, those with the same lowercased artist and
/// title come in order of their lowercased paths.
pub proof fn lemma_scan_folders_path_tiebreak(found: Seq<Seq<Track>>)
    ensures
        forall|i: int, j: int|
            0 <= i < j < spec_scan_folders(found).len() && title_key(
                #[trigger] spec_scan_folders(found)[i],
            ).0 == title_key(#[trigger] spec_scan_folders(found)[j]).0 && title_key(
                spec_scan_folders(found)[i],
            ).1 == title_key(spec_scan_folders(found)[j]).1 ==> lex_less(
                title_key(spec_scan_folders(found)[i]).2,
                title_key(spec_scan_folders(found)[j]).2,
            ) || title_key(spec_scan_folders(found)[i]).2 == title_key(spec_scan_folders(found)[j]).2,
{
    lemma_scan_folders_sorted_unique(found);
    let r = spec_scan_folders(found);
    assert forall|i: int, j: int|
        0 <= i < j < r.len() && title_key(#[trigger] r[i]).0 == title_key(#[trigger] r[j]).0
            && title_key(r[i]).1 == title_key(r[j]).1 implies lex_less(
        title_key(r[i]).2,
        title_key(r[j]).2,
    ) || title_key(r[i]).2 == title_key(r[j]).2 by {
        assert(title_key_le(title_key(r[i]), title_key(r[j])));
        lemma_title_key_order_is_dictionary_order(title_key(r[i]), title_key(r[j]));
        lemma_chars_order_is_dictionary_order(title_key(r[i]).0, title_key(r[j]).0);
        lemma_chars_order_is_dictionary_order(title_key(r[i]).1, title_key(r[j]).1);
    }
}

} // verus!
