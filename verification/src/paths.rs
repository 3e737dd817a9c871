//! Unix-style paths held as `String`s.
//!
//! A path is read as a sequence of components, the way `std::path` reads
//! one: a leading `/` gives a root component, a leading `.` (alone or
//! before a `/`) on a relative path gives a current-dir component, and the
//! rest is split at `/` with empty and `.` pieces dropped. `..` is a
//! parent-dir component; anything else is a normal component.
//!
//! Components are encoded as character sequences: the root as `"/"`, the
//! current dir as `"."`, the parent dir as `".."`, a normal component as its
//! own text (which never contains `/` and is never `"."` or `".."`).
//! Two paths are the same path when their components are equal.

use vstd::prelude::*;

use crate::sort::{
    chars_order, compare_chars, lemma_chars_order_antisymmetric, lemma_chars_order_is_dictionary_order,
    lemma_chars_order_transitive, lex_less,
};

verus! {

/// Whether a piece between separators is kept as a component.
pub open spec fn kept_piece(p: Seq<char>) -> bool {
    p.len() > 0 && p != seq!['.']
}

/// Append `cur` to `done` when it is a kept piece.
pub open spec fn close_piece(done: Seq<Seq<char>>, cur: Seq<char>) -> Seq<Seq<char>> {
    if kept_piece(cur) {
        done.push(cur)
    } else {
        done
    }
}

/// Left-to-right scan of `s` split at `/`: the pieces closed so far and the
/// piece still open.
pub open spec fn piece_scan(s: Seq<char>) -> (Seq<Seq<char>>, Seq<char>)
    decreases s.len(),
{
    if s.len() == 0 {
        (seq![], seq![])
    } else {
        let (done, cur) = piece_scan(s.drop_last());
        if s.last() == '/' {
            (close_piece(done, cur), seq![])
        } else {
            (done, cur.push(s.last()))
        }
    }
}

/// The kept pieces of `s` between `/` separators.
pub open spec fn pieces(s: Seq<char>) -> Seq<Seq<char>> {
    close_piece(piece_scan(s).0, piece_scan(s).1)
}

pub open spec fn has_root(s: Seq<char>) -> bool {
    s.len() > 0 && s[0] == '/'
}

pub open spec fn has_cur_dir(s: Seq<char>) -> bool {
    !has_root(s) && s.len() > 0 && s[0] == '.' && (s.len() == 1 || s[1] == '/')
}

/// The components of the path `s`, encoded as described in the module
/// documentation.
pub open spec fn components(s: Seq<char>) -> Seq<Seq<char>> {
    if has_root(s) {
        seq![seq!['/']] + pieces(s)
    } else if has_cur_dir(s) {
        seq![seq!['.']] + pieces(s)
    } else {
        pieces(s)
    }
}

/// Whether an encoded component is a normal (named) component.
pub open spec fn is_normal(c: Seq<char>) -> bool {
    c != seq!['/'] && c != seq!['.'] && c != seq!['.', '.']
}

/// Two paths name the same location component for component.
pub open spec fn same_path(a: Seq<char>, b: Seq<char>) -> bool {
    components(a) == components(b)
}

/// The final component of the path, when it is a normal component.
pub open spec fn file_name(s: Seq<char>) -> Option<Seq<char>> {
    let cs = components(s);
    if cs.len() > 0 && is_normal(cs.last()) {
        Some(cs.last())
    } else {
        None
    }
}

/// The final component of the path's parent, when it is a normal component.
pub open spec fn parent_file_name(s: Seq<char>) -> Option<Seq<char>> {
    let cs = components(s);
    if cs.len() >= 2 && is_normal(cs[cs.len() - 2]) {
        Some(cs[cs.len() - 2])
    } else {
        None
    }
}

/// Index of the last `.` in `name`, if any.
pub open spec fn last_dot(name: Seq<char>) -> Option<int>
    decreases name.len(),
{
    if name.len() == 0 {
        None
    } else if name.last() == '.' {
        Some(name.len() - 1)
    } else {
        last_dot(name.drop_last())
    }
}

/// The stem of a file name: the part before the last `.`, or the whole
/// name when it has no `.` other than a leading one.
pub open spec fn stem_of(name: Seq<char>) -> Seq<char> {
    match last_dot(name) {
        Some(i) if i > 0 => name.take(i),
        _ => name,
    }
}

/// The extension of a file name: the part after the last `.`, when that
/// `.` is not the first character.
pub open spec fn extension_of(name: Seq<char>) -> Option<Seq<char>> {
    match last_dot(name) {
        Some(i) if i > 0 => Some(name.skip(i + 1)),
        _ => None,
    }
}

/// `Path::file_stem`.
pub open spec fn file_stem(s: Seq<char>) -> Option<Seq<char>> {
    match file_name(s) {
        Some(n) => Some(stem_of(n)),
        None => None,
    }
}

/// `Path::extension`.
pub open spec fn extension(s: Seq<char>) -> Option<Seq<char>> {
    match file_name(s) {
        Some(n) => extension_of(n),
        None => None,
    }
}

proof fn lemma_piece_scan_step(s: Seq<char>, i: int)
    requires
        0 <= i < s.len(),
    ensures
        piece_scan(s.take(i + 1)) == (if s[i] == '/' {
            (close_piece(piece_scan(s.take(i)).0, piece_scan(s.take(i)).1), Seq::<char>::empty())
        } else {
            (piece_scan(s.take(i)).0, piece_scan(s.take(i)).1.push(s[i]))
        }),
{
    assert(s.take(i + 1).drop_last() == s.take(i));
}

/// Split `s` into its kept pieces between `/` separators.
fn split_pieces(s: &Vec<char>) -> (r: Vec<Vec<char>>)
    ensures
        r@.map_values(|p: Vec<char>| p@) == pieces(s@),
{
    let mut done: Vec<Vec<char>> = Vec::new();
    let mut cur: Vec<char> = Vec::new();
    let n = s.len();
    for i in 0..n
        invariant
            n == s.len(),
            done@.map_values(|p: Vec<char>| p@) == piece_scan(s@.take(i as int)).0,
            cur@ == piece_scan(s@.take(i as int)).1,
    {
        proof {
            lemma_piece_scan_step(s@, i as int);
        }
        let c = s[i];
        if c == '/' {
            if keep(&cur) {
                let ghost before = done@;
                done.push(cur);
                assert(done@.map_values(|p: Vec<char>| p@) == before.map_values(|p: Vec<char>| p@).push(
                    piece_scan(s@.take(i as int)).1,
                ));
            }
            cur = Vec::new();
        } else {
            cur.push(c);
        }
    }
    assert(s@.take(n as int) == s@);
    if keep(&cur) {
        let ghost before = done@;
        done.push(cur);
        assert(done@.map_values(|p: Vec<char>| p@) == before.map_values(|p: Vec<char>| p@).push(
            piece_scan(s@).1,
        ));
    }
    done
}

fn keep(p: &Vec<char>) -> (r: bool)
    ensures
        r == kept_piece(p@),
{
    if p.len() == 0 {
        false
    } else if p.len() == 1 && p[0] == '.' {
        assert(p@ == seq!['.']);
        false
    } else {
        assert(p@ != seq!['.']) by {
            if p.len() == 1 {
                assert(p@[0] != seq!['.'][0]);
            }
        }
        true
    }
}

/// The components of the path `s`, encoded as in the module documentation.
pub fn path_components(s: &str) -> (r: Vec<Vec<char>>)
    ensures
        r@.map_values(|p: Vec<char>| p@) == components(s@),
{
    let cs = crate::text::chars_of(s);
    let ps = split_pieces(&cs);
    let mut r: Vec<Vec<char>> = Vec::new();
    if cs.len() > 0 && cs[0] == '/' {
        let root = vec!['/'];
        assert(root@ == seq!['/']);
        r.push(root);
        assert(r@.map_values(|p: Vec<char>| p@) =~= seq![seq!['/']]);
    } else if cs.len() > 0 && cs[0] == '.' && (cs.len() == 1 || cs[1] == '/') {
        let cur = vec!['.'];
        assert(cur@ == seq!['.']);
        r.push(cur);
        assert(r@.map_values(|p: Vec<char>| p@) =~= seq![seq!['.']]);
    } else {
        assert(r@.map_values(|p: Vec<char>| p@) =~= Seq::<Seq<char>>::empty());
    }
    let ghost head = r@.map_values(|p: Vec<char>| p@);
    assert(head == (if has_root(s@) {
        seq![seq!['/']]
    } else if has_cur_dir(s@) {
        seq![seq!['.']]
    } else {
        Seq::<Seq<char>>::empty()
    }));
    let m = ps.len();
    for i in 0..m
        invariant
            m == ps.len(),
            r@.map_values(|p: Vec<char>| p@) == head + ps@.map_values(|p: Vec<char>| p@).take(i as int),
    {
        let p = ps[i].clone();
        let ghost before = r@;
        r.push(p);
        assert(r@.map_values(|p: Vec<char>| p@) == before.map_values(|p: Vec<char>| p@).push(ps@[i as int]@));
        assert(ps@.map_values(|p: Vec<char>| p@).take(i + 1) == ps@.map_values(|p: Vec<char>| p@).take(i as int).push(ps@[i as int]@));
    }
    assert(ps@.map_values(|p: Vec<char>| p@).take(m as int) == ps@.map_values(|p: Vec<char>| p@));
    r
}

/// Whether two character sequences are equal.
pub fn chars_equal(a: &Vec<char>, b: &Vec<char>) -> (r: bool)
    ensures
        r == (a@ == b@),
{
    if a.len() != b.len() {
        return false;
    }
    let n = a.len();
    for i in 0..n
        invariant
            n == a.len(),
            n == b.len(),
            forall|j: int| 0 <= j < i ==> a@[j] == b@[j],
    {
        if a[i] != b[i] {
            return false;
        }
    }
    assert(a@ =~= b@);
    true
}

/// Whether two component lists are equal.
fn components_equal(a: &Vec<Vec<char>>, b: &Vec<Vec<char>>) -> (r: bool)
    ensures
        r == (a@.map_values(|p: Vec<char>| p@) == b@.map_values(|p: Vec<char>| p@)),
{
    let ghost av = a@.map_values(|p: Vec<char>| p@);
    let ghost bv = b@.map_values(|p: Vec<char>| p@);
    if a.len() != b.len() {
        assert(av.len() != bv.len());
        return false;
    }
    let n = a.len();
    for i in 0..n
        invariant
            n == a.len(),
            n == b.len(),
            av == a@.map_values(|p: Vec<char>| p@),
            bv == b@.map_values(|p: Vec<char>| p@),
            forall|j: int| 0 <= j < i ==> av[j] == bv[j],
    {
        if !chars_equal(&a[i], &b[i]) {
            assert(av[i as int] != bv[i as int]);
            return false;
        }
    }
    assert(av =~= bv);
    true
}

/// Whether `a` and `b` name the same path, component for component.
pub fn is_same_path(a: &str, b: &str) -> (r: bool)
    ensures
        r == same_path(a@, b@),
{
    let ca = path_components(a);
    let cb = path_components(b);
    components_equal(&ca, &cb)
}

fn is_normal_component(c: &Vec<char>) -> (r: bool)
    ensures
        r == is_normal(c@),
{
    let root = vec!['/'];
    let cur = vec!['.'];
    let parent = vec!['.', '.'];
    assert(root@ == seq!['/']);
    assert(cur@ == seq!['.']);
    assert(parent@ == seq!['.', '.']);
    !chars_equal(c, &root) && !chars_equal(c, &cur) && !chars_equal(c, &parent)
}

/// `Path::file_name`: the final component when it is a normal one.
pub fn file_name_of(s: &str) -> (r: Option<Vec<char>>)
    ensures
        match r {
            Some(v) => file_name(s@) == Some(v@),
            None => file_name(s@) is None,
        },
{
    let mut cs = path_components(s);
    let ghost cv = cs@.map_values(|p: Vec<char>| p@);
    if cs.len() == 0 {
        return None;
    }
    let last = cs.pop().unwrap();
    assert(last@ == cv.last());
    if is_normal_component(&last) {
        Some(last)
    } else {
        None
    }
}

/// The final component of the parent path, when it is a normal one.
pub fn parent_file_name_of(s: &str) -> (r: Option<Vec<char>>)
    ensures
        match r {
            Some(v) => parent_file_name(s@) == Some(v@),
            None => parent_file_name(s@) is None,
        },
{
    let mut cs = path_components(s);
    let ghost cv = cs@.map_values(|p: Vec<char>| p@);
    if cs.len() < 2 {
        return None;
    }
    cs.pop();
    let p = cs.pop().unwrap();
    assert(p@ == cv[cv.len() - 2]);
    if is_normal_component(&p) {
        Some(p)
    } else {
        None
    }
}

fn find_last_dot(name: &Vec<char>) -> (r: Option<usize>)
    ensures
        match r {
            Some(i) => last_dot(name@) == Some(i as int) && i < name.len(),
            None => last_dot(name@) is None,
        },
{
    let mut i = name.len();
    assert(name@.take(i as int) == name@);
    while i > 0
        invariant
            i <= name.len(),
            last_dot(name@) == last_dot(name@.take(i as int)),
        decreases i,
    {
        assert(name@.take(i as int).drop_last() == name@.take(i - 1));
        if name[i - 1] == '.' {
            return Some(i - 1);
        }
        i = i - 1;
    }
    None
}

fn take_chars(v: &Vec<char>, n: usize) -> (r: Vec<char>)
    requires
        n <= v.len(),
    ensures
        r@ == v@.take(n as int),
{
    let mut r: Vec<char> = Vec::new();
    for i in 0..n
        invariant
            n <= v.len(),
            r@ == v@.take(i as int),
    {
        r.push(v[i]);
        assert(v@.take(i + 1) == v@.take(i as int).push(v@[i as int]));
    }
    r
}

fn skip_chars(v: &Vec<char>, n: usize) -> (r: Vec<char>)
    requires
        n <= v.len(),
    ensures
        r@ == v@.skip(n as int),
{
    let mut r: Vec<char> = Vec::new();
    let len = v.len();
    for i in n..len
        invariant
            len == v.len(),
            n <= i <= len,
            r@ == v@.subrange(n as int, i as int),
    {
        r.push(v[i]);
        assert(v@.subrange(n as int, i + 1) == v@.subrange(n as int, i as int).push(v@[i as int]));
    }
    r
}

/// `Path::file_stem`.
pub fn file_stem_of(s: &str) -> (r: Option<Vec<char>>)
    ensures
        match r {
            Some(v) => file_stem(s@) == Some(v@),
            None => file_stem(s@) is None,
        },
{
    match file_name_of(s) {
        None => None,
        Some(name) => match find_last_dot(&name) {
            Some(i) => {
                if i > 0 {
                    Some(take_chars(&name, i))
                } else {
                    Some(name)
                }
            },
            None => Some(name),
        },
    }
}

/// `Path::extension`.
pub fn extension_of_path(s: &str) -> (r: Option<Vec<char>>)
    ensures
        match r {
            Some(v) => extension(s@) == Some(v@),
            None => extension(s@) is None,
        },
{
    match file_name_of(s) {
        None => None,
        Some(name) => match find_last_dot(&name) {
            Some(i) => {
                if i > 0 {
                    Some(skip_chars(&name, i + 1))
                } else {
                    None
                }
            },
            None => None,
        },
    }
}

/// Rank of an encoded component in `std::path::Component`'s order:
/// root, then current dir, then parent dir, then normal components.
pub open spec fn component_rank(c: Seq<char>) -> int {
    if c == seq!['/'] {
        0
    } else if c == seq!['.'] {
        1
    } else if c == seq!['.', '.'] {
        2
    } else {
        3
    }
}

/// Order of two encoded components: by rank, normal ones by their text.
pub open spec fn component_order(a: Seq<char>, b: Seq<char>) -> int {
    if component_rank(a) < component_rank(b) {
        -1
    } else if component_rank(a) > component_rank(b) {
        1
    } else if component_rank(a) == 3 {
        chars_order(a, b)
    } else {
        0
    }
}

/// Lexicographic order of component lists (`Path`'s `Ord`).
pub open spec fn components_order(a: Seq<Seq<char>>, b: Seq<Seq<char>>) -> int
    decreases a.len(),
{
    if a.len() == 0 {
        if b.len() == 0 {
            0
        } else {
            -1
        }
    } else if b.len() == 0 {
        1
    } else if component_order(a[0], b[0]) != 0 {
        component_order(a[0], b[0])
    } else {
        components_order(a.drop_first(), b.drop_first())
    }
}

pub proof fn lemma_component_order_props(a: Seq<char>, b: Seq<char>)
    ensures
        component_order(a, b) == -component_order(b, a),
        component_order(a, b) == 0 <==> a == b,
        -1 <= component_order(a, b) <= 1,
{
    lemma_chars_order_antisymmetric(a, b);
}

pub proof fn lemma_component_order_transitive(a: Seq<char>, b: Seq<char>, c: Seq<char>)
    requires
        component_order(a, b) <= 0,
        component_order(b, c) <= 0,
    ensures
        component_order(a, c) <= 0,
        component_order(a, b) < 0 || component_order(b, c) < 0 ==> component_order(a, c) < 0,
{
    lemma_component_order_props(a, b);
    lemma_component_order_props(b, c);
    lemma_component_order_props(a, c);
    if component_rank(a) == 3 && component_rank(b) == 3 && component_rank(c) == 3 {
        lemma_chars_order_transitive(a, b, c);
    }
}

pub proof fn lemma_components_order_props(a: Seq<Seq<char>>, b: Seq<Seq<char>>)
    ensures
        components_order(a, b) == -components_order(b, a),
        components_order(a, b) == 0 <==> a == b,
        -1 <= components_order(a, b) <= 1,
    decreases a.len(),
{
    if a.len() == 0 || b.len() == 0 {
        if a.len() != b.len() {
            assert(a != b);
        } else {
            assert(a == b);
        }
    } else {
        lemma_component_order_props(a[0], b[0]);
        if component_order(a[0], b[0]) != 0 {
            assert(a[0] != b[0]);
            assert(a != b);
        } else {
            lemma_components_order_props(a.drop_first(), b.drop_first());
            assert(a == seq![a[0]] + a.drop_first());
            assert(b == seq![b[0]] + b.drop_first());
            if a == b {
                assert(a.drop_first() == b.drop_first());
            }
        }
    }
}

pub proof fn lemma_components_order_transitive(
    a: Seq<Seq<char>>,
    b: Seq<Seq<char>>,
    c: Seq<Seq<char>>,
)
    requires
        components_order(a, b) <= 0,
        components_order(b, c) <= 0,
    ensures
        components_order(a, c) <= 0,
        components_order(a, b) < 0 || components_order(b, c) < 0 ==> components_order(a, c) < 0,
    decreases a.len(),
{
    lemma_components_order_props(a, b);
    lemma_components_order_props(b, c);
    lemma_components_order_props(a, c);
    if a.len() > 0 && b.len() > 0 && c.len() > 0 {
        lemma_component_order_props(a[0], b[0]);
        lemma_component_order_props(b[0], c[0]);
        lemma_component_order_props(a[0], c[0]);
        if component_order(a[0], b[0]) <= 0 && component_order(b[0], c[0]) <= 0 {
            lemma_component_order_transitive(a[0], b[0], c[0]);
        }
        if component_order(a[0], b[0]) == 0 && component_order(b[0], c[0]) == 0 {
            lemma_components_order_transitive(a.drop_first(), b.drop_first(), c.drop_first());
        }
    }
}

/// Law: components are ordered as `std::path::Component` is: the root, then
/// the current dir, then the parent dir, then every normal component; two
/// normal components in dictionary order of their text by code point.
pub proof fn lemma_component_order_is_path_order(a: Seq<char>, b: Seq<char>)
    ensures
        is_normal(a) && is_normal(b) ==> (component_order(a, b) < 0 <==> lex_less(a, b)),
        component_order(a, b) == 0 <==> a == b,
        !is_normal(a) && is_normal(b) ==> component_order(a, b) < 0,
        a == seq!['/'] && b != seq!['/'] ==> component_order(a, b) < 0,
        a == seq!['.'] && b == seq!['.', '.'] ==> component_order(a, b) < 0,
{
    lemma_component_order_props(a, b);
    lemma_chars_order_is_dictionary_order(a, b);
    assert(seq!['.'].len() != seq!['.', '.'].len());
    assert(seq!['/'][0] != seq!['.'][0]);
    assert(seq!['/'].len() != seq!['.', '.'].len());
}

/// `a` sorts strictly before `b` as a list of components: it is a proper
/// prefix of `b`, or at the first component where they differ `a`'s
/// component sorts first.
pub open spec fn components_less(a: Seq<Seq<char>>, b: Seq<Seq<char>>) -> bool {
    ||| (a.len() < b.len() && b.take(a.len() as int) == a)
    ||| exists|k: int|
        0 <= k < a.len() && k < b.len() && a.take(k) == b.take(k) && #[trigger] component_order(
            a[k],
            b[k],
        ) < 0
}

proof fn lemma_components_less_tail(a: Seq<Seq<char>>, b: Seq<Seq<char>>)
    requires
        a.len() > 0,
        b.len() > 0,
        a[0] == b[0],
    ensures
        components_less(a, b) <==> components_less(a.drop_first(), b.drop_first()),
{
    let (a1, b1) = (a.drop_first(), b.drop_first());
    if a.len() < b.len() && b.take(a.len() as int) == a {
        assert(b1.take(a1.len() as int) =~= a1);
    }
    if a1.len() < b1.len() && b1.take(a1.len() as int) == a1 {
        assert forall|i: int| 0 <= i < a.len() implies #[trigger] b.take(a.len() as int)[i] == a[i] by {
            if i > 0 {
                assert(b1.take(a1.len() as int)[i - 1] == a1[i - 1]);
            }
        }
        assert(b.take(a.len() as int) =~= a);
    }
    if exists|k: int|
        0 <= k < a.len() && k < b.len() && a.take(k) == b.take(k) && #[trigger] component_order(a[k], b[k]) < 0 {
        let k = choose|k: int|
            0 <= k < a.len() && k < b.len() && a.take(k) == b.take(k) && #[trigger] component_order(a[k], b[k]) < 0;
        lemma_component_order_props(a[0], b[0]);
        assert(k > 0);
        assert(a1.take(k - 1) =~= b1.take(k - 1)) by {
            assert forall|i: int| 0 <= i < k - 1 implies #[trigger] a1.take(k - 1)[i] == b1.take(k - 1)[i] by {
                assert(a.take(k)[i + 1] == b.take(k)[i + 1]);
            }
        }
        assert(component_order(a1[k - 1], b1[k - 1]) < 0);
    }
    if exists|k: int|
        0 <= k < a1.len() && k < b1.len() && a1.take(k) == b1.take(k) && #[trigger] component_order(a1[k], b1[k]) < 0 {
        let k = choose|k: int|
            0 <= k < a1.len() && k < b1.len() && a1.take(k) == b1.take(k) && #[trigger] component_order(a1[k], b1[k]) < 0;
        assert(a.take(k + 1) =~= b.take(k + 1)) by {
            assert forall|i: int| 0 <= i < k + 1 implies #[trigger] a.take(k + 1)[i] == b.take(k + 1)[i] by {
                if i > 0 {
                    assert(a1.take(k)[i - 1] == b1.take(k)[i - 1]);
                }
            }
        }
        assert(component_order(a[k + 1], b[k + 1]) < 0);
    }
}

/// Law: the path order is dictionary order on component lists: negative
/// exactly when `a` sorts strictly before `b` component by component, zero
/// exactly when the lists are equal.
pub proof fn lemma_components_order_is_dictionary_order(a: Seq<Seq<char>>, b: Seq<Seq<char>>)
    ensures
        components_order(a, b) < 0 <==> components_less(a, b),
        components_order(a, b) == 0 <==> a == b,
        components_order(a, b) > 0 <==> components_less(b, a),
    decreases a.len(),
{
    lemma_components_order_props(a, b);
    if a.len() == 0 || b.len() == 0 {
        if a.len() == 0 && b.len() > 0 {
            assert(b.take(0) =~= a);
        }
        if b.len() == 0 && a.len() > 0 {
            assert(a.take(0) =~= b);
        }
    } else if a[0] != b[0] {
        lemma_component_order_props(a[0], b[0]);
        if component_order(a[0], b[0]) < 0 {
            assert(a.take(0) =~= b.take(0));
            assert(component_order(a[0], b[0]) < 0);
            assert(!components_less(b, a)) by {
                if b.len() < a.len() && a.take(b.len() as int) == b {
                    assert(a.take(b.len() as int)[0] == b[0]);
                }
                if exists|k: int|
                    0 <= k < b.len() && k < a.len() && b.take(k) == a.take(k) && #[trigger] component_order(b[k], a[k]) < 0 {
                    let k = choose|k: int|
                        0 <= k < b.len() && k < a.len() && b.take(k) == a.take(k) && #[trigger] component_order(b[k], a[k]) < 0;
                    if k > 0 {
                        assert(b.take(k)[0] == a.take(k)[0]);
                    }
                }
            }
        } else {
            assert(b.take(0) =~= a.take(0));
            assert(component_order(b[0], a[0]) < 0);
            assert(!components_less(a, b)) by {
                if a.len() < b.len() && b.take(a.len() as int) == a {
                    assert(b.take(a.len() as int)[0] == a[0]);
                }
                if exists|k: int|
                    0 <= k < a.len() && k < b.len() && a.take(k) == b.take(k) && #[trigger] component_order(a[k], b[k]) < 0 {
                    let k = choose|k: int|
                        0 <= k < a.len() && k < b.len() && a.take(k) == b.take(k) && #[trigger] component_order(a[k], b[k]) < 0;
                    if k > 0 {
                        assert(a.take(k)[0] == b.take(k)[0]);
                    }
                }
            }
        }
    } else {
        lemma_component_order_props(a[0], b[0]);
        lemma_components_order_is_dictionary_order(a.drop_first(), b.drop_first());
        lemma_components_less_tail(a, b);
        lemma_components_less_tail(b, a);
    }
}

fn rank_of(c: &Vec<char>) -> (r: u8)
    ensures
        r == component_rank(c@),
{
    let root = vec!['/'];
    let cur = vec!['.'];
    let parent = vec!['.', '.'];
    assert(root@ == seq!['/']);
    assert(cur@ == seq!['.']);
    assert(parent@ == seq!['.', '.']);
    if chars_equal(c, &root) {
        0
    } else if chars_equal(c, &cur) {
        1
    } else if chars_equal(c, &parent) {
        2
    } else {
        3
    }
}

fn compare_component(a: &Vec<char>, b: &Vec<char>) -> (r: i8)
    ensures
        r == component_order(a@, b@),
{
    let ra = rank_of(a);
    let rb = rank_of(b);
    if ra < rb {
        -1
    } else if ra > rb {
        1
    } else if ra == 3 {
        compare_chars(a, b)
    } else {
        0
    }
}

/// Compare two component lists in `Path`'s order.
pub fn compare_components(a: &Vec<Vec<char>>, b: &Vec<Vec<char>>) -> (r: i8)
    ensures
        r == components_order(
            a@.map_values(|p: Vec<char>| p@),
            b@.map_values(|p: Vec<char>| p@),
        ),
{
    let ghost av = a@.map_values(|p: Vec<char>| p@);
    let ghost bv = b@.map_values(|p: Vec<char>| p@);
    let mut i: usize = 0;
    proof {
        assert(av.skip(0) == av);
        assert(bv.skip(0) == bv);
    }
    loop
        invariant
            i <= a.len(),
            i <= b.len(),
            av == a@.map_values(|p: Vec<char>| p@),
            bv == b@.map_values(|p: Vec<char>| p@),
            components_order(av, bv) == components_order(av.skip(i as int), bv.skip(i as int)),
        decreases a.len() - i,
    {
        if i == a.len() {
            if i == b.len() {
                return 0;
            }
            return -1;
        }
        if i == b.len() {
            return 1;
        }
        let c = compare_component(&a[i], &b[i]);
        proof {
            assert(av.skip(i as int)[0] == a@[i as int]@);
            assert(bv.skip(i as int)[0] == b@[i as int]@);
        }
        if c != 0 {
            return c;
        }
        proof {
            assert(av.skip(i as int).drop_first() == av.skip(i + 1));
            assert(bv.skip(i as int).drop_first() == bv.skip(i + 1));
        }
        i = i + 1;
    }
}

} // verus!
