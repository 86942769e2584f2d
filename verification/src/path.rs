//! Unix paths held as text: the file name, file stem and extension of a path,
//! changing its extension, and joining two paths, with the meaning that
//! `std::path` gives them for `/`-separated paths.
use vstd::prelude::*;

use crate::text::{chars_of, push_char, str_equal, string_of, string_of_range};

verus! {

/// `p` without its trailing separators and trailing `/.` components, which do
/// not count as components of a path.
pub open spec fn trim_trailing(p: Seq<char>) -> Seq<char>
    decreases p.len(),
{
    if p.len() > 0 && p.last() == '/' {
        trim_trailing(p.drop_last())
    } else if p.len() >= 2 && p.last() == '.' && p[p.len() - 2] == '/' {
        trim_trailing(p.drop_last())
    } else {
        p
    }
}

/// Index just past the last separator of `t`, or 0 when `t` has none.
pub open spec fn name_start(t: Seq<char>) -> int
    decreases t.len(),
{
    if t.len() == 0 {
        0
    } else if t.last() == '/' {
        t.len() as int
    } else {
        name_start(t.drop_last())
    }
}

/// The last component of `p`, as written (possibly `.`, `..` or empty).
pub open spec fn last_component(p: Seq<char>) -> Seq<char> {
    let t = trim_trailing(p);
    t.subrange(name_start(t), t.len() as int)
}

/// The final component of the path, if it names a file or directory
/// (not the root, `.` or `..`).
pub open spec fn file_name_of(p: Seq<char>) -> Option<Seq<char>> {
    let n = last_component(p);
    if n.len() == 0 || n == seq!['.'] || n == seq!['.', '.'] {
        None
    } else {
        Some(n)
    }
}

/// Index of the last `.` in `n`, or -1 when there is none.
pub open spec fn last_dot(n: Seq<char>) -> int
    decreases n.len(),
{
    if n.len() == 0 {
        -1
    } else if n.last() == '.' {
        n.len() - 1
    } else {
        last_dot(n.drop_last())
    }
}

/// The part of a file name before its extension: all of it when it has no `.`
/// or only a leading one.
pub open spec fn stem_of_name(n: Seq<char>) -> Seq<char> {
    if last_dot(n) <= 0 {
        n
    } else {
        n.take(last_dot(n))
    }
}

/// The part of a file name after its last `.`, unless that `.` is the first
/// character.
pub open spec fn extension_of_name(n: Seq<char>) -> Option<Seq<char>> {
    if last_dot(n) <= 0 {
        None
    } else {
        Some(n.skip(last_dot(n) + 1))
    }
}

/// The extension of the path's file name, if it has a file name and one.
pub open spec fn extension_of(p: Seq<char>) -> Option<Seq<char>> {
    match file_name_of(p) {
        Some(n) => extension_of_name(n),
        None => None,
    }
}

/// The stem of the path's file name, if it has a file name.
pub open spec fn file_stem_of(p: Seq<char>) -> Option<Seq<char>> {
    match file_name_of(p) {
        Some(n) => Some(stem_of_name(n)),
        None => None,
    }
}

/// The path with its extension replaced by `e` (removed when `e` is empty):
/// everything after the file stem is dropped, then `.` and `e` are appended.
/// A path without a file name is left as it is.
pub open spec fn with_extension_of(p: Seq<char>, e: Seq<char>) -> Seq<char> {
    match file_name_of(p) {
        Some(n) => {
            let kept = p.take(name_start(trim_trailing(p)) + stem_of_name(n).len());
            if e.len() == 0 {
                kept
            } else {
                kept + seq!['.'] + e
            }
        },
        None => p,
    }
}

/// `base` with `p` pushed onto it: an absolute `p` replaces `base`; otherwise
/// a separator is put between them unless `base` is empty or ends with one.
pub open spec fn joined(base: Seq<char>, p: Seq<char>) -> Seq<char> {
    if p.len() > 0 && p[0] == '/' {
        p
    } else if base.len() > 0 && base.last() != '/' {
        base + seq!['/'] + p
    } else {
        base + p
    }
}

/// A plain file name: not empty, without separators, not `.` or `..`.
pub open spec fn is_plain_name(n: Seq<char>) -> bool {
    &&& n.len() > 0
    &&& !n.contains('/')
    &&& n != seq!['.']
    &&& n != seq!['.', '.']
}

pub(crate) proof fn lemma_trim_is_prefix(p: Seq<char>)
    ensures
        trim_trailing(p).len() <= p.len(),
        trim_trailing(p) == p.take(trim_trailing(p).len() as int),
    decreases p.len(),
{
    if p.len() > 0 && p.last() == '/' {
        lemma_trim_is_prefix(p.drop_last());
        assert(p.drop_last().take(trim_trailing(p).len() as int) =~= p.take(
            trim_trailing(p).len() as int,
        ));
    } else if p.len() >= 2 && p.last() == '.' && p[p.len() - 2] == '/' {
        lemma_trim_is_prefix(p.drop_last());
        assert(p.drop_last().take(trim_trailing(p).len() as int) =~= p.take(
            trim_trailing(p).len() as int,
        ));
    } else {
        assert(p.take(p.len() as int) =~= p);
    }
}

proof fn lemma_name_start_bounds(t: Seq<char>)
    ensures
        0 <= name_start(t) <= t.len(),
        forall|i: int| name_start(t) <= i < t.len() ==> t[i] != '/',
        name_start(t) > 0 ==> t[name_start(t) - 1] == '/',
    decreases t.len(),
{
    if t.len() > 0 && t.last() != '/' {
        lemma_name_start_bounds(t.drop_last());
        assert forall|i: int| name_start(t) <= i < t.len() implies t[i] != '/' by {
            if i < t.len() - 1 {
                assert(t[i] == t.drop_last()[i]);
            }
        }
    }
}

proof fn lemma_last_dot_bounds(n: Seq<char>)
    ensures
        -1 <= last_dot(n) < n.len(),
        last_dot(n) >= 0 ==> n[last_dot(n)] == '.',
        forall|i: int| last_dot(n) < i < n.len() ==> n[i] != '.',
    decreases n.len(),
{
    if n.len() > 0 && n.last() != '.' {
        lemma_last_dot_bounds(n.drop_last());
        assert forall|i: int| last_dot(n) < i < n.len() implies n[i] != '.' by {
            if i < n.len() - 1 {
                assert(n[i] == n.drop_last()[i]);
            }
        }
    }
}

pub(crate) proof fn lemma_name_start_at(s: Seq<char>, j: int)
    requires
        0 <= j <= s.len(),
        j == 0 || s[j - 1] == '/',
        forall|i: int| j <= i < s.len() ==> s[i] != '/',
    ensures
        name_start(s) == j,
    decreases s.len(),
{
    if s.len() > j {
        let d = s.drop_last();
        assert forall|i: int| j <= i < d.len() implies d[i] != '/' by {
            assert(d[i] == s[i]);
        }
        if j > 0 {
            assert(d[j - 1] == s[j - 1]);
        }
        lemma_name_start_at(d, j);
    } else if j > 0 {
        assert(s.last() == '/');
    }
}

pub(crate) proof fn lemma_last_dot_at(s: Seq<char>, j: int)
    requires
        0 <= j < s.len(),
        s[j] == '.',
        forall|i: int| j < i < s.len() ==> s[i] != '.',
    ensures
        last_dot(s) == j,
    decreases s.len(),
{
    if s.len() > j + 1 {
        let d = s.drop_last();
        assert forall|i: int| j < i < d.len() implies d[i] != '.' by {
            assert(d[i] == s[i]);
        }
        assert(d[j] == s[j]);
        lemma_last_dot_at(d, j);
    }
}

proof fn lemma_stem_facts(n: Seq<char>)
    requires
        n.len() > 0,
    ensures
        stem_of_name(n).len() > 0,
        stem_of_name(n) == n.take(stem_of_name(n).len() as int),
        stem_of_name(n).len() <= n.len(),
{
    lemma_last_dot_bounds(n);
    if last_dot(n) <= 0 {
        assert(n.take(n.len() as int) =~= n);
    }
}

pub(crate) proof fn lemma_file_name_facts(p: Seq<char>)
    requires
        file_name_of(p) is Some,
    ensures
        ({
            let t = trim_trailing(p);
            let ns = name_start(t);
            let n = file_name_of(p)->0;
            &&& 0 <= ns <= t.len() <= p.len()
            &&& t == p.take(t.len() as int)
            &&& n == p.subrange(ns, t.len() as int)
            &&& n.len() > 0
            &&& !n.contains('/')
            &&& (ns == 0 || p[ns - 1] == '/')
        }),
{
    let t = trim_trailing(p);
    lemma_trim_is_prefix(p);
    lemma_name_start_bounds(t);
    let ns = name_start(t);
    let n = file_name_of(p)->0;
    assert(n =~= p.subrange(ns, t.len() as int));
    if ns > 0 {
        assert(t[ns - 1] == p[ns - 1]);
    }
    assert forall|i: int| 0 <= i < n.len() implies n[i] != '/' by {
        assert(n[i] == t[ns + i]);
    }
}

/// What setting an extension writes, reading the extension gives back: when
/// the path has a file name and `e` is a non-empty extension without `.` or
/// `/`, the changed path has extension `e` and the same file stem.
pub proof fn law_extension_after_set(p: Seq<char>, e: Seq<char>)
    requires
        file_name_of(p) is Some,
        e.len() > 0,
        !e.contains('.'),
        !e.contains('/'),
    ensures
        extension_of(with_extension_of(p, e)) == Some(e),
        file_stem_of(with_extension_of(p, e)) == file_stem_of(p),
        file_name_of(with_extension_of(p, e)) == Some(
            stem_of_name(file_name_of(p)->0) + seq!['.'] + e,
        ),
{
    lemma_file_name_facts(p);
    let t = trim_trailing(p);
    let ns = name_start(t);
    let n = file_name_of(p)->0;
    lemma_stem_facts(n);
    let stem = stem_of_name(n);
    let kept = p.take(ns + stem.len());
    let q = kept + seq!['.'] + e;
    assert(with_extension_of(p, e) == q);
    assert(kept.subrange(ns, kept.len() as int) =~= stem);
    // No trailing separators or `/.` to trim: the last character is from `e`.
    assert(q.last() == e.last());
    assert(e.contains(e.last()));
    assert(trim_trailing(q) == q);
    // The file name of `q` starts where that of `p` did.
    assert forall|i: int| ns <= i < q.len() implies q[i] != '/' by {
        if i < kept.len() {
            assert(q[i] == stem[i - ns]);
            assert(stem[i - ns] == n[i - ns]);
            assert(n.contains(n[i - ns]));
        } else if i > kept.len() {
            assert(q[i] == e[i - kept.len() - 1]);
            assert(e.contains(e[i - kept.len() - 1]));
        }
    }
    if ns > 0 {
        assert(q[ns - 1] == p[ns - 1]);
    }
    lemma_name_start_at(q, ns);
    let m = q.subrange(ns, q.len() as int);
    assert(m =~= stem + seq!['.'] + e);
    assert(m.len() >= 3);
    assert(m != seq!['.']);
    assert(m != seq!['.', '.']);
    assert(file_name_of(q) == Some(m));
    // The last dot of the new name is the one put before `e`.
    assert forall|i: int| stem.len() < i < m.len() implies m[i] != '.' by {
        assert(m[i] == e[i - stem.len() - 1]);
        assert(e.contains(e[i - stem.len() - 1]));
    }
    lemma_last_dot_at(m, stem.len() as int);
    assert(m.skip(stem.len() as int + 1) =~= e);
    assert(m.take(stem.len() as int) =~= stem);
}

/// Joining a directory and a plain file name gives a path whose file name is
/// that name.
#[verifier::rlimit(40)]
pub proof fn law_file_name_after_join(base: Seq<char>, n: Seq<char>)
    requires
        is_plain_name(n),
    ensures
        file_name_of(joined(base, n)) == Some(n),
{
    let q = joined(base, n);
    assert(n.contains(n[0]));
    assert(n.contains(n.last()));
    let start = q.len() - n.len();
    assert(q.subrange(start, q.len() as int) =~= n);
    assert forall|i: int| start <= i < q.len() implies q[i] != '/' by {
        assert(q[i] == n[i - start]);
        assert(n.contains(n[i - start]));
    }
    // The last character is not a separator, and if it is `.` then, `n` not
    // being `.`, the character before it is not a separator either.
    if n.len() >= 2 {
        assert(q[q.len() - 2] == n[n.len() - 2]);
        assert(n.contains(n[n.len() - 2]));
    } else if n.last() == '.' {
        assert(n =~= seq!['.']);
    }
    assert(trim_trailing(q) == q);
    if start > 0 {
        assert(q[start - 1] == '/');
    }
    lemma_name_start_at(q, start);
}


/// How a path begins: at the root, with the current directory `.` as its own
/// component, or with a plain component.
#[derive(Debug, Clone, Copy, PartialEq, Eq, Structural)]
pub enum PathStart {
    /// The path begins with a separator.
    Root,
    /// The path is `.` or begins with `./`.
    CurDir,
    /// Any other path.
    Plain,
}

/// How the path `p` begins.
pub open spec fn path_start(p: Seq<char>) -> PathStart {
    if p.len() > 0 && p[0] == '/' {
        PathStart::Root
    } else if p.len() > 0 && p[0] == '.' && (p.len() == 1 || p[1] == '/') {
        PathStart::CurDir
    } else {
        PathStart::Plain
    }
}

/// The pieces of `p` between separators, in order, empty ones included: a
/// path with `k` separators has `k + 1` pieces.
pub open spec fn pieces(p: Seq<char>) -> Seq<Seq<char>>
    decreases p.len(),
{
    if p.len() == 0 {
        seq![Seq::<char>::empty()]
    } else {
        let s = pieces(p.drop_last());
        if p.last() == '/' {
            s.push(Seq::<char>::empty())
        } else {
            s.update(s.len() - 1, s.last().push(p.last()))
        }
    }
}

/// A piece that is a component of the path: not empty and not `.`.
pub open spec fn is_component(s: Seq<char>) -> bool {
    s.len() > 0 && s != seq!['.']
}

/// The components of `p` after how it begins: its pieces without the empty
/// ones and without `.`, so repeated separators, a trailing separator and
/// `.` components do not count.
pub open spec fn components_of(p: Seq<char>) -> Seq<Seq<char>> {
    pieces(p).filter(|s: Seq<char>| is_component(s))
}

/// Whether two paths are equal as `std::path::Path` compares them: they begin
/// the same way and have the same components.
pub open spec fn path_eq(a: Seq<char>, b: Seq<char>) -> bool {
    path_start(a) == path_start(b) && components_of(a) == components_of(b)
}


proof fn lemma_pieces_nonempty(p: Seq<char>)
    ensures
        pieces(p).len() >= 1,
    decreases p.len(),
{
    if p.len() > 0 {
        lemma_pieces_nonempty(p.drop_last());
    }
}

/// The pieces of `a`, a separator and `c` are those of `a` followed by those
/// of `c`.
proof fn lemma_pieces_split(a: Seq<char>, c: Seq<char>)
    ensures
        pieces(a + seq!['/'] + c) == pieces(a) + pieces(c),
    decreases c.len(),
{
    let s = seq!['/'];
    if c.len() == 0 {
        let p = a + s;
        assert(p.drop_last() =~= a);
        assert(a + s + c =~= p);
        assert(pieces(p) =~= pieces(a) + pieces(c));
    } else {
        let d = c.drop_last();
        lemma_pieces_split(a, d);
        lemma_pieces_nonempty(d);
        lemma_pieces_nonempty(a);
        let p = a + s + c;
        assert(p.drop_last() =~= a + s + d);
        assert(p.last() == c.last());
        assert(c.drop_last() == d);
        if c.last() == '/' {
            assert(pieces(p) =~= pieces(a) + pieces(c));
        } else {
            assert(pieces(p) =~= pieces(a) + pieces(c));
        }
    }
}

/// The components of `a`, a separator and `c` are those of `a` followed by
/// those of `c`: a separator only ends a component.
pub proof fn law_components_of_separated(a: Seq<char>, c: Seq<char>)
    ensures
        components_of(a + seq!['/'] + c) == components_of(a) + components_of(c),
{
    lemma_pieces_split(a, c);
    Seq::filter_distributes_over_add(pieces(a), pieces(c), |s: Seq<char>| is_component(s));
}

/// Equal paths have the same components, one by one, and begin the same
/// way; paths that differ in any component are different paths.
pub proof fn law_equal_paths_have_equal_components(a: Seq<char>, b: Seq<char>)
    ensures
        path_eq(a, b) ==> path_start(a) == path_start(b) && components_of(a).len()
            == components_of(b).len() && forall|i: int|
            0 <= i < components_of(a).len() ==> #[trigger] components_of(a)[i]
                == components_of(b)[i],
        (path_start(a) == path_start(b) && components_of(a) == components_of(b)) ==> path_eq(
            a,
            b,
        ),
{
}

/// Putting the same tail below two non-empty paths keeps them equal or
/// different: `d1/x` and `d2/x` are the same path exactly when `d1` and `d2`
/// are.
pub proof fn law_path_eq_common_tail(a: Seq<char>, b: Seq<char>, c: Seq<char>)
    requires
        a.len() > 0,
        b.len() > 0,
    ensures
        path_eq(a + seq!['/'] + c, b + seq!['/'] + c) == path_eq(a, b),
{
    let pa = a + seq!['/'] + c;
    let pb = b + seq!['/'] + c;
    law_components_of_separated(a, c);
    law_components_of_separated(b, c);
    assert(pa[0] == a[0] && pb[0] == b[0]);
    if a.len() >= 2 {
        assert(pa[1] == a[1]);
    } else {
        assert(pa[1] == '/');
    }
    if b.len() >= 2 {
        assert(pb[1] == b[1]);
    } else {
        assert(pb[1] == '/');
    }
    assert(path_start(pa) == path_start(a));
    assert(path_start(pb) == path_start(b));
    let x = components_of(a);
    let y = components_of(b);
    let t = components_of(c);
    if x + t == y + t {
        assert((x + t).len() == (y + t).len());
        assert(x.len() == y.len());
        assert(x =~= (x + t).take(x.len() as int));
        assert(y =~= (y + t).take(y.len() as int));
    }
}

/// How `p` begins.
fn start_of(p: &[char]) -> (r: PathStart)
    ensures
        r == path_start(p@),
{
    if p.len() > 0 && p[0] == '/' {
        PathStart::Root
    } else if p.len() > 0 && p[0] == '.' && (p.len() == 1 || p[1] == '/') {
        PathStart::CurDir
    } else {
        PathStart::Plain
    }
}

/// Whether the characters form a component (not empty, not `.`).
fn is_component_chars(cur: &Vec<char>) -> (r: bool)
    ensures
        r == is_component(cur@),
{
    if cur.len() == 0 {
        return false;
    }
    if cur.len() == 1 && cur[0] == '.' {
        assert(cur@ =~= seq!['.']);
        return false;
    }
    proof {
        if cur@ == seq!['.'] {
            assert(cur@.len() == 1);
            assert(cur@[0] == '.');
        }
    }
    true
}

/// The components of `p` after how it begins, each as a `String`.
fn components(p: &[char]) -> (r: Vec<String>)
    ensures
        r.deep_view() == components_of(p@),
{
    let ghost keep = |s: Seq<char>| is_component(s);
    let mut r: Vec<String> = Vec::new();
    let mut cur: Vec<char> = Vec::new();
    let n = p.len();
    proof {
        assert(p@.take(0) =~= Seq::<char>::empty());
        assert(pieces(p@.take(0)).drop_last() =~= Seq::<Seq<char>>::empty());
        assert(cur@ =~= pieces(p@.take(0)).last());
    }
    for i in 0..n
        invariant
            n == p@.len(),
            keep == (|s: Seq<char>| is_component(s)),
            pieces(p@.take(i as int)).len() >= 1,
            cur@ == pieces(p@.take(i as int)).last(),
            r.deep_view() == pieces(p@.take(i as int)).drop_last().filter(keep),
    {
        let ghost s = pieces(p@.take(i as int));
        assert(p@.take(i + 1).drop_last() =~= p@.take(i as int));
        assert(p@.take(i + 1).last() == p@[i as int]);
        if p[i] == '/' {
            proof {
                assert(s =~= s.drop_last().push(s.last()));
                s.drop_last().lemma_filter_push(s.last(), keep);
                assert(pieces(p@.take(i + 1)).drop_last() =~= s);
            }
            let ghost before = r.deep_view();
            if is_component_chars(&cur) {
                let seg = string_of(cur.as_slice());
                r.push(seg);
                assert(r.deep_view() =~= before.push(cur@));
            }
            proof {
                assert(keep(s.last()) == is_component(cur@));
                assert(s.filter(keep) == s.drop_last().push(s.last()).filter(keep));
            }
            assert(r.deep_view() == s.filter(keep));
            cur = Vec::new();
            assert(cur@ =~= pieces(p@.take(i + 1)).last());
        } else {
            proof {
                assert(pieces(p@.take(i + 1)).drop_last() =~= s.drop_last());
            }
            cur.push(p[i]);
            assert(cur@ =~= pieces(p@.take(i + 1)).last());
            assert(r.deep_view() == pieces(p@.take(i + 1)).drop_last().filter(keep));
        }
    }
    let ghost s = pieces(p@.take(n as int));
    proof {
        assert(p@.take(n as int) =~= p@);
        assert(s =~= s.drop_last().push(s.last()));
        s.drop_last().lemma_filter_push(s.last(), keep);
    }
    let ghost before = r.deep_view();
    if is_component_chars(&cur) {
        let seg = string_of(cur.as_slice());
        r.push(seg);
        assert(r.deep_view() =~= before.push(cur@));
    }
    r
}

/// Whether two paths are equal as `std::path::Path` compares them: they begin
/// the same way and have the same components, so `/d/./out.html`,
/// `/d//out.html` and `/d/out.html` are one path.
pub fn paths_equal(a: &str, b: &str) -> (r: bool)
    ensures
        r == path_eq(a@, b@),
{
    let x = chars_of(a);
    let y = chars_of(b);
    if start_of(x.as_slice()) != start_of(y.as_slice()) {
        return false;
    }
    let cx = components(x.as_slice());
    let cy = components(y.as_slice());
    if cx.len() != cy.len() {
        assert(cx.deep_view().len() != cy.deep_view().len());
        return false;
    }
    let n = cx.len();
    for i in 0..n
        invariant
            n == cx@.len(),
            n == cy@.len(),
            cx.deep_view() == components_of(a@),
            cy.deep_view() == components_of(b@),
            forall|j: int| 0 <= j < i ==> cx.deep_view()[j] == cy.deep_view()[j],
    {
        assert(cx.deep_view()[i as int] == cx@[i as int]@);
        assert(cy.deep_view()[i as int] == cy@[i as int]@);
        if !str_equal(cx[i].as_str(), cy[i].as_str()) {
            return false;
        }
    }
    assert(cx.deep_view() =~= cy.deep_view());
    true
}


/// Index of the last separator in `p[b..n]`, or -1 when there is none.
pub open spec fn last_sep_between(p: Seq<char>, b: int, n: int) -> int
    decreases n - b,
{
    if n <= b {
        -1
    } else if p[n - 1] == '/' {
        n - 1
    } else {
        last_sep_between(p, b, n - 1)
    }
}

/// The last separator of `p[b..n]`, when there is one, lies in that range.
pub proof fn lemma_last_sep_below(p: Seq<char>, b: int, n: int)
    ensures
        n > b ==> b <= last_sep_between(p, b, n) < n || last_sep_between(p, b, n) == -1,
    decreases n - b,
{
    if n > b && p[n - 1] != '/' {
        lemma_last_sep_below(p, b, n - 1);
        if n - 1 <= b {
            assert(last_sep_between(p, b, n - 1) == -1);
        }
    }
}

/// Where the last piece of `p[b..n]` starts.
pub open spec fn piece_start(p: Seq<char>, b: int, n: int) -> int {
    if last_sep_between(p, b, n) >= 0 {
        last_sep_between(p, b, n) + 1
    } else {
        b
    }
}

/// The length left when the last piece of `p[b..n]` and the separator before
/// it are cut off.
pub open spec fn cut_piece(p: Seq<char>, b: int, n: int) -> int {
    if last_sep_between(p, b, n) >= 0 {
        last_sep_between(p, b, n)
    } else {
        b
    }
}

/// How many characters come before the components of `p`: the root or a
/// leading `.` component.
pub open spec fn before_components(p: Seq<char>) -> int {
    if path_start(p) == PathStart::Plain {
        0
    } else {
        1
    }
}

/// Going back from `p[..n]`, cut off pieces that are not components until
/// one is; the length left before that component, if one is found after `b`.
pub open spec fn cut_last_component(p: Seq<char>, b: int, n: int) -> Option<int>
    decreases n - b,
{
    if n <= b {
        None
    } else if is_component(p.subrange(piece_start(p, b, n), n)) {
        Some(cut_piece(p, b, n))
    } else {
        proof {
            lemma_last_sep_below(p, b, n);
        }
        cut_last_component(p, b, cut_piece(p, b, n))
    }
}

/// `p[..n]` without trailing pieces that are not components, not going below
/// `b`.
pub open spec fn trim_back(p: Seq<char>, b: int, n: int) -> int
    decreases n - b,
{
    if n <= b {
        n
    } else if is_component(p.subrange(piece_start(p, b, n), n)) {
        n
    } else {
        proof {
            lemma_last_sep_below(p, b, n);
        }
        trim_back(p, b, cut_piece(p, b, n))
    }
}

/// The length of the parent of `p`, as `Path::parent` gives it: the path
/// without its last component and the separators and `.` components before
/// that; `None` for the root and the empty path. The parent of `.` is empty.
pub open spec fn parent_len(p: Seq<char>) -> Option<int> {
    let b = before_components(p);
    match cut_last_component(p, b, p.len() as int) {
        Some(c) => Some(trim_back(p, b, c)),
        None => if path_start(p) == PathStart::CurDir {
            Some(0)
        } else {
            None
        },
    }
}

proof fn lemma_last_sep_bounds(p: Seq<char>, b: int, n: int)
    requires
        0 <= b,
        n <= p.len(),
    ensures
        last_sep_between(p, b, n) == -1 || (b <= last_sep_between(p, b, n) < n && p[last_sep_between(p, b, n)] == '/'),
        forall|i: int| last_sep_between(p, b, n) < i < n && b <= i ==> p[i] != '/',
    decreases n - b,
{
    if n > b && p[n - 1] != '/' {
        lemma_last_sep_bounds(p, b, n - 1);
    }
}

/// `last_sep_between(p, b, n)`, `None` standing for -1.
fn last_sep_in(p: &[char], b: usize, n: usize) -> (r: Option<usize>)
    requires
        b <= n <= p@.len(),
    ensures
        match r {
            Some(i) => last_sep_between(p@, b as int, n as int) == i,
            None => last_sep_between(p@, b as int, n as int) == -1,
        },
{
    let mut j = n;
    while j > b && p[j - 1] != '/'
        invariant
            b <= j <= n <= p@.len(),
            last_sep_between(p@, b as int, n as int) == last_sep_between(p@, b as int, j as int),
        decreases j,
    {
        j = j - 1;
    }
    if j > b {
        Some(j - 1)
    } else {
        None
    }
}

/// Where the last piece of `p[b..n]` starts, and the length left when it is
/// cut off with the separator before it.
fn last_piece(p: &[char], b: usize, n: usize) -> (r: (usize, usize))
    requires
        b < n <= p@.len(),
    ensures
        r.0 == piece_start(p@, b as int, n as int),
        r.1 == cut_piece(p@, b as int, n as int),
        b <= r.1 < r.0 <= n || (r.1 == b && r.0 == b),
        r.1 < n,
{
    proof {
        lemma_last_sep_bounds(p@, b as int, n as int);
    }
    match last_sep_in(p, b, n) {
        Some(i) => (i + 1, i),
        None => (b, b),
    }
}

/// Whether `p[s..n]` is a component (not empty, not `.`).
fn piece_is_component(p: &[char], s: usize, n: usize) -> (r: bool)
    requires
        s <= n <= p@.len(),
    ensures
        r == is_component(p@.subrange(s as int, n as int)),
{
    let ghost piece = p@.subrange(s as int, n as int);
    if n == s {
        return false;
    }
    if n - s == 1 && p[s] == '.' {
        assert(piece =~= seq!['.']);
        return false;
    }
    proof {
        if piece == seq!['.'] {
            assert(piece.len() == 1 && piece[0] == '.');
        }
    }
    true
}

/// `cut_last_component(p, b, p.len())`.
fn find_last_component(p: &[char], b: usize) -> (r: Option<usize>)
    requires
        b <= p@.len(),
    ensures
        match r {
            Some(c) => cut_last_component(p@, b as int, p@.len() as int) == Some(c as int) && c
                <= p@.len(),
            None => cut_last_component(p@, b as int, p@.len() as int) is None,
        },
{
    let mut n = p.len();
    while n > b
        invariant
            b <= p@.len(),
            n <= p@.len(),
            cut_last_component(p@, b as int, p@.len() as int) == cut_last_component(
                p@,
                b as int,
                n as int,
            ),
        decreases n,
    {
        let (s, cut) = last_piece(p, b, n);
        if piece_is_component(p, s, n) {
            return Some(cut);
        }
        n = cut;
    }
    None
}

/// `trim_back(p, b, c)`.
fn trim_back_len(p: &[char], b: usize, c: usize) -> (r: usize)
    requires
        b <= p@.len(),
        c <= p@.len(),
    ensures
        r == trim_back(p@, b as int, c as int),
        r <= c,
{
    let mut m = c;
    while m > b
        invariant
            b <= p@.len(),
            m <= c <= p@.len(),
            trim_back(p@, b as int, c as int) == trim_back(p@, b as int, m as int),
        decreases m,
    {
        let (s, cut) = last_piece(p, b, m);
        if piece_is_component(p, s, m) {
            return m;
        }
        m = cut;
    }
    m
}

/// The length of the parent of the path `p`, if it has one.
fn parent_length(p: &[char]) -> (r: Option<usize>)
    ensures
        match r {
            Some(k) => parent_len(p@) == Some(k as int) && k <= p@.len(),
            None => parent_len(p@) is None,
        },
{
    let start = start_of(p);
    let b: usize = match start {
        PathStart::Plain => 0,
        _ => 1,
    };
    if b > p.len() {
        assert(false);
    }
    match find_last_component(p, b) {
        Some(c) => Some(trim_back_len(p, b, c)),
        None => {
            if start == PathStart::CurDir {
                Some(0)
            } else {
                None
            }
        },
    }
}

/// The parent of `path`, as `Path::parent` gives it: the path without its
/// last component and the separators and `.` components before it; `None`
/// for the root and the empty path.
pub fn parent(path: &str) -> (r: Option<String>)
    ensures
        match r {
            Some(x) => parent_len(path@) matches Some(k) && x@ == path@.take(k),
            None => parent_len(path@) is None,
        },
{
    let p = chars_of(path);
    match parent_length(p.as_slice()) {
        Some(k) => {
            assert(p@.subrange(0, k as int) =~= p@.take(k as int));
            Some(string_of_range(p.as_slice(), 0, k))
        },
        None => None,
    }
}

/// Truncates `path` to its parent, as `PathBuf::pop` does; returns `false`
/// and leaves `path` as it is when it has no parent.
pub fn pop(path: &mut String) -> (popped: bool)
    ensures
        popped == (parent_len(old(path)@) is Some),
        popped ==> (parent_len(old(path)@) matches Some(k) && final(path)@ == old(path)@.take(k)),
        !popped ==> final(path)@ == old(path)@,
{
    match parent(path.as_str()) {
        Some(x) => {
            *path = x;
            true
        },
        None => false,
    }
}

/// Length of `trim_trailing(p)`.
fn trimmed_len(p: &[char]) -> (k: usize)
    ensures
        k <= p@.len(),
        trim_trailing(p@) == p@.take(k as int),
{
    let mut k = p.len();
    assert(p@.take(k as int) =~= p@);
    while k > 0 && (p[k - 1] == '/' || (k >= 2 && p[k - 1] == '.' && p[k - 2] == '/'))
        invariant
            k <= p@.len(),
            trim_trailing(p@) == trim_trailing(p@.take(k as int)),
        decreases k,
    {
        assert(p@.take(k as int).drop_last() =~= p@.take(k - 1));
        k = k - 1;
    }
    k
}

/// `name_start(p[..k])`.
fn name_start_in(p: &[char], k: usize) -> (s: usize)
    requires
        k <= p@.len(),
    ensures
        s == name_start(p@.take(k as int)),
{
    let mut i = k;
    while i > 0 && p[i - 1] != '/'
        invariant
            i <= k <= p@.len(),
            name_start(p@.take(k as int)) == name_start(p@.take(i as int)),
        decreases i,
    {
        assert(p@.take(i as int).drop_last() =~= p@.take(i - 1));
        i = i - 1;
    }
    i
}

/// `last_dot(p[from..to])`, as an offset from `from`; `None` stands for -1.
fn last_dot_in(p: &[char], from: usize, to: usize) -> (d: Option<usize>)
    requires
        from <= to <= p@.len(),
    ensures
        match d {
            Some(i) => last_dot(p@.subrange(from as int, to as int)) == i,
            None => last_dot(p@.subrange(from as int, to as int)) == -1,
        },
{
    let mut j = to;
    while j > from && p[j - 1] != '.'
        invariant
            from <= j <= to <= p@.len(),
            last_dot(p@.subrange(from as int, to as int)) == last_dot(
                p@.subrange(from as int, j as int),
            ),
        decreases j,
    {
        assert(p@.subrange(from as int, j as int).drop_last() =~= p@.subrange(
            from as int,
            j - 1,
        ));
        j = j - 1;
    }
    if j > from {
        Some(j - 1 - from)
    } else {
        None
    }
}

/// Where the file name of `p` stands: `Some((start, end))` with
/// `p[start..end]` the file name, or `None` when the path has none.
fn file_name_range(p: &[char]) -> (r: Option<(usize, usize)>)
    ensures
        match r {
            Some((s, e)) => {
                &&& s <= e <= p@.len()
                &&& s == name_start(trim_trailing(p@))
                &&& e == trim_trailing(p@).len()
                &&& file_name_of(p@) == Some(p@.subrange(s as int, e as int))
            },
            None => file_name_of(p@) is None,
        },
{
    let k = trimmed_len(p);
    let s = name_start_in(p, k);
    proof {
        lemma_name_start_bounds(p@.take(k as int));
        assert(p@.take(k as int).subrange(s as int, k as int) =~= p@.subrange(s as int, k as int));
    }
    let len = k - s;
    if len == 0 || (len == 1 && p[s] == '.') || (len == 2 && p[s] == '.' && p[s + 1] == '.') {
        proof {
            let n = p@.subrange(s as int, k as int);
            if len == 1 {
                assert(n =~= seq!['.']);
            }
            if len == 2 {
                assert(n =~= seq!['.', '.']);
            }
        }
        None
    } else {
        proof {
            let n = p@.subrange(s as int, k as int);
            if n == seq!['.'] {
                assert(n[0] == '.');
            }
            if n == seq!['.', '.'] {
                assert(n[0] == '.' && n[1] == '.');
            }
        }
        Some((s, k))
    }
}

/// The final component of `path`, if it names a file or directory.
pub fn file_name(path: &str) -> (r: Option<String>)
    ensures
        match r {
            Some(n) => file_name_of(path@) == Some(n@),
            None => file_name_of(path@) is None,
        },
{
    let p = chars_of(path);
    match file_name_range(p.as_slice()) {
        Some((s, e)) => Some(string_of_range(p.as_slice(), s, e)),
        None => None,
    }
}

/// The extension of the file name of `path`, if there is one.
pub fn extension(path: &str) -> (r: Option<String>)
    ensures
        match r {
            Some(x) => extension_of(path@) == Some(x@),
            None => extension_of(path@) is None,
        },
{
    let p = chars_of(path);
    match file_name_range(p.as_slice()) {
        Some((s, e)) => {
            match last_dot_in(p.as_slice(), s, e) {
                Some(d) => {
                    if d == 0 {
                        None
                    } else {
                        proof {
                            lemma_last_dot_bounds(p@.subrange(s as int, e as int));
                            assert(p@.subrange(s as int, e as int).skip(d + 1) =~= p@.subrange(
                                s + d + 1,
                                e as int,
                            ));
                        }
                        Some(string_of_range(p.as_slice(), s + d + 1, e))
                    }
                },
                None => None,
            }
        },
        None => None,
    }
}

/// The stem of the file name of `path`, if it has a file name.
pub fn file_stem(path: &str) -> (r: Option<String>)
    ensures
        match r {
            Some(x) => file_stem_of(path@) == Some(x@),
            None => file_stem_of(path@) is None,
        },
{
    let p = chars_of(path);
    match file_name_range(p.as_slice()) {
        Some((s, e)) => {
            proof {
                lemma_last_dot_bounds(p@.subrange(s as int, e as int));
            }
            match last_dot_in(p.as_slice(), s, e) {
                Some(d) => {
                    if d == 0 {
                        Some(string_of_range(p.as_slice(), s, e))
                    } else {
                        assert(p@.subrange(s as int, e as int).take(d as int) =~= p@.subrange(
                            s as int,
                            s + d,
                        ));
                        Some(string_of_range(p.as_slice(), s, s + d))
                    }
                },
                None => Some(string_of_range(p.as_slice(), s, e)),
            }
        },
        None => None,
    }
}

/// Replaces the extension of `path` by `ext` (removes it when `ext` is
/// empty), dropping everything after the file stem. Returns `false` and
/// leaves `path` as it is when it has no file name.
pub fn set_extension(path: &mut String, ext: &str) -> (changed: bool)
    requires
        !ext@.contains('/'),
    ensures
        changed == (file_name_of(old(path)@) is Some),
        final(path)@ == with_extension_of(old(path)@, ext@),
{
    let p = chars_of(path.as_str());
    match file_name_range(p.as_slice()) {
        Some((s, e)) => {
            proof {
                lemma_last_dot_bounds(p@.subrange(s as int, e as int));
            }
            let stem_end = match last_dot_in(p.as_slice(), s, e) {
                Some(d) => {
                    if d == 0 {
                        e
                    } else {
                        assert(p@.subrange(s as int, e as int).take(d as int).len() == d);
                        s + d
                    }
                },
                None => e,
            };
            let mut out = string_of_range(p.as_slice(), 0, stem_end);
            assert(p@.subrange(0, stem_end as int) =~= p@.take(stem_end as int));
            let x = chars_of(ext);
            if x.len() > 0 {
                push_char(&mut out, '.');
                let n = x.len();
                let ghost base = out@;
                for i in 0..n
                    invariant
                        n == x@.len(),
                        out@ == base + x@.take(i as int),
                {
                    push_char(&mut out, x[i]);
                    assert(x@.take(i + 1) =~= x@.take(i as int).push(x@[i as int]));
                    assert(base + x@.take(i + 1) =~= (base + x@.take(i as int)).push(
                        x@[i as int],
                    ));
                }
                assert(x@.take(n as int) =~= x@);
                assert(out@ =~= p@.take(stem_end as int) + seq!['.'] + ext@);
            }
            *path = out;
            true
        },
        None => false,
    }
}

/// `base` with `p` pushed onto it, as `PathBuf::push` does: an absolute `p`
/// replaces `base`; otherwise one separator is put between them unless `base`
/// is empty or already ends with one.
pub fn join(base: &str, p: &str) -> (r: String)
    ensures
        r@ == joined(base@, p@),
{
    let b = chars_of(base);
    let q = chars_of(p);
    if q.len() > 0 && q[0] == '/' {
        return string_of(q.as_slice());
    }
    let mut out = string_of(b.as_slice());
    if b.len() > 0 && b[b.len() - 1] != '/' {
        push_char(&mut out, '/');
    }
    let n = q.len();
    let ghost start = out@;
    for i in 0..n
        invariant
            n == q@.len(),
            out@ == start + q@.take(i as int),
    {
        push_char(&mut out, q[i]);
        assert(q@.take(i + 1) =~= q@.take(i as int).push(q@[i as int]));
        assert(start + q@.take(i + 1) =~= (start + q@.take(i as int)).push(q@[i as int]));
    }
    assert(q@.take(n as int) =~= q@);
    out
}

} // verus!
