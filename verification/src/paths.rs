//! Paths as sequences of components, with the meaning `std::path::Path`
//! gives them on Unix: `/` separates components, repeated separators and
//! `.` components inside a path vanish, a leading `.` is the current
//! directory and `..` the parent directory.
//!
//! A component is written as text: the root directory as `/`, the current
//! directory as `.`, the parent directory as `..`, and a normal component as
//! its name (which never is one of those three).

use vstd::prelude::*;
use crate::text::{find_from, lemma_find_from_bounds, views, chars_eq, slice_chars, find_char_from,
    chars_of, chars_eq_str};

verus! {

// ---------------------------------------------------------------------------
// Specifications
// ---------------------------------------------------------------------------

/// The pieces of `s` between separators (there is always at least one).
pub open spec fn segments(s: Seq<char>) -> Seq<Seq<char>>
    decreases s.len(),
{
    let k = find_from(s, '/', 0);
    if k >= s.len() {
        seq![s]
    } else {
        proof {
            lemma_find_from_bounds(s, '/', 0);
        }
        seq![s.take(k)] + segments(s.skip(k + 1))
    }
}

/// A piece that stands for a component of its own: neither empty nor `.`.
pub open spec fn is_kept(g: Seq<char>) -> bool {
    g.len() != 0 && g != seq!['.']
}

/// The pieces of `g` that stand for components, in order.
pub open spec fn kept_pieces(g: Seq<Seq<char>>) -> Seq<Seq<char>>
    decreases g.len(),
{
    if g.len() == 0 {
        Seq::empty()
    } else if is_kept(g.last()) {
        kept_pieces(g.drop_last()).push(g.last())
    } else {
        kept_pieces(g.drop_last())
    }
}

/// The components of a path (`Path::components`).
pub open spec fn components(s: Seq<char>) -> Seq<Seq<char>> {
    let g = segments(s);
    if s.len() > 0 && s[0] == '/' {
        seq![seq!['/']] + kept_pieces(g.drop_first())
    } else if g[0] == seq!['.'] {
        seq![seq!['.']] + kept_pieces(g.drop_first())
    } else {
        kept_pieces(g)
    }
}

/// A normal component: a name, not the root, `.` or `..`.
pub open spec fn is_normal(c: Seq<char>) -> bool {
    c != seq!['/'] && c != seq!['.'] && c != seq!['.', '.']
}

/// The normal components among `c`, in order.
pub open spec fn normal_parts(c: Seq<Seq<char>>) -> Seq<Seq<char>>
    decreases c.len(),
{
    if c.len() == 0 {
        Seq::empty()
    } else if is_normal(c.last()) {
        normal_parts(c.drop_last()).push(c.last())
    } else {
        normal_parts(c.drop_last())
    }
}

/// The components of `path` that remain after `Path::strip_prefix(base)`,
/// or all of them where `base` is not a prefix.
pub open spec fn strip_components(path: Seq<Seq<char>>, base: Seq<Seq<char>>) -> Seq<Seq<char>> {
    if base.is_prefix_of(path) {
        path.skip(base.len() as int)
    } else {
        path
    }
}

/// The last component when it is a normal one (`Path::file_name`).
pub open spec fn file_name(s: Seq<char>) -> Option<Seq<char>> {
    let c = components(s);
    if c.len() > 0 && is_normal(c.last()) {
        Some(c.last())
    } else {
        None
    }
}

// ---------------------------------------------------------------------------
// Implementation
// ---------------------------------------------------------------------------

proof fn lemma_find_from_skip_slash(s: Seq<char>, p: int, i: int)
    requires
        0 <= p <= i <= s.len(),
    ensures
        find_from(s.skip(p), '/', i - p) == find_from(s, '/', i) - p,
    decreases s.len() - i,
{
    if i < s.len() && s[i] != '/' {
        lemma_find_from_skip_slash(s, p, i + 1);
    }
}

/// The pieces of `v` between separators.
fn split_segments(v: &[char]) -> (r: Vec<Vec<char>>)
    ensures
        views(r@) == segments(v@),
{
    let n = v.len();
    let mut r: Vec<Vec<char>> = Vec::new();
    let mut p: usize = 0;
    proof {
        assert(v@.skip(0) == v@);
        assert(views(r@) + segments(v@) == segments(v@));
    }
    loop
        invariant
            n == v@.len(),
            p <= n,
            views(r@) + segments(v@.skip(p as int)) == segments(v@),
        decreases n - p,
    {
        let k = find_char_from(v, '/', p);
        proof {
            lemma_find_from_skip_slash(v@, p as int, p as int);
            lemma_find_from_bounds(v@, '/', p as int);
        }
        let ghost rest = v@.skip(p as int);
        let ghost old_r = views(r@);
        let piece = slice_chars(v, p, k);
        r.push(piece);
        proof {
            assert(views(r@) == old_r.push(v@.subrange(p as int, k as int)));
        }
        if k == n {
            proof {
                assert(rest == v@.subrange(p as int, n as int));
                assert(segments(rest) == seq![rest]);
                assert(old_r + seq![rest] == old_r.push(rest));
            }
            return r;
        }
        proof {
            let kk = (k - p) as int;
            assert(find_from(rest, '/', 0) == kk);
            assert(rest.skip(kk + 1) == v@.skip(k + 1));
            assert(rest.take(kk) == v@.subrange(p as int, k as int));
            assert(segments(rest) == seq![rest.take(kk)] + segments(v@.skip(k + 1)));
            assert(old_r + segments(rest) == views(r@) + segments(v@.skip(k + 1)));
        }
        p = k + 1;
    }
}

proof fn lemma_segments_nonempty(s: Seq<char>)
    ensures
        segments(s).len() >= 1,
        s.len() > 0 && s[0] == '/' ==> segments(s)[0].len() == 0,
{
    lemma_find_from_bounds(s, '/', 0);
    if s.len() > 0 && s[0] == '/' {
        assert(find_from(s, '/', 0) == 0);
    }
}

proof fn lemma_find_from_concat(a: Seq<char>, t: Seq<char>, i: int)
    requires
        0 <= i <= a.len(),
    ensures
        find_from(a, '/', i) < a.len() ==> find_from(a + t, '/', i) == find_from(a, '/', i),
        find_from(a, '/', i) >= a.len() ==> find_from(a + t, '/', i) == find_from(
            a + t,
            '/',
            a.len() as int,
        ),
    decreases a.len() - i,
{
    if i < a.len() {
        assert((a + t)[i] == a[i]);
        if a[i] != '/' {
            lemma_find_from_concat(a, t, i + 1);
        }
    }
}

/// The pieces of `a`, a separator and `b` are those of `a` followed by
/// those of `b`.
proof fn lemma_segments_join(a: Seq<char>, b: Seq<char>)
    ensures
        segments(a + seq!['/'] + b) == segments(a) + segments(b),
    decreases a.len(),
{
    let s = a + seq!['/'] + b;
    let t = seq!['/'] + b;
    assert(s == a + t);
    lemma_find_from_bounds(a, '/', 0);
    lemma_find_from_concat(a, t, 0);
    let k = find_from(a, '/', 0);
    if k >= a.len() {
        assert(s[a.len() as int] == '/');
        assert(find_from(s, '/', a.len() as int) == a.len());
        assert(s.take(a.len() as int) == a);
        assert(s.skip(a.len() as int + 1) == b);
    } else {
        assert(s.take(k) == a.take(k));
        let rest = a.skip(k + 1);
        assert(s.skip(k + 1) == rest + seq!['/'] + b);
        lemma_segments_join(rest, b);
        assert(segments(s) == seq![a.take(k)] + (segments(rest) + segments(b)));
        assert(segments(a) == seq![a.take(k)] + segments(rest));
    }
}

/// A name with no separator is a piece of its own.
proof fn lemma_segments_plain(name: Seq<char>)
    requires
        !name.contains('/'),
    ensures
        segments(name) == seq![name],
{
    lemma_find_from_bounds(name, '/', 0);
    if find_from(name, '/', 0) < name.len() {
        assert(name[find_from(name, '/', 0)] == '/');
    }
}

/// Below any directory, a normal name without separators is the file name:
/// only the last component of a path decides its file name.
pub proof fn lemma_file_name_of_join(dir: Seq<char>, name: Seq<char>)
    requires
        !name.contains('/'),
        is_kept(name),
        is_normal(name),
    ensures
        file_name(dir + seq!['/'] + name) == Some(name),
        file_name(name) == Some(name),
{
    let s = dir + seq!['/'] + name;
    lemma_segments_join(dir, name);
    lemma_segments_plain(name);
    lemma_segments_nonempty(dir);
    let g = segments(s);
    let gd = segments(dir);
    assert(g == gd.push(name));
    assert(g.drop_first() == gd.drop_first().push(name));
    assert(kept_pieces(g) == kept_pieces(gd).push(name)) by {
        assert(g.drop_last() == gd);
    }
    assert(kept_pieces(g.drop_first()) == kept_pieces(gd.drop_first()).push(name)) by {
        assert(g.drop_first().drop_last() == gd.drop_first());
    }
    assert(components(s).last() == name);
    assert(name.len() > 0);
    if name[0] == '/' {
        assert(name.contains('/'));
    }
    assert(kept_pieces(seq![name]) == seq![name]) by {
        let one = seq![name];
        assert(one.drop_last() =~= Seq::<Seq<char>>::empty());
        assert(one.last() == name);
        assert(kept_pieces(one.drop_last()) == Seq::<Seq<char>>::empty());
        assert(Seq::<Seq<char>>::empty().push(name) =~= one);
    }
    assert(components(name) == seq![name]);
}

/// A name, or two names joined by a separator, are the components of
/// the path they spell.
pub proof fn lemma_components_of_names(a: Seq<char>, b: Seq<char>)
    requires
        !a.contains('/'),
        !b.contains('/'),
        is_kept(a),
        is_kept(b),
        a != seq!['.'],
    ensures
        components(a) == seq![a],
        components(a + seq!['/'] + b) == seq![a, b],
{
    lemma_segments_plain(a);
    lemma_segments_plain(b);
    lemma_segments_join(a, b);
    if a[0] == '/' {
        assert(a.contains('/'));
    }
    let s = a + seq!['/'] + b;
    assert(s[0] == a[0]);
    let g = segments(s);
    assert(g =~= seq![a, b]);
    assert(kept_pieces(seq![a]) =~= seq![a]) by {
        let one = seq![a];
        assert(one.drop_last() =~= Seq::<Seq<char>>::empty());
        assert(one.last() == a);
        assert(kept_pieces(one.drop_last()) == Seq::<Seq<char>>::empty());
        assert(Seq::<Seq<char>>::empty().push(a) =~= one);
    }
    assert(kept_pieces(g) =~= seq![a, b]) by {
        assert(g.drop_last() =~= seq![a]);
        assert(seq![a].push(b) =~= seq![a, b]);
    }
}

/// Whether a piece stands for a component of its own.
fn is_kept_exec(g: &Vec<char>) -> (r: bool)
    ensures
        r == is_kept(g@),
{
    if g.len() == 0 {
        return false;
    }
    if g.len() == 1 && g[0] == '.' {
        assert(g@ == seq!['.']);
        return false;
    }
    proof {
        if g@ == seq!['.'] {
            assert(g@.len() == 1 && g@[0] == '.');
        }
    }
    true
}

/// Whether a component is a normal one.
pub fn is_normal_exec(c: &Vec<char>) -> (r: bool)
    ensures
        r == is_normal(c@),
{
    if c.len() == 1 && (c[0] == '/' || c[0] == '.') {
        assert(c@ == seq![c@[0]]);
        return false;
    }
    if c.len() == 2 && c[0] == '.' && c[1] == '.' {
        assert(c@ == seq!['.', '.']);
        return false;
    }
    proof {
        if c@ == seq!['/'] || c@ == seq!['.'] {
            assert(c@.len() == 1);
        }
        if c@ == seq!['.', '.'] {
            assert(c@.len() == 2 && c@[0] == '.' && c@[1] == '.');
        }
    }
    true
}

/// A one-character vector.
fn single_char(c: char) -> (v: Vec<char>)
    ensures
        v@ == seq![c],
{
    let mut v: Vec<char> = Vec::new();
    v.push(c);
    v
}

/// The components of a path given as characters.
pub fn path_components(v: &[char]) -> (r: Vec<Vec<char>>)
    ensures
        views(r@) == components(v@),
{
    let g = split_segments(v);
    proof {
        lemma_segments_nonempty(v@);
    }
    let mut r: Vec<Vec<char>> = Vec::new();
    let mut start: usize = 0;
    let ghost head: Seq<Seq<char>>;
    if v.len() > 0 && v[0] == '/' {
        r.push(single_char('/'));
        start = 1;
        proof {
            head = seq![seq!['/']];
        }
    } else if g[0].len() == 1 && g[0][0] == '.' {
        r.push(single_char('.'));
        start = 1;
        proof {
            head = seq![seq!['.']];
            assert(g@[0]@ == seq!['.']);
        }
    } else {
        proof {
            head = Seq::empty();
            if g@[0]@ == seq!['.'] {
                assert(g@[0]@.len() == 1);
            }
        }
    }
    proof {
        assert(views(r@) =~= head);
        assert(views(g@).skip(start as int).take(0) == Seq::<Seq<char>>::empty());
    }
    let mut i: usize = start;
    while i < g.len()
        invariant
            start <= i <= g@.len(),
            start <= 1,
            views(g@) == segments(v@),
            views(r@) == head + kept_pieces(views(g@).subrange(start as int, i as int)),
        decreases g@.len() - i,
    {
        let ghost before = views(r@);
        let ghost gs = views(g@);
        proof {
            assert(gs.subrange(start as int, i + 1).drop_last() == gs.subrange(start as int, i as int));
            assert(gs.subrange(start as int, i + 1).last() == g@[i as int]@);
        }
        if is_kept_exec(&g[i]) {
            let piece = g[i].clone();
            r.push(piece);
            proof {
                assert(views(r@) == before.push(g@[i as int]@));
            }
        }
        i = i + 1;
    }
    proof {
        let gs = views(g@);
        if start == 1 {
            assert(gs.subrange(1, gs.len() as int) == gs.drop_first());
        } else {
            assert(gs.subrange(0, gs.len() as int) == gs);
        }
        if v@.len() > 0 && v@[0] == '/' {
        } else if gs[0] == seq!['.'] {
        } else {
            assert(head + kept_pieces(gs) == kept_pieces(gs));
        }
    }
    r
}

/// The normal components among `c`, in order.
pub fn normal_components(c: &Vec<Vec<char>>, from: usize) -> (r: Vec<Vec<char>>)
    requires
        from <= c@.len(),
    ensures
        views(r@) == normal_parts(views(c@).skip(from as int)),
{
    let mut r: Vec<Vec<char>> = Vec::new();
    let mut i: usize = from;
    let ghost cs = views(c@);
    proof {
        assert(cs.subrange(from as int, from as int) == Seq::<Seq<char>>::empty());
    }
    while i < c.len()
        invariant
            from <= i <= c@.len(),
            cs == views(c@),
            views(r@) == normal_parts(cs.subrange(from as int, i as int)),
        decreases c@.len() - i,
    {
        proof {
            assert(cs.subrange(from as int, i + 1).drop_last() == cs.subrange(from as int, i as int));
            assert(cs.subrange(from as int, i + 1).last() == c@[i as int]@);
        }
        let ghost before = views(r@);
        if is_normal_exec(&c[i]) {
            r.push(c[i].clone());
            proof {
                assert(views(r@) == before.push(c@[i as int]@));
            }
        }
        i = i + 1;
    }
    assert(cs.subrange(from as int, c@.len() as int) == cs.skip(from as int));
    r
}

/// Directories a scan leaves out unless it scans everything: `.git`,
/// `node_modules` and `target`.
pub open spec fn skipped_by_default(name: Seq<char>) -> bool {
    name == ".git"@ || name == "node_modules"@ || name == "target"@
}

/// Whether a directory of this name is left out of a scan by default.
pub fn is_skipped_by_default(name: &str) -> (r: bool)
    ensures
        r == skipped_by_default(name@),
{
    let n = chars_of(name);
    chars_eq_str(n.as_slice(), ".git") || chars_eq_str(n.as_slice(), "node_modules")
        || chars_eq_str(n.as_slice(), "target")
}

/// Whether the components `base` are a prefix of the components `path`.
pub fn components_prefix(base: &Vec<Vec<char>>, path: &Vec<Vec<char>>) -> (r: bool)
    ensures
        r == views(base@).is_prefix_of(views(path@)),
{
    if base.len() > path.len() {
        return false;
    }
    let mut i: usize = 0;
    while i < base.len()
        invariant
            base@.len() <= path@.len(),
            i <= base@.len(),
            forall|j: int| 0 <= j < i ==> base@[j]@ == path@[j]@,
        decreases base@.len() - i,
    {
        if !chars_eq(base[i].as_slice(), path[i].as_slice()) {
            proof {
                assert(views(path@).subrange(0, base@.len() as int)[i as int] == path@[i as int]@);
            }
            return false;
        }
        i = i + 1;
    }
    assert(views(base@) =~= views(path@).subrange(0, base@.len() as int));
    true
}

} // verus!
