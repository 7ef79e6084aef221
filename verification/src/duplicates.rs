//! Duplicate files: which files can be duplicates (a non-empty size that
//! several files share), how files with the same size and content hash
//! group together, and how many bytes the extra copies waste.

use vstd::prelude::*;
use crate::text::strs;
use crate::order::{sort_indices_desc, desc_permutation, lemma_sorted_distinct,
    lemma_sorted_weights, sum_u64, permuted, lemma_sum_update, lemma_elem_le_sum,
    lemma_sum_permutation};

verus! {

broadcast use vstd::std_specs::hash::group_hash_axioms;

/// Files that share a size and a content hash.
#[derive(Debug, Clone)]
pub struct DuplicateGroup {
    pub size_bytes: u64,
    pub hash: u64,
    pub files: Vec<String>,
}

// ---------------------------------------------------------------------------
// Candidates
// ---------------------------------------------------------------------------

/// How many of `files` have the given size.
pub open spec fn size_count(files: Seq<(String, u64)>, size: u64) -> nat
    decreases files.len(),
{
    if files.len() == 0 {
        0
    } else {
        size_count(files.drop_last(), size) + if files.last().1 == size {
            1nat
        } else {
            0
        }
    }
}

/// A file can have a duplicate: it is not empty and another file of `all`
/// has its size.
pub open spec fn is_candidate(all: Seq<(String, u64)>, e: (String, u64)) -> bool {
    e.1 > 0 && size_count(all, e.1) >= 2
}

/// The candidates among `part` as (size, path), in order.
pub open spec fn candidates_among(all: Seq<(String, u64)>, part: Seq<(String, u64)>) -> Seq<
    (u64, Seq<char>),
>
    decreases part.len(),
{
    if part.len() == 0 {
        Seq::empty()
    } else if is_candidate(all, part.last()) {
        candidates_among(all, part.drop_last()).push((part.last().1, part.last().0@))
    } else {
        candidates_among(all, part.drop_last())
    }
}

/// The (size, path text) of each candidate.
pub open spec fn candidate_views(v: Seq<(u64, String)>) -> Seq<(u64, Seq<char>)> {
    v.map_values(|c: (u64, String)| (c.0, c.1@))
}

proof fn lemma_size_count_le(files: Seq<(String, u64)>, size: u64)
    ensures
        size_count(files, size) <= files.len(),
    decreases files.len(),
{
    if files.len() > 0 {
        lemma_size_count_le(files.drop_last(), size);
    }
}

proof fn lemma_size_count_at_least(files: Seq<(String, u64)>, i: int, j: int)
    requires
        0 <= i < files.len(),
        0 <= j < files.len(),
    ensures
        size_count(files, files[i].1) >= 1,
        i != j && files[i].1 == files[j].1 ==> size_count(files, files[i].1) >= 2,
    decreases files.len(),
{
    let n = files.len() - 1;
    let prev = files.drop_last();
    if i < n && j < n {
        lemma_size_count_at_least(prev, i, j);
        assert(prev[i] == files[i] && prev[j] == files[j]);
    } else if i < n {
        lemma_size_count_at_least(prev, i, i);
        assert(prev[i] == files[i]);
    } else if j < n {
        lemma_size_count_at_least(prev, j, j);
        assert(prev[j] == files[j]);
    }
}

proof fn lemma_size_count_witnesses(files: Seq<(String, u64)>, size: u64)
    ensures
        size_count(files, size) >= 2 ==> exists|i: int, j: int|
            0 <= i < j < files.len() && #[trigger] files[i].1 == size && #[trigger] files[j].1 == size,
    decreases files.len(),
{
    if files.len() > 0 {
        let prev = files.drop_last();
        let n = files.len() - 1;
        lemma_size_count_witnesses(prev, size);
        if size_count(files, size) >= 2 {
            if size_count(prev, size) >= 2 {
                let (i, j) = choose|i: int, j: int|
                    0 <= i < j < prev.len() && #[trigger] prev[i].1 == size && #[trigger] prev[j].1 == size;
                assert(files[i] == prev[i] && files[j] == prev[j]);
            } else {
                assert(files[n].1 == size);
                lemma_size_count_nonzero(prev, size);
                let i = choose|i: int| 0 <= i < prev.len() && prev[i].1 == size;
                assert(files[i] == prev[i]);
                assert(files[i].1 == size && files[n].1 == size);
            }
        }
    }
}

proof fn lemma_size_count_nonzero(files: Seq<(String, u64)>, size: u64)
    ensures
        size_count(files, size) >= 1 ==> exists|i: int| 0 <= i < files.len() && files[i].1 == size,
    decreases files.len(),
{
    if files.len() > 0 {
        let prev = files.drop_last();
        lemma_size_count_nonzero(prev, size);
        if size_count(prev, size) >= 1 {
            let i = choose|i: int| 0 <= i < prev.len() && prev[i].1 == size;
            assert(files[i] == prev[i]);
        } else if size_count(files, size) >= 1 {
            assert(files[files.len() - 1].1 == size);
        }
    }
}

proof fn lemma_candidates_among_members(all: Seq<(String, u64)>, part: Seq<(String, u64)>, k: int)
    requires
        0 <= k < part.len(),
    ensures
        is_candidate(all, part[k]) ==> candidates_among(all, part).contains((part[k].1, part[k].0@)),
        forall|c: (u64, Seq<char>)| #[trigger] candidates_among(all, part).contains(c) ==> exists|t: int|
            0 <= t < part.len() && is_candidate(all, part[t]) && c == (part[t].1, part[t].0@),
    decreases part.len(),
{
    let prev = part.drop_last();
    let n = part.len() - 1;
    let cp = candidates_among(all, prev);
    if k < n {
        lemma_candidates_among_members(all, prev, k);
        assert(prev[k] == part[k]);
        if is_candidate(all, part[k]) {
            let t = choose|t: int| 0 <= t < cp.len() && cp[t] == (part[k].1, part[k].0@);
            if is_candidate(all, part.last()) {
                assert(candidates_among(all, part)[t] == cp[t]);
            }
        }
    } else if is_candidate(all, part[k]) {
        assert(candidates_among(all, part)[cp.len() as int] == (part[k].1, part[k].0@));
    }
    if n > 0 {
        lemma_candidates_among_members(all, prev, 0);
    }
    assert forall|c: (u64, Seq<char>)| #[trigger] candidates_among(all, part).contains(c) implies exists|t: int|
        0 <= t < part.len() && is_candidate(all, part[t]) && c == (part[t].1, part[t].0@) by {
        let r = candidates_among(all, part);
        let t = choose|t: int| 0 <= t < r.len() && r[t] == c;
        if is_candidate(all, part.last()) && t == cp.len() {
            assert(c == (part[n].1, part[n].0@));
        } else {
            assert(r[t] == cp[t]);
            assert(cp.contains(c));
            if n > 0 {
                let u = choose|u: int| 0 <= u < prev.len() && is_candidate(all, prev[u]) && c == (prev[u].1, prev[u].0@);
                assert(part[u] == prev[u]);
            }
        }
    }
}

/// A file is a candidate exactly when it is not empty and some other file
/// has its size: every such file is listed, and every listed entry is such
/// a file.
pub proof fn lemma_candidates_are_shared_sizes(files: Seq<(String, u64)>)
    ensures
        forall|i: int, j: int|
            0 <= i < files.len() && 0 <= j < files.len() && i != j && #[trigger] files[i].1
                == #[trigger] files[j].1 && files[i].1 > 0 ==> candidates_among(files, files).contains(
                (files[i].1, files[i].0@),
            ),
        forall|c: (u64, Seq<char>)| #[trigger] candidates_among(files, files).contains(c) ==> exists|
            i: int,
            j: int,
        |
            0 <= i < files.len() && 0 <= j < files.len() && i != j && files[i].1 == c.0 && files[j].1
                == c.0 && c.0 > 0 && files[i].0@ == c.1,
{
    assert forall|i: int, j: int|
        0 <= i < files.len() && 0 <= j < files.len() && i != j && #[trigger] files[i].1
            == #[trigger] files[j].1 && files[i].1 > 0 implies candidates_among(files, files).contains(
        (files[i].1, files[i].0@),
    ) by {
        lemma_size_count_at_least(files, i, j);
        lemma_candidates_among_members(files, files, i);
    }
    if files.len() > 0 {
        lemma_candidates_among_members(files, files, 0);
    }
    assert forall|c: (u64, Seq<char>)| #[trigger] candidates_among(files, files).contains(c) implies exists|
        i: int,
        j: int,
    |
        0 <= i < files.len() && 0 <= j < files.len() && i != j && files[i].1 == c.0 && files[j].1
            == c.0 && c.0 > 0 && files[i].0@ == c.1 by {
        let t = choose|t: int|
            0 <= t < files.len() && is_candidate(files, files[t]) && c == (files[t].1, files[t].0@);
        lemma_size_count_witnesses(files, files[t].1);
        let (a, b) = choose|a: int, b: int|
            0 <= a < b < files.len() && #[trigger] files[a].1 == files[t].1 && #[trigger] files[b].1
                == files[t].1;
        if a == t {
            assert(files[t].1 == c.0 && files[b].1 == c.0);
        } else {
            assert(files[t].1 == c.0 && files[a].1 == c.0);
        }
    }
}

/// The files that can have a duplicate: those of a non-zero size that at
/// least one other file shares, as (size, path) in the order they were given.
pub fn duplicate_candidates(files: &[(String, u64)]) -> (r: Vec<(u64, String)>)
    ensures
        candidate_views(r@) == candidates_among(files@, files@),
        forall|i: int, j: int|
            0 <= i < files@.len() && 0 <= j < files@.len() && i != j && #[trigger] files@[i].1
                == #[trigger] files@[j].1 && files@[i].1 > 0 ==> candidate_views(r@).contains(
                (files@[i].1, files@[i].0@),
            ),
        forall|c: (u64, Seq<char>)| #[trigger] candidate_views(r@).contains(c) ==> exists|
            i: int,
            j: int,
        |
            0 <= i < files@.len() && 0 <= j < files@.len() && i != j && files@[i].1 == c.0
                && files@[j].1 == c.0 && c.0 > 0 && files@[i].0@ == c.1,
{
    let n = files.len();
    let mut counts: std::collections::HashMap<u64, usize> = std::collections::HashMap::new();
    let mut i: usize = 0;
    while i < n
        invariant
            n == files@.len(),
            i <= n,
            forall|s: u64| #[trigger]
                counts@.contains_key(s) ==> counts@[s] as nat == size_count(
                    files@.take(i as int),
                    s,
                ),
            forall|s: u64| #[trigger]
                counts@.contains_key(s) || size_count(files@.take(i as int), s) == 0,
        decreases n - i,
    {
        let size = files[i].1;
        let ghost pre = files@.take(i as int);
        let ghost post = files@.take(i + 1);
        proof {
            assert(post.drop_last() == pre);
            assert(post.last() == files@[i as int]);
            lemma_size_count_le(post, size);
        }
        let c: usize = match counts.get(&size) {
            Some(c) => *c,
            None => 0,
        };
        counts.insert(size, c + 1);
        i = i + 1;
    }
    proof {
        assert(files@.take(n as int) == files@);
    }
    let mut r: Vec<(u64, String)> = Vec::new();
    let mut k: usize = 0;
    while k < n
        invariant
            n == files@.len(),
            k <= n,
            forall|s: u64| #[trigger]
                counts@.contains_key(s) ==> counts@[s] as nat == size_count(files@, s),
            forall|s: u64| #[trigger] counts@.contains_key(s) || size_count(files@, s) == 0,
            candidate_views(r@) == candidates_among(files@, files@.take(k as int)),
        decreases n - k,
    {
        let size = files[k].1;
        proof {
            assert(files@.take(k + 1).drop_last() == files@.take(k as int));
            assert(files@.take(k + 1).last() == files@[k as int]);
        }
        let c: usize = match counts.get(&size) {
            Some(c) => *c,
            None => 0,
        };
        if size > 0 && c >= 2 {
            let path = files[k].0.clone();
            let ghost before = r@;
            r.push((size, path));
            proof {
                assert(r@ == before.push((size, files@[k as int].0)));
                assert(candidate_views(r@) == candidate_views(before).push(
                    (size, files@[k as int].0@),
                ));
            }
        }
        k = k + 1;
    }
    proof {
        assert(files@.take(n as int) == files@);
        lemma_candidates_are_shared_sizes(files@);
    }
    r
}

// ---------------------------------------------------------------------------
// Groups
// ---------------------------------------------------------------------------

/// The (size, hash) of a hashed file.
pub open spec fn key_of(e: (u64, u64, String)) -> (u64, u64) {
    (e.0, e.1)
}

/// The distinct (size, hash) pairs of the hashed files, in the order they
/// first occur.
pub open spec fn group_keys(h: Seq<(u64, u64, String)>) -> Seq<(u64, u64)>
    decreases h.len(),
{
    if h.len() == 0 {
        Seq::empty()
    } else {
        let prev = group_keys(h.drop_last());
        if prev.contains(key_of(h.last())) {
            prev
        } else {
            prev.push(key_of(h.last()))
        }
    }
}

/// The paths of the hashed files with the given (size, hash), in order.
pub open spec fn group_paths(h: Seq<(u64, u64, String)>, k: (u64, u64)) -> Seq<Seq<char>>
    decreases h.len(),
{
    if h.len() == 0 {
        Seq::empty()
    } else if key_of(h.last()) == k {
        group_paths(h.drop_last(), k).push(h.last().2@)
    } else {
        group_paths(h.drop_last(), k)
    }
}

/// The bytes that the extra copies take: each file whose (size, hash) an
/// earlier file already had adds its size.
pub open spec fn total_wasted(h: Seq<(u64, u64, String)>) -> nat
    decreases h.len(),
{
    if h.len() == 0 {
        0
    } else {
        total_wasted(h.drop_last()) + if group_keys(h.drop_last()).contains(key_of(h.last())) {
            h.last().0 as nat
        } else {
            0
        }
    }
}

/// The bytes a group wastes: its size for every copy beyond the first.
pub open spec fn group_waste(g: DuplicateGroup) -> nat {
    ((g.files@.len() - 1) * g.size_bytes) as nat
}

/// The bytes the groups waste together.
pub open spec fn groups_waste(gs: Seq<DuplicateGroup>) -> nat
    decreases gs.len(),
{
    if gs.len() == 0 {
        0
    } else {
        groups_waste(gs.drop_last()) + group_waste(gs.last())
    }
}

/// The sizes of the hashed files added up.
pub open spec fn hashed_bytes(h: Seq<(u64, u64, String)>) -> nat
    decreases h.len(),
{
    if h.len() == 0 {
        0
    } else {
        hashed_bytes(h.drop_last()) + h.last().0 as nat
    }
}

/// The sizes of the given (size, hash) pairs added up.
pub open spec fn key_sizes(ks: Seq<(u64, u64)>) -> nat
    decreases ks.len(),
{
    if ks.len() == 0 {
        0
    } else {
        key_sizes(ks.drop_last()) + ks.last().0 as nat
    }
}

/// Keeping one copy of each distinct content and wasting the rest accounts
/// for every byte: the wasted bytes and one file's size per distinct (size,
/// hash) add up to the sizes of all hashed files.
pub proof fn lemma_wasted_plus_kept_copies(h: Seq<(u64, u64, String)>)
    ensures
        total_wasted(h) + key_sizes(group_keys(h)) == hashed_bytes(h),
    decreases h.len(),
{
    if h.len() > 0 {
        lemma_wasted_plus_kept_copies(h.drop_last());
        let prev = group_keys(h.drop_last());
        if !prev.contains(key_of(h.last())) {
            assert(group_keys(h).drop_last() == prev);
        }
    }
}

/// A (size, hash) pair as one number, for lookup.
pub open spec fn key_code(k: (u64, u64)) -> u128 {
    (k.0 as int * 0x1_0000_0000_0000_0000 + k.1 as int) as u128
}

proof fn lemma_key_code_value(k: (u64, u64))
    ensures
        key_code(k) as int == k.0 as int * 0x1_0000_0000_0000_0000 + k.1 as int,
{
    let a = k.0 as int;
    let b = k.1 as int;
    assert(0 <= a * 0x1_0000_0000_0000_0000 + b <= u128::MAX) by (nonlinear_arith)
        requires
            0 <= a <= u64::MAX,
            0 <= b <= u64::MAX,
    ;
}

proof fn lemma_key_code_injective(a: (u64, u64), b: (u64, u64))
    requires
        key_code(a) == key_code(b),
    ensures
        a == b,
{
    lemma_key_code_value(a);
    lemma_key_code_value(b);
    let a0 = a.0 as int;
    let a1 = a.1 as int;
    let b0 = b.0 as int;
    let b1 = b.1 as int;
    assert(a0 == b0 && a1 == b1) by (nonlinear_arith)
        requires
            a0 * 0x1_0000_0000_0000_0000 + a1 == b0 * 0x1_0000_0000_0000_0000 + b1,
            0 <= a1 < 0x1_0000_0000_0000_0000,
            0 <= b1 < 0x1_0000_0000_0000_0000,
            0 <= a0,
            0 <= b0,
    ;
}

fn code_of(size: u64, hash: u64) -> (c: u128)
    ensures
        c == key_code((size, hash)),
{
    proof {
        lemma_key_code_value((size, hash));
    }
    assert((size as u128) * 0x1_0000_0000_0000_0000u128 + hash as u128 <= u128::MAX) by (
    nonlinear_arith)
        requires
            size <= u64::MAX,
            hash <= u64::MAX,
    ;
    (size as u128) * 0x1_0000_0000_0000_0000u128 + hash as u128
}

proof fn lemma_total_wasted_prefix(h: Seq<(u64, u64, String)>, i: int)
    requires
        0 <= i <= h.len(),
    ensures
        total_wasted(h.take(i)) <= total_wasted(h),
    decreases h.len() - i,
{
    if i < h.len() {
        assert(h.drop_last().take(i) == h.take(i));
        lemma_total_wasted_prefix(h.drop_last(), i);
    } else {
        assert(h.take(i) == h);
    }
}

proof fn lemma_group_keys_facts(h: Seq<(u64, u64, String)>)
    ensures
        group_keys(h).no_duplicates(),
        forall|k: (u64, u64)| #[trigger] group_keys(h).contains(k) <==> group_paths(h, k).len() > 0,
    decreases h.len(),
{
    if h.len() > 0 {
        let prev = h.drop_last();
        lemma_group_keys_facts(prev);
        assert forall|k: (u64, u64)| #[trigger] group_keys(h).contains(k) <==> group_paths(
            h,
            k,
        ).len() > 0 by {
            if key_of(h.last()) == k {
                if !group_keys(prev).contains(k) {
                    assert(group_keys(prev).push(k)[group_keys(prev).len() as int] == k);
                }
            } else {
                if group_keys(h).contains(k) && !group_keys(prev).contains(k) {
                    let t = choose|t: int| 0 <= t < group_keys(h).len() && group_keys(h)[t] == k;
                    assert(group_keys(prev).push(key_of(h.last()))[t] == k);
                }
                if group_keys(prev).contains(k) {
                    let t = choose|t: int| 0 <= t < group_keys(prev).len() && group_keys(prev)[t] == k;
                    if !group_keys(prev).contains(key_of(h.last())) {
                        assert(group_keys(prev).push(key_of(h.last()))[t] == k);
                    }
                }
            }
        }
    }
}

/// Copies a list of strings.
fn clone_strings(v: &Vec<String>) -> (r: Vec<String>)
    ensures
        r@ == v@,
{
    let mut r: Vec<String> = Vec::new();
    let mut i: usize = 0;
    while i < v.len()
        invariant
            i <= v@.len(),
            r@ == v@.take(i as int),
        decreases v@.len() - i,
    {
        r.push(v[i].clone());
        assert(v@.take(i + 1) == v@.take(i as int).push(v@[i as int]));
        i = i + 1;
    }
    assert(v@.take(v@.len() as int) == v@);
    r
}

/// The state of the grouping after the first `i` hashed files.
spec fn grouped(
    h: Seq<(u64, u64, String)>,
    i: int,
    index: Map<u128, usize>,
    keys: Seq<(u64, u64)>,
    paths: Seq<Vec<String>>,
    wastes: Seq<u64>,
) -> bool {
    let pre = h.take(i);
    &&& keys == group_keys(pre)
    &&& paths.len() == keys.len()
    &&& wastes.len() == keys.len()
    &&& forall|j: int|
        #![trigger keys[j]]
        0 <= j < keys.len() ==> index.contains_key(key_code(keys[j])) && index[key_code(keys[j])]
            == j
    &&& forall|c: u128| #[trigger]
        index.contains_key(c) ==> index[c] < keys.len() && key_code(keys[index[c] as int]) == c
    &&& forall|j: int|
        #![trigger paths[j]]
        0 <= j < keys.len() ==> strs(paths[j]@) == group_paths(pre, keys[j]) && paths[j]@.len()
            >= 1 && wastes[j] as nat == ((paths[j]@.len() - 1) * keys[j].0) as nat
}

/// Groups hashed files (size, hash, path) by size and hash. Returns the
/// groups of two or more files, each listing its paths in the order they were
/// given, by wasted bytes (copies beyond the first times the size) largest
/// first, and the bytes all groups waste together.
pub fn group_duplicates(hashed: &[(u64, u64, String)]) -> (res: (Vec<DuplicateGroup>, u64))
    requires
        total_wasted(hashed@) <= u64::MAX,
    ensures
        res.1 == total_wasted(hashed@),
        res.1 == groups_waste(res.0@),
        forall|i: int|
            #![trigger res.0@[i]]
            0 <= i < res.0@.len() ==> {
                let g = res.0@[i];
                &&& group_keys(hashed@).contains((g.size_bytes, g.hash))
                &&& strs(g.files@) == group_paths(hashed@, (g.size_bytes, g.hash))
                &&& g.files@.len() >= 2
            },
        forall|i: int, j: int|
            0 <= i < j < res.0@.len() ==> (#[trigger] res.0@[i].size_bytes, res.0@[i].hash) != (
                #[trigger] res.0@[j].size_bytes,
                res.0@[j].hash,
            ),
        forall|k: (u64, u64)|
            #[trigger] group_paths(hashed@, k).len() >= 2 ==> exists|i: int|
                0 <= i < res.0@.len() && (#[trigger] res.0@[i].size_bytes, res.0@[i].hash) == k,
        forall|i: int, j: int|
            0 <= i < j < res.0@.len() ==> group_waste(#[trigger] res.0@[i]) >= group_waste(
                #[trigger] res.0@[j],
            ),
{
    let n = hashed.len();
    let mut index: std::collections::HashMap<u128, usize> = std::collections::HashMap::new();
    let mut keys: Vec<(u64, u64)> = Vec::new();
    let mut paths: Vec<Vec<String>> = Vec::new();
    let mut wastes: Vec<u64> = Vec::new();
    let mut total: u64 = 0;
    let mut i: usize = 0;
    proof {
        assert(hashed@.take(0) == Seq::<(u64, u64, String)>::empty());
    }
    while i < n
        invariant
            n == hashed@.len(),
            i <= n,
            total_wasted(hashed@) <= u64::MAX,
            grouped(hashed@, i as int, index@, keys@, paths@, wastes@),
            sum_u64(wastes@) == total as nat,
            total as nat == total_wasted(hashed@.take(i as int)),
        decreases n - i,
    {
        let ghost pre = hashed@.take(i as int);
        let ghost post = hashed@.take(i + 1);
        proof {
            assert(post.drop_last() == pre);
            assert(post.last() == hashed@[i as int]);
            lemma_total_wasted_prefix(hashed@, i + 1);
            lemma_group_keys_facts(pre);
        }
        let size = hashed[i].0;
        let hash = hashed[i].1;
        let path = hashed[i].2.clone();
        let code = code_of(size, hash);
        let ghost key = (size, hash);
        let ghost old_keys = keys@;
        let ghost old_paths = paths@;
        let ghost old_wastes = wastes@;
        match index.get(&code) {
            Some(jr) => {
                let j = *jr;
                proof {
                    lemma_key_code_injective(keys@[j as int], key);
                    assert(group_keys(pre).contains(key));
                    lemma_sum_update(old_wastes, j as int, (old_wastes[j as int] + size) as u64);
                    lemma_elem_le_sum(old_wastes.update(j as int, (old_wastes[j as int] + size) as u64), j as int);
                }
                let w = wastes[j] + size;
                wastes.set(j, w);
                total = total + size;
                let mut pj: Vec<String> = Vec::new();
                std::mem::swap(&mut pj, &mut paths[j]);
                pj.push(path);
                paths.set(j, pj);
                proof {
                    assert(keys@ == group_keys(post));
                    assert forall|t: int| #![trigger paths@[t]] 0 <= t < keys@.len() implies strs(
                        paths@[t]@,
                    ) == group_paths(post, keys@[t]) && paths@[t]@.len() >= 1 && wastes@[t] as nat
                        == ((paths@[t]@.len() - 1) * keys@[t].0) as nat by {
                        if t == j {
                            assert(strs(paths@[t]@) == strs(old_paths[t]@).push(hashed@[i as int].2@));
                            assert(((old_paths[t]@.len() + 1 - 1) * keys@[t].0) == ((old_paths[t]@.len() - 1) * keys@[t].0) + keys@[t].0) by (nonlinear_arith);
                        } else {
                            assert(index@[key_code(keys@[t])] == t);
                            if keys@[t] == key {
                                assert(key_code(keys@[t]) == code);
                            }
                            assert(keys@[t] != key);
                        }
                    }
                    assert(grouped(hashed@, i + 1, index@, keys@, paths@, wastes@));
                }
            },
            None => {
                proof {
                    if group_keys(pre).contains(key) {
                        let t = choose|t: int| 0 <= t < keys@.len() && keys@[t] == key;
                        assert(index@.contains_key(key_code(keys@[t])));
                    }
                }
                let j = keys.len();
                keys.push((size, hash));
                let mut pj: Vec<String> = Vec::new();
                pj.push(path);
                paths.push(pj);
                wastes.push(0);
                index.insert(code, j);
                proof {
                    assert(keys@ == group_keys(post));
                    lemma_group_keys_facts(pre);
                    assert(group_paths(pre, key).len() == 0);
                    assert forall|t: int| #![trigger keys@[t]] 0 <= t < keys@.len() implies index@.contains_key(key_code(keys@[t])) && index@[key_code(keys@[t])]
                        == t by {
                        if t < j {
                            assert(keys@[t] == old_keys[t]);
                            if key_code(keys@[t]) == code {
                                lemma_key_code_injective(keys@[t], key);
                            }
                        }
                    }
                    assert forall|c: u128| #[trigger] index@.contains_key(c) implies index@[c] < keys@.len() && key_code(keys@[index@[c] as int]) == c by {
                    }
                    assert forall|t: int| #![trigger paths@[t]] 0 <= t < keys@.len() implies strs(
                        paths@[t]@,
                    ) == group_paths(post, keys@[t]) && paths@[t]@.len() >= 1 && wastes@[t] as nat
                        == ((paths@[t]@.len() - 1) * keys@[t].0) as nat by {
                        if t == j {
                            assert(strs(paths@[t]@) == seq![hashed@[i as int].2@]);
                            assert(group_paths(post, key) == Seq::<Seq<char>>::empty().push(hashed@[i as int].2@));
                        } else {
                            assert(keys@[t] == old_keys[t]);
                            assert(paths@[t] == old_paths[t]);
                            assert(keys@[t] != key);
                        }
                    }
                    assert(wastes@ == old_wastes.push(0));
                    assert(wastes@.drop_last() == old_wastes);
                    assert(sum_u64(wastes@) == sum_u64(old_wastes));
                    assert(grouped(hashed@, i + 1, index@, keys@, paths@, wastes@));
                }
            },
        }
        i = i + 1;
    }
    proof {
        assert(hashed@.take(n as int) == hashed@);
        lemma_group_keys_facts(hashed@);
    }
    let mut weights: Vec<u128> = Vec::new();
    let mut t: usize = 0;
    while t < wastes.len()
        invariant
            t <= wastes@.len(),
            weights@.len() == t,
            forall|j: int| 0 <= j < t ==> #[trigger] weights@[j] == wastes@[j] as u128,
        decreases wastes@.len() - t,
    {
        weights.push(wastes[t] as u128);
        t = t + 1;
    }
    let p = sort_indices_desc(&weights);
    proof {
        lemma_sorted_distinct(weights@, p@);
        lemma_sorted_weights(weights@, p@);
    }
    let ghost ws = permuted(wastes@, p@);
    let mut groups: Vec<DuplicateGroup> = Vec::new();
    let ghost mut origin: Seq<int> = Seq::empty();
    let m = p.len();
    let mut q: usize = 0;
    while q < m
        invariant
            m == p@.len(),
            q <= m,
            desc_permutation(weights@, p@),
            weights@.len() == keys@.len(),
            forall|j: int| 0 <= j < weights@.len() ==> #[trigger] weights@[j] == wastes@[j] as u128,
            forall|a: int, b: int|
                0 <= a <= b < p@.len() ==> weights@[p@[a] as int] >= weights@[p@[b] as int],
            grouped(hashed@, n as int, index@, keys@, paths@, wastes@),
            ws == permuted(wastes@, p@),
            groups_waste(groups@) == sum_u64(ws.take(q as int)),
            origin.len() == groups@.len(),
            forall|a: int| 0 <= a < origin.len() ==> 0 <= #[trigger] origin[a] < q,
            forall|a: int|
                #![trigger groups@[a]]
                0 <= a < groups@.len() ==> (groups@[a].size_bytes, groups@[a].hash) == keys@[p@[origin[a]] as int]
                    && groups@[a].files@ == paths@[p@[origin[a]] as int]@ && groups@[a].files@.len() >= 2,
            forall|a: int, b: int| 0 <= a < b < groups@.len() ==> origin[a] < origin[b],
            forall|s: int|
                0 <= s < q && #[trigger] paths@[p@[s] as int]@.len() >= 2 ==> exists|a: int|
                    0 <= a < groups@.len() && origin[a] == s,
        decreases m - q,
    {
        let j = p[q];
        proof {
            assert(ws.take(q + 1).drop_last() == ws.take(q as int));
            assert(ws.take(q + 1).last() == ws[q as int]);
            assert(ws[q as int] == wastes@[j as int]);
        }
        if paths[j].len() >= 2 {
            let files = clone_strings(&paths[j]);
            let g = DuplicateGroup { size_bytes: keys[j].0, hash: keys[j].1, files };
            let ghost before = groups@;
            let ghost old_origin = origin;
            groups.push(g);
            proof {
                origin = origin.push(q as int);
                assert(groups@.drop_last() == before);
                assert(groups@.last() == g);
                assert(paths@[j as int]@.len() >= 1);
                assert(g.files@ == paths@[j as int]@);
                assert(group_waste(g) == wastes@[j as int] as nat);
                assert(groups_waste(groups@) == groups_waste(before) + group_waste(g));
                assert(sum_u64(ws.take(q + 1)) == sum_u64(ws.take(q as int)) + wastes@[j as int]);
                assert forall|a: int| 0 <= a < origin.len() implies 0 <= #[trigger] origin[a] < q + 1 by {
                    if a < old_origin.len() {
                        assert(origin[a] == old_origin[a]);
                    }
                }
                assert forall|a: int| #![trigger groups@[a]] 0 <= a < groups@.len() implies (
                    groups@[a].size_bytes,
                    groups@[a].hash,
                ) == keys@[p@[origin[a]] as int] && groups@[a].files@ == paths@[p@[origin[a]] as int]@
                    && groups@[a].files@.len() >= 2 by {
                    if a < before.len() {
                        assert(groups@[a] == before[a]);
                        assert(origin[a] == old_origin[a]);
                    }
                }
                assert forall|a: int, b: int| 0 <= a < b < groups@.len() implies origin[a] < origin[b] by {
                    if b < before.len() {
                        assert(origin[a] == old_origin[a]);
                        assert(origin[b] == old_origin[b]);
                    } else {
                        assert(origin[a] == old_origin[a]);
                    }
                }
                assert forall|s: int|
                    0 <= s < q + 1 && #[trigger] paths@[p@[s] as int]@.len() >= 2 implies exists|a: int|
                    0 <= a < groups@.len() && origin[a] == s by {
                    if s == q {
                        assert(origin[before.len() as int] == s);
                    } else {
                        let a = choose|a: int| 0 <= a < before.len() && old_origin[a] == s;
                        assert(origin[a] == s);
                    }
                }
            }
        } else {
            proof {
                assert(paths@[j as int]@.len() >= 1);
                let len = paths@[j as int]@.len() as int;
                let sz = keys@[j as int].0 as int;
                assert((len - 1) * sz == 0) by (nonlinear_arith)
                    requires
                        len == 1,
                ;
                assert(wastes@[j as int] == 0);
                assert(sum_u64(ws.take(q + 1)) == sum_u64(ws.take(q as int)));
            }
        }
        q = q + 1;
    }
    proof {
        assert(ws.take(m as int) == ws);
        lemma_sorted_distinct(weights@, p@);
        lemma_sum_permutation(wastes@, p@);
        let gs = groups@;
        assert forall|i: int| 0 <= i < gs.len() implies 0 <= #[trigger] origin[i] < m by {
            assert(gs[i] == groups@[i]);
        }
        assert forall|i: int| #![trigger gs[i]] 0 <= i < gs.len() implies {
            let g = gs[i];
            &&& group_keys(hashed@).contains((g.size_bytes, g.hash))
            &&& strs(g.files@) == group_paths(hashed@, (g.size_bytes, g.hash))
            &&& g.files@.len() >= 2
        } by {
            assert(0 <= origin[i] < m);
            let j = p@[origin[i]] as int;
            assert(hashed@.take(n as int) == hashed@);
            assert(keys@[j] == group_keys(hashed@)[j]);
        }
        assert forall|i: int, j: int| 0 <= i < j < gs.len() implies (
            #[trigger] gs[i].size_bytes,
            gs[i].hash,
        ) != (#[trigger] gs[j].size_bytes, gs[j].hash) by {
            assert(0 <= origin[i] < m);
            assert(0 <= origin[j] < m);
            assert(origin[i] < origin[j]);
            assert(p@[origin[i]] != p@[origin[j]]);
            assert(hashed@.take(n as int) == hashed@);
            assert(group_keys(hashed@).no_duplicates());
        }
        assert forall|a: int, b: int| 0 <= a < b < gs.len() implies group_waste(#[trigger] gs[a])
            >= group_waste(#[trigger] gs[b]) by {
            assert(0 <= origin[a] < m);
            assert(0 <= origin[b] < m);
            assert(origin[a] < origin[b]);
            assert(weights@[p@[origin[a]] as int] >= weights@[p@[origin[b]] as int]);
        }
        assert forall|k: (u64, u64)| #[trigger] group_paths(hashed@, k).len() >= 2 implies exists|
            i: int,
        | 0 <= i < gs.len() && (#[trigger] gs[i].size_bytes, gs[i].hash) == k by {
            assert(group_keys(hashed@).contains(k));
            let j = choose|j: int| 0 <= j < keys@.len() && keys@[j] == k;
            assert(p@.contains(j as usize));
            let s = choose|s: int| 0 <= s < m && p@[s] == j as usize;
            assert(paths@[p@[s] as int]@.len() >= 2) by {
                assert(strs(paths@[j]@).len() == paths@[j]@.len());
            }
            let a = choose|a: int| 0 <= a < gs.len() && origin[a] == s;
            assert((gs[a].size_bytes, gs[a].hash) == k);
        }
    }
    (groups, total)
}

} // verus!
