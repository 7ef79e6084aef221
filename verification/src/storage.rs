//! Storage breakdown: how many bytes and files each top-level folder of the
//! scanned tree holds, largest first.

use vstd::prelude::*;
use crate::text::{chars_of, chars_eq, string_of, views};
use crate::paths::{components, normal_parts, strip_components, path_components, is_kept,
    is_normal, lemma_components_of_names,
    components_prefix, normal_components};
use crate::order::{sort_indices_desc, desc_permutation, lemma_sorted_distinct,
    lemma_sorted_weights, sum_nat, permuted_nat, lemma_sum_nat_permutation};

verus! {

/// The size of one folder of the breakdown.
#[derive(Debug, Clone)]
pub struct FolderStat {
    pub relative_path: String,
    pub bytes: u64,
    pub files_count: usize,
}

/// The most folders the breakdown lists.
pub const MAX_FOLDERS: usize = 10;

/// The components of the scan root that are stripped from each path; the
/// root `.` strips nothing.
pub open spec fn root_parts(root: Seq<char>) -> Seq<Seq<char>> {
    if root == seq!['.'] {
        Seq::empty()
    } else {
        components(root)
    }
}

/// The folder a file counts towards: the first normal component of its path
/// relative to the root when it lies deeper, `<root files>` when it lies in
/// the root itself, and none when its relative path names nothing.
pub open spec fn storage_key(path: Seq<char>, root: Seq<char>) -> Option<Seq<char>> {
    let n = normal_parts(strip_components(components(path), root_parts(root)));
    if n.len() == 0 {
        None
    } else if n.len() >= 2 {
        Some(n[0])
    } else {
        Some("<root files>"@)
    }
}

/// The folders of `files`, each once, in the order they first occur.
pub open spec fn folder_keys(files: Seq<(String, u64)>, root: Seq<char>) -> Seq<Seq<char>>
    decreases files.len(),
{
    if files.len() == 0 {
        Seq::empty()
    } else {
        let prev = folder_keys(files.drop_last(), root);
        match storage_key(files.last().0@, root) {
            Some(k) => if prev.contains(k) {
                prev
            } else {
                prev.push(k)
            },
            None => prev,
        }
    }
}

/// The bytes of the files that count towards folder `key`.
pub open spec fn folder_bytes(files: Seq<(String, u64)>, root: Seq<char>, key: Seq<char>) -> nat
    decreases files.len(),
{
    if files.len() == 0 {
        0
    } else {
        folder_bytes(files.drop_last(), root, key) + if storage_key(files.last().0@, root) == Some(
            key,
        ) {
            files.last().1 as nat
        } else {
            0
        }
    }
}

/// The number of files that count towards folder `key`.
pub open spec fn folder_files(files: Seq<(String, u64)>, root: Seq<char>, key: Seq<char>) -> nat
    decreases files.len(),
{
    if files.len() == 0 {
        0
    } else {
        folder_files(files.drop_last(), root, key) + if storage_key(files.last().0@, root) == Some(
            key,
        ) {
            1nat
        } else {
            0
        }
    }
}

/// No folder holds more bytes than a `u64` counts.
pub open spec fn folders_fit(files: Seq<(String, u64)>, root: Seq<char>) -> bool {
    forall|k: Seq<char>| #[trigger] folder_bytes(files, root, k) <= u64::MAX
}

/// The folder of one file (`storage_key`).
pub fn folder_of(path: &str, root: &str) -> (r: Option<Vec<char>>)
    ensures
        r matches Some(k) ==> storage_key(path@, root@) == Some(k@),
        r is None ==> storage_key(path@, root@) is None,
{
    let pv = chars_of(path);
    let rv = chars_of(root);
    let pc = path_components(pv.as_slice());
    let dot = chars_of(".");
    proof {
        reveal_strlit(".");
    }
    let rc: Vec<Vec<char>> = if chars_eq(rv.as_slice(), dot.as_slice()) {
        Vec::new()
    } else {
        path_components(rv.as_slice())
    };
    proof {
        assert("."@ =~= seq!['.']);
        assert(views(rc@) =~= root_parts(root@));
    }
    let from: usize = if components_prefix(&rc, &pc) {
        rc.len()
    } else {
        0
    };
    let normals = normal_components(&pc, from);
    proof {
        let c = views(pc@);
        if views(rc@).is_prefix_of(c) {
        } else {
            assert(c.skip(0) == c);
        }
    }
    if normals.len() == 0 {
        None
    } else if normals.len() >= 2 {
        Some(normals[0].clone())
    } else {
        Some(chars_of("<root files>"))
    }
}

/// Position of `k` among `names`.
pub fn position_of(names: &Vec<Vec<char>>, k: &Vec<char>) -> (r: Option<usize>)
    ensures
        r matches Some(j) ==> j < names@.len() && names@[j as int]@ == k@,
        r is None ==> !views(names@).contains(k@),
{
    let mut j: usize = 0;
    while j < names.len()
        invariant
            j <= names@.len(),
            forall|t: int| 0 <= t < j ==> names@[t]@ != k@,
        decreases names@.len() - j,
    {
        if chars_eq(names[j].as_slice(), k.as_slice()) {
            return Some(j);
        }
        j = j + 1;
    }
    proof {
        if views(names@).contains(k@) {
            let t = choose|t: int| 0 <= t < names@.len() && views(names@)[t] == k@;
            assert(names@[t]@ == k@);
        }
    }
    None
}

proof fn lemma_folder_bytes_prefix(files: Seq<(String, u64)>, root: Seq<char>, key: Seq<char>, i: int)
    requires
        0 <= i <= files.len(),
    ensures
        folder_bytes(files.take(i), root, key) <= folder_bytes(files, root, key),
    decreases files.len() - i,
{
    if i < files.len() {
        assert(files.drop_last().take(i) == files.take(i));
        lemma_folder_bytes_prefix(files.drop_last(), root, key, i);
    } else {
        assert(files.take(i) == files);
    }
}

proof fn lemma_folder_files_le_len(files: Seq<(String, u64)>, root: Seq<char>, key: Seq<char>)
    ensures
        folder_files(files, root, key) <= files.len(),
    decreases files.len(),
{
    if files.len() > 0 {
        lemma_folder_files_le_len(files.drop_last(), root, key);
    }
}

proof fn lemma_absent_folder_empty(files: Seq<(String, u64)>, root: Seq<char>, k: Seq<char>)
    requires
        !folder_keys(files, root).contains(k),
    ensures
        folder_bytes(files, root, k) == 0,
        folder_files(files, root, k) == 0,
    decreases files.len(),
{
    if files.len() > 0 {
        let prev = folder_keys(files.drop_last(), root);
        if prev.contains(k) {
            assert(folder_keys(files, root).contains(k)) by {
                let t = choose|t: int| 0 <= t < prev.len() && prev[t] == k;
                match storage_key(files.last().0@, root) {
                    Some(kk) => if !prev.contains(kk) {
                        assert(prev.push(kk)[t] == k);
                    },
                    None => {},
                }
            }
        }
        if storage_key(files.last().0@, root) == Some(k) {
            assert(!prev.contains(k));
            assert(prev.push(k)[prev.len() as int] == k);
            assert(folder_keys(files, root).contains(k));
        }
        lemma_absent_folder_empty(files.drop_last(), root, k);
    }
}

/// Scanning `.`, a file inside a top-level folder counts towards that
/// folder, and a file directly in the root towards `<root files>`.
pub proof fn lemma_top_folder_of_file(dir: Seq<char>, name: Seq<char>)
    requires
        !dir.contains('/'),
        !name.contains('/'),
        is_kept(dir),
        is_kept(name),
        is_normal(dir),
        is_normal(name),
    ensures
        storage_key(dir + seq!['/'] + name, seq!['.']) == Some(dir),
        storage_key(name, seq!['.']) == Some("<root files>"@),
{
    lemma_components_of_names(dir, name);
    lemma_components_of_names(name, name);
    let none: Seq<Seq<char>> = Seq::empty();
    assert(none.is_prefix_of(seq![dir, name]));
    assert(none.is_prefix_of(seq![name]));
    assert(seq![dir, name].skip(0) =~= seq![dir, name]);
    assert(seq![name].skip(0) =~= seq![name]);
    assert(normal_parts(seq![name]) =~= seq![name]) by {
        let one = seq![name];
        assert(one.drop_last() =~= none);
        assert(one.last() == name);
        assert(normal_parts(one.drop_last()) == none);
        assert(none.push(name) =~= one);
    }
    assert(normal_parts(seq![dir, name]) =~= seq![dir, name]) by {
        assert(seq![dir, name].drop_last() =~= seq![dir]);
        assert(normal_parts(seq![dir]) =~= seq![dir]) by {
            let one = seq![dir];
            assert(one.drop_last() =~= none);
            assert(one.last() == dir);
            assert(normal_parts(one.drop_last()) == none);
            assert(none.push(dir) =~= one);
        }
        assert(seq![dir].push(name) =~= seq![dir, name]);
    }
}

/// The files that count towards some folder, and their bytes.
pub open spec fn keyed_totals(files: Seq<(String, u64)>, root: Seq<char>) -> (nat, nat)
    decreases files.len(),
{
    if files.len() == 0 {
        (0, 0)
    } else {
        let (n, b) = keyed_totals(files.drop_last(), root);
        if storage_key(files.last().0@, root) is Some {
            (n + 1, b + files.last().1 as nat)
        } else {
            (n, b)
        }
    }
}

/// The bytes of each of the folders `ks`.
pub open spec fn folder_byte_list(files: Seq<(String, u64)>, root: Seq<char>, ks: Seq<Seq<char>>) -> Seq<nat> {
    ks.map_values(|k: Seq<char>| folder_bytes(files, root, k))
}

/// The number of files of each of the folders `ks`.
pub open spec fn folder_file_list(files: Seq<(String, u64)>, root: Seq<char>, ks: Seq<Seq<char>>) -> Seq<nat> {
    ks.map_values(|k: Seq<char>| folder_files(files, root, k))
}

/// The file counts of a breakdown, in order.
pub open spec fn listed_files(ds: Seq<FolderStat>) -> Seq<nat> {
    ds.map_values(|d: FolderStat| d.files_count as nat)
}

/// The byte counts of a breakdown, in order.
pub open spec fn listed_bytes(ds: Seq<FolderStat>) -> Seq<nat> {
    ds.map_values(|d: FolderStat| d.bytes as nat)
}

proof fn lemma_folder_sums_step(files: Seq<(String, u64)>, root: Seq<char>, ks: Seq<Seq<char>>)
    requires
        files.len() > 0,
        ks.no_duplicates(),
    ensures
        ({
            let prev = files.drop_last();
            let hit = match storage_key(files.last().0@, root) {
                Some(k) => ks.contains(k),
                None => false,
            };
            &&& sum_nat(folder_byte_list(files, root, ks)) == sum_nat(folder_byte_list(prev, root, ks))
                + if hit { files.last().1 as nat } else { 0 }
            &&& sum_nat(folder_file_list(files, root, ks)) == sum_nat(folder_file_list(prev, root, ks))
                + if hit { 1nat } else { 0 }
        }),
    decreases ks.len(),
{
    let prev = files.drop_last();
    if ks.len() > 0 {
        let kd = ks.drop_last();
        assert(kd.no_duplicates());
        lemma_folder_sums_step(files, root, kd);
        assert(folder_byte_list(files, root, ks).drop_last() == folder_byte_list(files, root, kd));
        assert(folder_byte_list(prev, root, ks).drop_last() == folder_byte_list(prev, root, kd));
        assert(folder_file_list(files, root, ks).drop_last() == folder_file_list(files, root, kd));
        assert(folder_file_list(prev, root, ks).drop_last() == folder_file_list(prev, root, kd));
        match storage_key(files.last().0@, root) {
            Some(l) => {
                if ks.last() == l {
                    assert(!kd.contains(l));
                } else {
                    if ks.contains(l) {
                        let t = choose|t: int| 0 <= t < ks.len() && ks[t] == l;
                        assert(kd[t] == l);
                    }
                    if kd.contains(l) {
                        let t = choose|t: int| 0 <= t < kd.len() && kd[t] == l;
                        assert(ks[t] == l);
                    }
                }
            },
            None => {},
        }
    }
}

/// Every file that counts towards a folder counts towards exactly one: over
/// all folders, the file counts add up to the number of such files and the
/// byte counts to their bytes.
pub proof fn lemma_folder_totals(files: Seq<(String, u64)>, root: Seq<char>)
    ensures
        sum_nat(folder_file_list(files, root, folder_keys(files, root))) == keyed_totals(files, root).0,
        sum_nat(folder_byte_list(files, root, folder_keys(files, root))) == keyed_totals(files, root).1,
    decreases files.len(),
{
    if files.len() > 0 {
        let prev = files.drop_last();
        let pk = folder_keys(prev, root);
        lemma_folder_totals(prev, root);
        lemma_folder_keys_distinct(prev, root);
        match storage_key(files.last().0@, root) {
            Some(l) => {
                if pk.contains(l) {
                    lemma_folder_sums_step(files, root, pk);
                } else {
                    let ks = pk.push(l);
                    assert(ks.no_duplicates()) by {
                        assert forall|a: int, b: int| 0 <= a < b < ks.len() implies ks[a] != ks[b] by {
                            if b == pk.len() {
                                assert(pk[a] == ks[a]);
                            }
                        }
                    }
                    lemma_folder_sums_step(files, root, ks);
                    assert(ks.contains(l)) by {
                        assert(ks[pk.len() as int] == l);
                    }
                    lemma_absent_folder_empty(prev, root, l);
                    assert(folder_byte_list(prev, root, ks).drop_last() == folder_byte_list(prev, root, pk));
                    assert(folder_file_list(prev, root, ks).drop_last() == folder_file_list(prev, root, pk));
                }
            },
            None => {
                lemma_folder_sums_step(files, root, pk);
            },
        }
    }
}

proof fn lemma_folder_keys_distinct(files: Seq<(String, u64)>, root: Seq<char>)
    ensures
        folder_keys(files, root).no_duplicates(),
        forall|k: Seq<char>| #[trigger]
            folder_keys(files, root).contains(k) ==> folder_files(files, root, k) > 0,
    decreases files.len(),
{
    if files.len() > 0 {
        let prev = files.drop_last();
        lemma_folder_keys_distinct(prev, root);
        assert forall|k: Seq<char>| #[trigger]
            folder_keys(files, root).contains(k) implies folder_files(files, root, k) > 0 by {
            if !folder_keys(prev, root).contains(k) {
                assert(storage_key(files.last().0@, root) == Some(k));
            }
        }
    }
}

/// Breaks the scanned bytes down by top-level folder: for each folder (and
/// `<root files>` for the files directly in the root) the bytes and the
/// number of the files under it, largest first, at most ten of them. Paths
/// are taken relative to `root_path` where it is their prefix.
pub fn analyze_storage(files: &[(String, u64)], root_path: &str) -> (res: Vec<FolderStat>)
    requires
        folders_fit(files@, root_path@),
    ensures
        ({
            let keys = folder_keys(files@, root_path@);
            &&& res@.len() == if keys.len() < MAX_FOLDERS {
                keys.len()
            } else {
                MAX_FOLDERS as nat
            }
            &&& forall|i: int|
                #![trigger res@[i]]
                0 <= i < res@.len() ==> {
                    &&& keys.contains(res@[i].relative_path@)
                    &&& res@[i].bytes == folder_bytes(files@, root_path@, res@[i].relative_path@)
                    &&& res@[i].files_count == folder_files(
                        files@,
                        root_path@,
                        res@[i].relative_path@,
                    )
                }
            &&& forall|i: int, j: int|
                0 <= i < j < res@.len() ==> #[trigger] res@[i].relative_path@
                    != #[trigger] res@[j].relative_path@
            &&& forall|i: int, j: int|
                0 <= i < j < res@.len() ==> #[trigger] res@[i].bytes >= #[trigger] res@[j].bytes
            &&& forall|k: Seq<char>|
                #[trigger] keys.contains(k) ==> (exists|i: int|
                    0 <= i < res@.len() && #[trigger] res@[i].relative_path@ == k) || (res@.len()
                    == MAX_FOLDERS && folder_bytes(files@, root_path@, k) <= res@[MAX_FOLDERS
                    - 1].bytes)
            &&& keys.len() <= MAX_FOLDERS ==> sum_nat(listed_files(res@)) == keyed_totals(
                files@,
                root_path@,
            ).0
            &&& keys.len() <= MAX_FOLDERS ==> sum_nat(listed_bytes(res@)) == keyed_totals(
                files@,
                root_path@,
            ).1
        }),
{
    let ghost root = root_path@;
    let mut names: Vec<Vec<char>> = Vec::new();
    let mut bytes: Vec<u64> = Vec::new();
    let mut counts: Vec<usize> = Vec::new();
    let n = files.len();
    let mut i: usize = 0;
    while i < n
        invariant
            n == files@.len(),
            i <= n,
            root == root_path@,
            folders_fit(files@, root),
            views(names@) == folder_keys(files@.take(i as int), root),
            bytes@.len() == names@.len(),
            counts@.len() == names@.len(),
            forall|j: int|
                #![trigger names@[j]]
                0 <= j < names@.len() ==> bytes@[j] == folder_bytes(
                    files@.take(i as int),
                    root,
                    names@[j]@,
                ) && counts@[j] == folder_files(files@.take(i as int), root, names@[j]@),
        decreases n - i,
    {
        let ghost pre = files@.take(i as int);
        let ghost post = files@.take(i + 1);
        proof {
            assert(post.drop_last() == pre);
            assert(post.last() == files@[i as int]);
        }
        let key = folder_of(files[i].0.as_str(), root_path);
        let size = files[i].1;
        proof {
            lemma_folder_keys_distinct(pre, root);
            assert forall|kk: Seq<char>|
                folder_bytes(post, root, kk) == folder_bytes(pre, root, kk) + (if storage_key(
                    files@[i as int].0@,
                    root,
                ) == Some(kk) {
                    size as nat
                } else {
                    0
                }) && folder_files(post, root, kk) == folder_files(pre, root, kk) + (if storage_key(
                    files@[i as int].0@,
                    root,
                ) == Some(kk) {
                    1nat
                } else {
                    0
                }) by {}
        }
        let ghost old_names = names@;
        let ghost old_bytes = bytes@;
        let ghost old_counts = counts@;
        match key {
            Some(k) => {
                match position_of(&names, &k) {
                    Some(j) => {
                        proof {
                            lemma_folder_bytes_prefix(files@, root, k@, i + 1);
                            lemma_folder_files_le_len(post, root, k@);
                            assert(views(names@)[j as int] == k@);
                        }
                        let b = bytes[j] + size;
                        let c = counts[j] + 1;
                        bytes.set(j, b);
                        counts.set(j, c);
                        proof {
                            assert(views(names@) == folder_keys(post, root));
                            assert forall|t: int| #![trigger names@[t]] 0 <= t < names@.len()
                                implies bytes@[t] == folder_bytes(post, root, names@[t]@)
                                && counts@[t] == folder_files(post, root, names@[t]@) by {
                                if t != j {
                                    assert(views(old_names)[t] == old_names[t]@);
                                    assert(views(old_names)[j as int] == old_names[j as int]@);
                                    assert(names@[t]@ != k@);
                                }
                            }
                        }
                    },
                    None => {
                        proof {
                            lemma_folder_bytes_prefix(files@, root, k@, i + 1);
                            assert(!folder_keys(pre, root).contains(k@));
                            lemma_absent_folder_empty(pre, root, k@);
                        }
                        names.push(k);
                        bytes.push(size);
                        counts.push(1);
                        proof {
                            assert(views(names@) == views(old_names).push(k@));
                            assert(views(names@) == folder_keys(post, root));
                            assert forall|t: int| #![trigger names@[t]] 0 <= t < names@.len()
                                implies bytes@[t] == folder_bytes(post, root, names@[t]@)
                                && counts@[t] == folder_files(post, root, names@[t]@) by {
                                if t < old_names.len() {
                                    assert(names@[t] == old_names[t]);
                                    assert(views(old_names)[t] == old_names[t]@);
                                    assert(names@[t]@ != k@);
                                }
                            }
                        }
                    },
                }
            },
            None => {
                proof {
                    assert(views(names@) == folder_keys(post, root));
                }
            },
        }
        i = i + 1;
    }
    proof {
        assert(files@.take(n as int) == files@);
        lemma_folder_keys_distinct(files@, root);
    }
    let mut weights: Vec<u128> = Vec::new();
    let mut t: usize = 0;
    while t < bytes.len()
        invariant
            t <= bytes@.len(),
            weights@.len() == t,
            forall|j: int| 0 <= j < t ==> #[trigger] weights@[j] == bytes@[j] as u128,
        decreases bytes@.len() - t,
    {
        weights.push(bytes[t] as u128);
        t = t + 1;
    }
    let p = sort_indices_desc(&weights);
    proof {
        lemma_sorted_distinct(weights@, p@);
        lemma_sorted_weights(weights@, p@);
    }
    let m: usize = if p.len() < MAX_FOLDERS {
        p.len()
    } else {
        MAX_FOLDERS
    };
    let mut res: Vec<FolderStat> = Vec::new();
    let mut q: usize = 0;
    while q < m
        invariant
            m <= p@.len(),
            q <= m,
            res@.len() == q,
            desc_permutation(weights@, p@),
            weights@.len() == names@.len(),
            bytes@.len() == names@.len(),
            counts@.len() == names@.len(),
            forall|j: int| 0 <= j < weights@.len() ==> #[trigger] weights@[j] == bytes@[j] as u128,
            forall|j: int| 0 <= j < q ==> #[trigger] res@[j].relative_path@ == names@[p@[j] as int]@
                && res@[j].bytes == bytes@[p@[j] as int] && res@[j].files_count == counts@[p@[
                j] as int],
        decreases m - q,
    {
        let idx = p[q];
        let stat = FolderStat {
            relative_path: string_of(names[idx].as_slice()),
            bytes: bytes[idx],
            files_count: counts[idx],
        };
        res.push(stat);
        q = q + 1;
    }
    proof {
        let keys = folder_keys(files@, root);
        assert forall|i: int| #![trigger res@[i]] 0 <= i < res@.len() implies {
            &&& keys.contains(res@[i].relative_path@)
            &&& res@[i].bytes == folder_bytes(files@, root, res@[i].relative_path@)
            &&& res@[i].files_count == folder_files(files@, root, res@[i].relative_path@)
        } by {
            let j = p@[i] as int;
            assert(views(names@)[j] == names@[j]@);
        }
        assert forall|i: int, j: int| 0 <= i < j < res@.len() implies #[trigger] res@[i].relative_path@
            != #[trigger] res@[j].relative_path@ by {
            assert(p@[i] != p@[j]);
            assert(views(names@)[p@[i] as int] == names@[p@[i] as int]@);
            assert(views(names@)[p@[j] as int] == names@[p@[j] as int]@);
        }
        assert forall|i: int, j: int| 0 <= i < j < res@.len() implies #[trigger] res@[i].bytes
            >= #[trigger] res@[j].bytes by {
            assert(weights@[p@[i] as int] >= weights@[p@[j] as int]);
        }
        assert forall|k: Seq<char>| #[trigger] keys.contains(k) implies (exists|i: int|
            0 <= i < res@.len() && #[trigger] res@[i].relative_path@ == k) || (res@.len()
            == MAX_FOLDERS && folder_bytes(files@, root, k) <= res@[MAX_FOLDERS - 1].bytes) by {
            let j = choose|j: int| 0 <= j < keys.len() && keys[j] == k;
            assert(names@[j]@ == k);
            assert(p@.contains(j as usize));
            let t = choose|t: int| 0 <= t < p@.len() && p@[t] == j as usize;
            if t < m {
                assert(res@[t].relative_path@ == k);
            } else {
                assert(weights@[p@[MAX_FOLDERS - 1] as int] >= weights@[p@[t] as int]);
            }
        }
        if keys.len() <= MAX_FOLDERS {
            let fl = folder_file_list(files@, root, keys);
            let bl = folder_byte_list(files@, root, keys);
            assert(listed_files(res@) =~= permuted_nat(fl, p@)) by {
                assert forall|i: int| 0 <= i < res@.len() implies listed_files(res@)[i]
                    == permuted_nat(fl, p@)[i] by {
                    let j = p@[i] as int;
                    assert(views(names@)[j] == names@[j]@);
                }
            }
            assert(listed_bytes(res@) =~= permuted_nat(bl, p@)) by {
                assert forall|i: int| 0 <= i < res@.len() implies listed_bytes(res@)[i]
                    == permuted_nat(bl, p@)[i] by {
                    let j = p@[i] as int;
                    assert(views(names@)[j] == names@[j]@);
                }
            }
            lemma_sum_nat_permutation(fl, p@);
            lemma_sum_nat_permutation(bl, p@);
            lemma_folder_totals(files@, root);
        }
    }
    res
}

} // verus!
