//! Ordering of grouped results: a stable arrangement of indices by
//! descending weight, as the reports list folders, duplicate groups,
//! contributors and languages.

use vstd::prelude::*;

verus! {

/// Index `a` is listed before index `b`: it weighs more, or weighs the same
/// and came first.
pub open spec fn ranks_before(w: Seq<u128>, a: int, b: int) -> bool {
    w[a] > w[b] || (w[a] == w[b] && a < b)
}

/// `p` lists indices of `w`, each at most once, by descending weight (a
/// stable sort).
pub open spec fn sorted_desc(w: Seq<u128>, p: Seq<usize>) -> bool {
    &&& forall|i: int| 0 <= i < p.len() ==> #[trigger] p[i] < w.len()
    &&& forall|i: int, j: int|
        0 <= i < j < p.len() ==> ranks_before(w, #[trigger] p[i] as int, #[trigger] p[j] as int)
}

/// `p` is a stable arrangement of all the indices of `w` by descending
/// weight.
pub open spec fn desc_permutation(w: Seq<u128>, p: Seq<usize>) -> bool {
    &&& p.len() == w.len()
    &&& sorted_desc(w, p)
    &&& forall|k: usize| k < w.len() ==> #[trigger] p.contains(k)
}

/// In a sorted arrangement no index occurs twice.
pub proof fn lemma_sorted_distinct(w: Seq<u128>, p: Seq<usize>)
    requires
        sorted_desc(w, p),
    ensures
        forall|i: int, j: int| 0 <= i < p.len() && 0 <= j < p.len() && i != j ==> p[i] != p[j],
{
    assert forall|i: int, j: int| 0 <= i < p.len() && 0 <= j < p.len() && i != j implies p[i]
        != p[j] by {
        if i < j {
            assert(ranks_before(w, p[i] as int, p[j] as int));
        } else {
            assert(ranks_before(w, p[j] as int, p[i] as int));
        }
    }
}

/// In a sorted arrangement weights do not increase along the list.
pub proof fn lemma_sorted_weights(w: Seq<u128>, p: Seq<usize>)
    requires
        sorted_desc(w, p),
    ensures
        forall|i: int, j: int| 0 <= i <= j < p.len() ==> w[p[i] as int] >= w[p[j] as int],
{
    assert forall|i: int, j: int| 0 <= i <= j < p.len() implies w[p[i] as int] >= w[p[j] as int] by {
        if i < j {
            assert(ranks_before(w, p[i] as int, p[j] as int));
        }
    }
}

proof fn lemma_desc_permutation_unique_from(w: Seq<u128>, p1: Seq<usize>, p2: Seq<usize>, i: int)
    requires
        desc_permutation(w, p1),
        desc_permutation(w, p2),
        0 <= i <= p1.len(),
        forall|j: int| 0 <= j < i ==> p1[j] == p2[j],
    ensures
        p1 == p2,
    decreases p1.len() - i,
{
    lemma_sorted_distinct(w, p1);
    lemma_sorted_distinct(w, p2);
    if i < p1.len() {
        let a = p1[i];
        let b = p2[i];
        assert(b < w.len());
        assert(p1.contains(b));
        let t = choose|t: int| 0 <= t < p1.len() && p1[t] == b;
        assert(a < w.len());
        assert(p2.contains(a));
        let u = choose|u: int| 0 <= u < p2.len() && p2[u] == a;
        if t < i {
            assert(p2[t] == b);
        }
        if u < i {
            assert(p1[u] == a);
        }
        if t > i && u > i {
            assert(ranks_before(w, p1[i] as int, p1[t] as int));
            assert(ranks_before(w, p2[i] as int, p2[u] as int));
        }
        lemma_desc_permutation_unique_from(w, p1, p2, i + 1);
    } else {
        assert(p1 =~= p2);
    }
}

/// There is only one stable arrangement of indices by descending weight.
pub proof fn lemma_desc_permutation_unique(w: Seq<u128>, p1: Seq<usize>, p2: Seq<usize>)
    requires
        desc_permutation(w, p1),
        desc_permutation(w, p2),
    ensures
        p1 == p2,
{
    lemma_desc_permutation_unique_from(w, p1, p2, 0);
}

/// Merges two sorted arrangements whose indices are all smaller in the
/// first than in the second; among equal weights the first comes first.
fn merge_desc(w: &Vec<u128>, a: &Vec<usize>, b: &Vec<usize>) -> (r: Vec<usize>)
    requires
        sorted_desc(w@, a@),
        sorted_desc(w@, b@),
        forall|i: int, j: int| 0 <= i < a@.len() && 0 <= j < b@.len() ==> #[trigger] a@[i] < #[trigger] b@[j],
    ensures
        r@.len() == a@.len() + b@.len(),
        sorted_desc(w@, r@),
        forall|x: usize| a@.contains(x) || b@.contains(x) ==> #[trigger] r@.contains(x),
        forall|m: int| 0 <= m < r@.len() ==> a@.contains(#[trigger] r@[m]) || b@.contains(r@[m]),
{
    proof {
        lemma_sorted_weights(w@, a@);
        lemma_sorted_weights(w@, b@);
    }
    let mut r: Vec<usize> = Vec::new();
    let mut i: usize = 0;
    let mut j: usize = 0;
    while i < a.len() || j < b.len()
        invariant
            i <= a@.len(),
            j <= b@.len(),
            r@.len() == i + j,
            sorted_desc(w@, a@),
            sorted_desc(w@, b@),
            forall|x: int, y: int| 0 <= x < a@.len() && 0 <= y < b@.len() ==> #[trigger] a@[x] < #[trigger] b@[y],
            forall|x: int, y: int| 0 <= x <= y < a@.len() ==> w@[a@[x] as int] >= w@[a@[y] as int],
            forall|x: int, y: int| 0 <= x <= y < b@.len() ==> w@[b@[x] as int] >= w@[b@[y] as int],
            sorted_desc(w@, r@),
            forall|m: int, k: int|
                0 <= m < r@.len() && i <= k < a@.len() ==> ranks_before(w@, #[trigger] r@[m] as int, #[trigger] a@[k] as int),
            forall|m: int, k: int|
                0 <= m < r@.len() && j <= k < b@.len() ==> ranks_before(w@, #[trigger] r@[m] as int, #[trigger] b@[k] as int),
            forall|k: int| 0 <= k < i ==> #[trigger] r@.contains(a@[k]),
            forall|k: int| 0 <= k < j ==> #[trigger] r@.contains(b@[k]),
            forall|m: int| 0 <= m < r@.len() ==> a@.contains(#[trigger] r@[m]) || b@.contains(r@[m]),
        decreases a@.len() + b@.len() - i - j,
    {
        let ghost old_r = r@;
        let take_a = if i < a.len() && j < b.len() {
            w[a[i]] >= w[b[j]]
        } else {
            i < a.len()
        };
        if take_a {
            let x = a[i];
            r.push(x);
            proof {
                assert(r@ == old_r.push(x));
                assert forall|k: int| i < k < a@.len() implies ranks_before(w@, x as int, #[trigger] a@[k] as int) by {
                    assert(ranks_before(w@, a@[i as int] as int, a@[k] as int));
                }
                assert forall|k: int| j <= k < b@.len() implies ranks_before(w@, x as int, #[trigger] b@[k] as int) by {
                    assert(w@[b@[j as int] as int] >= w@[b@[k] as int]);
                    assert(a@[i as int] < b@[k]);
                }
                assert forall|m: int, k: int| 0 <= m < r@.len() && i + 1 <= k < a@.len() implies ranks_before(
                    w@, #[trigger] r@[m] as int, #[trigger] a@[k] as int) by {
                    if m < old_r.len() {
                        assert(r@[m] == old_r[m]);
                    }
                }
                assert forall|m: int, k: int| 0 <= m < r@.len() && j <= k < b@.len() implies ranks_before(
                    w@, #[trigger] r@[m] as int, #[trigger] b@[k] as int) by {
                    if m < old_r.len() {
                        assert(r@[m] == old_r[m]);
                    }
                }
                assert forall|m: int, n: int| 0 <= m < n < r@.len() implies ranks_before(
                    w@, #[trigger] r@[m] as int, #[trigger] r@[n] as int) by {
                    if n == old_r.len() {
                        assert(r@[m] == old_r[m]);
                        assert(ranks_before(w@, old_r[m] as int, a@[i as int] as int));
                    } else {
                        assert(r@[m] == old_r[m] && r@[n] == old_r[n]);
                    }
                }
                assert forall|k: int| 0 <= k < i + 1 implies #[trigger] r@.contains(a@[k]) by {
                    if k == i {
                        assert(r@[old_r.len() as int] == a@[k]);
                    } else {
                        assert(old_r.contains(a@[k]));
                        let t = choose|t: int| 0 <= t < old_r.len() && old_r[t] == a@[k];
                        assert(r@[t] == a@[k]);
                    }
                }
                assert forall|k: int| 0 <= k < j implies #[trigger] r@.contains(b@[k]) by {
                    assert(old_r.contains(b@[k]));
                    let t = choose|t: int| 0 <= t < old_r.len() && old_r[t] == b@[k];
                    assert(r@[t] == b@[k]);
                }
                assert forall|m: int| 0 <= m < r@.len() implies a@.contains(#[trigger] r@[m]) || b@.contains(r@[m]) by {
                    if m < old_r.len() {
                        assert(r@[m] == old_r[m]);
                    } else {
                        assert(a@[i as int] == r@[m]);
                    }
                }
            }
            i = i + 1;
        } else {
            let x = b[j];
            r.push(x);
            proof {
                assert(r@ == old_r.push(x));
                assert forall|k: int| i <= k < a@.len() implies ranks_before(w@, x as int, #[trigger] a@[k] as int) by {
                    assert(w@[a@[i as int] as int] >= w@[a@[k] as int]);
                }
                assert forall|k: int| j < k < b@.len() implies ranks_before(w@, x as int, #[trigger] b@[k] as int) by {
                    assert(ranks_before(w@, b@[j as int] as int, b@[k] as int));
                }
                assert forall|m: int, k: int| 0 <= m < r@.len() && i <= k < a@.len() implies ranks_before(
                    w@, #[trigger] r@[m] as int, #[trigger] a@[k] as int) by {
                    if m < old_r.len() {
                        assert(r@[m] == old_r[m]);
                    }
                }
                assert forall|m: int, k: int| 0 <= m < r@.len() && j + 1 <= k < b@.len() implies ranks_before(
                    w@, #[trigger] r@[m] as int, #[trigger] b@[k] as int) by {
                    if m < old_r.len() {
                        assert(r@[m] == old_r[m]);
                    }
                }
                assert forall|m: int, n: int| 0 <= m < n < r@.len() implies ranks_before(
                    w@, #[trigger] r@[m] as int, #[trigger] r@[n] as int) by {
                    if n == old_r.len() {
                        assert(r@[m] == old_r[m]);
                        assert(ranks_before(w@, old_r[m] as int, b@[j as int] as int));
                    } else {
                        assert(r@[m] == old_r[m] && r@[n] == old_r[n]);
                    }
                }
                assert forall|k: int| 0 <= k < i implies #[trigger] r@.contains(a@[k]) by {
                    assert(old_r.contains(a@[k]));
                    let t = choose|t: int| 0 <= t < old_r.len() && old_r[t] == a@[k];
                    assert(r@[t] == a@[k]);
                }
                assert forall|k: int| 0 <= k < j + 1 implies #[trigger] r@.contains(b@[k]) by {
                    if k == j {
                        assert(r@[old_r.len() as int] == b@[k]);
                    } else {
                        assert(old_r.contains(b@[k]));
                        let t = choose|t: int| 0 <= t < old_r.len() && old_r[t] == b@[k];
                        assert(r@[t] == b@[k]);
                    }
                }
                assert forall|m: int| 0 <= m < r@.len() implies a@.contains(#[trigger] r@[m]) || b@.contains(r@[m]) by {
                    if m < old_r.len() {
                        assert(r@[m] == old_r[m]);
                    } else {
                        assert(b@[j as int] == r@[m]);
                    }
                }
            }
            j = j + 1;
        }
    }
    proof {
        assert forall|x: usize| a@.contains(x) || b@.contains(x) implies #[trigger] r@.contains(x) by {
            if a@.contains(x) {
                let k = choose|k: int| 0 <= k < a@.len() && a@[k] == x;
                assert(r@.contains(a@[k]));
            } else {
                let k = choose|k: int| 0 <= k < b@.len() && b@[k] == x;
                assert(r@.contains(b@[k]));
            }
        }
    }
    r
}

/// The indices from `lo` up to `hi`, arranged by descending weight, the
/// given order kept among equal weights (a merge sort).
fn sort_range_desc(w: &Vec<u128>, lo: usize, hi: usize) -> (p: Vec<usize>)
    requires
        lo <= hi <= w@.len(),
    ensures
        p@.len() == hi - lo,
        sorted_desc(w@, p@),
        forall|m: int| 0 <= m < p@.len() ==> lo <= #[trigger] p@[m] < hi,
        forall|k: usize| lo <= k < hi ==> #[trigger] p@.contains(k),
    decreases hi - lo,
{
    if hi - lo == 0 {
        Vec::new()
    } else if hi - lo == 1 {
        let mut p: Vec<usize> = Vec::new();
        p.push(lo);
        proof {
            assert forall|k: usize| lo <= k < hi implies #[trigger] p@.contains(k) by {
                assert(p@[0] == k);
            }
        }
        p
    } else {
        let mid = lo + (hi - lo) / 2;
        let a = sort_range_desc(w, lo, mid);
        let b = sort_range_desc(w, mid, hi);
        let r = merge_desc(w, &a, &b);
        proof {
            assert forall|k: usize| lo <= k < hi implies #[trigger] r@.contains(k) by {
                if k < mid {
                    assert(a@.contains(k));
                } else {
                    assert(b@.contains(k));
                }
            }
            assert forall|m: int| 0 <= m < r@.len() implies lo <= #[trigger] r@[m] < hi by {
                if a@.contains(r@[m]) {
                    let t = choose|t: int| 0 <= t < a@.len() && a@[t] == r@[m];
                    assert(lo <= a@[t] < mid);
                } else {
                    let t = choose|t: int| 0 <= t < b@.len() && b@[t] == r@[m];
                    assert(mid <= b@[t] < hi);
                }
            }
        }
        r
    }
}

/// Arranges the indices of `w` by descending weight, keeping the given
/// order among equal weights.
pub fn sort_indices_desc(w: &Vec<u128>) -> (p: Vec<usize>)
    ensures
        desc_permutation(w@, p@),
{
    sort_range_desc(w, 0, w.len())
}

/// The sum of a sequence of byte counts.
pub open spec fn sum_u64(s: Seq<u64>) -> nat
    decreases s.len(),
{
    if s.len() == 0 {
        0
    } else {
        sum_u64(s.drop_last()) + s.last() as nat
    }
}

/// The weights `w` listed in the order of the indices `p`.
pub open spec fn permuted(w: Seq<u64>, p: Seq<usize>) -> Seq<u64> {
    p.map_values(|i: usize| w[i as int])
}

/// Removing one element takes exactly that element off the sum.
pub proof fn lemma_sum_remove(s: Seq<u64>, i: int)
    requires
        0 <= i < s.len(),
    ensures
        sum_u64(s) == sum_u64(s.remove(i)) + s[i] as nat,
    decreases s.len(),
{
    if i == s.len() - 1 {
        assert(s.remove(i) == s.drop_last());
    } else {
        lemma_sum_remove(s.drop_last(), i);
        assert(s.remove(i).drop_last() == s.drop_last().remove(i));
        assert(s.remove(i).last() == s.last());
    }
}

/// No element exceeds the sum.
pub proof fn lemma_elem_le_sum(s: Seq<u64>, i: int)
    requires
        0 <= i < s.len(),
    ensures
        s[i] as nat <= sum_u64(s),
{
    lemma_sum_remove(s, i);
}

/// Changing one element changes the sum by the difference.
pub proof fn lemma_sum_update(s: Seq<u64>, i: int, v: u64)
    requires
        0 <= i < s.len(),
    ensures
        sum_u64(s.update(i, v)) + s[i] as nat == sum_u64(s) + v as nat,
{
    lemma_sum_remove(s, i);
    lemma_sum_remove(s.update(i, v), i);
    assert(s.update(i, v).remove(i) == s.remove(i));
}

/// Listing every index exactly once keeps the sum.
pub proof fn lemma_sum_permutation(w: Seq<u64>, p: Seq<usize>)
    requires
        w.len() <= usize::MAX,
        p.len() == w.len(),
        forall|i: int| 0 <= i < p.len() ==> #[trigger] p[i] < w.len(),
        forall|i: int, j: int| 0 <= i < p.len() && 0 <= j < p.len() && i != j ==> p[i] != p[j],
        forall|k: usize| k < w.len() ==> #[trigger] p.contains(k),
    ensures
        sum_u64(permuted(w, p)) == sum_u64(w),
    decreases w.len(),
{
    if w.len() > 0 {
        let n = (w.len() - 1) as usize;
        assert(p.contains(n));
        let t = choose|t: int| 0 <= t < p.len() && p[t] == n;
        let p2 = p.remove(t);
        let w2 = w.drop_last();
        assert forall|i: int| 0 <= i < p2.len() implies #[trigger] p2[i] < w2.len() by {
            if i < t {
                assert(p2[i] == p[i]);
                assert(p[i] != p[t]);
            } else {
                assert(p2[i] == p[i + 1]);
                assert(p[i + 1] != p[t]);
            }
        }
        assert forall|i: int, j: int| 0 <= i < p2.len() && 0 <= j < p2.len() && i != j implies p2[i]
            != p2[j] by {
            let ii = if i < t {
                i
            } else {
                i + 1
            };
            let jj = if j < t {
                j
            } else {
                j + 1
            };
            assert(p2[i] == p[ii] && p2[j] == p[jj]);
        }
        assert forall|k: usize| k < w2.len() implies #[trigger] p2.contains(k) by {
            assert(p.contains(k));
            let s = choose|s: int| 0 <= s < p.len() && p[s] == k;
            assert(s != t);
            if s < t {
                assert(p2[s] == k);
            } else {
                assert(p2[s - 1] == k);
            }
        }
        lemma_sum_permutation(w2, p2);
        assert(permuted(w2, p2) == permuted(w, p).remove(t)) by {
            assert forall|i: int| 0 <= i < p2.len() implies permuted(w2, p2)[i] == permuted(
                w,
                p,
            ).remove(t)[i] by {
                if i < t {
                } else {
                }
            }
        }
        lemma_sum_remove(permuted(w, p), t);
        assert(permuted(w, p)[t] == w[n as int]);
        assert(w.last() == w[n as int]);
    }
}

/// The sum of a sequence of counts.
pub open spec fn sum_nat(s: Seq<nat>) -> nat
    decreases s.len(),
{
    if s.len() == 0 {
        0
    } else {
        sum_nat(s.drop_last()) + s.last()
    }
}

/// The counts `w` listed in the order of the indices `p`.
pub open spec fn permuted_nat(w: Seq<nat>, p: Seq<usize>) -> Seq<nat> {
    p.map_values(|i: usize| w[i as int])
}

/// Removing one count takes exactly that count off the sum.
pub proof fn lemma_sum_nat_remove(s: Seq<nat>, i: int)
    requires
        0 <= i < s.len(),
    ensures
        sum_nat(s) == sum_nat(s.remove(i)) + s[i],
    decreases s.len(),
{
    if i == s.len() - 1 {
        assert(s.remove(i) == s.drop_last());
    } else {
        lemma_sum_nat_remove(s.drop_last(), i);
        assert(s.remove(i).drop_last() == s.drop_last().remove(i));
        assert(s.remove(i).last() == s.last());
    }
}

/// Listing every index exactly once keeps the sum of counts.
pub proof fn lemma_sum_nat_permutation(w: Seq<nat>, p: Seq<usize>)
    requires
        w.len() <= usize::MAX,
        p.len() == w.len(),
        forall|i: int| 0 <= i < p.len() ==> #[trigger] p[i] < w.len(),
        forall|i: int, j: int| 0 <= i < p.len() && 0 <= j < p.len() && i != j ==> p[i] != p[j],
        forall|k: usize| k < w.len() ==> #[trigger] p.contains(k),
    ensures
        sum_nat(permuted_nat(w, p)) == sum_nat(w),
    decreases w.len(),
{
    if w.len() > 0 {
        let n = (w.len() - 1) as usize;
        assert(p.contains(n));
        let t = choose|t: int| 0 <= t < p.len() && p[t] == n;
        let p2 = p.remove(t);
        let w2 = w.drop_last();
        assert forall|i: int| 0 <= i < p2.len() implies #[trigger] p2[i] < w2.len() by {
            if i < t {
                assert(p2[i] == p[i]);
                assert(p[i] != p[t]);
            } else {
                assert(p2[i] == p[i + 1]);
                assert(p[i + 1] != p[t]);
            }
        }
        assert forall|i: int, j: int| 0 <= i < p2.len() && 0 <= j < p2.len() && i != j implies p2[i]
            != p2[j] by {
            let ii = if i < t {
                i
            } else {
                i + 1
            };
            let jj = if j < t {
                j
            } else {
                j + 1
            };
            assert(p2[i] == p[ii] && p2[j] == p[jj]);
        }
        assert forall|k: usize| k < w2.len() implies #[trigger] p2.contains(k) by {
            assert(p.contains(k));
            let s = choose|s: int| 0 <= s < p.len() && p[s] == k;
            assert(s != t);
            if s < t {
                assert(p2[s] == k);
            } else {
                assert(p2[s - 1] == k);
            }
        }
        lemma_sum_nat_permutation(w2, p2);
        assert(permuted_nat(w2, p2) == permuted_nat(w, p).remove(t));
        lemma_sum_nat_remove(permuted_nat(w, p), t);
        assert(permuted_nat(w, p)[t] == w[n as int]);
        assert(w.last() == w[n as int]);
    }
}

} // verus!
