//! Git health: what the outputs of `git rev-list --count HEAD`,
//! `git shortlog -sne --all` and `git log -1 --format=%cd --date=short`
//! say about a repository.

use vstd::prelude::*;
use crate::text::{trim, lines, split_once, parse_usize, rfind, lowercase, chars_of, trim_chars,
    trim_str, split_lines, find_char_from, slice_chars, parse_usize_chars, rfind_char,
    lowercase_chars, string_of, chars_eq, views, lemma_rfind_bounds};
use crate::order::{sort_indices_desc, desc_permutation, lemma_sorted_weights,
    lemma_desc_permutation_unique};

verus! {

/// What the repository's history says about its health.
#[derive(Debug, Clone)]
pub struct GitHealth {
    pub is_git_repo: bool,
    pub commit_count: usize,
    pub total_contributors: usize,
    pub active_contributors: usize,
    pub top_contributors: Vec<(String, usize)>,
    pub last_commit_date: Option<String>,
}

impl GitHealth {
    /// The health of a directory that is no git repository.
    pub open spec fn is_default(self) -> bool {
        &&& !self.is_git_repo
        &&& self.commit_count == 0
        &&& self.total_contributors == 0
        &&& self.active_contributors == 0
        &&& self.top_contributors@.len() == 0
        &&& self.last_commit_date is None
    }
}

impl Default for GitHealth {
    fn default() -> (r: Self)
        ensures
            r.is_default(),
    {
        GitHealth {
            is_git_repo: false,
            commit_count: 0,
            total_contributors: 0,
            active_contributors: 0,
            top_contributors: Vec::new(),
            last_commit_date: None,
        }
    }
}

/// The most contributors the health lists.
pub const TOP_CONTRIBUTORS: usize = 5;

// ---------------------------------------------------------------------------
// Commit count and date
// ---------------------------------------------------------------------------

/// The commit count that `git rev-list --count` printed: the trimmed output
/// as a number, or 0 where it is none.
pub open spec fn commit_count_of(out: Seq<char>) -> nat {
    match parse_usize(trim(out)) {
        Some(n) => n,
        None => 0,
    }
}

/// The commit count in the output of `git rev-list --count HEAD`.
pub fn parse_commit_count(stdout: &str) -> (r: usize)
    ensures
        r as nat == commit_count_of(stdout@),
{
    let t = trim_str(stdout);
    match parse_usize_chars(t.as_slice()) {
        Some(n) => n,
        None => 0,
    }
}

/// The date that `git log -1 --format=%cd` printed: the trimmed output,
/// unless that is empty.
pub open spec fn last_commit_date_of(out: Seq<char>) -> Option<Seq<char>> {
    if trim(out).len() == 0 {
        None
    } else {
        Some(trim(out))
    }
}

/// The last commit date in the output of `git log -1`.
pub fn parse_last_commit_date(stdout: &str) -> (r: Option<String>)
    ensures
        r matches Some(d) ==> last_commit_date_of(stdout@) == Some(d@),
        r is None ==> last_commit_date_of(stdout@) is None,
{
    let t = trim_str(stdout);
    if t.len() == 0 {
        None
    } else {
        Some(string_of(t.as_slice()))
    }
}

// ---------------------------------------------------------------------------
// Contributors
// ---------------------------------------------------------------------------

/// One line of `git shortlog -sne` read as (key, name, commits): the line
/// is `count<TAB>rest`; where `rest` holds a `<` and a `>`, the name is the
/// trimmed text before the last `<` and the key is the trimmed e-mail
/// between the last `<` and the last `>` in lower case; otherwise the name
/// is the trimmed `rest` and the key is that in lower case. Lines without a
/// tab or with a count that is no number yield nothing.
pub open spec fn shortlog_entry(line: Seq<char>) -> Option<(Seq<char>, Seq<char>, nat)> {
    let t = trim(line);
    match split_once(t, '\t') {
        None => None,
        Some((count_text, rest)) => match parse_usize(trim(count_text)) {
            None => None,
            Some(count) => match (rfind(rest, '<'), rfind(rest, '>')) {
                (Some(s), Some(e)) => Some(
                    (lowercase(trim(rest.subrange(s + 1, e))), trim(rest.take(s)), count),
                ),
                _ => Some((lowercase(trim(rest)), trim(rest), count)),
            },
        },
    }
}

/// A line whose last `>` comes before its last `<`: reading the e-mail
/// between them is out of bounds.
pub open spec fn shortlog_line_bad(line: Seq<char>) -> bool {
    let t = trim(line);
    match split_once(t, '\t') {
        None => false,
        Some((count_text, rest)) => match parse_usize(trim(count_text)) {
            None => false,
            Some(_) => match (rfind(rest, '<'), rfind(rest, '>')) {
                (Some(s), Some(e)) => e < s,
                _ => false,
            },
        },
    }
}

/// The entries of a sequence of lines, in order.
pub open spec fn shortlog_entries(ls: Seq<Seq<char>>) -> Seq<(Seq<char>, Seq<char>, nat)>
    decreases ls.len(),
{
    if ls.len() == 0 {
        Seq::empty()
    } else {
        match shortlog_entry(ls.last()) {
            Some(e) => shortlog_entries(ls.drop_last()).push(e),
            None => shortlog_entries(ls.drop_last()),
        }
    }
}

/// The distinct keys of the entries, in the order they first occur.
pub open spec fn contributor_keys(es: Seq<(Seq<char>, Seq<char>, nat)>) -> Seq<Seq<char>>
    decreases es.len(),
{
    if es.len() == 0 {
        Seq::empty()
    } else {
        let prev = contributor_keys(es.drop_last());
        if prev.contains(es.last().0) {
            prev
        } else {
            prev.push(es.last().0)
        }
    }
}

/// The commits of all entries with the given key.
pub open spec fn key_commits(es: Seq<(Seq<char>, Seq<char>, nat)>, k: Seq<char>) -> nat
    decreases es.len(),
{
    if es.len() == 0 {
        0
    } else {
        key_commits(es.drop_last(), k) + if es.last().0 == k {
            es.last().2
        } else {
            0
        }
    }
}

/// The name of the first entry with the given key.
pub open spec fn key_name(es: Seq<(Seq<char>, Seq<char>, nat)>, k: Seq<char>) -> Seq<char>
    decreases es.len(),
{
    if es.len() == 0 {
        Seq::empty()
    } else if contributor_keys(es.drop_last()).contains(k) {
        key_name(es.drop_last(), k)
    } else {
        es.last().1
    }
}

/// The contributors of a shortlog as (name, commits), one per key, in the
/// order their keys first occur.
pub open spec fn contributor_summaries(out: Seq<char>) -> Seq<(Seq<char>, nat)> {
    let es = shortlog_entries(lines(out));
    contributor_keys(es).map_values(|k: Seq<char>| (key_name(es, k), key_commits(es, k)))
}

/// The shortlog can be read: no line is bad and no contributor's commits
/// exceed a `usize`.
pub open spec fn shortlog_readable(out: Seq<char>) -> bool {
    let ls = lines(out);
    let es = shortlog_entries(ls);
    &&& forall|i: int| 0 <= i < ls.len() ==> !shortlog_line_bad(#[trigger] ls[i])
    &&& forall|k: Seq<char>| #[trigger] key_commits(es, k) <= usize::MAX
}

/// The weights by which contributors are ordered: their commits.
pub open spec fn summary_weights(s: Seq<(Seq<char>, nat)>) -> Seq<u128> {
    s.map_values(|c: (Seq<char>, nat)| c.1 as u128)
}

/// A (name, commits) list as text and numbers.
pub open spec fn pair_views(v: Seq<(String, usize)>) -> Seq<(Seq<char>, nat)> {
    v.map_values(|c: (String, usize)| (c.0@, c.1 as nat))
}

/// The contributors in the order a report lists them: by commits, most
/// first, keeping the order of the shortlog among equal counts.
pub open spec fn ranked_contributors(out: Seq<char>, r: Seq<(Seq<char>, nat)>) -> bool {
    let s = contributor_summaries(out);
    exists|p: Seq<usize>| desc_permutation(summary_weights(s), p) && #[trigger] arranged(s, p) == r
}

/// The summaries `s` listed in the order of the indices `p`.
pub open spec fn arranged(s: Seq<(Seq<char>, nat)>, p: Seq<usize>) -> Seq<(Seq<char>, nat)> {
    p.map_values(|j: usize| s[j as int])
}

/// Reads one shortlog line: `Err(())` for a bad line, `Ok(None)` for a line
/// that yields nothing, `Ok(Some(entry))` otherwise.
fn read_shortlog_line(line: &[char]) -> (r: Result<Option<(Vec<char>, Vec<char>, usize)>, ()>)
    ensures
        r is Err <==> shortlog_line_bad(line@),
        r matches Ok(o) ==> match o {
            Some(e) => shortlog_entry(line@) == Some((e.0@, e.1@, e.2 as nat)),
            None => shortlog_entry(line@) is None,
        },
{
    let t = trim_chars(line);
    let tab = find_char_from(t.as_slice(), '\t', 0);
    if tab == t.len() {
        return Ok(None);
    }
    let count_text = slice_chars(t.as_slice(), 0, tab);
    let rest = slice_chars(t.as_slice(), tab + 1, t.len());
    proof {
        assert(count_text@ == t@.take(tab as int));
        assert(rest@ == t@.skip(tab + 1));
    }
    let ct = trim_chars(count_text.as_slice());
    let count = match parse_usize_chars(ct.as_slice()) {
        Some(c) => c,
        None => {
            return Ok(None);
        },
    };
    proof {
        lemma_rfind_bounds(rest@, '<');
        lemma_rfind_bounds(rest@, '>');
    }
    match (rfind_char(rest.as_slice(), '<'), rfind_char(rest.as_slice(), '>')) {
        (Some(s), Some(e)) => {
            if e < s {
                return Err(());
            }
            let name = trim_chars(slice_chars(rest.as_slice(), 0, s).as_slice());
            let email = trim_chars(slice_chars(rest.as_slice(), s + 1, e).as_slice());
            let key = lowercase_chars(email.as_slice());
            proof {
                assert(rest@.subrange(0, s as int) == rest@.take(s as int));
            }
            Ok(Some((key, name, count)))
        },
        _ => {
            let name = trim_chars(rest.as_slice());
            let key = lowercase_chars(name.as_slice());
            Ok(Some((key, name, count)))
        },
    }
}

proof fn lemma_contributor_keys_facts(es: Seq<(Seq<char>, Seq<char>, nat)>)
    ensures
        contributor_keys(es).no_duplicates(),
        forall|k: Seq<char>| !contributor_keys(es).contains(k) ==> key_commits(es, k) == 0,
    decreases es.len(),
{
    if es.len() > 0 {
        let prev = es.drop_last();
        lemma_contributor_keys_facts(prev);
        assert forall|k: Seq<char>| !contributor_keys(es).contains(k) implies key_commits(es, k)
            == 0 by {
            let pk = contributor_keys(prev);
            if pk.contains(k) {
                let t = choose|t: int| 0 <= t < pk.len() && pk[t] == k;
                if !pk.contains(es.last().0) {
                    assert(pk.push(es.last().0)[t] == k);
                }
                assert(contributor_keys(es).contains(k));
            }
            if es.last().0 == k {
                if !pk.contains(k) {
                    assert(pk.push(k)[pk.len() as int] == k);
                }
                assert(contributor_keys(es).contains(k));
            }
            assert(key_commits(prev, k) == 0);
        }
    }
}

proof fn lemma_entries_prefix(ls: Seq<Seq<char>>, i: int)
    requires
        0 <= i < ls.len(),
    ensures
        shortlog_entries(ls.take(i + 1)) == match shortlog_entry(ls[i]) {
            Some(e) => shortlog_entries(ls.take(i)).push(e),
            None => shortlog_entries(ls.take(i)),
        },
{
    assert(ls.take(i + 1).drop_last() == ls.take(i));
    assert(ls.take(i + 1).last() == ls[i]);
}

proof fn lemma_key_commits_prefix(es: Seq<(Seq<char>, Seq<char>, nat)>, i: int, k: Seq<char>)
    requires
        0 <= i <= es.len(),
    ensures
        key_commits(es.take(i), k) <= key_commits(es, k),
    decreases es.len() - i,
{
    if i < es.len() {
        assert(es.drop_last().take(i) == es.take(i));
        lemma_key_commits_prefix(es.drop_last(), i, k);
    } else {
        assert(es.take(i) == es);
    }
}

proof fn lemma_entries_of_prefix(ls: Seq<Seq<char>>, i: int)
    requires
        0 <= i <= ls.len(),
    ensures
        exists|j: int|
            0 <= j <= shortlog_entries(ls).len() && #[trigger] shortlog_entries(ls).take(j)
                == shortlog_entries(ls.take(i)),
    decreases ls.len() - i,
{
    if i < ls.len() {
        lemma_entries_of_prefix(ls.drop_last(), i);
        assert(ls.drop_last().take(i) == ls.take(i));
        let es0 = shortlog_entries(ls.drop_last());
        let j = choose|j: int| 0 <= j <= es0.len() && #[trigger] es0.take(j) == shortlog_entries(
            ls.drop_last().take(i),
        );
        match shortlog_entry(ls.last()) {
            Some(e) => {
                assert(es0.push(e).take(j) == es0.take(j));
                assert(shortlog_entries(ls).take(j) == shortlog_entries(ls.take(i)));
            },
            None => {
                assert(shortlog_entries(ls).take(j) == shortlog_entries(ls.take(i)));
            },
        }
    } else {
        assert(ls.take(i) == ls);
        assert(shortlog_entries(ls).take(shortlog_entries(ls).len() as int) == shortlog_entries(
            ls,
        ));
    }
}

/// The grouping state after some entries: keys, names and commits per key.
spec fn grouped_contributors(
    es: Seq<(Seq<char>, Seq<char>, nat)>,
    keys: Seq<Vec<char>>,
    names: Seq<Vec<char>>,
    totals: Seq<usize>,
) -> bool {
    &&& views(keys) == contributor_keys(es)
    &&& names.len() == keys.len()
    &&& totals.len() == keys.len()
    &&& forall|j: int|
        #![trigger keys[j]]
        0 <= j < keys.len() ==> names[j]@ == key_name(es, keys[j]@) && totals[j] as nat
            == key_commits(es, keys[j]@)
}

/// Reads a shortlog: `None` where it cannot be read (a bad line, or a
/// contributor with more commits than a `usize` holds), else the keys, the
/// names and the commits of its contributors in the order their keys first
/// occur.
fn collect_contributors(stdout: &str) -> (r: Option<(Vec<Vec<char>>, Vec<Vec<char>>, Vec<usize>)>)
    ensures
        r is None <==> !shortlog_readable(stdout@),
        r matches Some(g) ==> grouped_contributors(
            shortlog_entries(lines(stdout@)),
            g.0@,
            g.1@,
            g.2@,
        ),
{
    let text = chars_of(stdout);
    let ls = split_lines(text.as_slice());
    let ghost lv = lines(stdout@);
    let mut keys: Vec<Vec<char>> = Vec::new();
    let mut names: Vec<Vec<char>> = Vec::new();
    let mut totals: Vec<usize> = Vec::new();
    let mut i: usize = 0;
    proof {
        assert(lv.take(0) == Seq::<Seq<char>>::empty());
        assert(views(keys@) =~= Seq::<Seq<char>>::empty());
    }
    while i < ls.len()
        invariant
            views(ls@) == lv,
            lv == lines(stdout@),
            i <= ls@.len(),
            forall|t: int| 0 <= t < i ==> !shortlog_line_bad(#[trigger] lv[t]),
            grouped_contributors(shortlog_entries(lv.take(i as int)), keys@, names@, totals@),
        decreases ls@.len() - i,
    {
        let ghost es0 = shortlog_entries(lv.take(i as int));
        proof {
            lemma_entries_prefix(lv, i as int);
            assert(views(ls@)[i as int] == ls@[i as int]@);
        }
        let parsed = read_shortlog_line(ls[i].as_slice());
        match parsed {
            Err(()) => {
                proof {
                    assert(!shortlog_readable(stdout@));
                }
                return None;
            },
            Ok(None) => {},
            Ok(Some((key, name, count))) => {
                let ghost e = (key@, name@, count as nat);
                let ghost es1 = es0.push(e);
                proof {
                    lemma_contributor_keys_facts(es0);
                    assert(es1.drop_last() == es0);
                    assert(es1.last() == e);
                }
                let mut j: usize = 0;
                while j < keys.len() && !chars_eq(keys[j].as_slice(), key.as_slice())
                    invariant
                        j <= keys@.len(),
                        forall|t: int| 0 <= t < j ==> keys@[t]@ != key@,
                    decreases keys@.len() - j,
                {
                    j = j + 1;
                }
                let found = j < keys.len();
                if found {
                    proof {
                        assert(views(keys@)[j as int] == key@);
                        assert(contributor_keys(es0).contains(key@));
                    }
                    let sum = totals[j].checked_add(count);
                    match sum {
                        None => {
                            proof {
                                assert(key_commits(es1, key@) > usize::MAX);
                                lemma_entries_of_prefix(lv, i + 1);
                                let es = shortlog_entries(lv);
                                let jj = choose|jj: int| 0 <= jj <= es.len() && #[trigger] es.take(jj) == es1;
                                lemma_key_commits_prefix(es, jj, key@);
                                assert(!shortlog_readable(stdout@));
                            }
                            return None;
                        },
                        Some(s) => {
                            let ghost old_keys = keys@;
                            totals.set(j, s);
                            proof {
                                assert forall|t: int| #![trigger keys@[t]] 0 <= t < keys@.len()
                                    implies names@[t]@ == key_name(es1, keys@[t]@) && totals@[t] as nat
                                    == key_commits(es1, keys@[t]@) by {
                                    assert(views(keys@)[t] == keys@[t]@);
                                    if t != j {
                                        assert(views(keys@)[j as int] == keys@[j as int]@);
                                        assert(keys@[t]@ != key@);
                                    }
                                }
                                assert(views(keys@) == contributor_keys(es1));
                            }
                        },
                    }
                } else {
                    proof {
                        assert(!views(keys@).contains(key@)) by {
                            if views(keys@).contains(key@) {
                                let t = choose|t: int| 0 <= t < keys@.len() && views(keys@)[t] == key@;
                                assert(keys@[t]@ == key@);
                            }
                        }
                    }
                    let ghost old_keys = keys@;
                    keys.push(key);
                    names.push(name);
                    totals.push(count);
                    proof {
                        assert(views(keys@) == views(old_keys).push(e.0));
                        assert(views(keys@) == contributor_keys(es1));
                        assert forall|t: int| #![trigger keys@[t]] 0 <= t < keys@.len()
                            implies names@[t]@ == key_name(es1, keys@[t]@) && totals@[t] as nat
                            == key_commits(es1, keys@[t]@) by {
                            if t < old_keys.len() {
                                assert(keys@[t] == old_keys[t]);
                                assert(views(old_keys)[t] == old_keys[t]@);
                                assert(keys@[t]@ != e.0);
                            } else {
                                assert(key_commits(es0, e.0) == 0);
                            }
                        }
                    }
                }
            },
        }
        i = i + 1;
    }
    proof {
        assert(lv.take(ls@.len() as int) == lv);
        let es = shortlog_entries(lv);
        assert forall|k: Seq<char>| #[trigger] key_commits(es, k) <= usize::MAX by {
            lemma_contributor_keys_facts(es);
            if contributor_keys(es).contains(k) {
                let t = choose|t: int| 0 <= t < keys@.len() && views(keys@)[t] == k;
                assert(keys@[t]@ == k);
            }
        }
    }
    Some((keys, names, totals))
}

/// Whether a shortlog can be read (`shortlog_readable`).
pub fn shortlog_is_readable(stdout: &str) -> (r: bool)
    ensures
        r == shortlog_readable(stdout@),
{
    collect_contributors(stdout).is_some()
}

/// The contributors in the output of `git shortlog -sne --all`: commits of
/// lines with the same e-mail (in lower case; the name where a line has no
/// e-mail) add up under the name of the first such line, and the
/// contributors come by commits, most first.
pub fn parse_contributors(stdout: &str) -> (r: Vec<(String, usize)>)
    requires
        shortlog_readable(stdout@),
    ensures
        ranked_contributors(stdout@, pair_views(r@)),
        r@.len() == contributor_summaries(stdout@).len(),
{
    let (keys, names, totals) = match collect_contributors(stdout) {
        Some(g) => g,
        None => {
            return Vec::new();
        },
    };
    let ghost es = shortlog_entries(lines(stdout@));
    let ghost s = contributor_summaries(stdout@);
    let mut weights: Vec<u128> = Vec::new();
    let mut t: usize = 0;
    while t < totals.len()
        invariant
            t <= totals@.len(),
            weights@.len() == t,
            forall|j: int| 0 <= j < t ==> #[trigger] weights@[j] == totals@[j] as u128,
        decreases totals@.len() - t,
    {
        weights.push(totals[t] as u128);
        t = t + 1;
    }
    proof {
        assert(weights@ == summary_weights(s)) by {
            assert forall|j: int| 0 <= j < weights@.len() implies weights@[j] == summary_weights(s)[j] by {
                assert(views(keys@)[j] == keys@[j]@);
            }
        }
    }
    let p = sort_indices_desc(&weights);
    let mut r: Vec<(String, usize)> = Vec::new();
    let mut q: usize = 0;
    while q < p.len()
        invariant
            q <= p@.len(),
            desc_permutation(weights@, p@),
            weights@.len() == keys@.len(),
            grouped_contributors(es, keys@, names@, totals@),
            s == contributor_summaries(stdout@),
            es == shortlog_entries(lines(stdout@)),
            pair_views(r@) == p@.take(q as int).map_values(|j: usize| s[j as int]),
        decreases p@.len() - q,
    {
        let j = p[q];
        let entry = (string_of(names[j].as_slice()), totals[j]);
        let ghost before = r@;
        r.push(entry);
        proof {
            assert(views(keys@)[j as int] == keys@[j as int]@);
            assert(pair_views(r@) == pair_views(before).push((names@[j as int]@, totals@[j as int] as nat)));
            assert(p@.take(q + 1) == p@.take(q as int).push(j));
        }
        q = q + 1;
    }
    proof {
        assert(p@.take(p@.len() as int) == p@);
        assert(arranged(s, p@) == pair_views(r@));
    }
    r
}

/// The shortlog of a repository can be read where there is one.
pub open spec fn git_outputs_readable(git_dir_exists: bool, shortlog_output: Option<String>) -> bool {
    git_dir_exists ==> match shortlog_output {
        Some(s) => shortlog_readable(s@),
        None => true,
    }
}

/// What `inspect_git` reports for the given outputs.
pub open spec fn git_health_from(
    h: GitHealth,
    git_dir_exists: bool,
    commit_count_output: Option<String>,
    shortlog_output: Option<String>,
    last_commit_output: Option<String>,
) -> bool {
    &&& (!git_dir_exists ==> h.is_default())
    &&& (git_dir_exists ==> {
            &&& h.is_git_repo
            &&& h.commit_count as nat == match commit_count_output {
                Some(o) => commit_count_of(o@),
                None => 0,
            }
            &&& h.total_contributors as nat == match shortlog_output {
                Some(o) => contributor_summaries(o@).len(),
                None => 0,
            }
            &&& h.active_contributors == h.total_contributors
            &&& match shortlog_output {
                Some(o) => exists|all: Seq<(Seq<char>, nat)>|
                    ranked_contributors(o@, all) && all.len() == h.total_contributors
                        && #[trigger] pair_views(h.top_contributors@) == all.take(
                        if all.len() < TOP_CONTRIBUTORS {
                            all.len() as int
                        } else {
                            TOP_CONTRIBUTORS as int
                        },
                    ),
                None => h.top_contributors@.len() == 0,
            }
            &&& match last_commit_output {
                Some(o) => match h.last_commit_date {
                    Some(d) => last_commit_date_of(o@) == Some(d@),
                    None => last_commit_date_of(o@) is None,
                },
                None => h.last_commit_date is None,
            }
        })
}

/// The ranking of a shortlog's contributors is unique: two ranked lists of
/// the same output are equal.
pub proof fn lemma_ranked_contributors_unique(
    out: Seq<char>,
    r1: Seq<(Seq<char>, nat)>,
    r2: Seq<(Seq<char>, nat)>,
)
    requires
        ranked_contributors(out, r1),
        ranked_contributors(out, r2),
    ensures
        r1 == r2,
{
    let sm = contributor_summaries(out);
    let p1 = choose|p: Seq<usize>| desc_permutation(summary_weights(sm), p) && #[trigger] arranged(sm, p) == r1;
    let p2 = choose|p: Seq<usize>| desc_permutation(summary_weights(sm), p) && #[trigger] arranged(sm, p) == r2;
    lemma_desc_permutation_unique(summary_weights(sm), p1, p2);
}

/// The top contributors of a repository are the first five of its ranked
/// contributors (`parse_contributors`), or all of them where there are
/// fewer, and the contributors are counted in full.
pub proof fn lemma_top_contributors_prefix(
    h: GitHealth,
    commit_count_output: Option<String>,
    shortlog_output: String,
    last_commit_output: Option<String>,
    contributors: Seq<(String, usize)>,
)
    requires
        git_health_from(h, true, commit_count_output, Some(shortlog_output), last_commit_output),
        ranked_contributors(shortlog_output@, pair_views(contributors)),
    ensures
        h.total_contributors == contributors.len(),
        h.active_contributors == contributors.len(),
        pair_views(h.top_contributors@) == pair_views(contributors).take(
            if contributors.len() < TOP_CONTRIBUTORS {
                contributors.len() as int
            } else {
                TOP_CONTRIBUTORS as int
            },
        ),
{
    let o = shortlog_output;
    let all = choose|all: Seq<(Seq<char>, nat)>|
        ranked_contributors(o@, all) && all.len() == h.total_contributors
            && #[trigger] pair_views(h.top_contributors@) == all.take(
            if all.len() < TOP_CONTRIBUTORS {
                all.len() as int
            } else {
                TOP_CONTRIBUTORS as int
            },
        );
    lemma_ranked_contributors_unique(o@, all, pair_views(contributors));
}

/// Whatever git printed, the health `inspect_git` reports has this shape:
/// every contributor counts as active; the top list holds five
/// contributors, or all of them where there are fewer, by commits, most
/// first; and a directory that is no git repository reports no commits, no
/// contributors and no last commit.
pub proof fn lemma_git_health_shape(
    h: GitHealth,
    git_dir_exists: bool,
    commit_count_output: Option<String>,
    shortlog_output: Option<String>,
    last_commit_output: Option<String>,
)
    requires
        git_health_from(h, git_dir_exists, commit_count_output, shortlog_output, last_commit_output),
    ensures
        h.active_contributors == h.total_contributors,
        h.top_contributors@.len() == if h.total_contributors < TOP_CONTRIBUTORS {
            h.total_contributors as int
        } else {
            TOP_CONTRIBUTORS as int
        },
        forall|i: int, j: int|
            0 <= i < j < h.top_contributors@.len() ==> #[trigger] h.top_contributors@[i].1
                >= #[trigger] h.top_contributors@[j].1,
        !h.is_git_repo ==> h.commit_count == 0 && h.top_contributors@.len() == 0
            && h.last_commit_date is None,
{
    if git_dir_exists {
        match shortlog_output {
            Some(o) => {
                let all = choose|all: Seq<(Seq<char>, nat)>|
                    ranked_contributors(o@, all) && all.len() == h.total_contributors
                        && #[trigger] pair_views(h.top_contributors@) == all.take(
                        if all.len() < TOP_CONTRIBUTORS {
                            all.len() as int
                        } else {
                            TOP_CONTRIBUTORS as int
                        },
                    );
                let sm = contributor_summaries(o@);
                let p = choose|p: Seq<usize>|
                    desc_permutation(summary_weights(sm), p) && #[trigger] arranged(sm, p) == all;
                lemma_sorted_weights(summary_weights(sm), p);
                let top = h.top_contributors@;
                assert(pair_views(top).len() == top.len());
                assert forall|i: int, j: int| 0 <= i < j < top.len() implies #[trigger] top[i].1
                    >= #[trigger] top[j].1 by {
                    assert(pair_views(top)[i] == all[i]);
                    assert(pair_views(top)[j] == all[j]);
                    assert(all[i] == sm[p[i] as int]);
                    assert(all[j] == sm[p[j] as int]);
                    assert(summary_weights(sm)[p[i] as int] == sm[p[i] as int].1 as u128);
                    assert(summary_weights(sm)[p[j] as int] == sm[p[j] as int].1 as u128);
                }
            },
            None => {},
        }
    }
}

/// The health of a repository from what git printed: `git_dir_exists`
/// tells whether the directory holds `.git`; each output is `None` where
/// the command could not run or failed. A directory without `.git` gets the
/// default health; otherwise the commit count, the contributors (all of
/// them counted as active, the first five listed) and the last commit date
/// are read from the outputs.
#[verifier::spinoff_prover]
pub fn inspect_git(
    git_dir_exists: bool,
    commit_count_output: Option<String>,
    shortlog_output: Option<String>,
    last_commit_output: Option<String>,
) -> (h: GitHealth)
    requires
        git_outputs_readable(git_dir_exists, shortlog_output),
    ensures
        git_health_from(h, git_dir_exists, commit_count_output, shortlog_output, last_commit_output),
{
    if !git_dir_exists {
        return GitHealth::default();
    }
    let commit_count = match &commit_count_output {
        Some(o) => parse_commit_count(o.as_str()),
        None => 0,
    };
    let contributors: Vec<(String, usize)> = match &shortlog_output {
        Some(o) => parse_contributors(o.as_str()),
        None => Vec::new(),
    };
    let last_commit_date = match &last_commit_output {
        Some(o) => parse_last_commit_date(o.as_str()),
        None => None,
    };
    let total = contributors.len();
    let top_n: usize = if total < TOP_CONTRIBUTORS {
        total
    } else {
        TOP_CONTRIBUTORS
    };
    let mut top: Vec<(String, usize)> = Vec::new();
    let mut k: usize = 0;
    while k < top_n
        invariant
            k <= top_n <= contributors@.len(),
            top@ == contributors@.take(k as int),
        decreases top_n - k,
    {
        let name = contributors[k].0.clone();
        top.push((name, contributors[k].1));
        proof {
            assert(contributors@.take(k + 1) == contributors@.take(k as int).push(contributors@[k as int]));
        }
        k = k + 1;
    }
    proof {
        assert(pair_views(top@) == pair_views(contributors@).take(top_n as int));
    }
    GitHealth {
        is_git_repo: true,
        commit_count,
        total_contributors: total,
        active_contributors: total,
        top_contributors: top,
        last_commit_date,
    }
}

/// `inspect_git` on any outputs: `None` exactly where the shortlog of a
/// repository cannot be read (`shortlog_readable`), else the health
/// `inspect_git` gives.
pub fn try_inspect_git(
    git_dir_exists: bool,
    commit_count_output: Option<String>,
    shortlog_output: Option<String>,
    last_commit_output: Option<String>,
) -> (r: Option<GitHealth>)
    ensures
        r is None <==> !git_outputs_readable(git_dir_exists, shortlog_output),
        r matches Some(h) ==> git_health_from(
            h,
            git_dir_exists,
            commit_count_output,
            shortlog_output,
            last_commit_output,
        ),
{
    if git_dir_exists {
        if let Some(s) = &shortlog_output {
            if !shortlog_is_readable(s.as_str()) {
                return None;
            }
        }
    }
    Some(inspect_git(git_dir_exists, commit_count_output, shortlog_output, last_commit_output))
}

} // verus!
