//! The summary of a scan: totals over all analysed files, the breakdown by
//! language (most code first) and the files larger than the size
//! threshold.

use vstd::prelude::*;
use crate::metrics::SingleFileMetrics;
use crate::git::GitHealth;
use crate::storage::FolderStat;
use crate::duplicates::DuplicateGroup;
use crate::text::chars_eq;
use crate::text::chars_of;
use crate::order::{sort_indices_desc, desc_permutation, sum_nat, permuted_nat,
    lemma_sum_nat_permutation, lemma_sorted_distinct, lemma_desc_permutation_unique,
    lemma_sorted_weights};

verus! {

/// The statistics of one language.
#[derive(Debug, Clone)]
pub struct LanguageStat {
    pub name: String,
    pub files: usize,
    pub code_lines: usize,
    pub blank_lines: usize,
    pub comment_lines: usize,
    pub total_lines: usize,
    pub bytes: u64,
}

/// A file larger than the size threshold.
#[derive(Debug, Clone)]
pub struct JumboFile {
    pub path: String,
    pub bytes: u64,
}

/// Everything a scan found out about a repository.
#[derive(Debug, Clone)]
pub struct RepoStats {
    pub root_path: String,
    pub total_files: usize,
    pub total_bytes: u64,
    pub scan_duration_ms: u128,
    pub languages: Vec<LanguageStat>,
    pub jumbo_files: Vec<JumboFile>,
    pub git_health: GitHealth,
    pub total_code_lines: usize,
    pub total_blank_lines: usize,
    pub total_comment_lines: usize,
    pub total_lines: usize,
    pub top_folders: Option<Vec<FolderStat>>,
    pub duplicate_groups: Option<Vec<DuplicateGroup>>,
    pub total_wasted_bytes: u64,
    pub insights: Vec<String>,
}

/// What is added up over files.
pub enum Measure {
    Files,
    Code,
    Blank,
    Comment,
    Bytes,
}

/// What one file adds to a measure.
pub open spec fn amount(m: SingleFileMetrics, which: Measure) -> nat {
    match which {
        Measure::Files => 1,
        Measure::Code => m.code_lines as nat,
        Measure::Blank => m.blank_lines as nat,
        Measure::Comment => m.comment_lines as nat,
        Measure::Bytes => m.bytes as nat,
    }
}

/// A measure added up over all files.
pub open spec fn total_amount(rs: Seq<(String, SingleFileMetrics)>, which: Measure) -> nat
    decreases rs.len(),
{
    if rs.len() == 0 {
        0
    } else {
        total_amount(rs.drop_last(), which) + amount(rs.last().1, which)
    }
}

/// A measure added up over the files of one language.
pub open spec fn language_amount(
    rs: Seq<(String, SingleFileMetrics)>,
    lang: Seq<char>,
    which: Measure,
) -> nat
    decreases rs.len(),
{
    if rs.len() == 0 {
        0
    } else {
        language_amount(rs.drop_last(), lang, which) + if rs.last().1.language@ == lang {
            amount(rs.last().1, which)
        } else {
            0
        }
    }
}

/// The languages of the files, each once, in the order they first occur.
pub open spec fn language_keys(rs: Seq<(String, SingleFileMetrics)>) -> Seq<Seq<char>>
    decreases rs.len(),
{
    if rs.len() == 0 {
        Seq::empty()
    } else {
        let prev = language_keys(rs.drop_last());
        if prev.contains(rs.last().1.language@) {
            prev
        } else {
            prev.push(rs.last().1.language@)
        }
    }
}

/// The statistics of a language as (name, files, code, blank, comment,
/// total lines, bytes).
pub open spec fn language_summary(rs: Seq<(String, SingleFileMetrics)>, lang: Seq<char>) -> (
    Seq<char>,
    nat,
    nat,
    nat,
    nat,
    nat,
    nat,
) {
    let code = language_amount(rs, lang, Measure::Code);
    let blank = language_amount(rs, lang, Measure::Blank);
    let comment = language_amount(rs, lang, Measure::Comment);
    (
        lang,
        language_amount(rs, lang, Measure::Files),
        code,
        blank,
        comment,
        code + blank + comment,
        language_amount(rs, lang, Measure::Bytes),
    )
}

/// The statistics of every language, in the order the languages first
/// occur.
pub open spec fn language_summaries(rs: Seq<(String, SingleFileMetrics)>) -> Seq<
    (Seq<char>, nat, nat, nat, nat, nat, nat),
> {
    language_keys(rs).map_values(|k: Seq<char>| language_summary(rs, k))
}

/// A language's statistics as numbers.
pub open spec fn stat_view(l: LanguageStat) -> (Seq<char>, nat, nat, nat, nat, nat, nat) {
    (
        l.name@,
        l.files as nat,
        l.code_lines as nat,
        l.blank_lines as nat,
        l.comment_lines as nat,
        l.total_lines as nat,
        l.bytes as nat,
    )
}

/// Each language's statistics as numbers.
pub open spec fn stat_views(ls: Seq<LanguageStat>) -> Seq<(Seq<char>, nat, nat, nat, nat, nat, nat)> {
    ls.map_values(|l: LanguageStat| stat_view(l))
}

/// The code lines by which languages are ordered.
pub open spec fn code_weights(s: Seq<(Seq<char>, nat, nat, nat, nat, nat, nat)>) -> Seq<u128> {
    s.map_values(|c: (Seq<char>, nat, nat, nat, nat, nat, nat)| c.2 as u128)
}

/// The statistics `s` listed in the order of the indices `p`.
pub open spec fn arranged_stats(s: Seq<(Seq<char>, nat, nat, nat, nat, nat, nat)>, p: Seq<usize>) -> Seq<
    (Seq<char>, nat, nat, nat, nat, nat, nat),
> {
    p.map_values(|j: usize| s[j as int])
}

/// `langs` is the language breakdown of the files: every language once, by
/// code lines, most first, the order of first occurrence kept among equal
/// counts.
pub open spec fn ranked_languages(
    rs: Seq<(String, SingleFileMetrics)>,
    langs: Seq<(Seq<char>, nat, nat, nat, nat, nat, nat)>,
) -> bool {
    let s = language_summaries(rs);
    exists|p: Seq<usize>|
        desc_permutation(code_weights(s), p) && #[trigger] arranged_stats(s, p) == langs
}

/// The files of more than `threshold` bytes, as (path, bytes), in order.
pub open spec fn jumbo_entries(rs: Seq<(String, SingleFileMetrics)>, threshold: u64) -> Seq<
    (Seq<char>, u64),
>
    decreases rs.len(),
{
    if rs.len() == 0 {
        Seq::empty()
    } else if rs.last().1.bytes > threshold {
        jumbo_entries(rs.drop_last(), threshold).push((rs.last().0@, rs.last().1.bytes))
    } else {
        jumbo_entries(rs.drop_last(), threshold)
    }
}

/// The jumbo files as (path, bytes).
pub open spec fn jumbo_views(js: Seq<JumboFile>) -> Seq<(Seq<char>, u64)> {
    js.map_values(|j: JumboFile| (j.path@, j.bytes))
}

/// The lines of all files.
pub open spec fn all_lines(rs: Seq<(String, SingleFileMetrics)>) -> nat {
    total_amount(rs, Measure::Code) + total_amount(rs, Measure::Blank) + total_amount(
        rs,
        Measure::Comment,
    )
}

/// What a language's statistics say of a measure.
pub open spec fn stat_amount(l: LanguageStat, which: Measure) -> nat {
    match which {
        Measure::Files => l.files as nat,
        Measure::Code => l.code_lines as nat,
        Measure::Blank => l.blank_lines as nat,
        Measure::Comment => l.comment_lines as nat,
        Measure::Bytes => l.bytes as nat,
    }
}

/// A measure added up over a language breakdown.
pub open spec fn stats_total(ls: Seq<LanguageStat>, which: Measure) -> nat
    decreases ls.len(),
{
    if ls.len() == 0 {
        0
    } else {
        stats_total(ls.drop_last(), which) + stat_amount(ls.last(), which)
    }
}

// ---------------------------------------------------------------------------
// Lemmas
// ---------------------------------------------------------------------------

proof fn lemma_language_keys_facts(rs: Seq<(String, SingleFileMetrics)>)
    ensures
        language_keys(rs).no_duplicates(),
        forall|k: Seq<char>, w: Measure|
            !language_keys(rs).contains(k) ==> #[trigger] language_amount(rs, k, w) == 0,
    decreases rs.len(),
{
    if rs.len() > 0 {
        let prev = rs.drop_last();
        lemma_language_keys_facts(prev);
        let pk = language_keys(prev);
        assert forall|k: Seq<char>, w: Measure|
            !language_keys(rs).contains(k) implies #[trigger] language_amount(rs, k, w) == 0 by {
            if pk.contains(k) {
                let t = choose|t: int| 0 <= t < pk.len() && pk[t] == k;
                if !pk.contains(rs.last().1.language@) {
                    assert(pk.push(rs.last().1.language@)[t] == k);
                }
                assert(language_keys(rs).contains(k));
            }
            if rs.last().1.language@ == k {
                if !pk.contains(k) {
                    assert(pk.push(k)[pk.len() as int] == k);
                }
                assert(language_keys(rs).contains(k));
            }
            assert(language_amount(prev, k, w) == 0);
        }
    }
}

proof fn lemma_total_amount_prefix(rs: Seq<(String, SingleFileMetrics)>, i: int, w: Measure)
    requires
        0 <= i <= rs.len(),
    ensures
        total_amount(rs.take(i), w) <= total_amount(rs, w),
    decreases rs.len() - i,
{
    if i < rs.len() {
        assert(rs.drop_last().take(i) == rs.take(i));
        lemma_total_amount_prefix(rs.drop_last(), i, w);
    } else {
        assert(rs.take(i) == rs);
    }
}

proof fn lemma_language_amount_le_total(rs: Seq<(String, SingleFileMetrics)>, k: Seq<char>, w: Measure)
    ensures
        language_amount(rs, k, w) <= total_amount(rs, w),
    decreases rs.len(),
{
    if rs.len() > 0 {
        lemma_language_amount_le_total(rs.drop_last(), k, w);
    }
}

/// The amounts of the languages `ks` over the files `rs`.
pub open spec fn key_amounts(rs: Seq<(String, SingleFileMetrics)>, ks: Seq<Seq<char>>, w: Measure) -> Seq<nat> {
    ks.map_values(|k: Seq<char>| language_amount(rs, k, w))
}

proof fn lemma_sum_amounts_step(
    rs: Seq<(String, SingleFileMetrics)>,
    ks: Seq<Seq<char>>,
    w: Measure,
)
    requires
        rs.len() > 0,
        ks.no_duplicates(),
    ensures
        sum_nat(key_amounts(rs, ks, w)) == sum_nat(key_amounts(rs.drop_last(), ks, w)) + if ks.contains(
            rs.last().1.language@,
        ) {
            amount(rs.last().1, w)
        } else {
            0
        },
    decreases ks.len(),
{
    if ks.len() > 0 {
        let kd = ks.drop_last();
        assert(kd.no_duplicates());
        lemma_sum_amounts_step(rs, kd, w);
        assert(key_amounts(rs, ks, w).drop_last() == key_amounts(rs, kd, w));
        assert(key_amounts(rs.drop_last(), ks, w).drop_last() == key_amounts(rs.drop_last(), kd, w));
        let l = rs.last().1.language@;
        if ks.last() == l {
            assert(!kd.contains(l));
        } else {
            if ks.contains(l) {
                let t = choose|t: int| 0 <= t < ks.len() && ks[t] == l;
                assert(kd[t] == l);
            }
            if kd.contains(l) {
                let t = choose|t: int| 0 <= t < kd.len() && kd[t] == l;
                assert(ks[t] == l);
            }
        }
    }
}

/// Adding a file adds one to the file count and its own code, blank and
/// comment lines and bytes to the totals, and to its language's figures
/// alone.
pub proof fn lemma_file_adds_its_figures(rs: Seq<(String, SingleFileMetrics)>, r: (String, SingleFileMetrics), lang: Seq<char>)
    ensures
        total_amount(rs.push(r), Measure::Files) == total_amount(rs, Measure::Files) + 1,
        total_amount(rs.push(r), Measure::Code) == total_amount(rs, Measure::Code) + r.1.code_lines,
        total_amount(rs.push(r), Measure::Blank) == total_amount(rs, Measure::Blank) + r.1.blank_lines,
        total_amount(rs.push(r), Measure::Comment) == total_amount(rs, Measure::Comment)
            + r.1.comment_lines,
        total_amount(rs.push(r), Measure::Bytes) == total_amount(rs, Measure::Bytes) + r.1.bytes,
        lang == r.1.language@ ==> {
            &&& language_amount(rs.push(r), lang, Measure::Files) == language_amount(rs, lang, Measure::Files) + 1
            &&& language_amount(rs.push(r), lang, Measure::Code) == language_amount(rs, lang, Measure::Code)
                + r.1.code_lines
            &&& language_amount(rs.push(r), lang, Measure::Blank) == language_amount(rs, lang, Measure::Blank)
                + r.1.blank_lines
            &&& language_amount(rs.push(r), lang, Measure::Comment) == language_amount(
                rs,
                lang,
                Measure::Comment,
            ) + r.1.comment_lines
            &&& language_amount(rs.push(r), lang, Measure::Bytes) == language_amount(rs, lang, Measure::Bytes)
                + r.1.bytes
        },
        lang != r.1.language@ ==> forall|w: Measure| #[trigger] language_amount(rs.push(r), lang, w)
            == language_amount(rs, lang, w),
{
    assert(rs.push(r).drop_last() == rs);
}

/// The jumbo files are exactly the files larger than the threshold: each
/// such file is listed, and each listed entry is such a file.
pub proof fn lemma_jumbo_files_exceed_threshold(rs: Seq<(String, SingleFileMetrics)>, threshold: u64)
    ensures
        forall|i: int|
            0 <= i < rs.len() && #[trigger] rs[i].1.bytes > threshold ==> jumbo_entries(
                rs,
                threshold,
            ).contains((rs[i].0@, rs[i].1.bytes)),
        forall|e: (Seq<char>, u64)| #[trigger] jumbo_entries(rs, threshold).contains(e) ==> e.1
            > threshold && exists|i: int| 0 <= i < rs.len() && rs[i].0@ == e.0 && rs[i].1.bytes == e.1,
    decreases rs.len(),
{
    if rs.len() > 0 {
        let prev = rs.drop_last();
        let n = rs.len() - 1;
        let jp = jumbo_entries(prev, threshold);
        let j = jumbo_entries(rs, threshold);
        lemma_jumbo_files_exceed_threshold(prev, threshold);
        assert forall|i: int|
            0 <= i < rs.len() && #[trigger] rs[i].1.bytes > threshold implies j.contains(
            (rs[i].0@, rs[i].1.bytes),
        ) by {
            if i == n {
                assert(j[jp.len() as int] == (rs[i].0@, rs[i].1.bytes));
            } else {
                assert(prev[i] == rs[i]);
                assert(jp.contains((prev[i].0@, prev[i].1.bytes)));
                let t = choose|t: int| 0 <= t < jp.len() && jp[t] == (prev[i].0@, prev[i].1.bytes);
                if rs.last().1.bytes > threshold {
                    assert(j[t] == jp[t]);
                }
            }
        }
        assert forall|e: (Seq<char>, u64)| #[trigger] j.contains(e) implies e.1 > threshold && exists|
            i: int,
        | 0 <= i < rs.len() && rs[i].0@ == e.0 && rs[i].1.bytes == e.1 by {
            let t = choose|t: int| 0 <= t < j.len() && j[t] == e;
            if rs.last().1.bytes > threshold && t == jp.len() {
                assert(rs[n].0@ == e.0 && rs[n].1.bytes == e.1);
            } else {
                assert(j[t] == jp[t]);
                assert(jp.contains(e));
                let i = choose|i: int| 0 <= i < prev.len() && prev[i].0@ == e.0 && prev[i].1.bytes == e.1;
                assert(rs[i] == prev[i]);
            }
        }
    }
}

/// A ranked language breakdown lists its languages by their code lines,
/// most first, and each language's figures are those of its files.
pub proof fn lemma_languages_by_code_lines(rs: Seq<(String, SingleFileMetrics)>, ls: Seq<LanguageStat>)
    requires
        ranked_languages(rs, stat_views(ls)),
    ensures
        forall|i: int, j: int|
            0 <= i < j < ls.len() ==> #[trigger] ls[i].code_lines >= #[trigger] ls[j].code_lines,
        forall|i: int|
            #![trigger ls[i]]
            0 <= i < ls.len() ==> {
                &&& ls[i].files as nat == language_amount(rs, ls[i].name@, Measure::Files)
                &&& ls[i].code_lines as nat == language_amount(rs, ls[i].name@, Measure::Code)
                &&& ls[i].blank_lines as nat == language_amount(rs, ls[i].name@, Measure::Blank)
                &&& ls[i].comment_lines as nat == language_amount(rs, ls[i].name@, Measure::Comment)
                &&& ls[i].bytes as nat == language_amount(rs, ls[i].name@, Measure::Bytes)
                &&& ls[i].total_lines == ls[i].code_lines + ls[i].blank_lines + ls[i].comment_lines
            },
{
    let sm = language_summaries(rs);
    let p = choose|p: Seq<usize>| desc_permutation(code_weights(sm), p) && #[trigger] arranged_stats(sm, p) == stat_views(ls);
    lemma_sorted_weights(code_weights(sm), p);
    assert(stat_views(ls).len() == ls.len());
    assert forall|i: int, j: int| 0 <= i < j < ls.len() implies #[trigger] ls[i].code_lines
        >= #[trigger] ls[j].code_lines by {
        assert(stat_views(ls)[i] == sm[p[i] as int]);
        assert(stat_views(ls)[j] == sm[p[j] as int]);
        assert(code_weights(sm)[p[i] as int] == sm[p[i] as int].2 as u128);
        assert(code_weights(sm)[p[j] as int] == sm[p[j] as int].2 as u128);
    }
    assert forall|i: int| #![trigger ls[i]] 0 <= i < ls.len() implies {
        &&& ls[i].files as nat == language_amount(rs, ls[i].name@, Measure::Files)
        &&& ls[i].code_lines as nat == language_amount(rs, ls[i].name@, Measure::Code)
        &&& ls[i].blank_lines as nat == language_amount(rs, ls[i].name@, Measure::Blank)
        &&& ls[i].comment_lines as nat == language_amount(rs, ls[i].name@, Measure::Comment)
        &&& ls[i].bytes as nat == language_amount(rs, ls[i].name@, Measure::Bytes)
        &&& ls[i].total_lines == ls[i].code_lines + ls[i].blank_lines + ls[i].comment_lines
    } by {
        assert(stat_views(ls)[i] == sm[p[i] as int]);
        assert(stat_views(ls)[i] == stat_view(ls[i]));
        let k = language_keys(rs)[p[i] as int];
        assert(sm[p[i] as int] == language_summary(rs, k));
    }
}

/// The language breakdown of a set of files is unique: two ranked lists of
/// the same files are equal.
pub proof fn lemma_ranked_languages_unique(
    rs: Seq<(String, SingleFileMetrics)>,
    l1: Seq<(Seq<char>, nat, nat, nat, nat, nat, nat)>,
    l2: Seq<(Seq<char>, nat, nat, nat, nat, nat, nat)>,
)
    requires
        ranked_languages(rs, l1),
        ranked_languages(rs, l2),
    ensures
        l1 == l2,
{
    let s = language_summaries(rs);
    let p1 = choose|p: Seq<usize>| desc_permutation(code_weights(s), p) && #[trigger] arranged_stats(s, p) == l1;
    let p2 = choose|p: Seq<usize>| desc_permutation(code_weights(s), p) && #[trigger] arranged_stats(s, p) == l2;
    lemma_desc_permutation_unique(code_weights(s), p1, p2);
}

/// Over all languages a measure adds up to its total over all files.
pub proof fn lemma_language_amounts_total(rs: Seq<(String, SingleFileMetrics)>, w: Measure)
    ensures
        sum_nat(key_amounts(rs, language_keys(rs), w)) == total_amount(rs, w),
    decreases rs.len(),
{
    if rs.len() > 0 {
        let prev = rs.drop_last();
        let pk = language_keys(prev);
        let l = rs.last().1.language@;
        lemma_language_amounts_total(prev, w);
        lemma_language_keys_facts(prev);
        lemma_language_keys_facts(rs);
        if pk.contains(l) {
            lemma_sum_amounts_step(rs, pk, w);
        } else {
            let ks = pk.push(l);
            lemma_sum_amounts_step(rs, ks, w);
            assert(ks.contains(l)) by {
                assert(ks[pk.len() as int] == l);
            }
            assert(key_amounts(prev, ks, w) == key_amounts(prev, pk, w).push(language_amount(prev, l, w)));
            assert(language_amount(prev, l, w) == 0);
            assert(key_amounts(prev, ks, w).drop_last() == key_amounts(prev, pk, w));
        }
    }
}

// ---------------------------------------------------------------------------
// Implementation
// ---------------------------------------------------------------------------

/// The grouping state after some files: one statistics entry per language.
spec fn grouped_languages(rs: Seq<(String, SingleFileMetrics)>, langs: Seq<LanguageStat>) -> bool {
    &&& langs.map_values(|l: LanguageStat| l.name@) == language_keys(rs)
    &&& forall|j: int|
        #![trigger langs[j]]
        0 <= j < langs.len() ==> stat_view(langs[j]) == language_summary(rs, langs[j].name@)
}

/// The summary of a scan of `root_path` whose analysed files are `results`
/// (path and metrics, in the order they were found): the totals over all
/// files, the languages ordered by code lines (most first), and the files
/// of more than `jumbo_threshold_bytes` bytes in order. `git_health` and
/// `scan_duration_ms` are taken as given; the storage breakdown, the
/// duplicate groups and the insights are left out.
pub fn summarize_scan(
    root_path: &str,
    results: &Vec<(String, SingleFileMetrics)>,
    jumbo_threshold_bytes: u64,
    git_health: GitHealth,
    scan_duration_ms: u128,
) -> (s: RepoStats)
    requires
        total_amount(results@, Measure::Bytes) <= u64::MAX,
        all_lines(results@) <= usize::MAX,
    ensures
        s.root_path@ == root_path@,
        s.total_files == results@.len(),
        s.total_bytes == total_amount(results@, Measure::Bytes),
        s.total_code_lines == total_amount(results@, Measure::Code),
        s.total_blank_lines == total_amount(results@, Measure::Blank),
        s.total_comment_lines == total_amount(results@, Measure::Comment),
        s.total_lines == s.total_code_lines + s.total_blank_lines + s.total_comment_lines,
        ranked_languages(results@, stat_views(s.languages@)),
        forall|which: Measure| #[trigger]
            stats_total(s.languages@, which) == total_amount(results@, which),
        jumbo_views(s.jumbo_files@) == jumbo_entries(results@, jumbo_threshold_bytes),
        s.git_health == git_health,
        s.scan_duration_ms == scan_duration_ms,
        forall|i: int, j: int|
            0 <= i < j < s.languages@.len() ==> #[trigger] s.languages@[i].code_lines
                >= #[trigger] s.languages@[j].code_lines,
        s.top_folders is None,
        s.duplicate_groups is None,
        s.total_wasted_bytes == 0,
        s.insights@.len() == 0,
{
    let ghost rs = results@;
    let n = results.len();
    let mut total_bytes: u64 = 0;
    let mut code: usize = 0;
    let mut blank: usize = 0;
    let mut comment: usize = 0;
    let mut langs: Vec<LanguageStat> = Vec::new();
    let mut jumbo: Vec<JumboFile> = Vec::new();
    let mut i: usize = 0;
    proof {
        assert(rs.take(0) == Seq::<(String, SingleFileMetrics)>::empty());
        assert(langs@.map_values(|l: LanguageStat| l.name@) =~= Seq::<Seq<char>>::empty());
    }
    while i < n
        invariant
            n == rs.len(),
            rs == results@,
            i <= n,
            total_amount(rs, Measure::Bytes) <= u64::MAX,
            all_lines(rs) <= usize::MAX,
            total_bytes as nat == total_amount(rs.take(i as int), Measure::Bytes),
            code as nat == total_amount(rs.take(i as int), Measure::Code),
            blank as nat == total_amount(rs.take(i as int), Measure::Blank),
            comment as nat == total_amount(rs.take(i as int), Measure::Comment),
            grouped_languages(rs.take(i as int), langs@),
            jumbo_views(jumbo@) == jumbo_entries(rs.take(i as int), jumbo_threshold_bytes),
        decreases n - i,
    {
        let ghost pre = rs.take(i as int);
        let ghost post = rs.take(i + 1);
        let m = &results[i].1;
        proof {
            assert(post.drop_last() == pre);
            assert(post.last() == rs[i as int]);
            lemma_total_amount_prefix(rs, i + 1, Measure::Bytes);
            lemma_total_amount_prefix(rs, i + 1, Measure::Code);
            lemma_total_amount_prefix(rs, i + 1, Measure::Blank);
            lemma_total_amount_prefix(rs, i + 1, Measure::Comment);
            lemma_language_keys_facts(pre);
            let lm = m.language@;
            lemma_language_amount_le_total(post, lm, Measure::Bytes);
            lemma_language_amount_le_total(post, lm, Measure::Code);
            lemma_language_amount_le_total(post, lm, Measure::Blank);
            lemma_language_amount_le_total(post, lm, Measure::Comment);
            lemma_language_amount_le_total(post, lm, Measure::Files);
            assert(total_amount(post, Measure::Files) == post.len()) by {
                lemma_files_total(post);
            }
        }
        total_bytes = total_bytes + m.bytes;
        code = code + m.code_lines;
        blank = blank + m.blank_lines;
        comment = comment + m.comment_lines;
        if m.bytes > jumbo_threshold_bytes {
            let ghost before = jumbo@;
            jumbo.push(JumboFile { path: results[i].0.clone(), bytes: m.bytes });
            proof {
                assert(jumbo_views(jumbo@) == jumbo_views(before).push((rs[i as int].0@, m.bytes)));
            }
        }
        let lang_chars = chars_of(m.language.as_str());
        let mut j: usize = 0;
        while j < langs.len() && !chars_eq(chars_of(langs[j].name.as_str()).as_slice(), lang_chars.as_slice())
            invariant
                j <= langs@.len(),
                lang_chars@ == m.language@,
                forall|t: int| 0 <= t < j ==> langs@[t].name@ != m.language@,
            decreases langs@.len() - j,
        {
            j = j + 1;
        }
        let ghost old_langs = langs@;
        let line_total = m.code_lines + m.blank_lines + m.comment_lines;
        if j < langs.len() {
            let old = &langs[j];
            let updated = LanguageStat {
                name: old.name.clone(),
                files: old.files + 1,
                code_lines: old.code_lines + m.code_lines,
                blank_lines: old.blank_lines + m.blank_lines,
                comment_lines: old.comment_lines + m.comment_lines,
                total_lines: old.total_lines + line_total,
                bytes: old.bytes + m.bytes,
            };
            langs.set(j, updated);
        } else {
            langs.push(
                LanguageStat {
                    name: m.language.clone(),
                    files: 1,
                    code_lines: m.code_lines,
                    blank_lines: m.blank_lines,
                    comment_lines: m.comment_lines,
                    total_lines: line_total,
                    bytes: m.bytes,
                },
            );
        }
        proof {
            let lm = m.language@;
            assert forall|k: Seq<char>, w: Measure| #[trigger] language_amount(post, k, w) == language_amount(pre, k, w) + if k == lm {
                amount(rs[i as int].1, w)
            } else {
                0
            } by {}
            let names = langs@.map_values(|l: LanguageStat| l.name@);
            let old_names = old_langs.map_values(|l: LanguageStat| l.name@);
            if j < old_langs.len() {
                assert(old_names[j as int] == lm);
                assert(pre.len() >= 0);
                assert(language_keys(pre).contains(lm));
                assert(names == old_names);
                assert forall|t: int| #![trigger langs@[t]] 0 <= t < langs@.len() implies stat_view(langs@[t]) == language_summary(post, langs@[t].name@) by {
                    if t != j {
                        assert(langs@[t] == old_langs[t]);
                        assert(old_names[t] == old_langs[t].name@);
                        assert(old_langs[t].name@ != lm);
                    }
                }
            } else {
                assert(!language_keys(pre).contains(lm)) by {
                    if language_keys(pre).contains(lm) {
                        let t = choose|t: int| 0 <= t < old_names.len() && old_names[t] == lm;
                        assert(old_langs[t].name@ == lm);
                    }
                }
                assert(names == old_names.push(lm));
                assert forall|t: int| #![trigger langs@[t]] 0 <= t < langs@.len() implies stat_view(langs@[t]) == language_summary(post, langs@[t].name@) by {
                    if t < old_langs.len() {
                        assert(langs@[t] == old_langs[t]);
                        assert(old_names[t] == old_langs[t].name@);
                        assert(old_langs[t].name@ != lm);
                    } else {
                        assert(language_amount(pre, lm, Measure::Files) == 0);
                        assert(language_amount(pre, lm, Measure::Code) == 0);
                        assert(language_amount(pre, lm, Measure::Blank) == 0);
                        assert(language_amount(pre, lm, Measure::Comment) == 0);
                        assert(language_amount(pre, lm, Measure::Bytes) == 0);
                    }
                }
            }
        }
        i = i + 1;
    }
    proof {
        assert(rs.take(n as int) == rs);
        lemma_language_keys_facts(rs);
    }
    let mut weights: Vec<u128> = Vec::new();
    let mut t: usize = 0;
    while t < langs.len()
        invariant
            t <= langs@.len(),
            weights@.len() == t,
            forall|j: int| 0 <= j < t ==> #[trigger] weights@[j] == langs@[j].code_lines as u128,
        decreases langs@.len() - t,
    {
        weights.push(langs[t].code_lines as u128);
        t = t + 1;
    }
    let ghost summ = language_summaries(rs);
    proof {
        assert(weights@ == code_weights(summ)) by {
            assert forall|j: int| 0 <= j < weights@.len() implies weights@[j] == code_weights(summ)[j] by {
                assert(langs@.map_values(|l: LanguageStat| l.name@)[j] == langs@[j].name@);
            }
        }
    }
    let p = sort_indices_desc(&weights);
    let mut ordered: Vec<LanguageStat> = Vec::new();
    let mut q: usize = 0;
    while q < p.len()
        invariant
            q <= p@.len(),
            desc_permutation(weights@, p@),
            weights@.len() == langs@.len(),
            grouped_languages(rs, langs@),
            summ == language_summaries(rs),
            stat_views(ordered@) == arranged_stats(summ, p@.take(q as int)),
            ordered@.len() == q,
            forall|a: int| 0 <= a < q ==> #[trigger] ordered@[a] == langs@[p@[a] as int],
        decreases p@.len() - q,
    {
        let j = p[q];
        let src = &langs[j];
        let copy = LanguageStat {
            name: src.name.clone(),
            files: src.files,
            code_lines: src.code_lines,
            blank_lines: src.blank_lines,
            comment_lines: src.comment_lines,
            total_lines: src.total_lines,
            bytes: src.bytes,
        };
        let ghost before = ordered@;
        ordered.push(copy);
        proof {
            assert(langs@.map_values(|l: LanguageStat| l.name@)[j as int] == langs@[j as int].name@);
            assert(p@.take(q + 1) == p@.take(q as int).push(j));
            assert(stat_views(ordered@) == stat_views(before).push(stat_view(copy)));
        }
        q = q + 1;
    }
    proof {
        assert(p@.take(p@.len() as int) == p@);
        lemma_sorted_distinct(weights@, p@);
        assert forall|which: Measure| #[trigger]
            stats_total(ordered@, which) == total_amount(rs, which) by {
            lemma_breakdown_totals(rs, langs@, p@, ordered@, which);
        }
        assert(arranged_stats(summ, p@) == stat_views(ordered@));
        lemma_files_total(rs);
        lemma_languages_by_code_lines(rs, ordered@);
    }
    let total_lines = code + blank + comment;
    RepoStats {
        root_path: crate::text::string_of(chars_of(root_path).as_slice()),
        total_files: n,
        total_bytes,
        scan_duration_ms,
        languages: ordered,
        jumbo_files: jumbo,
        git_health,
        total_code_lines: code,
        total_blank_lines: blank,
        total_comment_lines: comment,
        total_lines,
        top_folders: None,
        duplicate_groups: None,
        total_wasted_bytes: 0,
        insights: Vec::new(),
    }
}

proof fn lemma_files_total(rs: Seq<(String, SingleFileMetrics)>)
    ensures
        total_amount(rs, Measure::Files) == rs.len(),
    decreases rs.len(),
{
    if rs.len() > 0 {
        lemma_files_total(rs.drop_last());
    }
}

proof fn lemma_stats_sums(ls: Seq<LanguageStat>, which: Measure)
    ensures
        stats_total(ls, which) == sum_nat(ls.map_values(|l: LanguageStat| stat_amount(l, which))),
    decreases ls.len(),
{
    if ls.len() > 0 {
        lemma_stats_sums(ls.drop_last(), which);
        assert(ls.map_values(|l: LanguageStat| stat_amount(l, which)).drop_last()
            == ls.drop_last().map_values(|l: LanguageStat| stat_amount(l, which)));
    }
}

proof fn lemma_breakdown_totals(
    rs: Seq<(String, SingleFileMetrics)>,
    langs: Seq<LanguageStat>,
    p: Seq<usize>,
    ordered: Seq<LanguageStat>,
    which: Measure,
)
    requires
        grouped_languages(rs, langs),
        langs.len() <= usize::MAX,
        p.len() == langs.len(),
        forall|i: int| 0 <= i < p.len() ==> #[trigger] p[i] < langs.len(),
        forall|k: usize| k < langs.len() ==> #[trigger] p.contains(k),
        forall|i: int, j: int| 0 <= i < p.len() && 0 <= j < p.len() && i != j ==> p[i] != p[j],
        ordered.len() == p.len(),
        forall|a: int| 0 <= a < p.len() ==> #[trigger] ordered[a] == langs[p[a] as int],
    ensures
        stats_total(ordered, which) == total_amount(rs, which),
{
    let keys = language_keys(rs);
    lemma_language_amounts_total(rs, which);
    lemma_stats_sums(ordered, which);
    let w = langs.map_values(|l: LanguageStat| stat_amount(l, which));
    assert(langs.len() == keys.len()) by {
        assert(langs.map_values(|l: LanguageStat| l.name@).len() == langs.len());
    }
    assert(w == key_amounts(rs, keys, which)) by {
        assert forall|j: int| 0 <= j < w.len() implies w[j] == key_amounts(rs, keys, which)[j] by {
            assert(langs.map_values(|l: LanguageStat| l.name@)[j] == langs[j].name@);
            assert(stat_view(langs[j]) == language_summary(rs, langs[j].name@));
        }
    }
    lemma_sum_nat_permutation(w, p);
    assert(permuted_nat(w, p) == ordered.map_values(|l: LanguageStat| stat_amount(l, which)));
}

} // verus!
