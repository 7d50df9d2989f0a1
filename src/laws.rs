//! Properties of a whole comparison run, stated over the models that the
//! comparator's contracts use.

use vstd::prelude::*;
use crate::entry::{EntryView, CompareResult, entries_view, pairs_view, has_key, has_pair_key};
use crate::compare::{
    ContentCheck, lookup, lemma_lookup, missing_upto, missing_from, flagged, flagged_upto,
    flagged_pairs, candidates_upto, hash_candidates, reported_pair, hashed_upto, hashed_diffs,
};
use crate::sync::{TaskView, sync_tasks};

verus! {

/// Whether some entry among the first `n` of `a` has the key `k`.
pub open spec fn has_key_upto(a: Seq<EntryView>, k: Seq<char>, n: int) -> bool {
    exists|i: int| 0 <= i < n && a[i].rel_path == k
}

/// `r` is what a comparison of snapshots `sv` and `dv` hands back, with
/// `checks` the verdicts on its hash candidates.
pub open spec fn is_comparison_of(
    r: CompareResult,
    sv: Seq<EntryView>,
    dv: Seq<EntryView>,
    deep: bool,
    checks: Seq<ContentCheck>,
) -> bool {
    &&& entries_view(r.missing_in_dest@) == missing_from(sv, dv)
    &&& entries_view(r.missing_in_source@) == missing_from(dv, sv)
    &&& pairs_view(r.different_content@) == flagged_pairs(sv, dv, deep) + hashed_diffs(
        hash_candidates(sv, dv, deep),
        checks,
    )
}

proof fn lemma_has_key_push(r: Seq<EntryView>, x: EntryView)
    ensures
        forall|k: Seq<char>| has_key(r.push(x), k) <==> (has_key(r, k) || x.rel_path == k),
{
    let m = r.push(x);
    assert forall|k: Seq<char>| has_key(m, k) <==> (has_key(r, k) || x.rel_path == k) by {
        if has_key(r, k) {
            let j = choose|j: int| 0 <= j < r.len() && r[j].rel_path == k;
            assert(m[j] == r[j]);
        }
        if x.rel_path == k {
            assert(m[r.len() as int] == x);
        }
        if has_key(m, k) {
            let j = choose|j: int| 0 <= j < m.len() && m[j].rel_path == k;
            if j < r.len() {
                assert(m[j] == r[j]);
            }
        }
    }
}

proof fn lemma_has_pair_key_push(r: Seq<(EntryView, EntryView)>, x: (EntryView, EntryView))
    ensures
        forall|k: Seq<char>| has_pair_key(r.push(x), k) <==> (has_pair_key(r, k) || x.0.rel_path == k),
{
    let m = r.push(x);
    assert forall|k: Seq<char>| has_pair_key(m, k) <==> (has_pair_key(r, k) || x.0.rel_path == k) by {
        if has_pair_key(r, k) {
            let j = choose|j: int| 0 <= j < r.len() && r[j].0.rel_path == k;
            assert(m[j] == r[j]);
        }
        if x.0.rel_path == k {
            assert(m[r.len() as int] == x);
        }
        if has_pair_key(m, k) {
            let j = choose|j: int| 0 <= j < m.len() && m[j].0.rel_path == k;
            if j < r.len() {
                assert(m[j] == r[j]);
            }
        }
    }
}

proof fn lemma_has_pair_key_concat(a: Seq<(EntryView, EntryView)>, b: Seq<(EntryView, EntryView)>)
    ensures
        forall|k: Seq<char>| has_pair_key(a + b, k) <==> (has_pair_key(a, k) || has_pair_key(b, k)),
{
    let m = a + b;
    assert forall|k: Seq<char>| has_pair_key(m, k) <==> (has_pair_key(a, k) || has_pair_key(b, k)) by {
        if has_pair_key(a, k) {
            let j = choose|j: int| 0 <= j < a.len() && a[j].0.rel_path == k;
            assert(m[j] == a[j]);
        }
        if has_pair_key(b, k) {
            let j = choose|j: int| 0 <= j < b.len() && b[j].0.rel_path == k;
            assert(m[a.len() + j] == b[j]);
        }
        if has_pair_key(m, k) {
            let j = choose|j: int| 0 <= j < m.len() && m[j].0.rel_path == k;
            if j < a.len() {
                assert(m[j] == a[j]);
            } else {
                assert(m[j] == b[j - a.len()]);
            }
        }
    }
}

proof fn lemma_missing_keys(a: Seq<EntryView>, b: Seq<EntryView>, n: nat)
    requires
        n <= a.len(),
    ensures
        forall|k: Seq<char>|
            has_key(missing_upto(a, b, n), k) <==> (has_key_upto(a, k, n as int) && lookup(b, k).is_none()),
    decreases n,
{
    if n > 0 {
        let r = missing_upto(a, b, (n - 1) as nat);
        lemma_missing_keys(a, b, (n - 1) as nat);
        lemma_has_key_push(r, a[n - 1]);
        assert forall|k: Seq<char>|
            has_key(missing_upto(a, b, n), k) <==> (has_key_upto(a, k, n as int) && lookup(b, k).is_none()) by {
            if has_key_upto(a, k, n as int) {
                let i = choose|i: int| 0 <= i < n && a[i].rel_path == k;
                if i < n - 1 {
                    assert(has_key_upto(a, k, n - 1));
                }
            }
            if has_key_upto(a, k, n - 1) {
                let i = choose|i: int| 0 <= i < n - 1 && a[i].rel_path == k;
                assert(has_key_upto(a, k, n as int));
            }
            if a[n - 1].rel_path == k {
                assert(has_key_upto(a, k, n as int));
            }
        }
    }
}

proof fn lemma_flagged_keys(a: Seq<EntryView>, b: Seq<EntryView>, deep: bool, n: nat)
    requires
        n <= a.len(),
    ensures
        forall|k: Seq<char>|
            has_pair_key(flagged_upto(a, b, deep, n), k) <==> (exists|i: int|
                0 <= i < n && a[i].rel_path == k && lookup(b, k) is Some && flagged(
                    a[i],
                    lookup(b, k)->0,
                    deep,
                )),
    decreases n,
{
    if n > 0 {
        let r = flagged_upto(a, b, deep, (n - 1) as nat);
        let e = a[n - 1];
        lemma_flagged_keys(a, b, deep, (n - 1) as nat);
        if let Some(d) = lookup(b, e.rel_path) {
            lemma_has_pair_key_push(r, (e, d));
        }
        assert forall|k: Seq<char>|
            has_pair_key(flagged_upto(a, b, deep, n), k) <==> (exists|i: int|
                0 <= i < n && a[i].rel_path == k && lookup(b, k) is Some && flagged(
                    a[i],
                    lookup(b, k)->0,
                    deep,
                )) by {
            if exists|i: int|
                0 <= i < n && a[i].rel_path == k && lookup(b, k) is Some && flagged(
                    a[i],
                    lookup(b, k)->0,
                    deep,
                ) {
                let i = choose|i: int|
                    0 <= i < n && a[i].rel_path == k && lookup(b, k) is Some && flagged(
                        a[i],
                        lookup(b, k)->0,
                        deep,
                    );
                if i < n - 1 {
                    assert(has_pair_key(r, k));
                }
            }
            if has_pair_key(r, k) {
                let i = choose|i: int|
                    0 <= i < n - 1 && a[i].rel_path == k && lookup(b, k) is Some && flagged(
                        a[i],
                        lookup(b, k)->0,
                        deep,
                    );
                assert(0 <= i < n);
            }
        }
    }
}

proof fn lemma_candidate_keys(a: Seq<EntryView>, b: Seq<EntryView>, deep: bool, n: nat)
    requires
        n <= a.len(),
    ensures
        forall|k: Seq<char>|
            has_pair_key(candidates_upto(a, b, deep, n), k) <==> (exists|i: int|
                0 <= i < n && a[i].rel_path == k && lookup(b, k) is Some && deep && a[i].size == lookup(
                    b,
                    k,
                )->0.size),
    decreases n,
{
    if n > 0 {
        let r = candidates_upto(a, b, deep, (n - 1) as nat);
        let e = a[n - 1];
        lemma_candidate_keys(a, b, deep, (n - 1) as nat);
        if let Some(d) = lookup(b, e.rel_path) {
            lemma_has_pair_key_push(r, (e, d));
        }
        assert forall|k: Seq<char>|
            has_pair_key(candidates_upto(a, b, deep, n), k) <==> (exists|i: int|
                0 <= i < n && a[i].rel_path == k && lookup(b, k) is Some && deep && a[i].size == lookup(
                    b,
                    k,
                )->0.size) by {
            if exists|i: int|
                0 <= i < n && a[i].rel_path == k && lookup(b, k) is Some && deep && a[i].size == lookup(
                    b,
                    k,
                )->0.size {
                let i = choose|i: int|
                    0 <= i < n && a[i].rel_path == k && lookup(b, k) is Some && deep && a[i].size
                        == lookup(b, k)->0.size;
                if i < n - 1 {
                    assert(has_pair_key(r, k));
                }
            }
            if has_pair_key(r, k) {
                let i = choose|i: int|
                    0 <= i < n - 1 && a[i].rel_path == k && lookup(b, k) is Some && deep && a[i].size
                        == lookup(b, k)->0.size;
                assert(0 <= i < n);
            }
        }
    }
}

proof fn lemma_hashed_keys(pairs: Seq<(EntryView, EntryView)>, checks: Seq<ContentCheck>, n: nat)
    requires
        n <= pairs.len(),
        n <= checks.len(),
    ensures
        forall|k: Seq<char>|
            has_pair_key(hashed_upto(pairs, checks, n), k) <==> (exists|i: int|
                0 <= i < n && pairs[i].0.rel_path == k && reported_pair(pairs[i], checks[i]) is Some),
    decreases n,
{
    if n > 0 {
        let r = hashed_upto(pairs, checks, (n - 1) as nat);
        lemma_hashed_keys(pairs, checks, (n - 1) as nat);
        if let Some(q) = reported_pair(pairs[n - 1], checks[n - 1]) {
            lemma_has_pair_key_push(r, q);
        }
        assert forall|k: Seq<char>|
            has_pair_key(hashed_upto(pairs, checks, n), k) <==> (exists|i: int|
                0 <= i < n && pairs[i].0.rel_path == k && reported_pair(pairs[i], checks[i]) is Some) by {
            if exists|i: int|
                0 <= i < n && pairs[i].0.rel_path == k && reported_pair(pairs[i], checks[i]) is Some {
                let i = choose|i: int|
                    0 <= i < n && pairs[i].0.rel_path == k && reported_pair(pairs[i], checks[i]) is Some;
                if i < n - 1 {
                    assert(has_pair_key(r, k));
                }
            }
            if has_pair_key(r, k) {
                let i = choose|i: int|
                    0 <= i < n - 1 && pairs[i].0.rel_path == k && reported_pair(pairs[i], checks[i]) is Some;
                assert(0 <= i < n);
            }
        }
    }
}

proof fn lemma_has_key_upto_all(a: Seq<EntryView>, k: Seq<char>)
    ensures
        has_key_upto(a, k, a.len() as int) == has_key(a, k),
{
    if has_key(a, k) {
        let i = choose|i: int| 0 <= i < a.len() && a[i].rel_path == k;
        assert(has_key_upto(a, k, a.len() as int));
    }
    if has_key_upto(a, k, a.len() as int) {
        let i = choose|i: int| 0 <= i < a.len() && a[i].rel_path == k;
        assert(has_key(a, k));
    }
}

proof fn lemma_lookup_has_key(b: Seq<EntryView>, k: Seq<char>)
    ensures
        lookup(b, k).is_none() == !has_key(b, k),
{
    lemma_lookup(b, k);
    if let Some(d) = lookup(b, k) {
        let i = choose|i: int| 0 <= i < b.len() && b[i] == d;
        assert(b[i].rel_path == k);
    }
}

proof fn lemma_result_keys(
    r: CompareResult,
    sv: Seq<EntryView>,
    dv: Seq<EntryView>,
    deep: bool,
    checks: Seq<ContentCheck>,
)
    requires
        is_comparison_of(r, sv, dv, deep, checks),
        checks.len() == hash_candidates(sv, dv, deep).len(),
    ensures
        forall|k: Seq<char>|
            has_key(entries_view(r.missing_in_dest@), k) <==> (has_key(sv, k) && !has_key(dv, k)),
        forall|k: Seq<char>|
            has_key(entries_view(r.missing_in_source@), k) <==> (has_key(dv, k) && !has_key(sv, k)),
        forall|k: Seq<char>|
            has_pair_key(pairs_view(r.different_content@), k) ==> has_key(sv, k) && has_key(dv, k),
{
    let cands = hash_candidates(sv, dv, deep);
    lemma_missing_keys(sv, dv, sv.len());
    lemma_missing_keys(dv, sv, dv.len());
    lemma_flagged_keys(sv, dv, deep, sv.len());
    lemma_candidate_keys(sv, dv, deep, sv.len());
    lemma_hashed_keys(cands, checks, cands.len());
    lemma_has_pair_key_concat(flagged_pairs(sv, dv, deep), hashed_diffs(cands, checks));
    assert forall|k: Seq<char>|
        has_key(entries_view(r.missing_in_dest@), k) <==> (has_key(sv, k) && !has_key(dv, k)) by {
        lemma_lookup(dv, k);
        lemma_lookup_has_key(dv, k);
        lemma_has_key_upto_all(sv, k);
    }
    assert forall|k: Seq<char>|
        has_key(entries_view(r.missing_in_source@), k) <==> (has_key(dv, k) && !has_key(sv, k)) by {
        lemma_lookup(sv, k);
        lemma_lookup_has_key(sv, k);
        lemma_has_key_upto_all(dv, k);
    }
    assert forall|k: Seq<char>|
        has_pair_key(pairs_view(r.different_content@), k) implies has_key(sv, k) && has_key(dv, k) by {
        lemma_lookup(dv, k);
        if has_pair_key(hashed_diffs(cands, checks), k) {
            let i = choose|i: int|
                0 <= i < cands.len() && cands[i].0.rel_path == k && reported_pair(cands[i], checks[i]) is Some;
            assert(has_pair_key(cands, k));
        }
    }
}

/// A key present in one tree only is reported exactly once, on the side where
/// it is missing, and never as a content difference.
pub proof fn lemma_one_sided_keys(
    r: CompareResult,
    sv: Seq<EntryView>,
    dv: Seq<EntryView>,
    deep: bool,
    checks: Seq<ContentCheck>,
    k: Seq<char>,
)
    requires
        is_comparison_of(r, sv, dv, deep, checks),
        checks.len() == hash_candidates(sv, dv, deep).len(),
    ensures
        has_key(sv, k) && !has_key(dv, k) ==> has_key(entries_view(r.missing_in_dest@), k)
            && !has_key(entries_view(r.missing_in_source@), k)
            && !has_pair_key(pairs_view(r.different_content@), k),
        has_key(dv, k) && !has_key(sv, k) ==> has_key(entries_view(r.missing_in_source@), k)
            && !has_key(entries_view(r.missing_in_dest@), k)
            && !has_pair_key(pairs_view(r.different_content@), k),
{
    lemma_result_keys(r, sv, dv, deep, checks);
}

/// The three collections of a result are disjoint by key.
pub proof fn lemma_result_disjoint(
    r: CompareResult,
    sv: Seq<EntryView>,
    dv: Seq<EntryView>,
    deep: bool,
    checks: Seq<ContentCheck>,
    k: Seq<char>,
)
    requires
        is_comparison_of(r, sv, dv, deep, checks),
        checks.len() == hash_candidates(sv, dv, deep).len(),
    ensures
        !(has_key(entries_view(r.missing_in_dest@), k) && has_key(entries_view(r.missing_in_source@), k)),
        !(has_key(entries_view(r.missing_in_dest@), k) && has_pair_key(pairs_view(r.different_content@), k)),
        !(has_key(entries_view(r.missing_in_source@), k) && has_pair_key(pairs_view(r.different_content@), k)),
{
    lemma_result_keys(r, sv, dv, deep, checks);
    assert(has_key(entries_view(r.missing_in_dest@), k) ==> !has_key(dv, k));
    assert(has_key(entries_view(r.missing_in_source@), k) ==> !has_key(sv, k));
    assert(has_pair_key(pairs_view(r.different_content@), k) ==> has_key(sv, k) && has_key(dv, k));
}

/// A key whose two sides have equal sizes, in a comparison with a content
/// check where every verdict on its pair is `Same` (partial and full hashes
/// agree, as `judge_contents` finds for identical contents), is not reported
/// as a content difference.
pub proof fn lemma_equal_pairs_not_reported(
    r: CompareResult,
    sv: Seq<EntryView>,
    dv: Seq<EntryView>,
    checks: Seq<ContentCheck>,
    k: Seq<char>,
)
    requires
        is_comparison_of(r, sv, dv, true, checks),
        checks.len() == hash_candidates(sv, dv, true).len(),
        forall|i: int, j: int|
            0 <= i < sv.len() && 0 <= j < dv.len() && sv[i].rel_path == k && dv[j].rel_path == k
                ==> sv[i].size == dv[j].size,
        forall|i: int|
            0 <= i < hash_candidates(sv, dv, true).len() && hash_candidates(sv, dv, true)[i].0.rel_path == k
                ==> checks[i] == ContentCheck::Same,
    ensures
        !has_pair_key(pairs_view(r.different_content@), k),
{
    let cands = hash_candidates(sv, dv, true);
    lemma_lookup(dv, k);
    lemma_flagged_keys(sv, dv, true, sv.len());
    lemma_hashed_keys(cands, checks, cands.len());
    lemma_has_pair_key_concat(flagged_pairs(sv, dv, true), hashed_diffs(cands, checks));
    if has_pair_key(flagged_pairs(sv, dv, true), k) {
        let i = choose|i: int|
            0 <= i < sv.len() && sv[i].rel_path == k && lookup(dv, k) is Some && flagged(
                sv[i],
                lookup(dv, k)->0,
                true,
            );
        let d = lookup(dv, k)->0;
        let j = choose|j: int| 0 <= j < dv.len() && dv[j] == d;
        assert(sv[i].size == dv[j].size);
    }
}

/// A key whose two sides differ in size is reported as a content difference
/// and is never handed to content hashing.
pub proof fn lemma_size_mismatch_reported_unhashed(
    r: CompareResult,
    sv: Seq<EntryView>,
    dv: Seq<EntryView>,
    deep: bool,
    checks: Seq<ContentCheck>,
    k: Seq<char>,
)
    requires
        is_comparison_of(r, sv, dv, deep, checks),
        checks.len() == hash_candidates(sv, dv, deep).len(),
        has_key(sv, k),
        has_key(dv, k),
        forall|i: int, j: int|
            0 <= i < sv.len() && 0 <= j < dv.len() && sv[i].rel_path == k && dv[j].rel_path == k
                ==> sv[i].size != dv[j].size,
    ensures
        has_pair_key(pairs_view(r.different_content@), k),
        !has_pair_key(hash_candidates(sv, dv, deep), k),
{
    let cands = hash_candidates(sv, dv, deep);
    lemma_lookup(dv, k);
    lemma_flagged_keys(sv, dv, deep, sv.len());
    lemma_candidate_keys(sv, dv, deep, sv.len());
    lemma_has_pair_key_concat(flagged_pairs(sv, dv, deep), hashed_diffs(cands, checks));
    let i = choose|i: int| 0 <= i < sv.len() && sv[i].rel_path == k;
    let d = lookup(dv, k)->0;
    let j = choose|j: int| 0 <= j < dv.len() && dv[j] == d;
    assert(sv[i].size != dv[j].size);
    assert(flagged(sv[i], d, deep));
    assert(has_pair_key(flagged_pairs(sv, dv, deep), k));
    if has_pair_key(cands, k) {
        let t = choose|t: int|
            0 <= t < sv.len() && sv[t].rel_path == k && lookup(dv, k) is Some && deep && sv[t].size == lookup(
                dv,
                k,
            )->0.size;
        assert(sv[t].size != dv[j].size);
    }
}

/// Two comparisons of the same snapshots with the same verdicts report the
/// same entries, and so the same keys in each collection.
pub proof fn lemma_comparison_repeatable(
    r1: CompareResult,
    r2: CompareResult,
    sv: Seq<EntryView>,
    dv: Seq<EntryView>,
    deep: bool,
    checks: Seq<ContentCheck>,
)
    requires
        is_comparison_of(r1, sv, dv, deep, checks),
        is_comparison_of(r2, sv, dv, deep, checks),
    ensures
        entries_view(r1.missing_in_dest@) == entries_view(r2.missing_in_dest@),
        entries_view(r1.missing_in_source@) == entries_view(r2.missing_in_source@),
        pairs_view(r1.different_content@) == pairs_view(r2.different_content@),
        forall|k: Seq<char>|
            has_key(entries_view(r1.missing_in_dest@), k) == has_key(entries_view(r2.missing_in_dest@), k)
                && has_key(entries_view(r1.missing_in_source@), k) == has_key(
                entries_view(r2.missing_in_source@),
                k,
            ) && has_pair_key(pairs_view(r1.different_content@), k) == has_pair_key(
                pairs_view(r2.different_content@),
                k,
            ),
{
}

/// The key that a task copies to, if it is a copy.
pub open spec fn copy_key(t: TaskView) -> Option<Seq<char>> {
    match t {
        TaskView::Copy { rel_path, .. } => Some(rel_path),
        _ => None,
    }
}

/// The key that a task removes, if it is a removal.
pub open spec fn delete_key(t: TaskView) -> Option<Seq<char>> {
    match t {
        TaskView::Delete { rel_path, .. } => Some(rel_path),
        _ => None,
    }
}

/// Whether some task copies to key `k`.
pub open spec fn copies_key(t: Seq<TaskView>, k: Seq<char>) -> bool {
    exists|i: int| 0 <= i < t.len() && copy_key(t[i]) == Some(k)
}

/// Whether some task removes key `k`.
pub open spec fn deletes_key(t: Seq<TaskView>, k: Seq<char>) -> bool {
    exists|i: int| 0 <= i < t.len() && delete_key(t[i]) == Some(k)
}

/// Whether key `k` names a file in the destination after the copies and then
/// the removals of `tasks` have run, given whether it named one before.
pub open spec fn present_after_sync(present_before: bool, tasks: Seq<TaskView>, k: Seq<char>) -> bool {
    (present_before || copies_key(tasks, k)) && !deletes_key(tasks, k)
}

proof fn lemma_task_keys(
    mid: Seq<EntryView>,
    diff: Seq<(EntryView, EntryView)>,
    mis: Seq<EntryView>,
    del: bool,
    k: Seq<char>,
)
    ensures
        copies_key(sync_tasks(mid, diff, mis, del), k) == (has_key(mid, k) || has_pair_key(diff, k)),
        deletes_key(sync_tasks(mid, diff, mis, del), k) == (del && has_key(mis, k)),
{
    let t = sync_tasks(mid, diff, mis, del);
    let na = mid.len() as int;
    let nb = diff.len() as int;
    assert(t.len() == na + nb + if del { mis.len() as int } else { 0 });
    if has_key(mid, k) {
        let i = choose|i: int| 0 <= i < mid.len() && mid[i].rel_path == k;
        assert(copy_key(t[i]) == Some(k));
    }
    if has_pair_key(diff, k) {
        let i = choose|i: int| 0 <= i < diff.len() && diff[i].0.rel_path == k;
        assert(copy_key(t[na + i]) == Some(k));
    }
    if copies_key(t, k) {
        let i = choose|i: int| 0 <= i < t.len() && copy_key(t[i]) == Some(k);
        if i < na {
            assert(mid[i].rel_path == k);
        } else if i < na + nb {
            assert(diff[i - na].0.rel_path == k);
        } else {
            assert(copy_key(t[i]).is_none());
        }
    }
    if del && has_key(mis, k) {
        let i = choose|i: int| 0 <= i < mis.len() && mis[i].rel_path == k;
        assert(delete_key(t[na + nb + i]) == Some(k));
    }
    if deletes_key(t, k) {
        let i = choose|i: int| 0 <= i < t.len() && delete_key(t[i]) == Some(k);
        if i < na {
            assert(delete_key(t[i]).is_none());
        } else if i < na + nb {
            assert(delete_key(t[i]).is_none());
        } else {
            assert(del);
            assert(mis[i - na - nb].rel_path == k);
        }
    }
}

/// After the tasks planned from a comparison have run, the destination holds
/// a file under every source key; without `delete_extra` it also keeps every
/// key it had, with `delete_extra` it holds exactly the source keys.
pub proof fn lemma_sync_mirrors_source(
    r: CompareResult,
    sv: Seq<EntryView>,
    dv: Seq<EntryView>,
    deep: bool,
    checks: Seq<ContentCheck>,
    delete_extra: bool,
    k: Seq<char>,
)
    requires
        is_comparison_of(r, sv, dv, deep, checks),
        checks.len() == hash_candidates(sv, dv, deep).len(),
    ensures
        present_after_sync(
            has_key(dv, k),
            sync_tasks(
                entries_view(r.missing_in_dest@),
                pairs_view(r.different_content@),
                entries_view(r.missing_in_source@),
                delete_extra,
            ),
            k,
        ) == if delete_extra {
            has_key(sv, k)
        } else {
            has_key(sv, k) || has_key(dv, k)
        },
{
    lemma_result_keys(r, sv, dv, deep, checks);
    lemma_task_keys(
        entries_view(r.missing_in_dest@),
        pairs_view(r.different_content@),
        entries_view(r.missing_in_source@),
        delete_extra,
        k,
    );
    assert(has_key(entries_view(r.missing_in_dest@), k) == (has_key(sv, k) && !has_key(dv, k)));
    assert(has_key(entries_view(r.missing_in_source@), k) == (has_key(dv, k) && !has_key(sv, k)));
    assert(has_pair_key(pairs_view(r.different_content@), k) ==> has_key(sv, k) && has_key(dv, k));
}

/// Whether some entry of `sv` lies at `path` under the key `rel`.
pub open spec fn in_source(sv: Seq<EntryView>, path: Seq<char>, rel: Seq<char>) -> bool {
    exists|i: int| 0 <= i < sv.len() && sv[i].path == path && sv[i].rel_path == rel
}

proof fn lemma_missing_sourced(a: Seq<EntryView>, b: Seq<EntryView>, n: nat)
    requires
        n <= a.len(),
    ensures
        forall|j: int|
            0 <= j < missing_upto(a, b, n).len() ==> in_source(
                a,
                #[trigger] missing_upto(a, b, n)[j].path,
                missing_upto(a, b, n)[j].rel_path,
            ),
    decreases n,
{
    if n > 0 {
        let r = missing_upto(a, b, (n - 1) as nat);
        lemma_missing_sourced(a, b, (n - 1) as nat);
        let m = missing_upto(a, b, n);
        assert forall|j: int| 0 <= j < m.len() implies in_source(a, #[trigger] m[j].path, m[j].rel_path) by {
            if j < r.len() {
                assert(m[j] == r[j]);
                assert(in_source(a, r[j].path, r[j].rel_path));
            } else {
                assert(m[j] == a[n - 1]);
                assert(a[n - 1].path == m[j].path && a[n - 1].rel_path == m[j].rel_path);
            }
        }
    }
}

proof fn lemma_flagged_sourced(a: Seq<EntryView>, b: Seq<EntryView>, deep: bool, n: nat)
    requires
        n <= a.len(),
    ensures
        forall|j: int|
            0 <= j < flagged_upto(a, b, deep, n).len() ==> in_source(
                a,
                #[trigger] flagged_upto(a, b, deep, n)[j].0.path,
                flagged_upto(a, b, deep, n)[j].0.rel_path,
            ),
    decreases n,
{
    if n > 0 {
        let r = flagged_upto(a, b, deep, (n - 1) as nat);
        lemma_flagged_sourced(a, b, deep, (n - 1) as nat);
        let m = flagged_upto(a, b, deep, n);
        assert forall|j: int| 0 <= j < m.len() implies in_source(a, #[trigger] m[j].0.path, m[j].0.rel_path) by {
            if j < r.len() {
                assert(m[j] == r[j]);
                assert(in_source(a, r[j].0.path, r[j].0.rel_path));
            } else {
                assert(m[j].0 == a[n - 1]);
                assert(a[n - 1].path == m[j].0.path && a[n - 1].rel_path == m[j].0.rel_path);
            }
        }
    }
}

proof fn lemma_candidates_sourced(a: Seq<EntryView>, b: Seq<EntryView>, deep: bool, n: nat)
    requires
        n <= a.len(),
    ensures
        forall|j: int|
            0 <= j < candidates_upto(a, b, deep, n).len() ==> in_source(
                a,
                #[trigger] candidates_upto(a, b, deep, n)[j].0.path,
                candidates_upto(a, b, deep, n)[j].0.rel_path,
            ),
    decreases n,
{
    if n > 0 {
        let r = candidates_upto(a, b, deep, (n - 1) as nat);
        lemma_candidates_sourced(a, b, deep, (n - 1) as nat);
        let m = candidates_upto(a, b, deep, n);
        assert forall|j: int| 0 <= j < m.len() implies in_source(a, #[trigger] m[j].0.path, m[j].0.rel_path) by {
            if j < r.len() {
                assert(m[j] == r[j]);
                assert(in_source(a, r[j].0.path, r[j].0.rel_path));
            } else {
                assert(m[j].0 == a[n - 1]);
                assert(a[n - 1].path == m[j].0.path && a[n - 1].rel_path == m[j].0.rel_path);
            }
        }
    }
}

proof fn lemma_hashed_sourced(
    sv: Seq<EntryView>,
    pairs: Seq<(EntryView, EntryView)>,
    checks: Seq<ContentCheck>,
    n: nat,
)
    requires
        n <= pairs.len(),
        n <= checks.len(),
        forall|j: int| 0 <= j < pairs.len() ==> in_source(sv, #[trigger] pairs[j].0.path, pairs[j].0.rel_path),
    ensures
        forall|j: int|
            0 <= j < hashed_upto(pairs, checks, n).len() ==> in_source(
                sv,
                #[trigger] hashed_upto(pairs, checks, n)[j].0.path,
                hashed_upto(pairs, checks, n)[j].0.rel_path,
            ),
    decreases n,
{
    if n > 0 {
        let r = hashed_upto(pairs, checks, (n - 1) as nat);
        lemma_hashed_sourced(sv, pairs, checks, (n - 1) as nat);
        let m = hashed_upto(pairs, checks, n);
        assert forall|j: int| 0 <= j < m.len() implies in_source(sv, #[trigger] m[j].0.path, m[j].0.rel_path) by {
            if j < r.len() {
                assert(m[j] == r[j]);
                assert(in_source(sv, r[j].0.path, r[j].0.rel_path));
            } else {
                let p = pairs[n - 1];
                assert(in_source(sv, p.0.path, p.0.rel_path));
                assert(m[j].0.path == p.0.path && m[j].0.rel_path == p.0.rel_path);
            }
        }
    }
}

/// Every copy that the tasks planned from a comparison perform reads a file of
/// the source tree and writes it under that file's own key: the destination's
/// version of a differing file is overwritten by the source's.
pub proof fn lemma_sync_copies_from_source(
    r: CompareResult,
    sv: Seq<EntryView>,
    dv: Seq<EntryView>,
    deep: bool,
    checks: Seq<ContentCheck>,
    delete_extra: bool,
)
    requires
        is_comparison_of(r, sv, dv, deep, checks),
        checks.len() == hash_candidates(sv, dv, deep).len(),
    ensures
        forall|i: int|
            0 <= i < sync_tasks(
                entries_view(r.missing_in_dest@),
                pairs_view(r.different_content@),
                entries_view(r.missing_in_source@),
                delete_extra,
            ).len() ==> match #[trigger] sync_tasks(
                entries_view(r.missing_in_dest@),
                pairs_view(r.different_content@),
                entries_view(r.missing_in_source@),
                delete_extra,
            )[i] {
                TaskView::Copy { from, rel_path } => in_source(sv, from, rel_path),
                _ => true,
            },
{
    let mid = entries_view(r.missing_in_dest@);
    let diff = pairs_view(r.different_content@);
    let mis = entries_view(r.missing_in_source@);
    let t = sync_tasks(mid, diff, mis, delete_extra);
    let fl = flagged_pairs(sv, dv, deep);
    let cands = hash_candidates(sv, dv, deep);
    let hd = hashed_diffs(cands, checks);
    lemma_missing_sourced(sv, dv, sv.len());
    lemma_flagged_sourced(sv, dv, deep, sv.len());
    lemma_candidates_sourced(sv, dv, deep, sv.len());
    lemma_hashed_sourced(sv, cands, checks, cands.len());
    let na = mid.len() as int;
    let nb = diff.len() as int;
    assert forall|i: int| 0 <= i < t.len() implies match #[trigger] t[i] {
        TaskView::Copy { from, rel_path } => in_source(sv, from, rel_path),
        _ => true,
    } by {
        if i < na {
            assert(in_source(sv, mid[i].path, mid[i].rel_path));
        } else if i < na + nb {
            let j = i - na;
            assert(diff == fl + hd);
            if j < fl.len() {
                assert(diff[j] == fl[j]);
                assert(in_source(sv, fl[j].0.path, fl[j].0.rel_path));
            } else {
                assert(diff[j] == hd[j - fl.len()]);
                assert(in_source(sv, hd[j - fl.len()].0.path, hd[j - fl.len()].0.rel_path));
            }
        }
    }
}

} // verus!
