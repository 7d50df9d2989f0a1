//! The comparator: partitions two snapshots by relative key, flags pairs whose
//! metadata already tells them apart, and decides the remaining pairs from
//! their partial and full content hashes.

use vstd::prelude::*;
use crate::entry::{
    FileEntry, EntryView, CompareResult, entries_view, pairs_view,
};
use crate::hashing::{
    blake3_of, hex_of, partial_region, partial_hash_of_content, calculate_hash,
};

verus! {

/// The first entry of `b` whose relative key is `k`.
pub open spec fn lookup(b: Seq<EntryView>, k: Seq<char>) -> Option<EntryView>
    decreases b.len(),
{
    if b.len() == 0 {
        None
    } else if b[0].rel_path == k {
        Some(b[0])
    } else {
        lookup(b.skip(1), k)
    }
}

/// Entries among the first `n` of `a` whose key does not occur in `b`.
pub open spec fn missing_upto(a: Seq<EntryView>, b: Seq<EntryView>, n: nat) -> Seq<EntryView>
    decreases n,
{
    if n == 0 || n > a.len() {
        Seq::empty()
    } else {
        let r = missing_upto(a, b, (n - 1) as nat);
        if lookup(b, a[n - 1].rel_path).is_none() {
            r.push(a[n - 1])
        } else {
            r
        }
    }
}

/// Entries of `a` whose key does not occur in `b`, in the order of `a`.
pub open spec fn missing_from(a: Seq<EntryView>, b: Seq<EntryView>) -> Seq<EntryView> {
    missing_upto(a, b, a.len())
}

/// A pair sharing a key is judged different from its metadata alone: sizes
/// differ, or, without a content check, modification times differ.
pub open spec fn flagged(e: EntryView, d: EntryView, deep: bool) -> bool {
    e.size != d.size || (!deep && e.modified != d.modified)
}

/// Pairs among the first `n` keys of `a` that metadata marks as different.
pub open spec fn flagged_upto(a: Seq<EntryView>, b: Seq<EntryView>, deep: bool, n: nat) -> Seq<(EntryView, EntryView)>
    decreases n,
{
    if n == 0 || n > a.len() {
        Seq::empty()
    } else {
        let r = flagged_upto(a, b, deep, (n - 1) as nat);
        let e = a[n - 1];
        match lookup(b, e.rel_path) {
            Some(d) => if flagged(e, d, deep) { r.push((e, d)) } else { r },
            None => r,
        }
    }
}

/// Pairs of `a` and `b` sharing a key that metadata marks as different.
pub open spec fn flagged_pairs(a: Seq<EntryView>, b: Seq<EntryView>, deep: bool) -> Seq<(EntryView, EntryView)> {
    flagged_upto(a, b, deep, a.len())
}

/// Pairs among the first `n` keys of `a` that need their content hashed:
/// a content check was asked for and the sizes agree.
pub open spec fn candidates_upto(a: Seq<EntryView>, b: Seq<EntryView>, deep: bool, n: nat) -> Seq<(EntryView, EntryView)>
    decreases n,
{
    if n == 0 || n > a.len() {
        Seq::empty()
    } else {
        let r = candidates_upto(a, b, deep, (n - 1) as nat);
        let e = a[n - 1];
        match lookup(b, e.rel_path) {
            Some(d) => if deep && e.size == d.size { r.push((e, d)) } else { r },
            None => r,
        }
    }
}

/// Pairs of `a` and `b` sharing a key whose content is to be hashed.
pub open spec fn hash_candidates(a: Seq<EntryView>, b: Seq<EntryView>, deep: bool) -> Seq<(EntryView, EntryView)> {
    candidates_upto(a, b, deep, a.len())
}

proof fn lemma_lookup_at(b: Seq<EntryView>, k: Seq<char>, j: int)
    requires
        0 <= j <= b.len(),
        forall|t: int| 0 <= t < j ==> b[t].rel_path != k,
    ensures
        j < b.len() && b[j].rel_path == k ==> lookup(b, k) == Some(b[j]),
        j == b.len() ==> lookup(b, k).is_none(),
    decreases j,
{
    if j > 0 {
        let c = b.skip(1);
        assert forall|t: int| 0 <= t < j - 1 implies c[t].rel_path != k by {
            assert(c[t] == b[t + 1]);
        }
        lemma_lookup_at(c, k, j - 1);
    }
}

/// What `lookup` finds carries the key and stands in the sequence; it finds
/// nothing only where no entry has the key.
pub proof fn lemma_lookup(b: Seq<EntryView>, k: Seq<char>)
    ensures
        match lookup(b, k) {
            Some(d) => d.rel_path == k && exists|i: int| 0 <= i < b.len() && b[i] == d,
            None => forall|i: int| 0 <= i < b.len() ==> b[i].rel_path != k,
        },
    decreases b.len(),
{
    if b.len() > 0 {
        if b[0].rel_path == k {
            assert(b[0] == b[0]);
        } else {
            let c = b.skip(1);
            lemma_lookup(c, k);
            match lookup(c, k) {
                Some(d) => {
                    let i = choose|i: int| 0 <= i < c.len() && c[i] == d;
                    assert(b[i + 1] == d);
                },
                None => {
                    assert forall|i: int| 0 <= i < b.len() implies b[i].rel_path != k by {
                        if i > 0 {
                            assert(b[i] == c[i - 1]);
                        }
                    }
                },
            }
        }
    }
}

/// Index of the first entry of `b` whose relative key is `k`.
fn find_key(b: &Vec<FileEntry>, k: &String) -> (r: Option<usize>)
    ensures
        match r {
            Some(j) => j < b@.len() && lookup(entries_view(b@), k@) == Some(b@[j as int]@),
            None => lookup(entries_view(b@), k@).is_none(),
        },
{
    let ghost bv = entries_view(b@);
    let mut j: usize = 0;
    while j < b.len()
        invariant
            bv == entries_view(b@),
            0 <= j <= b@.len(),
            forall|t: int| 0 <= t < j ==> bv[t].rel_path != k@,
        decreases b@.len() - j,
    {
        if b[j].rel_path == *k {
            proof {
                lemma_lookup_at(bv, k@, j as int);
            }
            return Some(j);
        }
        j = j + 1;
    }
    proof {
        lemma_lookup_at(bv, k@, j as int);
    }
    None
}

proof fn lemma_push_entry(v: Seq<FileEntry>, x: FileEntry)
    ensures
        entries_view(v.push(x)) == entries_view(v).push(x@),
{
    assert(entries_view(v.push(x)) =~= entries_view(v).push(x@));
}

proof fn lemma_push_pair(v: Seq<(FileEntry, FileEntry)>, x: (FileEntry, FileEntry))
    ensures
        pairs_view(v.push(x)) == pairs_view(v).push((x.0@, x.1@)),
{
    assert(pairs_view(v.push(x)) =~= pairs_view(v).push((x.0@, x.1@)));
}

/// Entries of `a` whose key does not occur in `b`.
fn collect_missing(a: &Vec<FileEntry>, b: &Vec<FileEntry>) -> (r: Vec<FileEntry>)
    ensures
        entries_view(r@) == missing_from(entries_view(a@), entries_view(b@)),
{
    let ghost av = entries_view(a@);
    let ghost bv = entries_view(b@);
    let mut out: Vec<FileEntry> = Vec::new();
    let mut i: usize = 0;
    while i < a.len()
        invariant
            av == entries_view(a@),
            bv == entries_view(b@),
            0 <= i <= a@.len(),
            entries_view(out@) == missing_upto(av, bv, i as nat),
        decreases a@.len() - i,
    {
        let e = &a[i];
        if find_key(b, &e.rel_path).is_none() {
            let c = e.duplicate();
            proof {
                lemma_push_entry(out@, c);
            }
            out.push(c);
        }
        i = i + 1;
    }
    out
}

/// The first pass of a comparison: everything that metadata alone decides,
/// and the pairs whose content must still be hashed.
pub struct ComparePlan {
    pub missing_in_dest: Vec<FileEntry>,
    pub missing_in_source: Vec<FileEntry>,
    pub different_content: Vec<(FileEntry, FileEntry)>,
    pub to_hash: Vec<(FileEntry, FileEntry)>,
}

/// Partitions two snapshots by relative key. Pairs sharing a key go to
/// `different_content` when their sizes differ (or, without a content check,
/// their modification times); with a content check, the pairs of equal size
/// go to `to_hash`, and no other pair does.
pub fn plan_comparison(source: &Vec<FileEntry>, dest: &Vec<FileEntry>, check_content: bool) -> (r: ComparePlan)
    ensures
        entries_view(r.missing_in_dest@) == missing_from(entries_view(source@), entries_view(dest@)),
        entries_view(r.missing_in_source@) == missing_from(entries_view(dest@), entries_view(source@)),
        pairs_view(r.different_content@) == flagged_pairs(entries_view(source@), entries_view(dest@), check_content),
        pairs_view(r.to_hash@) == hash_candidates(entries_view(source@), entries_view(dest@), check_content),
{
    let ghost sv = entries_view(source@);
    let ghost dv = entries_view(dest@);
    let mut diff: Vec<(FileEntry, FileEntry)> = Vec::new();
    let mut to_hash: Vec<(FileEntry, FileEntry)> = Vec::new();
    let mut i: usize = 0;
    while i < source.len()
        invariant
            sv == entries_view(source@),
            dv == entries_view(dest@),
            0 <= i <= source@.len(),
            pairs_view(diff@) == flagged_upto(sv, dv, check_content, i as nat),
            pairs_view(to_hash@) == candidates_upto(sv, dv, check_content, i as nat),
        decreases source@.len() - i,
    {
        let e = &source[i];
        match find_key(dest, &e.rel_path) {
            Some(j) => {
                let d = &dest[j];
                if e.size != d.size || (!check_content && e.modified != d.modified) {
                    let p = (e.duplicate(), d.duplicate());
                    proof {
                        lemma_push_pair(diff@, p);
                    }
                    diff.push(p);
                } else if check_content {
                    let p = (e.duplicate(), d.duplicate());
                    proof {
                        lemma_push_pair(to_hash@, p);
                    }
                    to_hash.push(p);
                }
            },
            None => {},
        }
        i = i + 1;
    }
    let missing_in_dest = collect_missing(source, dest);
    let missing_in_source = collect_missing(dest, source);
    ComparePlan { missing_in_dest, missing_in_source, different_content: diff, to_hash }
}

/// How the content of one same-size pair was judged.
#[derive(Debug, Clone)]
pub enum ContentCheck {
    /// Partial and full hashes agree: the pair is equal.
    Same,
    /// One side could not be read: the pair is left out of the result.
    Unreadable,
    /// Partial hashes differ.
    PartialDiffer,
    /// Partial hashes agree but full hashes differ.
    FullDiffer { src_hash: String, dest_hash: String },
}

fn digests_equal(a: &[u8; 32], b: &[u8; 32]) -> (r: bool)
    ensures
        r == (a@ == b@),
{
    let mut i: usize = 0;
    while i < 32
        invariant
            0 <= i <= 32,
            a@.len() == 32,
            b@.len() == 32,
            forall|t: int| 0 <= t < i ==> a@[t] == b@[t],
        decreases 32 - i,
    {
        if a[i] != b[i] {
            return false;
        }
        i = i + 1;
    }
    assert(a@ =~= b@);
    true
}

/// First stage of the content funnel, from the partial hashes of both sides
/// (`None` where a side could not be read). Returns the verdict where it is
/// already settled, and `None` where the full hashes must decide.
pub fn check_partial(src: &Option<[u8; 32]>, dest: &Option<[u8; 32]>) -> (r: Option<ContentCheck>)
    ensures
        match (*src, *dest) {
            (Some(a), Some(b)) => if a@ == b@ {
                r.is_none()
            } else {
                r == Some(ContentCheck::PartialDiffer)
            },
            _ => r == Some(ContentCheck::Unreadable),
        },
{
    match (src, dest) {
        (Some(a), Some(b)) => {
            if digests_equal(a, b) {
                None
            } else {
                Some(ContentCheck::PartialDiffer)
            }
        },
        _ => Some(ContentCheck::Unreadable),
    }
}

/// Second stage of the content funnel, from the full hashes of both sides
/// (`None` where a side could not be read).
pub fn check_full(src: Option<String>, dest: Option<String>) -> (r: ContentCheck)
    ensures
        match (src, dest) {
            (Some(a), Some(b)) => if a@ == b@ {
                r == ContentCheck::Same
            } else {
                r matches ContentCheck::FullDiffer { src_hash, dest_hash }
                    && src_hash@ == a@ && dest_hash@ == b@
            },
            _ => r == ContentCheck::Unreadable,
        },
{
    match (src, dest) {
        (Some(a), Some(b)) => {
            if a == b {
                ContentCheck::Same
            } else {
                ContentCheck::FullDiffer { src_hash: a, dest_hash: b }
            }
        },
        _ => ContentCheck::Unreadable,
    }
}

/// Both stages of the content funnel on two contents held in memory: the
/// full hashes are computed only where the partial hashes agree. Identical
/// contents are judged `Same`.
pub fn judge_contents(src: &[u8], dest: &[u8]) -> (r: ContentCheck)
    ensures
        blake3_of(partial_region(src@)) != blake3_of(partial_region(dest@)) ==> r
            == ContentCheck::PartialDiffer,
        blake3_of(partial_region(src@)) == blake3_of(partial_region(dest@)) ==> if hex_of(blake3_of(src@))
            == hex_of(blake3_of(dest@)) {
            r == ContentCheck::Same
        } else {
            r matches ContentCheck::FullDiffer { src_hash, dest_hash } && src_hash@ == hex_of(
                blake3_of(src@),
            ) && dest_hash@ == hex_of(blake3_of(dest@))
        },
        src@ == dest@ ==> r == ContentCheck::Same,
{
    let sp = Some(partial_hash_of_content(src));
    let dp = Some(partial_hash_of_content(dest));
    match check_partial(&sp, &dp) {
        Some(c) => c,
        None => check_full(Some(calculate_hash(src)), Some(calculate_hash(dest))),
    }
}

/// The pair reported for a candidate judged by `c`, if any: a partial
/// mismatch reports the pair as it is, a full mismatch reports it with both
/// full hashes attached.
pub open spec fn reported_pair(p: (EntryView, EntryView), c: ContentCheck) -> Option<(EntryView, EntryView)> {
    match c {
        ContentCheck::PartialDiffer => Some(p),
        ContentCheck::FullDiffer { src_hash, dest_hash } => Some(
            (EntryView { hash: Some(src_hash@), ..p.0 }, EntryView { hash: Some(dest_hash@), ..p.1 }),
        ),
        _ => None,
    }
}

/// Pairs reported for the first `n` candidates, given their verdicts.
pub open spec fn hashed_upto(pairs: Seq<(EntryView, EntryView)>, checks: Seq<ContentCheck>, n: nat) -> Seq<(EntryView, EntryView)>
    decreases n,
{
    if n == 0 || n > pairs.len() || n > checks.len() {
        Seq::empty()
    } else {
        let r = hashed_upto(pairs, checks, (n - 1) as nat);
        match reported_pair(pairs[n - 1], checks[n - 1]) {
            Some(q) => r.push(q),
            None => r,
        }
    }
}

/// Pairs reported for the hashed candidates, given their verdicts.
pub open spec fn hashed_diffs(pairs: Seq<(EntryView, EntryView)>, checks: Seq<ContentCheck>) -> Seq<(EntryView, EntryView)> {
    hashed_upto(pairs, checks, pairs.len())
}

/// Completes a comparison from its plan and the verdict on each pair of
/// `plan.to_hash`, in the same order: the pairs that the content check found
/// different are appended to those that metadata already told apart.
pub fn finish_comparison(plan: ComparePlan, checks: &Vec<ContentCheck>) -> (r: CompareResult)
    requires
        checks@.len() == plan.to_hash@.len(),
    ensures
        entries_view(r.missing_in_dest@) == entries_view(plan.missing_in_dest@),
        entries_view(r.missing_in_source@) == entries_view(plan.missing_in_source@),
        pairs_view(r.different_content@) == pairs_view(plan.different_content@)
            + hashed_diffs(pairs_view(plan.to_hash@), checks@),
{
    let ComparePlan { missing_in_dest, missing_in_source, different_content, to_hash } = plan;
    let ghost start = pairs_view(different_content@);
    let ghost tv = pairs_view(to_hash@);
    let mut diff = different_content;
    let mut i: usize = 0;
    while i < to_hash.len()
        invariant
            tv == pairs_view(to_hash@),
            checks@.len() == to_hash@.len(),
            0 <= i <= to_hash@.len(),
            pairs_view(diff@) == start + hashed_upto(tv, checks@, i as nat),
        decreases to_hash@.len() - i,
    {
        let p = &to_hash[i];
        match &checks[i] {
            ContentCheck::PartialDiffer => {
                let q = (p.0.duplicate(), p.1.duplicate());
                proof {
                    lemma_push_pair(diff@, q);
                }
                diff.push(q);
            },
            ContentCheck::FullDiffer { src_hash, dest_hash } => {
                let q = (p.0.with_hash(src_hash.clone()), p.1.with_hash(dest_hash.clone()));
                proof {
                    lemma_push_pair(diff@, q);
                }
                diff.push(q);
            },
            _ => {},
        }
        proof {
            assert(tv[i as int] == (to_hash@[i as int].0@, to_hash@[i as int].1@));
        }
        i = i + 1;
    }
    CompareResult { missing_in_dest, missing_in_source, different_content: diff }
}

} // verus!
