use std::collections::BTreeMap;

use folder_compare::compare::{
    check_full, check_partial, finish_comparison, judge_contents, plan_comparison, ContentCheck,
};
use folder_compare::entry::{CompareResult, FileEntry, ScanStatus};
use folder_compare::hashing::{
    calculate_hash, calculate_partial_hash, partial_hash_of_content, tail_offset, to_hex,
};
use folder_compare::progress::{hashing_status, progress_marks, should_report, syncing_status};
use folder_compare::sync::{plan_sync, SyncTask};

fn entry(root: &str, key: &str, size: u64, modified: u64) -> FileEntry {
    FileEntry::new(format!("{}/{}", root, key), key.to_string(), size, modified)
}

fn keys(v: &[FileEntry]) -> Vec<String> {
    let mut k: Vec<String> = v.iter().map(|e| e.rel_path.clone()).collect();
    k.sort();
    k
}

fn pair_keys(v: &[(FileEntry, FileEntry)]) -> Vec<String> {
    let mut k: Vec<String> = v.iter().map(|p| p.0.rel_path.clone()).collect();
    k.sort();
    k
}

/// Runs a comparison where file contents are given in memory, judging each
/// hash candidate with the two-stage funnel.
fn compare_contents(
    source: &[(&str, &[u8], u64)],
    dest: &[(&str, &[u8], u64)],
    deep: bool,
) -> (CompareResult, usize) {
    let content = |side: &[(&str, &[u8], u64)], key: &str| -> Vec<u8> {
        side.iter().find(|e| e.0 == key).unwrap().1.to_vec()
    };
    let s: Vec<FileEntry> =
        source.iter().map(|(k, c, m)| entry("/src", k, c.len() as u64, *m)).collect();
    let d: Vec<FileEntry> =
        dest.iter().map(|(k, c, m)| entry("/dst", k, c.len() as u64, *m)).collect();
    let plan = plan_comparison(&s, &d, deep);
    let hashed = plan.to_hash.len();
    let mut checks = Vec::new();
    for (a, b) in &plan.to_hash {
        let ca = content(source, &a.rel_path);
        let cb = content(dest, &b.rel_path);
        checks.push(judge_contents(&ca, &cb));
    }
    (finish_comparison(plan, &checks), hashed)
}

#[test]
fn one_sided_keys_are_missing_on_the_other_side() {
    let (r, _) = compare_contents(
        &[("a.txt", b"one", 1), ("c.txt", b"same", 1)],
        &[("b.txt", b"two", 1), ("c.txt", b"same", 1)],
        true,
    );
    assert_eq!(keys(&r.missing_in_dest), vec!["a.txt".to_string()]);
    assert_eq!(keys(&r.missing_in_source), vec!["b.txt".to_string()]);
    assert!(r.different_content.is_empty());
}

#[test]
fn equal_content_is_not_reported() {
    let (r, hashed) = compare_contents(&[("x", b"hello", 1)], &[("x", b"hello", 99)], true);
    assert_eq!(hashed, 1);
    assert!(r.different_content.is_empty());
    assert!(r.missing_in_dest.is_empty());
    assert!(r.missing_in_source.is_empty());
}

#[test]
fn size_mismatch_is_reported_without_hashing() {
    let s = vec![entry("/src", "big", 10, 5)];
    let d = vec![entry("/dst", "big", 11, 5)];
    let plan = plan_comparison(&s, &d, true);
    assert!(plan.to_hash.is_empty());
    assert_eq!(pair_keys(&plan.different_content), vec!["big".to_string()]);
    let r = finish_comparison(plan, &Vec::new());
    assert_eq!(r.different_content.len(), 1);
    assert_eq!(r.different_content[0].0.size, 10);
    assert_eq!(r.different_content[0].1.size, 11);
    assert!(r.different_content[0].0.hash.is_none());
}

#[test]
fn shallow_mode_uses_modification_time() {
    let s = vec![entry("/src", "same", 4, 7), entry("/src", "touched", 4, 7)];
    let d = vec![entry("/dst", "same", 4, 7), entry("/dst", "touched", 4, 8)];
    let plan = plan_comparison(&s, &d, false);
    assert!(plan.to_hash.is_empty());
    assert_eq!(pair_keys(&plan.different_content), vec!["touched".to_string()]);
}

#[test]
fn deep_mode_ignores_modification_time() {
    let s = vec![entry("/src", "f", 4, 7)];
    let d = vec![entry("/dst", "f", 4, 8)];
    let plan = plan_comparison(&s, &d, true);
    assert!(plan.different_content.is_empty());
    assert_eq!(plan.to_hash.len(), 1);
}

#[test]
fn middle_difference_passes_partial_and_fails_full() {
    let len = 40 * 1024;
    let a: Vec<u8> = (0..len).map(|i| (i % 251) as u8).collect();
    let mut b = a.clone();
    b[20 * 1024] ^= 0xff;
    assert_eq!(a[..16384], b[..16384]);
    assert_eq!(a[len - 16384..], b[len - 16384..]);
    let pa = partial_hash_of_content(&a);
    let pb = partial_hash_of_content(&b);
    assert_eq!(pa, pb);
    let ha = calculate_hash(&a);
    let hb = calculate_hash(&b);
    assert_ne!(ha, hb);
    assert!(check_partial(&Some(pa), &Some(pb)).is_none());
    let c = check_full(Some(ha.clone()), Some(hb.clone()));
    assert!(matches!(&c, ContentCheck::FullDiffer { src_hash, dest_hash } if *src_hash == ha && *dest_hash == hb));

    let (r, hashed) = compare_contents(&[("m", &a, 1)], &[("m", &b, 1)], true);
    assert_eq!(hashed, 1);
    assert_eq!(r.different_content.len(), 1);
    assert_eq!(r.different_content[0].0.hash, Some(ha));
    assert_eq!(r.different_content[0].1.hash, Some(hb));
}

#[test]
fn judge_contents_follows_the_funnel() {
    let big: Vec<u8> = (0..40960u32).map(|i| (i % 200) as u8).collect();
    assert!(matches!(judge_contents(&big, &big.clone()), ContentCheck::Same));
    assert!(matches!(judge_contents(b"", b""), ContentCheck::Same));
    let mut head_changed = big.clone();
    head_changed[0] = 255;
    assert!(matches!(judge_contents(&big, &head_changed), ContentCheck::PartialDiffer));
    let mut middle_changed = big.clone();
    middle_changed[20000] = 255;
    match judge_contents(&big, &middle_changed) {
        ContentCheck::FullDiffer { src_hash, dest_hash } => {
            assert_eq!(src_hash, calculate_hash(&big));
            assert_eq!(dest_hash, calculate_hash(&middle_changed));
        }
        other => panic!("unexpected verdict {:?}", other),
    }
}

#[test]
fn partial_difference_reports_without_hashes() {
    let (r, _) = compare_contents(&[("p", b"abcd", 1)], &[("p", b"abce", 1)], true);
    assert_eq!(r.different_content.len(), 1);
    assert!(r.different_content[0].0.hash.is_none());
    assert!(r.different_content[0].1.hash.is_none());
}

#[test]
fn partial_hash_from_reads_matches_whole_content() {
    let big: Vec<u8> = (0..50000u32).map(|i| (i * 7 % 256) as u8).collect();
    let off = tail_offset(big.len() as u64).unwrap() as usize;
    assert_eq!(off, 50000 - 16384);
    let from_reads = calculate_partial_hash(big.len() as u64, &big[..16384], &big[off..]);
    assert_eq!(from_reads, partial_hash_of_content(&big));

    let small: Vec<u8> = (0..20000u32).map(|i| (i % 13) as u8).collect();
    assert_eq!(tail_offset(small.len() as u64), None);
    let from_head = calculate_partial_hash(small.len() as u64, &small[..16384], &[1, 2, 3]);
    assert_eq!(from_head, partial_hash_of_content(&small));
    assert_eq!(from_head, *blake3::hash(&small[..16384]).as_bytes());
}

#[test]
fn tail_offset_boundaries() {
    assert_eq!(tail_offset(32768), None);
    assert_eq!(tail_offset(32769), Some(16385));
    assert_eq!(tail_offset(40960), Some(24576));
    assert_eq!(tail_offset(0), None);
}

#[test]
fn full_hash_is_lowercase_hex_blake3() {
    assert_eq!(
        calculate_hash(b""),
        "af1349b9f5f9a1a6a0404dea36dcc9499bcb25c9adc112b7cc9a93cae41f3262"
    );
    let h = calculate_hash(b"abc");
    assert_eq!(h, blake3::hash(b"abc").to_hex().to_string());
    assert_eq!(h.len(), 64);
    assert_ne!(h, calculate_hash(b"abd"));
}

#[test]
fn hex_encoding_of_digest() {
    let mut d = [0u8; 32];
    d[0] = 0x00;
    d[1] = 0xff;
    d[2] = 0x1a;
    d[31] = 0xb7;
    let h = to_hex(&d);
    assert_eq!(&h[..6], "00ff1a");
    assert_eq!(&h[62..], "b7");
    assert_eq!(h.len(), 64);
}

#[test]
fn unreadable_pair_is_dropped() {
    assert!(matches!(check_partial(&None, &Some([0u8; 32])), Some(ContentCheck::Unreadable)));
    assert!(matches!(check_partial(&Some([1u8; 32]), &None), Some(ContentCheck::Unreadable)));
    assert!(matches!(check_partial(&Some([1u8; 32]), &Some([2u8; 32])), Some(ContentCheck::PartialDiffer)));
    assert!(matches!(check_full(None, Some("x".to_string())), ContentCheck::Unreadable));
    assert!(matches!(check_full(Some("x".to_string()), Some("x".to_string())), ContentCheck::Same));
    let s = vec![entry("/src", "u", 3, 1)];
    let d = vec![entry("/dst", "u", 3, 1)];
    let plan = plan_comparison(&s, &d, true);
    let r = finish_comparison(plan, &vec![ContentCheck::Unreadable]);
    assert!(r.different_content.is_empty());
    assert!(r.missing_in_dest.is_empty());
    assert!(r.missing_in_source.is_empty());
}

#[test]
fn repeated_comparison_gives_same_membership() {
    let source: &[(&str, &[u8], u64)] =
        &[("a", b"1", 1), ("b", b"22", 1), ("c", b"33", 1), ("d", b"4444", 1)];
    let dest: &[(&str, &[u8], u64)] = &[("b", b"22", 1), ("c", b"34", 1), ("d", b"44", 1), ("e", b"5", 1)];
    let (r1, _) = compare_contents(source, dest, true);
    let (r2, _) = compare_contents(source, dest, true);
    assert_eq!(keys(&r1.missing_in_dest), keys(&r2.missing_in_dest));
    assert_eq!(keys(&r1.missing_in_source), keys(&r2.missing_in_source));
    assert_eq!(pair_keys(&r1.different_content), pair_keys(&r2.different_content));
    assert_eq!(keys(&r1.missing_in_dest), vec!["a".to_string()]);
    assert_eq!(keys(&r1.missing_in_source), vec!["e".to_string()]);
    assert_eq!(pair_keys(&r1.different_content), vec!["c".to_string(), "d".to_string()]);
}

/// Applies sync tasks to a destination modelled as key -> content.
fn apply(
    dest: &mut BTreeMap<String, String>,
    tasks: &[SyncTask],
    source_content: &BTreeMap<String, String>,
) {
    for t in tasks {
        if let SyncTask::Copy { from, rel_path } = t {
            dest.insert(rel_path.clone(), source_content[from].clone());
        }
    }
    for t in tasks {
        if let SyncTask::Delete { rel_path, .. } = t {
            dest.remove(rel_path);
        }
    }
}

#[test]
fn sync_mirrors_source_with_and_without_deletion() {
    let source: &[(&str, &[u8], u64)] = &[("A", b"a", 1), ("C", b"v2", 1)];
    let dest: &[(&str, &[u8], u64)] = &[("B", b"b", 1), ("C", b"v1", 1)];
    let (r, _) = compare_contents(source, dest, true);
    assert_eq!(pair_keys(&r.different_content), vec!["C".to_string()]);

    let mut src_content = BTreeMap::new();
    src_content.insert("/src/A".to_string(), "a".to_string());
    src_content.insert("/src/C".to_string(), "v2".to_string());
    let start: BTreeMap<String, String> =
        [("B", "b"), ("C", "v1")].iter().map(|(k, v)| (k.to_string(), v.to_string())).collect();

    let keep = plan_sync(&r, false);
    assert_eq!(keep.len(), 2);
    let mut d1 = start.clone();
    apply(&mut d1, &keep, &src_content);
    let want1: BTreeMap<String, String> = [("A", "a"), ("B", "b"), ("C", "v2")]
        .iter()
        .map(|(k, v)| (k.to_string(), v.to_string()))
        .collect();
    assert_eq!(d1, want1);

    let mirror = plan_sync(&r, true);
    assert_eq!(mirror.len(), 3);
    assert!(matches!(&mirror[2], SyncTask::Delete { path, rel_path } if path == "/dst/B" && rel_path == "B"));
    let mut d2 = start.clone();
    apply(&mut d2, &mirror, &src_content);
    let want2: BTreeMap<String, String> =
        [("A", "a"), ("C", "v2")].iter().map(|(k, v)| (k.to_string(), v.to_string())).collect();
    assert_eq!(d2, want2);
}

#[test]
fn sync_plan_of_empty_result_is_empty() {
    assert!(plan_sync(&CompareResult::empty(), true).is_empty());
}

#[test]
fn progress_marks_rise_and_end_at_total() {
    assert_eq!(progress_marks(120, 50), vec![50, 100, 120]);
    assert_eq!(progress_marks(20, 10), vec![10, 20]);
    assert_eq!(progress_marks(3, 10), vec![3]);
    assert!(progress_marks(0, 10).is_empty());
    let m = progress_marks(1000, 7);
    assert!(m.windows(2).all(|w| w[0] < w[1]));
    assert_eq!(*m.last().unwrap(), 1000);
}

#[test]
fn progress_events_are_coarse() {
    assert!(should_report(50, 120, 50));
    assert!(!should_report(51, 120, 50));
    assert!(should_report(120, 120, 50));
    assert!(matches!(hashing_status(100, 120), Some(ScanStatus::Hashing(100, 120))));
    assert!(hashing_status(101, 120).is_none());
    assert!(matches!(hashing_status(120, 120), Some(ScanStatus::Hashing(120, 120))));
    assert!(matches!(syncing_status(10, 13), Some(ScanStatus::Syncing(10, 13))));
    assert!(syncing_status(11, 13).is_none());
    assert!(matches!(syncing_status(13, 13), Some(ScanStatus::Syncing(13, 13))));
}
