//! Coarse progress reporting: a counter of finished items is reported every
//! so many items and on the last one.

use vstd::prelude::*;
use crate::entry::ScanStatus;

verus! {

/// Hashing progress is reported every this many pairs.
pub const HASH_REPORT_EVERY: usize = 50;

/// Synchronisation progress is reported every this many tasks.
pub const SYNC_REPORT_EVERY: usize = 10;

/// Whether the count `c` out of `total` is reported.
pub open spec fn reported_at(c: int, total: int, every: int) -> bool {
    c % every == 0 || c == total
}

/// Whether the count `current` out of `total` is reported.
pub fn should_report(current: usize, total: usize, every: usize) -> (r: bool)
    requires
        every > 0,
    ensures
        r == reported_at(current as int, total as int, every as int),
{
    current % every == 0 || current == total
}

/// The event for `current` pairs hashed out of `total`, if that count is reported.
pub fn hashing_status(current: usize, total: usize) -> (r: Option<ScanStatus>)
    ensures
        reported_at(current as int, total as int, HASH_REPORT_EVERY as int) ==> r == Some(
            ScanStatus::Hashing(current, total),
        ),
        !reported_at(current as int, total as int, HASH_REPORT_EVERY as int) ==> r.is_none(),
{
    if should_report(current, total, HASH_REPORT_EVERY) {
        Some(ScanStatus::Hashing(current, total))
    } else {
        None
    }
}

/// The event for `current` tasks done out of `total`, if that count is reported.
pub fn syncing_status(current: usize, total: usize) -> (r: Option<ScanStatus>)
    ensures
        reported_at(current as int, total as int, SYNC_REPORT_EVERY as int) ==> r == Some(
            ScanStatus::Syncing(current, total),
        ),
        !reported_at(current as int, total as int, SYNC_REPORT_EVERY as int) ==> r.is_none(),
{
    if should_report(current, total, SYNC_REPORT_EVERY) {
        Some(ScanStatus::Syncing(current, total))
    } else {
        None
    }
}

/// The counts reported while `total` items finish one after another: they
/// rise strictly, are exactly the reported counts from 1 to `total`, and the
/// last of them is `total` itself.
pub fn progress_marks(total: usize, every: usize) -> (r: Vec<usize>)
    requires
        every > 0,
    ensures
        forall|i: int, j: int| 0 <= i < j < r@.len() ==> r@[i] < r@[j],
        forall|i: int|
            0 <= i < r@.len() ==> 1 <= r@[i] <= total && reported_at(r@[i] as int, total as int, every as int),
        forall|c: int|
            1 <= c <= total && reported_at(c, total as int, every as int) ==> r@.contains(c as usize),
        total == 0 <==> r@.len() == 0,
        total > 0 ==> r@.last() == total,
{
    let mut marks: Vec<usize> = Vec::new();
    let mut c: usize = 0;
    while c < total
        invariant
            0 <= c <= total,
            every > 0,
            forall|i: int, j: int| 0 <= i < j < marks@.len() ==> marks@[i] < marks@[j],
            forall|i: int|
                0 <= i < marks@.len() ==> 1 <= marks@[i] <= c && reported_at(
                    marks@[i] as int,
                    total as int,
                    every as int,
                ),
            forall|d: int|
                1 <= d <= c && reported_at(d, total as int, every as int) ==> marks@.contains(d as usize),
            c > 0 && reported_at(c as int, total as int, every as int) ==> marks@.len() > 0
                && marks@.last() == c,
            c == 0 ==> marks@.len() == 0,
        decreases total - c,
    {
        c = c + 1;
        if should_report(c, total, every) {
            let ghost before = marks@;
            marks.push(c);
            proof {
                assert forall|d: int|
                    1 <= d <= c && reported_at(d, total as int, every as int) implies marks@.contains(
                    d as usize,
                ) by {
                    if d < c {
                        let k = choose|k: int| 0 <= k < before.len() && before[k] == d as usize;
                        assert(marks@[k] == d as usize);
                    } else {
                        assert(marks@[before.len() as int] == c);
                    }
                }
            }
        }
    }
    marks
}

} // verus!
