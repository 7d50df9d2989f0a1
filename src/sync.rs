//! Turns a comparison result into the tasks that make the destination mirror
//! the source.

use vstd::prelude::*;
use crate::entry::{FileEntry, EntryView, CompareResult, entries_view, pairs_view};

verus! {

/// One unit of synchronisation work.
#[derive(Debug, Clone)]
pub enum SyncTask {
    /// Copy the source file at `from` to `rel_path` under the destination root.
    Copy { from: String, rel_path: String },
    /// Remove the destination file at `path`, whose key is `rel_path`.
    Delete { path: String, rel_path: String },
}

/// Mathematical value of a `SyncTask`.
pub ghost enum TaskView {
    Copy { from: Seq<char>, rel_path: Seq<char> },
    Delete { path: Seq<char>, rel_path: Seq<char> },
}

impl View for SyncTask {
    type V = TaskView;

    open spec fn view(&self) -> TaskView {
        match self {
            SyncTask::Copy { from, rel_path } => TaskView::Copy { from: from@, rel_path: rel_path@ },
            SyncTask::Delete { path, rel_path } => TaskView::Delete { path: path@, rel_path: rel_path@ },
        }
    }
}

/// Mathematical value of a sequence of tasks.
pub open spec fn tasks_view(s: Seq<SyncTask>) -> Seq<TaskView> {
    s.map_values(|t: SyncTask| t@)
}

/// The copy that brings a missing entry over.
pub open spec fn copy_of(e: EntryView) -> TaskView {
    TaskView::Copy { from: e.path, rel_path: e.rel_path }
}

/// The copy that overwrites the destination side of a differing pair.
pub open spec fn update_of(p: (EntryView, EntryView)) -> TaskView {
    TaskView::Copy { from: p.0.path, rel_path: p.0.rel_path }
}

/// The removal of an entry that the source lacks.
pub open spec fn delete_of(e: EntryView) -> TaskView {
    TaskView::Delete { path: e.path, rel_path: e.rel_path }
}

/// The tasks for a result: a copy for each entry missing in the destination,
/// then a copy of the source side of each differing pair, then, when
/// `delete_extra` holds, a removal of each entry missing in the source.
pub open spec fn sync_tasks(
    missing_in_dest: Seq<EntryView>,
    different: Seq<(EntryView, EntryView)>,
    missing_in_source: Seq<EntryView>,
    delete_extra: bool,
) -> Seq<TaskView> {
    missing_in_dest.map_values(|e: EntryView| copy_of(e)) + different.map_values(
        |p: (EntryView, EntryView)| update_of(p),
    ) + if delete_extra {
        missing_in_source.map_values(|e: EntryView| delete_of(e))
    } else {
        Seq::empty()
    }
}

proof fn lemma_push_task(v: Seq<SyncTask>, x: SyncTask)
    ensures
        tasks_view(v.push(x)) == tasks_view(v).push(x@),
{
    assert(tasks_view(v.push(x)) =~= tasks_view(v).push(x@));
}

/// Builds the synchronisation tasks for a comparison result.
pub fn plan_sync(results: &CompareResult, delete_extra: bool) -> (r: Vec<SyncTask>)
    ensures
        tasks_view(r@) == sync_tasks(
            entries_view(results.missing_in_dest@),
            pairs_view(results.different_content@),
            entries_view(results.missing_in_source@),
            delete_extra,
        ),
{
    let ghost mid = entries_view(results.missing_in_dest@);
    let ghost diff = pairs_view(results.different_content@);
    let ghost mis = entries_view(results.missing_in_source@);
    let mut tasks: Vec<SyncTask> = Vec::new();
    let mut i: usize = 0;
    while i < results.missing_in_dest.len()
        invariant
            mid == entries_view(results.missing_in_dest@),
            0 <= i <= mid.len(),
            tasks_view(tasks@) == mid.subrange(0, i as int).map_values(|e: EntryView| copy_of(e)),
        decreases mid.len() - i,
    {
        let e = &results.missing_in_dest[i];
        let t = SyncTask::Copy { from: e.path.clone(), rel_path: e.rel_path.clone() };
        proof {
            lemma_push_task(tasks@, t);
            assert(mid.subrange(0, i as int + 1).map_values(|e: EntryView| copy_of(e)) =~= mid.subrange(
                0,
                i as int,
            ).map_values(|e: EntryView| copy_of(e)).push(copy_of(mid[i as int])));
        }
        tasks.push(t);
        i = i + 1;
    }
    assert(mid.subrange(0, mid.len() as int) == mid);
    let ghost base = tasks_view(tasks@);
    let mut i: usize = 0;
    while i < results.different_content.len()
        invariant
            diff == pairs_view(results.different_content@),
            0 <= i <= diff.len(),
            tasks_view(tasks@) == base + diff.subrange(0, i as int).map_values(
                |p: (EntryView, EntryView)| update_of(p),
            ),
        decreases diff.len() - i,
    {
        let e = &results.different_content[i].0;
        let t = SyncTask::Copy { from: e.path.clone(), rel_path: e.rel_path.clone() };
        proof {
            lemma_push_task(tasks@, t);
            assert(diff.subrange(0, i as int + 1).map_values(|p: (EntryView, EntryView)| update_of(p))
                =~= diff.subrange(0, i as int).map_values(|p: (EntryView, EntryView)| update_of(p)).push(
                update_of(diff[i as int]),
            ));
        }
        tasks.push(t);
        i = i + 1;
    }
    assert(diff.subrange(0, diff.len() as int) == diff);
    let ghost base2 = tasks_view(tasks@);
    if delete_extra {
        let mut i: usize = 0;
        while i < results.missing_in_source.len()
            invariant
                mis == entries_view(results.missing_in_source@),
                0 <= i <= mis.len(),
                tasks_view(tasks@) == base2 + mis.subrange(0, i as int).map_values(|e: EntryView| delete_of(e)),
            decreases mis.len() - i,
        {
            let e = &results.missing_in_source[i];
            let t = SyncTask::Delete { path: e.path.clone(), rel_path: e.rel_path.clone() };
            proof {
                lemma_push_task(tasks@, t);
                assert(mis.subrange(0, i as int + 1).map_values(|e: EntryView| delete_of(e)) =~= mis.subrange(
                    0,
                    i as int,
                ).map_values(|e: EntryView| delete_of(e)).push(delete_of(mis[i as int])));
            }
            tasks.push(t);
            i = i + 1;
        }
        assert(mis.subrange(0, mis.len() as int) == mis);
    } else {
        assert(base2 + Seq::<TaskView>::empty() == base2);
    }
    tasks
}

} // verus!
