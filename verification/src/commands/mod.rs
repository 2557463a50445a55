//! The computing part of each `td` command: what it does to the tasks and
//! what it reports. Reading and writing the files and printing are left to
//! the caller.

pub mod add;
pub mod archive;
pub mod delete;
pub mod done;
pub mod list;
pub mod modify;
pub mod update;

use crate::task::TaskView;
use crate::todo_file::first_with_id;
use vstd::prelude::*;

verus! {

/// Whether some task has id `id`.
pub open spec fn has_id(ts: Seq<TaskView>, id: nat) -> bool {
    first_with_id(ts, id) is Some
}

/// The listed ids that some task has, in order.
pub open spec fn found_ids(ts: Seq<TaskView>, ids: Seq<usize>) -> Seq<usize> {
    ids.filter(|id: usize| has_id(ts, id as nat))
}

/// The listed ids that no task has, in order.
pub open spec fn missing_ids(ts: Seq<TaskView>, ids: Seq<usize>) -> Seq<usize> {
    ids.filter(|id: usize| !has_id(ts, id as nat))
}

/// The task that `id` names (the first with that id).
pub open spec fn task_with_id(ts: Seq<TaskView>, id: nat) -> TaskView {
    ts[first_with_id(ts, id)->0]
}

/// The state of a batch edit: the tasks, the ids edited and the ids that
/// named no task, each in the order met.
pub struct EditRun {
    pub tasks: Seq<TaskView>,
    pub modified: Seq<usize>,
    pub not_found: Seq<usize>,
}

/// Applies `f` to the task each id names, id after id (an id given twice is
/// edited twice); ids that name no task are noted.
pub open spec fn edit_run(ts: Seq<TaskView>, ids: Seq<usize>, f: spec_fn(TaskView) -> TaskView) -> EditRun
    decreases ids.len(),
{
    if ids.len() == 0 {
        EditRun { tasks: ts, modified: seq![], not_found: seq![] }
    } else {
        let prev = edit_run(ts, ids.drop_last(), f);
        let id = ids.last();
        match first_with_id(prev.tasks, id as nat) {
            Some(i) => EditRun {
                tasks: prev.tasks.update(i, f(prev.tasks[i])),
                modified: prev.modified.push(id),
                not_found: prev.not_found,
            },
            None => EditRun { not_found: prev.not_found.push(id), ..prev },
        }
    }
}

/// A batch edit that edited nothing left the tasks as they were.
pub proof fn lemma_edit_run_unchanged(
    ts: Seq<TaskView>,
    ids: Seq<usize>,
    f: spec_fn(TaskView) -> TaskView,
)
    requires
        edit_run(ts, ids, f).modified.len() == 0,
    ensures
        edit_run(ts, ids, f).tasks == ts,
    decreases ids.len(),
{
    if ids.len() > 0 {
        let prev = edit_run(ts, ids.drop_last(), f);
        if first_with_id(prev.tasks, ids.last() as nat) is None {
            lemma_edit_run_unchanged(ts, ids.drop_last(), f);
        }
    }
}

/// What a batch edit did: the ids edited and those that named no task.
pub struct ModifyReport {
    pub modified: Vec<usize>,
    pub not_found: Vec<usize>,
}

/// A batch edit that edited no task; `not_found` lists the ids that named
/// none.
pub struct ModifyError {
    pub not_found: Vec<usize>,
}

} // verus!
