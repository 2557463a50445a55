//! `td done`: tasks are marked completed, and recurring ones are followed
//! by their next occurrence.

use crate::commands::has_id;
use crate::date::{Date, Ymd};
use crate::task::{
    due_spec, first_tag_value, next_occurrence_spec, option_task, rec_key, render, Task, TaskView,
};
use crate::text::{contains, string_views};
use crate::todo_file::{first_with_id, TodoFile};
use vstd::prelude::*;

verus! {

/// Why completing a task with a recurrence produced no next occurrence.
#[derive(Debug, Clone, Copy, PartialEq, Eq)]
pub enum RecIssue {
    /// A `rec:` tag but no `due:` date to anchor it.
    NoDueDate,
    /// A `rec:` tag whose spec is not of the form `1w` or `+1m`.
    UnknownSpec,
    /// `rec:` in the description that does not form a tag (as in `rec: +1m`).
    Malformed,
}

/// The state of a batch completion.
pub struct DoneRun {
    pub tasks: Seq<TaskView>,
    pub already_done: Seq<usize>,
    pub not_found: Seq<usize>,
    pub marked: Seq<usize>,
    pub new_tasks: Seq<TaskView>,
    pub issues: Seq<(usize, RecIssue)>,
}

/// The task marked completed on `today`.
pub open spec fn completed_on(t: TaskView, today: Ymd) -> TaskView {
    TaskView { is_completed: true, completion_date: Some(today), ..t }
}

/// Completes the task each id names, id after id: an id naming no task or
/// an already completed task is noted; otherwise the task is marked
/// completed on `today` and, when it has a `rec:` tag, its next occurrence
/// is kept to be added (or the reason there is none noted); a `rec:` that
/// is no tag is noted too.
pub open spec fn done_run(ts: Seq<TaskView>, ids: Seq<usize>, today: Ymd) -> DoneRun
    decreases ids.len(),
{
    if ids.len() == 0 {
        DoneRun {
            tasks: ts,
            already_done: seq![],
            not_found: seq![],
            marked: seq![],
            new_tasks: seq![],
            issues: seq![],
        }
    } else {
        done_step(done_run(ts, ids.drop_last(), today), ids.last(), today)
    }
}

/// One id of a batch completion.
pub open spec fn done_step(prev: DoneRun, id: usize, today: Ymd) -> DoneRun {
        match first_with_id(prev.tasks, id as nat) {
            None => DoneRun { not_found: prev.not_found.push(id), ..prev },
            Some(i) => if prev.tasks[i].is_completed {
                DoneRun { already_done: prev.already_done.push(id), ..prev }
            } else {
                let d = completed_on(prev.tasks[i], today);
                let base = DoneRun {
                    tasks: prev.tasks.update(i, d),
                    marked: prev.marked.push(id),
                    ..prev
                };
                if first_tag_value(d.tags, rec_key()) is Some {
                    match next_occurrence_spec(d, due_spec(d), today) {
                        Some(n) => DoneRun { new_tasks: prev.new_tasks.push(n), ..base },
                        None => if due_spec(d) is None {
                            DoneRun { issues: prev.issues.push((id, RecIssue::NoDueDate)), ..base }
                        } else {
                            DoneRun { issues: prev.issues.push((id, RecIssue::UnknownSpec)), ..base }
                        },
                    }
                } else if contains(d.description, rec_key() + seq![':']) {
                    DoneRun { issues: prev.issues.push((id, RecIssue::Malformed)), ..base }
                } else {
                    base
                }
            },
        }
}

/// A batch completion that marked nothing changed nothing.
pub proof fn lemma_done_run_unchanged(ts: Seq<TaskView>, ids: Seq<usize>, today: Ymd)
    requires
        done_run(ts, ids, today).marked.len() == 0,
    ensures
        done_run(ts, ids, today).tasks == ts,
        done_run(ts, ids, today).new_tasks.len() == 0,
        done_run(ts, ids, today).issues.len() == 0,
    decreases ids.len(),
{
    if ids.len() > 0 {
        lemma_done_run_unchanged(ts, ids.drop_last(), today);
    }
}

/// Whether `id` names an open task of `ts` (the first task with that id).
pub open spec fn names_open(ts: Seq<TaskView>, id: nat) -> bool {
    match first_with_id(ts, id) {
        Some(i) => !ts[i].is_completed,
        None => false,
    }
}

/// One step of a completion marks its id exactly when it names an open task.
proof fn lemma_done_step_marks(prev: DoneRun, id: usize, today: Ymd)
    ensures
        done_step(prev, id, today).marked == if names_open(prev.tasks, id as nat) {
            prev.marked.push(id)
        } else {
            prev.marked
        },
{
}

/// A completion marks nothing, and so fails and changes nothing, exactly
/// when no listed id names an open task.
#[verifier::rlimit(60)]
pub proof fn lemma_done_fails_iff_none_open(ts: Seq<TaskView>, ids: Seq<usize>, today: Ymd)
    ensures
        (done_run(ts, ids, today).marked.len() == 0) == (forall|j: int|
            0 <= j < ids.len() ==> !names_open(ts, #[trigger] ids[j] as nat)),
    decreases ids.len(),
{
    if ids.len() > 0 {
        let init = ids.drop_last();
        lemma_done_fails_iff_none_open(ts, init, today);
        let prev = done_run(ts, init, today);
        let last = ids[ids.len() - 1];
        assert(done_run(ts, ids, today) == done_step(prev, last, today));
        lemma_done_step_marks(prev, last, today);
        let marked = done_run(ts, ids, today).marked;
        assert forall|j: int| 0 <= j < init.len() implies #[trigger] init[j] == ids[j] by {}
        if prev.marked.len() == 0 {
            lemma_done_run_unchanged(ts, init, today);
            assert(prev.tasks == ts);
            if names_open(ts, last as nat) {
                assert(marked.len() > 0);
                assert(!(forall|j: int| 0 <= j < ids.len() ==> !names_open(ts, #[trigger] ids[j] as nat)))
                    by {
                    assert(names_open(ts, ids[ids.len() - 1] as nat));
                }
            } else {
                assert(marked.len() == 0);
                assert forall|j: int| 0 <= j < ids.len() implies !names_open(
                    ts,
                    #[trigger] ids[j] as nat,
                ) by {
                    if j < init.len() {
                        assert(init[j] == ids[j]);
                        assert(!names_open(ts, init[j] as nat));
                    }
                }
            }
        } else {
            assert(marked.len() > 0);
            let j = choose|j: int| 0 <= j < init.len() && names_open(ts, #[trigger] init[j] as nat);
            assert(ids[j] == init[j]);
        }
    }
}

pub proof fn lemma_done_run_bounds(ts: Seq<TaskView>, ids: Seq<usize>, today: Ymd)
    ensures
        done_run(ts, ids, today).tasks.len() == ts.len(),
        done_run(ts, ids, today).new_tasks.len() <= ids.len(),
    decreases ids.len(),
{
    if ids.len() > 0 {
        lemma_done_run_bounds(ts, ids.drop_last(), today);
        crate::todo_file::lemma_first_with_id_bounds(
            done_run(ts, ids.drop_last(), today).tasks,
            ids.last() as nat,
        );
    }
}

/// The tasks `s` numbered `n + 1`, `n + 2`, ... as they are added one by one.
pub open spec fn numbered_from(s: Seq<TaskView>, n: nat) -> Seq<TaskView> {
    Seq::new(s.len(), |k: int| TaskView { id: (n + k + 1) as nat, ..s[k] })
}

/// What a completion did.
pub struct DoneReport {
    pub already_done: Vec<usize>,
    pub not_found: Vec<usize>,
    pub marked: Vec<usize>,
    pub created: Vec<String>,
    pub issues: Vec<(usize, RecIssue)>,
}

/// A completion that marked no task.
pub struct DoneError {
    pub already_done: Vec<usize>,
    pub not_found: Vec<usize>,
}

/// One id of a batch completion, done in place.
fn done_one(
    todo: &mut TodoFile,
    id: usize,
    today: Date,
    already_done: &mut Vec<usize>,
    not_found: &mut Vec<usize>,
    marked: &mut Vec<usize>,
    new_tasks: &mut Vec<Task>,
    issues: &mut Vec<(usize, RecIssue)>,
)
    ensures
        final(todo).path == old(todo).path,
        ({
            let prev = DoneRun {
                tasks: old(todo).task_views(),
                already_done: old(already_done)@,
                not_found: old(not_found)@,
                marked: old(marked)@,
                new_tasks: crate::filter::task_views(old(new_tasks)@),
                issues: old(issues)@,
            };
            let next = done_step(prev, id, today@);
            &&& final(todo).task_views() == next.tasks
            &&& final(already_done)@ == next.already_done
            &&& final(not_found)@ == next.not_found
            &&& final(marked)@ == next.marked
            &&& crate::filter::task_views(final(new_tasks)@) == next.new_tasks
            &&& final(issues)@ == next.issues
        }),
{
    match todo.find_task(id) {
        Some(i) => {
            if todo.tasks[i].is_completed {
                already_done.push(id);
            } else {
                let ghost before = todo.task_views();
                let mut slot = Task::new("");
                todo.tasks.set_and_swap(i, &mut slot);
                slot.mark_done_on(today);
                let ghost nv = new_tasks@;
                if slot.recurrence().is_some() {
                    match slot.next_occurrence(today) {
                        Some(next) => {
                            new_tasks.push(next);
                            assert(crate::filter::task_views(new_tasks@) =~= crate::filter::task_views(
                                nv,
                            ).push(next@));
                        },
                        None => {
                            if slot.due().is_none() {
                                issues.push((id, RecIssue::NoDueDate));
                            } else {
                                issues.push((id, RecIssue::UnknownSpec));
                            }
                        },
                    }
                } else if slot.has_recurrence_marker() {
                    issues.push((id, RecIssue::Malformed));
                }
                todo.tasks.set(i, slot);
                assert(todo.task_views() =~= before.update(
                    i as int,
                    completed_on(before[i as int], today@),
                ));
                marked.push(id);
            }
        },
        None => {
            not_found.push(id);
        },
    }
}

/// Marks the tasks named by `ids` completed on `today` and adds the next
/// occurrence of each recurring one at the end of the list.
pub fn done(todo: &mut TodoFile, ids: &[usize], today: Date) -> (r: Result<DoneReport, DoneError>)
    requires
        old(todo).tasks.len() + ids.len() < usize::MAX,
    ensures
        final(todo).path == old(todo).path,
        ({
            let run = done_run(old(todo).task_views(), ids@, today@);
            match r {
                Ok(rep) => {
                    &&& run.marked.len() > 0
                    &&& rep.already_done@ == run.already_done
                    &&& rep.not_found@ == run.not_found
                    &&& rep.marked@ == run.marked
                    &&& rep.issues@ == run.issues
                    &&& string_views(rep.created@) == run.new_tasks.map_values(
                        |t: TaskView| render(t),
                    )
                    &&& final(todo).task_views() == run.tasks + numbered_from(
                        run.new_tasks,
                        old(todo).tasks.len() as nat,
                    )
                },
                Err(e) => {
                    &&& run.marked.len() == 0
                    &&& e.already_done@ == run.already_done
                    &&& e.not_found@ == run.not_found
                    &&& final(todo).task_views() == old(todo).task_views()
                },
            }
        }),
{
    let ghost ts = todo.task_views();
    let mut already_done: Vec<usize> = Vec::new();
    let mut not_found: Vec<usize> = Vec::new();
    let mut marked: Vec<usize> = Vec::new();
    let mut new_tasks: Vec<Task> = Vec::new();
    let mut issues: Vec<(usize, RecIssue)> = Vec::new();
    let mut k: usize = 0;
    while k < ids.len()
        invariant
            k <= ids@.len(),
            todo.path == old(todo).path,
            ts == old(todo).task_views(),
            ({
                let run = done_run(ts, ids@.take(k as int), today@);
                &&& todo.task_views() == run.tasks
                &&& already_done@ == run.already_done
                &&& not_found@ == run.not_found
                &&& marked@ == run.marked
                &&& crate::filter::task_views(new_tasks@) == run.new_tasks
                &&& issues@ == run.issues
            }),
        decreases ids.len() - k,
    {
        let id = ids[k];
        proof {
            assert(ids@.take(k + 1).drop_last() =~= ids@.take(k as int));
            assert(ids@.take(k + 1).last() == id);
        }
        done_one(todo, id, today, &mut already_done, &mut not_found, &mut marked, &mut new_tasks, &mut issues);
        k = k + 1;
    }
    assert(ids@.take(k as int) =~= ids@);
    if marked.len() == 0 {
        proof {
            lemma_done_run_unchanged(ts, ids@, today@);
        }
        return Err(DoneError { already_done, not_found });
    }
    proof {
        lemma_done_run_bounds(ts, ids@, today@);
    }
    let ghost run_tasks = todo.task_views();
    let ghost fresh = crate::filter::task_views(new_tasks@);
    let n0 = todo.tasks.len();
    let mut created: Vec<String> = Vec::new();
    let mut j: usize = 0;
    let total = new_tasks.len();
    while j < total
        invariant
            j <= total,
            total == fresh.len(),
            fresh.len() <= ids@.len(),
            n0 == ts.len(),
            n0 + ids@.len() < usize::MAX,
            todo.path == old(todo).path,
            crate::filter::task_views(new_tasks@) == fresh.skip(j as int),
            todo.task_views() == run_tasks + numbered_from(fresh.take(j as int), n0 as nat),
            run_tasks.len() == n0,
            string_views(created@) == fresh.take(j as int).map_values(|t: TaskView| render(t)),
        decreases total - j,
    {
        let ghost nb = new_tasks@;
        assert(crate::filter::task_views(nb).len() == nb.len());
        let t = new_tasks.remove(0);
        assert(t@ == fresh[j as int]) by {
            assert(fresh.skip(j as int)[0] == fresh[j as int]);
            assert(crate::filter::task_views(nb)[0] == nb[0]@);
        }
        assert(crate::filter::task_views(new_tasks@) =~= fresh.skip(j + 1)) by {
            assert(new_tasks@ =~= nb.subrange(1, nb.len() as int));
            assert forall|m: int| 0 <= m < new_tasks@.len() implies crate::filter::task_views(
                new_tasks@,
            )[m] == fresh.skip(j + 1)[m] by {
                assert(crate::filter::task_views(nb)[m + 1] == nb[m + 1]@);
                assert(fresh.skip(j as int)[m + 1] == fresh[j + 1 + m]);
            }
        }
        let line = t.to_string();
        let ghost before_c = string_views(created@);
        created.push(line);
        assert(string_views(created@) =~= before_c.push(render(t@)));
        assert(fresh.take(j + 1) =~= fresh.take(j as int).push(t@));
        assert(fresh.take(j + 1).map_values(|t: TaskView| render(t)) =~= fresh.take(j as int).map_values(
            |t: TaskView| render(t),
        ).push(render(t@)));
        let ghost before_t = todo.task_views();
        assert(todo.tasks.len() == n0 + j) by {
            assert(todo.task_views().len() == todo.tasks@.len());
        }
        todo.add_task(t);
        assert(todo.task_views() =~= run_tasks + numbered_from(fresh.take(j + 1), n0 as nat));
        j = j + 1;
    }
    assert(fresh.take(j as int) =~= fresh);
    Ok(DoneReport { already_done, not_found, marked, created, issues })
}

} // verus!
