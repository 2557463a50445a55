//! `td archive`: completed tasks move out of the list, to be appended to
//! the done file.

use crate::task::{render, TaskView};
use crate::text::string_views;
use crate::todo_file::{lemma_filter_agree, lists, reindexed, TodoFile};
use vstd::prelude::*;

verus! {

/// The completed tasks among `ts`, in order.
pub open spec fn completed(ts: Seq<TaskView>) -> Seq<TaskView> {
    ts.filter(|t: TaskView| t.is_completed)
}

/// The ids of the tasks `ts`.
pub open spec fn ids_of(ts: Seq<TaskView>) -> Seq<usize> {
    ts.map_values(|t: TaskView| t.id as usize)
}

/// Takes the completed tasks out of the list and returns their lines, in
/// order. When there are none the list is left as it was; otherwise every
/// task sharing an id with a completed one leaves and the rest are
/// renumbered.
pub fn archive(todo: &mut TodoFile) -> (lines: Vec<String>)
    ensures
        string_views(lines@) == completed(old(todo).task_views()).map_values(
            |t: TaskView| render(t),
        ),
        final(todo).path == old(todo).path,
        lines@.len() == 0 ==> final(todo).task_views() == old(todo).task_views(),
        lines@.len() > 0 ==> final(todo).task_views() == reindexed(
            old(todo).task_views().filter(
                |t: TaskView| !lists(ids_of(completed(old(todo).task_views())), t.id),
            ),
        ),
{
    let ghost ts = todo.task_views();
    let ghost pred = |t: TaskView| t.is_completed;
    let mut lines: Vec<String> = Vec::new();
    let mut ids: Vec<usize> = Vec::new();
    let mut i: usize = 0;
    while i < todo.tasks.len()
        invariant
            ts == todo.task_views(),
            pred == (|t: TaskView| t.is_completed),
            i <= todo.tasks.len(),
            string_views(lines@) == ts.take(i as int).filter(pred).map_values(
                |t: TaskView| render(t),
            ),
            ids@ == ids_of(ts.take(i as int).filter(pred)),
        decreases todo.tasks.len() - i,
    {
        proof {
            reveal(Seq::filter);
            assert(ts.take(i + 1).drop_last() =~= ts.take(i as int));
            assert(ts.take(i + 1).last() == todo.tasks@[i as int]@);
        }
        if todo.tasks[i].is_completed {
            let ghost before_l = string_views(lines@);
            let ghost before_i = ids@;
            let line = todo.tasks[i].to_string();
            lines.push(line);
            ids.push(todo.tasks[i].id);
            assert(string_views(lines@) =~= before_l.push(render(todo.tasks@[i as int]@)));
            assert(ids@ =~= before_i.push(todo.tasks@[i as int].id));
            assert(ts.take(i + 1).filter(pred) =~= ts.take(i as int).filter(pred).push(
                todo.tasks@[i as int]@,
            ));
            assert(string_views(lines@) =~= ts.take(i + 1).filter(pred).map_values(
                |t: TaskView| render(t),
            ));
            assert(ids@ =~= ids_of(ts.take(i + 1).filter(pred)));
        }
        i = i + 1;
    }
    assert(ts.take(i as int) =~= ts);
    if lines.len() == 0 {
        return lines;
    }
    todo.remove_tasks(ids.as_slice());
    lines
}

/// Archiving splits the tasks: the completed ones go, in order, to the done
/// file and exactly the open ones stay, in order, in the todo file. This
/// holds when no two tasks share an id, as in every file that was read
/// (`lemma_load_ids_increasing`).
pub proof fn lemma_archive_splits(ts: Seq<TaskView>)
    requires
        forall|i: int| 0 <= i < ts.len() ==> #[trigger] ts[i].id <= usize::MAX,
        forall|i: int, j: int| 0 <= i < j < ts.len() ==> #[trigger] ts[i].id != #[trigger] ts[j].id,
    ensures
        ts.filter(|t: TaskView| !lists(ids_of(completed(ts)), t.id)) == ts.filter(
            |t: TaskView| !t.is_completed,
        ),
        completed(ts).len() + ts.filter(|t: TaskView| !t.is_completed).len() == ts.len(),
{
    let pred = |t: TaskView| t.is_completed;
    let open = |t: TaskView| !t.is_completed;
    let cs = completed(ts);
    let cids = ids_of(cs);
    assert forall|i: int| 0 <= i < ts.len() implies lists(cids, #[trigger] ts[i].id)
        == ts[i].is_completed by {
        if ts[i].is_completed {
            ts.lemma_filter_contains(pred, i);
            assert(cs.contains(ts[i]));
            let k = choose|k: int| 0 <= k < cs.len() && cs[k] == ts[i];
            assert(cids[k] == ts[i].id as usize);
            assert(lists(cids, ts[i].id));
        }
        if lists(cids, ts[i].id) {
            let k = choose|k: int| 0 <= k < cids.len() && cids[k] == ts[i].id;
            ts.lemma_filter_contains_rev(pred, cs[k]);
            assert(cs.contains(cs[k]));
            ts.lemma_filter_pred(pred, k);
            let m = choose|m: int| 0 <= m < ts.len() && ts[m] == cs[k];
            assert(cids[k] == cs[k].id as usize);
            assert(ts[m].id == ts[i].id);
            if m != i {
                if m < i {
                    assert(ts[m].id != ts[i].id);
                } else {
                    assert(ts[i].id != ts[m].id);
                }
            }
        }
    }
    lemma_filter_agree(ts, |t: TaskView| !lists(ids_of(completed(ts)), t.id), open);
    lemma_split_len(ts);
}

proof fn lemma_split_len(ts: Seq<TaskView>)
    ensures
        completed(ts).len() + ts.filter(|t: TaskView| !t.is_completed).len() == ts.len(),
    decreases ts.len(),
{
    reveal(Seq::filter);
    if ts.len() > 0 {
        lemma_split_len(ts.drop_last());
    }
}

} // verus!
