//! `td delete`: tasks leave the list by id.

use crate::commands::{found_ids, has_id, missing_ids, task_with_id};
use crate::task::TaskView;
use crate::todo_file::{first_with_id, lemma_filter_agree, lists, reindexed, TodoFile};
use vstd::prelude::*;

verus! {

/// What a deletion did: each deleted id with the description it had, and
/// the ids that named no task.
pub struct DeleteReport {
    pub deleted: Vec<(usize, String)>,
    pub not_found: Vec<usize>,
}

/// No listed id named a task; `not_found` lists them all.
pub struct DeleteError {
    pub not_found: Vec<usize>,
}

pub open spec fn deleted_views(v: Seq<(usize, String)>) -> Seq<(usize, Seq<char>)> {
    v.map_values(|p: (usize, String)| (p.0, p.1@))
}

/// Deletes the tasks that `ids` name. Fails, changing nothing, when none of
/// the ids names a task; otherwise every task with a listed id leaves and
/// the rest are renumbered 1, 2, ...
pub fn delete(todo: &mut TodoFile, ids: &[usize]) -> (r: Result<DeleteReport, DeleteError>)
    ensures
        final(todo).path == old(todo).path,
        match r {
            Ok(rep) => {
                &&& found_ids(old(todo).task_views(), ids@).len() > 0
                &&& deleted_views(rep.deleted@) == found_ids(old(todo).task_views(), ids@).map_values(
                    |id: usize| (id, task_with_id(old(todo).task_views(), id as nat).description),
                )
                &&& rep.not_found@ == missing_ids(old(todo).task_views(), ids@)
                &&& final(todo).task_views() == reindexed(
                    old(todo).task_views().filter(
                        |t: TaskView| !lists(found_ids(old(todo).task_views(), ids@), t.id),
                    ),
                )
            },
            Err(e) => {
                &&& found_ids(old(todo).task_views(), ids@).len() == 0
                &&& e.not_found@ == missing_ids(old(todo).task_views(), ids@)
                &&& final(todo).task_views() == old(todo).task_views()
            },
        },
{
    let ghost ts = todo.task_views();
    let ghost fp = |id: usize| has_id(ts, id as nat);
    let ghost mp = |id: usize| !has_id(ts, id as nat);
    let mut valid: Vec<usize> = Vec::new();
    let mut invalid: Vec<usize> = Vec::new();
    let mut deleted: Vec<(usize, String)> = Vec::new();
    let mut k: usize = 0;
    while k < ids.len()
        invariant
            ts == todo.task_views(),
            fp == (|id: usize| has_id(ts, id as nat)),
            mp == (|id: usize| !has_id(ts, id as nat)),
            k <= ids@.len(),
            valid@ == ids@.take(k as int).filter(fp),
            invalid@ == ids@.take(k as int).filter(mp),
            deleted_views(deleted@) == valid@.map_values(
                |id: usize| (id, task_with_id(ts, id as nat).description),
            ),
        decreases ids.len() - k,
    {
        let id = ids[k];
        let ghost pre = ids@.take(k as int);
        let ghost post = ids@.take(k + 1);
        assert(post.drop_last() =~= pre);
        assert(post.last() == id);
        let found = todo.get_task(id);
        match found {
            Some(t) => {
                assert(has_id(ts, id as nat));
                assert(t@ == task_with_id(ts, id as nat));
                assert(post.filter(fp) == pre.filter(fp).push(id)) by {
                    reveal(Seq::filter);
                }
                assert(post.filter(mp) == pre.filter(mp)) by {
                    reveal(Seq::filter);
                }
                let ghost before = deleted_views(deleted@);
                let d = crate::text::string_from(t.description.as_str());
                deleted.push((id, d));
                valid.push(id);
                assert(deleted_views(deleted@) =~= before.push((id, t@.description)));
                assert(deleted_views(deleted@) =~= valid@.map_values(
                    |id: usize| (id, task_with_id(ts, id as nat).description),
                ));
            },
            None => {
                assert(!has_id(ts, id as nat));
                assert(post.filter(fp) == pre.filter(fp)) by {
                    reveal(Seq::filter);
                }
                assert(post.filter(mp) == pre.filter(mp).push(id)) by {
                    reveal(Seq::filter);
                }
                invalid.push(id);
            },
        }
        k = k + 1;
    }
    assert(ids@.take(k as int) =~= ids@);
    if valid.len() == 0 {
        return Err(DeleteError { not_found: invalid });
    }
    todo.remove_tasks(valid.as_slice());
    Ok(DeleteReport { deleted, not_found: invalid })
}

/// A deletion keeps exactly the tasks whose id is not listed, and it fails
/// exactly when no listed id is the id of a task.
pub proof fn lemma_delete_keeps_unlisted(ts: Seq<TaskView>, ids: Seq<usize>)
    ensures
        ts.filter(|t: TaskView| !lists(found_ids(ts, ids), t.id)) == ts.filter(
            |t: TaskView| !lists(ids, t.id),
        ),
        (found_ids(ts, ids).len() == 0) == (forall|j: int|
            0 <= j < ids.len() ==> forall|i: int| 0 <= i < ts.len() ==> ts[i].id != #[trigger] ids[j]),
{
    let fp = |id: usize| has_id(ts, id as nat);
    let found = found_ids(ts, ids);
    assert forall|i: int| 0 <= i < ts.len() implies lists(found, #[trigger] ts[i].id) == lists(
        ids,
        ts[i].id,
    ) by {
        let id = ts[i].id;
        if lists(found, id) {
            let k = choose|k: int| 0 <= k < found.len() && found[k] == id;
            ids.lemma_filter_contains_rev(fp, found[k]);
            let j = choose|j: int| 0 <= j < ids.len() && ids[j] == found[k];
            assert(lists(ids, id));
        }
        if lists(ids, id) {
            let j = choose|j: int| 0 <= j < ids.len() && ids[j] == id;
            assert(first_with_id(ts, id) is Some);
            assert(fp(ids[j]));
            ids.lemma_filter_contains(fp, j);
            assert(found.contains(ids[j]));
            let k = choose|k: int| 0 <= k < found.len() && found[k] == ids[j];
            assert(lists(found, id));
        }
    }
    lemma_filter_agree(
        ts,
        |t: TaskView| !lists(found_ids(ts, ids), t.id),
        |t: TaskView| !lists(ids, t.id),
    );
    if found.len() > 0 {
        ids.lemma_filter_contains_rev(fp, found[0]);
        assert(found.contains(found[0]));
        ids.lemma_filter_pred(fp, 0);
        let j = choose|j: int| 0 <= j < ids.len() && ids[j] == found[0];
        let i = choose|i: int| 0 <= i < ts.len() && ts[i].id == ids[j] as nat;
        assert(ts[i].id == ids[j]);
    } else {
        assert forall|j: int| 0 <= j < ids.len() implies forall|i: int|
            0 <= i < ts.len() ==> ts[i].id != #[trigger] ids[j] by {
            if exists|i: int| 0 <= i < ts.len() && ts[i].id == ids[j] {
                assert(first_with_id(ts, ids[j] as nat) is Some);
                ids.lemma_filter_contains(fp, j);
                assert(found.contains(ids[j]));
            }
        }
    }
}

} // verus!
