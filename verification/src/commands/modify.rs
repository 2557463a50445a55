//! `td append`, `td prepend`, `td replace` and `td priority`: batch edits of
//! tasks named by id.

use crate::commands::{edit_run, lemma_edit_run_unchanged, EditRun, ModifyError, ModifyReport};
use crate::task::{parse_spec, render, render_line, render_with, Task, TaskView};
use crate::text::{
    append_chars, chars_of, contains, replace_all, replace_all_chars, string_of, trim,
    trim_bounds,
};
use crate::todo_file::{first_with_id, lemma_first_with_id_bounds, lemma_first_with_id_same_ids, TodoFile};
use vstd::prelude::*;

verus! {

/// The task after `text` is appended to its description: the description,
/// trimmed, a space and `text` make the new description, and the task's line
/// with it is read again.
pub open spec fn append_one(t: TaskView, text: Seq<char>) -> TaskView {
    parse_spec(t.id, render_with(t, trim(t.description) + seq![' '] + text))
}

/// The task after `text` is put before its description.
pub open spec fn prepend_one(t: TaskView, text: Seq<char>) -> TaskView {
    parse_spec(t.id, render_with(t, text + seq![' '] + trim(t.description)))
}

/// The task with priority `p`.
pub open spec fn set_priority_one(t: TaskView, p: Option<char>) -> TaskView {
    TaskView { priority: p, ..t }
}

/// Setting a priority gives exactly that priority and leaves every other
/// part of the task as it was.
pub proof fn lemma_set_priority_one(t: TaskView, p: Option<char>)
    ensures
        set_priority_one(t, p).priority == p,
        set_priority_one(t, p).id == t.id,
        set_priority_one(t, p).raw == t.raw,
        set_priority_one(t, p).description == t.description,
        set_priority_one(t, p).creation_date == t.creation_date,
        set_priority_one(t, p).completion_date == t.completion_date,
        set_priority_one(t, p).is_completed == t.is_completed,
        set_priority_one(t, p).projects == t.projects,
        set_priority_one(t, p).contexts == t.contexts,
        set_priority_one(t, p).tags == t.tags,
{
}

/// Whether some id of `ids` names the task at position `k` of `ts`.
pub open spec fn named(ts: Seq<TaskView>, ids: Seq<usize>, k: int) -> bool {
    exists|j: int| 0 <= j < ids.len() && first_with_id(ts, #[trigger] ids[j] as nat) == Some(k)
}

/// After the priority `p` is given to the tasks that `ids` name, every
/// task named by an id has priority exactly `p`, every other task keeps its
/// priority, and all other parts of every task stay as they were.
pub proof fn lemma_priority_run(ts: Seq<TaskView>, ids: Seq<usize>, p: Option<char>)
    ensures
        ({
            let out = edit_run(ts, ids, |t: TaskView| set_priority_one(t, p)).tasks;
            &&& out.len() == ts.len()
            &&& forall|k: int|
                0 <= k < ts.len() ==> (#[trigger] out[k]).priority == if named(ts, ids, k) {
                    p
                } else {
                    ts[k].priority
                }
            &&& forall|k: int|
                0 <= k < ts.len() ==> (#[trigger] out[k]).id == ts[k].id && out[k].raw == ts[k].raw
                    && out[k].description == ts[k].description && out[k].creation_date
                    == ts[k].creation_date && out[k].completion_date == ts[k].completion_date
                    && out[k].is_completed == ts[k].is_completed && out[k].projects
                    == ts[k].projects && out[k].contexts == ts[k].contexts && out[k].tags
                    == ts[k].tags
        }),
    decreases ids.len(),
{
    let f = |t: TaskView| set_priority_one(t, p);
    if ids.len() > 0 {
        let init = ids.drop_last();
        lemma_priority_run(ts, init, p);
        let prev = edit_run(ts, init, f);
        let id = ids.last();
        let out = edit_run(ts, ids, f).tasks;
        lemma_first_with_id_same_ids(prev.tasks, ts, id as nat);
        lemma_first_with_id_bounds(ts, id as nat);
        assert forall|k: int| 0 <= k < ts.len() implies named(ts, ids, k) == (named(ts, init, k)
            || first_with_id(ts, id as nat) == Some(k)) by {
            if named(ts, init, k) {
                let j = choose|j: int|
                    0 <= j < init.len() && first_with_id(ts, #[trigger] init[j] as nat) == Some(k);
                assert(ids[j] == init[j]);
            }
            if named(ts, ids, k) {
                let j = choose|j: int|
                    0 <= j < ids.len() && first_with_id(ts, #[trigger] ids[j] as nat) == Some(k);
                if j < init.len() {
                    assert(init[j] == ids[j]);
                }
            }
            if first_with_id(ts, id as nat) == Some(k) {
                assert(ids[ids.len() - 1] == id);
            }
        }
    } else {
        assert forall|k: int| 0 <= k < ts.len() implies !named(ts, ids, k) by {}
    }
}

/// The result of a batch edit: `Ok` when some task was edited, otherwise an
/// error and the tasks as they were.
pub open spec fn edit_result(
    old_tasks: Seq<TaskView>,
    new_tasks: Seq<TaskView>,
    r: Result<ModifyReport, ModifyError>,
    run: EditRun,
) -> bool {
    match r {
        Ok(rep) => {
            &&& run.modified.len() > 0
            &&& rep.modified@ == run.modified
            &&& rep.not_found@ == run.not_found
            &&& new_tasks == run.tasks
        },
        Err(e) => {
            &&& run.modified.len() == 0
            &&& e.not_found@ == run.not_found
            &&& new_tasks == old_tasks
        },
    }
}

/// The new description `trim(desc) + " " + text`.
fn appended(desc: &Vec<char>, text: &Vec<char>) -> (r: Vec<char>)
    ensures
        r@ == trim(desc@) + seq![' '] + text@,
{
    let (a, b) = trim_bounds(desc, 0, desc.len());
    assert(desc@.subrange(0, desc@.len() as int) =~= desc@);
    let mut out = crate::text::sub_vec(desc, a, b);
    out.push(' ');
    append_chars(&mut out, text);
    out
}

/// The new description `text + " " + trim(desc)`.
fn prepended(desc: &Vec<char>, text: &Vec<char>) -> (r: Vec<char>)
    ensures
        r@ == text@ + seq![' '] + trim(desc@),
{
    let (a, b) = trim_bounds(desc, 0, desc.len());
    assert(desc@.subrange(0, desc@.len() as int) =~= desc@);
    let t = crate::text::sub_vec(desc, a, b);
    let mut out: Vec<char> = Vec::new();
    append_chars(&mut out, text);
    out.push(' ');
    append_chars(&mut out, &t);
    out
}

/// Appends `text` to the description of each task named by `ids`.
pub fn append(todo: &mut TodoFile, ids: &[usize], text: &str) -> (r: Result<ModifyReport, ModifyError>)
    ensures
        final(todo).path == old(todo).path,
        edit_result(
            old(todo).task_views(),
            final(todo).task_views(),
            r,
            edit_run(old(todo).task_views(), ids@, |t: TaskView| append_one(t, text@)),
        ),
{
    edit_descriptions(todo, ids, text, true)
}

/// Puts `text` before the description of each task named by `ids`.
pub fn prepend(todo: &mut TodoFile, ids: &[usize], text: &str) -> (r: Result<ModifyReport, ModifyError>)
    ensures
        final(todo).path == old(todo).path,
        edit_result(
            old(todo).task_views(),
            final(todo).task_views(),
            r,
            edit_run(old(todo).task_views(), ids@, |t: TaskView| prepend_one(t, text@)),
        ),
{
    edit_descriptions(todo, ids, text, false)
}

/// The edit of `append` (when `at_end`) or `prepend`.
fn edit_descriptions(todo: &mut TodoFile, ids: &[usize], text: &str, at_end: bool) -> (r: Result<
    ModifyReport,
    ModifyError,
>)
    ensures
        final(todo).path == old(todo).path,
        edit_result(
            old(todo).task_views(),
            final(todo).task_views(),
            r,
            edit_run(
                old(todo).task_views(),
                ids@,
                if at_end {
                    |t: TaskView| append_one(t, text@)
                } else {
                    |t: TaskView| prepend_one(t, text@)
                },
            ),
        ),
{
    let ghost ts = todo.task_views();
    let ghost f = if at_end {
        |t: TaskView| append_one(t, text@)
    } else {
        |t: TaskView| prepend_one(t, text@)
    };
    let tv = chars_of(text);
    let mut modified: Vec<usize> = Vec::new();
    let mut not_found: Vec<usize> = Vec::new();
    let mut k: usize = 0;
    while k < ids.len()
        invariant
            k <= ids@.len(),
            tv@ == text@,
            todo.path == old(todo).path,
            f == (if at_end {
                |t: TaskView| append_one(t, text@)
            } else {
                |t: TaskView| prepend_one(t, text@)
            }),
            ts == old(todo).task_views(),
            todo.task_views() == edit_run(ts, ids@.take(k as int), f).tasks,
            modified@ == edit_run(ts, ids@.take(k as int), f).modified,
            not_found@ == edit_run(ts, ids@.take(k as int), f).not_found,
        decreases ids.len() - k,
    {
        let id = ids[k];
        proof {
            assert(ids@.take(k + 1).drop_last() =~= ids@.take(k as int));
            assert(ids@.take(k + 1).last() == id);
        }
        match todo.find_task(id) {
            Some(i) => {
                let t = &todo.tasks[i];
                let d = chars_of(t.description.as_str());
                let nd = if at_end {
                    appended(&d, &tv)
                } else {
                    prepended(&d, &tv)
                };
                let line = render_line(t, &nd);
                let s = string_of(&line);
                let nt = Task::parse(t.id, s.as_str());
                let ghost before = todo.task_views();
                todo.tasks.set(i, nt);
                proof {
                    assert(todo.task_views() =~= before.update(i as int, f(before[i as int])));
                }
                modified.push(id);
            },
            None => {
                not_found.push(id);
            },
        }
        k = k + 1;
    }
    assert(ids@.take(k as int) =~= ids@);
    if modified.len() == 0 {
        proof {
            lemma_edit_run_unchanged(ts, ids@, f);
        }
        return Err(ModifyError { not_found });
    }
    Ok(ModifyReport { modified, not_found })
}

/// Gives each task named by `ids` the priority `new_priority` (none removes it).
pub fn priority(todo: &mut TodoFile, ids: &[usize], new_priority: Option<char>) -> (r: Result<
    ModifyReport,
    ModifyError,
>)
    ensures
        final(todo).path == old(todo).path,
        edit_result(
            old(todo).task_views(),
            final(todo).task_views(),
            r,
            edit_run(old(todo).task_views(), ids@, |t: TaskView| set_priority_one(t, new_priority)),
        ),
{
    let ghost ts = todo.task_views();
    let ghost f = |t: TaskView| set_priority_one(t, new_priority);
    let mut modified: Vec<usize> = Vec::new();
    let mut not_found: Vec<usize> = Vec::new();
    let mut k: usize = 0;
    while k < ids.len()
        invariant
            k <= ids@.len(),
            todo.path == old(todo).path,
            f == (|t: TaskView| set_priority_one(t, new_priority)),
            ts == old(todo).task_views(),
            todo.task_views() == edit_run(ts, ids@.take(k as int), f).tasks,
            modified@ == edit_run(ts, ids@.take(k as int), f).modified,
            not_found@ == edit_run(ts, ids@.take(k as int), f).not_found,
        decreases ids.len() - k,
    {
        let id = ids[k];
        proof {
            assert(ids@.take(k + 1).drop_last() =~= ids@.take(k as int));
            assert(ids@.take(k + 1).last() == id);
        }
        match todo.find_task(id) {
            Some(i) => {
                let ghost before = todo.task_views();
                let mut slot = Task::new("");
                todo.tasks.set_and_swap(i, &mut slot);
                slot.priority = new_priority;
                todo.tasks.set(i, slot);
                assert(todo.task_views() =~= before.update(i as int, f(before[i as int])));
                modified.push(id);
            },
            None => {
                not_found.push(id);
            },
        }
        k = k + 1;
    }
    assert(ids@.take(k as int) =~= ids@);
    if modified.len() == 0 {
        proof {
            lemma_edit_run_unchanged(ts, ids@, f);
        }
        return Err(ModifyError { not_found });
    }
    Ok(ModifyReport { modified, not_found })
}

/// Whether `replace` edits the task: `from` occurs in its description or
/// in its line.
pub open spec fn replace_applies(t: TaskView, from: Seq<char>) -> bool {
    contains(t.description, from) || contains(render(t), from)
}

/// The task after `from` is replaced by `to` throughout its line.
pub open spec fn replace_one(t: TaskView, from: Seq<char>, to: Seq<char>) -> TaskView {
    parse_spec(t.id, replace_all(render(t), from, to))
}

/// Replacing text that starts nowhere in the priority and creation date of
/// an open task's line replaces it in the description alone: the line is
/// the task's line with the new description, and the task keeps its id,
/// priority and creation date and stays open with no completion date —
/// whenever the new description does not itself start as a part of a line
/// does.
pub proof fn lemma_replace_in_description(t: TaskView, from: Seq<char>, to: Seq<char>)
    requires
        !t.is_completed,
        t.priority matches Some(p) ==> crate::grammar::is_upper(p),
        t.creation_date matches Some(d) ==> crate::date::valid(d) && 0 <= d.year <= 9999,
        from.len() > 0,
        forall|i: int|
            0 <= i < crate::roundtrip::open_prefix(t).len() ==> !#[trigger] crate::text::occurs_at(
                render(t),
                from,
                i,
            ),
        trim(replace_all(t.description, from, to)).len() > 0,
        crate::roundtrip::plain_start(trim(replace_all(t.description, from, to))),
    ensures
        replace_all(render(t), from, to) == render_with(t, replace_all(t.description, from, to)),
        ({
            let u = replace_one(t, from, to);
            &&& u.id == t.id
            &&& u.priority == t.priority
            &&& u.creation_date == t.creation_date
            &&& !u.is_completed
            &&& u.completion_date is None
            &&& u.description == trim(replace_all(t.description, from, to))
        }),
{
    let x = replace_all(t.description, from, to);
    crate::roundtrip::lemma_open_prefix_line(t, t.description);
    crate::roundtrip::lemma_open_prefix_line(t, x);
    crate::text::lemma_replace_all_after(crate::roundtrip::open_prefix(t), t.description, from, to);
    crate::roundtrip::lemma_reread_open_with_desc(t, x, t.id);
}

/// The state of a batch replacement: the tasks, the ids edited, the ids
/// that named no task and the ids of tasks without `from`.
pub struct ReplaceRun {
    pub tasks: Seq<TaskView>,
    pub modified: Seq<usize>,
    pub not_found: Seq<usize>,
    pub no_match: Seq<usize>,
}

pub open spec fn replace_run(ts: Seq<TaskView>, ids: Seq<usize>, from: Seq<char>, to: Seq<char>) -> ReplaceRun
    decreases ids.len(),
{
    if ids.len() == 0 {
        ReplaceRun { tasks: ts, modified: seq![], not_found: seq![], no_match: seq![] }
    } else {
        let prev = replace_run(ts, ids.drop_last(), from, to);
        let id = ids.last();
        match first_with_id(prev.tasks, id as nat) {
            Some(i) => if replace_applies(prev.tasks[i], from) {
                ReplaceRun {
                    tasks: prev.tasks.update(i, replace_one(prev.tasks[i], from, to)),
                    modified: prev.modified.push(id),
                    ..prev
                }
            } else {
                ReplaceRun { no_match: prev.no_match.push(id), ..prev }
            },
            None => ReplaceRun { not_found: prev.not_found.push(id), ..prev },
        }
    }
}

pub proof fn lemma_replace_run_unchanged(
    ts: Seq<TaskView>,
    ids: Seq<usize>,
    from: Seq<char>,
    to: Seq<char>,
)
    requires
        replace_run(ts, ids, from, to).modified.len() == 0,
    ensures
        replace_run(ts, ids, from, to).tasks == ts,
    decreases ids.len(),
{
    if ids.len() > 0 {
        lemma_replace_run_unchanged(ts, ids.drop_last(), from, to);
    }
}

/// What a replacement did.
pub struct ReplaceReport {
    pub modified: Vec<usize>,
    pub not_found: Vec<usize>,
    pub no_match: Vec<usize>,
}

/// A replacement that edited no task.
pub struct ReplaceError {
    pub not_found: Vec<usize>,
    pub no_match: Vec<usize>,
}

/// Replaces `from` by `to` in the line of each task named by `ids` whose
/// description or line holds `from`, and reads the line again.
pub fn replace(todo: &mut TodoFile, ids: &[usize], from: &str, to: &str) -> (r: Result<
    ReplaceReport,
    ReplaceError,
>)
    ensures
        final(todo).path == old(todo).path,
        ({
            let run = replace_run(old(todo).task_views(), ids@, from@, to@);
            match r {
                Ok(rep) => {
                    &&& run.modified.len() > 0
                    &&& rep.modified@ == run.modified
                    &&& rep.not_found@ == run.not_found
                    &&& rep.no_match@ == run.no_match
                    &&& final(todo).task_views() == run.tasks
                },
                Err(e) => {
                    &&& run.modified.len() == 0
                    &&& e.not_found@ == run.not_found
                    &&& e.no_match@ == run.no_match
                    &&& final(todo).task_views() == old(todo).task_views()
                },
            }
        }),
{
    let ghost ts = todo.task_views();
    let fv = chars_of(from);
    let tv = chars_of(to);
    let mut modified: Vec<usize> = Vec::new();
    let mut not_found: Vec<usize> = Vec::new();
    let mut no_match: Vec<usize> = Vec::new();
    let mut k: usize = 0;
    while k < ids.len()
        invariant
            k <= ids@.len(),
            fv@ == from@,
            tv@ == to@,
            todo.path == old(todo).path,
            ts == old(todo).task_views(),
            todo.task_views() == replace_run(ts, ids@.take(k as int), from@, to@).tasks,
            modified@ == replace_run(ts, ids@.take(k as int), from@, to@).modified,
            not_found@ == replace_run(ts, ids@.take(k as int), from@, to@).not_found,
            no_match@ == replace_run(ts, ids@.take(k as int), from@, to@).no_match,
        decreases ids.len() - k,
    {
        let id = ids[k];
        proof {
            assert(ids@.take(k + 1).drop_last() =~= ids@.take(k as int));
            assert(ids@.take(k + 1).last() == id);
        }
        match todo.find_task(id) {
            Some(i) => {
                let t = &todo.tasks[i];
                let d = chars_of(t.description.as_str());
                let line = t.to_string();
                let lv = chars_of(line.as_str());
                if crate::text::contains_chars(&d, &fv) || crate::text::contains_chars(&lv, &fv) {
                    let nl = replace_all_chars(&lv, &fv, &tv);
                    let s = string_of(&nl);
                    let nt = Task::parse(t.id, s.as_str());
                    let ghost before = todo.task_views();
                    todo.tasks.set(i, nt);
                    assert(todo.task_views() =~= before.update(
                        i as int,
                        replace_one(before[i as int], from@, to@),
                    ));
                    modified.push(id);
                } else {
                    no_match.push(id);
                }
            },
            None => {
                not_found.push(id);
            },
        }
        k = k + 1;
    }
    assert(ids@.take(k as int) =~= ids@);
    if modified.len() == 0 {
        proof {
            lemma_replace_run_unchanged(ts, ids@, from@, to@);
        }
        return Err(ReplaceError { not_found, no_match });
    }
    Ok(ReplaceReport { modified, not_found, no_match })
}

} // verus!
