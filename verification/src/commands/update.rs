//! `td update` and `td time-update`: moving tasks between time contexts.

use crate::commands::{edit_run, lemma_edit_run_unchanged, ModifyError, ModifyReport};
use crate::commands::modify::edit_result;
use crate::date::{Date, Ymd};
use crate::task::{due_spec, parse_spec, render, render_line, render_with, Task, TaskView};
use crate::text::{chars_of, string_of};
use crate::time_context::{
    apply_transitions, apply_transitions_spec, get_transitions_for_date, set_time_context,
    set_time_context_spec, time_context_for_due, time_context_for_due_spec, transitions_spec,
    TimeContext,
};
use crate::todo_file::TodoFile;
use vstd::prelude::*;

verus! {

/// The task given the time context `c`: its description gets `c` in place
/// of its time contexts and its line is read again.
pub open spec fn set_context_one(t: TaskView, c: TimeContext) -> TaskView {
    parse_spec(t.id, render_with(t, set_time_context_spec(t.description, c)))
}

/// The line of `task` with its description replaced by `new_desc`.
pub fn format_task_with_desc(task: &Task, new_desc: &str) -> (r: String)
    ensures
        r@ == render_with(task@, new_desc@),
{
    let d = chars_of(new_desc);
    let line = render_line(task, &d);
    string_of(&line)
}

/// The line of a task with its description replaced is the line of the task
/// whose description is the new one.
pub proof fn lemma_format_with_desc(t: TaskView, d: Seq<char>)
    ensures
        render_with(t, d) == render(TaskView { description: d, ..t }),
{
    assert(crate::task::render_parts(t, d) == crate::task::render_parts(
        TaskView { description: d, ..t },
        d,
    ));
}

/// Giving an open task a time context keeps its id, priority and creation
/// date, keeps it open with no completion date, and gives it as its
/// description the old one with its time contexts replaced by `c`
/// (`set_time_context`, trimmed) — whenever that new description does not
/// itself start as a part of a line does.
pub proof fn lemma_update_keeps_parts(t: TaskView, c: TimeContext)
    requires
        !t.is_completed,
        t.priority matches Some(p) ==> crate::grammar::is_upper(p),
        t.creation_date matches Some(d) ==> crate::date::valid(d) && 0 <= d.year <= 9999,
        crate::roundtrip::plain_start(crate::text::trim(set_time_context_spec(t.description, c))),
    ensures
        ({
            let u = set_context_one(t, c);
            &&& u.id == t.id
            &&& u.priority == t.priority
            &&& u.creation_date == t.creation_date
            &&& !u.is_completed
            &&& u.completion_date is None
            &&& u.description == crate::text::trim(set_time_context_spec(t.description, c))
        }),
{
    let x = set_time_context_spec(t.description, c);
    let tg = crate::time_context::tag(c);
    assert(x.last() == tg.last());
    assert(!crate::text::is_white(tg.last()));
    crate::text::lemma_trim_start_keeps_end(x);
    crate::text::lemma_trim_clean(crate::text::trim_start(x));
    crate::roundtrip::lemma_reread_open_with_desc(t, x, t.id);
}

/// Gives each task named by `ids` the time context `context`.
pub fn update(todo: &mut TodoFile, ids: &[usize], context: TimeContext) -> (r: Result<
    ModifyReport,
    ModifyError,
>)
    ensures
        final(todo).path == old(todo).path,
        edit_result(
            old(todo).task_views(),
            final(todo).task_views(),
            r,
            edit_run(old(todo).task_views(), ids@, |t: TaskView| set_context_one(t, context)),
        ),
{
    let ghost ts = todo.task_views();
    let ghost f = |t: TaskView| set_context_one(t, context);
    let mut modified: Vec<usize> = Vec::new();
    let mut not_found: Vec<usize> = Vec::new();
    let mut k: usize = 0;
    while k < ids.len()
        invariant
            k <= ids@.len(),
            todo.path == old(todo).path,
            f == (|t: TaskView| set_context_one(t, context)),
            ts == old(todo).task_views(),
            todo.task_views() == edit_run(ts, ids@.take(k as int), f).tasks,
            modified@ == edit_run(ts, ids@.take(k as int), f).modified,
            not_found@ == edit_run(ts, ids@.take(k as int), f).not_found,
        decreases ids.len() - k,
    {
        let id = ids[k];
        proof {
            assert(ids@.take(k + 1).drop_last() =~= ids@.take(k as int));
            assert(ids@.take(k + 1).last() == id);
        }
        match todo.find_task(id) {
            Some(i) => {
                let t = &todo.tasks[i];
                let new_desc = set_time_context(t.description.as_str(), context);
                let line = format_task_with_desc(t, new_desc.as_str());
                let nt = Task::parse(t.id, line.as_str());
                let ghost before = todo.task_views();
                todo.tasks.set(i, nt);
                assert(todo.task_views() =~= before.update(i as int, f(before[i as int])));
                modified.push(id);
            },
            None => {
                not_found.push(id);
            },
        }
        k = k + 1;
    }
    assert(ids@.take(k as int) =~= ids@);
    if modified.len() == 0 {
        proof {
            lemma_edit_run_unchanged(ts, ids@, f);
        }
        return Err(ModifyError { not_found });
    }
    Ok(ModifyReport { modified, not_found })
}

/// The new line of a task during automatic transitions, its due date being
/// `due`: an open task with a due date takes the time context of that date
/// (and keeps its line when the date is too far off); any other task has the
/// transitions applied to its line.
pub open spec fn retimed_line(t: TaskView, due: Option<Ymd>, today: Ymd, trs: Seq<(TimeContext, TimeContext)>) -> Seq<char> {
    let old_line = render(t);
    if !t.is_completed && due is Some {
        match time_context_for_due_spec(due->0, today) {
            Some(c) => set_time_context_spec(old_line, c),
            None => old_line,
        }
    } else {
        apply_transitions_spec(old_line, trs)
    }
}

/// The task after automatic transitions, when its line changed.
pub open spec fn retime_spec(t: TaskView, due: Option<Ymd>, today: Ymd, trs: Seq<(TimeContext, TimeContext)>) -> Option<TaskView> {
    let line = retimed_line(t, due, today, trs);
    if line != render(t) {
        Some(parse_spec(t.id, line))
    } else {
        None
    }
}

/// The task after automatic transitions on `today`, its due date being
/// `due`; `None` when its line stays the same.
pub fn retime_task(task: &Task, due: Option<Date>, today: Date, transitions: &[(TimeContext, TimeContext)]) -> (r: Option<Task>)
    ensures
        crate::task::option_task(r) == retime_spec(task@, crate::date::option_ymd(due), today@, transitions@),
{
    let old_line = task.to_string();
    let new_line = if !task.is_completed && due.is_some() {
        let d = due.unwrap();
        match time_context_for_due(d, today) {
            Some(c) => set_time_context(old_line.as_str(), c),
            None => crate::text::string_from(old_line.as_str()),
        }
    } else {
        apply_transitions(old_line.as_str(), transitions)
    };
    let a = chars_of(old_line.as_str());
    let b = chars_of(new_line.as_str());
    if crate::text::eq_chars(&a, &b) {
        None
    } else {
        Some(Task::parse(task.id, new_line.as_str()))
    }
}

/// The tasks `ts` after automatic transitions on `today`.
pub open spec fn retimed_tasks(ts: Seq<TaskView>, today: Ymd) -> Seq<TaskView> {
    Seq::new(
        ts.len(),
        |i: int|
            match retime_spec(ts[i], due_spec(ts[i]), today, transitions_spec(today)) {
                Some(n) => n,
                None => ts[i],
            },
    )
}

/// The ids and new descriptions of the tasks that change, in order.
pub open spec fn retimed_changes(ts: Seq<TaskView>, today: Ymd) -> Seq<(usize, Seq<char>)>
    decreases ts.len(),
{
    if ts.len() == 0 {
        seq![]
    } else {
        let prev = retimed_changes(ts.drop_last(), today);
        match retime_spec(ts.last(), due_spec(ts.last()), today, transitions_spec(today)) {
            Some(n) => prev.push((ts.last().id as usize, n.description)),
            None => prev,
        }
    }
}

/// What the automatic transitions did.
pub struct TimeUpdateReport {
    pub transitions: Vec<(TimeContext, TimeContext)>,
    pub modified: Vec<(usize, String)>,
}

/// Applies the automatic time-context transitions of `today` to every task.
pub fn time_update(todo: &mut TodoFile, today: Date) -> (r: TimeUpdateReport)
    ensures
        final(todo).path == old(todo).path,
        r.transitions@ == transitions_spec(today@),
        r.modified@.map_values(|p: (usize, String)| (p.0, p.1@)) == retimed_changes(
            old(todo).task_views(),
            today@,
        ),
        final(todo).task_views() == retimed_tasks(old(todo).task_views(), today@),
{
    let transitions = get_transitions_for_date(today);
    let ghost ts = todo.task_views();
    let mut modified: Vec<(usize, String)> = Vec::new();
    let mut i: usize = 0;
    while i < todo.tasks.len()
        invariant
            i <= todo.tasks.len(),
            todo.path == old(todo).path,
            ts == old(todo).task_views(),
            transitions@ == transitions_spec(today@),
            todo.tasks.len() == ts.len(),
            forall|k: int| 0 <= k < i ==> todo.task_views()[k] == retimed_tasks(ts, today@)[k],
            forall|k: int| i <= k < ts.len() ==> todo.task_views()[k] == ts[k],
            modified@.map_values(|p: (usize, String)| (p.0, p.1@)) == retimed_changes(
                ts.take(i as int),
                today@,
            ),
        decreases todo.tasks.len() - i,
    {
        let t = &todo.tasks[i];
        let due = t.due();
        let res = retime_task(t, due, today, transitions.as_slice());
        proof {
            assert(ts.take(i + 1).drop_last() =~= ts.take(i as int));
            assert(ts.take(i + 1).last() == ts[i as int]);
            assert(todo.task_views()[i as int] == ts[i as int]);
        }
        let ghost before_m = modified@.map_values(|p: (usize, String)| (p.0, p.1@));
        match res {
            Some(nt) => {
                let d = crate::text::string_from(nt.description.as_str());
                let id = nt.id;
                let ghost before = todo.task_views();
                todo.tasks.set(i, nt);
                modified.push((id, d));
                assert(modified@.map_values(|p: (usize, String)| (p.0, p.1@)) =~= before_m.push(
                    (id, d@),
                ));
                assert(todo.task_views() =~= before.update(i as int, retimed_tasks(ts, today@)[i as int]));
            },
            None => {},
        }
        i = i + 1;
    }
    assert(ts.take(i as int) =~= ts);
    assert(todo.task_views() =~= retimed_tasks(ts, today@));
    TimeUpdateReport { transitions, modified }
}

} // verus!
