//! `td add`: a new task at the end of the list.

use crate::date::{Date, Ymd};
use crate::task::{line_takes_creation_date, new_spec, parse_spec, render, takes_creation_date, Task, TaskView};
use crate::text::trim;
use crate::todo_file::TodoFile;
use vstd::prelude::*;

verus! {

/// The task that `text` adds on `today`: when dates go on added tasks and
/// the text is an open task with no creation date, the text's line read as
/// a task with `today` as its creation date; otherwise the task whose
/// description is the text.
pub open spec fn added_task(text: Seq<char>, today: Ymd, date_on_add: bool) -> TaskView {
    if date_on_add && takes_creation_date(trim(text)) {
        TaskView { raw: seq![], creation_date: Some(today), ..parse_spec(0, text) }
    } else {
        new_spec(text)
    }
}

/// Appends a task made from `text` on `today` (dated when `date_on_add`
/// and the text has no creation date) and returns its todo.txt line.
pub fn add(todo: &mut TodoFile, text: &str, today: Date, date_on_add: bool) -> (line: String)
    requires
        old(todo).tasks.len() < usize::MAX,
    ensures
        line@ == render(added_task(text@, today@, date_on_add)),
        final(todo).path == old(todo).path,
        final(todo).task_views() == old(todo).task_views().push(
            (TaskView {
                id: (old(todo).tasks.len() + 1) as nat,
                ..added_task(text@, today@, date_on_add)
            }),
        ),
{
    let task = if date_on_add && line_takes_creation_date(text) {
        let mut t = Task::parse(0, text);
        t.raw = String::new();
        t.creation_date = Some(today);
        t
    } else {
        Task::new(text)
    };
    let line = task.to_string();
    todo.add_task(task);
    line
}

} // verus!
