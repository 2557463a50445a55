//! How tasks are shown: the style of a task's line.

use crate::task::{Task, TaskView};
use vstd::prelude::*;

verus! {

/// Settings of the output.
#[derive(Debug, Clone, Copy)]
pub struct Printer {
    pub color: bool,
}

/// The look of a task's line.
#[derive(Debug, Clone, Copy, PartialEq, Eq)]
pub enum TaskStyle {
    /// No colors at all.
    Plain,
    /// Completed: dimmed and struck through.
    Completed,
    /// Priority A: red and bold.
    PriorityA,
    /// Priority B: yellow.
    PriorityB,
    /// Priority C: blue.
    PriorityC,
    /// Priority D: cyan.
    PriorityD,
    /// Any other open task: the terminal's normal style.
    Normal,
}

/// The style of a task's line: plain without colors; otherwise completed
/// tasks are dimmed, priorities A to D have their colors and the rest look
/// normal.
pub open spec fn style_spec(color: bool, t: TaskView) -> TaskStyle {
    if !color {
        TaskStyle::Plain
    } else if t.is_completed {
        TaskStyle::Completed
    } else {
        match t.priority {
            Some(p) => if p == 'A' {
                TaskStyle::PriorityA
            } else if p == 'B' {
                TaskStyle::PriorityB
            } else if p == 'C' {
                TaskStyle::PriorityC
            } else if p == 'D' {
                TaskStyle::PriorityD
            } else {
                TaskStyle::Normal
            },
            None => TaskStyle::Normal,
        }
    }
}

impl Default for Printer {
    fn default() -> (p: Printer)
        ensures
            p.color,
    {
        Printer::new(true)
    }
}

impl Printer {
    pub fn new(color: bool) -> (p: Printer)
        ensures
            p.color == color,
    {
        Printer { color }
    }

    /// The style in which `task` is shown.
    pub fn task_style(&self, task: &Task) -> (s: TaskStyle)
        ensures
            s == style_spec(self.color, task@),
    {
        if !self.color {
            return TaskStyle::Plain;
        }
        if task.is_completed {
            return TaskStyle::Completed;
        }
        match task.priority {
            Some('A') => TaskStyle::PriorityA,
            Some('B') => TaskStyle::PriorityB,
            Some('C') => TaskStyle::PriorityC,
            Some('D') => TaskStyle::PriorityD,
            _ => TaskStyle::Normal,
        }
    }
}

} // verus!
