//! Selecting tasks by project, context, priority and text.

use crate::task::{has_context_spec, has_project_spec, Task, TaskView};
use crate::text::{
    chars_of, contains, contains_chars, lowercase, string_of, string_of_range, string_views,
    to_lowercase,
};
use vstd::prelude::*;

verus! {

/// A selection of tasks: projects and contexts are each alternatives (any
/// one suffices), the kinds of condition must all hold.
#[derive(Debug)]
pub struct Filter {
    pub projects: Vec<String>,
    pub contexts: Vec<String>,
    pub priorities: Vec<char>,
    pub text: Option<String>,
    pub show_completed: bool,
}

pub struct FilterView {
    pub projects: Seq<Seq<char>>,
    pub contexts: Seq<Seq<char>>,
    pub priorities: Seq<char>,
    pub text: Option<Seq<char>>,
    pub show_completed: bool,
}

impl View for Filter {
    type V = FilterView;

    open spec fn view(&self) -> FilterView {
        FilterView {
            projects: string_views(self.projects@),
            contexts: string_views(self.contexts@),
            priorities: self.priorities@,
            text: match self.text {
                Some(t) => Some(t@),
                None => None,
            },
            show_completed: self.show_completed,
        }
    }
}

pub open spec fn empty_filter() -> FilterView {
    FilterView {
        projects: seq![],
        contexts: seq![],
        priorities: seq![],
        text: None,
        show_completed: false,
    }
}

/// Whether the description contains the text, both taken in lowercase.
pub open spec fn text_matches_spec(description: Seq<char>, text: Seq<char>) -> bool {
    contains(lowercase(description), lowercase(text))
}

/// Whether a task passes the filter: it is open (unless completed tasks are
/// shown), has one of the projects, one of the contexts and one of the
/// priorities (each when any is given), and its description holds the text
/// ignoring case (when a text is given).
pub open spec fn matches_spec(f: FilterView, t: TaskView) -> bool {
    &&& (!t.is_completed || f.show_completed)
    &&& (f.projects.len() == 0 || exists|i: int|
        0 <= i < f.projects.len() && has_project_spec(t, #[trigger] f.projects[i]))
    &&& (f.contexts.len() == 0 || exists|i: int|
        0 <= i < f.contexts.len() && has_context_spec(t, #[trigger] f.contexts[i]))
    &&& (f.priorities.len() == 0 || (t.priority matches Some(p) && f.priorities.contains(p)))
    &&& (f.text matches Some(x) ==> text_matches_spec(t.description, x))
}

/// A term of a `list` query.
#[derive(Debug)]
pub enum FilterTerm {
    Project(String),
    Context(String),
    Priority(Vec<char>),
    Text(String),
    Ambiguous(String),
}

pub enum TermView {
    Project(Seq<char>),
    Context(Seq<char>),
    Priority(Seq<char>),
    Text(Seq<char>),
    Ambiguous(Seq<char>),
}

impl View for FilterTerm {
    type V = TermView;

    open spec fn view(&self) -> TermView {
        match self {
            FilterTerm::Project(s) => TermView::Project(s@),
            FilterTerm::Context(s) => TermView::Context(s@),
            FilterTerm::Priority(v) => TermView::Priority(v@),
            FilterTerm::Text(s) => TermView::Text(s@),
            FilterTerm::Ambiguous(s) => TermView::Ambiguous(s@),
        }
    }
}

pub open spec fn is_upper(c: char) -> bool {
    65 <= (c as u32) <= 90
}

/// The characters from `a` to `b`, both included.
pub open spec fn char_range(a: char, b: char) -> Seq<char> {
    Seq::new(((b as u32) - (a as u32) + 1) as nat, |i: int| ((a as u32) + i) as char)
}

/// Number of bytes of the UTF-8 encoding of `c`.
pub open spec fn char_width(c: char) -> nat {
    let u = c as u32;
    if u < 0x80 {
        1
    } else if u < 0x800 {
        2
    } else if u < 0x10000 {
        3
    } else {
        4
    }
}

/// Number of bytes of the UTF-8 encoding of `s` (`str::len`).
pub open spec fn byte_len(s: Seq<char>) -> nat
    decreases s.len(),
{
    if s.len() == 0 {
        0
    } else {
        byte_len(s.drop_last()) + char_width(s.last())
    }
}

pub proof fn lemma_byte_len_prefix(s: Seq<char>, k: int)
    requires
        0 <= k <= s.len(),
    ensures
        byte_len(s.take(k)) <= byte_len(s),
        byte_len(s) >= s.len(),
    decreases s.len(),
{
    if s.len() > 0 {
        if k < s.len() {
            assert(s.drop_last().take(k) =~= s.take(k));
            lemma_byte_len_prefix(s.drop_last(), k);
        } else {
            assert(s.take(k) =~= s);
            lemma_byte_len_prefix(s.drop_last(), 0);
        }
    } else {
        assert(s.take(k) =~= s);
    }
}

/// `byte_len(v)` when it is at most 4, otherwise 5.
fn byte_len_capped(v: &Vec<char>) -> (r: usize)
    ensures
        r == if byte_len(v@) <= 4 {
            byte_len(v@)
        } else {
            5
        },
{
    let mut acc: usize = 0;
    let mut i: usize = 0;
    while i < v.len()
        invariant
            i <= v.len(),
            acc == byte_len(v@.take(i as int)),
            acc <= 4,
        decreases v.len() - i,
    {
        let u = v[i] as u32;
        let w: usize = if u < 0x80 {
            1
        } else if u < 0x800 {
            2
        } else if u < 0x10000 {
            3
        } else {
            4
        };
        assert(v@.take(i + 1).drop_last() =~= v@.take(i as int));
        acc = acc + w;
        i = i + 1;
        if acc > 4 {
            proof {
                lemma_byte_len_prefix(v@, i as int);
            }
            return 5;
        }
    }
    assert(v@.take(i as int) =~= v@);
    acc
}

/// `X-Y` with single-byte `X` and `Y` other than `-`: what splitting a
/// three-byte term at its `-` into two one-byte halves requires.
pub open spec fn dash_pair(s: Seq<char>) -> bool {
    s.len() == 3 && s[1] == '-' && s[0] != '-' && s[2] != '-' && (s[0] as u32) < 128 && (
    s[2] as u32) < 128
}

/// How a `list` term is read: `+x` is a project, `@x` a context, a single
/// capital letter a priority, `A-C` a range of priorities (other
/// three-byte terms with a `-` are text), anything else is left to be
/// resolved against the tasks.
pub open spec fn parse_term_spec(s: Seq<char>) -> TermView {
    if s.len() > 0 && s[0] == '+' {
        TermView::Project(s.skip(1))
    } else if s.len() > 0 && s[0] == '@' {
        TermView::Context(s.skip(1))
    } else if byte_len(s) == 1 && is_upper(s[0]) {
        TermView::Priority(seq![s[0]])
    } else if byte_len(s) == 3 && contains(s, seq!['-']) {
        if dash_pair(s) && is_upper(s[0]) && is_upper(s[2]) && (s[0] as u32) <= (s[2] as u32) {
            TermView::Priority(char_range(s[0], s[2]))
        } else {
            TermView::Text(s)
        }
    } else {
        TermView::Ambiguous(s)
    }
}

/// The views of a sequence of tasks.
pub open spec fn task_views(ts: Seq<Task>) -> Seq<TaskView> {
    ts.map_values(|t: Task| t@)
}

/// The tasks of `ts` that pass the filter `f`, in order.
pub open spec fn filtered(ts: Seq<Task>, f: FilterView) -> Seq<TaskView> {
    task_views(ts).filter(|t: TaskView| matches_spec(f, t))
}

/// The tasks that pass `filter`, in their order.
pub fn apply_filter<'a>(tasks: &'a [Task], filter: &Filter) -> (r: Vec<&'a Task>)
    ensures
        r@.map_values(|t: &Task| t@) == filtered(tasks@, filter@),
{
    let mut out: Vec<&'a Task> = Vec::new();
    let mut i: usize = 0;
    let ghost pred = |t: TaskView| matches_spec(filter@, t);
    while i < tasks.len()
        invariant
            i <= tasks@.len(),
            pred == (|t: TaskView| matches_spec(filter@, t)),
            out@.map_values(|t: &Task| t@) == task_views(tasks@.take(i as int)).filter(pred),
        decreases tasks.len() - i,
    {
        let ghost before = out@.map_values(|t: &Task| t@);
        let m = filter.matches(&tasks[i]);
        proof {
            let tv = task_views(tasks@.take(i + 1));
            assert(tv.drop_last() =~= task_views(tasks@.take(i as int)));
            assert(tv.last() == tasks@[i as int]@);
            reveal(Seq::filter);
        }
        if m {
            out.push(&tasks[i]);
            assert(out@.map_values(|t: &Task| t@) =~= before.push(tasks@[i as int]@));
        }
        i = i + 1;
    }
    assert(tasks@.take(i as int) =~= tasks@);
    out
}

impl Default for Filter {
    fn default() -> (f: Filter)
        ensures
            f@ == empty_filter(),
    {
        let f = Filter {
            projects: Vec::new(),
            contexts: Vec::new(),
            priorities: Vec::new(),
            text: None,
            show_completed: false,
        };
        assert(f@.projects =~= Seq::<Seq<char>>::empty());
        assert(f@.contexts =~= Seq::<Seq<char>>::empty());
        f
    }
}

/// The character with ASCII code `u`.
fn char_from_ascii(u: u32) -> (c: char)
    requires
        u < 128,
    ensures
        c == u as char,
        c as u32 == u,
{
    (u as u8) as char
}

/// Whether `description` contains `text`, ignoring case.
pub fn text_matches(description: &str, text: &str) -> (r: bool)
    ensures
        r == text_matches_spec(description@, text@),
{
    let d = to_lowercase(description);
    let t = to_lowercase(text);
    let dv = chars_of(d.as_str());
    let tv = chars_of(t.as_str());
    contains_chars(&dv, &tv)
}

impl Filter {
    pub fn new() -> (f: Filter)
        ensures
            f@ == empty_filter(),
    {
        Filter::default()
    }

    pub fn with_projects(self, projects: Vec<String>) -> (f: Filter)
        ensures
            f@ == (FilterView { projects: string_views(projects@), ..self@ }),
    {
        let mut f = self;
        f.projects = projects;
        f
    }

    pub fn with_contexts(self, contexts: Vec<String>) -> (f: Filter)
        ensures
            f@ == (FilterView { contexts: string_views(contexts@), ..self@ }),
    {
        let mut f = self;
        f.contexts = contexts;
        f
    }

    pub fn with_priorities(self, priorities: Vec<char>) -> (f: Filter)
        ensures
            f@ == (FilterView { priorities: priorities@, ..self@ }),
    {
        let mut f = self;
        f.priorities = priorities;
        f
    }

    pub fn with_text(self, text: String) -> (f: Filter)
        ensures
            f@ == (FilterView { text: Some(text@), ..self@ }),
    {
        let mut f = self;
        f.text = Some(text);
        f
    }

    pub fn include_completed(self) -> (f: Filter)
        ensures
            f@ == (FilterView { show_completed: true, ..self@ }),
    {
        let mut f = self;
        f.show_completed = true;
        f
    }

    /// Reads a `list` term such as `+project`, `@context`, `A` or `A-C`.
    pub fn parse_term(term: &str) -> (r: FilterTerm)
        ensures
            r@ == parse_term_spec(term@),
    {
        let v = chars_of(term);
        if v.len() > 0 && v[0] == '+' {
            let rest = string_of_range(&v, 1, v.len());
            assert(v@.subrange(1, v@.len() as int) =~= term@.skip(1));
            return FilterTerm::Project(rest);
        }
        if v.len() > 0 && v[0] == '@' {
            let rest = string_of_range(&v, 1, v.len());
            assert(v@.subrange(1, v@.len() as int) =~= term@.skip(1));
            return FilterTerm::Context(rest);
        }
        let nbytes = byte_len_capped(&v);
        if nbytes == 1 {
            proof {
                lemma_byte_len_prefix(term@, 0);
                if term@.len() == 0 {
                    assert(byte_len(term@) == 0);
                }
            }
            let c = v[0];
            if 65 <= (c as u32) && (c as u32) <= 90 {
                let mut p: Vec<char> = Vec::new();
                p.push(c);
                assert(p@ =~= seq![term@[0]]);
                return FilterTerm::Priority(p);
            }
        }
        let mut dash: Vec<char> = Vec::new();
        dash.push('-');
        assert(dash@ =~= seq!['-']);
        if nbytes == 3 && contains_chars(&v, &dash) {
            if v.len() == 3 && v[1] == '-' && v[0] != '-' && v[2] != '-' && (v[0] as u32) < 128 && (
            v[2] as u32) < 128 {
                let start = v[0];
                let end = v[2];
                if 65 <= (start as u32) && (start as u32) <= 90 && 65 <= (end as u32) && (
                end as u32) <= 90 && (start as u32) <= (end as u32) {
                    let mut ps: Vec<char> = Vec::new();
                    let mut u = start as u32;
                    while u <= end as u32
                        invariant
                            65 <= start as u32 <= u <= (end as u32) + 1,
                            end as u32 <= 90,
                            ps@ == char_range(start, end).take(u - start as u32),
                        decreases (end as u32) + 1 - u,
                    {
                        ps.push(char_from_ascii(u));
                        assert(ps@ =~= char_range(start, end).take(u + 1 - start as u32));
                        u = u + 1;
                    }
                    assert(ps@ =~= char_range(start, end));
                    return FilterTerm::Priority(ps);
                }
            }
            return FilterTerm::Text(string_of(&v));
        }
        FilterTerm::Ambiguous(string_of(&v))
    }

    /// Whether `task` passes the filter.
    pub fn matches(&self, task: &Task) -> (r: bool)
        ensures
            r == matches_spec(self@, task@),
    {
        if task.is_completed && !self.show_completed {
            return false;
        }
        if self.projects.len() > 0 {
            let mut found = false;
            let mut i: usize = 0;
            while i < self.projects.len()
                invariant
                    i <= self.projects.len(),
                    found == exists|k: int|
                        0 <= k < i && has_project_spec(task@, #[trigger] self@.projects[k]),
                decreases self.projects.len() - i,
            {
                let h = task.has_project(self.projects[i].as_str());
                assert(self@.projects[i as int] == self.projects@[i as int]@);
                found = found || h;
                i = i + 1;
            }
            if !found {
                return false;
            }
        }
        if self.contexts.len() > 0 {
            let mut found = false;
            let mut i: usize = 0;
            while i < self.contexts.len()
                invariant
                    i <= self.contexts.len(),
                    found == exists|k: int|
                        0 <= k < i && has_context_spec(task@, #[trigger] self@.contexts[k]),
                decreases self.contexts.len() - i,
            {
                let h = task.has_context(self.contexts[i].as_str());
                assert(self@.contexts[i as int] == self.contexts@[i as int]@);
                found = found || h;
                i = i + 1;
            }
            if !found {
                return false;
            }
        }
        if self.priorities.len() > 0 {
            match task.priority {
                Some(p) => {
                    let mut found = false;
                    let mut i: usize = 0;
                    while i < self.priorities.len()
                        invariant
                            i <= self.priorities.len(),
                            found == exists|k: int| 0 <= k < i && self.priorities@[k] == p,
                        decreases self.priorities.len() - i,
                    {
                        if self.priorities[i] == p {
                            found = true;
                        }
                        i = i + 1;
                    }
                    if !found {
                        return false;
                    }
                },
                None => {
                    return false;
                },
            }
        }
        match &self.text {
            Some(text) => text_matches(task.description.as_str(), text.as_str()),
            None => true,
        }
    }
}

} // verus!
