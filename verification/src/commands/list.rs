//! `td list`: the tasks that match a query, in display order.

use crate::filter::{matches_spec, parse_term_spec, Filter, FilterTerm, FilterView, TermView};
use crate::task::{has_context_spec, has_project_spec, TaskView};
use crate::text::string_views;
use crate::todo_file::TodoFile;
use vstd::prelude::*;

verus! {

/// The parts of a filter gathered from query terms.
pub struct TermAcc {
    pub projects: Seq<Seq<char>>,
    pub contexts: Seq<Seq<char>>,
    pub priorities: Seq<char>,
    pub text: Option<Seq<char>>,
}

pub open spec fn any_context(ts: Seq<TaskView>, s: Seq<char>) -> bool {
    exists|i: int| 0 <= i < ts.len() && has_context_spec(#[trigger] ts[i], s)
}

pub open spec fn any_project(ts: Seq<TaskView>, s: Seq<char>) -> bool {
    exists|i: int| 0 <= i < ts.len() && has_project_spec(#[trigger] ts[i], s)
}

/// Reads the query terms in order: projects, contexts and priorities
/// gather, a text replaces an earlier one, and a bare word is a context
/// when some task has that context, else a project when some task has that
/// project, else a text.
pub open spec fn terms_acc(ts: Seq<TaskView>, terms: Seq<Seq<char>>) -> TermAcc
    decreases terms.len(),
{
    if terms.len() == 0 {
        TermAcc { projects: seq![], contexts: seq![], priorities: seq![], text: None }
    } else {
        let prev = terms_acc(ts, terms.drop_last());
        match parse_term_spec(terms.last()) {
            TermView::Project(p) => TermAcc { projects: prev.projects.push(p), ..prev },
            TermView::Context(c) => TermAcc { contexts: prev.contexts.push(c), ..prev },
            TermView::Priority(v) => TermAcc { priorities: prev.priorities + v, ..prev },
            TermView::Text(t) => TermAcc { text: Some(t), ..prev },
            TermView::Ambiguous(s) => if any_context(ts, s) {
                TermAcc { contexts: prev.contexts.push(s), ..prev }
            } else if any_project(ts, s) {
                TermAcc { projects: prev.projects.push(s), ..prev }
            } else {
                TermAcc { text: Some(s), ..prev }
            },
        }
    }
}

/// The context that a query term asks for: `@x` asks for `x`, and a bare
/// word asks for itself when some task has that context.
pub open spec fn term_context(ts: Seq<TaskView>, s: Seq<char>) -> Option<Seq<char>> {
    match parse_term_spec(s) {
        TermView::Context(c) => Some(c),
        TermView::Ambiguous(w) => if any_context(ts, w) {
            Some(w)
        } else {
            None
        },
        _ => None,
    }
}

/// The project that a query term asks for: `+x` asks for `x`, and a bare
/// word that is no task's context asks for itself when some task has that
/// project.
pub open spec fn term_project(ts: Seq<TaskView>, s: Seq<char>) -> Option<Seq<char>> {
    match parse_term_spec(s) {
        TermView::Project(p) => Some(p),
        TermView::Ambiguous(w) => if !any_context(ts, w) && any_project(ts, w) {
            Some(w)
        } else {
            None
        },
        _ => None,
    }
}

/// The priorities that a query term asks for: one for `A`, a range for `A-C`.
pub open spec fn term_priorities(s: Seq<char>) -> Seq<char> {
    match parse_term_spec(s) {
        TermView::Priority(v) => v,
        _ => seq![],
    }
}

/// Whether some query term asks for priority `c`.
pub open spec fn asked_priority(terms: Seq<Seq<char>>, c: char) -> bool {
    exists|i: int, j: int|
        0 <= i < terms.len() && 0 <= j < term_priorities(terms[i]).len() && #[trigger] term_priorities(
            terms[i],
        )[j] == c
}

/// Every priority that a query term asks for is one of the filter's
/// priorities, the filter holds no other, and completed tasks are shown
/// exactly when asked.
pub proof fn lemma_query_priorities_gathered(ts: Seq<TaskView>, terms: Seq<Seq<char>>, show_all: bool)
    ensures
        ({
            let f = list_filter(ts, terms, show_all);
            &&& f.show_completed == show_all
            &&& forall|i: int, j: int|
                0 <= i < terms.len() && 0 <= j < term_priorities(terms[i]).len()
                    ==> f.priorities.contains(#[trigger] term_priorities(terms[i])[j])
            &&& forall|k: int|
                0 <= k < f.priorities.len() ==> asked_priority(terms, #[trigger] f.priorities[k])
        }),
    decreases terms.len(),
{
    if terms.len() > 0 {
        let init = terms.drop_last();
        let n = init.len() as int;
        lemma_query_priorities_gathered(ts, init, show_all);
        let prev = list_filter(ts, init, show_all);
        let f = list_filter(ts, terms, show_all);
        let v = term_priorities(terms[n]);
        assert forall|i: int| 0 <= i < init.len() implies #[trigger] init[i] == terms[i] by {}
        assert(f.priorities == prev.priorities + v);
        assert forall|i: int, j: int|
            0 <= i < terms.len() && 0 <= j < term_priorities(terms[i]).len() implies f.priorities.contains(
            #[trigger] term_priorities(terms[i])[j],
        ) by {
            let c = term_priorities(terms[i])[j];
            if i < n {
                assert(term_priorities(init[i])[j] == c);
                let k = choose|k: int| 0 <= k < prev.priorities.len() && prev.priorities[k] == c;
                assert(f.priorities[k] == c);
            } else {
                assert(f.priorities[prev.priorities.len() + j] == c);
            }
        }
        assert forall|k: int| 0 <= k < f.priorities.len() implies asked_priority(
            terms,
            #[trigger] f.priorities[k],
        ) by {
            if k < prev.priorities.len() {
                assert(f.priorities[k] == prev.priorities[k]);
                assert(asked_priority(init, prev.priorities[k]));
                let (i, j) = choose|i: int, j: int|
                    0 <= i < init.len() && 0 <= j < term_priorities(init[i]).len()
                        && #[trigger] term_priorities(init[i])[j] == prev.priorities[k];
                assert(term_priorities(terms[i])[j] == f.priorities[k]);
            } else {
                let m = k - prev.priorities.len();
                assert(f.priorities[k] == v[m]);
                assert(term_priorities(terms[n])[m] == f.priorities[k]);
            }
        }
    } else {
        assert(list_filter(ts, terms, show_all).priorities.len() == 0);
    }
}

/// Every context and every project that a query term asks for is one of the
/// filter's contexts or projects, and the filter holds no other: so a task
/// with any one of the contexts asked for, and any one of the projects, has
/// what those kinds of condition ask.
pub proof fn lemma_query_terms_gathered(ts: Seq<TaskView>, terms: Seq<Seq<char>>, show_all: bool)
    ensures
        ({
            let acc = list_filter(ts, terms, show_all);
            &&& forall|i: int|
                0 <= i < terms.len() ==> (#[trigger] term_context(ts, terms[i]) matches Some(c)
                    ==> acc.contexts.contains(c))
            &&& forall|k: int|
                #![trigger acc.contexts[k]]
                0 <= k < acc.contexts.len() ==> exists|i: int|
                    0 <= i < terms.len() && #[trigger] term_context(ts, terms[i]) == Some(
                        acc.contexts[k],
                    )
            &&& forall|i: int|
                0 <= i < terms.len() ==> (#[trigger] term_project(ts, terms[i]) matches Some(p)
                    ==> acc.projects.contains(p))
            &&& forall|k: int|
                #![trigger acc.projects[k]]
                0 <= k < acc.projects.len() ==> exists|i: int|
                    0 <= i < terms.len() && #[trigger] term_project(ts, terms[i]) == Some(
                        acc.projects[k],
                    )
        }),
    decreases terms.len(),
{
    if terms.len() > 0 {
        let init = terms.drop_last();
        let last = terms.last();
        let n = init.len() as int;
        lemma_query_terms_gathered(ts, init, show_all);
        let prev = list_filter(ts, init, show_all);
        let acc = list_filter(ts, terms, show_all);
        assert forall|i: int| 0 <= i < init.len() implies #[trigger] init[i] == terms[i] by {}
        assert(terms[n] == last);
        // What the last term adds.
        assert(acc.contexts == match term_context(ts, last) {
            Some(c) => prev.contexts.push(c),
            None => prev.contexts,
        });
        assert(acc.projects == match term_project(ts, last) {
            Some(p) => prev.projects.push(p),
            None => prev.projects,
        });
        assert forall|i: int| 0 <= i < terms.len() implies (#[trigger] term_context(
            ts,
            terms[i],
        ) matches Some(c) ==> acc.contexts.contains(c)) by {
            if let Some(c) = term_context(ts, terms[i]) {
                if i < n {
                    assert(term_context(ts, init[i]) == Some(c));
                    let k = choose|k: int| 0 <= k < prev.contexts.len() && prev.contexts[k] == c;
                    assert(acc.contexts[k] == c);
                } else {
                    assert(acc.contexts[acc.contexts.len() - 1] == c);
                }
            }
        }
        assert forall|k: int| #![trigger acc.contexts[k]] 0 <= k < acc.contexts.len() implies exists|i: int|
            0 <= i < terms.len() && #[trigger] term_context(ts, terms[i]) == Some(acc.contexts[k]) by {
            if k < prev.contexts.len() {
                assert(acc.contexts[k] == prev.contexts[k]);
                let i = choose|i: int|
                    0 <= i < init.len() && #[trigger] term_context(ts, init[i]) == Some(
                        prev.contexts[k],
                    );
                assert(term_context(ts, terms[i]) == Some(acc.contexts[k]));
            } else {
                assert(term_context(ts, terms[n]) == Some(acc.contexts[k]));
            }
        }
        assert forall|i: int| 0 <= i < terms.len() implies (#[trigger] term_project(
            ts,
            terms[i],
        ) matches Some(p) ==> acc.projects.contains(p)) by {
            if let Some(p) = term_project(ts, terms[i]) {
                if i < n {
                    assert(term_project(ts, init[i]) == Some(p));
                    let k = choose|k: int| 0 <= k < prev.projects.len() && prev.projects[k] == p;
                    assert(acc.projects[k] == p);
                } else {
                    assert(acc.projects[acc.projects.len() - 1] == p);
                }
            }
        }
        assert forall|k: int| #![trigger acc.projects[k]] 0 <= k < acc.projects.len() implies exists|i: int|
            0 <= i < terms.len() && #[trigger] term_project(ts, terms[i]) == Some(acc.projects[k]) by {
            if k < prev.projects.len() {
                assert(acc.projects[k] == prev.projects[k]);
                let i = choose|i: int|
                    0 <= i < init.len() && #[trigger] term_project(ts, init[i]) == Some(
                        prev.projects[k],
                    );
                assert(term_project(ts, terms[i]) == Some(acc.projects[k]));
            } else {
                assert(term_project(ts, terms[n]) == Some(acc.projects[k]));
            }
        }
    }
}

/// The filter of a `list` query.
pub open spec fn list_filter(ts: Seq<TaskView>, terms: Seq<Seq<char>>, show_all: bool) -> FilterView {
    let acc = terms_acc(ts, terms);
    FilterView {
        projects: acc.projects,
        contexts: acc.contexts,
        priorities: acc.priorities,
        text: acc.text,
        show_completed: show_all,
    }
}

/// Sort rank of a priority: `A` first, tasks without one last.
pub open spec fn priority_rank(p: Option<char>) -> int {
    match p {
        Some(c) => (c as u32) as int,
        None => 0x110000,
    }
}

/// Whether the task at position `a` is listed before that at `b`: by
/// priority, then id, then position in the file.
pub open spec fn listed_before(ts: Seq<TaskView>, a: int, b: int) -> bool {
    let ra = priority_rank(ts[a].priority);
    let rb = priority_rank(ts[b].priority);
    ra < rb || (ra == rb && (ts[a].id < ts[b].id || (ts[a].id == ts[b].id && a < b)))
}

/// The answer to a `list` query.
pub enum ListOutcome {
    /// The file holds no task.
    NoTasks,
    /// No task matches.
    NoMatches,
    /// The positions of the matching tasks, in display order.
    Matches(Vec<usize>),
}

/// Whether `ps` lists exactly the positions of the tasks of `ts` that pass
/// `f`, in display order.
pub open spec fn display_order(ts: Seq<TaskView>, f: FilterView, ps: Seq<usize>) -> bool {
    &&& forall|k: int| 0 <= k < ps.len() ==> #[trigger] ps[k] < ts.len()
    &&& forall|i: int|
        0 <= i < ts.len() ==> (matches_spec(f, ts[i]) <==> exists|k: int|
            0 <= k < ps.len() && #[trigger] ps[k] == i)
    &&& forall|m: int, n: int|
        0 <= m < n < ps.len() ==> listed_before(ts, #[trigger] ps[m] as int, #[trigger] ps[n] as int)
}

fn rank(p: Option<char>) -> (r: u32)
    ensures
        r == priority_rank(p),
{
    match p {
        Some(c) => c as u32,
        None => 0x110000,
    }
}

fn before_exec(todo: &TodoFile, a: usize, b: usize) -> (r: bool)
    requires
        a < todo.tasks.len(),
        b < todo.tasks.len(),
    ensures
        r == listed_before(todo.task_views(), a as int, b as int),
{
    let ra = rank(todo.tasks[a].priority);
    let rb = rank(todo.tasks[b].priority);
    let ia = todo.tasks[a].id;
    let ib = todo.tasks[b].id;
    ra < rb || (ra == rb && (ia < ib || (ia == ib && a < b)))
}

/// The filter of a `list` query over the tasks of `todo`.
pub fn build_filter(todo: &TodoFile, terms: &[String], show_all: bool) -> (f: Filter)
    ensures
        f@ == list_filter(todo.task_views(), string_views(terms@), show_all),
{
    let ghost ts = todo.task_views();
    let ghost tv = string_views(terms@);
    let mut projects: Vec<String> = Vec::new();
    let mut contexts: Vec<String> = Vec::new();
    let mut priorities: Vec<char> = Vec::new();
    let mut text: Option<String> = None;
    let mut k: usize = 0;
    while k < terms.len()
        invariant
            k <= terms@.len(),
            ts == todo.task_views(),
            tv == string_views(terms@),
            ({
                let acc = terms_acc(ts, tv.take(k as int));
                &&& string_views(projects@) == acc.projects
                &&& string_views(contexts@) == acc.contexts
                &&& priorities@ == acc.priorities
                &&& (match text {
                    Some(t) => Some(t@),
                    None => None,
                }) == acc.text
            }),
        decreases terms.len() - k,
    {
        proof {
            assert(tv.take(k + 1).drop_last() =~= tv.take(k as int));
            assert(tv.take(k + 1).last() == terms@[k as int]@);
        }
        let ghost pp = string_views(projects@);
        let ghost pc = string_views(contexts@);
        let ghost pr = priorities@;
        match Filter::parse_term(terms[k].as_str()) {
            FilterTerm::Project(p) => {
                let ghost pv = p@;
                projects.push(p);
                assert(string_views(projects@) =~= pp.push(pv));
            },
            FilterTerm::Context(c) => {
                let ghost cv = c@;
                contexts.push(c);
                assert(string_views(contexts@) =~= pc.push(cv));
            },
            FilterTerm::Priority(v) => {
                let mut m: usize = 0;
                while m < v.len()
                    invariant
                        m <= v.len(),
                        priorities@ == pr + v@.take(m as int),
                    decreases v.len() - m,
                {
                    priorities.push(v[m]);
                    m = m + 1;
                    assert(priorities@ =~= pr + v@.take(m as int));
                }
                assert(v@.take(m as int) =~= v@);
            },
            FilterTerm::Text(t) => {
                text = Some(t);
            },
            FilterTerm::Ambiguous(s) => {
                let mut is_context = false;
                let mut is_project = false;
                let mut i: usize = 0;
                while i < todo.tasks.len()
                    invariant
                        i <= todo.tasks.len(),
                        ts == todo.task_views(),
                        is_context == exists|j: int|
                            0 <= j < i && has_context_spec(#[trigger] ts[j], s@),
                        is_project == exists|j: int|
                            0 <= j < i && has_project_spec(#[trigger] ts[j], s@),
                    decreases todo.tasks.len() - i,
                {
                    let hc = todo.tasks[i].has_context(s.as_str());
                    let hp = todo.tasks[i].has_project(s.as_str());
                    assert(ts[i as int] == todo.tasks@[i as int]@);
                    is_context = is_context || hc;
                    is_project = is_project || hp;
                    i = i + 1;
                }
                if is_context {
                    let ghost sv = s@;
                    contexts.push(s);
                    assert(string_views(contexts@) =~= pc.push(sv));
                } else if is_project {
                    let ghost sv = s@;
                    projects.push(s);
                    assert(string_views(projects@) =~= pp.push(sv));
                } else {
                    text = Some(s);
                }
            },
        }
        k = k + 1;
    }
    assert(tv.take(k as int) =~= tv);
    let mut f = Filter::new();
    if show_all {
        f = f.include_completed();
    }
    f = f.with_projects(projects);
    f = f.with_contexts(contexts);
    f = f.with_priorities(priorities);
    match text {
        Some(t) => {
            f = f.with_text(t);
        },
        None => {},
    }
    f
}

/// Answers a `list` query: the positions of the tasks that match, sorted by
/// priority (none last), then id.
pub fn list(todo: &TodoFile, terms: &[String], show_all: bool) -> (r: ListOutcome)
    ensures
        ({
            let ts = todo.task_views();
            let f = list_filter(ts, string_views(terms@), show_all);
            match r {
                ListOutcome::NoTasks => ts.len() == 0,
                ListOutcome::NoMatches => ts.len() > 0 && forall|i: int|
                    0 <= i < ts.len() ==> !matches_spec(f, #[trigger] ts[i]),
                ListOutcome::Matches(ps) => ps@.len() > 0 && display_order(ts, f, ps@),
            }
        }),
{
    if todo.tasks.len() == 0 {
        return ListOutcome::NoTasks;
    }
    let ghost ts = todo.task_views();
    let filter = build_filter(todo, terms, show_all);
    let mut ps: Vec<usize> = Vec::new();
    let mut i: usize = 0;
    while i < todo.tasks.len()
        invariant
            i <= todo.tasks.len(),
            ts == todo.task_views(),
            filter@ == list_filter(ts, string_views(terms@), show_all),
            forall|k: int| 0 <= k < ps@.len() ==> #[trigger] ps@[k] < i,
            forall|j: int|
                0 <= j < i ==> (matches_spec(filter@, ts[j]) <==> exists|k: int|
                    0 <= k < ps@.len() && #[trigger] ps@[k] == j),
            forall|m: int, n: int|
                0 <= m < n < ps@.len() ==> listed_before(ts, #[trigger] ps@[m] as int, #[trigger] ps@[n] as int),
        decreases todo.tasks.len() - i,
    {
        let hit = filter.matches(&todo.tasks[i]);
        assert(ts[i as int] == todo.tasks@[i as int]@);
        if hit {
            let mut k = ps.len();
            while k > 0 && before_exec(todo, i, ps[k - 1])
                invariant
                    k <= ps@.len(),
                    i < todo.tasks.len(),
                    ts == todo.task_views(),
                    forall|q: int| 0 <= q < ps@.len() ==> #[trigger] ps@[q] < i,
                    forall|q: int| k <= q < ps@.len() ==> listed_before(ts, i as int, #[trigger] ps@[q] as int),
                decreases k,
            {
                k = k - 1;
            }
            let ghost old_ps = ps@;
            proof {
                if k > 0 {
                    assert(!listed_before(ts, i as int, old_ps[k - 1] as int));
                    assert(listed_before(ts, old_ps[k - 1] as int, i as int));
                }
            }
            ps.insert(k, i);
            proof {
                assert forall|m: int, n: int|
                    0 <= m < n < ps@.len() implies listed_before(ts, #[trigger] ps@[m] as int, #[trigger] ps@[n] as int) by {
                    if n < k {
                        assert(ps@[m] == old_ps[m] && ps@[n] == old_ps[n]);
                    } else if n == k {
                        assert(ps@[m] == old_ps[m]);
                        if m < k - 1 {
                            assert(listed_before(ts, old_ps[m] as int, old_ps[k - 1] as int));
                        }
                    } else if m == k {
                        assert(ps@[n] == old_ps[n - 1]);
                    } else if m < k {
                        assert(ps@[m] == old_ps[m] && ps@[n] == old_ps[n - 1]);
                    } else {
                        assert(ps@[m] == old_ps[m - 1] && ps@[n] == old_ps[n - 1]);
                    }
                }
                assert forall|j: int|
                    0 <= j < i + 1 implies (matches_spec(filter@, ts[j]) <==> exists|q: int|
                        0 <= q < ps@.len() && #[trigger] ps@[q] == j) by {
                    if j < i {
                        if matches_spec(filter@, ts[j]) {
                            let q = choose|q: int| 0 <= q < old_ps.len() && old_ps[q] == j;
                            if q < k {
                                assert(ps@[q] == j);
                            } else {
                                assert(ps@[q + 1] == j);
                            }
                        }
                        if exists|q: int| 0 <= q < ps@.len() && #[trigger] ps@[q] == j {
                            let q = choose|q: int| 0 <= q < ps@.len() && ps@[q] == j;
                            if q < k {
                                assert(old_ps[q] == j);
                            } else if q > k {
                                assert(old_ps[q - 1] == j);
                            }
                        }
                    } else {
                        assert(ps@[k as int] == j);
                    }
                }
            }
        } else {
            proof {
                assert forall|k: int| 0 <= k < ps@.len() implies #[trigger] ps@[k] != i by {}
            }
        }
        i = i + 1;
    }
    if ps.len() == 0 {
        return ListOutcome::NoMatches;
    }
    ListOutcome::Matches(ps)
}

/// How many of the tasks at positions `ps` are completed.
pub open spec fn completed_among(ts: Seq<TaskView>, ps: Seq<usize>) -> nat
    decreases ps.len(),
{
    if ps.len() == 0 {
        0
    } else {
        completed_among(ts, ps.drop_last()) + if ts[ps.last() as int].is_completed {
            1nat
        } else {
            0nat
        }
    }
}

/// How many of the listed tasks are completed (for the summary of a list).
pub fn completed_count(todo: &TodoFile, ps: &Vec<usize>) -> (r: usize)
    requires
        forall|k: int| 0 <= k < ps.len() ==> #[trigger] ps[k] < todo.tasks.len(),
    ensures
        r == completed_among(todo.task_views(), ps@),
{
    let mut n: usize = 0;
    let mut k: usize = 0;
    while k < ps.len()
        invariant
            k <= ps.len(),
            forall|j: int| 0 <= j < ps.len() ==> #[trigger] ps[j] < todo.tasks.len(),
            n == completed_among(todo.task_views(), ps@.take(k as int)),
            n <= k,
        decreases ps.len() - k,
    {
        assert(ps@.take(k + 1).drop_last() =~= ps@.take(k as int));
        assert(todo.task_views()[ps[k as int] as int] == todo.tasks@[ps[k as int] as int]@);
        if todo.tasks[ps[k]].is_completed {
            n = n + 1;
        }
        k = k + 1;
    }
    assert(ps@.take(k as int) =~= ps@);
    n
}

} // verus!
