//! A todo.txt file held in memory: its tasks, numbered by line, read from and
//! written to its text.

use crate::config::{answered, dirs_home_dir, joined_path, option_text, std_join, todo_txt};
use crate::filter::task_views;
use crate::task::{parse_spec, render, Task, TaskView};
use crate::text::{append_chars, chars_of, join, string_of, string_of_range, trim};
use vstd::prelude::*;

verus! {

/// The lines of a text, as `str::lines` gives them: split at `\n`, a `\r`
/// before the `\n` dropped, and no empty line after a final `\n`.
pub open spec fn lines(s: Seq<char>) -> Seq<Seq<char>>
    decreases s.len(),
{
    if s.len() == 0 {
        seq![]
    } else {
        let k = first_newline(s) as int;
        proof {
            lemma_first_newline(s);
        }
        if k == s.len() {
            seq![s]
        } else {
            let line = s.take(k);
            let line = if line.len() > 0 && line.last() == '\r' {
                line.drop_last()
            } else {
                line
            };
            seq![line] + lines(s.skip(k + 1))
        }
    }
}

/// Index of the first `\n` of `s`, or its length when it has none.
pub open spec fn first_newline(s: Seq<char>) -> nat
    decreases s.len(),
{
    if s.len() == 0 || s[0] == '\n' {
        0
    } else {
        1 + first_newline(s.drop_first())
    }
}

pub proof fn lemma_first_newline(s: Seq<char>)
    ensures
        first_newline(s) <= s.len(),
        first_newline(s) < s.len() ==> s[first_newline(s) as int] == '\n',
        forall|i: int| 0 <= i < first_newline(s) ==> #[trigger] s[i] != '\n',
    decreases s.len(),
{
    if s.len() > 0 && s[0] != '\n' {
        lemma_first_newline(s.drop_first());
        assert forall|i: int| 0 <= i < first_newline(s) implies #[trigger] s[i] != '\n' by {
            if i > 0 {
                assert(s[i] == s.drop_first()[i - 1]);
            }
        }
        if first_newline(s) < s.len() {
            assert(s[first_newline(s) as int] == s.drop_first()[first_newline(s.drop_first()) as int]);
        }
    }
}

/// The tasks of the lines `ls`, the first of which is line `start + 1`:
/// blank lines are skipped but still counted.
pub open spec fn tasks_of_lines(ls: Seq<Seq<char>>, start: nat) -> Seq<TaskView>
    decreases ls.len(),
{
    if ls.len() == 0 {
        seq![]
    } else {
        let first = if trim(ls[0]).len() > 0 {
            seq![parse_spec(start + 1, ls[0])]
        } else {
            seq![]
        };
        first + tasks_of_lines(ls.drop_first(), start + 1)
    }
}

/// The tasks that a todo.txt text holds, each numbered by its line.
pub open spec fn load_spec(content: Seq<char>) -> Seq<TaskView> {
    tasks_of_lines(lines(content), 0)
}

/// The todo.txt text of a sequence of tasks: one line each, each ending with
/// `\n` (nothing at all when that text would be empty).
pub open spec fn save_spec(ts: Seq<TaskView>) -> Seq<char> {
    let body = join(ts.map_values(|t: TaskView| render(t)), seq!['\n']);
    if body.len() == 0 {
        body
    } else {
        body + seq!['\n']
    }
}

/// The tasks `ts` renumbered 1, 2, ... in order.
pub open spec fn reindexed(ts: Seq<TaskView>) -> Seq<TaskView> {
    Seq::new(ts.len(), |k: int| TaskView { id: (k + 1) as nat, ..ts[k] })
}

/// Whether `ids` lists `id`.
pub open spec fn lists(ids: Seq<usize>, id: nat) -> bool {
    exists|j: int| 0 <= j < ids.len() && ids[j] == id
}

/// Position of the first task with id `id`.
pub open spec fn first_with_id(ts: Seq<TaskView>, id: nat) -> Option<int> {
    if exists|i: int| 0 <= i < ts.len() && ts[i].id == id {
        Some(
            choose|i: int|
                0 <= i < ts.len() && ts[i].id == id && forall|j: int| 0 <= j < i ==> ts[j].id != id,
        )
    } else {
        None
    }
}

/// A todo.txt file: where it lives and its tasks.
pub struct TodoFile {
    pub path: String,
    pub tasks: Vec<Task>,
}

/// Position of the first `\n` at or after `i`, or the length.
fn find_newline(v: &Vec<char>, i: usize) -> (j: usize)
    requires
        i <= v.len(),
    ensures
        i <= j <= v.len(),
        j == i + first_newline(v@.skip(i as int)),
{
    let mut j = i;
    while j < v.len() && v[j] != '\n'
        invariant
            i <= j <= v.len(),
            first_newline(v@.skip(i as int)) == (j - i) + first_newline(v@.skip(j as int)),
        decreases v.len() - j,
    {
        assert(v@.skip(j as int).drop_first() =~= v@.skip(j + 1));
        j = j + 1;
    }
    j
}

impl TodoFile {
    pub open spec fn task_views(&self) -> Seq<TaskView> {
        task_views(self.tasks@)
    }

    /// The file at `path` whose text is `content`: one task per non-blank
    /// line, its id the line number.
    pub fn load(path: &str, content: &str) -> (f: TodoFile)
        ensures
            f.path@ == path@,
            f.task_views() == load_spec(content@),
    {
        let v = chars_of(content);
        let mut tasks: Vec<Task> = Vec::new();
        let mut i: usize = 0;
        let mut idx: usize = 0;
        assert(v@.skip(0) =~= v@);
        while i < v.len()
            invariant
                i <= v.len(),
                idx <= i,
                task_views(tasks@) + tasks_of_lines(lines(v@.skip(i as int)), idx as nat)
                    == load_spec(content@),
                v@ == content@,
            decreases v.len() - i,
        {
            let ghost t = v@.skip(i as int);
            let k = find_newline(&v, i);
            let mut end = k;
            if k < v.len() && k > i && v[k - 1] == '\r' {
                end = k - 1;
            }
            let line = string_of_range(&v, i, end);
            let lv = chars_of(line.as_str());
            let (a, b) = trim_bounds_full(&lv);
            let ghost before = task_views(tasks@);
            proof {
                crate::todo_file::lemma_first_newline(t);
                let kk = first_newline(t) as int;
                assert(kk == k - i);
                if k < v.len() {
                    assert(t.take(kk) =~= v@.subrange(i as int, k as int));
                    assert(t.skip(kk + 1) =~= v@.skip(k + 1));
                    if k > i && v@[k - 1] == '\r' {
                        assert(v@.subrange(i as int, k as int).drop_last() =~= line@);
                    } else {
                        assert(v@.subrange(i as int, k as int) =~= line@);
                    }
                } else {
                    assert(t =~= line@);
                }
            }
            if a < b {
                let task = Task::parse(idx + 1, line.as_str());
                tasks.push(task);
                assert(task_views(tasks@) =~= before.push(task@));
            }
            proof {
                let ls = lines(t);
                assert(ls[0] == line@);
                assert(ls.drop_first() == lines(v@.skip(if k < v.len() { k + 1 } else { v.len() as int }))) by {
                    if k == v.len() {
                        assert(v@.skip(v.len() as int) =~= Seq::<char>::empty());
                        assert(ls =~= seq![t]);
                    }
                }
                assert(task_views(tasks@) + tasks_of_lines(ls.drop_first(), (idx + 1) as nat) =~= before
                    + tasks_of_lines(ls, idx as nat));
            }
            idx = idx + 1;
            if k < v.len() {
                i = k + 1;
            } else {
                i = v.len();
            }
        }
        assert(task_views(tasks@) + tasks_of_lines(lines(v@.skip(i as int)), idx as nat) =~= task_views(tasks@));
        TodoFile { path: crate::text::string_from(path), tasks }
    }
}

pub proof fn lemma_first_with_id(ts: Seq<TaskView>, id: nat, i: int)
    requires
        0 <= i < ts.len(),
        ts[i].id == id,
        forall|j: int| 0 <= j < i ==> ts[j].id != id,
    ensures
        first_with_id(ts, id) == Some(i),
{
    let k = choose|k: int|
        0 <= k < ts.len() && ts[k].id == id && forall|j: int| 0 <= j < k ==> ts[j].id != id;
    assert(0 <= k < ts.len() && ts[k].id == id && forall|j: int| 0 <= j < k ==> ts[j].id != id);
    if k < i {
        assert(ts[k].id != id);
    }
    if k > i {
        assert(ts[i].id != id);
    }
}

pub proof fn lemma_min_index(ts: Seq<TaskView>, id: nat, i: int)
    requires
        0 <= i < ts.len(),
        ts[i].id == id,
    ensures
        exists|m: int|
            0 <= m < ts.len() && ts[m].id == id && forall|j: int| 0 <= j < m ==> ts[j].id != id,
    decreases i,
{
    if exists|j: int| 0 <= j < i && ts[j].id == id {
        let j = choose|j: int| 0 <= j < i && ts[j].id == id;
        lemma_min_index(ts, id, j);
    } else {
        assert(forall|j: int| 0 <= j < i ==> ts[j].id != id);
    }
}

pub proof fn lemma_first_with_id_bounds(ts: Seq<TaskView>, id: nat)
    ensures
        first_with_id(ts, id) matches Some(i) ==> 0 <= i < ts.len() && ts[i].id == id,
{
    if exists|i: int| 0 <= i < ts.len() && ts[i].id == id {
        let i = choose|i: int| 0 <= i < ts.len() && ts[i].id == id;
        lemma_min_index(ts, id, i);
    }
}

pub open spec fn option_ref_view(r: Option<&Task>) -> Option<TaskView> {
    match r {
        Some(t) => Some(t@),
        None => None,
    }
}

pub open spec fn at_index(ts: Seq<TaskView>, i: Option<int>) -> Option<TaskView> {
    match i {
        Some(k) => Some(ts[k]),
        None => None,
    }
}

impl TodoFile {
    /// The file at `path`, its tasks those of `content` when the file exists
    /// (`content` is `Some`) and none otherwise.
    pub fn load_or_create(path: &str, content: Option<&str>) -> (f: TodoFile)
        ensures
            f.path@ == path@,
            f.task_views() == match content {
                Some(c) => load_spec(c@),
                None => Seq::<TaskView>::empty(),
            },
    {
        match content {
            Some(c) => TodoFile::load(path, c),
            None => {
                let f = TodoFile { path: crate::text::string_from(path), tasks: Vec::new() };
                assert(f.task_views() =~= Seq::<TaskView>::empty());
                f
            },
        }
    }

    /// The todo.txt text of the file.
    pub fn save(&self) -> (r: String)
        ensures
            r@ == save_spec(self.task_views()),
    {
        let ghost renders = self.task_views().map_values(|t: TaskView| render(t));
        let mut out: Vec<char> = Vec::new();
        let mut i: usize = 0;
        while i < self.tasks.len()
            invariant
                i <= self.tasks.len(),
                renders == self.task_views().map_values(|t: TaskView| render(t)),
                out@ == join(renders.take(i as int), seq!['\n']),
            decreases self.tasks.len() - i,
        {
            let line = self.tasks[i].to_string();
            let lv = chars_of(line.as_str());
            proof {
                crate::text::lemma_join_push(renders.take(i as int), seq!['\n'], lv@);
                assert(renders.take(i + 1) =~= renders.take(i as int).push(lv@));
            }
            if i > 0 {
                out.push('\n');
            }
            append_chars(&mut out, &lv);
            proof {
                if i == 0 {
                    assert(out@ =~= lv@);
                }
            }
            i = i + 1;
        }
        assert(renders.take(i as int) =~= renders);
        if out.len() > 0 {
            out.push('\n');
        }
        string_of(&out)
    }

    /// Appends `task`, numbered one past the current count.
    pub fn add_task(&mut self, task: Task)
        requires
            old(self).tasks.len() < usize::MAX,
        ensures
            final(self).path == old(self).path,
            final(self).task_views() == old(self).task_views().push(
                (TaskView { id: (old(self).tasks.len() + 1) as nat, ..task@ }),
            ),
    {
        let mut task = task;
        task.id = self.tasks.len() + 1;
        self.tasks.push(task);
        assert(self.task_views() =~= old(self).task_views().push(task@));
    }

    /// Position of the first task with id `id`.
    pub fn find_task(&self, id: usize) -> (r: Option<usize>)
        ensures
            match r {
                Some(i) => first_with_id(self.task_views(), id as nat) == Some(i as int),
                None => first_with_id(self.task_views(), id as nat) is None,
            },
            r matches Some(i) ==> i < self.tasks.len() && self.tasks@[i as int].id == id,
    {
        let mut i: usize = 0;
        while i < self.tasks.len()
            invariant
                i <= self.tasks.len(),
                forall|j: int| 0 <= j < i ==> self.task_views()[j].id != id,
            decreases self.tasks.len() - i,
        {
            if self.tasks[i].id == id {
                proof {
                    lemma_first_with_id(self.task_views(), id as nat, i as int);
                }
                return Some(i);
            }
            i = i + 1;
        }
        None
    }

    /// The first task with id `id`.
    pub fn get_task(&self, id: usize) -> (r: Option<&Task>)
        ensures
            option_ref_view(r) == at_index(self.task_views(), first_with_id(self.task_views(), id as nat)),
    {
        match self.find_task(id) {
            Some(i) => Some(&self.tasks[i]),
            None => None,
        }
    }

    /// The first task with id `id`, to be changed in place.
    pub fn get_task_mut(&mut self, id: usize) -> (r: Option<&mut Task>)
        ensures
            match first_with_id(old(self).task_views(), id as nat) {
                Some(i) => r matches Some(t) && *t == old(self).tasks@[i] && final(self).tasks@
                    == old(self).tasks@.update(i, *final(t)) && final(self).path == old(
                    self,
                ).path,
                None => r is None && *final(self) == *old(self),
            },
    {
        match self.find_task(id) {
            Some(i) => Some(&mut self.tasks[i]),
            None => None,
        }
    }

    /// Removes the tasks whose ids are listed, then numbers the rest 1, 2, ...
    /// in order.
    pub fn remove_tasks(&mut self, ids: &[usize])
        ensures
            final(self).path == old(self).path,
            final(self).task_views() == reindexed(
                old(self).task_views().filter(|t: TaskView| !lists(ids@, t.id)),
            ),
    {
        let ghost pred = |t: TaskView| !lists(ids@, t.id);
        let mut rest: Vec<Task> = Vec::new();
        std::mem::swap(&mut rest, &mut self.tasks);
        let ghost orig = task_views(rest@);
        assert(orig == old(self).task_views());
        let mut kept: Vec<Task> = Vec::new();
        let mut n: usize = 0;
        let total = rest.len();
        assert(orig.skip(0) =~= orig);
        assert(orig.take(0).filter(pred) =~= Seq::<TaskView>::empty()) by {
            reveal(Seq::filter);
        }
        assert(task_views(kept@) =~= reindexed(orig.take(0).filter(pred)));
        while n < total
            invariant
                total == orig.len(),
                orig == old(self).task_views(),
                pred == (|t: TaskView| !lists(ids@, t.id)),
                n <= orig.len(),
                task_views(rest@) == orig.skip(n as int),
                task_views(kept@) == reindexed(orig.take(n as int).filter(pred)),
                kept.len() <= n,
            decreases orig.len() - n,
        {
            let ghost rest_before = rest@;
            assert(task_views(rest@).len() == rest@.len());
            let mut t = rest.remove(0);
            assert(t@ == orig[n as int]) by {
                assert(orig.skip(n as int)[0] == orig[n as int]);
                assert(task_views(rest_before)[0] == rest_before[0]@);
            }
            assert(task_views(rest@) =~= orig.skip(n + 1)) by {
                assert(rest@ =~= rest_before.subrange(1, rest_before.len() as int));
                assert forall|k: int| 0 <= k < rest@.len() implies task_views(rest@)[k] == orig.skip(
                    n + 1,
                )[k] by {
                    assert(task_views(rest@)[k] == rest@[k]@);
                    assert(rest@[k] == rest_before[k + 1]);
                    assert(task_views(rest_before)[k + 1] == rest_before[k + 1]@);
                    assert(orig.skip(n as int)[k + 1] == orig[n + 1 + k]);
                }
            }
            let mut listed = false;
            let mut j: usize = 0;
            while j < ids.len()
                invariant
                    j <= ids.len(),
                    listed == exists|k: int| 0 <= k < j && ids@[k] == t.id,
                decreases ids.len() - j,
            {
                if ids[j] == t.id {
                    listed = true;
                }
                j = j + 1;
            }
            proof {
                reveal(Seq::filter);
                assert(orig.take(n + 1).drop_last() =~= orig.take(n as int));
                assert(orig.take(n + 1).last() == t@);
                lemma_filter_len_le(orig.take(n as int), pred);
            }
            let ghost before = task_views(kept@);
            if !listed {
                let ghost tv = t@;
                t.id = kept.len() + 1;
                kept.push(t);
                proof {
                    assert(pred(tv));
                    assert(orig.take(n + 1).filter(pred) =~= orig.take(n as int).filter(pred).push(tv));
                    lemma_reindexed_push(orig.take(n as int).filter(pred), tv);
                    assert(task_views(kept@) =~= before.push(t@));
                }
            } else {
                assert(task_views(kept@) =~= reindexed(orig.take(n + 1).filter(pred)));
            }
            n = n + 1;
        }
        assert(orig.take(n as int) =~= orig);
        self.tasks = kept;
    }
}

/// Where the todo file is when none is named: `todo.txt` in the working
/// directory `cwd` when `found` (it exists there), else `todo.txt` in the
/// home directory when one is known, else the one in the working directory.
pub open spec fn default_todo_path(cwd: Seq<char>, home: Option<Seq<char>>, found: bool) -> Seq<
    char,
> {
    let local = joined_path(cwd, todo_txt());
    if found {
        local
    } else {
        match home {
            Some(h) => joined_path(h, todo_txt()),
            None => local,
        }
    }
}

impl TodoFile {
    /// The todo file used when none is named, given the working and home
    /// directories; `is_file` tells whether a path holds a file.
    pub fn default_path_with_home<F: Fn(&str) -> bool>(
        cwd: &str,
        home: &Option<String>,
        is_file: &F,
    ) -> (r: String)
        requires
            forall|p: &str| is_file.requires((p,)),
        ensures
            exists|found: bool|
                answered(*is_file, joined_path(cwd@, todo_txt()), found) && r@
                    == #[trigger] default_todo_path(cwd@, option_text(*home), found),
    {
        let name = "todo.txt";
        proof {
            reveal_strlit("todo.txt");
        }
        assert(name@ =~= todo_txt());
        let local = std_join(cwd, name);
        let found = is_file(local.as_str());
        assert(answered(*is_file, joined_path(cwd@, todo_txt()), found));
        let r = if found {
            local
        } else {
            match home {
                Some(h) => std_join(h.as_str(), name),
                None => local,
            }
        };
        assert(r@ == default_todo_path(cwd@, option_text(*home), found));
        r
    }

    /// The todo file used when none is named: `todo.txt` in the working
    /// directory `cwd` when it exists, else in the home directory.
    pub fn default_path<F: Fn(&str) -> bool>(cwd: &str, is_file: &F) -> (r: String)
        requires
            forall|p: &str| is_file.requires((p,)),
        ensures
            exists|home: Option<Seq<char>>, found: bool|
                answered(*is_file, joined_path(cwd@, todo_txt()), found) && r@
                    == #[trigger] default_todo_path(cwd@, home, found),
    {
        let home = dirs_home_dir();
        TodoFile::default_path_with_home(cwd, &home, is_file)
    }
}

/// Tasks with the same ids, position by position, have the same first task
/// for each id.
pub proof fn lemma_first_with_id_same_ids(a: Seq<TaskView>, b: Seq<TaskView>, id: nat)
    requires
        a.len() == b.len(),
        forall|k: int| 0 <= k < a.len() ==> #[trigger] a[k].id == b[k].id,
    ensures
        first_with_id(a, id) == first_with_id(b, id),
{
    if exists|i: int| 0 <= i < a.len() && a[i].id == id {
        let i = choose|i: int| 0 <= i < a.len() && a[i].id == id;
        lemma_min_index(a, id, i);
        let m = choose|m: int|
            0 <= m < a.len() && a[m].id == id && forall|j: int| 0 <= j < m ==> a[j].id != id;
        lemma_first_with_id(a, id, m);
        assert(b[m].id == id);
        assert forall|j: int| 0 <= j < m implies b[j].id != id by {
            assert(a[j].id == b[j].id);
        }
        lemma_first_with_id(b, id, m);
    } else {
        assert forall|i: int| 0 <= i < b.len() implies b[i].id != id by {
            assert(a[i].id == b[i].id);
        }
    }
}

/// Filtering by two conditions that agree on every task gives the same
/// tasks.
pub proof fn lemma_filter_agree(
    s: Seq<TaskView>,
    p: spec_fn(TaskView) -> bool,
    q: spec_fn(TaskView) -> bool,
)
    requires
        forall|i: int| 0 <= i < s.len() ==> p(#[trigger] s[i]) == q(s[i]),
    ensures
        s.filter(p) == s.filter(q),
    decreases s.len(),
{
    reveal(Seq::filter);
    if s.len() > 0 {
        assert forall|i: int| 0 <= i < s.drop_last().len() implies p(#[trigger] s.drop_last()[i])
            == q(s.drop_last()[i]) by {
            assert(s.drop_last()[i] == s[i]);
        }
        lemma_filter_agree(s.drop_last(), p, q);
        assert(p(s[s.len() - 1]) == q(s[s.len() - 1]));
    }
}

/// The tasks of lines numbered from `start + 1` have increasing ids, each
/// above `start` and at most `start` plus the number of lines.
proof fn lemma_tasks_of_lines_ids(ls: Seq<Seq<char>>, start: nat)
    ensures
        forall|i: int|
            0 <= i < tasks_of_lines(ls, start).len() ==> start < #[trigger] tasks_of_lines(
                ls,
                start,
            )[i].id <= start + ls.len(),
        forall|i: int, j: int|
            0 <= i < j < tasks_of_lines(ls, start).len() ==> #[trigger] tasks_of_lines(
                ls,
                start,
            )[i].id < #[trigger] tasks_of_lines(ls, start)[j].id,
    decreases ls.len(),
{
    if ls.len() > 0 {
        lemma_tasks_of_lines_ids(ls.drop_first(), start + 1);
        let rest = tasks_of_lines(ls.drop_first(), start + 1);
        let ts = tasks_of_lines(ls, start);
        if trim(ls[0]).len() > 0 {
            assert(ts == seq![parse_spec(start + 1, ls[0])] + rest);
            assert forall|i: int| 0 <= i < ts.len() implies start < #[trigger] ts[i].id <= start
                + ls.len() by {
                if i > 0 {
                    assert(ts[i] == rest[i - 1]);
                }
            }
            assert forall|i: int, j: int| 0 <= i < j < ts.len() implies #[trigger] ts[i].id
                < #[trigger] ts[j].id by {
                assert(ts[j] == rest[j - 1]);
                if i > 0 {
                    assert(ts[i] == rest[i - 1]);
                }
            }
        } else {
            assert(ts =~= rest);
        }
    }
}

/// The tasks read from a text have strictly increasing ids from 1 up, so no
/// two share an id.
pub proof fn lemma_load_ids_increasing(content: Seq<char>)
    ensures
        forall|i: int| 0 <= i < load_spec(content).len() ==> 1 <= #[trigger] load_spec(content)[i].id,
        forall|i: int, j: int|
            0 <= i < j < load_spec(content).len() ==> #[trigger] load_spec(content)[i].id
                < #[trigger] load_spec(content)[j].id,
{
    lemma_tasks_of_lines_ids(lines(content), 0);
}

pub proof fn lemma_reindexed_push(s: Seq<TaskView>, x: TaskView)
    ensures
        reindexed(s.push(x)) == reindexed(s).push(TaskView { id: (s.len() + 1) as nat, ..x }),
{
    assert(reindexed(s.push(x)) =~= reindexed(s).push(TaskView { id: (s.len() + 1) as nat, ..x }));
}

pub proof fn lemma_filter_len_le(s: Seq<TaskView>, pred: spec_fn(TaskView) -> bool)
    ensures
        s.filter(pred).len() <= s.len(),
{
    s.lemma_filter_len(pred);
}

/// Bounds of the trimmed form of the whole of `v`.
fn trim_bounds_full(v: &Vec<char>) -> (r: (usize, usize))
    ensures
        r.0 <= r.1 <= v.len(),
        (r.0 < r.1) == (trim(v@).len() > 0),
{
    let r = crate::text::trim_bounds(v, 0, v.len());
    assert(v@.subrange(0, v@.len() as int) =~= v@);
    r
}

} // verus!
