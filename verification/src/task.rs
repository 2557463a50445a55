//! A todo.txt task: parsing a line into its parts, rendering it back, and the
//! questions asked of a task (projects, contexts, tags, recurrence).

use crate::classes::is_digit;
use crate::date::{
    add_days_spec, add_months_spec, ascii_date_text, date_text, digit_value, is_ascii_digit,
    option_ymd, parsed_date, valid, ymd_of_text, Date, Ymd,
};
use crate::grammar::{
    captures, captures_exec, completion_mark, date_prefix, has_date_prefix, prefix_date,
    priority_prefix, replace_due, tag_views, tags_exec, tags_of,
};
use crate::text::{
    chars_of, contains, eq_ignore_ascii_case, is_white, is_white_char, join, skip_white,
    string_of, string_of_range, string_views, sub_vec, trim, trim_bounds, trim_start,
};
use vstd::prelude::*;

verus! {

/// What a task holds, as mathematical values.
pub struct TaskView {
    pub id: nat,
    pub raw: Seq<char>,
    pub priority: Option<char>,
    pub creation_date: Option<Ymd>,
    pub completion_date: Option<Ymd>,
    pub description: Seq<char>,
    pub projects: Seq<Seq<char>>,
    pub contexts: Seq<Seq<char>>,
    pub tags: Seq<(Seq<char>, Seq<char>)>,
    pub is_completed: bool,
}

/// A task of a todo.txt file.
#[derive(Debug, Clone, PartialEq)]
pub struct Task {
    pub id: usize,
    pub raw: String,
    pub priority: Option<char>,
    pub creation_date: Option<Date>,
    pub completion_date: Option<Date>,
    pub description: String,
    pub projects: Vec<String>,
    pub contexts: Vec<String>,
    pub tags: Vec<(String, String)>,
    pub is_completed: bool,
}

impl View for Task {
    type V = TaskView;

    open spec fn view(&self) -> TaskView {
        TaskView {
            id: self.id as nat,
            raw: self.raw@,
            priority: self.priority,
            creation_date: option_ymd(self.creation_date),
            completion_date: option_ymd(self.completion_date),
            description: self.description@,
            projects: string_views(self.projects@),
            contexts: string_views(self.contexts@),
            tags: tag_views(self.tags@),
            is_completed: self.is_completed,
        }
    }
}

/// The task that a todo.txt line describes. The line is trimmed; a leading
/// `x ` marks it completed, and then a date may follow (the completion
/// date); then `(A)`-`(Z)` may give the priority; then a date may give the
/// creation date. What remains is the description, whose `+word`,
/// `@word` and `key:value` parts are the projects, contexts and tags.
pub open spec fn parse_spec(id: nat, line: Seq<char>) -> TaskView {
    let t0 = trim(line);
    let r4 = after_created(t0);
    TaskView {
        id,
        raw: t0,
        priority: priority_of(t0),
        creation_date: created_date_of(t0),
        completion_date: done_date_of(t0),
        description: trim(r4),
        projects: captures(r4, '+'),
        contexts: captures(r4, '@'),
        tags: tags_of(r4),
        is_completed: completion_mark(t0),
    }
}

/// The trimmed line after its completion mark.
pub open spec fn after_completion(t0: Seq<char>) -> Seq<char> {
    if completion_mark(t0) {
        trim_start(t0.skip(1))
    } else {
        t0
    }
}

/// Whether a completed line carries a completion date.
pub open spec fn has_done_date(t0: Seq<char>) -> bool {
    completion_mark(t0) && date_prefix(after_completion(t0))
}

pub open spec fn done_date_of(t0: Seq<char>) -> Option<Ymd> {
    if has_done_date(t0) {
        prefix_date(after_completion(t0))
    } else {
        None
    }
}

/// The trimmed line after its completion mark and completion date.
pub open spec fn after_done_date(t0: Seq<char>) -> Seq<char> {
    if has_done_date(t0) {
        trim_start(after_completion(t0).skip(10))
    } else {
        after_completion(t0)
    }
}

pub open spec fn priority_of(t0: Seq<char>) -> Option<char> {
    if priority_prefix(after_done_date(t0)) {
        Some(after_done_date(t0)[1])
    } else {
        None
    }
}

/// The trimmed line after the completion part and the priority.
pub open spec fn after_priority(t0: Seq<char>) -> Seq<char> {
    if priority_prefix(after_done_date(t0)) {
        trim_start(after_done_date(t0).skip(3))
    } else {
        after_done_date(t0)
    }
}

pub open spec fn created_date_of(t0: Seq<char>) -> Option<Ymd> {
    if date_prefix(after_priority(t0)) {
        prefix_date(after_priority(t0))
    } else {
        None
    }
}

/// The trimmed line after completion part, priority and creation date: the
/// description with its projects, contexts and tags.
pub open spec fn after_created(t0: Seq<char>) -> Seq<char> {
    if date_prefix(after_priority(t0)) {
        trim_start(after_priority(t0).skip(10))
    } else {
        after_priority(t0)
    }
}

/// A fresh task whose description is `desc`, as `Task::new` makes it.
pub open spec fn new_spec(desc: Seq<char>) -> TaskView {
    TaskView {
        id: 0,
        raw: seq![],
        priority: None,
        creation_date: None,
        completion_date: None,
        description: desc,
        projects: captures(desc, '+'),
        contexts: captures(desc, '@'),
        tags: tags_of(desc),
        is_completed: false,
    }
}

/// The parts of the todo.txt line of a task, before they are joined by spaces.
pub open spec fn render_parts(t: TaskView, desc: Seq<char>) -> Seq<Seq<char>> {
    let done = if t.is_completed {
        seq![seq!['x']] + match t.completion_date {
            Some(d) => seq![date_text(d)],
            None => seq![],
        }
    } else {
        seq![]
    };
    let pri = match t.priority {
        Some(p) => if !t.is_completed {
            seq![seq!['(', p, ')']]
        } else {
            seq![]
        },
        None => seq![],
    };
    let created = match t.creation_date {
        Some(d) => seq![date_text(d)],
        None => seq![],
    };
    done + pri + created + seq![desc]
}

/// The todo.txt line of a task whose description is replaced by `desc`.
pub open spec fn render_with(t: TaskView, desc: Seq<char>) -> Seq<char> {
    join(render_parts(t, desc), seq![' '])
}

/// The todo.txt line of a task (its `Display` form).
pub open spec fn render(t: TaskView) -> Seq<char> {
    render_with(t, t.description)
}

/// The value of the first tag of `tags` whose key is `key`.
pub open spec fn first_tag_value(tags: Seq<(Seq<char>, Seq<char>)>, key: Seq<char>) -> Option<
    Seq<char>,
>
    decreases tags.len(),
{
    if tags.len() == 0 {
        None
    } else if tags[0].0 == key {
        Some(tags[0].1)
    } else {
        first_tag_value(tags.drop_first(), key)
    }
}

pub open spec fn due_key() -> Seq<char> {
    seq!['d', 'u', 'e']
}

pub open spec fn rec_key() -> Seq<char> {
    seq!['r', 'e', 'c']
}

/// The due date of a task: its first `due:` tag read as a date by chrono.
pub open spec fn due_spec(t: TaskView) -> Option<Ymd> {
    match first_tag_value(t.tags, due_key()) {
        Some(v) => parsed_date(v),
        None => None,
    }
}

/// Whether some project of the task equals `p` ignoring ASCII case.
pub open spec fn has_project_spec(t: TaskView, p: Seq<char>) -> bool {
    exists|i: int| 0 <= i < t.projects.len() && eq_ignore_ascii_case(#[trigger] t.projects[i], p)
}

/// Whether some context of the task equals `c` ignoring ASCII case.
pub open spec fn has_context_spec(t: TaskView, c: Seq<char>) -> bool {
    exists|i: int| 0 <= i < t.contexts.len() && eq_ignore_ascii_case(#[trigger] t.contexts[i], c)
}

/// The decimal value of a sequence of ASCII digits.
pub open spec fn digits_value(s: Seq<char>) -> nat
    decreases s.len(),
{
    if s.len() == 0 {
        0
    } else {
        digits_value(s.drop_last()) * 10 + (digit_value(s.last()) as nat)
    }
}

pub open spec fn all_ascii_digits(s: Seq<char>) -> bool {
    forall|i: int| 0 <= i < s.len() ==> is_ascii_digit(#[trigger] s[i])
}

pub open spec fn is_rec_unit(c: char) -> bool {
    c == 'd' || c == 'w' || c == 'm' || c == 'y'
}

/// A recurrence spec `^(\+?)(\d+)([dwmy])$` whose count reads as a `u32`:
/// whether it is strict (leading `+`), the count and the unit.
pub open spec fn rec_parse(v: Seq<char>) -> Option<(bool, nat, char)> {
    let strict = v.len() > 0 && v[0] == '+';
    let start: int = if strict {
        1
    } else {
        0
    };
    let digits = v.subrange(start, v.len() - 1);
    if v.len() >= start + 2 && is_rec_unit(v.last()) && all_ascii_digits(digits) && digits_value(
        digits,
    ) <= u32::MAX {
        Some((strict, digits_value(digits), v.last()))
    } else {
        None
    }
}

/// The date `n` units (`d`, `w`, `m` or `y`) after `base`; `None` when out
/// of range or when the month count of `y` overflows `u32`.
pub open spec fn advance_spec(base: Ymd, n: nat, unit: char) -> Option<Ymd> {
    if unit == 'd' {
        add_days_spec(base, n as int)
    } else if unit == 'w' {
        add_days_spec(base, (7 * n) as int)
    } else if unit == 'm' {
        add_months_spec(base, n as int)
    } else if unit == 'y' {
        if n * 12 <= u32::MAX {
            add_months_spec(base, (n * 12) as int)
        } else {
            None
        }
    } else {
        None
    }
}

/// The task that follows a recurring task when it is completed on `today`,
/// given its due date `due`: its description has the first `due:` tag moved
/// to the advanced date, it keeps the priority and it is created `today`.
pub open spec fn next_occurrence_spec(t: TaskView, due: Option<Ymd>, today: Ymd) -> Option<
    TaskView,
> {
    match first_tag_value(t.tags, rec_key()) {
        None => None,
        Some(v) => match rec_parse(v) {
            None => None,
            Some(r) => match due {
                None => None,
                Some(d) => {
                    let base = if r.0 {
                        d
                    } else {
                        today
                    };
                    match advance_spec(base, r.1, r.2) {
                        None => None,
                        Some(nd) => {
                            let desc = replace_due(t.description, due_key() + seq![':'] + date_text(nd));
                            Some(
                                TaskView {
                                    priority: t.priority,
                                    creation_date: Some(today),
                                    ..new_spec(desc)
                                },
                            )
                        },
                    }
                },
            },
        },
    }
}

pub open spec fn option_task(o: Option<Task>) -> Option<TaskView> {
    match o {
        Some(t) => Some(t@),
        None => None,
    }
}

pub open spec fn option_str(o: Option<&str>) -> Option<Seq<char>> {
    match o {
        Some(s) => Some(s@),
        None => None,
    }
}

/// The date of the date prefix of `v[i..]`, as chrono reads it.
fn date_at(v: &Vec<char>, i: usize) -> (r: Option<Date>)
    requires
        i <= v.len(),
        date_prefix(v@.skip(i as int)),
        forall|k: int| 0 <= k < 10 ==> !is_white(#[trigger] v@[i + k]),
    ensures
        option_ymd(r) == prefix_date(v@.skip(i as int)),
{
    let s = string_of_range(v, i, i + 10);
    let r = Date::parse_text(s.as_str());
    proof {
        let t = v@.skip(i as int);
        assert(t.take(10) =~= s@);
        let d = |c: char| is_digit(c);
        assert(crate::date::date_shape_with(s@, d));
        if !ascii_date_text(s@) {
            assert forall|k: int| 0 <= k < 10 && k != 4 && k != 7 implies !is_white(
                #[trigger] s@[k],
            ) && s@[k] != '+' && s@[k] != '-' by {
                assert(s@[k] == v@[i + k]);
                assert(d(s@[k]));
            }
        }
    }
    r
}

/// Appends `part` to a line whose parts so far were `parts`, with a space
/// between parts.
fn push_part(out: &mut Vec<char>, part: &Vec<char>, Ghost(parts): Ghost<Seq<Seq<char>>>)
    requires
        old(out)@ == join(parts, seq![' ']),
        (parts.len() == 0) == (old(out)@.len() == 0),
        part@.len() > 0 || parts.len() > 0,
    ensures
        final(out)@ == join(parts.push(part@), seq![' ']),
        final(out)@.len() > 0,
{
    proof {
        crate::text::lemma_join_push(parts, seq![' '], part@);
    }
    if out.len() > 0 {
        out.push(' ');
    }
    crate::text::append_chars(out, part);
    proof {
        if parts.len() == 0 {
            assert(old(out)@ =~= Seq::<char>::empty());
            assert(out@ =~= part@);
        }
    }
}

/// The line of a task with description `desc`, as `Display` writes it.
pub fn render_line(t: &Task, desc: &Vec<char>) -> (r: Vec<char>)
    ensures
        r@ == render_with(t@, desc@),
{
    let mut out: Vec<char> = Vec::new();
    let ghost mut parts: Seq<Seq<char>> = seq![];
    if t.is_completed {
        let mut x: Vec<char> = Vec::new();
        x.push('x');
        assert(x@ =~= seq!['x']);
        push_part(&mut out, &x, Ghost(parts));
        proof {
            parts = parts.push(seq!['x']);
        }
        match t.completion_date {
            Some(d) => {
                let text = chars_of(d.to_text().as_str());
                push_part(&mut out, &text, Ghost(parts));
                proof {
                    parts = parts.push(date_text(d@));
                }
            },
            None => {},
        }
    }
    match t.priority {
        Some(p) => {
            if !t.is_completed {
                let mut pr: Vec<char> = Vec::new();
                pr.push('(');
                pr.push(p);
                pr.push(')');
                assert(pr@ =~= seq!['(', p, ')']);
                push_part(&mut out, &pr, Ghost(parts));
                proof {
                    parts = parts.push(seq!['(', p, ')']);
                }
            }
        },
        None => {},
    }
    match t.creation_date {
        Some(d) => {
            let text = chars_of(d.to_text().as_str());
            assert(text@.len() > 0);
            push_part(&mut out, &text, Ghost(parts));
            proof {
                parts = parts.push(date_text(d@));
            }
        },
        None => {},
    }
    proof {
        if parts.len() == 0 {
            assert(out@ =~= Seq::<char>::empty());
        }
    }
    let ghost before = out@;
    if out.len() > 0 {
        out.push(' ');
    }
    crate::text::append_chars(&mut out, desc);
    proof {
        crate::text::lemma_join_push(parts, seq![' '], desc@);
        if parts.len() == 0 {
            assert(out@ =~= desc@);
        }
        let rp = render_parts(t@, desc@);
        assert(rp =~= parts.push(desc@));
    }
    out
}

/// The `key:value` tags of `s`, in order.
pub fn extract_tags(s: &str) -> (r: Vec<(String, String)>)
    ensures
        tag_views(r@) == tags_of(s@),
{
    let v = chars_of(s);
    tags_exec(&v)
}

/// Decimal value of `v[from..to]` when those are ASCII digits whose value
/// fits in a `u32` (what `str::parse::<u32>` gives for them).
fn parse_u32_digits(v: &Vec<char>, from: usize, to: usize) -> (r: Option<u32>)
    requires
        from <= to <= v.len(),
    ensures
        ({
            let d = v@.subrange(from as int, to as int);
            r == if d.len() > 0 && all_ascii_digits(d) && digits_value(d) <= u32::MAX {
                Some(digits_value(d) as u32)
            } else {
                None::<u32>
            }
        }),
{
    let ghost d = v@.subrange(from as int, to as int);
    if from == to {
        return None;
    }
    let mut acc: u64 = 0;
    let mut i = from;
    while i < to
        invariant
            from <= i <= to <= v.len(),
            d == v@.subrange(from as int, to as int),
            all_ascii_digits(v@.subrange(from as int, i as int)),
            acc == digits_value(v@.subrange(from as int, i as int)),
            acc <= u32::MAX,
        decreases to - i,
    {
        let c = v[i];
        let ghost pre = v@.subrange(from as int, i as int);
        let ghost next = v@.subrange(from as int, i + 1);
        assert(next.drop_last() =~= pre);
        if !(48 <= (c as u32) && (c as u32) <= 57) {
            assert(!all_ascii_digits(d)) by {
                assert(d[i - from] == c);
            }
            return None;
        }
        let nacc = acc * 10 + ((c as u32) - 48) as u64;
        if nacc > 0xffff_ffff {
            proof {
                if all_ascii_digits(d) {
                    lemma_digits_value_prefix_le(d, i + 1 - from);
                    assert(d.take(i + 1 - from) =~= next);
                }
            }
            return None;
        }
        acc = nacc;
        i = i + 1;
        assert(all_ascii_digits(next)) by {
            assert forall|k: int| 0 <= k < next.len() implies is_ascii_digit(#[trigger] next[k]) by {
                if k < pre.len() {
                    assert(next[k] == pre[k]);
                }
            }
        }
    }
    assert(v@.subrange(from as int, i as int) =~= d);
    Some(acc as u32)
}

/// A prefix of a digit sequence has no larger value than the whole.
pub proof fn lemma_digits_value_prefix_le(s: Seq<char>, k: int)
    requires
        0 <= k <= s.len(),
        all_ascii_digits(s),
    ensures
        digits_value(s.take(k)) <= digits_value(s),
    decreases s.len(),
{
    if k < s.len() {
        assert(s.drop_last().take(k) =~= s.take(k));
        assert(all_ascii_digits(s.drop_last())) by {
            assert forall|i: int| 0 <= i < s.drop_last().len() implies is_ascii_digit(
                #[trigger] s.drop_last()[i],
            ) by {
                assert(s.drop_last()[i] == s[i]);
            }
        }
        lemma_digits_value_prefix_le(s.drop_last(), k);
        assert(is_ascii_digit(s[s.len() - 1]));
    } else {
        assert(s.take(k) =~= s);
    }
}

/// Reads a recurrence spec such as `1w` or `+3m`.
pub fn parse_recurrence(v: &Vec<char>) -> (r: Option<(bool, u32, char)>)
    ensures
        match r {
            Some(x) => rec_parse(v@) == Some((x.0, x.1 as nat, x.2)),
            None => rec_parse(v@) is None,
        },
{
    let strict = v.len() > 0 && v[0] == '+';
    let start: usize = if strict {
        1
    } else {
        0
    };
    if v.len() < start + 2 {
        return None;
    }
    let unit = v[v.len() - 1];
    if !(unit == 'd' || unit == 'w' || unit == 'm' || unit == 'y') {
        return None;
    }
    match parse_u32_digits(v, start, v.len() - 1) {
        Some(n) => Some((strict, n, unit)),
        None => None,
    }
}

/// The date `n` units of `unit` (`d`, `w`, `m`, `y`) after `base`; `None` on
/// overflow.
pub fn advance_date(base: Date, n: u32, unit: char) -> (r: Option<Date>)
    ensures
        option_ymd(r) == advance_spec(base@, n as nat, unit),
{
    if unit == 'd' {
        base.add_days(n as i64)
    } else if unit == 'w' {
        base.add_days(7 * (n as i64))
    } else if unit == 'm' {
        base.add_months(n)
    } else if unit == 'y' {
        match n.checked_mul(12) {
            Some(m) => base.add_months(m),
            None => None,
        }
    } else {
        None
    }
}

impl Task {
    /// A task with the given description, its projects, contexts and tags
    /// read from it.
    pub fn new(description: &str) -> (t: Task)
        ensures
            t@ == new_spec(description@),
    {
        let v = chars_of(description);
        let projects = captures_exec(&v, '+');
        let contexts = captures_exec(&v, '@');
        let tags = tags_exec(&v);
        let desc = string_of(&v);
        Task {
            id: 0,
            raw: String::new(),
            priority: None,
            creation_date: None,
            completion_date: None,
            description: desc,
            projects,
            contexts,
            tags,
            is_completed: false,
        }
    }

    /// Marks the task completed on `day`.
    pub fn mark_done_on(&mut self, day: Date)
        ensures
            final(self)@ == (TaskView {
                is_completed: true,
                completion_date: Some(day@),
                ..old(self)@
            }),
    {
        self.is_completed = true;
        self.completion_date = Some(day);
    }

    /// Marks the task completed today.
    pub fn mark_done(&mut self)
        ensures
            final(self)@.completion_date is Some,
            final(self)@ == (TaskView {
                is_completed: true,
                completion_date: final(self)@.completion_date,
                ..old(self)@
            }),
    {
        let day = crate::date::today();
        self.mark_done_on(day);
    }

    /// The value of the first tag with key `key`.
    pub fn tag(&self, key: &str) -> (r: Option<&str>)
        ensures
            option_str(r) == first_tag_value(self@.tags, key@),
    {
        let mut i: usize = 0;
        assert(self@.tags.skip(0) =~= self@.tags);
        while i < self.tags.len()
            invariant
                i <= self.tags.len(),
                first_tag_value(self@.tags, key@) == first_tag_value(
                    self@.tags.skip(i as int),
                    key@,
                ),
            decreases self.tags.len() - i,
        {
            let ghost rest = self@.tags.skip(i as int);
            assert(rest[0] == (self.tags@[i as int].0@, self.tags@[i as int].1@));
            if crate::text::str_eq(self.tags[i].0.as_str(), key) {
                return Some(self.tags[i].1.as_str());
            }
            assert(rest.drop_first() =~= self@.tags.skip(i + 1));
            i = i + 1;
        }
        None
    }

    /// The due date, from a `due:YYYY-MM-DD` tag, when present and valid.
    pub fn due(&self) -> (r: Option<Date>)
        ensures
            option_ymd(r) == due_spec(self@),
    {
        let k = "due";
        proof {
            reveal_strlit("due");
        }
        assert(k@ =~= due_key());
        match self.tag(k) {
            Some(v) => Date::parse_text(v),
            None => None,
        }
    }

    /// The recurrence spec, from a `rec:` tag, when present.
    pub fn recurrence(&self) -> (r: Option<&str>)
        ensures
            option_str(r) == first_tag_value(self@.tags, rec_key()),
    {
        let k = "rec";
        proof {
            reveal_strlit("rec");
        }
        assert(k@ =~= rec_key());
        self.tag(k)
    }

    /// Whether the description holds `rec:` (a recurrence marker, well formed
    /// or not).
    pub fn has_recurrence_marker(&self) -> (r: bool)
        ensures
            r == contains(self@.description, rec_key() + seq![':']),
    {
        let d = chars_of(self.description.as_str());
        let mut m: Vec<char> = Vec::new();
        m.push('r');
        m.push('e');
        m.push('c');
        m.push(':');
        assert(m@ =~= rec_key() + seq![':']);
        crate::text::contains_chars(&d, &m)
    }

    /// The next occurrence of this recurring task when completed on `today`,
    /// its due date being `due`.
    pub fn next_occurrence_with_due(&self, due: Option<Date>, today: Date) -> (r: Option<Task>)
        ensures
            option_task(r) == next_occurrence_spec(self@, option_ymd(due), today@),
    {
        let spec_text = match self.recurrence() {
            Some(s) => s,
            None => return None,
        };
        let sv = chars_of(spec_text);
        let (strict, n, unit) = match parse_recurrence(&sv) {
            Some(x) => x,
            None => return None,
        };
        let d = match due {
            Some(d) => d,
            None => return None,
        };
        let base = if strict {
            d
        } else {
            today
        };
        let next_due = match advance_date(base, n, unit) {
            Some(x) => x,
            None => return None,
        };
        let mut rep: Vec<char> = Vec::new();
        rep.push('d');
        rep.push('u');
        rep.push('e');
        rep.push(':');
        let dt = chars_of(next_due.to_text().as_str());
        crate::text::append_chars(&mut rep, &dt);
        assert(rep@ =~= due_key() + seq![':'] + date_text(next_due@));
        let desc = chars_of(self.description.as_str());
        let new_desc = crate::grammar::replace_due_exec(&desc, &rep);
        let new_desc_s = string_of(&new_desc);
        let mut next = Task::new(new_desc_s.as_str());
        next.priority = self.priority;
        next.creation_date = Some(today);
        Some(next)
    }

    /// The next occurrence of this recurring task when completed on `today`:
    /// `None` without a well-formed `rec:` tag or a `due:` date to anchor it.
    pub fn next_occurrence(&self, today: Date) -> (r: Option<Task>)
        ensures
            option_task(r) == next_occurrence_spec(self@, due_spec(self@), today@),
    {
        let due = self.due();
        self.next_occurrence_with_due(due, today)
    }

    /// Whether the task has project `project`, ignoring ASCII case.
    pub fn has_project(&self, project: &str) -> (r: bool)
        ensures
            r == has_project_spec(self@, project@),
    {
        let mut i: usize = 0;
        while i < self.projects.len()
            invariant
                i <= self.projects.len(),
                forall|k: int| 0 <= k < i ==> !eq_ignore_ascii_case(
                    #[trigger] self@.projects[k],
                    project@,
                ),
            decreases self.projects.len() - i,
        {
            if crate::text::eq_ignore_ascii_case_exec(self.projects[i].as_str(), project) {
                assert(self@.projects[i as int] == self.projects@[i as int]@);
                return true;
            }
            assert(self@.projects[i as int] == self.projects@[i as int]@);
            i = i + 1;
        }
        false
    }

    /// Whether the task has context `context`, ignoring ASCII case.
    pub fn has_context(&self, context: &str) -> (r: bool)
        ensures
            r == has_context_spec(self@, context@),
    {
        let mut i: usize = 0;
        while i < self.contexts.len()
            invariant
                i <= self.contexts.len(),
                forall|k: int| 0 <= k < i ==> !eq_ignore_ascii_case(
                    #[trigger] self@.contexts[k],
                    context@,
                ),
            decreases self.contexts.len() - i,
        {
            if crate::text::eq_ignore_ascii_case_exec(self.contexts[i].as_str(), context) {
                assert(self@.contexts[i as int] == self.contexts@[i as int]@);
                return true;
            }
            assert(self@.contexts[i as int] == self.contexts@[i as int]@);
            i = i + 1;
        }
        false
    }

    /// The todo.txt line of the task (the `Display` form).
    pub fn to_string(&self) -> (r: String)
        ensures
            r@ == render(self@),
    {
        let desc = chars_of(self.description.as_str());
        let line = render_line(self, &desc);
        string_of(&line)
    }

    /// Parses a todo.txt line into a task with the given id.
    pub fn parse(id: usize, line: &str) -> (t: Task)
        ensures
            t@ == parse_spec(id as nat, line@),
    {
        let v = chars_of(line);
        let (a, b) = trim_bounds(&v, 0, v.len());
        let t0 = sub_vec(&v, a, b);
        assert(v@.subrange(0, v@.len() as int) =~= line@);
        let raw = string_of(&t0);
        let (completed, i1) = completion_step(&t0);
        let (completion_date, i2) = done_date_step(&t0, completed, i1);
        let (priority, i3) = priority_step(&t0, i2);
        let (creation_date, i4) = created_step(&t0, i3);
        let rest = sub_vec(&t0, i4, t0.len());
        assert(rest@ =~= t0@.skip(i4 as int));
        let (c, d) = trim_bounds(&rest, 0, rest.len());
        assert(rest@.subrange(0, rest@.len() as int) =~= rest@);
        let description = string_of_range(&rest, c, d);
        let projects = captures_exec(&rest, '+');
        let contexts = captures_exec(&rest, '@');
        let tags = tags_exec(&rest);
        Task {
            id,
            raw,
            priority,
            creation_date,
            completion_date,
            description,
            projects,
            contexts,
            tags,
            is_completed: completed,
        }
    }
}

/// Whether a line is open and has no date where its creation date would
/// stand (after its priority), so that one can be put there.
pub open spec fn takes_creation_date(t0: Seq<char>) -> bool {
    !completion_mark(t0) && !date_prefix(after_priority(t0))
}

/// Whether the line `line`, trimmed, is open and has no date where its
/// creation date would stand.
pub fn line_takes_creation_date(line: &str) -> (r: bool)
    ensures
        r == takes_creation_date(trim(line@)),
{
    let v = chars_of(line);
    let (a, b) = trim_bounds(&v, 0, v.len());
    let t0 = sub_vec(&v, a, b);
    assert(v@.subrange(0, v@.len() as int) =~= line@);
    let (completed, i1) = completion_step(&t0);
    if completed {
        return false;
    }
    let (_completion_date, i2) = done_date_step(&t0, completed, i1);
    let (_priority, i3) = priority_step(&t0, i2);
    !has_date_prefix(&t0, i3)
}

fn completion_step(t0: &Vec<char>) -> (r: (bool, usize))
    ensures
        r.0 == completion_mark(t0@),
        r.1 <= t0.len(),
        t0@.skip(r.1 as int) == after_completion(t0@),
{
    let completed = t0.len() >= 2 && t0[0] == 'x' && is_white_char(t0[1]);
    if completed {
        (true, skip_white(t0, 1))
    } else {
        assert(t0@.skip(0) =~= t0@);
        (false, 0)
    }
}

fn done_date_step(t0: &Vec<char>, completed: bool, i: usize) -> (r: (Option<Date>, usize))
    requires
        completed == completion_mark(t0@),
        i <= t0.len(),
        t0@.skip(i as int) == after_completion(t0@),
    ensures
        option_ymd(r.0) == done_date_of(t0@),
        r.1 <= t0.len(),
        t0@.skip(r.1 as int) == after_done_date(t0@),
{
    if completed && has_date_prefix(t0, i) {
        let d = date_at(t0, i);
        assert(t0@.skip(i as int).skip(10) =~= t0@.skip(i + 10));
        (d, skip_white(t0, i + 10))
    } else {
        (None, i)
    }
}

fn priority_step(t0: &Vec<char>, i: usize) -> (r: (Option<char>, usize))
    requires
        i <= t0.len(),
        t0@.skip(i as int) == after_done_date(t0@),
    ensures
        r.0 == priority_of(t0@),
        r.1 <= t0.len(),
        t0@.skip(r.1 as int) == after_priority(t0@),
{
    let has_priority = t0.len() - i >= 4 && t0[i] == '(' && 65 <= (t0[i + 1] as u32) && (t0[i
        + 1] as u32) <= 90 && t0[i + 2] == ')' && is_white_char(t0[i + 3]);
    proof {
        let r2 = t0@.skip(i as int);
        if t0.len() - i >= 4 {
            assert(r2[0] == t0@[i as int] && r2[1] == t0@[i + 1] && r2[2] == t0@[i + 2] && r2[3]
                == t0@[i + 3]);
        }
        assert(has_priority == priority_prefix(r2));
    }
    if has_priority {
        assert(t0@.skip(i as int).skip(3) =~= t0@.skip(i + 3));
        (Some(t0[i + 1]), skip_white(t0, i + 3))
    } else {
        (None, i)
    }
}

fn created_step(t0: &Vec<char>, i: usize) -> (r: (Option<Date>, usize))
    requires
        i <= t0.len(),
        t0@.skip(i as int) == after_priority(t0@),
    ensures
        option_ymd(r.0) == created_date_of(t0@),
        r.1 <= t0.len(),
        t0@.skip(r.1 as int) == after_created(t0@),
{
    if has_date_prefix(t0, i) {
        let d = date_at(t0, i);
        assert(t0@.skip(i as int).skip(10) =~= t0@.skip(i + 10));
        (d, skip_white(t0, i + 10))
    } else {
        (None, i)
    }
}

} // verus!
