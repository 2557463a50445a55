//! Reading back what was written: a task rendered as a todo.txt line parses
//! to the same task, and a saved file loads to the same tasks.

use crate::classes::is_digit;
use crate::date::{
    ascii_date_text, date_shape_with, date_text, digit_value, is_ascii_digit, lemma_date_text_roundtrip,
    valid, ymd_of_text, Ymd,
};
use crate::grammar::{completion_mark, date_prefix, prefix_date, priority_prefix, is_upper};
use crate::task::{
    after_completion, after_created, after_done_date, after_priority, created_date_of,
    done_date_of, has_done_date, parse_spec, priority_of, render, render_parts, render_with,
    TaskView,
};
use crate::text::{
    clean, is_white, join, lemma_join_cons, lemma_trim_clean, lemma_trim_end_shape,
    lemma_trim_is_clean, lemma_trim_start_keeps_end, lemma_trim_start_shape,
    lemma_trim_start_space, trim, trim_end, trim_start,
};
use crate::commands::modify::{append_one, prepend_one};
use crate::todo_file::{first_newline, lemma_first_newline, lines, load_spec, save_spec, tasks_of_lines};
use vstd::prelude::*;

verus! {

/// `x` preceded by each of `pre`, every one followed by a space.
pub open spec fn prefixed(pre: Seq<Seq<char>>, x: Seq<char>) -> Seq<char>
    decreases pre.len(),
{
    if pre.len() == 0 {
        x
    } else {
        pre[0] + seq![' '] + prefixed(pre.drop_first(), x)
    }
}

proof fn lemma_join_prefixed(pre: Seq<Seq<char>>, x: Seq<char>)
    ensures
        join(pre + seq![x], seq![' ']) == prefixed(pre, x),
    decreases pre.len(),
{
    if pre.len() == 0 {
        assert(pre + seq![x] =~= seq![x]);
    } else {
        let rest = pre.drop_first() + seq![x];
        assert(pre + seq![x] =~= seq![pre[0]] + rest);
        lemma_join_cons(pre[0], rest, seq![' ']);
        lemma_join_prefixed(pre.drop_first(), x);
    }
}

proof fn lemma_prefixed_append(a: Seq<Seq<char>>, b: Seq<Seq<char>>, x: Seq<char>)
    ensures
        prefixed(a + b, x) == prefixed(a, prefixed(b, x)),
    decreases a.len(),
{
    if a.len() > 0 {
        assert((a + b).drop_first() =~= a.drop_first() + b);
        assert((a + b)[0] == a[0]);
        lemma_prefixed_append(a.drop_first(), b, x);
    } else {
        assert(a + b =~= b);
    }
}

proof fn lemma_prefixed_small(x: Seq<char>)
    ensures
        forall|p: Seq<char>| prefixed(seq![p], x) == p + seq![' '] + x,
        forall|p: Seq<char>, q: Seq<char>|
            prefixed(seq![p, q], x) == p + seq![' '] + (q + seq![' '] + x),
        prefixed(seq![], x) == x,
{
    reveal_with_fuel(prefixed, 3);
    assert forall|p: Seq<char>| prefixed(seq![p], x) == p + seq![' '] + x by {
        assert(seq![p].drop_first() =~= Seq::<Seq<char>>::empty());
    }
    assert forall|p: Seq<char>, q: Seq<char>|
        prefixed(seq![p, q], x) == p + seq![' '] + (q + seq![' '] + x) by {
        assert(seq![p, q].drop_first() =~= seq![q]);
        assert(seq![q].drop_first() =~= Seq::<Seq<char>>::empty());
    }
}

/// One step of the line grammar keeps the rest of a clean line clean and,
/// as it ends where the line ends, not empty.
proof fn lemma_step(s: Seq<char>, k: int)
    requires
        clean(s),
        0 <= k < s.len(),
    ensures
        clean(trim_start(s.skip(k))),
        trim_start(s.skip(k)).len() > 0,
        trim_start(s.skip(k)).last() == s.last(),
{
    assert(s.skip(k).last() == s.last());
    lemma_trim_start_keeps_end(s.skip(k));
}

/// Every stage of reading a clean line leaves clean text, not empty when
/// the line is not.
proof fn lemma_stages(t0: Seq<char>)
    requires
        clean(t0),
    ensures
        clean(after_completion(t0)),
        clean(after_done_date(t0)),
        clean(after_priority(t0)),
        clean(after_created(t0)),
        t0.len() > 0 ==> after_created(t0).len() > 0,
        t0.len() > 0 ==> after_created(t0).last() == t0.last(),
{
    if completion_mark(t0) {
        lemma_step(t0, 1);
    }
    let a1 = after_completion(t0);
    if has_done_date(t0) {
        lemma_step(a1, 10);
    }
    let a2 = after_done_date(t0);
    if priority_prefix(a2) {
        lemma_step(a2, 3);
    }
    let a3 = after_priority(t0);
    if date_prefix(a3) {
        lemma_step(a3, 10);
    }
}

/// The date that the ten ASCII digits and dashes of `s` spell has a year of
/// at most four digits.
proof fn lemma_text_year(s: Seq<char>)
    requires
        ascii_date_text(s),
    ensures
        0 <= ymd_of_text(s).year <= 9999,
{
    let d = |c: char| is_ascii_digit(c);
    assert(d(s[0]) && d(s[1]) && d(s[2]) && d(s[3]));
    assert(0 <= digit_value(s[0]) <= 9);
    assert(0 <= digit_value(s[1]) <= 9);
    assert(0 <= digit_value(s[2]) <= 9);
    assert(0 <= digit_value(s[3]) <= 9);
}

/// A date that a line names has a year that `YYYY` writes in four digits.
proof fn lemma_prefix_date_year(s: Seq<char>)
    ensures
        prefix_date(s) matches Some(x) ==> valid(x) && 0 <= x.year <= 9999,
{
    if prefix_date(s) is Some {
        lemma_text_year(s.take(10));
    }
}

/// A written date followed by a space and clean text starts with a date
/// prefix naming that date, and its first character is an ASCII digit.
proof fn lemma_date_part(d: Ymd, x: Seq<char>)
    requires
        valid(d),
        0 <= d.year <= 9999,
    ensures
        ({
            let s = date_text(d) + seq![' '] + x;
            &&& date_prefix(s)
            &&& prefix_date(s) == Some(d)
            &&& s.skip(10) == seq![' '] + x
            &&& is_ascii_digit(s[0])
        }),
{
    lemma_date_text_roundtrip(d);
    let t = date_text(d);
    let s = t + seq![' '] + x;
    assert(s.take(10) =~= t);
    assert(s.skip(10) =~= seq![' '] + x);
    let ad = |c: char| is_ascii_digit(c);
    let dd = |c: char| is_digit(c);
    assert forall|i: int| 0 <= i < 10 && i != 4 && i != 7 implies #[trigger] dd(t[i]) by {
        assert(ad(t[i]));
    }
    assert(date_shape_with(t, dd));
    assert(ad(t[0]));
    assert(s[0] == t[0]);
    assert(s[10] == ' ');
}

/// Reading the completion mark of a line that starts with `x `.
proof fn lemma_completion_yes(r: Seq<char>, x: Seq<char>)
    requires
        r == seq!['x', ' '] + x,
        clean(x),
        x.len() > 0,
    ensures
        completion_mark(r),
        after_completion(r) == x,
{
    assert(r.skip(1) =~= seq![' '] + x);
    lemma_trim_start_space(x);
}

/// Reading the completion date of a completed line.
proof fn lemma_done_date_yes(r: Seq<char>, d: Ymd, x: Seq<char>)
    requires
        completion_mark(r),
        after_completion(r) == date_text(d) + seq![' '] + x,
        clean(x),
        valid(d),
        0 <= d.year <= 9999,
    ensures
        has_done_date(r),
        done_date_of(r) == Some(d),
        after_done_date(r) == x,
{
    lemma_date_part(d, x);
    lemma_trim_start_space(x);
}

/// Reading the priority of a line whose priority part is `(p) `.
proof fn lemma_priority_yes(r: Seq<char>, p: char, x: Seq<char>)
    requires
        after_done_date(r) == seq!['(', p, ')', ' '] + x,
        is_upper(p),
        clean(x),
    ensures
        priority_of(r) == Some(p),
        after_priority(r) == x,
{
    let a = after_done_date(r);
    assert(a.skip(3) =~= seq![' '] + x);
    assert(a[3] == ' ');
    lemma_trim_start_space(x);
}

/// Reading the creation date of a line whose date part is `d` written out.
proof fn lemma_created_yes(r: Seq<char>, d: Ymd, x: Seq<char>)
    requires
        after_priority(r) == date_text(d) + seq![' '] + x,
        clean(x),
        valid(d),
        0 <= d.year <= 9999,
    ensures
        created_date_of(r) == Some(d),
        after_created(r) == x,
{
    lemma_date_part(d, x);
    lemma_trim_start_space(x);
}

/// Whether the parts that a trimmed line gives are written back as they
/// were read: no priority on a completed task (the line form has no place
/// for it), no creation date on a completed task without a completion date
/// (it would be read as the completion date), and no date prefix that names
/// no date (such a prefix is read and dropped).
pub open spec fn renders_back(t0: Seq<char>) -> bool {
    &&& !(completion_mark(t0) && priority_of(t0) is Some)
    &&& !(completion_mark(t0) && done_date_of(t0) is None && created_date_of(t0) is Some)
    &&& has_done_date(t0) ==> done_date_of(t0) is Some
    &&& date_prefix(after_priority(t0)) ==> created_date_of(t0) is Some
}

/// The written creation date part of a line, in front of `d`.
pub open spec fn created_part(c: Option<Ymd>, d: Seq<char>) -> Seq<char> {
    match c {
        Some(x) => date_text(x) + seq![' '] + d,
        None => d,
    }
}

/// The written priority part of a line that is not completed, in front of `x`.
pub open spec fn priority_part(p: Option<char>, x: Seq<char>) -> Seq<char> {
    match p {
        Some(q) => seq!['(', q, ')', ' '] + x,
        None => x,
    }
}

/// The written completion part of a completed line, in front of `x`.
pub open spec fn done_part(c: Option<Ymd>, x: Seq<char>) -> Seq<char> {
    seq!['x', ' '] + match c {
        Some(y) => date_text(y) + seq![' '] + x,
        None => x,
    }
}

/// The line of a task with description `d`, part by part.
proof fn lemma_render_shape(t: TaskView, d: Seq<char>)
    ensures
        render_with(t, d) == if t.is_completed {
            done_part(t.completion_date, created_part(t.creation_date, d))
        } else {
            priority_part(t.priority, created_part(t.creation_date, d))
        },
{
    let done: Seq<Seq<char>> = if t.is_completed {
        seq![seq!['x']] + match t.completion_date {
            Some(x) => seq![date_text(x)],
            None => seq![],
        }
    } else {
        seq![]
    };
    let pri: Seq<Seq<char>> = match t.priority {
        Some(p) => if !t.is_completed {
            seq![seq!['(', p, ')']]
        } else {
            seq![]
        },
        None => seq![],
    };
    let created: Seq<Seq<char>> = match t.creation_date {
        Some(x) => seq![date_text(x)],
        None => seq![],
    };
    assert(render_parts(t, d) == done + pri + created + seq![d]);
    lemma_join_prefixed(done + pri + created, d);
    lemma_prefixed_append(done + pri, created, d);
    lemma_prefixed_append(done, pri, prefixed(created, d));
    lemma_prefixed_small(d);
    let rc = prefixed(created, d);
    assert(rc == created_part(t.creation_date, d));
    lemma_prefixed_small(rc);
    let rp = prefixed(pri, rc);
    lemma_prefixed_small(rp);
    if t.is_completed {
        assert(rp == rc);
        match t.completion_date {
            Some(x) => {
                assert(done =~= seq![seq!['x'], date_text(x)]);
                assert(prefixed(done, rp) =~= done_part(t.completion_date, rc));
            },
            None => {
                assert(done =~= seq![seq!['x']]);
                assert(prefixed(done, rp) =~= done_part(t.completion_date, rc));
            },
        }
    } else {
        assert(done =~= Seq::<Seq<char>>::empty());
        match t.priority {
            Some(p) => {
                assert(rp =~= priority_part(t.priority, rc));
            },
            None => {},
        }
    }
}

/// The stages of a clean, non-empty line that is written back as read.
proof fn lemma_read_parts(t0: Seq<char>)
    requires
        clean(t0),
        t0.len() > 0,
        renders_back(t0),
    ensures
        clean(after_created(t0)),
        after_created(t0).len() > 0,
        done_date_of(t0) matches Some(x) ==> valid(x) && 0 <= x.year <= 9999,
        created_date_of(t0) matches Some(x) ==> valid(x) && 0 <= x.year <= 9999,
        ({
            let rc = created_part(created_date_of(t0), after_created(t0));
            &&& clean(rc)
            &&& rc.len() > 0
            &&& rc.last() == after_created(t0).last()
            &&& created_date_of(t0) is Some ==> is_ascii_digit(rc[0])
            &&& created_date_of(t0) is None ==> rc == after_priority(t0) && !date_prefix(rc)
        }),
{
    lemma_stages(t0);
    lemma_prefix_date_year(after_completion(t0));
    lemma_prefix_date_year(after_priority(t0));
    let d = after_created(t0);
    match created_date_of(t0) {
        Some(x) => {
            lemma_date_part(x, d);
        },
        None => {},
    }
}

/// Reading back the parts in front of the creation date of a completed line.
proof fn lemma_reread_completed(t0: Seq<char>, r: Seq<char>)
    requires
        clean(t0),
        t0.len() > 0,
        renders_back(t0),
        completion_mark(t0),
        r == done_part(done_date_of(t0), created_part(created_date_of(t0), after_created(t0))),
    ensures
        completion_mark(r),
        done_date_of(r) == done_date_of(t0),
        priority_of(r) == priority_of(t0),
        after_priority(r) == created_part(created_date_of(t0), after_created(t0)),
        r[0] == 'x',
        r.last() == after_created(t0).last(),
{
    lemma_read_parts(t0);
    let rc = created_part(created_date_of(t0), after_created(t0));
    let rd = match done_date_of(t0) {
        Some(y) => date_text(y) + seq![' '] + rc,
        None => rc,
    };
    match done_date_of(t0) {
        Some(y) => {
            lemma_date_part(y, rc);
        },
        None => {},
    }
    assert(clean(rd) && rd.len() > 0);
    lemma_completion_yes(r, rd);
    match done_date_of(t0) {
        Some(y) => {
            lemma_done_date_yes(r, y, rc);
        },
        None => {
            assert(rc == after_priority(t0));
            assert(!has_done_date(r));
        },
    }
    assert(after_done_date(r) == rc);
    assert(!priority_prefix(rc));
}

/// Reading back the parts in front of the creation date of a line that is
/// not completed.
proof fn lemma_reread_open(t0: Seq<char>, r: Seq<char>)
    requires
        clean(t0),
        t0.len() > 0,
        renders_back(t0),
        !completion_mark(t0),
        r == priority_part(priority_of(t0), created_part(created_date_of(t0), after_created(t0))),
    ensures
        !completion_mark(r),
        done_date_of(r) == done_date_of(t0),
        priority_of(r) == priority_of(t0),
        after_priority(r) == created_part(created_date_of(t0), after_created(t0)),
        !is_white(r[0]),
        r.last() == after_created(t0).last(),
{
    lemma_read_parts(t0);
    let rc = created_part(created_date_of(t0), after_created(t0));
    match priority_of(t0) {
        Some(p) => {
            assert(r[0] == '(');
            lemma_priority_yes(r, p, rc);
        },
        None => {
            if created_date_of(t0) is None {
                assert(r == t0);
            } else {
                assert(is_ascii_digit(r[0]));
            }
            assert(!priority_prefix(r));
        },
    }
}

/// Writing the task that a line gives and reading it back gives the same
/// task, whose raw text is now the written line, for every line whose parts
/// are written back as they were read (`renders_back`).
pub proof fn lemma_parse_render_parse(id: nat, line: Seq<char>)
    requires
        renders_back(trim(line)),
    ensures
        ({
            let t = parse_spec(id, line);
            parse_spec(id, render(t)) == TaskView { raw: render(t), ..t }
        }),
{
    let t = parse_spec(id, line);
    let t0 = trim(line);
    lemma_trim_is_clean(line);
    lemma_stages(t0);
    let d = after_created(t0);
    lemma_trim_clean(d);
    assert(t.description == d);
    lemma_render_shape(t, t.description);
    let r = render(t);
    if t0.len() == 0 {
        assert(r == d);
        assert(parse_spec(id, r) =~= TaskView { raw: r, ..t });
        return;
    }
    lemma_read_parts(t0);
    let rc = created_part(created_date_of(t0), d);
    if completion_mark(t0) {
        lemma_reread_completed(t0, r);
    } else {
        lemma_reread_open(t0, r);
    }
    match created_date_of(t0) {
        Some(x) => {
            lemma_created_yes(r, x, d);
        },
        None => {
            assert(!date_prefix(after_priority(r)));
        },
    }
    assert(clean(r));
    lemma_trim_clean(r);
    assert(parse_spec(id, r) =~= TaskView { raw: r, ..t });
}

/// Text without a line break.
pub open spec fn no_newline(s: Seq<char>) -> bool {
    forall|i: int| 0 <= i < s.len() ==> s[i] != '\n'
}

proof fn lemma_no_newline_suffix(s: Seq<char>, k: int)
    requires
        no_newline(s),
        0 <= k <= s.len(),
    ensures
        no_newline(trim_start(s.skip(k))),
{
    lemma_trim_start_shape(s.skip(k));
    let t = trim_start(s.skip(k));
    assert forall|i: int| 0 <= i < t.len() implies t[i] != '\n' by {
        assert(t[i] == s[k + (s.len() - k - t.len()) + i]);
    }
}

proof fn lemma_no_newline_trim(s: Seq<char>)
    requires
        no_newline(s),
    ensures
        no_newline(trim(s)),
{
    assert(s.skip(0) =~= s);
    lemma_no_newline_suffix(s, 0);
    let a = trim_start(s);
    lemma_trim_end_shape(a);
    let b = trim_end(a);
    assert forall|i: int| 0 <= i < b.len() implies b[i] != '\n' by {
        assert(b[i] == a[i]);
    }
}

/// The description that a line without a line break gives has none either.
proof fn lemma_no_newline_stages(t0: Seq<char>)
    requires
        no_newline(t0),
    ensures
        no_newline(after_created(t0)),
{
    if completion_mark(t0) {
        lemma_no_newline_suffix(t0, 1);
    }
    let a1 = after_completion(t0);
    if has_done_date(t0) {
        lemma_no_newline_suffix(a1, 10);
    }
    let a2 = after_done_date(t0);
    if priority_prefix(a2) {
        lemma_no_newline_suffix(a2, 3);
    }
    let a3 = after_priority(t0);
    if date_prefix(a3) {
        lemma_no_newline_suffix(a3, 10);
    }
}

proof fn lemma_no_newline_date(d: Ymd, x: Seq<char>)
    requires
        valid(d),
        0 <= d.year <= 9999,
        no_newline(x),
    ensures
        no_newline(date_text(d) + seq![' '] + x),
{
    lemma_date_text_roundtrip(d);
    let t = date_text(d);
    let s = t + seq![' '] + x;
    let ad = |c: char| is_ascii_digit(c);
    assert forall|i: int| 0 <= i < s.len() implies s[i] != '\n' by {
        if i < 10 {
            if i != 4 && i != 7 {
                assert(ad(t[i]));
            }
        } else if i > 10 {
            assert(s[i] == x[i - 11]);
        }
    }
}

/// The line of a task read from a line without a line break is clean, not
/// empty, free of line breaks, and reads back as the task.
proof fn lemma_render_line(id: nat, line: Seq<char>, id2: nat)
    requires
        no_newline(line),
        trim(line).len() > 0,
        renders_back(trim(line)),
    ensures
        ({
            let t = parse_spec(id, line);
            let r = render(t);
            &&& clean(r)
            &&& r.len() > 0
            &&& no_newline(r)
            &&& trim(r).len() > 0
            &&& parse_spec(id2, r) == TaskView { id: id2, raw: r, ..t }
        }),
{
    let t = parse_spec(id, line);
    let t0 = trim(line);
    lemma_parse_render_parse(id, line);
    lemma_trim_is_clean(line);
    lemma_read_parts(t0);
    lemma_render_shape(t, t.description);
    lemma_no_newline_trim(line);
    lemma_no_newline_stages(t0);
    let d = after_created(t0);
    lemma_trim_clean(d);
    let r = render(t);
    let rc = created_part(created_date_of(t0), d);
    match created_date_of(t0) {
        Some(x) => {
            lemma_no_newline_date(x, d);
        },
        None => {},
    }
    assert(no_newline(rc));
    if completion_mark(t0) {
        lemma_reread_completed(t0, r);
        let rd = match done_date_of(t0) {
            Some(y) => date_text(y) + seq![' '] + rc,
            None => rc,
        };
        match done_date_of(t0) {
            Some(y) => {
                lemma_no_newline_date(y, rc);
            },
            None => {},
        }
        assert(r == seq!['x', ' '] + rd);
        assert forall|i: int| 0 <= i < r.len() implies r[i] != '\n' by {
            if i >= 2 {
                assert(r[i] == rd[i - 2]);
            }
        }
    } else {
        lemma_reread_open(t0, r);
        match priority_of(t0) {
            Some(p) => {
                assert(r == seq!['(', p, ')', ' '] + rc);
                assert forall|i: int| 0 <= i < r.len() implies r[i] != '\n' by {
                    if i >= 4 {
                        assert(r[i] == rc[i - 4]);
                    }
                }
            },
            None => {},
        }
    }
    lemma_trim_clean(r);
    assert(parse_spec(id2, r) =~= TaskView { id: id2, raw: r, ..t });
}

/// The lines of a text hold no line break.
proof fn lemma_lines_no_newline(s: Seq<char>)
    ensures
        forall|i: int| 0 <= i < lines(s).len() ==> no_newline(#[trigger] lines(s)[i]),
    decreases s.len(),
{
    if s.len() > 0 {
        lemma_first_newline(s);
        let k = first_newline(s) as int;
        if k < s.len() {
            lemma_lines_no_newline(s.skip(k + 1));
            let line = s.take(k);
            let line = if line.len() > 0 && line.last() == '\r' {
                line.drop_last()
            } else {
                line
            };
            assert forall|j: int| 0 <= j < line.len() implies line[j] != '\n' by {
                assert(line[j] == s[j]);
            }
            assert forall|i: int| 0 <= i < lines(s).len() implies no_newline(
                #[trigger] lines(s)[i],
            ) by {
                if i > 0 {
                    assert(lines(s)[i] == lines(s.skip(k + 1))[i - 1]);
                }
            }
        }
    }
}

/// The first line break of `p`, a line break and `q` is the one after `p`.
proof fn lemma_first_newline_after(p: Seq<char>, q: Seq<char>)
    requires
        no_newline(p),
    ensures
        first_newline(p + seq!['\n'] + q) == p.len(),
    decreases p.len(),
{
    let s = p + seq!['\n'] + q;
    if p.len() > 0 {
        assert(s.drop_first() =~= p.drop_first() + seq!['\n'] + q);
        lemma_first_newline_after(p.drop_first(), q);
    }
}

/// Lines joined by line breaks, each ended by one, are read back as those
/// lines when none holds a line break or ends in white space.
proof fn lemma_lines_of_joined(rs: Seq<Seq<char>>)
    requires
        rs.len() > 0,
        forall|k: int| 0 <= k < rs.len() ==> no_newline(#[trigger] rs[k]) && clean(rs[k]),
    ensures
        lines(join(rs, seq!['\n']) + seq!['\n']) == rs,
    decreases rs.len(),
{
    let r0 = rs[0];
    assert(no_newline(r0) && clean(r0));
    let tail = if rs.len() == 1 {
        Seq::<char>::empty()
    } else {
        join(rs.drop_first(), seq!['\n']) + seq!['\n']
    };
    if rs.len() == 1 {
        assert(join(rs, seq!['\n']) == r0);
    } else {
        assert(rs =~= seq![r0] + rs.drop_first());
        lemma_join_cons(r0, rs.drop_first(), seq!['\n']);
    }
    let s = join(rs, seq!['\n']) + seq!['\n'];
    assert(s =~= r0 + seq!['\n'] + tail);
    lemma_first_newline_after(r0, tail);
    assert(s.take(r0.len() as int) =~= r0);
    assert(s.skip(r0.len() as int + 1) =~= tail);
    if r0.len() > 0 {
        assert(is_white('\r'));
        assert(r0.last() != '\r');
    }
    if rs.len() == 1 {
        assert(lines(tail) =~= Seq::<Seq<char>>::empty());
        assert(lines(s) =~= seq![r0]);
    } else {
        assert forall|k: int| 0 <= k < rs.drop_first().len() implies no_newline(
            #[trigger] rs.drop_first()[k],
        ) && clean(rs.drop_first()[k]) by {
            assert(rs.drop_first()[k] == rs[k + 1]);
        }
        lemma_lines_of_joined(rs.drop_first());
        assert(lines(s) =~= seq![r0] + rs.drop_first());
    }
}

/// The tasks of lines that are none of them blank: one per line, numbered
/// from `start + 1`.
proof fn lemma_tasks_of_full_lines(ls: Seq<Seq<char>>, start: nat)
    requires
        forall|k: int| 0 <= k < ls.len() ==> trim(#[trigger] ls[k]).len() > 0,
    ensures
        tasks_of_lines(ls, start) == Seq::new(
            ls.len(),
            |k: int| parse_spec((start + k + 1) as nat, ls[k]),
        ),
    decreases ls.len(),
{
    if ls.len() > 0 {
        assert(trim(ls[0]).len() > 0);
        assert forall|k: int| 0 <= k < ls.drop_first().len() implies trim(
            #[trigger] ls.drop_first()[k],
        ).len() > 0 by {
            assert(ls.drop_first()[k] == ls[k + 1]);
        }
        lemma_tasks_of_full_lines(ls.drop_first(), start + 1);
        assert(tasks_of_lines(ls, start) =~= Seq::new(
            ls.len(),
            |k: int| parse_spec((start + k + 1) as nat, ls[k]),
        ));
    }
}

/// Every task read from lines is the task of one of them that is not blank.
proof fn lemma_tasks_from_lines(ls: Seq<Seq<char>>, start: nat)
    ensures
        forall|k: int|
            0 <= k < tasks_of_lines(ls, start).len() ==> exists|i: int|
                0 <= i < ls.len() && trim(ls[i]).len() > 0 && #[trigger] tasks_of_lines(
                    ls,
                    start,
                )[k] == parse_spec(tasks_of_lines(ls, start)[k].id, ls[i]),
    decreases ls.len(),
{
    if ls.len() > 0 {
        lemma_tasks_from_lines(ls.drop_first(), start + 1);
        let ts = tasks_of_lines(ls, start);
        let rest = tasks_of_lines(ls.drop_first(), start + 1);
        let first = if trim(ls[0]).len() > 0 {
            seq![parse_spec(start + 1, ls[0])]
        } else {
            seq![]
        };
        assert(ts == first + rest);
        assert forall|k: int| 0 <= k < ts.len() implies exists|i: int|
            0 <= i < ls.len() && trim(ls[i]).len() > 0 && #[trigger] ts[k] == parse_spec(
                ts[k].id,
                ls[i],
            ) by {
            if k < first.len() {
                assert(ts[k] == parse_spec(ts[k].id, ls[0]));
            } else {
                let j = k - first.len();
                assert(ts[k] == rest[j]);
                let i = choose|i: int|
                    0 <= i < ls.drop_first().len() && trim(ls.drop_first()[i]).len() > 0
                        && #[trigger] rest[j] == parse_spec(rest[j].id, ls.drop_first()[i]);
                assert(ls.drop_first()[i] == ls[i + 1]);
            }
        }
    }
}

/// Whether every line of a todo.txt text is written back as it was read.
pub open spec fn text_renders_back(content: Seq<char>) -> bool {
    forall|i: int|
        0 <= i < lines(content).len() ==> renders_back(trim(#[trigger] lines(content)[i]))
}

/// Saving the tasks read from a text and reading the saved text gives the
/// same tasks in the same order, numbered 1, 2, ... (blank lines are gone),
/// each with its written line as raw text, for every text whose lines are
/// written back as they were read (`text_renders_back`).
pub proof fn lemma_load_save_load(content: Seq<char>)
    requires
        text_renders_back(content),
    ensures
        ({
            let ts = load_spec(content);
            let us = load_spec(save_spec(ts));
            &&& us.len() == ts.len()
            &&& forall|k: int|
                0 <= k < ts.len() ==> #[trigger] us[k] == TaskView {
                    id: (k + 1) as nat,
                    raw: render(ts[k]),
                    ..ts[k]
                }
        }),
{
    let ls = lines(content);
    let ts = load_spec(content);
    lemma_lines_no_newline(content);
    lemma_tasks_from_lines(ls, 0);
    let rs = ts.map_values(|t: TaskView| render(t));
    assert forall|k: int| 0 <= k < ts.len() implies {
        &&& no_newline(#[trigger] rs[k])
        &&& clean(rs[k])
        &&& rs[k].len() > 0
        &&& trim(rs[k]).len() > 0
        &&& parse_spec((k + 1) as nat, rs[k]) == TaskView {
            id: (k + 1) as nat,
            raw: render(ts[k]),
            ..ts[k]
        }
    } by {
        assert(ts[k] == tasks_of_lines(ls, 0)[k]);
        let i = choose|i: int|
            0 <= i < ls.len() && trim(ls[i]).len() > 0 && #[trigger] tasks_of_lines(ls, 0)[k]
                == parse_spec(tasks_of_lines(ls, 0)[k].id, ls[i]);
        assert(no_newline(ls[i]));
        assert(renders_back(trim(ls[i])));
        lemma_render_line(ts[k].id, ls[i], (k + 1) as nat);
    }
    let body = join(rs, seq!['\n']);
    if ts.len() == 0 {
        assert(rs.len() == 0);
        assert(body.len() == 0);
        assert(save_spec(ts) == body);
        assert(lines(body) =~= Seq::<Seq<char>>::empty());
        assert(load_spec(save_spec(ts)) =~= Seq::<TaskView>::empty());
    } else {
        assert(rs.len() > 0);
        lemma_lines_of_joined(rs);
        assert(body.len() > 0) by {
            assert(rs =~= seq![rs[0]] + rs.drop_first());
            if rs.len() > 1 {
                lemma_join_cons(rs[0], rs.drop_first(), seq!['\n']);
            } else {
                assert(body == rs[0]);
            }
        }
        assert(save_spec(ts) == body + seq!['\n']);
        assert(lines(save_spec(ts)) == rs);
        lemma_tasks_of_full_lines(rs, 0);
        let us = load_spec(save_spec(ts));
        assert(us.len() == ts.len());
        assert forall|k: int| 0 <= k < ts.len() implies #[trigger] us[k] == TaskView {
            id: (k + 1) as nat,
            raw: render(ts[k]),
            ..ts[k]
        } by {
            assert(us[k] == parse_spec((0 + k + 1) as nat, rs[k]));
        }
    }
}

/// A non-white character of `s` stays when its end is trimmed.
proof fn lemma_trim_end_keeps(s: Seq<char>, j: int)
    requires
        0 <= j < s.len(),
        !is_white(s[j]),
    ensures
        trim_end(s).len() > j,
        trim_end(s) == s.take(trim_end(s).len() as int),
    decreases s.len(),
{
    lemma_trim_end_shape(s);
    if is_white(s.last()) {
        assert(j < s.len() - 1);
        assert(s.drop_last()[j] == s[j]);
        lemma_trim_end_keeps(s.drop_last(), j);
    }
}

/// Text whose trimmed form is not empty has a non-white character.
proof fn lemma_has_non_white(s: Seq<char>) -> (j: int)
    requires
        trim(s).len() > 0,
    ensures
        0 <= j < s.len(),
        !is_white(s[j]),
{
    lemma_trim_start_shape(s);
    lemma_trim_end_shape(trim_start(s));
    let m = s.len() - trim_start(s).len();
    assert(trim_start(s).len() > 0);
    assert(trim_start(s)[0] == s[m]);
    m
}

/// Reading again the line of an open task with a priority, whatever
/// description with a non-white character it now has, gives the same
/// priority.
proof fn lemma_reread_keeps_priority(t: TaskView, x: Seq<char>, id: nat)
    requires
        !t.is_completed,
        t.priority matches Some(p) && is_upper(p),
        trim(x).len() > 0,
    ensures
        parse_spec(id, render_with(t, x)).priority == t.priority,
{
    let p = t.priority->0;
    lemma_render_shape(t, x);
    let r = render_with(t, x);
    let rc = created_part(t.creation_date, x);
    assert(r == seq!['(', p, ')', ' '] + rc);
    let j = lemma_has_non_white(x);
    let k: int = match t.creation_date {
        Some(d) => date_text(d).len() + 1 + j,
        None => j,
    };
    assert(rc[k] == x[j]);
    assert(r[4 + k] == x[j]);
    lemma_trim_end_keeps(r, 4 + k);
    lemma_trim_end_shape(r);
    assert(trim_start(r) == r);
    let t0 = trim(r);
    assert(t0 == trim_end(r));
    assert(t0.len() > 4);
    assert(t0 == r.take(t0.len() as int));
    assert(r[0] == '(' && r[1] == p && r[2] == ')' && r[3] == ' ');
    assert(t0[0] == r[0] && t0[1] == r[1] && t0[2] == r[2] && t0[3] == r[3]);
    assert(!completion_mark(t0));
    assert(after_done_date(t0) == t0);
    assert(priority_prefix(t0));
}

/// Putting text before the description of an open task keeps its priority,
/// as long as the new description is not blank.
pub proof fn lemma_prepend_keeps_priority(t: TaskView, text: Seq<char>)
    requires
        !t.is_completed,
        t.priority matches Some(p) && is_upper(p),
        trim(text + seq![' '] + trim(t.description)).len() > 0,
    ensures
        prepend_one(t, text).priority == t.priority,
{
    lemma_reread_keeps_priority(t, text + seq![' '] + trim(t.description), t.id);
}

/// Appending text to the description of an open task keeps its priority,
/// as long as the new description is not blank.
pub proof fn lemma_append_keeps_priority(t: TaskView, text: Seq<char>)
    requires
        !t.is_completed,
        t.priority matches Some(p) && is_upper(p),
        trim(trim(t.description) + seq![' '] + text).len() > 0,
    ensures
        append_one(t, text).priority == t.priority,
{
    lemma_reread_keeps_priority(t, trim(t.description) + seq![' '] + text, t.id);
}

/// What every parsed task is like: its id is the given one, its raw text
/// the trimmed line, it is completed exactly when the line starts with `x`
/// and white space, it has a completion date only when completed, its
/// priority is a capital letter, its description is trimmed, and its
/// projects, contexts and tags are those of its description, in order.
pub proof fn lemma_parse_shape(id: nat, line: Seq<char>)
    ensures
        ({
            let t = parse_spec(id, line);
            &&& t.id == id
            &&& t.raw == trim(line)
            &&& t.is_completed == completion_mark(trim(line))
            &&& (t.completion_date is Some ==> t.is_completed)
            &&& (t.priority matches Some(p) ==> is_upper(p))
            &&& trim(t.description) == t.description
            &&& t.projects == crate::grammar::captures(t.description, '+')
            &&& t.contexts == crate::grammar::captures(t.description, '@')
            &&& t.tags == crate::grammar::tags_of(t.description)
        }),
{
    let t0 = trim(line);
    lemma_trim_is_clean(line);
    lemma_stages(t0);
    lemma_trim_clean(after_created(t0));
}

/// Writing an open task read from a line and reading it back gives the same
/// task, whose raw text is now the written line, when its description does
/// not itself start as a line part does (with `x` and white space, a
/// priority, or a date and white space).
pub proof fn lemma_parse_render_parse_open(id: nat, line: Seq<char>)
    requires
        !completion_mark(trim(line)),
        !completion_mark(parse_spec(id, line).description),
        !priority_prefix(parse_spec(id, line).description),
        !date_prefix(parse_spec(id, line).description),
    ensures
        ({
            let t = parse_spec(id, line);
            parse_spec(id, render(t)) == TaskView { raw: render(t), ..t }
        }),
{
    let t = parse_spec(id, line);
    let t0 = trim(line);
    lemma_trim_is_clean(line);
    lemma_stages(t0);
    let d = after_created(t0);
    lemma_trim_clean(d);
    assert(t.description == d);
    lemma_render_shape(t, t.description);
    let r = render(t);
    if t0.len() == 0 {
        assert(r == d);
        assert(parse_spec(id, r) =~= TaskView { raw: r, ..t });
        return;
    }
    lemma_prefix_date_year(after_priority(t0));
    let rc = created_part(created_date_of(t0), d);
    match created_date_of(t0) {
        Some(x) => {
            lemma_date_part(x, d);
        },
        None => {},
    }
    assert(clean(rc) && rc.len() > 0 && rc.last() == d.last());
    assert(r == priority_part(priority_of(t0), rc));
    match priority_of(t0) {
        Some(p) => {
            assert(r[0] == '(');
            assert(!completion_mark(r));
            lemma_priority_yes(r, p, rc);
        },
        None => {
            assert(r == rc);
            match created_date_of(t0) {
                Some(x) => {
                    assert(is_ascii_digit(r[0]));
                },
                None => {
                    assert(r == d);
                },
            }
            assert(!completion_mark(r));
            assert(!priority_prefix(r));
        },
    }
    assert(after_priority(r) == rc);
    match created_date_of(t0) {
        Some(x) => {
            lemma_created_yes(r, x, d);
        },
        None => {
            assert(!date_prefix(after_priority(r)));
        },
    }
    assert(clean(r));
    lemma_trim_clean(r);
    assert(parse_spec(id, r) =~= TaskView { raw: r, ..t });
}

/// Whether text does not start as a part of a line does: with `x` and
/// white space, with a priority, or with a date and white space.
pub open spec fn plain_start(s: Seq<char>) -> bool {
    !completion_mark(s) && !priority_prefix(s) && !date_prefix(s)
}

/// What is written before the description of an open task: its priority
/// and its creation date, each followed by a space.
pub open spec fn open_prefix(t: TaskView) -> Seq<char> {
    (match t.priority {
        Some(q) => seq!['(', q, ')', ' '],
        None => seq![],
    }) + (match t.creation_date {
        Some(d) => date_text(d) + seq![' '],
        None => seq![],
    })
}

/// The line of an open task is its prefix followed by its description.
proof fn lemma_open_render(t: TaskView, x: Seq<char>)
    requires
        !t.is_completed,
    ensures
        render_with(t, x) == open_prefix(t) + x,
{
    lemma_render_shape(t, x);
    assert(render_with(t, x) =~= open_prefix(t) + x);
}

/// Reading the line of an open task with the description `x` gives back
/// the task's priority and creation date, keeps it open with no completion
/// date, and gives `x` trimmed as its description, whenever that trimmed
/// description is not empty and does not itself start as a part of a line.
pub proof fn lemma_reread_open_with_desc(t: TaskView, x: Seq<char>, id: nat)
    requires
        !t.is_completed,
        t.priority matches Some(p) ==> is_upper(p),
        t.creation_date matches Some(d) ==> valid(d) && 0 <= d.year <= 9999,
        trim(x).len() > 0,
        plain_start(trim(x)),
    ensures
        ({
            let u = parse_spec(id, render_with(t, x));
            &&& u.id == id
            &&& u.priority == t.priority
            &&& u.creation_date == t.creation_date
            &&& !u.is_completed
            &&& u.completion_date is None
            &&& u.description == trim(x)
        }),
{
    let (w1, w2) = crate::text::lemma_trim_split(x);
    let y = trim(x);
    lemma_trim_is_clean(x);
    lemma_trim_clean(y);
    lemma_open_render(t, x);
    let pre = open_prefix(t);
    let r = render_with(t, x);
    assert(r == pre + x);
    if pre.len() == 0 {
        assert(r == x);
        assert(trim(r) == y);
        assert(after_completion(y) == y);
        assert(after_done_date(y) == y);
        assert(after_priority(y) == y);
        assert(after_created(y) == y);
        assert(t.priority is None) by {
            if t.priority is Some {
                assert(pre.len() >= 4);
            }
        }
        assert(t.creation_date is None) by {
            if let Some(d) = t.creation_date {
                lemma_date_text_roundtrip(d);
            }
        }
        return;
    }
    let a = pre + w1 + y;
    assert(r =~= a + w2);
    crate::text::lemma_trim_end_before_white(a, w2);
    assert(a.last() == y.last());
    assert(trim_end(a) == a);
    assert(r[0] == pre[0]);
    let rest = match t.creation_date {
        Some(d) => date_text(d) + seq![' '] + (w1 + y),
        None => w1 + y,
    };
    match t.creation_date {
        Some(d) => {
            lemma_date_part(d, w1 + y);
        },
        None => {},
    }
    match t.priority {
        Some(q) => {
            assert(a =~= seq!['(', q, ')', ' '] + rest);
            assert(!is_white(r[0]));
            assert(trim_start(r) == r);
            assert(trim(r) == a);
            assert(!completion_mark(a));
            assert(after_done_date(a) == a);
            assert(a[3] == ' ');
            assert(priority_prefix(a));
            assert(a.skip(3) =~= seq![' '] + rest);
            crate::text::lemma_trim_start_after_white(seq![' '], rest);
        },
        None => {
            let d = t.creation_date->0;
            assert(a =~= rest);
            assert(is_ascii_digit(r[0]));
            assert(trim_start(r) == r);
            assert(trim(r) == a);
            assert(!completion_mark(a));
            assert(after_done_date(a) == a);
            assert(!priority_prefix(a));
        },
    }
    let t0 = trim(r);
    assert(t0 == a);
    match t.creation_date {
        Some(d) => {
            assert(is_ascii_digit(rest[0]));
            assert(trim_start(rest) == rest);
            assert(after_priority(t0) == rest);
            assert(rest.skip(10) =~= seq![' '] + (w1 + y));
            crate::text::lemma_trim_start_after_white(seq![' '] + w1, y);
            assert(seq![' '] + (w1 + y) =~= (seq![' '] + w1) + y);
            assert(crate::text::all_white(seq![' '] + w1)) by {
                assert forall|i: int| 0 <= i < (seq![' '] + w1).len() implies is_white(
                    #[trigger] (seq![' '] + w1)[i],
                ) by {
                    if i > 0 {
                        assert((seq![' '] + w1)[i] == w1[i - 1]);
                    }
                }
            }
            assert(after_created(t0) == y);
        },
        None => {
            crate::text::lemma_trim_start_after_white(w1, y);
            assert(after_priority(t0) == y);
            assert(after_created(t0) == y);
        },
    }
}

/// The line of an open task is what is written before its description,
/// then the description.
pub proof fn lemma_open_prefix_line(t: TaskView, x: Seq<char>)
    requires
        !t.is_completed,
    ensures
        render_with(t, x) == open_prefix(t) + x,
{
    lemma_open_render(t, x);
}

} // verus!
