//! Time contexts (`@today`, `@thisweek`, ...) and the calendar rules that
//! move tasks between them.

use crate::date::{day_number, month_days, weekday_of, Date, Ymd};
use crate::text::{
    append_chars, chars_of, collapse_white, collapse_white_chars, is_white, replace_all,
    replace_all_chars, string_of, string_of_range, trim, trim_bounds,
};
use vstd::prelude::*;

verus! {

/// A relative time bucket that a task can be tagged with.
#[derive(Debug, Clone, Copy, PartialEq, Eq, Structural)]
pub enum TimeContext {
    Today,
    Tomorrow,
    ThisWeek,
    NextWeek,
    ThisMonth,
    NextMonth,
    ThisQuarter,
    NextQuarter,
}

/// The name of a time context, as written after `@`.
pub open spec fn name(c: TimeContext) -> Seq<char> {
    match c {
        TimeContext::Today => seq!['t', 'o', 'd', 'a', 'y'],
        TimeContext::Tomorrow => seq!['t', 'o', 'm', 'o', 'r', 'r', 'o', 'w'],
        TimeContext::ThisWeek => seq!['t', 'h', 'i', 's', 'w', 'e', 'e', 'k'],
        TimeContext::NextWeek => seq!['n', 'e', 'x', 't', 'w', 'e', 'e', 'k'],
        TimeContext::ThisMonth => seq!['t', 'h', 'i', 's', 'm', 'o', 'n', 't', 'h'],
        TimeContext::NextMonth => seq!['n', 'e', 'x', 't', 'm', 'o', 'n', 't', 'h'],
        TimeContext::ThisQuarter => seq!['t', 'h', 'i', 's', 'q', 'u', 'a', 'r', 't', 'e', 'r'],
        TimeContext::NextQuarter => seq!['n', 'e', 'x', 't', 'q', 'u', 'a', 'r', 't', 'e', 'r'],
    }
}

/// The tag of a time context: `@` and its name.
pub open spec fn tag(c: TimeContext) -> Seq<char> {
    seq!['@'] + name(c)
}

/// The time context with the given (lowercase) name.
pub open spec fn context_named(s: Seq<char>) -> Option<TimeContext> {
    if s == name(TimeContext::Today) {
        Some(TimeContext::Today)
    } else if s == name(TimeContext::Tomorrow) {
        Some(TimeContext::Tomorrow)
    } else if s == name(TimeContext::ThisWeek) {
        Some(TimeContext::ThisWeek)
    } else if s == name(TimeContext::NextWeek) {
        Some(TimeContext::NextWeek)
    } else if s == name(TimeContext::ThisMonth) {
        Some(TimeContext::ThisMonth)
    } else if s == name(TimeContext::NextMonth) {
        Some(TimeContext::NextMonth)
    } else if s == name(TimeContext::ThisQuarter) {
        Some(TimeContext::ThisQuarter)
    } else if s == name(TimeContext::NextQuarter) {
        Some(TimeContext::NextQuarter)
    } else {
        None
    }
}

/// All time contexts, nearest first.
pub open spec fn all_contexts() -> Seq<TimeContext> {
    seq![
        TimeContext::Today,
        TimeContext::Tomorrow,
        TimeContext::ThisWeek,
        TimeContext::NextWeek,
        TimeContext::ThisMonth,
        TimeContext::NextMonth,
        TimeContext::ThisQuarter,
        TimeContext::NextQuarter,
    ]
}

/// The time context whose name `s` starts with, names tried nearest first.
pub open spec fn keyword_at(s: Seq<char>) -> Option<TimeContext> {
    keyword_from(s, 0)
}

pub open spec fn keyword_from(s: Seq<char>, k: int) -> Option<TimeContext>
    decreases 8 - k,
{
    if k < 0 || k >= 8 {
        None
    } else if crate::text::occurs_at(s, name(all_contexts()[k]), 0) {
        Some(all_contexts()[k])
    } else {
        keyword_from(s, k + 1)
    }
}

pub proof fn lemma_keyword_from(s: Seq<char>, k: int)
    ensures
        keyword_from(s, k) matches Some(c) ==> crate::text::occurs_at(s, name(c), 0),
    decreases 8 - k,
{
    if 0 <= k < 8 && !crate::text::occurs_at(s, name(all_contexts()[k]), 0) {
        lemma_keyword_from(s, k + 1);
    }
}

/// `s` with every match of `@(today|tomorrow|...|nextquarter)` removed,
/// left to right.
pub open spec fn strip_time_contexts(s: Seq<char>) -> Seq<char>
    decreases s.len(),
{
    if s.len() == 0 {
        s
    } else if s[0] == '@' && keyword_at(s.drop_first()) is Some {
        let n = name(keyword_at(s.drop_first())->0).len() as int;
        proof {
            lemma_keyword_from(s.drop_first(), 0);
        }
        strip_time_contexts(s.skip(1 + n))
    } else {
        seq![s[0]] + strip_time_contexts(s.drop_first())
    }
}

/// The description without time contexts, its white space collapsed.
pub open spec fn remove_time_contexts_spec(s: Seq<char>) -> Seq<char> {
    collapse_white(strip_time_contexts(s))
}

/// The description with its time contexts replaced by `c`, at the end.
pub open spec fn set_time_context_spec(s: Seq<char>, c: TimeContext) -> Seq<char> {
    trim(remove_time_contexts_spec(s)) + seq![' '] + tag(c)
}

pub open spec fn is_last_month_of_quarter_spec(m: int) -> bool {
    m == 3 || m == 6 || m == 9 || m == 12
}

pub open spec fn is_first_month_of_quarter_spec(m: int) -> bool {
    m == 1 || m == 4 || m == 7 || m == 10
}

pub open spec fn is_last_week_of_month_spec(d: Ymd) -> bool {
    d.day > month_days(d.year, d.month) - 7
}

pub open spec fn when(b: bool, x: (TimeContext, TimeContext)) -> Seq<(TimeContext, TimeContext)> {
    if b {
        seq![x]
    } else {
        seq![]
    }
}

/// The transitions due on date `d`, in the order they are applied:
/// `@tomorrow`→`@today` daily, `@thisweek`→`@today` on Fridays,
/// `@nextweek`→`@thisweek` on Mondays, `@thismonth`→`@thisweek` in the last
/// seven days of a month, `@nextmonth`→`@thismonth` on the first of a month,
/// `@thisquarter`→`@thismonth` on every day of a quarter's last month and
/// `@nextquarter`→`@thisquarter` on the first of a quarter.
pub open spec fn transitions_spec(d: Ymd) -> Seq<(TimeContext, TimeContext)> {
    seq![(TimeContext::Tomorrow, TimeContext::Today)]
        + when(weekday_of(d) == 4, (TimeContext::ThisWeek, TimeContext::Today))
        + when(weekday_of(d) == 0, (TimeContext::NextWeek, TimeContext::ThisWeek))
        + when(is_last_week_of_month_spec(d), (TimeContext::ThisMonth, TimeContext::ThisWeek))
        + when(d.day == 1, (TimeContext::NextMonth, TimeContext::ThisMonth))
        + when(
            is_last_month_of_quarter_spec(d.month),
            (TimeContext::ThisQuarter, TimeContext::ThisMonth),
        )
        + when(
            is_first_month_of_quarter_spec(d.month) && d.day == 1,
            (TimeContext::NextQuarter, TimeContext::ThisQuarter),
        )
}

/// The transitions of a day are, in terms of the calendar alone:
/// `@tomorrow`→`@today` every day; `@thisweek`→`@today` exactly on Fridays;
/// `@nextweek`→`@thisweek` exactly on Mondays; `@thismonth`→`@thisweek`
/// exactly in the last seven days of a month; `@nextmonth`→`@thismonth`
/// exactly on the first of a month; `@thisquarter`→`@thismonth` exactly in
/// March, June, September and December; `@nextquarter`→`@thisquarter`
/// exactly on the first of January, April, July and October; nothing else,
/// and none twice.
pub proof fn lemma_transitions_of_day(d: Ymd)
    ensures
        ({
            let ts = transitions_spec(d);
            &&& ts.contains((TimeContext::Tomorrow, TimeContext::Today))
            &&& ts.contains((TimeContext::ThisWeek, TimeContext::Today)) == (day_number(d) % 7
                == 4)
            &&& ts.contains((TimeContext::NextWeek, TimeContext::ThisWeek)) == (day_number(d) % 7
                == 0)
            &&& ts.contains((TimeContext::ThisMonth, TimeContext::ThisWeek)) == (d.day > month_days(
                d.year,
                d.month,
            ) - 7)
            &&& ts.contains((TimeContext::NextMonth, TimeContext::ThisMonth)) == (d.day == 1)
            &&& ts.contains((TimeContext::ThisQuarter, TimeContext::ThisMonth)) == (d.month == 3
                || d.month == 6 || d.month == 9 || d.month == 12)
            &&& ts.contains((TimeContext::NextQuarter, TimeContext::ThisQuarter)) == (d.day == 1
                && (d.month == 1 || d.month == 4 || d.month == 7 || d.month == 10))
            &&& forall|k: int|
                0 <= k < ts.len() ==> (#[trigger] ts[k] == (TimeContext::Tomorrow, TimeContext::Today)
                    || ts[k] == (TimeContext::ThisWeek, TimeContext::Today) || ts[k] == (
                    TimeContext::NextWeek,
                    TimeContext::ThisWeek,
                ) || ts[k] == (TimeContext::ThisMonth, TimeContext::ThisWeek) || ts[k] == (
                    TimeContext::NextMonth,
                    TimeContext::ThisMonth,
                ) || ts[k] == (TimeContext::ThisQuarter, TimeContext::ThisMonth) || ts[k] == (
                    TimeContext::NextQuarter,
                    TimeContext::ThisQuarter,
                ))
            &&& distinct_transitions(ts)
        }),
{
    let a = (TimeContext::Tomorrow, TimeContext::Today);
    let b = (TimeContext::ThisWeek, TimeContext::Today);
    let c = (TimeContext::NextWeek, TimeContext::ThisWeek);
    let e = (TimeContext::ThisMonth, TimeContext::ThisWeek);
    let f = (TimeContext::NextMonth, TimeContext::ThisMonth);
    let g = (TimeContext::ThisQuarter, TimeContext::ThisMonth);
    let h = (TimeContext::NextQuarter, TimeContext::ThisQuarter);
    let cb = weekday_of(d) == 4;
    let cc = weekday_of(d) == 0;
    let ce = is_last_week_of_month_spec(d);
    let cf = d.day == 1;
    let cg = is_last_month_of_quarter_spec(d.month);
    let ch = is_first_month_of_quarter_spec(d.month) && d.day == 1;
    let s0 = seq![a];
    let s1 = s0 + when(cb, b);
    let s2 = s1 + when(cc, c);
    let s3 = s2 + when(ce, e);
    let s4 = s3 + when(cf, f);
    let s5 = s4 + when(cg, g);
    let s6 = s5 + when(ch, h);
    assert(transitions_spec(d) == s6);
    assert forall|y: (TimeContext, TimeContext)| #[trigger] s6.contains(y) == (y == a || (cb && y
        == b) || (cc && y == c) || (ce && y == e) || (cf && y == f) || (cg && y == g) || (ch && y
        == h)) by {
        assert(s0.contains(y) == (y == a)) by {
            if y == a {
                assert(s0[0] == y);
            }
        }
        lemma_when_contains(s0, cb, b, y);
        lemma_when_contains(s1, cc, c, y);
        lemma_when_contains(s2, ce, e, y);
        lemma_when_contains(s3, cf, f, y);
        lemma_when_contains(s4, cg, g, y);
        lemma_when_contains(s5, ch, h, y);
    }
    assert(distinct_transitions(s0));
    lemma_when_distinct(s0, cb, b);
    lemma_when_distinct(s1, cc, c);
    lemma_when_distinct(s2, ce, e);
    lemma_when_distinct(s3, cf, f);
    lemma_when_distinct(s4, cg, g);
    lemma_when_distinct(s5, ch, h);
    assert forall|k: int| 0 <= k < s6.len() implies (#[trigger] s6[k] == a || s6[k] == b || s6[k]
        == c || s6[k] == e || s6[k] == f || s6[k] == g || s6[k] == h) by {
        assert(s6.contains(s6[k]));
    }
    assert(s6.contains(a));
    assert(s6.contains(b) == cb);
    assert(s6.contains(c) == cc);
    assert(s6.contains(e) == ce);
    assert(s6.contains(f) == cf);
    assert(s6.contains(g) == cg);
    assert(s6.contains(h) == ch);
}

pub open spec fn distinct_transitions(s: Seq<(TimeContext, TimeContext)>) -> bool {
    forall|x: int, y: int| 0 <= x < y < s.len() ==> #[trigger] s[x] != #[trigger] s[y]
}

proof fn lemma_when_contains(
    s: Seq<(TimeContext, TimeContext)>,
    b: bool,
    x: (TimeContext, TimeContext),
    y: (TimeContext, TimeContext),
)
    ensures
        (s + when(b, x)).contains(y) == (s.contains(y) || (b && x == y)),
{
    let t = s + when(b, x);
    if s.contains(y) {
        let k = choose|k: int| 0 <= k < s.len() && s[k] == y;
        assert(t[k] == y);
    }
    if b && x == y {
        assert(t[s.len() as int] == y);
    }
    if t.contains(y) {
        let k = choose|k: int| 0 <= k < t.len() && t[k] == y;
        if k < s.len() {
            assert(s[k] == y);
        }
    }
}

proof fn lemma_when_distinct(s: Seq<(TimeContext, TimeContext)>, b: bool, x: (TimeContext, TimeContext))
    requires
        distinct_transitions(s),
        b ==> !s.contains(x),
    ensures
        distinct_transitions(s + when(b, x)),
{
    let t = s + when(b, x);
    assert forall|i: int, j: int| 0 <= i < j < t.len() implies #[trigger] t[i] != #[trigger] t[j] by {
        if j >= s.len() {
            assert(t[j] == x);
            assert(t[i] == s[i]);
        } else {
            assert(t[i] == s[i] && t[j] == s[j]);
        }
    }
}

/// `s` after each transition, in order, replaced its `from` tag by its `to`
/// tag.
pub open spec fn apply_transitions_spec(s: Seq<char>, ts: Seq<(TimeContext, TimeContext)>) -> Seq<
    char,
>
    decreases ts.len(),
{
    if ts.len() == 0 {
        s
    } else {
        replace_all(apply_transitions_spec(s, ts.drop_last()), tag(ts.last().0), tag(ts.last().1))
    }
}

/// The characters of the tag `@name` of `c`.
fn tag_chars(c: TimeContext) -> (r: Vec<char>)
    ensures
        r@ == tag(c),
{
    let mut r: Vec<char> = Vec::new();
    r.push('@');
    let n = chars_of(c.as_str());
    append_chars(&mut r, &n);
    r
}

/// Replaces the tag of time context `from` by that of `to` everywhere.
pub fn replace_time_context(description: &str, from: TimeContext, to: TimeContext) -> (r: String)
    ensures
        r@ == replace_all(description@, tag(from), tag(to)),
{
    let d = chars_of(description);
    let f = tag_chars(from);
    let t = tag_chars(to);
    let out = replace_all_chars(&d, &f, &t);
    string_of(&out)
}

/// The time context whose name starts at `v[i]`, if any.
fn keyword_exec(v: &Vec<char>, i: usize) -> (r: Option<TimeContext>)
    requires
        i <= v.len(),
    ensures
        r == keyword_at(v@.skip(i as int)),
{
    let all = TimeContext::all();
    let mut k: usize = 0;
    while k < all.len()
        invariant
            k <= 8,
            i <= v.len(),
            all@ == all_contexts(),
            keyword_at(v@.skip(i as int)) == keyword_from(v@.skip(i as int), k as int),
        decreases 8 - k,
    {
        let n = chars_of(all[k].as_str());
        let hit = crate::text::occurs_at_exec(v, &n, i);
        proof {
            let t = v@.skip(i as int);
            assert(crate::text::occurs_at(t, n@, 0) == crate::text::occurs_at(v@, n@, i as int)) by {
                if n@.len() <= t.len() {
                    assert(t.subrange(0, n@.len() as int) =~= v@.subrange(i as int, i + n@.len()));
                }
            }
            assert(n@ == name(all_contexts()[k as int]));
        }
        if hit {
            return Some(all[k]);
        }
        k = k + 1;
    }
    None
}

/// `v` with its time-context tags removed.
fn strip_time_contexts_exec(v: &Vec<char>) -> (r: Vec<char>)
    ensures
        r@ == strip_time_contexts(v@),
{
    let mut out: Vec<char> = Vec::new();
    let mut i: usize = 0;
    assert(v@.skip(0) =~= v@);
    while i < v.len()
        invariant
            i <= v.len(),
            out@ + strip_time_contexts(v@.skip(i as int)) == strip_time_contexts(v@),
        decreases v.len() - i,
    {
        let ghost t = v@.skip(i as int);
        assert(t.drop_first() =~= v@.skip(i + 1));
        let kw = if v[i] == '@' {
            keyword_exec(v, i + 1)
        } else {
            None
        };
        match kw {
            Some(c) => {
                let n = c.as_str().unicode_len();
                proof {
                    let m = name(c).len() as int;
                    assert(crate::text::occurs_at(v@.skip(i + 1), name(c), 0)) by {
                        reveal_with_fuel(keyword_from, 9);
                    }
                    assert(t.skip(1 + m) =~= v@.skip(i + 1 + m));
                }
                i = i + 1 + n;
            },
            None => {
                let ghost before = out@;
                out.push(v[i]);
                assert(out@ + strip_time_contexts(v@.skip(i + 1)) =~= before + strip_time_contexts(
                    t,
                ));
                i = i + 1;
            },
        }
    }
    assert(out@ + strip_time_contexts(v@.skip(i as int)) =~= out@);
    out
}

/// Removes every time-context tag, collapsing the white space left behind.
pub fn remove_time_contexts(description: &str) -> (r: String)
    ensures
        r@ == remove_time_contexts_spec(description@),
{
    let d = chars_of(description);
    let stripped = strip_time_contexts_exec(&d);
    let collapsed = collapse_white_chars(&stripped);
    string_of(&collapsed)
}

/// Gives the description the time context `context`, in place of any it had.
pub fn set_time_context(description: &str, context: TimeContext) -> (r: String)
    ensures
        r@ == set_time_context_spec(description@, context),
{
    let cleaned = remove_time_contexts(description);
    let cv = chars_of(cleaned.as_str());
    let (a, b) = trim_bounds(&cv, 0, cv.len());
    assert(cv@.subrange(0, cv@.len() as int) =~= cv@);
    let mut out: Vec<char> = Vec::new();
    let mut k = a;
    while k < b
        invariant
            a <= k <= b <= cv.len(),
            out@ == cv@.subrange(a as int, k as int),
        decreases b - k,
    {
        out.push(cv[k]);
        k = k + 1;
        assert(out@ =~= cv@.subrange(a as int, k as int));
    }
    out.push(' ');
    let t = tag_chars(context);
    append_chars(&mut out, &t);
    string_of(&out)
}

/// Replacing a time context by itself leaves a description as it was.
pub proof fn lemma_replace_same_context(description: Seq<char>, c: TimeContext)
    ensures
        replace_all(description, tag(c), tag(c)) == description,
{
    crate::text::lemma_replace_all_same(description, tag(c));
}

/// Every time context is found again from its name, which is ASCII and
/// lowercase: reading `as_str` back with `from_str` gives the context.
pub proof fn lemma_name_roundtrip(c: TimeContext)
    ensures
        crate::text::all_ascii(name(c)),
        name(c).map_values(|ch: char| crate::text::ascii_lower(ch)) == name(c),
        context_named(name(c)) == Some(c),
{
    let n = name(c);
    assert(crate::text::all_ascii(n));
    assert(n.map_values(|ch: char| crate::text::ascii_lower(ch)) =~= n);
}

/// Whether no `@` of `s` starts a time-context tag.
pub open spec fn no_time_context(s: Seq<char>) -> bool {
    forall|i: int| 0 <= i < s.len() && s[i] == '@' ==> #[trigger] keyword_at(s.skip(i + 1)) is None
}

/// The names are made of lowercase ASCII letters.
proof fn lemma_name_letters(c: TimeContext)
    ensures
        name(c).len() > 0,
        forall|j: int| 0 <= j < name(c).len() ==> 97 <= (#[trigger] name(c)[j] as u32) <= 122,
{
}

/// Which name starts a text is not changed by white space after it.
proof fn lemma_keyword_from_then_white(x: Seq<char>, y: Seq<char>, k: int)
    requires
        y.len() == 0 || is_white(y[0]),
    ensures
        keyword_from(x + y, k) == keyword_from(x, k),
    decreases 8 - k,
{
    if 0 <= k < 8 {
        let n = name(all_contexts()[k]);
        lemma_name_letters(all_contexts()[k]);
        let xy = x + y;
        if n.len() <= x.len() {
            assert(xy.subrange(0, n.len() as int) =~= x.subrange(0, n.len() as int));
        } else if n.len() <= xy.len() {
            assert(xy[x.len() as int] == y[0]);
            if xy.subrange(0, n.len() as int) == n {
                assert(xy.subrange(0, n.len() as int)[x.len() as int] == n[x.len() as int]);
            }
        }
        lemma_keyword_from_then_white(x, y, k + 1);
    }
}

/// Removing time contexts from text followed by white space removes them
/// from each part alone.
proof fn lemma_strip_then_white(a: Seq<char>, b: Seq<char>)
    requires
        b.len() == 0 || is_white(b[0]),
    ensures
        strip_time_contexts(a + b) == strip_time_contexts(a) + strip_time_contexts(b),
    decreases a.len(),
{
    let ab = a + b;
    if a.len() == 0 {
        assert(ab =~= b);
    } else {
        assert(ab[0] == a[0]);
        assert(ab.drop_first() =~= a.drop_first() + b);
        lemma_keyword_from_then_white(a.drop_first(), b, 0);
        match keyword_at(a.drop_first()) {
            Some(c) => {
                if a[0] == '@' {
                    lemma_keyword_from(a.drop_first(), 0);
                    let n = name(c).len() as int;
                    assert(ab.skip(1 + n) =~= a.skip(1 + n) + b);
                    lemma_strip_then_white(a.skip(1 + n), b);
                } else {
                    lemma_strip_then_white(a.drop_first(), b);
                    assert(strip_time_contexts(a) == seq![a[0]] + strip_time_contexts(a.drop_first()));
                }
            },
            None => {
                lemma_strip_then_white(a.drop_first(), b);
                assert(strip_time_contexts(a) == seq![a[0]] + strip_time_contexts(a.drop_first()));
            },
        }
    }
}

/// Each name is read back as its own time context.
proof fn lemma_keyword_of_name(c: TimeContext)
    ensures
        keyword_at(name(c)) == Some(c),
{
    reveal_with_fuel(keyword_from, 9);
    let n = name(c);
    assert(n.subrange(0, n.len() as int) =~= n);
    match c {
        TimeContext::Today => {},
        TimeContext::Tomorrow => {
            assert(n.subrange(0, 5) != name(TimeContext::Today));
        },
        TimeContext::ThisWeek => {
            assert(n.subrange(0, 5)[1] != name(TimeContext::Today)[1]);
        },
        TimeContext::NextWeek => {
            assert(n.subrange(0, 5)[0] != name(TimeContext::Today)[0]);
            assert(n.subrange(0, 8)[0] != name(TimeContext::Tomorrow)[0]);
            assert(n.subrange(0, 8)[0] != name(TimeContext::ThisWeek)[0]);
        },
        TimeContext::ThisMonth => {
            assert(n.subrange(0, 5)[1] != name(TimeContext::Today)[1]);
            assert(n.subrange(0, 8)[1] != name(TimeContext::Tomorrow)[1]);
            assert(n.subrange(0, 8)[4] != name(TimeContext::ThisWeek)[4]);
            assert(n.subrange(0, 8)[0] != name(TimeContext::NextWeek)[0]);
        },
        TimeContext::NextMonth => {
            assert(n.subrange(0, 5)[0] != name(TimeContext::Today)[0]);
            assert(n.subrange(0, 8)[0] != name(TimeContext::Tomorrow)[0]);
            assert(n.subrange(0, 8)[0] != name(TimeContext::ThisWeek)[0]);
            assert(n.subrange(0, 8)[4] != name(TimeContext::NextWeek)[4]);
            assert(n.subrange(0, 9)[0] != name(TimeContext::ThisMonth)[0]);
        },
        TimeContext::ThisQuarter => {
            assert(n.subrange(0, 5)[1] != name(TimeContext::Today)[1]);
            assert(n.subrange(0, 8)[1] != name(TimeContext::Tomorrow)[1]);
            assert(n.subrange(0, 8)[4] != name(TimeContext::ThisWeek)[4]);
            assert(n.subrange(0, 8)[0] != name(TimeContext::NextWeek)[0]);
            assert(n.subrange(0, 9)[4] != name(TimeContext::ThisMonth)[4]);
            assert(n.subrange(0, 9)[0] != name(TimeContext::NextMonth)[0]);
        },
        TimeContext::NextQuarter => {
            assert(n.subrange(0, 5)[0] != name(TimeContext::Today)[0]);
            assert(n.subrange(0, 8)[0] != name(TimeContext::Tomorrow)[0]);
            assert(n.subrange(0, 8)[0] != name(TimeContext::ThisWeek)[0]);
            assert(n.subrange(0, 8)[4] != name(TimeContext::NextWeek)[4]);
            assert(n.subrange(0, 9)[0] != name(TimeContext::ThisMonth)[0]);
            assert(n.subrange(0, 9)[4] != name(TimeContext::NextMonth)[4]);
            assert(n.subrange(0, 11)[0] != name(TimeContext::ThisQuarter)[0]);
        },
    }
}

/// A space and a tag lose the tag when time contexts are removed.
proof fn lemma_strip_space_tag(c: TimeContext)
    ensures
        strip_time_contexts(seq![' '] + tag(c)) == seq![' '],
{
    let s = seq![' '] + tag(c);
    lemma_keyword_of_name(c);
    assert(s[0] == ' ');
    assert(s.drop_first() =~= tag(c));
    assert(tag(c).drop_first() =~= name(c));
    let n = name(c).len() as int;
    assert(tag(c).skip(1 + n) =~= Seq::<char>::empty());
    assert(strip_time_contexts(Seq::<char>::empty()) =~= Seq::<char>::empty());
    assert(strip_time_contexts(tag(c)) =~= Seq::<char>::empty());
    assert(strip_time_contexts(s) =~= seq![' ']);
}

/// Removing time contexts leaves text without them as it is.
proof fn lemma_strip_none(s: Seq<char>)
    requires
        no_time_context(s),
    ensures
        strip_time_contexts(s) == s,
    decreases s.len(),
{
    if s.len() > 0 {
        let t = s.drop_first();
        assert(s.skip(1) =~= t);
        if s[0] == '@' {
            assert(keyword_at(s.skip(0int + 1)) is None);
        }
        assert forall|i: int| 0 <= i < t.len() && t[i] == '@' implies #[trigger] keyword_at(
            t.skip(i + 1),
        ) is None by {
            assert(t[i] == s[i + 1]);
            assert(t.skip(i + 1) =~= s.skip(i + 1 + 1));
        }
        lemma_strip_none(t);
        assert(s =~= seq![s[0]] + t);
    }
}

/// Setting a time context replaces the one set before: giving a description
/// one time context and then another gives it the second alone, and removing
/// time contexts after setting one gives what removing them gave before.
/// This holds for every description whose text, once its time contexts are
/// removed, shows no time context; a removal can join an `@` and a name
/// (`@@todaytoday` loses `@today` and becomes `@today`).
pub proof fn lemma_set_time_context_twice(d: Seq<char>, a: TimeContext, b: TimeContext)
    requires
        no_time_context(remove_time_contexts_spec(d)),
    ensures
        remove_time_contexts_spec(set_time_context_spec(d, a)) == remove_time_contexts_spec(d),
        set_time_context_spec(set_time_context_spec(d, a), b) == set_time_context_spec(d, b),
{
    let y = remove_time_contexts_spec(d);
    crate::text::lemma_collapse_white_twice(strip_time_contexts(d));
    crate::text::lemma_trim_clean(y);
    let s1 = set_time_context_spec(d, a);
    assert(s1 == y + (seq![' '] + tag(a)));
    lemma_strip_then_white(y, seq![' '] + tag(a));
    lemma_strip_space_tag(a);
    lemma_strip_none(y);
    assert(strip_time_contexts(s1) == y + seq![' ']);
    crate::text::lemma_words_space(y);
    assert(remove_time_contexts_spec(s1) == collapse_white(y));
}

/// Whether the date is a Friday.
pub fn is_friday(date: Date) -> (r: bool)
    ensures
        r == (weekday_of(date@) == 4),
{
    date.weekday() == 4
}

/// Whether the date is a Monday.
pub fn is_monday(date: Date) -> (r: bool)
    ensures
        r == (weekday_of(date@) == 0),
{
    date.weekday() == 0
}

fn is_leap_year(year: i32) -> (r: bool)
    requires
        crate::date::MIN_YEAR <= year <= crate::date::MAX_YEAR,
    ensures
        r == crate::date::is_leap(year as int),
{
    // Shifting by a multiple of 400 keeps every divisibility that matters
    // and makes the year positive.
    let y: u32 = (year + 400000) as u32;
    assert(y % 4 == (year as int) % 4 && y % 100 == (year as int) % 100 && y % 400 == (year as int)
        % 400) by (nonlinear_arith)
        requires
            y == year + 400000,
    ;
    (y % 4 == 0 && y % 100 != 0) || (y % 400 == 0)
}

/// Number of days of a month (30 for a month number out of range).
fn days_in_month(year: i32, month: u32) -> (r: u32)
    requires
        crate::date::MIN_YEAR <= year <= crate::date::MAX_YEAR,
    ensures
        r == month_days(year as int, month as int),
{
    if month == 1 || month == 3 || month == 5 || month == 7 || month == 8 || month == 10 || month
        == 12 {
        31
    } else if month == 4 || month == 6 || month == 9 || month == 11 {
        30
    } else if month == 2 {
        if is_leap_year(year) {
            29
        } else {
            28
        }
    } else {
        30
    }
}

/// Whether the date lies in the last seven days of its month.
pub fn is_last_week_of_month(date: Date) -> (r: bool)
    ensures
        r == is_last_week_of_month_spec(date@),
{
    date.lemma_valid();
    let dim = days_in_month(date.year(), date.month());
    date.day() > dim - 7
}

/// Whether the date is the first of its month.
pub fn is_first_of_month(date: Date) -> (r: bool)
    ensures
        r == (date@.day == 1),
{
    date.day() == 1
}

/// Whether the date lies in the last month of a quarter.
pub fn is_last_month_of_quarter(date: Date) -> (r: bool)
    ensures
        r == is_last_month_of_quarter_spec(date@.month),
{
    let m = date.month();
    m == 3 || m == 6 || m == 9 || m == 12
}

/// Whether the date lies in the first month of a quarter.
pub fn is_first_month_of_quarter(date: Date) -> (r: bool)
    ensures
        r == is_first_month_of_quarter_spec(date@.month),
{
    let m = date.month();
    m == 1 || m == 4 || m == 7 || m == 10
}

/// The transitions due on `date`, in order.
pub fn get_transitions_for_date(date: Date) -> (r: Vec<(TimeContext, TimeContext)>)
    ensures
        r@ == transitions_spec(date@),
{
    let mut t: Vec<(TimeContext, TimeContext)> = Vec::new();
    t.push((TimeContext::Tomorrow, TimeContext::Today));
    let ghost s0 = t@;
    if is_friday(date) {
        t.push((TimeContext::ThisWeek, TimeContext::Today));
    }
    let ghost s1 = t@;
    assert(s1 =~= s0 + when(weekday_of(date@) == 4, (TimeContext::ThisWeek, TimeContext::Today)));
    if is_monday(date) {
        t.push((TimeContext::NextWeek, TimeContext::ThisWeek));
    }
    let ghost s2 = t@;
    assert(s2 =~= s1 + when(weekday_of(date@) == 0, (TimeContext::NextWeek, TimeContext::ThisWeek)));
    if is_last_week_of_month(date) {
        t.push((TimeContext::ThisMonth, TimeContext::ThisWeek));
    }
    let ghost s3 = t@;
    assert(s3 =~= s2 + when(
        is_last_week_of_month_spec(date@),
        (TimeContext::ThisMonth, TimeContext::ThisWeek),
    ));
    if is_first_of_month(date) {
        t.push((TimeContext::NextMonth, TimeContext::ThisMonth));
    }
    let ghost s4 = t@;
    assert(s4 =~= s3 + when(date@.day == 1, (TimeContext::NextMonth, TimeContext::ThisMonth)));
    if is_last_month_of_quarter(date) {
        t.push((TimeContext::ThisQuarter, TimeContext::ThisMonth));
    }
    let ghost s5 = t@;
    assert(s5 =~= s4 + when(
        is_last_month_of_quarter_spec(date@.month),
        (TimeContext::ThisQuarter, TimeContext::ThisMonth),
    ));
    if is_first_month_of_quarter(date) && is_first_of_month(date) {
        t.push((TimeContext::NextQuarter, TimeContext::ThisQuarter));
    }
    assert(t@ =~= s5 + when(
        is_first_month_of_quarter_spec(date@.month) && date@.day == 1,
        (TimeContext::NextQuarter, TimeContext::ThisQuarter),
    ));
    t
}

/// Applies the transitions to the description, in order.
pub fn apply_transitions(description: &str, transitions: &[(TimeContext, TimeContext)]) -> (r:
    String)
    ensures
        r@ == apply_transitions_spec(description@, transitions@),
{
    let mut cur = chars_of(description);
    let mut i: usize = 0;
    while i < transitions.len()
        invariant
            i <= transitions@.len(),
            cur@ == apply_transitions_spec(description@, transitions@.take(i as int)),
        decreases transitions.len() - i,
    {
        let (from, to) = transitions[i];
        let f = tag_chars(from);
        let t = tag_chars(to);
        let next = replace_all_chars(&cur, &f, &t);
        proof {
            let ts = transitions@.take(i + 1);
            assert(ts.drop_last() =~= transitions@.take(i as int));
        }
        cur = next;
        i = i + 1;
    }
    assert(transitions@.take(i as int) =~= transitions@);
    string_of(&cur)
}

pub open spec fn month_index(x: Ymd) -> int {
    x.year * 12 + x.month - 1
}

pub open spec fn quarter_index(x: Ymd) -> int {
    x.year * 4 + (x.month - 1) / 3
}

/// The time context of an open task due on `due`, seen on `today`: overdue
/// or due today is `@today`, then `@tomorrow`, the rest of this week
/// (weeks start on Monday), next week, the rest of this month, next
/// month, the rest of this quarter, next quarter; later dates have none.
pub open spec fn time_context_for_due_spec(due: Ymd, today: Ymd) -> Option<TimeContext> {
    let diff = day_number(due) - day_number(today);
    let wd = weekday_of(today);
    if diff <= 0 {
        Some(TimeContext::Today)
    } else if diff == 1 {
        Some(TimeContext::Tomorrow)
    } else if diff < 7 - wd {
        Some(TimeContext::ThisWeek)
    } else if diff < 14 - wd {
        Some(TimeContext::NextWeek)
    } else if month_index(due) == month_index(today) {
        Some(TimeContext::ThisMonth)
    } else if month_index(due) == month_index(today) + 1 {
        Some(TimeContext::NextMonth)
    } else if quarter_index(due) == quarter_index(today) {
        Some(TimeContext::ThisQuarter)
    } else if quarter_index(due) == quarter_index(today) + 1 {
        Some(TimeContext::NextQuarter)
    } else {
        None
    }
}

/// The time context that a task due on `due` belongs in on `today`.
pub fn time_context_for_due(due: Date, today: Date) -> (r: Option<TimeContext>)
    ensures
        r == time_context_for_due_spec(due@, today@),
{
    due.lemma_valid();
    today.lemma_valid();
    let diff = today.days_until(&due);
    let wd = today.weekday() as i64;
    if diff <= 0 {
        return Some(TimeContext::Today);
    }
    if diff == 1 {
        return Some(TimeContext::Tomorrow);
    }
    if diff < 7 - wd {
        return Some(TimeContext::ThisWeek);
    }
    if diff < 14 - wd {
        return Some(TimeContext::NextWeek);
    }
    let dm = (due.year() as i64) * 12 + (due.month() as i64) - 1;
    let tm = (today.year() as i64) * 12 + (today.month() as i64) - 1;
    if dm == tm {
        return Some(TimeContext::ThisMonth);
    }
    if dm == tm + 1 {
        return Some(TimeContext::NextMonth);
    }
    let dq = (due.year() as i64) * 4 + ((due.month() as i64) - 1) / 3;
    let tq = (today.year() as i64) * 4 + ((today.month() as i64) - 1) / 3;
    if dq == tq {
        return Some(TimeContext::ThisQuarter);
    }
    if dq == tq + 1 {
        return Some(TimeContext::NextQuarter);
    }
    None
}

/// The current local date.
pub fn today() -> Date {
    crate::date::today()
}

impl TimeContext {
    /// The name of the time context.
    pub fn as_str(&self) -> (r: &'static str)
        ensures
            r@ == name(*self),
    {
        match self {
            TimeContext::Today => {
                proof {
                    reveal_strlit("today");
                }
                "today"
            },
            TimeContext::Tomorrow => {
                proof {
                    reveal_strlit("tomorrow");
                }
                "tomorrow"
            },
            TimeContext::ThisWeek => {
                proof {
                    reveal_strlit("thisweek");
                }
                "thisweek"
            },
            TimeContext::NextWeek => {
                proof {
                    reveal_strlit("nextweek");
                }
                "nextweek"
            },
            TimeContext::ThisMonth => {
                proof {
                    reveal_strlit("thismonth");
                }
                "thismonth"
            },
            TimeContext::NextMonth => {
                proof {
                    reveal_strlit("nextmonth");
                }
                "nextmonth"
            },
            TimeContext::ThisQuarter => {
                proof {
                    reveal_strlit("thisquarter");
                }
                "thisquarter"
            },
            TimeContext::NextQuarter => {
                proof {
                    reveal_strlit("nextquarter");
                }
                "nextquarter"
            },
        }
    }

    /// The time context whose name is exactly `s`.
    pub fn from_lowercase_name(s: &str) -> (r: Option<TimeContext>)
        ensures
            r == context_named(s@),
    {
        let v = chars_of(s);
        let all = TimeContext::all();
        let mut i: usize = 0;
        while i < all.len()
            invariant
                i <= all@.len(),
                all@ == all_contexts(),
                v@ == s@,
                forall|k: int| 0 <= k < i ==> name(#[trigger] all@[k]) != s@,
            decreases all.len() - i,
        {
            let n = chars_of(all[i].as_str());
            if crate::text::eq_chars(&v, &n) {
                return Some(all[i]);
            }
            i = i + 1;
        }
        assert(name(all@[0]) != s@ && name(all@[1]) != s@ && name(all@[2]) != s@ && name(all@[3])
            != s@ && name(all@[4]) != s@ && name(all@[5]) != s@ && name(all@[6]) != s@ && name(
            all@[7],
        ) != s@);
        None
    }

    /// The time context named by `s`, in any case.
    pub fn from_str(s: &str) -> (r: Option<TimeContext>)
        ensures
            r == context_named(crate::text::lowercase(s@)),
            crate::text::all_ascii(s@) ==> r == context_named(
                s@.map_values(|c: char| crate::text::ascii_lower(c)),
            ),
    {
        let lower = crate::text::to_lowercase(s);
        TimeContext::from_lowercase_name(lower.as_str())
    }

    /// All time contexts, nearest first.
    pub fn all() -> (r: &'static [TimeContext])
        ensures
            r@ == all_contexts(),
    {
        let r: &'static [TimeContext] = &[
            TimeContext::Today,
            TimeContext::Tomorrow,
            TimeContext::ThisWeek,
            TimeContext::NextWeek,
            TimeContext::ThisMonth,
            TimeContext::NextMonth,
            TimeContext::ThisQuarter,
            TimeContext::NextQuarter,
        ];
        assert(r@ =~= all_contexts());
        r
    }
}

} // verus!
