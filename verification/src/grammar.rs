//! The todo.txt line grammar: completion marks, dates, priorities,
//! `+project` and `@context` words and `key:value` tags.

use crate::classes::{is_digit, is_word};
use crate::date::{ascii_date_text, date_shape_with, valid, ymd_of_text, Ymd};
use crate::classes::{is_digit_char, is_word_char};
use crate::text::{
    is_white, is_white_char, lemma_run_len_bound, lemma_string_views_push, run_end, run_len,
    string_of_range, string_views,
};
use vstd::prelude::*;

verus! {

/// `^x\s+`: the line marks a completed task.
pub open spec fn completion_mark(s: Seq<char>) -> bool {
    s.len() >= 2 && s[0] == 'x' && is_white(s[1])
}

/// `^\d{4}-\d{2}-\d{2}\s+`: the text starts with a date.
pub open spec fn date_prefix(s: Seq<char>) -> bool {
    s.len() >= 11 && date_shape_with(s.take(10), |c: char| is_digit(c)) && is_white(s[10])
}

/// The date that a date prefix names, if chrono accepts it.
pub open spec fn prefix_date(s: Seq<char>) -> Option<Ymd> {
    let t = s.take(10);
    if ascii_date_text(t) && valid(ymd_of_text(t)) {
        Some(ymd_of_text(t))
    } else {
        None
    }
}

pub open spec fn is_upper(c: char) -> bool {
    65 <= (c as u32) <= 90
}

/// `^\(([A-Z])\)\s+`: the text starts with a priority.
pub open spec fn priority_prefix(s: Seq<char>) -> bool {
    s.len() >= 4 && s[0] == '(' && is_upper(s[1]) && s[2] == ')' && is_white(s[3])
}

/// The words captured by `m(\S+)` (`m` being `+` or `@`), left to right.
pub open spec fn captures(s: Seq<char>, m: char) -> Seq<Seq<char>>
    decreases s.len(),
{
    if s.len() == 0 {
        seq![]
    } else if s[0] == m && s.len() >= 2 && !is_white(s[1]) {
        let k = run_len(s.drop_first()) as int;
        proof {
            lemma_run_len_bound(s.drop_first());
        }
        seq![s.subrange(1, 1 + k)] + captures(s.skip(1 + k), m)
    } else {
        captures(s.drop_first(), m)
    }
}

/// Length of the longest prefix free of white space and `:`.
pub open spec fn key_len(s: Seq<char>) -> nat
    decreases s.len(),
{
    if s.len() == 0 || is_white(s[0]) || s[0] == ':' {
        0
    } else {
        1 + key_len(s.drop_first())
    }
}

pub proof fn lemma_key_len_bound(s: Seq<char>)
    ensures
        key_len(s) <= s.len(),
        forall|i: int| 0 <= i < key_len(s) ==> !is_white(#[trigger] s[i]) && s[i] != ':',
        key_len(s) < s.len() ==> is_white(s[key_len(s) as int]) || s[key_len(s) as int] == ':',
    decreases s.len(),
{
    if !(s.len() == 0 || is_white(s[0]) || s[0] == ':') {
        lemma_key_len_bound(s.drop_first());
        assert forall|i: int| 0 <= i < key_len(s) implies !is_white(#[trigger] s[i]) && s[i]
            != ':' by {
            if i > 0 {
                assert(s[i] == s.drop_first()[i - 1]);
            }
        }
        if key_len(s) < s.len() {
            assert(s[key_len(s) as int] == s.drop_first()[key_len(s.drop_first()) as int]);
        }
    }
}

/// `([^\s:]+):(\S+)` matches at the start of `s`.
pub open spec fn tag_at(s: Seq<char>) -> bool {
    let a = key_len(s) as int;
    a >= 1 && s.len() > a + 1 && s[a] == ':' && !is_white(s[a + 1])
}

/// The `key:value` tags of `s`, left to right.
pub open spec fn tags_of(s: Seq<char>) -> Seq<(Seq<char>, Seq<char>)>
    decreases s.len(),
{
    if s.len() == 0 {
        seq![]
    } else if tag_at(s) {
        let a = key_len(s) as int;
        let v = run_len(s.skip(a + 1)) as int;
        proof {
            lemma_key_len_bound(s);
            lemma_run_len_bound(s.skip(a + 1));
        }
        seq![(s.take(a), s.subrange(a + 1, a + 1 + v))] + tags_of(s.skip(a + 1 + v))
    } else {
        tags_of(s.drop_first())
    }
}

/// `\bdue:\S+` matches at position `i` of `s`.
pub open spec fn due_at(s: Seq<char>, i: int) -> bool {
    &&& 0 <= i
    &&& i + 4 < s.len()
    &&& s[i] == 'd' && s[i + 1] == 'u' && s[i + 2] == 'e' && s[i + 3] == ':'
    &&& !is_white(s[i + 4])
    &&& (i == 0 || !is_word(s[i - 1]))
}

/// `s` with the first match of `\bdue:\S+` at or after `i` replaced by `rep`.
pub open spec fn replace_due_from(s: Seq<char>, i: int, rep: Seq<char>) -> Seq<char>
    decreases s.len() - i,
{
    if i < 0 || i >= s.len() {
        s
    } else if due_at(s, i) {
        s.take(i) + rep + s.skip(i + 4 + run_len(s.skip(i + 4)))
    } else {
        replace_due_from(s, i + 1, rep)
    }
}

/// `s` with its first `due:` tag replaced by `rep`.
pub open spec fn replace_due(s: Seq<char>, rep: Seq<char>) -> Seq<char> {
    replace_due_from(s, 0, rep)
}

/// Whether the text `v[i..]` starts with a date prefix.
pub fn has_date_prefix(v: &Vec<char>, i: usize) -> (r: bool)
    requires
        i <= v.len(),
    ensures
        r == date_prefix(v@.skip(i as int)),
        r ==> forall|k: int| 0 <= k < 10 ==> !is_white(#[trigger] v@[i + k]),
{
    let ghost t = v@.skip(i as int);
    if v.len() - i < 11 {
        return false;
    }
    let r = is_digit_char(v[i]) && is_digit_char(v[i + 1]) && is_digit_char(v[i + 2])
        && is_digit_char(v[i + 3]) && v[i + 4] == '-' && is_digit_char(v[i + 5])
        && is_digit_char(v[i + 6]) && v[i + 7] == '-' && is_digit_char(v[i + 8])
        && is_digit_char(v[i + 9]) && is_white_char(v[i + 10]);
    proof {
        let d = |c: char| is_digit(c);
        let p = t.take(10);
        assert(forall|k: int| 0 <= k < 10 ==> p[k] == v@[i + k]);
        if r {
            assert forall|k: int| 0 <= k < 10 && k != 4 && k != 7 implies #[trigger] d(p[k]) by {
                assert(p[k] == v@[i + k]);
            }
            assert forall|k: int| 0 <= k < 10 implies !is_white(#[trigger] v@[i + k]) by {
                if k == 4 || k == 7 {
                    assert(v@[i + k] == '-');
                }
            }
        }
        if date_shape_with(p, d) && is_white(t[10]) {
            assert(d(p[0]) && d(p[1]) && d(p[2]) && d(p[3]) && d(p[5]) && d(p[6]) && d(p[8]) && d(
                p[9],
            ));
        }
    }
    r
}

/// The `m(\S+)` captures of `v`.
pub fn captures_exec(v: &Vec<char>, m: char) -> (r: Vec<String>)
    ensures
        string_views(r@) == captures(v@, m),
{
    let mut out: Vec<String> = Vec::new();
    let mut p: usize = 0;
    assert(v@.skip(0) =~= v@);
    while p < v.len()
        invariant
            p <= v.len(),
            string_views(out@) + captures(v@.skip(p as int), m) == captures(v@, m),
        decreases v.len() - p,
    {
        let ghost t = v@.skip(p as int);
        if v[p] == m && p + 1 < v.len() && !is_white_char(v[p + 1]) {
            let e = run_end(v, p + 1);
            let w = string_of_range(v, p + 1, e);
            proof {
                assert(t.drop_first() =~= v@.skip(p + 1));
                let k = run_len(t.drop_first()) as int;
                assert(t.subrange(1, 1 + k) =~= w@);
                assert(t.skip(1 + k) =~= v@.skip(e as int));
                lemma_string_views_push(out@, w);
            }
            let ghost before = string_views(out@);
            out.push(w);
            assert(string_views(out@) + captures(v@.skip(e as int), m) =~= before + captures(t, m));
            p = e;
        } else {
            assert(t.drop_first() =~= v@.skip(p + 1));
            p = p + 1;
        }
    }
    assert(string_views(out@) + captures(v@.skip(p as int), m) =~= string_views(out@));
    out
}

/// End of the run of characters other than white space and `:` from `i`.
pub fn key_end(v: &Vec<char>, i: usize) -> (j: usize)
    requires
        i <= v.len(),
    ensures
        i <= j <= v.len(),
        j == i + key_len(v@.skip(i as int)),
{
    let mut j = i;
    while j < v.len() && !is_white_char(v[j]) && v[j] != ':'
        invariant
            i <= j <= v.len(),
            key_len(v@.skip(i as int)) == (j - i) + key_len(v@.skip(j as int)),
        decreases v.len() - j,
    {
        assert(v@.skip(j as int).drop_first() =~= v@.skip(j + 1));
        j = j + 1;
    }
    j
}

/// The views of a sequence of tags.
pub open spec fn tag_views(v: Seq<(String, String)>) -> Seq<(Seq<char>, Seq<char>)> {
    v.map_values(|t: (String, String)| (t.0@, t.1@))
}

/// The `key:value` tags of `v`.
pub fn tags_exec(v: &Vec<char>) -> (r: Vec<(String, String)>)
    ensures
        tag_views(r@) == tags_of(v@),
{
    let mut out: Vec<(String, String)> = Vec::new();
    let mut p: usize = 0;
    assert(v@.skip(0) =~= v@);
    while p < v.len()
        invariant
            p <= v.len(),
            tag_views(out@) + tags_of(v@.skip(p as int)) == tags_of(v@),
        decreases v.len() - p,
    {
        let ghost t = v@.skip(p as int);
        let a = key_end(v, p);
        if a > p && a < v.len() - 1 && v[a] == ':' && !is_white_char(v[a + 1]) {
            let e = run_end(v, a + 1);
            let key = string_of_range(v, p, a);
            let val = string_of_range(v, a + 1, e);
            proof {
                let ka = key_len(t) as int;
                assert(ka == a - p);
                assert(t[ka] == v@[a as int]);
                assert(t[ka + 1] == v@[a + 1]);
                assert(tag_at(t));
                assert(t.skip(ka + 1) =~= v@.skip(a + 1));
                assert(t.take(ka) =~= key@);
                assert(t.subrange(ka + 1, ka + 1 + run_len(t.skip(ka + 1))) =~= val@);
                assert(t.skip(ka + 1 + run_len(t.skip(ka + 1))) =~= v@.skip(e as int));
            }
            let ghost before = tag_views(out@);
            out.push((key, val));
            assert(tag_views(out@) =~= before.push((key@, val@)));
            assert(tag_views(out@) + tags_of(v@.skip(e as int)) =~= before + tags_of(t));
            p = e;
        } else {
            proof {
                let ka = key_len(t) as int;
                assert(ka == a - p);
                if tag_at(t) {
                    assert(t[ka] == v@[a as int]);
                    assert(t[ka + 1] == v@[a + 1]);
                }
            }
            assert(t.drop_first() =~= v@.skip(p + 1));
            p = p + 1;
        }
    }
    assert(tag_views(out@) + tags_of(v@.skip(p as int)) =~= tag_views(out@));
    out
}

/// `v` with its first `due:` tag replaced by `rep`.
pub fn replace_due_exec(v: &Vec<char>, rep: &Vec<char>) -> (r: Vec<char>)
    ensures
        r@ == replace_due(v@, rep@),
{
    let mut i: usize = 0;
    while i < v.len()
        invariant
            i <= v.len(),
            replace_due(v@, rep@) == replace_due_from(v@, i as int, rep@),
        decreases v.len() - i,
    {
        if v.len() > 4 && i < v.len() - 4 && v[i] == 'd' && v[i + 1] == 'u' && v[i + 2] == 'e' && v[i + 3] == ':'
            && !is_white_char(v[i + 4]) && (i == 0 || !is_word_char(v[i - 1])) {
            let e = run_end(v, i + 4);
            let mut out: Vec<char> = Vec::new();
            let mut k: usize = 0;
            while k < i
                invariant
                    k <= i < v.len(),
                    out@ == v@.take(k as int),
                decreases i - k,
            {
                out.push(v[k]);
                k = k + 1;
                assert(out@ =~= v@.take(k as int));
            }
            crate::text::append_chars(&mut out, rep);
            let mut k = e;
            let ghost mid = out@;
            while k < v.len()
                invariant
                    e <= k <= v.len(),
                    out@ == mid + v@.subrange(e as int, k as int),
                decreases v.len() - k,
            {
                out.push(v[k]);
                k = k + 1;
                assert(out@ =~= mid + v@.subrange(e as int, k as int));
            }
            assert(v@.subrange(e as int, v.len() as int) =~= v@.skip(e as int));
            return out;
        }
        i = i + 1;
    }
    let mut out: Vec<char> = Vec::new();
    crate::text::append_chars(&mut out, v);
    assert(out@ =~= v@);
    out
}

} // verus!
