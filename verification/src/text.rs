//! Character-level text processing: Unicode white space, trimming, word
//! splitting, substring search and replacement, decimal numbers and lines.

use vstd::prelude::*;

verus! {

/// The Unicode `White_Space` property (the set that `char::is_whitespace`,
/// `str::trim` and the `\s` class of regular expressions use).
pub open spec fn is_white(c: char) -> bool {
    let u = c as u32;
    ||| 0x09 <= u <= 0x0d
    ||| u == 0x20
    ||| u == 0x85
    ||| u == 0xa0
    ||| u == 0x1680
    ||| 0x2000 <= u <= 0x200a
    ||| u == 0x2028
    ||| u == 0x2029
    ||| u == 0x202f
    ||| u == 0x205f
    ||| u == 0x3000
}

pub fn is_white_char(c: char) -> (r: bool)
    ensures
        r == is_white(c),
{
    let u = c as u32;
    (0x09 <= u && u <= 0x0d) || u == 0x20 || u == 0x85 || u == 0xa0 || u == 0x1680 || (0x2000
        <= u && u <= 0x200a) || u == 0x2028 || u == 0x2029 || u == 0x202f || u == 0x205f || u
        == 0x3000
}

/// `s` without its leading white space.
pub open spec fn trim_start(s: Seq<char>) -> Seq<char>
    decreases s.len(),
{
    if s.len() > 0 && is_white(s[0]) {
        trim_start(s.drop_first())
    } else {
        s
    }
}

/// `s` without its trailing white space.
pub open spec fn trim_end(s: Seq<char>) -> Seq<char>
    decreases s.len(),
{
    if s.len() > 0 && is_white(s.last()) {
        trim_end(s.drop_last())
    } else {
        s
    }
}

/// `s` without leading and trailing white space (`str::trim`).
pub open spec fn trim(s: Seq<char>) -> Seq<char> {
    trim_end(trim_start(s))
}

/// Length of the longest prefix of `s` free of white space.
pub open spec fn run_len(s: Seq<char>) -> nat
    decreases s.len(),
{
    if s.len() == 0 || is_white(s[0]) {
        0
    } else {
        1 + run_len(s.drop_first())
    }
}

pub proof fn lemma_run_len_bound(s: Seq<char>)
    ensures
        run_len(s) <= s.len(),
        s.len() > 0 && !is_white(s[0]) ==> run_len(s) >= 1,
        forall|i: int| 0 <= i < run_len(s) ==> !is_white(#[trigger] s[i]),
        run_len(s) < s.len() ==> is_white(s[run_len(s) as int]),
    decreases s.len(),
{
    if s.len() > 0 && !is_white(s[0]) {
        lemma_run_len_bound(s.drop_first());
        assert forall|i: int| 0 <= i < run_len(s) implies !is_white(#[trigger] s[i]) by {
            if i > 0 {
                assert(s[i] == s.drop_first()[i - 1]);
            }
        }
        if run_len(s) < s.len() {
            assert(s[run_len(s) as int] == s.drop_first()[run_len(s.drop_first()) as int]);
        }
    }
}

/// The maximal runs of non-white characters of `s`, in order
/// (`str::split_whitespace`).
pub open spec fn words(s: Seq<char>) -> Seq<Seq<char>>
    decreases s.len(),
{
    if s.len() == 0 {
        seq![]
    } else if is_white(s[0]) {
        words(s.drop_first())
    } else {
        let k = run_len(s);
        proof {
            lemma_run_len_bound(s);
        }
        seq![s.take(k as int)] + words(s.skip(k as int))
    }
}

/// The pieces of `parts` joined by `sep`.
pub open spec fn join(parts: Seq<Seq<char>>, sep: Seq<char>) -> Seq<char>
    decreases parts.len(),
{
    if parts.len() == 0 {
        seq![]
    } else if parts.len() == 1 {
        parts[0]
    } else {
        join(parts.drop_last(), sep) + sep + parts.last()
    }
}

/// `s` with every run of white space made a single space and no white space
/// at either end (`split_whitespace` joined by `" "`).
pub open spec fn collapse_white(s: Seq<char>) -> Seq<char> {
    join(words(s), seq![' '])
}

/// Whether `pat` occurs in `s` at position `i`.
pub open spec fn occurs_at(s: Seq<char>, pat: Seq<char>, i: int) -> bool {
    0 <= i && i + pat.len() <= s.len() && s.subrange(i, i + pat.len()) == pat
}

/// Whether `pat` occurs in `s` (`str::contains`).
pub open spec fn contains(s: Seq<char>, pat: Seq<char>) -> bool {
    exists|i: int| occurs_at(s, pat, i)
}

/// `s` with every occurrence of `pat`, taken left to right without overlap,
/// replaced by `rep` (`str::replace`; an empty `pat` matches before every
/// character and at the end).
pub open spec fn replace_all(s: Seq<char>, pat: Seq<char>, rep: Seq<char>) -> Seq<char>
    decreases s.len(),
{
    if pat.len() == 0 {
        if s.len() == 0 {
            rep
        } else {
            rep + seq![s[0]] + replace_all(s.drop_first(), pat, rep)
        }
    } else if occurs_at(s, pat, 0) {
        rep + replace_all(s.skip(pat.len() as int), pat, rep)
    } else if s.len() == 0 {
        s
    } else {
        seq![s[0]] + replace_all(s.drop_first(), pat, rep)
    }
}

/// Replacing a non-empty pattern by itself leaves the text as it was.
pub proof fn lemma_replace_all_same(s: Seq<char>, pat: Seq<char>)
    requires
        pat.len() > 0,
    ensures
        replace_all(s, pat, pat) == s,
    decreases s.len(),
{
    if occurs_at(s, pat, 0) {
        lemma_replace_all_same(s.skip(pat.len() as int), pat);
        assert(s =~= s.subrange(0, pat.len() as int) + s.skip(pat.len() as int));
    } else if s.len() > 0 {
        lemma_replace_all_same(s.drop_first(), pat);
        assert(s =~= seq![s[0]] + s.drop_first());
    }
}

/// A word: non-empty text without white space.
pub open spec fn is_word_text(w: Seq<char>) -> bool {
    w.len() > 0 && forall|j: int| 0 <= j < w.len() ==> !is_white(#[trigger] w[j])
}

/// The words of a text are words.
pub proof fn lemma_words_shape(s: Seq<char>)
    ensures
        forall|k: int| 0 <= k < words(s).len() ==> is_word_text(#[trigger] words(s)[k]),
    decreases s.len(),
{
    if s.len() > 0 {
        if is_white(s[0]) {
            lemma_words_shape(s.drop_first());
            assert(words(s) == words(s.drop_first()));
        } else {
            let k = run_len(s) as int;
            lemma_run_len_bound(s);
            lemma_words_shape(s.skip(k));
            let w = s.take(k);
            assert(is_word_text(w)) by {
                assert forall|j: int| 0 <= j < w.len() implies !is_white(#[trigger] w[j]) by {
                    assert(w[j] == s[j]);
                }
            }
            assert forall|i: int| 0 <= i < words(s).len() implies is_word_text(
                #[trigger] words(s)[i],
            ) by {
                if i > 0 {
                    assert(words(s)[i] == words(s.skip(k))[i - 1]);
                }
            }
        }
    }
}

/// A trailing space does not change the first run of non-white characters.
proof fn lemma_run_len_space(s: Seq<char>)
    ensures
        run_len(s + seq![' ']) == run_len(s),
    decreases s.len(),
{
    let t = s + seq![' '];
    if s.len() == 0 {
        assert(t[0] == ' ');
    } else {
        assert(t[0] == s[0]);
        if !is_white(s[0]) {
            assert(t.drop_first() =~= s.drop_first() + seq![' ']);
            lemma_run_len_space(s.drop_first());
        }
    }
}

/// A trailing space adds no word.
pub proof fn lemma_words_space(s: Seq<char>)
    ensures
        words(s + seq![' ']) == words(s),
    decreases s.len(),
{
    let t = s + seq![' '];
    if s.len() == 0 {
        assert(t.drop_first() =~= Seq::<char>::empty());
        assert(words(t.drop_first()) =~= Seq::<Seq<char>>::empty());
        assert(is_white(t[0]));
        assert(words(t) =~= Seq::<Seq<char>>::empty());
    } else {
        assert(t[0] == s[0]);
        if is_white(s[0]) {
            assert(t.drop_first() =~= s.drop_first() + seq![' ']);
            lemma_words_space(s.drop_first());
        } else {
            lemma_run_len_space(s);
            lemma_run_len_bound(s);
            let k = run_len(s) as int;
            assert(t.take(k) =~= s.take(k));
            assert(t.skip(k) =~= s.skip(k) + seq![' ']);
            lemma_words_space(s.skip(k));
        }
    }
}

/// The run of non-white characters at the start of a word followed by a
/// white character is the word.
proof fn lemma_run_len_word(w: Seq<char>, rest: Seq<char>)
    requires
        is_word_text(w),
        rest.len() > 0,
        is_white(rest[0]),
    ensures
        run_len(w + rest) == w.len(),
    decreases w.len(),
{
    let t = w + rest;
    assert(t[0] == w[0]);
    assert(!is_white(w[0]));
    if w.len() == 1 {
        assert(t.drop_first() =~= rest);
        assert(run_len(rest) == 0);
    } else {
        assert(t.drop_first() =~= w.drop_first() + rest);
        assert(is_word_text(w.drop_first())) by {
            assert forall|j: int| 0 <= j < w.drop_first().len() implies !is_white(
                #[trigger] w.drop_first()[j],
            ) by {
                assert(w.drop_first()[j] == w[j + 1]);
            }
        }
        lemma_run_len_word(w.drop_first(), rest);
    }
}

proof fn lemma_run_len_whole_word(w: Seq<char>)
    requires
        is_word_text(w),
    ensures
        run_len(w) == w.len(),
    decreases w.len(),
{
    assert(!is_white(w[0]));
    if w.len() > 1 {
        assert(is_word_text(w.drop_first())) by {
            assert forall|j: int| 0 <= j < w.drop_first().len() implies !is_white(
                #[trigger] w.drop_first()[j],
            ) by {
                assert(w.drop_first()[j] == w[j + 1]);
            }
        }
        lemma_run_len_whole_word(w.drop_first());
    } else {
        assert(w.drop_first().len() == 0);
        assert(run_len(w.drop_first()) == 0);
    }
}

/// Words joined by single spaces split back into those words.
pub proof fn lemma_words_of_joined(ws: Seq<Seq<char>>)
    requires
        forall|k: int| 0 <= k < ws.len() ==> is_word_text(#[trigger] ws[k]),
    ensures
        words(join(ws, seq![' '])) == ws,
    decreases ws.len(),
{
    if ws.len() == 0 {
        assert(words(join(ws, seq![' '])) =~= ws);
    } else {
        let w = ws[0];
        assert(is_word_text(w));
        if ws.len() == 1 {
            assert(join(ws, seq![' ']) == w);
            lemma_run_len_whole_word(w);
            assert(w.take(w.len() as int) =~= w);
            assert(w.skip(w.len() as int) =~= Seq::<char>::empty());
            assert(words(Seq::<char>::empty()) =~= Seq::<Seq<char>>::empty());
            assert(!is_white(w[0]));
            assert(words(w) =~= ws);
        } else {
            let rest = ws.drop_first();
            assert(ws =~= seq![w] + rest);
            lemma_join_cons(w, rest, seq![' ']);
            let jr = join(rest, seq![' ']);
            let t = w + seq![' '] + jr;
            assert(t =~= w + (seq![' '] + jr));
            lemma_run_len_word(w, seq![' '] + jr);
            assert(t[0] == w[0]);
            assert(t.take(w.len() as int) =~= w);
            assert(t.skip(w.len() as int) =~= seq![' '] + jr);
            assert((seq![' '] + jr).drop_first() =~= jr);
            assert forall|k: int| 0 <= k < rest.len() implies is_word_text(#[trigger] rest[k]) by {
                assert(rest[k] == ws[k + 1]);
            }
            lemma_words_of_joined(rest);
            assert(!is_white(w[0]));
            assert(is_white((seq![' '] + jr)[0]));
            assert(words(seq![' '] + jr) == words(jr));
            assert(words(t) =~= seq![w] + rest);
        }
    }
}

/// Words joined by single spaces make clean text.
pub proof fn lemma_joined_words_clean(ws: Seq<Seq<char>>)
    requires
        forall|k: int| 0 <= k < ws.len() ==> is_word_text(#[trigger] ws[k]),
    ensures
        clean(join(ws, seq![' '])),
        ws.len() > 0 ==> join(ws, seq![' ']).len() > 0,
    decreases ws.len(),
{
    if ws.len() == 1 {
        assert(is_word_text(ws[0]));
        assert(!is_white(ws[0][0]) && !is_white(ws[0][ws[0].len() - 1]));
    } else if ws.len() > 1 {
        let init = ws.drop_last();
        assert forall|k: int| 0 <= k < init.len() implies is_word_text(#[trigger] init[k]) by {
            assert(init[k] == ws[k]);
        }
        lemma_joined_words_clean(init);
        let j = join(init, seq![' ']);
        let l = ws.last();
        assert(is_word_text(l));
        assert(!is_white(l[l.len() - 1]));
        let all = j + seq![' '] + l;
        assert(all[0] == j[0]);
        assert(all.last() == l.last());
    }
}

/// Collapsing white space twice is collapsing it once, and gives clean text.
pub proof fn lemma_collapse_white_twice(s: Seq<char>)
    ensures
        collapse_white(collapse_white(s)) == collapse_white(s),
        clean(collapse_white(s)),
{
    lemma_words_shape(s);
    lemma_words_of_joined(words(s));
    lemma_joined_words_clean(words(s));
}

/// Replacing a non-empty pattern that starts nowhere in a leading part `p`
/// leaves that part and replaces in the rest.
pub proof fn lemma_replace_all_after(p: Seq<char>, d: Seq<char>, pat: Seq<char>, rep: Seq<char>)
    requires
        pat.len() > 0,
        forall|i: int| 0 <= i < p.len() ==> !#[trigger] occurs_at(p + d, pat, i),
    ensures
        replace_all(p + d, pat, rep) == p + replace_all(d, pat, rep),
    decreases p.len(),
{
    let s = p + d;
    if p.len() == 0 {
        assert(s =~= d);
        assert(p + replace_all(d, pat, rep) =~= replace_all(d, pat, rep));
    } else {
        assert(!occurs_at(s, pat, 0));
        assert(s[0] == p[0]);
        let q = p.drop_first();
        assert(s.drop_first() =~= q + d);
        assert forall|i: int| 0 <= i < q.len() implies !#[trigger] occurs_at(q + d, pat, i) by {
            assert(!occurs_at(s, pat, i + 1));
            if i + pat.len() <= (q + d).len() {
                assert((q + d).subrange(i, i + pat.len()) =~= s.subrange(i + 1, i + 1 + pat.len()));
            }
        }
        lemma_replace_all_after(q, d, pat, rep);
        assert(replace_all(s, pat, rep) == seq![s[0]] + replace_all(s.drop_first(), pat, rep));
        assert(seq![p[0]] + (q + replace_all(d, pat, rep)) =~= p + replace_all(d, pat, rep));
    }
}

/// Bounds `(a, b)` with `v[a..b]` the trimmed form of `v[from..to]`.
pub fn trim_bounds(v: &Vec<char>, from: usize, to: usize) -> (r: (usize, usize))
    requires
        from <= to <= v.len(),
    ensures
        from <= r.0 <= r.1 <= to,
        v@.subrange(r.0 as int, r.1 as int) == trim(v@.subrange(from as int, to as int)),
        trim_start(v@.subrange(from as int, to as int)) == v@.subrange(r.0 as int, to as int),
        forall|i: int| from <= i < r.0 ==> is_white(#[trigger] v@[i]),
        forall|i: int| r.1 <= i < to ==> is_white(#[trigger] v@[i]),
        r.0 < r.1 ==> !is_white(v@[r.0 as int]) && !is_white(v@[r.1 - 1]),
{
    let mut a = from;
    while a < to && is_white_char(v[a])
        invariant
            from <= a <= to <= v.len(),
            trim_start(v@.subrange(from as int, to as int)) == trim_start(
                v@.subrange(a as int, to as int),
            ),
            forall|i: int| from <= i < a ==> is_white(#[trigger] v@[i]),
        decreases to - a,
    {
        assert(v@.subrange(a as int, to as int).drop_first() =~= v@.subrange(a + 1, to as int));
        a = a + 1;
    }
    assert(trim_start(v@.subrange(a as int, to as int)) == v@.subrange(a as int, to as int));
    let mut b = to;
    while b > a && is_white_char(v[b - 1])
        invariant
            from <= a <= b <= to <= v.len(),
            trim_end(v@.subrange(a as int, to as int)) == trim_end(v@.subrange(a as int, b as int)),
            forall|i: int| b <= i < to ==> is_white(#[trigger] v@[i]),
        decreases b - a,
    {
        assert(v@.subrange(a as int, b as int).drop_last() =~= v@.subrange(a as int, b - 1));
        b = b - 1;
    }
    (a, b)
}

/// End of the run of non-white characters of `v` that starts at `i`.
pub fn run_end(v: &Vec<char>, i: usize) -> (j: usize)
    requires
        i <= v.len(),
    ensures
        i <= j <= v.len(),
        j == i + run_len(v@.skip(i as int)),
        forall|k: int| i <= k < j ==> !is_white(#[trigger] v@[k]),
        j < v.len() ==> is_white(v@[j as int]),
{
    let mut j = i;
    while j < v.len() && !is_white_char(v[j])
        invariant
            i <= j <= v.len(),
            run_len(v@.skip(i as int)) == (j - i) + run_len(v@.skip(j as int)),
            forall|k: int| i <= k < j ==> !is_white(#[trigger] v@[k]),
        decreases v.len() - j,
    {
        assert(v@.skip(j as int).drop_first() =~= v@.skip(j + 1));
        j = j + 1;
    }
    j
}

/// First position at or after `i` that does not hold white space.
pub fn skip_white(v: &Vec<char>, i: usize) -> (j: usize)
    requires
        i <= v.len(),
    ensures
        i <= j <= v.len(),
        trim_start(v@.skip(i as int)) == v@.skip(j as int),
        forall|k: int| i <= k < j ==> is_white(#[trigger] v@[k]),
        j < v.len() ==> !is_white(v@[j as int]),
{
    let mut j = i;
    while j < v.len() && is_white_char(v[j])
        invariant
            i <= j <= v.len(),
            trim_start(v@.skip(i as int)) == trim_start(v@.skip(j as int)),
            forall|k: int| i <= k < j ==> is_white(#[trigger] v@[k]),
        decreases v.len() - j,
    {
        assert(v@.skip(j as int).drop_first() =~= v@.skip(j + 1));
        j = j + 1;
    }
    j
}

/// A copy of `v[from..to]`.
pub fn sub_vec(v: &Vec<char>, from: usize, to: usize) -> (r: Vec<char>)
    requires
        from <= to <= v.len(),
    ensures
        r@ == v@.subrange(from as int, to as int),
{
    let mut r: Vec<char> = Vec::new();
    let mut i = from;
    while i < to
        invariant
            from <= i <= to <= v.len(),
            r@ == v@.subrange(from as int, i as int),
        decreases to - i,
    {
        r.push(v[i]);
        i = i + 1;
        assert(r@ =~= v@.subrange(from as int, i as int));
    }
    r
}

/// The views of a sequence of strings.
pub open spec fn string_views(v: Seq<String>) -> Seq<Seq<char>> {
    v.map_values(|s: String| s@)
}

pub proof fn lemma_string_views_push(v: Seq<String>, s: String)
    ensures
        string_views(v.push(s)) == string_views(v).push(s@),
{
    assert(string_views(v.push(s)) =~= string_views(v).push(s@));
}

pub proof fn lemma_join_push(parts: Seq<Seq<char>>, sep: Seq<char>, w: Seq<char>)
    ensures
        join(parts.push(w), sep) == if parts.len() == 0 {
            w
        } else {
            join(parts, sep) + sep + w
        },
{
    assert(parts.push(w).drop_last() =~= parts);
}

/// Joining a piece in front of at least one more piece puts the separator
/// after it.
pub proof fn lemma_join_cons(a: Seq<char>, rest: Seq<Seq<char>>, sep: Seq<char>)
    requires
        rest.len() > 0,
    ensures
        join(seq![a] + rest, sep) == a + sep + join(rest, sep),
    decreases rest.len(),
{
    let all = seq![a] + rest;
    if rest.len() == 1 {
        assert(all.drop_last() =~= seq![a]);
        assert(join(seq![a], sep) == a);
        assert(all.last() == rest[0]);
        assert(join(rest, sep) == rest[0]);
    } else {
        assert(all.drop_last() =~= seq![a] + rest.drop_last());
        lemma_join_cons(a, rest.drop_last(), sep);
        assert(all.last() == rest.last());
        assert(join(all, sep) =~= a + sep + join(rest, sep));
    }
}

/// Text that neither starts nor ends with white space.
pub open spec fn clean(s: Seq<char>) -> bool {
    s.len() == 0 || (!is_white(s[0]) && !is_white(s.last()))
}

/// Trimming leaves text that is already clean as it is.
pub proof fn lemma_trim_clean(s: Seq<char>)
    requires
        clean(s),
    ensures
        trim_start(s) == s,
        trim_end(s) == s,
        trim(s) == s,
{
}

/// What `trim_start` leaves of a text that ends in a non-white character is
/// a clean, non-empty end of it.
pub proof fn lemma_trim_start_keeps_end(s: Seq<char>)
    requires
        s.len() > 0,
        !is_white(s.last()),
    ensures
        trim_start(s).len() > 0,
        clean(trim_start(s)),
        trim_start(s).last() == s.last(),
    decreases s.len(),
{
    if is_white(s[0]) {
        assert(s.drop_first().last() == s.last());
        lemma_trim_start_keeps_end(s.drop_first());
    }
}

/// A white character in front of clean text is removed by `trim_start`.
pub proof fn lemma_trim_start_space(x: Seq<char>)
    requires
        clean(x),
    ensures
        trim_start(seq![' '] + x) == x,
{
    assert((seq![' '] + x).drop_first() =~= x);
    assert((seq![' '] + x)[0] == ' ');
    lemma_trim_clean(x);
}

pub proof fn lemma_trim_start_shape(s: Seq<char>)
    ensures
        trim_start(s).len() > 0 ==> !is_white(trim_start(s)[0]),
        trim_start(s).len() <= s.len(),
        s.len() > 0 && !is_white(s.last()) ==> trim_start(s).len() > 0 && trim_start(s).last()
            == s.last(),
        trim_start(s) =~= s.skip(s.len() - trim_start(s).len()),
    decreases s.len(),
{
    if s.len() > 0 && is_white(s[0]) {
        lemma_trim_start_shape(s.drop_first());
        if s.len() > 0 && !is_white(s.last()) {
            assert(s.drop_first().last() == s.last());
        }
        let j = s.drop_first().len() - trim_start(s.drop_first()).len();
        assert(s.drop_first().skip(j) =~= s.skip(j + 1));
    }
}

pub proof fn lemma_trim_end_shape(s: Seq<char>)
    ensures
        trim_end(s).len() <= s.len(),
        trim_end(s) =~= s.take(trim_end(s).len() as int),
        trim_end(s).len() > 0 ==> !is_white(trim_end(s).last()),
        s.len() > 0 && !is_white(s[0]) ==> trim_end(s).len() > 0,
    decreases s.len(),
{
    if s.len() > 0 && is_white(s.last()) {
        lemma_trim_end_shape(s.drop_last());
        let k = trim_end(s).len() as int;
        assert(s.drop_last().take(k) =~= s.take(k));
    }
}

/// Text made only of white space.
pub open spec fn all_white(w: Seq<char>) -> bool {
    forall|i: int| 0 <= i < w.len() ==> is_white(#[trigger] w[i])
}

/// White space in front does not change what `trim_start` leaves.
pub proof fn lemma_trim_start_after_white(w: Seq<char>, s: Seq<char>)
    requires
        all_white(w),
    ensures
        trim_start(w + s) == trim_start(s),
    decreases w.len(),
{
    if w.len() > 0 {
        assert((w + s)[0] == w[0]);
        assert((w + s).drop_first() =~= w.drop_first() + s);
        assert(all_white(w.drop_first())) by {
            assert forall|i: int| 0 <= i < w.drop_first().len() implies is_white(
                #[trigger] w.drop_first()[i],
            ) by {
                assert(w.drop_first()[i] == w[i + 1]);
            }
        }
        lemma_trim_start_after_white(w.drop_first(), s);
    } else {
        assert(w + s =~= s);
    }
}

/// White space behind does not change what `trim_end` leaves.
pub proof fn lemma_trim_end_before_white(s: Seq<char>, w: Seq<char>)
    requires
        all_white(w),
    ensures
        trim_end(s + w) == trim_end(s),
    decreases w.len(),
{
    if w.len() > 0 {
        assert((s + w).last() == w.last());
        assert((s + w).drop_last() =~= s + w.drop_last());
        assert(all_white(w.drop_last())) by {
            assert forall|i: int| 0 <= i < w.drop_last().len() implies is_white(
                #[trigger] w.drop_last()[i],
            ) by {
                assert(w.drop_last()[i] == w[i]);
            }
        }
        assert(is_white(w[w.len() - 1]));
        lemma_trim_end_before_white(s, w.drop_last());
    } else {
        assert(s + w =~= s);
    }
}

/// Text is its trimmed form with white space before and after it.
pub proof fn lemma_trim_split(x: Seq<char>) -> (ws: (Seq<char>, Seq<char>))
    ensures
        all_white(ws.0),
        all_white(ws.1),
        x == ws.0 + trim(x) + ws.1,
    decreases x.len(),
{
    if x.len() == 0 {
        assert(x =~= Seq::<char>::empty() + trim(x) + Seq::<char>::empty());
        (Seq::empty(), Seq::empty())
    } else if is_white(x[0]) {
        let (a, b) = lemma_trim_split(x.drop_first());
        assert(trim(x) == trim(x.drop_first()));
        let a2 = seq![x[0]] + a;
        assert(all_white(a2)) by {
            assert forall|i: int| 0 <= i < a2.len() implies is_white(#[trigger] a2[i]) by {
                if i > 0 {
                    assert(a2[i] == a[i - 1]);
                }
            }
        }
        assert(x =~= seq![x[0]] + x.drop_first());
        assert(seq![x[0]] + (a + trim(x) + b) =~= a2 + trim(x) + b);
        assert(x =~= a2 + trim(x) + b);
        (a2, b)
    } else if is_white(x.last()) {
        let (a, b) = lemma_trim_split(x.drop_last());
        assert(trim_start(x) =~= x);
        assert(trim_start(x.drop_last()) =~= x.drop_last());
        assert(trim(x) == trim(x.drop_last()));
        let b2 = b + seq![x.last()];
        assert(all_white(b2)) by {
            assert forall|i: int| 0 <= i < b2.len() implies is_white(#[trigger] b2[i]) by {
                if i < b.len() {
                    assert(b2[i] == b[i]);
                }
            }
        }
        assert(x =~= x.drop_last() + seq![x.last()]);
        assert((a + trim(x) + b) + seq![x.last()] =~= a + trim(x) + b2);
        assert(x =~= a + trim(x) + b2);
        (a, b2)
    } else {
        assert(clean(x));
        lemma_trim_clean(x);
        assert(x =~= Seq::<char>::empty() + trim(x) + Seq::<char>::empty());
        (Seq::empty(), Seq::empty())
    }
}

/// `str::trim` gives clean text.
pub proof fn lemma_trim_is_clean(s: Seq<char>)
    ensures
        clean(trim(s)),
{
    let a = trim_start(s);
    lemma_trim_start_shape(s);
    lemma_trim_end_shape(a);
    let b = trim_end(a);
    if b.len() > 0 {
        assert(b[0] == a[0]);
    }
}

/// `v` with white space collapsed as by `split_whitespace` and `join(" ")`.
pub fn collapse_white_chars(v: &Vec<char>) -> (r: Vec<char>)
    ensures
        r@ == collapse_white(v@),
{
    let mut out: Vec<char> = Vec::new();
    let ghost mut done: Seq<Seq<char>> = seq![];
    let mut i: usize = 0;
    assert(v@.skip(0) =~= v@);
    while i < v.len()
        invariant
            i <= v.len(),
            words(v@) == done + words(v@.skip(i as int)),
            out@ == join(done, seq![' ']),
            (done.len() == 0) == (out@.len() == 0),
        decreases v.len() - i,
    {
        if is_white_char(v[i]) {
            assert(v@.skip(i as int).drop_first() =~= v@.skip(i + 1));
            i = i + 1;
        } else {
            let j = run_end(v, i);
            let ghost w = v@.subrange(i as int, j as int);
            proof {
                let t = v@.skip(i as int);
                assert(t.take(run_len(t) as int) =~= w);
                assert(t.skip(run_len(t) as int) =~= v@.skip(j as int));
                lemma_join_push(done, seq![' '], w);
            }
            if out.len() > 0 {
                proof {
                    if done.len() == 0 {
                        assert(out@ == Seq::<char>::empty());
                    }
                }
                out.push(' ');
            }
            let ghost before = out@;
            let mut k = i;
            while k < j
                invariant
                    i <= k <= j <= v.len(),
                    out@ == before + v@.subrange(i as int, k as int),
                decreases j - k,
            {
                out.push(v[k]);
                k = k + 1;
                assert(out@ =~= before + v@.subrange(i as int, k as int));
            }
            proof {
                assert(words(v@) == done.push(w) + words(v@.skip(j as int))) by {
                    assert(done + (seq![w] + words(v@.skip(j as int))) =~= done.push(w) + words(
                        v@.skip(j as int),
                    ));
                }
                if done.len() == 0 {
                    assert(before =~= Seq::<char>::empty());
                    assert(out@ =~= w);
                } else {
                    assert(out@ =~= join(done, seq![' ']) + seq![' '] + w);
                }
                done = done.push(w);
            }
            i = j;
        }
    }
    assert(words(v@.skip(i as int)) =~= Seq::<Seq<char>>::empty());
    assert(done + Seq::<Seq<char>>::empty() =~= done);
    out
}

/// Whether two character sequences are equal.
pub fn eq_chars(a: &Vec<char>, b: &Vec<char>) -> (r: bool)
    ensures
        r == (a@ == b@),
{
    if a.len() != b.len() {
        return false;
    }
    let mut i: usize = 0;
    while i < a.len()
        invariant
            a.len() == b.len(),
            i <= a.len(),
            forall|k: int| 0 <= k < i ==> a@[k] == b@[k],
        decreases a.len() - i,
    {
        if a[i] != b[i] {
            return false;
        }
        i = i + 1;
    }
    assert(a@ =~= b@);
    true
}

/// Whether two strings are equal.
pub fn str_eq(a: &str, b: &str) -> (r: bool)
    ensures
        r == (a@ == b@),
{
    let va = chars_of(a);
    let vb = chars_of(b);
    eq_chars(&va, &vb)
}

/// ASCII lowercase of a character (other characters are unchanged).
pub open spec fn ascii_lower(c: char) -> char {
    if 65 <= (c as u32) <= 90 {
        ((c as u32) + 32) as char
    } else {
        c
    }
}

/// Equality ignoring ASCII case (`str::eq_ignore_ascii_case`).
pub open spec fn eq_ignore_ascii_case(a: Seq<char>, b: Seq<char>) -> bool {
    a.len() == b.len() && forall|i: int| 0 <= i < a.len() ==> ascii_lower(#[trigger] a[i])
        == ascii_lower(b[i])
}

pub fn ascii_lower_char(c: char) -> (r: char)
    ensures
        r == ascii_lower(c),
{
    let u = c as u32;
    if 65 <= u && u <= 90 {
        ((u + 32) as u8) as char
    } else {
        c
    }
}

/// Whether `a` and `b` are equal ignoring ASCII case.
pub fn eq_ignore_ascii_case_exec(a: &str, b: &str) -> (r: bool)
    ensures
        r == eq_ignore_ascii_case(a@, b@),
{
    let va = chars_of(a);
    let vb = chars_of(b);
    if va.len() != vb.len() {
        return false;
    }
    let mut i: usize = 0;
    while i < va.len()
        invariant
            va.len() == vb.len(),
            va@ == a@,
            vb@ == b@,
            i <= va.len(),
            forall|k: int| 0 <= k < i ==> ascii_lower(#[trigger] va@[k]) == ascii_lower(vb@[k]),
        decreases va.len() - i,
    {
        if ascii_lower_char(va[i]) != ascii_lower_char(vb[i]) {
            return false;
        }
        i = i + 1;
    }
    true
}

/// Whether `pat` occurs in `s` at position `i`.
pub fn occurs_at_exec(s: &Vec<char>, pat: &Vec<char>, i: usize) -> (r: bool)
    ensures
        r == occurs_at(s@, pat@, i as int),
{
    if i > s.len() || pat.len() > s.len() - i {
        return false;
    }
    let mut k: usize = 0;
    while k < pat.len()
        invariant
            i + pat.len() <= s.len(),
            k <= pat.len(),
            forall|m: int| 0 <= m < k ==> s@[i + m] == pat@[m],
        decreases pat.len() - k,
    {
        if s[i + k] != pat[k] {
            assert(s@.subrange(i as int, i + pat.len())[k as int] != pat@[k as int]);
            return false;
        }
        k = k + 1;
    }
    assert(s@.subrange(i as int, i + pat.len()) =~= pat@);
    true
}

/// Whether `pat` occurs in `s`.
pub fn contains_chars(s: &Vec<char>, pat: &Vec<char>) -> (r: bool)
    ensures
        r == contains(s@, pat@),
{
    let mut i: usize = 0;
    while i < s.len()
        invariant
            i <= s.len(),
            forall|j: int| 0 <= j < i ==> !occurs_at(s@, pat@, j),
        decreases s.len() - i,
    {
        if occurs_at_exec(s, pat, i) {
            return true;
        }
        i = i + 1;
    }
    if occurs_at_exec(s, pat, i) {
        return true;
    }
    assert forall|j: int| !occurs_at(s@, pat@, j) by {
        if 0 <= j < i {
        }
    }
    false
}

/// `s` with each occurrence of `pat` replaced by `rep`, as `str::replace` does.
pub fn replace_all_chars(s: &Vec<char>, pat: &Vec<char>, rep: &Vec<char>) -> (r: Vec<char>)
    ensures
        r@ == replace_all(s@, pat@, rep@),
{
    let mut out: Vec<char> = Vec::new();
    let mut i: usize = 0;
    assert(s@.skip(0) =~= s@);
    while i < s.len()
        invariant
            i <= s.len(),
            out@ + replace_all(s@.skip(i as int), pat@, rep@) == replace_all(s@, pat@, rep@),
        decreases s.len() - i,
    {
        let ghost t = s@.skip(i as int);
        if pat.len() == 0 {
            let ghost before = out@;
            append_chars(&mut out, rep);
            out.push(s[i]);
            assert(t.drop_first() =~= s@.skip(i + 1));
            assert(out@ + replace_all(s@.skip(i + 1), pat@, rep@) =~= before + replace_all(
                t,
                pat@,
                rep@,
            ));
            i = i + 1;
        } else if occurs_at_exec(s, pat, i) {
            let ghost before = out@;
            assert(t.subrange(0, pat@.len() as int) =~= s@.subrange(i as int, i + pat@.len()));
            append_chars(&mut out, rep);
            assert(t.skip(pat@.len() as int) =~= s@.skip(i + pat.len()));
            assert(out@ + replace_all(s@.skip(i + pat.len()), pat@, rep@) =~= before
                + replace_all(t, pat@, rep@));
            i = i + pat.len();
        } else {
            let ghost before = out@;
            assert(!occurs_at(t, pat@, 0)) by {
                if occurs_at(t, pat@, 0) {
                    assert(t.subrange(0, pat@.len() as int) =~= s@.subrange(
                        i as int,
                        i + pat@.len(),
                    ));
                }
            }
            out.push(s[i]);
            assert(t.drop_first() =~= s@.skip(i + 1));
            assert(out@ + replace_all(s@.skip(i + 1), pat@, rep@) =~= before + replace_all(
                t,
                pat@,
                rep@,
            ));
            i = i + 1;
        }
    }
    let ghost before = out@;
    if pat.len() == 0 {
        append_chars(&mut out, rep);
    }
    assert(out@ =~= before + replace_all(s@.skip(i as int), pat@, rep@));
    out
}

/// Appends the characters of `w` to `out`.
pub fn append_chars(out: &mut Vec<char>, w: &Vec<char>)
    ensures
        final(out)@ == old(out)@ + w@,
{
    let mut k: usize = 0;
    while k < w.len()
        invariant
            k <= w.len(),
            out@ == old(out)@ + w@.take(k as int),
        decreases w.len() - k,
    {
        out.push(w[k]);
        k = k + 1;
        assert(out@ =~= old(out)@ + w@.take(k as int));
    }
    assert(w@.take(w.len() as int) =~= w@);
}

/// What `str::to_lowercase` gives for `s` (Unicode lowercase mapping).
pub uninterp spec fn lowercase(s: Seq<char>) -> Seq<char>;

pub open spec fn all_ascii(s: Seq<char>) -> bool {
    forall|i: int| 0 <= i < s.len() ==> (#[trigger] s[i] as u32) < 128
}

/// Calls `str::to_lowercase`. Its result is named `lowercase`; the contract
/// also claims that a text of ASCII characters is lowercased character by
/// character, `A`-`Z` becoming `a`-`z`.
#[verifier::external_body]
fn std_to_lowercase(s: &str) -> (r: String)
    ensures
        r@ == lowercase(s@),
        all_ascii(s@) ==> r@ == s@.map_values(|c: char| ascii_lower(c)),
{
    s.to_lowercase()
}

/// The Unicode lowercase form of `s` (`str::to_lowercase`).
pub fn to_lowercase(s: &str) -> (r: String)
    ensures
        r@ == lowercase(s@),
        all_ascii(s@) ==> r@ == s@.map_values(|c: char| ascii_lower(c)),
{
    std_to_lowercase(s)
}

/// `String::push` appends one character.
pub assume_specification[ String::push ](s: &mut String, ch: char)
    ensures
        final(s)@ == old(s)@.push(ch),
;

/// The characters of `s`, in order.
pub fn chars_of(s: &str) -> (r: Vec<char>)
    ensures
        r@ == s@,
{
    let mut r: Vec<char> = Vec::new();
    for c in it: s.chars()
        invariant
            it.seq() == s@,
            r@ == s@.take(it.index() as int),
    {
        r.push(c);
    }
    assert(r@ =~= s@);
    r
}

/// A `String` holding the characters of `v[from..to]`.
pub fn string_of_range(v: &Vec<char>, from: usize, to: usize) -> (r: String)
    requires
        from <= to <= v.len(),
    ensures
        r@ == v@.subrange(from as int, to as int),
{
    let mut r = String::new();
    let mut i = from;
    while i < to
        invariant
            from <= i <= to <= v.len(),
            r@ == v@.subrange(from as int, i as int),
        decreases to - i,
    {
        r.push(v[i]);
        i = i + 1;
        assert(r@ =~= v@.subrange(from as int, i as int));
    }
    r
}

/// A `String` with the characters of `s`.
pub fn string_from(s: &str) -> (r: String)
    ensures
        r@ == s@,
{
    let v = chars_of(s);
    string_of(&v)
}

/// A `String` holding the characters of `v`.
pub fn string_of(v: &Vec<char>) -> (r: String)
    ensures
        r@ == v@,
{
    let r = string_of_range(v, 0, v.len());
    assert(v@.subrange(0, v@.len() as int) =~= v@);
    r
}

} // verus!
