//! Reading the arguments of the command line that carry data (task ids with
//! a trailing text, priorities) and choosing the files they act on.

use crate::config::{
    answered, config_toml, names_default_todo, dirs_home_dir, is_absolute, joined_path, option_text, resolve_path,
    resolve_spec, std_join, td_dir, tdrc, todo_txt, Config, ConfigView,
};
use crate::date::{digit_value, is_ascii_digit};
use crate::todo_file::{default_todo_path, TodoFile};
use crate::task::{all_ascii_digits, digits_value};
use crate::text::{chars_of, join, string_from, string_views};
use vstd::prelude::*;

verus! {

/// What `str::parse::<usize>` accepts: an optional `+` and at least one
/// ASCII digit, the value fitting in a `usize`.
pub open spec fn parse_usize_spec(s: Seq<char>) -> Option<usize> {
    let start: int = if s.len() > 0 && s[0] == '+' {
        1
    } else {
        0
    };
    let d = s.subrange(start, s.len() as int);
    if d.len() > 0 && all_ascii_digits(d) && digits_value(d) <= usize::MAX {
        Some(digits_value(d) as usize)
    } else {
        None
    }
}

pub open spec fn dashes() -> Seq<char> {
    seq!['-', '-']
}

/// The state of reading `ids... [--] text...`.
pub struct ArgsRun {
    pub ids: Seq<usize>,
    pub text: Seq<Seq<char>>,
    pub in_text: bool,
}

/// Reads the arguments in order: numbers are ids until the first argument
/// that is not one (or `--`, which is dropped); from there on everything but
/// `--` is text.
pub open spec fn args_run(args: Seq<Seq<char>>) -> ArgsRun
    decreases args.len(),
{
    if args.len() == 0 {
        ArgsRun { ids: seq![], text: seq![], in_text: false }
    } else {
        let prev = args_run(args.drop_last());
        let a = args.last();
        if prev.in_text || a == dashes() {
            ArgsRun {
                text: if a != dashes() {
                    prev.text.push(a)
                } else {
                    prev.text
                },
                in_text: true,
                ..prev
            }
        } else {
            match parse_usize_spec(a) {
                Some(id) => ArgsRun { ids: prev.ids.push(id), ..prev },
                None => ArgsRun { text: prev.text.push(a), in_text: true, ..prev },
            }
        }
    }
}

/// Whether an argument ends the ids: `--` or anything that is not a number.
pub open spec fn ends_ids(a: Seq<char>) -> bool {
    a == dashes() || parse_usize_spec(a) is None
}

/// Whether an argument is part of the text: anything but `--`.
pub open spec fn text_arg() -> spec_fn(Seq<char>) -> bool {
    |a: Seq<char>| a != dashes()
}

/// The arguments read in closed form: the ids are the leading arguments up
/// to the first one that ends them, each read as a number, and the text is
/// every argument from there on except `--`.
pub proof fn lemma_args_run_closed(args: Seq<Seq<char>>)
    ensures
        ({
            let run = args_run(args);
            let k = run.ids.len() as int;
            &&& k <= args.len()
            &&& run.in_text == (k < args.len())
            &&& forall|j: int| 0 <= j < k ==> !ends_ids(#[trigger] args[j]) && Some(run.ids[j])
                == parse_usize_spec(args[j])
            &&& k < args.len() ==> ends_ids(args[k])
            &&& run.text == args.skip(k).filter(text_arg())
        }),
    decreases args.len(),
{
    reveal(Seq::filter);
    let keep = text_arg();
    if args.len() == 0 {
        assert(args.skip(0).filter(keep) =~= Seq::<Seq<char>>::empty());
    } else {
        let init = args.drop_last();
        let a = args.last();
        lemma_args_run_closed(init);
        let prev = args_run(init);
        let run = args_run(args);
        let k = prev.ids.len() as int;
        assert forall|j: int| 0 <= j < init.len() implies #[trigger] init[j] == args[j] by {}
        assert forall|j: int| 0 <= j < k implies !ends_ids(#[trigger] args[j]) && Some(
            prev.ids[j],
        ) == parse_usize_spec(args[j]) by {
            assert(init[j] == args[j]);
        }
        if prev.in_text {
            assert(run.ids == prev.ids);
            assert(args.skip(k).drop_last() =~= init.skip(k));
            assert(args.skip(k).last() == a);
            assert(run.text == args.skip(k).filter(keep));
            assert(ends_ids(args[k]));
        } else {
            assert(k == init.len());
            assert(init.skip(k) =~= Seq::<Seq<char>>::empty());
            assert(prev.text =~= Seq::<Seq<char>>::empty());
            assert(args.skip(k) =~= seq![a]);
            assert(seq![a].drop_last() =~= Seq::<Seq<char>>::empty());
            assert(seq![a].last() == a);
            assert(args[k] == a);
            if a == dashes() {
                assert(run.ids == prev.ids);
                assert(run.text =~= args.skip(k).filter(keep));
            } else if parse_usize_spec(a) is Some {
                assert(run.ids == prev.ids.push(parse_usize_spec(a)->0));
                assert(run.text == prev.text);
                assert(args.skip(k + 1) =~= Seq::<Seq<char>>::empty());
                assert(run.text =~= args.skip(k + 1).filter(keep));
                assert forall|j: int| 0 <= j < k + 1 implies !ends_ids(#[trigger] args[j])
                    && Some(run.ids[j]) == parse_usize_spec(args[j]) by {
                    if j < k {
                        assert(run.ids[j] == prev.ids[j]);
                        assert(init[j] == args[j]);
                    } else {
                        assert(args[j] == a);
                    }
                }
            } else {
                assert(run.ids == prev.ids);
                assert(run.text =~= args.skip(k).filter(keep));
            }
        }
    }
}

/// Why the arguments could not be read.
#[derive(Debug, Clone, Copy, PartialEq, Eq)]
pub enum ArgsError {
    /// No task id came before the text.
    NoIds,
    /// No text came after the ids.
    NoText,
}

/// Reads `ids... [--] text...` into the ids and the text, its words joined
/// by spaces.
pub fn parse_trailing_args(args: &[String]) -> (r: Result<(Vec<usize>, String), ArgsError>)
    ensures
        ({
            let run = args_run(string_views(args@));
            match r {
                Ok((ids, text)) => run.ids.len() > 0 && run.text.len() > 0 && ids@ == run.ids
                    && text@ == join(run.text, seq![' ']),
                Err(ArgsError::NoIds) => run.ids.len() == 0,
                Err(ArgsError::NoText) => run.ids.len() > 0 && run.text.len() == 0,
            }
        }),
{
    let ghost av = string_views(args@);
    let mut ids: Vec<usize> = Vec::new();
    let mut parts: Vec<char> = Vec::new();
    let mut n_parts: usize = 0;
    let ghost mut text: Seq<Seq<char>> = seq![];
    let mut found_text = false;
    let mut k: usize = 0;
    let mut dd: Vec<char> = Vec::new();
    dd.push('-');
    dd.push('-');
    assert(dd@ =~= dashes());
    while k < args.len()
        invariant
            k <= args@.len(),
            av == string_views(args@),
            dd@ == dashes(),
            ({
                let run = args_run(av.take(k as int));
                &&& ids@ == run.ids
                &&& text == run.text
                &&& found_text == run.in_text
            }),
            parts@ == join(text, seq![' ']),
            n_parts == text.len(),
            n_parts <= k,
        decreases args.len() - k,
    {
        proof {
            assert(av.take(k + 1).drop_last() =~= av.take(k as int));
            assert(av.take(k + 1).last() == args@[k as int]@);
        }
        let a = chars_of(args[k].as_str());
        let is_dashes = crate::text::eq_chars(&a, &dd);
        if found_text || is_dashes {
            if !is_dashes {
                push_word(&mut parts, &a, n_parts, Ghost(text));
                proof {
                    text = text.push(a@);
                }
                n_parts = n_parts + 1;
            }
            found_text = true;
        } else {
            match parse_usize(&a) {
                Some(id) => {
                    ids.push(id);
                },
                None => {
                    push_word(&mut parts, &a, n_parts, Ghost(text));
                    proof {
                        text = text.push(a@);
                    }
                    n_parts = n_parts + 1;
                    found_text = true;
                },
            }
        }
        k = k + 1;
    }
    assert(av.take(k as int) =~= av);
    if ids.len() == 0 {
        return Err(ArgsError::NoIds);
    }
    if n_parts == 0 {
        return Err(ArgsError::NoText);
    }
    Ok((ids, crate::text::string_of(&parts)))
}

/// Appends a word to text joined by spaces.
fn push_word(out: &mut Vec<char>, w: &Vec<char>, count: usize, Ghost(words): Ghost<Seq<Seq<char>>>)
    requires
        old(out)@ == join(words, seq![' ']),
        count == words.len(),
    ensures
        final(out)@ == join(words.push(w@), seq![' ']),
{
    proof {
        crate::text::lemma_join_push(words, seq![' '], w@);
    }
    if count > 0 {
        out.push(' ');
    }
    crate::text::append_chars(out, w);
    proof {
        if words.len() == 0 {
            assert(old(out)@ =~= Seq::<char>::empty());
            assert(out@ =~= w@);
        }
    }
}

/// Reads a `usize` as `str::parse` does.
pub fn parse_usize(v: &Vec<char>) -> (r: Option<usize>)
    ensures
        r == parse_usize_spec(v@),
{
    let start: usize = if v.len() > 0 && v[0] == '+' {
        1
    } else {
        0
    };
    let ghost d = v@.subrange(start as int, v@.len() as int);
    if start == v.len() {
        return None;
    }
    let mut acc: usize = 0;
    let mut i = start;
    while i < v.len()
        invariant
            start <= i <= v.len(),
            start == (if v@.len() > 0 && v@[0] == '+' { 1int } else { 0int }),
            d == v@.subrange(start as int, v@.len() as int),
            all_ascii_digits(v@.subrange(start as int, i as int)),
            acc == digits_value(v@.subrange(start as int, i as int)),
        decreases v.len() - i,
    {
        let c = v[i];
        let ghost pre = v@.subrange(start as int, i as int);
        let ghost next = v@.subrange(start as int, i + 1);
        assert(next.drop_last() =~= pre);
        if !(48 <= (c as u32) && (c as u32) <= 57) {
            assert(!all_ascii_digits(d)) by {
                assert(d[i - start] == c);
            }
            return None;
        }
        let dv = ((c as u32) - 48) as usize;
        match acc.checked_mul(10) {
            Some(m) => match m.checked_add(dv) {
                Some(n) => {
                    acc = n;
                },
                None => {
                    proof {
                        if all_ascii_digits(d) {
                            crate::task::lemma_digits_value_prefix_le(d, i + 1 - start);
                            assert(d.take(i + 1 - start) =~= next);
                            assert(digits_value(next) == acc * 10 + dv);
                        }
                    }
                    return None;
                },
            },
            None => {
                proof {
                    if all_ascii_digits(d) {
                        crate::task::lemma_digits_value_prefix_le(d, i + 1 - start);
                        assert(d.take(i + 1 - start) =~= next);
                        assert(digits_value(next) == acc * 10 + dv);
                    }
                }
                return None;
            },
        }
        i = i + 1;
        assert(all_ascii_digits(next)) by {
            assert forall|k: int| 0 <= k < next.len() implies is_ascii_digit(#[trigger] next[k]) by {
                if k < pre.len() {
                    assert(next[k] == pre[k]);
                }
            }
        }
    }
    assert(v@.subrange(start as int, i as int) =~= d);
    Some(acc)
}

/// Why a priority argument was refused.
#[derive(Debug, Clone, Copy, PartialEq, Eq)]
pub enum PriorityArgError {
    /// The argument was empty.
    Empty,
    /// The argument did not start with a capital letter.
    NotALetter,
}

/// Reads a priority argument: `-` removes the priority; otherwise its first
/// character, which must be `A`-`Z`.
pub fn parse_priority_arg(s: &str) -> (r: Result<Option<char>, PriorityArgError>)
    ensures
        s@ == dashes().take(1) ==> r == Ok::<Option<char>, PriorityArgError>(None),
        s@ != dashes().take(1) ==> (match r {
            Ok(Some(c)) => s@.len() > 0 && c == s@[0] && 65 <= (c as u32) <= 90,
            Ok(None) => false,
            Err(PriorityArgError::Empty) => s@.len() == 0,
            Err(PriorityArgError::NotALetter) => s@.len() > 0 && !(65 <= (s@[0] as u32) <= 90),
        }),
{
    let v = chars_of(s);
    if v.len() == 1 && v[0] == '-' {
        assert(s@ =~= dashes().take(1));
        return Ok(None);
    }
    if v.len() == 0 {
        return Err(PriorityArgError::Empty);
    }
    let c = v[0];
    if 65 <= (c as u32) && (c as u32) <= 90 {
        Ok(Some(c))
    } else {
        Err(PriorityArgError::NotALetter)
    }
}

/// The todo file a command acts on: the one named on the command line;
/// else the one the settings name when it is absolute or not the path
/// `todo.txt` (relative ones taken from the home directory); else `todo.txt`
/// in the working directory `cwd` when `found` (it is there), or in the home
/// directory.
pub open spec fn chosen_todo_path(
    file: Option<Seq<char>>,
    c: ConfigView,
    cwd: Seq<char>,
    home: Option<Seq<char>>,
    found: bool,
) -> Seq<char> {
    match file {
        Some(f) => f,
        None => if is_absolute(c.todo_file) {
            c.todo_file
        } else if !names_default_todo(c.todo_file) {
            resolve_spec(c.todo_file, home)
        } else {
            default_todo_path(cwd, home, found)
        },
    }
}

/// The todo file a command acts on, given the home directory; `is_file`
/// tells whether a path holds a file.
pub fn todo_path_with_home<F: Fn(&str) -> bool>(
    file: &Option<String>,
    config: &Config,
    cwd: &str,
    home: &Option<String>,
    is_file: &F,
) -> (r: String)
    requires
        forall|p: &str| is_file.requires((p,)),
    ensures
        exists|found: bool|
            (file is None && !is_absolute(config@.todo_file) && names_default_todo(config@.todo_file)
                ==> answered(*is_file, joined_path(cwd@, todo_txt()), found)) && r@
                == #[trigger] chosen_todo_path(option_text(*file), config@, cwd@, option_text(*home), found),
{
    match file {
        Some(f) => {
            let r = string_from(f.as_str());
            assert(r@ == chosen_todo_path(option_text(*file), config@, cwd@, option_text(*home), true));
            r
        },
        None => {
            let t = chars_of(config.todo_file.as_str());
            if t.len() > 0 && t[0] == '/' {
                let r = string_from(config.todo_file.as_str());
                assert(r@ == chosen_todo_path(option_text(*file), config@, cwd@, option_text(*home), true));
                return r;
            }
            if !crate::config::is_default_todo_path(config.todo_file.as_str()) {
                let r = resolve_path(config.todo_file.as_str(), home);
                assert(r@ == chosen_todo_path(option_text(*file), config@, cwd@, option_text(*home), true));
                return r;
            }
            let r = TodoFile::default_path_with_home(cwd, home, is_file);
            proof {
                let found = choose|found: bool|
                    answered(*is_file, joined_path(cwd@, todo_txt()), found) && r@
                        == #[trigger] default_todo_path(cwd@, option_text(*home), found);
                assert(r@ == chosen_todo_path(option_text(*file), config@, cwd@, option_text(*home), found));
            }
            r
        },
    }
}

/// The todo file a command acts on: the one named on the command line, else
/// the one the settings name, else `todo.txt` in the working directory when
/// it is there, or in the home directory.
pub fn todo_path<F: Fn(&str) -> bool>(file: &Option<String>, config: &Config, cwd: &str, is_file: &F) -> (r:
    String)
    requires
        forall|p: &str| is_file.requires((p,)),
    ensures
        exists|home: Option<Seq<char>>, found: bool|
            (file is None && !is_absolute(config@.todo_file) && names_default_todo(config@.todo_file)
                ==> answered(*is_file, joined_path(cwd@, todo_txt()), found)) && r@
                == #[trigger] chosen_todo_path(option_text(*file), config@, cwd@, home, found),
{
    let home = dirs_home_dir();
    todo_path_with_home(file, config, cwd, &home, is_file)
}

/// Where `td config init` puts a new settings file, given the configuration
/// directory: `td/config.toml` there, else `.tdrc` in the working directory.
pub fn init_config_path_in(config_dir: &Option<String>) -> (r: String)
    ensures
        r@ == match option_text(*config_dir) {
            Some(c) => joined_path(joined_path(c, td_dir()), config_toml()),
            None => tdrc(),
        },
{
    let rc = ".tdrc";
    proof {
        reveal_strlit(".tdrc");
    }
    assert(rc@ =~= tdrc());
    match config_dir {
        Some(c) => {
            let td = "td";
            let file = "config.toml";
            proof {
                reveal_strlit("td");
                reveal_strlit("config.toml");
            }
            assert(td@ =~= td_dir());
            assert(file@ =~= config_toml());
            let dir = std_join(c.as_str(), td);
            std_join(dir.as_str(), file)
        },
        None => string_from(rc),
    }
}

} // verus!
