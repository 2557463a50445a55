//! Settings of `td`: where the todo and done files are, and output options.

use crate::text::{chars_of, string_from, string_views};
use vstd::prelude::*;

verus! {

/// The settings. Paths are held as text.
#[derive(Debug, Clone)]
pub struct Config {
    pub todo_file: String,
    pub done_file: Option<String>,
    pub color: bool,
    pub verbose: bool,
    pub auto_archive: bool,
    pub date_on_add: bool,
}

pub struct ConfigView {
    pub todo_file: Seq<char>,
    pub done_file: Option<Seq<char>>,
    pub color: bool,
    pub verbose: bool,
    pub auto_archive: bool,
    pub date_on_add: bool,
}

impl View for Config {
    type V = ConfigView;

    open spec fn view(&self) -> ConfigView {
        ConfigView {
            todo_file: self.todo_file@,
            done_file: match self.done_file {
                Some(d) => Some(d@),
                None => None,
            },
            color: self.color,
            verbose: self.verbose,
            auto_archive: self.auto_archive,
            date_on_add: self.date_on_add,
        }
    }
}

pub open spec fn todo_txt() -> Seq<char> {
    seq!['t', 'o', 'd', 'o', '.', 't', 'x', 't']
}

pub open spec fn done_txt() -> Seq<char> {
    seq!['d', 'o', 'n', 'e', '.', 't', 'x', 't']
}

/// The settings used when none are given: `todo.txt`, no done file, color
/// on, quiet, no automatic archiving, creation dates on added tasks.
pub open spec fn default_config() -> ConfigView {
    ConfigView {
        todo_file: todo_txt(),
        done_file: None,
        color: true,
        verbose: false,
        auto_archive: false,
        date_on_add: true,
    }
}

/// What `Path::join` gives for `base` joined with `rel`.
pub uninterp spec fn joined_path(base: Seq<char>, rel: Seq<char>) -> Seq<char>;

/// What `Path::parent` gives for `p`.
pub uninterp spec fn parent_path(p: Seq<char>) -> Option<Seq<char>>;

/// Whether a path is absolute (on Unix: it starts at the root `/`).
pub open spec fn is_absolute(p: Seq<char>) -> bool {
    p.len() > 0 && p[0] == '/'
}

/// Calls `Path::join`. Its result is named `joined_path`; the contract also
/// claims what its documentation says: joining an absolute path gives that
/// path.
#[verifier::external_body]
pub(crate) fn std_join(base: &str, rel: &str) -> (r: String)
    ensures
        r@ == joined_path(base@, rel@),
        is_absolute(rel@) ==> r@ == rel@,
{
    std::path::Path::new(base).join(rel).to_string_lossy().into_owned()
}

/// Calls `Path::parent`. Its result is named `parent_path`; the contract also
/// claims what its documentation says: the empty path has no parent.
#[verifier::external_body]
fn std_parent(p: &str) -> (r: Option<String>)
    ensures
        option_text(r) == parent_path(p@),
        p@.len() == 0 ==> r is None,
{
    std::path::Path::new(p).parent().map(|q| q.to_string_lossy().into_owned())
}

/// Calls `dirs::home_dir`: the user's home directory, if one is known. What
/// it returns depends on the environment; nothing about it is stated.
#[verifier::external_body]
pub(crate) fn dirs_home_dir() -> (r: Option<String>) {
    dirs::home_dir().map(|p| p.to_string_lossy().into_owned())
}

/// Calls `dirs::config_dir`: the user's configuration directory, if one is
/// known. What it returns depends on the environment and the platform;
/// nothing about it is stated.
#[verifier::external_body]
fn dirs_config_dir() -> (r: Option<String>) {
    dirs::config_dir().map(|p| p.to_string_lossy().into_owned())
}

/// Whether `f` answered `b` when asked about a path whose text is `p`.
pub open spec fn answered<F: Fn(&str) -> bool>(f: F, p: Seq<char>, b: bool) -> bool {
    exists|q: &str| q@ == p && #[trigger] f.ensures((q,), b)
}

/// Whether `r` is the first of the paths `cs` for which `f` answered yes,
/// `f` having answered no for each before it (and for all when `r` is
/// `None`).
pub open spec fn first_found<F: Fn(&str) -> bool>(
    f: F,
    cs: Seq<Seq<char>>,
    r: Option<Seq<char>>,
) -> bool {
    match r {
        Some(p) => exists|k: int|
            0 <= k < cs.len() && p == cs[k] && answered(f, cs[k], true) && forall|j: int|
                0 <= j < k ==> answered(f, #[trigger] cs[j], false),
        None => forall|j: int| 0 <= j < cs.len() ==> answered(f, #[trigger] cs[j], false),
    }
}

/// The first of the paths `cs` that `is_file` says exists.
pub fn first_existing<F: Fn(&str) -> bool>(cs: &Vec<String>, is_file: &F) -> (r: Option<String>)
    requires
        forall|p: &str| is_file.requires((p,)),
    ensures
        first_found(*is_file, string_views(cs@), option_text(r)),
{
    let ghost sv = string_views(cs@);
    let mut i: usize = 0;
    while i < cs.len()
        invariant
            i <= cs.len(),
            sv == string_views(cs@),
            forall|p: &str| is_file.requires((p,)),
            forall|j: int| 0 <= j < i ==> answered(*is_file, #[trigger] sv[j], false),
        decreases cs.len() - i,
    {
        let p = cs[i].as_str();
        let found = is_file(p);
        assert(sv[i as int] == p@);
        assert(is_file.ensures((p,), found));
        if found {
            return Some(string_from(p));
        }
        i = i + 1;
    }
    None
}

pub open spec fn option_text(o: Option<String>) -> Option<Seq<char>> {
    match o {
        Some(s) => Some(s@),
        None => None,
    }
}

/// Whether the text after a path's last named component adds no component:
/// only separators and `.` components (which `Path` comparison skips).
pub open spec fn adds_no_component(t: Seq<char>) -> bool {
    t.len() == 0 || (t[0] == '/' && forall|i: int|
        0 < i < t.len() ==> (#[trigger] t[i] == '/' || (t[i] == '.' && t[i - 1] == '/' && (i + 1
            == t.len() || t[i + 1] == '/'))))
}

/// Whether the path text `p` is the path `todo.txt` as `Path` compares
/// paths, component by component (`todo.txt/` and `todo.txt/.` are too).
pub open spec fn names_default_todo(p: Seq<char>) -> bool {
    p.len() >= 8 && p.take(8) == todo_txt() && adds_no_component(p.skip(8))
}

/// Whether `p` is the path `todo.txt`, compared component by component.
pub fn is_default_todo_path(p: &str) -> (r: bool)
    ensures
        r == names_default_todo(p@),
{
    let v = chars_of(p);
    if v.len() < 8 || !(v[0] == 't' && v[1] == 'o' && v[2] == 'd' && v[3] == 'o' && v[4] == '.'
        && v[5] == 't' && v[6] == 'x' && v[7] == 't') {
        proof {
            if v.len() >= 8 && p@.take(8) == todo_txt() {
                assert(p@.take(8)[0] == 't' && p@.take(8)[1] == 'o' && p@.take(8)[2] == 'd'
                    && p@.take(8)[3] == 'o' && p@.take(8)[4] == '.' && p@.take(8)[5] == 't'
                    && p@.take(8)[6] == 'x' && p@.take(8)[7] == 't');
            }
        }
        return false;
    }
    assert(p@.take(8) =~= todo_txt());
    let ghost t = p@.skip(8);
    if v.len() == 8 {
        return true;
    }
    if v[8] != '/' {
        assert(t[0] == v@[8]);
        return false;
    }
    let mut i: usize = 9;
    while i < v.len()
        invariant
            9 <= i <= v.len(),
            v@ == p@,
            t == p@.skip(8),
            t[0] == '/',
            forall|j: int|
                0 < j < i - 8 ==> (#[trigger] t[j] == '/' || (t[j] == '.' && t[j - 1] == '/' && (j
                    + 1 == t.len() || t[j + 1] == '/'))),
        decreases v.len() - i,
    {
        let ok = v[i] == '/' || (v[i] == '.' && v[i - 1] == '/' && (i + 1 == v.len() || v[i + 1]
            == '/'));
        assert(t[i - 8] == v@[i as int] && t[i - 9] == v@[i - 1]);
        if i + 1 < v.len() {
            assert(t[i - 7] == v@[i + 1]);
        }
        if !ok {
            return false;
        }
        i = i + 1;
    }
    true
}

/// A path as the settings resolve it: absolute paths stay, relative ones are
/// taken from the home directory when one is known.
pub open spec fn resolve_spec(p: Seq<char>, home: Option<Seq<char>>) -> Seq<char> {
    if is_absolute(p) {
        p
    } else {
        match home {
            Some(h) => joined_path(h, p),
            None => p,
        }
    }
}

/// The done file that goes with a todo file: `done.txt` beside it.
pub open spec fn done_beside_spec(todo_path: Seq<char>) -> Seq<char> {
    match parent_path(todo_path) {
        Some(dir) => joined_path(dir, done_txt()),
        None => done_txt(),
    }
}

/// The path of the done file: the one set, resolved, else `done.txt`
/// beside the todo file.
pub open spec fn done_path_spec(c: ConfigView, home: Option<Seq<char>>) -> Seq<char> {
    match c.done_file {
        Some(d) => resolve_spec(d, home),
        None => done_beside_spec(resolve_spec(c.todo_file, home)),
    }
}

/// Resolves a path against the home directory `home`.
pub fn resolve_path(p: &str, home: &Option<String>) -> (r: String)
    ensures
        r@ == resolve_spec(p@, option_text(*home)),
{
    let v = chars_of(p);
    if v.len() > 0 && v[0] == '/' {
        string_from(p)
    } else {
        match home {
            Some(h) => std_join(h.as_str(), p),
            None => string_from(p),
        }
    }
}

/// The path of `done.txt` in the directory of `todo_path`.
pub fn done_path_beside(todo_path: &str) -> (r: String)
    ensures
        r@ == done_beside_spec(todo_path@),
{
    let name = "done.txt";
    proof {
        reveal_strlit("done.txt");
    }
    assert(name@ =~= done_txt());
    match std_parent(todo_path) {
        Some(dir) => std_join(dir.as_str(), name),
        None => string_from(name),
    }
}

/// Whether `r` holds the default settings.
pub open spec fn is_defaults(r: Result<Config, String>) -> bool {
    r matches Ok(c) && c@ == default_config()
}

/// Whether `r` is what loading the settings gives when the settings file
/// found is `found`: the defaults when none is found or `is_file` then
/// says it is gone, else what `read` makes of it.
pub open spec fn loaded_from<F: Fn(&str) -> bool, G: Fn(&str) -> Result<Config, String>>(
    is_file: F,
    read: G,
    found: Option<Seq<char>>,
    r: Result<Config, String>,
) -> bool {
    match found {
        None => is_defaults(r),
        Some(p) => exists|q: &str|
            q@ == p && ((is_file.ensures((q,), false) && is_defaults(r)) || (is_file.ensures(
                (q,),
                true,
            ) && read.ensures((q,), r))),
    }
}

pub open spec fn td_dir() -> Seq<char> {
    seq!['t', 'd']
}

pub open spec fn config_toml() -> Seq<char> {
    seq!['c', 'o', 'n', 'f', 'i', 'g', '.', 't', 'o', 'm', 'l']
}

pub open spec fn tdrc() -> Seq<char> {
    seq!['.', 't', 'd', 'r', 'c']
}

/// Where a settings file is looked for, in order: `td/config.toml` in the
/// configuration directory and `.tdrc` in the home directory, each when that
/// directory is known.
pub open spec fn config_candidates(config_dir: Option<Seq<char>>, home: Option<Seq<char>>) -> Seq<
    Seq<char>,
> {
    (match config_dir {
        Some(c) => seq![joined_path(joined_path(c, td_dir()), config_toml())],
        None => seq![],
    }) + (match home {
        Some(h) => seq![joined_path(h, tdrc())],
        None => seq![],
    })
}

/// The places a settings file is looked for, given the configuration and
/// home directories.
pub fn config_candidates_in(config_dir: &Option<String>, home: &Option<String>) -> (r: Vec<String>)
    ensures
        string_views(r@) == config_candidates(option_text(*config_dir), option_text(*home)),
{
    let mut r: Vec<String> = Vec::new();
    match config_dir {
        Some(c) => {
            let td = "td";
            let file = "config.toml";
            proof {
                reveal_strlit("td");
                reveal_strlit("config.toml");
            }
            assert(td@ =~= td_dir());
            assert(file@ =~= config_toml());
            let dir = std_join(c.as_str(), td);
            r.push(std_join(dir.as_str(), file));
        },
        None => {},
    }
    let ghost first = string_views(r@);
    match home {
        Some(h) => {
            let rc = ".tdrc";
            proof {
                reveal_strlit(".tdrc");
            }
            assert(rc@ =~= tdrc());
            r.push(std_join(h.as_str(), rc));
            assert(string_views(r@) =~= first.push(joined_path(h@, tdrc())));
        },
        None => {},
    }
    assert(string_views(r@) =~= config_candidates(option_text(*config_dir), option_text(*home)));
    r
}

impl Default for Config {
    fn default() -> (c: Config)
        ensures
            c@ == default_config(),
    {
        let name = "todo.txt";
        proof {
            reveal_strlit("todo.txt");
        }
        assert(name@ =~= todo_txt());
        Config {
            todo_file: string_from(name),
            done_file: None,
            color: true,
            verbose: false,
            auto_archive: false,
            date_on_add: true,
        }
    }
}

impl Config {
    pub fn new() -> (c: Config)
        ensures
            c@ == default_config(),
    {
        Config::default()
    }

    pub fn with_file(self, path: String) -> (c: Config)
        ensures
            c@ == (ConfigView { todo_file: path@, ..self@ }),
    {
        let mut c = self;
        c.todo_file = path;
        c
    }

    pub fn with_color(self, color: bool) -> (c: Config)
        ensures
            c@ == (ConfigView { color, ..self@ }),
    {
        let mut c = self;
        c.color = color;
        c
    }

    pub fn with_verbose(self, verbose: bool) -> (c: Config)
        ensures
            c@ == (ConfigView { verbose, ..self@ }),
    {
        let mut c = self;
        c.verbose = verbose;
        c
    }

    /// The settings file: the first place it is looked for
    /// (`config_candidates`) that `is_file` says holds a file.
    pub fn default_path_in<F: Fn(&str) -> bool>(
        config_dir: &Option<String>,
        home: &Option<String>,
        is_file: &F,
    ) -> (r: Option<String>)
        requires
            forall|p: &str| is_file.requires((p,)),
        ensures
            first_found(
                *is_file,
                config_candidates(option_text(*config_dir), option_text(*home)),
                option_text(r),
            ),
    {
        let cs = config_candidates_in(config_dir, home);
        first_existing(&cs, is_file)
    }

    /// The settings file, looked for in the user's configuration and home
    /// directories.
    pub fn default_path<F: Fn(&str) -> bool>(is_file: &F) -> (r: Option<String>)
        requires
            forall|p: &str| is_file.requires((p,)),
        ensures
            exists|config_dir: Option<Seq<char>>, home: Option<Seq<char>>|
                first_found(*is_file, config_candidates(config_dir, home), option_text(r)),
    {
        let config_dir = dirs_config_dir();
        let home = dirs_home_dir();
        Config::default_path_in(&config_dir, &home, is_file)
    }

    /// The settings in the file at `path`: the defaults when `is_file` says
    /// there is none, else what `read` makes of it.
    pub fn load_from_file<F: Fn(&str) -> bool, G: Fn(&str) -> Result<Config, String>>(
        path: &str,
        is_file: &F,
        read: &G,
    ) -> (r: Result<Config, String>)
        requires
            is_file.requires((path,)),
            read.requires((path,)),
        ensures
            (is_file.ensures((path,), false) && is_defaults(r)) || (is_file.ensures((path,), true)
                && read.ensures((path,), r)),
    {
        if !is_file(path) {
            return Ok(Config::default());
        }
        read(path)
    }

    /// The settings, given the configuration and home directories: those of
    /// the settings file found there (read as `load_from_file` does), else
    /// the defaults.
    pub fn load_in<F: Fn(&str) -> bool, G: Fn(&str) -> Result<Config, String>>(
        config_dir: &Option<String>,
        home: &Option<String>,
        is_file: &F,
        read: &G,
    ) -> (r: Result<Config, String>)
        requires
            forall|p: &str| is_file.requires((p,)),
            forall|p: &str| read.requires((p,)),
        ensures
            exists|found: Option<Seq<char>>|
                first_found(
                    *is_file,
                    config_candidates(option_text(*config_dir), option_text(*home)),
                    found,
                ) && #[trigger] loaded_from(*is_file, *read, found, r),
    {
        let found = Config::default_path_in(config_dir, home, is_file);
        let r = match &found {
            Some(p) => Config::load_from_file(p.as_str(), is_file, read),
            None => Ok(Config::default()),
        };
        assert(loaded_from(*is_file, *read, option_text(found), r));
        r
    }

    /// The settings: those of the settings file when one is found in the
    /// user's configuration or home directory, else the defaults.
    pub fn load<F: Fn(&str) -> bool, G: Fn(&str) -> Result<Config, String>>(is_file: &F, read: &G) -> (r:
        Result<Config, String>)
        requires
            forall|p: &str| is_file.requires((p,)),
            forall|p: &str| read.requires((p,)),
        ensures
            exists|config_dir: Option<Seq<char>>, home: Option<Seq<char>>, found: Option<Seq<char>>|
                #[trigger] first_found(*is_file, config_candidates(config_dir, home), found)
                    && #[trigger] loaded_from(*is_file, *read, found, r),
    {
        let config_dir = dirs_config_dir();
        let home = dirs_home_dir();
        Config::load_in(&config_dir, &home, is_file, read)
    }

    /// The todo file's path, relative paths taken from `home`.
    pub fn todo_path_with_home(&self, home: &Option<String>) -> (r: String)
        ensures
            r@ == resolve_spec(self@.todo_file, option_text(*home)),
    {
        resolve_path(self.todo_file.as_str(), home)
    }

    /// The done file's path, relative paths taken from `home`.
    pub fn done_path_with_home(&self, home: &Option<String>) -> (r: String)
        ensures
            r@ == done_path_spec(self@, option_text(*home)),
    {
        match &self.done_file {
            Some(d) => resolve_path(d.as_str(), home),
            None => {
                let todo = self.todo_path_with_home(home);
                done_path_beside(todo.as_str())
            },
        }
    }

    /// The todo file's path, relative paths taken from the home directory.
    pub fn get_todo_path(&self) -> (r: String)
        ensures
            exists|home: Option<Seq<char>>| r@ == resolve_spec(self@.todo_file, home),
    {
        let home = dirs_home_dir();
        self.todo_path_with_home(&home)
    }

    /// The done file's path, relative paths taken from the home directory.
    pub fn get_done_path(&self) -> (r: String)
        ensures
            exists|home: Option<Seq<char>>| r@ == done_path_spec(self@, home),
    {
        let home = dirs_home_dir();
        self.done_path_with_home(&home)
    }
}

} // verus!
