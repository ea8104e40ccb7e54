use vstd::prelude::*;
use std::path::PathBuf;
use crate::sections::string_views;
use crate::text::{starts_with, substring};
use vstd::string::StrSliceExecFns;

verus! {

#[verifier::external_type_specification]
#[verifier::external_body]
pub struct ExPathBuf(PathBuf);

/// Configuration settings
#[derive(Debug)]
pub struct Config {
    pub logbook_path: PathBuf,
    pub todo_path: PathBuf,
    pub mvos: Vec<String>,
    pub delete_tasks: bool,
    pub automatic_completion_date: bool,
    pub template_path: Option<PathBuf>,
}

/// Calls `dirs::data_dir`: the user's data directory, when the platform and
/// environment give one. What it is depends on the environment, so nothing is
/// stated of it.
#[verifier::external_body]
fn user_data_dir() -> Option<PathBuf> {
    dirs::data_dir()
}

/// What `PathBuf::from` gives for a string.
pub uninterp spec fn path_of(s: Seq<char>) -> PathBuf;

/// What `Path::join` gives for a base path and a further part.
pub uninterp spec fn joined_path(base: PathBuf, part: Seq<char>) -> PathBuf;

/// Calls `PathBuf::from` on a string. The path depends on the string alone,
/// so its result is named.
#[verifier::external_body]
fn path_from(s: &str) -> (r: PathBuf)
    ensures
        r == path_of(s@),
{
    PathBuf::from(s)
}

/// Calls `Path::join`: `base` followed by `part`. The path depends on the two
/// arguments alone, so its result is named; what the joined path holds is not
/// stated.
#[verifier::external_body]
fn path_join(base: &PathBuf, part: &str) -> (r: PathBuf)
    ensures
        r == joined_path(*base, part@),
{
    base.join(part)
}

/// The directory that data goes under: the user's data directory when there
/// is one, else the working directory `.`.
pub open spec fn data_base(data_dir: Option<PathBuf>) -> PathBuf {
    match data_dir {
        Some(d) => d,
        None => path_of("."@),
    }
}

/// The default configuration for a data directory (`None` when the platform
/// gives none): data under `logfine` in that directory (or in the working
/// directory), the todo file `todo.txt` there, no minimum viable outputs, and
/// every option off.
pub fn config_for(data_dir: Option<PathBuf>) -> (r: Config)
    ensures
        r.logbook_path == joined_path(data_base(data_dir), "logfine"@),
        r.todo_path == joined_path(r.logbook_path, "todo.txt"@),
        r.mvos@.len() == 0,
        !r.delete_tasks,
        !r.automatic_completion_date,
        r.template_path is None,
{
    let data = match data_dir {
        Some(d) => d,
        None => path_from("."),
    };
    let base_dir = path_join(&data, "logfine");
    let todo_path = path_join(&base_dir, "todo.txt");
    Config {
        logbook_path: base_dir,
        todo_path,
        mvos: Vec::new(),
        delete_tasks: false,
        automatic_completion_date: false,
        template_path: None,
    }
}

/// The default configuration for the user's data directory, as the platform
/// gives it (see `config_for`).
pub fn default_config() -> (r: Config)
    ensures
        exists|d: Option<PathBuf>| r.logbook_path == joined_path(data_base(d), "logfine"@),
        r.todo_path == joined_path(r.logbook_path, "todo.txt"@),
        r.mvos@.len() == 0,
        !r.delete_tasks,
        !r.automatic_completion_date,
        r.template_path is None,
{
    let found = user_data_dir();
    let ghost d = found;
    let r = config_for(found);
    assert(r.logbook_path == joined_path(data_base(d), "logfine"@));
    r
}

impl Default for Config {
    fn default() -> (r: Config)
        ensures
            exists|d: Option<PathBuf>| r.logbook_path == joined_path(data_base(d), "logfine"@),
            r.todo_path == joined_path(r.logbook_path, "todo.txt"@),
            r.mvos@.len() == 0,
            !r.delete_tasks,
            !r.automatic_completion_date,
            r.template_path is None,
    {
        default_config()
    }
}

/// The three sample minimum viable outputs of a new configuration.
pub open spec fn sample_mvos() -> Seq<Seq<char>> {
    seq!["Read one chapter of a book"@, "Do some exercise"@, "One push commit to GitHub"@]
}

/// The configuration written when none exists, for a data directory: the
/// default one (`config_for`) with three sample minimum viable outputs.
pub fn initial_config_for(data_dir: Option<PathBuf>) -> (r: Config)
    ensures
        r.logbook_path == joined_path(data_base(data_dir), "logfine"@),
        r.todo_path == joined_path(r.logbook_path, "todo.txt"@),
        string_views(r.mvos@) == sample_mvos(),
        !r.delete_tasks,
        !r.automatic_completion_date,
        r.template_path is None,
{
    let mut c = config_for(data_dir);
    let mut mvos: Vec<String> = Vec::new();
    mvos.push("Read one chapter of a book".to_owned());
    mvos.push("Do some exercise".to_owned());
    mvos.push("One push commit to GitHub".to_owned());
    c.mvos = mvos;
    proof {
        assert(string_views(c.mvos@) =~= sample_mvos());
    }
    c
}

/// The configuration written when none exists, for the user's data directory
/// as the platform gives it (see `initial_config_for`).
pub fn initial_config() -> (r: Config)
    ensures
        exists|d: Option<PathBuf>| r.logbook_path == joined_path(data_base(d), "logfine"@),
        r.todo_path == joined_path(r.logbook_path, "todo.txt"@),
        string_views(r.mvos@) == sample_mvos(),
        !r.delete_tasks,
        !r.automatic_completion_date,
        r.template_path is None,
{
    let found = user_data_dir();
    let ghost d = found;
    let r = initial_config_for(found);
    assert(r.logbook_path == joined_path(data_base(d), "logfine"@));
    r
}

/// Whether `c` is the configuration written when none exists, for a data
/// directory: the default paths, the sample minimum viable outputs, every
/// option off and no template.
pub open spec fn is_initial_config(c: Config, data_dir: Option<PathBuf>) -> bool {
    &&& c.logbook_path == joined_path(data_base(data_dir), "logfine"@)
    &&& c.todo_path == joined_path(c.logbook_path, "todo.txt"@)
    &&& string_views(c.mvos@) == sample_mvos()
    &&& !c.delete_tasks
    &&& !c.automatic_completion_date
    &&& c.template_path is None
}

/// Whether `r` is what loading the configuration decides, given the
/// configuration read from the file (`None` when there is no file): the one
/// read, written nowhere; or, without a file, the initial configuration for
/// the data directory, to be written.
pub open spec fn load_decision(found: Option<Config>, data_dir: Option<PathBuf>, r: (Config, bool)) -> bool {
    match found {
        Some(c) => r.0 == c && !r.1,
        None => is_initial_config(r.0, data_dir) && r.1,
    }
}

/// Decides which configuration to use, given the configuration read from the
/// configuration file (`None` when there is no such file) and the data
/// directory: the configuration read; or, without a file, the initial
/// configuration, which is then to be written (the flag says so).
pub fn settle_config(found: Option<Config>, data_dir: Option<PathBuf>) -> (r: (Config, bool))
    ensures
        load_decision(found, data_dir, r),
{
    match found {
        Some(c) => (c, false),
        None => (initial_config_for(data_dir), true),
    }
}

/// Loading the configuration a second time gives the one the first load
/// wrote: a load without a file writes the initial configuration, and a load
/// that reads that configuration back keeps it and writes nothing.
pub proof fn law_second_load_keeps_config(
    data_dir: Option<PathBuf>,
    first: (Config, bool),
    second: (Config, bool),
)
    requires
        load_decision(None, data_dir, first),
        load_decision(Some(first.0), data_dir, second),
    ensures
        first.1,
        is_initial_config(first.0, data_dir),
        second.0 == first.0,
        !second.1,
{
}

/// What `Path::to_str` gives for a path: its text, when the path is valid
/// Unicode.
pub uninterp spec fn path_text(p: PathBuf) -> Option<Seq<char>>;

/// Calls `Path::to_str` and copies the text. The text depends on the path
/// alone, so it is named.
#[verifier::external_body]
fn path_str(p: &PathBuf) -> (r: Option<String>)
    ensures
        match r {
            Some(t) => path_text(*p) == Some(t@),
            None => path_text(*p) is None,
        },
{
    match p.to_str() {
        Some(t) => Some(t.to_owned()),
        None => None,
    }
}

/// The template file that a configured path names: a path written as
/// `~/rest` stands for `rest` under the home directory, when there is one;
/// any other path stands for itself.
pub open spec fn resolved_template(path: PathBuf, home: Option<PathBuf>) -> PathBuf {
    match (path_text(path), home) {
        (Some(t), Some(h)) => if starts_with(t, seq!['~', '/']) {
            joined_path(h, t.skip(2))
        } else {
            path
        },
        _ => path,
    }
}

/// Resolves a configured template path against the home directory (`None`
/// when the platform gives none): `~/rest` becomes `rest` under it.
pub fn resolve_template_path(path: PathBuf, home: Option<PathBuf>) -> (r: PathBuf)
    ensures
        r == resolved_template(path, home),
{
    let ghost p = path;
    match path_str(&path) {
        Some(t) => {
            let n = t.as_str().unicode_len();
            let tilde = n >= 2 && t.as_str().get_char(0) == '~' && t.as_str().get_char(1) == '/';
            proof {
                if tilde {
                    assert(t@.take(2) =~= seq!['~', '/']);
                }
                if starts_with(t@, seq!['~', '/']) {
                    assert(t@.take(2)[0] == t@[0] && t@.take(2)[1] == t@[1]);
                }
            }
            if tilde {
                match home {
                    Some(h) => {
                        let rest = substring(t.as_str(), 2, n);
                        proof {
                            assert(rest@ =~= t@.skip(2));
                        }
                        path_join(&h, rest.as_str())
                    },
                    None => path,
                }
            } else {
                path
            }
        },
        None => path,
    }
}

} // verus!
