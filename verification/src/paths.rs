//! Where the callback server's script and the authorization-code files
//! are.
use vstd::prelude::*;
use crate::text::opt_text;

verus! {

/// What `Path::parent` gives for the path `p`: the path without its last
/// component, or nothing for a root or an empty path.
pub uninterp spec fn parent_path(p: Seq<char>) -> Option<Seq<char>>;

/// What `Path::join` gives: `part` added to `base` after a separator,
/// or `part` alone when it is absolute.
pub uninterp spec fn joined_path(base: Seq<char>, part: Seq<char>) -> Seq<char>;

/// `Path::parent` of the path `p`. The platform's path rules decide the
/// result; they are left unsaid.
#[verifier::external_body]
fn path_parent(p: &str) -> (r: Option<String>)
    ensures
        match r {
            Some(q) => parent_path(p@) == Some(q@),
            None => parent_path(p@) is None,
        },
{
    std::path::Path::new(p).parent().map(|q| q.to_string_lossy().into_owned())
}

/// `Path::join` of `part` to `base`. The platform's path rules decide the
/// result; they are left unsaid.
#[verifier::external_body]
fn path_join(base: &str, part: &str) -> (r: String)
    ensures
        r@ == joined_path(base@, part@),
{
    std::path::Path::new(base).join(part).to_string_lossy().into_owned()
}

/// The file `name` in the `callback` directory beside the project
/// directory `manifest_dir`, or nothing when that has no parent.
pub open spec fn callback_file(manifest_dir: Seq<char>, name: Seq<char>) -> Option<Seq<char>> {
    match parent_path(manifest_dir) {
        Some(p) => Some(joined_path(joined_path(p, "callback"@), name)),
        None => None,
    }
}

fn callback_file_exec(manifest_dir: &str, name: &str) -> (r: Option<String>)
    ensures
        match r {
            Some(q) => callback_file(manifest_dir@, name@) == Some(q@),
            None => callback_file(manifest_dir@, name@) is None,
        },
{
    match path_parent(manifest_dir) {
        Some(p) => {
            let dir = path_join(&p, "callback");
            Some(path_join(&dir, name))
        },
        None => None,
    }
}

/// The script of the callback server: `callback/https_server.py` beside
/// the project directory, or nothing when that has no parent.
pub fn callback_server_script_path(manifest_dir: &str) -> (r: Option<String>)
    ensures
        match r {
            Some(q) => callback_file(manifest_dir@, "https_server.py"@) == Some(q@),
            None => callback_file(manifest_dir@, "https_server.py"@) is None,
        },
{
    callback_file_exec(manifest_dir, "https_server.py")
}

/// The application's own directory inside the user's data directory.
pub fn app_data_dir(data_dir: &str) -> (r: String)
    ensures
        r@ == joined_path(data_dir@, "orpheus-buddy"@),
{
    path_join(data_dir, "orpheus-buddy")
}

/// Where the authorization code `name` is left: in the application's
/// directory inside the user's data directory, when there is one; else in
/// the `callback` directory beside the project directory.
pub open spec fn code_file(data_dir: Option<Seq<char>>, manifest_dir: Seq<char>, name: Seq<char>) -> Option<
    Seq<char>,
> {
    match data_dir {
        Some(d) => Some(joined_path(joined_path(d, "orpheus-buddy"@), name)),
        None => callback_file(manifest_dir, name),
    }
}

fn code_file_exec(data_dir: &Option<String>, manifest_dir: &str, name: &str) -> (r: Option<String>)
    ensures
        match r {
            Some(q) => code_file(opt_text(*data_dir), manifest_dir@, name@) == Some(q@),
            None => code_file(opt_text(*data_dir), manifest_dir@, name@) is None,
        },
{
    match data_dir {
        Some(d) => {
            let dir = app_data_dir(d);
            Some(path_join(&dir, name))
        },
        None => callback_file_exec(manifest_dir, name),
    }
}

/// The file in which the callback server leaves the Hack Club
/// authorization code.
pub fn callback_auth_code_path(data_dir: &Option<String>, manifest_dir: &str) -> (r: Option<String>)
    ensures
        match r {
            Some(q) => code_file(opt_text(*data_dir), manifest_dir@, "hackclub_auth_code.txt"@)
                == Some(q@),
            None => code_file(opt_text(*data_dir), manifest_dir@, "hackclub_auth_code.txt"@) is None,
        },
{
    code_file_exec(data_dir, manifest_dir, "hackclub_auth_code.txt")
}

/// The Hack Club code file beside the callback server's script, looked
/// for when the one in the data directory is missing.
pub fn callback_auth_code_fallback_path(manifest_dir: &str) -> (r: Option<String>)
    ensures
        match r {
            Some(q) => callback_file(manifest_dir@, "hackclub_auth_code.txt"@) == Some(q@),
            None => callback_file(manifest_dir@, "hackclub_auth_code.txt"@) is None,
        },
{
    callback_file_exec(manifest_dir, "hackclub_auth_code.txt")
}

/// The file in which the callback server leaves the Slack authorization
/// code.
pub fn slack_auth_code_path(data_dir: &Option<String>, manifest_dir: &str) -> (r: Option<String>)
    ensures
        match r {
            Some(q) => code_file(opt_text(*data_dir), manifest_dir@, "slack_auth_code.txt"@)
                == Some(q@),
            None => code_file(opt_text(*data_dir), manifest_dir@, "slack_auth_code.txt"@) is None,
        },
{
    code_file_exec(data_dir, manifest_dir, "slack_auth_code.txt")
}

// ---------------------------------------------------------------------
// Starting the callback server
// ---------------------------------------------------------------------

/// The interpreters with which the callback server's script is started,
/// in the order they are tried.
pub open spec fn interpreters() -> Seq<Seq<char>> {
    seq!["python"@, "py"@, "python3"@]
}

/// How many interpreters are tried.
pub const INTERPRETER_COUNT: usize = 3;

/// What starting the callback server came to.
#[derive(Clone, Copy, Debug, PartialEq, Eq, Structural)]
pub enum LaunchOutcome {
    /// The script is not where it should be.
    ScriptMissing,
    /// The server runs.
    Started,
    /// None of the interpreters could be started.
    NoInterpreter,
}

/// What starting the callback server does next.
pub enum LaunchStep {
    /// Start the script with this interpreter and hand back whether it
    /// started.
    Spawn(String),
    /// It is over.
    Done(LaunchOutcome),
}

/// Starting the callback server: each interpreter in turn until one
/// starts.
pub struct CallbackServerLaunch {
    /// The interpreter whose start is awaited.
    pub at: usize,
}

fn interpreter(i: usize) -> (r: &'static str)
    requires
        i < INTERPRETER_COUNT,
    ensures
        r@ == interpreters()[i as int],
{
    if i == 0 {
        "python"
    } else if i == 1 {
        "py"
    } else {
        "python3"
    }
}

impl CallbackServerLaunch {
    /// Begins: without the script there is nothing to start; else the
    /// first interpreter is tried.
    pub fn start(script_exists: bool) -> (r: (CallbackServerLaunch, LaunchStep))
        ensures
            r.0.at == 0,
            !script_exists ==> r.1 == LaunchStep::Done(LaunchOutcome::ScriptMissing),
            script_exists ==> (r.1 matches LaunchStep::Spawn(p) && p@ == interpreters()[0]),
    {
        if !script_exists {
            (CallbackServerLaunch { at: 0 }, LaunchStep::Done(LaunchOutcome::ScriptMissing))
        } else {
            (CallbackServerLaunch { at: 0 }, LaunchStep::Spawn(crate::text::owned(interpreter(0))))
        }
    }

    /// Takes whether the last interpreter tried started: then the server
    /// runs; else the next one is tried, and after the last there is none.
    pub fn on_spawn(&mut self, started: bool) -> (r: LaunchStep)
        requires
            old(self).at < INTERPRETER_COUNT,
        ensures
            final(self).at < INTERPRETER_COUNT,
            started ==> r == LaunchStep::Done(LaunchOutcome::Started),
            !started && old(self).at + 1 < INTERPRETER_COUNT ==> (r matches LaunchStep::Spawn(p)
                && p@ == interpreters()[old(self).at + 1] && final(self).at == old(self).at + 1),
            !started && old(self).at + 1 >= INTERPRETER_COUNT ==> r == LaunchStep::Done(
                LaunchOutcome::NoInterpreter,
            ),
    {
        if started {
            LaunchStep::Done(LaunchOutcome::Started)
        } else if self.at + 1 < INTERPRETER_COUNT {
            self.at = self.at + 1;
            LaunchStep::Spawn(crate::text::owned(interpreter(self.at)))
        } else {
            LaunchStep::Done(LaunchOutcome::NoInterpreter)
        }
    }
}

} // verus!
