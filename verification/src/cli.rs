//! The command line.
//!
//! Deliberately tiny: this is started by greetd, with one argument shape.

use vstd::prelude::*;
use crate::text;

verus! {

/// How the compositor was asked to run.
#[derive(Debug, PartialEq, Eq)]
pub struct Options {
    /// The session to start once the compositor is up, if any.
    ///
    /// Everything after `--`. When it exits the compositor stops - a session that has
    /// ended is the end of the session.
    pub session: Option<Vec<String>>,
}

/// What to do instead of running.
#[derive(Debug, Clone, Copy, PartialEq, Eq, Structural)]
pub enum Early {
    /// Print usage.
    Help,
    /// Print the version.
    Version,
}

impl Default for Options {
    fn default() -> (r: Self)
        ensures
            r.session is None,
    {
        Options { session: None }
    }
}

/// What a command line asks for.
#[verifier::ext_equal]
pub enum Wish {
    /// Run, with a session or without.
    Run(Option<Seq<Seq<char>>>),
    /// Print something and stop.
    Stop(Early),
    /// It cannot be understood.
    Mistake(Seq<char>),
}

/// What the arguments ask for: nothing but the first one is ever looked at, and what
/// follows `--` is the session's.
pub open spec fn wish(args: Seq<Seq<char>>) -> Wish {
    if args.len() == 0 {
        Wish::Run(None)
    } else if args[0] == "--"@ {
        if args.len() == 1 {
            Wish::Mistake("-- needs a command after it"@)
        } else {
            Wish::Run(Some(args.drop_first()))
        }
    } else if args[0] == "-h"@ || args[0] == "--help"@ {
        Wish::Stop(Early::Help)
    } else if args[0] == "-V"@ || args[0] == "--version"@ {
        Wish::Stop(Early::Version)
    } else {
        Wish::Mistake("unknown argument: "@ + args[0])
    }
}

/// What parsed arguments say.
pub open spec fn wished(parsed: Result<(Options, Option<Early>), String>) -> Wish {
    match parsed {
        Ok((options, None)) => Wish::Run(
            match options.session {
                Some(session) => Some(text::texts(session@)),
                None => None,
            },
        ),
        Ok((_, Some(early))) => Wish::Stop(early),
        Err(why) => Wish::Mistake(why@),
    }
}

/// Parse the arguments, without the program name.
pub fn parse(args: Vec<String>) -> (r: Result<(Options, Option<Early>), String>)
    ensures
        wished(r) == wish(text::texts(args@)),
        r matches Ok((options, Some(_))) ==> options.session is None,
{
    let ghost all = text::texts(args@);
    let mut args = args;
    if args.len() == 0 {
        return Ok((Options::default(), None));
    }
    let arg = args.remove(0);
    if text::same(arg.as_str(), "--") {
        if args.len() == 0 {
            return Err("-- needs a command after it".to_owned());
        }
        assert(text::texts(args@) == all.drop_first());
        return Ok((Options { session: Some(args) }, None));
    }
    if text::same(arg.as_str(), "-h") || text::same(arg.as_str(), "--help") {
        return Ok((Options::default(), Some(Early::Help)));
    }
    if text::same(arg.as_str(), "-V") || text::same(arg.as_str(), "--version") {
        return Ok((Options::default(), Some(Early::Version)));
    }
    let mut why = "unknown argument: ".to_owned();
    why.append(arg.as_str());
    Err(why)
}

/// A session that is started has a command to run.
pub proof fn law_a_session_is_never_empty(args: Seq<Seq<char>>)
    ensures
        wish(args) matches Wish::Run(Some(session)) ==> session.len() > 0,
{
}

/// The usage text.
pub const USAGE: &'static str = "\
tvbox-wc - the Wayland compositor for the tvbox

Usage: tvbox-wc [OPTIONS] [-- COMMAND [ARGS...]]

  -- COMMAND    start COMMAND once the compositor is up, and stop when it exits
  -h, --help    print this
  -V, --version print the version
";

/// Where the log goes.
#[derive(Debug, PartialEq, Eq)]
pub enum Log {
    /// To this file.
    File(String),
    /// To a file in a directory, where that directory exists, else nowhere.
    FileIn { dir: String, file: String },
    /// Nowhere: the output stays on stdout.
    Stdout,
}

/// Where the log goes: the file that is named, else `wc.log` in `.tvbox` at home when
/// that directory exists (a box), else nowhere (a dev machine).
pub fn log_target(named: Option<String>, home: Option<String>) -> (r: Log)
    ensures
        match r {
            Log::File(file) => named matches Some(path) && path@.len() > 0 && file@ == path@,
            Log::FileIn { dir, file } => {
                &&& named matches Some(path) ==> path@.len() == 0
                &&& home matches Some(home)
                &&& dir@ == text::joined_path(home@, ".tvbox"@)
                &&& file@ == text::joined_path(dir@, "wc.log"@)
            },
            Log::Stdout => {
                &&& named matches Some(path) ==> path@.len() == 0
                &&& home is None
            },
        },
{
    match named {
        Some(path) => if !path.as_str().is_empty() {
            return Log::File(path);
        },
        None => {},
    }
    match home {
        Some(home) => {
            let dir = text::join_path(home.as_str(), ".tvbox");
            let file = text::join_path(dir.as_str(), "wc.log");
            Log::FileIn { dir, file }
        },
        None => Log::Stdout,
    }
}

/// What follows `--` is the session, word for word; without it there is none.
pub proof fn law_the_session_is_what_follows(session: Seq<Seq<char>>)
    ensures
        session.len() > 0 ==> wish(seq!["--"@] + session) == Wish::Run(Some(session)),
        wish(seq!["--"@]) == Wish::Mistake("-- needs a command after it"@),
        wish(Seq::empty()) == Wish::Run(None),
{
    let all = seq!["--"@] + session;
    assert(all[0] == "--"@);
    assert(all.drop_first() =~= session);
}

/// Anything else is a mistake, unless it asks for the usage text or the version.
pub proof fn law_what_is_not_understood_is_refused(args: Seq<Seq<char>>)
    requires
        args.len() > 0,
        args[0] != "--"@,
    ensures
        wish(args) == Wish::Stop(Early::Help) <==> args[0] == "-h"@ || args[0] == "--help"@,
        wish(args) == Wish::Stop(Early::Version) <==> args[0] == "-V"@ || args[0]
            == "--version"@,
        !(wish(args) is Stop) ==> wish(args) == Wish::Mistake("unknown argument: "@ + args[0]),
        !(wish(args) is Run),
{
    reveal_strlit("-h");
    reveal_strlit("--help");
    reveal_strlit("-V");
    reveal_strlit("--version");
    assert("-h"@.len() == 2 && "-h"@[1] == 'h');
    assert("-V"@.len() == 2 && "-V"@[1] == 'V');
    assert("--help"@.len() == 6 && "--version"@.len() == 9);
}

/// What comes of the arguments is what they ask for: a session is run as it was given, what is
/// printed is what was asked for, and a mistake is told.
pub proof fn law_a_wish_is_what_was_parsed(parsed: Result<(Options, Option<Early>), String>)
    ensures
        match wished(parsed) {
            Wish::Run(Some(session)) => {
                &&& parsed matches Ok((options, None))
                &&& options.session matches Some(words)
                &&& words@.len() == session.len()
                &&& forall|i: int| 0 <= i < session.len() ==> words@[i]@ == #[trigger] session[i]
            },
            Wish::Run(None) => parsed matches Ok((options, None)) && options.session is None,
            Wish::Stop(early) => parsed matches Ok((_, Some(which))) && which == early,
            Wish::Mistake(why) => parsed matches Err(text) && text@ == why,
        },
{
}

}
