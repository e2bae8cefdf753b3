//! The shell's control channel.
//!
//! A unix socket, one JSON object per line, request and response matched by `id`.
//!
//! ```text
//! -> {"id":1,"request":"get_outputs"}
//! <- {"id":1,"ok":{"outputs":[{"name":"HDMIA-1","current":{"w":1360,"h":768,"refresh":60000},...}]}}
//! -> {"id":2,"request":"set_mode","output":"HDMIA-1","w":1920,"h":1080}
//! <- {"id":2,"ok":null}
//! -> {"id":3,"request":"nonsense"}
//! <- {"id":3,"error":"unknown request"}
//! ```

use vstd::prelude::*;
use crate::state::{Focus, FocusName, PlaceKey, Rect};
use crate::text;

pub use crate::ipc::framing::{next_line, unterminated_too_long, MAX_LINE};
pub use crate::ipc::reply::{reply, HdrInfo, ModeInfo, OutputInfo};
pub use crate::ipc::request::{parse_line, place_target, FocusOwner, Parsed, Request};

pub mod connection;
pub mod framing;
pub mod members;
pub mod payload;
pub mod reply;
pub mod request;

verus! {

/// What the compositor has to do for a request.
#[derive(Debug, PartialEq, Eq)]
#[allow(inconsistent_fields)]
pub enum Action {
    /// Report the outputs.
    ReportOutputs,
    /// Drive an output at a different mode.
    SetMode { output: String, w: i32, h: i32, refresh: Option<i32> },
    /// Claim an output's colour space, or give it back.
    SetHdr { output: String, on: bool },
    /// Report the state.
    ReportState,
    /// Windows under a key go in a rectangle from now on, or on the whole output.
    Place { key: PlaceKey, rect: Option<Rect> },
    /// Type a string.
    Type { text: String, select_all: bool },
    /// Render the scene to a file.
    Capture { path: String },
    /// Somebody owns the screen now.
    SetFocus { focus: Focus },
}

/// Who owns the screen, as a `set_focus` request says it: an app that is not named has an
/// empty name.
pub open spec fn focus_asked(owner: FocusOwner, app: Option<Seq<char>>) -> FocusName {
    match owner {
        FocusOwner::Launcher => FocusName::Launcher,
        FocusOwner::App => FocusName::App(
            match app {
                Some(app) => app,
                None => Seq::empty(),
            },
        ),
    }
}

/// Whether doing an action is doing what was asked.
pub open spec fn does(action: Action, asked: request::Asked, shell: Seq<char>) -> bool {
    match (action, asked) {
        (Action::ReportOutputs, request::Asked::GetOutputs) => true,
        (Action::ReportState, request::Asked::GetState) => true,
        (
            Action::SetMode { output, w, h, refresh },
            request::Asked::SetMode { output: name, w: width, h: height, refresh: rate },
        ) => output@ == name && w == width && h == height && refresh == rate,
        (
            Action::SetHdr { output, on },
            request::Asked::SetHdr { output: name, on: claimed },
        ) => output@ == name && on == claimed,
        (
            Action::Place { key, rect },
            request::Asked::PlaceWindow { app_id, title, x, y, w, h },
        ) => request::target_of(shell, app_id, title, x, y, w, h) == request::Target::At(
            key@,
            rect,
        ),
        (
            Action::Type { text, select_all },
            request::Asked::TypeText { text: wanted, select_all: replace },
        ) => text@ == wanted && select_all == replace,
        (Action::Capture { path }, request::Asked::Screenshot { path: wanted }) => path@ == wanted,
        (Action::SetFocus { focus }, request::Asked::SetFocus { owner, app }) => focus@
            == focus_asked(owner, app),
        _ => false,
    }
}

/// Why nothing is done about a request, where nothing is: a placement that does not hold
/// together.
pub open spec fn objection(asked: request::Asked, shell: Seq<char>) -> Option<Seq<char>> {
    match asked {
        request::Asked::PlaceWindow { app_id, title, x, y, w, h } => match request::target_of(
            shell,
            app_id,
            title,
            x,
            y,
            w,
            h,
        ) {
            request::Target::Refused(why) => Some(why),
            request::Target::At(_, _) => None,
        },
        _ => None,
    }
}

/// What to do about a request. `shell` is the shell's own app id.
pub fn dispatch(request: Request, shell: &str) -> (r: Result<Action, String>)
    ensures
        match r {
            Ok(action) => objection(request@, shell@) is None && does(action, request@, shell@),
            Err(why) => objection(request@, shell@) == Some(why@),
        },
        match request {
            Request::GetOutputs => r matches Ok(Action::ReportOutputs),
            Request::GetState => r matches Ok(Action::ReportState),
            Request::SetMode { output, w, h, refresh } => {
                &&& r matches Ok(Action::SetMode { output: name, w: width, h: height, refresh: rate })
                &&& name@ == output@ && width == w && height == h && rate == refresh
            },
            Request::SetHdr { output, on } => {
                &&& r matches Ok(Action::SetHdr { output: name, on: claim })
                &&& name@ == output@ && claim == on
            },
            Request::TypeText { text, select_all } => {
                &&& r matches Ok(Action::Type { text: typed, select_all: replace })
                &&& typed@ == text@ && replace == select_all
            },
            Request::Screenshot { path } => {
                &&& r matches Ok(Action::Capture { path: file })
                &&& file@ == path@
            },
            Request::SetFocus { owner, app } => {
                &&& r matches Ok(Action::SetFocus { focus })
                &&& match owner {
                    FocusOwner::Launcher => focus@ == FocusName::Launcher,
                    FocusOwner::App => focus@ == FocusName::App(
                        match app {
                            Some(app) => app@,
                            None => Seq::empty(),
                        },
                    ),
                }
            },
            Request::PlaceWindow { app_id, title, x, y, w, h } => request::is_placed_as_asked(
                shell@,
                text::owned(app_id),
                text::owned(title),
                x,
                y,
                w,
                h,
                match r {
                    Ok(Action::Place { key, rect }) => request::Target::At(key@, rect),
                    Ok(_) => request::Target::Refused(Seq::empty()),
                    Err(why) => request::Target::Refused(why@),
                },
            ),
        },
{
    match request {
        Request::GetOutputs => Ok(Action::ReportOutputs),
        Request::SetMode { output, w, h, refresh } => Ok(
            Action::SetMode { output, w, h, refresh },
        ),
        Request::SetHdr { output, on } => Ok(Action::SetHdr { output, on }),
        Request::GetState => Ok(Action::ReportState),
        Request::PlaceWindow { app_id, title, x, y, w, h } => match request::place_target(
            shell,
            app_id,
            title,
            x,
            y,
            w,
            h,
        ) {
            Ok((key, rect)) => Ok(Action::Place { key, rect }),
            Err(why) => Err(why),
        },
        Request::TypeText { text, select_all } => Ok(Action::Type { text, select_all }),
        Request::Screenshot { path } => Ok(Action::Capture { path }),
        Request::SetFocus { owner, app } => {
            let focus = match owner {
                FocusOwner::Launcher => Focus::Launcher,
                FocusOwner::App => Focus::App(
                    match app {
                        Some(app) => app,
                        None => String::new(),
                    },
                ),
            };
            Ok(Action::SetFocus { focus })
        },
    }
}

/// What a line comes to.
#[derive(Debug, PartialEq, Eq)]
pub enum Handled {
    /// An answer, which is empty where the line asks for nothing.
    Answer(String),
    /// Something to do, and the `id` to answer with when it is done.
    Act(Option<u64>, Action),
}

/// Whether what a line came to is right, given what it asks for.
pub open spec fn handled_as(
    handled: Handled,
    meaning: request::Meaning,
    shell: Seq<char>,
) -> bool {
    match meaning {
        request::Meaning::Refused(id, why) => {
            &&& handled matches Handled::Answer(text)
            &&& reply::reads_as(text@, reply::reply_tree(id, Err(why)))
        },
        request::Meaning::Request(id, asked) => match objection(asked, shell) {
            Some(why) => {
                &&& handled matches Handled::Answer(text)
                &&& reply::reads_as(text@, reply::reply_tree(id, Err(why)))
            },
            None => {
                &&& handled matches Handled::Act(number, action)
                &&& reply::id_of(number) == id
                &&& does(action, asked, shell)
            },
        },
    }
}

/// What a decoded line comes to.
pub fn handle_decoded(decoded: request::Decoded, shell: &str) -> (r: Handled)
    ensures
        handled_as(r, decoded@, shell@),
{
    match decoded {
        request::Decoded::Refused(id, why) => Handled::Answer(reply::reply(id, Err(why))),
        request::Decoded::Request(id, request) => match dispatch(request, shell) {
            Ok(action) => Handled::Act(id, action),
            Err(why) => Handled::Answer(reply::reply(id, Err(why))),
        },
    }
}

/// Decode a line and work out what to do about it. A blank line is not answered.
pub fn handle_line(line: &[u8], shell: &str) -> (r: Handled)
    ensures
        if request::is_blank_line(line@) {
            r matches Handled::Answer(text) && text@.len() == 0
        } else {
            handled_as(r, request::meaning_of_line(line@), shell@)
        },
{
    match request::parse_line(line) {
        Parsed::Blank => Handled::Answer(String::new()),
        Parsed::Invalid(answer) => Handled::Answer(answer),
        Parsed::Request(id, request) => handle_decoded(
            request::Decoded::Request(id, request),
            shell,
        ),
    }
}

/// What is done is what was asked, with the very arguments of the request, and nothing is
/// refused but a placement that does not hold together.
pub proof fn law_what_was_asked_is_done(
    action: Action,
    asked: request::Asked,
    shell: Seq<char>,
)
    requires
        does(action, asked, shell),
    ensures
        match asked {
            request::Asked::GetOutputs => action is ReportOutputs,
            request::Asked::GetState => action is ReportState,
            request::Asked::SetMode { output, w, h, refresh } => {
                &&& action matches Action::SetMode { output: name, w: width, h: height, refresh: rate }
                &&& name@ == output && width == w && height == h && rate == refresh
            },
            request::Asked::SetHdr { output, on } => {
                &&& action matches Action::SetHdr { output: name, on: claim }
                &&& name@ == output && claim == on
            },
            request::Asked::TypeText { text, select_all } => {
                &&& action matches Action::Type { text: typed, select_all: replace }
                &&& typed@ == text && replace == select_all
            },
            request::Asked::Screenshot { path } => {
                &&& action matches Action::Capture { path: file }
                &&& file@ == path
            },
            request::Asked::SetFocus { owner, app } => {
                &&& action matches Action::SetFocus { focus }
                &&& match owner {
                    FocusOwner::Launcher => focus@ == FocusName::Launcher,
                    FocusOwner::App => focus@ matches FocusName::App(name) && match app {
                        Some(app) => name == app,
                        None => name.len() == 0,
                    },
                }
            },
            request::Asked::PlaceWindow { app_id, title, x, y, w, h } => {
                &&& action matches Action::Place { key, rect }
                &&& request::is_placed_as_asked(
                    shell,
                    app_id,
                    title,
                    x,
                    y,
                    w,
                    h,
                    request::Target::At(key@, rect),
                )
            },
        },
        !(asked is PlaceWindow) ==> objection(asked, shell) is None,
{
    if let request::Asked::PlaceWindow { app_id, title, x, y, w, h } = asked {
        request::law_windows_go_where_they_are_put(shell, app_id, title, x, y, w, h);
    }
}

/// A placement is refused exactly where it does not hold together.
pub proof fn law_only_a_bad_placement_is_refused(asked: request::Asked, shell: Seq<char>)
    ensures
        objection(asked, shell) matches Some(why) ==> {
            &&& asked matches request::Asked::PlaceWindow { app_id, title, x, y, w, h }
            &&& request::is_placed_as_asked(
                shell,
                app_id,
                title,
                x,
                y,
                w,
                h,
                request::Target::Refused(why),
            )
        },
{
    if let request::Asked::PlaceWindow { app_id, title, x, y, w, h } = asked {
        request::law_windows_go_where_they_are_put(shell, app_id, title, x, y, w, h);
    }
}

/// A line is either answered or acted on, never both; it is acted on exactly where it asks for
/// something that can be done, and answered with its own `id`.
pub proof fn law_a_line_is_answered_or_acted_on(
    handled: Handled,
    meaning: request::Meaning,
    shell: Seq<char>,
)
    requires
        handled_as(handled, meaning, shell),
    ensures
        handled is Act <==> (meaning matches request::Meaning::Request(_, asked) && objection(
            asked,
            shell,
        ) is None),
        handled matches Handled::Act(number, action) ==> {
            &&& meaning matches request::Meaning::Request(id, asked)
            &&& does(action, asked, shell)
            &&& match number {
                Some(n) => id == Some(n as nat),
                None => id is None,
            }
        },
{
}

}
