//! What the shell asks for.

use vstd::prelude::*;
use crate::ipc::members;
use crate::ipc::reply;
use crate::json;
use crate::json::{Json, Tree};
use crate::state::{PlaceKey, PlaceName, Rect};
use crate::text;

verus! {

/// A request from the shell.
#[derive(Debug, PartialEq, Eq)]
#[allow(inconsistent_fields)]
pub enum Request {
    /// Everything the shell needs to decide what to ask for.
    GetOutputs,
    /// Drive the output at a different mode.
    ///
    /// The refresh rate is optional: a TV usually offers one rate per size, and the
    /// shell should not have to know which of 59.94 and 60 the kernel reports.
    SetMode {
        /// Connector name, as reported by `get_outputs`.
        output: String,
        /// Width in pixels.
        w: i32,
        /// Height in pixels.
        h: i32,
        /// Refresh rate in mHz, if it matters.
        refresh: Option<i32>,
    },
    /// What the compositor is currently told and doing.
    GetState,
    /// Where windows go: a rectangle, or the whole output.
    ///
    /// Named by `app_id` (every window of that client) or by `title` (the one
    /// window carrying it). A title is what places a single window of a client with
    /// several - the shell's, whose windows all share one app id.
    PlaceWindow {
        /// The client's Wayland app id (`mpv` for the player).
        app_id: Option<String>,
        /// One window's title, when an app id would be too broad.
        title: Option<String>,
        /// Left edge, in output pixels. All four are needed for a rectangle;
        /// leaving them out puts the client back on the whole output.
        x: Option<i32>,
        /// Top edge.
        y: Option<i32>,
        /// Width.
        w: Option<i32>,
        /// Height.
        h: Option<i32>,
    },
    /// Type a string into the focused field.
    TypeText {
        /// What to type.
        text: String,
        /// Replace what the field already holds instead of appending to it.
        select_all: bool,
    },
    /// Render the scene to a PNG, for looking at the screen from a terminal.
    Screenshot {
        /// Where to write it.
        path: String,
    },
    /// Tell the compositor who owns the screen.
    ///
    /// It cannot work this out for itself: the launcher and an app can be windows
    /// of the same process, and "an app is on screen" is the shell's own state.
    SetFocus {
        /// The launcher, or an app.
        owner: FocusOwner,
        /// Which app, when it is one.
        app: Option<String>,
    },
    /// Claim the output's colour space for HDR content, or give it back.
    ///
    /// A claim, not a setting: the colour space covers the whole output, so an SDR
    /// UI is read as PQ for as long as it is held.
    SetHdr {
        /// Connector name.
        output: String,
        /// Whether to claim it.
        on: bool,
    },
}

/// Who the shell says owns the screen.
#[derive(Debug, Clone, Copy, PartialEq, Eq, Structural)]
pub enum FocusOwner {
    /// The launcher's own UI.
    Launcher,
    /// An app.
    App,
}

/// What a [`Request`] says.
#[verifier::ext_equal]
#[allow(inconsistent_fields)]
pub enum Asked {
    /// Everything the shell needs to decide what to ask for.
    GetOutputs,
    /// Drive the output at a different mode.
    SetMode { output: Seq<char>, w: int, h: int, refresh: Option<i32> },
    /// What the compositor is currently told and doing.
    GetState,
    /// Where windows go.
    PlaceWindow {
        app_id: Option<Seq<char>>,
        title: Option<Seq<char>>,
        x: Option<i32>,
        y: Option<i32>,
        w: Option<i32>,
        h: Option<i32>,
    },
    /// Type a string into the focused field.
    TypeText { text: Seq<char>, select_all: bool },
    /// Render the scene to a PNG.
    Screenshot { path: Seq<char> },
    /// Tell the compositor who owns the screen.
    SetFocus { owner: FocusOwner, app: Option<Seq<char>> },
    /// Claim the output's colour space for HDR content, or give it back.
    SetHdr { output: Seq<char>, on: bool },
}

impl View for Request {
    type V = Asked;

    open spec fn view(&self) -> Asked {
        match *self {
            Request::GetOutputs => Asked::GetOutputs,
            Request::SetMode { output, w, h, refresh } => Asked::SetMode {
                output: output@,
                w: w as int,
                h: h as int,
                refresh,
            },
            Request::GetState => Asked::GetState,
            Request::PlaceWindow { app_id, title, x, y, w, h } => Asked::PlaceWindow {
                app_id: text::owned(app_id),
                title: text::owned(title),
                x,
                y,
                w,
                h,
            },
            Request::TypeText { text, select_all } => Asked::TypeText { text: text@, select_all },
            Request::Screenshot { path } => Asked::Screenshot { path: path@ },
            Request::SetFocus { owner, app } => Asked::SetFocus { owner, app: text::owned(app) },
            Request::SetHdr { output, on } => Asked::SetHdr { output: output@, on },
        }
    }
}

/// Which request a line names.
#[derive(Debug, Clone, Copy, PartialEq, Eq, Structural)]
pub enum Kind {
    /// `get_outputs`
    GetOutputs,
    /// `set_mode`
    SetMode,
    /// `get_state`
    GetState,
    /// `place_window`
    PlaceWindow,
    /// `type_text`
    TypeText,
    /// `screenshot`
    Screenshot,
    /// `set_focus`
    SetFocus,
    /// `set_hdr`
    SetHdr,
}

/// The request that goes by a name.
pub open spec fn kind_named(name: Seq<char>) -> Option<Kind> {
    if name == "get_outputs"@ {
        Some(Kind::GetOutputs)
    } else if name == "set_mode"@ {
        Some(Kind::SetMode)
    } else if name == "get_state"@ {
        Some(Kind::GetState)
    } else if name == "place_window"@ {
        Some(Kind::PlaceWindow)
    } else if name == "type_text"@ {
        Some(Kind::TypeText)
    } else if name == "screenshot"@ {
        Some(Kind::Screenshot)
    } else if name == "set_focus"@ {
        Some(Kind::SetFocus)
    } else if name == "set_hdr"@ {
        Some(Kind::SetHdr)
    } else {
        None
    }
}

/// The request that goes by a number: its place in [`Kind`].
pub open spec fn kind_numbered(number: int) -> Option<Kind> {
    if number == 0 {
        Some(Kind::GetOutputs)
    } else if number == 1 {
        Some(Kind::SetMode)
    } else if number == 2 {
        Some(Kind::GetState)
    } else if number == 3 {
        Some(Kind::PlaceWindow)
    } else if number == 4 {
        Some(Kind::TypeText)
    } else if number == 5 {
        Some(Kind::Screenshot)
    } else if number == 6 {
        Some(Kind::SetFocus)
    } else if number == 7 {
        Some(Kind::SetHdr)
    } else {
        None
    }
}

fn kind_by_name(name: &str) -> (r: Option<Kind>)
    ensures
        r == kind_named(name@),
{
    if text::same(name, "get_outputs") {
        Some(Kind::GetOutputs)
    } else if text::same(name, "set_mode") {
        Some(Kind::SetMode)
    } else if text::same(name, "get_state") {
        Some(Kind::GetState)
    } else if text::same(name, "place_window") {
        Some(Kind::PlaceWindow)
    } else if text::same(name, "type_text") {
        Some(Kind::TypeText)
    } else if text::same(name, "screenshot") {
        Some(Kind::Screenshot)
    } else if text::same(name, "set_focus") {
        Some(Kind::SetFocus)
    } else if text::same(name, "set_hdr") {
        Some(Kind::SetHdr)
    } else {
        None
    }
}

fn kind_by_number(number: i128) -> (r: Option<Kind>)
    ensures
        r == kind_numbered(number as int),
{
    match number {
        0 => Some(Kind::GetOutputs),
        1 => Some(Kind::SetMode),
        2 => Some(Kind::GetState),
        3 => Some(Kind::PlaceWindow),
        4 => Some(Kind::TypeText),
        5 => Some(Kind::Screenshot),
        6 => Some(Kind::SetFocus),
        7 => Some(Kind::SetHdr),
        _ => None,
    }
}

/// What is said of a field that is not there.
pub open spec fn missing_text(name: Seq<char>) -> Seq<char> {
    "missing field `"@ + name + "`"@
}

/// What is said of a field that holds something else than it should.
pub open spec fn misfit_text(name: Seq<char>) -> Seq<char> {
    "invalid field `"@ + name + "`"@
}

/// What is said of a field that is there twice.
pub open spec fn repeated_text(name: Seq<char>) -> Seq<char> {
    "duplicate field `"@ + name + "`"@
}

fn missing(name: &str) -> (r: String)
    ensures
        r@ == missing_text(name@),
{
    let mut text = "missing field `".to_owned();
    text.append(name);
    text.append("`");
    text
}

fn misfit(name: &str) -> (r: String)
    ensures
        r@ == misfit_text(name@),
{
    let mut text = "invalid field `".to_owned();
    text.append(name);
    text.append("`");
    text
}

fn repeated(name: &str) -> (r: String)
    ensures
        r@ == repeated_text(name@),
{
    let mut text = "duplicate field `".to_owned();
    text.append(name);
    text.append("`");
    text
}

/// A field that has to hold a string.
pub open spec fn text_in(members: Map<Seq<char>, Tree>, name: Seq<char>) -> Result<
    Seq<char>,
    Seq<char>,
> {
    if !members.contains_key(name) {
        Err(missing_text(name))
    } else {
        match members[name] {
            Tree::Text(text) => Ok(text),
            _ => Err(misfit_text(name)),
        }
    }
}

fn text_field(members: &Vec<(String, Json)>, name: &str) -> (r: Result<String, String>)
    ensures
        match r {
            Ok(text) => text_in(json::members_of(members@), name@) matches Ok(t) && t == text@,
            Err(why) => text_in(json::members_of(members@), name@) matches Err(w) && w == why@,
        },
{
    match json::find(members, name) {
        Some(Json::Text(text)) => Ok(text.clone()),
        Some(_) => Err(misfit(name)),
        None => Err(missing(name)),
    }
}

/// A field that may hold a string.
pub open spec fn optional_text_in(members: Map<Seq<char>, Tree>, name: Seq<char>) -> Result<
    Option<Seq<char>>,
    Seq<char>,
> {
    if !members.contains_key(name) {
        Ok(None)
    } else {
        match members[name] {
            Tree::Null => Ok(None),
            Tree::Text(text) => Ok(Some(text)),
            _ => Err(misfit_text(name)),
        }
    }
}

fn optional_text_field(members: &Vec<(String, Json)>, name: &str) -> (r: Result<
    Option<String>,
    String,
>)
    ensures
        match r {
            Ok(text) => optional_text_in(json::members_of(members@), name@) matches Ok(t) && t
                == text::owned(text),
            Err(why) => optional_text_in(json::members_of(members@), name@) matches Err(w) && w
                == why@,
        },
{
    match json::find(members, name) {
        Some(Json::Text(text)) => Ok(Some(text.clone())),
        Some(Json::Null) => Ok(None),
        Some(_) => Err(misfit(name)),
        None => Ok(None),
    }
}

/// A field that has to hold a 32-bit integer.
pub open spec fn number_in(members: Map<Seq<char>, Tree>, name: Seq<char>) -> Result<
    i32,
    Seq<char>,
> {
    if !members.contains_key(name) {
        Err(missing_text(name))
    } else {
        match members[name] {
            Tree::Int(i) if i32::MIN <= i <= i32::MAX => Ok(i as i32),
            _ => Err(misfit_text(name)),
        }
    }
}

fn number_field(members: &Vec<(String, Json)>, name: &str) -> (r: Result<i32, String>)
    ensures
        match r {
            Ok(number) => number_in(json::members_of(members@), name@) matches Ok(n) && n
                == number,
            Err(why) => number_in(json::members_of(members@), name@) matches Err(w) && w == why@,
        },
{
    match json::find(members, name) {
        Some(Json::Int(i)) => {
            if *i >= i32::MIN as i128 && *i <= i32::MAX as i128 {
                Ok(*i as i32)
            } else {
                Err(misfit(name))
            }
        },
        Some(_) => Err(misfit(name)),
        None => Err(missing(name)),
    }
}

/// A field that may hold a 32-bit integer.
pub open spec fn optional_number_in(members: Map<Seq<char>, Tree>, name: Seq<char>) -> Result<
    Option<i32>,
    Seq<char>,
> {
    if !members.contains_key(name) {
        Ok(None)
    } else {
        match members[name] {
            Tree::Null => Ok(None),
            Tree::Int(i) if i32::MIN <= i <= i32::MAX => Ok(Some(i as i32)),
            _ => Err(misfit_text(name)),
        }
    }
}

fn optional_number_field(members: &Vec<(String, Json)>, name: &str) -> (r: Result<
    Option<i32>,
    String,
>)
    ensures
        match r {
            Ok(number) => optional_number_in(json::members_of(members@), name@) matches Ok(n) && n
                == number,
            Err(why) => optional_number_in(json::members_of(members@), name@) matches Err(w) && w
                == why@,
        },
{
    match json::find(members, name) {
        Some(Json::Int(i)) => {
            if *i >= i32::MIN as i128 && *i <= i32::MAX as i128 {
                Ok(Some(*i as i32))
            } else {
                Err(misfit(name))
            }
        },
        Some(Json::Null) => Ok(None),
        Some(_) => Err(misfit(name)),
        None => Ok(None),
    }
}

/// A field that has to hold `true` or `false`.
pub open spec fn flag_in(members: Map<Seq<char>, Tree>, name: Seq<char>) -> Result<
    bool,
    Seq<char>,
> {
    if !members.contains_key(name) {
        Err(missing_text(name))
    } else {
        match members[name] {
            Tree::Bool(b) => Ok(b),
            _ => Err(misfit_text(name)),
        }
    }
}

fn flag_field(members: &Vec<(String, Json)>, name: &str) -> (r: Result<bool, String>)
    ensures
        match r {
            Ok(flag) => flag_in(json::members_of(members@), name@) matches Ok(f) && f == flag,
            Err(why) => flag_in(json::members_of(members@), name@) matches Err(w) && w == why@,
        },
{
    match json::find(members, name) {
        Some(Json::Bool(b)) => Ok(*b),
        Some(_) => Err(misfit(name)),
        None => Err(missing(name)),
    }
}

/// A field that holds `true` or `false`, and is `false` where it is left out.
pub open spec fn optional_flag_in(members: Map<Seq<char>, Tree>, name: Seq<char>) -> Result<
    bool,
    Seq<char>,
> {
    if members.contains_key(name) {
        flag_in(members, name)
    } else {
        Ok(false)
    }
}

fn optional_flag_field(members: &Vec<(String, Json)>, name: &str) -> (r: Result<bool, String>)
    ensures
        match r {
            Ok(flag) => optional_flag_in(json::members_of(members@), name@) matches Ok(f) && f
                == flag,
            Err(why) => optional_flag_in(json::members_of(members@), name@) matches Err(w) && w
                == why@,
        },
{
    match json::find(members, name) {
        Some(Json::Bool(b)) => Ok(*b),
        Some(_) => Err(misfit(name)),
        None => Ok(false),
    }
}

/// The owner that goes by a name.
pub open spec fn owner_named(name: Seq<char>) -> Option<FocusOwner> {
    if name == "launcher"@ {
        Some(FocusOwner::Launcher)
    } else if name == "app"@ {
        Some(FocusOwner::App)
    } else {
        None
    }
}

/// Whether a value carries nothing: `null` or `{}`.
pub open spec fn is_void(tree: Tree) -> bool {
    match tree {
        Tree::Null => true,
        Tree::Object(members) => members.len() == 0,
        _ => false,
    }
}

/// Whether an object has one member, which has a name and carries nothing.
pub open spec fn only_carries(members: Seq<(Seq<char>, Tree)>, name: Seq<char>) -> bool {
    json::fields(members).dom() == set![name] && is_void(json::fields(members)[name])
}

/// The owner a value stands for: its name, or an object whose one member has that name
/// and carries nothing. `entries` is how many members the object had in the text.
pub open spec fn owner_of(tree: Tree, entries: nat) -> Option<FocusOwner> {
    match tree {
        Tree::Text(name) => owner_named(name),
        Tree::Object(members) => if entries == 1 && only_carries(members, "launcher"@) {
            Some(FocusOwner::Launcher)
        } else if entries == 1 && only_carries(members, "app"@) {
            Some(FocusOwner::App)
        } else {
            None
        },
        _ => None,
    }
}

/// A field that has to name an owner of the screen.
pub open spec fn owner_in(
    members: Map<Seq<char>, Tree>,
    name: Seq<char>,
    entries: nat,
) -> Result<FocusOwner, Seq<char>> {
    if !members.contains_key(name) {
        Err(missing_text(name))
    } else {
        match owner_of(members[name], entries) {
            Some(owner) => Ok(owner),
            None => Err(misfit_text(name)),
        }
    }
}

fn void(json: &Json) -> (r: bool)
    ensures
        r == is_void(json.tree()),
{
    match json {
        Json::Null => true,
        Json::Object(members) => members.len() == 0,
        _ => false,
    }
}

fn carries_nothing(members: &Vec<(String, Json)>, name: &str) -> (r: bool)
    ensures
        r == only_carries(json::listed(json::pairs_of(members@)), name@),
{
    proof {
        json::lemma_fields(json::pairs_of(members@));
    }
    if !json::only_names(members, name) {
        return false;
    }
    assert(set![name@].contains(name@));
    match json::find(members, name) {
        Some(value) => void(value),
        None => false,
    }
}

fn owner_field(members: &Vec<(String, Json)>, name: &str, entries: usize) -> (r: Result<
    FocusOwner,
    String,
>)
    ensures
        match r {
            Ok(owner) => owner_in(json::members_of(members@), name@, entries as nat) matches Ok(o)
                && o == owner,
            Err(why) => owner_in(json::members_of(members@), name@, entries as nat) matches Err(w)
                && w == why@,
        },
{
    match json::find(members, name) {
        Some(Json::Text(owner)) => {
            if text::same(owner.as_str(), "launcher") {
                Ok(FocusOwner::Launcher)
            } else if text::same(owner.as_str(), "app") {
                Ok(FocusOwner::App)
            } else {
                Err(misfit(name))
            }
        },
        Some(Json::Object(fields)) => {
            if entries == 1 && carries_nothing(fields, "launcher") {
                Ok(FocusOwner::Launcher)
            } else if entries == 1 && carries_nothing(fields, "app") {
                Ok(FocusOwner::App)
            } else {
                Err(misfit(name))
            }
        },
        Some(_) => Err(misfit(name)),
        None => Err(missing(name)),
    }
}

/// The request of a kind that an object's members describe, or what is wrong with the
/// first field that is. `entries` is how many members the object had that its owner is.
pub open spec fn asked_in(kind: Kind, members: Map<Seq<char>, Tree>, entries: nat) -> Result<
    Asked,
    Seq<char>,
> {
    match kind {
        Kind::GetOutputs => Ok(Asked::GetOutputs),
        Kind::GetState => Ok(Asked::GetState),
        Kind::SetMode => match (
            text_in(members, "output"@),
            number_in(members, "w"@),
            number_in(members, "h"@),
            optional_number_in(members, "refresh"@),
        ) {
            (Err(why), _, _, _) => Err(why),
            (_, Err(why), _, _) => Err(why),
            (_, _, Err(why), _) => Err(why),
            (_, _, _, Err(why)) => Err(why),
            (Ok(output), Ok(w), Ok(h), Ok(refresh)) => Ok(
                Asked::SetMode { output, w: w as int, h: h as int, refresh },
            ),
        },
        Kind::PlaceWindow => match (
            optional_text_in(members, "app_id"@),
            optional_text_in(members, "title"@),
            optional_number_in(members, "x"@),
            optional_number_in(members, "y"@),
            optional_number_in(members, "w"@),
            optional_number_in(members, "h"@),
        ) {
            (Err(why), _, _, _, _, _) => Err(why),
            (_, Err(why), _, _, _, _) => Err(why),
            (_, _, Err(why), _, _, _) => Err(why),
            (_, _, _, Err(why), _, _) => Err(why),
            (_, _, _, _, Err(why), _) => Err(why),
            (_, _, _, _, _, Err(why)) => Err(why),
            (Ok(app_id), Ok(title), Ok(x), Ok(y), Ok(w), Ok(h)) => Ok(
                Asked::PlaceWindow { app_id, title, x, y, w, h },
            ),
        },
        Kind::TypeText => match (
            text_in(members, "text"@),
            optional_flag_in(members, "select_all"@),
        ) {
            (Err(why), _) => Err(why),
            (_, Err(why)) => Err(why),
            (Ok(text), Ok(select_all)) => Ok(Asked::TypeText { text, select_all }),
        },
        Kind::Screenshot => match text_in(members, "path"@) {
            Err(why) => Err(why),
            Ok(path) => Ok(Asked::Screenshot { path }),
        },
        Kind::SetFocus => match (
            owner_in(members, "owner"@, entries),
            optional_text_in(members, "app"@),
        ) {
            (Err(why), _) => Err(why),
            (_, Err(why)) => Err(why),
            (Ok(owner), Ok(app)) => Ok(Asked::SetFocus { owner, app }),
        },
        Kind::SetHdr => match (text_in(members, "output"@), flag_in(members, "on"@)) {
            (Err(why), _) => Err(why),
            (_, Err(why)) => Err(why),
            (Ok(output), Ok(on)) => Ok(Asked::SetHdr { output, on }),
        },
    }
}

/// Whether a request, or what is wrong with it, is what an object's members say.
pub open spec fn says(
    outcome: Result<Request, String>,
    kind: Kind,
    members: Map<Seq<char>, Tree>,
    entries: nat,
) -> bool {
    match outcome {
        Ok(request) => asked_in(kind, members, entries) matches Ok(asked) && asked == request@,
        Err(why) => asked_in(kind, members, entries) matches Err(text) && text == why@,
    }
}

fn set_mode_request(members: &Vec<(String, Json)>) -> (r: Result<Request, String>)
    ensures
        says(r, Kind::SetMode, json::members_of(members@), 0),
{
    let output = match text_field(members, "output") {
        Ok(output) => output,
        Err(why) => return Err(why),
    };
    let w: i32 = match number_field(members, "w") {
        Ok(w) => w,
        Err(why) => return Err(why),
    };
    let h: i32 = match number_field(members, "h") {
        Ok(h) => h,
        Err(why) => return Err(why),
    };
    match optional_number_field(members, "refresh") {
        Ok(refresh) => Ok(Request::SetMode { output, w, h, refresh }),
        Err(why) => Err(why),
    }
}

fn place_window_request(members: &Vec<(String, Json)>) -> (r: Result<Request, String>)
    ensures
        says(r, Kind::PlaceWindow, json::members_of(members@), 0),
{
    let app_id = match optional_text_field(members, "app_id") {
        Ok(app_id) => app_id,
        Err(why) => return Err(why),
    };
    let title = match optional_text_field(members, "title") {
        Ok(title) => title,
        Err(why) => return Err(why),
    };
    let x: Option<i32> = match optional_number_field(members, "x") {
        Ok(x) => x,
        Err(why) => return Err(why),
    };
    let y: Option<i32> = match optional_number_field(members, "y") {
        Ok(y) => y,
        Err(why) => return Err(why),
    };
    let w: Option<i32> = match optional_number_field(members, "w") {
        Ok(w) => w,
        Err(why) => return Err(why),
    };
    match optional_number_field(members, "h") {
        Ok(h) => Ok(Request::PlaceWindow { app_id, title, x, y, w, h }),
        Err(why) => Err(why),
    }
}

/// Read the request of a kind from an object's members.
fn read_request(kind: Kind, members: &Vec<(String, Json)>, entries: usize) -> (r: Result<
    Request,
    String,
>)
    ensures
        says(r, kind, json::members_of(members@), entries as nat),
{
    match kind {
        Kind::GetOutputs => Ok(Request::GetOutputs),
        Kind::GetState => Ok(Request::GetState),
        Kind::SetMode => set_mode_request(members),
        Kind::PlaceWindow => place_window_request(members),
        Kind::TypeText => {
            let text = match text_field(members, "text") {
                Ok(text) => text,
                Err(why) => return Err(why),
            };
            match optional_flag_field(members, "select_all") {
                Ok(select_all) => Ok(Request::TypeText { text, select_all }),
                Err(why) => Err(why),
            }
        },
        Kind::Screenshot => match text_field(members, "path") {
            Ok(path) => Ok(Request::Screenshot { path }),
            Err(why) => Err(why),
        },
        Kind::SetFocus => {
            let owner = match owner_field(members, "owner", entries) {
                Ok(owner) => owner,
                Err(why) => return Err(why),
            };
            match optional_text_field(members, "app") {
                Ok(app) => Ok(Request::SetFocus { owner, app }),
                Err(why) => Err(why),
            }
        },
        Kind::SetHdr => {
            let output = match text_field(members, "output") {
                Ok(output) => output,
                Err(why) => return Err(why),
            };
            match flag_field(members, "on") {
                Ok(on) => Ok(Request::SetHdr { output, on }),
                Err(why) => Err(why),
            }
        },
    }
}

/// The `id` of a request: a number that fits 64 bits, or none.
pub open spec fn id_in(members: Map<Seq<char>, Tree>) -> Result<Option<nat>, Seq<char>> {
    if !members.contains_key("id"@) {
        Ok(None)
    } else {
        match members["id"@] {
            Tree::Null => Ok(None),
            Tree::Int(i) if 0 <= i <= u64::MAX => Ok(Some(i as nat)),
            _ => Err(misfit_text("id"@)),
        }
    }
}

fn id_field(members: &Vec<(String, Json)>) -> (r: Result<Option<u64>, String>)
    ensures
        match r {
            Ok(id) => id_in(json::members_of(members@)) matches Ok(i) && i == reply::id_of(id),
            Err(why) => id_in(json::members_of(members@)) matches Err(w) && w == why@,
        },
{
    match json::find(members, "id") {
        Some(Json::Int(i)) => {
            if *i >= 0 && *i <= u64::MAX as i128 {
                Ok(Some(*i as u64))
            } else {
                Err(misfit("id"))
            }
        },
        Some(Json::Null) => Ok(None),
        Some(_) => Err(misfit("id")),
        None => Ok(None),
    }
}

/// The fields of a kind of request.
pub open spec fn fields_of(kind: Kind) -> Seq<Seq<char>> {
    match kind {
        Kind::GetOutputs => seq![],
        Kind::SetMode => seq!["output"@, "w"@, "h"@, "refresh"@],
        Kind::GetState => seq![],
        Kind::PlaceWindow => seq!["app_id"@, "title"@, "x"@, "y"@, "w"@, "h"@],
        Kind::TypeText => seq!["text"@, "select_all"@],
        Kind::Screenshot => seq!["path"@],
        Kind::SetFocus => seq!["owner"@, "app"@],
        Kind::SetHdr => seq!["output"@, "on"@],
    }
}

fn fields(kind: Kind) -> (r: Vec<&'static str>)
    ensures
        r@.map_values(|name: &'static str| name@) == fields_of(kind),
{
    let names: Vec<&'static str> = match kind {
        Kind::GetOutputs => vec![],
        Kind::SetMode => vec!["output", "w", "h", "refresh"],
        Kind::GetState => vec![],
        Kind::PlaceWindow => vec!["app_id", "title", "x", "y", "w", "h"],
        Kind::TypeText => vec!["text", "select_all"],
        Kind::Screenshot => vec!["path"],
        Kind::SetFocus => vec!["owner", "app"],
        Kind::SetHdr => vec!["output", "on"],
    };
    assert(names@.map_values(|name: &'static str| name@) == fields_of(kind));
    names
}

/// The first of some fields that is there twice.
pub open spec fn first_repeated(fields: Seq<Seq<char>>, names: Seq<Seq<char>>) -> Option<Seq<char>>
    decreases fields.len(),
{
    if fields.len() == 0 {
        None
    } else {
        match first_repeated(fields.drop_last(), names) {
            Some(name) => Some(name),
            None => if members::is_repeated(names, fields.last()) {
                Some(fields.last())
            } else {
                None
            },
        }
    }
}

/// Find the first field of a kind of request that is there twice.
fn field_twice(kind: Kind, names: &Vec<String>) -> (r: Option<&'static str>)
    ensures
        match r {
            Some(name) => first_repeated(fields_of(kind), text::texts(names@)) == Some(name@),
            None => first_repeated(fields_of(kind), text::texts(names@)) is None,
        },
{
    let fields = fields(kind);
    let ghost all = fields_of(kind);
    let ghost listed = text::texts(names@);
    let mut first: Option<&'static str> = None;
    let mut at: usize = 0;
    assert(all.take(0) == Seq::<Seq<char>>::empty());
    while at < fields.len()
        invariant
            at <= fields@.len(),
            listed == text::texts(names@),
            all == fields@.map_values(|name: &'static str| name@),
            match first {
                Some(name) => first_repeated(all.take(at as int), listed) == Some(name@),
                None => first_repeated(all.take(at as int), listed) is None,
            },
        decreases fields@.len() - at,
    {
        assert(all.take(at + 1).drop_last() == all.take(at as int));
        assert(all.take(at + 1).last() == fields@[at as int]@);
        if first.is_none() && members::repeated(names, fields[at]) {
            first = Some(fields[at]);
        }
        at += 1;
    }
    assert(all.take(all.len() as int) == all);
    first
}

/// What a line of JSON asks for.
#[verifier::ext_equal]
pub enum Meaning {
    /// A request, and the `id` to answer it with.
    Request(Option<nat>, Asked),
    /// No request: the `id` to answer with, and the error.
    Refused(Option<nat>, Seq<char>),
}

/// What an object's members ask for, where the names in its text were as outlined.
///
/// A request that is not one of ours is answered with its own `id`. One that is ours
/// and does not hold together is not, and neither is anything else that cannot be
/// read: that answer carries no `id`.
pub open spec fn meaning_of_members(
    members: Map<Seq<char>, Tree>,
    outline: members::Outlined,
) -> Meaning {
    if members::is_repeated(outline.names, "id"@) {
        Meaning::Refused(None, repeated_text("id"@))
    } else if members::is_repeated(outline.names, "request"@) {
        Meaning::Refused(None, repeated_text("request"@))
    } else {
        match id_in(members) {
            Err(why) => Meaning::Refused(None, why),
            Ok(id) => if !members.contains_key("request"@) {
                Meaning::Refused(None, missing_text("request"@))
            } else {
                match members["request"@] {
                    Tree::Text(name) => match kind_named(name) {
                        Some(kind) => meaning_of_kind(id, kind, members, outline),
                        None => Meaning::Refused(id, "unknown request"@),
                    },
                    Tree::Int(number) => match kind_numbered(number) {
                        Some(kind) => meaning_of_kind(id, kind, members, outline),
                        None => Meaning::Refused(None, misfit_text("request"@)),
                    },
                    _ => Meaning::Refused(None, misfit_text("request"@)),
                }
            },
        }
    }
}

/// What the members of an object that names a request ask for.
pub open spec fn meaning_of_kind(
    id: Option<nat>,
    kind: Kind,
    members: Map<Seq<char>, Tree>,
    outline: members::Outlined,
) -> Meaning {
    match first_repeated(fields_of(kind), outline.names) {
        Some(name) => Meaning::Refused(None, repeated_text(name)),
        None => match asked_in(kind, members, members::entries_of(outline, "owner"@)) {
            Ok(asked) => Meaning::Request(id, asked),
            Err(why) => Meaning::Refused(None, why),
        },
    }
}

/// What a JSON value asks for, where the names in its text were as outlined.
pub open spec fn meaning_of(tree: Tree, outline: members::Outlined) -> Meaning {
    match tree {
        Tree::Object(members) => meaning_of_members(json::fields(members), outline),
        _ => Meaning::Refused(None, "a request must be an object"@),
    }
}

/// A decoded line of JSON.
#[derive(Debug, PartialEq, Eq)]
pub enum Decoded {
    /// A request, and the `id` to answer it with.
    Request(Option<u64>, Request),
    /// No request: the `id` to answer with, and the error.
    Refused(Option<u64>, String),
}

impl View for Decoded {
    type V = Meaning;

    open spec fn view(&self) -> Meaning {
        match self {
            Decoded::Request(id, request) => Meaning::Request(reply::id_of(*id), request@),
            Decoded::Refused(id, why) => Meaning::Refused(reply::id_of(*id), why@),
        }
    }
}

fn decode_kind(
    id: Option<u64>,
    kind: Kind,
    members: &Vec<(String, Json)>,
    outline: &members::Outline,
) -> (r: Decoded)
    ensures
        r@ == meaning_of_kind(
            reply::id_of(id),
            kind,
            json::members_of(members@),
            outline@,
        ),
{
    match field_twice(kind, &outline.names) {
        Some(name) => return Decoded::Refused(None, repeated(name)),
        None => {},
    }
    match read_request(kind, members, members::entries(outline, "owner")) {
        Ok(request) => Decoded::Request(id, request),
        Err(why) => Decoded::Refused(None, why),
    }
}

/// Decode a JSON value into a request. `outline` holds the names in its text.
pub fn decode(json: &Json, outline: &members::Outline) -> (r: Decoded)
    ensures
        r@ == meaning_of(json.tree(), outline@),
{
    match json {
        Json::Object(members) => {
            proof {
                json::lemma_fields(json::pairs_of(members@));
            }
            if members::repeated(&outline.names, "id") {
                return Decoded::Refused(None, repeated("id"));
            }
            if members::repeated(&outline.names, "request") {
                return Decoded::Refused(None, repeated("request"));
            }
            let id = match id_field(members) {
                Ok(id) => id,
                Err(why) => return Decoded::Refused(None, why),
            };
            match json::find(members, "request") {
                Some(Json::Text(name)) => match kind_by_name(name.as_str()) {
                    Some(kind) => decode_kind(id, kind, members, outline),
                    None => Decoded::Refused(id, "unknown request".to_owned()),
                },
                Some(Json::Int(number)) => match kind_by_number(*number) {
                    Some(kind) => decode_kind(id, kind, members, outline),
                    None => Decoded::Refused(None, misfit("request")),
                },
                Some(_) => Decoded::Refused(None, misfit("request")),
                None => Decoded::Refused(None, missing("request")),
            }
        },
        _ => Decoded::Refused(None, "a request must be an object".to_owned()),
    }
}

/// What a line holds.
#[derive(Debug, PartialEq, Eq)]
pub enum Parsed {
    /// Nothing: the line is not answered.
    Blank,
    /// No request: what it is answered with.
    Invalid(String),
    /// A request, and the `id` to answer it with.
    Request(Option<u64>, Request),
}

/// Whether a byte is ASCII white space.
pub open spec fn is_blank(byte: u8) -> bool {
    byte == 0x20 || byte == 0x09 || byte == 0x0A || byte == 0x0C || byte == 0x0D
}

/// Whether a line holds nothing but white space.
pub open spec fn is_blank_line(line: Seq<u8>) -> bool {
    forall|i: int| 0 <= i < line.len() ==> is_blank(#[trigger] line[i])
}

/// What a line that holds something asks for.
pub open spec fn meaning_of_line(line: Seq<u8>) -> Meaning {
    match json::json_read(line) {
        Ok(tree) => meaning_of(tree, members::outline_of(line)),
        Err(why) => Meaning::Refused(None, why),
    }
}

/// Whether a parsed line is what its meaning asks for: the request itself, or the reply
/// that refuses it.
pub open spec fn parsed_as(parsed: Parsed, meaning: Meaning) -> bool {
    match (parsed, meaning) {
        (Parsed::Request(id, request), Meaning::Request(asked_id, asked)) => {
            reply::id_of(id) == asked_id && request@ == asked
        },
        (Parsed::Invalid(text), Meaning::Refused(id, why)) => {
            reply::reads_as(text@, reply::reply_tree(id, Err(why)))
        },
        _ => false,
    }
}

/// Whether a line is blank.
fn blank(line: &[u8]) -> (r: bool)
    ensures
        r == is_blank_line(line@),
{
    let mut at: usize = 0;
    while at < line.len()
        invariant
            at <= line@.len(),
            forall|i: int| 0 <= i < at ==> is_blank(#[trigger] line@[i]),
        decreases line@.len() - at,
    {
        let byte: u8 = line[at];
        if !(byte == 0x20 || byte == 0x09 || byte == 0x0A || byte == 0x0C || byte == 0x0D) {
            return false;
        }
        at += 1;
    }
    true
}

/// Answer what a decoded line asks for, where it asks for nothing that can be done.
pub fn parsed(decoded: Decoded) -> (r: Parsed)
    ensures
        parsed_as(r, decoded@),
{
    match decoded {
        Decoded::Request(id, request) => Parsed::Request(id, request),
        Decoded::Refused(id, why) => {
            Parsed::Invalid(reply::reply(id, Err(why)))
        },
    }
}

/// Decode one line.
pub fn parse_line(line: &[u8]) -> (r: Parsed)
    ensures
        if is_blank_line(line@) {
            r == Parsed::Blank
        } else {
            parsed_as(r, meaning_of_line(line@))
        },
{
    if blank(line) {
        return Parsed::Blank;
    }
    match json::read(line) {
        Ok(json) => parsed(decode(&json, &members::outline(line))),
        Err(why) => parsed(Decoded::Refused(None, why)),
    }
}

/// Where a `place_window` request puts windows: their key, and a rectangle or the whole
/// output.
#[verifier::ext_equal]
pub enum Target {
    /// Windows under this key go here.
    At(PlaceName, Option<Rect>),
    /// The request does not hold together.
    Refused(Seq<char>),
}

/// Where a `place_window` request puts windows.
///
/// Every window of the shell shares its app id, the launcher included, so a placement
/// by it would move the whole UI; its windows are placed one at a time, by title.
pub open spec fn target_of(
    shell: Seq<char>,
    app_id: Option<Seq<char>>,
    title: Option<Seq<char>>,
    x: Option<i32>,
    y: Option<i32>,
    w: Option<i32>,
    h: Option<i32>,
) -> Target {
    match (app_id, title) {
        (Some(app_id), None) => if app_id == shell {
            Target::Refused("the shell's windows are placed by title, not by app id"@)
        } else {
            target_at(PlaceName::AppId(app_id), x, y, w, h)
        },
        (None, Some(title)) => target_at(PlaceName::Title(title), x, y, w, h),
        _ => Target::Refused("name the windows by app_id or by title, not both and not neither"@),
    }
}

/// Where the windows under a key go.
pub open spec fn target_at(
    key: PlaceName,
    x: Option<i32>,
    y: Option<i32>,
    w: Option<i32>,
    h: Option<i32>,
) -> Target {
    match (x, y, w, h) {
        (Some(x), Some(y), Some(w), Some(h)) => if w > 0 && h > 0 {
            Target::At(key, Some(Rect { x, y, w, h }))
        } else {
            Target::Refused("a rectangle needs x, y, w and h, and a positive size"@)
        },
        (None, None, None, None) => Target::At(key, None),
        _ => Target::Refused("a rectangle needs x, y, w and h, and a positive size"@),
    }
}

/// Check the arguments of a `place_window` request. `shell` is the shell's own app id.
pub fn place_target(
    shell: &str,
    app_id: Option<String>,
    title: Option<String>,
    x: Option<i32>,
    y: Option<i32>,
    w: Option<i32>,
    h: Option<i32>,
) -> (r: Result<(PlaceKey, Option<Rect>), String>)
    ensures
        match r {
            Ok(target) => target_of(shell@, text::owned(app_id), text::owned(title), x, y, w, h)
                == Target::At(target.0@, target.1),
            Err(why) => target_of(shell@, text::owned(app_id), text::owned(title), x, y, w, h)
                == Target::Refused(why@),
        },
        is_placed_as_asked(
            shell@,
            text::owned(app_id),
            text::owned(title),
            x,
            y,
            w,
            h,
            match r {
                Ok((key, rect)) => Target::At(key@, rect),
                Err(why) => Target::Refused(why@),
            },
        ),
{
    let key = match (app_id, title) {
        (Some(app_id), None) => {
            if text::same(app_id.as_str(), shell) {
                return Err("the shell's windows are placed by title, not by app id".to_owned());
            }
            PlaceKey::AppId(app_id)
        },
        (None, Some(title)) => PlaceKey::Title(title),
        _ => {
            return Err(
                "name the windows by app_id or by title, not both and not neither".to_owned(),
            );
        },
    };
    match (x, y, w, h) {
        (Some(x), Some(y), Some(w), Some(h)) => {
            if w > 0 && h > 0 {
                Ok((key, Some(Rect { x, y, w, h })))
            } else {
                Err("a rectangle needs x, y, w and h, and a positive size".to_owned())
            }
        },
        (None, None, None, None) => Ok((key, None)),
        _ => Err("a rectangle needs x, y, w and h, and a positive size".to_owned()),
    }
}

/// The kind of request that an object's `request` stands for, by name or by number.
pub open spec fn kind_in(members: Map<Seq<char>, Tree>) -> Option<Kind> {
    if !members.contains_key("request"@) {
        None
    } else {
        match members["request"@] {
            Tree::Text(name) => kind_named(name),
            Tree::Int(number) => kind_numbered(number),
            _ => None,
        }
    }
}

/// A request that gives its `id`, its name or one of its fields twice is not carried out,
/// whichever of the two was meant.
pub proof fn law_nothing_is_asked_twice(
    members: Seq<(Seq<char>, Tree)>,
    outline: members::Outlined,
    name: Seq<char>,
)
    requires
        members::is_repeated(outline.names, name),
        ({
            ||| name == "id"@
            ||| name == "request"@
            ||| kind_in(json::fields(members)) matches Some(kind) && fields_of(kind).contains(name)
        }),
    ensures
        meaning_of(Tree::Object(members), outline) matches Meaning::Refused(id, _) && id is None,
{
    if name != "id"@ && name != "request"@ {
        lemma_a_repeated_field_is_found(
            fields_of(kind_in(json::fields(members))->0),
            outline.names,
            name,
        );
    }
}

proof fn lemma_a_repeated_field_is_found(
    fields: Seq<Seq<char>>,
    names: Seq<Seq<char>>,
    name: Seq<char>,
)
    requires
        fields.contains(name),
        members::is_repeated(names, name),
    ensures
        first_repeated(fields, names) is Some,
    decreases fields.len(),
{
    if fields.last() != name {
        let at = fields.index_of(name);
        assert(fields.drop_last()[at] == name);
        lemma_a_repeated_field_is_found(fields.drop_last(), names, name);
    }
}

/// A rectangle that windows are placed in has a positive size.
pub proof fn law_a_placed_rectangle_has_a_size(
    shell: Seq<char>,
    app_id: Option<Seq<char>>,
    title: Option<Seq<char>>,
    x: Option<i32>,
    y: Option<i32>,
    w: Option<i32>,
    h: Option<i32>,
)
    ensures
        target_of(shell, app_id, title, x, y, w, h) matches Target::At(_, Some(rect)) ==> {
            &&& rect.w > 0
            &&& rect.h > 0
        },
{
}

/// No request moves every window of the shell at once.
pub proof fn law_the_shell_is_not_placed_by_its_app_id(
    shell: Seq<char>,
    app_id: Option<Seq<char>>,
    title: Option<Seq<char>>,
    x: Option<i32>,
    y: Option<i32>,
    w: Option<i32>,
    h: Option<i32>,
)
    ensures
        target_of(shell, app_id, title, x, y, w, h) matches Target::At(key, _) ==> key
            != PlaceName::AppId(shell),
{
}

/// Whether a target is where a `place_window` request puts windows: they are named by an app
/// id that is not the shell's or by a title, and go in the rectangle of the four numbers, or
/// on the whole output where all four are left out.
pub open spec fn is_placed_as_asked(
    shell: Seq<char>,
    app_id: Option<Seq<char>>,
    title: Option<Seq<char>>,
    x: Option<i32>,
    y: Option<i32>,
    w: Option<i32>,
    h: Option<i32>,
    target: Target,
) -> bool {
    let named = app_id is Some != title is Some;
    let whole = x is None && y is None && w is None && h is None;
    let sized = x is Some && y is Some && w is Some && h is Some && w->0 > 0 && h->0 > 0;
    match target {
        Target::At(key, rect) => {
            &&& named
            &&& match key {
                PlaceName::AppId(id) => app_id == Some(id) && id != shell,
                PlaceName::Title(name) => title == Some(name),
            }
            &&& match rect {
                Some(rect) => {
                    &&& sized
                    &&& x == Some(rect.x)
                    &&& y == Some(rect.y)
                    &&& w == Some(rect.w)
                    &&& h == Some(rect.h)
                },
                None => whole,
            }
        },
        Target::Refused(why) => {
            ||| !named && why
                == "name the windows by app_id or by title, not both and not neither"@
            ||| named && app_id == Some(shell) && why
                == "the shell's windows are placed by title, not by app id"@
            ||| named && app_id != Some(shell) && !whole && !sized && why
                == "a rectangle needs x, y, w and h, and a positive size"@
        },
    }
}

/// Windows go where the request puts them: under the key it names, in exactly the rectangle it
/// gives.
pub proof fn law_windows_go_where_they_are_put(
    shell: Seq<char>,
    app_id: Option<Seq<char>>,
    title: Option<Seq<char>>,
    x: Option<i32>,
    y: Option<i32>,
    w: Option<i32>,
    h: Option<i32>,
)
    ensures
        is_placed_as_asked(
            shell,
            app_id,
            title,
            x,
            y,
            w,
            h,
            target_of(shell, app_id, title, x, y, w, h),
        ),
{
}

/// Whether a member is there and is a given value.
pub open spec fn stands(members: Map<Seq<char>, Tree>, name: Seq<char>, value: Tree) -> bool {
    members.contains_key(name) && members[name] == value
}

/// Whether a member is not there, or is `null`.
pub open spec fn left_out(members: Map<Seq<char>, Tree>, name: Seq<char>) -> bool {
    members.contains_key(name) ==> members[name] == Tree::Null
}

/// Whether a member is a number where there is one, and left out where there is none.
pub open spec fn stands_as_number(
    members: Map<Seq<char>, Tree>,
    name: Seq<char>,
    number: Option<i32>,
) -> bool {
    match number {
        Some(number) => stands(members, name, Tree::Int(number as int)),
        None => left_out(members, name),
    }
}

/// Whether a member is a string where there is one, and left out where there is none.
pub open spec fn stands_as_text(
    members: Map<Seq<char>, Tree>,
    name: Seq<char>,
    text: Option<Seq<char>>,
) -> bool {
    match text {
        Some(text) => stands(members, name, Tree::Text(text)),
        None => left_out(members, name),
    }
}

/// A request for a mode asks for the output, the size and the rate that stand in it.
pub proof fn law_a_mode_is_asked_for_as_it_stands(
    members: Map<Seq<char>, Tree>,
    entries: nat,
    output: Seq<char>,
    w: i32,
    h: i32,
    refresh: Option<i32>,
)
    ensures
        asked_in(Kind::SetMode, members, entries) == Ok::<Asked, Seq<char>>(
            Asked::SetMode { output, w: w as int, h: h as int, refresh },
        ) <==> {
            &&& stands(members, "output"@, Tree::Text(output))
            &&& stands(members, "w"@, Tree::Int(w as int))
            &&& stands(members, "h"@, Tree::Int(h as int))
            &&& stands_as_number(members, "refresh"@, refresh)
        },
        asked_in(Kind::SetMode, members, entries) matches Ok(asked) ==> asked is SetMode,
{
}

/// A placement is asked for with the names and the numbers that stand in it.
pub proof fn law_a_placement_is_asked_for_as_it_stands(
    members: Map<Seq<char>, Tree>,
    entries: nat,
    app_id: Option<Seq<char>>,
    title: Option<Seq<char>>,
    x: Option<i32>,
    y: Option<i32>,
    w: Option<i32>,
    h: Option<i32>,
)
    ensures
        asked_in(Kind::PlaceWindow, members, entries) == Ok::<Asked, Seq<char>>(
            Asked::PlaceWindow { app_id, title, x, y, w, h },
        ) <==> {
            &&& stands_as_text(members, "app_id"@, app_id)
            &&& stands_as_text(members, "title"@, title)
            &&& stands_as_number(members, "x"@, x)
            &&& stands_as_number(members, "y"@, y)
            &&& stands_as_number(members, "w"@, w)
            &&& stands_as_number(members, "h"@, h)
        },
        asked_in(Kind::PlaceWindow, members, entries) matches Ok(asked) ==> asked is PlaceWindow,
{
}

/// The string that is typed is the one that stands in the request, and what the field holds
/// is replaced only where the request says so.
pub proof fn law_a_string_is_typed_as_it_stands(
    members: Map<Seq<char>, Tree>,
    entries: nat,
    text: Seq<char>,
    select_all: bool,
)
    ensures
        asked_in(Kind::TypeText, members, entries) == Ok::<Asked, Seq<char>>(
            Asked::TypeText { text, select_all },
        ) <==> {
            &&& stands(members, "text"@, Tree::Text(text))
            &&& {
                ||| stands(members, "select_all"@, Tree::Bool(select_all))
                ||| !members.contains_key("select_all"@) && !select_all
            }
        },
        asked_in(Kind::TypeText, members, entries) matches Ok(asked) ==> asked is TypeText,
{
}

/// A picture goes to the path that stands in the request, and a colour space is claimed or
/// given back as it says, on the output it names.
pub proof fn law_paths_and_claims_are_asked_for_as_they_stand(
    members: Map<Seq<char>, Tree>,
    entries: nat,
    name: Seq<char>,
    on: bool,
)
    ensures
        asked_in(Kind::Screenshot, members, entries) == Ok::<Asked, Seq<char>>(
            Asked::Screenshot { path: name },
        ) <==> stands(members, "path"@, Tree::Text(name)),
        asked_in(Kind::SetHdr, members, entries) == Ok::<Asked, Seq<char>>(
            Asked::SetHdr { output: name, on },
        ) <==> {
            &&& stands(members, "output"@, Tree::Text(name))
            &&& stands(members, "on"@, Tree::Bool(on))
        },
        asked_in(Kind::Screenshot, members, entries) matches Ok(asked) ==> asked is Screenshot,
        asked_in(Kind::SetHdr, members, entries) matches Ok(asked) ==> asked is SetHdr,
        asked_in(Kind::GetOutputs, members, entries) == Ok::<Asked, Seq<char>>(Asked::GetOutputs),
        asked_in(Kind::GetState, members, entries) == Ok::<Asked, Seq<char>>(Asked::GetState),
{
}

/// Who owns the screen is who the request names: as a string, or as the one member of an
/// object that carries nothing.
pub proof fn law_the_owner_is_the_one_that_stands_there(
    members: Map<Seq<char>, Tree>,
    entries: nat,
    owner: FocusOwner,
    app: Option<Seq<char>>,
)
    ensures
        ({
            let name = match owner {
                FocusOwner::Launcher => "launcher"@,
                FocusOwner::App => "app"@,
            };
            asked_in(Kind::SetFocus, members, entries) == Ok::<Asked, Seq<char>>(
                Asked::SetFocus { owner, app },
            ) <==> {
                &&& stands_as_text(members, "app"@, app)
                &&& members.contains_key("owner"@)
                &&& match members["owner"@] {
                    Tree::Text(text) => text == name,
                    Tree::Object(inner) => {
                        &&& entries == 1
                        &&& json::fields(inner).dom() == set![name]
                        &&& match json::fields(inner)[name] {
                            Tree::Null => true,
                            Tree::Object(nothing) => nothing.len() == 0,
                            _ => false,
                        }
                    },
                    _ => false,
                }
            }
        }),
        asked_in(Kind::SetFocus, members, entries) matches Ok(asked) ==> asked is SetFocus,
{
    reveal_strlit("launcher");
    reveal_strlit("app");
    assert("launcher"@.len() == 8 && "app"@.len() == 3);
    assert(set!["launcher"@].contains("launcher"@));
    assert(!set!["app"@].contains("launcher"@));
    assert(set!["launcher"@] != set!["app"@]);
}

/// What a request asks for depends on nothing but its own fields: two that agree on those ask
/// for the same.
pub proof fn law_only_its_own_fields_count(
    kind: Kind,
    a: Map<Seq<char>, Tree>,
    b: Map<Seq<char>, Tree>,
    entries: nat,
)
    requires
        forall|name: Seq<char>| #[trigger]
            fields_of(kind).contains(name) ==> {
                &&& a.contains_key(name) == b.contains_key(name)
                &&& a.contains_key(name) ==> a[name] == b[name]
            },
    ensures
        asked_in(kind, a, entries) == asked_in(kind, b, entries),
{
    let names = fields_of(kind);
    assert forall|i: int| 0 <= i < names.len() implies {
        &&& a.contains_key(#[trigger] names[i]) == b.contains_key(names[i])
        &&& a.contains_key(names[i]) ==> a[names[i]] == b[names[i]]
    } by {
        assert(names.contains(names[i]));
    }
    match kind {
        Kind::SetMode => {
            assert(names[0] == "output"@ && names[1] == "w"@ && names[2] == "h"@ && names[3]
                == "refresh"@);
        },
        Kind::PlaceWindow => {
            assert(names[0] == "app_id"@ && names[1] == "title"@ && names[2] == "x"@ && names[3]
                == "y"@ && names[4] == "w"@ && names[5] == "h"@);
        },
        Kind::TypeText => {
            assert(names[0] == "text"@ && names[1] == "select_all"@);
        },
        Kind::Screenshot => {
            assert(names[0] == "path"@);
        },
        Kind::SetFocus => {
            assert(names[0] == "owner"@ && names[1] == "app"@);
        },
        Kind::SetHdr => {
            assert(names[0] == "output"@ && names[1] == "on"@);
        },
        _ => {},
    }
}

/// Whether an error names a field and says truly that it is not there, or that it is there
/// and holds something else than it should.
pub open spec fn tells_of(members: Map<Seq<char>, Tree>, name: Seq<char>, why: Seq<char>) -> bool {
    ||| why == "missing field `"@ + name + "`"@ && !members.contains_key(name)
    ||| why == "invalid field `"@ + name + "`"@ && members.contains_key(name)
}

/// A request that does not hold together is refused over one of its own fields, which the
/// error names.
pub proof fn law_the_field_that_is_wrong_is_named(
    kind: Kind,
    members: Map<Seq<char>, Tree>,
    entries: nat,
)
    ensures
        asked_in(kind, members, entries) matches Err(why) ==> exists|i: int|
            0 <= i < fields_of(kind).len() && tells_of(members, #[trigger] fields_of(kind)[i], why),
{
    let names = fields_of(kind);
    if let Err(why) = asked_in(kind, members, entries) {
        match kind {
            Kind::SetMode => {
                assert(names[0] == "output"@ && names[1] == "w"@ && names[2] == "h"@ && names[3]
                    == "refresh"@);
                assert(tells_of(members, names[0], why) || tells_of(members, names[1], why)
                    || tells_of(members, names[2], why) || tells_of(members, names[3], why));
            },
            Kind::PlaceWindow => {
                assert(names[0] == "app_id"@ && names[1] == "title"@ && names[2] == "x"@
                    && names[3] == "y"@ && names[4] == "w"@ && names[5] == "h"@);
                assert(tells_of(members, names[0], why) || tells_of(members, names[1], why)
                    || tells_of(members, names[2], why) || tells_of(members, names[3], why)
                    || tells_of(members, names[4], why) || tells_of(members, names[5], why));
            },
            Kind::TypeText => {
                assert(names[0] == "text"@ && names[1] == "select_all"@);
                assert(tells_of(members, names[0], why) || tells_of(members, names[1], why));
            },
            Kind::Screenshot => {
                assert(names[0] == "path"@);
                assert(tells_of(members, names[0], why));
            },
            Kind::SetFocus => {
                assert(names[0] == "owner"@ && names[1] == "app"@);
                assert(tells_of(members, names[0], why) || tells_of(members, names[1], why));
            },
            Kind::SetHdr => {
                assert(names[0] == "output"@ && names[1] == "on"@);
                assert(tells_of(members, names[0], why) || tells_of(members, names[1], why));
            },
            _ => {},
        }
    }
}

/// The name that each kind of request goes by.
pub open spec fn name_of(kind: Kind) -> Seq<char> {
    match kind {
        Kind::GetOutputs => "get_outputs"@,
        Kind::SetMode => "set_mode"@,
        Kind::GetState => "get_state"@,
        Kind::PlaceWindow => "place_window"@,
        Kind::TypeText => "type_text"@,
        Kind::Screenshot => "screenshot"@,
        Kind::SetFocus => "set_focus"@,
        Kind::SetHdr => "set_hdr"@,
    }
}

proof fn lemma_names_differ(a: Kind, b: Kind)
    requires
        name_of(a) == name_of(b),
    ensures
        a == b,
{
    reveal_strlit("get_outputs");
    reveal_strlit("set_mode");
    reveal_strlit("get_state");
    reveal_strlit("place_window");
    reveal_strlit("type_text");
    reveal_strlit("screenshot");
    reveal_strlit("set_focus");
    reveal_strlit("set_hdr");
    assert("get_outputs"@.len() == 11);
    assert("set_mode"@.len() == 8);
    assert("get_state"@.len() == 9 && "get_state"@[0] == 'g');
    assert("place_window"@.len() == 12);
    assert("type_text"@.len() == 9 && "type_text"@[0] == 't');
    assert("screenshot"@.len() == 10);
    assert("set_focus"@.len() == 9 && "set_focus"@[0] == 's');
    assert("set_hdr"@.len() == 7);
}

/// Every kind of request is known by its own name and no other, and by one number of its own
/// below eight.
pub proof fn law_every_request_is_known_by_its_name(name: Seq<char>, number: int, kind: Kind)
    ensures
        kind_named(name) == Some(kind) <==> name == name_of(kind),
        kind_numbered(number) is Some <==> 0 <= number < 8,
        kind_numbered(0) == Some(Kind::GetOutputs),
        kind_numbered(1) == Some(Kind::SetMode),
        kind_numbered(2) == Some(Kind::GetState),
        kind_numbered(3) == Some(Kind::PlaceWindow),
        kind_numbered(4) == Some(Kind::TypeText),
        kind_numbered(5) == Some(Kind::Screenshot),
        kind_numbered(6) == Some(Kind::SetFocus),
        kind_numbered(7) == Some(Kind::SetHdr),
{
    if let Some(other) = kind_named(name) {
        assert(name == name_of(other));
        if name == name_of(kind) {
            lemma_names_differ(other, kind);
        }
    }
}

/// Whether an `id` is the one that stands in an object: a number that fits 64 bits, or none
/// where it is left out.
pub open spec fn stands_as_id(members: Map<Seq<char>, Tree>, id: Option<nat>) -> bool {
    match id {
        Some(id) => id <= u64::MAX && stands(members, "id"@, Tree::Int(id as int)),
        None => left_out(members, "id"@),
    }
}

/// An object is a request exactly where its `id` can be read, it names a kind, nothing of it
/// is there twice and its fields hold together; and what it asks for is then answered with
/// that `id`. A name that no request goes by is answered with it too.
pub proof fn law_a_request_is_what_it_says(
    members: Seq<(Seq<char>, Tree)>,
    outline: members::Outlined,
    id: Option<nat>,
    asked: Asked,
)
    ensures
        ({
            let fields = json::fields(members);
            let meaning = meaning_of(Tree::Object(members), outline);
            &&& meaning == Meaning::Request(id, asked) <==> {
                &&& stands_as_id(fields, id)
                &&& !members::is_repeated(outline.names, "id"@)
                &&& !members::is_repeated(outline.names, "request"@)
                &&& kind_in(fields) matches Some(kind)
                &&& forall|i: int|
                    0 <= i < fields_of(kind).len() ==> !members::is_repeated(
                        outline.names,
                        #[trigger] fields_of(kind)[i],
                    )
                &&& asked_in(kind, fields, members::entries_of(outline, "owner"@)) == Ok::<
                    Asked,
                    Seq<char>,
                >(asked)
            }
            &&& {
                &&& stands_as_id(fields, id)
                &&& !members::is_repeated(outline.names, "id"@)
                &&& !members::is_repeated(outline.names, "request"@)
                &&& fields.contains_key("request"@)
                &&& fields["request"@] matches Tree::Text(name)
                &&& forall|kind: Kind| name != #[trigger] name_of(kind)
            } ==> meaning == Meaning::Refused(id, "unknown request"@)
        }),
{
    let fields = json::fields(members);
    if let Some(kind) = kind_in(fields) {
        lemma_first_repeated(fields_of(kind), outline.names);
    }
    if fields.contains_key("request"@) {
        if let Tree::Text(name) = fields["request"@] {
            if let Some(kind) = kind_named(name) {
                law_every_request_is_known_by_its_name(name, 0, kind);
                assert(name == name_of(kind));
            }
        }
    }
}

proof fn lemma_first_repeated(fields: Seq<Seq<char>>, names: Seq<Seq<char>>)
    ensures
        first_repeated(fields, names) is None <==> forall|i: int|
            0 <= i < fields.len() ==> !members::is_repeated(names, #[trigger] fields[i]),
    decreases fields.len(),
{
    if fields.len() > 0 {
        let front = fields.drop_last();
        lemma_first_repeated(front, names);
        if first_repeated(fields, names) is None {
            assert forall|i: int| 0 <= i < fields.len() implies !members::is_repeated(
                names,
                #[trigger] fields[i],
            ) by {
                if i < front.len() {
                    assert(front[i] == fields[i]);
                }
            }
        }
        if forall|i: int|
            0 <= i < fields.len() ==> !members::is_repeated(names, #[trigger] fields[i]) {
            assert forall|i: int| 0 <= i < front.len() implies !members::is_repeated(
                names,
                #[trigger] front[i],
            ) by {
                assert(front[i] == fields[i]);
            }
            assert(fields.last() == fields[fields.len() - 1]);
        }
    }
}

/// Nothing but an object is a request, and a line that cannot be read is none either.
pub proof fn law_only_an_object_is_a_request(tree: Tree, outline: members::Outlined, line: Seq<u8>)
    ensures
        !(tree is Object) ==> meaning_of(tree, outline) == Meaning::Refused(
            None,
            "a request must be an object"@,
        ),
        json::json_read(line) matches Err(why) ==> meaning_of_line(line) == Meaning::Refused(
            None,
            why,
        ),
        json::json_read(line) matches Ok(read) ==> meaning_of_line(line) == meaning_of(
            read,
            members::outline_of(line),
        ),
{
}

/// A line is blank where it holds nothing but blanks, tabs, line feeds, form feeds and
/// carriage returns.
pub proof fn law_a_blank_line_holds_white_space_only(line: Seq<u8>)
    ensures
        is_blank_line(line) <==> forall|i: int|
            #![trigger line[i]]
            0 <= i < line.len() ==> line[i] == 32 || line[i] == 9 || line[i] == 10 || line[i] == 12
                || line[i] == 13,
{
    assert(forall|i: int|
        #![trigger line[i]]
        0 <= i < line.len() ==> is_blank(line[i]) == (line[i] == 32 || line[i] == 9 || line[i] == 10
            || line[i] == 12 || line[i] == 13));
}

/// A line comes out as what it asks for: the request with its `id`, or one line of JSON that
/// answers with the error and with the `id` that it is answered with.
pub proof fn law_a_line_comes_out_as_it_was_meant(parsed: Parsed, meaning: Meaning)
    requires
        parsed_as(parsed, meaning),
    ensures
        match meaning {
            Meaning::Request(id, asked) => {
                &&& parsed matches Parsed::Request(number, request)
                &&& request@ == asked
                &&& match number {
                    Some(n) => id == Some(n as nat),
                    None => id is None,
                }
            },
            Meaning::Refused(id, why) => {
                &&& parsed matches Parsed::Invalid(text)
                &&& text@ == json::json_text(reply::reply_tree(id, Err(why)))
                &&& !text@.contains('\n')
                &&& json::json_read(vstd::utf8::encode_utf8(text@)) matches Ok(read)
                &&& read == reply::reply_tree(id, Err(why))
            },
        },
{
}

/// What is there twice is named in the answer, which carries no `id`.
pub proof fn law_what_is_there_twice_is_named(
    members: Seq<(Seq<char>, Tree)>,
    outline: members::Outlined,
)
    ensures
        members::is_repeated(outline.names, "id"@) ==> meaning_of(Tree::Object(members), outline)
            == Meaning::Refused(None, "duplicate field `"@ + "id"@ + "`"@),
        !members::is_repeated(outline.names, "id"@) && members::is_repeated(
            outline.names,
            "request"@,
        ) ==> meaning_of(Tree::Object(members), outline) == Meaning::Refused(
            None,
            "duplicate field `"@ + "request"@ + "`"@,
        ),
{
}

/// What a request says is what it holds: its names, its numbers and its choices, each in its
/// place.
pub proof fn law_a_request_says_what_it_holds(request: Request)
    ensures
        match request {
            Request::GetOutputs => request@ is GetOutputs,
            Request::GetState => request@ is GetState,
            Request::SetMode { output, w, h, refresh } => request@ == (Asked::SetMode {
                output: output@,
                w: w as int,
                h: h as int,
                refresh,
            }),
            Request::PlaceWindow { app_id, title, x, y, w, h } => {
                &&& request@ matches Asked::PlaceWindow {
                    app_id: id,
                    title: name,
                    x: left,
                    y: top,
                    w: width,
                    h: height,
                }
                &&& id == text::owned(app_id) && name == text::owned(title)
                &&& left == x && top == y && width == w && height == h
            },
            Request::TypeText { text, select_all } => request@ == (Asked::TypeText {
                text: text@,
                select_all,
            }),
            Request::Screenshot { path } => request@ == (Asked::Screenshot { path: path@ }),
            Request::SetFocus { owner, app } => request@ == (Asked::SetFocus {
                owner,
                app: text::owned(app),
            }),
            Request::SetHdr { output, on } => request@ == (Asked::SetHdr { output: output@, on }),
        },
{
}

}
