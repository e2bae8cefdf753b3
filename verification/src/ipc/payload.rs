//! What the answers to requests carry.

use vstd::prelude::*;
use crate::health::Health;
use crate::ipc::reply::{HdrInfo, ModeInfo, OutputInfo};
use crate::json;
use crate::json::{Json, Tree};
use crate::stacking;
use crate::stacking::{Names, Window};
use crate::state::{Focus, FocusName};
use crate::text;

verus! {

/// A mode as it is reported.
pub open spec fn mode_members(mode: ModeInfo) -> Seq<(Seq<char>, Tree)> {
    seq![
        ("w"@, Tree::Int(mode.w as int)),
        ("h"@, Tree::Int(mode.h as int)),
        ("refresh"@, Tree::Int(mode.refresh as int)),
        ("preferred"@, Tree::Bool(mode.preferred)),
    ]
}

/// The same as one value.
pub open spec fn mode_tree(mode: ModeInfo) -> Tree {
    json::object(mode_members(mode))
}

fn mode_json(mode: &ModeInfo) -> (r: Json)
    ensures
        r.tree() == mode_tree(*mode),
        json::writable(r, 1),
{
    let mut members: Vec<(String, Json)> = Vec::new();
    json::put(&mut members, "w", Json::Int(mode.w as i128));
    json::put(&mut members, "h", Json::Int(mode.h as i128));
    json::put(&mut members, "refresh", Json::Int(mode.refresh as i128));
    json::put(&mut members, "preferred", Json::Bool(mode.preferred));
    assert(json::all_writable(members@, 0));
    assert(json::pairs_of(members@) == mode_members(*mode));
    Json::Object(members)
}

/// The modes of an output as they are reported.
pub open spec fn modes_tree(modes: Seq<ModeInfo>) -> Seq<Tree> {
    Seq::new(modes.len(), |i: int| mode_tree(modes[i]))
}

fn modes_json(modes: &Vec<ModeInfo>) -> (r: Json)
    ensures
        r.tree() == Tree::List(modes_tree(modes@)),
        json::writable(r, 2),
{
    let mut items: Vec<Json> = Vec::new();
    let mut at: usize = 0;
    while at < modes.len()
        invariant
            at <= modes@.len(),
            json::trees(items@) == modes_tree(modes@).take(at as int),
            items@.len() == at,
            forall|i: int| 0 <= i < at ==> json::writable(#[trigger] items@[i], 1),
        decreases modes@.len() - at,
    {
        json::add_item(&mut items, mode_json(&modes[at]));
        at += 1;
    }
    assert(json::trees(items@) == modes_tree(modes@));
    Json::List(items)
}

/// The colour space state as it is reported.
pub open spec fn hdr_members(hdr: HdrInfo) -> Seq<(Seq<char>, Tree)> {
    seq![
        ("supported"@, Tree::Bool(hdr.supported)),
        ("on"@, Tree::Bool(hdr.on)),
    ]
}

/// The same as one value.
pub open spec fn hdr_tree(hdr: HdrInfo) -> Tree {
    json::object(hdr_members(hdr))
}

fn hdr_json(hdr: &HdrInfo) -> (r: Json)
    ensures
        r.tree() == hdr_tree(*hdr),
        json::writable(r, 1),
{
    let mut members: Vec<(String, Json)> = Vec::new();
    json::put(&mut members, "supported", Json::Bool(hdr.supported));
    json::put(&mut members, "on", Json::Bool(hdr.on));
    assert(json::all_writable(members@, 0));
    assert(json::pairs_of(members@) == hdr_members(*hdr));
    Json::Object(members)
}

/// An output as it is reported.
pub open spec fn output_members(output: OutputInfo) -> Seq<(Seq<char>, Tree)> {
    seq![
        ("name"@, Tree::Text(output.name@)),
        ("current"@, match output.current { Some(mode) => mode_tree(mode), None => Tree::Null, }),
        ("modes"@, Tree::List(modes_tree(output.modes@))),
        ("connected"@, Tree::Bool(output.connected)),
        ("hdr"@, hdr_tree(output.hdr)),
    ]
}

/// The same as one value.
pub open spec fn output_tree(output: OutputInfo) -> Tree {
    json::object(output_members(output))
}

fn output_json(output: &OutputInfo) -> (r: Json)
    ensures
        r.tree() == output_tree(*output),
        json::writable(r, 3),
{
    let mut members: Vec<(String, Json)> = Vec::new();
    json::put(&mut members, "name", Json::Text(output.name.clone()));
    let current = match &output.current {
        Some(mode) => mode_json(mode),
        None => Json::Null,
    };
    let hdr = hdr_json(&output.hdr);
    proof {
        json::lemma_writable_deeper(hdr, 1, 2);
        if output.current is Some {
            json::lemma_writable_deeper(current, 1, 2);
        }
    }
    json::put(&mut members, "current", current);
    json::put(&mut members, "modes", modes_json(&output.modes));
    json::put(&mut members, "connected", Json::Bool(output.connected));
    json::put(&mut members, "hdr", hdr);
    assert(json::all_writable(members@, 2));
    assert(json::pairs_of(members@) == output_members(*output));
    Json::Object(members)
}

/// What `get_outputs` answers.
pub open spec fn outputs_tree(outputs: Seq<OutputInfo>) -> Tree {
    json::object(
        seq![
            ("outputs"@, Tree::List(Seq::new(outputs.len(), |i: int| output_tree(outputs[i])))),
        ],
    )
}

/// Answer `get_outputs`.
pub fn outputs(list: &Vec<OutputInfo>) -> (r: Json)
    ensures
        r.tree() == outputs_tree(list@),
        json::writable(r, 5),
{
    let ghost all = Seq::new(list@.len(), |i: int| output_tree(list@[i]));
    let mut items: Vec<Json> = Vec::new();
    let mut at: usize = 0;
    while at < list.len()
        invariant
            at <= list@.len(),
            all == Seq::new(list@.len(), |i: int| output_tree(list@[i])),
            json::trees(items@) == all.take(at as int),
            items@.len() == at,
            forall|i: int| 0 <= i < at ==> json::writable(#[trigger] items@[i], 3),
        decreases list@.len() - at,
    {
        json::add_item(&mut items, output_json(&list[at]));
        at += 1;
    }
    assert(json::trees(items@) == all);
    let answer = Json::List(items);
    assert(json::writable(answer, 4));
    let mut members: Vec<(String, Json)> = Vec::new();
    json::put(&mut members, "outputs", answer);
    assert(json::all_writable(members@, 4));
    Json::Object(members)
}

/// Answer `type_text`: how many keys were sent.
pub fn keys(count: usize) -> (r: Json)
    ensures
        r.tree() == json::object(seq![("keys"@, Tree::Int(count as int))]),
        json::writable(r, 1),
{
    let mut members: Vec<(String, Json)> = Vec::new();
    json::put(&mut members, "keys", Json::Int(count as i128));
    assert(json::all_writable(members@, 0));
    Json::Object(members)
}

/// Answer `screenshot`: where the picture went and its size.
pub fn screenshot(path: &str, w: i32, h: i32) -> (r: Json)
    ensures
        r.tree() == json::object(
            seq![
                ("path"@, Tree::Text(path@)),
                ("w"@, Tree::Int(w as int)),
                ("h"@, Tree::Int(h as int)),
            ],
        ),
        json::writable(r, 1),
{
    let mut members: Vec<(String, Json)> = Vec::new();
    json::put(&mut members, "path", Json::Text(path.to_owned()));
    json::put(&mut members, "w", Json::Int(w as i128));
    json::put(&mut members, "h", Json::Int(h as i128));
    assert(json::all_writable(members@, 0));
    assert(json::pairs_of(members@) == seq![
        ("path"@, Tree::Text(path@)),
        ("w"@, Tree::Int(w as int)),
        ("h"@, Tree::Int(h as int)),
    ]);
    Json::Object(members)
}

/// Who owns the screen, as it is reported.
pub open spec fn focus_tree(focus: FocusName) -> Tree {
    match focus {
        FocusName::Launcher => Tree::Text("launcher"@),
        FocusName::App(app) => json::object(seq![("app"@, Tree::Text(app))]),
    }
}

fn focus_json(focus: &Focus) -> (r: Json)
    ensures
        r.tree() == focus_tree(focus@),
        json::writable(r, 1),
{
    match focus {
        Focus::Launcher => Json::Text("launcher".to_owned()),
        Focus::App(app) => {
            let mut members: Vec<(String, Json)> = Vec::new();
            json::put(&mut members, "app", Json::Text(app.clone()));
            assert(json::all_writable(members@, 0));
            Json::Object(members)
        },
    }
}

/// A window as it is reported.
///
/// The title is there because it is what marks the overlay, and whether the window has
/// drawn anything yet because one that has not is listed while the keyboard passes it
/// over.
pub open spec fn window_members(window: Window, keyboard: bool) -> Seq<(Seq<char>, Tree)> {
    seq![
        ("app_id"@, json::text_tree(text::owned(window.app_id))),
        ("title"@, json::text_tree(text::owned(window.title))),
        ("mapped"@, Tree::Bool(window.on_screen())),
        ("keyboard"@, Tree::Bool(keyboard)),
    ]
}

/// The same as one value.
pub open spec fn window_tree(window: Window, keyboard: bool) -> Tree {
    json::object(window_members(window, keyboard))
}

fn window_json(window: &Window, keyboard: bool) -> (r: Json)
    ensures
        r.tree() == window_tree(*window, keyboard),
        json::writable(r, 1),
{
    let mut members: Vec<(String, Json)> = Vec::new();
    json::put(&mut members, "app_id", json::text_json(text::as_text(&window.app_id)));
    json::put(&mut members, "title", json::text_json(text::as_text(&window.title)));
    json::put(&mut members, "mapped", Json::Bool(stacking::mapped(window)));
    json::put(&mut members, "keyboard", Json::Bool(keyboard));
    assert(json::all_writable(members@, 0));
    assert(json::pairs_of(members@) == window_members(*window, keyboard));
    Json::Object(members)
}

/// The windows in an order, with the one that holds the keyboard marked.
pub open spec fn windows_tree(
    order: Seq<usize>,
    windows: Seq<Window>,
    keyboard: Option<usize>,
) -> Seq<Tree> {
    Seq::new(
        order.len(),
        |i: int| window_tree(windows[order[i] as int], keyboard == Some(order[i])),
    )
}

fn windows_json(windows: &Vec<Window>, names: &Names, keyboard: Option<usize>) -> (r: Json)
    ensures
        r.tree() == Tree::List(
            windows_tree(
                stacking::back_to_front(stacking::ranked(windows@, *names)).map_values(
                    |w: (usize, stacking::Rank)| w.0,
                ),
                windows@,
                keyboard,
            ),
        ),
        json::writable(r, 2),
{
    let order = stacking::stacked(windows, names);
    let ghost all = windows_tree(order@, windows@, keyboard);
    let mut items: Vec<Json> = Vec::new();
    let mut at: usize = 0;
    while at < order.len()
        invariant
            at <= order@.len(),
            all == windows_tree(order@, windows@, keyboard),
            forall|i: int| 0 <= i < order@.len() ==> #[trigger] order@[i] < windows@.len(),
            json::trees(items@) == all.take(at as int),
            items@.len() == at,
            forall|i: int| 0 <= i < at ==> json::writable(#[trigger] items@[i], 1),
        decreases order@.len() - at,
    {
        let which: usize = order[at];
        let holds: bool = match keyboard {
            Some(k) => k == which,
            None => false,
        };
        json::add_item(&mut items, window_json(&windows[which], holds));
        assert(json::trees(items@) == all.take(at + 1));
        at += 1;
    }
    assert(json::trees(items@) == all);
    Json::List(items)
}

/// What `get_state` answers: who owns the screen, whether something is asking the box to
/// stay awake, the windows back to front, what is running, and what the display path has
/// been doing.
pub open spec fn state_members(
    focus: FocusName,
    idle_inhibited: bool,
    windows: Seq<Window>,
    names: Names,
    keyboard: Option<usize>,
    version: Seq<char>,
    health: Health,
) -> Seq<(Seq<char>, Tree)> {
    seq![
        ("focus"@, focus_tree(focus)),
        ("idle_inhibited"@, Tree::Bool(idle_inhibited)),
        ("windows"@, Tree::List( windows_tree( stacking::back_to_front(stacking::ranked(windows, names)).map_values( |w: (usize, stacking::Rank)| w.0, ), windows, keyboard, ), )),
        ("version"@, Tree::Text(version)),
        ("health"@, health.tree()),
    ]
}

/// The same as one value.
pub open spec fn state_tree(
    focus: FocusName,
    idle_inhibited: bool,
    windows: Seq<Window>,
    names: Names,
    keyboard: Option<usize>,
    version: Seq<char>,
    health: Health,
) -> Tree {
    json::object(state_members(focus, idle_inhibited, windows, names, keyboard, version, health))
}

/// Answer `get_state`. `keyboard` is the place in `windows` of the one that holds the
/// keyboard.
pub fn state(
    focus: &Focus,
    idle_inhibited: bool,
    windows: &Vec<Window>,
    names: &Names,
    keyboard: Option<usize>,
    version: &str,
    health: &Health,
) -> (r: Json)
    ensures
        r.tree() == state_tree(
            focus@,
            idle_inhibited,
            windows@,
            *names,
            keyboard,
            version@,
            *health,
        ),
        json::writable(r, 3),
{
    let owner = focus_json(focus);
    proof {
        json::lemma_writable_deeper(owner, 1, 2);
    }
    let mut members: Vec<(String, Json)> = Vec::new();
    json::put(&mut members, "focus", owner);
    json::put(&mut members, "idle_inhibited", Json::Bool(idle_inhibited));
    json::put(&mut members, "windows", windows_json(windows, names, keyboard));
    json::put(&mut members, "version", Json::Text(version.to_owned()));
    json::put(&mut members, "health", health.json());
    assert(json::all_writable(members@, 2));
    assert(json::pairs_of(members@) == state_members(
        focus@,
        idle_inhibited,
        windows@,
        *names,
        keyboard,
        version@,
        *health,
    ));
    Json::Object(members)
}

/// Whether a value is an object in which a name stands for a value.
pub open spec fn says(tree: Tree, name: Seq<char>, value: Tree) -> bool {
    &&& tree matches Tree::Object(members)
    &&& json::fields(members).contains_key(name)
    &&& json::fields(members)[name] == value
}

/// A mode is reported by its width, its height, its rate and whether the display asks for it.
pub proof fn law_a_mode_says_what_it_is(mode: ModeInfo)
    ensures
        says(mode_tree(mode), "w"@, Tree::Int(mode.w as int)),
        says(mode_tree(mode), "h"@, Tree::Int(mode.h as int)),
        says(mode_tree(mode), "refresh"@, Tree::Int(mode.refresh as int)),
        says(mode_tree(mode), "preferred"@, Tree::Bool(mode.preferred)),
        mode_members(mode).len() == 4,
{
    reveal_strlit("w");
    reveal_strlit("h");
    reveal_strlit("refresh");
    reveal_strlit("preferred");
    assert("w"@.len() == 1 && "w"@[0] == 'w');
    assert("h"@.len() == 1 && "h"@[0] == 'h');
    assert("refresh"@.len() == 7 && "preferred"@.len() == 9);
    let members = mode_members(mode);
    json::law_members_keep_their_order(members);
    assert(members[0].0 == "w"@ && members[1].0 == "h"@ && members[2].0 == "refresh"@
        && members[3].0 == "preferred"@);
}

/// An output is reported by its name, the mode in use, every mode it has in order, whether a
/// display is there, and whether its colour space can be claimed and is.
pub proof fn law_an_output_says_what_it_is(output: OutputInfo)
    ensures
        says(output_tree(output), "name"@, Tree::Text(output.name@)),
        says(
            output_tree(output),
            "current"@,
            match output.current {
                Some(mode) => mode_tree(mode),
                None => Tree::Null,
            },
        ),
        says(
            output_tree(output),
            "modes"@,
            Tree::List(Seq::new(output.modes@.len(), |i: int| mode_tree(output.modes@[i]))),
        ),
        says(output_tree(output), "connected"@, Tree::Bool(output.connected)),
        says(output_tree(output), "hdr"@, hdr_tree(output.hdr)),
        says(hdr_tree(output.hdr), "supported"@, Tree::Bool(output.hdr.supported)),
        says(hdr_tree(output.hdr), "on"@, Tree::Bool(output.hdr.on)),
{
    reveal_strlit("name");
    reveal_strlit("current");
    reveal_strlit("modes");
    reveal_strlit("connected");
    reveal_strlit("hdr");
    reveal_strlit("supported");
    reveal_strlit("on");
    assert("name"@.len() == 4 && "current"@.len() == 7 && "modes"@.len() == 5);
    assert("connected"@.len() == 9 && "hdr"@.len() == 3);
    assert("supported"@.len() == 9 && "on"@.len() == 2);
    let members = output_members(output);
    json::law_members_keep_their_order(members);
    assert(members[0].0 == "name"@ && members[1].0 == "current"@ && members[2].0 == "modes"@
        && members[3].0 == "connected"@ && members[4].0 == "hdr"@);
    let hdr = hdr_members(output.hdr);
    json::law_members_keep_their_order(hdr);
    assert(hdr[0].0 == "supported"@ && hdr[1].0 == "on"@);
    assert(modes_tree(output.modes@) =~= Seq::new(
        output.modes@.len(),
        |i: int| mode_tree(output.modes@[i]),
    ));
}

/// `get_outputs` answers with every output, in order.
pub proof fn law_every_output_is_reported(outputs: Seq<OutputInfo>)
    ensures
        says(
            outputs_tree(outputs),
            "outputs"@,
            Tree::List(Seq::new(outputs.len(), |i: int| output_tree(outputs[i]))),
        ),
{
    let members = seq![
        ("outputs"@, Tree::List(Seq::new(outputs.len(), |i: int| output_tree(outputs[i])))),
    ];
    json::law_members_keep_their_order(members);
    assert(members[0].0 == "outputs"@);
}

/// A window is reported by its names, whether anything of it is on screen, and whether it
/// holds the keyboard.
pub proof fn law_a_window_says_what_it_is(window: Window, keyboard: bool)
    ensures
        says(
            window_tree(window, keyboard),
            "app_id"@,
            match window.app_id {
                Some(id) => Tree::Text(id@),
                None => Tree::Null,
            },
        ),
        says(
            window_tree(window, keyboard),
            "title"@,
            match window.title {
                Some(title) => Tree::Text(title@),
                None => Tree::Null,
            },
        ),
        says(window_tree(window, keyboard), "mapped"@, Tree::Bool(window.w > 0 && window.h > 0)),
        says(window_tree(window, keyboard), "keyboard"@, Tree::Bool(keyboard)),
{
    reveal_strlit("app_id");
    reveal_strlit("title");
    reveal_strlit("mapped");
    reveal_strlit("keyboard");
    assert("app_id"@.len() == 6 && "app_id"@[0] == 'a');
    assert("mapped"@.len() == 6 && "mapped"@[0] == 'm');
    assert("title"@.len() == 5 && "keyboard"@.len() == 8);
    let members = window_members(window, keyboard);
    json::law_members_keep_their_order(members);
    assert(members[0].0 == "app_id"@ && members[1].0 == "title"@ && members[2].0 == "mapped"@
        && members[3].0 == "keyboard"@);
}

/// The windows are reported in the order they are given in, and the one that holds the keyboard
/// is marked and no other.
pub proof fn law_the_window_with_the_keyboard_is_marked(
    order: Seq<usize>,
    windows: Seq<Window>,
    keyboard: Option<usize>,
    at: int,
)
    requires
        0 <= at < order.len(),
    ensures
        windows_tree(order, windows, keyboard).len() == order.len(),
        says(
            windows_tree(order, windows, keyboard)[at],
            "keyboard"@,
            Tree::Bool(keyboard == Some(order[at])),
        ),
        windows_tree(order, windows, keyboard)[at] == window_tree(
            windows[order[at] as int],
            keyboard == Some(order[at]),
        ),
{
    law_a_window_says_what_it_is(windows[order[at] as int], keyboard == Some(order[at]));
}

/// Who owns the screen is reported as the launcher, or as the app by its name.
pub proof fn law_the_owner_is_reported_by_name(app: Seq<char>)
    ensures
        focus_tree(FocusName::Launcher) == Tree::Text("launcher"@),
        says(focus_tree(FocusName::App(app)), "app"@, Tree::Text(app)),
{
    let members = seq![("app"@, Tree::Text(app))];
    json::law_members_keep_their_order(members);
    assert(members[0].0 == "app"@);
}

/// `get_state` answers with who owns the screen, whether the box is kept awake, the windows
/// from the back to the front, the version, and what the display path has been doing.
pub proof fn law_the_state_says_what_it_is(
    focus: FocusName,
    idle_inhibited: bool,
    windows: Seq<Window>,
    names: Names,
    keyboard: Option<usize>,
    version: Seq<char>,
    health: Health,
)
    ensures
        ({
            let state = state_tree(
                focus,
                idle_inhibited,
                windows,
                names,
                keyboard,
                version,
                health,
            );
            &&& says(state, "focus"@, focus_tree(focus))
            &&& says(state, "idle_inhibited"@, Tree::Bool(idle_inhibited))
            &&& says(
                state,
                "windows"@,
                Tree::List(
                    windows_tree(stacking::stacking_order(windows, names), windows, keyboard),
                ),
            )
            &&& says(state, "version"@, Tree::Text(version))
            &&& says(state, "health"@, health.tree())
        }),
{
    reveal_strlit("focus");
    reveal_strlit("idle_inhibited");
    reveal_strlit("windows");
    reveal_strlit("version");
    reveal_strlit("health");
    assert("focus"@.len() == 5 && "idle_inhibited"@.len() == 14 && "health"@.len() == 6);
    assert("windows"@.len() == 7 && "windows"@[0] == 'w');
    assert("version"@.len() == 7 && "version"@[0] == 'v');
    let members = state_members(
        focus,
        idle_inhibited,
        windows,
        names,
        keyboard,
        version,
        health,
    );
    json::law_members_keep_their_order(members);
    assert(members[0].0 == "focus"@ && members[1].0 == "idle_inhibited"@ && members[2].0
        == "windows"@ && members[3].0 == "version"@ && members[4].0 == "health"@);
}

}
