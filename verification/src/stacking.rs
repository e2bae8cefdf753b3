//! Which window is in front.
//!
//! A general compositor stacks by whatever the user last raised. This box has a
//! rule instead: the shell's window is always in front of everything else, and the
//! order among the rest is the order they mapped in.
//!
//! The shell's fullscreen window is translucent and the film plays behind it, so a
//! film that maps later - which it always does, the shell starts first - would
//! otherwise cover the UI that is supposed to be over it. Plane assignment follows
//! the same order, so it also decides which surface gets the primary plane.
//!
//! A native program is not an exception: the shell unmaps its windows before one
//! starts, so there is nothing of ours left to keep in front.

use crate::state::{PlaceKey, PlaceName};
use crate::text::{as_text, borrowed, is_text, owned};
use vstd::prelude::*;

verus! {

/// The shell's Wayland app id, which is its package name.
pub const SHELL_APP_ID: &'static str = "tvbox-shell";

/// The title of the one shell window that sits above even the rest of the shell.
///
/// A title and not an app id: every window of one Chromium process presents the same
/// app id, so nothing else tells the launcher, an app and a note apart.
pub const OVERLAY_TITLE: &'static str = "tvbox-overlay";

/// Where a window sits, back to front.
#[derive(Debug, Clone, Copy, PartialEq, Eq, PartialOrd, Ord, Structural)]
pub enum Rank {
    /// Everything else: an app, a film, a native program.
    Other,
    /// The shell's own windows.
    Shell,
    /// The note that has to be seen over all of it.
    Overlay,
}

impl Rank {
    /// How far in front a rank is.
    pub open spec fn level(self) -> int {
        match self {
            Rank::Other => 0,
            Rank::Shell => 1,
            Rank::Overlay => 2,
        }
    }
}

/// The windows of one rank, in the order they were given.
pub open spec fn group<T>(windows: Seq<(T, Rank)>, rank: Rank) -> Seq<(T, Rank)> {
    windows.filter(|w: (T, Rank)| w.1 == rank)
}

/// Back to front: everything else, then the shell's windows, then the overlay, each
/// group in the order it was given.
pub open spec fn back_to_front<T>(windows: Seq<(T, Rank)>) -> Seq<(T, Rank)> {
    group(windows, Rank::Other) + group(windows, Rank::Shell) + group(windows, Rank::Overlay)
}

/// One more window joins the group of its own rank and no other.
proof fn lemma_group_step<T>(windows: Seq<(T, Rank)>, i: int, rank: Rank)
    requires
        0 <= i < windows.len(),
    ensures
        group(windows.take(i + 1), rank) == (if windows[i].1 == rank {
            group(windows.take(i), rank).push(windows[i])
        } else {
            group(windows.take(i), rank)
        }),
{
    reveal(Seq::filter);
    assert(windows.take(i + 1).drop_last() == windows.take(i));
}

/// Back to front, keeping the given order within each group.
pub fn order<T>(windows: Vec<(T, Rank)>) -> (r: Vec<T>)
    ensures
        r@ == back_to_front(windows@).map_values(|w: (T, Rank)| w.0),
{
    let ghost all = windows@;
    let mut other: Vec<T> = Vec::new();
    let mut shell: Vec<T> = Vec::new();
    let mut overlay: Vec<T> = Vec::new();
    assert(all.take(0) == Seq::<(T, Rank)>::empty());
    proof {
        reveal(Seq::filter);
    }
    for entry in it: windows
        invariant
            it.seq() == all,
            other@ == group(all.take(it.index()), Rank::Other).map_values(|w: (T, Rank)| w.0),
            shell@ == group(all.take(it.index()), Rank::Shell).map_values(|w: (T, Rank)| w.0),
            overlay@ == group(all.take(it.index()), Rank::Overlay).map_values(
                |w: (T, Rank)| w.0,
            ),
    {
        proof {
            let i = it.index();
            lemma_group_step(all, i, Rank::Other);
            lemma_group_step(all, i, Rank::Shell);
            lemma_group_step(all, i, Rank::Overlay);
        }
        let (window, rank) = entry;
        match rank {
            Rank::Other => other.push(window),
            Rank::Shell => shell.push(window),
            Rank::Overlay => overlay.push(window),
        }
    }
    assert(all.take(all.len() as int) == all);
    other.append(&mut shell);
    other.append(&mut overlay);
    other
}

/// Which group a window belongs to: only the shell's own windows can be in front,
/// and only the one with the reserved title is the overlay.
pub open spec fn rank_for(
    app_id: Option<Seq<char>>,
    title: Option<Seq<char>>,
    shell: Seq<char>,
    overlay: Seq<char>,
) -> Rank {
    if app_id != Some(shell) {
        Rank::Other
    } else if title == Some(overlay) {
        Rank::Overlay
    } else {
        Rank::Shell
    }
}

/// Who is allowed in front of what.
///
/// A title is a string any page can set, so without the app id a web app could name
/// itself to the front.
pub fn rank_of(
    app_id: Option<&str>,
    title: Option<&str>,
    shell: &str,
    overlay: &str,
) -> (r: Rank)
    ensures
        r == rank_for(borrowed(app_id), borrowed(title), shell@, overlay@),
{
    if !is_text(app_id, shell) {
        return Rank::Other;
    }
    if is_text(title, overlay) {
        Rank::Overlay
    } else {
        Rank::Shell
    }
}

/// The name that counts once another one has been presented: the first.
pub open spec fn latched(
    remembered: Option<Seq<char>>,
    committed: Option<Seq<char>>,
) -> Option<Seq<char>> {
    if remembered is None {
        committed
    } else {
        remembered
    }
}

/// Keep the first name a client presents, and answer with it from then on.
///
/// `xdg_toplevel.set_app_id` can be sent at any time. Reading it live would let a
/// client walk in front of the shell by renaming itself after mapping, or escape a
/// picture-in-picture rectangle. Silence is not an answer: a toplevel exists before
/// its client has sent anything about it, so an absent name is asked for again.
pub fn latch(remembered: &mut Option<String>, committed: Option<String>) -> (r: Option<String>)
    ensures
        owned(*final(remembered)) == latched(owned(*old(remembered)), owned(committed)),
        owned(r) == owned(*final(remembered)),
{
    if remembered.is_none() {
        *remembered = committed;
    }
    match remembered {
        Some(name) => Some(name.clone()),
        None => None,
    }
}

/// The keys a window can be placed by, most specific first.
pub open spec fn place_names(
    app_id: Option<Seq<char>>,
    title: Option<Seq<char>>,
    shell: Seq<char>,
) -> Seq<PlaceName> {
    match (app_id, title) {
        (Some(id), Some(title)) if id == shell => seq![
            PlaceName::Title(title),
            PlaceName::AppId(id),
        ],
        (Some(id), _) => seq![PlaceName::AppId(id)],
        (None, _) => seq![],
    }
}

/// The characters of a list of keys.
pub open spec fn key_names(keys: Seq<PlaceKey>) -> Seq<PlaceName> {
    keys.map_values(|key: PlaceKey| key@)
}

/// The keys a window can be placed by, most specific first.
///
/// A title names one window and an app id names all of a client's, so a title
/// placement has to win. It is gated on the app id: without that any client could
/// put itself in the note's rectangle by naming itself.
pub fn place_keys_for(
    app_id: Option<&str>,
    title: Option<&str>,
    shell: &str,
) -> (r: Vec<PlaceKey>)
    ensures
        key_names(r@) == place_names(borrowed(app_id), borrowed(title), shell@),
{
    let mut keys: Vec<PlaceKey> = Vec::new();
    if is_text(app_id, shell) {
        if let Some(title) = title {
            keys.push(PlaceKey::Title(title.to_owned()));
        }
    }
    if let Some(app_id) = app_id {
        keys.push(PlaceKey::AppId(app_id.to_owned()));
    }
    keys
}

/// What the rules read of a toplevel.
pub struct Window {
    /// The app id it first presented.
    pub app_id: Option<String>,
    /// Its current title.
    ///
    /// Not latched, unlike the app id: the title is how the one overlay window is
    /// recognised.
    pub title: Option<String>,
    /// The width of its geometry.
    pub w: i32,
    /// The height of its geometry.
    pub h: i32,
}

/// The two names that the stacking rule knows.
pub struct Names {
    /// The app id to treat as the shell.
    pub shell: String,
    /// The title that marks the always-on-top overlay.
    pub overlay: String,
}

impl Names {
    /// The names a box sets, or the usual ones.
    pub fn resolve(shell: Option<String>, overlay: Option<String>) -> (r: Names)
        ensures
            r.shell@ == (match shell {
                Some(name) => name@,
                None => SHELL_APP_ID@,
            }),
            r.overlay@ == (match overlay {
                Some(name) => name@,
                None => OVERLAY_TITLE@,
            }),
    {
        Names {
            shell: match shell {
                Some(name) => name,
                None => SHELL_APP_ID.to_owned(),
            },
            overlay: match overlay {
                Some(name) => name,
                None => OVERLAY_TITLE.to_owned(),
            },
        }
    }
}

impl Window {
    /// The group this window belongs to.
    pub open spec fn rank_in(&self, names: Names) -> Rank {
        rank_for(owned(self.app_id), owned(self.title), names.shell@, names.overlay@)
    }

    /// Whether there is anything of this window on screen.
    pub open spec fn on_screen(&self) -> bool {
        self.w > 0 && self.h > 0
    }
}

/// Which group a window belongs to.
pub fn rank(window: &Window, names: &Names) -> (r: Rank)
    ensures
        r == window.rank_in(*names),
        r.level() == height(*window, *names),
{
    rank_of(
        as_text(&window.app_id),
        as_text(&window.title),
        names.shell.as_str(),
        names.overlay.as_str(),
    )
}

/// The keys a window can be placed by, most specific first.
pub fn place_key(window: &Window, shell: &str) -> (r: Vec<PlaceKey>)
    ensures
        key_names(r@) == place_names(owned(window.app_id), owned(window.title), shell@),
{
    place_keys_for(as_text(&window.app_id), as_text(&window.title), shell)
}

/// Is this window on screen yet?
///
/// A toplevel exists before its client has committed a buffer for it, and a window
/// with nothing on screen is not what anyone is looking at.
pub fn mapped(window: &Window) -> (r: bool)
    ensures
        r == window.on_screen(),
        r == (window.w > 0 && window.h > 0),
{
    window.w > 0 && window.h > 0
}

/// The places of the windows in a list, each with its rank.
pub open spec fn ranked(windows: Seq<Window>, names: Names) -> Seq<(usize, Rank)> {
    Seq::new(windows.len(), |i: int| (i as usize, windows[i].rank_in(names)))
}

proof fn lemma_places_are_kept(windows: Seq<Window>, names: Names)
    requires
        windows.len() <= usize::MAX,
    ensures
        back_to_front(ranked(windows, names)).len() == windows.len(),
        forall|i: int|
            0 <= i < windows.len() ==> (#[trigger] back_to_front(ranked(windows, names))[i]).0
                < windows.len(),
{
    let entries = ranked(windows, names);
    let stack = back_to_front(entries);
    law_stacking_keeps_every_window(entries);
    entries.to_multiset_ensures();
    stack.to_multiset_ensures();
    assert forall|i: int| 0 <= i < stack.len() implies (#[trigger] stack[i]).0 < windows.len() by {
        assert(stack.contains(stack[i]));
        assert(stack.to_multiset().count(stack[i]) > 0);
        assert(entries.contains(stack[i]));
    }
}

/// Back to front: everything else, then the shell's windows, then the overlay. Each
/// window is given by its place in `windows`.
pub fn stacked(windows: &Vec<Window>, names: &Names) -> (r: Vec<usize>)
    ensures
        r@ == back_to_front(ranked(windows@, *names)).map_values(|w: (usize, Rank)| w.0),
        r@.len() == windows@.len(),
        forall|i: int| 0 <= i < r@.len() ==> #[trigger] r@[i] < windows@.len(),
        forall|a: int, b: int|
            0 <= a < b < r@.len() ==> {
                let lower = #[trigger] r@[a];
                let upper = #[trigger] r@[b];
                ||| height(windows@[lower as int], *names) < height(windows@[upper as int], *names)
                ||| height(windows@[lower as int], *names) == height(
                    windows@[upper as int],
                    *names,
                ) && lower < upper
            },
{
    let mut entries: Vec<(usize, Rank)> = Vec::new();
    let mut i: usize = 0;
    while i < windows.len()
        invariant
            i <= windows@.len(),
            entries@ == ranked(windows@, *names).take(i as int),
        decreases windows@.len() - i,
    {
        entries.push((i, rank(&windows[i], names)));
        i += 1;
    }
    assert(entries@ == ranked(windows@, *names));
    proof {
        lemma_places_are_kept(windows@, *names);
        let stack = stacking_order(windows@, *names);
        assert forall|a: int, b: int| 0 <= a < b < stack.len() implies {
            let lower = #[trigger] stack[a];
            let upper = #[trigger] stack[b];
            ||| height(windows@[lower as int], *names) < height(windows@[upper as int], *names)
            ||| height(windows@[lower as int], *names) == height(windows@[upper as int], *names)
                && lower < upper
        } by {
            law_windows_are_stacked_by_height_and_age(windows@, *names, a, b);
        }
    }
    order(entries)
}

/// Whether a window may hold the keyboard: it is not the overlay, and it is on screen
/// where that is asked for.
pub open spec fn may_type<T>(window: (T, Rank, bool), on_screen: bool) -> bool {
    window.1 != Rank::Overlay && (window.2 || !on_screen)
}

/// The place in a stack of the frontmost window that may hold the keyboard, or -1.
pub open spec fn frontmost_at<T>(stack: Seq<(T, Rank, bool)>, on_screen: bool) -> int
    decreases stack.len(),
{
    if stack.len() == 0 {
        -1
    } else if may_type(stack.last(), on_screen) {
        stack.len() - 1
    } else {
        frontmost_at(stack.drop_last(), on_screen)
    }
}

/// The frontmost window of a stack that may hold the keyboard.
pub open spec fn frontmost<T>(stack: Seq<(T, Rank, bool)>, on_screen: bool) -> Option<T> {
    let at = frontmost_at(stack, on_screen);
    if at < 0 {
        None
    } else {
        Some(stack[at].0)
    }
}

/// Windows with their rank beside them.
pub open spec fn tagged<T>(windows: Seq<(T, Rank, bool)>) -> Seq<((T, Rank, bool), Rank)> {
    windows.map_values(|w: (T, Rank, bool)| (w, w.1))
}

/// A list of windows, back to front.
pub open spec fn stack_of<T>(windows: Seq<(T, Rank, bool)>) -> Seq<(T, Rank, bool)> {
    back_to_front(tagged(windows)).map_values(|w: ((T, Rank, bool), Rank)| w.0)
}

/// The window that should hold the keyboard: the frontmost one on screen that is not
/// the overlay, or else the frontmost one that is not the overlay.
pub open spec fn keyboard_holder<T>(windows: Seq<(T, Rank, bool)>) -> Option<T> {
    match frontmost(stack_of(windows), true) {
        Some(window) => Some(window),
        None => frontmost(stack_of(windows), false),
    }
}

/// The frontmost window that may hold the keyboard.
///
/// A window that has mapped is preferred over one that has not. A preference rather
/// than a filter: the shell tears the outgoing window down before the incoming one
/// has painted, and answering "nobody" in between loses a press off an autorepeating
/// arrow. The overlay stays excluded either way: it is never a place to type.
pub fn focusable<T>(windows: Vec<(T, Rank, bool)>) -> (r: Option<T>)
    ensures
        r == keyboard_holder(windows@),
{
    let ghost all = windows@;
    let mut entries: Vec<((T, Rank, bool), Rank)> = Vec::new();
    for window in it: windows
        invariant
            it.seq() == all,
            entries@ == tagged(all).take(it.index()),
    {
        let rank = window.1;
        entries.push((window, rank));
    }
    assert(entries@ == tagged(all));
    let mut stack: Vec<(T, Rank, bool)> = order(entries);
    let mut waiting_to_map: Option<T> = None;
    assert(stack@ == stack_of(all));
    loop
        invariant
            all == windows@,
            frontmost(stack_of(all), true) == frontmost(stack@, true),
            match waiting_to_map {
                Some(window) => frontmost(stack_of(all), false) == Some(window),
                None => frontmost(stack_of(all), false) == frontmost(stack@, false),
            },
        decreases stack@.len(),
    {
        let ghost before = stack@;
        match stack.pop() {
            None => {
                return waiting_to_map;
            },
            Some((window, rank, mapped)) => {
                proof {
                    assert(stack@ == before.drop_last());
                    lemma_frontmost(stack@, true);
                    lemma_frontmost(stack@, false);
                }
                if rank != Rank::Overlay {
                    if mapped {
                        return Some(window);
                    }
                    if waiting_to_map.is_none() {
                        waiting_to_map = Some(window);
                    }
                }
            },
        }
    }
}

/// The places of the windows in a list, with what decides who holds the keyboard.
pub open spec fn contenders(windows: Seq<Window>, names: Names) -> Seq<(usize, Rank, bool)> {
    Seq::new(
        windows.len(),
        |i: int| (i as usize, windows[i].rank_in(names), windows[i].on_screen()),
    )
}

/// The window that should hold the keyboard, given by its place in `windows`.
///
/// The frontmost one, except the overlay: giving a note the keyboard because it
/// happens to be in front would take the remote away from whatever the person is
/// actually using, for as long as the note is up.
pub fn topmost(windows: &Vec<Window>, names: &Names) -> (r: Option<usize>)
    ensures
        r == keyboard_holder(contenders(windows@, *names)),
        answers_the_remote(windows@, *names, r),
{
    let mut entries: Vec<(usize, Rank, bool)> = Vec::new();
    let mut i: usize = 0;
    while i < windows.len()
        invariant
            i <= windows@.len(),
            entries@ == contenders(windows@, *names).take(i as int),
        decreases windows@.len() - i,
    {
        entries.push((i, rank(&windows[i], names), mapped(&windows[i])));
        i += 1;
    }
    assert(entries@ == contenders(windows@, *names));
    proof {
        law_the_frontmost_window_on_screen_answers(windows@, *names);
    }
    focusable(entries)
}

/// Every window of a group has the group's rank.
proof fn lemma_group_members<T>(windows: Seq<(T, Rank)>, rank: Rank)
    ensures
        forall|i: int|
            0 <= i < group(windows, rank).len() ==> (#[trigger] group(windows, rank)[i]).1 == rank,
    decreases windows.len(),
{
    reveal(Seq::filter);
    if windows.len() > 0 {
        lemma_group_members(windows.drop_last(), rank);
    }
}

/// A group of a group: itself, or nothing when the ranks differ.
proof fn lemma_group_of_group<T>(windows: Seq<(T, Rank)>, inner: Rank, outer: Rank)
    ensures
        group(group(windows, inner), outer) == (if inner == outer {
            group(windows, inner)
        } else {
            Seq::empty()
        }),
    decreases windows.len(),
{
    reveal(Seq::filter);
    if windows.len() > 0 {
        lemma_group_of_group(windows.drop_last(), inner, outer);
        let front = group(windows.drop_last(), inner);
        if windows.last().1 == inner {
            assert(group(windows, inner) == front.push(windows.last()));
            assert(front.push(windows.last()).drop_last() == front);
        }
    }
}

/// A group of two lists joined is the two groups joined.
proof fn lemma_group_of_both<T>(a: Seq<(T, Rank)>, b: Seq<(T, Rank)>, rank: Rank)
    ensures
        group(a + b, rank) == group(a, rank) + group(b, rank),
    decreases b.len(),
{
    reveal(Seq::filter);
    if b.len() == 0 {
        assert(a + b == a);
        assert(group(b, rank) == Seq::<(T, Rank)>::empty());
        assert(group(a, rank) + group(b, rank) == group(a, rank));
    } else {
        lemma_group_of_both(a, b.drop_last(), rank);
        assert((a + b).drop_last() == a + b.drop_last());
        assert((a + b).last() == b.last());
        if b.last().1 == rank {
            assert(group(a, rank) + group(b, rank) == (group(a, rank) + group(
                b.drop_last(),
                rank,
            )).push(b.last()));
        }
    }
}

/// Nothing of a lower rank is ever in front of something of a higher one: the shell's
/// windows stay in front of every other client's, and the note in front of both.
pub proof fn law_the_shell_stays_in_front<T>(windows: Seq<(T, Rank)>, behind: int, before: int)
    requires
        0 <= behind <= before < back_to_front(windows).len(),
    ensures
        back_to_front(windows)[behind].1.level() <= back_to_front(windows)[before].1.level(),
{
    lemma_group_members(windows, Rank::Other);
    lemma_group_members(windows, Rank::Shell);
    lemma_group_members(windows, Rank::Overlay);
    let other = group(windows, Rank::Other);
    let shell = group(windows, Rank::Shell);
    let overlay = group(windows, Rank::Overlay);
    assert forall|i: int| 0 <= i < back_to_front(windows).len() implies (
    #[trigger] back_to_front(windows)[i]).1 == (if i < other.len() {
        Rank::Other
    } else if i < other.len() + shell.len() {
        Rank::Shell
    } else {
        Rank::Overlay
    }) by {
        if i < other.len() {
            assert(back_to_front(windows)[i] == other[i]);
        } else if i < other.len() + shell.len() {
            assert(back_to_front(windows)[i] == shell[i - other.len()]);
        } else {
            assert(back_to_front(windows)[i] == overlay[i - other.len() - shell.len()]);
        }
    }
}

/// Within a rank the windows keep the order they were given in.
pub proof fn law_order_within_a_rank_is_kept<T>(windows: Seq<(T, Rank)>, rank: Rank)
    ensures
        group(back_to_front(windows), rank) == group(windows, rank),
{
    let other = group(windows, Rank::Other);
    let shell = group(windows, Rank::Shell);
    let overlay = group(windows, Rank::Overlay);
    lemma_group_of_both(other + shell, overlay, rank);
    lemma_group_of_both(other, shell, rank);
    lemma_group_of_group(windows, Rank::Other, rank);
    lemma_group_of_group(windows, Rank::Shell, rank);
    lemma_group_of_group(windows, Rank::Overlay, rank);
    assert(group(back_to_front(windows), rank) == group(windows, rank));
}

/// Stacking windows that are already stacked changes nothing, so a screen on which
/// nothing happened is not reshuffled from one frame to the next.
pub proof fn law_restacking_changes_nothing<T>(windows: Seq<(T, Rank)>)
    ensures
        back_to_front(back_to_front(windows)) == back_to_front(windows),
{
    law_order_within_a_rank_is_kept(windows, Rank::Other);
    law_order_within_a_rank_is_kept(windows, Rank::Shell);
    law_order_within_a_rank_is_kept(windows, Rank::Overlay);
}

/// Stacking neither loses a window nor shows one twice.
pub proof fn law_stacking_keeps_every_window<T>(windows: Seq<(T, Rank)>)
    ensures
        back_to_front(windows).to_multiset() == windows.to_multiset(),
    decreases windows.len(),
{
    broadcast use vstd::seq_lib::group_to_multiset_ensures;

    reveal(Seq::filter);
    if windows.len() == 0 {
        assert(back_to_front(windows) == windows);
    } else {
        let front = windows.drop_last();
        let last = windows.last();
        law_stacking_keeps_every_window(front);
        let other = group(front, Rank::Other);
        let shell = group(front, Rank::Shell);
        let overlay = group(front, Rank::Overlay);
        assert(windows == front.push(last));
        let at: int = match last.1 {
            Rank::Other => other.len() as int,
            Rank::Shell => (other.len() + shell.len()) as int,
            Rank::Overlay => (other.len() + shell.len() + overlay.len()) as int,
        };
        assert(back_to_front(windows) == back_to_front(front).insert(at, last));
        vstd::seq_lib::to_multiset_insert(back_to_front(front), at, last);
    }
}

/// What `frontmost_at` finds may type, and nothing in front of it may.
proof fn lemma_frontmost<T>(stack: Seq<(T, Rank, bool)>, on_screen: bool)
    ensures
        -1 <= frontmost_at(stack, on_screen) < stack.len(),
        frontmost_at(stack, on_screen) >= 0 ==> may_type(
            stack[frontmost_at(stack, on_screen)],
            on_screen,
        ),
        forall|k: int|
            frontmost_at(stack, on_screen) < k < stack.len() ==> !may_type(
                #[trigger] stack[k],
                on_screen,
            ),
    decreases stack.len(),
{
    if stack.len() > 0 && !may_type(stack.last(), on_screen) {
        lemma_frontmost(stack.drop_last(), on_screen);
        assert forall|k: int|
            frontmost_at(stack, on_screen) < k < stack.len() implies !may_type(
            #[trigger] stack[k],
            on_screen,
        ) by {
            if k < stack.len() - 1 {
                assert(stack.drop_last()[k] == stack[k]);
            }
        }
    }
}

/// A stack holds the windows it was made from, and no others.
proof fn lemma_stack_contents<T>(windows: Seq<(T, Rank, bool)>, w: (T, Rank, bool))
    ensures
        stack_of(windows).contains(w) <==> windows.contains(w),
{
    let entries = tagged(windows);
    let stacked = back_to_front(entries);
    let entry = (w, w.1);
    law_stacking_keeps_every_window(entries);
    entries.to_multiset_ensures();
    stacked.to_multiset_ensures();
    assert(entries.contains(entry) <==> entries.to_multiset().count(entry) > 0);
    assert(stacked.contains(entry) <==> stacked.to_multiset().count(entry) > 0);
    if windows.contains(w) {
        let i = choose|i: int| 0 <= i < windows.len() && windows[i] == w;
        assert(entries[i] == entry);
        let k = choose|k: int| 0 <= k < stacked.len() && stacked[k] == entry;
        assert(stack_of(windows)[k] == w);
    }
    if stack_of(windows).contains(w) {
        let k = choose|k: int| 0 <= k < stack_of(windows).len() && stack_of(windows)[k] == w;
        let found = stacked[k];
        assert(found.0 == w);
        assert(stacked.contains(found) <==> stacked.to_multiset().count(found) > 0);
        assert(entries.contains(found) <==> entries.to_multiset().count(found) > 0);
        let i = choose|i: int| 0 <= i < entries.len() && entries[i] == found;
        assert(windows[i] == w);
    }
}

/// Whoever holds the keyboard is one of the windows and may type.
proof fn lemma_keyboard_holder<T>(windows: Seq<(T, Rank, bool)>, on_screen: bool) -> (i: int)
    requires
        frontmost(stack_of(windows), on_screen) is Some,
    ensures
        0 <= i < windows.len(),
        Some(windows[i].0) == frontmost(stack_of(windows), on_screen),
        may_type(windows[i], on_screen),
{
    let stack = stack_of(windows);
    lemma_frontmost(stack, on_screen);
    let at = frontmost_at(stack, on_screen);
    assert(stack.contains(stack[at]));
    lemma_stack_contents(windows, stack[at]);
    choose|i: int| 0 <= i < windows.len() && windows[i] == stack[at]
}

/// A window that may type is reason enough for somebody to hold the keyboard.
proof fn lemma_somebody_may_type<T>(windows: Seq<(T, Rank, bool)>, i: int, on_screen: bool)
    requires
        0 <= i < windows.len(),
        may_type(windows[i], on_screen),
    ensures
        frontmost(stack_of(windows), on_screen) is Some,
{
    let stack = stack_of(windows);
    lemma_frontmost(stack, on_screen);
    assert(windows.contains(windows[i]));
    lemma_stack_contents(windows, windows[i]);
    let k = choose|k: int| 0 <= k < stack.len() && stack[k] == windows[i];
    assert(may_type(stack[k], on_screen));
}

/// The note never holds the keyboard: whoever does is one of the windows and is not
/// the overlay.
pub proof fn law_a_note_never_holds_the_keyboard<T>(windows: Seq<(T, Rank, bool)>)
    ensures
        keyboard_holder(windows) matches Some(window) ==> exists|i: int|
            0 <= i < windows.len() && (#[trigger] windows[i]).0 == window && windows[i].1
                != Rank::Overlay,
{
    if keyboard_holder(windows) is Some {
        let i = lemma_keyboard_holder(windows, frontmost(stack_of(windows), true) is Some);
        assert(windows[i].1 != Rank::Overlay);
    }
}

/// Somebody answers the remote whenever there is a window that may: the keyboard goes
/// to nobody exactly when every window is a note.
pub proof fn law_somebody_answers_the_remote<T>(windows: Seq<(T, Rank, bool)>)
    ensures
        keyboard_holder(windows) is None <==> forall|i: int|
            0 <= i < windows.len() ==> (#[trigger] windows[i]).1 == Rank::Overlay,
{
    if keyboard_holder(windows) is None {
        assert forall|i: int| 0 <= i < windows.len() implies (#[trigger] windows[i]).1
            == Rank::Overlay by {
            if windows[i].1 != Rank::Overlay {
                lemma_somebody_may_type(windows, i, false);
            }
        }
    } else {
        law_a_note_never_holds_the_keyboard(windows);
    }
}

/// A window on screen is preferred: while there is one that may type, the keyboard is
/// with one of them.
pub proof fn law_what_is_on_screen_is_preferred<T>(windows: Seq<(T, Rank, bool)>, shown: int)
    requires
        0 <= shown < windows.len(),
        windows[shown].1 != Rank::Overlay,
        windows[shown].2,
    ensures
        keyboard_holder(windows) matches Some(window) && exists|i: int|
            0 <= i < windows.len() && (#[trigger] windows[i]).0 == window && windows[i].1
                != Rank::Overlay && windows[i].2,
{
    lemma_somebody_may_type(windows, shown, true);
    let i = lemma_keyboard_holder(windows, true);
    assert(windows[i].2);
}

/// Nobody but the shell gets in front, whatever title they present, and nobody but
/// the shell is placed by one.
pub proof fn law_only_the_shell_may_claim_the_front(
    app_id: Option<Seq<char>>,
    title: Option<Seq<char>>,
    shell: Seq<char>,
    overlay: Seq<char>,
)
    requires
        app_id != Some(shell),
    ensures
        rank_for(app_id, title, shell, overlay) == Rank::Other,
        forall|name: Seq<char>|
            !(#[trigger] place_names(app_id, title, shell).contains(PlaceName::Title(name))),
{
}

/// The name a window carries after its client has presented a series of names.
pub open spec fn latched_after(
    remembered: Option<Seq<char>>,
    presented: Seq<Option<Seq<char>>>,
) -> Option<Seq<char>>
    decreases presented.len(),
{
    if presented.len() == 0 {
        remembered
    } else {
        latched(latched_after(remembered, presented.drop_last()), presented.last())
    }
}

/// The first name is the one that counts: whatever a client presents after it, and
/// however long it was silent before it.
pub proof fn law_the_first_name_counts(
    before: Seq<Option<Seq<char>>>,
    name: Seq<char>,
    after: Seq<Option<Seq<char>>>,
)
    requires
        forall|i: int| 0 <= i < before.len() ==> (#[trigger] before[i]) is None,
    ensures
        latched_after(None, before.push(Some(name)) + after) == Some(name),
    decreases before.len() + after.len(),
{
    let all = before.push(Some(name)) + after;
    if after.len() > 0 {
        law_the_first_name_counts(before, name, after.drop_last());
        assert(all.drop_last() == before.push(Some(name)) + after.drop_last());
    } else {
        assert(all == before.push(Some(name)));
        assert(all.drop_last() == before);
        lemma_silence_is_not_latched(before);
    }
}

/// A client that has presented nothing has no name yet.
proof fn lemma_silence_is_not_latched(presented: Seq<Option<Seq<char>>>)
    requires
        forall|i: int| 0 <= i < presented.len() ==> (#[trigger] presented[i]) is None,
    ensures
        latched_after(None, presented) is None,
    decreases presented.len(),
{
    if presented.len() > 0 {
        assert(presented.last() is None);
        lemma_silence_is_not_latched(presented.drop_last());
    }
}

/// How far in front a window belongs: the shell's windows in front of every other client's,
/// and the one of them with the reserved title in front of those.
pub open spec fn height(window: Window, names: Names) -> int {
    if owned(window.app_id) == Some(names.shell@) {
        if owned(window.title) == Some(names.overlay@) {
            2
        } else {
            1
        }
    } else {
        0
    }
}

/// A window's rank is how far in front it belongs: by its app id first, and by its title
/// only where that is the shell's.
pub proof fn law_a_rank_is_a_height(window: Window, names: Names)
    ensures
        window.rank_in(names) == Rank::Other <==> height(window, names) == 0,
        window.rank_in(names) == Rank::Shell <==> height(window, names) == 1,
        window.rank_in(names) == Rank::Overlay <==> height(window, names) == 2,
        window.rank_in(names).level() == height(window, names),
{
}

/// A group keeps the order of what it was taken from.
proof fn lemma_group_keeps_order<T>(windows: Seq<(T, Rank)>, rank: Rank, key: spec_fn(T) -> int)
    requires
        forall|i: int, j: int|
            0 <= i < j < windows.len() ==> key((#[trigger] windows[i]).0) < key(
                (#[trigger] windows[j]).0,
            ),
    ensures
        forall|i: int|
            0 <= i < group(windows, rank).len() ==> windows.contains(
                #[trigger] group(windows, rank)[i],
            ),
        forall|i: int, j: int|
            0 <= i < j < group(windows, rank).len() ==> key(
                (#[trigger] group(windows, rank)[i]).0,
            ) < key((#[trigger] group(windows, rank)[j]).0),
    decreases windows.len(),
{
    reveal(Seq::filter);
    if windows.len() > 0 {
        let front = windows.drop_last();
        let last = windows.len() - 1;
        assert forall|i: int, j: int| 0 <= i < j < front.len() implies key(
            (#[trigger] front[i]).0,
        ) < key((#[trigger] front[j]).0) by {
            assert(front[i] == windows[i] && front[j] == windows[j]);
        }
        lemma_group_keeps_order(front, rank, key);
        let fewer = group(front, rank);
        let all = group(windows, rank);
        assert forall|i: int| 0 <= i < all.len() implies windows.contains(#[trigger] all[i]) by {
            if i < fewer.len() {
                assert(all[i] == fewer[i]);
                let at = front.index_of(fewer[i]);
                assert(windows[at] == fewer[i]);
            } else {
                assert(windows[last] == all[i]);
            }
        }
        assert forall|i: int, j: int| 0 <= i < j < all.len() implies key((#[trigger] all[i]).0)
            < key((#[trigger] all[j]).0) by {
            assert(all[i] == fewer[i]);
            if j < fewer.len() {
                assert(all[j] == fewer[j]);
            } else {
                let at = front.index_of(fewer[i]);
                assert(front.contains(fewer[i]));
                assert(windows[at] == fewer[i]);
                assert(all[j] == windows[last]);
            }
        }
    }
}

/// A stack is in order of rank, and within a rank in the order of what it was made from.
proof fn lemma_stack_is_sorted<T>(windows: Seq<(T, Rank)>, key: spec_fn(T) -> int, a: int, b: int)
    requires
        forall|i: int, j: int|
            0 <= i < j < windows.len() ==> key((#[trigger] windows[i]).0) < key(
                (#[trigger] windows[j]).0,
            ),
        0 <= a < b < back_to_front(windows).len(),
    ensures
        ({
            let lower = back_to_front(windows)[a];
            let upper = back_to_front(windows)[b];
            ||| lower.1.level() < upper.1.level()
            ||| lower.1 == upper.1 && key(lower.0) < key(upper.0)
        }),
{
    let other = group(windows, Rank::Other);
    let shell = group(windows, Rank::Shell);
    let overlay = group(windows, Rank::Overlay);
    lemma_group_keeps_order(windows, Rank::Other, key);
    lemma_group_keeps_order(windows, Rank::Shell, key);
    lemma_group_keeps_order(windows, Rank::Overlay, key);
    lemma_group_members(windows, Rank::Other);
    lemma_group_members(windows, Rank::Shell);
    lemma_group_members(windows, Rank::Overlay);
    let n = other.len() as int;
    let m = n + shell.len();
    assert(forall|i: int| 0 <= i < n ==> #[trigger] back_to_front(windows)[i] == other[i]);
    assert(forall|i: int| n <= i < m ==> #[trigger] back_to_front(windows)[i] == shell[i - n]);
    assert(forall|i: int|
        m <= i < back_to_front(windows).len() ==> #[trigger] back_to_front(windows)[i]
            == overlay[i - m]);
}

/// The windows of a list, back to front, each by its place in the list.
pub open spec fn stacking_order(windows: Seq<Window>, names: Names) -> Seq<usize> {
    back_to_front(ranked(windows, names)).map_values(|w: (usize, Rank)| w.0)
}

/// Every window is stacked once: those that belong further in front above the others, and
/// of two that belong equally far in front the one that mapped later above the other.
pub proof fn law_windows_are_stacked_by_height_and_age(
    windows: Seq<Window>,
    names: Names,
    a: int,
    b: int,
)
    requires
        windows.len() <= usize::MAX,
        0 <= a < b < windows.len(),
    ensures
        stacking_order(windows, names).len() == windows.len(),
        ({
            let lower = stacking_order(windows, names)[a];
            let upper = stacking_order(windows, names)[b];
            &&& lower < windows.len()
            &&& upper < windows.len()
            &&& {
                ||| height(windows[lower as int], names) < height(windows[upper as int], names)
                ||| height(windows[lower as int], names) == height(windows[upper as int], names)
                    && lower < upper
            }
        }),
{
    let entries = ranked(windows, names);
    let stack = back_to_front(entries);
    lemma_places_are_kept(windows, names);
    lemma_stack_is_sorted(entries, |place: usize| place as int, a, b);
    lemma_stacked_rank(windows, names, a);
    lemma_stacked_rank(windows, names, b);
    law_a_rank_is_a_height(windows[stack[a].0 as int], names);
    law_a_rank_is_a_height(windows[stack[b].0 as int], names);
}

/// A window in a stack has the rank it has in the list.
proof fn lemma_stacked_rank(windows: Seq<Window>, names: Names, at: int)
    requires
        windows.len() <= usize::MAX,
        0 <= at < back_to_front(ranked(windows, names)).len(),
    ensures
        ({
            let entry = back_to_front(ranked(windows, names))[at];
            entry.0 < windows.len() && entry.1 == windows[entry.0 as int].rank_in(names)
        }),
{
    let entries = ranked(windows, names);
    let stack = back_to_front(entries);
    law_stacking_keeps_every_window(entries);
    entries.to_multiset_ensures();
    stack.to_multiset_ensures();
    assert(stack.contains(stack[at]));
    assert(stack.to_multiset().count(stack[at]) > 0);
    assert(entries.contains(stack[at]));
    let i = entries.index_of(stack[at]);
    assert(entries[i] == stack[at]);
}

/// Who answers the remote among some windows: `holder` is a window that is not the overlay
/// and has something on screen where any such window has; and of those that qualify as it
/// does it belongs furthest in front, and mapped last of those.
pub open spec fn answers_the_remote(windows: Seq<Window>, names: Names, holder: Option<usize>) -> bool {
    match holder {
        None => forall|i: int|
            0 <= i < windows.len() ==> height(#[trigger] windows[i], names) == 2,
        Some(k) => {
            &&& k < windows.len()
            &&& height(windows[k as int], names) < 2
            &&& forall|i: int|
                #![trigger windows[i]]
                0 <= i < windows.len() && i != k && height(windows[i], names) < 2 ==> {
                    let shown = windows[i].w > 0 && windows[i].h > 0;
                    let held = windows[k as int].w > 0 && windows[k as int].h > 0;
                    &&& shown ==> held
                    &&& shown == held ==> {
                        ||| height(windows[i], names) < height(windows[k as int], names)
                        ||| height(windows[i], names) == height(windows[k as int], names) && i < k
                    }
                }
        },
    }
}

/// The remote is answered by the frontmost window that is on screen and not the overlay,
/// else by the frontmost that is not the overlay, else by nobody.
pub proof fn law_the_frontmost_window_on_screen_answers(windows: Seq<Window>, names: Names)
    requires
        windows.len() <= usize::MAX,
    ensures
        answers_the_remote(windows, names, keyboard_holder(contenders(windows, names))),
{
    let all = contenders(windows, names);
    let entries = tagged(all);
    let stack = stack_of(all);
    let whole = back_to_front(entries);
    let on_screen = frontmost(stack, true) is Some;
    assert forall|i: int| 0 <= i < windows.len() implies (#[trigger] all[i]).1.level() == height(
        windows[i],
        names,
    ) by {
        law_a_rank_is_a_height(windows[i], names);
    }
    law_somebody_answers_the_remote(all);
    match keyboard_holder(all) {
        None => {
            assert forall|i: int| 0 <= i < windows.len() implies height(
                #[trigger] windows[i],
                names,
            ) == 2 by {
                assert(all[i].1 == Rank::Overlay);
            }
        },
        Some(k) => {
            lemma_frontmost(stack, on_screen);
            let at = frontmost_at(stack, on_screen);
            let top = stack[at];
            assert(stack.contains(top));
            lemma_stack_contents(all, top);
            let place = all.index_of(top);
            assert(all[place] == top);
            assert(k == place);
            assert forall|i: int|
                #![trigger windows[i]]
                0 <= i < windows.len() && i != k && height(windows[i], names) < 2 implies {
                let shown = windows[i].w > 0 && windows[i].h > 0;
                let held = windows[k as int].w > 0 && windows[k as int].h > 0;
                &&& shown ==> held
                &&& shown == held ==> {
                    ||| height(windows[i], names) < height(windows[k as int], names)
                    ||| height(windows[i], names) == height(windows[k as int], names) && i < k
                }
            } by {
                let shown = windows[i].w > 0 && windows[i].h > 0;
                let held = windows[k as int].w > 0 && windows[k as int].h > 0;
                let entry = all[i];
                assert(entry.1 != Rank::Overlay);
                assert(entry.2 == shown);
                assert(all[place].2 == held);
                if shown {
                    lemma_somebody_may_type(all, i, true);
                }
                if shown == held {
                    assert(all.contains(entry));
                    lemma_stack_contents(all, entry);
                    let p = stack.index_of(entry);
                    assert(stack[p] == entry);
                    assert(may_type(entry, on_screen));
                    assert(p <= at);
                    assert(p != at);
                    lemma_stack_is_sorted(entries, |w: (usize, Rank, bool)| w.0 as int, p, at);
                    assert(whole[p].0 == entry && whole[at].0 == top);
                    lemma_tagged_rank(all, p);
                    lemma_tagged_rank(all, at);
                }
            }
        },
    }
}

/// A window in a stack is tagged with its own rank.
proof fn lemma_tagged_rank<T>(windows: Seq<(T, Rank, bool)>, at: int)
    requires
        0 <= at < back_to_front(tagged(windows)).len(),
    ensures
        back_to_front(tagged(windows))[at].1 == back_to_front(tagged(windows))[at].0.1,
{
    let entries = tagged(windows);
    let stack = back_to_front(entries);
    law_stacking_keeps_every_window(entries);
    entries.to_multiset_ensures();
    stack.to_multiset_ensures();
    assert(stack.contains(stack[at]));
    assert(stack.to_multiset().count(stack[at]) > 0);
    assert(entries.contains(stack[at]));
    let i = entries.index_of(stack[at]);
    assert(entries[i] == stack[at]);
}

/// A shell window is placed by its title before its app id; any other window by its app id
/// alone; and a window without an app id by nothing.
pub proof fn law_what_a_window_is_placed_by(
    app_id: Option<Seq<char>>,
    title: Option<Seq<char>>,
    shell: Seq<char>,
    key: PlaceName,
)
    ensures
        place_names(app_id, title, shell).contains(key) <==> (match key {
            PlaceName::AppId(id) => app_id == Some(id),
            PlaceName::Title(name) => app_id == Some(shell) && title == Some(name),
        }),
        place_names(app_id, title, shell).no_duplicates(),
        app_id == Some(shell) && title is Some ==> place_names(app_id, title, shell)[0]
            == PlaceName::Title(title->0),
{
    let keys = place_names(app_id, title, shell);
    match key {
        PlaceName::AppId(id) => {
            if app_id == Some(id) {
                assert(keys[keys.len() - 1] == key);
            }
        },
        PlaceName::Title(name) => {
            if app_id == Some(shell) && title == Some(name) {
                assert(keys[0] == key);
            }
        },
    }
}

/// A name that has been presented stays whatever comes after it, and one that has not is
/// whatever is presented next.
pub proof fn law_a_name_is_latched_once(
    remembered: Option<Seq<char>>,
    committed: Option<Seq<char>>,
)
    ensures
        remembered is Some ==> latched(remembered, committed) == remembered,
        remembered is None ==> latched(remembered, committed) == committed,
{
}

}
