//! Input, forwarded to whatever is on screen.
//!
//! A TV box is driven by a remote that presents itself as a keyboard, and
//! occasionally by a mouse while somebody is working on it. There is no window
//! management to bind keys for, so the only thing intercepted is the way out.

use vstd::prelude::*;
use crate::state::{Focus, FocusName};

verus! {

/// evdev's KEY_BACK, offset by 8 the way xkb counts keycodes.
pub const KEY_BACK: u32 = 166;

/// evdev's KEY_BACKSPACE, offset by 8 the way xkb counts keycodes.
pub const KEY_BACKSPACE: u32 = 22;

/// The keysym of Backspace.
pub const KEYSYM_BACKSPACE: u32 = 0xff08;

/// What a key comes to.
#[derive(Debug, Clone, Copy, PartialEq, Eq, Structural)]
pub enum Filtered {
    /// It goes to the client.
    Forward,
    /// It stops the compositor, and no client sees it.
    Quit,
}

/// The keycode a client sees: Back is rewritten to Backspace while an app owns the
/// screen, and every other key stays what it is.
pub open spec fn seen_as(code: u32, focus: FocusName) -> u32 {
    if code == KEY_BACK && focus is App {
        KEY_BACKSPACE
    } else {
        code
    }
}

/// Rewrite the remote's Back key for apps that do not understand it.
///
/// A BT remote sends KEY_BACK, which reaches a web app as `BrowserBack`. The app
/// UIs the box runs only act on Backspace. Doing it here does it once, for every
/// client.
///
/// It cannot be unconditional: the launcher handles KEY_BACK itself, so the
/// rewrite only applies while an app owns the screen. That is why the shell has to
/// tell us which it is.
pub fn remap(code: u32, focus: &Focus) -> (r: u32)
    ensures
        r == seen_as(code, focus@),
{
    match focus {
        Focus::App(_) => if code == KEY_BACK {
            KEY_BACKSPACE
        } else {
            code
        },
        Focus::Launcher => code,
    }
}

/// Ctrl+Alt+Backspace, the way out when there is no session manager to ask.
pub fn is_quit(ctrl: bool, alt: bool, keysym: u32) -> (r: bool)
    ensures
        r == (ctrl && alt && keysym == KEYSYM_BACKSPACE),
{
    ctrl && alt && keysym == KEYSYM_BACKSPACE
}

/// What to do with a key: only the press of the quit combination is kept from the
/// client.
pub fn filter(pressed: bool, ctrl: bool, alt: bool, keysym: u32) -> (r: Filtered)
    ensures
        r == (if pressed && ctrl && alt && keysym == KEYSYM_BACKSPACE {
            Filtered::Quit
        } else {
            Filtered::Forward
        }),
{
    if pressed && is_quit(ctrl, alt, keysym) {
        Filtered::Quit
    } else {
        Filtered::Forward
    }
}

/// The evdev code of an xkb keycode, for what counts keys that way.
pub fn evdev_code(code: u32) -> (r: u32)
    ensures
        r == (if code >= 8 {
            (code - 8) as u32
        } else {
            0
        }),
{
    code.saturating_sub(8)
}

/// Every key goes through unchanged while the launcher owns the screen, and rewriting
/// a key that has been rewritten changes nothing.
pub proof fn law_only_back_is_ever_rewritten(code: u32, focus: FocusName)
    ensures
        seen_as(code, FocusName::Launcher) == code,
        seen_as(code, focus) != code ==> code == KEY_BACK,
        seen_as(seen_as(code, focus), focus) == seen_as(code, focus),
{
}

/// While an app owns the screen the remote's back is its backspace, and no other key is
/// touched; while the launcher owns it none is.
pub proof fn law_back_is_backspace_in_an_app(code: u32, app: Seq<char>)
    ensures
        seen_as(166, FocusName::App(app)) == 22,
        code != 166 ==> seen_as(code, FocusName::App(app)) == code,
        seen_as(code, FocusName::Launcher) == code,
{
}

/// Only Ctrl, Alt and Backspace together stop the compositor, and only as they go down.
pub proof fn law_only_the_way_out_is_kept(
    pressed: bool,
    ctrl: bool,
    alt: bool,
    keysym: u32,
    filtered: Filtered,
    quit: bool,
)
    requires
        call_ensures(filter, (pressed, ctrl, alt, keysym), filtered),
        call_ensures(is_quit, (ctrl, alt, keysym), quit),
    ensures
        filtered == Filtered::Quit <==> pressed && quit,
        quit <==> ctrl && alt && keysym == 0xff08,
        filtered == Filtered::Forward <==> !pressed || !quit,
{
}

/// An evdev code is eight below the keycode.
pub proof fn law_a_keycode_is_eight_above(code: u32, evdev: u32)
    requires
        call_ensures(evdev_code, (code,), evdev),
    ensures
        code >= 8 ==> evdev + 8 == code,
        code < 8 ==> evdev == 0,
{
}

}
