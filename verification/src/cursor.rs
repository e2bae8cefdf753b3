//! The pointer, and when it is drawn.
//!
//! Only a client-provided cursor surface is drawn. A named cursor would need an
//! XCursor theme loaded and parsed, and on a box where something always covers the
//! screen there is nothing to draw it over: every client that wants a pointer sets
//! its own surface. When none is set there is no pointer, which is also what a
//! remote-driven UI wants.
//!
//! A wireless TV remote often presents a mouse endpoint as well, so a box with no mouse
//! at all still gets a pointer parked on screen that never moves. It is hidden after
//! [`IDLE`] without motion and comes back on the first move.

use vstd::prelude::*;

verus! {

/// How long the pointer stays on screen without moving, in milliseconds.
pub const IDLE: u64 = 3000;

/// Whether the pointer is on screen, and since when it has not moved.
#[derive(Debug, Clone, Copy, PartialEq, Eq, Structural)]
pub struct Pointer {
    /// Whether it may be drawn.
    pub visible: bool,
    /// When it last moved, in milliseconds on a clock that only goes forward.
    pub moved_at: u64,
}

/// A client's cursor.
#[derive(Debug, Clone, Copy, PartialEq, Eq, Structural)]
pub enum Image {
    /// None, or one by name.
    Unset,
    /// A surface, and whether its client still has it.
    Surface { alive: bool },
}

impl Pointer {
    /// Whether it has stood still for long enough to be hidden.
    pub open spec fn at_rest(self, now: u64) -> bool {
        now >= self.moved_at + IDLE
    }

    /// The pointer as it is after a move.
    pub open spec fn after_move(self, now: u64) -> Pointer {
        Pointer { visible: true, moved_at: now }
    }

    /// The pointer as it is once the clock has been looked at.
    pub open spec fn after_look(self, now: u64) -> Pointer {
        Pointer { visible: self.visible && !self.at_rest(now), ..self }
    }

    /// A pointer that has just appeared.
    pub fn new(now: u64) -> (r: Pointer)
        ensures
            r == (Pointer { visible: true, moved_at: now }),
    {
        Pointer { visible: true, moved_at: now }
    }

    /// The pointer moved.
    pub fn moved(&mut self, now: u64)
        ensures
            *final(self) == old(self).after_move(now),
    {
        self.visible = true;
        self.moved_at = now;
    }

    /// Hide the pointer where it has stood still for too long. Returns whether that changes
    /// what is on screen.
    pub fn rest(&mut self, now: u64) -> (r: bool)
        ensures
            *final(self) == old(self).after_look(now),
            r == (old(self).visible && old(self).at_rest(now)),
    {
        if self.visible && now >= self.moved_at && now - self.moved_at >= IDLE {
            self.visible = false;
            true
        } else {
            false
        }
    }

    /// Whether the pointer is drawn.
    pub fn drawn(&self, image: Image) -> (r: bool)
        ensures
            r == (self.visible && image == (Image::Surface { alive: true })),
    {
        match image {
            Image::Surface { alive } => self.visible && alive,
            Image::Unset => false,
        }
    }
}

/// A pointer that does not move is gone once its time is up, and not before; and whatever
/// became of it, the next move brings it back.
pub proof fn law_a_pointer_goes_and_comes_back(pointer: Pointer, moved: u64, look: u64, again: u64)
    ensures
        pointer.after_move(moved).after_look(look).visible <==> look < moved + IDLE,
        pointer.after_move(moved).after_look(look).after_move(again).visible,
{
}

/// A pointer is hidden three seconds after it last moved, whatever it was before, and hiding it
/// does not count as a move.
pub proof fn law_a_pointer_rests_after_three_seconds(pointer: Pointer, now: u64)
    ensures
        pointer.after_look(now).visible <==> pointer.visible && now < pointer.moved_at + 3000,
        pointer.after_look(now).moved_at == pointer.moved_at,
        pointer.after_move(now).visible,
        pointer.after_move(now).moved_at == now,
{
}

/// A pointer is drawn where it is visible and a client's surface is there for it.
pub proof fn law_a_pointer_needs_a_surface(pointer: Pointer, image: Image, drawn: bool)
    requires
        call_ensures(Pointer::drawn, (&pointer, image), drawn),
    ensures
        drawn <==> pointer.visible && (image matches Image::Surface { alive } && alive),
{
}

}
