//! When a frame is drawn.
//!
//! Without damage the compositor sits still, which is the point, but it also means every
//! change has to say so. Several clients commit within one turn of the event loop, so a
//! change only schedules a frame; page flips are paced by the vblank.

use vstd::prelude::*;

verus! {

/// How long to wait before trying a frame again after one failed, in milliseconds. Long
/// enough not to spin on a device that is busy, short enough that the picture comes back
/// on its own rather than waiting for a client to commit something.
pub const RETRY_AFTER: u64 = 50;

/// Where the output stands between two frames.
#[derive(Clone, Copy, Debug, PartialEq, Eq, Structural)]
pub struct Pace {
    /// The connector is currently disconnected, so there is nothing to draw on.
    pub asleep: bool,
    /// A page flip is in flight; the next render waits for its vblank.
    pub frame_pending: bool,
    /// Something changed since the last frame was queued.
    pub redraw_needed: bool,
    /// A render is already scheduled for this turn of the event loop.
    pub redraw_queued: bool,
}

/// What came of a frame.
#[derive(Clone, Copy, Debug, PartialEq, Eq, Structural)]
pub enum FrameOutcome {
    /// It could not be built.
    Failed,
    /// It shows nothing new.
    Empty,
    /// It was built, and the driver would not take it.
    QueueFailed,
    /// It is on its way to the display.
    Queued,
}

impl Pace {
    /// An output that has just come up.
    pub open spec fn fresh() -> Pace {
        Pace { asleep: false, frame_pending: false, redraw_needed: true, redraw_queued: false }
    }

    /// Something changed.
    pub open spec fn asked(self) -> Pace {
        Pace { redraw_needed: true, redraw_queued: true, ..self }
    }

    /// The render that was scheduled is about to happen.
    pub open spec fn dispatched(self) -> Pace {
        Pace { redraw_queued: false, ..self }
    }

    /// Whether a frame is drawn now: the session owns the device, there is something to
    /// draw on, no frame is in flight, and something changed.
    pub open spec fn ready(self, active: bool) -> bool {
        active && !self.asleep && !self.frame_pending && self.redraw_needed
    }

    /// A frame was drawn.
    pub open spec fn drawn(self, outcome: FrameOutcome) -> Pace {
        match outcome {
            FrameOutcome::Failed => self,
            FrameOutcome::QueueFailed => self,
            FrameOutcome::Empty => Pace { redraw_needed: false, ..self },
            FrameOutcome::Queued => Pace { frame_pending: true, redraw_needed: false, ..self },
        }
    }

    /// The page flip completed.
    pub open spec fn flipped(self) -> Pace {
        Pace { frame_pending: false, ..self }
    }

    /// What was on the display no longer counts: a mode was set, or the session has the
    /// device back.
    pub open spec fn restarted(self) -> Pace {
        Pace { frame_pending: false, redraw_needed: true, ..self }
    }

    /// The display went away.
    pub open spec fn gone(self) -> Pace {
        Pace { asleep: true, ..self }
    }

    /// The display came back. Drawing has to be possible again, whatever was in flight
    /// when it went away.
    pub open spec fn back(self) -> Pace {
        Pace { asleep: false, ..self.restarted() }
    }

    /// An output that has just come up.
    pub fn new() -> (r: Pace)
        ensures
            r == Pace::fresh(),
    {
        Pace { asleep: false, frame_pending: false, redraw_needed: true, redraw_queued: false }
    }

    /// Ask for a frame. Returns whether a render has to be scheduled for it: only where
    /// none is yet.
    pub fn ask(&mut self) -> (r: bool)
        ensures
            *final(self) == old(self).asked(),
            r == !old(self).redraw_queued,
    {
        self.redraw_needed = true;
        if self.redraw_queued {
            return false;
        }
        self.redraw_queued = true;
        true
    }

    /// The render that was scheduled is about to happen.
    pub fn dispatch(&mut self)
        ensures
            *final(self) == old(self).dispatched(),
    {
        self.redraw_queued = false;
    }

    /// Whether to draw a frame now.
    pub fn is_ready(&self, active: bool) -> (r: bool)
        ensures
            r == self.ready(active),
    {
        active && !self.asleep && !self.frame_pending && self.redraw_needed
    }

    /// A frame was drawn. Returns whether to try again after [`RETRY_AFTER`]: the damage
    /// is consumed by then, so only another attempt brings the picture back, and nothing
    /// else would ask for one.
    pub fn draw(&mut self, outcome: FrameOutcome) -> (r: bool)
        ensures
            *final(self) == old(self).drawn(outcome),
            r == (outcome == FrameOutcome::Failed || outcome == FrameOutcome::QueueFailed),
    {
        match outcome {
            FrameOutcome::Failed => true,
            FrameOutcome::QueueFailed => true,
            FrameOutcome::Empty => {
                self.redraw_needed = false;
                false
            },
            FrameOutcome::Queued => {
                self.frame_pending = true;
                self.redraw_needed = false;
                false
            },
        }
    }

    /// The page flip completed.
    pub fn flip(&mut self)
        ensures
            *final(self) == old(self).flipped(),
    {
        self.frame_pending = false;
    }

    /// What was on the display no longer counts.
    pub fn restart(&mut self)
        ensures
            *final(self) == old(self).restarted(),
    {
        self.frame_pending = false;
        self.redraw_needed = true;
    }

    /// The display went away.
    pub fn go(&mut self)
        ensures
            *final(self) == old(self).gone(),
    {
        self.asleep = true;
    }

    /// The display came back.
    pub fn come_back(&mut self)
        ensures
            *final(self) == old(self).back(),
    {
        self.asleep = false;
        self.frame_pending = false;
        self.redraw_needed = true;
    }
}

/// The output and what drives it.
pub struct Loop {
    /// Where the output stands.
    pub pace: Pace,
    /// Whether the session owns the device.
    pub active: bool,
    /// Whether a failed frame is going to be tried again.
    pub retrying: bool,
}

/// What happens to the output. Where a frame may be drawn, its outcome comes with it.
pub enum Event {
    /// Something changed.
    Change,
    /// The render that was scheduled happens.
    Turn(FrameOutcome),
    /// The time to try a failed frame again has come.
    Retry,
    /// The page flip completed.
    Flip(FrameOutcome),
    /// The session lost the device.
    Paused,
    /// The session has the device back.
    Resumed(FrameOutcome),
    /// The display went away.
    Gone,
    /// The display came back, and was put on a mode.
    Back,
    /// The display came back, and could not be put on a mode.
    BackWithoutMode,
    /// A mode was set.
    ModeSet,
}

impl Loop {
    /// Draw a frame, where one is drawn.
    pub open spec fn rendered(self, outcome: FrameOutcome) -> Loop {
        if self.pace.ready(self.active) {
            Loop {
                pace: self.pace.drawn(outcome),
                retrying: self.retrying || outcome == FrameOutcome::Failed || outcome
                    == FrameOutcome::QueueFailed,
                ..self
            }
        } else {
            self
        }
    }

    /// The output after something happened to it.
    pub open spec fn after(self, event: Event) -> Loop {
        match event {
            Event::Change => Loop { pace: self.pace.asked(), ..self },
            Event::Turn(outcome) => (Loop { pace: self.pace.dispatched(), ..self }).rendered(
                outcome,
            ),
            Event::Retry => Loop { pace: self.pace.asked(), retrying: false, ..self },
            Event::Flip(outcome) => (Loop { pace: self.pace.flipped(), ..self }).rendered(outcome),
            Event::Paused => Loop { active: false, ..self },
            Event::Resumed(outcome) => (Loop {
                pace: self.pace.restarted(),
                active: true,
                ..self
            }).rendered(outcome),
            Event::Gone => Loop { pace: self.pace.gone(), ..self },
            Event::Back => Loop { pace: self.pace.back().asked(), ..self },
            Event::BackWithoutMode => Loop { pace: self.pace.back(), ..self },
            Event::ModeSet => Loop { pace: self.pace.restarted().asked(), ..self },
        }
    }

    /// Whether a change that has not been drawn is going to be: a render is scheduled, a
    /// page flip or another try is due, or there is nothing to draw on right now.
    pub open spec fn change_is_on_its_way(self) -> bool {
        self.pace.redraw_needed ==> {
            ||| self.pace.redraw_queued
            ||| self.pace.frame_pending
            ||| self.retrying
            ||| self.pace.asleep
            ||| !self.active
        }
    }
}

/// Whatever happens to the output, a change that has not been drawn is on its way to the
/// screen. The one exception is a display that comes back and cannot be put on a mode while
/// the session owns the device: nothing is scheduled for that, so a frame comes only where
/// one was due already.
pub proof fn law_no_change_is_lost(state: Loop, event: Event)
    requires
        state.change_is_on_its_way(),
        event == Event::BackWithoutMode ==> state.pace.redraw_queued || state.retrying
            || !state.active,
    ensures
        state.after(event).change_is_on_its_way(),
{
}

/// A display that comes back and cannot be put on a mode can be drawn on all the same: the
/// next change, or the next frame that is tried, brings the picture back.
pub proof fn law_a_display_without_a_mode_waits_for_a_change(state: Loop, outcome: FrameOutcome)
    ensures
        state.after(Event::BackWithoutMode).pace.ready(true),
        state.after(Event::BackWithoutMode).active == state.active,
        state.after(Event::BackWithoutMode).after(Event::Change).change_is_on_its_way(),
        state.after(Event::BackWithoutMode).after(Event::Turn(outcome)).change_is_on_its_way(),
        state.after(Event::BackWithoutMode).after(Event::Flip(outcome)).change_is_on_its_way(),
        state.after(Event::BackWithoutMode).after(Event::Resumed(outcome)).change_is_on_its_way(),
{
}

/// A change stays to be drawn until a frame is drawn that shows it, or shows nothing new.
pub proof fn law_only_a_frame_settles_a_change(state: Loop, event: Event)
    requires
        state.pace.redraw_needed,
        !state.after(event).pace.redraw_needed,
    ensures
        match event {
            Event::Turn(outcome) => outcome == FrameOutcome::Queued || outcome
                == FrameOutcome::Empty,
            Event::Flip(outcome) => outcome == FrameOutcome::Queued || outcome
                == FrameOutcome::Empty,
            Event::Resumed(outcome) => outcome == FrameOutcome::Queued || outcome
                == FrameOutcome::Empty,
            _ => false,
        },
{
}

/// A display that comes back can be drawn on, whatever was in flight when it went away.
pub proof fn law_a_display_that_comes_back_is_drawn_on(pace: Pace)
    ensures
        pace.gone().back().ready(true),
        pace.back().asked().redraw_queued,
{
}

/// No frame is drawn while one is in flight, while there is nothing to draw on, or while
/// the session does not own the device.
pub proof fn law_one_frame_at_a_time(pace: Pace, active: bool)
    requires
        pace.ready(active),
    ensures
        !pace.frame_pending,
        !pace.asleep,
        active,
        pace.redraw_needed,
        !pace.drawn(FrameOutcome::Queued).ready(active),
        !pace.drawn(FrameOutcome::Queued).asked().ready(active),
        pace.drawn(FrameOutcome::Queued).asked().flipped().ready(active),
        !pace.drawn(FrameOutcome::Queued).flipped().ready(active),
        pace.drawn(FrameOutcome::Failed).ready(active),
        pace.drawn(FrameOutcome::QueueFailed).ready(active),
        !pace.drawn(FrameOutcome::Empty).ready(active),
        pace.drawn(FrameOutcome::Empty).asked().ready(active),
        !pace.gone().ready(active),
        !pace.gone().asked().flipped().ready(active),
{
}

/// A frame is drawn whenever something changed, there is something to draw on, none is in
/// flight and the session owns the device: an output that has just come up is ready, and so
/// is any after a change.
pub proof fn law_a_change_is_drawn_as_soon_as_it_can_be(pace: Pace, active: bool)
    ensures
        pace.ready(active) == (active && pace.redraw_needed && !pace.asleep
            && !pace.frame_pending),
        Pace::fresh().ready(true),
        !Pace::fresh().redraw_queued,
        pace.asked().dispatched().ready(active) == (active && !pace.asleep
            && !pace.frame_pending),
        pace.restarted().ready(active) == (active && !pace.asleep),
{
}

/// What happens to an output touches only what it is about: a change does not make a frame
/// land, a frame that lands is not a change, and neither wakes a display that is gone.
pub proof fn law_one_thing_at_a_time(pace: Pace, outcome: FrameOutcome)
    ensures
        pace.asked().redraw_needed && pace.asked().redraw_queued,
        pace.asked().asleep == pace.asleep && pace.asked().frame_pending == pace.frame_pending,
        !pace.dispatched().redraw_queued,
        pace.dispatched().redraw_needed == pace.redraw_needed,
        pace.dispatched().asleep == pace.asleep,
        pace.dispatched().frame_pending == pace.frame_pending,
        !pace.flipped().frame_pending,
        pace.flipped().redraw_needed == pace.redraw_needed,
        pace.flipped().asleep == pace.asleep,
        pace.flipped().redraw_queued == pace.redraw_queued,
        pace.restarted().asleep == pace.asleep,
        pace.restarted().redraw_queued == pace.redraw_queued,
        pace.restarted().redraw_needed && !pace.restarted().frame_pending,
        pace.gone().asleep,
        pace.gone().redraw_needed == pace.redraw_needed,
        pace.gone().redraw_queued == pace.redraw_queued,
        pace.gone().frame_pending == pace.frame_pending,
        !pace.back().asleep && !pace.back().frame_pending && pace.back().redraw_needed,
        pace.back().redraw_queued == pace.redraw_queued,
        pace.drawn(outcome).asleep == pace.asleep,
        pace.drawn(outcome).redraw_queued == pace.redraw_queued,
        pace.drawn(outcome).frame_pending == (pace.frame_pending || outcome
            == FrameOutcome::Queued),
        pace.drawn(outcome).redraw_needed == (pace.redraw_needed && (outcome
            == FrameOutcome::Failed || outcome == FrameOutcome::QueueFailed)),
{
}

}
