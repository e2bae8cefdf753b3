//! The session the compositor exists for.
//!
//! greetd starts one command per session, so the compositor starts the session
//! itself: audio, the shell's respawn loop, whatever else the box needs. It runs as
//! a child, which is what makes the lifetimes right in both directions - it cannot
//! start before the Wayland socket is listening, and it cannot outlive the display
//! it is drawing on.

use vstd::prelude::*;
use crate::text::texts;

verus! {

/// How long the session's processes get to exit on SIGTERM before they are killed, in
/// milliseconds.
pub const GRACE: u64 = 3000;

/// How long to wait between two looks at whether they are gone, in milliseconds.
pub const POLL: u64 = 50;

/// The signal that asks a process to end.
pub const SIGTERM: i32 = 15;

/// The signal that ends a process.
pub const SIGKILL: i32 = 9;

/// The signal that only asks whether there is anyone to signal.
pub const PROBE: i32 = 0;

/// A running session.
#[derive(Debug)]
pub struct Session {
    /// Also the process group id: the child leads its own group.
    pub pid: i32,
}

/// How far the end of a session has come.
#[derive(Debug, Clone, Copy, PartialEq, Eq, Structural)]
pub enum Stage {
    /// Its processes are asked to end.
    Terminating,
    /// Are any left?
    Probing,
    /// Some are: wait a little.
    Waiting,
    /// They had their time.
    Killing,
    /// It is over.
    Over,
}

/// The end of a session, step by step.
#[derive(Debug, Clone, Copy, PartialEq, Eq, Structural)]
pub struct Stopping {
    /// The process group.
    pub group: i32,
    /// How long it gets, in milliseconds.
    pub grace: u64,
    /// How far it has come.
    pub stage: Stage,
}

/// What to do to end a session.
#[derive(Debug, Clone, Copy, PartialEq, Eq, Structural)]
pub enum Act {
    /// Send a signal to this target, as kill(2) takes it.
    Signal { target: i32, signal: i32 },
    /// Wait this many milliseconds.
    Sleep { ms: u64 },
    /// Nothing more.
    Done,
}

impl Session {
    /// End the session and everything it started.
    ///
    /// The whole group, because the session is a shell script whose real work is
    /// its children - signalling only the script would leave the shell running on a
    /// display that is about to disappear. The group is signalled even after the
    /// script itself has exited and been reaped: the group outlives its leader, and
    /// the kernel does not hand its id to anyone else while a member is alive, so
    /// the signal can only reach what the session started.
    ///
    /// SIGTERM first, then SIGKILL for whatever is still there after [`GRACE`]. A
    /// player blocked in a network read, or a program that ignores SIGTERM, would
    /// otherwise outlive the display and meet the next session's copy of itself.
    pub fn stop(&self) -> (r: Stopping)
        requires
            self.pid > i32::MIN,
        ensures
            r.group == self.pid,
            r.grace == GRACE,
            r.stage == Stage::Terminating,
    {
        stop_group(self.pid, GRACE)
    }
}

/// Signal a process group to end, and kill it when it does not.
pub fn stop_group(pgid: i32, grace: u64) -> (r: Stopping)
    requires
        pgid > i32::MIN,
    ensures
        r == (Stopping { group: pgid, grace, stage: Stage::Terminating }),
{
    Stopping { group: pgid, grace, stage: Stage::Terminating }
}

impl Stopping {
    /// What to do now.
    pub open spec fn act(self) -> Act {
        match self.stage {
            Stage::Terminating => Act::Signal { target: (-self.group) as i32, signal: SIGTERM },
            Stage::Probing => Act::Signal { target: (-self.group) as i32, signal: PROBE },
            Stage::Waiting => Act::Sleep { ms: POLL },
            Stage::Killing => Act::Signal { target: (-self.group) as i32, signal: SIGKILL },
            Stage::Over => Act::Done,
        }
    }

    /// Look again, or stop looking when the time is up.
    pub open spec fn looked(self, elapsed: u64) -> Stage {
        if elapsed < self.grace {
            Stage::Probing
        } else {
            Stage::Killing
        }
    }

    /// The stage after what was to be done was done. `delivered` is whether a signal found
    /// anyone, and `elapsed` the time since the group was asked to end.
    pub open spec fn stage_after(self, delivered: bool, elapsed: u64) -> Stage {
        match self.stage {
            Stage::Terminating => if delivered {
                self.looked(elapsed)
            } else {
                Stage::Over
            },
            Stage::Probing => if delivered {
                Stage::Waiting
            } else {
                Stage::Over
            },
            Stage::Waiting => self.looked(elapsed),
            Stage::Killing => Stage::Over,
            Stage::Over => Stage::Over,
        }
    }

    /// What to do now.
    pub fn next_act(&self) -> (r: Act)
        requires
            self.group > i32::MIN,
        ensures
            r == self.act(),
    {
        match self.stage {
            Stage::Terminating => Act::Signal { target: -self.group, signal: SIGTERM },
            Stage::Probing => Act::Signal { target: -self.group, signal: PROBE },
            Stage::Waiting => Act::Sleep { ms: POLL },
            Stage::Killing => Act::Signal { target: -self.group, signal: SIGKILL },
            Stage::Over => Act::Done,
        }
    }

    /// What was to be done was done.
    pub fn advance(&mut self, delivered: bool, elapsed: u64)
        ensures
            *final(self) == (Stopping {
                stage: old(self).stage_after(delivered, elapsed),
                ..*old(self)
            }),
    {
        let look: Stage = if elapsed < self.grace {
            Stage::Probing
        } else {
            Stage::Killing
        };
        self.stage = match self.stage {
            Stage::Terminating => if delivered {
                look
            } else {
                Stage::Over
            },
            Stage::Probing => if delivered {
                Stage::Waiting
            } else {
                Stage::Over
            },
            Stage::Waiting => look,
            Stage::Killing => Stage::Over,
            Stage::Over => Stage::Over,
        };
    }
}

/// Nobody is killed before their time is up.
pub proof fn law_nobody_is_killed_early(stopping: Stopping, delivered: bool, elapsed: u64)
    requires
        stopping.stage_after(delivered, elapsed) == Stage::Killing,
    ensures
        elapsed >= stopping.grace,
        stopping.stage == Stage::Terminating ==> delivered,
        stopping.stage != Stage::Over,
{
}

/// A group that is gone is left alone from then on.
pub proof fn law_a_group_that_is_gone_is_left_alone(stopping: Stopping, elapsed: u64)
    requires
        stopping.act() is Signal,
    ensures
        stopping.stage_after(false, elapsed) == Stage::Over,
        (Stopping { stage: Stage::Over, ..stopping }).act() == Act::Done,
        forall|delivered: bool, later: u64| #[trigger]
            (Stopping { stage: Stage::Over, ..stopping }).stage_after(delivered, later)
                == Stage::Over,
{
}

/// Once the time is up a group that is still there is killed: within a wait and a look,
/// whatever the stage.
pub proof fn law_who_stays_is_killed(stopping: Stopping, elapsed: u64)
    requires
        elapsed >= stopping.grace,
        stopping.stage != Stage::Over,
        stopping.stage != Stage::Killing,
    ensures
        ({
            let once = Stopping { stage: stopping.stage_after(true, elapsed), ..stopping };
            let twice = Stopping { stage: once.stage_after(true, elapsed), ..stopping };
            once.stage == Stage::Killing || twice.stage == Stage::Killing
        }),
{
}

/// Every signal goes to the whole group.
pub proof fn law_signals_go_to_the_group(stopping: Stopping)
    requires
        stopping.group > 0,
    ensures
        stopping.act() matches Act::Signal { target, .. } ==> target == -stopping.group && target
            < 0,
{
}

/// The program of a session's command, and its arguments.
pub fn split_command(command: Vec<String>) -> (r: (String, Vec<String>))
    requires
        command@.len() > 0,
    ensures
        r.0@ == command@[0]@,
        texts(r.1@) == texts(command@).drop_first(),
{
    let ghost all = texts(command@);
    let mut arguments = command;
    let program = arguments.remove(0);
    assert(texts(arguments@) == all.drop_first());
    (program, arguments)
}

/// The exit code of a session: -1 where it has none, because a signal ended it or nobody
/// could tell.
pub fn exit_code(code: Option<i32>) -> (r: i32)
    ensures
        r == (match code {
            Some(code) => code as int,
            None => -1,
        }),
{
    match code {
        Some(code) => code,
        None => -1,
    }
}

/// A session is asked to end first, with the signal for that; then it is looked for and waited
/// for; and what is killed is killed with the signal that cannot be ignored.
pub proof fn law_a_session_is_asked_before_it_is_killed(stopping: Stopping)
    requires
        stopping.group > i32::MIN,
    ensures
        stopping.stage == Stage::Terminating ==> stopping.act() == (Act::Signal {
            target: (-stopping.group) as i32,
            signal: 15,
        }),
        stopping.stage == Stage::Probing ==> stopping.act() == (Act::Signal {
            target: (-stopping.group) as i32,
            signal: 0,
        }),
        stopping.stage == Stage::Killing ==> stopping.act() == (Act::Signal {
            target: (-stopping.group) as i32,
            signal: 9,
        }),
        stopping.stage == Stage::Waiting ==> stopping.act() == (Act::Sleep { ms: 50 }),
        stopping.act() == Act::Done <==> stopping.stage == Stage::Over,
{
}

/// As long as its time is not up a session that is still there is looked for and waited for in
/// turn, and never killed; and once killed it is over.
pub proof fn law_a_session_gets_its_time(stopping: Stopping, elapsed: u64)
    ensures
        elapsed < stopping.grace ==> {
            &&& stopping.stage == Stage::Terminating ==> stopping.stage_after(true, elapsed)
                == Stage::Probing
            &&& stopping.stage == Stage::Waiting ==> stopping.stage_after(true, elapsed)
                == Stage::Probing
            &&& stopping.stage == Stage::Waiting ==> stopping.stage_after(false, elapsed)
                == Stage::Probing
        },
        stopping.stage == Stage::Probing ==> stopping.stage_after(true, elapsed) == Stage::Waiting,
        elapsed >= stopping.grace && (stopping.stage == Stage::Waiting || stopping.stage
            == Stage::Terminating) ==> stopping.stage_after(true, elapsed) == Stage::Killing,
        stopping.stage == Stage::Killing ==> stopping.stage_after(true, elapsed) == Stage::Over,
{
}

/// A session's exit code is its own, and minus one where it has none.
pub proof fn law_an_exit_code_is_the_sessions_own(code: Option<i32>, told: i32)
    requires
        call_ensures(exit_code, (code,), told),
    ensures
        match code {
            Some(own) => told == own,
            None => told == -1,
        },
{
}

}
