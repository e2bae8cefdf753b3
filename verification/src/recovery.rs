//! Holding Home as the way back when the UI cannot help itself.
//!
//! Every ordinary route home is a key some client has to act on. When that client is
//! the part that is wrong - crashed, frozen, or showing its screen with nothing
//! focused - a TV remote has nothing else to press. The compositor sees every key
//! before any client does, so a key HELD past a threshold runs a command, and the
//! command does the repair from outside the session's UI.
//!
//! Stages go up with the hold: by default 3 s runs `<command> reload` and 10 s runs
//! `<command> restart`. The key is still delivered as usual, so a short press means
//! what it always meant; only its duration adds anything. A second key going down
//! during the hold cancels it, because a chord is somebody using the remote, not
//! somebody stuck.
//!
//! Configured from the environment:
//!
//! - `TVBOX_WC_RECOVERY_CMD`: the command. Default `$HOME/.tvbox/recover.sh`; empty
//!   switches the feature off. A command that does not exist when a stage is due is
//!   skipped, so the default costs nothing on a session that does not ship one.
//! - `TVBOX_WC_RECOVERY_KEYS`: comma-separated evdev key codes. Default `172`
//!   (KEY_HOMEPAGE).
//! - `TVBOX_WC_RECOVERY_HOLD_MS`: the stage thresholds, comma-separated and
//!   ascending. Default `3000,10000`. The stage names are `reload` and `restart`, in
//!   that order; a third threshold would have no name and is ignored.

use vstd::prelude::*;
use crate::text;

verus! {

/// The key that is watched where nothing else is set.
pub const DEFAULT_KEY: u32 = 172;

/// What is run when a hold reaches a stage.
#[derive(Debug, PartialEq, Eq)]
pub struct Config {
    /// The command.
    pub command: String,
    /// The evdev codes of the keys that are watched.
    pub keys: Vec<u32>,
    /// How long a hold takes to reach each stage, in milliseconds, and the stage's name.
    pub stages: Vec<(u64, &'static str)>,
}

/// The keys a setting names: its numbers, or the usual key where it names none.
pub open spec fn watched_keys(setting: Option<Seq<char>>) -> Seq<nat> {
    match setting {
        Some(list) => {
            let numbers = text::listed_numbers(text::split_commas(list), u32::MAX as nat);
            if numbers.len() > 0 {
                numbers
            } else {
                seq![DEFAULT_KEY as nat]
            }
        },
        None => seq![DEFAULT_KEY as nat],
    }
}

/// Whether thresholds can be reached one after the other.
pub open spec fn ascending(thresholds: Seq<nat>) -> bool {
    &&& thresholds.len() > 0
    &&& thresholds[0] > 0
    &&& forall|i: int, j: int|
        0 <= i < j < thresholds.len() ==> #[trigger] thresholds[i] < #[trigger] thresholds[j]
}

/// The thresholds a setting names, or the usual ones where they cannot be used.
pub open spec fn thresholds(setting: Option<Seq<char>>) -> Seq<nat> {
    match setting {
        Some(list) => {
            let numbers = text::listed_numbers(text::split_commas(list), u64::MAX as nat);
            if ascending(numbers) {
                numbers
            } else {
                seq![3000nat, 10000nat]
            }
        },
        None => seq![3000nat, 10000nat],
    }
}

/// The name of a stage.
pub open spec fn stage_name(stage: int) -> Seq<char> {
    if stage == 0 {
        "reload"@
    } else {
        "restart"@
    }
}

/// Whether stages are those of the first thresholds: there are two names, and a
/// threshold without one is ignored.
pub open spec fn staged(stages: Seq<(u64, &'static str)>, thresholds: Seq<nat>) -> bool {
    &&& stages.len() == if thresholds.len() < 2 {
        thresholds.len()
    } else {
        2
    }
    &&& forall|i: int|
        0 <= i < stages.len() ==> {
            &&& (#[trigger] stages[i]).0 == thresholds[i]
            &&& stages[i].1@ == stage_name(i)
        }
}

/// The command that is run: the one set, else the usual one at home. None where it is
/// switched off or there is no home.
pub open spec fn command_of(setting: Option<Seq<char>>, home: Option<Seq<char>>) -> Option<
    Seq<char>,
> {
    match setting {
        Some(command) => if text::trimmed(command).len() == 0 {
            None
        } else {
            Some(command)
        },
        None => match home {
            Some(home) => Some(text::joined_path(home, ".tvbox/recover.sh"@)),
            None => None,
        },
    }
}

/// The usual thresholds are used where a setting's cannot be.
fn hold_times(hold: Option<String>) -> (r: Vec<u64>)
    ensures
        r@.map_values(|n: u64| n as nat) == thresholds(text::owned(hold)),
        r@.len() > 0,
{
    match hold {
        Some(list) => {
            let numbers = text::parse_list(list.as_str(), u64::MAX);
            let ghost wanted = numbers@.map_values(|n: u64| n as nat);
            let mut usable: bool = numbers.len() > 0 && numbers[0] > 0;
            let mut at: usize = 1;
            while at < numbers.len()
                invariant
                    1 <= at,
                    at <= numbers@.len() || numbers@.len() == 0,
                    wanted == numbers@.map_values(|n: u64| n as nat),
                    usable ==> numbers@.len() > 0 && ascending(wanted.take(at as int)),
                    !usable ==> !ascending(wanted),
                decreases numbers@.len() - at,
            {
                if numbers[at - 1] >= numbers[at] {
                    usable = false;
                    assert(wanted[at - 1] >= wanted[at as int]);
                }
                proof {
                    if usable {
                        assert forall|i: int, j: int| 0 <= i < j < at + 1 implies #[trigger] wanted[i]
                            < #[trigger] wanted[j] by {
                            assert(wanted.take(at as int)[i] == wanted[i]);
                            assert(wanted.take(at as int)[at - 1] == wanted[at - 1]);
                            if j < at {
                                assert(wanted.take(at as int)[j] == wanted[j]);
                            }
                        }
                    }
                }
                at += 1;
            }
            if usable {
                assert(wanted.take(at as int) == wanted);
                return numbers;
            }
        },
        None => {},
    }
    let usual: Vec<u64> = vec![3000, 10000];
    assert(usual@.map_values(|n: u64| n as nat) == seq![3000nat, 10000nat]);
    usual
}

/// The usual key is watched where a setting names none.
fn key_codes(keys: Option<String>) -> (r: Vec<u32>)
    ensures
        r@.map_values(|n: u32| n as nat) == watched_keys(text::owned(keys)),
{
    let mut codes: Vec<u32> = Vec::new();
    match keys {
        Some(list) => {
            let numbers = text::parse_list(list.as_str(), u32::MAX as u64);
            let ghost wanted = numbers@.map_values(|n: u64| n as nat);
            proof {
                text::lemma_listed_numbers_fit(text::split_commas(list@), u32::MAX as nat);
            }
            let mut at: usize = 0;
            while at < numbers.len()
                invariant
                    at <= numbers@.len(),
                    wanted == numbers@.map_values(|n: u64| n as nat),
                    forall|i: int| 0 <= i < wanted.len() ==> #[trigger] wanted[i] <= u32::MAX,
                    codes@.map_values(|n: u32| n as nat) == wanted.take(at as int),
                decreases numbers@.len() - at,
            {
                let ghost before = codes@;
                assert(wanted[at as int] <= u32::MAX);
                codes.push(numbers[at] as u32);
                assert(codes@.map_values(|n: u32| n as nat) == before.map_values(
                    |n: u32| n as nat,
                ).push(wanted[at as int]));
                at += 1;
            }
            assert(codes@.map_values(|n: u32| n as nat) == wanted);
            if codes.len() > 0 {
                assert(wanted.len() > 0);
                return codes;
            }
        },
        None => {},
    }
    codes = vec![DEFAULT_KEY];
    assert(codes@.map_values(|n: u32| n as nat) == seq![DEFAULT_KEY as nat]);
    codes
}

/// Parse the three settings. `None` means the feature is off.
pub fn config_from(
    cmd: Option<String>,
    keys: Option<String>,
    hold: Option<String>,
    home: Option<String>,
) -> (r: Option<Config>)
    ensures
        match r {
            Some(config) => {
                &&& command_of(text::owned(cmd), text::owned(home)) == Some(config.command@)
                &&& config.keys@.map_values(|n: u32| n as nat) == watched_keys(text::owned(keys))
                &&& staged(config.stages@, thresholds(text::owned(hold)))
            },
            None => command_of(text::owned(cmd), text::owned(home)) is None,
        },
{
    let command = match cmd {
        Some(command) => {
            let chars = text::chars_of(command.as_str());
            if text::trim(chars.as_slice()).len() == 0 {
                return None;
            }
            command
        },
        None => match home {
            Some(home) => text::join_path(home.as_str(), ".tvbox/recover.sh"),
            None => return None,
        },
    };
    let keys = key_codes(keys);
    let times = hold_times(hold);
    let ghost wanted = times@.map_values(|n: u64| n as nat);
    let mut stages: Vec<(u64, &'static str)> = Vec::new();
    stages.push((times[0], "reload"));
    if times.len() > 1 {
        stages.push((times[1], "restart"));
    }
    assert(wanted.len() == times@.len());
    assert(staged(stages@, wanted));
    Some(Config { command, keys, stages })
}

/// Which hold is in progress, if any. Every new hold (and every cancel) takes a new
/// generation, so a timer armed for an earlier one finds it is stale and does
/// nothing - cheaper and simpler than tracking timer tokens to remove them.
#[derive(Debug, Clone, Copy, PartialEq, Eq, Structural)]
pub struct Hold {
    /// Which hold this is.
    pub generation: u64,
    /// The key that is held.
    pub key: Option<u32>,
}

impl Default for Hold {
    fn default() -> (r: Self)
        ensures
            r == (Hold { generation: 0, key: None }),
    {
        Hold { generation: 0, key: None }
    }
}

impl Hold {
    /// The hold once the one in progress has been given up.
    pub open spec fn cancelled(self) -> Hold {
        Hold { generation: (self.generation + 1) as u64, key: None }
    }

    /// The hold after a key changed state.
    pub open spec fn after(self, code: u32, pressed: bool, watched: Seq<u32>) -> Hold {
        if pressed {
            if self.key is Some {
                self.cancelled()
            } else if watched.contains(code) {
                Hold { generation: (self.generation + 1) as u64, key: Some(code) }
            } else {
                self
            }
        } else if self.key == Some(code) {
            self.cancelled()
        } else {
            self
        }
    }

    /// Whether a key that changed state is the start of a hold.
    pub open spec fn starts(self, code: u32, pressed: bool, watched: Seq<u32>) -> bool {
        pressed && self.key is None && watched.contains(code)
    }

    /// Whether the hold armed as `generation` is still going.
    pub open spec fn is_current(self, generation: u64) -> bool {
        self.key is Some && self.generation == generation
    }

    /// A key changed state. Returns the generation to arm timers for, when this is
    /// the start of a hold.
    pub fn key(&mut self, code: u32, pressed: bool, watched: &[u32]) -> (r: Option<u64>)
        requires
            old(self).generation < u64::MAX,
        ensures
            *final(self) == old(self).after(code, pressed, watched@),
            r == (if old(self).starts(code, pressed, watched@) {
                Some(final(self).generation)
            } else {
                None
            }),
    {
        if pressed {
            if self.key.is_some() {
                self.cancel();
                return None;
            }
            if contains(watched, code) {
                self.generation += 1;
                self.key = Some(code);
                return Some(self.generation);
            }
            return None;
        }
        match self.key {
            Some(held) => if held == code {
                self.cancel();
            },
            None => {},
        }
        None
    }

    /// Give up the hold that is in progress.
    pub fn cancel(&mut self)
        requires
            old(self).generation < u64::MAX,
        ensures
            *final(self) == old(self).cancelled(),
    {
        self.generation += 1;
        self.key = None;
    }

    /// Is the hold armed as `generation` still going?
    pub fn current(&self, generation: u64) -> (r: bool)
        ensures
            r == self.is_current(generation),
    {
        self.key.is_some() && self.generation == generation
    }
}

fn contains(codes: &[u32], code: u32) -> (r: bool)
    ensures
        r == codes@.contains(code),
{
    let mut at: usize = 0;
    while at < codes.len()
        invariant
            at <= codes@.len(),
            forall|i: int| 0 <= i < at ==> codes@[i] != code,
        decreases codes@.len() - at,
    {
        if codes[at] == code {
            return true;
        }
        at += 1;
    }
    false
}

/// A timer to arm for a hold.
#[derive(Debug, Clone, Copy, PartialEq, Eq)]
pub struct Alarm {
    /// The hold it is armed for.
    pub generation: u64,
    /// When it is due, in milliseconds from now.
    pub after: u64,
    /// The stage that is reached then.
    pub stage: &'static str,
}

/// Feed every keyboard event through here, with the key code in evdev numbering.
/// Returns the timers to arm: one for each stage where this is the start of a hold,
/// else none.
pub fn on_key(config: &Config, hold: &mut Hold, evdev_code: u32, pressed: bool) -> (r: Vec<Alarm>)
    requires
        old(hold).generation < u64::MAX,
    ensures
        *final(hold) == old(hold).after(evdev_code, pressed, config.keys@),
        r@.len() == (if old(hold).starts(evdev_code, pressed, config.keys@) {
            config.stages@.len()
        } else {
            0
        }),
        forall|i: int|
            0 <= i < r@.len() ==> {
                &&& (#[trigger] r@[i]).generation == final(hold).generation
                &&& r@[i].after == config.stages@[i].0
                &&& r@[i].stage@ == config.stages@[i].1@
            },
{
    let mut alarms: Vec<Alarm> = Vec::new();
    match hold.key(evdev_code, pressed, config.keys.as_slice()) {
        Some(generation) => {
            let mut at: usize = 0;
            while at < config.stages.len()
                invariant
                    at <= config.stages@.len(),
                    alarms@.len() == at,
                    forall|i: int|
                        0 <= i < at ==> {
                            &&& (#[trigger] alarms@[i]).generation == generation
                            &&& alarms@[i].after == config.stages@[i].0
                            &&& alarms@[i].stage@ == config.stages@[i].1@
                        },
                decreases config.stages@.len() - at,
            {
                let (after, stage) = config.stages[at];
                alarms.push(Alarm { generation, after, stage });
                at += 1;
            }
        },
        None => {},
    }
    alarms
}

/// What a due timer runs: the command with its stage, where the hold it was armed for is
/// still going and the command exists.
pub fn due(hold: &Hold, alarm: &Alarm, command_exists: bool) -> (r: bool)
    ensures
        r == (hold.is_current(alarm.generation) && command_exists),
{
    hold.current(alarm.generation) && command_exists
}

/// One thing that happens to a hold.
pub enum Event {
    /// A key changed state, while these were watched.
    Key { code: u32, pressed: bool, watched: Seq<u32> },
    /// It was given up.
    Cancel,
}

/// Whether a hold of a key goes on through something that happens: another key comes up.
pub open spec fn leaves(event: Event, held: u32) -> bool {
    match event {
        Event::Key { code, pressed, .. } => !pressed && code != held,
        Event::Cancel => false,
    }
}

/// The hold after one thing happened to it.
pub open spec fn after_one(hold: Hold, event: Event) -> Hold {
    match event {
        Event::Key { code, pressed, watched } => hold.after(code, pressed, watched),
        Event::Cancel => hold.cancelled(),
    }
}

/// The hold after some things happened to it one after the other.
pub open spec fn after_all(hold: Hold, events: Seq<Event>) -> Hold
    decreases events.len(),
{
    if events.len() == 0 {
        hold
    } else {
        after_one(after_all(hold, events.drop_last()), events.last())
    }
}

proof fn lemma_generations_go_up(hold: Hold, events: Seq<Event>)
    requires
        hold.generation + events.len() <= u64::MAX,
    ensures
        hold.generation <= after_all(hold, events).generation <= hold.generation + events.len(),
    decreases events.len(),
{
    if events.len() > 0 {
        lemma_generations_go_up(hold, events.drop_last());
    }
}

/// A hold that is over never comes back, whatever happens after it and whichever keys are
/// watched by then: a timer armed for it finds that it is stale.
pub proof fn law_a_hold_that_is_over_stays_over(hold: Hold, generation: u64, events: Seq<Event>)
    requires
        generation <= hold.generation,
        !hold.is_current(generation),
        hold.generation + events.len() <= u64::MAX,
    ensures
        !after_all(hold, events).is_current(generation),
    decreases events.len(),
{
    if events.len() > 0 {
        law_a_hold_that_is_over_stays_over(hold, generation, events.drop_last());
        lemma_generations_go_up(hold, events.drop_last());
    }
}

/// A hold is going only for as long as no other key goes down, its own does not come up,
/// and nothing gives it up.
pub proof fn law_only_an_unbroken_hold_counts(hold: Hold, code: u32, events: Seq<Event>)
    requires
        hold.key == Some(code),
        hold.generation + events.len() <= u64::MAX,
    ensures
        after_all(hold, events).is_current(hold.generation) <==> forall|i: int|
            0 <= i < events.len() ==> leaves(#[trigger] events[i], code),
    decreases events.len(),
{
    if events.len() > 0 {
        let earlier = events.drop_last();
        law_only_an_unbroken_hold_counts(hold, code, earlier);
        lemma_generations_go_up(hold, earlier);
        let before = after_all(hold, earlier);
        lemma_key_is_kept(hold, earlier);
        if before.is_current(hold.generation) {
            assert forall|i: int| 0 <= i < events.len() - 1 implies leaves(
                #[trigger] events[i],
                code,
            ) by {
                assert(earlier[i] == events[i]);
            }
            assert(events.last() == events[events.len() - 1]);
        } else {
            let i = choose|i: int| 0 <= i < earlier.len() && !leaves(#[trigger] earlier[i], code);
            assert(events[i] == earlier[i]);
        }
    }
}

proof fn lemma_key_is_kept(hold: Hold, events: Seq<Event>)
    requires
        hold.generation + events.len() <= u64::MAX,
    ensures
        after_all(hold, events).generation == hold.generation ==> after_all(hold, events).key
            == hold.key,
    decreases events.len(),
{
    if events.len() > 0 {
        lemma_key_is_kept(hold, events.drop_last());
        lemma_generations_go_up(hold, events.drop_last());
    }
}

/// The thresholds can always be reached one after the other; they are those of the setting
/// where those can be, and three and ten seconds where they cannot or there are none.
pub proof fn law_stages_are_reached_in_order(setting: Option<Seq<char>>)
    ensures
        thresholds(setting).len() > 0,
        thresholds(setting)[0] > 0,
        forall|i: int, j: int|
            0 <= i < j < thresholds(setting).len() ==> #[trigger] thresholds(setting)[i]
                < #[trigger] thresholds(setting)[j],
        setting is None ==> thresholds(setting) == seq![3000nat, 10000nat],
        setting matches Some(list) ==> {
            let numbers = text::listed_numbers(text::split_commas(list), u64::MAX as nat);
            if numbers.len() > 0 && numbers[0] > 0 && (forall|i: int|
                0 < i < numbers.len() ==> numbers[i - 1] < #[trigger] numbers[i]) {
                thresholds(setting) == numbers
            } else {
                thresholds(setting) == seq![3000nat, 10000nat]
            }
        },
{
    if let Some(list) = setting {
        let numbers = text::listed_numbers(text::split_commas(list), u64::MAX as nat);
        if numbers.len() > 0 && numbers[0] > 0 && (forall|i: int|
            0 < i < numbers.len() ==> numbers[i - 1] < #[trigger] numbers[i]) {
            assert forall|i: int, j: int| 0 <= i < j < numbers.len() implies #[trigger] numbers[i]
                < #[trigger] numbers[j] by {
                lemma_each_is_above_the_earlier(numbers, i, j);
            }
        } else if ascending(numbers) {
            assert forall|i: int| 0 < i < numbers.len() implies numbers[i - 1]
                < #[trigger] numbers[i] by {}
        }
    }
}

proof fn lemma_each_is_above_the_earlier(numbers: Seq<nat>, i: int, j: int)
    requires
        0 <= i < j < numbers.len(),
        forall|k: int| 0 < k < numbers.len() ==> numbers[k - 1] < #[trigger] numbers[k],
    ensures
        numbers[i] < numbers[j],
    decreases j - i,
{
    assert(numbers[j - 1] < numbers[j]);
    if i < j - 1 {
        lemma_each_is_above_the_earlier(numbers, i, j - 1);
    }
}

/// The first stage reloads and the second restarts; there is one for each threshold, and never
/// a third.
pub proof fn law_a_longer_hold_does_more(
    stages: Seq<(u64, &'static str)>,
    setting: Option<Seq<char>>,
)
    requires
        staged(stages, thresholds(setting)),
    ensures
        1 <= stages.len() <= 2,
        stages.len() == 1 <==> thresholds(setting).len() == 1,
        stages[0].1@ == "reload"@,
        stages[0].0 == thresholds(setting)[0],
        stages.len() == 2 ==> {
            &&& stages[1].1@ == "restart"@
            &&& stages[1].0 == thresholds(setting)[1]
            &&& stages[0].0 < stages[1].0
        },
{
    law_stages_are_reached_in_order(setting);
    assert(stages[0].1@ == stage_name(0));
    if stages.len() == 2 {
        assert(stages[1].1@ == stage_name(1));
    }
}

/// The keys that are watched are those of the setting, in order, and the home key where it
/// names none.
pub proof fn law_the_keys_of_the_setting_are_watched(setting: Option<Seq<char>>)
    ensures
        watched_keys(setting).len() > 0,
        setting is None ==> watched_keys(setting) == seq![172nat],
        setting matches Some(list) ==> {
            let numbers = text::listed_numbers(text::split_commas(list), u32::MAX as nat);
            if numbers.len() == 0 {
                watched_keys(setting) == seq![172nat]
            } else {
                watched_keys(setting) == numbers
            }
        },
{
}

/// The command that is set is run as it is; a blank one switches the feature off; and without
/// one it is the usual script at home, where there is a home.
pub proof fn law_the_command_that_is_set_is_run(
    setting: Option<Seq<char>>,
    home: Option<Seq<char>>,
)
    ensures
        setting matches Some(command) ==> {
            &&& (forall|i: int|
                0 <= i < command.len() ==> text::is_space(#[trigger] command[i])) ==> command_of(
                setting,
                home,
            ) is None
            &&& (exists|i: int|
                0 <= i < command.len() && !text::is_space(#[trigger] command[i])) ==> command_of(
                setting,
                home,
            ) == Some(command)
        },
        setting is None && home is None ==> command_of(setting, home) is None,
        setting is None && home is Some ==> command_of(setting, home) == Some(
            text::joined_path(home->0, ".tvbox/recover.sh"@),
        ),
{
    if let Some(command) = setting {
        let none = Seq::<char>::empty();
        if forall|i: int| 0 <= i < command.len() ==> text::is_space(#[trigger] command[i]) {
            text::law_only_white_space_is_trimmed(command, none, none);
            assert(command + none + none == command);
        }
        if exists|i: int| 0 <= i < command.len() && !text::is_space(#[trigger] command[i]) {
            let i = choose|i: int|
                0 <= i < command.len() && !text::is_space(#[trigger] command[i]);
            text::lemma_trimmed_keeps(command, i);
        }
    }
}

/// A hold starts when a watched key goes down while nothing is held, and only then: it is that
/// key's, and it is current under a generation that no hold before it had.
pub proof fn law_a_hold_starts_with_a_watched_key(
    hold: Hold,
    code: u32,
    pressed: bool,
    watched: Seq<u32>,
)
    requires
        hold.generation < u64::MAX,
    ensures
        hold.starts(code, pressed, watched) <==> pressed && hold.key is None && watched.contains(
            code,
        ),
        hold.starts(code, pressed, watched) ==> {
            let after = hold.after(code, pressed, watched);
            &&& after.key == Some(code)
            &&& after.generation == hold.generation + 1
            &&& after.is_current(after.generation)
            &&& !hold.is_current(after.generation)
        },
        hold.key is None && !hold.starts(code, pressed, watched) ==> hold.after(
            code,
            pressed,
            watched,
        ) == hold,
        hold.cancelled().key is None,
        hold.cancelled().generation == hold.generation + 1,
        forall|generation: u64| #[trigger]
            hold.is_current(generation) <==> hold.key is Some && hold.generation == generation,
{
}

/// A hold is over once another key goes down or its own comes up, and goes on through anything
/// else that a key does.
pub proof fn law_a_chord_is_no_hold(
    hold: Hold,
    held: u32,
    code: u32,
    pressed: bool,
    watched: Seq<u32>,
)
    requires
        hold.generation < u64::MAX,
        hold.key == Some(held),
    ensures
        hold.after(code, pressed, watched).is_current(hold.generation) <==> !pressed && code
            != held,
        pressed || code == held ==> hold.after(code, pressed, watched).key is None,
        !pressed && code != held ==> hold.after(code, pressed, watched) == hold,
{
}

/// A timer that is due runs the command only for the very hold that it was armed for, while
/// that goes on, and where there is a command.
pub proof fn law_a_stale_timer_does_nothing(hold: Hold, alarm: Alarm, exists: bool, runs: bool)
    requires
        call_ensures(due, (&hold, &alarm, exists), runs),
    ensures
        runs <==> exists && hold.key is Some && hold.generation == alarm.generation,
{
}

}
