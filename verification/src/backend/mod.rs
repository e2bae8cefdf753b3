//! The display hardware: what is drawn when, and at which mode.
//!
//! One device, one output, no hotplug of GPUs. That is not a simplification to be
//! fixed later - the box has a single HDMI connector and a soldered-on GPU, and
//! every branch that pretends otherwise is a branch nobody can test here.

use vstd::prelude::*;
use crate::backend::mode::{DisplayMode, OutputMode};
use crate::backend::pace::{FrameOutcome, Pace};
use crate::ipc::{HdrInfo, ModeInfo, OutputInfo};
use crate::kms::hdr::{HdrProperties, Step};
use crate::text;

pub use crate::backend::mode::refresh_mhz_from;

pub mod mode;
pub mod nodes;
pub mod pace;

verus! {

/// The single output's scan-out state.
pub struct Surface {
    /// The CRTC this output is driven by.
    pub crtc: u32,
    /// The connector's HDR properties, if the driver has them.
    pub hdr: Option<HdrProperties>,
    /// The mode the shell asked for, re-applied when the display comes back.
    ///
    /// A TV switched off and on again reconnects as a fresh connector, and the
    /// default is to fall back to its preferred mode. That is how the display ends
    /// up at 1360x768 in the middle of a film.
    pub wanted_mode: Option<DisplayMode>,
    /// When the next frame is drawn.
    pub pace: Pace,
}

/// An opened DRM device.
pub struct Device {
    /// The output, once a connector is up.
    pub surface: Option<Surface>,
}

/// The display side of the compositor.
pub struct Tty {
    /// The DRM device, once opened.
    pub device: Option<Device>,
    /// Whether the session currently owns the device.
    pub active: bool,
}

/// A connector, as it was just read.
pub struct Connector {
    /// What it is called.
    pub name: String,
    /// Whether a display is attached.
    pub connected: bool,
    /// Every mode it advertises.
    pub modes: Vec<DisplayMode>,
    /// The CRTCs that can drive it, in order.
    pub crtcs: Vec<u32>,
    /// How large the display is in millimetres, where it says.
    pub size: Option<(u32, u32)>,
}

/// How to bring up an output.
#[derive(Debug, Clone, Copy, PartialEq, Eq)]
pub struct Bringup {
    /// Which connector, by its place in the list.
    pub connector: usize,
    /// Which of its modes, by its place in the list.
    pub mode: usize,
    /// The CRTC to drive it by.
    pub crtc: u32,
    /// The mode as the output is told it.
    pub output: OutputMode,
    /// How large the display is in millimetres.
    pub size: (i32, i32),
}

/// What to do about the device when the session gains or loses it.
#[derive(Debug, Clone, Copy, PartialEq, Eq, Structural)]
pub enum SessionStep {
    /// Nothing: there is no device.
    Nothing,
    /// Let go of it.
    Pause,
    /// Take it back, forget what was on the output where there is one, and draw.
    Resume { reset: bool },
}

/// What a connector is called: its kind and its number.
pub fn connector_name(interface: &str, id: u32) -> (r: String)
    ensures
        r@ == interface@ + "-"@ + text::decimal(id as nat),
{
    let mut name = interface.to_owned();
    name.append("-");
    text::push_decimal(&mut name, id as u64);
    name
}

/// Where the first connector stands that a display is attached to, or the length of the
/// list.
pub open spec fn first_connected(connectors: Seq<Connector>) -> nat
    decreases connectors.len(),
{
    if connectors.len() == 0 {
        0
    } else {
        let earlier = first_connected(connectors.drop_last());
        if earlier < connectors.len() - 1 || connectors.last().connected {
            earlier
        } else {
            connectors.len()
        }
    }
}

proof fn lemma_first_connected(connectors: Seq<Connector>)
    ensures
        first_connected(connectors) <= connectors.len(),
        first_connected(connectors) < connectors.len() ==> connectors[first_connected(
            connectors,
        ) as int].connected,
        forall|i: int|
            0 <= i < first_connected(connectors) ==> !(#[trigger] connectors[i]).connected,
    decreases connectors.len(),
{
    if connectors.len() > 0 {
        lemma_first_connected(connectors.drop_last());
        assert forall|i: int| 0 <= i < first_connected(connectors) implies !(
        #[trigger] connectors[i]).connected by {
            if i < connectors.len() - 1 {
                assert(connectors.drop_last()[i] == connectors[i]);
            }
        }
    }
}

/// What comes of looking for an output to bring up.
pub enum Search {
    /// This one.
    Found(Bringup),
    /// There is nothing to do: it is up already, or nothing is plugged in yet.
    Nothing,
    /// It cannot be brought up.
    Failed(Seq<char>),
}

/// How a connector is brought up, at a mode and with a CRTC.
pub open spec fn bringup_of(connectors: Seq<Connector>, at: nat, mode: nat) -> Bringup {
    let connector = connectors[at as int];
    let timings = connector.modes@[mode as int].timings;
    Bringup {
        connector: at as usize,
        mode: mode as usize,
        crtc: connector.crtcs@[0],
        output: OutputMode {
            w: timings.hdisplay as i32,
            h: timings.vdisplay as i32,
            refresh: timings.vrefresh.wrapping_mul(1000) as i32,
        },
        size: match connector.size {
            Some((w, h)) => (w as i32, h as i32),
            None => (0, 0),
        },
    }
}

/// Whether a display is attached to none of the connectors: a box is routinely powered on
/// with the TV off, so that is no failure.
pub open spec fn search(connectors: Seq<Connector>) -> Search {
    let at = first_connected(connectors);
    if at == connectors.len() {
        Search::Nothing
    } else {
        match mode::best(connectors[at as int].modes@) {
            None => Search::Failed("connector advertises no mode"@),
            Some(mode) => if connectors[at as int].crtcs@.len() == 0 {
                Search::Failed("no CRTC for the connector"@)
            } else {
                Search::Found(bringup_of(connectors, at, mode))
            },
        }
    }
}

/// What to do when a connector changes state.
#[derive(Debug, PartialEq, Eq)]
pub enum Hotplug {
    /// Nothing.
    Nothing,
    /// Bring the output up.
    BringUp(Bringup),
    /// Put the output on the mode at this place in its connector's list.
    Restore(usize),
    /// Nothing: a display appeared that the output would not come up on.
    Failed(String),
}

/// What comes of a request that needs the output.
pub enum Reached {
    /// It gets there.
    Yes,
    /// It does not.
    No(Seq<char>),
}

impl Tty {
    /// The output, where there is one.
    pub open spec fn output(self) -> Option<Surface> {
        match self.device {
            Some(device) => device.surface,
            None => None,
        }
    }

    /// The same with another output.
    pub open spec fn with_output(self, surface: Surface) -> Tty {
        Tty { device: Some(Device { surface: Some(surface) }), ..self }
    }

    /// The same with its output at another pace, where there is one.
    pub open spec fn with_pace(self, pace: Pace) -> Tty {
        match self.output() {
            Some(surface) => self.with_output(Surface { pace, ..surface }),
            None => self,
        }
    }

    /// How the output's frames are paced.
    pub open spec fn pace(self) -> Pace
        recommends
            self.output() is Some,
    {
        self.output()->0.pace
    }

    /// A display side with no device yet.
    pub fn new(active: bool) -> (r: Tty)
        ensures
            r.device is None,
            r.active == active,
    {
        Tty { device: None, active }
    }

    /// The device was opened.
    pub fn device_opened(&mut self)
        ensures
            *final(self) == (Tty { device: Some(Device { surface: None }), ..*old(self) }),
    {
        self.device = Some(Device { surface: None });
    }

    /// Look for an output to bring up: the first connected connector at its preferred
    /// mode.
    ///
    /// `Ok(None)` means that it is up already - a hotplug is [`Self::on_connector_change`]'s
    /// business - or that there is nothing plugged in yet.
    pub fn init_output(&self, connectors: &Vec<Connector>) -> (r: Result<Option<Bringup>, String>)
        ensures
            match r {
                Ok(Some(bringup)) => {
                    &&& self.device is Some && self.output() is None
                    &&& search(connectors@) == Search::Found(bringup)
                    &&& bringup.connector < connectors@.len()
                    &&& bringup.mode < connectors@[bringup.connector as int].modes@.len()
                },
                Ok(None) => {
                    &&& self.device is Some
                    &&& self.output() is Some || search(connectors@) == Search::Nothing
                },
                Err(why) => if self.device is None {
                    why@ == "no device opened"@
                } else {
                    self.output() is None && search(connectors@) == Search::Failed(why@)
                },
            },
            is_the_display_that_is_there(connectors@, search(connectors@)),
            r matches Ok(Some(bringup)) ==> is_the_display_that_is_there(
                connectors@,
                Search::Found(bringup),
            ),
    {
        proof {
            assert forall|i: int| 0 <= i < connectors@.len() implies (
            #[trigger] connectors@[i]).modes@.len() <= usize::MAX by {
                assert(connectors@[i].modes.len() <= usize::MAX);
            }
            assert(connectors.len() <= usize::MAX);
            law_the_attached_display_is_brought_up(connectors@);
        }
        match &self.device {
            None => return Err("no device opened".to_owned()),
            Some(device) => if device.surface.is_some() {
                return Ok(None);
            },
        }
        let mut at: usize = 0;
        proof {
            lemma_first_connected(connectors@);
        }
        while at < connectors.len() && !connectors[at].connected
            invariant
                at <= first_connected(connectors@) <= connectors@.len(),
                first_connected(connectors@) < connectors@.len() ==> connectors@[first_connected(
                    connectors@,
                ) as int].connected,
            decreases connectors@.len() - at,
        {
            at += 1;
        }
        if at == connectors.len() {
            return Ok(None);
        }
        let connector = &connectors[at];
        let mode: usize = match mode::best_mode(&connector.modes) {
            Some(mode) => mode,
            None => return Err("connector advertises no mode".to_owned()),
        };
        if connector.crtcs.len() == 0 {
            return Err("no CRTC for the connector".to_owned());
        }
        let timings = connector.modes[mode].timings;
        Ok(
            Some(
                Bringup {
                    connector: at,
                    mode,
                    crtc: connector.crtcs[0],
                    output: OutputMode {
                        w: timings.hdisplay as i32,
                        h: timings.vdisplay as i32,
                        refresh: timings.vrefresh.wrapping_mul(1000) as i32,
                    },
                    size: match connector.size {
                        Some((w, h)) => (w as i32, h as i32),
                        None => (0, 0),
                    },
                },
            ),
        )
    }

    /// The output came up.
    pub fn output_up(&mut self, crtc: u32, hdr: Option<HdrProperties>)
        ensures
            *final(self) == old(self).with_output(
                Surface { crtc, hdr, wanted_mode: None, pace: Pace::fresh() },
            ),
    {
        let surface = Surface { crtc, hdr, wanted_mode: None, pace: Pace::new() };
        self.device = Some(Device { surface: Some(surface) });
    }

    /// What the output is doing and what it could do, for the shell: nothing where there
    /// is none, or its connector cannot be read.
    pub open spec fn reported(
        self,
        connector: Option<Connector>,
        current: DisplayMode,
    ) -> Option<(Seq<char>, ModeInfo, Seq<ModeInfo>, bool, HdrInfo)> {
        match (self.output(), connector) {
            (Some(surface), Some(connector)) => Some(
                (
                    connector.name@,
                    current.info(),
                    Seq::new(connector.modes@.len(), |i: int| connector.modes@[i].info()),
                    !surface.pace.asleep,
                    HdrInfo {
                        supported: surface.hdr is Some,
                        on: surface.hdr matches Some(hdr) && hdr.is_claimed(),
                    },
                ),
            ),
            _ => None,
        }
    }

    /// What the output is doing and what it could do, for the shell. `current` is the mode
    /// in use.
    pub fn outputs(&self, connector: &Option<Connector>, current: &DisplayMode) -> (r: Vec<
        OutputInfo,
    >)
        ensures
            match self.reported(*connector, *current) {
                Some((name, mode, modes, connected, hdr)) => {
                    &&& r@.len() == 1
                    &&& r@[0].name@ == name
                    &&& r@[0].current == Some(mode)
                    &&& r@[0].modes@ == modes
                    &&& r@[0].connected == connected
                    &&& r@[0].hdr == hdr
                },
                None => r@.len() == 0,
            },
            r@.len() == 1 <==> self.output() is Some && connector is Some,
            r@.len() <= 1,
            r@.len() == 1 ==> {
                &&& r@[0].name@ == connector->0.name@
                &&& r@[0].current == Some(current.info())
                &&& r@[0].modes@.len() == connector->0.modes@.len()
                &&& forall|i: int|
                    0 <= i < r@[0].modes@.len() ==> #[trigger] r@[0].modes@[i]
                        == connector->0.modes@[i].info()
                &&& r@[0].connected == !self.output()->0.pace.asleep
                &&& r@[0].hdr.supported == (self.output()->0.hdr is Some)
                &&& r@[0].hdr.on == (self.output()->0.hdr matches Some(hdr) && hdr.blob is Some)
            },
    {
        let mut outputs: Vec<OutputInfo> = Vec::new();
        if !self.has_output() {
            return outputs;
        }
        let connector = match connector {
            Some(connector) => connector,
            None => return outputs,
        };
        let mut modes: Vec<ModeInfo> = Vec::new();
        let mut at: usize = 0;
        while at < connector.modes.len()
            invariant
                at <= connector.modes@.len(),
                modes@ == Seq::new(at as nat, |i: int| connector.modes@[i].info()),
            decreases connector.modes@.len() - at,
        {
            modes.push(connector.modes[at].describe());
            at += 1;
            assert(modes@ == Seq::new(at as nat, |i: int| connector.modes@[i].info()));
        }
        let (supported, on) = self.hdr_state();
        outputs.push(
            OutputInfo {
                name: connector.name.clone(),
                current: Some(current.describe()),
                modes,
                connected: self.awake(),
                hdr: HdrInfo { supported, on },
            },
        );
        outputs
    }

    fn has_output(&self) -> (r: bool)
        ensures
            r == (self.output() is Some),
    {
        match &self.device {
            Some(device) => device.surface.is_some(),
            None => false,
        }
    }

    /// Whether a request gets as far as the output's connector.
    pub open spec fn reach(self, connector: Option<Connector>) -> Reached {
        if self.device is None {
            Reached::No("no device opened"@)
        } else if self.output() is None {
            Reached::No("no output"@)
        } else if connector is None {
            Reached::No("failed to read the connector"@)
        } else {
            Reached::Yes
        }
    }

    fn reach_connector<'a>(&self, connector: &'a Option<Connector>) -> (r: Result<
        &'a Connector,
        String,
    >)
        ensures
            match r {
                Ok(found) => self.reach(*connector) == Reached::Yes && *connector == Some(*found),
                Err(why) => self.reach(*connector) == Reached::No(why@),
            },
    {
        match &self.device {
            None => return Err("no device opened".to_owned()),
            Some(device) => if device.surface.is_none() {
                return Err("no output".to_owned());
            },
        }
        match connector {
            Some(connector) => Ok(connector),
            None => Err("failed to read the connector".to_owned()),
        }
    }

    /// What comes of a request for a mode.
    pub open spec fn mode_choice(
        self,
        connector: Option<Connector>,
        name: Seq<char>,
        w: i32,
        h: i32,
        refresh: Option<i32>,
    ) -> mode::Choice {
        match self.reach(connector) {
            Reached::No(why) => mode::Choice::Refused(why),
            Reached::Yes => mode::chosen(
                connector->0.modes@,
                connector->0.name@,
                name,
                w,
                h,
                refresh,
            ),
        }
    }

    /// Pick the mode that a request asks for, by its place in the connector's list.
    ///
    /// A refresh rate is optional because a TV usually offers one rate per size,
    /// and the shell should not have to know whether the kernel calls it 59.94 or
    /// 60.
    pub fn set_mode(
        &self,
        connector: &Option<Connector>,
        name: &str,
        w: i32,
        h: i32,
        refresh: Option<i32>,
    ) -> (r: Result<usize, String>)
        ensures
            match r {
                Ok(at) => {
                    &&& self.mode_choice(*connector, name@, w, h, refresh) == mode::Choice::Mode(
                        at as nat,
                    )
                    &&& self.output() is Some
                    &&& connector matches Some(connector) && at < connector.modes@.len()
                },
                Err(why) => self.mode_choice(*connector, name@, w, h, refresh)
                    == mode::Choice::Refused(why@),
            },
            self.reach(*connector) == Reached::Yes ==> mode::answers_the_request(
                connector->0.modes@,
                connector->0.name@,
                name@,
                w,
                h,
                refresh,
                match r {
                    Ok(at) => mode::Choice::Mode(at as nat),
                    Err(why) => mode::Choice::Refused(why@),
                },
            ),
            self.reach(*connector) matches Reached::No(why) ==> r matches Err(text) && text@
                == why,
    {
        match self.reach_connector(connector) {
            Ok(found) => mode::select_mode(
                &found.modes,
                found.name.as_str(),
                name,
                w,
                h,
                refresh,
            ),
            Err(why) => Err(why),
        }
    }

    /// The mode was set: it is the one to come back to, and everything is drawn anew.
    pub fn mode_set(&mut self, mode: &DisplayMode) -> (r: OutputMode)
        ensures
            r == mode.as_output(),
            final(self).active == old(self).active,
            match old(self).output() {
                Some(surface) => {
                    &&& final(self).output() matches Some(after)
                    &&& after.crtc == surface.crtc
                    &&& after.hdr == surface.hdr
                    &&& after.wanted_mode matches Some(wanted) && wanted.same_as(*mode)
                        && wanted.timings == mode.timings && wanted.name@ == mode.name@
                    &&& after.pace == surface.pace.restarted()
                },
                None => *final(self) == *old(self),
            },
    {
        match &mut self.device {
            Some(device) => match &mut device.surface {
                Some(surface) => {
                    surface.wanted_mode = Some(mode.clone());
                    surface.pace.restart();
                },
                None => {},
            },
            None => {},
        }
        mode.output_mode()
    }

    /// What comes of a request to claim or release the output's colour space.
    pub open spec fn hdr_reach(self, connector: Option<Connector>, name: Seq<char>) -> Reached {
        match self.reach(connector) {
            Reached::No(why) => Reached::No(why),
            Reached::Yes => if connector->0.name@ != name {
                Reached::No("no output named "@ + name)
            } else if self.output()->0.hdr is None {
                Reached::No("this connector has no HDR properties"@)
            } else {
                Reached::Yes
            },
        }
    }

    /// Whether the output's colour space can be claimed or released.
    pub fn set_hdr(&self, connector: &Option<Connector>, name: &str) -> (r: Result<(), String>)
        ensures
            match r {
                Ok(_) => {
                    &&& self.hdr_reach(*connector, name@) == Reached::Yes
                    &&& self.output() matches Some(surface) && surface.hdr is Some
                },
                Err(why) => self.hdr_reach(*connector, name@) == Reached::No(why@),
            },
    {
        match self.reach_connector(connector) {
            Ok(found) => {
                if !text::same(found.name.as_str(), name) {
                    let mut why = "no output named ".to_owned();
                    why.append(name);
                    return Err(why);
                }
                match &self.device {
                    Some(device) => match &device.surface {
                        Some(surface) => if surface.hdr.is_some() {
                            return Ok(());
                        },
                        None => {},
                    },
                    None => {},
                }
                Err("this connector has no HDR properties".to_owned())
            },
            Err(why) => Err(why),
        }
    }

    /// The properties to commit for a claim or a release, where the output has any.
    pub fn hdr_request(&self, on: bool, blob: u64) -> (r: Vec<(u32, u64)>)
        ensures
            r@ == (match self.output() {
                Some(surface) => match surface.hdr {
                    Some(hdr) => hdr.properties_for(on, blob, true),
                    None => Seq::empty(),
                },
                None => Seq::empty(),
            }),
    {
        match &self.device {
            Some(device) => match &device.surface {
                Some(surface) => match surface.hdr {
                    Some(hdr) => return hdr.request(on, blob, true),
                    None => {},
                },
                None => {},
            },
            None => {},
        }
        Vec::new()
    }

    /// A commit of the colour space came back. `None` means that there is none to set.
    pub fn hdr_committed(
        &mut self,
        on: bool,
        blob: u64,
        with_depth: bool,
        accepted: bool,
    ) -> (r: Option<Step>)
        ensures
            match old(self).output() {
                Some(surface) => match surface.hdr {
                    Some(hdr) => {
                        let again = !accepted && with_depth && hdr.max_bpc is Some;
                        let blob_now = if again {
                            hdr.blob
                        } else {
                            hdr.blob_after(blob, accepted)
                        };
                        &&& *final(self) == old(self).with_output(
                            Surface {
                                hdr: Some(HdrProperties { blob: blob_now, ..hdr }),
                                ..surface
                            },
                        )
                        &&& match r {
                            Some(Step::Retry(request)) => again && request@ == hdr.properties_for(
                                on,
                                blob,
                                false,
                            ),
                            Some(Step::Done { destroy }) => accepted && destroy
                                == hdr.spare_after(blob, true),
                            Some(Step::Refused { destroy }) => !accepted && !again && destroy
                                == hdr.spare_after(blob, false),
                            None => false,
                        }
                    },
                    None => r is None && *final(self) == *old(self),
                },
                None => r is None && *final(self) == *old(self),
            },
    {
        match &mut self.device {
            Some(device) => match &mut device.surface {
                Some(surface) => match surface.hdr {
                    Some(hdr) => {
                        let mut hdr: HdrProperties = hdr;
                        let step = hdr.after_commit(on, blob, with_depth, accepted);
                        surface.hdr = Some(hdr);
                        Some(step)
                    },
                    None => None,
                },
                None => None,
            },
            None => None,
        }
    }

    /// Whether the output's colour space can be claimed, and whether it is.
    pub fn hdr_state(&self) -> (r: (bool, bool))
        ensures
            r.0 == (self.output() matches Some(surface) && surface.hdr is Some),
            r.1 == (self.output() matches Some(surface) && surface.hdr matches Some(hdr)
                && hdr.is_claimed()),
    {
        match &self.device {
            Some(device) => match &device.surface {
                Some(surface) => match &surface.hdr {
                    Some(hdr) => (true, hdr.claimed()),
                    None => (false, false),
                },
                None => (false, false),
            },
            None => (false, false),
        }
    }

    /// A connector changed state: the TV was switched off, or came back. Returns the mode
    /// to put it on, by its place in the connector's list, where it came back.
    pub fn on_connector_change(&mut self, connector: &Option<Connector>) -> (r: Option<usize>)
        ensures
            match (old(self).output(), *connector) {
                (Some(surface), Some(connector)) => if !connector.connected {
                    &&& r is None
                    &&& *final(self) == old(self).with_pace(surface.pace.gone())
                } else if !surface.pace.asleep {
                    &&& r is None
                    &&& *final(self) == *old(self)
                } else {
                    &&& *final(self) == old(self).with_pace(surface.pace.back())
                    &&& match r {
                        Some(at) => at < connector.modes@.len() && mode::restored(
                            surface.wanted_mode,
                            connector.modes@,
                        ) == Some(at as nat),
                        None => mode::restored(surface.wanted_mode, connector.modes@) is None,
                    }
                    &&& match r {
                        Some(at) => mode::is_the_one_that_was_on(
                            surface.wanted_mode,
                            connector.modes@,
                            Some(at as nat),
                        ),
                        None => connector.modes@.len() == 0,
                    }
                },
                _ => r is None && *final(self) == *old(self),
            },
    {
        let connector = match connector {
            Some(connector) => connector,
            None => return None,
        };
        match &mut self.device {
            Some(device) => match &mut device.surface {
                Some(surface) => {
                    if !connector.connected {
                        surface.pace.go();
                        return None;
                    }
                    if !surface.pace.asleep {
                        return None;
                    }
                    surface.pace.come_back();
                    mode::restored_mode(&surface.wanted_mode, &connector.modes)
                },
                None => None,
            },
            None => None,
        }
    }

    /// A connector changed state. Where the output is not up yet this may be the display
    /// arriving, so that is looked for among all the connectors; where it is, what counts is
    /// its own.
    pub fn hotplug(&mut self, connectors: &Vec<Connector>, connector: &Option<Connector>) -> (r:
        Hotplug)
        ensures
            match old(self).output() {
                None => {
                    &&& *final(self) == *old(self)
                    &&& if old(self).device is None {
                        r matches Hotplug::Failed(why) && why@ == "no device opened"@
                    } else {
                        match search(connectors@) {
                            Search::Found(bringup) => r == Hotplug::BringUp(bringup),
                            Search::Nothing => r == Hotplug::Nothing,
                            Search::Failed(why) => r matches Hotplug::Failed(text) && text@ == why,
                        }
                    }
                },
                Some(surface) => match *connector {
                    Some(connector) => if !connector.connected {
                        &&& r == Hotplug::Nothing
                        &&& *final(self) == old(self).with_pace(surface.pace.gone())
                    } else if !surface.pace.asleep {
                        &&& r == Hotplug::Nothing
                        &&& *final(self) == *old(self)
                    } else {
                        &&& *final(self) == old(self).with_pace(surface.pace.back())
                        &&& r == match mode::restored(surface.wanted_mode, connector.modes@) {
                            Some(at) => Hotplug::Restore(at as usize),
                            None => Hotplug::Nothing,
                        }
                        &&& r matches Hotplug::Restore(at) ==> mode::is_the_one_that_was_on(
                            surface.wanted_mode,
                            connector.modes@,
                            Some(at as nat),
                        )
                        &&& !(r is Restore) ==> connector.modes@.len() == 0
                    },
                    None => r == Hotplug::Nothing && *final(self) == *old(self),
                },
            },
    {
        if !self.has_output() {
            return match self.init_output(connectors) {
                Ok(Some(bringup)) => Hotplug::BringUp(bringup),
                Ok(None) => Hotplug::Nothing,
                Err(why) => Hotplug::Failed(why),
            };
        }
        match self.on_connector_change(connector) {
            Some(at) => Hotplug::Restore(at),
            None => Hotplug::Nothing,
        }
    }

    /// Whether the output has something to draw on.
    pub fn awake(&self) -> (r: bool)
        ensures
            r == (self.output() matches Some(surface) && !surface.pace.asleep),
    {
        match &self.device {
            Some(device) => match &device.surface {
                Some(surface) => !surface.pace.asleep,
                None => false,
            },
            None => false,
        }
    }

    /// Whether the session currently owns the device.
    pub fn is_active(&self) -> (r: bool)
        ensures
            r == self.active,
    {
        self.active
    }

    /// Ask for a frame. Returns whether a render has to be scheduled for it.
    pub fn queue_redraw(&mut self) -> (r: bool)
        ensures
            match old(self).output() {
                Some(surface) => {
                    &&& *final(self) == old(self).with_pace(surface.pace.asked())
                    &&& r == !surface.pace.redraw_queued
                },
                None => !r && *final(self) == *old(self),
            },
    {
        match &mut self.device {
            Some(device) => match &mut device.surface {
                Some(surface) => surface.pace.ask(),
                None => false,
            },
            None => false,
        }
    }

    /// The render that was scheduled is about to happen.
    pub fn redraw_dispatched(&mut self)
        ensures
            match old(self).output() {
                Some(surface) => *final(self) == old(self).with_pace(surface.pace.dispatched()),
                None => *final(self) == *old(self),
            },
    {
        match &mut self.device {
            Some(device) => match &mut device.surface {
                Some(surface) => surface.pace.dispatch(),
                None => {},
            },
            None => {},
        }
    }

    /// Whether to draw a frame now.
    pub fn may_render(&self) -> (r: bool)
        ensures
            r == (self.output() matches Some(surface) && surface.pace.ready(self.active)),
    {
        match &self.device {
            Some(device) => match &device.surface {
                Some(surface) => surface.pace.is_ready(self.active),
                None => false,
            },
            None => false,
        }
    }

    /// A frame was drawn. Returns whether to try again after [`pace::RETRY_AFTER`].
    pub fn frame_drawn(&mut self, outcome: FrameOutcome) -> (r: bool)
        ensures
            match old(self).output() {
                Some(surface) => {
                    &&& *final(self) == old(self).with_pace(surface.pace.drawn(outcome))
                    &&& r == (outcome == FrameOutcome::Failed || outcome
                        == FrameOutcome::QueueFailed)
                },
                None => !r && *final(self) == *old(self),
            },
    {
        match &mut self.device {
            Some(device) => match &mut device.surface {
                Some(surface) => surface.pace.draw(outcome),
                None => false,
            },
            None => false,
        }
    }

    /// A page flip completed. Returns whether it was the output's, so that the frame that
    /// was in flight is over.
    pub fn on_vblank(&mut self, crtc: u32) -> (r: bool)
        ensures
            match old(self).output() {
                Some(surface) => if surface.crtc == crtc {
                    r && *final(self) == old(self).with_pace(surface.pace.flipped())
                } else {
                    !r && *final(self) == *old(self)
                },
                None => !r && *final(self) == *old(self),
            },
    {
        match &mut self.device {
            Some(device) => match &mut device.surface {
                Some(surface) => {
                    if surface.crtc == crtc {
                        surface.pace.flip();
                        true
                    } else {
                        false
                    }
                },
                None => false,
            },
            None => false,
        }
    }
}

/// The session gained or lost the device.
pub fn on_session_event(tty: &mut Tty, active: bool) -> (r: SessionStep)
    ensures
        final(tty).active == active,
        match old(tty).output() {
            Some(surface) => {
                &&& final(tty).output() == Some(
                    Surface {
                        pace: if active {
                            surface.pace.restarted()
                        } else {
                            surface.pace
                        },
                        ..surface
                    },
                )
            },
            None => final(tty).device == old(tty).device,
        },
        r == (if old(tty).device is None {
            SessionStep::Nothing
        } else if active {
            SessionStep::Resume { reset: old(tty).output() is Some }
        } else {
            SessionStep::Pause
        }),
{
    tty.active = active;
    match &mut tty.device {
        Some(device) => {
            if !active {
                return SessionStep::Pause;
            }
            match &mut device.surface {
                Some(surface) => {
                    surface.pace.restart();
                    SessionStep::Resume { reset: true }
                },
                None => SessionStep::Resume { reset: false },
            }
        },
        None => SessionStep::Nothing,
    }
}

/// Whether what comes of looking for an output to bring up is right: the first connector that
/// a display is attached to, at the mode that the display asks for, with the first CRTC that
/// can drive it, and the size that the display has.
pub open spec fn is_the_display_that_is_there(connectors: Seq<Connector>, search: Search) -> bool {
    match search {
        Search::Found(bringup) => {
            &&& bringup.connector < connectors.len()
            &&& forall|i: int|
                0 <= i < bringup.connector ==> !(#[trigger] connectors[i]).connected
            &&& {
                let connector = connectors[bringup.connector as int];
                let timings = connector.modes@[bringup.mode as int].timings;
                &&& connector.connected
                &&& mode::is_the_one_asked_for(connector.modes@, Some(bringup.mode as nat))
                &&& connector.crtcs@.len() > 0
                &&& bringup.crtc == connector.crtcs@[0]
                &&& bringup.output.w == timings.hdisplay
                &&& bringup.output.h == timings.vdisplay
                &&& timings.vrefresh * 1000 <= i32::MAX ==> bringup.output.refresh
                    == timings.vrefresh * 1000
                &&& match connector.size {
                    Some((w, h)) => (w <= i32::MAX ==> bringup.size.0 == w) && (h <= i32::MAX
                        ==> bringup.size.1 == h),
                    None => bringup.size == (0i32, 0i32),
                }
            }
        },
        Search::Nothing => forall|i: int|
            0 <= i < connectors.len() ==> !(#[trigger] connectors[i]).connected,
        Search::Failed(why) => exists|at: int|
            #![trigger connectors[at]]
            {
                &&& 0 <= at < connectors.len()
                &&& connectors[at].connected
                &&& forall|i: int| 0 <= i < at ==> !(#[trigger] connectors[i]).connected
                &&& {
                    ||| connectors[at].modes@.len() == 0 && why == "connector advertises no mode"@
                    ||| connectors[at].modes@.len() > 0 && connectors[at].crtcs@.len() == 0 && why
                        == "no CRTC for the connector"@
                }
            },
    }
}

/// The display that is attached is the one that is brought up.
pub proof fn law_the_attached_display_is_brought_up(connectors: Seq<Connector>)
    requires
        connectors.len() <= usize::MAX,
        forall|i: int|
            0 <= i < connectors.len() ==> (#[trigger] connectors[i]).modes@.len() <= usize::MAX,
    ensures
        is_the_display_that_is_there(connectors, search(connectors)),
{
    lemma_first_connected(connectors);
    let at = first_connected(connectors);
    if at < connectors.len() {
        mode::law_a_display_gets_the_mode_it_asks_for(connectors[at as int].modes@);
    }
}

/// A request gets as far as the output exactly where there is a device, it has an output, and
/// the output's connector can be read; and where it does not, the answer names the first of
/// these that is not there.
pub proof fn law_what_is_missing_is_said(tty: Tty, connector: Option<Connector>)
    ensures
        tty.reach(connector) == Reached::Yes <==> {
            &&& tty.device matches Some(device) && device.surface is Some
            &&& connector is Some
        },
        tty.device is None ==> tty.reach(connector) == Reached::No("no device opened"@),
        tty.device matches Some(device) && device.surface is None ==> tty.reach(connector)
            == Reached::No("no output"@),
        tty.device matches Some(device) && device.surface is Some && connector is None
            ==> tty.reach(connector) == Reached::No("failed to read the connector"@),
{
}

/// The colour space is set exactly where the output that was named is there and has the
/// properties for it.
pub proof fn law_only_the_named_output_is_claimed(
    tty: Tty,
    connector: Option<Connector>,
    name: Seq<char>,
)
    ensures
        tty.hdr_reach(connector, name) == Reached::Yes <==> {
            &&& connector matches Some(found) && found.name@ == name
            &&& tty.device matches Some(device) && device.surface matches Some(surface)
                && surface.hdr is Some
        },
        tty.reach(connector) matches Reached::No(why) ==> tty.hdr_reach(connector, name)
            == Reached::No(why),
        tty.reach(connector) == Reached::Yes && connector->0.name@ != name ==> tty.hdr_reach(
            connector,
            name,
        ) == Reached::No("no output named "@ + name),
        tty.reach(connector) == Reached::Yes && connector->0.name@ == name && tty.output()->0.hdr
            is None ==> tty.hdr_reach(connector, name) == Reached::No(
            "this connector has no HDR properties"@,
        ),
{
}

/// Pacing an output changes nothing else of it, and where there is no output nothing at all.
pub proof fn law_only_the_pace_changes(tty: Tty, pace: Pace)
    ensures
        tty.with_pace(pace).active == tty.active,
        tty.with_pace(pace).output() is Some <==> tty.output() is Some,
        tty.output() is None ==> tty.with_pace(pace) == tty,
        tty.output() matches Some(surface) ==> {
            &&& tty.with_pace(pace).output()->0.pace == pace
            &&& tty.with_pace(pace).output()->0.crtc == surface.crtc
            &&& tty.with_pace(pace).output()->0.hdr == surface.hdr
            &&& tty.with_pace(pace).output()->0.wanted_mode == surface.wanted_mode
        },
{
}

}
