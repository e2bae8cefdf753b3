//! Display modes: how fast they are, and which one to use.

use vstd::prelude::*;
use crate::ipc::ModeInfo;
use crate::text;

verus! {

/// Every other line in each pass.
pub const INTERLACE: u32 = 16;

/// Every line twice.
pub const DBLSCAN: u32 = 32;

/// The display asks for this mode.
pub const PREFERRED: u32 = 8;

/// The numbers that make up a mode.
#[derive(Clone, Copy, Debug, PartialEq, Eq, Structural)]
pub struct Timings {
    /// Pixel clock in kHz.
    pub clock: u32,
    /// Visible width.
    pub hdisplay: u16,
    /// Start of the horizontal sync pulse.
    pub hsync_start: u16,
    /// End of the horizontal sync pulse.
    pub hsync_end: u16,
    /// Width with the blanking.
    pub htotal: u16,
    /// Horizontal skew.
    pub hskew: u16,
    /// Visible height.
    pub vdisplay: u16,
    /// Start of the vertical sync pulse.
    pub vsync_start: u16,
    /// End of the vertical sync pulse.
    pub vsync_end: u16,
    /// Height with the blanking.
    pub vtotal: u16,
    /// Vertical scan.
    pub vscan: u16,
    /// Refresh rate in Hz, rounded.
    pub vrefresh: u32,
    /// Flags, [`INTERLACE`] and [`DBLSCAN`] among them.
    pub flags: u32,
    /// Type flags, [`PREFERRED`] among them.
    pub kind: u32,
}

/// A mode that a connector advertises.
#[derive(Debug)]
pub struct DisplayMode {
    /// Its numbers.
    pub timings: Timings,
    /// Its name, as the driver gives it.
    pub name: Vec<u8>,
}

/// The mode an output is driven at, in the units the Wayland output protocol uses.
#[derive(Clone, Copy, Debug, PartialEq, Eq, Structural)]
pub struct OutputMode {
    /// Width in pixels.
    pub w: i32,
    /// Height in pixels.
    pub h: i32,
    /// Refresh rate in mHz.
    pub refresh: i32,
}

impl Clone for DisplayMode {
    fn clone(&self) -> (r: Self)
        ensures
            r.timings == self.timings,
            r.name@ == self.name@,
    {
        let mut name: Vec<u8> = Vec::new();
        name.extend_from_slice(self.name.as_slice());
        assert(name@ == self.name@);
        DisplayMode { timings: self.timings, name }
    }
}

/// A whole number of frames per 1000 seconds, rounded to the nearest.
pub open spec fn rounded_rate(clock_khz: nat, per_frame: nat) -> nat {
    (clock_khz * 1_000_000 + per_frame / 2) / per_frame
}

/// A mode's refresh in mHz, from its timings: twice for the two halves of an interlaced
/// picture, half for one whose lines are shown twice. A mode without timings has the
/// rate that it reports.
pub open spec fn refresh_from(
    clock_khz: u32,
    htotal: u32,
    vtotal: u32,
    interlace: bool,
    doublescan: bool,
    vrefresh_fallback: u32,
) -> i32 {
    let per_frame = (htotal * vtotal) as nat;
    if per_frame == 0 {
        (vrefresh_fallback.wrapping_mul(1000)) as i32
    } else {
        let rate = rounded_rate(clock_khz as nat, per_frame);
        let fields = if interlace {
            rate * 2
        } else {
            rate
        };
        (if doublescan {
            fields / 2
        } else {
            fields
        }) as i32
    }
}

/// A mode's refresh in mHz, from its timings.
///
/// The rate that a mode reports is an integer, so it is 24 for both 23.976 and 24 - two
/// modes a film must be able to tell apart, since playing 23.976 content on a 24 Hz
/// output judders with nothing dropped.
pub fn refresh_mhz_from(
    clock_khz: u32,
    htotal: u32,
    vtotal: u32,
    interlace: bool,
    doublescan: bool,
    vrefresh_fallback: u32,
) -> (r: i32)
    ensures
        r == refresh_from(clock_khz, htotal, vtotal, interlace, doublescan, vrefresh_fallback),
{
    proof {
        assert(0 <= htotal * vtotal <= 0xffff_ffff * 0xffff_ffff) by (nonlinear_arith)
            requires
                0 <= htotal <= 0xffff_ffff,
                0 <= vtotal <= 0xffff_ffff,
        ;
    }
    let per_frame: u64 = htotal as u64 * vtotal as u64;
    if per_frame == 0 {
        return vrefresh_fallback.wrapping_mul(1000) as i32;
    }
    let pixels: u64 = clock_khz as u64 * 1_000_000 + per_frame / 2;
    let mut refresh: u64 = pixels / per_frame;
    proof {
        assert(pixels / per_frame <= clock_khz as u64 * 1_000_000 + 1) by (nonlinear_arith)
            requires
                per_frame > 0,
                pixels == clock_khz as u64 * 1_000_000 + per_frame / 2,
        ;
    }
    if interlace {
        refresh = refresh * 2;
    }
    if doublescan {
        refresh = refresh / 2;
    }
    refresh as i32
}

/// The rate of a mode with timings is off by no more than half a millihertz.
pub proof fn law_the_rate_is_the_nearest(clock_khz: nat, per_frame: nat)
    requires
        per_frame > 0,
    ensures
        2 * (rounded_rate(clock_khz, per_frame) * per_frame) <= 2 * (clock_khz * 1_000_000)
            + per_frame,
        2 * (clock_khz * 1_000_000) <= 2 * (rounded_rate(clock_khz, per_frame) * per_frame)
            + per_frame,
{
    let pixels = clock_khz * 1_000_000 + per_frame / 2;
    let rate = pixels / per_frame;
    assert(rate * per_frame <= pixels < rate * per_frame + per_frame) by (nonlinear_arith)
        requires
            per_frame > 0,
            rate == pixels / per_frame,
    ;
}

impl DisplayMode {
    /// Whether two modes are the same in every respect.
    pub open spec fn same_as(self, other: DisplayMode) -> bool {
        self.timings == other.timings && self.name@ == other.name@
    }

    /// Whether the display asks for this mode.
    pub open spec fn is_preferred(self) -> bool {
        self.timings.kind & PREFERRED == PREFERRED
    }

    /// The refresh rate in mHz, computed from the timings.
    pub open spec fn rate(self) -> i32 {
        refresh_from(
            self.timings.clock,
            self.timings.htotal as u32,
            self.timings.vtotal as u32,
            self.timings.flags & INTERLACE == INTERLACE,
            self.timings.flags & DBLSCAN == DBLSCAN,
            self.timings.vrefresh,
        )
    }

    /// The mode as it is reported.
    pub open spec fn info(self) -> ModeInfo {
        ModeInfo {
            w: self.timings.hdisplay as i32,
            h: self.timings.vdisplay as i32,
            refresh: self.rate(),
            preferred: self.is_preferred(),
        }
    }

    /// The mode as the output is told it.
    pub open spec fn as_output(self) -> OutputMode {
        OutputMode {
            w: self.timings.hdisplay as i32,
            h: self.timings.vdisplay as i32,
            refresh: self.rate(),
        }
    }

    /// Whether two modes are the same in every respect.
    pub fn same(&self, other: &DisplayMode) -> (r: bool)
        ensures
            r == self.same_as(*other),
            r == (self.timings == other.timings && self.name@ == other.name@),
    {
        if self.timings != other.timings || self.name.len() != other.name.len() {
            return false;
        }
        let mut at: usize = 0;
        while at < self.name.len()
            invariant
                at <= self.name@.len() == other.name@.len(),
                forall|i: int| 0 <= i < at ==> self.name@[i] == other.name@[i],
            decreases self.name@.len() - at,
        {
            if self.name[at] != other.name[at] {
                return false;
            }
            at += 1;
        }
        assert(self.name@ == other.name@);
        true
    }

    /// Whether the display asks for this mode.
    pub fn preferred(&self) -> (r: bool)
        ensures
            r == self.is_preferred(),
    {
        self.timings.kind & PREFERRED == PREFERRED
    }

    /// The refresh rate in mHz, computed from the timings.
    pub fn refresh_mhz(&self) -> (r: i32)
        ensures
            r == self.rate(),
    {
        refresh_mhz_from(
            self.timings.clock,
            self.timings.htotal as u32,
            self.timings.vtotal as u32,
            self.timings.flags & INTERLACE == INTERLACE,
            self.timings.flags & DBLSCAN == DBLSCAN,
            self.timings.vrefresh,
        )
    }

    /// Describe the mode for the shell.
    pub fn describe(&self) -> (r: ModeInfo)
        ensures
            r == self.info(),
    {
        ModeInfo {
            w: self.timings.hdisplay as i32,
            h: self.timings.vdisplay as i32,
            refresh: self.refresh_mhz(),
            preferred: self.preferred(),
        }
    }

    /// The mode as the output is told it.
    pub fn output_mode(&self) -> (r: OutputMode)
        ensures
            r == self.as_output(),
    {
        OutputMode {
            w: self.timings.hdisplay as i32,
            h: self.timings.vdisplay as i32,
            refresh: self.refresh_mhz(),
        }
    }
}

/// Whether a mode is the one asked for: its size, and its rate within a millihertz where
/// one was asked for - the shell round-trips what it was told.
pub open spec fn fits(mode: DisplayMode, w: int, h: int, refresh: Option<i32>) -> bool {
    &&& mode.timings.hdisplay == w
    &&& mode.timings.vdisplay == h
    &&& refresh matches Some(wanted) ==> -1 <= mode.rate() - wanted <= 1
}

/// Where the first mode in a list stands that is the one asked for, or the length of the
/// list.
pub open spec fn first_fit(modes: Seq<DisplayMode>, w: int, h: int, refresh: Option<i32>) -> nat
    decreases modes.len(),
{
    if modes.len() == 0 {
        0
    } else {
        let earlier = first_fit(modes.drop_last(), w, h, refresh);
        if earlier < modes.len() - 1 || fits(modes.last(), w, h, refresh) {
            earlier
        } else {
            modes.len()
        }
    }
}

/// Where the first mode stands that the display asks for, or the length of the list.
pub open spec fn first_preferred(modes: Seq<DisplayMode>) -> nat
    decreases modes.len(),
{
    if modes.len() == 0 {
        0
    } else {
        let earlier = first_preferred(modes.drop_last());
        if earlier < modes.len() - 1 || modes.last().is_preferred() {
            earlier
        } else {
            modes.len()
        }
    }
}

/// Where the first mode stands that is the same as another, or the length of the list.
pub open spec fn first_same(modes: Seq<DisplayMode>, other: DisplayMode) -> nat
    decreases modes.len(),
{
    if modes.len() == 0 {
        0
    } else {
        let earlier = first_same(modes.drop_last(), other);
        if earlier < modes.len() - 1 || modes.last().same_as(other) {
            earlier
        } else {
            modes.len()
        }
    }
}

proof fn lemma_first_fit(modes: Seq<DisplayMode>, w: int, h: int, refresh: Option<i32>)
    ensures
        first_fit(modes, w, h, refresh) <= modes.len(),
        first_fit(modes, w, h, refresh) < modes.len() ==> fits(
            modes[first_fit(modes, w, h, refresh) as int],
            w,
            h,
            refresh,
        ),
        forall|i: int|
            0 <= i < first_fit(modes, w, h, refresh) ==> !fits(#[trigger] modes[i], w, h, refresh),
    decreases modes.len(),
{
    if modes.len() > 0 {
        lemma_first_fit(modes.drop_last(), w, h, refresh);
        assert forall|i: int| 0 <= i < first_fit(modes, w, h, refresh) implies !fits(
            #[trigger] modes[i],
            w,
            h,
            refresh,
        ) by {
            if i < modes.len() - 1 {
                assert(modes.drop_last()[i] == modes[i]);
            }
        }
    }
}

proof fn lemma_first_preferred(modes: Seq<DisplayMode>)
    ensures
        first_preferred(modes) <= modes.len(),
        first_preferred(modes) < modes.len() ==> modes[first_preferred(
            modes,
        ) as int].is_preferred(),
        forall|i: int|
            0 <= i < first_preferred(modes) ==> !(#[trigger] modes[i]).is_preferred(),
    decreases modes.len(),
{
    if modes.len() > 0 {
        lemma_first_preferred(modes.drop_last());
        assert forall|i: int| 0 <= i < first_preferred(modes) implies !(
        #[trigger] modes[i]).is_preferred() by {
            if i < modes.len() - 1 {
                assert(modes.drop_last()[i] == modes[i]);
            }
        }
    }
}

proof fn lemma_first_same(modes: Seq<DisplayMode>, other: DisplayMode)
    ensures
        first_same(modes, other) <= modes.len(),
        first_same(modes, other) < modes.len() ==> modes[first_same(modes, other) as int].same_as(
            other,
        ),
        forall|i: int|
            0 <= i < first_same(modes, other) ==> !(#[trigger] modes[i]).same_as(other),
    decreases modes.len(),
{
    if modes.len() > 0 {
        lemma_first_same(modes.drop_last(), other);
        assert forall|i: int| 0 <= i < first_same(modes, other) implies !(
        #[trigger] modes[i]).same_as(other) by {
            if i < modes.len() - 1 {
                assert(modes.drop_last()[i] == modes[i]);
            }
        }
    }
}

/// The mode to bring a display up at: the one it asks for, else the first it advertises.
///
/// The largest mode a TV advertises can be one the hardware cannot drive (DCI-4K, 4096
/// wide). The preferred mode is the one it means.
pub open spec fn best(modes: Seq<DisplayMode>) -> Option<nat> {
    if first_preferred(modes) < modes.len() {
        Some(first_preferred(modes))
    } else if modes.len() > 0 {
        Some(0)
    } else {
        None
    }
}

/// Pick the mode to bring a display up at, by its place in the list.
pub fn best_mode(modes: &Vec<DisplayMode>) -> (r: Option<usize>)
    ensures
        match r {
            Some(at) => {
                &&& best(modes@) == Some(at as nat) && at < modes@.len()
                &&& is_the_one_asked_for(modes@, Some(at as nat))
            },
            None => best(modes@) is None && modes@.len() == 0,
        },
{
    let mut at: usize = 0;
    proof {
        lemma_first_preferred(modes@);
        law_a_display_gets_the_mode_it_asks_for(modes@);
    }
    while at < modes.len()
        invariant
            at <= modes@.len(),
            at <= first_preferred(modes@) <= modes@.len(),
            is_the_one_asked_for(modes@, best(modes@)),
            first_preferred(modes@) < modes@.len() ==> modes@[first_preferred(
                modes@,
            ) as int].is_preferred(),
            forall|i: int|
                0 <= i < first_preferred(modes@) ==> !(#[trigger] modes@[i]).is_preferred(),
        decreases modes@.len() - at,
    {
        if modes[at].preferred() {
            return Some(at);
        }
        at += 1;
    }
    if modes.len() > 0 {
        Some(0)
    } else {
        None
    }
}

/// The mode to put a display that came back on: the one that was asked for if the display
/// still offers it, else the one to bring it up at.
///
/// Falling back to the preferred mode right away is what makes a TV that was switched off
/// during a film come back at the wrong size.
pub open spec fn restored(wanted: Option<DisplayMode>, modes: Seq<DisplayMode>) -> Option<nat> {
    match wanted {
        Some(mode) => if first_same(modes, mode) < modes.len() {
            Some(first_same(modes, mode))
        } else {
            best(modes)
        },
        None => best(modes),
    }
}

/// Pick the mode to put a display that came back on, by its place in the list.
pub fn restored_mode(wanted: &Option<DisplayMode>, modes: &Vec<DisplayMode>) -> (r: Option<usize>)
    ensures
        match r {
            Some(at) => {
                &&& restored(*wanted, modes@) == Some(at as nat) && at < modes@.len()
                &&& is_the_one_that_was_on(*wanted, modes@, Some(at as nat))
            },
            None => restored(*wanted, modes@) is None && modes@.len() == 0,
        },
{
    proof {
        law_a_display_comes_back_as_it_was(*wanted, modes@);
    }
    match wanted {
        Some(mode) => {
            let mut at: usize = 0;
            proof {
                lemma_first_same(modes@, *mode);
            }
            while at < modes.len()
                invariant
                    at <= modes@.len(),
                    *wanted == Some(*mode),
                    is_the_one_that_was_on(*wanted, modes@, restored(*wanted, modes@)),
                    at <= first_same(modes@, *mode) <= modes@.len(),
                    first_same(modes@, *mode) < modes@.len() ==> modes@[first_same(
                        modes@,
                        *mode,
                    ) as int].same_as(*mode),
                    forall|i: int|
                        0 <= i < first_same(modes@, *mode) ==> !(#[trigger] modes@[i]).same_as(
                            *mode,
                        ),
                decreases modes@.len() - at,
            {
                if modes[at].same(mode) {
                    return Some(at);
                }
                at += 1;
            }
        },
        None => {},
    }
    best_mode(modes)
}

/// What comes of asking for a mode.
pub enum Choice {
    /// The mode at this place.
    Mode(nat),
    /// There is none.
    Refused(Seq<char>),
}

/// A size as it is written.
pub open spec fn size_text(w: int, h: int) -> Seq<char> {
    text::signed_decimal(w) + "x"@ + text::signed_decimal(h)
}

/// The mode that a request for an output's size picks. `output` is the name of the output
/// that there is.
///
/// A mode's size has sixteen bits, so a request that does not fit them cannot match
/// anything - and cutting it down would make 67456 into 1920.
pub open spec fn chosen(
    modes: Seq<DisplayMode>,
    output: Seq<char>,
    name: Seq<char>,
    w: i32,
    h: i32,
    refresh: Option<i32>,
) -> Choice {
    if !(0 < w <= u16::MAX && 0 < h <= u16::MAX) {
        Choice::Refused(size_text(w as int, h as int) + " is not a mode size"@)
    } else if output != name {
        Choice::Refused("no output named "@ + name)
    } else if first_fit(modes, w as int, h as int, refresh) < modes.len() {
        Choice::Mode(first_fit(modes, w as int, h as int, refresh))
    } else {
        Choice::Refused("no mode "@ + size_text(w as int, h as int) + " on "@ + name)
    }
}

fn push_size(out: &mut String, w: i32, h: i32)
    ensures
        final(out)@ == old(out)@ + size_text(w as int, h as int),
{
    text::push_signed(out, w as i64);
    out.append("x");
    text::push_signed(out, h as i64);
    assert(out@ == old(out)@ + size_text(w as int, h as int));
}

/// Pick the mode that a request asks for, by its place in the list.
pub fn select_mode(
    modes: &Vec<DisplayMode>,
    output: &str,
    name: &str,
    w: i32,
    h: i32,
    refresh: Option<i32>,
) -> (r: Result<usize, String>)
    ensures
        match r {
            Ok(at) => {
                &&& chosen(modes@, output@, name@, w, h, refresh) == Choice::Mode(at as nat)
                &&& at < modes@.len()
            },
            Err(why) => chosen(modes@, output@, name@, w, h, refresh) == Choice::Refused(why@),
        },
        answers_the_request(
            modes@,
            output@,
            name@,
            w,
            h,
            refresh,
            match r {
                Ok(at) => Choice::Mode(at as nat),
                Err(why) => Choice::Refused(why@),
            },
        ),
{
    proof {
        law_the_mode_asked_for_is_picked(modes@, output@, name@, w, h, refresh);
    }
    if !(0 < w && w <= u16::MAX as i32 && 0 < h && h <= u16::MAX as i32) {
        let mut why = String::new();
        push_size(&mut why, w, h);
        why.append(" is not a mode size");
        assert(why@ == size_text(w as int, h as int) + " is not a mode size"@);
        return Err(why);
    }
    if !text::same(output, name) {
        let mut why = "no output named ".to_owned();
        why.append(name);
        return Err(why);
    }
    let ghost first = first_fit(modes@, w as int, h as int, refresh);
    proof {
        lemma_first_fit(modes@, w as int, h as int, refresh);
    }
    let mut at: usize = 0;
    while at < modes.len()
        invariant
            at <= modes@.len(),
            0 < w <= u16::MAX,
            0 < h <= u16::MAX,
            output@ == name@,
            answers_the_request(
                modes@,
                output@,
                name@,
                w,
                h,
                refresh,
                chosen(modes@, output@, name@, w, h, refresh),
            ),
            first == first_fit(modes@, w as int, h as int, refresh),
            at <= first <= modes@.len(),
            first < modes@.len() ==> fits(modes@[first as int], w as int, h as int, refresh),
            forall|i: int|
                0 <= i < first ==> !fits(#[trigger] modes@[i], w as int, h as int, refresh),
        decreases modes@.len() - at,
    {
        if modes[at].timings.hdisplay as i32 == w && modes[at].timings.vdisplay as i32 == h {
            let close: bool = match refresh {
                Some(wanted) => {
                    let off: i64 = modes[at].refresh_mhz() as i64 - wanted as i64;
                    -1 <= off && off <= 1
                },
                None => true,
            };
            if close {
                assert(fits(modes@[at as int], w as int, h as int, refresh));
                return Ok(at);
            }
        }
        assert(!fits(modes@[at as int], w as int, h as int, refresh));
        at += 1;
    }
    let mut why = "no mode ".to_owned();
    push_size(&mut why, w, h);
    why.append(" on ");
    why.append(name);
    Err(why)
}

/// A mode that is reported can be asked for: by its size alone, or by its size and rate.
/// What comes out has the size and, to a millihertz, the rate.
pub proof fn law_a_reported_mode_can_be_asked_for(
    modes: Seq<DisplayMode>,
    output: Seq<char>,
    at: int,
    with_rate: bool,
)
    requires
        0 <= at < modes.len(),
        modes[at].info().w > 0,
        modes[at].info().h > 0,
    ensures
        ({
            let info = modes[at].info();
            let refresh = if with_rate {
                Some(info.refresh)
            } else {
                None
            };
            &&& chosen(modes, output, output, info.w, info.h, refresh) matches Choice::Mode(found)
            &&& found < modes.len()
            &&& modes[found as int].info().w == info.w
            &&& modes[found as int].info().h == info.h
            &&& with_rate ==> -1 <= modes[found as int].info().refresh - info.refresh <= 1
        }),
{
    let info = modes[at].info();
    let refresh = if with_rate {
        Some(info.refresh)
    } else {
        None
    };
    lemma_first_fit(modes, info.w as int, info.h as int, refresh);
    assert(fits(modes[at], info.w as int, info.h as int, refresh));
}

/// A display that comes back and still offers the mode that was asked for is put back on
/// exactly that one.
pub proof fn law_the_wanted_mode_comes_back(
    wanted: DisplayMode,
    modes: Seq<DisplayMode>,
    at: int,
)
    requires
        0 <= at < modes.len(),
        modes[at].same_as(wanted),
    ensures
        restored(Some(wanted), modes) matches Some(found) && found < modes.len()
            && modes[found as int].same_as(wanted),
{
    lemma_first_same(modes, wanted);
}

/// A display that advertises any mode at all is brought up.
pub proof fn law_some_mode_is_found(wanted: Option<DisplayMode>, modes: Seq<DisplayMode>)
    ensures
        best(modes) is None <==> modes.len() == 0,
        restored(wanted, modes) is None <==> modes.len() == 0,
{
    lemma_first_preferred(modes);
}

/// Whether a place in a list of modes is the one to bring a display up at: that of the first
/// mode the display asks for, or where it asks for none the first of all; and no place where
/// there is no mode.
pub open spec fn is_the_one_asked_for(modes: Seq<DisplayMode>, place: Option<nat>) -> bool {
    match place {
        None => modes.len() == 0,
        Some(at) => {
            &&& at < modes.len()
            &&& (exists|i: int| 0 <= i < modes.len() && (#[trigger] modes[i]).timings.kind & 8 == 8)
                ==> modes[at as int].timings.kind & 8 == 8
            &&& (forall|i: int|
                0 <= i < modes.len() ==> (#[trigger] modes[i]).timings.kind & 8 != 8) ==> at == 0
            &&& forall|i: int| 0 <= i < at ==> (#[trigger] modes[i]).timings.kind & 8 != 8
        },
    }
}

/// A display is brought up at the mode that it asks for, and where it asks for none at the
/// first that it lists.
pub proof fn law_a_display_gets_the_mode_it_asks_for(modes: Seq<DisplayMode>)
    ensures
        is_the_one_asked_for(modes, best(modes)),
{
    lemma_first_preferred(modes);
    assert(forall|i: int|
        0 <= i < modes.len() ==> (#[trigger] modes[i]).is_preferred() == (modes[i].timings.kind & 8
            == 8));
}

/// Whether a place in a list of modes is the one to put a display back on: that of the first
/// mode with the very timings and the name of the one that was asked for, or where there is
/// none of them the one to bring it up at.
pub open spec fn is_the_one_that_was_on(
    wanted: Option<DisplayMode>,
    modes: Seq<DisplayMode>,
    place: Option<nat>,
) -> bool {
    match wanted {
        Some(mode) => if exists|i: int|
            0 <= i < modes.len() && (#[trigger] modes[i]).timings == mode.timings && modes[i].name@
                == mode.name@ {
            &&& place matches Some(at)
            &&& at < modes.len()
            &&& modes[at as int].timings == mode.timings
            &&& modes[at as int].name@ == mode.name@
            &&& forall|i: int|
                0 <= i < at ==> (#[trigger] modes[i]).timings != mode.timings || modes[i].name@
                    != mode.name@
        } else {
            is_the_one_asked_for(modes, place)
        },
        None => is_the_one_asked_for(modes, place),
    }
}

/// A display that comes back is put on the mode that was asked for as long as it offers that
/// one, timing by timing and by its name, and so at the same rate; else on the mode that it
/// asks for.
pub proof fn law_a_display_comes_back_as_it_was(
    wanted: Option<DisplayMode>,
    modes: Seq<DisplayMode>,
)
    ensures
        is_the_one_that_was_on(wanted, modes, restored(wanted, modes)),
        match (wanted, restored(wanted, modes)) {
            (Some(mode), Some(at)) => (exists|i: int|
                0 <= i < modes.len() && (#[trigger] modes[i]).timings == mode.timings
                    && modes[i].name@ == mode.name@) ==> modes[at as int].info() == mode.info(),
            _ => true,
        },
{
    law_a_display_gets_the_mode_it_asks_for(modes);
    match wanted {
        Some(mode) => {
            lemma_first_same(modes, mode);
            if exists|i: int|
                0 <= i < modes.len() && (#[trigger] modes[i]).timings == mode.timings
                    && modes[i].name@ == mode.name@ {
                let i = choose|i: int|
                    0 <= i < modes.len() && (#[trigger] modes[i]).timings == mode.timings
                        && modes[i].name@ == mode.name@;
                assert(modes[i].same_as(mode));
            }
            assert forall|i: int|
                0 <= i < first_same(modes, mode) implies (#[trigger] modes[i]).timings
                != mode.timings || modes[i].name@ != mode.name@ by {
                assert(!modes[i].same_as(mode));
            }
        },
        None => {},
    }
}

/// The rate that timings make is the pixel clock over the pixels of a frame, to the nearest
/// millihertz; an interlaced picture has twice that, one whose lines are shown twice half of
/// it; and what the mode reports counts only where there are no timings.
pub proof fn law_the_rate_follows_the_timings(
    clock: u32,
    htotal: u32,
    vtotal: u32,
    reported: u32,
    other: u32,
)
    requires
        htotal * vtotal > 0 ==> 2 * (clock * 1_000_000) + htotal * vtotal <= i32::MAX * (htotal
            * vtotal),
    ensures
        ({
            let pixels = htotal * vtotal;
            let plain = refresh_from(clock, htotal, vtotal, false, false, reported);
            if pixels > 0 {
                &&& 2 * (plain * pixels) <= 2 * (clock * 1_000_000) + pixels
                &&& 2 * (clock * 1_000_000) <= 2 * (plain * pixels) + pixels
                &&& refresh_from(clock, htotal, vtotal, true, false, reported) == 2 * plain
                &&& refresh_from(clock, htotal, vtotal, false, true, reported) == plain / 2
                &&& refresh_from(clock, htotal, vtotal, true, true, reported) == plain
                &&& refresh_from(clock, htotal, vtotal, false, false, other) == plain
            } else {
                reported * 1000 <= i32::MAX ==> plain == reported * 1000
            }
        }),
{
    let pixels = htotal * vtotal;
    assert(pixels >= 0) by (nonlinear_arith)
        requires
            pixels == htotal * vtotal,
            htotal >= 0,
            vtotal >= 0,
    ;
    if pixels > 0 {
        let rate = rounded_rate(clock as nat, pixels as nat);
        law_the_rate_is_the_nearest(clock as nat, pixels as nat);
        assert(2 * rate <= i32::MAX) by (nonlinear_arith)
            requires
                pixels > 0,
                2 * (rate * pixels) <= 2 * (clock * 1_000_000) + pixels,
                2 * (clock * 1_000_000) + pixels <= i32::MAX * pixels,
        ;
        assert(refresh_from(clock, htotal, vtotal, false, false, reported) == rate);
    }
}

/// A mode is reported, and told to the output, with its own visible size, the rate of its
/// own timings, and whether the display asks for it.
pub proof fn law_a_mode_is_reported_as_it_is(mode: DisplayMode)
    ensures
        mode.info().w == mode.timings.hdisplay,
        mode.info().h == mode.timings.vdisplay,
        mode.info().preferred == (mode.timings.kind & 8 == 8),
        mode.info().refresh == refresh_from(
            mode.timings.clock,
            mode.timings.htotal as u32,
            mode.timings.vtotal as u32,
            mode.timings.flags & 16 == 16,
            mode.timings.flags & 32 == 32,
            mode.timings.vrefresh,
        ),
        mode.as_output().w == mode.info().w,
        mode.as_output().h == mode.info().h,
        mode.as_output().refresh == mode.info().refresh,
{
}

/// Whether what comes of asking for a mode is right: the first mode with the size and, to a
/// millihertz, the rate that was asked for, on the output that was named; and a refusal only
/// where there is no such mode, no such output, or no mode could have such a size.
pub open spec fn answers_the_request(
    modes: Seq<DisplayMode>,
    output: Seq<char>,
    name: Seq<char>,
    w: i32,
    h: i32,
    refresh: Option<i32>,
    choice: Choice,
) -> bool {
    match choice {
        Choice::Mode(at) => {
            &&& output == name
            &&& at < modes.len()
            &&& modes[at as int].timings.hdisplay == w
            &&& modes[at as int].timings.vdisplay == h
            &&& w > 0
            &&& h > 0
            &&& refresh matches Some(rate) ==> rate - 1 <= modes[at as int].info().refresh <= rate
                + 1
            &&& forall|i: int|
                #![trigger modes[i]]
                0 <= i < at && modes[i].timings.hdisplay == w && modes[i].timings.vdisplay == h ==> {
                    &&& refresh matches Some(rate)
                    &&& !(rate - 1 <= modes[i].info().refresh <= rate + 1)
                }
        },
        Choice::Refused(why) => {
            ||| {
                &&& w <= 0 || h <= 0 || w > 65535 || h > 65535
                &&& why == size_text(w as int, h as int) + " is not a mode size"@
            }
            ||| output != name && why == "no output named "@ + name
            ||| {
                &&& forall|i: int|
                    #![trigger modes[i]]
                    0 <= i < modes.len() && modes[i].timings.hdisplay == w
                        && modes[i].timings.vdisplay == h ==> {
                        &&& refresh matches Some(rate)
                        &&& !(rate - 1 <= modes[i].info().refresh <= rate + 1)
                    }
                &&& why == "no mode "@ + size_text(w as int, h as int) + " on "@ + name
            }
        },
    }
}

/// The mode that is asked for is the mode that is picked.
pub proof fn law_the_mode_asked_for_is_picked(
    modes: Seq<DisplayMode>,
    output: Seq<char>,
    name: Seq<char>,
    w: i32,
    h: i32,
    refresh: Option<i32>,
)
    ensures
        answers_the_request(
            modes,
            output,
            name,
            w,
            h,
            refresh,
            chosen(modes, output, name, w, h, refresh),
        ),
{
    lemma_first_fit(modes, w as int, h as int, refresh);
    let first = first_fit(modes, w as int, h as int, refresh);
    assert forall|i: int|
        #![trigger modes[i]]
        0 <= i < first && modes[i].timings.hdisplay == w && modes[i].timings.vdisplay == h implies {
        &&& refresh matches Some(rate)
        &&& !(rate - 1 <= modes[i].info().refresh <= rate + 1)
    } by {
        assert(!fits(modes[i], w as int, h as int, refresh));
    }
}

/// A size is written as its width, an x and its height.
pub proof fn law_a_size_is_written_width_first(w: int, h: int)
    ensures
        size_text(w, h) == text::signed_decimal(w) + seq!['x'] + text::signed_decimal(h),
{
    reveal_strlit("x");
    assert("x"@ == seq!['x']);
}

}
