//! Claiming the output's colour space for HDR content.
//!
//! Three connector properties do this: `Colorspace` picks the colorimetry the sink
//! is told to expect, `HDR_OUTPUT_METADATA` carries the infoframe that names the
//! transfer function, and `max bpc` decides how many bits actually reach the panel -
//! HDR10 is a 10-bit format, and a link left at 8 bits delivers banded PQ no matter
//! what the infoframe says.
//!
//! The colour space covers the WHOLE output, so while HDR is claimed the sRGB UI on its
//! overlay plane is read as PQ. That is why this is a claim for the duration of playback
//! rather than a setting.

use vstd::prelude::*;
use crate::text;

verus! {

/// SMPTE ST 2084, the transfer function every HDR10 film uses.
pub const EOTF_PQ: u8 = 2;

/// Bits per colour the link carries while HDR is claimed. HDR10 is 10-bit; the
/// driver negotiates a subsampling that fits, and drops back if the mode cannot
/// carry it.
pub const HDR_BPC: u64 = 10;

/// Bits per colour where the connector does not say.
pub const USUAL_BPC: u64 = 8;

/// Static metadata type 1, the only type HDMI defines.
pub const STATIC_METADATA_TYPE_1: u8 = 0;

/// A point in the CIE chromaticity diagram.
#[derive(Clone, Copy, Debug, PartialEq, Eq, Structural)]
pub struct Chromaticity {
    /// The x coordinate.
    pub x: u16,
    /// The y coordinate.
    pub y: u16,
}

/// What the sink is told of the picture.
///
/// The mastering display values are left at zero, which means "not stated": the sink
/// then applies its own defaults. Filling them in needs numbers only the player has.
#[derive(Clone, Copy, Debug, PartialEq, Eq, Structural)]
pub struct HdrOutputMetadata {
    /// The kind of metadata.
    pub metadata_type: u32,
    /// The transfer function.
    pub eotf: u8,
    /// The kind of static metadata.
    pub static_metadata_descriptor_id: u8,
    /// Red, as the mastering display has it.
    pub red: Chromaticity,
    /// Green, as the mastering display has it.
    pub green: Chromaticity,
    /// Blue, as the mastering display has it.
    pub blue: Chromaticity,
    /// White, as the mastering display has it.
    pub white_point: Chromaticity,
    /// The most light the mastering display gives.
    pub max_display_mastering_luminance: u16,
    /// The least light the mastering display gives.
    pub min_display_mastering_luminance: u16,
    /// The brightest pixel.
    pub max_cll: u16,
    /// The brightest frame on average.
    pub max_fall: u16,
}

impl HdrOutputMetadata {
    /// PQ, and nothing stated about the mastering display.
    pub fn pq() -> (r: HdrOutputMetadata)
        ensures
            r.metadata_type == 0,
            r.eotf == EOTF_PQ,
            r.static_metadata_descriptor_id == STATIC_METADATA_TYPE_1,
            ({
                let unstated = Chromaticity { x: 0, y: 0 };
                &&& r.red == unstated
                &&& r.green == unstated
                &&& r.blue == unstated
                &&& r.white_point == unstated
            }),
            r.max_display_mastering_luminance == 0,
            r.min_display_mastering_luminance == 0,
            r.max_cll == 0,
            r.max_fall == 0,
    {
        let unstated = Chromaticity { x: 0, y: 0 };
        HdrOutputMetadata {
            metadata_type: 0,
            eotf: EOTF_PQ,
            static_metadata_descriptor_id: STATIC_METADATA_TYPE_1,
            red: unstated,
            green: unstated,
            blue: unstated,
            white_point: unstated,
            max_display_mastering_luminance: 0,
            min_display_mastering_luminance: 0,
            max_cll: 0,
            max_fall: 0,
        }
    }
}

/// A property of a connector.
pub struct Property {
    /// What it is addressed by.
    pub handle: u32,
    /// What it is set to.
    pub value: u64,
    /// What it is called, where that can be read.
    pub name: Option<String>,
    /// What it can be set to, where it takes one of several named values.
    pub choices: Vec<(u64, Option<String>)>,
}

impl Property {
    /// Whether this is the property with a name.
    pub open spec fn is_called(self, name: Seq<char>) -> bool {
        text::owned(self.name) == Some(name)
    }
}

/// The last property with a name.
pub open spec fn last_called(properties: Seq<Property>, name: Seq<char>) -> Option<Property>
    decreases properties.len(),
{
    if properties.len() == 0 {
        None
    } else if properties.last().is_called(name) {
        Some(properties.last())
    } else {
        last_called(properties.drop_last(), name)
    }
}

/// The last value that a name stands for.
pub open spec fn last_choice(choices: Seq<(u64, Option<String>)>, name: Seq<char>) -> Option<u64>
    decreases choices.len(),
{
    if choices.len() == 0 {
        None
    } else if text::owned(choices.last().1) == Some(name) {
        Some(choices.last().0)
    } else {
        last_choice(choices.drop_last(), name)
    }
}

/// The value of the colour space that goes by a name.
pub open spec fn colorspace_called(properties: Seq<Property>, name: Seq<char>) -> Option<u64>
    decreases properties.len(),
{
    if properties.len() == 0 {
        None
    } else if properties.last().is_called("Colorspace"@) && last_choice(
        properties.last().choices@,
        name,
    ) is Some {
        last_choice(properties.last().choices@, name)
    } else {
        colorspace_called(properties.drop_last(), name)
    }
}

/// The connector properties that carry an HDR claim.
#[derive(Clone, Copy, Debug, PartialEq, Eq, Structural)]
pub struct HdrProperties {
    /// `Colorspace`
    pub colorspace: u32,
    /// `HDR_OUTPUT_METADATA`
    pub metadata: u32,
    /// `max bpc`, where the connector has it.
    pub max_bpc: Option<u32>,
    /// What `max bpc` was before the first claim, so a release puts the link back where
    /// the driver had it rather than at a number of our choosing.
    pub sdr_bpc: u64,
    /// The value of `Colorspace` for a claim.
    pub bt2020_rgb: u64,
    /// The value of `Colorspace` without one.
    pub default_colorspace: u64,
    /// The blob currently attached, so it can be freed on release.
    pub blob: Option<u64>,
}

/// The properties that a claim needs, where a connector has them all.
pub open spec fn hdr_properties(properties: Seq<Property>) -> Option<HdrProperties> {
    match (
        last_called(properties, "Colorspace"@),
        last_called(properties, "HDR_OUTPUT_METADATA"@),
        colorspace_called(properties, "BT2020_RGB"@),
        colorspace_called(properties, "Default"@),
    ) {
        (Some(colorspace), Some(metadata), Some(bt2020_rgb), Some(default_colorspace)) => Some(
            HdrProperties {
                colorspace: colorspace.handle,
                metadata: metadata.handle,
                max_bpc: match last_called(properties, "max bpc"@) {
                    Some(property) => Some(property.handle),
                    None => None,
                },
                sdr_bpc: match last_called(properties, "max bpc"@) {
                    Some(property) => property.value,
                    None => USUAL_BPC,
                },
                bt2020_rgb,
                default_colorspace,
                blob: None,
            },
        ),
        _ => None,
    }
}

fn find_called(properties: &Vec<Property>, name: &str) -> (r: Option<usize>)
    ensures
        match r {
            Some(at) => at < properties@.len() && last_called(properties@, name@) == Some(
                properties@[at as int],
            ),
            None => last_called(properties@, name@) is None,
        },
{
    let mut end: usize = properties.len();
    assert(properties@.take(properties@.len() as int) == properties@);
    while end > 0
        invariant
            end <= properties@.len(),
            last_called(properties@, name@) == last_called(properties@.take(end as int), name@),
        decreases end,
    {
        assert(properties@.take(end as int).drop_last() == properties@.take(end - 1));
        assert(properties@.take(end as int).last() == properties@[end - 1]);
        if text::is_text(text::as_text(&properties[end - 1].name), name) {
            return Some(end - 1);
        }
        end -= 1;
    }
    None
}

fn find_choice(choices: &Vec<(u64, Option<String>)>, name: &str) -> (r: Option<u64>)
    ensures
        r == last_choice(choices@, name@),
{
    let mut end: usize = choices.len();
    assert(choices@.take(choices@.len() as int) == choices@);
    while end > 0
        invariant
            end <= choices@.len(),
            last_choice(choices@, name@) == last_choice(choices@.take(end as int), name@),
        decreases end,
    {
        assert(choices@.take(end as int).drop_last() == choices@.take(end - 1));
        assert(choices@.take(end as int).last() == choices@[end - 1]);
        if text::is_text(text::as_text(&choices[end - 1].1), name) {
            return Some(choices[end - 1].0);
        }
        end -= 1;
    }
    None
}

fn find_colorspace(properties: &Vec<Property>, name: &str) -> (r: Option<u64>)
    ensures
        r == colorspace_called(properties@, name@),
{
    let mut end: usize = properties.len();
    assert(properties@.take(properties@.len() as int) == properties@);
    while end > 0
        invariant
            end <= properties@.len(),
            colorspace_called(properties@, name@) == colorspace_called(
                properties@.take(end as int),
                name@,
            ),
        decreases end,
    {
        assert(properties@.take(end as int).drop_last() == properties@.take(end - 1));
        assert(properties@.take(end as int).last() == properties@[end - 1]);
        if text::is_text(text::as_text(&properties[end - 1].name), "Colorspace") {
            let value: Option<u64> = find_choice(&properties[end - 1].choices, name);
            if value.is_some() {
                return value;
            }
        }
        end -= 1;
    }
    None
}

/// What to do about a colour space next.
#[derive(Debug, PartialEq, Eq)]
pub enum Step {
    /// Commit these properties instead.
    Retry(Vec<(u32, u64)>),
    /// Nothing: it is set. This blob is no longer needed.
    Done { destroy: Option<u64> },
    /// Nothing: the driver refused. This blob is no longer needed.
    Refused { destroy: Option<u64> },
}

/// What is said where the driver refuses.
pub const REFUSED: &'static str = "the driver refused the colour space";

impl HdrProperties {
    /// Find the properties on a connector, if the driver exposes them.
    pub fn find(properties: &Vec<Property>) -> (r: Option<Self>)
        ensures
            r == hdr_properties(properties@),
    {
        let colorspace: u32 = match find_called(properties, "Colorspace") {
            Some(at) => properties[at].handle,
            None => return None,
        };
        let metadata: u32 = match find_called(properties, "HDR_OUTPUT_METADATA") {
            Some(at) => properties[at].handle,
            None => return None,
        };
        let bt2020_rgb: u64 = match find_colorspace(properties, "BT2020_RGB") {
            Some(value) => value,
            None => return None,
        };
        let default_colorspace: u64 = match find_colorspace(properties, "Default") {
            Some(value) => value,
            None => return None,
        };
        let (max_bpc, sdr_bpc): (Option<u32>, u64) = match find_called(properties, "max bpc") {
            Some(at) => (Some(properties[at].handle), properties[at].value),
            None => (None, USUAL_BPC),
        };
        Some(
            HdrProperties {
                colorspace,
                metadata,
                max_bpc,
                sdr_bpc,
                bt2020_rgb,
                default_colorspace,
                blob: None,
            },
        )
    }

    /// The colour space of a claim, or without one.
    pub open spec fn colorspace_for(self, on: bool) -> u64 {
        if on {
            self.bt2020_rgb
        } else {
            self.default_colorspace
        }
    }

    /// The depth of the link under a claim, or without one.
    pub open spec fn bpc_for(self, on: bool) -> u64 {
        if on {
            HDR_BPC
        } else {
            self.sdr_bpc
        }
    }

    /// The properties to commit for a claim or a release: the colour space and its
    /// metadata, and the depth of the link where that is asked for and can be set.
    pub open spec fn properties_for(self, on: bool, blob: u64, with_depth: bool) -> Seq<
        (u32, u64),
    > {
        let colour = seq![(self.colorspace, self.colorspace_for(on)), (self.metadata, blob)];
        match self.max_bpc {
            Some(max_bpc) => if with_depth {
                colour.push((max_bpc, self.bpc_for(on)))
            } else {
                colour
            },
            None => colour,
        }
    }

    /// The properties to commit for a claim or a release. `blob` is the metadata that was
    /// created for a claim, and 0 for a release.
    pub fn request(&self, on: bool, blob: u64, with_depth: bool) -> (r: Vec<(u32, u64)>)
        ensures
            r@ == self.properties_for(on, blob, with_depth),
    {
        let colorspace: u64 = if on {
            self.bt2020_rgb
        } else {
            self.default_colorspace
        };
        let mut request: Vec<(u32, u64)> = Vec::new();
        request.push((self.colorspace, colorspace));
        request.push((self.metadata, blob));
        if with_depth {
            match self.max_bpc {
                Some(max_bpc) => {
                    let bpc: u64 = if on {
                        HDR_BPC
                    } else {
                        self.sdr_bpc
                    };
                    request.push((max_bpc, bpc));
                },
                None => {},
            }
        }
        assert(request@ == self.properties_for(on, blob, with_depth));
        request
    }

    /// The blob that is attached once a change went through.
    pub open spec fn blob_after(self, blob: u64, accepted: bool) -> Option<u64> {
        if !accepted {
            self.blob
        } else if blob == 0 {
            None
        } else {
            Some(blob)
        }
    }

    /// The blob that is no longer needed once a change went through, or did not.
    pub open spec fn spare_after(self, blob: u64, accepted: bool) -> Option<u64> {
        if accepted {
            match self.blob {
                Some(old) => if old != 0 {
                    Some(old)
                } else {
                    None
                },
                None => None,
            }
        } else if blob != 0 {
            Some(blob)
        } else {
            None
        }
    }

    /// A commit came back: the first one, `with_depth`, or the one without.
    ///
    /// A deeper link is what the mode may not have the bandwidth for - 4K60 RGB at 10
    /// bits is past HDMI 2.0. Losing the colour space over that would be the wrong
    /// trade: the sink can still read PQ at 8 bits, banding and all. The retry is not
    /// limited to the claim: a release the driver refuses leaves the set in BT.2020 and
    /// PQ with an SDR launcher on it, so it is worth trying without the depth there too.
    pub fn after_commit(
        &mut self,
        on: bool,
        blob: u64,
        with_depth: bool,
        accepted: bool,
    ) -> (r: Step)
        ensures
            final(self).blob == (if !accepted && with_depth && old(self).max_bpc is Some {
                old(self).blob
            } else {
                old(self).blob_after(blob, accepted)
            }),
            *final(self) == (HdrProperties { blob: final(self).blob, ..*old(self) }),
            match r {
                Step::Retry(request) => {
                    &&& !accepted && with_depth && old(self).max_bpc is Some
                    &&& request@ == old(self).properties_for(on, blob, false)
                },
                Step::Done { destroy } => {
                    &&& accepted
                    &&& destroy == old(self).spare_after(blob, true)
                },
                Step::Refused { destroy } => {
                    &&& !accepted && !(with_depth && old(self).max_bpc is Some)
                    &&& destroy == old(self).spare_after(blob, false)
                },
            },
    {
        if !accepted {
            if with_depth && self.max_bpc.is_some() {
                return Step::Retry(self.request(on, blob, false));
            }
            let destroy: Option<u64> = if blob != 0 {
                Some(blob)
            } else {
                None
            };
            return Step::Refused { destroy };
        }
        let destroy: Option<u64> = match self.blob {
            Some(old) => if old != 0 {
                Some(old)
            } else {
                None
            },
            None => None,
        };
        self.blob = if blob == 0 {
            None
        } else {
            Some(blob)
        };
        Step::Done { destroy }
    }

    /// Whether a claim is in effect.
    pub open spec fn is_claimed(self) -> bool {
        self.blob is Some
    }

    /// Whether a claim is in effect.
    pub fn claimed(&self) -> (r: bool)
        ensures
            r == self.is_claimed(),
    {
        self.blob.is_some()
    }
}

/// The blobs that exist once a change is over: those that there were and the one that was
/// created for it, without the one that is destroyed.
pub open spec fn blobs_after(
    hdr: HdrProperties,
    before: Set<u64>,
    blob: u64,
    accepted: bool,
) -> Set<u64> {
    let created = if blob != 0 {
        before.insert(blob)
    } else {
        before
    };
    match hdr.spare_after(blob, accepted) {
        Some(spare) => created.remove(spare),
        None => created,
    }
}

/// The blob that is attached, as a set.
pub open spec fn attached(blob: Option<u64>) -> Set<u64> {
    match blob {
        Some(id) => set![id],
        None => Set::empty(),
    }
}

/// However many claims and releases there are and whatever the driver makes of them, the
/// only blob that exists is the one that is attached. A new blob has an id of its own.
pub proof fn law_no_blob_is_leaked(hdr: HdrProperties, blob: u64, accepted: bool)
    requires
        hdr.blob != Some(0u64),
        blob != 0 ==> hdr.blob != Some(blob),
    ensures
        blobs_after(hdr, attached(hdr.blob), blob, accepted) == attached(
            hdr.blob_after(blob, accepted),
        ),
        hdr.blob_after(blob, accepted) != Some(0u64),
{
    assert(blobs_after(hdr, attached(hdr.blob), blob, accepted) =~= attached(
        hdr.blob_after(blob, accepted),
    ));
}

/// A claim is in effect after a change exactly if that was a claim that the driver
/// accepted, or one was in effect before and the driver refused.
pub proof fn law_a_claim_holds_until_a_release_is_accepted(
    hdr: HdrProperties,
    blob: u64,
    accepted: bool,
)
    ensures
        hdr.blob_after(blob, accepted) is Some <==> (if accepted {
            blob != 0
        } else {
            hdr.is_claimed()
        }),
{
}

/// A release puts the link back to the depth and the colour space it had.
pub proof fn law_a_release_puts_everything_back(hdr: HdrProperties)
    ensures
        hdr.properties_for(false, 0, true).contains((hdr.colorspace, hdr.default_colorspace)),
        hdr.properties_for(false, 0, true).contains((hdr.metadata, 0)),
        hdr.max_bpc matches Some(max_bpc) ==> hdr.properties_for(false, 0, true).contains(
            (max_bpc, hdr.sdr_bpc),
        ),
{
    let request = hdr.properties_for(false, 0, true);
    assert(request[0] == (hdr.colorspace, hdr.default_colorspace));
    assert(request[1] == (hdr.metadata, 0u64));
    if let Some(max_bpc) = hdr.max_bpc {
        assert(request[2] == (max_bpc, hdr.sdr_bpc));
    }
}

/// A claim sets the colour space that HDR content has, the metadata that was made for it, and
/// ten bits for each colour where the link's depth can be set; the retry leaves the depth out
/// and nothing else.
pub proof fn law_a_claim_sets_what_it_needs(hdr: HdrProperties, on: bool, blob: u64)
    ensures
        hdr.properties_for(true, blob, true).contains((hdr.colorspace, hdr.bt2020_rgb)),
        hdr.properties_for(on, blob, true).contains((hdr.metadata, blob)),
        hdr.max_bpc matches Some(max_bpc) ==> hdr.properties_for(true, blob, true).contains(
            (max_bpc, 10),
        ),
        hdr.properties_for(on, blob, true).len() == if hdr.max_bpc is Some {
            3int
        } else {
            2int
        },
        hdr.properties_for(on, blob, false).len() == 2,
        hdr.properties_for(on, blob, false) == hdr.properties_for(on, blob, true).take(2),
{
    let claim = hdr.properties_for(true, blob, true);
    assert(claim[0] == (hdr.colorspace, hdr.bt2020_rgb));
    assert(hdr.properties_for(on, blob, true)[1] == (hdr.metadata, blob));
    if let Some(max_bpc) = hdr.max_bpc {
        assert(claim[2] == (max_bpc, 10u64));
    }
    assert(hdr.properties_for(on, blob, false) =~= hdr.properties_for(on, blob, true).take(2));
}

/// The property that goes by a name is the last one that is called so, and there is one where
/// any is.
pub proof fn law_a_property_is_found_by_its_name(properties: Seq<Property>, name: Seq<char>, at: int)
    ensures
        last_called(properties, name) is None <==> forall|i: int|
            0 <= i < properties.len() ==> text::owned((#[trigger] properties[i]).name) != Some(
                name,
            ),
        0 <= at < properties.len() && text::owned(properties[at].name) == Some(name) && (forall|i: int|
            at < i < properties.len() ==> text::owned((#[trigger] properties[i]).name) != Some(
                name,
            )) ==> last_called(properties, name) == Some(properties[at]),
    decreases properties.len(),
{
    if properties.len() > 0 {
        let front = properties.drop_last();
        let last = properties.len() - 1;
        assert(properties[last] == properties.last());
        law_a_property_is_found_by_its_name(front, name, at);
        if !properties.last().is_called(name) {
            if last_called(properties, name) is None {
                assert forall|i: int| 0 <= i < properties.len() implies text::owned(
                    (#[trigger] properties[i]).name,
                ) != Some(name) by {
                    if i < last {
                        assert(front[i] == properties[i]);
                    }
                }
            }
            if forall|i: int|
                0 <= i < properties.len() ==> text::owned((#[trigger] properties[i]).name) != Some(
                    name,
                ) {
                assert forall|i: int| 0 <= i < front.len() implies text::owned(
                    (#[trigger] front[i]).name,
                ) != Some(name) by {
                    assert(front[i] == properties[i]);
                }
            }
            if 0 <= at < properties.len() && text::owned(properties[at].name) == Some(name) && (
            forall|i: int|
                at < i < properties.len() ==> text::owned((#[trigger] properties[i]).name) != Some(
                    name,
                )) {
                assert(front[at] == properties[at]);
                assert forall|i: int| at < i < front.len() implies text::owned(
                    (#[trigger] front[i]).name,
                ) != Some(name) by {
                    assert(front[i] == properties[i]);
                }
            }
        } else {
            assert(text::owned(properties[last].name) == Some(name));
        }
    }
}

/// The value that a name stands for is that of the last choice that is called so.
pub proof fn law_a_choice_is_found_by_its_name(
    choices: Seq<(u64, Option<String>)>,
    name: Seq<char>,
    at: int,
)
    requires
        0 <= at < choices.len(),
        text::owned(choices[at].1) == Some(name),
        forall|i: int|
            at < i < choices.len() ==> text::owned((#[trigger] choices[i]).1) != Some(name),
    ensures
        last_choice(choices, name) == Some(choices[at].0),
    decreases choices.len(),
{
    let front = choices.drop_last();
    if at < choices.len() - 1 {
        assert(text::owned(choices[choices.len() - 1].1) != Some(name));
        assert(front[at] == choices[at]);
        assert forall|i: int| at < i < front.len() implies text::owned((#[trigger] front[i]).1)
            != Some(name) by {
            assert(front[i] == choices[i]);
        }
        law_a_choice_is_found_by_its_name(front, name, at);
    }
}

/// A value that a name stands for is that of some choice that is called so.
proof fn lemma_a_choice_is_one_of_them(choices: Seq<(u64, Option<String>)>, name: Seq<char>) -> (at:
    int)
    requires
        last_choice(choices, name) is Some,
    ensures
        0 <= at < choices.len(),
        text::owned(choices[at].1) == Some(name),
        last_choice(choices, name) == Some(choices[at].0),
    decreases choices.len(),
{
    if text::owned(choices.last().1) == Some(name) {
        choices.len() - 1
    } else {
        lemma_a_choice_is_one_of_them(choices.drop_last(), name)
    }
}

/// Whether a value is what a name stands for among the colour spaces of a connector.
pub open spec fn is_colorspace(properties: Seq<Property>, name: Seq<char>, value: u64) -> bool {
    exists|i: int, k: int|
        #![trigger properties[i].choices@[k]]
        {
            &&& 0 <= i < properties.len()
            &&& text::owned(properties[i].name) == Some("Colorspace"@)
            &&& 0 <= k < properties[i].choices@.len()
            &&& text::owned(properties[i].choices@[k].1) == Some(name)
            &&& properties[i].choices@[k].0 == value
        }
}

proof fn lemma_colorspace(properties: Seq<Property>, name: Seq<char>)
    ensures
        colorspace_called(properties, name) matches Some(value) ==> is_colorspace(
            properties,
            name,
            value,
        ),
    decreases properties.len(),
{
    if properties.len() > 0 {
        if let Some(value) = colorspace_called(properties, name) {
            let last = properties.len() - 1;
            if properties.last().is_called("Colorspace"@) && last_choice(
                properties.last().choices@,
                name,
            ) is Some {
                let k = lemma_a_choice_is_one_of_them(properties.last().choices@, name);
                assert(properties[last].choices@[k].0 == value);
            } else {
                let front = properties.drop_last();
                lemma_colorspace(front, name);
                let (i, k) = choose|i: int, k: int|
                    #![trigger front[i].choices@[k]]
                    {
                        &&& 0 <= i < front.len()
                        &&& text::owned(front[i].name) == Some("Colorspace"@)
                        &&& 0 <= k < front[i].choices@.len()
                        &&& text::owned(front[i].choices@[k].1) == Some(name)
                        &&& front[i].choices@[k].0 == value
                    };
                assert(properties[i] == front[i]);
                assert(properties[i].choices@[k].0 == value);
            }
        }
    }
}

/// What a claim is made with is what the connector has under the names for it: the handles of
/// its own properties, the values of its own colour spaces, and the depth that it had; nothing
/// is attached yet.
pub proof fn law_a_claim_uses_the_connectors_own_properties(properties: Seq<Property>)
    ensures
        hdr_properties(properties) matches Some(hdr) ==> {
            &&& last_called(properties, "Colorspace"@) matches Some(property) && property.handle
                == hdr.colorspace
            &&& last_called(properties, "HDR_OUTPUT_METADATA"@) matches Some(property)
                && property.handle == hdr.metadata
            &&& is_colorspace(properties, "BT2020_RGB"@, hdr.bt2020_rgb)
            &&& is_colorspace(properties, "Default"@, hdr.default_colorspace)
            &&& match last_called(properties, "max bpc"@) {
                Some(property) => hdr.max_bpc == Some(property.handle) && hdr.sdr_bpc
                    == property.value,
                None => hdr.max_bpc is None && hdr.sdr_bpc == 8,
            }
            &&& hdr.blob is None
        },
        last_called(properties, "Colorspace"@) is None ==> hdr_properties(properties) is None,
        last_called(properties, "HDR_OUTPUT_METADATA"@) is None ==> hdr_properties(properties)
            is None,
{
    lemma_colorspace(properties, "BT2020_RGB"@);
    lemma_colorspace(properties, "Default"@);
}

/// A connector that has a colour space property with both values, and one for the metadata,
/// can be claimed.
pub proof fn law_a_connector_with_the_properties_can_be_claimed(
    properties: Seq<Property>,
    at: int,
    bt2020: int,
    default: int,
    metadata: int,
)
    requires
        0 <= at < properties.len(),
        text::owned(properties[at].name) == Some("Colorspace"@),
        0 <= bt2020 < properties[at].choices@.len(),
        text::owned(properties[at].choices@[bt2020].1) == Some("BT2020_RGB"@),
        0 <= default < properties[at].choices@.len(),
        text::owned(properties[at].choices@[default].1) == Some("Default"@),
        0 <= metadata < properties.len(),
        text::owned(properties[metadata].name) == Some("HDR_OUTPUT_METADATA"@),
    ensures
        hdr_properties(properties) is Some,
{
    law_a_property_is_found_by_its_name(properties, "Colorspace"@, at);
    law_a_property_is_found_by_its_name(properties, "HDR_OUTPUT_METADATA"@, metadata);
    lemma_colorspace_is_found(properties, "BT2020_RGB"@, at, bt2020);
    lemma_colorspace_is_found(properties, "Default"@, at, default);
}

proof fn lemma_choice_is_found(choices: Seq<(u64, Option<String>)>, name: Seq<char>, k: int)
    requires
        0 <= k < choices.len(),
        text::owned(choices[k].1) == Some(name),
    ensures
        last_choice(choices, name) is Some,
    decreases choices.len(),
{
    if k < choices.len() - 1 {
        assert(choices.drop_last()[k] == choices[k]);
        lemma_choice_is_found(choices.drop_last(), name, k);
    }
}

proof fn lemma_colorspace_is_found(properties: Seq<Property>, name: Seq<char>, at: int, k: int)
    requires
        0 <= at < properties.len(),
        text::owned(properties[at].name) == Some("Colorspace"@),
        0 <= k < properties[at].choices@.len(),
        text::owned(properties[at].choices@[k].1) == Some(name),
    ensures
        colorspace_called(properties, name) is Some,
    decreases properties.len(),
{
    if at < properties.len() - 1 {
        assert(properties.drop_last()[at] == properties[at]);
        lemma_colorspace_is_found(properties.drop_last(), name, at, k);
    } else {
        lemma_choice_is_found(properties[at].choices@, name, k);
    }
}

/// What the driver accepts is attached, and what was attached before is let go; what it refuses
/// is let go, and what was attached before stays.
pub proof fn law_what_is_accepted_is_attached(hdr: HdrProperties, blob: u64)
    requires
        hdr.blob != Some(0u64),
    ensures
        blob != 0 ==> hdr.blob_after(blob, true) == Some(blob),
        hdr.blob_after(0, true) is None,
        hdr.spare_after(blob, true) == hdr.blob,
        hdr.blob_after(blob, false) == hdr.blob,
        blob != 0 ==> hdr.spare_after(blob, false) == Some(blob),
        hdr.spare_after(0, false) is None,
{
}

}
