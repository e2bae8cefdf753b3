//! What the display path has been doing, for `get_state`.
//!
//! Counters since start and a summary of the last frame that was rendered. The
//! point is to answer "is this being scanned out or composited" and "has the
//! output been stalling" from the control socket, without turning on debug logs
//! and reproducing the problem.

use vstd::prelude::*;
use crate::json;
use crate::json::{Json, Tree};
use crate::text;

verus! {

/// Longest error text kept for `last_error`, in bytes.
pub const MAX_ERROR_LEN: usize = 200;

/// Counters and the last frame, as reported by `get_state` under `health`.
#[derive(Debug)]
pub struct Health {
    /// Frames handed to the display.
    pub frames_queued: u64,
    /// Frames the renderer or the plane assignment failed to build.
    pub render_failures: u64,
    /// Frames that were built but that the driver would not take.
    pub queue_failures: u64,
    /// Page flips that never reported completion and were given up on.
    pub flip_watchdog_fired: u64,
    /// HDR claims that the driver accepted.
    pub hdr_claims: u64,
    /// HDR releases that the driver accepted.
    pub hdr_releases: u64,
    /// HDR claims or releases the driver refused.
    pub hdr_failures: u64,
    /// The most recent failure of any of the above, shortened.
    pub last_error: Option<String>,
    /// The last frame that put something new on screen.
    pub last_frame: Option<FrameSummary>,
}

/// How the plane assignment placed the elements of one frame.
#[derive(Debug, Clone, Copy, PartialEq, Eq)]
pub struct FrameSummary {
    /// Elements in the frame.
    pub elements: usize,
    /// Elements that went to a plane as they are, with no GPU pass.
    pub scanned_out: usize,
    /// Elements drawn by the renderer into the composition buffer.
    pub composited: usize,
    /// Elements that were not visible.
    pub skipped: usize,
    /// What the primary plane shows: `"element"` when a client buffer is scanned
    /// out on it directly, `"swapchain"` when it shows the composition buffer.
    pub primary: &'static str,
    /// Overlay planes in use.
    pub overlays: usize,
    /// Whether the cursor plane is in use.
    pub cursor_plane: bool,
}

/// Where one element of a frame went.
#[derive(Debug, Clone, Copy, PartialEq, Eq, Structural)]
pub enum Presentation {
    /// To a plane as it is.
    ZeroCopy,
    /// Into the composition buffer.
    Rendering,
    /// Nowhere: it was not visible.
    Skipped,
}

impl Default for Health {
    fn default() -> (r: Self)
        ensures
            r.frames_queued == 0,
            r.render_failures == 0,
            r.queue_failures == 0,
            r.flip_watchdog_fired == 0,
            r.hdr_claims == 0,
            r.hdr_releases == 0,
            r.hdr_failures == 0,
            r.last_error == None::<String>,
            r.last_frame == None::<FrameSummary>,
    {
        Health {
            frames_queued: 0,
            render_failures: 0,
            queue_failures: 0,
            flip_watchdog_fired: 0,
            hdr_claims: 0,
            hdr_releases: 0,
            hdr_failures: 0,
            last_error: None,
            last_frame: None,
        }
    }
}

impl Clone for Health {
    fn clone(&self) -> (r: Self)
        ensures
            r == *self,
    {
        Health {
            frames_queued: self.frames_queued,
            render_failures: self.render_failures,
            queue_failures: self.queue_failures,
            flip_watchdog_fired: self.flip_watchdog_fired,
            hdr_claims: self.hdr_claims,
            hdr_releases: self.hdr_releases,
            hdr_failures: self.hdr_failures,
            last_error: self.last_error.clone(),
            last_frame: self.last_frame,
        }
    }
}

/// The last character boundary at or before an index.
pub open spec fn boundary(bytes: Seq<u8>, at: nat) -> nat
    decreases at,
{
    if at == 0 || vstd::utf8::is_char_boundary(bytes, at as int) {
        at
    } else {
        boundary(bytes, (at - 1) as nat)
    }
}

/// Whether a text is what is kept of another one: its beginning, cut at the last
/// character boundary that leaves no more bytes than allowed.
pub open spec fn is_kept_of(kept: Seq<char>, text: Seq<char>) -> bool {
    let bytes = vstd::utf8::encode_utf8(text);
    &&& kept.is_prefix_of(text)
    &&& vstd::utf8::encode_utf8(kept).len() == if bytes.len() <= MAX_ERROR_LEN {
        bytes.len()
    } else {
        boundary(bytes, MAX_ERROR_LEN as nat)
    }
}

proof fn lemma_split(text: Seq<char>, kept: Seq<char>, at: int)
    requires
        vstd::utf8::is_char_boundary(vstd::utf8::encode_utf8(text), at),
        0 <= at <= vstd::utf8::encode_utf8(text).len(),
        vstd::utf8::encode_utf8(kept) == vstd::utf8::encode_utf8(text).subrange(0, at),
    ensures
        kept.is_prefix_of(text),
{
    let bytes = vstd::utf8::encode_utf8(text);
    vstd::utf8::encode_utf8_valid_utf8(text);
    vstd::utf8::encode_utf8_decode_utf8(text);
    vstd::utf8::encode_utf8_decode_utf8(kept);
    vstd::utf8::decode_utf8_split(bytes, at);
    assert(text == kept + vstd::utf8::decode_utf8(bytes.subrange(at, bytes.len() as int)));
}

/// Keep no more of an error's text than [`MAX_ERROR_LEN`], whole characters only.
pub fn shorten(text: String) -> (r: String)
    ensures
        is_kept_of(r@, text@),
{
    let ghost bytes = vstd::utf8::encode_utf8(text@);
    if text.as_str().as_bytes().len() <= MAX_ERROR_LEN {
        return text;
    }
    proof {
        vstd::utf8::encode_utf8_valid_utf8(text@);
    }
    let mut cut: usize = MAX_ERROR_LEN;
    while !text.as_str().is_char_boundary(cut)
        invariant
            cut <= MAX_ERROR_LEN < bytes.len(),
            bytes == vstd::utf8::encode_utf8(text@),
            vstd::utf8::valid_utf8(bytes),
            boundary(bytes, MAX_ERROR_LEN as nat) == boundary(bytes, cut as nat),
        decreases cut,
    {
        cut -= 1;
    }
    let kept = text.as_str().split_at(cut).0.to_owned();
    proof {
        lemma_split(text@, kept@, cut as int);
    }
    kept
}

/// Calls `format!` for a value's `Debug` form.
///
/// What that form is, is the value's own to say: nothing is claimed of the text.
#[verifier::external_body]
fn debug_text<E: std::fmt::Debug>(err: &E) -> (r: String) {
    format!("{err:?}")
}

/// Whether a text is what an error's `Debug` form may print: printed twice, an error need
/// not read the same.
pub closed spec fn printed<E: std::fmt::Debug>(err: &E, text: String) -> bool {
    call_ensures(debug_text::<E>, (err,), text)
}

/// Put an error into words in a given form.
fn ask<E: std::fmt::Debug, F: Fn(&E) -> String>(form: F, err: &E) -> (r: String)
    requires
        call_requires(form, (err,)),
    ensures
        call_ensures(form, (err,), r),
{
    form(err)
}

impl Health {
    /// Whether another state differs from this one in nothing but the last error.
    pub open spec fn but_for_the_error(self, other: Health) -> bool {
        &&& self.frames_queued == other.frames_queued
        &&& self.render_failures == other.render_failures
        &&& self.queue_failures == other.queue_failures
        &&& self.flip_watchdog_fired == other.flip_watchdog_fired
        &&& self.hdr_claims == other.hdr_claims
        &&& self.hdr_releases == other.hdr_releases
        &&& self.hdr_failures == other.hdr_failures
        &&& self.last_frame == other.last_frame
    }

    /// Record a failure's text.
    pub fn note_error<E: std::fmt::Debug>(&mut self, err: &E)
        ensures
            old(self).but_for_the_error(*final(self)),
            final(self).last_error matches Some(kept) && exists|text: String|
                printed(err, text) && #[trigger] is_kept_of(kept@, text@),
    {
        let text = ask(debug_text::<E>, err);
        let ghost said = text;
        self.note_text(text);
        assert(printed(err, said));
    }

    /// Record a failure that has been put into words.
    pub fn note_text(&mut self, text: String)
        ensures
            old(self).but_for_the_error(*final(self)),
            final(self).last_error matches Some(kept) && is_kept_of(kept@, text@),
    {
        self.last_error = Some(shorten(text));
    }
}

/// One more, as far as a counter goes.
pub open spec fn counted(counter: u64) -> u64 {
    if counter < u64::MAX {
        (counter + 1) as u64
    } else {
        counter
    }
}

impl Health {
    /// A frame was handed to the display.
    pub fn frame_queued(&mut self, frame: FrameSummary)
        ensures
            *final(self) == (Health {
                frames_queued: counted(old(self).frames_queued),
                last_frame: Some(frame),
                ..*old(self)
            }),
    {
        self.frames_queued = self.frames_queued.saturating_add(1);
        self.last_frame = Some(frame);
    }

    /// The renderer or the plane assignment failed to build a frame.
    pub fn render_failed(&mut self, why: String)
        ensures
            final(self).last_error matches Some(kept) && is_kept_of(kept@, why@),
            *final(self) == (Health {
                render_failures: counted(old(self).render_failures),
                last_error: final(self).last_error,
                ..*old(self)
            }),
    {
        self.render_failures = self.render_failures.saturating_add(1);
        self.note_text(why);
    }

    /// The driver would not take a frame.
    pub fn queue_failed(&mut self, why: String)
        ensures
            final(self).last_error matches Some(kept) && is_kept_of(kept@, why@),
            *final(self) == (Health {
                queue_failures: counted(old(self).queue_failures),
                last_error: final(self).last_error,
                ..*old(self)
            }),
    {
        self.queue_failures = self.queue_failures.saturating_add(1);
        self.note_text(why);
    }

    /// The driver accepted an HDR claim, or a release.
    pub fn hdr_changed(&mut self, on: bool)
        ensures
            *final(self) == (if on {
                Health { hdr_claims: counted(old(self).hdr_claims), ..*old(self) }
            } else {
                Health { hdr_releases: counted(old(self).hdr_releases), ..*old(self) }
            }),
    {
        if on {
            self.hdr_claims = self.hdr_claims.saturating_add(1);
        } else {
            self.hdr_releases = self.hdr_releases.saturating_add(1);
        }
    }

    /// The driver refused an HDR claim, or a release.
    pub fn hdr_failed(&mut self, why: String)
        ensures
            final(self).last_error matches Some(kept) && is_kept_of(kept@, why@),
            *final(self) == (Health {
                hdr_failures: counted(old(self).hdr_failures),
                last_error: final(self).last_error,
                ..*old(self)
            }),
    {
        self.hdr_failures = self.hdr_failures.saturating_add(1);
        self.note_text(why);
    }
}

/// No error kept is longer than [`MAX_ERROR_LEN`] bytes.
pub proof fn law_a_kept_error_is_short(kept: Seq<char>, text: Seq<char>)
    requires
        is_kept_of(kept, text),
    ensures
        vstd::utf8::encode_utf8(kept).len() <= MAX_ERROR_LEN,
{
    lemma_boundary_is_below(vstd::utf8::encode_utf8(text), MAX_ERROR_LEN as nat);
}

proof fn lemma_boundary_is_below(bytes: Seq<u8>, at: nat)
    ensures
        boundary(bytes, at) <= at,
    decreases at,
{
    if at > 0 && !vstd::utf8::is_char_boundary(bytes, at as int) {
        lemma_boundary_is_below(bytes, (at - 1) as nat);
    }
}

/// How many elements of a frame went one way.
pub open spec fn went(states: Seq<Presentation>, way: Presentation) -> nat
    decreases states.len(),
{
    if states.len() == 0 {
        0
    } else {
        went(states.drop_last(), way) + if states.last() == way {
            1nat
        } else {
            0nat
        }
    }
}

impl Default for FrameSummary {
    /// A frame of nothing.
    fn default() -> (r: Self)
        ensures
            r.elements == 0,
            r.scanned_out == 0,
            r.composited == 0,
            r.skipped == 0,
            r.primary@ == ""@,
            r.overlays == 0,
            !r.cursor_plane,
    {
        FrameSummary {
            elements: 0,
            scanned_out: 0,
            composited: 0,
            skipped: 0,
            primary: "",
            overlays: 0,
            cursor_plane: false,
        }
    }
}

impl FrameSummary {
    /// Summarise a frame from where its elements went.
    pub fn tally(
        states: &[Presentation],
        primary_is_element: bool,
        overlays: usize,
        cursor_plane: bool,
    ) -> (r: Self)
        ensures
            r.elements == states@.len(),
            r.scanned_out == went(states@, Presentation::ZeroCopy),
            r.composited == went(states@, Presentation::Rendering),
            r.skipped == went(states@, Presentation::Skipped),
            r.elements == r.scanned_out + r.composited + r.skipped,
            r.primary@ == if primary_is_element {
                "element"@
            } else {
                "swapchain"@
            },
            r.overlays == overlays,
            r.cursor_plane == cursor_plane,
    {
        let mut scanned_out: usize = 0;
        let mut composited: usize = 0;
        let mut skipped: usize = 0;
        let mut at: usize = 0;
        assert(states@.take(0) == Seq::<Presentation>::empty());
        while at < states.len()
            invariant
                at <= states@.len(),
                scanned_out == went(states@.take(at as int), Presentation::ZeroCopy),
                composited == went(states@.take(at as int), Presentation::Rendering),
                skipped == went(states@.take(at as int), Presentation::Skipped),
                at == scanned_out + composited + skipped,
            decreases states@.len() - at,
        {
            assert(states@.take(at + 1).drop_last() == states@.take(at as int));
            match states[at] {
                Presentation::ZeroCopy => scanned_out += 1,
                Presentation::Rendering => composited += 1,
                Presentation::Skipped => skipped += 1,
            }
            at += 1;
        }
        assert(states@.take(states@.len() as int) == states@);
        FrameSummary {
            elements: states.len(),
            scanned_out,
            composited,
            skipped,
            primary: if primary_is_element {
                "element"
            } else {
                "swapchain"
            },
            overlays,
            cursor_plane,
        }
    }

    /// The summary as it is reported.
    pub open spec fn members(self) -> Seq<(Seq<char>, Tree)> {
        seq![
            ("elements"@, Tree::Int(self.elements as int)),
            ("scanned_out"@, Tree::Int(self.scanned_out as int)),
            ("composited"@, Tree::Int(self.composited as int)),
            ("skipped"@, Tree::Int(self.skipped as int)),
            ("primary"@, Tree::Text(self.primary@)),
            ("overlays"@, Tree::Int(self.overlays as int)),
            ("cursor_plane"@, Tree::Bool(self.cursor_plane)),
        ]
    }

    /// The same as one value.
    pub open spec fn tree(self) -> Tree {
        json::object(self.members())
    }

    /// Report the summary.
    pub fn json(&self) -> (r: Json)
        ensures
            r.tree() == self.tree(),
            json::writable(r, 1),
    {
        let mut members: Vec<(String, Json)> = Vec::new();
        json::put(&mut members, "elements", Json::Int(self.elements as i128));
        json::put(&mut members, "scanned_out", Json::Int(self.scanned_out as i128));
        json::put(&mut members, "composited", Json::Int(self.composited as i128));
        json::put(&mut members, "skipped", Json::Int(self.skipped as i128));
        json::put(&mut members, "primary", Json::Text(self.primary.to_owned()));
        json::put(&mut members, "overlays", Json::Int(self.overlays as i128));
        json::put(&mut members, "cursor_plane", Json::Bool(self.cursor_plane));
        assert(json::all_writable(members@, 0));
        assert(json::pairs_of(members@) == self.members());
        Json::Object(members)
    }
}

impl Health {
    /// The counters and the last frame as they are reported.
    pub open spec fn members(self) -> Seq<(Seq<char>, Tree)> {
        seq![
            ("frames_queued"@, Tree::Int(self.frames_queued as int)),
            ("render_failures"@, Tree::Int(self.render_failures as int)),
            ("queue_failures"@, Tree::Int(self.queue_failures as int)),
            ("flip_watchdog_fired"@, Tree::Int(self.flip_watchdog_fired as int)),
            ("hdr_claims"@, Tree::Int(self.hdr_claims as int)),
            ("hdr_releases"@, Tree::Int(self.hdr_releases as int)),
            ("hdr_failures"@, Tree::Int(self.hdr_failures as int)),
            ("last_error"@, json::text_tree(text::owned(self.last_error))),
            (
                "last_frame"@,
                match self.last_frame {
                    Some(frame) => frame.tree(),
                    None => Tree::Null,
                },
            ),
        ]
    }

    /// The same as one value.
    pub open spec fn tree(self) -> Tree {
        json::object(self.members())
    }

    /// Report the counters and the last frame.
    pub fn json(&self) -> (r: Json)
        ensures
            r.tree() == self.tree(),
            json::writable(r, 2),
    {
        let mut members: Vec<(String, Json)> = Vec::new();
        json::put(&mut members, "frames_queued", Json::Int(self.frames_queued as i128));
        json::put(&mut members, "render_failures", Json::Int(self.render_failures as i128));
        json::put(&mut members, "queue_failures", Json::Int(self.queue_failures as i128));
        json::put(
            &mut members,
            "flip_watchdog_fired",
            Json::Int(self.flip_watchdog_fired as i128),
        );
        json::put(&mut members, "hdr_claims", Json::Int(self.hdr_claims as i128));
        json::put(&mut members, "hdr_releases", Json::Int(self.hdr_releases as i128));
        json::put(&mut members, "hdr_failures", Json::Int(self.hdr_failures as i128));
        json::put(&mut members, "last_error", json::text_json(text::as_text(&self.last_error)));
        let last_frame = match &self.last_frame {
            Some(frame) => frame.json(),
            None => Json::Null,
        };
        json::put(&mut members, "last_frame", last_frame);
        assert(json::all_writable(members@, 1));
        assert(json::pairs_of(members@) == self.members());
        Json::Object(members)
    }
}

/// How many elements went one way is how often that way occurs, wherever it does.
pub proof fn law_every_element_is_counted_once(states: Seq<Presentation>, way: Presentation)
    ensures
        went(states, way) == states.to_multiset().count(way),
    decreases states.len(),
{
    broadcast use vstd::seq_lib::group_to_multiset_ensures;

    if states.len() > 0 {
        law_every_element_is_counted_once(states.drop_last(), way);
        assert(states.drop_last().push(states.last()) == states);
    }
}

/// A counter goes up by one each time, and stays at its limit.
pub proof fn law_a_counter_only_goes_up(counter: u64)
    ensures
        counter < u64::MAX ==> counted(counter) == counter + 1,
        counted(u64::MAX) == u64::MAX,
{
}

/// Nothing is cut from an error of at most 200 bytes; of a longer one whole characters are
/// kept, and not one fewer than fit.
pub proof fn law_as_much_of_an_error_is_kept_as_fits(kept: Seq<char>, text: Seq<char>)
    requires
        is_kept_of(kept, text),
    ensures
        vstd::utf8::encode_utf8(text).len() <= 200 ==> kept == text,
        kept.is_prefix_of(text),
        vstd::utf8::encode_utf8(text).len() > 200 ==> {
            let cut = vstd::utf8::encode_utf8(kept).len() as int;
            &&& cut <= 200
            &&& forall|at: int|
                cut < at <= 200 ==> !(#[trigger] vstd::utf8::is_char_boundary(
                    vstd::utf8::encode_utf8(text),
                    at,
                ))
        },
{
    let bytes = vstd::utf8::encode_utf8(text);
    lemma_boundary_is_the_last(bytes, MAX_ERROR_LEN as nat);
    if bytes.len() <= 200 {
        let rest = text.skip(kept.len() as int);
        assert(text =~= kept + rest);
        lemma_bytes_of_both(kept, rest);
        if rest.len() > 0 {
            vstd::utf8::encode_utf8_decode_utf8(rest);
            vstd::utf8::encode_utf8_decode_utf8(Seq::empty());
            assert(vstd::utf8::encode_utf8(rest) =~= vstd::utf8::encode_utf8(Seq::empty()));
        }
        assert(kept =~= text);
    }
}

proof fn lemma_bytes_of_both(a: Seq<char>, b: Seq<char>)
    ensures
        vstd::utf8::encode_utf8(a + b) == vstd::utf8::encode_utf8(a) + vstd::utf8::encode_utf8(b),
    decreases a.len(),
{
    if a.len() == 0 {
        assert(a + b =~= b);
        assert(vstd::utf8::encode_utf8(a) =~= Seq::empty());
        assert(Seq::<u8>::empty() + vstd::utf8::encode_utf8(b) =~= vstd::utf8::encode_utf8(b));
    } else {
        lemma_bytes_of_both(a.drop_first(), b);
        assert((a + b).drop_first() =~= a.drop_first() + b);
        assert((a + b)[0] == a[0]);
        assert(vstd::utf8::encode_utf8(a + b) =~= vstd::utf8::encode_utf8(a)
            + vstd::utf8::encode_utf8(b));
    }
}

proof fn lemma_boundary_is_the_last(bytes: Seq<u8>, at: nat)
    ensures
        boundary(bytes, at) <= at,
        forall|i: int|
            boundary(bytes, at) < i <= at ==> !(#[trigger] vstd::utf8::is_char_boundary(bytes, i)),
    decreases at,
{
    if at > 0 && !vstd::utf8::is_char_boundary(bytes, at as int) {
        lemma_boundary_is_the_last(bytes, (at - 1) as nat);
    }
}

/// Whether a value is an object in which a name stands for a value.
pub open spec fn reports(tree: Tree, name: Seq<char>, value: Tree) -> bool {
    &&& tree matches Tree::Object(members)
    &&& json::fields(members).contains_key(name)
    &&& json::fields(members)[name] == value
}

/// A frame is reported by where its elements went and which planes it used.
pub proof fn law_a_frame_is_reported_as_it_was(frame: FrameSummary)
    ensures
        reports(frame.tree(), "elements"@, Tree::Int(frame.elements as int)),
        reports(frame.tree(), "scanned_out"@, Tree::Int(frame.scanned_out as int)),
        reports(frame.tree(), "composited"@, Tree::Int(frame.composited as int)),
        reports(frame.tree(), "skipped"@, Tree::Int(frame.skipped as int)),
        reports(frame.tree(), "primary"@, Tree::Text(frame.primary@)),
        reports(frame.tree(), "overlays"@, Tree::Int(frame.overlays as int)),
        reports(frame.tree(), "cursor_plane"@, Tree::Bool(frame.cursor_plane)),
{
    reveal_strlit("elements");
    reveal_strlit("scanned_out");
    reveal_strlit("composited");
    reveal_strlit("skipped");
    reveal_strlit("primary");
    reveal_strlit("overlays");
    reveal_strlit("cursor_plane");
    assert("elements"@.len() == 8 && "elements"@[0] == 'e');
    assert("overlays"@.len() == 8 && "overlays"@[0] == 'o');
    assert("scanned_out"@.len() == 11 && "composited"@.len() == 10 && "cursor_plane"@.len() == 12);
    assert("skipped"@.len() == 7 && "skipped"@[0] == 's');
    assert("primary"@.len() == 7 && "primary"@[0] == 'p');
    let members = frame.members();
    json::law_members_keep_their_order(members);
    assert(members[0].0 == "elements"@ && members[1].0 == "scanned_out"@ && members[2].0
        == "composited"@ && members[3].0 == "skipped"@ && members[4].0 == "primary"@
        && members[5].0 == "overlays"@ && members[6].0 == "cursor_plane"@);
}

/// Every counter is reported under its own name, with the last error and the last frame.
pub proof fn law_every_counter_is_reported_as_it_stands(health: Health)
    ensures
        reports(health.tree(), "frames_queued"@, Tree::Int(health.frames_queued as int)),
        reports(health.tree(), "render_failures"@, Tree::Int(health.render_failures as int)),
        reports(health.tree(), "queue_failures"@, Tree::Int(health.queue_failures as int)),
        reports(
            health.tree(),
            "flip_watchdog_fired"@,
            Tree::Int(health.flip_watchdog_fired as int),
        ),
        reports(health.tree(), "hdr_claims"@, Tree::Int(health.hdr_claims as int)),
        reports(health.tree(), "hdr_releases"@, Tree::Int(health.hdr_releases as int)),
        reports(health.tree(), "hdr_failures"@, Tree::Int(health.hdr_failures as int)),
        reports(
            health.tree(),
            "last_error"@,
            match health.last_error {
                Some(error) => Tree::Text(error@),
                None => Tree::Null,
            },
        ),
        reports(
            health.tree(),
            "last_frame"@,
            match health.last_frame {
                Some(frame) => frame.tree(),
                None => Tree::Null,
            },
        ),
{
    reveal_strlit("frames_queued");
    reveal_strlit("render_failures");
    reveal_strlit("queue_failures");
    reveal_strlit("flip_watchdog_fired");
    reveal_strlit("hdr_claims");
    reveal_strlit("hdr_releases");
    reveal_strlit("hdr_failures");
    reveal_strlit("last_error");
    reveal_strlit("last_frame");
    assert("frames_queued"@.len() == 13 && "render_failures"@.len() == 15);
    assert("queue_failures"@.len() == 14 && "flip_watchdog_fired"@.len() == 19);
    assert("hdr_claims"@.len() == 10 && "hdr_claims"@[0] == 'h');
    assert("hdr_releases"@.len() == 12 && "hdr_releases"@[4] == 'r');
    assert("hdr_failures"@.len() == 12 && "hdr_failures"@[4] == 'f');
    assert("last_error"@.len() == 10 && "last_error"@[0] == 'l' && "last_error"@[5] == 'e');
    assert("last_frame"@.len() == 10 && "last_frame"@[0] == 'l' && "last_frame"@[5] == 'f');
    let members = health.members();
    json::law_members_keep_their_order(members);
    assert(members[0].0 == "frames_queued"@ && members[1].0 == "render_failures"@ && members[2].0
        == "queue_failures"@ && members[3].0 == "flip_watchdog_fired"@ && members[4].0
        == "hdr_claims"@ && members[5].0 == "hdr_releases"@ && members[6].0 == "hdr_failures"@
        && members[7].0 == "last_error"@ && members[8].0 == "last_frame"@);
}

/// A failure that is noted changes the last error and nothing else.
pub proof fn law_only_the_error_is_noted(before: Health, after: Health)
    requires
        before.but_for_the_error(after),
    ensures
        after == (Health { last_error: after.last_error, ..before }),
{
}

}
