//! Turning buffers into KMS framebuffers, without gbm in the way for client
//! buffers.
//!
//! gbm can only describe the planes of a format the render driver knows, and Mesa's
//! v3d/vc4 knows no YUV format at all, so for a decoded video frame the handle for
//! the second plane cannot be right. So each plane of a client buffer is imported on
//! its own, with the buffer's own pitches and offsets. With that, the decoder's frame
//! lands on the primary plane and the shell's translucent UI on an overlay plane, with
//! the compositor doing no GPU work at all.
//!
//! Buffers we allocated ourselves still go through gbm: they are RGB, gbm describes
//! them correctly, and it keeps the bo's own metadata in play.

use vstd::prelude::*;

verus! {

/// The modifier of a buffer that was allocated without one.
pub const MODIFIER_INVALID: u64 = 0x00ff_ffff_ffff_ffff;

/// The most planes a framebuffer has.
pub const MAX_PLANES: usize = 4;

/// Exports framebuffers for the compositor's DRM surface.
///
/// Client dmabufs are imported directly; our own buffers go through gbm.
#[derive(Debug, Clone, Copy)]
pub struct DirectFramebufferExporter;

/// A buffer to build a framebuffer from.
#[derive(Debug, Clone, Copy, PartialEq, Eq, Structural)]
pub enum Source {
    /// A client's, with its modifier where it is a dmabuf.
    Client(Option<u64>),
    /// One of our own.
    Own,
}

/// How a framebuffer is built.
#[derive(Debug, Clone, Copy, PartialEq, Eq, Structural)]
pub enum Route {
    /// Not at all: the buffer is left to the renderer.
    Render,
    /// By importing each plane of the dmabuf.
    Import,
    /// From the gbm buffer object.
    Gbm,
}

impl DirectFramebufferExporter {
    /// How to build a framebuffer from a buffer.
    ///
    /// A buffer allocated with no modifier may still be tiled under the hood, and
    /// neither we nor the KMS driver can know how. Handing it to KMS would display
    /// garbage, so it is left to the renderer.
    pub fn route(&self, source: Source) -> (r: Route)
        ensures
            r == (match source {
                Source::Client(None) => Route::Render,
                Source::Client(Some(modifier)) => if modifier == MODIFIER_INVALID {
                    Route::Render
                } else {
                    Route::Import
                },
                Source::Own => Route::Gbm,
            }),
    {
        match source {
            Source::Client(None) => Route::Render,
            Source::Client(Some(modifier)) => if modifier == MODIFIER_INVALID {
                Route::Render
            } else {
                Route::Import
            },
            Source::Own => Route::Gbm,
        }
    }

    /// Whether a framebuffer may be tried at all. Deliberately not filtered: whether a
    /// buffer has a node recorded says nothing about whether KMS will take it. A refused
    /// framebuffer costs one failed ioctl and falls back to composition.
    pub fn can_add_framebuffer(&self, source: Source) -> (r: bool)
        ensures
            r,
    {
        match source {
            Source::Client(_) => true,
            Source::Own => true,
        }
    }
}

/// The format to scan a buffer out with: its own, or the opaque alternative where there is
/// one and it is asked for. Formats are fourcc codes.
pub fn scanout_code(code: u32, opaque: Option<u32>, use_opaque: bool) -> (r: u32)
    ensures
        r == (match opaque {
            Some(other) => if use_opaque {
                other
            } else {
                code
            },
            None => code,
        }),
{
    match opaque {
        Some(other) => if use_opaque {
            other
        } else {
            code
        },
        None => code,
    }
}

/// The modifier to pass to KMS: none for a buffer that was allocated without one.
pub fn usable_modifier(modifier: u64) -> (r: Option<u64>)
    ensures
        r == (if modifier == MODIFIER_INVALID {
            None
        } else {
            Some(modifier)
        }),
{
    if modifier == MODIFIER_INVALID {
        None
    } else {
        Some(modifier)
    }
}

/// One number per plane: those of the first planes, and 0 for a plane that there is not.
pub fn plane_words(values: &Vec<u32>) -> (r: [u32; 4])
    ensures
        forall|i: int|
            0 <= i < MAX_PLANES ==> #[trigger] r@[i] == (if i < values@.len() {
                values@[i]
            } else {
                0
            }),
{
    let mut words: [u32; 4] = [0, 0, 0, 0];
    let mut at: usize = 0;
    while at < values.len() && at < MAX_PLANES
        invariant
            at <= values@.len(),
            at <= MAX_PLANES,
            forall|i: int|
                0 <= i < MAX_PLANES ==> #[trigger] words@[i] == (if i < at {
                    values@[i]
                } else {
                    0
                }),
        decreases MAX_PLANES - at,
    {
        words[at] = values[at];
        at += 1;
    }
    words
}

/// The handles that the planes of a buffer were imported as.
pub struct Imports {
    /// One per plane.
    pub planes: Vec<u32>,
    /// Each handle once.
    pub distinct: Vec<u32>,
}

impl Imports {
    /// No more planes than a framebuffer has, and every handle once among the distinct
    /// ones.
    pub open spec fn well_formed(&self) -> bool {
        &&& self.planes@.len() <= MAX_PLANES
        &&& self.distinct@.no_duplicates()
        &&& forall|handle: u32|
            #[trigger] self.distinct@.contains(handle) <==> self.planes@.contains(handle)
    }

    /// Nothing imported yet.
    pub fn new() -> (r: Imports)
        ensures
            r.well_formed(),
            r.planes@ == Seq::<u32>::empty(),
    {
        Imports { planes: Vec::new(), distinct: Vec::new() }
    }

    /// Whether another plane is to be imported.
    pub fn wants_more(&self) -> (r: bool)
        ensures
            r == (self.planes@.len() < MAX_PLANES),
    {
        self.planes.len() < MAX_PLANES
    }

    /// A plane was imported.
    ///
    /// A multi-plane video buffer hands over the same dma_buf once per plane, and the
    /// kernel answers with the same handle without taking a second reference. Closing
    /// it twice fails on the second go.
    pub fn add(&mut self, handle: u32)
        requires
            old(self).well_formed(),
            old(self).planes@.len() < MAX_PLANES,
        ensures
            final(self).well_formed(),
            final(self).planes@ == old(self).planes@.push(handle),
    {
        let mut known: bool = false;
        let mut at: usize = 0;
        while at < self.distinct.len()
            invariant
                at <= self.distinct@.len(),
                known == exists|i: int| 0 <= i < at && self.distinct@[i] == handle,
            decreases self.distinct@.len() - at,
        {
            if self.distinct[at] == handle {
                known = true;
            }
            at += 1;
        }
        let ghost distinct = self.distinct@;
        let ghost planes = self.planes@;
        self.planes.push(handle);
        if !known {
            self.distinct.push(handle);
        }
        proof {
            assert(known == distinct.contains(handle));
            assert forall|other: u32|
                #[trigger] self.distinct@.contains(other) <==> self.planes@.contains(other) by {
                assert(self.planes@.last() == handle);
                if planes.contains(other) {
                    let i = planes.index_of(other);
                    assert(self.planes@[i] == other);
                }
                if distinct.contains(other) {
                    let i = distinct.index_of(other);
                    assert(self.distinct@[i] == other);
                }
                if !known {
                    assert(self.distinct@.last() == handle);
                }
            }
        }
    }

    /// The handle of each plane, and none for a plane that there is not.
    pub fn handles(&self) -> (r: [Option<u32>; 4])
        requires
            self.well_formed(),
        ensures
            forall|i: int|
                0 <= i < MAX_PLANES ==> #[trigger] r@[i] == (if i < self.planes@.len() {
                    Some(self.planes@[i])
                } else {
                    None
                }),
    {
        let mut slots: [Option<u32>; 4] = [None, None, None, None];
        let mut at: usize = 0;
        while at < self.planes.len()
            invariant
                at <= self.planes@.len() <= MAX_PLANES,
                forall|i: int|
                    0 <= i < MAX_PLANES ==> #[trigger] slots@[i] == (if i < at {
                        Some(self.planes@[i])
                    } else {
                        None
                    }),
            decreases self.planes@.len() - at,
        {
            slots[at] = Some(self.planes[at]);
            at += 1;
        }
        slots
    }

    /// The handles to close. The framebuffer holds its own reference to the memory, so
    /// they are not needed once it is built - and keeping them leaks the frame.
    pub fn to_close(self) -> (r: Vec<u32>)
        requires
            self.well_formed(),
        ensures
            r@.no_duplicates(),
            forall|handle: u32|
                #[trigger] r@.contains(handle) <==> self.planes@.contains(handle),
    {
        self.distinct
    }
}

/// A buffer is handed to the display by its planes exactly where it is a client's dmabuf whose
/// layout is known, which is where its modifier can be passed on; our own always go through
/// gbm, and what is left is drawn.
pub proof fn law_only_a_known_layout_is_scanned_out(
    exporter: DirectFramebufferExporter,
    modifier: u64,
    client: Route,
    shm: Route,
    own: Route,
    passed: Option<u64>,
)
    requires
        call_ensures(
            DirectFramebufferExporter::route,
            (&exporter, Source::Client(Some(modifier))),
            client,
        ),
        call_ensures(DirectFramebufferExporter::route, (&exporter, Source::Client(None)), shm),
        call_ensures(DirectFramebufferExporter::route, (&exporter, Source::Own), own),
        call_ensures(usable_modifier, (modifier,), passed),
    ensures
        client == Route::Import <==> modifier != 0x00ff_ffff_ffff_ffff,
        client == Route::Import <==> passed == Some(modifier),
        client == Route::Render <==> passed is None,
        shm == Route::Render,
        own == Route::Gbm,
{
}

/// A buffer is scanned out with its own format unless the opaque one is asked for and there is
/// one.
pub proof fn law_a_format_is_kept_unless_asked(
    code: u32,
    opaque: Option<u32>,
    use_opaque: bool,
    used: u32,
)
    requires
        call_ensures(scanout_code, (code, opaque, use_opaque), used),
    ensures
        !use_opaque || opaque is None ==> used == code,
        use_opaque && opaque is Some ==> Some(used) == opaque,
{
}

}
