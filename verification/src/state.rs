//! What the compositor has been told and where its windows go.

use vstd::prelude::*;
use crate::stacking;
use crate::stacking::{Names, Window};
use crate::text;

verus! {

/// Who owns the screen, as the shell reports it.
///
/// The compositor cannot work this out for itself: the launcher and an app can be
/// windows of the same process, and "an app is on screen" is the shell's own state
/// machine, not a property of any surface.
#[derive(Debug, PartialEq, Eq)]
pub enum Focus {
    /// The launcher's own UI.
    Launcher,
    /// An app, named so logs and later per-app policy can tell them apart.
    App(String),
}

/// What a [`Focus`] says.
pub enum FocusName {
    /// The launcher's own UI.
    Launcher,
    /// An app.
    App(Seq<char>),
}

impl View for Focus {
    type V = FocusName;

    open spec fn view(&self) -> FocusName {
        match self {
            Focus::Launcher => FocusName::Launcher,
            Focus::App(app) => FocusName::App(app@),
        }
    }
}

impl Clone for Focus {
    fn clone(&self) -> (r: Self)
        ensures
            r@ == self@,
    {
        match self {
            Focus::Launcher => Focus::Launcher,
            Focus::App(app) => Focus::App(app.clone()),
        }
    }
}

impl Default for Focus {
    fn default() -> (r: Self)
        ensures
            r@ == FocusName::Launcher,
    {
        Focus::Launcher
    }
}

/// A rectangle in output pixels.
#[derive(Clone, Copy, Debug, PartialEq, Eq, Structural)]
pub struct Rect {
    /// Left edge.
    pub x: i32,
    /// Top edge.
    pub y: i32,
    /// Width.
    pub w: i32,
    /// Height.
    pub h: i32,
}

/// What a placement is keyed by.
///
/// By app id for a client whose every window belongs somewhere - the player, whose
/// picture-in-picture rectangle is the reason placement exists. By title for one
/// window of a client that has several.
#[derive(Debug, PartialEq, Eq, Hash)]
pub enum PlaceKey {
    /// Every window of this client.
    AppId(String),
    /// The one window carrying this title.
    Title(String),
}

/// The characters of a [`PlaceKey`].
pub enum PlaceName {
    /// Every window of this client.
    AppId(Seq<char>),
    /// The one window carrying this title.
    Title(Seq<char>),
}

impl View for PlaceKey {
    type V = PlaceName;

    open spec fn view(&self) -> PlaceName {
        match self {
            PlaceKey::AppId(id) => PlaceName::AppId(id@),
            PlaceKey::Title(title) => PlaceName::Title(title@),
        }
    }
}

impl Clone for PlaceKey {
    fn clone(&self) -> (r: Self)
        ensures
            r@ == self@,
    {
        match self {
            PlaceKey::AppId(id) => PlaceKey::AppId(id.clone()),
            PlaceKey::Title(title) => PlaceKey::Title(title.clone()),
        }
    }
}

impl PlaceKey {
    /// Whether two keys name the same windows.
    pub fn same(&self, other: &PlaceKey) -> (r: bool)
        ensures
            r == (self@ == other@),
    {
        match (self, other) {
            (PlaceKey::AppId(a), PlaceKey::AppId(b)) => text::same(a.as_str(), b.as_str()),
            (PlaceKey::Title(a), PlaceKey::Title(b)) => text::same(a.as_str(), b.as_str()),
            _ => false,
        }
    }
}

/// Where windows go. A window with no entry takes the whole output, which is what a TV
/// box does with almost everything.
pub struct Placements {
    /// Each key once.
    pub entries: Vec<(PlaceKey, Rect)>,
}

/// Whether no two entries have the same key.
pub open spec fn keys_differ(entries: Seq<(PlaceKey, Rect)>) -> bool {
    forall|i: int, j: int|
        0 <= i < j < entries.len() ==> (#[trigger] entries[i]).0@ != (#[trigger] entries[j]).0@
}

/// What entries say.
pub open spec fn placed(entries: Seq<(PlaceKey, Rect)>) -> Map<PlaceName, Rect>
    decreases entries.len(),
{
    if entries.len() == 0 {
        Map::empty()
    } else {
        placed(entries.drop_last()).insert(entries.last().0@, entries.last().1)
    }
}

impl View for Placements {
    type V = Map<PlaceName, Rect>;

    open spec fn view(&self) -> Map<PlaceName, Rect> {
        placed(self.entries@)
    }
}

proof fn lemma_placed(entries: Seq<(PlaceKey, Rect)>, key: PlaceName)
    requires
        keys_differ(entries),
    ensures
        placed(entries).contains_key(key) <==> exists|i: int|
            0 <= i < entries.len() && (#[trigger] entries[i]).0@ == key,
        forall|i: int|
            0 <= i < entries.len() && (#[trigger] entries[i]).0@ == key ==> placed(entries)[key]
                == entries[i].1,
    decreases entries.len(),
{
    if entries.len() > 0 {
        let front = entries.drop_last();
        assert(keys_differ(front)) by {
            assert forall|i: int, j: int| 0 <= i < j < front.len() implies (
            #[trigger] front[i]).0@ != (#[trigger] front[j]).0@ by {
                assert(front[i] == entries[i] && front[j] == entries[j]);
            }
        }
        lemma_placed(front, key);
        let last = entries.len() - 1;
        if entries.last().0@ == key {
            assert(entries[last].0@ == key);
        }
        assert forall|i: int| 0 <= i < entries.len() && (#[trigger] entries[i]).0@ == key implies {
            placed(entries)[key] == entries[i].1
        } by {
            if i < last {
                assert(front[i] == entries[i]);
                assert(entries[last].0@ != entries[i].0@);
            }
        }
        if placed(front).contains_key(key) {
            let i = choose|i: int| 0 <= i < front.len() && (#[trigger] front[i]).0@ == key;
            assert(entries[i].0@ == key);
        }
        if exists|i: int| 0 <= i < entries.len() && (#[trigger] entries[i]).0@ == key {
            let i = choose|i: int| 0 <= i < entries.len() && (#[trigger] entries[i]).0@ == key;
            if i < last {
                assert(front[i].0@ == key);
            }
        }
    }
}

impl Placements {
    /// No key has two entries.
    pub open spec fn well_formed(&self) -> bool {
        keys_differ(self.entries@)
    }

    /// Every window takes the whole output.
    pub fn new() -> (r: Placements)
        ensures
            r.well_formed(),
            r@ == Map::<PlaceName, Rect>::empty(),
    {
        Placements { entries: Vec::new() }
    }

    fn find(&self, key: &PlaceKey) -> (r: Option<usize>)
        requires
            self.well_formed(),
        ensures
            match r {
                Some(at) => {
                    &&& at < self.entries@.len()
                    &&& self.entries@[at as int].0@ == key@
                    &&& self@.contains_key(key@)
                    &&& self@[key@] == self.entries@[at as int].1
                },
                None => {
                    &&& !self@.contains_key(key@)
                    &&& forall|i: int|
                        0 <= i < self.entries@.len() ==> (#[trigger] self.entries@[i]).0@ != key@
                },
            },
    {
        proof {
            lemma_placed(self.entries@, key@);
        }
        let mut at: usize = 0;
        while at < self.entries.len()
            invariant
                at <= self.entries@.len(),
                forall|i: int| 0 <= i < at ==> (#[trigger] self.entries@[i]).0@ != key@,
                self@.contains_key(key@) <==> exists|i: int|
                    0 <= i < self.entries@.len() && (#[trigger] self.entries@[i]).0@ == key@,
                forall|i: int|
                    0 <= i < self.entries@.len() && (#[trigger] self.entries@[i]).0@ == key@
                        ==> self@[key@] == self.entries@[i].1,
            decreases self.entries@.len() - at,
        {
            if self.entries[at].0.same(key) {
                return Some(at);
            }
            at += 1;
        }
        None
    }

    /// Where the windows under a key go, where that is not the whole output.
    pub fn get(&self, key: &PlaceKey) -> (r: Option<Rect>)
        requires
            self.well_formed(),
        ensures
            r == (if self@.contains_key(key@) {
                Some(self@[key@])
            } else {
                None
            }),
    {
        match self.find(key) {
            Some(at) => Some(self.entries[at].1),
            None => None,
        }
    }

    /// Where a client's windows go from now on. `rect` of `None` puts them back on
    /// the whole output.
    ///
    /// Set before the client starts: a window is placed as it maps, so a player
    /// launched into a rectangle never appears fullscreen first.
    pub fn set(&mut self, key: PlaceKey, rect: Option<Rect>)
        requires
            old(self).well_formed(),
        ensures
            final(self).well_formed(),
            final(self)@ == (match rect {
                Some(rect) => old(self)@.insert(key@, rect),
                None => old(self)@.remove(key@),
            }),
    {
        let ghost before = self.entries@;
        match self.find(&key) {
            Some(at) => {
                self.entries.remove(at);
                proof {
                    lemma_remove(before, at as int);
                    assert(before.remove(at as int) == self.entries@);
                }
            },
            None => {},
        }
        assert(self@ == placed(before).remove(key@));
        let ghost name = key@;
        let ghost without = self.entries@;
        match rect {
            Some(rect) => {
                self.entries.push((key, rect));
                assert(self.entries@.drop_last() == without);
                assert(self@ == placed(before).insert(name, rect));
            },
            None => {},
        }
    }
}

proof fn lemma_remove(entries: Seq<(PlaceKey, Rect)>, at: int)
    requires
        keys_differ(entries),
        0 <= at < entries.len(),
    ensures
        keys_differ(entries.remove(at)),
        placed(entries.remove(at)) == placed(entries).remove(entries[at].0@),
        forall|i: int|
            0 <= i < entries.len() - 1 ==> (#[trigger] entries.remove(at)[i]).0@
                != entries[at].0@,
{
    let less = entries.remove(at);
    assert forall|i: int, j: int| 0 <= i < j < less.len() implies (#[trigger] less[i]).0@ != (
    #[trigger] less[j]).0@ by {
        let a = if i < at {
            i
        } else {
            i + 1
        };
        let b = if j < at {
            j
        } else {
            j + 1
        };
        assert(less[i] == entries[a] && less[j] == entries[b]);
    }
    assert forall|i: int| 0 <= i < entries.len() - 1 implies (#[trigger] less[i]).0@
        != entries[at].0@ by {
        let a = if i < at {
            i
        } else {
            i + 1
        };
        assert(less[i] == entries[a]);
    }
    let gone = entries[at].0@;
    assert forall|key: PlaceName| placed(less).contains_key(key) <==> placed(entries).remove(
        gone,
    ).contains_key(key) by {
        lemma_placed(entries, key);
        lemma_placed(less, key);
        if placed(less).contains_key(key) {
            let i = choose|i: int| 0 <= i < less.len() && (#[trigger] less[i]).0@ == key;
            let a = if i < at {
                i
            } else {
                i + 1
            };
            assert(entries[a] == less[i]);
        }
        if placed(entries).contains_key(key) && key != gone {
            let i = choose|i: int| 0 <= i < entries.len() && (#[trigger] entries[i]).0@ == key;
            let a = if i < at {
                i
            } else {
                i - 1
            };
            assert(less[a] == entries[i]);
        }
    }
    assert forall|key: PlaceName| placed(less).contains_key(key) implies placed(less)[key]
        == placed(entries).remove(gone)[key] by {
        lemma_placed(entries, key);
        lemma_placed(less, key);
        let i = choose|i: int| 0 <= i < less.len() && (#[trigger] less[i]).0@ == key;
        let a = if i < at {
            i
        } else {
            i + 1
        };
        assert(entries[a] == less[i]);
    }
    assert(placed(less) =~= placed(entries).remove(gone));
}

/// The rectangle of the first key that has one.
pub open spec fn first_placed(keys: Seq<PlaceName>, placements: Map<PlaceName, Rect>) -> Option<
    Rect,
>
    decreases keys.len(),
{
    if keys.len() == 0 {
        None
    } else if placements.contains_key(keys[0]) {
        Some(placements[keys[0]])
    } else {
        first_placed(keys.drop_first(), placements)
    }
}

/// The keys of a window, most specific first.
pub open spec fn names_of(window: Window, shell: Seq<char>) -> Seq<PlaceName> {
    stacking::place_names(text::owned(window.app_id), text::owned(window.title), shell)
}

/// Where a window belongs: in the rectangle the shell asked for, or, where that is none,
/// on the whole output.
///
/// Title first: it names one window, and a placement by app id would otherwise drag every
/// window of that client into the same rectangle.
pub fn place(window: &Window, placements: &Placements, shell: &str) -> (r: Option<Rect>)
    requires
        placements.well_formed(),
    ensures
        r == first_placed(names_of(*window, shell@), placements@),
{
    let keys = stacking::place_key(window, shell);
    let ghost names = stacking::key_names(keys@);
    let mut at: usize = 0;
    assert(names.skip(0) == names);
    while at < keys.len()
        invariant
            at <= keys@.len(),
            placements.well_formed(),
            names == stacking::key_names(keys@),
            names == names_of(*window, shell@),
            first_placed(names, placements@) == first_placed(names.skip(at as int), placements@),
        decreases keys@.len() - at,
    {
        assert(names.skip(at as int)[0] == keys@[at as int]@);
        assert(names.skip(at as int).drop_first() == names.skip(at + 1));
        match placements.get(&keys[at]) {
            Some(rect) => return Some(rect),
            None => {},
        }
        at += 1;
    }
    None
}

/// Where each window goes once the output has another size: a window with a rectangle keeps
/// it, and only the others take the whole output.
pub fn after_mode(windows: &Vec<Window>, placements: &Placements, shell: &str) -> (r: Vec<
    Option<Rect>,
>)
    requires
        placements.well_formed(),
    ensures
        r@.len() == windows@.len(),
        forall|i: int|
            0 <= i < r@.len() ==> #[trigger] r@[i] == first_placed(
                names_of(windows@[i], shell@),
                placements@,
            ),
{
    let mut places: Vec<Option<Rect>> = Vec::new();
    let mut at: usize = 0;
    while at < windows.len()
        invariant
            at <= windows@.len(),
            placements.well_formed(),
            places@.len() == at,
            forall|i: int|
                0 <= i < at ==> #[trigger] places@[i] == first_placed(
                    names_of(windows@[i], shell@),
                    placements@,
                ),
        decreases windows@.len() - at,
    {
        places.push(place(&windows[at], placements, shell));
        at += 1;
    }
    places
}

/// The windows that a placement moves, by their place in the list.
pub open spec fn under_key(windows: Seq<Window>, key: PlaceName, shell: Seq<char>) -> Seq<usize>
    decreases windows.len(),
{
    if windows.len() == 0 {
        Seq::empty()
    } else {
        let front = under_key(windows.drop_last(), key, shell);
        if names_of(windows.last(), shell).contains(key) {
            front.push((windows.len() - 1) as usize)
        } else {
            front
        }
    }
}

/// Find the windows that a placement moves.
pub fn affected(windows: &Vec<Window>, key: &PlaceKey, shell: &str) -> (r: Vec<usize>)
    ensures
        r@ == under_key(windows@, key@, shell@),
        forall|i: int| 0 <= i < r@.len() ==> #[trigger] r@[i] < windows@.len(),
{
    let mut found: Vec<usize> = Vec::new();
    let mut at: usize = 0;
    assert(windows@.take(0) == Seq::<Window>::empty());
    while at < windows.len()
        invariant
            at <= windows@.len(),
            found@ == under_key(windows@.take(at as int), key@, shell@),
            forall|i: int| 0 <= i < found@.len() ==> #[trigger] found@[i] < at,
        decreases windows@.len() - at,
    {
        assert(windows@.take(at + 1).drop_last() == windows@.take(at as int));
        assert(windows@.take(at + 1).last() == windows@[at as int]);
        let keys = stacking::place_key(&windows[at], shell);
        if has_key(&keys, key) {
            found.push(at);
        }
        at += 1;
    }
    assert(windows@.take(windows@.len() as int) == windows@);
    found
}

fn has_key(keys: &Vec<PlaceKey>, key: &PlaceKey) -> (r: bool)
    ensures
        r == stacking::key_names(keys@).contains(key@),
{
    let ghost names = stacking::key_names(keys@);
    let mut at: usize = 0;
    while at < keys.len()
        invariant
            at <= keys@.len(),
            names == stacking::key_names(keys@),
            forall|i: int| 0 <= i < at ==> #[trigger] names[i] != key@,
        decreases keys@.len() - at,
    {
        assert(names[at as int] == keys@[at as int]@);
        if keys[at].same(key) {
            return true;
        }
        at += 1;
    }
    false
}

/// Set where the windows under a key go, and find where each of those that are there goes
/// now: in a rectangle, or on the whole output.
pub fn set_placement(
    placements: &mut Placements,
    windows: &Vec<Window>,
    key: PlaceKey,
    rect: Option<Rect>,
    shell: &str,
) -> (r: Vec<(usize, Option<Rect>)>)
    requires
        old(placements).well_formed(),
    ensures
        final(placements).well_formed(),
        final(placements)@ == (match rect {
            Some(rect) => old(placements)@.insert(key@, rect),
            None => old(placements)@.remove(key@),
        }),
        r@.len() == under_key(windows@, key@, shell@).len(),
        forall|i: int|
            0 <= i < r@.len() ==> {
                &&& (#[trigger] r@[i]).0 == under_key(windows@, key@, shell@)[i]
                &&& r@[i].1 == first_placed(
                    names_of(windows@[r@[i].0 as int], shell@),
                    final(placements)@,
                )
            },
{
    let moved = affected(windows, &key, shell);
    placements.set(key, rect);
    let mut places: Vec<(usize, Option<Rect>)> = Vec::new();
    let mut at: usize = 0;
    while at < moved.len()
        invariant
            at <= moved@.len(),
            placements.well_formed(),
            places@.len() == at,
            forall|i: int| 0 <= i < moved@.len() ==> #[trigger] moved@[i] < windows@.len(),
            forall|i: int|
                0 <= i < at ==> {
                    &&& (#[trigger] places@[i]).0 == moved@[i]
                    &&& places@[i].1 == first_placed(
                        names_of(windows@[places@[i].0 as int], shell@),
                        placements@,
                    )
                },
        decreases moved@.len() - at,
    {
        let which: usize = moved[at];
        places.push((which, place(&windows[which], placements, shell)));
        at += 1;
    }
    places
}

/// A placement that is set is where the windows go, until it is set anew or taken back;
/// no other windows are moved by it.
pub proof fn law_a_placement_holds(
    before: Map<PlaceName, Rect>,
    key: PlaceName,
    rect: Rect,
    keys: Seq<PlaceName>,
)
    ensures
        keys.len() > 0 && keys[0] == key ==> first_placed(keys, before.insert(key, rect)) == Some(
            rect,
        ),
        !keys.contains(key) ==> first_placed(keys, before.insert(key, rect)) == first_placed(
            keys,
            before,
        ),
        !keys.contains(key) ==> first_placed(keys, before.remove(key)) == first_placed(
            keys,
            before,
        ),
        before.insert(key, rect).remove(key) == before.remove(key),
    decreases keys.len(),
{
    if keys.len() > 0 {
        law_a_placement_holds(before, key, rect, keys.drop_first());
        if !keys.contains(key) {
            assert(keys[0] != key);
            assert forall|other: PlaceName| keys.drop_first().contains(other) implies keys.contains(
                other,
            ) by {
                let i = keys.drop_first().index_of(other);
                assert(keys[i + 1] == other);
            }
        }
    }
    assert(before.insert(key, rect).remove(key) =~= before.remove(key));
}

/// A size in pixels.
#[derive(Clone, Copy, Debug, PartialEq, Eq, Structural)]
pub struct Size {
    /// Width.
    pub w: i32,
    /// Height.
    pub h: i32,
}

/// A point in output pixels.
#[derive(Clone, Copy, Debug, PartialEq, Eq, Structural)]
pub struct Point {
    /// From the left.
    pub x: i32,
    /// From the top.
    pub y: i32,
}

/// What a toplevel is told next.
#[derive(Clone, Copy, Debug, PartialEq, Eq, Structural)]
pub struct Toplevel {
    /// How large to be, where it is told.
    pub size: Option<Size>,
    /// Whether it is fullscreen.
    pub fullscreen: bool,
    /// Whether it is active.
    pub activated: bool,
    /// Whether the compositor owns its decorations.
    pub decorated: bool,
    /// Whether it has had its first configure.
    pub configured: bool,
}

impl Toplevel {
    /// Put in a rectangle.
    pub open spec fn in_rect(self, size: Size) -> Toplevel {
        Toplevel { size: Some(size), fullscreen: false, ..self }
    }

    /// Put on the whole output.
    pub open spec fn on_output(self, size: Size) -> Toplevel {
        Toplevel { size: Some(size), fullscreen: true, activated: true, ..self }
    }

    /// Whether it has that size and is fullscreen, or is not.
    pub open spec fn is_already(self, size: Size, fullscreen: bool) -> bool {
        self.size == Some(size) && self.fullscreen == fullscreen
    }

    /// Put a window in a rectangle, and do not activate it: the shell's UI stays in front
    /// and keeps the remote, which is the whole point of a small player. Returns whether
    /// the client has to be told.
    pub fn place_at(&mut self, size: Size) -> (r: bool)
        ensures
            *final(self) == old(self).in_rect(size),
            r == (!old(self).is_already(size, false) && old(self).configured),
    {
        let already: bool = self.size == Some(size) && !self.fullscreen;
        self.size = Some(size);
        self.fullscreen = false;
        !already && self.configured
    }

    /// Put a window on the output at its full size. Returns whether the client has to be
    /// told.
    pub fn fullscreen(&mut self, size: Size) -> (r: bool)
        ensures
            *final(self) == old(self).on_output(size),
            r == (!old(self).is_already(size, true) && old(self).configured),
    {
        let already: bool = self.size == Some(size) && self.fullscreen;
        self.size = Some(size);
        self.fullscreen = true;
        self.activated = true;
        !already && self.configured
    }

    /// Tell a toplevel the compositor owns its decorations, whatever it asked for.
    /// Returns whether the client has to be told.
    pub fn decorate(&mut self) -> (r: bool)
        ensures
            *final(self) == (Toplevel { decorated: true, ..*old(self) }),
            r == old(self).configured,
    {
        self.decorated = true;
        self.configured
    }
}

/// Placing is reached from every commit: a window that is where it belongs already is told
/// nothing.
pub proof fn law_a_window_in_its_place_is_told_nothing(toplevel: Toplevel, size: Size)
    ensures
        toplevel.in_rect(size).is_already(size, false),
        toplevel.in_rect(size).in_rect(size) == toplevel.in_rect(size),
        toplevel.on_output(size).is_already(size, true),
        toplevel.on_output(size).on_output(size) == toplevel.on_output(size),
{
}

/// Whether a window has to be mapped to go somewhere: only where it is not there already.
///
/// Mapping puts a window at the end of the order that the keyboard reads too, and placing
/// is reached from every commit - so two windows that are both drawing would swap places
/// in that order at frame rate.
pub fn map_at(current: Option<Point>, wanted: Point) -> (r: bool)
    ensures
        r == (current != Some(wanted)),
{
    match current {
        Some(there) => there != wanted,
        None => true,
    }
}

/// Whether a surface is waiting for its first configure. `sent` is whether it has had
/// one, where anything is known of it.
pub fn needs_first_configure(sent: Option<bool>) -> (r: bool)
    ensures
        r == (sent == Some(false)),
{
    match sent {
        Some(sent) => !sent,
        None => false,
    }
}

/// What follows a commit.
#[derive(Clone, Copy, Debug, PartialEq, Eq, Structural)]
pub struct AfterCommit {
    /// Put the window where it belongs.
    pub place: bool,
    /// Give the keyboard to whatever should have it now.
    pub refocus: bool,
    /// Send the first configure the surface is waiting for, and draw.
    pub redraw: bool,
}

/// What follows a commit. `window` says of the surface's window, where it belongs to one,
/// whether it is on screen.
///
/// A subsurface's commit is applied with its parent's. A window is placed only once the
/// client has mapped it: forcing a size in the first configure makes a client resize before
/// it has configured its video. Being on screen is what decides which window may hold the
/// keyboard, so that is settled here too.
pub fn on_commit(sync_subsurface: bool, window: Option<bool>) -> (r: AfterCommit)
    ensures
        r.place == (!sync_subsurface && window == Some(true)),
        r.refocus == (!sync_subsurface && window is Some),
        r.redraw == !sync_subsurface,
{
    if sync_subsurface {
        return AfterCommit { place: false, refocus: false, redraw: false };
    }
    match window {
        Some(mapped) => AfterCommit { place: mapped, refocus: true, redraw: true },
        None => AfterCommit { place: false, refocus: false, redraw: true },
    }
}

/// Surfaces asking the box to stay awake, by their ids. A game or a film says so here, and
/// the shell can ask over the control socket rather than guessing from what is on screen.
pub struct Inhibitors {
    /// Each surface once.
    pub surfaces: Vec<u64>,
}

/// Those of some surfaces that are among others, in order.
pub open spec fn among(surfaces: Seq<u64>, others: Seq<u64>) -> Seq<u64>
    decreases surfaces.len(),
{
    if surfaces.len() == 0 {
        Seq::empty()
    } else if others.contains(surfaces.last()) {
        among(surfaces.drop_last(), others).push(surfaces.last())
    } else {
        among(surfaces.drop_last(), others)
    }
}

/// Some surfaces without one of them, in order.
pub open spec fn without(surfaces: Seq<u64>, surface: u64) -> Seq<u64>
    decreases surfaces.len(),
{
    if surfaces.len() == 0 {
        Seq::empty()
    } else if surfaces.last() != surface {
        without(surfaces.drop_last(), surface).push(surfaces.last())
    } else {
        without(surfaces.drop_last(), surface)
    }
}

fn contains(list: &Vec<u64>, id: u64) -> (r: bool)
    ensures
        r == list@.contains(id),
{
    let mut at: usize = 0;
    while at < list.len()
        invariant
            at <= list@.len(),
            forall|i: int| 0 <= i < at ==> list@[i] != id,
        decreases list@.len() - at,
    {
        if list[at] == id {
            return true;
        }
        at += 1;
    }
    false
}

impl Inhibitors {
    /// Nothing asks the box to stay awake.
    pub fn new() -> (r: Inhibitors)
        ensures
            r.surfaces@ == Seq::<u64>::empty(),
    {
        Inhibitors { surfaces: Vec::new() }
    }

    /// A surface asks the box to stay awake.
    pub fn inhibit(&mut self, surface: u64)
        ensures
            final(self).surfaces@ == (if old(self).surfaces@.contains(surface) {
                old(self).surfaces@
            } else {
                old(self).surfaces@.push(surface)
            }),
    {
        if !contains(&self.surfaces, surface) {
            self.surfaces.push(surface);
        }
    }

    /// A surface no longer asks.
    pub fn uninhibit(&mut self, surface: u64)
        ensures
            final(self).surfaces@ == without(old(self).surfaces@, surface),
    {
        let ghost before = self.surfaces@;
        let mut kept: Vec<u64> = Vec::new();
        let mut at: usize = 0;
        assert(before.take(0) == Seq::<u64>::empty());
        while at < self.surfaces.len()
            invariant
                at <= self.surfaces@.len(),
                self.surfaces@ == before,
                kept@ == without(before.take(at as int), surface),
            decreases self.surfaces@.len() - at,
        {
            assert(before.take(at + 1).drop_last() == before.take(at as int));
            if self.surfaces[at] != surface {
                kept.push(self.surfaces[at]);
            }
            at += 1;
        }
        assert(before.take(before.len() as int) == before);
        self.surfaces = kept;
    }

    /// Is anything asking the box to stay awake? Surfaces that are gone are dropped here
    /// rather than when they go: a client that exits without releasing its inhibitor - a
    /// crash, a kill - would otherwise hold it for the session.
    pub fn idle_inhibited(&mut self, alive: &Vec<u64>) -> (r: bool)
        ensures
            final(self).surfaces@ == among(old(self).surfaces@, alive@),
            r == (among(old(self).surfaces@, alive@).len() > 0),
    {
        let ghost before = self.surfaces@;
        let mut kept: Vec<u64> = Vec::new();
        let mut at: usize = 0;
        assert(before.take(0) == Seq::<u64>::empty());
        while at < self.surfaces.len()
            invariant
                at <= self.surfaces@.len(),
                self.surfaces@ == before,
                kept@ == among(before.take(at as int), alive@),
            decreases self.surfaces@.len() - at,
        {
            assert(before.take(at + 1).drop_last() == before.take(at as int));
            if contains(alive, self.surfaces[at]) {
                kept.push(self.surfaces[at]);
            }
            at += 1;
        }
        assert(before.take(before.len() as int) == before);
        self.surfaces = kept;
        self.surfaces.len() > 0
    }
}

/// The box stays awake exactly as long as a surface that is still there asks for it.
pub proof fn law_only_the_living_keep_the_box_awake(surfaces: Seq<u64>, alive: Seq<u64>)
    ensures
        among(surfaces, alive).len() > 0 <==> exists|i: int|
            0 <= i < surfaces.len() && alive.contains(#[trigger] surfaces[i]),
    decreases surfaces.len(),
{
    if surfaces.len() > 0 {
        let front = surfaces.drop_last();
        law_only_the_living_keep_the_box_awake(front, alive);
        if among(front, alive).len() > 0 {
            let i = choose|i: int| 0 <= i < front.len() && alive.contains(#[trigger] front[i]);
            assert(alive.contains(surfaces[i]));
        }
        if alive.contains(surfaces.last()) {
            assert(alive.contains(surfaces[surfaces.len() - 1]));
        }
        if exists|i: int| 0 <= i < surfaces.len() && alive.contains(#[trigger] surfaces[i]) {
            let i = choose|i: int| 0 <= i < surfaces.len() && alive.contains(#[trigger] surfaces[i]);
            if i < front.len() {
                assert(alive.contains(front[i]));
            }
        }
    }
}

/// A surface that no longer asks is gone, and no other is.
pub proof fn law_a_released_inhibitor_is_gone(surfaces: Seq<u64>, surface: u64, other: u64)
    ensures
        without(surfaces, surface).contains(other) <==> surfaces.contains(other) && other
            != surface,
    decreases surfaces.len(),
{
    if surfaces.len() > 0 {
        let front = surfaces.drop_last();
        law_a_released_inhibitor_is_gone(front, surface, other);
        let less = without(front, surface);
        if front.contains(other) {
            let i = front.index_of(other);
            assert(surfaces[i] == other);
        }
        if surfaces.contains(other) && other != surfaces.last() {
            let i = surfaces.index_of(other);
            assert(front[i] == other);
        }
        if surfaces.last() == other {
            assert(surfaces[surfaces.len() - 1] == other);
        }
        if less.contains(other) {
            let i = less.index_of(other);
            assert(without(surfaces, surface)[i] == other);
        }
        if surfaces.last() != surface {
            let longer = less.push(surfaces.last());
            assert(longer[less.len() as int] == surfaces.last());
            if longer.contains(other) && other != surfaces.last() {
                let i = longer.index_of(other);
                assert(less[i] == other);
            }
        }
    }
}

/// Who should have the keyboard.
#[derive(Clone, Copy, Debug, PartialEq, Eq, Structural)]
pub enum Holder {
    /// A layer surface, by its place in the list.
    Layer(usize),
    /// A window, by its place in the list.
    Window(usize),
    /// Nobody.
    Nobody,
}

/// The last of some layer surfaces that asks for the keyboard.
pub open spec fn last_asking(layers: Seq<bool>) -> Option<nat>
    decreases layers.len(),
{
    if layers.len() == 0 {
        None
    } else if layers.last() {
        Some((layers.len() - 1) as nat)
    } else {
        last_asking(layers.drop_last())
    }
}

/// Who should have the keyboard: the topmost layer surface that asked for it, otherwise
/// the frontmost window. `layers` says of each layer surface whether it asks.
pub fn keyboard_target(layers: &Vec<bool>, windows: &Vec<Window>, names: &Names) -> (r: Holder)
    ensures
        match last_asking(layers@) {
            Some(at) => r == Holder::Layer(at as usize) && at < layers@.len(),
            None => match stacking::keyboard_holder(stacking::contenders(windows@, *names)) {
                Some(at) => r == Holder::Window(at),
                None => r == Holder::Nobody,
            },
        },
        match r {
            Holder::Layer(at) => {
                &&& at < layers@.len() && layers@[at as int]
                &&& forall|i: int| at < i < layers@.len() ==> !(#[trigger] layers@[i])
            },
            Holder::Window(at) => {
                &&& forall|i: int| 0 <= i < layers@.len() ==> !(#[trigger] layers@[i])
                &&& stacking::answers_the_remote(windows@, *names, Some(at))
            },
            Holder::Nobody => {
                &&& forall|i: int| 0 <= i < layers@.len() ==> !(#[trigger] layers@[i])
                &&& stacking::answers_the_remote(windows@, *names, None)
            },
        },
{
    proof {
        law_the_topmost_layer_that_asks_gets_the_keyboard(layers@);
    }
    let mut end: usize = layers.len();
    assert(layers@.take(layers@.len() as int) == layers@);
    while end > 0
        invariant
            end <= layers@.len(),
            forall|i: int| end <= i < layers@.len() ==> !(#[trigger] layers@[i]),
            last_asking(layers@) == last_asking(layers@.take(end as int)),
        decreases end,
    {
        assert(layers@.take(end as int).drop_last() == layers@.take(end - 1));
        if layers[end - 1] {
            return Holder::Layer(end - 1);
        }
        end -= 1;
    }
    match stacking::topmost(windows, names) {
        Some(at) => Holder::Window(at),
        None => Holder::Nobody,
    }
}

/// Whether the keyboard changes hands. Asked on every commit, so it is silence where the
/// answer has not changed: handing the focus out again takes the text input through leave
/// and enter, which throws away the state a client had built on it.
pub fn focus_changes(current: Option<u64>, target: Option<u64>) -> (r: bool)
    ensures
        r == (current != target),
{
    match (current, target) {
        (Some(a), Some(b)) => a != b,
        (None, None) => false,
        _ => true,
    }
}

/// What the pointer finds among the layer surfaces on one side of the windows.
pub enum Under<T> {
    /// No layer surface is there.
    Nothing,
    /// A layer surface is there that has no place on the output.
    Unplaced,
    /// A layer surface is there, and lets the pointer through.
    Through,
    /// A layer surface is there and takes the pointer.
    Surface(T),
}

/// The first of some windows that takes the pointer.
pub open spec fn first_hit<T>(windows: Seq<Option<T>>) -> Option<T>
    decreases windows.len(),
{
    if windows.len() == 0 {
        None
    } else if windows[0] is Some {
        windows[0]
    } else {
        first_hit(windows.drop_first())
    }
}

/// What the pointer is on: the layers above the windows are asked first - that is where
/// the shell's UI lives - then the windows, then the layers below them.
pub open spec fn pointed_at<T>(
    upper: Under<T>,
    windows: Seq<Option<T>>,
    lower: Under<T>,
) -> Option<T> {
    match upper {
        Under::Surface(surface) => Some(surface),
        Under::Unplaced => None,
        _ => match first_hit(windows) {
            Some(surface) => Some(surface),
            None => match lower {
                Under::Surface(surface) => Some(surface),
                _ => None,
            },
        },
    }
}

/// Find what the pointer is on. `windows` says of each window, front to back, which of its
/// surfaces the pointer is on.
pub fn surface_under<T>(upper: Under<T>, windows: Vec<Option<T>>, lower: Under<T>) -> (r: Option<
    T,
>)
    ensures
        r == pointed_at(upper, windows@, lower),
{
    match upper {
        Under::Surface(surface) => return Some(surface),
        Under::Unplaced => return None,
        Under::Nothing => {},
        Under::Through => {},
    }
    let mut rest = windows;
    while rest.len() > 0
        invariant
            first_hit(windows@) == first_hit(rest@),
            upper is Nothing || upper is Through,
        decreases rest@.len(),
    {
        let ghost before = rest@;
        let hit = rest.remove(0);
        assert(rest@ == before.drop_first());
        if hit.is_some() {
            return hit;
        }
    }
    match lower {
        Under::Surface(surface) => Some(surface),
        _ => None,
    }
}

/// The windows front to back, each by its place in the list: the pointer must land on the
/// shell's UI even when a film mapped after it.
pub fn front_to_back(windows: &Vec<Window>, names: &Names) -> (r: Vec<usize>)
    ensures
        r@ == stacking::back_to_front(stacking::ranked(windows@, *names)).map_values(
            |w: (usize, stacking::Rank)| w.0,
        ).reverse(),
        forall|i: int| 0 <= i < r@.len() ==> #[trigger] r@[i] < windows@.len(),
        r@.len() == windows@.len(),
        forall|a: int, b: int|
            0 <= a < b < r@.len() ==> {
                let upper = #[trigger] r@[a];
                let lower = #[trigger] r@[b];
                ||| stacking::height(windows@[lower as int], *names) < stacking::height(
                    windows@[upper as int],
                    *names,
                )
                ||| stacking::height(windows@[lower as int], *names) == stacking::height(
                    windows@[upper as int],
                    *names,
                ) && lower < upper
            },
{
    let stack = stacking::stacked(windows, names);
    let mut order: Vec<usize> = Vec::new();
    let mut at: usize = stack.len();
    while at > 0
        invariant
            at <= stack@.len(),
            order@.len() == stack@.len() - at,
            forall|i: int| 0 <= i < order@.len() ==> #[trigger] order@[i] == stack@[stack@.len() - 1 - i],
        decreases at,
    {
        at -= 1;
        order.push(stack[at]);
    }
    assert(order@ == stack@.reverse());
    order
}

/// Where a window goes: a shell window in the rectangle for its title, else in the one for its
/// app id; any other window in the one for its app id alone, whatever its title; and on the
/// whole output where there is no such rectangle.
pub proof fn law_a_window_goes_where_it_was_placed(
    window: Window,
    shell: Seq<char>,
    placements: Map<PlaceName, Rect>,
)
    ensures
        ({
            let place = first_placed(names_of(window, shell), placements);
            match text::owned(window.app_id) {
                None => place is None,
                Some(id) => {
                    let by_id = PlaceName::AppId(id);
                    let by_title = PlaceName::Title(text::owned(window.title)->0);
                    if id == shell && window.title is Some && placements.contains_key(by_title) {
                        place == Some(placements[by_title])
                    } else if placements.contains_key(by_id) {
                        place == Some(placements[by_id])
                    } else {
                        place is None
                    }
                },
            }
        }),
{
    reveal_with_fuel(first_placed, 3);
    let names = names_of(window, shell);
    if names.len() == 2 {
        assert(names.drop_first() =~= seq![names[1]]);
        assert(names.drop_first().drop_first() =~= Seq::empty());
    } else if names.len() == 1 {
        assert(names.drop_first() =~= Seq::empty());
    }
}

/// A placement moves exactly the windows that can be placed by its key, in the order of the
/// list: those of the app it names, or the shell's window with that title.
pub proof fn law_a_placement_moves_the_windows_it_names(
    windows: Seq<Window>,
    key: PlaceName,
    shell: Seq<char>,
)
    requires
        windows.len() <= usize::MAX,
    ensures
        forall|i: int|
            #![trigger windows[i]]
            0 <= i < windows.len() ==> (under_key(windows, key, shell).contains(i as usize)
                <==> match key {
                PlaceName::AppId(id) => text::owned(windows[i].app_id) == Some(id),
                PlaceName::Title(name) => text::owned(windows[i].app_id) == Some(shell)
                    && text::owned(windows[i].title) == Some(name),
            }),
        forall|a: int|
            0 <= a < under_key(windows, key, shell).len() ==> #[trigger] under_key(
                windows,
                key,
                shell,
            )[a] < windows.len(),
        forall|a: int, b: int|
            0 <= a < b < under_key(windows, key, shell).len() ==> #[trigger] under_key(
                windows,
                key,
                shell,
            )[a] < #[trigger] under_key(windows, key, shell)[b],
    decreases windows.len(),
{
    if windows.len() > 0 {
        let front = windows.drop_last();
        let last = (windows.len() - 1) as usize;
        law_a_placement_moves_the_windows_it_names(front, key, shell);
        stacking::law_what_a_window_is_placed_by(
            text::owned(windows.last().app_id),
            text::owned(windows.last().title),
            shell,
            key,
        );
        let fewer = under_key(front, key, shell);
        let all = under_key(windows, key, shell);
        assert forall|a: int| 0 <= a < all.len() implies #[trigger] all[a] < windows.len() by {
            if a < fewer.len() {
                assert(all[a] == fewer[a]);
            }
        }
        assert forall|a: int, b: int| 0 <= a < b < all.len() implies #[trigger] all[a]
            < #[trigger] all[b] by {
            assert(all[a] == fewer[a]);
            if b < fewer.len() {
                assert(all[b] == fewer[b]);
            }
        }
        assert forall|i: int|
            #![trigger windows[i]]
            0 <= i < windows.len() implies (all.contains(i as usize) <==> match key {
            PlaceName::AppId(id) => text::owned(windows[i].app_id) == Some(id),
            PlaceName::Title(name) => text::owned(windows[i].app_id) == Some(shell) && text::owned(
                windows[i].title,
            ) == Some(name),
        }) by {
            if i < front.len() {
                assert(front[i] == windows[i]);
                if fewer.contains(i as usize) {
                    let a = fewer.index_of(i as usize);
                    assert(all[a] == i as usize);
                }
                if all.contains(i as usize) {
                    let a = all.index_of(i as usize);
                    if a < fewer.len() {
                        assert(fewer[a] == i as usize);
                    }
                }
            } else {
                if all.contains(last) {
                    let a = all.index_of(last);
                    if a < fewer.len() {
                        assert(fewer[a] == last);
                    }
                }
                if names_of(windows.last(), shell).contains(key) {
                    assert(all[all.len() - 1] == last);
                }
            }
        }
    }
}

/// What entries say of a key is what the one entry with that key says.
pub proof fn law_an_entry_is_found_under_its_key(entries: Seq<(PlaceKey, Rect)>, at: int)
    requires
        keys_differ(entries),
        0 <= at < entries.len(),
    ensures
        placed(entries).contains_key(entries[at].0@),
        placed(entries)[entries[at].0@] == entries[at].1,
{
    lemma_placed(entries, entries[at].0@);
}

/// A window that is put in a rectangle is told its size and that it is not fullscreen, and is
/// not activated by it; one that is put on the output is told its size, that it is fullscreen
/// and active; and neither changes its decorations or what it was configured with.
pub proof fn law_what_a_window_is_told(toplevel: Toplevel, size: Size, other: Size, full: bool)
    ensures
        toplevel.in_rect(size).size == Some(size),
        !toplevel.in_rect(size).fullscreen,
        toplevel.in_rect(size).activated == toplevel.activated,
        toplevel.in_rect(size).decorated == toplevel.decorated,
        toplevel.in_rect(size).configured == toplevel.configured,
        toplevel.on_output(size).size == Some(size),
        toplevel.on_output(size).fullscreen,
        toplevel.on_output(size).activated,
        toplevel.on_output(size).decorated == toplevel.decorated,
        toplevel.on_output(size).configured == toplevel.configured,
        toplevel.is_already(size, full) <==> toplevel.size == Some(size) && toplevel.fullscreen
            == full,
        !toplevel.in_rect(size).is_already(size, true),
        !toplevel.on_output(size).is_already(size, false),
        size != other ==> !toplevel.in_rect(size).is_already(other, false),
{
}

/// The surfaces that keep asking are those that asked before and are still there, in order and
/// as often.
pub proof fn law_who_is_gone_no_longer_asks(surfaces: Seq<u64>, alive: Seq<u64>, surface: u64)
    ensures
        among(surfaces, alive).contains(surface) <==> surfaces.contains(surface) && alive.contains(
            surface,
        ),
        (forall|i: int| 0 <= i < surfaces.len() ==> alive.contains(#[trigger] surfaces[i])) ==> among(
            surfaces,
            alive,
        ) == surfaces,
        surfaces.no_duplicates() ==> among(surfaces, alive).no_duplicates(),
    decreases surfaces.len(),
{
    if surfaces.len() > 0 {
        let front = surfaces.drop_last();
        let last = surfaces.last();
        law_who_is_gone_no_longer_asks(front, alive, surface);
        law_who_is_gone_no_longer_asks(front, alive, last);
        let fewer = among(front, alive);
        let all = among(surfaces, alive);
        if front.contains(surface) {
            let i = front.index_of(surface);
            assert(surfaces[i] == surface);
        }
        if surfaces.contains(surface) && surface != last {
            let i = surfaces.index_of(surface);
            assert(front[i] == surface);
        }
        assert(surfaces[surfaces.len() - 1] == last);
        if fewer.contains(surface) {
            let i = fewer.index_of(surface);
            assert(all[i] == surface);
        }
        if alive.contains(last) {
            assert(all[all.len() - 1] == last);
            if all.contains(surface) && surface != last {
                let i = all.index_of(surface);
                assert(fewer[i] == surface);
            }
        }
        if forall|i: int| 0 <= i < surfaces.len() ==> alive.contains(#[trigger] surfaces[i]) {
            assert forall|i: int| 0 <= i < front.len() implies alive.contains(
                #[trigger] front[i],
            ) by {
                assert(front[i] == surfaces[i]);
            }
            assert(front.push(last) == surfaces);
        }
        if surfaces.no_duplicates() {
            assert(front.no_duplicates()) by {
                assert forall|i: int, j: int|
                    0 <= i < front.len() && 0 <= j < front.len() && i != j implies front[i]
                    != front[j] by {
                    assert(surfaces[i] != surfaces[j]);
                }
            }
            if alive.contains(last) {
                assert(!front.contains(last)) by {
                    if front.contains(last) {
                        let i = front.index_of(last);
                        assert(surfaces[i] == surfaces[surfaces.len() - 1]);
                    }
                }
                assert forall|i: int, j: int|
                    0 <= i < all.len() && 0 <= j < all.len() && i != j implies all[i] != all[j] by {
                    if i < fewer.len() && j < fewer.len() {
                        assert(fewer[i] != fewer[j]);
                    } else if i < fewer.len() {
                        assert(fewer.contains(fewer[i]));
                    } else {
                        assert(fewer.contains(fewer[j]));
                    }
                }
            }
        }
    }
}

/// The keyboard goes to the topmost layer surface that asks for it: it asks, and none above it
/// does; and to a window only where no layer surface asks.
pub proof fn law_the_topmost_layer_that_asks_gets_the_keyboard(layers: Seq<bool>)
    ensures
        match last_asking(layers) {
            Some(at) => {
                &&& at < layers.len()
                &&& layers[at as int]
                &&& forall|i: int| at < i < layers.len() ==> !(#[trigger] layers[i])
            },
            None => forall|i: int| 0 <= i < layers.len() ==> !(#[trigger] layers[i]),
        },
    decreases layers.len(),
{
    if layers.len() > 0 && !layers.last() {
        let front = layers.drop_last();
        law_the_topmost_layer_that_asks_gets_the_keyboard(front);
        assert forall|i: int|
            (match last_asking(layers) {
                Some(at) => at as int,
                None => -1,
            }) < i < layers.len() implies !(#[trigger] layers[i]) by {
            if i < front.len() {
                assert(front[i] == layers[i]);
            }
        }
        if let Some(at) = last_asking(layers) {
            assert(front[at as int] == layers[at as int]);
        }
    }
}

/// The pointer is on the first window, from the front, that takes it.
pub proof fn law_the_frontmost_window_takes_the_pointer<T>(windows: Seq<Option<T>>)
    ensures
        first_hit(windows) is None <==> forall|i: int|
            0 <= i < windows.len() ==> (#[trigger] windows[i]) is None,
        forall|at: int|
            0 <= at < windows.len() && (#[trigger] windows[at]) is Some && (forall|i: int|
                0 <= i < at ==> (#[trigger] windows[i]) is None) ==> first_hit(windows)
                == windows[at],
    decreases windows.len(),
{
    if windows.len() > 0 && windows[0] is None {
        let rest = windows.drop_first();
        law_the_frontmost_window_takes_the_pointer(rest);
        if first_hit(windows) is None {
            assert forall|i: int| 0 <= i < windows.len() implies (#[trigger] windows[i]) is None by {
                if i > 0 {
                    assert(rest[i - 1] == windows[i]);
                }
            }
        }
        if forall|i: int| 0 <= i < windows.len() ==> (#[trigger] windows[i]) is None {
            assert forall|i: int| 0 <= i < rest.len() implies (#[trigger] rest[i]) is None by {
                assert(rest[i] == windows[i + 1]);
            }
        }
        assert forall|at: int|
            0 <= at < windows.len() && (#[trigger] windows[at]) is Some && (forall|i: int|
                0 <= i < at ==> (#[trigger] windows[i]) is None) implies first_hit(windows)
            == windows[at] by {
            assert(rest[at - 1] == windows[at]);
            assert forall|i: int| 0 <= i < at - 1 implies (#[trigger] rest[i]) is None by {
                assert(rest[i] == windows[i + 1]);
            }
        }
    }
}

/// The pointer is on an upper layer where one takes it, else on a window, else on a lower
/// layer; an upper layer that has no place keeps it from everything below.
pub proof fn law_the_upper_layers_are_asked_first<T>(
    upper: Under<T>,
    windows: Seq<Option<T>>,
    lower: Under<T>,
)
    ensures
        upper matches Under::Surface(surface) ==> pointed_at(upper, windows, lower) == Some(
            surface,
        ),
        upper is Unplaced ==> pointed_at(upper, windows, lower) is None,
        upper is Nothing || upper is Through ==> {
            &&& first_hit(windows) is Some ==> pointed_at(upper, windows, lower) == first_hit(
                windows,
            )
            &&& first_hit(windows) is None ==> match lower {
                Under::Surface(surface) => pointed_at(upper, windows, lower) == Some(surface),
                _ => pointed_at(upper, windows, lower) is None,
            }
        },
{
}

/// A commit moves the keyboard only where it belongs to a window, places one only once it is on
/// screen, and is drawn unless it waits for its parent's.
pub proof fn law_what_a_commit_brings(sync: bool, window: Option<bool>, after: AfterCommit)
    requires
        call_ensures(on_commit, (sync, window), after),
    ensures
        after.redraw != sync,
        after.place ==> after.refocus && after.redraw,
        after.refocus <==> !sync && window is Some,
        after.place <==> !sync && window == Some(true),
{
}

/// Nothing is done anew where nothing changed: a window that is where it goes is not mapped, a
/// keyboard that is where it belongs does not move, and a surface is configured first once.
pub proof fn law_nothing_is_done_twice(
    there: Option<Point>,
    wanted: Point,
    holder: Option<u64>,
    target: Option<u64>,
    sent: Option<bool>,
    mapped: bool,
    moved: bool,
    configured: bool,
)
    requires
        call_ensures(map_at, (there, wanted), mapped),
        call_ensures(focus_changes, (holder, target), moved),
        call_ensures(needs_first_configure, (sent,), configured),
    ensures
        mapped <==> there is None || there->0.x != wanted.x || there->0.y != wanted.y,
        moved <==> holder != target,
        configured <==> sent == Some(false),
{
}

}
