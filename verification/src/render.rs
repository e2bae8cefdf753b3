//! Building the list of things to put on the screen.
//!
//! The list is front to back, which is also the order the DRM compositor walks when
//! it hands elements to hardware planes. That ordering is the whole policy: the
//! shell's UI comes first and takes an overlay plane, and the fullscreen window below
//! it - a film, usually - is left to take the primary plane untouched.

use vstd::prelude::*;
use crate::stacking;
use crate::stacking::{Names, Rank, Window};

verus! {

/// Where a layer surface belongs, from the back to the front.
#[derive(Debug, Clone, Copy, PartialEq, Eq, Structural)]
pub enum Layer {
    /// Behind everything.
    Background,
    /// Behind the windows.
    Bottom,
    /// In front of the windows.
    Top,
    /// In front of everything.
    Overlay,
}

/// What the scene reads of a layer surface.
#[derive(Debug, Clone, Copy, PartialEq, Eq, Structural)]
pub struct LayerSurface {
    /// Where it belongs.
    pub layer: Layer,
    /// Whether it has a place on the output.
    pub placed: bool,
}

/// One thing in the scene.
#[derive(Debug, Clone, Copy, PartialEq, Eq, Structural)]
pub enum Item {
    /// The pointer.
    Cursor,
    /// A layer surface, by its place in the list.
    Layer(usize),
    /// A window, by its place in the list.
    Window(usize),
}

/// Those of the first few layer surfaces that belong to a layer and have a place, the
/// last one first.
pub open spec fn layer_group(layers: Seq<LayerSurface>, layer: Layer, count: nat) -> Seq<Item>
    decreases count,
{
    if count == 0 {
        Seq::empty()
    } else {
        let last = (count - 1) as nat;
        let more = layer_group(layers, layer, last);
        if layers[last as int].layer == layer && layers[last as int].placed {
            seq![Item::Layer(last as usize)] + more
        } else {
            more
        }
    }
}

/// Those of the first few windows of a stack that can be shown, the last one first.
pub open spec fn window_group(stack: Seq<usize>, shown: Seq<bool>, count: nat) -> Seq<Item>
    decreases count,
{
    if count == 0 {
        Seq::empty()
    } else {
        let last = (count - 1) as nat;
        let more = window_group(stack, shown, last);
        if is_shown(shown, stack[last as int]) {
            seq![Item::Window(stack[last as int])] + more
        } else {
            more
        }
    }
}

/// Whether a window can be shown: it has a surface and a place.
pub open spec fn is_shown(shown: Seq<bool>, window: usize) -> bool {
    window < shown.len() && shown[window as int]
}

/// The pointer, where it is drawn.
pub open spec fn pointer_group(pointer: bool) -> Seq<Item> {
    if pointer {
        seq![Item::Cursor]
    } else {
        Seq::empty()
    }
}

/// The scene, front to back: the pointer, the layers above the windows, the windows as
/// they are stacked, and the layers below them.
pub open spec fn scene(
    pointer: bool,
    layers: Seq<LayerSurface>,
    stack: Seq<usize>,
    shown: Seq<bool>,
) -> Seq<Item> {
    pointer_group(pointer) + layer_group(layers, Layer::Overlay, layers.len()) + layer_group(
        layers,
        Layer::Top,
        layers.len(),
    ) + window_group(stack, shown, stack.len()) + layer_group(layers, Layer::Bottom, layers.len())
        + layer_group(layers, Layer::Background, layers.len())
}

fn push_layer_group(items: &mut Vec<Item>, layers: &Vec<LayerSurface>, layer: Layer)
    ensures
        final(items)@ == old(items)@ + layer_group(layers@, layer, layers@.len()),
{
    let ghost before = items@;
    let mut at: usize = layers.len();
    assert(items@ + layer_group(layers@, layer, at as nat) == before + layer_group(
        layers@,
        layer,
        layers@.len(),
    ));
    while at > 0
        invariant
            at <= layers@.len(),
            items@ + layer_group(layers@, layer, at as nat) == before + layer_group(
                layers@,
                layer,
                layers@.len(),
            ),
        decreases at,
    {
        let ghost so_far = items@;
        at -= 1;
        if layers[at].layer == layer && layers[at].placed {
            items.push(Item::Layer(at));
            assert(items@ + layer_group(layers@, layer, at as nat) == so_far + (
            seq![Item::Layer(at)] + layer_group(layers@, layer, at as nat)));
        }
    }
    assert(items@ + Seq::<Item>::empty() == items@);
}

/// The elements to render, front to back. `shown` says of each window whether it has a
/// surface and a place.
pub fn elements(
    pointer: bool,
    layers: &Vec<LayerSurface>,
    windows: &Vec<Window>,
    names: &Names,
    shown: &Vec<bool>,
) -> (r: Vec<Item>)
    ensures
        r@ == scene(
            pointer,
            layers@,
            stacking::back_to_front(stacking::ranked(windows@, *names)).map_values(
                |w: (usize, Rank)| w.0,
            ),
            shown@,
        ),
        forall|front: int, back: int|
            0 <= front < back < r@.len() ==> match (#[trigger] r@[front], #[trigger] r@[back]) {
                (Item::Window(upper), Item::Window(lower)) => {
                    ||| stacking::height(windows@[lower as int], *names) < stacking::height(
                        windows@[upper as int],
                        *names,
                    )
                    ||| stacking::height(windows@[lower as int], *names) == stacking::height(
                        windows@[upper as int],
                        *names,
                    ) && lower < upper
                },
                (upper, lower) => depth(upper, layers@) <= depth(lower, layers@),
            },
        forall|i: int|
            0 <= i < r@.len() ==> match #[trigger] r@[i] {
                Item::Cursor => pointer && i == 0,
                Item::Layer(at) => at < layers@.len() && layers@[at as int].placed,
                Item::Window(at) => at < windows@.len() && at < shown@.len() && shown@[at as int],
            },
        pointer ==> r@.contains(Item::Cursor),
        forall|at: usize|
            at < layers@.len() && (#[trigger] layers@[at as int]).placed ==> r@.contains(
                Item::Layer(at),
            ),
        forall|at: usize|
            at < windows@.len() && at < shown@.len() && #[trigger] shown@[at as int] ==> r@.contains(
                Item::Window(at),
            ),
{
    let mut items: Vec<Item> = Vec::new();
    if pointer {
        items.push(Item::Cursor);
    }
    assert(items@ == pointer_group(pointer));
    push_layer_group(&mut items, layers, Layer::Overlay);
    push_layer_group(&mut items, layers, Layer::Top);
    let stack = stacking::stacked(windows, names);
    let ghost before = items@;
    let mut at: usize = stack.len();
    while at > 0
        invariant
            at <= stack@.len(),
            items@ + window_group(stack@, shown@, at as nat) == before + window_group(
                stack@,
                shown@,
                stack@.len(),
            ),
        decreases at,
    {
        let ghost so_far = items@;
        at -= 1;
        let window: usize = stack[at];
        if window < shown.len() && shown[window] {
            items.push(Item::Window(window));
            assert(items@ + window_group(stack@, shown@, at as nat) == so_far + (
            seq![Item::Window(window)] + window_group(stack@, shown@, at as nat)));
        }
    }
    assert(items@ + Seq::<Item>::empty() == items@);
    push_layer_group(&mut items, layers, Layer::Bottom);
    push_layer_group(&mut items, layers, Layer::Background);
    proof {
        assert(layers.len() <= usize::MAX);
        lemma_scene_of_stacked(pointer, layers@, windows@, *names, stack@, shown@);
    }
    items
}

/// The scene of some windows as they are stacked.
proof fn lemma_scene_of_stacked(
    pointer: bool,
    layers: Seq<LayerSurface>,
    windows: Seq<Window>,
    names: Names,
    stack: Seq<usize>,
    shown: Seq<bool>,
)
    requires
        layers.len() <= usize::MAX,
        stack.len() == windows.len(),
        forall|i: int| 0 <= i < stack.len() ==> #[trigger] stack[i] < windows.len(),
        forall|a: int, b: int|
            0 <= a < b < stack.len() ==> {
                let lower = #[trigger] stack[a];
                let upper = #[trigger] stack[b];
                ||| stacking::height(windows[lower as int], names) < stacking::height(
                    windows[upper as int],
                    names,
                )
                ||| stacking::height(windows[lower as int], names) == stacking::height(
                    windows[upper as int],
                    names,
                ) && lower < upper
            },
    ensures
        ({
            let all = scene(pointer, layers, stack, shown);
            &&& forall|front: int, back: int|
                0 <= front < back < all.len() ==> match (#[trigger] all[front], #[trigger] all[back]) {
                    (Item::Window(upper), Item::Window(lower)) => {
                        ||| stacking::height(windows[lower as int], names) < stacking::height(
                            windows[upper as int],
                            names,
                        )
                        ||| stacking::height(windows[lower as int], names) == stacking::height(
                            windows[upper as int],
                            names,
                        ) && lower < upper
                    },
                    (upper, lower) => depth(upper, layers) <= depth(lower, layers),
                }
            &&& forall|i: int|
                0 <= i < all.len() ==> match #[trigger] all[i] {
                    Item::Cursor => pointer && i == 0,
                    Item::Layer(at) => at < layers.len() && layers[at as int].placed,
                    Item::Window(at) => at < windows.len() && at < shown.len()
                        && shown[at as int],
                }
            &&& pointer ==> all.contains(Item::Cursor)
            &&& forall|at: usize|
                at < layers.len() && (#[trigger] layers[at as int]).placed ==> all.contains(
                    Item::Layer(at),
                )
            &&& forall|at: usize|
                at < windows.len() && at < shown.len() && #[trigger] shown[at as int]
                    ==> all.contains(Item::Window(at))
        }),
{
    let all = scene(pointer, layers, stack, shown);
    assert(stack.no_duplicates()) by {
        assert forall|i: int, j: int|
            0 <= i < stack.len() && 0 <= j < stack.len() && i != j implies stack[i] != stack[j] by {
            if i < j {
                assert(stack[i] != stack[j]);
            } else {
                assert(stack[j] != stack[i]);
            }
        }
    }
    assert forall|front: int, back: int| 0 <= front < back < all.len() implies match (
        #[trigger] all[front],
        #[trigger] all[back],
    ) {
        (Item::Window(upper), Item::Window(lower)) => {
            ||| stacking::height(windows[lower as int], names) < stacking::height(
                windows[upper as int],
                names,
            )
            ||| stacking::height(windows[lower as int], names) == stacking::height(
                windows[upper as int],
                names,
            ) && lower < upper
        },
        (upper, lower) => depth(upper, layers) <= depth(lower, layers),
    } by {
        law_the_scene_is_what_is_there(pointer, layers, stack, shown, front, back);
        law_the_scene_is_what_is_there(pointer, layers, stack, shown, back, back);
        law_the_scene_is_front_to_back(pointer, layers, stack, shown, front, back);
        if let (Item::Window(upper), Item::Window(lower)) = (all[front], all[back]) {
            let u = stack.index_of(upper);
            let l = stack.index_of(lower);
            assert(stack[u] == upper && stack[l] == lower);
        }
    }
    assert forall|i: int| 0 <= i < all.len() implies match #[trigger] all[i] {
        Item::Cursor => pointer && i == 0,
        Item::Layer(at) => at < layers.len() && layers[at as int].placed,
        Item::Window(at) => at < windows.len() && at < shown.len() && shown[at as int],
    } by {
        law_the_scene_is_what_is_there(pointer, layers, stack, shown, i, i);
        if let Item::Window(at) = all[i] {
            assert(stack[stack.index_of(at)] == at);
        }
    }
    law_the_scene_is_what_is_there(pointer, layers, stack, shown, 0, 0);
    if pointer {
        assert(all[0] == Item::Cursor);
    }
    law_nothing_is_left_out(pointer, layers, stack, shown);
    assert forall|at: usize|
        at < layers.len() && (#[trigger] layers[at as int]).placed implies all.contains(
        Item::Layer(at),
    ) by {
        assert(all.contains(Item::Layer((at as int) as usize)));
    }
    assert forall|at: usize|
        at < windows.len() && at < shown.len() && #[trigger] shown[at as int] implies all.contains(
        Item::Window(at),
    ) by {
        lemma_every_place_is_stacked(stack, windows.len(), at);
        let i = stack.index_of(at);
        assert(stack[i] == at);
        assert(is_shown(shown, stack[i]));
    }
}

/// As many places as there are, none of them twice, are all of them.
proof fn lemma_every_place_is_stacked(stack: Seq<usize>, count: nat, at: usize)
    requires
        stack.len() == count,
        stack.no_duplicates(),
        forall|i: int| 0 <= i < stack.len() ==> #[trigger] stack[i] < count,
        at < count,
    ensures
        stack.contains(at),
{
    let places = stack.map_values(|place: usize| place as int).to_set();
    let every = vstd::set_lib::set_int_range(0, count as int);
    let numbers = stack.map_values(|place: usize| place as int);
    assert(numbers.no_duplicates()) by {
        assert forall|i: int, j: int|
            0 <= i < numbers.len() && 0 <= j < numbers.len() && i != j implies numbers[i]
            != numbers[j] by {
            assert(stack[i] != stack[j]);
        }
    }
    numbers.unique_seq_to_set();
    vstd::set_lib::lemma_int_range(0, count as int);
    assert(places.subset_of(every)) by {
        assert forall|n: int| places.contains(n) implies every.contains(n) by {
            let i = numbers.index_of(n);
            assert(numbers[i] == n);
            assert(stack[i] < count);
        }
    }
    vstd::set_lib::lemma_subset_equality(places, every);
    assert(every.contains(at as int));
    assert(numbers.contains(at as int));
    let i = numbers.index_of(at as int);
    assert(stack[i] == at);
}

/// How far back an item is.
pub open spec fn depth(item: Item, layers: Seq<LayerSurface>) -> int {
    match item {
        Item::Cursor => 0,
        Item::Layer(at) => match layers[at as int].layer {
            Layer::Overlay => 1,
            Layer::Top => 2,
            Layer::Bottom => 4,
            Layer::Background => 5,
        },
        Item::Window(_) => 3,
    }
}

proof fn lemma_layer_group(layers: Seq<LayerSurface>, layer: Layer, count: nat)
    requires
        count <= layers.len() <= usize::MAX,
    ensures
        forall|i: int|
            0 <= i < layer_group(layers, layer, count).len() ==> {
                &&& #[trigger] layer_group(layers, layer, count)[i] matches Item::Layer(at)
                &&& at < count
                &&& layers[at as int].layer == layer
                &&& layers[at as int].placed
            },
        forall|at: int|
            #![trigger layers[at]]
            0 <= at < count && layers[at].layer == layer && layers[at].placed ==> layer_group(
                layers,
                layer,
                count,
            ).contains(Item::Layer(at as usize)),
    decreases count,
{
    if count > 0 {
        let last = (count - 1) as nat;
        lemma_layer_group(layers, layer, last);
        let more = layer_group(layers, layer, last);
        let all = layer_group(layers, layer, count);
        let added = layers[last as int].layer == layer && layers[last as int].placed;
        assert forall|i: int| 0 <= i < all.len() implies {
            &&& #[trigger] all[i] matches Item::Layer(at)
            &&& at < count
            &&& layers[at as int].layer == layer
            &&& layers[at as int].placed
        } by {
            if added && i > 0 {
                assert(all[i] == more[i - 1]);
            } else if !added {
                assert(all[i] == more[i]);
            }
        }
        assert forall|at: int|
            #![trigger layers[at]]
            0 <= at < count && layers[at].layer == layer
                && layers[at].placed implies all.contains(Item::Layer(at as usize)) by {
            if at == last {
                assert(all[0] == Item::Layer(at as usize));
            } else {
                let i = more.index_of(Item::Layer(at as usize));
                assert(more.contains(Item::Layer(at as usize)));
                assert(all[if added {
                    i + 1
                } else {
                    i
                }] == Item::Layer(at as usize));
            }
        }
    }
}

proof fn lemma_window_group(stack: Seq<usize>, shown: Seq<bool>, count: nat)
    requires
        count <= stack.len(),
    ensures
        forall|i: int|
            0 <= i < window_group(stack, shown, count).len() ==> #[trigger] window_group(
                stack,
                shown,
                count,
            )[i] is Window,
        forall|at: int|
            #![trigger stack[at]]
            0 <= at < count && is_shown(shown, stack[at]) ==> window_group(
                stack,
                shown,
                count,
            ).contains(Item::Window(stack[at])),
    decreases count,
{
    if count > 0 {
        let last = (count - 1) as nat;
        lemma_window_group(stack, shown, last);
        let more = window_group(stack, shown, last);
        let all = window_group(stack, shown, count);
        let added = is_shown(shown, stack[last as int]);
        assert forall|i: int| 0 <= i < all.len() implies #[trigger] all[i] is Window by {
            if added && i > 0 {
                assert(all[i] == more[i - 1]);
            } else if !added {
                assert(all[i] == more[i]);
            }
        }
        assert forall|at: int|
            #![trigger stack[at]]
            0 <= at < count && is_shown(shown, stack[at]) implies all.contains(
            Item::Window(stack[at]),
        ) by {
            if at == last {
                assert(all[0] == Item::Window(stack[at]));
            } else {
                assert(more.contains(Item::Window(stack[at])));
                let i = more.index_of(Item::Window(stack[at]));
                assert(all[if added {
                    i + 1
                } else {
                    i
                }] == Item::Window(stack[at]));
            }
        }
    }
}

/// Nothing in the scene is in front of something that belongs before it: the pointer, the
/// upper layers, the windows, the lower layers.
pub proof fn law_the_scene_is_front_to_back(
    pointer: bool,
    layers: Seq<LayerSurface>,
    stack: Seq<usize>,
    shown: Seq<bool>,
    front: int,
    back: int,
)
    requires
        layers.len() <= usize::MAX,
        0 <= front < back < scene(pointer, layers, stack, shown).len(),
    ensures
        depth(scene(pointer, layers, stack, shown)[front], layers) <= depth(
            scene(pointer, layers, stack, shown)[back],
            layers,
        ),
{
    lemma_layer_group(layers, Layer::Overlay, layers.len());
    lemma_layer_group(layers, Layer::Top, layers.len());
    lemma_layer_group(layers, Layer::Bottom, layers.len());
    lemma_layer_group(layers, Layer::Background, layers.len());
    lemma_window_group(stack, shown, stack.len());
    let a = pointer_group(pointer);
    let b = layer_group(layers, Layer::Overlay, layers.len());
    let c = layer_group(layers, Layer::Top, layers.len());
    let d = window_group(stack, shown, stack.len());
    let e = layer_group(layers, Layer::Bottom, layers.len());
    let f = layer_group(layers, Layer::Background, layers.len());
    lemma_depths_of_two(a, b, layers, 0, 1);
    lemma_depths_of_two(a + b, c, layers, 1, 2);
    lemma_depths_of_two(a + b + c, d, layers, 2, 3);
    lemma_depths_of_two(a + b + c + d, e, layers, 3, 4);
    lemma_depths_of_two(a + b + c + d + e, f, layers, 4, 5);
}

/// Whether items are in order of depth, none of them deeper than a limit.
spec fn sorted_to(items: Seq<Item>, layers: Seq<LayerSurface>, limit: int) -> bool {
    &&& forall|i: int| 0 <= i < items.len() ==> depth(#[trigger] items[i], layers) <= limit
    &&& forall|i: int, j: int|
        0 <= i < j < items.len() ==> depth(#[trigger] items[i], layers) <= depth(
            #[trigger] items[j],
            layers,
        )
}

proof fn lemma_depths_of_two(
    front: Seq<Item>,
    back: Seq<Item>,
    layers: Seq<LayerSurface>,
    limit: int,
    deeper: int,
)
    requires
        sorted_to(front, layers, limit),
        limit <= deeper,
        forall|i: int| 0 <= i < back.len() ==> depth(#[trigger] back[i], layers) == deeper,
    ensures
        sorted_to(front + back, layers, deeper),
{
    let both = front + back;
    assert forall|i: int| 0 <= i < both.len() implies depth(#[trigger] both[i], layers)
        <= deeper by {
        if i < front.len() {
            assert(both[i] == front[i]);
        } else {
            assert(both[i] == back[i - front.len()]);
        }
    }
    assert forall|i: int, j: int| 0 <= i < j < both.len() implies depth(
        #[trigger] both[i],
        layers,
    ) <= depth(#[trigger] both[j], layers) by {
        if j < front.len() {
            assert(both[i] == front[i] && both[j] == front[j]);
        } else {
            assert(both[j] == back[j - front.len()]);
        }
    }
}

/// Every layer surface that has a place is in the scene, and so is every window of the
/// stack that can be shown.
pub proof fn law_nothing_is_left_out(
    pointer: bool,
    layers: Seq<LayerSurface>,
    stack: Seq<usize>,
    shown: Seq<bool>,
)
    requires
        layers.len() <= usize::MAX,
    ensures
        forall|at: int|
            #![trigger layers[at]]
            0 <= at < layers.len() && layers[at].placed ==> scene(
                pointer,
                layers,
                stack,
                shown,
            ).contains(Item::Layer(at as usize)),
        forall|at: int|
            #![trigger stack[at]]
            0 <= at < stack.len() && is_shown(shown, stack[at]) ==> scene(
                pointer,
                layers,
                stack,
                shown,
            ).contains(Item::Window(stack[at])),
{
    lemma_layer_group(layers, Layer::Overlay, layers.len());
    lemma_layer_group(layers, Layer::Top, layers.len());
    lemma_layer_group(layers, Layer::Bottom, layers.len());
    lemma_layer_group(layers, Layer::Background, layers.len());
    lemma_window_group(stack, shown, stack.len());
    let a = pointer_group(pointer);
    let b = layer_group(layers, Layer::Overlay, layers.len());
    let c = layer_group(layers, Layer::Top, layers.len());
    let d = window_group(stack, shown, stack.len());
    let e = layer_group(layers, Layer::Bottom, layers.len());
    let f = layer_group(layers, Layer::Background, layers.len());
    let all = scene(pointer, layers, stack, shown);
    assert forall|at: int|
        #![trigger layers[at]]
        0 <= at < layers.len() && layers[at].placed implies all.contains(
        Item::Layer(at as usize),
    ) by {
        let item = Item::Layer(at as usize);
        match layers[at].layer {
            Layer::Overlay => {
                let i = b.index_of(item);
                assert(b.contains(item));
                assert(all[a.len() + i] == item);
            },
            Layer::Top => {
                let i = c.index_of(item);
                assert(c.contains(item));
                assert(all[a.len() + b.len() + i] == item);
            },
            Layer::Bottom => {
                let i = e.index_of(item);
                assert(e.contains(item));
                assert(all[a.len() + b.len() + c.len() + d.len() + i] == item);
            },
            Layer::Background => {
                let i = f.index_of(item);
                assert(f.contains(item));
                assert(all[a.len() + b.len() + c.len() + d.len() + e.len() + i] == item);
            },
        }
    }
    assert forall|at: int|
        #![trigger stack[at]]
        0 <= at < stack.len() && is_shown(shown, stack[at]) implies all.contains(
        Item::Window(stack[at]),
    ) by {
        let item = Item::Window(stack[at]);
        let i = d.index_of(item);
        assert(d.contains(item));
        assert(all[a.len() + b.len() + c.len() + i] == item);
    }
}

proof fn lemma_layer_group_order(layers: Seq<LayerSurface>, layer: Layer, count: nat)
    requires
        count <= layers.len() <= usize::MAX,
    ensures
        forall|i: int, j: int|
            0 <= i < j < layer_group(layers, layer, count).len() ==> (#[trigger] layer_group(
                layers,
                layer,
                count,
            )[i])->Layer_0 > (#[trigger] layer_group(layers, layer, count)[j])->Layer_0,
    decreases count,
{
    if count > 0 {
        let last = (count - 1) as nat;
        lemma_layer_group_order(layers, layer, last);
        lemma_layer_group(layers, layer, last);
        let more = layer_group(layers, layer, last);
        let all = layer_group(layers, layer, count);
        let added = layers[last as int].layer == layer && layers[last as int].placed;
        assert forall|i: int, j: int| 0 <= i < j < all.len() implies (#[trigger] all[i])->Layer_0 > (
        #[trigger] all[j])->Layer_0 by {
            if added {
                assert(all[j] == more[j - 1]);
                if i > 0 {
                    assert(all[i] == more[i - 1]);
                }
            } else {
                assert(all[i] == more[i] && all[j] == more[j]);
            }
        }
    }
}

proof fn lemma_window_group_order(stack: Seq<usize>, shown: Seq<bool>, count: nat)
    requires
        count <= stack.len(),
        stack.no_duplicates(),
    ensures
        forall|i: int|
            0 <= i < window_group(stack, shown, count).len() ==> {
                &&& #[trigger] window_group(stack, shown, count)[i] matches Item::Window(w)
                &&& stack.contains(w)
                &&& stack.index_of(w) < count
                &&& w < shown.len() && shown[w as int]
            },
        forall|i: int, j: int|
            0 <= i < j < window_group(stack, shown, count).len() ==> stack.index_of(
                (#[trigger] window_group(stack, shown, count)[i])->Window_0,
            ) > stack.index_of((#[trigger] window_group(stack, shown, count)[j])->Window_0),
    decreases count,
{
    if count > 0 {
        let last = (count - 1) as nat;
        lemma_window_group_order(stack, shown, last);
        let more = window_group(stack, shown, last);
        let all = window_group(stack, shown, count);
        let added = is_shown(shown, stack[last as int]);
        assert(stack.contains(stack[last as int]));
        assert(stack.index_of(stack[last as int]) == last);
        assert forall|i: int| 0 <= i < all.len() implies {
            &&& #[trigger] all[i] matches Item::Window(w)
            &&& stack.contains(w)
            &&& stack.index_of(w) < count
            &&& w < shown.len() && shown[w as int]
        } by {
            if added && i > 0 {
                assert(all[i] == more[i - 1]);
            } else if !added {
                assert(all[i] == more[i]);
            }
        }
        assert forall|i: int, j: int| 0 <= i < j < all.len() implies stack.index_of(
            (#[trigger] all[i])->Window_0,
        ) > stack.index_of((#[trigger] all[j])->Window_0) by {
            if added {
                assert(all[j] == more[j - 1]);
                if i > 0 {
                    assert(all[i] == more[i - 1]);
                }
            } else {
                assert(all[i] == more[i] && all[j] == more[j]);
            }
        }
    }
}

/// Nothing is in the scene that does not belong there: the pointer only where it is drawn, a
/// layer surface only where it has a place, a window only where it is stacked and can be shown.
/// Of two windows the one further up the stack comes first, and of two surfaces of one layer the
/// later one; and nothing is there twice.
pub proof fn law_the_scene_is_what_is_there(
    pointer: bool,
    layers: Seq<LayerSurface>,
    stack: Seq<usize>,
    shown: Seq<bool>,
    front: int,
    back: int,
)
    requires
        layers.len() <= usize::MAX,
        stack.no_duplicates(),
    ensures
        ({
            let all = scene(pointer, layers, stack, shown);
            &&& pointer <==> all.len() > 0 && all[0] == Item::Cursor
            &&& 0 <= front < all.len() ==> match all[front] {
                Item::Cursor => pointer && front == 0,
                Item::Layer(at) => at < layers.len() && layers[at as int].placed,
                Item::Window(at) => stack.contains(at) && at < shown.len() && shown[at as int],
            }
            &&& 0 <= front < back < all.len() ==> match (all[front], all[back]) {
                (Item::Window(upper), Item::Window(lower)) => stack.index_of(upper)
                    > stack.index_of(lower),
                (Item::Layer(upper), Item::Layer(lower)) => layers[upper as int].layer
                    == layers[lower as int].layer ==> upper > lower,
                (_, Item::Cursor) => false,
                _ => true,
            }
        }),
{
    lemma_layer_group(layers, Layer::Overlay, layers.len());
    lemma_layer_group(layers, Layer::Top, layers.len());
    lemma_layer_group(layers, Layer::Bottom, layers.len());
    lemma_layer_group(layers, Layer::Background, layers.len());
    lemma_layer_group_order(layers, Layer::Overlay, layers.len());
    lemma_layer_group_order(layers, Layer::Top, layers.len());
    lemma_layer_group_order(layers, Layer::Bottom, layers.len());
    lemma_layer_group_order(layers, Layer::Background, layers.len());
    lemma_window_group_order(stack, shown, stack.len());
    let a = pointer_group(pointer);
    let b = layer_group(layers, Layer::Overlay, layers.len());
    let c = layer_group(layers, Layer::Top, layers.len());
    let d = window_group(stack, shown, stack.len());
    let e = layer_group(layers, Layer::Bottom, layers.len());
    let f = layer_group(layers, Layer::Background, layers.len());
    let all = scene(pointer, layers, stack, shown);
    let nb = a.len() as int;
    let nc = nb + b.len();
    let nd = nc + c.len();
    let ne = nd + d.len();
    let nf = ne + e.len();
    assert(forall|i: int| 0 <= i < nb ==> #[trigger] all[i] == a[i]);
    assert(forall|i: int| nb <= i < nc ==> #[trigger] all[i] == b[i - nb]);
    assert(forall|i: int| nc <= i < nd ==> #[trigger] all[i] == c[i - nc]);
    assert(forall|i: int| nd <= i < ne ==> #[trigger] all[i] == d[i - nd]);
    assert(forall|i: int| ne <= i < nf ==> #[trigger] all[i] == e[i - ne]);
    assert(forall|i: int| nf <= i < all.len() ==> #[trigger] all[i] == f[i - nf]);
}

}
