//! Which device to open, and what its planes can show.

use vstd::prelude::*;
use crate::text;
use crate::text::texts;

verus! {

/// What the devices that drive a display are called.
pub const CARD: &'static str = "card";

/// What the devices that render are called.
pub const RENDER_NODE: &'static str = "renderD";

/// Whether one name comes before another: by the first character in which they differ,
/// and a shorter one before a longer one that starts with it.
pub open spec fn precedes(a: Seq<char>, b: Seq<char>) -> bool
    decreases a.len(),
{
    if a.len() == 0 || b.len() == 0 {
        a.len() < b.len()
    } else if a[0] != b[0] {
        (a[0] as int) < (b[0] as int)
    } else {
        precedes(a.drop_first(), b.drop_first())
    }
}

/// Those of some names that start with a prefix, in order.
pub open spec fn starting_with(names: Seq<Seq<char>>, prefix: Seq<char>) -> Seq<Seq<char>>
    decreases names.len(),
{
    if names.len() == 0 {
        Seq::empty()
    } else {
        let front = starting_with(names.drop_last(), prefix);
        if prefix.is_prefix_of(names.last()) {
            front.push(names.last())
        } else {
            front
        }
    }
}

/// Whether names are in order.
pub open spec fn in_order(names: Seq<Seq<char>>) -> bool {
    forall|i: int, j: int|
        0 <= i < j < names.len() ==> !precedes(#[trigger] names[j], #[trigger] names[i])
}

proof fn lemma_precedes_is_one_way(a: Seq<char>, b: Seq<char>)
    requires
        precedes(a, b),
    ensures
        !precedes(b, a),
    decreases a.len(),
{
    if a.len() > 0 && b.len() > 0 && a[0] == b[0] {
        lemma_precedes_is_one_way(a.drop_first(), b.drop_first());
    }
}

proof fn lemma_precedes_carries_over(a: Seq<char>, b: Seq<char>, c: Seq<char>)
    requires
        precedes(a, b),
        !precedes(c, b),
    ensures
        precedes(a, c),
    decreases a.len(),
{
    if a.len() > 0 && b.len() > 0 && c.len() > 0 {
        if a[0] == b[0] && b[0] == c[0] {
            lemma_precedes_carries_over(a.drop_first(), b.drop_first(), c.drop_first());
        } else if a[0] != b[0] && b[0] != c[0] {
            assert((a[0] as int) < (c[0] as int));
        }
    }
}

fn comes_before(a: &str, b: &str) -> (r: bool)
    ensures
        r == precedes(a@, b@),
{
    let left = text::chars_of(a);
    let right = text::chars_of(b);
    let mut at: usize = 0;
    assert(left@.skip(0) == left@);
    assert(right@.skip(0) == right@);
    while at < left.len() && at < right.len() && left[at] == right[at]
        invariant
            at <= left@.len(),
            at <= right@.len(),
            precedes(left@, right@) == precedes(left@.skip(at as int), right@.skip(at as int)),
        decreases left@.len() - at,
    {
        assert(left@.skip(at as int).drop_first() == left@.skip(at + 1));
        assert(right@.skip(at as int).drop_first() == right@.skip(at + 1));
        at += 1;
    }
    if at == left.len() || at == right.len() {
        left.len() < right.len()
    } else {
        left[at] < right[at]
    }
}

fn starts_with(name: &str, prefix: &str) -> (r: bool)
    ensures
        r == prefix@.is_prefix_of(name@),
{
    let whole = text::chars_of(name);
    let start = text::chars_of(prefix);
    if whole.len() < start.len() {
        return false;
    }
    let mut at: usize = 0;
    while at < start.len()
        invariant
            at <= start@.len() <= whole@.len(),
            start@ == prefix@,
            whole@ == name@,
            forall|i: int| 0 <= i < at ==> start@[i] == whole@[i],
        decreases start@.len() - at,
    {
        if start[at] != whole[at] {
            assert(name@.subrange(0, prefix@.len() as int)[at as int] != prefix@[at as int]);
            return false;
        }
        at += 1;
    }
    assert(prefix@ == name@.subrange(0, prefix@.len() as int));
    true
}

fn insert_in_order(names: &mut Vec<String>, name: String)
    requires
        in_order(texts(old(names)@)),
    ensures
        in_order(texts(final(names)@)),
        texts(final(names)@).to_multiset() == texts(old(names)@).to_multiset().insert(name@),
{
    let ghost before = texts(names@);
    let mut at: usize = 0;
    while at < names.len() && !comes_before(name.as_str(), names[at].as_str())
        invariant
            at <= names@.len(),
            before == texts(names@),
            forall|i: int| 0 <= i < at ==> !precedes(name@, #[trigger] before[i]),
        decreases names@.len() - at,
    {
        assert(before[at as int] == names@[at as int]@);
        at += 1;
    }
    let ghost added = name@;
    names.insert(at, name);
    proof {
        let after = texts(names@);
        assert(after == before.insert(at as int, added));
        before.to_multiset_ensures();
        vstd::seq_lib::to_multiset_insert(before, at as int, added);
        assert forall|i: int, j: int| 0 <= i < j < after.len() implies !precedes(
            #[trigger] after[j],
            #[trigger] after[i],
        ) by {
            if i < at && j < at {
                assert(after[i] == before[i] && after[j] == before[j]);
            } else if i < at && j == at {
                assert(after[i] == before[i]);
            } else if i < at {
                assert(after[i] == before[i] && after[j] == before[j - 1]);
            } else if i == at {
                assert(after[j] == before[j - 1]);
                assert(precedes(added, before[at as int]));
                if j - 1 > at {
                    assert(!precedes(before[j - 1], before[at as int]));
                    lemma_precedes_carries_over(added, before[at as int], before[j - 1]);
                }
                lemma_precedes_is_one_way(added, before[j - 1]);
            } else {
                assert(after[i] == before[i - 1] && after[j] == before[j - 1]);
            }
        }
    }
}

/// The devices of a kind among the names in a directory, in the order to try them in.
pub fn candidates(names: &Vec<String>, prefix: &str) -> (r: Vec<String>)
    ensures
        in_order(texts(r@)),
        texts(r@).to_multiset() == starting_with(texts(names@), prefix@).to_multiset(),
        forall|name: Seq<char>| #[trigger]
            texts(r@).to_multiset().count(name) == if prefix@.is_prefix_of(name) {
                texts(names@).to_multiset().count(name)
            } else {
                0
            },
{
    broadcast use vstd::seq_lib::group_to_multiset_ensures;

    let mut found: Vec<String> = Vec::new();
    let mut at: usize = 0;
    let ghost all = texts(names@);
    proof {
        assert(all.take(0) == Seq::<Seq<char>>::empty());
        assert(texts(found@) == Seq::<Seq<char>>::empty());
    }
    while at < names.len()
        invariant
            at <= names@.len(),
            all == texts(names@),
            in_order(texts(found@)),
            texts(found@).to_multiset() == starting_with(
                all.take(at as int),
                prefix@,
            ).to_multiset(),
        decreases names@.len() - at,
    {
        proof {
            assert(all.take(at + 1).drop_last() == all.take(at as int));
            assert(all.take(at + 1).last() == names@[at as int]@);
            starting_with(all.take(at as int), prefix@).to_multiset_ensures();
        }
        if starts_with(names[at].as_str(), prefix) {
            insert_in_order(&mut found, names[at].clone());
        }
        at += 1;
    }
    assert(all.take(all.len() as int) == all);
    proof {
        assert forall|name: Seq<char>| #[trigger]
            texts(found@).to_multiset().count(name) == if prefix@.is_prefix_of(name) {
                all.to_multiset().count(name)
            } else {
                0
            } by {
            law_every_name_with_the_prefix_is_kept(all, prefix@, name);
        }
    }
    found
}

/// The node clients should allocate on: the render node of the device that was opened, else
/// one on the system, else the device itself.
///
/// On this hardware the display device has no render node of its own, and rendering happens
/// on a separate device that has no connectors. Handing out the display device instead sends
/// every client to a device it cannot render on.
pub fn render_node<T>(own: Option<T>, on_the_system: Option<T>, card: Option<T>) -> (r: Option<T>)
    ensures
        r == (if own is Some {
            own
        } else if on_the_system is Some {
            on_the_system
        } else {
            card
        }),
{
    if own.is_some() {
        own
    } else if on_the_system.is_some() {
        on_the_system
    } else {
        card
    }
}

/// Whether one format comes before another: by its code, then by its modifier.
pub open spec fn format_before(a: (u32, u64), b: (u32, u64)) -> bool {
    a.0 < b.0 || (a.0 == b.0 && a.1 < b.1)
}

/// Whether formats are in order, each of them once.
pub open spec fn formats_in_order(formats: Seq<(u32, u64)>) -> bool {
    forall|i: int, j: int|
        0 <= i < j < formats.len() ==> format_before(#[trigger] formats[i], #[trigger] formats[j])
}

/// The formats the display engine can scan out, from those of its planes: each code and
/// modifier once, in order.
pub fn scanout_formats(planes: &Vec<(u32, u64)>) -> (r: Vec<(u32, u64)>)
    ensures
        formats_in_order(r@),
        forall|format: (u32, u64)| #[trigger] r@.contains(format) <==> planes@.contains(format),
{
    let mut formats: Vec<(u32, u64)> = Vec::new();
    let mut at: usize = 0;
    while at < planes.len()
        invariant
            at <= planes@.len(),
            formats_in_order(formats@),
            forall|format: (u32, u64)| #[trigger]
                formats@.contains(format) <==> planes@.take(at as int).contains(format),
        decreases planes@.len() - at,
    {
        insert_format(&mut formats, planes[at]);
        proof {
            let seen = planes@.take(at as int);
            let more = planes@.take(at + 1);
            assert(more == seen.push(planes@[at as int]));
            assert forall|format: (u32, u64)| #[trigger]
                formats@.contains(format) <==> more.contains(format) by {
                assert(more.last() == planes@[at as int]);
                if seen.contains(format) {
                    let i = seen.index_of(format);
                    assert(more[i] == format);
                }
            }
        }
        at += 1;
    }
    assert(planes@.take(planes@.len() as int) == planes@);
    formats
}

fn insert_format(formats: &mut Vec<(u32, u64)>, format: (u32, u64))
    requires
        formats_in_order(old(formats)@),
    ensures
        formats_in_order(final(formats)@),
        forall|other: (u32, u64)| #[trigger]
            final(formats)@.contains(other) <==> old(formats)@.contains(other) || other == format,
{
    let ghost before = formats@;
    let mut at: usize = 0;
    while at < formats.len() && (formats[at].0 < format.0 || (formats[at].0 == format.0
        && formats[at].1 < format.1))
        invariant
            at <= formats@.len(),
            before == formats@,
            forall|i: int| 0 <= i < at ==> format_before(#[trigger] before[i], format),
        decreases formats@.len() - at,
    {
        at += 1;
    }
    if at < formats.len() && formats[at].0 == format.0 && formats[at].1 == format.1 {
        assert(before[at as int] == format);
        return;
    }
    formats.insert(at, format);
    proof {
        let after = formats@;
        assert(after == before.insert(at as int, format));
        assert forall|other: (u32, u64)| #[trigger]
            after.contains(other) <==> before.contains(other) || other == format by {
            assert(after[at as int] == format);
            if before.contains(other) {
                let i = before.index_of(other);
                assert(after[if i < at {
                    i
                } else {
                    i + 1
                }] == other);
            }
            if after.contains(other) && other != format {
                let i = after.index_of(other);
                assert(before[if i < at {
                    i
                } else {
                    i - 1
                }] == other);
            }
        }
    }
}

/// Of two different names exactly one comes before the other, no name comes before itself, and
/// what comes before a name comes before all that it comes before.
pub proof fn law_names_have_one_order(a: Seq<char>, b: Seq<char>, c: Seq<char>)
    ensures
        !precedes(a, a),
        a != b ==> precedes(a, b) != precedes(b, a),
        precedes(a, b) && precedes(b, c) ==> precedes(a, c),
    decreases a.len(),
{
    lemma_precedes_or_not(a, b);
    lemma_precedes_or_not(a, a);
    if precedes(a, a) {
        lemma_precedes_is_one_way(a, a);
    }
    if precedes(a, b) {
        lemma_precedes_is_one_way(a, b);
    }
    if precedes(a, b) && precedes(b, c) {
        lemma_precedes_is_one_way(b, c);
        lemma_precedes_carries_over(a, b, c);
    }
}

proof fn lemma_precedes_or_not(a: Seq<char>, b: Seq<char>)
    ensures
        a == b || precedes(a, b) || precedes(b, a),
    decreases a.len(),
{
    if a.len() == 0 || b.len() == 0 {
        if a.len() == b.len() {
            assert(a =~= b);
        }
    } else if a[0] == b[0] {
        lemma_precedes_or_not(a.drop_first(), b.drop_first());
        if a.drop_first() == b.drop_first() {
            assert(a =~= seq![a[0]] + a.drop_first());
            assert(b =~= seq![b[0]] + b.drop_first());
        }
    }
}

/// The first character in which two names differ decides which comes first, and a name comes
/// before every longer one that starts with it.
pub proof fn law_the_first_difference_decides(
    start: Seq<char>,
    a: char,
    b: char,
    more: Seq<char>,
    other: Seq<char>,
)
    ensures
        (a as int) < (b as int) ==> precedes(start.push(a) + more, start.push(b) + other),
        precedes(start, start.push(a) + more),
    decreases start.len(),
{
    let left = start.push(a) + more;
    let right = start.push(b) + other;
    if start.len() > 0 {
        law_the_first_difference_decides(start.drop_first(), a, b, more, other);
        assert(left.drop_first() =~= start.drop_first().push(a) + more);
        assert(right.drop_first() =~= start.drop_first().push(b) + other);
        assert(left[0] == start[0] && right[0] == start[0]);
    } else {
        assert(left[0] == a && right[0] == b);
    }
}

/// Those that start with a prefix are kept as often as they are there, and no others are.
pub proof fn law_every_name_with_the_prefix_is_kept(
    names: Seq<Seq<char>>,
    prefix: Seq<char>,
    name: Seq<char>,
)
    ensures
        starting_with(names, prefix).to_multiset().count(name) == if prefix.is_prefix_of(name) {
            names.to_multiset().count(name)
        } else {
            0
        },
    decreases names.len(),
{
    broadcast use vstd::seq_lib::group_to_multiset_ensures;

    if names.len() > 0 {
        law_every_name_with_the_prefix_is_kept(names.drop_last(), prefix, name);
        assert(names.drop_last().push(names.last()) =~= names);
    }
}

/// Clients are sent to the device's own render node, else to one on the system, and to the
/// device itself only where there is neither.
pub proof fn law_a_render_node_is_preferred<T>(
    own: Option<T>,
    on_the_system: Option<T>,
    card: Option<T>,
    node: Option<T>,
)
    requires
        call_ensures(render_node::<T>, (own, on_the_system, card), node),
    ensures
        own is Some ==> node == own,
        own is None && on_the_system is Some ==> node == on_the_system,
        own is None && on_the_system is None ==> node == card,
{
}

/// Devices are tried from the first name to the last, and formats are listed from the lowest
/// code up and each once.
pub proof fn law_lists_go_upwards(names: Seq<Seq<char>>, formats: Seq<(u32, u64)>, i: int, j: int)
    ensures
        in_order(names) && 0 <= i < j < names.len() ==> names[i] == names[j] || precedes(
            names[i],
            names[j],
        ),
        formats_in_order(formats) && 0 <= i < j < formats.len() ==> formats[i].0 < formats[j].0 || (
        formats[i].0 == formats[j].0 && formats[i].1 < formats[j].1),
{
    if in_order(names) && 0 <= i < j < names.len() {
        lemma_precedes_or_not(names[i], names[j]);
        assert(!precedes(names[j], names[i]));
    }
    if formats_in_order(formats) && 0 <= i < j < formats.len() {
        assert(format_before(formats[i], formats[j]));
    }
}

}
