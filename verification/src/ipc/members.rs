//! The names in the text of an object.
//!
//! A value that was read has one member for each name. Whether a name stood there twice is
//! only in the text, and a request that gives a field twice is no request. The same goes for
//! the object that an owner may be given as.

use vstd::prelude::*;
use crate::json;
use crate::json::{Json, Tree};
use crate::text;

verus! {

/// `"`
pub const QUOTE: u8 = 0x22;

/// `\`
pub const BACKSLASH: u8 = 0x5C;

/// `,`
pub const COMMA: u8 = 0x2C;

/// `{`
pub const OPEN_OBJECT: u8 = 0x7B;

/// `}`
pub const CLOSE_OBJECT: u8 = 0x7D;

/// `[`
pub const OPEN_LIST: u8 = 0x5B;

/// `]`
pub const CLOSE_LIST: u8 = 0x5D;

/// Where a reader of some JSON is.
pub struct Place {
    /// How many arrays and objects are open.
    pub depth: int,
    /// Where the string began that is open, if one is.
    pub start: Option<int>,
    /// Whether the next character of it is escaped.
    pub escaped: bool,
    /// Whether the next string is a name of the outermost object.
    pub naming: bool,
    /// Behind which name of the outermost object the reader is, by where that name ended.
    pub value: Option<int>,
}

/// Where a reader is after one more byte, which stands at `at`.
pub open spec fn step(place: Place, byte: u8, at: int) -> Place {
    if place.start is Some {
        if place.escaped {
            Place { escaped: false, ..place }
        } else if byte == BACKSLASH {
            Place { escaped: true, ..place }
        } else if byte == QUOTE {
            Place {
                start: None,
                naming: place.naming && place.depth != 1,
                value: if place.naming && place.depth == 1 {
                    Some(at + 1)
                } else {
                    place.value
                },
                ..place
            }
        } else {
            place
        }
    } else if byte == QUOTE {
        Place { start: Some(at), ..place }
    } else if byte == OPEN_OBJECT || byte == OPEN_LIST {
        Place {
            depth: place.depth + 1,
            naming: place.depth == 0 && byte == OPEN_OBJECT,
            ..place
        }
    } else if byte == CLOSE_OBJECT || byte == CLOSE_LIST {
        Place {
            depth: place.depth - 1,
            value: if place.depth == 1 {
                None
            } else {
                place.value
            },
            ..place
        }
    } else if byte == COMMA && place.depth == 1 {
        Place { naming: true, value: None, ..place }
    } else {
        place
    }
}

/// Where a reader is after some text.
pub open spec fn place_after(text: Seq<u8>) -> Place
    decreases text.len(),
{
    if text.len() == 0 {
        Place { depth: 0, start: None, escaped: false, naming: false, value: None }
    } else {
        step(place_after(text.drop_last()), text.last(), text.len() - 1)
    }
}

/// Whether a byte ends a name of the outermost object.
pub open spec fn ends_name(place: Place, byte: u8) -> bool {
    place.start is Some && !place.escaped && byte == QUOTE && place.naming && place.depth == 1
}

/// The names of the outermost object of some text, in order and with their quotes.
pub open spec fn quoted_names(text: Seq<u8>) -> Seq<Seq<u8>>
    decreases text.len(),
{
    if text.len() == 0 {
        Seq::empty()
    } else {
        let before = quoted_names(text.drop_last());
        let place = place_after(text.drop_last());
        if ends_name(place, text.last()) {
            before.push(text.skip(place.start->0))
        } else {
            before
        }
    }
}

/// The name that stands between quotes.
pub open spec fn unquoted(name: Seq<u8>) -> Seq<char> {
    match json::json_read(name) {
        Ok(Tree::Text(name)) => name,
        _ => Seq::empty(),
    }
}

/// The names of the members of the object that some text is, in order: one that stands
/// there twice is listed twice.
pub open spec fn names_in(text: Seq<u8>) -> Seq<Seq<char>> {
    quoted_names(text).map_values(|name: Seq<u8>| unquoted(name))
}

/// Whether a byte ends what stands behind a name of the outermost object.
pub open spec fn ends_value(place: Place, byte: u8) -> bool {
    &&& place.start is None
    &&& place.value is Some
    &&& place.depth == 1
    &&& byte == COMMA || byte == CLOSE_OBJECT || byte == CLOSE_LIST
}

/// What stands behind each name of the outermost object of some text.
pub open spec fn values_in(text: Seq<u8>) -> Seq<Seq<u8>>
    decreases text.len(),
{
    if text.len() == 0 {
        Seq::empty()
    } else {
        let before = values_in(text.drop_last());
        let place = place_after(text.drop_last());
        if ends_value(place, text.last()) {
            before.push(text.drop_last().skip(place.value->0))
        } else {
            before
        }
    }
}

/// The names of the members of an object, and of those of the objects that these are.
pub struct Outlined {
    /// The names, as they stand.
    pub names: Seq<Seq<char>>,
    /// For each name the names in the object behind it: none where that is no object.
    pub within: Seq<Seq<Seq<char>>>,
}

/// The names in the object that some text is.
pub open spec fn outline_of(text: Seq<u8>) -> Outlined {
    Outlined {
        names: names_in(text),
        within: values_in(text).map_values(|value: Seq<u8>| names_in(value)),
    }
}

/// The names of the members of an object, and of those of the objects that these are.
pub struct Outline {
    /// The names, as they stand.
    pub names: Vec<String>,
    /// For each name the names in the object behind it.
    pub within: Vec<Vec<String>>,
}

impl View for Outline {
    type V = Outlined;

    open spec fn view(&self) -> Outlined {
        Outlined {
            names: text::texts(self.names@),
            within: Seq::new(self.within@.len(), |i: int| text::texts(self.within@[i]@)),
        }
    }
}

proof fn lemma_place(text: Seq<u8>)
    ensures
        -text.len() <= place_after(text).depth <= text.len(),
        place_after(text).start matches Some(start) ==> 0 <= start < text.len(),
        place_after(text).value matches Some(value) ==> 0 <= value <= text.len(),
    decreases text.len(),
{
    if text.len() > 0 {
        lemma_place(text.drop_last());
    }
}

fn name_between(quoted: &[u8]) -> (r: String)
    ensures
        r@ == unquoted(quoted@),
{
    match json::read(quoted) {
        Ok(Json::Text(name)) => name,
        _ => String::new(),
    }
}

/// A place in some text, where there is one.
pub open spec fn place_of(at: Option<usize>) -> Option<int> {
    match at {
        Some(at) => Some(at as int),
        None => None,
    }
}

/// List the names of the members of the object that some text is, and where what stands
/// behind each begins and ends.
fn scan(line: &[u8]) -> (r: (Vec<String>, Vec<(usize, usize)>))
    ensures
        text::texts(r.0@) == names_in(line@),
        r.1@.len() == values_in(line@).len(),
        forall|i: int|
            0 <= i < r.1@.len() ==> {
                &&& (#[trigger] r.1@[i]).0 <= r.1@[i].1 <= line@.len()
                &&& line@.subrange(r.1@[i].0 as int, r.1@[i].1 as int) == values_in(line@)[i]
            },
{
    let mut found: Vec<String> = Vec::new();
    let mut spans: Vec<(usize, usize)> = Vec::new();
    let mut depth: i128 = 0;
    let mut start: Option<usize> = None;
    let mut escaped: bool = false;
    let mut naming: bool = false;
    let mut value: Option<usize> = None;
    let mut at: usize = 0;
    assert(line@.take(0) == Seq::<u8>::empty());
    while at < line.len()
        invariant
            at <= line@.len(),
            place_after(line@.take(at as int)) == (Place {
                depth: depth as int,
                start: place_of(start),
                escaped,
                naming,
                value: place_of(value),
            }),
            text::texts(found@) == names_in(line@.take(at as int)),
            spans@.len() == values_in(line@.take(at as int)).len(),
            forall|i: int|
                0 <= i < spans@.len() ==> {
                    &&& (#[trigger] spans@[i]).0 <= spans@[i].1 <= line@.len()
                    &&& line@.subrange(spans@[i].0 as int, spans@[i].1 as int) == values_in(
                        line@.take(at as int),
                    )[i]
                },
        decreases line@.len() - at,
    {
        let byte: u8 = line[at];
        let ghost read = line@.take(at as int);
        let ghost more = line@.take(at + 1);
        let ghost so_far = found@;
        proof {
            assert(more.drop_last() == read);
            assert(more.last() == byte);
            lemma_place(read);
        }
        match start {
            Some(from) => {
                if escaped {
                    escaped = false;
                } else if byte == BACKSLASH {
                    escaped = true;
                } else if byte == QUOTE {
                    if naming && depth == 1 {
                        let quoted = vstd::slice::slice_subrange(line, from, at + 1);
                        assert(quoted@ == more.skip(from as int));
                        found.push(name_between(quoted));
                        naming = false;
                        value = Some(at + 1);
                    }
                    start = None;
                }
            },
            None => {
                if byte == QUOTE {
                    start = Some(at);
                } else if byte == OPEN_OBJECT || byte == OPEN_LIST {
                    naming = depth == 0 && byte == OPEN_OBJECT;
                    depth += 1;
                } else if byte == CLOSE_OBJECT || byte == CLOSE_LIST || (byte == COMMA && depth
                    == 1) {
                    if depth == 1 {
                        match value {
                            Some(from) => {
                                assert(line@.subrange(from as int, at as int) == read.skip(
                                    from as int,
                                ));
                                spans.push((from, at));
                            },
                            None => {},
                        }
                        value = None;
                    }
                    if byte == COMMA {
                        naming = true;
                    } else {
                        depth -= 1;
                    }
                }
            },
        }
        proof {
            if ends_name(place_after(read), byte) {
                assert(names_in(more) == names_in(read).push(unquoted(quoted_names(more).last())));
                assert(text::texts(found@) == text::texts(so_far).push(found@.last()@));
            }
        }
        at += 1;
    }
    assert(line@.take(line@.len() as int) == line@);
    (found, spans)
}

/// List the names of the members of the object that some text is.
pub fn names(line: &[u8]) -> (r: Vec<String>)
    ensures
        text::texts(r@) == names_in(line@),
{
    scan(line).0
}

/// List the names in the object that some text is.
pub fn outline(line: &[u8]) -> (r: Outline)
    ensures
        r@ == outline_of(line@),
{
    let (names, spans) = scan(line);
    let ghost values = values_in(line@);
    let mut within: Vec<Vec<String>> = Vec::new();
    let mut at: usize = 0;
    while at < spans.len()
        invariant
            at <= spans@.len(),
            spans@.len() == values.len(),
            forall|i: int|
                0 <= i < spans@.len() ==> {
                    &&& (#[trigger] spans@[i]).0 <= spans@[i].1 <= line@.len()
                    &&& line@.subrange(spans@[i].0 as int, spans@[i].1 as int) == values[i]
                },
            within@.len() == at,
            forall|i: int|
                0 <= i < at ==> text::texts((#[trigger] within@[i])@) == names_in(values[i]),
        decreases spans@.len() - at,
    {
        let (from, to) = spans[at];
        within.push(self::names(vstd::slice::slice_subrange(line, from, to)));
        at += 1;
    }
    let outline = Outline { names, within };
    assert(outline@.within == outline_of(line@).within);
    outline
}

/// Where a name is listed first, or how many are listed.
pub open spec fn first_listed(names: Seq<Seq<char>>, name: Seq<char>) -> nat
    decreases names.len(),
{
    if names.len() == 0 {
        0
    } else if names[0] == name {
        0
    } else {
        1 + first_listed(names.drop_first(), name)
    }
}

/// How many members the object has that stands behind a name.
pub open spec fn entries_of(outline: Outlined, name: Seq<char>) -> nat {
    let at = first_listed(outline.names, name);
    if at < outline.within.len() {
        outline.within[at as int].len()
    } else {
        0
    }
}

/// Count the members of the object that stands behind a name.
pub fn entries(outline: &Outline, name: &str) -> (r: usize)
    ensures
        r == entries_of(outline@, name@),
{
    let ghost names = outline@.names;
    let mut at: usize = 0;
    assert(names.skip(0) == names);
    while at < outline.names.len() && !text::same(outline.names[at].as_str(), name)
        invariant
            at <= outline.names@.len(),
            names == outline@.names,
            names.len() == outline.names@.len(),
            first_listed(names, name@) == at + first_listed(names.skip(at as int), name@),
        decreases outline.names@.len() - at,
    {
        assert(names.skip(at as int)[0] == outline.names@[at as int]@);
        assert(names.skip(at as int).drop_first() == names.skip(at + 1));
        at += 1;
    }
    proof {
        if at < names.len() {
            assert(names.skip(at as int)[0] == outline.names@[at as int]@);
        }
    }
    if at < outline.within.len() {
        assert(outline@.within[at as int] == text::texts(outline.within@[at as int]@));
        outline.within[at].len()
    } else {
        0
    }
}

/// Whether a name is listed twice.
pub open spec fn is_repeated(names: Seq<Seq<char>>, name: Seq<char>) -> bool {
    exists|i: int, j: int|
        0 <= i < j < names.len() && #[trigger] names[i] == name && #[trigger] names[j] == name
}

/// Whether a name is listed twice.
pub fn repeated(names: &Vec<String>, name: &str) -> (r: bool)
    ensures
        r == is_repeated(text::texts(names@), name@),
{
    let mut seen: bool = false;
    let mut at: usize = 0;
    let ghost listed = text::texts(names@);
    while at < names.len()
        invariant
            at <= names@.len(),
            listed == text::texts(names@),
            seen == exists|i: int| 0 <= i < at && #[trigger] listed[i] == name@,
            forall|i: int, j: int|
                0 <= i < j < at && #[trigger] listed[i] == name@ ==> #[trigger] listed[j] != name@,
        decreases names@.len() - at,
    {
        if text::same(names[at].as_str(), name) {
            assert(listed[at as int] == name@);
            if seen {
                return true;
            }
            seen = true;
        }
        at += 1;
    }
    false
}

/// Whether a reader is past all names, inside at least so many arrays and objects.
pub open spec fn is_past_names(text: Seq<u8>, depth: int) -> bool {
    let place = place_after(text);
    place.depth >= depth && place.start is None && !place.escaped && !place.naming
}

/// Whether more text leaves a reader where it was, without a name or a value in it that counts.
pub open spec fn is_passed_over(text: Seq<u8>, more: Seq<u8>) -> bool {
    &&& place_after(text + more) == place_after(text)
    &&& quoted_names(text + more) == quoted_names(text)
    &&& values_in(text + more) == values_in(text)
}

/// Whether some text counts for nothing wherever a value may stand, inside at least so many
/// arrays and objects: nothing in it is taken for a name or a comma of the outermost object.
pub open spec fn is_one_value(more: Seq<u8>, depth: int) -> bool {
    forall|text: Seq<u8>| #[trigger] is_past_names(text, depth) ==> is_passed_over(text, more)
}

/// Whether a byte means nothing to the reader outside of strings.
pub open spec fn is_plain(byte: u8) -> bool {
    byte != 34 && byte != 92 && byte != 44 && byte != 123 && byte != 125 && byte != 91 && byte
        != 93
}

proof fn lemma_one_more(text: Seq<u8>, more: Seq<u8>, byte: u8)
    ensures
        place_after(text + more.push(byte)) == step(
            place_after(text + more),
            byte,
            (text + more).len() as int,
        ),
        quoted_names(text + more.push(byte)) == (if ends_name(place_after(text + more), byte) {
            quoted_names(text + more).push(
                (text + more).push(byte).skip(place_after(text + more).start->0),
            )
        } else {
            quoted_names(text + more)
        }),
        values_in(text + more.push(byte)) == (if ends_value(place_after(text + more), byte) {
            values_in(text + more).push((text + more).skip(place_after(text + more).value->0))
        } else {
            values_in(text + more)
        }),
{
    let all = text + more.push(byte);
    assert(all =~= (text + more).push(byte));
    assert(all.drop_last() =~= text + more);
}

/// Text that counts for nothing still does behind other such text.
proof fn lemma_values_join(a: Seq<u8>, b: Seq<u8>, depth: int)
    requires
        is_one_value(a, depth),
        is_one_value(b, depth),
    ensures
        is_one_value(a + b, depth),
{
    assert forall|text: Seq<u8>| #[trigger] is_past_names(text, depth) implies is_passed_over(
        text,
        a + b,
    ) by {
        assert(is_passed_over(text, a));
        assert(is_past_names(text + a, depth));
        assert(is_passed_over(text + a, b));
        assert(text + (a + b) =~= (text + a) + b);
    }
}

/// A number, a word or white space counts for nothing.
pub proof fn law_plain_text_holds_no_name(more: Seq<u8>, depth: int)
    requires
        depth >= 1,
        forall|i: int| 0 <= i < more.len() ==> is_plain(#[trigger] more[i]),
    ensures
        is_one_value(more, depth),
    decreases more.len(),
{
    if more.len() == 0 {
        assert forall|text: Seq<u8>| #[trigger] is_past_names(text, depth) implies is_passed_over(
            text,
            more,
        ) by {
            assert(text + more =~= text);
        }
    } else {
        let front = more.drop_last();
        let byte = more.last();
        assert(is_plain(more[more.len() - 1]));
        assert forall|i: int| 0 <= i < front.len() implies is_plain(#[trigger] front[i]) by {
            assert(front[i] == more[i]);
        }
        law_plain_text_holds_no_name(front, depth);
        assert forall|text: Seq<u8>| #[trigger] is_past_names(text, depth) implies is_passed_over(
            text,
            more,
        ) by {
            assert(is_passed_over(text, front));
            lemma_one_more(text, front, byte);
            assert(front.push(byte) =~= more);
        }
    }
}

/// The bytes of a string between its quotes: none of them is a quote or a backslash.
pub open spec fn is_unescaped(bytes: Seq<u8>) -> bool {
    forall|i: int| 0 <= i < bytes.len() ==> #[trigger] bytes[i] != 34 && bytes[i] != 92
}

/// Some bytes between quotes.
pub open spec fn in_quotes(bytes: Seq<u8>) -> Seq<u8> {
    seq![34u8] + bytes + seq![34u8]
}

proof fn lemma_inside_a_string(text: Seq<u8>, bytes: Seq<u8>)
    requires
        place_after(text).start is None,
        !place_after(text).escaped,
        is_unescaped(bytes),
    ensures
        place_after(text + (seq![34u8] + bytes)) == (Place {
            start: Some(text.len() as int),
            ..place_after(text)
        }),
        quoted_names(text + (seq![34u8] + bytes)) == quoted_names(text),
        values_in(text + (seq![34u8] + bytes)) == values_in(text),
    decreases bytes.len(),
{
    if bytes.len() == 0 {
        let none = Seq::<u8>::empty();
        lemma_one_more(text, none, 34);
        assert(text + none =~= text);
        assert(none.push(34u8) =~= seq![34u8] + bytes);
    } else {
        let front = bytes.drop_last();
        assert forall|i: int| 0 <= i < front.len() implies #[trigger] front[i] != 34 && front[i]
            != 92 by {
            assert(front[i] == bytes[i]);
        }
        lemma_inside_a_string(text, front);
        assert(bytes[bytes.len() - 1] == bytes.last());
        lemma_one_more(text, seq![34u8] + front, bytes.last());
        assert((seq![34u8] + front).push(bytes.last()) =~= seq![34u8] + bytes);
    }
}

/// A string counts for nothing where a value may stand, whatever it holds: brackets and commas
/// in it are only characters.
pub proof fn law_a_string_holds_no_name(bytes: Seq<u8>, depth: int)
    requires
        depth >= 1,
        is_unescaped(bytes),
    ensures
        is_one_value(in_quotes(bytes), depth),
{
    assert forall|text: Seq<u8>| #[trigger] is_past_names(text, depth) implies is_passed_over(
        text,
        in_quotes(bytes),
    ) by {
        lemma_inside_a_string(text, bytes);
        lemma_one_more(text, seq![34u8] + bytes, 34);
        assert((seq![34u8] + bytes).push(34u8) =~= in_quotes(bytes));
    }
}

/// A comma inside an inner array or object counts for nothing.
pub proof fn law_an_inner_comma_ends_nothing(depth: int)
    requires
        depth >= 2,
    ensures
        is_one_value(seq![44u8], depth),
{
    let none = Seq::<u8>::empty();
    assert forall|text: Seq<u8>| #[trigger] is_past_names(text, depth) implies is_passed_over(
        text,
        seq![44u8],
    ) by {
        lemma_one_more(text, none, 44);
        assert(text + none =~= text);
        assert(none.push(44u8) =~= seq![44u8]);
    }
}

/// An inner array or object counts for nothing as a whole: the names in it are its own.
pub proof fn law_an_inner_object_keeps_its_names(inner: Seq<u8>, depth: int, list: bool)
    requires
        depth >= 1,
        is_one_value(inner, depth + 1),
    ensures
        is_one_value(
            if list {
                seq![91u8] + inner + seq![93u8]
            } else {
                seq![123u8] + inner + seq![125u8]
            },
            depth,
        ),
{
    let open: u8 = if list {
        91
    } else {
        123
    };
    let close: u8 = if list {
        93
    } else {
        125
    };
    let whole = seq![open] + inner + seq![close];
    let none = Seq::<u8>::empty();
    assert forall|text: Seq<u8>| #[trigger] is_past_names(text, depth) implies is_passed_over(
        text,
        whole,
    ) by {
        lemma_one_more(text, none, open);
        assert(text + none =~= text);
        assert(none.push(open) =~= seq![open]);
        let inside = text + seq![open];
        assert(is_past_names(inside, depth + 1));
        assert(is_passed_over(inside, inner));
        assert(inside + inner =~= text + (seq![open] + inner));
        lemma_one_more(text, seq![open] + inner, close);
        assert((seq![open] + inner).push(close) =~= whole);
    }
}

/// What members are written as behind the brace: each name in quotes, a colon and its value, and
/// a comma between each two.
pub open spec fn members_text(members: Seq<(Seq<u8>, Seq<u8>)>) -> Seq<u8>
    decreases members.len(),
{
    if members.len() == 0 {
        Seq::empty()
    } else {
        let front = members_text(members.drop_last());
        let comma = if members.len() > 1 {
            seq![44u8]
        } else {
            Seq::empty()
        };
        front + comma + in_quotes(members.last().0) + seq![58u8] + members.last().1
    }
}

/// Whether members can be written: no name holds a quote or a backslash, and every value is one.
pub open spec fn are_members(members: Seq<(Seq<u8>, Seq<u8>)>) -> bool {
    forall|i: int|
        0 <= i < members.len() ==> is_unescaped((#[trigger] members[i]).0) && is_one_value(
            members[i].1,
            1,
        )
}

proof fn lemma_reading_members(members: Seq<(Seq<u8>, Seq<u8>)>)
    requires
        are_members(members),
    ensures
        ({
            let text = seq![123u8] + members_text(members);
            let place = place_after(text);
            &&& place.depth == 1 && place.start is None && !place.escaped
            &&& place.naming == (members.len() == 0)
            &&& quoted_names(text) == members.map_values(|m: (Seq<u8>, Seq<u8>)| in_quotes(m.0))
            &&& if members.len() == 0 {
                &&& place.value is None
                &&& values_in(text) == Seq::<Seq<u8>>::empty()
            } else {
                &&& place.value matches Some(from)
                &&& 0 <= from <= text.len()
                &&& text.skip(from) == seq![58u8] + members.last().1
                &&& values_in(text) == members.drop_last().map_values(
                    |m: (Seq<u8>, Seq<u8>)| seq![58u8] + m.1,
                )
            }
        }),
    decreases members.len(),
{
    let none = Seq::<u8>::empty();
    if members.len() == 0 {
        let text = seq![123u8] + members_text(members);
        lemma_one_more(none, none, 123);
        assert(none + none.push(123u8) =~= text);
        assert(none + none =~= none);
        assert(quoted_names(text) =~= members.map_values(
            |m: (Seq<u8>, Seq<u8>)| in_quotes(m.0),
        ));
    } else {
        let earlier = members.drop_last();
        let (name, value) = members.last();
        assert(members[members.len() - 1] == members.last());
        assert forall|i: int| 0 <= i < earlier.len() implies is_unescaped((#[trigger] earlier[i]).0)
            && is_one_value(earlier[i].1, 1) by {
            assert(earlier[i] == members[i]);
        }
        lemma_reading_members(earlier);
        let start = seq![123u8] + members_text(earlier);
        let comma = if members.len() > 1 {
            seq![44u8]
        } else {
            none
        };
        let begun = start + comma;
        if members.len() > 1 {
            lemma_one_more(start, none, 44);
            assert(start + none =~= start);
            assert(none.push(44u8) =~= comma);
            assert(values_in(begun) =~= earlier.map_values(
                |m: (Seq<u8>, Seq<u8>)| seq![58u8] + m.1,
            ));
        } else {
            assert(begun =~= start);
            assert(values_in(begun) =~= earlier.map_values(
                |m: (Seq<u8>, Seq<u8>)| seq![58u8] + m.1,
            ));
        }
        assert(place_after(begun).naming && place_after(begun).depth == 1);
        lemma_inside_a_string(begun, name);
        lemma_one_more(begun, seq![34u8] + name, 34);
        assert((seq![34u8] + name).push(34u8) =~= in_quotes(name));
        let named = begun + in_quotes(name);
        assert((begun + (seq![34u8] + name)).push(34u8) =~= named);
        assert(named.skip(begun.len() as int) =~= in_quotes(name));
        assert(quoted_names(named) =~= members.map_values(
            |m: (Seq<u8>, Seq<u8>)| in_quotes(m.0),
        ));
        assert(place_after(named).value == Some(named.len() as int));
        assert(is_past_names(named, 1));
        assert forall|i: int| 0 <= i < seq![58u8].len() implies is_plain(#[trigger] seq![58u8][i]) by {}
        law_plain_text_holds_no_name(seq![58u8], 1);
        lemma_values_join(seq![58u8], value, 1);
        assert(is_passed_over(named, seq![58u8] + value));
        let text = seq![123u8] + members_text(members);
        assert(text =~= named + (seq![58u8] + value));
        assert(text.skip(named.len() as int) =~= seq![58u8] + value);
    }
}

/// The names of an object come out as they were written, in order and as often, and so does what
/// stands behind each: names of inner objects and what strings hold do not count.
pub proof fn law_the_names_of_an_object_are_listed(members: Seq<(Seq<u8>, Seq<u8>)>)
    requires
        are_members(members),
    ensures
        quoted_names(seq![123u8] + members_text(members) + seq![125u8]) == members.map_values(
            |m: (Seq<u8>, Seq<u8>)| in_quotes(m.0),
        ),
        values_in(seq![123u8] + members_text(members) + seq![125u8]) == members.map_values(
            |m: (Seq<u8>, Seq<u8>)| seq![58u8] + m.1,
        ),
{
    let text = seq![123u8] + members_text(members);
    let none = Seq::<u8>::empty();
    lemma_reading_members(members);
    lemma_one_more(text, none, 125);
    assert(text + none =~= text);
    assert(text + none.push(125u8) =~= text + seq![125u8]);
    assert(values_in(text + seq![125u8]) =~= members.map_values(
        |m: (Seq<u8>, Seq<u8>)| seq![58u8] + m.1,
    ));
}

/// How many members stand behind a name is counted at the first place that has the name, and
/// is nothing where none has.
pub proof fn law_entries_are_counted_behind_their_name(
    outline: Outlined,
    name: Seq<char>,
    at: int,
)
    requires
        outline.within.len() <= outline.names.len(),
    ensures
        0 <= at < outline.within.len() && outline.names[at] == name && (forall|i: int|
            0 <= i < at ==> #[trigger] outline.names[i] != name) ==> entries_of(outline, name)
            == outline.within[at].len(),
        !outline.names.contains(name) ==> entries_of(outline, name) == 0,
{
    lemma_first_listed(outline.names, name);
}

proof fn lemma_first_listed(names: Seq<Seq<char>>, name: Seq<char>)
    ensures
        first_listed(names, name) <= names.len(),
        first_listed(names, name) < names.len() ==> names[first_listed(names, name) as int]
            == name,
        forall|i: int| 0 <= i < first_listed(names, name) ==> #[trigger] names[i] != name,
    decreases names.len(),
{
    if names.len() > 0 && names[0] != name {
        let rest = names.drop_first();
        lemma_first_listed(rest, name);
        assert forall|i: int| 0 <= i < first_listed(names, name) implies #[trigger] names[i]
            != name by {
            if i > 0 {
                assert(rest[i - 1] == names[i]);
            }
        }
    }
}

/// A character behind a backslash ends nothing, a quote among them: the reader stays in the
/// string it is in.
pub proof fn law_an_escaped_quote_ends_nothing(text: Seq<u8>, byte: u8)
    requires
        place_after(text).start is Some,
        !place_after(text).escaped,
    ensures
        is_passed_over(text, seq![92u8, byte]),
{
    let none = Seq::<u8>::empty();
    lemma_one_more(text, none, 92);
    assert(text + none =~= text);
    lemma_one_more(text, none.push(92u8), byte);
    assert(none.push(92u8).push(byte) =~= seq![92u8, byte]);
}

/// The names of an object are what its quoted names read as, one for one; and those within a
/// value are its own.
pub proof fn law_a_name_is_what_it_reads_as(text: Seq<u8>, i: int)
    ensures
        names_in(text).len() == quoted_names(text).len(),
        0 <= i < names_in(text).len() ==> match json::json_read(quoted_names(text)[i]) {
            Ok(Tree::Text(name)) => names_in(text)[i] == name,
            _ => names_in(text)[i].len() == 0,
        },
        outline_of(text).names == names_in(text),
        outline_of(text).within.len() == values_in(text).len(),
        0 <= i < values_in(text).len() ==> outline_of(text).within[i] == names_in(
            values_in(text)[i],
        ),
{
}

}
