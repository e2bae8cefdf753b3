//! JSON, as far as the control socket needs it.

use vstd::prelude::*;

verus! {

/// A JSON value.
pub enum Json {
    /// `null`
    Null,
    /// `true` or `false`
    Bool(bool),
    /// An integer.
    Int(i128),
    /// Any other number.
    Real,
    /// A string.
    Text(String),
    /// An array.
    List(Vec<Json>),
    /// An object. Of two members with one name the later one counts.
    Object(Vec<(String, Json)>),
}

/// What a [`Json`] stands for.
#[verifier::ext_equal]
pub enum Tree {
    /// `null`
    Null,
    /// `true` or `false`
    Bool(bool),
    /// An integer.
    Int(int),
    /// Any other number.
    Real,
    /// A string.
    Text(Seq<char>),
    /// An array.
    List(Seq<Tree>),
    /// An object: its members in order, each name once.
    Object(Seq<(Seq<char>, Tree)>),
}

impl Json {
    /// What this value stands for.
    pub open spec fn tree(self) -> Tree
        decreases self,
    {
        match self {
            Json::Null => Tree::Null,
            Json::Bool(b) => Tree::Bool(b),
            Json::Int(i) => Tree::Int(i as int),
            Json::Real => Tree::Real,
            Json::Text(s) => Tree::Text(s@),
            Json::List(items) => Tree::List(trees(items@)),
            Json::Object(members) => object(pairs_of(members@)),
        }
    }
}

/// What the elements of an array stand for.
pub open spec fn trees(items: Seq<Json>) -> Seq<Tree>
    decreases items,
{
    if items.len() == 0 {
        Seq::empty()
    } else {
        trees(items.drop_last()).push(items.last().tree())
    }
}

/// What the members of an object stand for, one by one.
pub open spec fn pairs_of(members: Seq<(String, Json)>) -> Seq<(Seq<char>, Tree)>
    decreases members,
{
    if members.len() == 0 {
        Seq::empty()
    } else {
        pairs_of(members.drop_last()).push((members.last().0@, members.last().1.tree()))
    }
}

/// Where the first member with a name stands, or the number of members.
pub open spec fn place_of(members: Seq<(Seq<char>, Tree)>, name: Seq<char>) -> nat
    decreases members.len(),
{
    if members.len() == 0 {
        0
    } else {
        let earlier = place_of(members.drop_last(), name);
        if earlier < members.len() - 1 || members.last().0 == name {
            earlier
        } else {
            members.len()
        }
    }
}

/// The members of an object after one more was added: in the place of the one with that
/// name, or behind the others.
pub open spec fn with_member(
    members: Seq<(Seq<char>, Tree)>,
    name: Seq<char>,
    value: Tree,
) -> Seq<(Seq<char>, Tree)> {
    let at = place_of(members, name);
    if at < members.len() {
        members.update(at as int, (name, value))
    } else {
        members.push((name, value))
    }
}

/// The members of an object that some were added to one after the other.
pub open spec fn listed(pairs: Seq<(Seq<char>, Tree)>) -> Seq<(Seq<char>, Tree)>
    decreases pairs.len(),
{
    if pairs.len() == 0 {
        Seq::empty()
    } else {
        with_member(listed(pairs.drop_last()), pairs.last().0, pairs.last().1)
    }
}

/// The object that some members make.
pub open spec fn object(pairs: Seq<(Seq<char>, Tree)>) -> Tree {
    Tree::Object(listed(pairs))
}

/// The members of an object by their names.
pub open spec fn fields(members: Seq<(Seq<char>, Tree)>) -> Map<Seq<char>, Tree> {
    Map::new(
        |name: Seq<char>| place_of(members, name) < members.len(),
        |name: Seq<char>| members[place_of(members, name) as int].1,
    )
}

/// Some members by their names: the later of two with one name counts.
pub open spec fn by_name(pairs: Seq<(Seq<char>, Tree)>) -> Map<Seq<char>, Tree>
    decreases pairs.len(),
{
    if pairs.len() == 0 {
        Map::empty()
    } else {
        by_name(pairs.drop_last()).insert(pairs.last().0, pairs.last().1)
    }
}

/// What the members of an object stand for, by their names.
pub open spec fn members_of(members: Seq<(String, Json)>) -> Map<Seq<char>, Tree> {
    by_name(pairs_of(members))
}

proof fn lemma_place(members: Seq<(Seq<char>, Tree)>, name: Seq<char>)
    ensures
        place_of(members, name) <= members.len(),
        place_of(members, name) < members.len() ==> members[place_of(members, name) as int].0
            == name,
    decreases members.len(),
{
    if members.len() > 0 {
        lemma_place(members.drop_last(), name);
    }
}

proof fn lemma_place_by_names(
    members: Seq<(Seq<char>, Tree)>,
    others: Seq<(Seq<char>, Tree)>,
    name: Seq<char>,
)
    requires
        members.len() == others.len(),
        forall|i: int| 0 <= i < members.len() ==> (#[trigger] members[i]).0 == others[i].0,
    ensures
        place_of(members, name) == place_of(others, name),
    decreases members.len(),
{
    if members.len() > 0 {
        assert(members[members.len() - 1].0 == others.last().0);
        assert forall|i: int| 0 <= i < members.len() - 1 implies (
        #[trigger] members.drop_last()[i]).0 == others.drop_last()[i].0 by {
            assert(members[i].0 == others[i].0);
        }
        lemma_place_by_names(members.drop_last(), others.drop_last(), name);
    }
}

proof fn lemma_with_member(members: Seq<(Seq<char>, Tree)>, name: Seq<char>, value: Tree)
    ensures
        fields(with_member(members, name, value)) == fields(members).insert(name, value),
{
    let after = with_member(members, name, value);
    let at = place_of(members, name);
    lemma_place(members, name);
    assert forall|other: Seq<char>|
        {
            &&& fields(after).contains_key(other) <==> #[trigger] fields(members).insert(
                name,
                value,
            ).contains_key(other)
            &&& fields(after).contains_key(other) ==> fields(after)[other] == fields(
                members,
            ).insert(name, value)[other]
        } by {
        lemma_place(members, other);
        if at < members.len() {
            lemma_place_by_names(members, after, other);
        } else {
            assert(after.drop_last() == members);
        }
    }
    assert(fields(after) =~= fields(members).insert(name, value));
}

/// The members of an object are found by the names that they were added under.
pub proof fn lemma_fields(pairs: Seq<(Seq<char>, Tree)>)
    ensures
        fields(listed(pairs)) == by_name(pairs),
    decreases pairs.len(),
{
    if pairs.len() == 0 {
        assert(fields(listed(pairs)) =~= by_name(pairs));
    } else {
        lemma_fields(pairs.drop_last());
        lemma_with_member(listed(pairs.drop_last()), pairs.last().0, pairs.last().1);
    }
}

/// How deep arrays and objects may nest in what is written: as deep as serde_json
/// reads them back.
pub const MAX_NESTING: u64 = 127;

/// Whether a value can be written: its numbers are integers that fit 64 bits, and its
/// arrays and objects nest at most `levels` deep. A member that a later one of the same
/// name stands in for counts too.
pub open spec fn writable(json: Json, levels: nat) -> bool
    decreases levels,
{
    match json {
        Json::Int(i) => i64::MIN <= i <= u64::MAX,
        Json::Real => false,
        Json::List(items) => levels > 0 && forall|i: int|
            0 <= i < items@.len() ==> writable(#[trigger] items@[i], (levels - 1) as nat),
        Json::Object(members) => levels > 0 && forall|i: int|
            0 <= i < members@.len() ==> writable((#[trigger] members@[i]).1, (levels - 1) as nat),
        _ => true,
    }
}

/// Whether every member of an object can be written.
pub open spec fn all_writable(members: Seq<(String, Json)>, levels: nat) -> bool {
    forall|i: int| 0 <= i < members.len() ==> writable((#[trigger] members[i]).1, levels)
}

/// What may nest deeper can still be written.
pub proof fn lemma_writable_deeper(json: Json, levels: nat, deeper: nat)
    requires
        writable(json, levels),
        levels <= deeper,
    ensures
        writable(json, deeper),
    decreases levels,
{
    match json {
        Json::List(items) => {
            assert forall|i: int| 0 <= i < items@.len() implies writable(
                #[trigger] items@[i],
                (deeper - 1) as nat,
            ) by {
                lemma_writable_deeper(items@[i], (levels - 1) as nat, (deeper - 1) as nat);
            }
        },
        Json::Object(members) => {
            assert forall|i: int| 0 <= i < members@.len() implies writable(
                (#[trigger] members@[i]).1,
                (deeper - 1) as nat,
            ) by {
                lemma_writable_deeper(members@[i].1, (levels - 1) as nat, (deeper - 1) as nat);
            }
        },
        _ => {},
    }
}

/// Whether what a value stands for has integers that fit 64 bits for its numbers, and nests
/// at most `levels` deep.
pub open spec fn fits(tree: Tree, levels: nat) -> bool
    decreases levels,
{
    match tree {
        Tree::Int(i) => i64::MIN <= i <= u64::MAX,
        Tree::Real => false,
        Tree::List(items) => levels > 0 && forall|i: int|
            0 <= i < items.len() ==> fits(#[trigger] items[i], (levels - 1) as nat),
        Tree::Object(members) => levels > 0 && forall|i: int|
            0 <= i < members.len() ==> fits((#[trigger] members[i]).1, (levels - 1) as nat),
        _ => true,
    }
}

proof fn lemma_trees(items: Seq<Json>)
    ensures
        trees(items).len() == items.len(),
        forall|i: int| 0 <= i < items.len() ==> #[trigger] trees(items)[i] == items[i].tree(),
    decreases items.len(),
{
    if items.len() > 0 {
        lemma_trees(items.drop_last());
    }
}

proof fn lemma_pairs(members: Seq<(String, Json)>)
    ensures
        pairs_of(members).len() == members.len(),
        forall|i: int|
            0 <= i < members.len() ==> #[trigger] pairs_of(members)[i] == (
                members[i].0@,
                members[i].1.tree(),
            ),
    decreases members.len(),
{
    if members.len() > 0 {
        lemma_pairs(members.drop_last());
    }
}

proof fn lemma_listed_fit(pairs: Seq<(Seq<char>, Tree)>, levels: nat)
    requires
        forall|i: int| 0 <= i < pairs.len() ==> fits((#[trigger] pairs[i]).1, levels),
    ensures
        forall|i: int| 0 <= i < listed(pairs).len() ==> fits((#[trigger] listed(pairs)[i]).1, levels),
    decreases pairs.len(),
{
    if pairs.len() > 0 {
        let earlier = pairs.drop_last();
        assert forall|i: int| 0 <= i < earlier.len() implies fits((#[trigger] earlier[i]).1, levels) by {
            assert(earlier[i] == pairs[i]);
        }
        lemma_listed_fit(earlier, levels);
        assert(fits(pairs[pairs.len() - 1].1, levels));
        assert forall|i: int| 0 <= i < listed(pairs).len() implies fits(
            (#[trigger] listed(pairs)[i]).1,
            levels,
        ) by {
            if i < listed(earlier).len() {
                assert(fits(listed(earlier)[i].1, levels));
            }
        }
    }
}

/// What can be written fits.
pub proof fn lemma_writable_fits(json: Json, levels: nat)
    requires
        writable(json, levels),
    ensures
        fits(json.tree(), levels),
    decreases levels,
{
    match json {
        Json::List(items) => {
            lemma_trees(items@);
            assert forall|i: int| 0 <= i < items@.len() implies fits(
                #[trigger] trees(items@)[i],
                (levels - 1) as nat,
            ) by {
                assert(writable(items@[i], (levels - 1) as nat));
                lemma_writable_fits(items@[i], (levels - 1) as nat);
            }
        },
        Json::Object(members) => {
            let pairs = pairs_of(members@);
            lemma_pairs(members@);
            assert forall|i: int| 0 <= i < pairs.len() implies fits(
                (#[trigger] pairs[i]).1,
                (levels - 1) as nat,
            ) by {
                assert(writable(members@[i].1, (levels - 1) as nat));
                lemma_writable_fits(members@[i].1, (levels - 1) as nat);
            }
            lemma_listed_fit(pairs, (levels - 1) as nat);
        },
        _ => {},
    }
}

/// Whether a value can be written, with its arrays and objects nested at most `levels`
/// deep.
pub fn can_write(json: &Json, levels: u64) -> (r: bool)
    ensures
        r == writable(*json, levels as nat),
    decreases levels,
{
    match json {
        Json::Int(i) => *i >= i64::MIN as i128 && *i <= u64::MAX as i128,
        Json::Real => false,
        Json::List(items) => {
            if levels == 0 {
                return false;
            }
            let mut all: bool = true;
            let mut at: usize = 0;
            while at < items.len()
                invariant
                    at <= items@.len(),
                    levels > 0,
                    all == forall|i: int|
                        0 <= i < at ==> writable(#[trigger] items@[i], (levels - 1) as nat),
                decreases items@.len() - at,
            {
                let this: bool = can_write(&items[at], levels - 1);
                assert(this == writable(items@[at as int], (levels - 1) as nat));
                all = all && this;
                at += 1;
            }
            all
        },
        Json::Object(members) => {
            if levels == 0 {
                return false;
            }
            let mut all: bool = true;
            let mut at: usize = 0;
            while at < members.len()
                invariant
                    at <= members@.len(),
                    levels > 0,
                    all == forall|i: int|
                        0 <= i < at ==> writable((#[trigger] members@[i]).1, (levels - 1) as nat),
                decreases members@.len() - at,
            {
                let this: bool = can_write(&members[at].1, levels - 1);
                assert(this == writable(members@[at as int].1, (levels - 1) as nat));
                all = all && this;
                at += 1;
            }
            all
        },
        _ => true,
    }
}

/// Whether a value's arrays and objects nest at most `levels` deep.
pub open spec fn nests_within(tree: Tree, levels: nat) -> bool
    decreases levels,
{
    match tree {
        Tree::List(items) => levels > 0 && forall|i: int|
            0 <= i < items.len() ==> nests_within(#[trigger] items[i], (levels - 1) as nat),
        Tree::Object(members) => levels > 0 && forall|i: int|
            0 <= i < members.len() ==> nests_within(
                (#[trigger] members[i]).1,
                (levels - 1) as nat,
            ),
        _ => true,
    }
}

/// `serde_json::Value`, which nothing looks into but the functions below.
#[verifier::external_type_specification]
#[verifier::external_body]
pub struct ExValue(serde_json::Value);

/// What a `serde_json::Value` holds, the members of an object in the order in which they
/// were added.
pub uninterp spec fn value_tree(value: serde_json::Value) -> Tree;

/// What `serde_json::from_slice` makes of some bytes: a value, or why it is none.
pub uninterp spec fn json_read(bytes: Seq<u8>) -> Result<Tree, Seq<char>>;

/// What `serde_json::to_string` writes for a value.
pub uninterp spec fn json_text(tree: Tree) -> Seq<char>;

/// Calls `serde_json::from_slice` for a `serde_json::Value`.
///
/// The outcome depends on the bytes alone, and a value that nests deeper than
/// [`MAX_NESTING`] is not read. What else counts as JSON is serde_json's to say and is not
/// spelled out here.
#[verifier::external_body]
fn read_value(bytes: &[u8]) -> (r: Result<serde_json::Value, String>)
    ensures
        match r {
            Ok(value) => {
                &&& json_read(bytes@) matches Ok(tree) && tree == value_tree(value)
                &&& nests_within(value_tree(value), MAX_NESTING as nat)
            },
            Err(why) => json_read(bytes@) matches Err(text) && text == why@,
        },
{
    serde_json::from_slice::<serde_json::Value>(bytes).map_err(|err| err.to_string())
}

/// Takes a `serde_json::Value` apart, variant by variant and member by member.
///
/// A number that `serde_json::Number::as_i128` does not give as an integer is a
/// [`Json::Real`].
#[verifier::external_body]
fn json_from(value: serde_json::Value) -> (r: Json)
    requires
        nests_within(value_tree(value), MAX_NESTING as nat),
    ensures
        r.tree() == value_tree(value),
{
    match value {
        serde_json::Value::Null => Json::Null,
        serde_json::Value::Bool(b) => Json::Bool(b),
        serde_json::Value::Number(n) => n.as_i128().map_or(Json::Real, Json::Int),
        serde_json::Value::String(s) => Json::Text(s),
        serde_json::Value::Array(items) => Json::List(items.into_iter().map(json_from).collect()),
        serde_json::Value::Object(members) => {
            Json::Object(members.into_iter().map(|m| (m.0, json_from(m.1))).collect())
        }
    }
}

/// Puts a `serde_json::Value` together, variant by variant.
///
/// `serde_json::Number::from_i128` takes every integer that is [`writable`]. Collecting
/// into a `serde_json::Map` keeps the order of the members, and puts the later of two with
/// one name in the place of the earlier. Every member is built, one that a later stands in
/// for too, and none nests deeper than [`MAX_NESTING`].
#[verifier::external_body]
fn value_from(json: &Json) -> (r: serde_json::Value)
    requires
        writable(*json, MAX_NESTING as nat),
    ensures
        value_tree(r) == json.tree(),
{
    let number = serde_json::Number::from_i128;
    match json {
        Json::Null | Json::Real => serde_json::Value::Null,
        Json::Bool(b) => serde_json::Value::Bool(*b),
        Json::Int(i) => number(*i).map_or(serde_json::Value::Null, serde_json::Value::Number),
        Json::Text(s) => serde_json::Value::String(s.clone()),
        Json::List(items) => serde_json::Value::Array(items.iter().map(value_from).collect()),
        Json::Object(members) => {
            members.iter().map(|m| (m.0.clone(), value_from(&m.1))).collect()
        }
    }
}

/// Calls `serde_json::to_string` on a `serde_json::Value`.
///
/// Writing a value to memory does not fail. The text depends on what the value holds
/// alone, the order of an object's members included. It escapes control characters, so it
/// holds no line break; and `serde_json::from_slice` gives back what was written.
#[verifier::external_body]
fn write_value(value: &serde_json::Value) -> (r: Result<String, String>)
    requires
        fits(value_tree(*value), MAX_NESTING as nat),
    ensures
        match r {
            Ok(text) => {
                &&& text@ == json_text(value_tree(*value))
                &&& !text@.contains('\n')
                &&& json_read(vstd::utf8::encode_utf8(text@)) matches Ok(tree)
                &&& tree == value_tree(*value)
            },
            Err(_) => false,
        },
{
    serde_json::to_string(value).map_err(|err| err.to_string())
}

/// What reading some bytes came to.
pub open spec fn outcome_tree(outcome: Result<Json, String>) -> Result<Tree, Seq<char>> {
    match outcome {
        Ok(json) => Ok(json.tree()),
        Err(why) => Err(why@),
    }
}

/// Read a JSON value.
pub fn read(bytes: &[u8]) -> (r: Result<Json, String>)
    ensures
        outcome_tree(r) == json_read(bytes@),
{
    match read_value(bytes) {
        Ok(value) => Ok(json_from(value)),
        Err(why) => Err(why),
    }
}

/// Write a JSON value on one line.
pub fn write(json: &Json) -> (r: String)
    requires
        writable(*json, MAX_NESTING as nat),
    ensures
        r@ == json_text(json.tree()),
        !r@.contains('\n'),
        json_read(vstd::utf8::encode_utf8(r@)) matches Ok(tree) && tree == json.tree(),
{
    proof {
        lemma_writable_fits(*json, MAX_NESTING as nat);
    }
    match write_value(&value_from(json)) {
        Ok(text) => text,
        Err(why) => why,
    }
}

/// Add a member to an object.
pub fn put(members: &mut Vec<(String, Json)>, name: &str, value: Json)
    ensures
        pairs_of(final(members)@) == pairs_of(old(members)@).push((name@, value.tree())),
        forall|levels: nat|
            all_writable(old(members)@, levels) && writable(value, levels)
                ==> #[trigger] all_writable(final(members)@, levels),
{
    members.push((name.to_owned(), value));
    assert(members@.drop_last() == old(members)@);
}

/// Add an element to an array.
pub fn add_item(items: &mut Vec<Json>, value: Json)
    ensures
        final(items)@ == old(items)@.push(value),
        trees(final(items)@) == trees(old(items)@).push(value.tree()),
{
    items.push(value);
    assert(items@.drop_last() == old(items)@);
}

/// A whole number that may not be there, `null` where it is not.
pub open spec fn number_tree(number: Option<nat>) -> Tree {
    match number {
        Some(n) => Tree::Int(n as int),
        None => Tree::Null,
    }
}

/// A string that may not be there, `null` where it is not.
pub open spec fn text_tree(text: Option<Seq<char>>) -> Tree {
    match text {
        Some(text) => Tree::Text(text),
        None => Tree::Null,
    }
}

/// Write a string that may not be there.
pub fn text_json(text: Option<&str>) -> (r: Json)
    ensures
        r.tree() == text_tree(crate::text::borrowed(text)),
{
    match text {
        Some(text) => Json::Text(text.to_owned()),
        None => Json::Null,
    }
}

/// The member of an object that carries a name.
pub fn find<'a>(members: &'a Vec<(String, Json)>, name: &str) -> (r: Option<&'a Json>)
    ensures
        match r {
            Some(value) => members_of(members@).contains_key(name@) && members_of(
                members@,
            )[name@] == value.tree(),
            None => !members_of(members@).contains_key(name@),
        },
{
    let mut found: Option<usize> = None;
    let mut at: usize = 0;
    assert(members@.take(0) == Seq::<(String, Json)>::empty());
    while at < members.len()
        invariant
            at <= members@.len(),
            match found {
                Some(i) => {
                    &&& i < at
                    &&& members_of(members@.take(at as int)).contains_key(name@)
                    &&& members_of(members@.take(at as int))[name@] == members@[i as int].1.tree()
                },
                None => !members_of(members@.take(at as int)).contains_key(name@),
            },
        decreases members@.len() - at,
    {
        assert(members@.take(at + 1).drop_last() == members@.take(at as int));
        assert(members@.take(at + 1).last() == members@[at as int]);
        assert(pairs_of(members@.take(at + 1)).drop_last() == pairs_of(members@.take(at as int)));
        if crate::text::same(members[at].0.as_str(), name) {
            found = Some(at);
        }
        at += 1;
    }
    assert(members@.take(members@.len() as int) == members@);
    match found {
        Some(i) => Some(&members[i].1),
        None => None,
    }
}

/// Whether an object has one name and no other among its members.
pub fn only_names(members: &Vec<(String, Json)>, name: &str) -> (r: bool)
    ensures
        r == (members_of(members@).dom() == set![name@]),
{
    let mut only: bool = true;
    let mut at: usize = 0;
    assert(members@.take(0) == Seq::<(String, Json)>::empty());
    while at < members.len()
        invariant
            at <= members@.len(),
            only ==> members_of(members@.take(at as int)).dom() == (if at == 0 {
                Set::<Seq<char>>::empty()
            } else {
                set![name@]
            }),
            !only ==> exists|other: Seq<char>|
                other != name@ && #[trigger] members_of(members@.take(at as int)).contains_key(
                    other,
                ),
        decreases members@.len() - at,
    {
        let ghost before = members_of(members@.take(at as int));
        assert(members@.take(at + 1).drop_last() == members@.take(at as int));
        assert(members@.take(at + 1).last() == members@[at as int]);
        assert(pairs_of(members@.take(at + 1)).drop_last() == pairs_of(members@.take(at as int)));
        let ghost after = members_of(members@.take(at + 1));
        if !crate::text::same(members[at].0.as_str(), name) {
            only = false;
            assert(after.contains_key(members@[at as int].0@));
        } else {
            proof {
                if only {
                    assert(after.dom() =~= set![name@]);
                } else {
                    let other = choose|other: Seq<char>|
                        other != name@ && #[trigger] before.contains_key(other);
                    assert(after.contains_key(other));
                }
            }
        }
        at += 1;
    }
    assert(members@.take(members@.len() as int) == members@);
    proof {
        if members@.len() == 0 {
            assert(set![name@].contains(name@));
            assert(!members_of(members@).contains_key(name@));
        } else if !only {
            let other = choose|other: Seq<char>|
                other != name@ && #[trigger] members_of(members@).contains_key(other);
            assert(!set![name@].contains(other));
        }
    }
    only && members.len() > 0
}

/// Members with different names make an object that holds them in the order in which they
/// were added, each under its own name.
pub proof fn law_members_keep_their_order(pairs: Seq<(Seq<char>, Tree)>)
    requires
        forall|i: int, j: int|
            0 <= i < j < pairs.len() ==> (#[trigger] pairs[i]).0 != (#[trigger] pairs[j]).0,
    ensures
        object(pairs) == Tree::Object(pairs),
        forall|i: int|
            #![trigger pairs[i]]
            0 <= i < pairs.len() ==> {
                &&& fields(pairs).contains_key(pairs[i].0)
                &&& fields(pairs)[pairs[i].0] == pairs[i].1
            },
    decreases pairs.len(),
{
    if pairs.len() > 0 {
        let front = pairs.drop_last();
        assert forall|i: int, j: int| 0 <= i < j < front.len() implies (#[trigger] front[i]).0 != (
        #[trigger] front[j]).0 by {
            assert(front[i] == pairs[i] && front[j] == pairs[j]);
        }
        law_members_keep_their_order(front);
        lemma_place(front, pairs.last().0);
        let at = place_of(front, pairs.last().0);
        if at < front.len() {
            assert(front[at as int] == pairs[at as int]);
            assert(pairs[pairs.len() - 1].0 != pairs[at as int].0);
        }
        assert(front.push(pairs.last()) == pairs);
        assert(listed(front) == front);
        assert(listed(pairs) == front.push((pairs.last().0, pairs.last().1)));
    }
    assert(listed(pairs) == pairs);
    assert forall|i: int|
        #![trigger pairs[i]]
        0 <= i < pairs.len() implies {
        &&& fields(pairs).contains_key(pairs[i].0)
        &&& fields(pairs)[pairs[i].0] == pairs[i].1
    } by {
        lemma_place(pairs, pairs[i].0);
        lemma_place_is_found(pairs, i);
        let at = place_of(pairs, pairs[i].0) as int;
        if at != i {
            assert(pairs[at].0 == pairs[i].0);
        }
    }
}

proof fn lemma_place_is_found(members: Seq<(Seq<char>, Tree)>, i: int)
    requires
        0 <= i < members.len(),
    ensures
        place_of(members, members[i].0) <= i,
    decreases members.len(),
{
    let front = members.drop_last();
    lemma_place(front, members[i].0);
    if i < front.len() {
        assert(front[i] == members[i]);
        lemma_place_is_found(front, i);
    }
}

/// Of two members with one name the later one counts, and a name that none has is not there.
pub proof fn law_the_last_member_of_a_name_counts(
    pairs: Seq<(Seq<char>, Tree)>,
    name: Seq<char>,
    at: int,
)
    requires
        0 <= at < pairs.len(),
        pairs[at].0 == name,
        forall|i: int| at < i < pairs.len() ==> (#[trigger] pairs[i]).0 != name,
    ensures
        by_name(pairs).contains_key(name),
        by_name(pairs)[name] == pairs[at].1,
        fields(listed(pairs)) == by_name(pairs),
    decreases pairs.len(),
{
    lemma_fields(pairs);
    if at < pairs.len() - 1 {
        let front = pairs.drop_last();
        assert(front[at] == pairs[at]);
        assert forall|i: int| at < i < front.len() implies (#[trigger] front[i]).0 != name by {
            assert(front[i] == pairs[i]);
        }
        law_the_last_member_of_a_name_counts(front, name, at);
        assert(pairs[pairs.len() - 1].0 != name);
    }
}

/// A name that no member has is not there.
pub proof fn law_no_member_appears_from_nowhere(pairs: Seq<(Seq<char>, Tree)>, name: Seq<char>)
    requires
        forall|i: int| 0 <= i < pairs.len() ==> (#[trigger] pairs[i]).0 != name,
    ensures
        !by_name(pairs).contains_key(name),
    decreases pairs.len(),
{
    if pairs.len() > 0 {
        let front = pairs.drop_last();
        assert forall|i: int| 0 <= i < front.len() implies (#[trigger] front[i]).0 != name by {
            assert(front[i] == pairs[i]);
        }
        law_no_member_appears_from_nowhere(front, name);
        assert(pairs[pairs.len() - 1].0 != name);
    }
}

/// A value stands for what it is: a number for that number, a string for its characters, an
/// array for its elements in order, and an object for its members.
pub proof fn law_a_value_stands_for_what_it_is(json: Json)
    ensures
        match json {
            Json::Null => json.tree() == Tree::Null,
            Json::Bool(b) => json.tree() == Tree::Bool(b),
            Json::Int(i) => json.tree() == Tree::Int(i as int),
            Json::Real => json.tree() == Tree::Real,
            Json::Text(s) => json.tree() == Tree::Text(s@),
            Json::List(items) => {
                &&& json.tree() matches Tree::List(values)
                &&& values.len() == items@.len()
                &&& forall|i: int|
                    0 <= i < items@.len() ==> #[trigger] values[i] == items@[i].tree()
            },
            Json::Object(members) => {
                &&& json.tree() == object(pairs_of(members@))
                &&& pairs_of(members@).len() == members@.len()
                &&& forall|i: int|
                    0 <= i < members@.len() ==> #[trigger] pairs_of(members@)[i] == (
                        members@[i].0@,
                        members@[i].1.tree(),
                    )
            },
        },
{
    match json {
        Json::List(items) => lemma_trees(items@),
        Json::Object(members) => lemma_pairs(members@),
        _ => {},
    }
}

/// A value that may not be there is `null` where it is not.
pub proof fn law_what_is_not_there_is_null(number: Option<nat>, text: Option<Seq<char>>)
    ensures
        match number {
            Some(n) => number_tree(number) == Tree::Int(n as int),
            None => number_tree(number) == Tree::Null,
        },
        match text {
            Some(t) => text_tree(text) == Tree::Text(t),
            None => text_tree(text) == Tree::Null,
        },
{
}

/// A value can be written one level deeper inside an array or an object than alone; a number
/// only where it is an integer that fits 64 bits.
pub proof fn law_each_array_and_object_is_one_level(json: Json, levels: nat)
    ensures
        match json {
            Json::List(items) => {
                &&& !writable(json, 0)
                &&& writable(json, levels + 1) <==> forall|i: int|
                    0 <= i < items@.len() ==> writable(#[trigger] items@[i], levels)
            },
            Json::Object(members) => {
                &&& !writable(json, 0)
                &&& writable(json, levels + 1) <==> forall|i: int|
                    0 <= i < members@.len() ==> writable((#[trigger] members@[i]).1, levels)
            },
            Json::Int(n) => writable(json, levels) <==> -0x8000_0000_0000_0000 <= n
                <= 0xffff_ffff_ffff_ffff,
            Json::Real => !writable(json, levels),
            _ => writable(json, levels),
        },
{
    reveal_with_fuel(writable, 2);
    let deeper: nat = levels + 1;
    assert((deeper - 1) as nat == levels);
    match json {
        Json::List(items) => {
            if writable(json, deeper) {
                assert forall|i: int| 0 <= i < items@.len() implies writable(
                    #[trigger] items@[i],
                    levels,
                ) by {
                    assert(writable(items@[i], (deeper - 1) as nat));
                }
            }
        },
        Json::Object(members) => {
            if writable(json, deeper) {
                assert forall|i: int| 0 <= i < members@.len() implies writable(
                    (#[trigger] members@[i]).1,
                    levels,
                ) by {
                    assert(writable(members@[i].1, (deeper - 1) as nat));
                }
            }
        },
        _ => {},
    }
}

/// A member that is added under a name that is there already takes the place of the one that
/// was: the others stay where they are, and there are no more than before. One with a new name
/// comes last.
pub proof fn law_a_later_member_takes_the_place_of_the_earlier(
    pairs: Seq<(Seq<char>, Tree)>,
    name: Seq<char>,
    value: Tree,
)
    ensures
        ({
            let before = listed(pairs);
            let after = listed(pairs.push((name, value)));
            if by_name(pairs).contains_key(name) {
                &&& after.len() == before.len()
                &&& exists|at: int|
                    0 <= at < before.len() && (#[trigger] before[at]).0 == name && after
                        == before.update(at, (name, value))
            } else {
                after == before.push((name, value))
            }
        }),
{
    let before = listed(pairs);
    assert(pairs.push((name, value)).drop_last() =~= pairs);
    lemma_fields(pairs);
    lemma_place(before, name);
    let at = place_of(before, name) as int;
    assert(fields(before).contains_key(name) <==> at < before.len());
    if at < before.len() {
        assert(before[at].0 == name);
    }
}

}
