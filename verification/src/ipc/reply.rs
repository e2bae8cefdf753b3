//! What the control socket answers.

use vstd::prelude::*;
use crate::json;
use crate::json::Json;

verus! {

/// A mode, in the units the Wayland output protocol uses.
#[derive(Clone, Copy, Debug, PartialEq, Eq, Structural)]
pub struct ModeInfo {
    /// Width in pixels.
    pub w: i32,
    /// Height in pixels.
    pub h: i32,
    /// Refresh rate in mHz.
    pub refresh: i32,
    /// Whether the display asked for this one.
    pub preferred: bool,
}

/// What an output can do and what it is doing.
#[derive(Debug)]
pub struct OutputInfo {
    /// Connector name.
    pub name: String,
    /// The mode in use.
    pub current: Option<ModeInfo>,
    /// Every mode the connector advertises.
    pub modes: Vec<ModeInfo>,
    /// Whether a display is attached right now.
    ///
    /// A TV that has been switched off reports false, and nothing is drawn until it
    /// comes back.
    pub connected: bool,
    /// Colour space state.
    pub hdr: HdrInfo,
}

/// Whether HDR can be claimed on this output, and whether it is.
#[derive(Clone, Copy, Debug, PartialEq, Eq, Structural)]
pub struct HdrInfo {
    /// The driver exposes the connector properties a claim needs.
    ///
    /// This says nothing about the panel. Whether the TV can show HDR is in its
    /// EDID, which the shell already reads.
    pub supported: bool,
    /// A claim is in effect.
    pub on: bool,
}

/// Whether a text is the one line of JSON that is written for a value and reads back as it.
pub open spec fn reads_as(text: Seq<char>, tree: json::Tree) -> bool {
    &&& text == json::json_text(tree)
    &&& !text.contains('\n')
    &&& json::json_read(vstd::utf8::encode_utf8(text)) matches Ok(read)
    &&& read == tree
}

/// A reply: the request's `id`, then `ok` or `error`.
pub open spec fn reply_tree(
    id: Option<nat>,
    outcome: Result<json::Tree, Seq<char>>,
) -> json::Tree {
    match outcome {
        Ok(value) => json::object(seq![("id"@, json::number_tree(id)), ("ok"@, value)]),
        Err(why) => json::object(
            seq![("id"@, json::number_tree(id)), ("error"@, json::Tree::Text(why))],
        ),
    }
}

/// The number in an `id`.
pub open spec fn id_of(id: Option<u64>) -> Option<nat> {
    match id {
        Some(id) => Some(id as nat),
        None => None,
    }
}

/// Whether an outcome can be put in a reply.
pub open spec fn answerable(outcome: Result<Json, String>) -> bool {
    outcome matches Ok(value) ==> json::writable(value, (json::MAX_NESTING - 1) as nat)
}

/// Answer a request: one line of JSON, the `id` before the outcome, that reads back as
/// both.
pub fn reply(id: Option<u64>, outcome: Result<Json, String>) -> (r: String)
    requires
        answerable(outcome),
    ensures
        reads_as(r@, reply_tree(id_of(id), json::outcome_tree(outcome))),
{
    let ghost asked = outcome;
    let mut members: Vec<(String, Json)> = Vec::new();
    let id_json = match id {
        Some(id) => Json::Int(id as i128),
        None => Json::Null,
    };
    json::put(&mut members, "id", id_json);
    match outcome {
        Ok(value) => json::put(&mut members, "ok", value),
        Err(why) => json::put(&mut members, "error", Json::Text(why)),
    }
    assert(json::all_writable(members@, (json::MAX_NESTING - 1) as nat));
    let ghost pairs = json::pairs_of(members@);
    proof {
        match json::outcome_tree(asked) {
            Ok(value) => {
                assert(pairs == seq![("id"@, json::number_tree(id_of(id))), ("ok"@, value)]);
            },
            Err(why) => {
                assert(pairs == seq![
                    ("id"@, json::number_tree(id_of(id))),
                    ("error"@, json::Tree::Text(why)),
                ]);
            },
        }
    }
    let answer = Json::Object(members);
    json::write(&answer)
}

proof fn lemma_reply_fields(id: Option<nat>, outcome: Result<json::Tree, Seq<char>>)
    ensures
        json::fields(reply_tree(id, outcome)->Object_0) == (match outcome {
            Ok(value) => Map::empty().insert("id"@, json::number_tree(id)).insert("ok"@, value),
            Err(why) => Map::empty().insert("id"@, json::number_tree(id)).insert(
                "error"@,
                json::Tree::Text(why),
            ),
        }),
{
    let second = match outcome {
        Ok(value) => ("ok"@, value),
        Err(why) => ("error"@, json::Tree::Text(why)),
    };
    let first = ("id"@, json::number_tree(id));
    let pairs = seq![first, second];
    json::lemma_fields(pairs);
    assert(pairs.drop_last() == seq![first]);
    assert(seq![first].drop_last() == Seq::<(Seq<char>, json::Tree)>::empty());
    reveal_with_fuel(json::by_name, 3);
}

/// Two replies that read the same answer the same request with the same outcome.
pub proof fn law_replies_are_told_apart(
    first_id: Option<nat>,
    first: Result<json::Tree, Seq<char>>,
    second_id: Option<nat>,
    second: Result<json::Tree, Seq<char>>,
)
    requires
        reply_tree(first_id, first) == reply_tree(second_id, second),
    ensures
        first_id == second_id,
        first == second,
{
    reveal_strlit("id");
    reveal_strlit("ok");
    reveal_strlit("error");
    assert("id"@.len() == 2 && "id"@[0] == 'i');
    assert("ok"@.len() == 2 && "ok"@[0] == 'o');
    assert("error"@.len() == 5);
    lemma_reply_fields(first_id, first);
    lemma_reply_fields(second_id, second);
    let a = json::fields(reply_tree(first_id, first)->Object_0);
    let b = json::fields(reply_tree(second_id, second)->Object_0);
    assert(a["id"@] == json::number_tree(first_id));
    assert(b["id"@] == json::number_tree(second_id));
    match (first, second) {
        (Ok(x), Ok(y)) => {
            assert(a["ok"@] == x);
            assert(b["ok"@] == y);
        },
        (Err(x), Err(y)) => {
            assert(a["error"@] == json::Tree::Text(x));
            assert(b["error"@] == json::Tree::Text(y));
        },
        (Ok(_), Err(_)) => {
            assert(a.contains_key("ok"@) && !b.contains_key("ok"@));
        },
        (Err(_), Ok(_)) => {
            assert(b.contains_key("ok"@) && !a.contains_key("ok"@));
        },
    }
}

/// A reply says whom it answers first, and then what came of it: a value under `ok`, or what
/// went wrong under `error`, and nothing else.
pub proof fn law_a_reply_holds_its_id_and_its_outcome(
    id: Option<nat>,
    outcome: Result<json::Tree, Seq<char>>,
)
    ensures
        reply_tree(id, outcome) matches json::Tree::Object(members) && {
            &&& members.len() == 2
            &&& members[0].0 == "id"@
            &&& match id {
                Some(number) => members[0].1 == json::Tree::Int(number as int),
                None => members[0].1 == json::Tree::Null,
            }
            &&& match outcome {
                Ok(value) => members[1] == ("ok"@, value),
                Err(why) => members[1] == ("error"@, json::Tree::Text(why)),
            }
        },
{
    reveal_strlit("id");
    reveal_strlit("ok");
    reveal_strlit("error");
    assert("id"@.len() == 2 && "id"@[0] == 'i');
    assert("ok"@.len() == 2 && "ok"@[0] == 'o');
    assert("error"@.len() == 5);
    let second = match outcome {
        Ok(value) => ("ok"@, value),
        Err(why) => ("error"@, json::Tree::Text(why)),
    };
    let pairs = seq![("id"@, json::number_tree(id)), second];
    json::law_members_keep_their_order(pairs);
}

/// The `id` of a reply is the one of its request.
pub proof fn law_an_id_is_itself(id: Option<u64>)
    ensures
        match id {
            Some(number) => id_of(id) == Some(number as nat),
            None => id_of(id) is None,
        },
{
}

}
