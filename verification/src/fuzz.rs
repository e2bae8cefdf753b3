//! The control socket's decoding, end to end and without a socket.
//!
//! Everything a peer's bytes pass through before they reach the compositor's own
//! state: framing into lines, the line cap, decoding a request, the checks a
//! request's arguments get before they are acted on, and encoding the reply.

use vstd::prelude::*;
use crate::ipc;
use crate::ipc::framing;
use crate::ipc::framing::MAX_LINE;
use crate::ipc::reply::{id_of, reads_as, reply_tree};
use crate::ipc::request::{is_blank_line, meaning_of_line, Meaning, Parsed, Request};
use crate::json::{Json, Tree};
use crate::stacking::SHELL_APP_ID;

verus! {

/// A refusal that takes some escaping.
pub const REFUSAL: &'static str = "refused: \u{0}\n\"quoted\"";

/// What the replies to a line read as: none to a blank one, the error to one that cannot
/// be read, and to a request both of what it can be answered with.
pub open spec fn replies_to(line: Seq<u8>) -> Seq<Tree> {
    if is_blank_line(line) {
        Seq::empty()
    } else {
        match meaning_of_line(line) {
            Meaning::Refused(id, why) => seq![reply_tree(id, Err(why))],
            Meaning::Request(id, _) => seq![
                reply_tree(id, Ok(Tree::Null)),
                reply_tree(id, Err(REFUSAL@)),
            ],
        }
    }
}

/// What the replies to some lines read as.
pub open spec fn replies_to_all(lines: Seq<Seq<u8>>) -> Seq<Tree>
    decreases lines.len(),
{
    if lines.len() == 0 {
        Seq::empty()
    } else {
        replies_to_all(lines.drop_last()) + replies_to(lines.last())
    }
}

/// Whether each text is one line of JSON that reads as the value in its place.
pub open spec fn all_read_as(texts: Seq<String>, trees: Seq<Tree>) -> bool {
    &&& texts.len() == trees.len()
    &&& forall|i: int| 0 <= i < texts.len() ==> reads_as((#[trigger] texts[i])@, trees[i])
}

/// Decode one line and answer it in every way it can be answered.
pub fn check_line(line: &[u8]) -> (r: Vec<String>)
    ensures
        all_read_as(r@, replies_to(line@)),
{
    let mut replies: Vec<String> = Vec::new();
    match ipc::parse_line(line) {
        Parsed::Blank => {},
        Parsed::Invalid(reply) => {
            replies.push(reply);
        },
        Parsed::Request(id, request) => {
            if let Request::PlaceWindow { app_id, title, x, y, w, h } = request {
                match ipc::place_target(SHELL_APP_ID, app_id, title, x, y, w, h) {
                    Ok((_, Some(rect))) => {
                        assert(rect.w > 0 && rect.h > 0);
                    },
                    _ => {},
                }
            }
            replies.push(ipc::reply(id, Ok(Json::Null)));
            replies.push(ipc::reply(id, Err(REFUSAL.to_owned())));
        },
    }
    replies
}

/// The complete lines that come out of a stream read a few bytes at a time, where
/// `held` has been read already. A line that grows past the cap is dropped with the
/// connection, and a fresh one starts empty.
pub open spec fn lines_of_reads(held: Seq<u8>, stream: Seq<u8>, size: nat) -> Seq<Seq<u8>>
    decreases stream.len(),
{
    if stream.len() == 0 || size == 0 {
        Seq::empty()
    } else {
        let n = if size < stream.len() {
            size as int
        } else {
            stream.len() as int
        };
        let buffer = held + stream.take(n);
        let left = framing::unfinished(buffer);
        framing::lines(buffer) + lines_of_reads(
            if left.len() > MAX_LINE {
                Seq::empty()
            } else {
                left
            },
            stream.skip(n),
            size,
        )
    }
}

/// How much of a stream is read at once: its first byte picks the size, so the same
/// stream also has its lines split across reads.
pub open spec fn read_size(stream: Seq<u8>) -> nat {
    if stream.len() == 0 {
        1
    } else {
        (stream[0] as nat % 64) + 1
    }
}

proof fn lemma_replies_to_more(lines: Seq<Seq<u8>>, more: Seq<Seq<u8>>)
    ensures
        replies_to_all(lines + more) == replies_to_all(lines) + replies_to_all(more),
    decreases more.len(),
{
    if more.len() == 0 {
        assert(lines + more == lines);
    } else {
        lemma_replies_to_more(lines, more.drop_last());
        assert((lines + more).drop_last() == lines + more.drop_last());
    }
}

proof fn lemma_reply_to_one(line: Seq<u8>)
    ensures
        replies_to_all(seq![line]) == replies_to(line),
{
    assert(seq![line].drop_last() == Seq::<Seq<u8>>::empty());
    assert(replies_to_all(seq![line].drop_last()) == Seq::<Tree>::empty());
}

/// Answer every complete line in a buffer, and leave what follows them.
fn drain_lines(buffer: &mut Vec<u8>, replies: &mut Vec<String>, Ghost(before): Ghost<Seq<Tree>>)
    requires
        all_read_as(old(replies)@, before),
    ensures
        final(buffer)@ == framing::unfinished(old(buffer)@),
        all_read_as(final(replies)@, before + replies_to_all(framing::lines(old(buffer)@))),
{
    let ghost all = framing::lines(buffer@);
    let ghost mut done: Seq<Seq<u8>> = Seq::empty();
    assert(before + replies_to_all(done) == before);
    loop
        invariant
            all == framing::lines(old(buffer)@),
            all == done + framing::lines(buffer@),
            framing::unfinished(old(buffer)@) == framing::unfinished(buffer@),
            all_read_as(replies@, before + replies_to_all(done)),
        ensures
            framing::lines(buffer@) == Seq::<Seq<u8>>::empty(),
        decreases buffer@.len(),
    {
        match ipc::next_line(buffer) {
            Some(line) => {
                let mut answers = check_line(line.as_slice());
                let ghost given = answers@;
                let ghost so_far = replies@;
                replies.append(&mut answers);
                proof {
                    lemma_reply_to_one(line@);
                    lemma_replies_to_more(done, seq![line@]);
                    let trees = before + replies_to_all(done + seq![line@]);
                    assert(trees == before + replies_to_all(done) + replies_to(line@));
                    assert(replies@ == so_far + given);
                    done = done + seq![line@];
                }
            },
            None => {
                break;
            },
        }
    }
    proof {
        assert(done == all);
        assert(buffer@ == framing::unfinished(buffer@)) by {
            framing::law_nothing_is_lost(buffer@);
            assert(framing::joined(framing::lines(buffer@)) == Seq::<u8>::empty());
        }
    }
}

/// Feed a byte stream through the control socket's decoding, the way reads would
/// deliver it. Every reply is one line of JSON, and an object.
pub fn control_stream(data: &[u8]) -> (r: Vec<String>)
    ensures
        all_read_as(
            r@,
            replies_to_all(lines_of_reads(Seq::empty(), data@, read_size(data@))),
        ),
{
    let size: usize = if data.len() == 0 {
        1
    } else {
        (data[0] % 64) as usize + 1
    };
    let mut replies: Vec<String> = Vec::new();
    let mut buffer: Vec<u8> = Vec::new();
    let mut at: usize = 0;
    let ghost all = lines_of_reads(Seq::empty(), data@, size as nat);
    let ghost mut done: Seq<Seq<u8>> = Seq::empty();
    assert(data@.skip(0) == data@);
    assert(all == done + lines_of_reads(buffer@, data@.skip(0), size as nat));
    while at < data.len()
        invariant
            at <= data@.len(),
            1 <= size <= 64,
            all == lines_of_reads(Seq::empty(), data@, size as nat),
            all == done + lines_of_reads(buffer@, data@.skip(at as int), size as nat),
            all_read_as(replies@, replies_to_all(done)),
        decreases data@.len() - at,
    {
        let end: usize = if data.len() - at > size {
            at + size
        } else {
            data.len()
        };
        let piece = vstd::slice::slice_subrange(data, at, end);
        let ghost held = buffer@;
        buffer.extend_from_slice(piece);
        let ghost read = buffer@;
        drain_lines(&mut buffer, &mut replies, Ghost(replies_to_all(done)));
        proof {
            let rest = data@.skip(at as int);
            assert(piece@ == rest.take(end - at));
            assert(read == held + rest.take(end - at));
            assert(rest.skip(end - at) == data@.skip(end as int));
            lemma_replies_to_more(done, framing::lines(read));
            done = done + framing::lines(read);
        }
        if ipc::unterminated_too_long(buffer.as_slice()) {
            buffer.clear();
        }
        proof {
            lemma_unfinished_is_unfinished(read);
            assert(all == done + lines_of_reads(buffer@, data@.skip(end as int), size as nat));
        }
        at = end;
    }
    assert(done == all);
    replies
}

proof fn lemma_unfinished_is_unfinished(stream: Seq<u8>)
    ensures
        framing::unfinished(framing::unfinished(stream)) == framing::unfinished(stream),
{
    framing::law_reads_may_be_cut_anywhere(stream, Seq::empty());
    assert(stream + Seq::<u8>::empty() == stream);
    assert(framing::unfinished(stream) + Seq::<u8>::empty() == framing::unfinished(stream));
}

/// Every reply is an object, whatever the lines are.
pub proof fn law_every_reply_is_an_object(lines: Seq<Seq<u8>>)
    ensures
        forall|i: int|
            0 <= i < replies_to_all(lines).len() ==> #[trigger] replies_to_all(lines)[i] is Object,
    decreases lines.len(),
{
    if lines.len() > 0 {
        law_every_reply_is_an_object(lines.drop_last());
        let front = replies_to_all(lines.drop_last());
        let all = replies_to_all(lines);
        assert forall|i: int| 0 <= i < all.len() implies #[trigger] all[i] is Object by {
            if i < front.len() {
                assert(all[i] == front[i]);
            } else {
                assert(all[i] == replies_to(lines.last())[i - front.len()]);
            }
        }
    }
}

/// As long as no line can grow past the cap, the size of the reads makes no difference.
pub proof fn law_the_size_of_reads_does_not_matter(held: Seq<u8>, stream: Seq<u8>, size: nat)
    requires
        size > 0,
        held.len() + stream.len() <= MAX_LINE,
        framing::unfinished(held) == held,
    ensures
        lines_of_reads(held, stream, size) == framing::lines(held + stream),
    decreases stream.len(),
{
    if stream.len() == 0 {
        assert(held + stream == held);
        lemma_unfinished_has_no_lines(held);
    } else {
        let n = if size < stream.len() {
            size as int
        } else {
            stream.len() as int
        };
        let buffer = held + stream.take(n);
        let left = framing::unfinished(buffer);
        framing::law_nothing_is_lost(buffer);
        assert(left.len() <= buffer.len());
        lemma_unfinished_is_unfinished(buffer);
        law_the_size_of_reads_does_not_matter(left, stream.skip(n), size);
        framing::law_reads_may_be_cut_anywhere(buffer, stream.skip(n));
        assert(held + stream == buffer + stream.skip(n));
    }
}

proof fn lemma_unfinished_has_no_lines(held: Seq<u8>)
    requires
        framing::unfinished(held) == held,
    ensures
        framing::lines(held) == Seq::<Seq<u8>>::empty(),
{
    framing::law_nothing_is_lost(held);
    let lines = framing::lines(held);
    if lines.len() > 0 {
        assert(framing::joined(lines).len() > 0);
    }
}

/// A blank line has no reply, a line that is no request has the one that refuses it, and a
/// request has one for each way it can end; all of them carry the line's `id`.
pub proof fn law_every_line_is_answered(line: Seq<u8>)
    ensures
        is_blank_line(line) <==> replies_to(line).len() == 0,
        !is_blank_line(line) ==> match meaning_of_line(line) {
            Meaning::Refused(id, why) => {
                &&& replies_to(line).len() == 1
                &&& replies_to(line)[0] == reply_tree(id, Err(why))
            },
            Meaning::Request(id, _) => {
                &&& replies_to(line).len() == 2
                &&& replies_to(line)[0] == reply_tree(id, Ok(Tree::Null))
                &&& replies_to(line)[1] == reply_tree(id, Err(REFUSAL@))
            },
        },
{
}

/// Lines are answered one after the other, each as if it were alone.
pub proof fn law_lines_are_answered_one_by_one(first: Seq<Seq<u8>>, line: Seq<u8>)
    ensures
        replies_to_all(first.push(line)) == replies_to_all(first) + replies_to(line),
        replies_to_all(Seq::empty()) == Seq::<Tree>::empty(),
{
    assert(first.push(line).drop_last() =~= first);
}

}
