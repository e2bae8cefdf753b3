//! One control connection, turn by turn of the event loop.

use vstd::prelude::*;
use crate::ipc::framing;
use crate::ipc::framing::{LINE_FEED, MAX_LINE};

verus! {

/// How much one connection is read, and how many of its requests are answered, per
/// turn of the event loop. Whatever is left is picked up on the next turn - after the
/// frames, the input and every other client have had theirs. Without a bound a peer
/// that writes as fast as it can would keep the loop busy and freeze the picture and
/// the remote.
pub const MAX_READ_PER_TURN: usize = 262144;

/// How many requests of one connection are answered per turn.
pub const MAX_REQUESTS_PER_TURN: usize = 64;

/// The most that one read delivers.
pub const READ_SIZE: usize = 4096;

/// How often a reply is offered to a peer before it is taken to have stopped reading.
pub const MAX_WRITES: usize = 16;

/// Whether a connection from a process with this user id is let in: only one from our
/// own user is.
pub fn admits(peer: Option<u32>, own: u32) -> (r: bool)
    ensures
        r == (peer == Some(own)),
{
    match peer {
        Some(uid) => uid == own,
        None => false,
    }
}

/// What a connection holds between turns, and what it has done in this one.
pub struct Connection {
    /// What has been read and not yet answered.
    pub buffer: Vec<u8>,
    /// How much has been read this turn.
    pub read: usize,
    /// How many requests have been answered this turn.
    pub answered: usize,
    /// Whether the peer has hung up.
    pub closed: bool,
}

/// What becomes of a connection at the end of a turn.
#[derive(Debug, Clone, Copy, PartialEq, Eq, Structural)]
pub enum Verdict {
    /// It stays.
    Keep,
    /// It sent a line that no request can be, and is dropped.
    Overlong,
    /// The peer is gone and there is nothing left to answer.
    Closed,
}

/// How a read failed.
#[derive(Debug, Clone, Copy, PartialEq, Eq, Structural)]
pub enum ReadFailure {
    /// There is nothing to read right now.
    WouldBlock,
    /// A signal came in between.
    Interrupted,
    /// Anything else.
    Other,
}

/// What follows a read that failed.
#[derive(Debug, Clone, Copy, PartialEq, Eq, Structural)]
pub enum AfterFailure {
    /// Go on to the requests that are there.
    Answer,
    /// Read again.
    Retry,
    /// Drop the connection.
    Remove,
}

/// What follows a read that failed.
pub fn after_failed_read(failure: ReadFailure) -> (r: AfterFailure)
    ensures
        r == (match failure {
            ReadFailure::WouldBlock => AfterFailure::Answer,
            ReadFailure::Interrupted => AfterFailure::Retry,
            ReadFailure::Other => AfterFailure::Remove,
        }),
{
    match failure {
        ReadFailure::WouldBlock => AfterFailure::Answer,
        ReadFailure::Interrupted => AfterFailure::Retry,
        ReadFailure::Other => AfterFailure::Remove,
    }
}

impl Connection {
    /// A connection is never allowed to hold or to do more than this.
    pub open spec fn bounded(&self) -> bool {
        &&& self.buffer@.len() <= MAX_LINE + READ_SIZE
        &&& self.read < MAX_READ_PER_TURN + READ_SIZE
        &&& self.answered <= MAX_REQUESTS_PER_TURN
    }

    /// A fresh connection.
    pub fn new() -> (r: Connection)
        ensures
            r.bounded(),
            r.buffer@ == Seq::<u8>::empty(),
            r.read == 0,
            r.answered == 0,
            !r.closed,
    {
        Connection { buffer: Vec::new(), read: 0, answered: 0, closed: false }
    }

    /// A turn begins.
    pub fn begin_turn(&mut self)
        requires
            old(self).bounded(),
        ensures
            final(self).bounded(),
            final(self).buffer@ == old(self).buffer@,
            final(self).read == 0,
            final(self).answered == 0,
            !final(self).closed,
    {
        self.read = 0;
        self.answered = 0;
        self.closed = false;
    }

    /// Whether there is room for another read this turn.
    pub open spec fn has_room(&self) -> bool {
        &&& !self.closed
        &&& self.read < MAX_READ_PER_TURN
        &&& self.buffer@.len() <= MAX_LINE
    }

    /// Whether to read on. Only while there is room: the requests already in the buffer
    /// are answered first, so a peer cannot fill it faster than it is drained.
    pub fn wants_read(&self) -> (r: bool)
        ensures
            r == self.has_room(),
    {
        !self.closed && self.read < MAX_READ_PER_TURN && self.buffer.len() <= MAX_LINE
    }

    /// A read delivered some bytes, or none because the peer hung up.
    pub fn received(&mut self, bytes: &[u8])
        requires
            old(self).bounded(),
            old(self).has_room(),
            bytes@.len() <= READ_SIZE,
        ensures
            final(self).bounded(),
            final(self).buffer@ == old(self).buffer@ + bytes@,
            final(self).read == old(self).read + bytes@.len(),
            final(self).answered == old(self).answered,
            final(self).closed == (bytes@.len() == 0),
    {
        if bytes.len() == 0 {
            self.closed = true;
        } else {
            self.read += bytes.len();
            self.buffer.extend_from_slice(bytes);
        }
        assert(self.buffer@ == old(self).buffer@ + bytes@);
    }

    /// The next request line to answer this turn, if there is one.
    pub fn next_request(&mut self) -> (r: Option<Vec<u8>>)
        requires
            old(self).bounded(),
        ensures
            final(self).bounded(),
            final(self).read == old(self).read,
            final(self).closed == old(self).closed,
            r is Some == (old(self).answered < MAX_REQUESTS_PER_TURN && framing::lines(
                old(self).buffer@,
            ).len() > 0),
            match r {
                Some(line) => {
                    &&& final(self).answered == old(self).answered + 1
                    &&& old(self).buffer@ == line@ + seq![LINE_FEED] + final(self).buffer@
                    &&& framing::lines(old(self).buffer@) == seq![line@] + framing::lines(
                        final(self).buffer@,
                    )
                    &&& framing::unfinished(old(self).buffer@) == framing::unfinished(
                        final(self).buffer@,
                    )
                },
                None => {
                    &&& final(self).answered == old(self).answered
                    &&& final(self).buffer@ == old(self).buffer@
                },
            },
    {
        if self.answered >= MAX_REQUESTS_PER_TURN {
            return None;
        }
        match framing::next_line(&mut self.buffer) {
            Some(line) => {
                self.answered += 1;
                Some(line)
            },
            None => None,
        }
    }

    /// What becomes of the connection, given what it still holds.
    pub open spec fn verdict(&self) -> Verdict {
        if framing::unfinished(self.buffer@).len() > MAX_LINE {
            Verdict::Overlong
        } else if self.closed && framing::lines(self.buffer@).len() == 0 {
            Verdict::Closed
        } else {
            Verdict::Keep
        }
    }

    /// A turn ends.
    pub fn end_turn(&self) -> (r: Verdict)
        ensures
            r == self.verdict(),
    {
        if framing::unterminated_too_long(self.buffer.as_slice()) {
            Verdict::Overlong
        } else if self.closed && !framing::holds_a_line(self.buffer.as_slice()) {
            Verdict::Closed
        } else {
            Verdict::Keep
        }
    }
}

/// What is handed out and what is still held of a connection's bytes is what it sent.
///
/// `handed` are the lines answered in a turn, `before` what the connection held when
/// the turn's reads were done and `after` what it holds at the end.
pub proof fn law_a_turn_answers_in_order(before: Seq<u8>, handed: Seq<Seq<u8>>, after: Seq<u8>)
    requires
        before == framing::joined(handed) + after,
        forall|i: int| 0 <= i < handed.len() ==> !(#[trigger] handed[i]).contains(LINE_FEED),
    ensures
        framing::lines(before) == handed + framing::lines(after),
        framing::unfinished(before) == framing::unfinished(after),
    decreases handed.len(),
{
    if handed.len() == 0 {
        assert(before == after);
        assert(handed + framing::lines(after) == framing::lines(after));
    } else {
        let rest = framing::joined(handed.drop_first()) + after;
        assert(before == handed[0] + seq![LINE_FEED] + rest);
        framing::lemma_one_line(handed[0], rest);
        law_a_turn_answers_in_order(rest, handed.drop_first(), after);
        assert(handed + framing::lines(after) == seq![handed[0]] + (handed.drop_first()
            + framing::lines(after)));
    }
}

/// A connection that is kept can always go on: it has a request to answer next turn, or
/// room to read the rest of one.
pub proof fn law_a_kept_connection_can_go_on(connection: Connection)
    requires
        connection.verdict() == Verdict::Keep,
    ensures
        framing::lines(connection.buffer@).len() > 0 || connection.buffer@.len() <= MAX_LINE,
{
    framing::law_nothing_is_lost(connection.buffer@);
    if framing::lines(connection.buffer@).len() == 0 {
        assert(framing::joined(framing::lines(connection.buffer@)) == Seq::<u8>::empty());
        assert(connection.buffer@ == framing::unfinished(connection.buffer@));
    }
}

/// A reply on its way to a peer.
pub struct Outgoing {
    /// The reply and the line feed behind it.
    pub payload: Vec<u8>,
    /// How much of it the peer has taken.
    pub written: usize,
    /// How often it has been offered.
    pub writes: usize,
}

/// What came of offering a peer the rest of a reply.
#[derive(Debug, Clone, Copy, PartialEq, Eq, Structural)]
pub enum Wrote {
    /// It took this many bytes.
    Bytes(usize),
    /// It has no room right now.
    WouldBlock,
    /// A signal came in between.
    Interrupted,
    /// The connection failed.
    Failed,
}

/// What to do about a reply next.
#[derive(Debug, Clone, Copy, PartialEq, Eq, Structural)]
pub enum Sending {
    /// Offer the rest again.
    Again,
    /// Let others run, then offer the rest again.
    Yield,
    /// Nothing: the peer has all of it.
    Done,
    /// Give up: the peer has stopped reading.
    Stuck,
    /// Give up: the connection failed.
    Failed,
}

/// What is said of a peer that has stopped reading.
pub const STOPPED_READING: &'static str = "the client stopped reading";

impl Outgoing {
    /// There is something left to send, and the peer has not been given up on.
    pub open spec fn underway(&self) -> bool {
        &&& self.written < self.payload@.len()
        &&& self.writes < MAX_WRITES
    }

    /// Start sending a reply. An empty one is not sent at all.
    pub fn start(reply: &str) -> (r: Option<Outgoing>)
        ensures
            match r {
                Some(outgoing) => {
                    &&& reply@.len() > 0
                    &&& outgoing.underway()
                    &&& outgoing.payload@ == vstd::utf8::encode_utf8(reply@).push(LINE_FEED)
                    &&& outgoing.written == 0
                    &&& outgoing.writes == 0
                },
                None => reply@.len() == 0,
            },
    {
        if reply.is_empty() {
            return None;
        }
        let mut payload: Vec<u8> = Vec::new();
        payload.extend_from_slice(reply.as_bytes());
        payload.push(LINE_FEED);
        Some(Outgoing { payload, written: 0, writes: 0 })
    }

    /// What to offer the peer now.
    pub fn pending(&self) -> (r: &[u8])
        requires
            self.underway(),
        ensures
            r@ == self.payload@.skip(self.written as int),
    {
        vstd::slice::slice_subrange(self.payload.as_slice(), self.written, self.payload.len())
    }

    /// How much of a reply the peer has after a write.
    pub open spec fn written_after(&self, wrote: Wrote) -> int {
        match wrote {
            Wrote::Bytes(n) => self.written + n,
            _ => self.written as int,
        }
    }

    /// What to do about a reply after a write.
    pub open spec fn next_step(&self, wrote: Wrote) -> Sending {
        if wrote == Wrote::Failed {
            Sending::Failed
        } else if self.written_after(wrote) == self.payload@.len() {
            Sending::Done
        } else if wrote == Wrote::Bytes(0) || self.writes + 1 == MAX_WRITES {
            Sending::Stuck
        } else if wrote == Wrote::WouldBlock {
            Sending::Yield
        } else {
            Sending::Again
        }
    }

    /// The peer was offered what was pending. Replies are a few hundred bytes and the
    /// socket buffer is orders of magnitude larger, so a partial write means the peer
    /// has stopped reading; offering a bounded number of times keeps a stuck client from
    /// blocking the compositor.
    pub fn after_write(&mut self, wrote: Wrote) -> (r: Sending)
        requires
            old(self).underway(),
            old(self).written_after(wrote) <= old(self).payload@.len(),
        ensures
            r == old(self).next_step(wrote),
            final(self).payload@ == old(self).payload@,
            final(self).written == old(self).written_after(wrote),
            final(self).writes == old(self).writes + 1,
            (r == Sending::Again || r == Sending::Yield) ==> final(self).underway(),
            r == Sending::Done <==> wrote != Wrote::Failed && final(self).written
                == final(self).payload@.len(),
    {
        let size: usize = self.payload.len();
        self.writes += 1;
        match wrote {
            Wrote::Bytes(n) => {
                self.written += n;
                if self.written == size {
                    Sending::Done
                } else if n == 0 || self.writes == MAX_WRITES {
                    Sending::Stuck
                } else {
                    Sending::Again
                }
            },
            Wrote::WouldBlock => if self.writes == MAX_WRITES {
                Sending::Stuck
            } else {
                Sending::Yield
            },
            Wrote::Interrupted => if self.writes == MAX_WRITES {
                Sending::Stuck
            } else {
                Sending::Again
            },
            Wrote::Failed => Sending::Failed,
        }
    }
}

/// A connection is dropped over a line that is already longer than any request may be, or once
/// the peer has hung up and no whole line is left to answer; else it stays.
pub proof fn law_a_connection_stays_while_it_may(connection: Connection)
    ensures
        connection.verdict() == Verdict::Overlong <==> framing::unfinished(
            connection.buffer@,
        ).len() > 65536,
        connection.verdict() == Verdict::Closed <==> connection.closed && framing::lines(
            connection.buffer@,
        ).len() == 0 && framing::unfinished(connection.buffer@).len() <= 65536,
        !connection.closed && framing::unfinished(connection.buffer@).len() <= 65536
            ==> connection.verdict() == Verdict::Keep,
        framing::lines(connection.buffer@).len() > 0 && framing::unfinished(
            connection.buffer@,
        ).len() <= 65536 ==> connection.verdict() == Verdict::Keep,
{
}

/// A connection is read from while it is open, has had less than its share of this turn, and
/// does not hold more than one longest line already.
pub proof fn law_a_connection_is_read_within_its_share(connection: Connection)
    ensures
        connection.has_room() <==> !connection.closed && connection.read < 262144
            && connection.buffer@.len() <= 65536,
{
}

/// A reply is sent until the peer has all of it: what was taken is counted and nothing else; it
/// is given up only where the connection failed, nothing was taken, or it was offered sixteen
/// times.
pub proof fn law_a_reply_is_sent_whole_or_given_up(outgoing: Outgoing, wrote: Wrote)
    requires
        outgoing.underway(),
        outgoing.written_after(wrote) <= outgoing.payload@.len(),
    ensures
        outgoing.written_after(wrote) == outgoing.written + (match wrote {
            Wrote::Bytes(n) => n as int,
            _ => 0,
        }),
        outgoing.next_step(wrote) == Sending::Failed <==> wrote == Wrote::Failed,
        outgoing.next_step(wrote) == Sending::Done <==> (wrote matches Wrote::Bytes(n)
            && outgoing.written + n == outgoing.payload@.len()),
        outgoing.next_step(wrote) == Sending::Stuck ==> wrote == Wrote::Bytes(0) || outgoing.writes
            + 1 == 16,
        outgoing.next_step(wrote) == Sending::Yield ==> wrote == Wrote::WouldBlock,
        wrote == Wrote::WouldBlock && outgoing.writes + 1 < 16 ==> outgoing.next_step(wrote)
            == Sending::Yield,
        wrote == Wrote::Interrupted && outgoing.writes + 1 < 16 ==> outgoing.next_step(wrote)
            == Sending::Again,
        wrote matches Wrote::Bytes(n) ==> (0 < n && outgoing.written + n < outgoing.payload@.len()
            && outgoing.writes + 1 < 16 ==> outgoing.next_step(wrote) == Sending::Again),
        outgoing.underway() <==> outgoing.written < outgoing.payload@.len() && outgoing.writes
            < 16,
{
}

/// Only our own user is let in.
pub proof fn law_only_our_own_user_is_let_in(peer: Option<u32>, own: u32, admitted: bool)
    requires
        call_ensures(admits, (peer, own), admitted),
    ensures
        admitted <==> peer is Some && peer->0 == own,
{
}

/// A read that found nothing is followed by the requests that are there, one that a signal cut
/// short is made again, and one that failed ends the connection.
pub proof fn law_only_a_failed_read_ends_a_connection(failure: ReadFailure, after: AfterFailure)
    requires
        call_ensures(after_failed_read, (failure,), after),
    ensures
        after == AfterFailure::Remove <==> failure == ReadFailure::Other,
        after == AfterFailure::Retry <==> failure == ReadFailure::Interrupted,
        after == AfterFailure::Answer <==> failure == ReadFailure::WouldBlock,
{
}

}
