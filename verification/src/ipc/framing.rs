//! One request per line.

use vstd::prelude::*;

verus! {

/// The longest request line accepted. Requests are small - the largest carries a
/// string to type - and a peer that never sends a newline would otherwise grow this
/// process at socket speed.
pub const MAX_LINE: usize = 65536;

/// What ends a line.
pub const LINE_FEED: u8 = 10;

/// How many bytes stand before the first line feed, or how many there are at all.
pub open spec fn line_end(stream: Seq<u8>) -> nat
    decreases stream.len(),
{
    if stream.len() == 0 || stream[0] == LINE_FEED {
        0
    } else {
        1 + line_end(stream.drop_first())
    }
}

/// The complete lines of a stream, without what ends them.
pub open spec fn lines(stream: Seq<u8>) -> Seq<Seq<u8>>
    decreases stream.len(),
{
    let end = line_end(stream) as int;
    if end < stream.len() {
        seq![stream.take(end)] + lines(stream.skip(end + 1))
    } else {
        Seq::empty()
    }
}

/// What follows the last complete line of a stream.
pub open spec fn unfinished(stream: Seq<u8>) -> Seq<u8>
    decreases stream.len(),
{
    let end = line_end(stream) as int;
    if end < stream.len() {
        unfinished(stream.skip(end + 1))
    } else {
        stream
    }
}

/// Lines, each with a line feed behind it.
pub open spec fn joined(lines: Seq<Seq<u8>>) -> Seq<u8>
    decreases lines.len(),
{
    if lines.len() == 0 {
        Seq::empty()
    } else {
        lines[0] + seq![LINE_FEED] + joined(lines.drop_first())
    }
}

proof fn lemma_line_end(stream: Seq<u8>)
    ensures
        line_end(stream) <= stream.len(),
        line_end(stream) < stream.len() ==> stream[line_end(stream) as int] == LINE_FEED,
        forall|i: int| 0 <= i < line_end(stream) ==> stream[i] != LINE_FEED,
    decreases stream.len(),
{
    if stream.len() > 0 && stream[0] != LINE_FEED {
        lemma_line_end(stream.drop_first());
        assert forall|i: int| 0 <= i < line_end(stream) implies stream[i] != LINE_FEED by {
            if i > 0 {
                assert(stream.drop_first()[i - 1] == stream[i]);
            }
        }
    }
}

proof fn lemma_line_end_is(stream: Seq<u8>, end: int)
    requires
        0 <= end <= stream.len(),
        end < stream.len() ==> stream[end] == LINE_FEED,
        forall|i: int| 0 <= i < end ==> stream[i] != LINE_FEED,
    ensures
        line_end(stream) == end,
{
    lemma_line_end(stream);
}

pub proof fn lemma_one_line(line: Seq<u8>, more: Seq<u8>)
    requires
        !line.contains(LINE_FEED),
    ensures
        lines(line + seq![LINE_FEED] + more) == seq![line] + lines(more),
        unfinished(line + seq![LINE_FEED] + more) == unfinished(more),
{
    let stream = line + seq![LINE_FEED] + more;
    assert forall|i: int| 0 <= i < line.len() implies stream[i] != LINE_FEED by {
        assert(line.contains(line[i]));
    }
    lemma_line_end_is(stream, line.len() as int);
    assert(stream.take(line.len() as int) == line);
    assert(stream.skip(line.len() as int + 1) == more);
}

/// Nothing a peer sends is lost: its complete lines and what follows them are what it
/// sent.
pub proof fn law_nothing_is_lost(stream: Seq<u8>)
    ensures
        joined(lines(stream)) + unfinished(stream) == stream,
    decreases stream.len(),
{
    lemma_line_end(stream);
    let end = line_end(stream) as int;
    if end < stream.len() {
        let more = stream.skip(end + 1);
        law_nothing_is_lost(more);
        assert(lines(stream).drop_first() == lines(more));
        assert(joined(lines(stream)) + unfinished(stream) == stream.take(end) + seq![LINE_FEED] + (
        joined(lines(more)) + unfinished(more)));
    }
}

/// No line holds a line feed, and what is unfinished does not either.
pub proof fn law_a_line_is_one_line(stream: Seq<u8>)
    ensures
        forall|i: int|
            0 <= i < lines(stream).len() ==> !(#[trigger] lines(stream)[i]).contains(LINE_FEED),
        !unfinished(stream).contains(LINE_FEED),
    decreases stream.len(),
{
    lemma_line_end(stream);
    let end = line_end(stream) as int;
    if end < stream.len() {
        let more = stream.skip(end + 1);
        law_a_line_is_one_line(more);
        assert forall|i: int| 0 <= i < lines(stream).len() implies !(
        #[trigger] lines(stream)[i]).contains(LINE_FEED) by {
            if i > 0 {
                assert(lines(stream)[i] == lines(more)[i - 1]);
            }
        }
    }
}

/// How the bytes are cut into reads makes no difference to the lines that come out.
pub proof fn law_reads_may_be_cut_anywhere(first: Seq<u8>, second: Seq<u8>)
    ensures
        lines(first + second) == lines(first) + lines(unfinished(first) + second),
        unfinished(first + second) == unfinished(unfinished(first) + second),
    decreases first.len(),
{
    lemma_line_end(first);
    let end = line_end(first) as int;
    if end < first.len() {
        let line = first.take(end);
        let more = first.skip(end + 1);
        law_reads_may_be_cut_anywhere(more, second);
        assert(first + second == line + seq![LINE_FEED] + (more + second));
        lemma_one_line(line, more + second);
        assert(lines(first) == seq![line] + lines(more));
        assert(lines(first + second) == lines(first) + lines(unfinished(first) + second));
    } else {
        assert(lines(first) + lines(first + second) == lines(first + second));
    }
}

proof fn lemma_unfinished_is(stream: Seq<u8>, start: int)
    requires
        0 <= start <= stream.len(),
        start > 0 ==> stream[start - 1] == LINE_FEED,
        forall|i: int| start <= i < stream.len() ==> stream[i] != LINE_FEED,
    ensures
        unfinished(stream) == stream.skip(start),
    decreases stream.len(),
{
    let tail = stream.skip(start);
    lemma_line_end_is(tail, tail.len() as int);
    if start > 0 {
        let head = stream.take(start - 1);
        law_reads_may_be_cut_anywhere(head, seq![LINE_FEED] + tail);
        assert(head + (seq![LINE_FEED] + tail) == stream);
        law_a_line_is_one_line(head);
        lemma_one_line(unfinished(head), tail);
        assert(unfinished(head) + (seq![LINE_FEED] + tail) == unfinished(head) + seq![LINE_FEED]
            + tail);
    } else {
        assert(tail == stream);
    }
}

/// Take the first complete line out of the buffer, if there is one.
pub fn next_line(buffer: &mut Vec<u8>) -> (r: Option<Vec<u8>>)
    ensures
        match r {
            Some(line) => {
                &&& old(buffer)@ == line@ + seq![LINE_FEED] + final(buffer)@
                &&& lines(old(buffer)@) == seq![line@] + lines(final(buffer)@)
                &&& unfinished(old(buffer)@) == unfinished(final(buffer)@)
            },
            None => {
                &&& lines(old(buffer)@) == Seq::<Seq<u8>>::empty()
                &&& final(buffer)@ == old(buffer)@
            },
        },
{
    let mut end: usize = 0;
    while end < buffer.len() && buffer[end] != LINE_FEED
        invariant
            end <= buffer@.len(),
            forall|i: int| 0 <= i < end ==> buffer@[i] != LINE_FEED,
        decreases buffer@.len() - end,
    {
        end += 1;
    }
    proof {
        lemma_line_end_is(buffer@, end as int);
    }
    if end == buffer.len() {
        return None;
    }
    let more = buffer.split_off(end + 1);
    let mut line: Vec<u8> = more;
    std::mem::swap(&mut line, buffer);
    line.pop();
    proof {
        assert(line@ == old(buffer)@.take(end as int));
        assert(buffer@ == old(buffer)@.skip(end + 1));
    }
    Some(line)
}

/// Whether the part of the buffer after its last complete line is already longer
/// than any request may be. Counted after the last line feed: a peer that sends one
/// short line and then an endless one must not get past the cap on the strength of
/// the line feed that is already in the buffer.
pub fn unterminated_too_long(buffer: &[u8]) -> (r: bool)
    ensures
        r == (unfinished(buffer@).len() > MAX_LINE),
{
    let mut start: usize = buffer.len();
    while start > 0 && buffer[start - 1] != LINE_FEED
        invariant
            start <= buffer@.len(),
            forall|i: int| start <= i < buffer@.len() ==> buffer@[i] != LINE_FEED,
        decreases start,
    {
        start -= 1;
    }
    proof {
        lemma_unfinished_is(buffer@, start as int);
    }
    buffer.len() - start > MAX_LINE
}

/// Whether a stream holds a complete line.
pub fn holds_a_line(buffer: &[u8]) -> (r: bool)
    ensures
        r == (lines(buffer@).len() > 0),
        r == buffer@.contains(LINE_FEED),
{
    let mut at: usize = 0;
    while at < buffer.len()
        invariant
            at <= buffer@.len(),
            forall|i: int| 0 <= i < at ==> buffer@[i] != LINE_FEED,
        decreases buffer@.len() - at,
    {
        if buffer[at] == LINE_FEED {
            proof {
                lemma_line_end_is(buffer@, at as int);
            }
            return true;
        }
        at += 1;
    }
    proof {
        lemma_line_end_is(buffer@, at as int);
    }
    false
}

}
