//! The sending side: whole buffers in, writes of any size out.

use std::collections::VecDeque;

use vstd::prelude::*;
use vstd::slice::{slice_subrange, slice_to_vec};

use crate::message::{header_bytes, message_bytes, ByteOrder, XenSocketMessage};

verus! {

/// What one write to the transport came to.
#[derive(Debug, Clone, Copy, PartialEq, Eq, Structural)]
pub enum WriteOutcome {
    /// The transport took this many of the bytes it was given.
    Wrote(usize),
    /// A signal cut the write short; nothing was taken.
    Interrupted,
    /// The write failed in another way.
    Failed,
}

/// What the sender does next.
#[derive(Debug, Clone, Copy, PartialEq, Eq, Structural)]
pub enum WriteStep {
    /// Write on.
    Continue,
    /// Everything has been written.
    Done,
    /// Give up: the transport takes no more bytes.
    WriteZero,
    /// Give up with the error that the write returned.
    Fail,
}

/// Buffers that are to be written one after the other, each of them to its end.
#[derive(Debug)]
pub struct RequestWriter {
    buffers: VecDeque<Vec<u8>>,
    offset: usize,
}

impl View for RequestWriter {
    type V = Seq<Seq<u8>>;

    /// What is still to be written, buffer by buffer.
    closed spec fn view(&self) -> Seq<Seq<u8>> {
        Seq::new(
            self.buffers@.len(),
            |i: int|
                if i == 0 {
                    self.buffers@[i]@.skip(self.offset as int)
                } else {
                    self.buffers@[i]@
                },
        )
    }
}

/// The buffers after `bytes` has been added to them; an empty buffer needs no
/// write.
pub open spec fn with_buffer(buffers: Seq<Seq<u8>>, bytes: Seq<u8>) -> Seq<Seq<u8>> {
    if bytes.len() == 0 {
        buffers
    } else {
        buffers.push(bytes)
    }
}

/// What is left of the buffers after a write came to `outcome`.
pub open spec fn after_write(buffers: Seq<Seq<u8>>, outcome: WriteOutcome) -> Seq<Seq<u8>> {
    match outcome {
        WriteOutcome::Wrote(n) => if n == buffers[0].len() {
            buffers.drop_first()
        } else {
            buffers.update(0, buffers[0].skip(n as int))
        },
        _ => buffers,
    }
}

/// The step that a write outcome calls for.
pub open spec fn write_step(buffers: Seq<Seq<u8>>, outcome: WriteOutcome) -> WriteStep {
    match outcome {
        WriteOutcome::Wrote(n) => if n == 0 {
            WriteStep::WriteZero
        } else if after_write(buffers, outcome).len() == 0 {
            WriteStep::Done
        } else {
            WriteStep::Continue
        },
        WriteOutcome::Interrupted => WriteStep::Continue,
        WriteOutcome::Failed => WriteStep::Fail,
    }
}

/// Whether writing the first of `buffers` can come to `outcome`: the transport
/// takes no more than it was given.
pub open spec fn outcome_fits(buffers: Seq<Seq<u8>>, outcome: WriteOutcome) -> bool {
    &&& buffers.len() > 0
    &&& outcome matches WriteOutcome::Wrote(n) ==> n <= buffers[0].len()
}

impl RequestWriter {
    /// Whether the current buffer has bytes left, and no buffer is empty.
    pub closed spec fn wf(self) -> bool {
        &&& forall|i: int|
            0 <= i < self.buffers@.len() ==> (#[trigger] self.buffers@[i])@.len() > 0
        &&& self.buffers@.len() == 0 ==> self.offset == 0
        &&& self.buffers@.len() > 0 ==> self.offset < self.buffers@[0]@.len()
    }

    /// A writer with nothing to write.
    pub fn new() -> (writer: RequestWriter)
        ensures
            writer.wf(),
            writer@ == Seq::<Seq<u8>>::empty(),
    {
        let writer = RequestWriter { buffers: VecDeque::new(), offset: 0 };
        assert(writer@ =~= Seq::<Seq<u8>>::empty());
        writer
    }

    /// Has `bytes` written after everything else.
    pub fn write_all(&mut self, bytes: &[u8])
        requires
            old(self).wf(),
        ensures
            final(self).wf(),
            final(self)@ == with_buffer(old(self)@, bytes@),
    {
        if bytes.len() > 0 {
            self.buffers.push_back(slice_to_vec(bytes));
            assert(self@ =~~= old(self)@.push(bytes@));
        }
    }

    /// The bytes to offer to the transport next, if there are any left.
    pub fn pending(&self) -> (bytes: Option<&[u8]>)
        requires
            self.wf(),
        ensures
            self@.len() == 0 <==> bytes is None,
            bytes matches Some(bytes) ==> bytes@ == self@[0] && bytes@.len() > 0,
    {
        if self.buffers.len() == 0 {
            return None;
        }
        let first: &Vec<u8> = &self.buffers[0];
        let bytes: &[u8] = slice_subrange(first.as_slice(), self.offset, first.len());
        assert(bytes@ =~= self@[0]);
        Some(bytes)
    }

    /// Takes note of what writing the pending bytes came to, and decides what to
    /// do next.
    ///
    /// A short write is followed by a write of the rest, an interrupted one is
    /// tried again, and any other failure ends the sending.
    pub fn advance(&mut self, outcome: WriteOutcome) -> (step: WriteStep)
        requires
            old(self).wf(),
            outcome_fits(old(self)@, outcome),
        ensures
            final(self).wf(),
            final(self)@ == after_write(old(self)@, outcome),
            step == write_step(old(self)@, outcome),
    {
        match outcome {
            WriteOutcome::Wrote(n) => {
                let left: usize = self.buffers[0].len() - self.offset;
                if n == left {
                    let _ = self.buffers.pop_front();
                    self.offset = 0;
                    assert(self@ =~~= old(self)@.drop_first());
                } else {
                    self.offset = self.offset + n;
                    assert(self@ =~~= old(self)@.update(0, old(self)@[0].skip(n as int)));
                }
                if n == 0 {
                    WriteStep::WriteZero
                } else if self.buffers.len() == 0 {
                    WriteStep::Done
                } else {
                    WriteStep::Continue
                }
            },
            WriteOutcome::Interrupted => WriteStep::Continue,
            WriteOutcome::Failed => WriteStep::Fail,
        }
    }
}

/// Has a request written: its header, then its payload.
pub fn write_request(
    writer: &mut RequestWriter,
    order: ByteOrder,
    message: &XenSocketMessage,
    payload: &[u8],
)
    requires
        old(writer).wf(),
    ensures
        final(writer).wf(),
        final(writer)@ == with_buffer(old(writer)@.push(header_bytes(order, *message)), payload@),
{
    writer.write_all(message_bytes(order, message).as_slice());
    writer.write_all(payload);
}

/// The bytes that are still to be written.
pub open spec fn unwritten(buffers: Seq<Seq<u8>>) -> Seq<u8> {
    buffers.flatten()
}

/// The bytes that the transport took in a row of writes, starting from
/// `buffers`.
pub open spec fn taken(buffers: Seq<Seq<u8>>, outcomes: Seq<WriteOutcome>) -> Seq<u8>
    decreases outcomes.len(),
{
    if outcomes.len() == 0 {
        Seq::empty()
    } else {
        let now = match outcomes[0] {
            WriteOutcome::Wrote(n) => buffers[0].take(n as int),
            _ => Seq::empty(),
        };
        now + taken(after_write(buffers, outcomes[0]), outcomes.drop_first())
    }
}

/// What is left of the buffers after a row of writes.
pub open spec fn after_writes(buffers: Seq<Seq<u8>>, outcomes: Seq<WriteOutcome>) -> Seq<Seq<u8>>
    decreases outcomes.len(),
{
    if outcomes.len() == 0 {
        buffers
    } else {
        after_writes(after_write(buffers, outcomes[0]), outcomes.drop_first())
    }
}

/// Whether the writes can come to this row of outcomes.
pub open spec fn outcomes_fit(buffers: Seq<Seq<u8>>, outcomes: Seq<WriteOutcome>) -> bool
    decreases outcomes.len(),
{
    outcomes.len() > 0 ==> {
        &&& outcome_fits(buffers, outcomes[0])
        &&& outcomes_fit(after_write(buffers, outcomes[0]), outcomes.drop_first())
    }
}

/// However the transport cuts up and interrupts the writes, what it has taken so
/// far, followed by what is left, is what there was to write: no byte is lost,
/// repeated or moved.
pub proof fn law_writes_lose_nothing(buffers: Seq<Seq<u8>>, outcomes: Seq<WriteOutcome>)
    requires
        outcomes_fit(buffers, outcomes),
    ensures
        taken(buffers, outcomes) + unwritten(after_writes(buffers, outcomes)) == unwritten(buffers),
    decreases outcomes.len(),
{
    if outcomes.len() == 0 {
        assert(taken(buffers, outcomes) + unwritten(buffers) =~= unwritten(buffers));
    } else {
        let next = after_write(buffers, outcomes[0]);
        let rest = outcomes.drop_first();
        law_writes_lose_nothing(next, rest);
        let left = unwritten(after_writes(next, rest));
        assert(unwritten(buffers) == buffers[0] + buffers.drop_first().flatten());
        match outcomes[0] {
            WriteOutcome::Wrote(n) => {
                let now = buffers[0].take(n as int);
                if n == buffers[0].len() {
                    assert(now =~= buffers[0]);
                } else {
                    assert(next.drop_first() =~= buffers.drop_first());
                    assert(unwritten(next) == next[0] + next.drop_first().flatten());
                    assert(buffers[0] =~= now + next[0]);
                    assert(unwritten(buffers) =~= now + unwritten(next));
                }
                assert(taken(buffers, outcomes) + left =~= now + (taken(next, rest) + left));
            },
            _ => {
                assert(taken(buffers, outcomes) =~= taken(next, rest));
            },
        }
    }
}

/// Once a request is written, the transport has taken its header and its
/// payload, in this order and whole.
pub proof fn law_request_is_written_whole(
    order: ByteOrder,
    message: XenSocketMessage,
    payload: Seq<u8>,
    outcomes: Seq<WriteOutcome>,
)
    requires
        ({
            let buffers = with_buffer(seq![header_bytes(order, message)], payload);
            outcomes_fit(buffers, outcomes) && after_writes(buffers, outcomes).len() == 0
        }),
    ensures
        taken(with_buffer(seq![header_bytes(order, message)], payload), outcomes) == header_bytes(
            order,
            message,
        ) + payload,
{
    let header = header_bytes(order, message);
    let buffers = with_buffer(seq![header], payload);
    law_writes_lose_nothing(buffers, outcomes);
    assert(unwritten(after_writes(buffers, outcomes)) =~= Seq::<u8>::empty());
    assert(taken(buffers, outcomes) =~= unwritten(buffers));
    assert(unwritten(buffers) == header + buffers.drop_first().flatten());
    if payload.len() == 0 {
        assert(buffers.drop_first().flatten() =~= Seq::<u8>::empty());
    } else {
        let tail = buffers.drop_first();
        assert(tail[0] == payload);
        assert(tail.flatten() == tail[0] + tail.drop_first().flatten());
        assert(tail.drop_first().flatten() =~= Seq::<u8>::empty());
    }
    assert(unwritten(buffers) =~= header + payload);
}

/// Bytes that are to be written come after those that were to be written before,
/// whole, and nothing else does.
pub proof fn law_bytes_are_added_at_the_end(writer: &mut RequestWriter, bytes: &[u8])
    requires
        old(writer).wf(),
        call_ensures(RequestWriter::write_all, (writer, bytes), ()),
    ensures
        final(writer).wf(),
        final(writer)@.flatten() == old(writer)@.flatten() + bytes@,
{
    if bytes@.len() == 0 {
        assert(old(writer)@.flatten() + bytes@ =~= old(writer)@.flatten());
    } else {
        old(writer)@.lemma_flatten_push(bytes@);
    }
}

/// A request adds its header and then its payload to what is to be written. With
/// nothing else to write, these are the bytes that go out.
pub proof fn law_header_goes_before_payload(
    writer: &mut RequestWriter,
    order: ByteOrder,
    message: XenSocketMessage,
    payload: &[u8],
    header: Vec<u8>,
)
    requires
        old(writer).wf(),
        call_ensures(message_bytes, (order, &message), header),
        call_ensures(write_request, (writer, order, &message, payload), ()),
    ensures
        final(writer).wf(),
        final(writer)@.flatten() == old(writer)@.flatten() + header@ + payload@,
{
    let headed = old(writer)@.push(header@);
    old(writer)@.lemma_flatten_push(header@);
    if payload@.len() == 0 {
        assert(headed.flatten() + payload@ =~= headed.flatten());
    } else {
        headed.lemma_flatten_push(payload@);
    }
}

/// What is offered to the transport is the beginning of what is left to write.
/// There is an offer exactly when something is left, and it is never empty.
pub proof fn law_offers_are_what_comes_next(writer: RequestWriter, offer: Option<&[u8]>)
    requires
        writer.wf(),
        call_ensures(RequestWriter::pending, (&writer,), offer),
    ensures
        offer is None <==> writer@.flatten().len() == 0,
        offer matches Some(bytes) ==> bytes@.len() > 0 && bytes@.is_prefix_of(writer@.flatten()),
{
    if writer@.len() > 0 {
        assert(writer@.flatten() == writer@[0] + writer@.drop_first().flatten());
        assert(offer->0@ == writer@.flatten().take(offer->0@.len() as int));
    }
}

/// One write: of what was left to write, the bytes that the transport took are gone
/// from the front, and the rest is still to be written. The sender is done exactly
/// when it took some bytes and none are left. It goes on when it took some and
/// others are left, and when it was interrupted, and otherwise gives up.
pub proof fn law_one_write(
    before: RequestWriter,
    offer: Option<&[u8]>,
    writer: &mut RequestWriter,
    outcome: WriteOutcome,
    step: WriteStep,
)
    requires
        before.wf(),
        *old(writer) == before,
        call_ensures(RequestWriter::pending, (&before,), offer),
        offer is Some,
        outcome matches WriteOutcome::Wrote(n) ==> n <= offer->0@.len(),
        call_ensures(RequestWriter::advance, (writer, outcome), step),
    ensures
        final(writer).wf(),
        ({
            let count = if let WriteOutcome::Wrote(n) = outcome {
                n as int
            } else {
                0
            };
            let left = before@.flatten();
            &&& final(writer)@.flatten() == left.skip(count)
            &&& step is Done <==> 0 < count && count == left.len()
            &&& step is Continue <==> outcome is Interrupted || 0 < count < left.len()
            &&& step is WriteZero <==> outcome == WriteOutcome::Wrote(0)
            &&& step is Fail <==> outcome is Failed
        }),
{
    let buffers = before@;
    let tail = buffers.drop_first().flatten();
    let left = buffers.flatten();
    assert(left == buffers[0] + tail);
    match outcome {
        WriteOutcome::Wrote(n) => {
            lemma_no_buffer_is_empty(before);
            if n == buffers[0].len() {
                assert(left.skip(n as int) =~= tail);
                if buffers.len() > 1 {
                    let rest = buffers.drop_first();
                    assert(rest[0] == buffers[1]);
                    assert(tail == rest[0] + rest.drop_first().flatten());
                }
            } else {
                let next = after_write(buffers, outcome);
                assert(next.drop_first() =~= buffers.drop_first());
                assert(next.flatten() == next[0] + tail);
                assert(next.flatten() =~= left.skip(n as int));
            }
        },
        _ => {
            assert(left.skip(0) =~= left);
        },
    }
}

/// Every buffer that is still to be written has bytes left.
proof fn lemma_no_buffer_is_empty(writer: RequestWriter)
    requires
        writer.wf(),
    ensures
        forall|i: int| 0 <= i < writer@.len() ==> (#[trigger] writer@[i]).len() > 0,
{
    assert forall|i: int| 0 <= i < writer@.len() implies (#[trigger] writer@[i]).len() > 0 by {
        assert(writer.buffers@[i]@.len() > 0);
    }
}

/// A row of writes is done, at the last of them, exactly when the transport has
/// taken everything with it: a sender that stops at its first [`WriteStep::Done`]
/// has had all of it taken, and one that has not come to it has bytes left.
pub proof fn law_done_when_all_is_taken(buffers: Seq<Seq<u8>>, outcomes: Seq<WriteOutcome>)
    requires
        outcomes_fit(buffers, outcomes),
        outcomes.len() > 0,
        forall|i: int| 0 <= i < buffers.len() ==> (#[trigger] buffers[i]).len() > 0,
    ensures
        write_step(after_writes(buffers, outcomes.drop_last()), outcomes.last()) is Done
            <==> taken(buffers, outcomes) == buffers.flatten() && taken(
            buffers,
            outcomes.drop_last(),
        ) != buffers.flatten(),
        write_step(after_writes(buffers, outcomes.drop_last()), outcomes.last()) is Continue
            && outcomes.last() is Wrote ==> taken(buffers, outcomes) != buffers.flatten(),
    decreases outcomes.len(),
{
    let now = match outcomes[0] {
        WriteOutcome::Wrote(n) => buffers[0].take(n as int),
        _ => Seq::empty(),
    };
    let next = after_write(buffers, outcomes[0]);
    let tail = buffers.drop_first().flatten();
    law_writes_lose_nothing(buffers, outcomes);
    assert(buffers.flatten() == buffers[0] + tail);
    assert forall|i: int| 0 <= i < next.len() implies (#[trigger] next[i]).len() > 0 by {
        if outcomes[0] matches WriteOutcome::Wrote(n) && n == buffers[0].len() {
            assert(next[i] == buffers[i + 1]);
        } else if i > 0 {
            assert(next[i] == buffers[i]);
        }
    }
    if outcomes.len() == 1 {
        assert(outcomes.drop_last() =~= Seq::empty());
        assert(outcomes.drop_first() =~= Seq::empty());
        assert(taken(next, outcomes.drop_first()) =~= Seq::empty());
        assert(taken(buffers, outcomes) =~= now);
        assert(after_writes(next, outcomes.drop_first()) == next);
        assert(now + next.flatten() == buffers.flatten());
        if next.len() > 0 {
            assert(next.flatten() == next[0] + next.drop_first().flatten());
            assert(next[0].len() > 0);
        } else {
            assert(now + next.flatten() =~= now);
        }
    } else {
        let rest = outcomes.drop_first();
        law_done_when_all_is_taken(next, rest);
        assert(rest.drop_last() =~= outcomes.drop_last().drop_first());
        assert(outcomes.drop_last()[0] == outcomes[0]);
        let first = seq![outcomes[0]];
        assert(first.drop_first() =~= Seq::empty());
        assert(outcomes_fit(next, first.drop_first()));
        law_writes_lose_nothing(buffers, first);
        assert(taken(next, first.drop_first()) =~= Seq::empty());
        assert(taken(buffers, first) =~= now);
        assert(after_writes(next, first.drop_first()) == next);
        assert(buffers.flatten() =~= now + next.flatten());
        assert(taken(buffers, outcomes).skip(now.len() as int) =~= taken(next, rest));
        assert(taken(buffers, outcomes.drop_last()).skip(now.len() as int) =~= taken(
            next,
            rest.drop_last(),
        ));
        assert(buffers.flatten().skip(now.len() as int) =~= next.flatten());
    }
}

/// A new sender has nothing to write.
pub proof fn law_new_sender_is_empty(writer: RequestWriter)
    requires
        call_ensures(RequestWriter::new, (), writer),
    ensures
        writer.wf(),
        writer@.flatten().len() == 0,
{
}

} // verus!
