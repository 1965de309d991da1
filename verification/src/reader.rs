//! The receiving side: bytes in, in pieces of any size; queue entries out.

use vstd::prelude::*;
use vstd::string::StringSliceAdditionalSpecFns;
use vstd::utf8::{decode_utf8, encode_utf8, valid_utf8};

use crate::error::{ErrorView, XsError};
use crate::message::{
    entry_view, header_at_start, header_bytes, law_header_bytes_round_trip, law_header_round_trip,
    message_from_bytes, ByteOrder, Entry, MessageView, XenSocketMessage, XenStoreMessage,
    HEADER_LEN, XS_DIRECTORY, XS_READ, XS_WATCH, XS_WATCH_EVENT, XS_WRITE,
};

verus! {

/// Declares `core::str::Utf8Error`, which says where a byte string stops being
/// UTF-8. Nothing inside it is used.
#[verifier::external_type_specification]
#[verifier::external_body]
pub struct ExUtf8Error(core::str::Utf8Error);

/// Specifies `core::str::from_utf8`: it succeeds exactly on UTF-8, with the text
/// that the bytes encode.
pub assume_specification<'a>[ core::str::from_utf8 ](v: &'a [u8]) -> (result: Result<
    &'a str,
    core::str::Utf8Error,
>)
    ensures
        result is Ok <==> valid_utf8(v@),
        result matches Ok(text) ==> text.spec_bytes() == v@,
;

/// The queues that received messages go to.
#[derive(Debug, Clone, Copy, PartialEq, Eq, Structural)]
pub enum Queue {
    /// Replies to requests.
    Reply,
    /// Watch events. A waiting reader is to be signalled for each.
    Watch,
}

/// A queue entry on its way to its queue.
#[derive(Debug, PartialEq, Eq)]
pub struct Delivery {
    pub queue: Queue,
    pub entry: Entry,
}

/// What a [`Delivery`] says, as a mathematical value.
pub struct DeliveryView {
    pub queue: Queue,
    pub entry: Result<MessageView, ErrorView>,
}

impl View for Delivery {
    type V = DeliveryView;

    open spec fn view(&self) -> DeliveryView {
        DeliveryView { queue: self.queue, entry: entry_view(self.entry) }
    }
}

/// Whether the client knows what to do with a message of this type.
pub open spec fn known_kind(kind: u32) -> bool {
    ||| kind == XS_READ
    ||| kind == XS_WRITE
    ||| kind == XS_WATCH
    ||| kind == XS_WATCH_EVENT
    ||| kind == XS_DIRECTORY
}

/// The queue that messages of this type go to.
pub open spec fn queue_of(kind: u32) -> Queue {
    if kind == XS_WATCH_EVENT {
        Queue::Watch
    } else {
        Queue::Reply
    }
}

/// What is delivered for a message with the given header and payload.
///
/// A message of an unknown type, such as an error reply, stands for a refused
/// request. Otherwise the payload is text, and as long as the header says.
pub open spec fn frame_delivery(header: XenSocketMessage, body: Seq<u8>) -> DeliveryView {
    DeliveryView {
        queue: queue_of(header.kind),
        entry: if !known_kind(header.kind) {
            Err(ErrorView::Transaction)
        } else if !valid_utf8(body) {
            Err(ErrorView::Utf8(body))
        } else if body.len() != header.len {
            Err(ErrorView::InvalidData)
        } else {
            Ok(MessageView { kind: header.kind, body: decode_utf8(body) })
        },
    }
}

/// Turns a received message into the entry to deliver.
pub fn deliver(header: &XenSocketMessage, body: Vec<u8>) -> (delivery: Delivery)
    ensures
        delivery@ == frame_delivery(*header, body@),
{
    if header.kind != XS_READ && header.kind != XS_WRITE && header.kind != XS_WATCH && header.kind
        != XS_WATCH_EVENT && header.kind != XS_DIRECTORY {
        return Delivery { queue: Queue::Reply, entry: Err(XsError::Transaction) };
    }
    let queue = if header.kind == XS_WATCH_EVENT {
        Queue::Watch
    } else {
        Queue::Reply
    };
    let body_len: usize = body.len();
    let entry: Entry = match core::str::from_utf8(body.as_slice()) {
        Ok(text) => {
            if body_len as u64 != header.len as u64 {
                Err(XsError::InvalidData)
            } else {
                proof {
                    vstd::utf8::encode_utf8_decode_utf8(text@);
                }
                Ok(XenStoreMessage { kind: header.kind, body: text.to_owned() })
            }
        },
        Err(_) => Err(XsError::Utf8(body)),
    };
    Delivery { queue, entry }
}

/// Length of the message that `bytes` begins with, once its header is there.
pub open spec fn frame_len(order: ByteOrder, bytes: Seq<u8>) -> nat {
    HEADER_LEN as nat + header_at_start(order, bytes).len as nat
}

/// Whether `bytes` begins with a whole message.
pub open spec fn holds_frame(order: ByteOrder, bytes: Seq<u8>) -> bool {
    bytes.len() >= HEADER_LEN && bytes.len() >= frame_len(order, bytes)
}

/// What is delivered for the message that `bytes` begins with.
pub open spec fn first_delivery(order: ByteOrder, bytes: Seq<u8>) -> DeliveryView {
    frame_delivery(
        header_at_start(order, bytes),
        bytes.subrange(HEADER_LEN as int, frame_len(order, bytes) as int),
    )
}

/// How many bytes are still to be read in one go when `pending` has been
/// received of the current message: the rest of its header, or of its payload.
pub open spec fn bytes_wanted(order: ByteOrder, pending: Seq<u8>) -> int {
    if pending.len() < HEADER_LEN {
        HEADER_LEN - pending.len()
    } else {
        frame_len(order, pending) - pending.len()
    }
}

/// What one read of the transport came to.
#[derive(Debug, Clone, Copy)]
pub enum ReadEvent<'a> {
    /// These bytes were read; none at the end of the stream.
    Data(&'a [u8]),
    /// A signal cut the read short.
    Interrupted,
    /// The read failed in another way.
    Failed,
}

/// What a [`ReadEvent`] says, as a mathematical value.
pub enum ReadEventView {
    Data(Seq<u8>),
    Interrupted,
    Failed,
}

impl<'a> View for ReadEvent<'a> {
    type V = ReadEventView;

    open spec fn view(&self) -> ReadEventView {
        match *self {
            ReadEvent::Data(bytes) => ReadEventView::Data(bytes@),
            ReadEvent::Interrupted => ReadEventView::Interrupted,
            ReadEvent::Failed => ReadEventView::Failed,
        }
    }
}

/// Why receiving ends.
#[derive(Debug, Clone, Copy, PartialEq, Eq, Structural)]
pub enum StopReason {
    /// The stream ended before the bytes that were asked for.
    UnexpectedEof,
    /// The transport failed, with the error that the last event reported.
    Failed,
}

/// What the receiver does next.
#[derive(Debug, PartialEq, Eq)]
pub enum ReaderAction {
    /// Read on.
    Read,
    /// Deliver this entry, then read on.
    Deliver(Delivery),
    /// Stop receiving.
    Stop(StopReason),
}

/// What a [`ReaderAction`] says, as a mathematical value.
pub enum ReaderActionView {
    Read,
    Deliver(DeliveryView),
    Stop(StopReason),
}

impl View for ReaderAction {
    type V = ReaderActionView;

    open spec fn view(&self) -> ReaderActionView {
        match *self {
            ReaderAction::Read => ReaderActionView::Read,
            ReaderAction::Deliver(delivery) => ReaderActionView::Deliver(delivery@),
            ReaderAction::Stop(reason) => ReaderActionView::Stop(reason),
        }
    }
}

/// What the receiver does with `event`, when `pending` has been received of the
/// current message.
pub open spec fn reader_action(
    order: ByteOrder,
    pending: Seq<u8>,
    event: ReadEventView,
) -> ReaderActionView {
    match event {
        ReadEventView::Data(bytes) => if bytes.len() == 0 {
            ReaderActionView::Stop(StopReason::UnexpectedEof)
        } else if holds_frame(order, pending + bytes) {
            ReaderActionView::Deliver(first_delivery(order, pending + bytes))
        } else {
            ReaderActionView::Read
        },
        ReadEventView::Interrupted => ReaderActionView::Read,
        ReadEventView::Failed => ReaderActionView::Stop(StopReason::Failed),
    }
}

/// What has been received of the current message after `event`.
pub open spec fn reader_pending(
    order: ByteOrder,
    pending: Seq<u8>,
    event: ReadEventView,
) -> Seq<u8> {
    match event {
        ReadEventView::Data(bytes) => if holds_frame(order, pending + bytes) {
            Seq::empty()
        } else {
            pending + bytes
        },
        _ => pending,
    }
}

/// Whether a read that was asked for what is wanted can come to `event`: it
/// gives at most that many bytes.
pub open spec fn event_fits(order: ByteOrder, pending: Seq<u8>, event: ReadEventView) -> bool {
    event matches ReadEventView::Data(bytes) ==> bytes.len() <= bytes_wanted(order, pending)
}

/// Receives messages: first a header, then the payload that it announces.
#[derive(Debug)]
pub struct FrameReader {
    order: ByteOrder,
    header: Option<XenSocketMessage>,
    buffer: Vec<u8>,
}

impl FrameReader {
    /// The byte order of the headers.
    pub closed spec fn order(self) -> ByteOrder {
        self.order
    }

    /// The bytes that have been received of the current message.
    pub closed spec fn pending(self) -> Seq<u8> {
        match self.header {
            Some(header) => header_bytes(self.order, header) + self.buffer@,
            None => self.buffer@,
        }
    }

    /// Whether the current message is not complete: every complete one has been
    /// delivered.
    pub closed spec fn wf(self) -> bool {
        match self.header {
            Some(header) => self.buffer@.len() < header.len,
            None => self.buffer@.len() < HEADER_LEN,
        }
    }

    /// A receiver at the start of a stream.
    pub fn new(order: ByteOrder) -> (reader: FrameReader)
        ensures
            reader.wf(),
            reader.order() == order,
            reader.pending() == Seq::<u8>::empty(),
    {
        FrameReader { order, header: None, buffer: Vec::new() }
    }

    /// How many bytes to ask the transport for.
    pub fn wanted(&self) -> (count: usize)
        requires
            self.wf(),
        ensures
            count == bytes_wanted(self.order(), self.pending()),
            count > 0,
    {
        match self.header {
            Some(header) => {
                proof {
                    law_header_round_trip(self.order, header, self.buffer@);
                }
                header.len as usize - self.buffer.len()
            },
            None => HEADER_LEN - self.buffer.len(),
        }
    }

    /// Takes in what one read of the transport came to, and decides what to do
    /// next.
    ///
    /// A read gives at most the bytes that were wanted. A stream that ends and a
    /// transport that fails end the receiving, an interrupted read is tried again,
    /// and a message is delivered as soon as its last byte is there.
    pub fn thread_function(&mut self, event: ReadEvent) -> (action: ReaderAction)
        requires
            old(self).wf(),
            event_fits(old(self).order(), old(self).pending(), event@),
        ensures
            final(self).wf(),
            final(self).order() == old(self).order(),
            final(self).pending() == reader_pending(
                old(self).order(),
                old(self).pending(),
                event@,
            ),
            action@ == reader_action(old(self).order(), old(self).pending(), event@),
    {
        let bytes: &[u8] = match event {
            ReadEvent::Data(bytes) => bytes,
            ReadEvent::Interrupted => return ReaderAction::Read,
            ReadEvent::Failed => return ReaderAction::Stop(StopReason::Failed),
        };
        let ghost order = self.order;
        let ghost pending = self.pending();
        proof {
            if self.header is Some {
                law_header_round_trip(order, self.header->0, self.buffer@);
                law_header_round_trip(order, self.header->0, self.buffer@ + bytes@);
                assert(pending + bytes@ =~= header_bytes(order, self.header->0) + (self.buffer@
                    + bytes@));
            }
        }
        if bytes.len() == 0 {
            assert(pending + bytes@ =~= pending);
            return ReaderAction::Stop(StopReason::UnexpectedEof);
        }
        let ghost received = self.buffer@ + bytes@;
        self.buffer.extend_from_slice(bytes);
        assert(self.buffer@ =~= received);
        match self.header {
            None => {
                if self.buffer.len() < HEADER_LEN {
                    return ReaderAction::Read;
                }
                let header = message_from_bytes(self.order, self.buffer.as_slice());
                self.buffer = Vec::new();
                proof {
                    law_header_bytes_round_trip(order, received);
                    assert(received.take(HEADER_LEN as int) =~= received);
                    assert(received =~= header_bytes(order, header) + self.buffer@);
                    assert(received.subrange(HEADER_LEN as int, HEADER_LEN as int)
                        =~= Seq::<u8>::empty());
                }
                if header.kind == XS_READ && header.len == 0 {
                    let message = XenStoreMessage { kind: header.kind, body: String::new() };
                    assert(message.body@ =~= decode_utf8(Seq::<u8>::empty()));
                    return ReaderAction::Deliver(
                        Delivery { queue: Queue::Reply, entry: Ok(message) },
                    );
                }
                if header.len == 0 {
                    return ReaderAction::Deliver(deliver(&header, Vec::new()));
                }
                self.header = Some(header);
                ReaderAction::Read
            },
            Some(header) => {
                if (self.buffer.len() as u64) < header.len as u64 {
                    return ReaderAction::Read;
                }
                let mut body: Vec<u8> = Vec::new();
                body.append(&mut self.buffer);
                self.header = None;
                assert((pending + bytes@).subrange(
                    HEADER_LEN as int,
                    frame_len(order, pending + bytes@) as int,
                ) =~= received);
                assert(body@ =~= received);
                ReaderAction::Deliver(deliver(&header, body))
            },
        }
    }
}

/// What is delivered for a whole stream: one entry per complete message, in the
/// order of the stream.
pub open spec fn stream_deliveries(order: ByteOrder, stream: Seq<u8>) -> Seq<DeliveryView>
    decreases stream.len(),
{
    if holds_frame(order, stream) {
        seq![first_delivery(order, stream)] + stream_deliveries(
            order,
            stream.skip(frame_len(order, stream) as int),
        )
    } else {
        Seq::empty()
    }
}

/// The bytes of a stream that belong to no complete message.
pub open spec fn stream_rest(order: ByteOrder, stream: Seq<u8>) -> Seq<u8>
    decreases stream.len(),
{
    if holds_frame(order, stream) {
        stream_rest(order, stream.skip(frame_len(order, stream) as int))
    } else {
        stream
    }
}

/// The bytes that a row of events brought in.
pub open spec fn received(events: Seq<ReadEventView>) -> Seq<u8>
    decreases events.len(),
{
    if events.len() == 0 {
        Seq::empty()
    } else {
        received(events.drop_last()) + (match events.last() {
            ReadEventView::Data(bytes) => bytes,
            _ => Seq::empty(),
        })
    }
}

/// What a receiver has of the current message after a row of events, counted from
/// the start of the stream.
pub open spec fn run_pending(order: ByteOrder, events: Seq<ReadEventView>) -> Seq<u8>
    decreases events.len(),
{
    if events.len() == 0 {
        Seq::empty()
    } else {
        reader_pending(order, run_pending(order, events.drop_last()), events.last())
    }
}

/// What a receiver delivers in the course of a row of events, counted from the
/// start of the stream.
pub open spec fn run_deliveries(order: ByteOrder, events: Seq<ReadEventView>) -> Seq<DeliveryView>
    decreases events.len(),
{
    if events.len() == 0 {
        Seq::empty()
    } else {
        let before = run_deliveries(order, events.drop_last());
        match reader_action(order, run_pending(order, events.drop_last()), events.last()) {
            ReaderActionView::Deliver(delivery) => before.push(delivery),
            _ => before,
        }
    }
}

/// Whether a receiver can meet this row of events while the stream goes on: every
/// read gives some bytes, though no more than were wanted, or is interrupted.
pub open spec fn run_goes_on(order: ByteOrder, events: Seq<ReadEventView>) -> bool
    decreases events.len(),
{
    events.len() > 0 ==> {
        &&& run_goes_on(order, events.drop_last())
        &&& event_fits(order, run_pending(order, events.drop_last()), events.last())
        &&& events.last() is Interrupted || (events.last() matches ReadEventView::Data(bytes)
            && bytes.len() > 0)
    }
}

/// The stream `front + more`, when `more` brings at most one message to its end
/// and nothing beyond.
proof fn lemma_stream_extend(order: ByteOrder, front: Seq<u8>, more: Seq<u8>)
    requires
        more.len() <= bytes_wanted(order, stream_rest(order, front)),
    ensures
        ({
            let rest = stream_rest(order, front) + more;
            if holds_frame(order, rest) {
                &&& stream_deliveries(order, front + more) == stream_deliveries(order, front).push(
                    first_delivery(order, rest),
                )
                &&& stream_rest(order, front + more) == Seq::<u8>::empty()
            } else {
                &&& stream_deliveries(order, front + more) == stream_deliveries(order, front)
                &&& stream_rest(order, front + more) == rest
            }
        }),
    decreases front.len(),
{
    let whole = front + more;
    if holds_frame(order, front) {
        let n = frame_len(order, front) as int;
        lemma_header_prefix(order, front, more);
        assert(whole.skip(n) =~= front.skip(n) + more);
        assert(whole.subrange(HEADER_LEN as int, n) =~= front.subrange(HEADER_LEN as int, n));
        lemma_stream_extend(order, front.skip(n), more);
        let rest = stream_rest(order, front) + more;
        if holds_frame(order, rest) {
            assert(stream_deliveries(order, whole) =~= stream_deliveries(order, front).push(
                first_delivery(order, rest),
            ));
        }
    } else if holds_frame(order, whole) {
        if front.len() >= HEADER_LEN {
            lemma_header_prefix(order, front, more);
        }
        let n = frame_len(order, whole) as int;
        assert(whole.skip(n) =~= Seq::<u8>::empty());
        assert(stream_deliveries(order, whole.skip(n)) =~= Seq::<DeliveryView>::empty());
        assert(stream_rest(order, whole.skip(n)) =~= Seq::<u8>::empty());
        assert(stream_deliveries(order, whole) =~= stream_deliveries(order, front).push(
            first_delivery(order, whole),
        ));
    }
}

/// The header at the start of a stream stays the same as the stream grows.
proof fn lemma_header_prefix(order: ByteOrder, front: Seq<u8>, more: Seq<u8>)
    requires
        front.len() >= HEADER_LEN,
    ensures
        header_at_start(order, front + more) == header_at_start(order, front),
{
    law_header_bytes_round_trip(order, front);
    let header = header_at_start(order, front);
    law_header_round_trip(order, header, front.skip(HEADER_LEN as int) + more);
    assert(front + more =~= header_bytes(order, header) + (front.skip(HEADER_LEN as int) + more));
}

/// However the transport cuts the stream into reads, and however often it
/// interrupts them, what is delivered is what the stream holds: every complete
/// message, once, in order. What is kept back is the beginning of the next one.
pub proof fn law_delivery_ignores_chunking(order: ByteOrder, events: Seq<ReadEventView>)
    requires
        run_goes_on(order, events),
    ensures
        run_deliveries(order, events) == stream_deliveries(order, received(events)),
        run_pending(order, events) == stream_rest(order, received(events)),
    decreases events.len(),
{
    if events.len() > 0 {
        law_delivery_ignores_chunking(order, events.drop_last());
        let front = received(events.drop_last());
        match events.last() {
            ReadEventView::Data(bytes) => {
                lemma_stream_extend(order, front, bytes);
            },
            _ => {
                assert(received(events) =~= front);
            },
        }
    }
}

/// A whole message on the wire: its header and its payload.
pub struct Frame {
    pub header: XenSocketMessage,
    pub body: Seq<u8>,
}

impl Frame {
    /// Whether the payload is as long as the header says.
    pub open spec fn whole(self) -> bool {
        self.header.len == self.body.len()
    }

    /// The bytes of the message.
    pub open spec fn bytes(self, order: ByteOrder) -> Seq<u8> {
        header_bytes(order, self.header) + self.body
    }

    /// What is to be delivered for the message.
    pub open spec fn delivery(self) -> DeliveryView {
        frame_delivery(self.header, self.body)
    }
}

/// The bytes of a row of messages.
pub open spec fn frame_stream(order: ByteOrder, frames: Seq<Frame>) -> Seq<u8>
    decreases frames.len(),
{
    if frames.len() == 0 {
        Seq::empty()
    } else {
        frames[0].bytes(order) + frame_stream(order, frames.drop_first())
    }
}

/// A whole message, of whatever type and payload, is found at the start of the
/// stream that it begins.
pub proof fn law_frame_is_found(order: ByteOrder, frame: Frame, rest: Seq<u8>)
    requires
        frame.whole(),
    ensures
        holds_frame(order, frame.bytes(order) + rest),
        frame_len(order, frame.bytes(order) + rest) == frame.bytes(order).len(),
        first_delivery(order, frame.bytes(order) + rest) == frame.delivery(),
{
    let stream = frame.bytes(order) + rest;
    law_header_round_trip(order, frame.header, frame.body + rest);
    assert(stream =~= header_bytes(order, frame.header) + (frame.body + rest));
    assert(stream.subrange(HEADER_LEN as int, HEADER_LEN + frame.body.len()) =~= frame.body);
}

/// Of a stream of whole messages, of whatever types and payloads, each is
/// delivered once, in order, and nothing is kept back. A message that stands for
/// a failure does not disturb those after it.
pub proof fn law_every_frame_is_delivered(order: ByteOrder, frames: Seq<Frame>)
    requires
        forall|i: int| 0 <= i < frames.len() ==> (#[trigger] frames[i]).whole(),
    ensures
        stream_deliveries(order, frame_stream(order, frames)) == frames.map_values(
            |frame: Frame| frame.delivery(),
        ),
        stream_rest(order, frame_stream(order, frames)) == Seq::<u8>::empty(),
    decreases frames.len(),
{
    let expected = frames.map_values(|frame: Frame| frame.delivery());
    if frames.len() == 0 {
        assert(stream_deliveries(order, frame_stream(order, frames)) =~= expected);
    } else {
        let tail = frames.drop_first();
        let rest = frame_stream(order, tail);
        law_every_frame_is_delivered(order, tail);
        law_frame_is_found(order, frames[0], rest);
        let n = frames[0].bytes(order).len() as int;
        assert((frames[0].bytes(order) + rest).skip(n) =~= rest);
        assert(expected =~= seq![frames[0].delivery()] + tail.map_values(
            |frame: Frame| frame.delivery(),
        ));
    }
}

/// A message with text, as a store sends it.
pub struct SentMessage {
    pub req_id: u32,
    pub tx_id: u32,
    pub message: MessageView,
}

impl SentMessage {
    /// The payload on the wire.
    pub open spec fn payload(self) -> Seq<u8> {
        encode_utf8(self.message.body)
    }

    /// Whether the client takes messages of this type, and the header can hold the
    /// length of the payload.
    pub open spec fn sendable(self) -> bool {
        known_kind(self.message.kind) && self.payload().len() <= u32::MAX
    }

    /// The whole message on the wire.
    pub open spec fn frame(self) -> Frame {
        Frame {
            header: XenSocketMessage {
                kind: self.message.kind,
                req_id: self.req_id,
                tx_id: self.tx_id,
                len: self.payload().len() as u32,
            },
            body: self.payload(),
        }
    }

    /// The bytes of the message.
    pub open spec fn bytes(self, order: ByteOrder) -> Seq<u8> {
        self.frame().bytes(order)
    }

    /// What is to be delivered for the message.
    pub open spec fn delivery(self) -> DeliveryView {
        DeliveryView { queue: queue_of(self.message.kind), entry: Ok(self.message) }
    }
}

/// The bytes of a row of messages with text.
pub open spec fn sent_stream(order: ByteOrder, messages: Seq<SentMessage>) -> Seq<u8> {
    frame_stream(order, messages.map_values(|sent: SentMessage| sent.frame()))
}

/// A message with text makes a whole frame, which is delivered as it was sent.
proof fn lemma_sent_frame(sent: SentMessage)
    requires
        sent.sendable(),
    ensures
        sent.frame().whole(),
        sent.frame().delivery() == sent.delivery(),
{
    vstd::utf8::encode_utf8_valid_utf8(sent.message.body);
    vstd::utf8::encode_utf8_decode_utf8(sent.message.body);
}

/// One message that is sent whole is delivered as it was sent.
pub proof fn law_message_round_trip(order: ByteOrder, sent: SentMessage, rest: Seq<u8>)
    requires
        sent.sendable(),
    ensures
        holds_frame(order, sent.bytes(order) + rest),
        frame_len(order, sent.bytes(order) + rest) == sent.bytes(order).len(),
        first_delivery(order, sent.bytes(order) + rest) == sent.delivery(),
{
    lemma_sent_frame(sent);
    law_frame_is_found(order, sent.frame(), rest);
}

/// A stream of messages with text is delivered as it was sent: each message once,
/// in order, with its type and its text, and nothing is kept back.
pub proof fn law_stream_round_trip(order: ByteOrder, messages: Seq<SentMessage>)
    requires
        forall|i: int| 0 <= i < messages.len() ==> (#[trigger] messages[i]).sendable(),
    ensures
        stream_deliveries(order, sent_stream(order, messages)) == messages.map_values(
            |sent: SentMessage| sent.delivery(),
        ),
        stream_rest(order, sent_stream(order, messages)) == Seq::<u8>::empty(),
{
    let frames = messages.map_values(|sent: SentMessage| sent.frame());
    assert forall|i: int| 0 <= i < frames.len() implies (#[trigger] frames[i]).whole()
        && frames[i].delivery() == messages[i].delivery() by {
        lemma_sent_frame(messages[i]);
    }
    law_every_frame_is_delivered(order, frames);
    assert(frames.map_values(|frame: Frame| frame.delivery()) =~= messages.map_values(
        |sent: SentMessage| sent.delivery(),
    ));
}

/// Watch events and nothing else go to the watch queue: a message found there
/// is a watch event, and a message found among the replies is none.
pub proof fn law_queues_are_separate(header: XenSocketMessage, body: Seq<u8>)
    ensures
        frame_delivery(header, body).queue is Watch <==> header.kind == XS_WATCH_EVENT,
        frame_delivery(header, body).entry matches Ok(message) ==> (message.kind == XS_WATCH_EVENT
            <==> frame_delivery(header, body).queue is Watch),
{
}

/// What is delivered for a message. A message of one of the five types that the
/// client knows is delivered with its type and its text, when its payload is UTF-8
/// and as long as the header says. Otherwise a failure is delivered, and says which
/// of these it was. Watch events, and nothing else, go to the watch queue.
pub proof fn law_what_is_delivered(header: XenSocketMessage, body: Vec<u8>, delivery: Delivery)
    requires
        call_ensures(deliver, (&header, body), delivery),
    ensures
        ({
            let known = header.kind == 1 || header.kind == 2 || header.kind == 4 || header.kind
                == 11 || header.kind == 15;
            let is_text = exists|text: Seq<char>| #[trigger] encode_utf8(text) == body@;
            &&& delivery.queue is Watch <==> header.kind == 15
            &&& delivery.entry is Ok <==> known && is_text && header.len == body@.len()
            &&& delivery.entry matches Ok(message) ==> message.kind == header.kind && encode_utf8(
                message.body@,
            ) == body@
            &&& delivery.entry matches Err(error) ==> {
                &&& error is Transaction <==> !known
                &&& error is Utf8 <==> known && !is_text
                &&& error is InvalidData <==> known && is_text
                &&& error matches XsError::Utf8(bytes) ==> bytes@ == body@
            }
        }),
{
    if valid_utf8(body@) {
        vstd::utf8::decode_utf8_encode_utf8(body@);
    } else {
        assert forall|text: Seq<char>| #[trigger] encode_utf8(text) != body@ by {
            vstd::utf8::encode_utf8_valid_utf8(text);
        }
    }
}

/// The same message is delivered in one way only: what the receiver delivers for a
/// frame is what is delivered for its header and its payload.
pub proof fn law_frames_are_delivered_alike(frame: Frame, body: Vec<u8>, delivery: Delivery)
    requires
        body@ == frame.body,
        call_ensures(deliver, (&frame.header, body), delivery),
    ensures
        delivery@ == frame.delivery(),
{
}

/// Deliveries, events and actions and their mathematical values say the same.
pub proof fn law_views_are_faithful(delivery: Delivery, event: ReadEvent, action: ReaderAction)
    ensures
        delivery@.queue == delivery.queue,
        delivery@.entry == entry_view(delivery.entry),
        event matches ReadEvent::Data(bytes) ==> event@ == ReadEventView::Data(bytes@),
        event is Interrupted <==> event@ is Interrupted,
        event is Failed <==> event@ is Failed,
        action is Read <==> action@ is Read,
        action matches ReaderAction::Deliver(given) ==> action@ == ReaderActionView::Deliver(
            given@,
        ),
        action matches ReaderAction::Stop(reason) ==> action@ == ReaderActionView::Stop(reason),
{
}

/// Receiving stops for the end of the stream and for a failure of the transport,
/// and for nothing else, wherever in a message the receiver is and whatever it is
/// given.
pub proof fn law_receiving_stops_only_at_the_end(
    reader: &mut FrameReader,
    event: ReadEvent,
    action: ReaderAction,
)
    requires
        old(reader).wf(),
        event_fits(old(reader).order(), old(reader).pending(), event@),
        call_ensures(FrameReader::thread_function, (reader, event), action),
    ensures
        action is Stop <==> event is Failed || (event matches ReadEvent::Data(bytes) && bytes@.len()
            == 0),
        action == ReaderAction::Stop(StopReason::Failed) <==> event is Failed,
        event is Interrupted ==> action is Read && final(reader).pending() == old(reader).pending(),
        final(reader).order() == old(reader).order(),
        final(reader).wf(),
{
}

/// Bytes that are received are kept until they make up a whole message. Then, and
/// only then, it is delivered, and the next message begins with nothing received.
pub proof fn law_bytes_are_kept_until_whole(
    reader: &mut FrameReader,
    bytes: &[u8],
    action: ReaderAction,
)
    requires
        old(reader).wf(),
        event_fits(old(reader).order(), old(reader).pending(), ReadEventView::Data(bytes@)),
        bytes@.len() > 0,
        call_ensures(FrameReader::thread_function, (reader, ReadEvent::Data(bytes)), action),
    ensures
        ({
            let got = old(reader).pending() + bytes@;
            let whole = exists|frame: Frame| #[trigger]
                frame.whole() && frame.bytes(old(reader).order()) == got;
            &&& action is Deliver <==> whole
            &&& action is Read <==> !whole
            &&& final(reader).pending() == if whole {
                Seq::empty()
            } else {
                got
            }
        }),
{
    let order = old(reader).order();
    let pending = old(reader).pending();
    let got = pending + bytes@;
    let event = ReadEvent::Data(bytes);
    assert(event@ == ReadEventView::Data(bytes@));
    if holds_frame(order, got) {
        if pending.len() >= HEADER_LEN {
            lemma_header_prefix(order, pending, bytes@);
        }
        assert(got.len() == frame_len(order, got));
        let frame = Frame {
            header: header_at_start(order, got),
            body: got.skip(HEADER_LEN as int),
        };
        law_header_bytes_round_trip(order, got);
        assert(frame.bytes(order) =~= got);
        assert(frame.whole());
    } else {
        assert forall|frame: Frame| #[trigger] frame.whole() implies frame.bytes(order) != got by {
            law_frame_is_found(order, frame, Seq::empty());
            assert(frame.bytes(order) + Seq::<u8>::empty() =~= frame.bytes(order));
        }
    }
}

/// The bytes that bring a message to its end bring its delivery: with its type and
/// its text, or with what is wrong with it.
pub proof fn law_last_bytes_bring_the_message(
    reader: &mut FrameReader,
    bytes: &[u8],
    action: ReaderAction,
    frame: Frame,
    body: Vec<u8>,
    delivery: Delivery,
)
    requires
        old(reader).wf(),
        bytes@.len() > 0,
        frame.whole(),
        old(reader).pending() + bytes@ == frame.bytes(old(reader).order()),
        event_fits(old(reader).order(), old(reader).pending(), ReadEventView::Data(bytes@)),
        body@ == frame.body,
        call_ensures(deliver, (&frame.header, body), delivery),
        call_ensures(FrameReader::thread_function, (reader, ReadEvent::Data(bytes)), action),
    ensures
        action matches ReaderAction::Deliver(given) && given.queue == delivery.queue && entry_view(
            given.entry,
        ) == entry_view(delivery.entry),
        final(reader).pending().len() == 0,
{
    let order = old(reader).order();
    let event = ReadEvent::Data(bytes);
    assert(event@ == ReadEventView::Data(bytes@));
    law_frame_is_found(order, frame, Seq::empty());
    assert(frame.bytes(order) + Seq::<u8>::empty() =~= frame.bytes(order));
    assert(action@ == ReaderActionView::Deliver(delivery@));
}

/// The receiver asks for what brings the header to its end, and then for what
/// brings the message to its end: never for nothing, and never for a byte beyond.
pub proof fn law_receiver_asks_for_the_rest(
    reader: FrameReader,
    count: usize,
    frame: Frame,
    rest: Seq<u8>,
)
    requires
        reader.wf(),
        call_ensures(FrameReader::wanted, (&reader,), count),
        frame.whole(),
        reader.pending() + rest == frame.bytes(reader.order()),
    ensures
        count > 0,
        reader.pending().len() < 16 ==> count == 16 - reader.pending().len(),
        reader.pending().len() >= 16 ==> count == rest.len(),
{
    let order = reader.order();
    law_frame_is_found(order, frame, Seq::empty());
    assert(frame.bytes(order) + Seq::<u8>::empty() =~= frame.bytes(order));
    if reader.pending().len() >= HEADER_LEN {
        lemma_header_prefix(order, reader.pending(), rest);
    }
}

/// No message is found before its last byte is there.
pub proof fn law_no_frame_before_its_end(order: ByteOrder, frame: Frame, n: int)
    requires
        frame.whole(),
        0 <= n < frame.bytes(order).len(),
    ensures
        !holds_frame(order, frame.bytes(order).take(n)),
        stream_deliveries(order, frame.bytes(order).take(n)) == Seq::<DeliveryView>::empty(),
        stream_rest(order, frame.bytes(order).take(n)) == frame.bytes(order).take(n),
{
    let bytes = frame.bytes(order);
    law_header_round_trip(order, frame.header, frame.body);
    if n >= HEADER_LEN {
        lemma_header_prefix(order, bytes.take(n), bytes.skip(n));
        assert(bytes.take(n) + bytes.skip(n) =~= bytes);
    }
}

/// Whatever the store sends arrives. Where a receiver gets whole messages, of
/// whatever types and payloads, in reads of any sizes and with any interruptions in
/// between, it delivers each of them once, in order, keeps nothing back, and does
/// not stop.
pub proof fn law_messages_arrive(
    order: ByteOrder,
    frames: Seq<Frame>,
    events: Seq<ReadEventView>,
)
    requires
        forall|i: int| 0 <= i < frames.len() ==> (#[trigger] frames[i]).whole(),
        run_goes_on(order, events),
        received(events) == frame_stream(order, frames),
    ensures
        run_deliveries(order, events) == frames.map_values(|frame: Frame| frame.delivery()),
        run_pending(order, events) == Seq::<u8>::empty(),
        forall|i: int|
            0 <= i < events.len() ==> !(reader_action(
                order,
                run_pending(order, events.take(i)),
                #[trigger] events[i],
            ) is Stop),
{
    law_every_frame_is_delivered(order, frames);
    law_delivery_ignores_chunking(order, events);
    lemma_run_never_stops(order, events);
}

/// A receiver does not stop while the stream goes on.
proof fn lemma_run_never_stops(order: ByteOrder, events: Seq<ReadEventView>)
    requires
        run_goes_on(order, events),
    ensures
        forall|i: int|
            0 <= i < events.len() ==> !(reader_action(
                order,
                run_pending(order, events.take(i)),
                #[trigger] events[i],
            ) is Stop),
    decreases events.len(),
{
    if events.len() > 0 {
        let before = events.drop_last();
        lemma_run_never_stops(order, before);
        assert forall|i: int| 0 <= i < events.len() implies !(reader_action(
            order,
            run_pending(order, events.take(i)),
            #[trigger] events[i],
        ) is Stop) by {
            if i < before.len() {
                assert(before.take(i) =~= events.take(i));
                assert(before[i] == events[i]);
            } else {
                assert(events.take(i) =~= before);
            }
        }
    }
}

/// A new receiver has received nothing, and asks for a header first.
pub proof fn law_new_receiver_is_empty(order: ByteOrder, reader: FrameReader, count: usize)
    requires
        call_ensures(FrameReader::new, (order,), reader),
        call_ensures(FrameReader::wanted, (&reader,), count),
    ensures
        reader.wf(),
        reader.order() == order,
        reader.pending().len() == 0,
        count == 16,
{
}

} // verus!
