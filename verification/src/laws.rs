//! What holds of the client as a whole.

use vstd::prelude::*;
use vstd::utf8::{decode_utf8, encode_utf8};

use crate::device::{any_bit, device_action, DeviceAction, DeviceEvent, PollOutcome, POLL_INPUT};
use crate::error::{ErrorView, XsError};
use crate::handle::{
    after_delivery, after_reply, after_watch, is_request, path_payload, reply_is_due, reply_result,
    request_buffers, watch_payload, watch_result, write_payload, HandleView, Listing,
    Transaction, XenStoreHandle,
};
use crate::message::{
    header_at_start, header_bytes, is_native, law_header_round_trip, ByteOrder, MessageView,
    XenSocketMessage, HEADER_LEN, XS_WATCH_EVENT,
};
use crate::reader::{
    first_delivery, frame_delivery, frame_len, holds_frame, known_kind, law_message_round_trip,
    reader_action, Delivery, DeliveryView, Queue, ReadEventView, ReaderActionView, SentMessage,
    StopReason,
};
use crate::text::{
    decimal_text, has_nul, join_nul, law_join_split, law_numbers_round_trip, lemma_encode_concat,
    lemma_encode_nul, lemma_listing_is_unique, parse_listing, split, split_nul, texts, unreadable,
};
use crate::writer::{
    after_writes, law_request_is_written_whole, outcomes_fit, taken, RequestWriter, WriteOutcome,
};

verus! {

/// Once a request is written, however the transport cut up the writes, the other
/// side has got one whole message: a header of the type that was asked for and
/// the length of the payload, and the payload.
pub proof fn law_request_arrives(
    order: ByteOrder,
    kind: u32,
    payload: Seq<u8>,
    outcomes: Seq<WriteOutcome>,
)
    requires
        payload.len() <= u32::MAX,
        outcomes_fit(request_buffers(order, kind, payload), outcomes),
        after_writes(request_buffers(order, kind, payload), outcomes).len() == 0,
    ensures
        ({
            let arrived = taken(request_buffers(order, kind, payload), outcomes);
            &&& holds_frame(order, arrived)
            &&& frame_len(order, arrived) == arrived.len()
            &&& header_at_start(order, arrived) == (XenSocketMessage {
                kind,
                req_id: 0,
                tx_id: 0,
                len: payload.len() as u32,
            })
            &&& arrived.skip(HEADER_LEN as int) == payload
        }),
{
    let message = XenSocketMessage { kind, req_id: 0, tx_id: 0, len: payload.len() as u32 };
    law_request_is_written_whole(order, message, payload, outcomes);
    law_header_round_trip(order, message, payload);
    assert((header_bytes(order, message) + payload).skip(HEADER_LEN as int) =~= payload);
}

/// A transaction is not over before its request is written: a request always has
/// something to write.
pub proof fn law_request_is_never_empty(order: ByteOrder, kind: u32, payload: Seq<u8>)
    ensures
        request_buffers(order, kind, payload).len() > 0,
{
}

/// The other side can tell apart the strings in a payload: they are what the text
/// of the payload holds between its NULs. After a terminated string comes one
/// empty piece.
pub proof fn law_payload_lists_its_strings(path: Seq<char>, other: Seq<char>)
    requires
        !has_nul(path),
        !has_nul(other),
    ensures
        split_nul(decode_utf8(path_payload(path))) == seq![path, seq![]],
        split_nul(decode_utf8(write_payload(path, other))) == seq![path, other],
        split_nul(decode_utf8(watch_payload(path, other))) == seq![path, other, seq![]],
{
    let nul = seq!['\0'];
    let none = Seq::<char>::empty();
    lemma_encode_nul();
    lemma_encode_concat(path, nul);
    lemma_encode_concat(path + nul, other);
    lemma_encode_concat(path + nul + other, nul);

    lemma_join_two(path, none);
    assert(path + nul + none =~= path + nul);
    law_join_split(seq![path, none]);
    vstd::utf8::encode_utf8_decode_utf8(path + nul);

    lemma_join_two(path, other);
    law_join_split(seq![path, other]);
    vstd::utf8::encode_utf8_decode_utf8(path + nul + other);

    lemma_join_three(path, other, none);
    assert(path + nul + other + nul + none =~= path + nul + other + nul);
    law_join_split(seq![path, other, none]);
    vstd::utf8::encode_utf8_decode_utf8(path + nul + other + nul);
}

/// Two strings with a NUL between them.
proof fn lemma_join_two(first: Seq<char>, second: Seq<char>)
    ensures
        join_nul(seq![first, second]) == first + seq!['\0'] + second,
{
    assert(seq![first, second].drop_last() =~= seq![first]);
    reveal_with_fuel(join_nul, 2);
}

/// Three strings with NULs between them.
proof fn lemma_join_three(first: Seq<char>, second: Seq<char>, third: Seq<char>)
    ensures
        join_nul(seq![first, second, third]) == first + seq!['\0'] + second + seq!['\0'] + third,
{
    lemma_join_two(first, second);
    assert(seq![first, second, third].drop_last() =~= seq![first, second]);
}

/// What the store sends in reply is what the request that waits for it gets: the
/// whole text, when the reply is of the type of the request, and a refusal
/// otherwise.
pub proof fn law_reply_gives_back(order: ByteOrder, sent: SentMessage, rest: Seq<u8>, kind: u32)
    requires
        sent.sendable(),
    ensures
        ({
            let delivery = first_delivery(order, sent.bytes(order) + rest);
            &&& delivery.queue is Watch <==> sent.message.kind == XS_WATCH_EVENT
            &&& kind == sent.message.kind ==> reply_result(delivery.entry, kind)
                == Ok::<Seq<char>, ErrorView>(sent.message.body)
            &&& kind != sent.message.kind ==> reply_result(delivery.entry, kind)
                == Err::<Seq<char>, ErrorView>(ErrorView::InvalidData)
        }),
{
    law_message_round_trip(order, sent, rest);
}

/// Transactions stay in step with their replies. From a client with no replies,
/// whatever comes in as a reply, a message of any type or a failure, is what the
/// waiting transaction takes, and then there are none again.
pub proof fn law_transactions_stay_in_step(
    state: HandleView,
    transaction: Transaction,
    delivery: DeliveryView,
)
    requires
        state.replies.len() == 0,
        transaction.request@.len() == 0,
        delivery.queue is Reply,
    ensures
        ({
            let then = after_delivery(state, delivery);
            &&& !reply_is_due(state, transaction)
            &&& reply_is_due(then, transaction)
            &&& reply_result(then.replies[0], transaction.kind) == reply_result(
                delivery.entry,
                transaction.kind,
            )
            &&& after_reply(then) == state
        }),
{
    assert(after_reply(after_delivery(state, delivery)).replies =~= state.replies);
}

/// A transaction that the store answers with a message of its own type takes the
/// text of that message, and leaves no reply behind.
pub proof fn law_answer_is_taken(
    state: HandleView,
    transaction: Transaction,
    sent: SentMessage,
    rest: Seq<u8>,
)
    requires
        state.replies.len() == 0,
        transaction.request@.len() == 0,
        sent.sendable(),
        sent.message.kind == transaction.kind,
        sent.message.kind != XS_WATCH_EVENT,
    ensures
        ({
            let then = after_delivery(
                state,
                first_delivery(state.order, sent.bytes(state.order) + rest),
            );
            &&& reply_is_due(then, transaction)
            &&& reply_result(then.replies[0], transaction.kind) == Ok::<Seq<char>, ErrorView>(
                sent.message.body,
            )
            &&& after_reply(then) == state
        }),
{
    law_message_round_trip(state.order, sent, rest);
    law_transactions_stay_in_step(
        state,
        transaction,
        first_delivery(state.order, sent.bytes(state.order) + rest),
    );
}

/// A message of a type that the client does not know, as a store sends to refuse
/// a request, goes to the replies, and fails the request that waits for it,
/// whatever the message says.
pub proof fn law_refused_request_fails(header: XenSocketMessage, body: Seq<u8>, kind: u32)
    requires
        !known_kind(header.kind),
    ensures
        frame_delivery(header, body).queue is Reply,
        reply_result(frame_delivery(header, body).entry, kind) == Err::<Seq<char>, ErrorView>(
            ErrorView::Transaction,
        ),
{
}

/// A listing is unreadable exactly when some name in it, the empty ones left out,
/// is no number. Such a name is never passed over.
pub proof fn law_unreadable_names_are_reported(listing: Listing, text: Seq<char>)
    requires
        listing.lists(text),
    ensures
        listing is Unreadable <==> exists|i: int|
            0 <= i < split_nul(text).len() && unreadable(#[trigger] split_nul(text)[i]),
{
}

/// A watch event gives back the path and the token that the store sent with it,
/// and has no part beyond the empty one after the token.
pub proof fn law_watch_event_parts(path: Seq<char>, token: Seq<char>, index: u32)
    requires
        !has_nul(path),
        !has_nul(token),
    ensures
        ({
            let event = MessageView {
                kind: XS_WATCH_EVENT,
                body: path + seq!['\0'] + token + seq!['\0'],
            };
            watch_result(Ok(event), index) == (if index == 0 {
                Ok(path)
            } else if index == 1 {
                Ok(token)
            } else if index == 2 {
                Ok(seq![])
            } else {
                Err::<Seq<char>, ErrorView>(ErrorView::InvalidInput)
            })
        }),
{
    let none = Seq::<char>::empty();
    let body = path + seq!['\0'] + token + seq!['\0'];
    lemma_join_three(path, token, none);
    assert(body + none =~= body);
    law_join_split(seq![path, token, none]);
}

/// A shutdown request ends the receiving, whatever the device has ready and
/// wherever in a message the receiver is: the read of the device comes back with
/// no bytes, and that is an unexpected end of the stream.
pub proof fn law_shutdown_ends_receiving(
    order: ByteOrder,
    pending: Seq<u8>,
    device: i16,
    stop: i16,
)
    requires
        any_bit(stop, POLL_INPUT),
    ensures
        device_action(DeviceEvent::Polled(PollOutcome::Ready { device, stop }))
            == DeviceAction::Return(0),
        reader_action(order, pending, ReadEventView::Data(Seq::empty())) == ReaderActionView::Stop(
            StopReason::UnexpectedEof,
        ),
{
}

/// Something that happens to a client.
pub enum Operation {
    /// An entry is delivered.
    Deliver(DeliveryView),
    /// The oldest reply is taken, if there is one.
    TakeReply,
    /// The oldest watch event is taken, if there is one.
    TakeWatch,
}

/// The state after an operation.
pub open spec fn after_operation(state: HandleView, operation: Operation) -> HandleView {
    match operation {
        Operation::Deliver(delivery) => after_delivery(state, delivery),
        Operation::TakeReply => if state.replies.len() > 0 {
            after_reply(state)
        } else {
            state
        },
        Operation::TakeWatch => if state.watches.len() > 0 {
            after_watch(state)
        } else {
            state
        },
    }
}

/// The state after a row of operations.
pub open spec fn after_operations(state: HandleView, operations: Seq<Operation>) -> HandleView
    decreases operations.len(),
{
    if operations.len() == 0 {
        state
    } else {
        after_operation(after_operations(state, operations.drop_last()), operations.last())
    }
}

/// The entries that a row of operations delivered to `queue`.
pub open spec fn delivered(operations: Seq<Operation>, queue: Queue) -> Seq<
    Result<MessageView, ErrorView>,
>
    decreases operations.len(),
{
    if operations.len() == 0 {
        Seq::empty()
    } else {
        let before = delivered(operations.drop_last(), queue);
        match operations.last() {
            Operation::Deliver(delivery) => if delivery.queue == queue {
                before.push(delivery.entry)
            } else {
                before
            },
            _ => before,
        }
    }
}

/// The entries that a row of operations took from `queue`.
pub open spec fn removed(state: HandleView, operations: Seq<Operation>, queue: Queue) -> Seq<
    Result<MessageView, ErrorView>,
>
    decreases operations.len(),
{
    if operations.len() == 0 {
        Seq::empty()
    } else {
        let now = after_operations(state, operations.drop_last());
        let before = removed(state, operations.drop_last(), queue);
        match operations.last() {
            Operation::TakeReply => if queue is Reply && now.replies.len() > 0 {
                before.push(now.replies[0])
            } else {
                before
            },
            Operation::TakeWatch => if queue is Watch && now.watches.len() > 0 {
                before.push(now.watches[0])
            } else {
                before
            },
            _ => before,
        }
    }
}

/// Both queues are first in, first out, and lose and repeat nothing: what was
/// taken, followed by what is there, is what was there at first, followed by what
/// was delivered.
pub proof fn law_queues_are_fifo(state: HandleView, operations: Seq<Operation>)
    ensures
        ({
            let now = after_operations(state, operations);
            &&& removed(state, operations, Queue::Reply) + now.replies == state.replies + delivered(
                operations,
                Queue::Reply,
            )
            &&& removed(state, operations, Queue::Watch) + now.watches == state.watches + delivered(
                operations,
                Queue::Watch,
            )
        }),
    decreases operations.len(),
{
    let now = after_operations(state, operations);
    if operations.len() > 0 {
        let before = operations.drop_last();
        law_queues_are_fifo(state, before);
        let then = after_operations(state, before);
        let removed_replies = removed(state, before, Queue::Reply);
        let removed_watches = removed(state, before, Queue::Watch);
        match operations.last() {
            Operation::Deliver(delivery) => {
                assert(removed_replies + then.replies.push(delivery.entry) =~= (removed_replies
                    + then.replies).push(delivery.entry));
                assert(removed_watches + then.watches.push(delivery.entry) =~= (removed_watches
                    + then.watches).push(delivery.entry));
            },
            Operation::TakeReply => {
                if then.replies.len() > 0 {
                    assert(removed_replies.push(then.replies[0]) + then.replies.drop_first()
                        =~= removed_replies + then.replies);
                }
            },
            Operation::TakeWatch => {
                if then.watches.len() > 0 {
                    assert(removed_watches.push(then.watches[0]) + then.watches.drop_first()
                        =~= removed_watches + then.watches);
                }
            },
        }
    }
    assert(removed(state, operations, Queue::Reply) + now.replies =~= state.replies + delivered(
        operations,
        Queue::Reply,
    ));
    assert(removed(state, operations, Queue::Watch) + now.watches =~= state.watches + delivered(
        operations,
        Queue::Watch,
    ));
}

/// A counter that goes up by one with each entry delivered to the watch queue,
/// and down by one with each that is taken from it, stands at the number of watch
/// events that are there: it is never below zero, and above zero exactly when
/// there is an event to take.
pub proof fn law_signals_count_watch_events(state: HandleView, operations: Seq<Operation>)
    requires
        state.watches.len() == 0,
    ensures
        delivered(operations, Queue::Watch).len() - removed(state, operations, Queue::Watch).len()
            == after_operations(state, operations).watches.len(),
{
    law_queues_are_fifo(state, operations);
    let now = after_operations(state, operations);
    assert((removed(state, operations, Queue::Watch) + now.watches).len() == (state.watches
        + delivered(operations, Queue::Watch)).len());
}

/// The bytes of a request, taken as one row: a header that says its type and the
/// length of its payload, and the payload.
proof fn lemma_request(
    result: Result<Transaction, XsError>,
    order: ByteOrder,
    kind: u32,
    payload: Seq<u8>,
)
    requires
        is_request(result, order, kind, payload),
        payload.len() <= u32::MAX,
    ensures
        result is Ok,
        result->Ok_0.request@.len() > 0,
        header_at_start(order, result->Ok_0.request@[0]) == (XenSocketMessage {
            kind,
            req_id: 0,
            tx_id: 0,
            len: payload.len() as u32,
        }),
        result->Ok_0.request@[0].len() == 16,
        result->Ok_0.request@.flatten() == result->Ok_0.request@[0] + payload,
{
    let header = XenSocketMessage { kind, req_id: 0, tx_id: 0, len: payload.len() as u32 };
    let buffers = result->Ok_0.request@;
    law_header_round_trip(order, header, Seq::empty());
    assert(buffers[0] + Seq::<u8>::empty() =~= buffers[0]);
    assert(buffers.flatten() == buffers[0] + buffers.drop_first().flatten());
    if payload.len() == 0 {
        assert(buffers.drop_first().flatten() =~= payload);
    } else {
        assert(buffers.drop_first() =~= seq![payload]);
        buffers.drop_first().lemma_flatten_one_element();
    }
}

/// A request to read a node is of type 2, waits for a reply of the same type, and
/// carries the path, terminated. There is one for every path without a NUL that
/// fits.
pub proof fn law_read_request(
    handle: XenStoreHandle,
    path: &str,
    result: Result<Transaction, XsError>,
)
    requires
        call_ensures(XenStoreHandle::read_str, (&handle, path), result),
    ensures
        ({
            let payload = encode_utf8(path@.push('\0'));
            let nul = (exists|i: int| 0 <= i < path@.len() && #[trigger] path@[i] == '\0');
            &&& result is Ok <==> !nul && payload.len() < 0x1_0000_0000
            &&& result matches Err(error) ==> (if nul {
                error is NulByte
            } else {
                error is InvalidInput
            })
            &&& result matches Ok(transaction) ==> {
                let header = transaction.request@[0];
                &&& transaction.request.wf()
                &&& transaction.kind == 2
                &&& header.len() == 16
                &&& header_at_start(handle@.order, header).kind == transaction.kind
                &&& header_at_start(handle@.order, header).len == payload.len()
                &&& header_at_start(handle@.order, header).req_id == 0
                &&& header_at_start(handle@.order, header).tx_id == 0
                &&& transaction.request@.flatten() == header + payload
            }
        }),
{
    let payload = path_payload(path@);
    lemma_encode_nul();
    lemma_encode_concat(path@, seq!['\0']);
    assert(path@ + seq!['\0'] =~= path@.push('\0'));
    if payload.len() <= u32::MAX && !has_nul(path@) {
        lemma_request(result, handle@.order, 2, payload);
    }
    if has_nul(path@) {
        let i = path@.index_of('\0');
        assert(path@[i] == '\0');
    }
}

/// A request to list a node is of type 1, waits for a reply of the same type, and
/// carries the path, terminated. There is one for every path without a NUL that
/// fits.
pub proof fn law_directory_request(
    handle: XenStoreHandle,
    path: &str,
    result: Result<Transaction, XsError>,
)
    requires
        call_ensures(XenStoreHandle::directory, (&handle, path), result),
    ensures
        ({
            let payload = encode_utf8(path@.push('\0'));
            let nul = (exists|i: int| 0 <= i < path@.len() && #[trigger] path@[i] == '\0');
            &&& result is Ok <==> !nul && payload.len() < 0x1_0000_0000
            &&& result matches Err(error) ==> (if nul {
                error is NulByte
            } else {
                error is InvalidInput
            })
            &&& result matches Ok(transaction) ==> {
                let header = transaction.request@[0];
                &&& transaction.request.wf()
                &&& transaction.kind == 1
                &&& header.len() == 16
                &&& header_at_start(handle@.order, header).kind == transaction.kind
                &&& header_at_start(handle@.order, header).len == payload.len()
                &&& header_at_start(handle@.order, header).req_id == 0
                &&& header_at_start(handle@.order, header).tx_id == 0
                &&& transaction.request@.flatten() == header + payload
            }
        }),
{
    let payload = path_payload(path@);
    lemma_encode_nul();
    lemma_encode_concat(path@, seq!['\0']);
    assert(path@ + seq!['\0'] =~= path@.push('\0'));
    if payload.len() <= u32::MAX && !has_nul(path@) {
        lemma_request(result, handle@.order, 1, payload);
    }
    if has_nul(path@) {
        let i = path@.index_of('\0');
        assert(path@[i] == '\0');
    }
}

/// A request to write a node is of type 11, waits for a reply of the same type, and
/// carries the path, terminated, and the value, which ends with the payload. There
/// is one for every path and value without NULs that fit.
pub proof fn law_write_request(
    handle: XenStoreHandle,
    path: &str,
    val: &str,
    result: Result<Transaction, XsError>,
)
    requires
        call_ensures(XenStoreHandle::write_str, (&handle, path, val), result),
    ensures
        ({
            let payload = encode_utf8(path@.push('\0') + val@);
            let nul = (exists|i: int| 0 <= i < path@.len() && #[trigger] path@[i] == '\0')
                || (exists|i: int| 0 <= i < val@.len() && #[trigger] val@[i] == '\0');
            &&& result is Ok <==> !nul && payload.len() < 0x1_0000_0000
            &&& result matches Err(error) ==> (if nul {
                error is NulByte
            } else {
                error is InvalidInput
            })
            &&& result matches Ok(transaction) ==> {
                let header = transaction.request@[0];
                &&& transaction.request.wf()
                &&& transaction.kind == 11
                &&& header.len() == 16
                &&& header_at_start(handle@.order, header).kind == transaction.kind
                &&& header_at_start(handle@.order, header).len == payload.len()
                &&& header_at_start(handle@.order, header).req_id == 0
                &&& header_at_start(handle@.order, header).tx_id == 0
                &&& transaction.request@.flatten() == header + payload
            }
        }),
{
    let payload = write_payload(path@, val@);
    lemma_encode_nul();
    lemma_encode_concat(path@, seq!['\0']);
    assert(path@ + seq!['\0'] =~= path@.push('\0'));
    lemma_encode_concat(path@.push('\0'), val@);
    if payload.len() <= u32::MAX && !has_nul(path@) && !has_nul(val@) {
        lemma_request(result, handle@.order, 11, payload);
    }
    if has_nul(path@) {
        let i = path@.index_of('\0');
        assert(path@[i] == '\0');
    }
    if has_nul(val@) {
        let i = val@.index_of('\0');
        assert(val@[i] == '\0');
    }
}

/// A request to watch a node is of type 4, waits for a reply of the same type, and
/// carries the path and the token, both terminated. There is one for every path and
/// token without NULs that fit.
pub proof fn law_watch_request(
    handle: XenStoreHandle,
    path: &str,
    token: &str,
    result: Result<Transaction, XsError>,
)
    requires
        call_ensures(XenStoreHandle::create_watch, (&handle, path, token), result),
    ensures
        ({
            let payload = encode_utf8((path@.push('\0') + token@).push('\0'));
            let nul = (exists|i: int| 0 <= i < path@.len() && #[trigger] path@[i] == '\0')
                || (exists|i: int| 0 <= i < token@.len() && #[trigger] token@[i] == '\0');
            &&& result is Ok <==> !nul && payload.len() < 0x1_0000_0000
            &&& result matches Err(error) ==> (if nul {
                error is NulByte
            } else {
                error is InvalidInput
            })
            &&& result matches Ok(transaction) ==> {
                let header = transaction.request@[0];
                &&& transaction.request.wf()
                &&& transaction.kind == 4
                &&& header.len() == 16
                &&& header_at_start(handle@.order, header).kind == transaction.kind
                &&& header_at_start(handle@.order, header).len == payload.len()
                &&& header_at_start(handle@.order, header).req_id == 0
                &&& header_at_start(handle@.order, header).tx_id == 0
                &&& transaction.request@.flatten() == header + payload
            }
        }),
{
    let payload = watch_payload(path@, token@);
    lemma_encode_nul();
    lemma_encode_concat(path@, seq!['\0']);
    assert(path@ + seq!['\0'] =~= path@.push('\0'));
    lemma_encode_concat(path@.push('\0'), token@);
    lemma_encode_concat(path@.push('\0') + token@, seq!['\0']);
    assert(path@.push('\0') + token@ + seq!['\0'] =~= (path@.push('\0') + token@).push('\0'));
    if payload.len() <= u32::MAX && !has_nul(path@) && !has_nul(token@) {
        lemma_request(result, handle@.order, 4, payload);
    }
    if has_nul(path@) {
        let i = path@.index_of('\0');
        assert(path@[i] == '\0');
    }
    if has_nul(token@) {
        let i = token@.index_of('\0');
        assert(token@[i] == '\0');
    }
}

/// A node that is read gives the text of the reply: once the request is written and
/// answered with a message of type 2, that is what comes back, and a message of
/// another type is refused.
pub proof fn law_read_is_answered(
    client: XenStoreHandle,
    path: &str,
    begun: Transaction,
    written: Transaction,
    handle: &mut XenStoreHandle,
    reply: MessageView,
    result: Option<Result<String, XsError>>,
)
    requires
        call_ensures(XenStoreHandle::read_str, (&client, path), Ok::<Transaction, XsError>(begun)),
        written.kind == begun.kind,
        written.request.wf(),
        call_ensures(RequestWriter::pending, (&written.request,), None::<&[u8]>),
        old(handle)@.replies.len() > 0,
        old(handle)@.replies[0] == Ok::<MessageView, ErrorView>(reply),
        call_ensures(XenStoreHandle::xs_transaction, (handle, &written), result),
    ensures
        result is Some,
        reply.kind == 2 ==> (result->0 matches Ok(text) && text@ == reply.body),
        reply.kind != 2 ==> (result->0 matches Err(error) && error is InvalidData),
{
}

/// A write that the store answers with a message of type 11 has succeeded, and one
/// that it answers with another has not.
pub proof fn law_write_is_acknowledged(
    client: XenStoreHandle,
    path: &str,
    val: &str,
    begun: Transaction,
    written: Transaction,
    handle: &mut XenStoreHandle,
    reply: MessageView,
    result: Option<Result<(), XsError>>,
)
    requires
        call_ensures(
            XenStoreHandle::write_str,
            (&client, path, val),
            Ok::<Transaction, XsError>(begun),
        ),
        written.kind == begun.kind,
        written.request.wf(),
        call_ensures(RequestWriter::pending, (&written.request,), None::<&[u8]>),
        old(handle)@.replies.len() > 0,
        old(handle)@.replies[0] == Ok::<MessageView, ErrorView>(reply),
        call_ensures(XenStoreHandle::acknowledge, (handle, &written), result),
    ensures
        result is Some,
        reply.kind == 11 ==> result->0 is Ok,
        reply.kind != 11 ==> (result->0 matches Err(error) && error is InvalidData),
{
}

/// A watch that the store answers with a message of type 4 is set, and one that it
/// answers with another is not.
pub proof fn law_watch_is_acknowledged(
    client: XenStoreHandle,
    path: &str,
    token: &str,
    begun: Transaction,
    written: Transaction,
    handle: &mut XenStoreHandle,
    reply: MessageView,
    result: Option<Result<(), XsError>>,
)
    requires
        call_ensures(
            XenStoreHandle::create_watch,
            (&client, path, token),
            Ok::<Transaction, XsError>(begun),
        ),
        written.kind == begun.kind,
        written.request.wf(),
        call_ensures(RequestWriter::pending, (&written.request,), None::<&[u8]>),
        old(handle)@.replies.len() > 0,
        old(handle)@.replies[0] == Ok::<MessageView, ErrorView>(reply),
        call_ensures(XenStoreHandle::acknowledge, (handle, &written), result),
    ensures
        result is Some,
        reply.kind == 4 ==> result->0 is Ok,
        reply.kind != 4 ==> (result->0 matches Err(error) && error is InvalidData),
{
}

/// A node that is listed gives what reading the listing in the reply comes to, once
/// the request is written and answered with a message of type 1: all its numbers, in
/// order, or the name that is none.
pub proof fn law_directory_is_answered(
    client: XenStoreHandle,
    path: &str,
    begun: Transaction,
    written: Transaction,
    handle: &mut XenStoreHandle,
    reply: MessageView,
    text: &str,
    parsed: Result<Vec<i32>, String>,
    result: Option<Result<Listing, XsError>>,
)
    requires
        call_ensures(XenStoreHandle::directory, (&client, path), Ok::<Transaction, XsError>(begun)),
        written.kind == begun.kind,
        written.request.wf(),
        call_ensures(RequestWriter::pending, (&written.request,), None::<&[u8]>),
        old(handle)@.replies.len() > 0,
        old(handle)@.replies[0] == Ok::<MessageView, ErrorView>(reply),
        text@ == reply.body,
        call_ensures(parse_listing, (text,), parsed),
        call_ensures(XenStoreHandle::listing, (handle, &written), result),
    ensures
        result is Some,
        reply.kind == 1 ==> (result->0 matches Ok(listing) && match parsed {
            Ok(numbers) => listing matches Listing::Numbers(all) && all@ == numbers@,
            Err(name) => listing matches Listing::Unreadable(other) && other@ == name@,
        }),
        reply.kind != 1 ==> (result->0 matches Err(error) && error is InvalidData),
{
    if reply.kind == 1 {
        lemma_listing_is_unique(
            split_nul(text@),
            match parsed {
                Ok(numbers) => Ok(numbers@),
                Err(name) => Err(name@),
            },
            match result->0->Ok_0 {
                Listing::Numbers(numbers) => Ok(numbers@),
                Listing::Unreadable(name) => Err(name@),
            },
        );
    }
}

/// A listing got from a reply holds all the numbers that were sent, in order,
/// whether a NUL only separates their texts or also ends the last of them.
pub proof fn law_listing_holds_every_number(
    listing: Listing,
    numbers: Seq<i32>,
    terminated: bool,
)
    requires
        listing.lists(
            join_nul(numbers.map_values(|number: i32| decimal_text(number))) + (if terminated
                && numbers.len() > 0 {
                seq!['\0']
            } else {
                seq![]
            }),
        ),
    ensures
        listing matches Listing::Numbers(all) && all@ == numbers,
{
    law_numbers_round_trip(
        numbers,
        terminated,
        match listing {
            Listing::Numbers(all) => Ok(all@),
            Listing::Unreadable(name) => Err(name@),
        },
    );
}

/// A transaction takes a reply as soon as its request is written and a reply is
/// there, and not before. It takes the oldest one, and changes nothing else. A
/// failure among the replies is what it comes to, and so is the text of a message
/// of the type that it waits for; a message of another type is refused.
pub proof fn law_oldest_reply_is_taken(
    transaction: Transaction,
    offer: Option<&[u8]>,
    handle: &mut XenStoreHandle,
    result: Option<Result<String, XsError>>,
)
    requires
        transaction.request.wf(),
        call_ensures(RequestWriter::pending, (&transaction.request,), offer),
        call_ensures(XenStoreHandle::xs_transaction, (handle, &transaction), result),
    ensures
        ({
            let before = old(handle)@;
            let then = final(handle)@;
            &&& result is Some <==> offer is None && before.replies.len() > 0
            &&& then.order == before.order
            &&& then.rx_eventfd == before.rx_eventfd
            &&& then.watches == before.watches
            &&& result is None ==> then.replies == before.replies
            &&& result is Some ==> before.replies == seq![before.replies[0]] + then.replies
            &&& result is Some ==> match before.replies[0] {
                Ok(message) => if message.kind == transaction.kind {
                    result->0 matches Ok(text) && text@ == message.body
                } else {
                    result->0 matches Err(error) && error is InvalidData
                },
                Err(failure) => result->0 matches Err(error) && error@ == failure,
            }
        }),
{
    let before = old(handle)@;
    if result is Some {
        assert(before.replies =~= seq![before.replies[0]] + before.replies.drop_first());
    }
}

/// An acknowledgement comes when the text of the reply would, in the same state,
/// fails when that would, with the same error, and leaves the same behind.
pub proof fn law_acknowledgement_follows_the_reply(
    transaction: Transaction,
    handle: &mut XenStoreHandle,
    result: Option<Result<String, XsError>>,
    other: &mut XenStoreHandle,
    acknowledged: Option<Result<(), XsError>>,
)
    requires
        transaction.request.wf(),
        old(handle)@ == old(other)@,
        call_ensures(XenStoreHandle::xs_transaction, (handle, &transaction), result),
        call_ensures(XenStoreHandle::acknowledge, (other, &transaction), acknowledged),
    ensures
        final(handle)@ == final(other)@,
        acknowledged is None <==> result is None,
        result is Some && result->0 is Ok <==> acknowledged is Some && acknowledged->0 is Ok,
        result is Some && result->0 is Err ==> acknowledged->0->Err_0@ == result->0->Err_0@,
{
}

/// A listing comes when the text of the reply would, in the same state, and is what
/// reading that text comes to. It fails when that would, with the same error, and
/// leaves the same behind.
pub proof fn law_listing_follows_the_reply(
    transaction: Transaction,
    handle: &mut XenStoreHandle,
    result: Option<Result<String, XsError>>,
    other: &mut XenStoreHandle,
    listed: Option<Result<Listing, XsError>>,
    text: &str,
    parsed: Result<Vec<i32>, String>,
)
    requires
        transaction.request.wf(),
        old(handle)@ == old(other)@,
        call_ensures(XenStoreHandle::xs_transaction, (handle, &transaction), result),
        call_ensures(XenStoreHandle::listing, (other, &transaction), listed),
        call_ensures(parse_listing, (text,), parsed),
    ensures
        final(handle)@ == final(other)@,
        listed is None <==> result is None,
        result is Some && result->0 is Ok <==> listed is Some && listed->0 is Ok,
        result is Some && result->0 is Err ==> listed->0->Err_0@ == result->0->Err_0@,
        result is Some && result->0 is Ok && result->0->Ok_0@ == text@ ==> match parsed {
            Ok(numbers) => listed->0->Ok_0 matches Listing::Numbers(all) && all@ == numbers@,
            Err(name) => listed->0->Ok_0 matches Listing::Unreadable(first) && first@ == name@,
        },
{
    if result is Some && result->0 is Ok && result->0->Ok_0@ == text@ {
        lemma_listing_is_unique(
            split_nul(text@),
            match parsed {
                Ok(numbers) => Ok(numbers@),
                Err(name) => Err(name@),
            },
            match listed->0->Ok_0 {
                Listing::Numbers(numbers) => Ok(numbers@),
                Listing::Unreadable(name) => Err(name@),
            },
        );
    }
}

/// An entry that is delivered comes last in the queue that it is for, as it is, and
/// nothing else changes.
pub proof fn law_delivered_entry_comes_last(handle: &mut XenStoreHandle, delivery: Delivery)
    requires
        call_ensures(XenStoreHandle::queue_message, (handle, delivery), ()),
    ensures
        ({
            let before = old(handle)@;
            let then = final(handle)@;
            let entry = match delivery.entry {
                Ok(message) => Ok(MessageView { kind: message.kind, body: message.body@ }),
                Err(error) => Err(error@),
            };
            &&& then.order == before.order
            &&& then.rx_eventfd == before.rx_eventfd
            &&& delivery.queue is Reply ==> then.replies == before.replies + seq![entry]
                && then.watches == before.watches
            &&& delivery.queue is Watch ==> then.watches == before.watches + seq![entry]
                && then.replies == before.replies
        }),
{
    let before = old(handle)@;
    let entry = delivery@.entry;
    assert(before.replies + seq![entry] =~= before.replies.push(entry));
    assert(before.watches + seq![entry] =~= before.watches.push(entry));
}

/// A watch event is taken as soon as one is there: the oldest one, and nothing else
/// changes. What comes back is the part that was asked for, of those that its text
/// has between NULs, if there is such a part. A failure among the events is what
/// taking it comes to.
pub proof fn law_oldest_watch_event_is_taken(
    there: bool,
    client: XenStoreHandle,
    handle: &mut XenStoreHandle,
    index: u32,
    text: &str,
    parts: Vec<&str>,
    result: Option<Result<String, XsError>>,
)
    requires
        client == *old(handle),
        call_ensures(XenStoreHandle::has_watch, (&client,), there),
        call_ensures(split, (text,), parts),
        call_ensures(XenStoreHandle::read_watch, (handle, index), result),
    ensures
        ({
            let before = old(handle)@;
            let then = final(handle)@;
            &&& there <==> before.watches.len() > 0
            &&& result is Some <==> there
            &&& then.order == before.order
            &&& then.rx_eventfd == before.rx_eventfd
            &&& then.replies == before.replies
            &&& !there ==> then.watches == before.watches
            &&& there ==> before.watches == seq![before.watches[0]] + then.watches
            &&& there ==> match before.watches[0] {
                Ok(event) => if event.kind != 15 {
                    result->0 matches Err(error) && error is InvalidData
                } else {
                    event.body == text@ ==> if index < parts@.len() {
                        result->0 matches Ok(part) && part@ == parts@[index as int]@
                    } else {
                        result->0 matches Err(error) && error is InvalidInput
                    }
                },
                Err(failure) => result->0 matches Err(error) && error@ == failure,
            }
        }),
{
    let before = old(handle)@;
    if before.watches.len() > 0 {
        assert(before.watches =~= seq![before.watches[0]] + before.watches.drop_first());
        assert(texts(parts@) == split_nul(text@));
        if index < parts@.len() {
            assert(texts(parts@)[index as int] == parts@[index as int]@);
        }
    }
}

/// A new client has what it was made with, and nothing to take.
pub proof fn law_new_client_is_empty(
    order: ByteOrder,
    rx_eventfd: i32,
    client: XenStoreHandle,
    given: ByteOrder,
    descriptor: Result<i32, XsError>,
    there: bool,
)
    requires
        call_ensures(XenStoreHandle::with_order, (order, rx_eventfd), client),
        call_ensures(XenStoreHandle::byte_order, (&client,), given),
        call_ensures(XenStoreHandle::fileno, (&client,), descriptor),
        call_ensures(XenStoreHandle::has_watch, (&client,), there),
    ensures
        given == order,
        client@.order == order,
        descriptor == Ok::<i32, XsError>(rx_eventfd),
        client@.replies.len() == 0,
        client@.watches.len() == 0,
        !there,
{
}

/// The byte order and the descriptor of a client stay what they are, whatever
/// happens to it.
pub proof fn law_client_keeps_its_settings(state: HandleView, operations: Seq<Operation>)
    ensures
        after_operations(state, operations).order == state.order,
        after_operations(state, operations).rx_eventfd == state.rx_eventfd,
    decreases operations.len(),
{
    if operations.len() > 0 {
        law_client_keeps_its_settings(state, operations.drop_last());
    }
}

/// A new client is one in the byte order of the machine, and like any other new
/// client but for that.
pub proof fn law_new_client_has_native_order(
    rx_eventfd: i32,
    client: XenStoreHandle,
    given: ByteOrder,
    descriptor: Result<i32, XsError>,
)
    requires
        call_ensures(XenStoreHandle::new, (rx_eventfd,), client),
        call_ensures(XenStoreHandle::byte_order, (&client,), given),
        call_ensures(XenStoreHandle::fileno, (&client,), descriptor),
    ensures
        is_native(given),
        given == client@.order,
        descriptor == Ok::<i32, XsError>(rx_eventfd),
        client@.replies.len() == 0,
        client@.watches.len() == 0,
{
}

/// The numbers of a listing are all of its numbers, in order.
pub proof fn law_numbers_of_a_listing(listed: Vec<i32>, numbers: Vec<i32>)
    requires
        call_ensures(Listing::numbers, (Listing::Numbers(listed),), numbers),
    ensures
        numbers@ == listed@,
{
}

} // verus!
