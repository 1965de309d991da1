//! The client: requests out, replies and watch events in.
//!
//! A [`XenStoreHandle`] keeps what has been received and not yet taken. It does
//! no input or output of its own: an operation begins with a [`Transaction`] that
//! the caller writes to the transport, and ends when the reply to it is taken.
//! Whoever receives from the transport passes each entry to
//! [`XenStoreHandle::queue_message`].

use std::collections::VecDeque;

use vstd::pervasive::unreached;
use vstd::prelude::*;
use vstd::utf8::encode_utf8;

use crate::error::{ErrorView, XsError};
use crate::message::{
    entry_view, header_bytes, is_native, ByteOrder, Entry, MessageView, XenSocketMessage,
    XS_DIRECTORY, XS_READ, XS_WATCH, XS_WATCH_EVENT, XS_WRITE,
};
use crate::reader::{Delivery, DeliveryView, Queue};
use crate::text::{has_nul, listing_is, parse_listing, push_text, split, split_nul};
use crate::writer::{with_buffer, write_request, RequestWriter};

verus! {

/// A request on its way, and the type of the reply that it calls for.
#[derive(Debug)]
pub struct Transaction {
    /// Message type of the request and of its reply.
    pub kind: u32,
    /// What is still to be written of the request.
    pub request: RequestWriter,
}

/// The buffers that make up a request.
pub open spec fn request_buffers(order: ByteOrder, kind: u32, payload: Seq<u8>) -> Seq<Seq<u8>> {
    with_buffer(
        seq![
            header_bytes(
                order,
                XenSocketMessage { kind, req_id: 0, tx_id: 0, len: payload.len() as u32 },
            ),
        ],
        payload,
    )
}

/// Whether `result` is a transaction that is to send a request of this type with
/// this payload. It fails when the payload is longer than a header can say.
pub open spec fn is_request(
    result: Result<Transaction, XsError>,
    order: ByteOrder,
    kind: u32,
    payload: Seq<u8>,
) -> bool {
    if payload.len() > u32::MAX {
        result == Err::<Transaction, XsError>(XsError::InvalidInput)
    } else {
        result matches Ok(transaction) && transaction.request.wf() && transaction.kind == kind
            && transaction.request@ == request_buffers(order, kind, payload)
    }
}

/// The payload of a request about one node.
pub open spec fn path_payload(path: Seq<char>) -> Seq<u8> {
    encode_utf8(path) + seq![0u8]
}

/// The payload of a request to write a value to a node.
pub open spec fn write_payload(path: Seq<char>, val: Seq<char>) -> Seq<u8> {
    encode_utf8(path) + seq![0u8] + encode_utf8(val)
}

/// The payload of a request to watch a node under a token.
pub open spec fn watch_payload(path: Seq<char>, token: Seq<char>) -> Seq<u8> {
    encode_utf8(path) + seq![0u8] + encode_utf8(token) + seq![0u8]
}

/// What taking `entry` as the reply to a request of type `kind` comes to.
pub open spec fn reply_result(entry: Result<MessageView, ErrorView>, kind: u32) -> Result<
    Seq<char>,
    ErrorView,
> {
    match entry {
        Ok(message) => if message.kind == kind {
            Ok(message.body)
        } else {
            Err(ErrorView::InvalidData)
        },
        Err(error) => Err(error),
    }
}

/// What taking part `index` of the watch event in `entry` comes to.
pub open spec fn watch_result(entry: Result<MessageView, ErrorView>, index: u32) -> Result<
    Seq<char>,
    ErrorView,
> {
    match entry {
        Ok(message) => if message.kind != XS_WATCH_EVENT {
            Err(ErrorView::InvalidData)
        } else if index >= split_nul(message.body).len() {
            Err(ErrorView::InvalidInput)
        } else {
            Ok(split_nul(message.body)[index as int])
        },
        Err(error) => Err(error),
    }
}

/// What a result with text says, as a mathematical value.
pub open spec fn text_result(result: Result<String, XsError>) -> Result<Seq<char>, ErrorView> {
    match result {
        Ok(text) => Ok(text@),
        Err(error) => Err(error@),
    }
}

/// The children of a node, as a store listed them.
#[derive(Debug, PartialEq, Eq)]
pub enum Listing {
    /// Their names, which are all numbers.
    Numbers(Vec<i32>),
    /// The first name that is no number.
    Unreadable(String),
}

impl Listing {
    /// Whether this is what the text of a reply lists.
    pub open spec fn lists(self, text: Seq<char>) -> bool {
        listing_is(
            split_nul(text),
            match self {
                Listing::Numbers(numbers) => Ok(numbers@),
                Listing::Unreadable(piece) => Err(piece@),
            },
        )
    }

    /// The numbers in a listing. There must be no other names in it.
    pub fn numbers(self) -> (numbers: Vec<i32>)
        requires
            self is Numbers,
        ensures
            self == Listing::Numbers(numbers),
    {
        match self {
            Listing::Numbers(numbers) => numbers,
            Listing::Unreadable(_) => unreached(),
        }
    }
}

/// The client side of a connection to a store.
#[derive(Debug)]
pub struct XenStoreHandle {
    order: ByteOrder,
    rx_eventfd: i32,
    replies: VecDeque<Entry>,
    watches: VecDeque<Entry>,
}

/// What a [`XenStoreHandle`] holds, as a mathematical value.
pub struct HandleView {
    /// Byte order of the headers.
    pub order: ByteOrder,
    /// Descriptor that becomes readable when a watch event is there.
    pub rx_eventfd: i32,
    /// Replies that were received and not yet taken, the oldest first.
    pub replies: Seq<Result<MessageView, ErrorView>>,
    /// Watch events that were received and not yet taken, the oldest first.
    pub watches: Seq<Result<MessageView, ErrorView>>,
}

impl View for XenStoreHandle {
    type V = HandleView;

    closed spec fn view(&self) -> HandleView {
        HandleView {
            order: self.order,
            rx_eventfd: self.rx_eventfd,
            replies: self.replies@.map_values(|entry: Entry| entry_view(entry)),
            watches: self.watches@.map_values(|entry: Entry| entry_view(entry)),
        }
    }
}

/// The state after an entry was delivered.
pub open spec fn after_delivery(state: HandleView, delivery: DeliveryView) -> HandleView {
    match delivery.queue {
        Queue::Reply => HandleView { replies: state.replies.push(delivery.entry), ..state },
        Queue::Watch => HandleView { watches: state.watches.push(delivery.entry), ..state },
    }
}

/// The state after the oldest reply was taken.
pub open spec fn after_reply(state: HandleView) -> HandleView {
    HandleView { replies: state.replies.drop_first(), ..state }
}

/// The state after the oldest watch event was taken.
pub open spec fn after_watch(state: HandleView) -> HandleView {
    HandleView { watches: state.watches.drop_first(), ..state }
}

/// Whether the reply to `transaction` can be taken: its request was written to
/// the end, and a reply is there.
pub open spec fn reply_is_due(state: HandleView, transaction: Transaction) -> bool {
    transaction.request@.len() == 0 && state.replies.len() > 0
}

impl XenStoreHandle {
    /// A client in the byte order of this machine, with nothing received.
    /// `rx_eventfd` is the descriptor that is signalled for each watch event.
    pub fn new(rx_eventfd: i32) -> (handle: XenStoreHandle)
        ensures
            is_native(handle@.order),
            handle@.rx_eventfd == rx_eventfd,
            handle@.replies == Seq::<Result<MessageView, ErrorView>>::empty(),
            handle@.watches == Seq::<Result<MessageView, ErrorView>>::empty(),
    {
        XenStoreHandle::with_order(ByteOrder::native(), rx_eventfd)
    }

    /// A client in the given byte order, with nothing received.
    pub fn with_order(order: ByteOrder, rx_eventfd: i32) -> (handle: XenStoreHandle)
        ensures
            handle@.order == order,
            handle@.rx_eventfd == rx_eventfd,
            handle@.replies == Seq::<Result<MessageView, ErrorView>>::empty(),
            handle@.watches == Seq::<Result<MessageView, ErrorView>>::empty(),
    {
        let handle = XenStoreHandle {
            order,
            rx_eventfd,
            replies: VecDeque::new(),
            watches: VecDeque::new(),
        };
        assert(handle@.replies =~= Seq::<Result<MessageView, ErrorView>>::empty());
        assert(handle@.watches =~= Seq::<Result<MessageView, ErrorView>>::empty());
        handle
    }

    /// The byte order of the headers.
    pub fn byte_order(&self) -> (order: ByteOrder)
        ensures
            order == self@.order,
    {
        self.order
    }

    /// The descriptor that becomes readable when a watch event is there.
    pub fn fileno(&self) -> (result: Result<i32, XsError>)
        ensures
            result == Ok::<i32, XsError>(self@.rx_eventfd),
    {
        Ok(self.rx_eventfd)
    }

    /// Puts an entry at the end of its queue.
    pub fn queue_message(&mut self, delivery: Delivery)
        ensures
            final(self)@ == after_delivery(old(self)@, delivery@),
    {
        match delivery.queue {
            Queue::Reply => {
                self.replies.push_back(delivery.entry);
                assert(self@.replies =~= after_delivery(old(self)@, delivery@).replies);
            },
            Queue::Watch => {
                self.watches.push_back(delivery.entry);
                assert(self@.watches =~= after_delivery(old(self)@, delivery@).watches);
            },
        }
    }

    /// Begins a transaction.
    fn begin(&self, kind: u32, payload: Vec<u8>) -> (result: Result<Transaction, XsError>)
        ensures
            is_request(result, self@.order, kind, payload@),
    {
        let message = match XenSocketMessage::new(kind, payload.len()) {
            Ok(message) => message,
            Err(error) => return Err(error),
        };
        let mut request = RequestWriter::new();
        write_request(&mut request, self.order, &message, payload.as_slice());
        assert(Seq::<Seq<u8>>::empty().push(header_bytes(self.order, message)) =~= seq![
            header_bytes(self.order, message),
        ]);
        Ok(Transaction { kind, request })
    }

    /// Takes the reply to a transaction, once it is there.
    ///
    /// Gives nothing as long as the request has not been written to the end, or no
    /// reply has come. A reply of another type than the request is refused, and is
    /// taken all the same.
    pub fn xs_transaction(&mut self, transaction: &Transaction) -> (result: Option<
        Result<String, XsError>,
    >)
        requires
            transaction.request.wf(),
        ensures
            !reply_is_due(old(self)@, *transaction) ==> result is None && final(self)@ == old(
                self,
            )@,
            reply_is_due(old(self)@, *transaction) ==> result is Some && text_result(result->0)
                == reply_result(old(self)@.replies[0], transaction.kind) && final(self)@
                == after_reply(old(self)@),
    {
        if transaction.request.pending().is_some() {
            return None;
        }
        match self.replies.pop_front() {
            Some(entry) => {
                assert(self@.replies =~= old(self)@.replies.drop_first());
                match entry {
                    Ok(message) => {
                        if message.kind != transaction.kind {
                            return Some(Err(XsError::InvalidData));
                        }
                        Some(Ok(message.body))
                    },
                    Err(error) => Some(Err(error)),
                }
            },
            None => None,
        }
    }

    /// Takes the reply to a transaction whose reply carries nothing of interest.
    pub fn acknowledge(&mut self, transaction: &Transaction) -> (result: Option<
        Result<(), XsError>,
    >)
        requires
            transaction.request.wf(),
        ensures
            !reply_is_due(old(self)@, *transaction) ==> result is None && final(self)@ == old(
                self,
            )@,
            reply_is_due(old(self)@, *transaction) ==> result is Some && final(self)@
                == after_reply(old(self)@) && (match reply_result(
                old(self)@.replies[0],
                transaction.kind,
            ) {
                Ok(_) => result->0 is Ok,
                Err(error) => result->0 matches Err(given) && given@ == error,
            }),
    {
        match self.xs_transaction(transaction) {
            Some(Ok(_)) => Some(Ok(())),
            Some(Err(error)) => Some(Err(error)),
            None => None,
        }
    }

    /// Takes the reply to a transaction that asked for a listing.
    pub fn listing(&mut self, transaction: &Transaction) -> (result: Option<
        Result<Listing, XsError>,
    >)
        requires
            transaction.request.wf(),
        ensures
            !reply_is_due(old(self)@, *transaction) ==> result is None && final(self)@ == old(
                self,
            )@,
            reply_is_due(old(self)@, *transaction) ==> result is Some && final(self)@
                == after_reply(old(self)@) && (match reply_result(
                old(self)@.replies[0],
                transaction.kind,
            ) {
                Ok(text) => result->0 matches Ok(listing) && listing.lists(text),
                Err(error) => result->0 matches Err(given) && given@ == error,
            }),
    {
        match self.xs_transaction(transaction) {
            Some(Ok(text)) => match parse_listing(text.as_str()) {
                Ok(numbers) => Some(Ok(Listing::Numbers(numbers))),
                Err(piece) => Some(Ok(Listing::Unreadable(piece))),
            },
            Some(Err(error)) => Some(Err(error)),
            None => None,
        }
    }

    /// Begins to read a node. [`XenStoreHandle::xs_transaction`] gives its value.
    pub fn read_str(&self, path: &str) -> (result: Result<Transaction, XsError>)
        ensures
            has_nul(path@) ==> result == Err::<Transaction, XsError>(XsError::NulByte),
            !has_nul(path@) ==> is_request(result, self@.order, XS_READ, path_payload(path@)),
    {
        let mut payload: Vec<u8> = Vec::new();
        if let Err(error) = push_text(&mut payload, path, true) {
            return Err(error);
        }
        assert(payload@ =~= path_payload(path@));
        self.begin(XS_READ, payload)
    }

    /// Begins to write a node. [`XenStoreHandle::acknowledge`] tells how it went.
    pub fn write_str(&self, path: &str, val: &str) -> (result: Result<Transaction, XsError>)
        ensures
            has_nul(path@) || has_nul(val@) ==> result == Err::<Transaction, XsError>(
                XsError::NulByte,
            ),
            !has_nul(path@) && !has_nul(val@) ==> is_request(
                result,
                self@.order,
                XS_WRITE,
                write_payload(path@, val@),
            ),
    {
        let mut payload: Vec<u8> = Vec::new();
        if let Err(error) = push_text(&mut payload, path, true) {
            return Err(error);
        }
        if let Err(error) = push_text(&mut payload, val, false) {
            return Err(error);
        }
        assert(payload@ =~= write_payload(path@, val@));
        self.begin(XS_WRITE, payload)
    }

    /// Begins to watch a node. [`XenStoreHandle::acknowledge`] tells how it went.
    pub fn create_watch(&self, path: &str, token: &str) -> (result: Result<Transaction, XsError>)
        ensures
            has_nul(path@) || has_nul(token@) ==> result == Err::<Transaction, XsError>(
                XsError::NulByte,
            ),
            !has_nul(path@) && !has_nul(token@) ==> is_request(
                result,
                self@.order,
                XS_WATCH,
                watch_payload(path@, token@),
            ),
    {
        let mut payload: Vec<u8> = Vec::new();
        if let Err(error) = push_text(&mut payload, path, true) {
            return Err(error);
        }
        if let Err(error) = push_text(&mut payload, token, true) {
            return Err(error);
        }
        assert(payload@ =~= watch_payload(path@, token@));
        self.begin(XS_WATCH, payload)
    }

    /// Begins to list the children of a node. [`XenStoreHandle::listing`] gives
    /// them.
    pub fn directory(&self, path: &str) -> (result: Result<Transaction, XsError>)
        ensures
            has_nul(path@) ==> result == Err::<Transaction, XsError>(XsError::NulByte),
            !has_nul(path@) ==> is_request(result, self@.order, XS_DIRECTORY, path_payload(path@)),
    {
        let mut payload: Vec<u8> = Vec::new();
        if let Err(error) = push_text(&mut payload, path, true) {
            return Err(error);
        }
        assert(payload@ =~= path_payload(path@));
        self.begin(XS_DIRECTORY, payload)
    }

    /// Whether there is a watch event to take.
    pub fn has_watch(&self) -> (there: bool)
        ensures
            there == (self@.watches.len() > 0),
    {
        self.watches.len() > 0
    }

    /// Takes one part of the oldest watch event, once there is one: part 0 is the
    /// path that changed, part 1 the token of the watch.
    ///
    /// The event is taken whole, and also when it has no such part.
    pub fn read_watch(&mut self, index: u32) -> (result: Option<Result<String, XsError>>)
        ensures
            old(self)@.watches.len() == 0 ==> result is None && final(self)@ == old(self)@,
            old(self)@.watches.len() > 0 ==> result is Some && text_result(result->0)
                == watch_result(old(self)@.watches[0], index) && final(self)@ == after_watch(
                old(self)@,
            ),
    {
        match self.watches.pop_front() {
            Some(entry) => {
                assert(self@.watches =~= old(self)@.watches.drop_first());
                match entry {
                    Ok(message) => {
                        if message.kind != XS_WATCH_EVENT {
                            return Some(Err(XsError::InvalidData));
                        }
                        let pieces: Vec<&str> = split(message.body.as_str());
                        if index as usize >= pieces.len() {
                            return Some(Err(XsError::InvalidInput));
                        }
                        assert(split_nul(message.body@)[index as int] == pieces@[index as int]@);
                        Some(Ok(pieces[index as usize].to_owned()))
                    },
                    Err(error) => Some(Err(error)),
                }
            },
            None => None,
        }
    }
}

} // verus!
