//! Messages: the fixed header that goes over the wire, and the typed text that
//! a received message carries.

use vstd::prelude::*;

use crate::error::{ErrorView, XsError};

verus! {

/// Message type: list the children of a node.
pub const XS_DIRECTORY: u32 = 1;

/// Message type: read a node.
pub const XS_READ: u32 = 2;

/// Message type: set a watch.
pub const XS_WATCH: u32 = 4;

/// Message type: write a node.
pub const XS_WRITE: u32 = 11;

/// Message type: a watch fired.
pub const XS_WATCH_EVENT: u32 = 15;

/// Length of a header on the wire: four 32-bit words.
pub const HEADER_LEN: usize = 16;

/// The order in which the bytes of a word are laid out.
#[derive(Debug, Clone, Copy, PartialEq, Eq, Structural)]
pub enum ByteOrder {
    /// Least significant byte first.
    Little,
    /// Most significant byte first.
    Big,
}

/// Calls `u16::from_ne_bytes`: the number that the two bytes hold on this
/// machine, which is one of the two orders. Which of them it is depends on the
/// machine, and is left unsaid.
#[verifier::external_body]
fn u16_from_ne_bytes(bytes: [u8; 2]) -> (word: u16)
    ensures
        word == bytes@[0] + 256 * bytes@[1] || word == 256 * bytes@[0] + bytes@[1],
{
    u16::from_ne_bytes(bytes)
}

/// Whether `order` is the order of the machine that this runs on: the one that
/// reading the bytes 1 and 0 as a number on this machine tells.
pub closed spec fn is_native(order: ByteOrder) -> bool {
    exists|bytes: [u8; 2], probe: u16|
        {
            &&& #[trigger] call_ensures(u16_from_ne_bytes, (bytes,), probe)
            &&& bytes@ == seq![1u8, 0u8]
            &&& order == (if probe == 1 {
                ByteOrder::Little
            } else {
                ByteOrder::Big
            })
        }
}

impl ByteOrder {
    /// The order of a machine on which the bytes 1 and 0, in this order, make up
    /// the number `probe`.
    pub fn from_probe(probe: u16) -> (order: ByteOrder)
        ensures
            order == (if probe == 1 {
                ByteOrder::Little
            } else {
                ByteOrder::Big
            }),
    {
        if probe == 1 {
            ByteOrder::Little
        } else {
            ByteOrder::Big
        }
    }

    /// The order of the machine that this runs on, which may be either.
    pub(crate) fn native() -> (order: ByteOrder)
        ensures
            is_native(order),
    {
        let bytes: [u8; 2] = [1, 0];
        let probe: u16 = u16_from_ne_bytes(bytes);
        assert(bytes@ =~= seq![1u8, 0u8]);
        ByteOrder::from_probe(probe)
    }
}

/// The four bytes of `word`, in the given order.
#[verifier::opaque]
pub open spec fn word_bytes(order: ByteOrder, word: u32) -> Seq<u8> {
    let b0 = (word % 0x100) as u8;
    let b1 = (word / 0x100 % 0x100) as u8;
    let b2 = (word / 0x1_0000 % 0x100) as u8;
    let b3 = (word / 0x100_0000) as u8;
    match order {
        ByteOrder::Little => seq![b0, b1, b2, b3],
        ByteOrder::Big => seq![b3, b2, b1, b0],
    }
}

/// The number that the four bytes of `bytes` from `at` on make up, in the given
/// order.
#[verifier::opaque]
pub open spec fn word_at(order: ByteOrder, bytes: Seq<u8>, at: int) -> u32 {
    match order {
        ByteOrder::Little => (bytes[at] + 0x100 * bytes[at + 1] + 0x1_0000 * bytes[at + 2]
            + 0x100_0000 * bytes[at + 3]) as u32,
        ByteOrder::Big => (0x100_0000 * bytes[at] + 0x1_0000 * bytes[at + 1] + 0x100 * bytes[at
            + 2] + bytes[at + 3]) as u32,
    }
}

/// The header of a message.
#[derive(Debug, Clone, Copy, PartialEq, Eq, Structural)]
pub struct XenSocketMessage {
    /// Message type.
    pub kind: u32,
    /// Request identifier, echoed in the reply.
    pub req_id: u32,
    /// Transaction identifier.
    pub tx_id: u32,
    /// Length of the payload that follows.
    pub len: u32,
}

/// The bytes of a header on the wire: its four fields, one after the other.
pub open spec fn header_bytes(order: ByteOrder, message: XenSocketMessage) -> Seq<u8> {
    word_bytes(order, message.kind) + word_bytes(order, message.req_id) + word_bytes(
        order,
        message.tx_id,
    ) + word_bytes(order, message.len)
}

/// The header that the first bytes of `bytes` hold.
pub open spec fn header_at_start(order: ByteOrder, bytes: Seq<u8>) -> XenSocketMessage {
    XenSocketMessage {
        kind: word_at(order, bytes, 0),
        req_id: word_at(order, bytes, 4),
        tx_id: word_at(order, bytes, 8),
        len: word_at(order, bytes, 12),
    }
}

impl Default for XenSocketMessage {
    fn default() -> (message: Self)
        ensures
            message == (XenSocketMessage { kind: 0, req_id: 0, tx_id: 0, len: 0 }),
    {
        XenSocketMessage { kind: 0, req_id: 0, tx_id: 0, len: 0 }
    }
}

impl XenSocketMessage {
    /// The header of a request of the given type with a payload of `len` bytes.
    /// Fails if the length does not fit in the header.
    pub fn new(kind: u32, len: usize) -> (result: Result<XenSocketMessage, XsError>)
        ensures
            len <= u32::MAX ==> result == Ok::<XenSocketMessage, XsError>(
                XenSocketMessage { kind, req_id: 0, tx_id: 0, len: len as u32 },
            ),
            len > u32::MAX ==> result == Err::<XenSocketMessage, XsError>(XsError::InvalidInput),
    {
        if len as u64 > u32::MAX as u64 {
            return Err(XsError::InvalidInput);
        }
        Ok(XenSocketMessage { kind, req_id: 0, tx_id: 0, len: len as u32 })
    }
}

/// Appends the four bytes of `word` to `bytes`.
fn push_word(bytes: &mut Vec<u8>, order: ByteOrder, word: u32)
    ensures
        final(bytes)@ == old(bytes)@ + word_bytes(order, word),
        word_bytes(order, word).len() == 4,
{
    reveal(word_bytes);
    let b0: u8 = (word % 0x100) as u8;
    let b1: u8 = (word / 0x100 % 0x100) as u8;
    let b2: u8 = (word / 0x1_0000 % 0x100) as u8;
    let b3: u8 = (word / 0x100_0000) as u8;
    match order {
        ByteOrder::Little => {
            bytes.push(b0);
            bytes.push(b1);
            bytes.push(b2);
            bytes.push(b3);
        },
        ByteOrder::Big => {
            bytes.push(b3);
            bytes.push(b2);
            bytes.push(b1);
            bytes.push(b0);
        },
    }
    assert(bytes@ =~= old(bytes)@ + word_bytes(order, word));
}

/// The bytes of a header on the wire.
pub fn message_bytes(order: ByteOrder, message: &XenSocketMessage) -> (bytes: Vec<u8>)
    ensures
        bytes@ == header_bytes(order, *message),
        bytes@.len() == HEADER_LEN,
{
    let mut bytes: Vec<u8> = Vec::new();
    push_word(&mut bytes, order, message.kind);
    push_word(&mut bytes, order, message.req_id);
    push_word(&mut bytes, order, message.tx_id);
    push_word(&mut bytes, order, message.len);
    assert(bytes@ =~= header_bytes(order, *message));
    bytes
}

/// The number that four bytes of `bytes` make up.
fn word_of(order: ByteOrder, bytes: &[u8], at: usize) -> (word: u32)
    requires
        at + 4 <= bytes@.len(),
    ensures
        word == word_at(order, bytes@, at as int),
{
    reveal(word_at);
    let b0: u32 = bytes[at] as u32;
    let b1: u32 = bytes[at + 1] as u32;
    let b2: u32 = bytes[at + 2] as u32;
    let b3: u32 = bytes[at + 3] as u32;
    match order {
        ByteOrder::Little => b0 + 0x100 * b1 + 0x1_0000 * b2 + 0x100_0000 * b3,
        ByteOrder::Big => 0x100_0000 * b0 + 0x1_0000 * b1 + 0x100 * b2 + b3,
    }
}

/// The header that the given bytes hold.
pub fn message_from_bytes(order: ByteOrder, bytes: &[u8]) -> (message: XenSocketMessage)
    requires
        bytes@.len() == HEADER_LEN,
    ensures
        message == header_at_start(order, bytes@),
{
    XenSocketMessage {
        kind: word_of(order, bytes, 0),
        req_id: word_of(order, bytes, 4),
        tx_id: word_of(order, bytes, 8),
        len: word_of(order, bytes, 12),
    }
}

/// A word is read back from its bytes.
proof fn lemma_word_round_trip(order: ByteOrder, word: u32, bytes: Seq<u8>, at: int)
    requires
        0 <= at,
        at + 4 <= bytes.len(),
        bytes.subrange(at, at + 4) == word_bytes(order, word),
    ensures
        word_at(order, bytes, at) == word,
{
    reveal(word_bytes);
    reveal(word_at);
    let quad = bytes.subrange(at, at + 4);
    assert(quad[0] == bytes[at] && quad[1] == bytes[at + 1] && quad[2] == bytes[at + 2] && quad[3]
        == bytes[at + 3]);
}

/// The bytes of a number are the digits that it was put together from.
proof fn lemma_digits(b0: u32, b1: u32, b2: u32, b3: u32, word: u32)
    by (bit_vector)
    requires
        b0 < 0x100,
        b1 < 0x100,
        b2 < 0x100,
        b3 < 0x100,
        word == b0 + 0x100 * b1 + 0x1_0000 * b2 + 0x100_0000 * b3,
    ensures
        word % 0x100 == b0,
        word / 0x100 % 0x100 == b1,
        word / 0x1_0000 % 0x100 == b2,
        word / 0x100_0000 == b3,
{
}

/// Four bytes are the bytes of the word that they make up.
proof fn lemma_word_bytes_round_trip(order: ByteOrder, bytes: Seq<u8>, at: int)
    requires
        0 <= at,
        at + 4 <= bytes.len(),
    ensures
        word_bytes(order, word_at(order, bytes, at)) == bytes.subrange(at, at + 4),
{
    reveal(word_bytes);
    reveal(word_at);
    let word = word_at(order, bytes, at);
    let b = bytes.subrange(at, at + 4);
    match order {
        ByteOrder::Little => lemma_digits(b[0] as u32, b[1] as u32, b[2] as u32, b[3] as u32, word),
        ByteOrder::Big => lemma_digits(b[3] as u32, b[2] as u32, b[1] as u32, b[0] as u32, word),
    }
    assert(word_bytes(order, word) =~= b);
}

/// A header is read back from its bytes, whatever follows them.
pub proof fn law_header_round_trip(order: ByteOrder, message: XenSocketMessage, rest: Seq<u8>)
    ensures
        header_bytes(order, message).len() == HEADER_LEN,
        header_at_start(order, header_bytes(order, message) + rest) == message,
{
    reveal(word_bytes);
    let bytes = header_bytes(order, message) + rest;
    assert(bytes.subrange(0, 4) =~= word_bytes(order, message.kind));
    assert(bytes.subrange(4, 8) =~= word_bytes(order, message.req_id));
    assert(bytes.subrange(8, 12) =~= word_bytes(order, message.tx_id));
    assert(bytes.subrange(12, 16) =~= word_bytes(order, message.len));
    lemma_word_round_trip(order, message.kind, bytes, 0);
    lemma_word_round_trip(order, message.req_id, bytes, 4);
    lemma_word_round_trip(order, message.tx_id, bytes, 8);
    lemma_word_round_trip(order, message.len, bytes, 12);
}

/// Any sixteen bytes are the bytes of the header that they hold.
pub proof fn law_header_bytes_round_trip(order: ByteOrder, bytes: Seq<u8>)
    requires
        bytes.len() >= HEADER_LEN,
    ensures
        header_bytes(order, header_at_start(order, bytes)) == bytes.take(HEADER_LEN as int),
{
    lemma_word_bytes_round_trip(order, bytes, 0);
    lemma_word_bytes_round_trip(order, bytes, 4);
    lemma_word_bytes_round_trip(order, bytes, 8);
    lemma_word_bytes_round_trip(order, bytes, 12);
    assert(header_bytes(order, header_at_start(order, bytes)) =~= bytes.take(HEADER_LEN as int));
}

/// A message as it was received: its type and its text.
#[derive(Debug, PartialEq, Eq)]
pub struct XenStoreMessage {
    /// Message type.
    pub kind: u32,
    /// The payload.
    pub body: String,
}

/// What a [`XenStoreMessage`] says, as a mathematical value.
#[verifier::ext_equal]
pub struct MessageView {
    pub kind: u32,
    pub body: Seq<char>,
}

impl View for XenStoreMessage {
    type V = MessageView;

    open spec fn view(&self) -> MessageView {
        MessageView { kind: self.kind, body: self.body@ }
    }
}

/// An entry of a message queue: what was received, or why that failed.
pub type Entry = Result<XenStoreMessage, XsError>;

/// What an [`Entry`] says, as a mathematical value.
pub open spec fn entry_view(entry: Entry) -> Result<MessageView, ErrorView> {
    match entry {
        Ok(message) => Ok(message@),
        Err(error) => Err(error@),
    }
}

/// Where the fields of a header stand: each is four bytes, and these are its digits
/// to the base of 256, the lowest first in the one byte order and the highest first
/// in the other.
pub proof fn law_header_layout(order: ByteOrder, message: XenSocketMessage, bytes: Vec<u8>)
    requires
        call_ensures(message_bytes, (order, &message), bytes),
    ensures
        bytes@.len() == 16,
        header_bytes(order, message) == bytes@,
        ({
            let fields = seq![message.kind, message.req_id, message.tx_id, message.len];
            forall|k: int|
                0 <= k < 4 ==> #[trigger] fields[k] == match order {
                    ByteOrder::Little => bytes@[4 * k] + 256 * (bytes@[4 * k + 1] + 256 * (bytes@[4
                        * k + 2] + 256 * bytes@[4 * k + 3])),
                    ByteOrder::Big => bytes@[4 * k + 3] + 256 * (bytes@[4 * k + 2] + 256 * (bytes@[4
                        * k + 1] + 256 * bytes@[4 * k])),
                }
        }),
{
    law_header_round_trip(order, message, Seq::empty());
    assert(bytes@ + Seq::<u8>::empty() =~= bytes@);
    reveal(word_at);
}

/// A header is read from the bytes that it is written as, and from no others.
pub proof fn law_header_is_read_back(
    order: ByteOrder,
    message: XenSocketMessage,
    bytes: Vec<u8>,
    received: &[u8],
    read: XenSocketMessage,
)
    requires
        received@.len() == HEADER_LEN,
        call_ensures(message_bytes, (order, &message), bytes),
        call_ensures(message_from_bytes, (order, received), read),
    ensures
        read == message <==> received@ == bytes@,
{
    law_header_round_trip(order, message, Seq::empty());
    assert(bytes@ + Seq::<u8>::empty() =~= bytes@);
    law_header_bytes_round_trip(order, received@);
    assert(received@.take(HEADER_LEN as int) =~= received@);
}

/// The header of a request says of what type it is and how long its payload is,
/// and nothing else. There is one for every length that 32 bits can hold.
pub proof fn law_request_headers(kind: u32, len: usize, result: Result<XenSocketMessage, XsError>)
    requires
        call_ensures(XenSocketMessage::new, (kind, len), result),
    ensures
        result is Ok <==> len < 0x1_0000_0000,
        result is Err ==> result->Err_0 is InvalidInput,
        result matches Ok(message) ==> message.kind == kind && message.len == len && message.req_id
            == 0 && message.tx_id == 0,
{
}

/// A message and its mathematical value have the same type and text.
pub proof fn law_entry_view_is_faithful(entry: Entry)
    ensures
        entry matches Ok(message) ==> entry_view(entry) == Ok::<MessageView, ErrorView>(
            MessageView { kind: message.kind, body: message.body@ },
        ),
        entry matches Err(error) ==> entry_view(entry) == Err::<MessageView, ErrorView>(error@),
{
}

/// The order of the machine is the one in which the machine reads two bytes: the
/// bytes 1 and 0 make 1 where the lowest comes first, and 256 where the highest
/// does.
proof fn law_native_order(order: ByteOrder)
    requires
        is_native(order),
    ensures
        exists|bytes: [u8; 2], probe: u16| #[trigger]
            call_ensures(u16_from_ne_bytes, (bytes,), probe) && bytes@ == seq![1u8, 0u8] && probe
                == match order {
                ByteOrder::Little => 1u16,
                ByteOrder::Big => 256u16,
            },
{
}

/// A machine that reads the bytes 1 and 0 as the number 1 has the lowest byte first,
/// and any other machine has the highest first.
pub proof fn law_probe_tells_the_order(probe: u16, order: ByteOrder)
    requires
        call_ensures(ByteOrder::from_probe, (probe,), order),
    ensures
        order is Little <==> probe == 1,
        order is Big <==> probe != 1,
{
}

/// A header that nothing is known of yet says nothing: all its fields are zero.
pub proof fn law_default_header_is_zero(message: XenSocketMessage)
    requires
        call_ensures(XenSocketMessage::default, (), message),
    ensures
        message.kind == 0 && message.req_id == 0 && message.tx_id == 0 && message.len == 0,
{
}

} // verus!
