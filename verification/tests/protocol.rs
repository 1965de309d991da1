use xen_store::error::{ErrorClass, XsError};
use xen_store::handle::{Listing, Transaction, XenStoreHandle};
use xen_store::message::{
    message_bytes, message_from_bytes, ByteOrder, XenSocketMessage, XenStoreMessage, XS_DIRECTORY,
    XS_READ, XS_WATCH, XS_WATCH_EVENT, XS_WRITE,
};
use xen_store::reader::{deliver, Delivery, FrameReader, Queue, ReadEvent, ReaderAction, StopReason};
use xen_store::text::{parse_i32, parse_listing, push_text, split};
use xen_store::writer::WriteOutcome;

/// Message type of an error reply.
const XS_ERROR: u32 = 16;

fn frame(order: ByteOrder, kind: u32, payload: &[u8]) -> Vec<u8> {
    let mut bytes = message_bytes(order, &XenSocketMessage::new(kind, payload.len()).unwrap());
    bytes.extend_from_slice(payload);
    bytes
}

/// What a reader delivers for `input`, read at most `chunk` bytes at a time, with
/// an interruption before each read.
fn receive(order: ByteOrder, mut input: &[u8], chunk: usize) -> Vec<Delivery> {
    let mut reader = FrameReader::new(order);
    let mut deliveries = Vec::new();
    while !input.is_empty() {
        assert_eq!(reader.thread_function(ReadEvent::Interrupted), ReaderAction::Read);
        let n = reader.wanted().min(input.len()).min(chunk);
        match reader.thread_function(ReadEvent::Data(&input[..n])) {
            ReaderAction::Read => {}
            ReaderAction::Deliver(delivery) => deliveries.push(delivery),
            ReaderAction::Stop(reason) => panic!("{:?}", reason),
        }
        input = &input[n..];
    }
    deliveries
}

fn ok(kind: u32, body: &str) -> Result<XenStoreMessage, XsError> {
    Ok(XenStoreMessage {
        kind,
        body: body.to_string(),
    })
}

/// Writes the request of a transaction, and gives its bytes.
fn write_out(transaction: &mut Transaction) -> Vec<u8> {
    let mut bytes = Vec::new();
    loop {
        let n = match transaction.request.pending() {
            None => return bytes,
            Some(pending) => {
                bytes.extend_from_slice(pending);
                pending.len()
            }
        };
        transaction.request.advance(WriteOutcome::Wrote(n));
    }
}

fn reply(handle: &mut XenStoreHandle, kind: u32, payload: &[u8]) {
    for delivery in receive(handle.byte_order(), &frame(handle.byte_order(), kind, payload), 7) {
        handle.queue_message(delivery);
    }
}

#[test]
fn header_layout() {
    let message = XenSocketMessage {
        kind: 0x0102_0304,
        req_id: 5,
        tx_id: 6,
        len: 0xa0b0_c0d0,
    };
    let little = message_bytes(ByteOrder::Little, &message);
    assert_eq!(
        little,
        vec![4, 3, 2, 1, 5, 0, 0, 0, 6, 0, 0, 0, 0xd0, 0xc0, 0xb0, 0xa0]
    );
    let big = message_bytes(ByteOrder::Big, &message);
    assert_eq!(
        big,
        vec![1, 2, 3, 4, 0, 0, 0, 5, 0, 0, 0, 6, 0xa0, 0xb0, 0xc0, 0xd0]
    );
    assert_eq!(message_from_bytes(ByteOrder::Little, &little), message);
    assert_eq!(message_from_bytes(ByteOrder::Big, &big), message);
}

#[test]
fn header_of_a_request() {
    assert_eq!(
        XenSocketMessage::new(XS_WRITE, 9),
        Ok(XenSocketMessage {
            kind: 11,
            req_id: 0,
            tx_id: 0,
            len: 9
        })
    );
    assert_eq!(
        XenSocketMessage::new(XS_WRITE, u32::MAX as usize).unwrap().len,
        u32::MAX
    );
    assert_eq!(
        XenSocketMessage::new(XS_WRITE, u32::MAX as usize + 1),
        Err(XsError::InvalidInput)
    );
    assert_eq!(XenSocketMessage::default().len, 0);
}

#[test]
fn byte_order_of_a_probe() {
    assert_eq!(ByteOrder::from_probe(1), ByteOrder::Little);
    assert_eq!(ByteOrder::from_probe(256), ByteOrder::Big);
}

#[test]
fn deliveries_do_not_depend_on_chunks() {
    for order in [ByteOrder::Little, ByteOrder::Big] {
        let mut stream = frame(order, XS_READ, b"value");
        stream.extend(frame(order, XS_READ, b""));
        stream.extend(frame(order, XS_WRITE, b""));
        stream.extend(frame(order, XS_WATCH_EVENT, b"path\0token\0"));
        stream.extend(frame(order, XS_ERROR, b"EINVAL\0"));
        stream.extend(frame(order, XS_ERROR, b""));
        stream.extend(frame(order, XS_WATCH, b"OK\0"));
        stream.extend(frame(order, XS_DIRECTORY, &[0xff, 0x30]));
        stream.extend(frame(order, XS_READ, "\u{e9}\u{1f600}".as_bytes()));
        for chunk in [1, 2, 15, 16, 17, 1000] {
            let deliveries = receive(order, &stream, chunk);
            let expected = vec![
                Delivery {
                    queue: Queue::Reply,
                    entry: ok(XS_READ, "value"),
                },
                Delivery {
                    queue: Queue::Reply,
                    entry: ok(XS_READ, ""),
                },
                Delivery {
                    queue: Queue::Reply,
                    entry: ok(XS_WRITE, ""),
                },
                Delivery {
                    queue: Queue::Watch,
                    entry: ok(XS_WATCH_EVENT, "path\0token\0"),
                },
                Delivery {
                    queue: Queue::Reply,
                    entry: Err(XsError::Transaction),
                },
                Delivery {
                    queue: Queue::Reply,
                    entry: Err(XsError::Transaction),
                },
                Delivery {
                    queue: Queue::Reply,
                    entry: ok(XS_WATCH, "OK\0"),
                },
                Delivery {
                    queue: Queue::Reply,
                    entry: Err(XsError::Utf8(vec![0xff, 0x30])),
                },
                Delivery {
                    queue: Queue::Reply,
                    entry: ok(XS_READ, "\u{e9}\u{1f600}"),
                },
            ];
            assert_eq!(deliveries, expected);
        }
    }
}

#[test]
fn deliveries_of_odd_frames() {
    let header = XenSocketMessage::new(XS_WATCH_EVENT, 3).unwrap();
    assert_eq!(
        deliver(&header, vec![b'a', b'b']),
        Delivery {
            queue: Queue::Watch,
            entry: Err(XsError::InvalidData)
        }
    );
    assert_eq!(
        deliver(&header, vec![0xc3]),
        Delivery {
            queue: Queue::Watch,
            entry: Err(XsError::Utf8(vec![0xc3]))
        }
    );
}

#[test]
fn receiving_stops() {
    let mut reader = FrameReader::new(ByteOrder::Big);
    assert_eq!(reader.wanted(), 16);
    assert_eq!(
        reader.thread_function(ReadEvent::Failed),
        ReaderAction::Stop(StopReason::Failed)
    );
    let start = frame(ByteOrder::Big, XS_READ, b"abc");
    assert_eq!(
        reader.thread_function(ReadEvent::Data(&start[..16])),
        ReaderAction::Read
    );
    assert_eq!(reader.wanted(), 3);
    assert_eq!(
        reader.thread_function(ReadEvent::Data(b"a")),
        ReaderAction::Read
    );
    assert_eq!(reader.wanted(), 2);
    assert_eq!(
        reader.thread_function(ReadEvent::Data(b"")),
        ReaderAction::Stop(StopReason::UnexpectedEof)
    );
}

#[test]
fn request_payloads() {
    let handle = XenStoreHandle::with_order(ByteOrder::Little, 5);
    let order = ByteOrder::Little;
    let bytes = |result: Result<Transaction, XsError>| write_out(&mut result.unwrap());
    assert_eq!(
        bytes(handle.read_str("a/b")),
        frame(order, XS_READ, b"a/b\0")
    );
    assert_eq!(
        bytes(handle.write_str("a/b", "v")),
        frame(order, XS_WRITE, b"a/b\0v")
    );
    assert_eq!(
        bytes(handle.write_str("a", "")),
        frame(order, XS_WRITE, b"a\0")
    );
    assert_eq!(
        bytes(handle.create_watch("a", "\u{e9}")),
        frame(order, XS_WATCH, b"a\0\xc3\xa9\0")
    );
    assert_eq!(
        bytes(handle.directory("")),
        frame(order, XS_DIRECTORY, b"\0")
    );
}

#[test]
fn nul_bytes_are_refused() {
    let handle = XenStoreHandle::with_order(ByteOrder::Little, 5);
    assert_eq!(handle.read_str("a\0").unwrap_err(), XsError::NulByte);
    assert_eq!(handle.directory("\0a").unwrap_err(), XsError::NulByte);
    assert_eq!(handle.write_str("a\0", "v").unwrap_err(), XsError::NulByte);
    assert_eq!(handle.write_str("a", "v\0").unwrap_err(), XsError::NulByte);
    assert_eq!(handle.create_watch("\0", "t").unwrap_err(), XsError::NulByte);
    assert_eq!(handle.create_watch("a", "t\0u").unwrap_err(), XsError::NulByte);

    let mut payload = vec![9];
    assert_eq!(push_text(&mut payload, "x\0y", true), Err(XsError::NulByte));
    assert_eq!(payload, vec![9]);
    assert_eq!(push_text(&mut payload, "xy", true), Ok(()));
    assert_eq!(payload, vec![9, b'x', b'y', 0]);
}

#[test]
fn replies_wait_for_the_request() {
    let mut handle = XenStoreHandle::with_order(ByteOrder::Big, 5);
    let mut transaction = handle.write_str("a", "b").unwrap();
    reply(&mut handle, XS_WRITE, b"OK\0");
    assert_eq!(handle.acknowledge(&transaction), None);
    write_out(&mut transaction);
    assert_eq!(handle.acknowledge(&transaction), Some(Ok(())));
    assert_eq!(handle.acknowledge(&transaction), None);
}

#[test]
fn replies_come_in_order_and_are_taken_once() {
    let mut handle = XenStoreHandle::with_order(ByteOrder::Big, 5);
    let mut transaction = handle.read_str("a").unwrap();
    write_out(&mut transaction);
    reply(&mut handle, XS_READ, b"one");
    reply(&mut handle, XS_WRITE, b"two");
    reply(&mut handle, XS_ERROR, b"ENOENT\0");
    reply(&mut handle, XS_READ, &[0x80]);
    reply(&mut handle, XS_READ, b"");
    assert_eq!(handle.xs_transaction(&transaction), Some(Ok("one".to_string())));
    assert_eq!(handle.xs_transaction(&transaction), Some(Err(XsError::InvalidData)));
    assert_eq!(handle.acknowledge(&transaction), Some(Err(XsError::Transaction)));
    assert_eq!(
        handle.xs_transaction(&transaction),
        Some(Err(XsError::Utf8(vec![0x80])))
    );
    assert_eq!(handle.xs_transaction(&transaction), Some(Ok(String::new())));
    assert_eq!(handle.xs_transaction(&transaction), None);
}

#[test]
fn listings() {
    let mut handle = XenStoreHandle::with_order(ByteOrder::Little, 5);
    let mut transaction = handle.directory("backend").unwrap();
    write_out(&mut transaction);
    assert_eq!(handle.listing(&transaction), None);
    reply(&mut handle, XS_DIRECTORY, b"1\0\x0042\0-7\0");
    reply(&mut handle, XS_DIRECTORY, b"");
    reply(&mut handle, XS_DIRECTORY, b"1\0vbd\0x\0");
    reply(&mut handle, XS_ERROR, b"ENOENT\0");
    assert_eq!(
        handle.listing(&transaction),
        Some(Ok(Listing::Numbers(vec![1, 42, -7])))
    );
    assert_eq!(handle.listing(&transaction), Some(Ok(Listing::Numbers(vec![]))));
    assert_eq!(
        handle.listing(&transaction),
        Some(Ok(Listing::Unreadable("vbd".to_string())))
    );
    assert_eq!(handle.listing(&transaction), Some(Err(XsError::Transaction)));
}

#[test]
fn numbers_of_a_listing() {
    let mut handle = XenStoreHandle::with_order(ByteOrder::Big, 5);
    let mut transaction = handle.directory("d").unwrap();
    write_out(&mut transaction);
    reply(&mut handle, XS_DIRECTORY, b"8\09\0");
    reply(&mut handle, XS_DIRECTORY, b"8\0console\02147483648\0");
    let listing = handle.listing(&transaction).unwrap().unwrap();
    assert_eq!(listing.numbers(), vec![8, 9]);
    assert_eq!(
        handle.listing(&transaction),
        Some(Ok(Listing::Unreadable("console".to_string())))
    );
}

#[test]
fn watch_events() {
    let mut handle = XenStoreHandle::with_order(ByteOrder::Little, 5);
    assert_eq!(handle.fileno(), Ok(5));
    assert!(!handle.has_watch());
    assert_eq!(handle.read_watch(0), None);
    for _ in 0..4 {
        reply(&mut handle, XS_WATCH_EVENT, b"back/path\0token\0");
    }
    reply(&mut handle, XS_WATCH_EVENT, &[0xfe]);
    handle.queue_message(Delivery {
        queue: Queue::Watch,
        entry: ok(XS_READ, "x"),
    });
    assert!(handle.has_watch());
    assert_eq!(handle.read_watch(0), Some(Ok("back/path".to_string())));
    assert_eq!(handle.read_watch(1), Some(Ok("token".to_string())));
    assert_eq!(handle.read_watch(2), Some(Ok(String::new())));
    assert_eq!(handle.read_watch(3), Some(Err(XsError::InvalidInput)));
    assert_eq!(handle.read_watch(0), Some(Err(XsError::Utf8(vec![0xfe]))));
    assert_eq!(handle.read_watch(0), Some(Err(XsError::InvalidData)));
    assert_eq!(handle.read_watch(0), None);
}

#[test]
fn watch_events_and_replies_do_not_mix() {
    let mut handle = XenStoreHandle::with_order(ByteOrder::Little, 5);
    let mut transaction = handle.read_str("a").unwrap();
    write_out(&mut transaction);
    reply(&mut handle, XS_WATCH_EVENT, b"p\0t\0");
    assert_eq!(handle.xs_transaction(&transaction), None);
    reply(&mut handle, XS_READ, b"v");
    assert_eq!(handle.xs_transaction(&transaction), Some(Ok("v".to_string())));
    assert_eq!(handle.read_watch(1), Some(Ok("t".to_string())));
}

#[test]
fn splitting() {
    assert_eq!(split(""), vec![""]);
    assert_eq!(split("\0"), vec!["", ""]);
    assert_eq!(split("a\0\0\u{e9}b\0"), vec!["a", "", "\u{e9}b", ""]);
    for text in ["", "\0", "plain", "a\0b", "\0\0x", "\u{1f600}\0z\0"] {
        let pieces: Vec<&str> = text.split('\0').collect();
        assert_eq!(split(text), pieces);
        assert_eq!(pieces.join("\0"), text);
    }
}

#[test]
fn numbers() {
    for text in [
        "", "+", "-", "0", "+0", "-0", "7", "+7", "-7", "007", "00000000000000000000012",
        "2147483647", "2147483648", "-2147483648", "-2147483649", "99999999999999999999999",
        " 1", "1 ", "1_0", "0x1", "--1", "+-1", "1-", "\u{661}", "a", "12a",
    ] {
        assert_eq!(parse_i32(text), text.parse::<i32>().ok(), "{:?}", text);
    }
    assert_eq!(parse_i32("-2147483648"), Some(i32::MIN));
}

#[test]
fn listing_texts() {
    assert_eq!(parse_listing("3\02\01"), Ok(vec![3, 2, 1]));
    assert_eq!(parse_listing(""), Ok(vec![]));
    assert_eq!(parse_listing("3\0-\0+"), Err("-".to_string()));
}

#[test]
fn listings_of_decimal_texts() {
    let numbers = vec![0, 7, -7, 10, -2147483648, 2147483647];
    let texts: Vec<String> = numbers.iter().map(|number: &i32| number.to_string()).collect();
    let mut listing = texts.join("\0");
    assert_eq!(parse_listing(&listing), Ok(numbers.clone()));
    listing.push('\0');
    assert_eq!(parse_listing(&listing), Ok(numbers));
    assert_eq!(parse_listing("+5\0007\0"), Ok(vec![5, 7]));
}

#[test]
fn any_reply_leaves_the_client_in_step() {
    let mut handle = XenStoreHandle::with_order(ByteOrder::Little, 5);
    let cases: Vec<(u32, &[u8], Result<String, XsError>)> = vec![
        (XS_READ, b"v", Ok("v".to_string())),
        (XS_WRITE, b"OK\0", Err(XsError::InvalidData)),
        (XS_ERROR, b"EPERM\0", Err(XsError::Transaction)),
        (77, b"", Err(XsError::Transaction)),
        (XS_READ, &[0xc0], Err(XsError::Utf8(vec![0xc0]))),
    ];
    for (kind, payload, expected) in cases {
        let mut transaction = handle.read_str("a").unwrap();
        write_out(&mut transaction);
        assert_eq!(handle.xs_transaction(&transaction), None);
        reply(&mut handle, kind, payload);
        assert_eq!(handle.xs_transaction(&transaction), Some(expected));
        assert_eq!(handle.xs_transaction(&transaction), None);
    }
}

#[test]
fn errors_have_classes_and_texts() {
    let handle = XenStoreHandle::with_order(ByteOrder::Little, 5);
    let nul = handle.read_str("a\0").unwrap_err();
    assert_eq!(nul.class(), ErrorClass::InvalidInput);
    assert_eq!(nul.text(), Some("data provided contains a nul byte"));
    assert_eq!(XsError::InvalidInput.class(), ErrorClass::InvalidInput);
    assert_eq!(XsError::InvalidInput.text(), None);
    assert_eq!(XsError::InvalidData.class(), ErrorClass::InvalidData);
    assert_eq!(XsError::InvalidData.text(), None);
    assert_eq!(XsError::Transaction.class(), ErrorClass::Other);
    assert_eq!(XsError::Transaction.text(), Some("Xen Store transaction error"));
    assert_eq!(XsError::Utf8(vec![0xff]).class(), ErrorClass::Other);
    assert_eq!(XsError::Utf8(vec![0xff]).text(), None);
}
