use std::io::{Error, ErrorKind, Write};

use xen_store::device::{
    device_read, wait_for_device_input, DeviceAction, DeviceEvent, FileRead, PollOutcome,
    PollVerdict,
};
use xen_store::handle::{Transaction, XenStoreHandle};
use xen_store::message::{
    message_bytes, message_from_bytes, ByteOrder, XenSocketMessage, XS_READ,
};
use xen_store::reader::{FrameReader, ReadEvent, ReaderAction, StopReason};
use xen_store::transport::{default_transport, TransportAction, TransportEvent};
use xen_store::writer::{write_request, RequestWriter, WriteOutcome, WriteStep};

#[derive(Default)]
struct ShortWriter {
    bytes: Vec<u8>,
    write_calls: usize,
}

impl Write for ShortWriter {
    fn write(&mut self, buffer: &[u8]) -> Result<usize, Error> {
        self.write_calls += 1;

        // Write the header, interrupt the payload, then force short writes.
        let written = match self.write_calls {
            1 => buffer.len(),
            2 => return Err(Error::from(ErrorKind::Interrupted)),
            _ => buffer.len().min(3),
        };

        self.bytes.extend_from_slice(&buffer[..written]);
        Ok(written)
    }

    fn flush(&mut self) -> Result<(), Error> {
        Ok(())
    }
}

fn send<W: Write>(writer: &mut W, request: &mut RequestWriter) -> Result<(), Error> {
    loop {
        let result = match request.pending() {
            None => return Ok(()),
            Some(bytes) => writer.write(bytes),
        };
        let outcome = match &result {
            Ok(n) => WriteOutcome::Wrote(*n),
            Err(error) if error.kind() == ErrorKind::Interrupted => WriteOutcome::Interrupted,
            Err(_) => WriteOutcome::Failed,
        };
        match request.advance(outcome) {
            WriteStep::Continue => {}
            WriteStep::Done => return Ok(()),
            WriteStep::WriteZero => return Err(Error::from(ErrorKind::WriteZero)),
            WriteStep::Fail => return result.map(|_| ()),
        }
    }
}

#[test]
fn writes_complete_request_after_interrupted_and_short_writes() -> Result<(), Error> {
    let payload = b"domid\0";
    let message = XenSocketMessage::new(XS_READ, payload.len()).unwrap();
    let order = ByteOrder::Little;
    let mut writer = ShortWriter::default();

    let mut request = RequestWriter::new();
    write_request(&mut request, order, &message, payload);
    send(&mut writer, &mut request)?;

    let mut expected = message_bytes(order, &message).to_vec();
    expected.extend_from_slice(payload);
    assert_eq!(writer.bytes, expected);
    assert!(writer.write_calls > 2);
    Ok(())
}

/// Feeds a reader from `input`, at most `chunk` bytes at a time.
fn feed(reader: &mut FrameReader, handle: &mut XenStoreHandle, mut input: &[u8], chunk: usize) {
    while !input.is_empty() {
        let n = reader.wanted().min(input.len()).min(chunk);
        match reader.thread_function(ReadEvent::Data(&input[..n])) {
            ReaderAction::Read => {}
            ReaderAction::Deliver(delivery) => handle.queue_message(delivery),
            ReaderAction::Stop(reason) => panic!("{:?}", reason),
        }
        input = &input[n..];
    }
}

fn sent(transaction: &mut Transaction) -> Vec<u8> {
    let mut stream: Vec<u8> = Vec::new();
    send(&mut stream, &mut transaction.request).unwrap();
    stream
}

#[test]
fn unix_transport_round_trip() {
    let mut handle = XenStoreHandle::new(3);
    let order = handle.byte_order();
    let mut reader = FrameReader::new(order);

    let mut transaction = handle.read_str("domid").unwrap();
    let stream = sent(&mut transaction);
    let request = message_from_bytes(order, &stream[..16]);
    assert_eq!(request.kind, XS_READ);
    assert_eq!(request.len as usize, stream.len() - 16);
    assert_eq!(&stream[16..], b"domid\0");
    assert_eq!(handle.xs_transaction(&transaction), None);

    let response_payload = b"7\0";
    let response = XenSocketMessage::new(XS_READ, response_payload.len()).unwrap();
    let mut answer = message_bytes(order, &response);
    answer.extend_from_slice(response_payload);
    feed(&mut reader, &mut handle, &answer, 5);

    assert_eq!(handle.xs_transaction(&transaction), Some(Ok("7\0".to_string())));
    assert_eq!(handle.xs_transaction(&transaction), None);
}

#[test]
fn headers_of_a_new_handle_are_in_machine_order() {
    let handle = XenStoreHandle::new(3);
    let message = XenSocketMessage::new(XS_READ, 0x0102_0304).unwrap();
    let mut expected: Vec<u8> = Vec::new();
    for word in [2u32, 0, 0, 0x0102_0304] {
        expected.extend_from_slice(&word.to_ne_bytes());
    }
    assert_eq!(message_bytes(handle.byte_order(), &message), expected);
}

#[test]
fn dropping_idle_device_handle_stops_reader() {
    let mut reader = FrameReader::new(ByteOrder::Little);
    assert_eq!(
        device_read(DeviceEvent::Start {
            buffer_len: reader.wanted()
        }),
        DeviceAction::Poll
    );
    let polled = PollOutcome::Ready {
        device: 0,
        stop: libc::POLLIN,
    };
    assert_eq!(device_read(DeviceEvent::Polled(polled)), DeviceAction::Return(0));
    assert_eq!(
        reader.thread_function(ReadEvent::Data(&[])),
        ReaderAction::Stop(StopReason::UnexpectedEof)
    );
}

#[test]
fn device_read_stops_after_partial_data() {
    let mut reader = FrameReader::new(ByteOrder::Little);
    let ready = PollOutcome::Ready {
        device: libc::POLLIN,
        stop: 0,
    };
    assert_eq!(device_read(DeviceEvent::Polled(ready)), DeviceAction::ReadFile);
    assert_eq!(
        device_read(DeviceEvent::FileRead(FileRead::Count(2))),
        DeviceAction::Return(2)
    );
    assert_eq!(
        reader.thread_function(ReadEvent::Data(b"ab")),
        ReaderAction::Read
    );
    assert_eq!(reader.wanted(), 14);

    let stopped = PollOutcome::Ready {
        device: 0,
        stop: libc::POLLIN,
    };
    assert_eq!(device_read(DeviceEvent::Polled(stopped)), DeviceAction::Return(0));
    assert_eq!(
        reader.thread_function(ReadEvent::Data(&[])),
        ReaderAction::Stop(StopReason::UnexpectedEof)
    );
}

#[test]
fn device_read_honors_shutdown_with_ready_input() {
    let both = PollOutcome::Ready {
        device: libc::POLLIN,
        stop: libc::POLLIN,
    };
    assert_eq!(wait_for_device_input(both), PollVerdict::Stop);
    assert_eq!(device_read(DeviceEvent::Polled(both)), DeviceAction::Return(0));
    let mut reader = FrameReader::new(ByteOrder::Little);
    assert_eq!(
        reader.thread_function(ReadEvent::Data(&[])),
        ReaderAction::Stop(StopReason::UnexpectedEof)
    );
}

#[test]
fn default_transport_falls_back_to_device() {
    assert_eq!(default_transport(TransportEvent::Start), TransportAction::Connect);
    assert_eq!(
        default_transport(TransportEvent::Connected(false)),
        TransportAction::Open
    );
    assert_eq!(
        default_transport(TransportEvent::Opened(true)),
        TransportAction::UseDevice
    );
}

#[test]
fn default_transport_prefers_the_socket_and_can_fail() {
    assert_eq!(
        default_transport(TransportEvent::Connected(true)),
        TransportAction::UseSocket
    );
    assert_eq!(
        default_transport(TransportEvent::Opened(false)),
        TransportAction::Fail
    );
}

#[test]
fn poll_verdicts() {
    let ready = |device: i16| {
        wait_for_device_input(PollOutcome::Ready { device, stop: 0 })
    };
    assert_eq!(ready(0), PollVerdict::Again);
    assert_eq!(ready(libc::POLLOUT), PollVerdict::Again);
    assert_eq!(ready(libc::POLLIN), PollVerdict::Input);
    assert_eq!(ready(libc::POLLERR), PollVerdict::Input);
    assert_eq!(ready(libc::POLLHUP), PollVerdict::Input);
    assert_eq!(ready(libc::POLLNVAL), PollVerdict::Os(libc::EBADF));
    assert_eq!(
        ready(libc::POLLNVAL | libc::POLLIN),
        PollVerdict::Os(libc::EBADF)
    );
    assert_eq!(
        wait_for_device_input(PollOutcome::Ready {
            device: libc::POLLNVAL,
            stop: libc::POLLIN
        }),
        PollVerdict::Stop
    );
    assert_eq!(
        wait_for_device_input(PollOutcome::Ready {
            device: libc::POLLIN,
            stop: libc::POLLHUP
        }),
        PollVerdict::Input
    );
    assert_eq!(
        wait_for_device_input(PollOutcome::Failed { interrupted: true }),
        PollVerdict::Again
    );
    assert_eq!(
        wait_for_device_input(PollOutcome::Failed { interrupted: false }),
        PollVerdict::Fail
    );
}

#[test]
fn device_read_actions() {
    assert_eq!(
        device_read(DeviceEvent::Start { buffer_len: 0 }),
        DeviceAction::Return(0)
    );
    assert_eq!(
        device_read(DeviceEvent::FileRead(FileRead::Interrupted)),
        DeviceAction::Poll
    );
    assert_eq!(
        device_read(DeviceEvent::FileRead(FileRead::WouldBlock)),
        DeviceAction::Poll
    );
    assert_eq!(
        device_read(DeviceEvent::FileRead(FileRead::Failed)),
        DeviceAction::Fail
    );
    assert_eq!(
        device_read(DeviceEvent::FileRead(FileRead::Count(0))),
        DeviceAction::Return(0)
    );
    assert_eq!(
        device_read(DeviceEvent::Polled(PollOutcome::Failed { interrupted: true })),
        DeviceAction::Poll
    );
    assert_eq!(
        device_read(DeviceEvent::Polled(PollOutcome::Failed { interrupted: false })),
        DeviceAction::Fail
    );
    assert_eq!(
        device_read(DeviceEvent::Polled(PollOutcome::Ready {
            device: libc::POLLNVAL,
            stop: 0
        })),
        DeviceAction::Os(libc::EBADF)
    );
}

#[test]
fn writer_steps() {
    let mut writer = RequestWriter::new();
    assert_eq!(writer.pending(), None);
    writer.write_all(b"");
    assert_eq!(writer.pending(), None);
    writer.write_all(b"abcde");
    writer.write_all(b"fg");
    assert_eq!(writer.pending(), Some(&b"abcde"[..]));
    assert_eq!(writer.advance(WriteOutcome::Wrote(2)), WriteStep::Continue);
    assert_eq!(writer.pending(), Some(&b"cde"[..]));
    assert_eq!(writer.advance(WriteOutcome::Interrupted), WriteStep::Continue);
    assert_eq!(writer.advance(WriteOutcome::Wrote(0)), WriteStep::WriteZero);
    assert_eq!(writer.advance(WriteOutcome::Failed), WriteStep::Fail);
    assert_eq!(writer.pending(), Some(&b"cde"[..]));
    assert_eq!(writer.advance(WriteOutcome::Wrote(3)), WriteStep::Continue);
    assert_eq!(writer.pending(), Some(&b"fg"[..]));
    assert_eq!(writer.advance(WriteOutcome::Wrote(2)), WriteStep::Done);
    assert_eq!(writer.pending(), None);
}
