//! Decisions of a read from the XenBus device.
//!
//! The device is opened non-blocking and shares its reader thread with a
//! "stop" event descriptor. A read therefore alternates between polling the two
//! descriptors and reading the device. The caller performs each poll and each
//! read, and hands what came of it to the functions here, which say what to do
//! next.

use vstd::prelude::*;

verus! {

/// Poll bit: there is data to read.
pub const POLL_INPUT: i16 = 0x1;

/// Poll bit: an error condition.
pub const POLL_ERROR: i16 = 0x8;

/// Poll bit: the peer hung up.
pub const POLL_HANGUP: i16 = 0x10;

/// Poll bit: the descriptor is not open.
pub const POLL_INVALID: i16 = 0x20;

/// Error number for a descriptor that is not open.
pub const BAD_DESCRIPTOR: i32 = 9;

/// Reads the constant `libc::POLLIN`, which is 1 on Linux.
#[verifier::external_body]
fn pollin() -> (mask: i16)
    ensures
        mask == POLL_INPUT,
{
    libc::POLLIN
}

/// Reads the constant `libc::POLLERR`, which is 8 on Linux.
#[verifier::external_body]
fn pollerr() -> (mask: i16)
    ensures
        mask == POLL_ERROR,
{
    libc::POLLERR
}

/// Reads the constant `libc::POLLHUP`, which is 16 on Linux.
#[verifier::external_body]
fn pollhup() -> (mask: i16)
    ensures
        mask == POLL_HANGUP,
{
    libc::POLLHUP
}

/// Reads the constant `libc::POLLNVAL`, which is 32 on Linux.
#[verifier::external_body]
fn pollnval() -> (mask: i16)
    ensures
        mask == POLL_INVALID,
{
    libc::POLLNVAL
}

/// Reads the constant `libc::EBADF`, which is 9 on Linux.
#[verifier::external_body]
fn ebadf() -> (code: i32)
    ensures
        code == BAD_DESCRIPTOR,
{
    libc::EBADF
}

/// What one call of `poll` on the device and the stop event came to.
#[derive(Debug, Clone, Copy, PartialEq, Eq, Structural)]
pub enum PollOutcome {
    /// The call failed; `interrupted` tells whether a signal cut it short.
    Failed { interrupted: bool },
    /// The call returned, with these `revents` for the two descriptors.
    Ready { device: i16, stop: i16 },
}

/// What to do after a poll.
#[derive(Debug, Clone, Copy, PartialEq, Eq, Structural)]
pub enum PollVerdict {
    /// Poll once more.
    Again,
    /// Shutdown was requested.
    Stop,
    /// The device can be read.
    Input,
    /// Give up with this error number.
    Os(i32),
    /// Give up with the error that the poll itself returned.
    Fail,
}

/// Whether a bit of `mask` is set in `revents`.
pub open spec fn any_bit(revents: i16, mask: i16) -> bool {
    revents & mask != 0
}

/// The verdict that a poll outcome calls for.
///
/// A shutdown request goes before everything that the device reports, and a
/// descriptor that is not open before its other bits. Errors and hangups count
/// as input: the read that follows reports them.
pub open spec fn poll_verdict(outcome: PollOutcome) -> PollVerdict {
    match outcome {
        PollOutcome::Failed { interrupted } => if interrupted {
            PollVerdict::Again
        } else {
            PollVerdict::Fail
        },
        PollOutcome::Ready { device, stop } => if any_bit(stop, POLL_INPUT) {
            PollVerdict::Stop
        } else if any_bit(device, POLL_INVALID) {
            PollVerdict::Os(BAD_DESCRIPTOR)
        } else if any_bit(device, POLL_INPUT) || any_bit(device, POLL_ERROR) || any_bit(
            device,
            POLL_HANGUP,
        ) {
            PollVerdict::Input
        } else {
            PollVerdict::Again
        },
    }
}

/// Decides what follows a poll of the device and the stop event.
pub fn wait_for_device_input(outcome: PollOutcome) -> (verdict: PollVerdict)
    ensures
        verdict == poll_verdict(outcome),
{
    match outcome {
        PollOutcome::Failed { interrupted } => {
            if interrupted {
                PollVerdict::Again
            } else {
                PollVerdict::Fail
            }
        },
        PollOutcome::Ready { device, stop } => {
            // Give shutdown priority over pending input.
            if stop & pollin() != 0 {
                return PollVerdict::Stop;
            }
            if device & pollnval() != 0 {
                return PollVerdict::Os(ebadf());
            }
            assert(device & (0x1i16 | 0x8i16 | 0x10i16) != 0 <==> (device & 0x1i16 != 0 || device
                & 0x8i16 != 0 || device & 0x10i16 != 0)) by (bit_vector);
            if device & (pollin() | pollerr() | pollhup()) != 0 {
                return PollVerdict::Input;
            }
            PollVerdict::Again
        },
    }
}

/// What one read of the device file came to.
#[derive(Debug, Clone, Copy, PartialEq, Eq, Structural)]
pub enum FileRead {
    /// This many bytes were read; none at the end of the file.
    Count(usize),
    /// A signal cut the read short.
    Interrupted,
    /// The device had nothing to read after all.
    WouldBlock,
    /// The read failed in another way.
    Failed,
}

/// What has happened since the last [`DeviceAction`].
#[derive(Debug, Clone, Copy, PartialEq, Eq, Structural)]
pub enum DeviceEvent {
    /// A read into a buffer of this length was asked for.
    Start { buffer_len: usize },
    /// The descriptors were polled.
    Polled(PollOutcome),
    /// The device file was read.
    FileRead(FileRead),
}

/// What a read of the device does next.
#[derive(Debug, Clone, Copy, PartialEq, Eq, Structural)]
pub enum DeviceAction {
    /// Poll the device and the stop event.
    Poll,
    /// Read the device file into the buffer.
    ReadFile,
    /// The read is over, with this many bytes.
    Return(usize),
    /// The read is over, with the error that the last event reported.
    Fail,
    /// The read is over, with this error number.
    Os(i32),
}

/// The action that an event calls for.
pub open spec fn device_action(event: DeviceEvent) -> DeviceAction {
    match event {
        DeviceEvent::Start { buffer_len } => if buffer_len == 0 {
            DeviceAction::Return(0)
        } else {
            DeviceAction::Poll
        },
        DeviceEvent::Polled(outcome) => match poll_verdict(outcome) {
            PollVerdict::Again => DeviceAction::Poll,
            PollVerdict::Stop => DeviceAction::Return(0),
            PollVerdict::Input => DeviceAction::ReadFile,
            PollVerdict::Os(code) => DeviceAction::Os(code),
            PollVerdict::Fail => DeviceAction::Fail,
        },
        DeviceEvent::FileRead(outcome) => match outcome {
            FileRead::Count(n) => DeviceAction::Return(n),
            FileRead::Interrupted | FileRead::WouldBlock => DeviceAction::Poll,
            FileRead::Failed => DeviceAction::Fail,
        },
    }
}

/// Decides the next step of a read of the device.
///
/// An empty buffer is served without a poll, a shutdown request ends the read
/// with no bytes, and a read that found nothing after all goes back to polling.
pub fn device_read(event: DeviceEvent) -> (action: DeviceAction)
    ensures
        action == device_action(event),
{
    match event {
        DeviceEvent::Start { buffer_len } => {
            if buffer_len == 0 {
                // Do not poll for a zero-length read.
                DeviceAction::Return(0)
            } else {
                DeviceAction::Poll
            }
        },
        DeviceEvent::Polled(outcome) => match wait_for_device_input(outcome) {
            PollVerdict::Again => DeviceAction::Poll,
            PollVerdict::Stop => DeviceAction::Return(0),
            PollVerdict::Input => DeviceAction::ReadFile,
            PollVerdict::Os(code) => DeviceAction::Os(code),
            PollVerdict::Fail => DeviceAction::Fail,
        },
        DeviceEvent::FileRead(outcome) => match outcome {
            FileRead::Count(n) => DeviceAction::Return(n),
            FileRead::Interrupted => DeviceAction::Poll,
            FileRead::WouldBlock => DeviceAction::Poll,
            FileRead::Failed => DeviceAction::Fail,
        },
    }
}

/// Whether `event` reports on the work that `action` asked for.
pub open spec fn answers(action: DeviceAction, event: DeviceEvent) -> bool {
    match action {
        DeviceAction::Poll => event is Polled,
        DeviceAction::ReadFile => event is FileRead,
        _ => false,
    }
}

/// Whether `events` is the history of one read: it begins with the request, and
/// every later event answers the action that the event before it called for.
pub open spec fn device_history(events: Seq<DeviceEvent>) -> bool {
    &&& events.len() > 0
    &&& events[0] is Start
    &&& forall|i: int|
        0 < i < events.len() ==> answers(device_action(events[i - 1]), #[trigger] events[i])
}

/// The device file is only ever read right after a poll that reported something
/// on the device, an open descriptor, and no shutdown request.
pub proof fn law_file_read_follows_poll(events: Seq<DeviceEvent>, i: int)
    requires
        device_history(events),
        0 <= i < events.len(),
        events[i] is FileRead,
    ensures
        i > 0,
        events[i - 1] matches DeviceEvent::Polled(PollOutcome::Ready { device, stop }) && !any_bit(
            stop,
            POLL_INPUT,
        ) && !any_bit(device, POLL_INVALID) && (any_bit(device, POLL_INPUT) || any_bit(
            device,
            POLL_ERROR,
        ) || any_bit(device, POLL_HANGUP)),
{
    assert(answers(device_action(events[i - 1]), events[i]));
}

/// Whatever a read of the device returns, it returns once: before the last
/// event of its history the file gave no bytes and no end of file, and bytes that
/// are returned are those that the last event reported.
pub proof fn law_device_read_loses_nothing(events: Seq<DeviceEvent>, n: usize)
    requires
        device_history(events),
        device_action(events.last()) == DeviceAction::Return(n),
        n > 0,
    ensures
        events.last() == DeviceEvent::FileRead(FileRead::Count(n)),
        forall|i: int|
            0 <= i < events.len() - 1 ==> (#[trigger] events[i] matches DeviceEvent::FileRead(
                outcome,
            ) ==> outcome is Interrupted || outcome is WouldBlock),
{
    assert forall|i: int| 0 <= i < events.len() - 1 implies (
    #[trigger] events[i] matches DeviceEvent::FileRead(outcome) ==> outcome is Interrupted
        || outcome is WouldBlock) by {
        assert(answers(device_action(events[i + 1 - 1]), events[i + 1]));
    }
}

/// Bytes that the device gave are never thrown away: a file read of any number of
/// bytes ends the read with that number, and only such a file read ends it with
/// bytes.
pub proof fn law_bytes_read_are_returned(event: DeviceEvent, action: DeviceAction, n: usize)
    requires
        call_ensures(device_read, (event,), action),
    ensures
        event == DeviceEvent::FileRead(FileRead::Count(n)) ==> action == DeviceAction::Return(n),
        action == DeviceAction::Return(n) && n > 0 ==> event == DeviceEvent::FileRead(
            FileRead::Count(n),
        ),
{
}

/// A read of the device comes back without bytes for three reasons only: none were
/// asked for, the file is at its end, or a shutdown was requested.
pub proof fn law_empty_read(event: DeviceEvent, action: DeviceAction)
    requires
        call_ensures(device_read, (event,), action),
    ensures
        action == DeviceAction::Return(0) <==> {
            ||| event == (DeviceEvent::Start { buffer_len: 0 })
            ||| event == DeviceEvent::FileRead(FileRead::Count(0))
            ||| event matches DeviceEvent::Polled(PollOutcome::Ready { stop, .. }) && stop & 1i16
                != 0
        },
{
}

/// The device file is read exactly when a poll reported input, an error or a
/// hangup on an open device, and no shutdown request.
pub proof fn law_file_is_read_when_ready(event: DeviceEvent, action: DeviceAction)
    requires
        call_ensures(device_read, (event,), action),
    ensures
        action is ReadFile <==> (event matches DeviceEvent::Polled(
            PollOutcome::Ready { device, stop },
        ) && stop & 1i16 == 0 && device & 32i16 == 0 && device & 25i16 != 0),
{
    if let DeviceEvent::Polled(PollOutcome::Ready { device, stop }) = event {
        lemma_input_bits(device);
    }
}

/// A read of the device fails exactly when a poll or a file read failed with
/// something that does not pass, or the device is not open; and the error that it
/// fails with is the one that was reported, or the one for a descriptor that is
/// not open.
pub proof fn law_device_failures(event: DeviceEvent, action: DeviceAction)
    requires
        call_ensures(device_read, (event,), action),
    ensures
        action is Fail <==> {
            ||| event == DeviceEvent::FileRead(FileRead::Failed)
            ||| event == DeviceEvent::Polled(PollOutcome::Failed { interrupted: false })
        },
        action is Os <==> (event matches DeviceEvent::Polled(PollOutcome::Ready { device, stop })
            && stop & 1i16 == 0 && device & 32i16 != 0),
        action matches DeviceAction::Os(code) ==> code == 9,
{
}

/// A read of the device polls at its start, and again after everything that
/// passes: an interruption, a poll that reported nothing of interest, and a file
/// read that found nothing.
pub proof fn law_device_polls_again(event: DeviceEvent, action: DeviceAction)
    requires
        call_ensures(device_read, (event,), action),
    ensures
        action is Poll <==> {
            ||| event matches DeviceEvent::Start { buffer_len } && buffer_len > 0
            ||| event == DeviceEvent::FileRead(FileRead::Interrupted)
            ||| event == DeviceEvent::FileRead(FileRead::WouldBlock)
            ||| event == DeviceEvent::Polled(PollOutcome::Failed { interrupted: true })
            ||| event matches DeviceEvent::Polled(PollOutcome::Ready { device, stop }) && stop
                & 1i16 == 0 && device & 57i16 == 0
        },
{
    if let DeviceEvent::Polled(PollOutcome::Ready { device, stop }) = event {
        lemma_input_bits(device);
    }
}

/// A poll decides the read of the device that it belongs to: whatever verdict it
/// comes to, the read polls again, stops, reads the file or fails just so.
pub proof fn law_poll_decides_the_read(
    outcome: PollOutcome,
    verdict: PollVerdict,
    action: DeviceAction,
)
    requires
        call_ensures(wait_for_device_input, (outcome,), verdict),
        call_ensures(device_read, (DeviceEvent::Polled(outcome),), action),
    ensures
        verdict is Again <==> action is Poll,
        verdict is Stop <==> action == DeviceAction::Return(0),
        verdict is Input <==> action is ReadFile,
        verdict is Fail <==> action is Fail,
        verdict is Os <==> action is Os,
        verdict is Os ==> verdict->Os_0 == action->Os_0,
{
}

/// Some of several bits are set exactly when one of them is.
proof fn lemma_input_bits(device: i16)
    by (bit_vector)
    ensures
        device & 25i16 != 0 <==> (device & 1i16 != 0 || device & 8i16 != 0 || device & 16i16 != 0),
        device & 57i16 == 0 <==> (device & 25i16 == 0 && device & 32i16 == 0),
{
}

} // verus!
