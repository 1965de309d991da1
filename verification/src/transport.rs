//! The choice of a transport: the socket of the store, or else the XenBus device.

use vstd::prelude::*;

verus! {

/// What has happened since the last [`TransportAction`].
#[derive(Debug, Clone, Copy, PartialEq, Eq, Structural)]
pub enum TransportEvent {
    /// A transport was asked for.
    Start,
    /// Connecting to the socket came to this.
    Connected(bool),
    /// Opening the device, and an event to stop its reader with, came to this.
    Opened(bool),
}

/// What the search for a transport does next.
#[derive(Debug, Clone, Copy, PartialEq, Eq, Structural)]
pub enum TransportAction {
    /// Connect to the socket.
    Connect,
    /// Open the device.
    Open,
    /// Use the socket that was connected to.
    UseSocket,
    /// Use the device that was opened.
    UseDevice,
    /// Give up with the error that the last event reported.
    Fail,
}

/// Decides the next step of the search for a transport.
///
/// The socket is tried first. Only when that fails, in whatever way, is the device
/// tried, and then it is the failure to open the device that counts.
pub fn default_transport(event: TransportEvent) -> (action: TransportAction)
    ensures
        event == TransportEvent::Start <==> action == TransportAction::Connect,
        event == TransportEvent::Connected(true) <==> action == TransportAction::UseSocket,
        event == TransportEvent::Connected(false) <==> action == TransportAction::Open,
        event == TransportEvent::Opened(true) <==> action == TransportAction::UseDevice,
        event == TransportEvent::Opened(false) <==> action == TransportAction::Fail,
{
    match event {
        TransportEvent::Start => TransportAction::Connect,
        TransportEvent::Connected(true) => TransportAction::UseSocket,
        TransportEvent::Connected(false) => TransportAction::Open,
        TransportEvent::Opened(true) => TransportAction::UseDevice,
        TransportEvent::Opened(false) => TransportAction::Fail,
    }
}

/// The search for a transport tries the socket, then the device. A socket that was
/// connected to is used, whatever could be said of the device. Otherwise the
/// device is used if it could be opened, and the search fails if it could not.
pub proof fn law_socket_goes_before_device(
    connected: bool,
    opened: bool,
    start: TransportAction,
    tried: TransportAction,
    last: TransportAction,
)
    requires
        call_ensures(default_transport, (TransportEvent::Start,), start),
        call_ensures(default_transport, (TransportEvent::Connected(connected),), tried),
        call_ensures(default_transport, (TransportEvent::Opened(opened),), last),
    ensures
        start is Connect,
        tried is UseSocket <==> connected,
        tried is Open <==> !connected,
        last is UseDevice <==> opened,
        last is Fail <==> !opened,
{
}

} // verus!
