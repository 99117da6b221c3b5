//! The relay of the merge context: it echoes the messages it receives and
//! sends a tick every second, until the peer closes.
use vstd::prelude::*;

verus! {

/// What happened on a relayed connection.
#[derive(Debug, Clone, Copy, PartialEq, Eq, Structural)]
pub enum RelayEvent {
    /// A text message arrived.
    Text,
    /// A binary message arrived.
    Binary,
    /// A close message arrived.
    Close,
    /// Another kind of message (ping, pong, frame) arrived.
    Other,
    /// The stream of messages ended.
    StreamEnd,
    /// The one-second interval elapsed.
    Tick,
}

/// What the relay does next.
#[derive(Debug, Clone, Copy, PartialEq, Eq, Structural)]
pub enum RelayAction {
    /// Send the message back.
    Echo,
    /// Send the text `tick`.
    SendTick,
    /// Wait for the next event.
    Ignore,
    /// Leave the connection.
    Stop,
}

/// The relay's answer to an event: text and binary messages are echoed, a
/// tick sends `tick`, a close or the end of the stream stops the relay, and
/// anything else is ignored.
pub fn relay_step(event: RelayEvent) -> (r: RelayAction)
    ensures
        (event == RelayEvent::Text || event == RelayEvent::Binary) ==> r == RelayAction::Echo,
        event == RelayEvent::Tick ==> r == RelayAction::SendTick,
        (event == RelayEvent::Close || event == RelayEvent::StreamEnd) ==> r == RelayAction::Stop,
        event == RelayEvent::Other ==> r == RelayAction::Ignore,
{
    match event {
        RelayEvent::Text | RelayEvent::Binary => RelayAction::Echo,
        RelayEvent::Tick => RelayAction::SendTick,
        RelayEvent::Close | RelayEvent::StreamEnd => RelayAction::Stop,
        RelayEvent::Other => RelayAction::Ignore,
    }
}

} // verus!
