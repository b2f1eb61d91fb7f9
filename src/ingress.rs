//! What a connection's reader does with one decoded frame.

use vstd::prelude::*;
use crate::coordinator::Event;

verus! {

/// The kind of an inbound frame, as its decoder found it.
#[derive(Debug, Clone, Copy, PartialEq, Eq)]
pub enum Inbound {
    /// A chat message.
    Chat,
    /// A typing indicator.
    Typing,
    /// A user count, which only the relay itself may send.
    UserCount,
    /// A system message, which only the relay itself may send.
    System,
    /// Not a frame of the protocol.
    Malformed,
}

/// The event that a frame from connection `sender` turns into: chat messages and
/// typing indicators are published in their original encoding `raw`, a malformed
/// frame gets its sender kicked, and the relay's own kinds are ignored.
pub fn accept_frame<H>(sender: u64, frame: Inbound, raw: String) -> (r: Option<Event<H>>)
    ensures
        (frame == Inbound::Chat || frame == Inbound::Typing) ==> r == Some(Event::<H>::Publish(raw)),
        frame == Inbound::Malformed ==> r == Some(Event::<H>::Kick(sender)),
        (frame == Inbound::UserCount || frame == Inbound::System) ==> r is None,
{
    match frame {
        Inbound::Chat | Inbound::Typing => Some(Event::Publish(raw)),
        Inbound::Malformed => Some(Event::Kick(sender)),
        Inbound::UserCount | Inbound::System => None,
    }
}

} // verus!
