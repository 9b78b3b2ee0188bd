//! The relay loop's routing decisions. One loop per accepted
//! connection races two sources: messages read from the transport, and
//! messages seen on the broadcast bus. What arrives from the transport
//! is handled, discarded or published by target; what arrives from the
//! bus is delivered only to the connection whose own identity it names.

use vstd::prelude::*;
use crate::messages::ID;
use crate::messages::Message;
use crate::messages::MessageView;

verus! {

/// Where an incoming transport message goes.
#[derive(Clone, Copy, Debug, PartialEq, Eq, Structural)]
pub enum RelayRoute {
    /// Addressed to the master: invoke the handler.
    HandleAsMaster,
    /// Addressed to nobody: drop it, not an error.
    Discard,
    /// Addressed to a device: publish it unchanged on the bus.
    Publish,
}

/// The route an incoming message's target decides.
pub open spec fn route_of(target: ID) -> RelayRoute {
    match target {
        ID::Master => RelayRoute::HandleAsMaster,
        ID::Unregistered => RelayRoute::Discard,
        ID::Device(_) => RelayRoute::Publish,
    }
}

/// Decide what the relay loop does with one message read from the
/// transport.
pub fn route_incoming(msg: &Message) -> (r: RelayRoute)
    ensures
        r == route_of(msg@.target),
{
    match msg.header.target {
        ID::Master => RelayRoute::HandleAsMaster,
        ID::Unregistered => RelayRoute::Discard,
        ID::Device(_) => RelayRoute::Publish,
    }
}

/// Whether a bus message belongs to the connection whose own identity
/// is `own`.
pub open spec fn delivered_to(own: ID, m: MessageView) -> bool {
    m.target == own
}

/// Decide whether one message seen on the bus is written to this
/// connection's transport.
pub fn filter_broadcast(own: &ID, msg: &Message) -> (r: bool)
    ensures
        r == delivered_to(*own, msg@),
{
    msg.header.target == *own
}

/// A message targeted at one device is delivered to the connection
/// holding that identity and to no connection holding another.
pub proof fn lemma_delivery_exclusive(m: MessageView, x: u128, other: ID)
    requires
        m.target == ID::Device(x),
        other != ID::Device(x),
    ensures
        delivered_to(ID::Device(x), m),
        !delivered_to(other, m),
{
}

} // verus!
