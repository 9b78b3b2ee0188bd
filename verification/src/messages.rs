//! The value types exchanged on the bus: identities, message kinds, and
//! the message envelope itself.

use vstd::prelude::*;
use vstd::utf8::encode_utf8;
use crate::errors::DecodeError;

verus! {

/// The identity of a participant: the relay itself, a connection that has
/// not completed the register handshake, or a registered device carrying
/// the 128 bits of the UUID the relay assigned to it.
#[derive(Clone, Copy, Debug, PartialEq, Eq, Structural)]
pub enum ID {
    Master,
    Unregistered,
    Device(u128),
}

/// What a message asks for. The first six are consumed by the relay when
/// the target is `Master`; `Clipboard` is opaque payload relayed verbatim.
#[derive(Clone, Copy, Debug, PartialEq, Eq, Structural)]
pub enum MessageKind {
    Register,
    Close,
    Reply,
    GetRegisteredDevices,
    NewRegisteredDevice,
    ClosedRegisteredDevice,
    Clipboard,
}

/// Where a message is going and what it asks for.
#[derive(Clone, Debug)]
pub struct Header {
    pub kind: MessageKind,
    pub target: ID,
}

/// Who a message came from.
#[derive(Clone, Debug)]
pub struct Tail {
    pub from: ID,
}

/// One message on the bus: a header, a kind-specific body, and a tail.
#[derive(Clone, Debug)]
pub struct Message {
    pub header: Header,
    pub body: String,
    pub tail: Tail,
}

/// The mathematical value of a message: its four fields, with the body as
/// a sequence of characters.
pub struct MessageView {
    pub kind: MessageKind,
    pub target: ID,
    pub body: Seq<char>,
    pub from: ID,
}

impl View for Message {
    type V = MessageView;

    open spec fn view(&self) -> MessageView {
        MessageView {
            kind: self.header.kind,
            target: self.header.target,
            body: self.body@,
            from: self.tail.from,
        }
    }
}

impl PartialEq for Message {
    fn eq(&self, other: &Message) -> (r: bool) {
        self.header.kind == other.header.kind
            && self.header.target == other.header.target
            && self.body == other.body
            && self.tail.from == other.tail.from
    }
}

impl vstd::std_specs::cmp::PartialEqSpecImpl for Message {
    open spec fn obeys_eq_spec() -> bool {
        true
    }

    open spec fn eq_spec(&self, other: &Message) -> bool {
        self@ == other@
    }
}

/// Relies on `uuid::Uuid::new_v4`, which draws a fresh random UUID, read
/// out here as its 128 bits. Nothing can be promised of a random value.
#[verifier::external_body]
fn fresh_uuid_bits() -> u128 {
    uuid::Uuid::new_v4().as_u128()
}

impl ID {
    /// Mint the identity for a newly registering device.
    pub fn new_slave() -> (r: ID)
        ensures
            r is Device,
    {
        ID::Device(fresh_uuid_bits())
    }

    /// Read the assigned identity out of the reply to a register
    /// handshake: the reply's body spells the identity textually.
    pub fn from_register_reply(msg: &Message) -> (r: Result<ID, DecodeError>)
        ensures
            r == crate::idcodec::parse_id_text(encode_utf8(msg@.body)),
    {
        crate::idcodec::decode_id(msg.body.as_str())
    }
}

impl Message {
    /// The handshake message a fresh connection sends to the relay: a
    /// `Register` addressed to the master, from a connection that has no
    /// identity yet, with an empty body.
    pub fn register() -> (r: Message)
        ensures
            r@.kind == MessageKind::Register,
            r@.target == ID::Master,
            r@.from == ID::Unregistered,
            r@.body.len() == 0,
    {
        Message {
            header: Header { kind: MessageKind::Register, target: ID::Master },
            body: String::new(),
            tail: Tail { from: ID::Unregistered },
        }
    }
}

} // verus!
