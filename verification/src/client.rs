//! The client-side bridge decisions: stamping outgoing messages with
//! one's own identity, the pump loop's step rule, and the bookkeeping
//! a client application does with the messages its handle receives.
//! The queues, the stream and the pump task itself live in the I/O
//! layer and call these functions on plain values.

use vstd::prelude::*;
use vstd::utf8::encode_utf8;
use crate::errors::DecodeError;
use crate::idcodec::decode_id;
use crate::idcodec::parse_id_text;
use crate::messages::Header;
use crate::messages::ID;
use crate::messages::Message;
use crate::messages::MessageKind;
use crate::messages::Tail;
use crate::registry::lemma_remove_at_is_remove_first;
use crate::registry::lemma_remove_first_absent;
use crate::registry::remove_first;

verus! {

/// Build one outgoing message, stamping the sender with the handle's
/// own assigned identity.
pub fn make_message(own: &ID, to: ID, kind: MessageKind, body: String) -> (r: Message)
    ensures
        r@.kind == kind,
        r@.target == to,
        r@.from == *own,
        r@.body == body@,
{
    Message { header: Header { kind, target: to }, body, tail: Tail { from: *own } }
}

/// What the pump does with one message read from the transport: it
/// always forwards the message to the inbound queue, and stops after
/// forwarding a `Close`.
#[derive(Clone, Copy, Debug, PartialEq, Eq, Structural)]
pub enum PumpStep {
    Forward,
    ForwardAndStop,
}

/// Decide the pump's step for one received message.
pub fn pump_step(msg: &Message) -> (r: PumpStep)
    ensures
        r == (if msg@.kind == MessageKind::Close {
            PumpStep::ForwardAndStop
        } else {
            PumpStep::Forward
        }),
{
    if msg.header.kind == MessageKind::Close {
        PumpStep::ForwardAndStop
    } else {
        PumpStep::Forward
    }
}

/// The request a client sends to learn the other registered devices.
pub fn request_registered_devices(own: &ID) -> (r: Message)
    ensures
        r@.kind == MessageKind::GetRegisteredDevices,
        r@.target == ID::Master,
        r@.from == *own,
        r@.body.len() == 0,
{
    Message {
        header: Header { kind: MessageKind::GetRegisteredDevices, target: ID::Master },
        body: String::new(),
        tail: Tail { from: *own },
    }
}

/// One clipboard message per known peer, carrying the new content.
pub fn clipboard_messages(own: &ID, peers: &Vec<ID>, text: &String) -> (r: Vec<Message>)
    ensures
        r@.len() == peers@.len(),
        forall|j: int|
            0 <= j < r@.len() ==> {
                &&& (#[trigger] r@[j])@.kind == MessageKind::Clipboard
                &&& r@[j]@.target == peers@[j]
                &&& r@[j]@.from == *own
                &&& r@[j]@.body == text@
            },
{
    let mut out: Vec<Message> = Vec::new();
    let mut i: usize = 0;
    while i < peers.len()
        invariant
            i <= peers@.len(),
            out@.len() == i,
            forall|j: int|
                0 <= j < i ==> {
                    &&& (#[trigger] out@[j])@.kind == MessageKind::Clipboard
                    &&& out@[j]@.target == peers@[j]
                    &&& out@[j]@.from == *own
                    &&& out@[j]@.body == text@
                },
        decreases peers@.len() - i,
    {
        out.push(make_message(own, peers[i], MessageKind::Clipboard, text.clone()));
        i += 1;
    }
    out
}

/// Remove the first entry equal to `target`, if any.
pub fn remove_on_match(v: &mut Vec<ID>, target: &ID)
    ensures
        final(v)@ == remove_first(old(v)@, *target),
{
    let ghost before = v@;
    let mut i: usize = 0;
    while i < v.len()
        invariant
            i <= v@.len(),
            v@ == before,
            before == old(v)@,
            forall|k: int| 0 <= k < i ==> before[k] != *target,
        decreases v@.len() - i,
    {
        if v[i] == *target {
            v.remove(i);
            proof {
                lemma_remove_at_is_remove_first(before, *target, i as int);
            }
            return ;
        }
        i += 1;
    }
    proof {
        assert(!before.contains(*target));
        lemma_remove_first_absent(before, *target);
    }
}

/// Apply one received message to the client's peer bookkeeping: a
/// clipboard message yields its text for the local clipboard, a
/// `NewRegisteredDevice` adds the named peer, a
/// `ClosedRegisteredDevice` removes it, anything else changes nothing.
/// A body that does not decode to an identity is the error it failed
/// with, and the peers are left alone.
pub fn apply_peer_update(peers: &mut Vec<ID>, msg: &Message) -> (r: Result<
    Option<String>,
    DecodeError,
>)
    ensures
        match r {
            Ok(opt) => match msg@.kind {
                MessageKind::Clipboard => {
                    &&& opt is Some
                    &&& opt.unwrap()@ == msg@.body
                    &&& final(peers)@ == old(peers)@
                },
                MessageKind::NewRegisteredDevice => {
                    &&& opt is None
                    &&& parse_id_text(encode_utf8(msg@.body)) is Ok
                    &&& final(peers)@ == old(peers)@.push(
                        parse_id_text(encode_utf8(msg@.body)).unwrap(),
                    )
                },
                MessageKind::ClosedRegisteredDevice => {
                    &&& opt is None
                    &&& parse_id_text(encode_utf8(msg@.body)) is Ok
                    &&& final(peers)@ == remove_first(
                        old(peers)@,
                        parse_id_text(encode_utf8(msg@.body)).unwrap(),
                    )
                },
                _ => {
                    &&& opt is None
                    &&& final(peers)@ == old(peers)@
                },
            },
            Err(e) => {
                &&& (msg@.kind == MessageKind::NewRegisteredDevice || msg@.kind
                    == MessageKind::ClosedRegisteredDevice)
                &&& parse_id_text(encode_utf8(msg@.body)) == Err::<ID, DecodeError>(e)
                &&& final(peers)@ == old(peers)@
            },
        },
{
    match msg.header.kind {
        MessageKind::Clipboard => Ok(Some(msg.body.clone())),
        MessageKind::NewRegisteredDevice => {
            match decode_id(msg.body.as_str()) {
                Ok(id) => {
                    peers.push(id);
                    Ok(None)
                },
                Err(e) => Err(e),
            }
        },
        MessageKind::ClosedRegisteredDevice => {
            match decode_id(msg.body.as_str()) {
                Ok(id) => {
                    remove_on_match(peers, &id);
                    Ok(None)
                },
                Err(e) => Err(e),
            }
        },
        _ => Ok(None),
    }
}

} // verus!
