//! The master-addressed handler: what the relay does with a message
//! whose target is the master itself. Registering mints an identity,
//! stores it, replies to the new device and informs the others; listing
//! replies with every other registered device; closing removes the
//! caller and informs the rest. The handler is a capability the relay
//! loop invokes, replaceable by another policy.

use vstd::prelude::*;
use vstd::utf8::encode_utf8;
use crate::errors::DecodeError;
use crate::errors::ProtocolError;
use crate::idcodec::encode_id;
use crate::idcodec::encode_id_list;
use crate::idcodec::lemma_id_list_round_trip;
use crate::idcodec::lemma_id_text_round_trip;
use crate::idcodec::parse_id_list_text;
use crate::idcodec::parse_id_text;
use crate::messages::Header;
use crate::messages::ID;
use crate::messages::Message;
use crate::messages::MessageKind;
use crate::messages::MessageView;
use crate::messages::Tail;
use crate::registry::lemma_others_of;
use crate::registry::lemma_others_of_snoc;
use crate::registry::others_of;
use crate::registry::registry_wf;
use crate::registry::remove_first;
use crate::registry::Registry;

verus! {

/// One batch of update messages: one per entry of `targets`, all of one
/// kind, all from the master, each naming `subject` in its body.
pub open spec fn informs_ok(
    msgs: Seq<Message>,
    kind: MessageKind,
    targets: Seq<ID>,
    subject: ID,
) -> bool {
    &&& msgs.len() == targets.len()
    &&& forall|j: int|
        0 <= j < msgs.len() ==> {
            &&& (#[trigger] msgs[j])@.kind == kind
            &&& msgs[j]@.target == targets[j]
            &&& msgs[j]@.from == ID::Master
            &&& parse_id_text(encode_utf8(msgs[j]@.body)) == Ok::<ID, DecodeError>(subject)
        }
}

/// The reply a fresh registration earns: addressed to the new identity,
/// naming it in the body.
pub open spec fn register_reply_ok(m: MessageView, new_id: ID) -> bool {
    &&& m.kind == MessageKind::Reply
    &&& m.target == new_id
    &&& m.from == ID::Master
    &&& parse_id_text(encode_utf8(m.body)) == Ok::<ID, DecodeError>(new_id)
}

/// Everything a successful registration publishes: the reply first,
/// then one `NewRegisteredDevice` per previously registered device.
pub open spec fn register_publishes_ok(old_reg: Seq<ID>, new_id: ID, msgs: Seq<Message>) -> bool {
    &&& msgs.len() == 1 + old_reg.len()
    &&& register_reply_ok(msgs[0]@, new_id)
    &&& informs_ok(msgs.skip(1), MessageKind::NewRegisteredDevice, old_reg, new_id)
}

/// The reply to a device-list request: addressed back to the asker,
/// listing exactly the given identities in the body.
pub open spec fn devices_reply_ok(m: MessageView, reply_to: ID, listed: Seq<ID>) -> bool {
    &&& m.kind == MessageKind::Reply
    &&& m.target == reply_to
    &&& m.from == ID::Master
    &&& parse_id_list_text(encode_utf8(m.body)) == Ok::<Seq<ID>, DecodeError>(listed)
}

/// Build one update message per registered device other than one's own,
/// each naming one's own identity in its body.
pub fn inform_update_reg(registry: &Registry, own_id: &ID, kind: MessageKind) -> (r: Vec<Message>)
    ensures
        informs_ok(r@, kind, others_of(registry@, *own_id), *own_id),
{
    let targets = registry.others(own_id);
    let body = encode_id(own_id);
    proof {
        lemma_id_text_round_trip(*own_id);
    }
    let mut out: Vec<Message> = Vec::new();
    let mut i: usize = 0;
    while i < targets.len()
        invariant
            i <= targets@.len(),
            out@.len() == i,
            encode_utf8(body@) == crate::idcodec::id_text_bytes(*own_id),
            parse_id_text(encode_utf8(body@)) == Ok::<ID, DecodeError>(*own_id),
            forall|j: int|
                0 <= j < i ==> {
                    &&& (#[trigger] out@[j])@.kind == kind
                    &&& out@[j]@.target == targets@[j]
                    &&& out@[j]@.from == ID::Master
                    &&& parse_id_text(encode_utf8(out@[j]@.body)) == Ok::<ID, DecodeError>(*own_id)
                },
        decreases targets@.len() - i,
    {
        out.push(
            Message {
                header: Header { kind, target: targets[i] },
                body: body.clone(),
                tail: Tail { from: ID::Master },
            },
        );
        i += 1;
    }
    out
}

/// Store a freshly minted device identity as the connection's own,
/// append it to the registry, reply to the new device, and inform every
/// previously registered device. Refused — leaving everything alone —
/// when the minted identity is already registered, so the registry
/// invariant holds whatever identity was minted.
pub fn default_register(registry: &mut Registry, own_id: &mut ID, new_id: ID) -> (r: Result<
    Vec<Message>,
    ProtocolError,
>)
    requires
        old(registry).wf(),
        new_id is Device,
    ensures
        final(registry).wf(),
        match r {
            Ok(msgs) => {
                &&& !old(registry)@.contains(new_id)
                &&& final(registry)@ == old(registry)@.push(new_id)
                &&& *final(own_id) == new_id
                &&& register_publishes_ok(old(registry)@, new_id, msgs@)
            },
            Err(e) => {
                &&& e == ProtocolError::AlreadyRegistered
                &&& old(registry)@.contains(new_id)
                &&& final(registry)@ == old(registry)@
                &&& *final(own_id) == *old(own_id)
            },
        },
{
    let ghost old_reg = registry@;
    if !registry.register(new_id) {
        return Err(ProtocolError::AlreadyRegistered);
    }
    *own_id = new_id;
    let body = encode_id(&new_id);
    proof {
        lemma_id_text_round_trip(new_id);
    }
    let mut msgs: Vec<Message> = Vec::new();
    msgs.push(
        Message {
            header: Header { kind: MessageKind::Reply, target: new_id },
            body,
            tail: Tail { from: ID::Master },
        },
    );
    let own_now = *own_id;
    let informs = inform_update_reg(registry, &own_now, MessageKind::NewRegisteredDevice);
    proof {
        lemma_others_of(old_reg, new_id);
        lemma_others_of_snoc(old_reg, new_id, new_id);
        assert(others_of(registry@, new_id) == old_reg);
    }
    let mut tail = informs;
    let ghost reply_view = msgs@[0];
    msgs.append(&mut tail);
    proof {
        assert(msgs@[0] == reply_view);
        assert(msgs@.skip(1) =~= informs@);
    }
    Ok(msgs)
}

/// Reply with every registered device other than the asker's own.
pub fn default_get_reg_devices(registry: &Registry, own_id: &ID, msg: &Message) -> (r: Message)
    requires
        registry.wf(),
    ensures
        devices_reply_ok(r@, msg@.from, others_of(registry@, *own_id)),
{
    let listed = registry.others(own_id);
    let body = encode_id_list(&listed);
    proof {
        lemma_id_list_round_trip(listed@);
    }
    Message {
        header: Header { kind: MessageKind::Reply, target: msg.tail.from },
        body,
        tail: Tail { from: ID::Master },
    }
}

/// Remove the caller's own identity from the registry and inform every
/// remaining registered device. Fails — leaving the registry alone —
/// when the identity is not registered.
pub fn default_close(registry: &mut Registry, own_id: &ID) -> (r: Result<
    Vec<Message>,
    ProtocolError,
>)
    requires
        old(registry).wf(),
    ensures
        final(registry).wf(),
        match r {
            Ok(msgs) => {
                &&& old(registry)@.contains(*own_id)
                &&& final(registry)@ == remove_first(old(registry)@, *own_id)
                &&& !final(registry)@.contains(*own_id)
                &&& informs_ok(
                    msgs@,
                    MessageKind::ClosedRegisteredDevice,
                    final(registry)@,
                    *own_id,
                )
            },
            Err(e) => {
                &&& e == ProtocolError::NotInRegistry
                &&& !old(registry)@.contains(*own_id)
                &&& final(registry)@ == old(registry)@
            },
        },
{
    let ghost old_reg = registry@;
    proof {
        crate::registry::lemma_remove_first(old_reg, *own_id);
    }
    if !registry.close(own_id) {
        return Err(ProtocolError::NotInRegistry);
    }
    let informs = inform_update_reg(registry, own_id, MessageKind::ClosedRegisteredDevice);
    proof {
        lemma_others_of(registry@, *own_id);
        assert(others_of(registry@, *own_id) == registry@);
    }
    Ok(informs)
}

/// What one handler invocation hands back to the relay loop: the
/// messages to publish on the bus, and whether to end this connection.
pub struct HandlerOutcome {
    pub publishes: Vec<Message>,
    pub close: bool,
}

/// The capability the relay loop invokes for messages addressed to the
/// master. Any policy must keep the registry invariant.
pub trait MessageHandler: Sized {
    fn handle(&mut self, msg: &Message, registry: &mut Registry, own_id: &mut ID) -> (r: Result<
        HandlerOutcome,
        ProtocolError,
    >)
        requires
            old(registry).wf(),
        ensures
            final(registry).wf(),
    ;
}

/// The default relay policy described above.
#[derive(Clone, Copy, Debug)]
pub struct DefaultMessageHandler;

/// The default policy, spelled out: what `default_handle` returns and
/// changes for each message kind.
pub open spec fn default_handle_post(
    msg: MessageView,
    old_reg: Seq<ID>,
    new_reg: Seq<ID>,
    old_own: ID,
    new_own: ID,
    r: Result<HandlerOutcome, ProtocolError>,
) -> bool {
    match r {
        Ok(out) => {
            &&& (out.close <==> msg.kind == MessageKind::Close)
            &&& match msg.kind {
                MessageKind::Register => {
                    &&& new_own is Device
                    &&& !old_reg.contains(new_own)
                    &&& new_reg == old_reg.push(new_own)
                    &&& register_publishes_ok(old_reg, new_own, out.publishes@)
                },
                MessageKind::GetRegisteredDevices => {
                    &&& new_reg == old_reg
                    &&& new_own == old_own
                    &&& out.publishes@.len() == 1
                    &&& devices_reply_ok(
                        out.publishes@[0]@,
                        msg.from,
                        others_of(old_reg, old_own),
                    )
                },
                MessageKind::Close => {
                    &&& old_reg.contains(old_own)
                    &&& new_reg == remove_first(old_reg, old_own)
                    &&& !new_reg.contains(old_own)
                    &&& new_own == old_own
                    &&& informs_ok(
                        out.publishes@,
                        MessageKind::ClosedRegisteredDevice,
                        new_reg,
                        old_own,
                    )
                },
                _ => {
                    &&& new_reg == old_reg
                    &&& new_own == old_own
                    &&& out.publishes@.len() == 0
                },
            }
        },
        Err(e) => match msg.kind {
            MessageKind::Register => {
                &&& e == ProtocolError::AlreadyRegistered
                &&& old_reg.len() > 0
                &&& new_reg == old_reg
                &&& new_own == old_own
            },
            MessageKind::Close => {
                &&& e == ProtocolError::NotInRegistry
                &&& !old_reg.contains(old_own)
                &&& new_reg == old_reg
                &&& new_own == old_own
            },
            _ => false,
        },
    }
}

/// React to one master-addressed message with the default policy,
/// minting the new identity for a registration from the given bits.
pub fn default_handle(msg: &Message, registry: &mut Registry, own_id: &mut ID) -> (r: Result<
    HandlerOutcome,
    ProtocolError,
>)
    requires
        old(registry).wf(),
    ensures
        final(registry).wf(),
        default_handle_post(msg@, old(registry)@, final(registry)@, *old(own_id), *final(own_id), r),
{
    match msg.header.kind {
        MessageKind::Register => {
            let new_id = ID::new_slave();
            match default_register(registry, own_id, new_id) {
                Ok(publishes) => Ok(HandlerOutcome { publishes, close: false }),
                Err(e) => Err(e),
            }
        },
        MessageKind::GetRegisteredDevices => {
            let own_now = *own_id;
            let reply = default_get_reg_devices(registry, &own_now, msg);
            let mut publishes: Vec<Message> = Vec::new();
            publishes.push(reply);
            Ok(HandlerOutcome { publishes, close: false })
        },
        MessageKind::Close => {
            let own_now = *own_id;
            match default_close(registry, &own_now) {
                Ok(publishes) => Ok(HandlerOutcome { publishes, close: true }),
                Err(e) => Err(e),
            }
        },
        _ => {
            let publishes: Vec<Message> = Vec::new();
            Ok(HandlerOutcome { publishes, close: false })
        },
    }
}

impl MessageHandler for DefaultMessageHandler {
    fn handle(&mut self, msg: &Message, registry: &mut Registry, own_id: &mut ID) -> (r: Result<
        HandlerOutcome,
        ProtocolError,
    >) {
        default_handle(msg, registry, own_id)
    }
}

} // verus!
