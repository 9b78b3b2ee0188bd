//! The master-side registry, handler and routing, driven through the
//! same scenarios a running relay would see.

use crosslive::client::apply_peer_update;
use crosslive::client::clipboard_messages;
use crosslive::client::make_message;
use crosslive::client::pump_step;
use crosslive::client::remove_on_match;
use crosslive::client::request_registered_devices;
use crosslive::client::PumpStep;
use crosslive::errors::DecodeError;
use crosslive::errors::ProtocolError;
use crosslive::handler::default_close;
use crosslive::handler::default_get_reg_devices;
use crosslive::handler::default_handle;
use crosslive::handler::default_register;
use crosslive::handler::inform_update_reg;
use crosslive::idcodec::decode_id;
use crosslive::idcodec::decode_id_list;
use crosslive::messages::Message;
use crosslive::messages::MessageKind;
use crosslive::messages::ID;
use crosslive::registry::Registry;
use crosslive::relay::filter_broadcast;
use crosslive::relay::route_incoming;
use crosslive::relay::RelayRoute;
use crosslive::wire::decode_message;
use crosslive::wire::encode_message;

const U1: ID = ID::Device(1);
const U2: ID = ID::Device(2);
const U3: ID = ID::Device(3);

fn registry_with(ids: &[ID]) -> Registry {
    let mut reg = Registry::new();
    for id in ids {
        assert!(reg.register(*id));
    }
    reg
}

#[test]
fn registry_rejects_duplicates_and_non_devices() {
    let mut reg = registry_with(&[U1, U2]);
    assert_eq!(reg.len(), 2);
    assert!(!reg.register(U1));
    assert!(!reg.register(ID::Master));
    assert!(!reg.register(ID::Unregistered));
    assert_eq!(reg.len(), 2);
    assert!(reg.contains(&U1) && reg.contains(&U2));
}

#[test]
fn registry_close_removes_exactly_the_closed_id() {
    let mut reg = registry_with(&[U1, U2, U3]);
    assert!(reg.close(&U2));
    assert_eq!(reg.len(), 2);
    assert!(!reg.contains(&U2));
    assert!(reg.contains(&U1) && reg.contains(&U3));
    assert!(!reg.close(&U2));
}

#[test]
fn register_scenario_assigns_device_and_replies() {
    let mut reg = Registry::new();
    let mut own = ID::Unregistered;
    let out = default_handle(&Message::register(), &mut reg, &mut own).unwrap();
    assert!(!out.close);
    let assigned = own;
    assert!(matches!(assigned, ID::Device(_)));
    assert_eq!(reg.len(), 1);
    assert!(reg.contains(&assigned));
    // the reply goes to the new device and its body decodes to the new identity
    assert_eq!(out.publishes.len(), 1);
    let reply = &out.publishes[0];
    assert_eq!(reply.header.kind, MessageKind::Reply);
    assert_eq!(reply.header.target, assigned);
    assert_eq!(reply.tail.from, ID::Master);
    assert_eq!(ID::from_register_reply(reply), Ok(assigned));
}

#[test]
fn register_informs_every_existing_device_once() {
    let mut reg = registry_with(&[U1, U2]);
    let mut own = ID::Unregistered;
    let publishes = default_register(&mut reg, &mut own, U3).unwrap();
    assert_eq!(own, U3);
    assert_eq!(publishes.len(), 3);
    assert_eq!(publishes[0].header.target, U3);
    for (inform, expected) in publishes[1..].iter().zip([U1, U2]) {
        assert_eq!(inform.header.kind, MessageKind::NewRegisteredDevice);
        assert_eq!(inform.header.target, expected);
        assert_eq!(decode_id(&inform.body), Ok(U3));
    }
}

#[test]
fn register_collision_changes_nothing() {
    let mut reg = registry_with(&[U1]);
    let mut own = ID::Unregistered;
    let r = default_register(&mut reg, &mut own, U1);
    assert_eq!(r.unwrap_err(), ProtocolError::AlreadyRegistered);
    assert_eq!(own, ID::Unregistered);
    assert_eq!(reg.len(), 1);
}

#[test]
fn get_registered_devices_excludes_the_asker() {
    let reg = registry_with(&[U1, U2, U3]);
    let request = request_registered_devices(&U2);
    assert_eq!(request.header.kind, MessageKind::GetRegisteredDevices);
    assert_eq!(request.header.target, ID::Master);
    let reply = default_get_reg_devices(&reg, &U2, &request);
    assert_eq!(reply.header.kind, MessageKind::Reply);
    assert_eq!(reply.header.target, U2);
    let listed = decode_id_list(&reply.body).unwrap();
    assert_eq!(listed, vec![U1, U3]);
}

#[test]
fn close_scenario_removes_and_informs_the_rest() {
    let mut reg = registry_with(&[U1, U2]);
    let mut own = U1;
    let close_msg = make_message(&U1, ID::Master, MessageKind::Close, String::new());
    let out = default_handle(&close_msg, &mut reg, &mut own).unwrap();
    assert!(out.close);
    assert_eq!(reg.len(), 1);
    assert!(!reg.contains(&U1));
    assert!(reg.contains(&U2));
    // exactly one departing notice, delivered to the one remaining device
    assert_eq!(out.publishes.len(), 1);
    let notice = &out.publishes[0];
    assert_eq!(notice.header.kind, MessageKind::ClosedRegisteredDevice);
    assert_eq!(notice.header.target, U2);
    assert_eq!(decode_id(&notice.body), Ok(U1));
    assert!(filter_broadcast(&U2, notice));
    assert!(!filter_broadcast(&U1, notice));
    assert!(!filter_broadcast(&U3, notice));
}

#[test]
fn close_without_registration_is_a_protocol_error() {
    let mut reg = Registry::new();
    let r = default_close(&mut reg, &U1);
    assert_eq!(r.unwrap_err(), ProtocolError::NotInRegistry);
    assert_eq!(reg.len(), 0);
    assert!(!ProtocolError::NotInRegistry.describe().is_empty());
}

#[test]
fn inform_update_reg_skips_own_id() {
    let reg = registry_with(&[U1, U2, U3]);
    let informs = inform_update_reg(&reg, &U2, MessageKind::ClosedRegisteredDevice);
    let targets: Vec<ID> = informs.iter().map(|m| m.header.target).collect();
    assert_eq!(targets, vec![U1, U3]);
}

#[test]
fn routing_by_target() {
    let to_master = make_message(&U1, ID::Master, MessageKind::Register, String::new());
    let to_nobody = make_message(&U1, ID::Unregistered, MessageKind::Clipboard, String::new());
    let to_device = make_message(&U1, U2, MessageKind::Clipboard, String::new());
    assert_eq!(route_incoming(&to_master), RelayRoute::HandleAsMaster);
    assert_eq!(route_incoming(&to_nobody), RelayRoute::Discard);
    assert_eq!(route_incoming(&to_device), RelayRoute::Publish);
}

#[test]
fn broadcast_reaches_only_the_target() {
    let m = make_message(&U1, U2, MessageKind::Clipboard, "hello".to_string());
    assert!(filter_broadcast(&U2, &m));
    assert!(!filter_broadcast(&U1, &m));
    assert!(!filter_broadcast(&U3, &m));
    assert!(!filter_broadcast(&ID::Master, &m));
    assert!(!filter_broadcast(&ID::Unregistered, &m));
}

#[test]
fn clipboard_scenario_end_to_end() {
    // two registered devices; the first shares "hello" with the second
    let m = make_message(&U1, U2, MessageKind::Clipboard, "hello".to_string());
    assert_eq!(route_incoming(&m), RelayRoute::Publish);
    assert!(filter_broadcast(&U2, &m));
    assert_eq!(pump_step(&m), PumpStep::Forward);
    let mut peers = vec![U1];
    let got = apply_peer_update(&mut peers, &m).unwrap();
    assert_eq!(got.as_deref(), Some("hello"));
    assert_eq!(m.header.kind, MessageKind::Clipboard);
    assert_eq!(peers, vec![U1]);
}

#[test]
fn pump_stops_after_forwarding_a_close() {
    let close = make_message(&ID::Master, U1, MessageKind::Close, String::new());
    assert_eq!(pump_step(&close), PumpStep::ForwardAndStop);
    let reply = make_message(&ID::Master, U1, MessageKind::Reply, String::new());
    assert_eq!(pump_step(&reply), PumpStep::Forward);
}

#[test]
fn peer_bookkeeping_follows_device_notices() {
    let mut peers: Vec<ID> = Vec::new();
    let joined = make_message(
        &ID::Master,
        U1,
        MessageKind::NewRegisteredDevice,
        crosslive::idcodec::encode_id(&U2),
    );
    assert_eq!(apply_peer_update(&mut peers, &joined).unwrap(), None);
    assert_eq!(peers, vec![U2]);
    let left = make_message(
        &ID::Master,
        U1,
        MessageKind::ClosedRegisteredDevice,
        crosslive::idcodec::encode_id(&U2),
    );
    assert_eq!(apply_peer_update(&mut peers, &left).unwrap(), None);
    assert_eq!(peers, Vec::new());
}

#[test]
fn peer_bookkeeping_rejects_bad_bodies() {
    let mut peers = vec![U1];
    let bad = make_message(&ID::Master, U1, MessageKind::NewRegisteredDevice, "?".to_string());
    assert_eq!(apply_peer_update(&mut peers, &bad).unwrap_err(), DecodeError::BadTag);
    assert_eq!(peers, vec![U1]);
}

#[test]
fn remove_on_match_takes_the_first_hit_only() {
    let mut v = vec![U1, U2, U1];
    remove_on_match(&mut v, &U1);
    assert_eq!(v, vec![U2, U1]);
    remove_on_match(&mut v, &U3);
    assert_eq!(v, vec![U2, U1]);
}

#[test]
fn clipboard_messages_cover_every_peer() {
    let peers = vec![U2, U3];
    let text = "shared".to_string();
    let msgs = clipboard_messages(&U1, &peers, &text);
    assert_eq!(msgs.len(), 2);
    for (m, target) in msgs.iter().zip([U2, U3]) {
        assert_eq!(m.header.kind, MessageKind::Clipboard);
        assert_eq!(m.header.target, target);
        assert_eq!(m.tail.from, U1);
        assert_eq!(m.body, "shared");
    }
}

#[test]
fn new_slave_mints_devices() {
    let a = ID::new_slave();
    assert!(matches!(a, ID::Device(_)));
}

#[test]
fn register_handshake_over_the_wire() {
    // the client frames a register message; the master decodes, handles,
    // and replies; the client decodes the reply and learns its identity
    let client_msg = Message::register();
    let on_wire = encode_message(&client_msg).unwrap();
    let at_master = decode_message(&on_wire).unwrap();
    assert_eq!(at_master, client_msg);
    assert_eq!(route_incoming(&at_master), RelayRoute::HandleAsMaster);

    let mut reg = Registry::new();
    let mut own = ID::Unregistered;
    let out = default_handle(&at_master, &mut reg, &mut own).unwrap();
    let reply_wire = encode_message(&out.publishes[0]).unwrap();
    let at_client = decode_message(&reply_wire).unwrap();
    assert!(filter_broadcast(&own, &at_client));
    assert_eq!(ID::from_register_reply(&at_client), Ok(own));
}
