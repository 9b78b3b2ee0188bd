//! The wire form of a message: a self-describing binary encoding, and a
//! length-prefixed frame around it so that a stream reader always reads
//! exactly one complete encoded message. One message is the kind tag,
//! the target identity, the sender identity, and the body as its UTF-8
//! bytes behind a four-byte little-endian length. An identity is a tag
//! byte, followed for a device by the sixteen little-endian bytes of
//! its UUID bits.

use vstd::prelude::*;
use vstd::bytes::*;
use vstd::slice::slice_to_vec;
use vstd::utf8::decode_utf8;
use vstd::utf8::encode_utf8;
use vstd::utf8::encode_utf8_decode_utf8;
use vstd::utf8::encode_utf8_valid_utf8;
use vstd::utf8::valid_utf8;
use crate::errors::DecodeError;
use crate::messages::Header;
use crate::messages::ID;
use crate::messages::Message;
use crate::messages::MessageKind;
use crate::messages::MessageView;
use crate::messages::Tail;
use crate::strbytes::string_from_utf8;

verus! {

/// The tag byte of each message kind.
pub open spec fn kind_byte(k: MessageKind) -> u8 {
    match k {
        MessageKind::Register => 0,
        MessageKind::Close => 1,
        MessageKind::Reply => 2,
        MessageKind::GetRegisteredDevices => 3,
        MessageKind::NewRegisteredDevice => 4,
        MessageKind::ClosedRegisteredDevice => 5,
        MessageKind::Clipboard => 6,
    }
}

/// The kind a tag byte names, if any.
pub open spec fn kind_of_byte(b: u8) -> Option<MessageKind> {
    if b == 0 {
        Some(MessageKind::Register)
    } else if b == 1 {
        Some(MessageKind::Close)
    } else if b == 2 {
        Some(MessageKind::Reply)
    } else if b == 3 {
        Some(MessageKind::GetRegisteredDevices)
    } else if b == 4 {
        Some(MessageKind::NewRegisteredDevice)
    } else if b == 5 {
        Some(MessageKind::ClosedRegisteredDevice)
    } else if b == 6 {
        Some(MessageKind::Clipboard)
    } else {
        None
    }
}

/// The wire bytes of one identity.
pub open spec fn id_wire_bytes(id: ID) -> Seq<u8> {
    match id {
        ID::Master => seq![0u8],
        ID::Unregistered => seq![1u8],
        ID::Device(u) => seq![2u8] + spec_u128_to_le_bytes(u),
    }
}

/// One identity read from position `i` of a wire text, with the
/// position after it.
pub open spec fn parse_wire_id_at(t: Seq<u8>, i: int) -> Result<(ID, int), DecodeError> {
    if i < 0 || i >= t.len() {
        Err(DecodeError::Truncated)
    } else if t[i] == 0 {
        Ok((ID::Master, i + 1))
    } else if t[i] == 1 {
        Ok((ID::Unregistered, i + 1))
    } else if t[i] == 2 {
        if i + 17 <= t.len() {
            Ok((ID::Device(spec_u128_from_le_bytes(t.subrange(i + 1, i + 17))), i + 17))
        } else {
            Err(DecodeError::Truncated)
        }
    } else {
        Err(DecodeError::BadTag)
    }
}

/// The wire bytes of one whole message.
pub open spec fn spec_encode_message(v: MessageView) -> Seq<u8> {
    seq![kind_byte(v.kind)] + id_wire_bytes(v.target) + id_wire_bytes(v.from)
        + spec_u32_to_le_bytes(encode_utf8(v.body).len() as u32) + encode_utf8(v.body)
}

/// The message a whole wire text spells, with nothing left over.
pub open spec fn spec_decode_message(t: Seq<u8>) -> Result<MessageView, DecodeError> {
    if t.len() < 1 {
        Err(DecodeError::Truncated)
    } else {
        match kind_of_byte(t[0]) {
            None => Err(DecodeError::BadTag),
            Some(kind) => match parse_wire_id_at(t, 1) {
                Err(e) => Err(e),
                Ok((target, a)) => match parse_wire_id_at(t, a) {
                    Err(e) => Err(e),
                    Ok((from, b)) => if b + 4 > t.len() {
                        Err(DecodeError::Truncated)
                    } else {
                        let len = spec_u32_from_le_bytes(t.subrange(b, b + 4)) as int;
                        if b + 4 + len > t.len() {
                            Err(DecodeError::Truncated)
                        } else if b + 4 + len < t.len() {
                            Err(DecodeError::TrailingBytes)
                        } else {
                            let body = t.subrange(b + 4, t.len() as int);
                            if valid_utf8(body) {
                                Ok(
                                    MessageView {
                                        kind,
                                        target,
                                        from,
                                        body: decode_utf8(body),
                                    },
                                )
                            } else {
                                Err(DecodeError::InvalidUtf8)
                            }
                        }
                    },
                },
            },
        }
    }
}

/// An identity's wire bytes, read back from inside a longer text, yield
/// that identity and stop right after it.
proof fn lemma_parse_wire_id_prefix(t: Seq<u8>, i: int, id: ID)
    requires
        0 <= i,
        i + id_wire_bytes(id).len() <= t.len(),
        t.subrange(i, i + id_wire_bytes(id).len() as int) == id_wire_bytes(id),
    ensures
        parse_wire_id_at(t, i) == Ok::<(ID, int), DecodeError>((id, i + id_wire_bytes(id).len())),
{
    lemma_auto_spec_u128_to_from_le_bytes();
    match id {
        ID::Master => {
            assert(t[i] == id_wire_bytes(id)[0]);
        },
        ID::Unregistered => {
            assert(t[i] == id_wire_bytes(id)[0]);
        },
        ID::Device(u) => {
            let le = spec_u128_to_le_bytes(u);
            assert(id_wire_bytes(id).len() == 17);
            assert(t[i] == id_wire_bytes(id)[0]);
            assert(t[i] == 2);
            assert(t.subrange(i + 1, i + 17) =~= le) by {
                assert forall|k: int| 0 <= k < 16 implies t.subrange(i + 1, i + 17)[k]
                    == le[k] by {
                    assert(t.subrange(i, i + 17)[k + 1] == id_wire_bytes(id)[k + 1]);
                }
            }
        },
    }
}

/// Round trip: the wire bytes of any message whose body fits the length
/// prefix decode back to an equal message.
pub proof fn lemma_message_round_trip(v: MessageView)
    requires
        encode_utf8(v.body).len() <= u32::MAX,
    ensures
        spec_decode_message(spec_encode_message(v)) == Ok::<MessageView, DecodeError>(v),
{
    lemma_auto_spec_u32_to_from_le_bytes();
    let t = spec_encode_message(v);
    let tid = id_wire_bytes(v.target);
    let fid = id_wire_bytes(v.from);
    let body = encode_utf8(v.body);
    let lenb = spec_u32_to_le_bytes(body.len() as u32);
    let a = 1 + tid.len() as int;
    let b = a + fid.len() as int;
    assert(lenb.len() == 4);
    assert(t.len() == b + 4 + body.len());
    assert(t[0] == kind_byte(v.kind));
    assert(kind_of_byte(kind_byte(v.kind)) == Some(v.kind));
    assert(t.subrange(1, a) =~= tid);
    lemma_parse_wire_id_prefix(t, 1, v.target);
    assert(t.subrange(a, b) =~= fid);
    lemma_parse_wire_id_prefix(t, a, v.from);
    assert(t.subrange(b, b + 4) =~= lenb);
    assert(spec_u32_from_le_bytes(lenb) == body.len() as u32);
    assert(t.subrange(b + 4, t.len() as int) =~= body);
    encode_utf8_valid_utf8(v.body);
    encode_utf8_decode_utf8(v.body);
}

fn kind_tag(k: &MessageKind) -> (r: u8)
    ensures
        r == kind_byte(*k),
{
    match k {
        MessageKind::Register => 0,
        MessageKind::Close => 1,
        MessageKind::Reply => 2,
        MessageKind::GetRegisteredDevices => 3,
        MessageKind::NewRegisteredDevice => 4,
        MessageKind::ClosedRegisteredDevice => 5,
        MessageKind::Clipboard => 6,
    }
}

fn tag_kind(b: u8) -> (r: Option<MessageKind>)
    ensures
        r == kind_of_byte(b),
{
    if b == 0 {
        Some(MessageKind::Register)
    } else if b == 1 {
        Some(MessageKind::Close)
    } else if b == 2 {
        Some(MessageKind::Reply)
    } else if b == 3 {
        Some(MessageKind::GetRegisteredDevices)
    } else if b == 4 {
        Some(MessageKind::NewRegisteredDevice)
    } else if b == 5 {
        Some(MessageKind::ClosedRegisteredDevice)
    } else if b == 6 {
        Some(MessageKind::Clipboard)
    } else {
        None
    }
}

fn id_wire_vec(id: &ID) -> (r: Vec<u8>)
    ensures
        r@ == id_wire_bytes(*id),
{
    let mut out: Vec<u8> = Vec::new();
    match id {
        ID::Master => {
            out.push(0);
        },
        ID::Unregistered => {
            out.push(1);
        },
        ID::Device(u) => {
            out.push(2);
            let mut le = u128_to_le_bytes(*u);
            out.append(&mut le);
        },
    }
    proof {
        assert(out@ =~= id_wire_bytes(*id));
    }
    out
}

/// Encode one message for the wire. Nothing comes back only when the
/// body's UTF-8 bytes outgrow the four-byte length prefix.
pub fn encode_message(m: &Message) -> (r: Option<Vec<u8>>)
    ensures
        match r {
            Some(v) => encode_utf8(m@.body).len() <= u32::MAX && v@ == spec_encode_message(m@),
            None => encode_utf8(m@.body).len() > u32::MAX,
        },
{
    let body = m.body.as_str().as_bytes();
    if body.len() > u32::MAX as usize {
        return None;
    }
    let mut out: Vec<u8> = Vec::new();
    out.push(kind_tag(&m.header.kind));
    let mut tid = id_wire_vec(&m.header.target);
    out.append(&mut tid);
    let mut fid = id_wire_vec(&m.tail.from);
    out.append(&mut fid);
    let mut lenb = u32_to_le_bytes(body.len() as u32);
    out.append(&mut lenb);
    let mut bodyv = slice_to_vec(body);
    out.append(&mut bodyv);
    proof {
        assert(out@ =~= spec_encode_message(m@));
    }
    Some(out)
}

/// Read one identity out of a wire text, starting at position `i`.
fn parse_wire_id(t: &[u8], i: usize) -> (r: Result<(ID, usize), DecodeError>)
    ensures
        match r {
            Ok((id, n)) => parse_wire_id_at(t@, i as int) == Ok::<(ID, int), DecodeError>(
                (id, n as int),
            ) && i < n <= t@.len(),
            Err(e) => parse_wire_id_at(t@, i as int) == Err::<(ID, int), DecodeError>(e),
        },
{
    if i >= t.len() {
        return Err(DecodeError::Truncated);
    }
    let tag = t[i];
    if tag == 0 {
        Ok((ID::Master, i + 1))
    } else if tag == 1 {
        Ok((ID::Unregistered, i + 1))
    } else if tag == 2 {
        if t.len() - i < 17 {
            return Err(DecodeError::Truncated);
        }
        let le = &t[i + 1..i + 17];
        let value = u128_from_le_bytes(le);
        Ok((ID::Device(value), i + 17))
    } else {
        Err(DecodeError::BadTag)
    }
}

/// Decode one message from exactly the bytes of one wire text.
pub fn decode_message(t: &[u8]) -> (r: Result<Message, DecodeError>)
    ensures
        match r {
            Ok(m) => spec_decode_message(t@) == Ok::<MessageView, DecodeError>(m@),
            Err(e) => spec_decode_message(t@) == Err::<MessageView, DecodeError>(e),
        },
{
    if t.len() < 1 {
        return Err(DecodeError::Truncated);
    }
    let kind = match tag_kind(t[0]) {
        Some(k) => k,
        None => {
            return Err(DecodeError::BadTag);
        },
    };
    let (target, a) = match parse_wire_id(t, 1) {
        Ok(p) => p,
        Err(e) => {
            return Err(e);
        },
    };
    let (from, b) = match parse_wire_id(t, a) {
        Ok(p) => p,
        Err(e) => {
            return Err(e);
        },
    };
    if t.len() - b < 4 {
        return Err(DecodeError::Truncated);
    }
    let lenb = &t[b..b + 4];
    let len32 = u32_from_le_bytes(lenb);
    let len = len32 as usize;
    let remaining = t.len() - (b + 4);
    if len > remaining {
        return Err(DecodeError::Truncated);
    }
    if len < remaining {
        return Err(DecodeError::TrailingBytes);
    }
    let body_slice = &t[b + 4..t.len()];
    let body_vec = slice_to_vec(body_slice);
    let ghost body_bytes = t@.subrange(b + 4, t@.len() as int);
    match string_from_utf8(body_vec) {
        Some(s) => {
            proof {
                encode_utf8_valid_utf8(s@);
                encode_utf8_decode_utf8(s@);
                assert(valid_utf8(body_bytes));
                assert(decode_utf8(body_bytes) == s@);
            }
            Ok(Message { header: Header { kind, target }, body: s, tail: Tail { from } })
        },
        None => Err(DecodeError::InvalidUtf8),
    }
}

/// The framed wire bytes: a four-byte little-endian length, then the
/// message's wire bytes.
pub open spec fn spec_frame(v: MessageView) -> Seq<u8> {
    spec_u32_to_le_bytes(spec_encode_message(v).len() as u32) + spec_encode_message(v)
}

/// The message a whole frame spells, with nothing left over.
pub open spec fn spec_decode_frame(t: Seq<u8>) -> Result<MessageView, DecodeError> {
    if t.len() < 4 {
        Err(DecodeError::Truncated)
    } else {
        let len = spec_u32_from_le_bytes(t.subrange(0, 4)) as int;
        if 4 + len > t.len() {
            Err(DecodeError::Truncated)
        } else if 4 + len < t.len() {
            Err(DecodeError::TrailingBytes)
        } else {
            spec_decode_message(t.skip(4))
        }
    }
}

/// Frame one message for the stream. Nothing comes back only when the
/// encoded message outgrows the four-byte length prefix.
pub fn encode_frame(m: &Message) -> (r: Option<Vec<u8>>)
    ensures
        match r {
            Some(v) => spec_encode_message(m@).len() <= u32::MAX && v@ == spec_frame(m@),
            None => spec_encode_message(m@).len() > u32::MAX,
        },
{
    let payload = match encode_message(m) {
        Some(p) => p,
        None => {
            return None;
        },
    };
    if payload.len() > u32::MAX as usize {
        return None;
    }
    let mut out = u32_to_le_bytes(payload.len() as u32);
    let mut p = payload;
    out.append(&mut p);
    proof {
        assert(out@ =~= spec_frame(m@));
    }
    Some(out)
}

/// The payload length a four-byte frame prefix announces.
pub fn frame_payload_len(prefix: &[u8]) -> (r: usize)
    requires
        prefix@.len() == 4,
    ensures
        r == spec_u32_from_le_bytes(prefix@) as usize,
{
    let len32 = u32_from_le_bytes(prefix);
    len32 as usize
}

/// Decode one message from exactly the bytes of one frame.
pub fn decode_frame(t: &[u8]) -> (r: Result<Message, DecodeError>)
    ensures
        match r {
            Ok(m) => spec_decode_frame(t@) == Ok::<MessageView, DecodeError>(m@),
            Err(e) => spec_decode_frame(t@) == Err::<MessageView, DecodeError>(e),
        },
{
    if t.len() < 4 {
        return Err(DecodeError::Truncated);
    }
    let lenb = &t[0..4];
    let len32 = u32_from_le_bytes(lenb);
    let len = len32 as usize;
    let remaining = t.len() - 4;
    if len > remaining {
        return Err(DecodeError::Truncated);
    }
    if len < remaining {
        return Err(DecodeError::TrailingBytes);
    }
    let payload = &t[4..t.len()];
    proof {
        assert(payload@ =~= t@.skip(4));
    }
    decode_message(payload)
}

/// Round trip: the frame of any message that fits its length prefixes
/// decodes back to an equal message.
pub proof fn lemma_frame_round_trip(v: MessageView)
    requires
        spec_encode_message(v).len() <= u32::MAX,
    ensures
        spec_decode_frame(spec_frame(v)) == Ok::<MessageView, DecodeError>(v),
{
    lemma_auto_spec_u32_to_from_le_bytes();
    let payload = spec_encode_message(v);
    let t = spec_frame(v);
    assert(t.subrange(0, 4) =~= spec_u32_to_le_bytes(payload.len() as u32));
    assert(t.skip(4) =~= payload);
    assert(encode_utf8(v.body).len() <= payload.len());
    lemma_message_round_trip(v);
}

} // verus!
