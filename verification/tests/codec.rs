//! The wire codec and the identity text codec, exercised on concrete
//! values: exact encodings, round trips, and every decode error.

use crosslive::errors::DecodeError;
use crosslive::idcodec::decode_id;
use crosslive::idcodec::decode_id_list;
use crosslive::idcodec::encode_id;
use crosslive::idcodec::encode_id_list;
use crosslive::messages::Header;
use crosslive::messages::Message;
use crosslive::messages::MessageKind;
use crosslive::messages::Tail;
use crosslive::messages::ID;
use crosslive::wire::decode_frame;
use crosslive::wire::decode_message;
use crosslive::wire::encode_frame;
use crosslive::wire::encode_message;
use crosslive::wire::frame_payload_len;

fn msg(kind: MessageKind, target: ID, from: ID, body: &str) -> Message {
    Message {
        header: Header { kind, target },
        body: body.to_string(),
        tail: Tail { from },
    }
}

#[test]
fn id_text_exact_master_and_unregistered() {
    assert_eq!(encode_id(&ID::Master), "M");
    assert_eq!(encode_id(&ID::Unregistered), "U");
}

#[test]
fn id_text_exact_device() {
    let zero = "D00000000000000000000000000000000";
    assert_eq!(encode_id(&ID::Device(0)), zero);
    // least significant byte first: one encodes as 01 then fifteen 00 pairs
    let one = "D01000000000000000000000000000000";
    assert_eq!(encode_id(&ID::Device(1)), one);
}

#[test]
fn id_text_round_trip() {
    for id in [
        ID::Master,
        ID::Unregistered,
        ID::Device(0),
        ID::Device(1),
        ID::Device(u128::MAX),
        ID::Device(0x0123_4567_89ab_cdef_0123_4567_89ab_cdef),
    ] {
        let text = encode_id(&id);
        assert_eq!(decode_id(&text), Ok(id));
    }
}

#[test]
fn id_text_errors() {
    assert_eq!(decode_id(""), Err(DecodeError::Truncated));
    assert_eq!(decode_id("X"), Err(DecodeError::BadTag));
    assert_eq!(decode_id("D"), Err(DecodeError::Truncated));
    assert_eq!(decode_id("MM"), Err(DecodeError::TrailingBytes));
    let bad_digits = format!("D{}", "zz".repeat(16));
    assert_eq!(decode_id(&bad_digits), Err(DecodeError::BadDigit));
}

#[test]
fn id_list_round_trip() {
    let ids = vec![ID::Device(7), ID::Device(9), ID::Device(u128::MAX)];
    let text = encode_id_list(&ids);
    assert_eq!(decode_id_list(&text), Ok(ids));
    assert_eq!(decode_id_list(""), Ok(Vec::new()));
}

#[test]
fn id_list_errors() {
    assert_eq!(decode_id_list("MX"), Err(DecodeError::BadTag));
    assert_eq!(decode_id_list("MD"), Err(DecodeError::Truncated));
}

#[test]
fn wire_exact_register_message() {
    let m = Message::register();
    let bytes = encode_message(&m).unwrap();
    // kind Register, target the master, from an unregistered peer, empty body
    assert_eq!(bytes, vec![0u8, 0, 1, 0, 0, 0, 0]);
    let framed = encode_frame(&m).unwrap();
    assert_eq!(framed, vec![7u8, 0, 0, 0, 0, 0, 1, 0, 0, 0, 0]);
    assert_eq!(frame_payload_len(&framed[0..4]), 7);
}

#[test]
fn wire_round_trip() {
    let cases = vec![
        Message::register(),
        msg(MessageKind::Clipboard, ID::Device(42), ID::Device(7), "hello"),
        msg(MessageKind::Reply, ID::Device(1), ID::Master, &encode_id(&ID::Device(1))),
        msg(MessageKind::Close, ID::Master, ID::Device(3), ""),
        msg(MessageKind::Clipboard, ID::Device(2), ID::Device(3), "snowman \u{2603} and \u{1f4cb}"),
    ];
    for m in cases {
        let bytes = encode_message(&m).unwrap();
        let back = decode_message(&bytes).unwrap();
        assert_eq!(back, m);
        let framed = encode_frame(&m).unwrap();
        let back2 = decode_frame(&framed).unwrap();
        assert_eq!(back2, m);
    }
}

#[test]
fn wire_decode_errors() {
    assert_eq!(decode_message(&[]), Err(DecodeError::Truncated));
    assert_eq!(decode_message(&[9]), Err(DecodeError::BadTag));
    // kind ok, then an identity tag that names no variant
    assert_eq!(decode_message(&[0, 7]), Err(DecodeError::BadTag));
    // a device identity cut short
    assert_eq!(decode_message(&[0, 2, 1, 2, 3]), Err(DecodeError::Truncated));
    // body length prefix missing
    assert_eq!(decode_message(&[0, 0, 1]), Err(DecodeError::Truncated));
    // body length announces more than is there
    assert_eq!(decode_message(&[0, 0, 1, 5, 0, 0, 0]), Err(DecodeError::Truncated));
    // bytes beyond the announced body
    assert_eq!(decode_message(&[0, 0, 1, 0, 0, 0, 0, 99]), Err(DecodeError::TrailingBytes));
    // a body that is not UTF-8
    assert_eq!(decode_message(&[0, 0, 1, 1, 0, 0, 0, 0xff]), Err(DecodeError::InvalidUtf8));
    // frames
    assert_eq!(decode_frame(&[1, 0]), Err(DecodeError::Truncated));
    assert_eq!(decode_frame(&[9, 0, 0, 0, 0]), Err(DecodeError::Truncated));
    assert_eq!(decode_frame(&[1, 0, 0, 0, 0, 55]), Err(DecodeError::TrailingBytes));
}

#[test]
fn malformed_bytes_never_panic() {
    // every short byte string decodes to some error, never a crash
    for a in 0u8..=255 {
        let r1 = decode_message(&[a]);
        if a > 6 {
            assert_eq!(r1, Err(DecodeError::BadTag));
        }
        let _ = decode_message(&[a, a]);
        let _ = decode_message(&[a, a, a, a, a, a, a]);
        let _ = decode_frame(&[a, a, a, a]);
    }
}

#[test]
fn describe_names_each_decode_error() {
    let errors = [
        DecodeError::Truncated,
        DecodeError::BadTag,
        DecodeError::BadDigit,
        DecodeError::TrailingBytes,
        DecodeError::InvalidUtf8,
    ];
    for e in errors {
        assert!(!e.describe().is_empty());
    }
}
