use rust_worker::envelope::{decode_one, encode};
use rust_worker::errors::{PayloadShapeError, ProtocolDecodeError};
use rust_worker::messages::{
    decode_value_str, encode_value_str, EnqueueMessage, ErrMessage, EvalMessage, IsAliveMessage,
    Message,
};

fn is_alive(sync: &str) -> Message {
    Message::IsAlive(IsAliveMessage {
        sync: sync.to_string(),
    })
}

fn sample_enqueue() -> Message {
    Message::Enqueue(EnqueueMessage {
        statements: "GtAssignedRemoteRunner nextTaskSerializedForWorkerId: workerId".to_string(),
        command_id: "cmd-1".to_string(),
        bindings: vec![
            ("workerId".to_string(), vec![0xa3, b'a', b'b', b'c']),
            ("pharoCommandId".to_string(), vec![0xc4, 0x02, 1, 2]),
        ],
    })
}

fn sample_eval() -> Message {
    Message::Eval(EvalMessage {
        id: "eval-7".to_string(),
        value: vec![0xa2, b'{', b'}'],
    })
}

fn sample_err() -> Message {
    Message::Error(ErrMessage {
        err_msg: "boom".to_string(),
        trace: "trace here".to_string(),
        command_id: "cmd-9".to_string(),
        sync: "sync-9".to_string(),
    })
}

fn assert_round_trip(m: &Message) {
    let bytes = encode(m).expect("encodable");
    let (decoded, consumed) = decode_one(&bytes).expect("decodes");
    assert_eq!(consumed, bytes.len());
    match (m, &decoded) {
        (Message::IsAlive(a), Message::IsAlive(b)) => assert_eq!(a.sync, b.sync),
        (Message::Enqueue(a), Message::Enqueue(b)) => {
            assert_eq!(a.statements, b.statements);
            assert_eq!(a.command_id, b.command_id);
            assert_eq!(a.bindings, b.bindings);
        }
        (Message::Eval(a), Message::Eval(b)) => {
            assert_eq!(a.id, b.id);
            assert_eq!(a.value, b.value);
        }
        (Message::Error(a), Message::Error(b)) => {
            assert_eq!(a.err_msg, b.err_msg);
            assert_eq!(a.trace, b.trace);
            assert_eq!(a.command_id, b.command_id);
            assert_eq!(a.sync, b.sync);
        }
        (Message::Heartbeat, Message::Heartbeat) => {}
        (Message::Registered, Message::Registered) => {}
        _ => panic!("variant changed in round trip"),
    }
}

#[test]
fn round_trip_every_variant() {
    assert_round_trip(&is_alive("abc-123"));
    assert_round_trip(&sample_enqueue());
    assert_round_trip(&sample_eval());
    assert_round_trip(&sample_err());
    assert_round_trip(&Message::Heartbeat);
    assert_round_trip(&Message::Registered);
}

#[test]
fn round_trip_long_string_uses_wide_headers() {
    let long_sync = "x".repeat(70_000);
    assert_round_trip(&is_alive(&long_sync));
    let medium = "y".repeat(300);
    assert_round_trip(&is_alive(&medium));
}

#[test]
fn heartbeat_exact_bytes() {
    let bytes = encode(&Message::Heartbeat).unwrap();
    let mut expected = vec![0x81u8, 0xa4];
    expected.extend_from_slice(b"type");
    expected.push(0xa9);
    expected.extend_from_slice(b"HEARTBEAT");
    assert_eq!(bytes, expected);
}

#[test]
fn two_messages_in_one_buffer() {
    let first = encode(&is_alive("first-sync")).unwrap();
    let second = encode(&sample_eval()).unwrap();
    let mut buffer = first.clone();
    buffer.extend_from_slice(&second);

    let (decoded, consumed) = decode_one(&buffer).expect("first decodes");
    assert!(consumed < buffer.len());
    assert_eq!(consumed, first.len());
    match decoded {
        Message::IsAlive(m) => assert_eq!(m.sync, "first-sync"),
        other => panic!("expected IsAlive, got {:?}", other),
    }

    let rest: Vec<u8> = buffer[consumed..].to_vec();
    assert_eq!(rest, second);
    let (decoded2, consumed2) = decode_one(&rest).expect("second decodes");
    assert_eq!(consumed2, rest.len());
    match decoded2 {
        Message::Eval(m) => assert_eq!(m.id, "eval-7"),
        other => panic!("expected Eval, got {:?}", other),
    }
}

#[test]
fn truncated_message_is_incomplete() {
    let bytes = encode(&sample_enqueue()).unwrap();
    for cut in [1usize, 2, 5, bytes.len() - 1] {
        let prefix: Vec<u8> = bytes[..cut].to_vec();
        match decode_one(&prefix) {
            Err(ProtocolDecodeError::Incomplete) => {}
            other => panic!("expected Incomplete at cut {}, got {:?}", cut, other),
        }
    }
    let empty: Vec<u8> = Vec::new();
    assert!(matches!(
        decode_one(&empty),
        Err(ProtocolDecodeError::Incomplete)
    ));
}

#[test]
fn garbage_is_malformed() {
    // 0xc0 is a nil element, not a map header: no message can start with it.
    let garbage = vec![0xc0u8, 1, 2, 3];
    assert!(matches!(
        decode_one(&garbage),
        Err(ProtocolDecodeError::Malformed)
    ));
    // A map whose first key is not "type".
    let mut wrong_key = vec![0x81u8, 0xa3];
    wrong_key.extend_from_slice(b"abc");
    wrong_key.push(0xa2);
    wrong_key.extend_from_slice(b"hi");
    assert!(matches!(
        decode_one(&wrong_key),
        Err(ProtocolDecodeError::Malformed)
    ));
    // An unknown discriminator value.
    let mut unknown_tag = vec![0x81u8, 0xa4];
    unknown_tag.extend_from_slice(b"type");
    unknown_tag.push(0xa7);
    unknown_tag.extend_from_slice(b"UNKNOWN");
    assert!(matches!(
        decode_one(&unknown_tag),
        Err(ProtocolDecodeError::Malformed)
    ));
}

#[test]
fn value_codec_round_trip() {
    let blob = encode_value_str("abc-123").unwrap();
    assert_eq!(blob, vec![0xa7, b'a', b'b', b'c', b'-', b'1', b'2', b'3']);
    let back = decode_value_str(&blob).unwrap();
    assert_eq!(back, "abc-123");

    let not_text = vec![0xc4u8, 0x01, 0xff];
    assert!(matches!(
        decode_value_str(&not_text),
        Err(PayloadShapeError::ValueNotText)
    ));
}

#[test]
fn wire_format_matches_msgpack_via_rmpv() {
    // A full envelope written by this codec reads back as plain msgpack.
    let bytes = encode(&is_alive("abc")).unwrap();
    let value = rmpv::decode::read_value(&mut bytes.as_slice()).expect("valid msgpack");
    match value {
        rmpv::Value::Map(entries) => {
            assert_eq!(entries.len(), 2);
            assert_eq!(entries[0].0.as_str(), Some("type"));
            assert_eq!(entries[0].1.as_str(), Some("IS_ALIVE"));
            assert_eq!(entries[1].0.as_str(), Some("__sync"));
            assert_eq!(entries[1].1.as_str(), Some("abc"));
        }
        other => panic!("expected a map, got {:?}", other),
    }

    // A msgpack map written by rmpv decodes through this codec.
    let value = rmpv::Value::Map(vec![
        (
            rmpv::Value::String("type".into()),
            rmpv::Value::String("EVAL".into()),
        ),
        (
            rmpv::Value::String("id".into()),
            rmpv::Value::String("reg-1".into()),
        ),
        (
            rmpv::Value::String("value".into()),
            rmpv::Value::Binary(vec![0xa2, b'o', b'k']),
        ),
    ]);
    let mut buf: Vec<u8> = Vec::new();
    rmpv::encode::write_value(&mut buf, &value).unwrap();
    let (decoded, consumed) = decode_one(&buf).expect("decodes");
    assert_eq!(consumed, buf.len());
    match decoded {
        Message::Eval(m) => {
            assert_eq!(m.id, "reg-1");
            assert_eq!(m.value, vec![0xa2, b'o', b'k']);
        }
        other => panic!("expected Eval, got {:?}", other),
    }
}

#[test]
fn enqueue_bindings_survive_the_wire_in_order() {
    let bytes = encode(&sample_enqueue()).unwrap();
    let value = rmpv::decode::read_value(&mut bytes.as_slice()).expect("valid msgpack");
    match value {
        rmpv::Value::Map(entries) => {
            assert_eq!(entries.len(), 4);
            assert_eq!(entries[0].1.as_str(), Some("ENQUEUE"));
            assert_eq!(entries[3].0.as_str(), Some("bindings"));
            match &entries[3].1 {
                rmpv::Value::Map(bindings) => {
                    assert_eq!(bindings.len(), 2);
                    assert_eq!(bindings[0].0.as_str(), Some("workerId"));
                    assert_eq!(
                        bindings[0].1.as_slice(),
                        Some(&[0xa3u8, b'a', b'b', b'c'][..])
                    );
                    assert_eq!(bindings[1].0.as_str(), Some("pharoCommandId"));
                }
                other => panic!("expected bindings map, got {:?}", other),
            }
        }
        other => panic!("expected a map, got {:?}", other),
    }
}
