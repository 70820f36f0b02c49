use node_substrate::codec::{decode, encode};
use node_substrate::protocol::{Body, Envelope, ErrorCode, Payload};

fn envelope(src: &str, dest: &str, body: Body) -> Envelope {
    Envelope { src: src.to_string(), dest: dest.to_string(), body }
}

#[test]
fn init_serde() {
    let msg = r#"{
            "src": "c1",
            "dest": "n3",
            "body": {
                "type": "init",
                "msg_id": 1,
                "node_id": "n3",
                "node_ids": ["n1", "n2", "n3"]
            }
        }"#;
    let expected = Envelope {
        src: "c1".to_string(),
        dest: "n3".to_string(),
        body: Body {
            msg_id: Some(1),
            in_reply_to: None,
            payload: Payload::Init {
                node_id: "n3".to_string(),
                node_ids: vec!["n1".to_string(), "n2".to_string(), "n3".to_string()],
            },
        },
    };

    let deserialized = decode(msg).unwrap();

    assert_eq!(deserialized, expected);
}

#[test]
fn error_serde() {
    let msg = r#"{
            "src": "c1",
            "dest": "n3",
            "body": {
                "type": "error",
                "in_reply_to": 5,
                "code": 11,
                "text": "Node n5 is waiting for quorum and cannot service requests yet"
            }
        }"#;
    let expected = Envelope {
        src: "c1".to_string(),
        dest: "n3".to_string(),
        body: Body {
            msg_id: None,
            in_reply_to: Some(5),
            payload: Payload::Error {
                code: ErrorCode::TemporarilyUnavailable,
                text: Some(
                    "Node n5 is waiting for quorum and cannot service requests yet".to_string(),
                ),
            },
        },
    };

    let deserialized = decode(msg).unwrap();

    assert_eq!(deserialized, expected);
}

#[test]
fn encode_exact_init_ok() {
    let env = envelope(
        "n3",
        "c1",
        Body { msg_id: Some(0), in_reply_to: Some(1), payload: Payload::InitOk },
    );
    assert_eq!(
        encode(&env),
        r#"{"src":"n3","dest":"c1","body":{"type":"init_ok","msg_id":0,"in_reply_to":1}}"#
    );
}

#[test]
fn round_trip_every_payload_kind() {
    let payloads = vec![
        Payload::Echo { echo: "hello".to_string() },
        Payload::EchoOk { echo: "hello".to_string() },
        Payload::Generate,
        Payload::GenerateOk { id: "abc-123".to_string() },
        Payload::Init {
            node_id: "n1".to_string(),
            node_ids: vec!["n1".to_string(), "n2".to_string()],
        },
        Payload::InitOk,
        Payload::Broadcast { message: 42 },
        Payload::BroadcastOk,
        Payload::Read,
        Payload::ReadOk { messages: vec![1, 2, 3] },
        Payload::Topology,
        Payload::TopologyOk,
        Payload::Error { code: ErrorCode::Crash, text: Some("boom".to_string()) },
        Payload::Error { code: ErrorCode::Timeout, text: None },
    ];
    for payload in payloads {
        let env = envelope(
            "a",
            "b",
            Body { msg_id: Some(7), in_reply_to: None, payload },
        );
        let line = encode(&env);
        assert_eq!(decode(&line).unwrap(), env);
    }
}

#[test]
fn round_trip_odd_strings() {
    let cases = vec![
        "".to_string(),
        "with \"quotes\" and \\ backslash".to_string(),
        "line\nbreak\ttab\rreturn".to_string(),
        "unicode \u{e9}\u{4e16}\u{754c}".to_string(),
        "control \u{1}\u{1f}".to_string(),
    ];
    for text in cases {
        let env = envelope(
            "src",
            "dst",
            Body { msg_id: None, in_reply_to: None, payload: Payload::Echo { echo: text } },
        );
        let line = encode(&env);
        assert_eq!(decode(&line).unwrap(), env);
    }
}

#[test]
fn round_trip_numeric_edges() {
    for n in [0u32, 1, 9, 10, 4294967295] {
        let env = envelope(
            "a",
            "b",
            Body {
                msg_id: Some(n),
                in_reply_to: Some(0),
                payload: Payload::Broadcast { message: n },
            },
        );
        let line = encode(&env);
        assert_eq!(decode(&line).unwrap(), env);
    }
}

#[test]
fn decode_resolves_standard_escapes() {
    let msg = "{\"src\":\"a\",\"dest\":\"b\",\"body\":{\"type\":\"echo\",\"echo\":\"\\u0041\\n\\t\\\"\\\\\\/\"}}";
    let env = decode(msg).unwrap();
    assert_eq!(
        env.body.payload,
        Payload::Echo { echo: "A\n\t\"\\/".to_string() }
    );
}

#[test]
fn unknown_type_tag_is_decode_error() {
    let msg = r#"{"src":"c1","dest":"n3","body":{"type":"bogus","msg_id":1}}"#;
    let err = decode(msg).unwrap_err();
    assert_eq!(err.text, msg);
}

#[test]
fn decode_rejects_malformed_lines() {
    let cases = [
        "",
        "not json",
        r#"{"src":"a","dest":"b"}"#,
        r#"{"src":"a","dest":"b","body":{}}"#,
        r#"{"src":"a","dest":"b","body":{"type":"echo"}}"#,
        r#"{"src":"a","dest":"b","body":{"type":"echo","echo":"x","echo":"y"}}"#,
        r#"{"src":"a","dest":"b","body":{"type":"echo","echo":"x","stray":1}}"#,
        r#"{"src":"a","dest":"b","body":{"type":"broadcast","message":4294967296}}"#,
        r#"{"src":"a","dest":"b","body":{"type":"error","code":999}}"#,
        r#"{"src":"a","dest":"b","body":{"type":"echo","echo":"x"}} trailing"#,
    ];
    for msg in cases {
        assert!(decode(msg).is_err(), "accepted: {}", msg);
    }
}

#[test]
fn decode_accepts_null_and_whitespace() {
    let msg = "{ \"src\" : \"a\" , \"dest\" : \"b\" ,\n \"body\" : { \"type\" : \"error\" , \"msg_id\" : null , \"code\" : 0 , \"text\" : null } }";
    let env = decode(msg).unwrap();
    assert_eq!(
        env.body.payload,
        Payload::Error { code: ErrorCode::Timeout, text: None }
    );
    assert_eq!(env.body.msg_id, None);
}

#[test]
fn decode_topology_content_is_ignored() {
    let msg = r#"{"src":"c1","dest":"n1","body":{"type":"topology","msg_id":3,"topology":{"n1":["n2","n3"],"n2":[]}}}"#;
    let env = decode(msg).unwrap();
    assert_eq!(env.body.payload, Payload::Topology);
    assert_eq!(env.body.msg_id, Some(3));
}

#[test]
fn error_code_values_are_stable() {
    let pairs = [
        (ErrorCode::Timeout, 0),
        (ErrorCode::NodeNotFound, 1),
        (ErrorCode::NotSupported, 10),
        (ErrorCode::TemporarilyUnavailable, 11),
        (ErrorCode::MalformedRequest, 12),
        (ErrorCode::Crash, 13),
        (ErrorCode::Abort, 14),
        (ErrorCode::KeyDoesNotExist, 20),
        (ErrorCode::KeyAlreadyExists, 21),
        (ErrorCode::PreconditionFailed, 22),
        (ErrorCode::TxnConflict, 30),
    ];
    for (code, value) in pairs {
        assert_eq!(code.code_value(), value);
        assert_eq!(ErrorCode::from_value(value), Some(code));
    }
    assert_eq!(ErrorCode::from_value(2), None);
    assert_eq!(ErrorCode::from_value(999), None);
}
