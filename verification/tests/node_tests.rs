use node_substrate::codec::{decode, encode};
use node_substrate::node::{IdAllocator, NodeSession};
use node_substrate::protocol::{Body, Envelope, Payload};
use node_substrate::store::BroadcastStore;

fn request(src: &str, dest: &str, msg_id: u32, payload: Payload) -> Envelope {
    Envelope {
        src: src.to_string(),
        dest: dest.to_string(),
        body: Body { msg_id: Some(msg_id), in_reply_to: None, payload },
    }
}

#[test]
fn allocator_ids_are_distinct() {
    let mut ids = IdAllocator::new();
    let a = ids.msg_id();
    let b = ids.msg_id();
    let c = ids.msg_id();
    assert_eq!((a, b, c), (0, 1, 2));
    assert!(a != b && b != c && a != c);
}

#[test]
fn init_scenario() {
    let mut session = NodeSession::new();
    let mut store = BroadcastStore::new();
    let input = r#"{"src":"c1","dest":"n3","body":{"type":"init","msg_id":1,"node_id":"n3","node_ids":["n1","n2","n3"]}}"#;
    let req = decode(input).unwrap();
    let reply = session.dispatch(&mut store, &req).unwrap();
    let expected = Envelope {
        src: "n3".to_string(),
        dest: "c1".to_string(),
        body: Body { msg_id: Some(0), in_reply_to: Some(1), payload: Payload::InitOk },
    };
    assert_eq!(reply, expected);
    // the same envelope the expected output line denotes, field order aside
    let expected_line = r#"{"src":"n3","dest":"c1","body":{"type":"init_ok","in_reply_to":1,"msg_id":0}}"#;
    assert_eq!(decode(&encode(&reply)).unwrap(), decode(expected_line).unwrap());
}

#[test]
fn echo_scenario_after_init() {
    let mut session = NodeSession::new();
    let mut store = BroadcastStore::new();
    let init = decode(
        r#"{"src":"c1","dest":"n3","body":{"type":"init","msg_id":1,"node_id":"n3","node_ids":["n3"]}}"#,
    )
    .unwrap();
    session.dispatch(&mut store, &init).unwrap();
    let echo = decode(r#"{"src":"c1","dest":"n3","body":{"type":"echo","msg_id":2,"echo":"hi"}}"#)
        .unwrap();
    let reply = session.dispatch(&mut store, &echo).unwrap();
    assert_eq!(reply.src, "n3");
    assert_eq!(reply.dest, "c1");
    assert_eq!(reply.body.in_reply_to, Some(2));
    assert_eq!(reply.body.payload, Payload::EchoOk { echo: "hi".to_string() });
}

#[test]
fn broadcast_twice_then_read() {
    let mut session = NodeSession::new();
    let mut store = BroadcastStore::new();
    let b = request("c1", "n1", 1, Payload::Broadcast { message: 5 });
    let ack1 = session.dispatch(&mut store, &b).unwrap();
    assert_eq!(ack1.body.payload, Payload::BroadcastOk);
    let b2 = request("c1", "n1", 2, Payload::Broadcast { message: 5 });
    session.dispatch(&mut store, &b2).unwrap();
    let r = request("c1", "n1", 3, Payload::Read);
    let reply = session.dispatch(&mut store, &r).unwrap();
    match reply.body.payload {
        Payload::ReadOk { messages } => assert_eq!(messages, vec![5]),
        other => panic!("unexpected payload: {:?}", other),
    }
}

#[test]
fn broadcast_order_is_irrelevant() {
    let mut s1 = NodeSession::new();
    let mut st1 = BroadcastStore::new();
    let mut s2 = NodeSession::new();
    let mut st2 = BroadcastStore::new();
    for (i, m) in [1u32, 2, 3, 2].iter().enumerate() {
        let req = request("c", "n", i as u32, Payload::Broadcast { message: *m });
        s1.dispatch(&mut st1, &req).unwrap();
    }
    for (i, m) in [2u32, 3, 2, 1].iter().enumerate() {
        let req = request("c", "n", i as u32, Payload::Broadcast { message: *m });
        s2.dispatch(&mut st2, &req).unwrap();
    }
    let mut v1 = st1.snapshot();
    let mut v2 = st2.snapshot();
    v1.sort();
    v2.sort();
    assert_eq!(v1, v2);
    assert_eq!(v1, vec![1, 2, 3]);
}

#[test]
fn store_records_once() {
    let mut store = BroadcastStore::new();
    store.record(9);
    store.record(9);
    let snap = store.snapshot();
    assert_eq!(snap.iter().filter(|v| **v == 9).count(), 1);
    assert!(store.contains(9));
    assert!(!store.contains(8));
}

#[test]
fn generate_scenario() {
    let mut session = NodeSession::new();
    let mut store = BroadcastStore::new();
    let req = request("c1", "n1", 4, Payload::Generate);
    let reply = session.dispatch(&mut store, &req).unwrap();
    assert_eq!(reply.body.in_reply_to, Some(4));
    match reply.body.payload {
        Payload::GenerateOk { id } => assert_eq!(id.chars().count(), 36),
        other => panic!("unexpected payload: {:?}", other),
    }
}

#[test]
fn generated_ids_differ_between_calls() {
    let mut session = NodeSession::new();
    let mut store = BroadcastStore::new();
    let r1 = session.dispatch(&mut store, &request("c", "n", 0, Payload::Generate)).unwrap();
    let r2 = session.dispatch(&mut store, &request("c", "n", 1, Payload::Generate)).unwrap();
    let id1 = match r1.body.payload {
        Payload::GenerateOk { id } => id,
        _ => panic!("not a generate_ok"),
    };
    let id2 = match r2.body.payload {
        Payload::GenerateOk { id } => id,
        _ => panic!("not a generate_ok"),
    };
    assert_ne!(id1, id2);
}

#[test]
fn topology_scenario() {
    let mut session = NodeSession::new();
    let mut store = BroadcastStore::new();
    let req = decode(
        r#"{"src":"c1","dest":"n1","body":{"type":"topology","msg_id":8,"topology":{"n1":["n2"]}}}"#,
    )
    .unwrap();
    let reply = session.dispatch(&mut store, &req).unwrap();
    assert_eq!(reply.body.in_reply_to, Some(8));
    assert_eq!(reply.body.payload, Payload::TopologyOk);
}

#[test]
fn error_input_produces_no_reply() {
    let mut session = NodeSession::new();
    let mut store = BroadcastStore::new();
    let input = r#"{"src":"c1","dest":"n3","body":{"type":"error","in_reply_to":5,"code":11,"text":"busy"}}"#;
    let req = decode(input).unwrap();
    assert!(session.dispatch(&mut store, &req).is_none());
    // terminal response kinds are silently dropped too
    let ok = decode(r#"{"src":"c1","dest":"n3","body":{"type":"echo_ok","echo":"x"}}"#).unwrap();
    assert!(session.dispatch(&mut store, &ok).is_none());
}

#[test]
fn second_init_overwrites_identity() {
    let mut session = NodeSession::new();
    let mut store = BroadcastStore::new();
    let i1 = request(
        "c1",
        "n1",
        1,
        Payload::Init { node_id: "n1".to_string(), node_ids: vec![] },
    );
    let i2 = request(
        "c1",
        "n2",
        2,
        Payload::Init { node_id: "n2".to_string(), node_ids: vec![] },
    );
    session.dispatch(&mut store, &i1).unwrap();
    let reply = session.dispatch(&mut store, &i2).unwrap();
    assert_eq!(reply.src, "n2");
}
