use maelstrom_node::node::Node;
use maelstrom_node::protocol::{Body, ErrorCode, Message, Payload};

fn msg(src: &str, dst: &str, msg_id: Option<i32>, payload: Payload) -> Message {
    Message {
        src: src.to_string(),
        dst: dst.to_string(),
        body: Body { msg_id, in_reply_to: None, payload },
    }
}

fn init_payload(id: &str, peers: &[&str]) -> Payload {
    Payload::Init {
        node_id: id.to_string(),
        node_ids: peers.iter().map(|s| s.to_string()).collect(),
    }
}

fn init_node(id: &str, peers: &[&str]) -> Node {
    let mut n = Node::new();
    let out = n.handle_message(msg("c0", id, Some(1), init_payload(id, peers)), 0);
    assert_eq!(out.len(), 1);
    assert!(matches!(out[0].body.payload, Payload::InitOk));
    n
}

fn error_code_of(m: &Message) -> ErrorCode {
    match &m.body.payload {
        Payload::Error { code, text } => {
            assert!(!text.is_empty(), "error reply must carry a message");
            *code
        }
        other => panic!("expected an error payload, got {:?}", other),
    }
}

#[test]
fn init_handshake_ok() {
    let mut n = Node::new();
    let out = n.handle_message(msg("c0", "n1", Some(7), init_payload("n1", &["n1", "n2"])), 0);
    assert_eq!(out.len(), 1);
    assert!(matches!(out[0].body.payload, Payload::InitOk));
    assert_eq!(out[0].src, "n1");
    assert_eq!(out[0].dst, "c0");
    assert_eq!(out[0].body.in_reply_to, Some(7));
    assert_eq!(out[0].body.msg_id, Some(i32::MIN + 1));
}

#[test]
fn lifecycle_rejects_before_init() {
    let payloads = vec![
        Payload::Broadcast { message: 5 },
        Payload::Read,
        Payload::Send { key: "k".to_string(), msg: 1 },
        Payload::Poll { offsets: vec![("k".to_string(), 0)] },
        Payload::CommitOffsets { offsets: vec![("k".to_string(), 0)] },
        Payload::ListCommittedOffsets { keys: vec!["k".to_string()] },
        Payload::Topology { topology: vec![("n1".to_string(), vec![])] },
        Payload::Echo { echo: "hi".to_string() },
    ];
    for p in payloads {
        let mut n = Node::new();
        let out = n.handle_message(msg("c0", "n1", Some(2), p), 0);
        assert_eq!(out.len(), 1);
        assert_eq!(error_code_of(&out[0]), ErrorCode::MalformedRequest);
    }
}

#[test]
fn init_twice_rejected() {
    let mut n = init_node("n1", &["n1"]);
    let out = n.handle_message(msg("c0", "n1", Some(2), init_payload("n1", &["n1"])), 0);
    assert_eq!(out.len(), 1);
    assert_eq!(error_code_of(&out[0]), ErrorCode::MalformedRequest);
}

#[test]
fn wrong_destination_rejected() {
    let mut n = init_node("n1", &["n1", "n2"]);
    let out = n.handle_message(msg("c0", "n2", Some(2), Payload::Read), 0);
    assert_eq!(out.len(), 1);
    assert_eq!(error_code_of(&out[0]), ErrorCode::MalformedRequest);
}

#[test]
fn echo_round_trip() {
    let mut n = init_node("n1", &["n1"]);
    let out = n.handle_message(
        msg("c0", "n1", Some(2), Payload::Echo { echo: "hi there".to_string() }),
        0,
    );
    assert_eq!(out.len(), 1);
    match &out[0].body.payload {
        Payload::EchoOk { echo } => assert_eq!(echo, "hi there"),
        other => panic!("expected echo_ok, got {:?}", other),
    }
}

#[test]
fn generate_returns_fresh_token() {
    let mut n = init_node("n1", &["n1"]);
    let out = n.handle_message(msg("c0", "n1", Some(2), Payload::Generate), 0xfeed_beef);
    assert_eq!(out.len(), 1);
    match &out[0].body.payload {
        Payload::GenerateOk { id } => assert_eq!(*id, 0xfeed_beef),
        other => panic!("expected generate_ok, got {:?}", other),
    }
}

#[test]
fn add_unsupported() {
    let mut n = init_node("n1", &["n1"]);
    let out = n.handle_message(msg("c0", "n1", Some(2), Payload::Add { delta: 4 }), 0);
    assert_eq!(out.len(), 1);
    assert_eq!(error_code_of(&out[0]), ErrorCode::NotSupported);
}

#[test]
fn unsolicited_init_ok_rejected() {
    let mut n = init_node("n1", &["n1"]);
    let out = n.handle_message(msg("n2", "n1", Some(2), Payload::InitOk), 0);
    assert_eq!(out.len(), 1);
    assert_eq!(error_code_of(&out[0]), ErrorCode::MalformedRequest);
}

#[test]
fn ack_absorbed_without_reply() {
    let mut n = init_node("n1", &["n1"]);
    let acks = vec![
        Payload::SendOk { offset: 3 },
        Payload::BroadcastOk,
        Payload::RumorOk,
        Payload::CommitOffsetsOk,
        Payload::Error { code: ErrorCode::Crash, text: "x".to_string() },
    ];
    for p in acks {
        let out = n.handle_message(msg("n2", "n1", Some(2), p), 0);
        assert_eq!(out.len(), 0);
    }
}

#[test]
fn reply_ids_strictly_increase() {
    let mut n = init_node("n1", &["n1"]);
    let mut last = i32::MIN + 1;
    for round in 0..20 {
        let out = n.handle_message(
            msg("c0", "n1", Some(round), Payload::Send { key: "k".to_string(), msg: 1 }),
            0,
        );
        assert_eq!(out.len(), 1);
        let id = out[0].body.msg_id.unwrap();
        assert!(id > last || (round == 0 && id == last));
        if round > 0 {
            assert!(id > last);
        }
        last = id;
    }
}

#[test]
fn send_offsets_dense_per_key() {
    let mut n = init_node("n1", &["n1"]);
    let calls = vec![("a", 10), ("b", 20), ("a", 11), ("a", 12), ("b", 21)];
    let mut got: Vec<(&str, usize)> = Vec::new();
    for (key, value) in calls {
        let out = n.handle_message(
            msg("c0", "n1", Some(1), Payload::Send { key: key.to_string(), msg: value }),
            0,
        );
        match &out[0].body.payload {
            Payload::SendOk { offset } => got.push((key, *offset)),
            other => panic!("expected send_ok, got {:?}", other),
        }
    }
    assert_eq!(got, vec![("a", 0), ("b", 0), ("a", 1), ("a", 2), ("b", 1)]);
}

#[test]
fn poll_returns_suffix_pairs() {
    let mut n = init_node("n1", &["n1"]);
    for v in [10, 20, 30] {
        n.handle_message(
            msg("c0", "n1", Some(1), Payload::Send { key: "k".to_string(), msg: v }),
            0,
        );
    }
    let out = n.handle_message(
        msg("c0", "n1", Some(2), Payload::Poll { offsets: vec![("k".to_string(), 1)] }),
        0,
    );
    match &out[0].body.payload {
        Payload::PollOk { messages } => {
            assert_eq!(messages.len(), 1);
            assert_eq!(messages[0].0, "k");
            assert_eq!(messages[0].1, vec![(1, 20), (2, 30)]);
        }
        other => panic!("expected poll_ok, got {:?}", other),
    }
}

#[test]
fn poll_beyond_end_omits_key() {
    let mut n = init_node("n1", &["n1"]);
    for v in [10, 20, 30] {
        n.handle_message(
            msg("c0", "n1", Some(1), Payload::Send { key: "k".to_string(), msg: v }),
            0,
        );
    }
    let out = n.handle_message(
        msg("c0", "n1", Some(2), Payload::Poll { offsets: vec![("k".to_string(), 5)] }),
        0,
    );
    match &out[0].body.payload {
        Payload::PollOk { messages } => assert_eq!(messages.len(), 0),
        other => panic!("expected poll_ok, got {:?}", other),
    }
}

#[test]
fn poll_absent_key_omitted() {
    let mut n = init_node("n1", &["n1"]);
    let out = n.handle_message(
        msg("c0", "n1", Some(2), Payload::Poll { offsets: vec![("missing".to_string(), 0)] }),
        0,
    );
    match &out[0].body.payload {
        Payload::PollOk { messages } => assert_eq!(messages.len(), 0),
        other => panic!("expected poll_ok, got {:?}", other),
    }
}

#[test]
fn commit_bookmark_independent() {
    let mut n = init_node("n1", &["n1"]);
    let out = n.handle_message(
        msg(
            "c0",
            "n1",
            Some(1),
            Payload::CommitOffsets { offsets: vec![("k".to_string(), 100)] },
        ),
        0,
    );
    assert!(matches!(out[0].body.payload, Payload::CommitOffsetsOk));
    let out = n.handle_message(
        msg(
            "c0",
            "n1",
            Some(2),
            Payload::ListCommittedOffsets { keys: vec!["k".to_string()] },
        ),
        0,
    );
    match &out[0].body.payload {
        Payload::ListCommittedOffsetsOk { offsets } => {
            assert_eq!(offsets.len(), 1);
            assert_eq!(offsets[0].0, "k");
            assert_eq!(offsets[0].1, 100);
        }
        other => panic!("expected list_committed_offsets_ok, got {:?}", other),
    }
}

#[test]
fn list_committed_omits_unknown_keys() {
    let mut n = init_node("n1", &["n1"]);
    n.handle_message(
        msg("c0", "n1", Some(1), Payload::CommitOffsets { offsets: vec![("a".to_string(), 4)] }),
        0,
    );
    let out = n.handle_message(
        msg(
            "c0",
            "n1",
            Some(2),
            Payload::ListCommittedOffsets {
                keys: vec!["a".to_string(), "b".to_string()],
            },
        ),
        0,
    );
    match &out[0].body.payload {
        Payload::ListCommittedOffsetsOk { offsets } => {
            assert_eq!(offsets.len(), 1);
            assert_eq!(offsets[0].0, "a");
            assert_eq!(offsets[0].1, 4);
        }
        other => panic!("expected list_committed_offsets_ok, got {:?}", other),
    }
}

fn topology_for(entries: &[(&str, &[&str])]) -> Payload {
    Payload::Topology {
        topology: entries
            .iter()
            .map(|(k, vs)| (k.to_string(), vs.iter().map(|v| v.to_string()).collect()))
            .collect(),
    }
}

fn broadcast_fanout_dsts(n: &mut Node, value: u64, rumor_id: u128) -> Vec<String> {
    let out = n.handle_message(
        msg("c0", "n1", Some(1), Payload::Broadcast { message: value }),
        rumor_id,
    );
    assert!(matches!(out[0].body.payload, Payload::BroadcastOk));
    out.iter().skip(1).map(|m| m.dst.clone()).collect()
}

#[test]
fn topology_idempotent() {
    let mut n = init_node("n1", &["n1", "n2", "n3"]);
    let topo = [("n1", &["n2", "n3"][..]), ("n2", &["n1"][..])];
    let out = n.handle_message(msg("c0", "n1", Some(1), topology_for(&topo)), 0);
    assert!(matches!(out[0].body.payload, Payload::TopologyOk));
    let first = broadcast_fanout_dsts(&mut n, 9, 1000);
    let out = n.handle_message(msg("c0", "n1", Some(2), topology_for(&topo)), 0);
    assert!(matches!(out[0].body.payload, Payload::TopologyOk));
    let second = broadcast_fanout_dsts(&mut n, 9, 1001);
    assert_eq!(first, vec!["n2".to_string(), "n3".to_string()]);
    assert_eq!(first, second);
}

#[test]
fn topology_missing_self_entry() {
    let mut n = init_node("n1", &["n1", "n2"]);
    let out = n.handle_message(
        msg("c0", "n1", Some(1), topology_for(&[("n2", &["n1"][..])])),
        0,
    );
    assert_eq!(out.len(), 1);
    assert_eq!(error_code_of(&out[0]), ErrorCode::MalformedRequest);
}

fn read_values(n: &mut Node, own: &str) -> Vec<u64> {
    let out = n.handle_message(msg("c0", own, Some(99), Payload::Read), 0);
    match &out[0].body.payload {
        Payload::ReadOk { messages } => messages.clone(),
        other => panic!("expected read_ok, got {:?}", other),
    }
}

#[test]
fn read_empty_knowledge_set() {
    let mut n = init_node("n1", &["n1"]);
    assert_eq!(read_values(&mut n, "n1"), Vec::<u64>::new());
}

#[test]
fn broadcast_refloods_known_value() {
    let mut n = init_node("n1", &["n1", "n2"]);
    n.handle_message(
        msg("c0", "n1", Some(1), topology_for(&[("n1", &["n2"][..])])),
        0,
    );
    let first = broadcast_fanout_dsts(&mut n, 42, 500);
    let second = broadcast_fanout_dsts(&mut n, 42, 501);
    assert_eq!(first, vec!["n2".to_string()]);
    assert_eq!(second, vec!["n2".to_string()]);
    assert_eq!(read_values(&mut n, "n1"), vec![42]);
}

#[test]
fn seen_rumor_not_reforwarded() {
    let mut n = init_node("n1", &["n1", "n2"]);
    n.handle_message(
        msg("c0", "n1", Some(1), topology_for(&[("n1", &["n2"][..])])),
        0,
    );
    let out = n.handle_message(
        msg("n2", "n1", Some(5), Payload::Rumor { rumor_id: 77, message: 3 }),
        0,
    );
    assert!(matches!(out[0].body.payload, Payload::RumorOk));
    assert_eq!(out.len(), 2);
    assert_eq!(out[1].dst, "n2");
    assert!(matches!(
        out[1].body.payload,
        Payload::Rumor { rumor_id: 77, message: 3 }
    ));
    let out = n.handle_message(
        msg("n2", "n1", Some(6), Payload::Rumor { rumor_id: 77, message: 3 }),
        0,
    );
    assert!(matches!(out[0].body.payload, Payload::RumorOk));
    assert_eq!(out.len(), 1);
    assert_eq!(read_values(&mut n, "n1"), vec![3]);
}

#[test]
fn gossip_converges_line_topology() {
    let ids = ["n1", "n2", "n3"];
    let mut nodes: Vec<Node> = ids.iter().map(|id| init_node(id, &ids)).collect();
    let topo = [
        ("n1", &["n2"][..]),
        ("n2", &["n1", "n3"][..]),
        ("n3", &["n2"][..]),
    ];
    for (i, id) in ids.iter().enumerate() {
        nodes[i].handle_message(msg("c0", id, Some(1), topology_for(&topo)), 0);
    }
    let mut entropy: u128 = 1;
    let mut queue =
        vec![msg("c0", "n1", Some(2), Payload::Broadcast { message: 7 })];
    let mut steps = 0;
    while let Some(m) = queue.pop() {
        steps += 1;
        assert!(steps < 1000, "gossip did not quiesce");
        if let Some(i) = ids.iter().position(|id| *id == m.dst) {
            entropy += 1;
            let out = nodes[i].handle_message(m, entropy);
            queue.extend(out);
        }
    }
    for (i, id) in ids.iter().enumerate() {
        assert_eq!(read_values(&mut nodes[i], id), vec![7], "node {} did not learn", id);
    }
}

#[test]
fn commit_overwrites_unconditionally() {
    let mut n = init_node("n1", &["n1"]);
    n.handle_message(
        msg("c0", "n1", Some(1), Payload::CommitOffsets { offsets: vec![("k".to_string(), 5)] }),
        0,
    );
    // A later commit of a smaller value still wins, and within one payload
    // the last pair for a key wins.
    n.handle_message(
        msg(
            "c0",
            "n1",
            Some(2),
            Payload::CommitOffsets {
                offsets: vec![("k".to_string(), 8), ("k".to_string(), 2)],
            },
        ),
        0,
    );
    let out = n.handle_message(
        msg(
            "c0",
            "n1",
            Some(3),
            Payload::ListCommittedOffsets { keys: vec!["k".to_string()] },
        ),
        0,
    );
    match &out[0].body.payload {
        Payload::ListCommittedOffsetsOk { offsets } => {
            assert_eq!(offsets.len(), 1);
            assert_eq!(offsets[0].1, 2);
        }
        other => panic!("expected list_committed_offsets_ok, got {:?}", other),
    }
}

#[test]
fn poll_mixed_keys() {
    let mut n = init_node("n1", &["n1"]);
    for (k, v) in [("a", 1), ("a", 2), ("b", 7)] {
        n.handle_message(
            msg("c0", "n1", Some(1), Payload::Send { key: k.to_string(), msg: v }),
            0,
        );
    }
    let out = n.handle_message(
        msg(
            "c0",
            "n1",
            Some(2),
            Payload::Poll {
                offsets: vec![
                    ("a".to_string(), 0),
                    ("missing".to_string(), 0),
                    ("b".to_string(), 1),
                ],
            },
        ),
        0,
    );
    match &out[0].body.payload {
        Payload::PollOk { messages } => {
            assert_eq!(messages.len(), 1);
            assert_eq!(messages[0].0, "a");
            assert_eq!(messages[0].1, vec![(0, 1), (1, 2)]);
        }
        other => panic!("expected poll_ok, got {:?}", other),
    }
}

#[test]
fn broadcast_without_neighbors_still_acknowledged() {
    let mut n = init_node("n1", &["n1"]);
    let out = n.handle_message(
        msg("c0", "n1", Some(1), Payload::Broadcast { message: 3 }),
        42,
    );
    assert_eq!(out.len(), 1);
    assert!(matches!(out[0].body.payload, Payload::BroadcastOk));
    assert_eq!(read_values(&mut n, "n1"), vec![3]);
}

#[test]
fn error_codes_fixed() {
    assert_eq!(ErrorCode::Timeout.code(), 0);
    assert_eq!(ErrorCode::NodeNotFound.code(), 1);
    assert_eq!(ErrorCode::NotSupported.code(), 10);
    assert_eq!(ErrorCode::TemporarilyUnavailable.code(), 11);
    assert_eq!(ErrorCode::MalformedRequest.code(), 12);
    assert_eq!(ErrorCode::Crash.code(), 13);
    assert_eq!(ErrorCode::Abort.code(), 14);
    assert_eq!(ErrorCode::KeyDoesNotExist.code(), 20);
    assert_eq!(ErrorCode::KeyAlreadyExists.code(), 21);
    assert_eq!(ErrorCode::PreconditionFailed.code(), 22);
    assert_eq!(ErrorCode::TxnConflict.code(), 30);
}
