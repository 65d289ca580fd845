use broadcast_node::node::{Node, NodeError};
use broadcast_node::protocol::{Message, MessageBody};

fn msg(src: &str, dest: &str, body: MessageBody) -> Message {
    Message { src: src.to_string(), dest: dest.to_string(), body }
}

fn init(node_id: &str, ids: &[&str], msg_id: usize) -> Message {
    msg(
        "c1",
        node_id,
        MessageBody::Init {
            msg_id: Some(msg_id),
            in_reply_to: None,
            node_id: node_id.to_string(),
            node_ids: ids.iter().map(|s| s.to_string()).collect(),
        },
    )
}

fn topology(dest: &str, entries: &[(&str, &[&str])]) -> Message {
    msg(
        "c1",
        dest,
        MessageBody::Topology {
            msg_id: Some(10),
            in_reply_to: None,
            topology: entries
                .iter()
                .map(|(k, v)| (k.to_string(), v.iter().map(|s| s.to_string()).collect()))
                .collect(),
        },
    )
}

fn broadcast(src: &str, dest: &str, msg_id: usize, value: usize) -> Message {
    msg(src, dest, MessageBody::Broadcast { msg_id: Some(msg_id), in_reply_to: None, message: value })
}

fn read(dest: &str) -> Message {
    msg("c1", dest, MessageBody::Read { msg_id: Some(30), in_reply_to: None })
}

fn ready_node(id: &str, ids: &[&str], neighbors: &[&str]) -> Node {
    let mut node = Node::new();
    node.handle(init(id, ids, 1)).unwrap();
    node.handle(topology(id, &[(id, neighbors)])).unwrap();
    node
}

#[test]
fn scenario_init_topology_broadcast_read() {
    let mut node = Node::new();
    let out = node.handle(init("n1", &["n1", "n2"], 1)).unwrap();
    assert_eq!(
        out,
        vec![msg("n1", "c1", MessageBody::InitOk { msg_id: Some(1), in_reply_to: Some(1) })]
    );
    assert_eq!(node.id, "n1");
    assert_eq!(node.ids, vec!["n1".to_string(), "n2".to_string()]);

    let out = node.handle(topology("n1", &[("n1", &["n2"]), ("n2", &["n1"])])).unwrap();
    assert_eq!(
        out,
        vec![msg("n1", "c1", MessageBody::TopologyOk { msg_id: Some(2), in_reply_to: Some(10) })]
    );
    assert_eq!(node.neighbor_ids, Some(vec!["n2".to_string()]));

    let out = node.handle(broadcast("n2", "n1", 7, 5)).unwrap();
    assert_eq!(
        out,
        vec![msg("n1", "n2", MessageBody::BroadcastOk { msg_id: Some(3), in_reply_to: Some(7) })]
    );
    assert!(node.pending.is_empty());

    let out = node.handle(read("n1")).unwrap();
    assert_eq!(
        out,
        vec![msg(
            "n1",
            "c1",
            MessageBody::ReadOk { msg_id: Some(4), in_reply_to: Some(30), messages: vec![5] }
        )]
    );
}

#[test]
fn scenario_relay_twice_from_different_peers() {
    let mut node = ready_node("n1", &["n1", "n2", "n3"], &["n2", "n3"]);
    let out = node.handle(broadcast("n2", "n1", 7, 5)).unwrap();
    // One gossip to n3 (n2 is the sender), then the acknowledgment.
    assert_eq!(out.len(), 2);
    assert_eq!(out[0].dest, "n3");
    assert!(matches!(out[0].body, MessageBody::Broadcast { message: 5, .. }));
    assert!(matches!(out[1].body, MessageBody::BroadcastOk { .. }));

    let out = node.handle(broadcast("n3", "n1", 8, 5)).unwrap();
    assert_eq!(
        out,
        vec![msg("n1", "n3", MessageBody::BroadcastOk { msg_id: Some(5), in_reply_to: Some(8) })]
    );
    assert_eq!(node.messages, vec![5]);
    assert_eq!(node.pending.len(), 1);
}

#[test]
fn dedup_many_deliveries_record_once() {
    let mut node = ready_node("n1", &["n1", "n2", "n3", "n4"], &["n2", "n3", "n4"]);
    let first = node.handle(broadcast("c1", "n1", 1, 42)).unwrap();
    assert_eq!(first.len(), 4);
    for k in 0..5 {
        let out = node.handle(broadcast("n2", "n1", 100 + k, 42)).unwrap();
        assert_eq!(out.len(), 1);
        assert!(matches!(out[0].body, MessageBody::BroadcastOk { .. }));
    }
    assert_eq!(node.messages, vec![42]);
    assert_eq!(node.pending.len(), 3);
}

#[test]
fn fanout_excludes_sender_and_stamps_fresh_ids() {
    let mut node = ready_node("n1", &["n1", "n2", "n3", "n4"], &["n2", "n3", "n4"]);
    let out = node.handle(broadcast("n3", "n1", 9, 11)).unwrap();
    assert_eq!(
        out,
        vec![
            msg("n1", "n2", MessageBody::Broadcast { msg_id: Some(3), in_reply_to: Some(9), message: 11 }),
            msg("n1", "n4", MessageBody::Broadcast { msg_id: Some(4), in_reply_to: Some(9), message: 11 }),
            msg("n1", "n3", MessageBody::BroadcastOk { msg_id: Some(5), in_reply_to: Some(9) }),
        ]
    );
    assert_eq!(node.next_msg_id, 5);
    assert_eq!(node.pending, out[..2].to_vec());
}

#[test]
fn ids_are_unique_across_messages() {
    let mut node = ready_node("n1", &["n1", "n2", "n3"], &["n2", "n3"]);
    let mut ids = Vec::new();
    for v in 0..4 {
        for m in node.handle(broadcast("c1", "n1", 50 + v, v)).unwrap() {
            ids.push(m.get_msg_id().unwrap());
        }
    }
    for m in node.handle(read("n1")).unwrap() {
        ids.push(m.get_msg_id().unwrap());
    }
    let mut sorted = ids.clone();
    sorted.sort();
    sorted.dedup();
    assert_eq!(sorted.len(), ids.len());
}

#[test]
fn ack_stops_retries_of_that_id_only() {
    let mut node = ready_node("n1", &["n1", "n2", "n3"], &["n2", "n3"]);
    let out = node.handle(broadcast("c1", "n1", 1, 8)).unwrap();
    let to_n2 = out[0].get_msg_id().unwrap();
    let to_n3 = out[1].get_msg_id().unwrap();
    assert_eq!(node.retry_sweep(), out[..2].to_vec());

    let ack = msg("n2", "n1", MessageBody::BroadcastOk { msg_id: Some(3), in_reply_to: Some(to_n2) });
    assert_eq!(node.handle(ack).unwrap(), vec![]);
    for _ in 0..3 {
        let again = node.retry_sweep();
        assert_eq!(again.len(), 1);
        assert_eq!(again[0].get_msg_id(), Some(to_n3));
        assert_eq!(again[0], out[1]);
    }
}

#[test]
fn ack_without_id_changes_nothing() {
    let mut node = ready_node("n1", &["n1", "n2"], &["n2"]);
    node.handle(broadcast("c1", "n1", 1, 8)).unwrap();
    let ack = msg("n2", "n1", MessageBody::BroadcastOk { msg_id: None, in_reply_to: None });
    assert_eq!(node.handle(ack).unwrap(), vec![]);
    assert_eq!(node.pending.len(), 1);
}

#[test]
fn acknowledge_removes_by_id() {
    let mut node = ready_node("n1", &["n1", "n2", "n3"], &["n2", "n3"]);
    node.handle(broadcast("c1", "n1", 1, 8)).unwrap();
    let first = node.pending[0].get_msg_id().unwrap();
    node.acknowledge(first);
    assert_eq!(node.pending.len(), 1);
    assert_ne!(node.pending[0].get_msg_id(), Some(first));
    node.acknowledge(first);
    assert_eq!(node.pending.len(), 1);
}

#[test]
fn broadcast_before_topology_only_acknowledges() {
    let mut node = Node::new();
    node.handle(init("n1", &["n1", "n2"], 1)).unwrap();
    let out = node.handle(broadcast("n2", "n1", 4, 3)).unwrap();
    assert_eq!(
        out,
        vec![msg("n1", "n2", MessageBody::BroadcastOk { msg_id: Some(2), in_reply_to: Some(4) })]
    );
    assert_eq!(node.messages, vec![3]);
}

#[test]
fn topology_drops_self_and_duplicates() {
    let mut node = Node::new();
    node.handle(init("n1", &["n1", "n2", "n3"], 1)).unwrap();
    node.handle(topology("n1", &[("n2", &["n1"]), ("n1", &["n2", "n1", "n3", "n2"])])).unwrap();
    assert_eq!(node.neighbor_ids, Some(vec!["n2".to_string(), "n3".to_string()]));
}

#[test]
fn topology_without_own_entry_clears_neighbors() {
    let mut node = ready_node("n1", &["n1", "n2"], &["n2"]);
    node.handle(topology("n1", &[("n2", &["n1"])])).unwrap();
    assert_eq!(node.neighbor_ids, None);
    let out = node.handle(broadcast("c1", "n1", 2, 1)).unwrap();
    assert_eq!(out.len(), 1);
}

#[test]
fn echo_is_echoed() {
    let mut node = Node::new();
    node.handle(init("n1", &["n1"], 1)).unwrap();
    let req = msg("c2", "n1", MessageBody::Echo { msg_id: Some(6), in_reply_to: None, echo: "hi".to_string() });
    assert_eq!(
        node.handle(req).unwrap(),
        vec![msg(
            "n1",
            "c2",
            MessageBody::EchoOk { msg_id: Some(2), in_reply_to: Some(6), echo: "hi".to_string() }
        )]
    );
}

#[test]
fn second_init_keeps_identity() {
    let mut node = Node::new();
    node.handle(init("n1", &["n1", "n2"], 1)).unwrap();
    let out = node.handle(init("n9", &["n9"], 2)).unwrap();
    assert_eq!(node.id, "n1");
    assert_eq!(node.ids.len(), 2);
    assert_eq!(out[0].src, "n1");
    assert_eq!(out[0].body, MessageBody::InitOk { msg_id: Some(2), in_reply_to: Some(2) });
}

#[test]
fn request_before_init_is_not_initialized() {
    let mut node = Node::new();
    assert_eq!(node.handle(read("n1")), Err(NodeError::NotInitialized));
    assert_eq!(node.handle(broadcast("n2", "n1", 1, 1)), Err(NodeError::NotInitialized));
    assert_eq!(node.next_msg_id, 0);
    assert!(node.messages.is_empty());
}

#[test]
fn reply_kinds_are_unsupported() {
    let mut node = Node::new();
    node.handle(init("n1", &["n1"], 1)).unwrap();
    let m = msg("n2", "n1", MessageBody::ReadOk { msg_id: None, in_reply_to: None, messages: vec![] });
    assert_eq!(node.handle(m), Err(NodeError::UnsupportedMessageKind));
    let m = msg("n2", "n1", MessageBody::InitOk { msg_id: None, in_reply_to: None });
    assert_eq!(node.handle(m), Err(NodeError::UnsupportedMessageKind));
    assert_eq!(node.next_msg_id, 1);
}

#[test]
fn reply_to_builds_acknowledgment() {
    let mut node = Node::new();
    node.handle(init("n1", &["n1"], 1)).unwrap();
    let req = msg("c1", "n1", MessageBody::Topology { msg_id: Some(3), in_reply_to: None, topology: vec![] });
    let reply = node.reply_to(&req).unwrap();
    assert_eq!(reply, msg("n1", "c1", MessageBody::TopologyOk { msg_id: Some(2), in_reply_to: Some(3) }));
    let bad = msg("c1", "n1", MessageBody::EchoOk { msg_id: None, in_reply_to: None, echo: String::new() });
    assert_eq!(node.reply_to(&bad), Err(NodeError::UnsupportedMessageKind));
    assert_eq!(node.next_msg_id, 2);
}

#[test]
fn get_msg_id_reads_every_kind() {
    let m = msg("a", "b", MessageBody::ReadOk { msg_id: Some(9), in_reply_to: Some(1), messages: vec![1] });
    assert_eq!(m.get_msg_id(), Some(9));
    let m = msg("a", "b", MessageBody::Read { msg_id: None, in_reply_to: None });
    assert_eq!(m.get_msg_id(), None);
    assert_eq!(broadcast("a", "b", 12, 3).get_msg_id(), Some(12));
}

#[test]
fn id_room_runs_out_at_the_top() {
    let mut node = ready_node("n1", &["n1", "n2"], &["n2"]);
    assert!(node.has_id_room());
    node.next_msg_id = usize::MAX - 1;
    assert!(!node.has_id_room());
    node.next_msg_id = usize::MAX - 2;
    assert!(node.has_id_room());
}
