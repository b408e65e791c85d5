use arbiter::broker::{envelope_events, BrokerState, DropReason, FrameResponse};
use arbiter::observe::{EnvelopeSummary, ObserveEventKind};
use arbiter::protocol::{
    AdvertiseAgents, AgentId, EnvelopeMeta, GroupJoin, GroupLeave, LookupAgent, MessageId,
    MessageKind, NodeId, WireEnvelope, WireFrame,
};
use arbiter::time::Duration;
use tokio::sync::mpsc;

fn node(name: &str) -> NodeId {
    NodeId::new(name.to_string())
}

fn agent(name: &str) -> AgentId {
    AgentId::new(name.to_string())
}

fn meta(kind: &str) -> EnvelopeMeta {
    EnvelopeMeta::new(MessageKind::new(kind.to_string()), MessageId(1))
}

fn names(nodes: &[NodeId]) -> Vec<&str> {
    nodes.iter().map(|n| n.as_str()).collect()
}

#[test]
fn broker_counts_backpressure_drops_for_full_outbound_queue() {
    let (tx, _rx) = mpsc::channel(1);
    let mut state = BrokerState::new();
    state.register_peer(NodeId::new("node-1".to_string()), tx);

    let envelope = WireEnvelope::new(meta("example.broadcast").broadcast(), vec![1]);

    state.route_envelope(&node("source"), envelope.clone());
    assert_eq!(state.snapshot().backpressure_drops, 0);

    state.route_envelope(&node("source"), envelope);
    assert_eq!(state.snapshot().backpressure_drops, 1);
}

#[test]
fn addressed_envelopes_reach_only_the_owning_node() {
    let (tx_a, mut rx_a) = mpsc::channel(8);
    let (tx_b, mut rx_b) = mpsc::channel(8);
    let mut state = BrokerState::new();
    state.register_peer(node("node-a"), tx_a);
    state.register_peer(node("node-b"), tx_b);
    let ack = state.register_agents(&node("node-b"), &AdvertiseAgents::new(vec![agent("agent-b")]));
    assert_eq!(ack.registered_agents, 1);

    let envelope = WireEnvelope::new(meta("example.msg").to_agent(agent("agent-b")), vec![1, 2, 3]);
    let outcome = state.route_envelope(&node("node-a"), envelope.clone());
    assert_eq!(names(&outcome.recipients), vec!["node-b"]);
    assert_eq!(outcome.drop_reason, None);
    assert_eq!(rx_b.try_recv().unwrap(), WireFrame::Envelope(envelope));
    assert!(rx_a.try_recv().is_err());
}

#[test]
fn broadcasts_reach_every_connected_node() {
    let (tx_a, mut rx_a) = mpsc::channel(8);
    let (tx_b, mut rx_b) = mpsc::channel(8);
    let mut state = BrokerState::new();
    state.register_peer(node("node-a"), tx_a);
    state.register_peer(node("node-b"), tx_b);
    let envelope = WireEnvelope::new(meta("example.broadcast"), vec![9]);
    let outcome = state.route_envelope(&node("node-a"), envelope.clone());
    assert_eq!(names(&outcome.recipients), vec!["node-a", "node-b"]);
    assert_eq!(outcome.backpressure_drops, 0);
    assert_eq!(rx_a.try_recv().unwrap(), WireFrame::Envelope(envelope.clone()));
    assert_eq!(rx_b.try_recv().unwrap(), WireFrame::Envelope(envelope));
}

#[test]
fn unknown_agents_and_groups_are_counted_as_unknown_recipients() {
    let (tx, _rx) = mpsc::channel(8);
    let mut state = BrokerState::new();
    state.register_peer(node("node-a"), tx);

    let to_missing = WireEnvelope::new(meta("m").to_agent(agent("missing")), vec![]);
    let outcome = state.route_envelope(&node("node-a"), to_missing);
    assert!(outcome.recipients.is_empty());
    assert_eq!(outcome.drop_reason, Some(DropReason::UnknownRecipient));

    let to_group = WireEnvelope::new(meta("m").to_group("nobody".to_string()), vec![]);
    let outcome = state.route_envelope(&node("node-a"), to_group);
    assert_eq!(outcome.drop_reason, Some(DropReason::UnknownGroup));
    assert_eq!(DropReason::UnknownGroup.label(), "unknown_group");
    assert_eq!(state.snapshot().unknown_recipient_drops, 2);
    assert_eq!(state.snapshot().backpressure_drops, 0);
}

#[test]
fn routes_to_vanished_nodes_are_unknown_recipients() {
    let mut state = BrokerState::new();
    state.register_agents(&node("ghost"), &AdvertiseAgents::new(vec![agent("agent-x")]));
    let envelope = WireEnvelope::new(meta("m").to_agent(agent("agent-x")), vec![]);
    let outcome = state.route_envelope(&node("src"), envelope);
    assert_eq!(outcome.drop_reason, Some(DropReason::UnknownRecipient));
    assert_eq!(state.snapshot().unknown_recipient_drops, 1);
}

#[test]
fn group_messages_follow_joins_and_leaves() {
    let (tx_a, mut rx_a) = mpsc::channel(8);
    let (tx_b, mut rx_b) = mpsc::channel(8);
    let (tx_c, mut rx_c) = mpsc::channel(8);
    let mut state = BrokerState::new();
    state.register_peer(node("node-a"), tx_a);
    state.register_peer(node("node-b"), tx_b);
    state.register_peer(node("node-c"), tx_c);
    let join = GroupJoin { groups: vec!["workers".to_string()] };
    let ack = state.join_groups(&node("node-b"), &join);
    assert_eq!(ack.groups, vec!["workers".to_string()]);
    state.join_groups(&node("node-c"), &join);

    let first = WireEnvelope::new(meta("example.group").to_group("workers".to_string()), vec![4, 2]);
    let outcome = state.route_envelope(&node("node-a"), first.clone());
    assert_eq!(names(&outcome.recipients), vec!["node-b", "node-c"]);
    assert_eq!(rx_b.try_recv().unwrap(), WireFrame::Envelope(first.clone()));
    assert_eq!(rx_c.try_recv().unwrap(), WireFrame::Envelope(first));
    assert!(rx_a.try_recv().is_err());

    state.leave_groups(&node("node-c"), &GroupLeave { groups: vec!["workers".to_string()] });
    let second = WireEnvelope::new(meta("example.group").to_group("workers".to_string()), vec![9]);
    let outcome = state.route_envelope(&node("node-a"), second.clone());
    assert_eq!(names(&outcome.recipients), vec!["node-b"]);
    assert_eq!(rx_b.try_recv().unwrap(), WireFrame::Envelope(second));
    assert!(rx_c.try_recv().is_err());

    state.leave_groups(&node("node-b"), &GroupLeave { groups: vec!["workers".to_string()] });
    let third = WireEnvelope::new(meta("example.group").to_group("workers".to_string()), vec![]);
    let outcome = state.route_envelope(&node("node-a"), third);
    assert_eq!(outcome.drop_reason, Some(DropReason::UnknownGroup));
}

#[test]
fn lookups_answer_the_registered_owner() {
    let mut state = BrokerState::new();
    state.register_agents(&node("node-b"), &AdvertiseAgents::new(vec![agent("agent-b")]));
    let found = state.lookup_agent(&agent("agent-b"));
    assert_eq!(found.agent_id.as_str(), "agent-b");
    assert_eq!(found.node_id.as_ref().map(NodeId::as_str), Some("node-b"));
    let missing = state.lookup_agent(&agent("missing-agent"));
    assert_eq!(missing.agent_id.as_str(), "missing-agent");
    assert_eq!(missing.node_id, None);

    state.register_agents(&node("node-c"), &AdvertiseAgents::new(vec![agent("agent-b")]));
    assert_eq!(state.lookup_agent(&agent("agent-b")).node_id.unwrap().as_str(), "node-c");
    assert_eq!(state.snapshot().registered_agents, 1);
}

#[test]
fn disconnecting_a_node_removes_its_routes_and_memberships() {
    let (tx_b, _rx_b) = mpsc::channel(8);
    let (tx_c, _rx_c) = mpsc::channel(8);
    let mut state = BrokerState::new();
    state.register_peer(node("node-b"), tx_b);
    state.register_peer(node("node-c"), tx_c);
    state.register_agents(&node("node-b"), &AdvertiseAgents::new(vec![agent("agent-b"), agent("agent-b-2")]));
    state.register_agents(&node("node-c"), &AdvertiseAgents::new(vec![agent("agent-c")]));
    state.join_groups(&node("node-b"), &GroupJoin { groups: vec!["solo".to_string(), "shared".to_string()] });
    state.join_groups(&node("node-c"), &GroupJoin { groups: vec!["shared".to_string()] });

    let before = state.snapshot();
    assert_eq!(before.connected_nodes, 2);
    assert_eq!(before.registered_agents, 3);

    state.remove_peer(&node("node-b"));
    let after = state.snapshot();
    assert_eq!(after.connected_nodes, 1);
    assert_eq!(after.registered_agents, 1);
    assert_eq!(state.lookup_agent(&agent("agent-b")).node_id, None);
    assert_eq!(state.lookup_agent(&agent("agent-c")).node_id.unwrap().as_str(), "node-c");

    let solo = WireEnvelope::new(meta("m").to_group("solo".to_string()), vec![]);
    assert_eq!(state.route_envelope(&node("x"), solo).drop_reason, Some(DropReason::UnknownGroup));
    let shared = WireEnvelope::new(meta("m").to_group("shared".to_string()), vec![]);
    assert_eq!(names(&state.route_envelope(&node("x"), shared).recipients), vec!["node-c"]);
}

#[test]
fn reconnecting_a_node_keeps_one_peer_entry() {
    let (tx1, _rx1) = mpsc::channel(8);
    let (tx2, _rx2) = mpsc::channel(8);
    let mut state = BrokerState::new();
    state.register_peer(node("node-a"), tx1);
    state.register_peer(node("node-a"), tx2);
    assert_eq!(state.snapshot().connected_nodes, 1);
    state.touch_peer(&node("node-a"));
    assert!(!state.is_peer_timed_out(&node("node-a"), Duration::from_secs(30)));
    assert!(!state.is_peer_timed_out(&node("unknown"), Duration::zero()));
}

#[test]
fn silent_peers_time_out() {
    let (tx, _rx) = mpsc::channel(8);
    let mut state = BrokerState::new();
    state.register_peer(node("idle"), tx);
    let start = std::time::Instant::now();
    while start.elapsed() < std::time::Duration::from_millis(3) {}
    assert!(state.is_peer_timed_out(&node("idle"), Duration::from_millis(1)));
}

#[test]
fn frames_are_answered_or_routed() {
    let (tx_a, _rx_a) = mpsc::channel(8);
    let (tx_b, mut rx_b) = mpsc::channel(8);
    let mut state = BrokerState::new();
    state.register_peer(node("node-a"), tx_a);
    state.register_peer(node("node-b"), tx_b);

    match state.handle_frame(&node("node-b"), WireFrame::AdvertiseAgents(AdvertiseAgents::new(vec![agent("agent-b")])), std::time::Instant::now()) {
        FrameResponse::Reply(WireFrame::AdvertiseAck(ack)) => assert_eq!(ack.registered_agents, 1),
        other => panic!("unexpected response: {other:?}"),
    }
    match state.handle_frame(&node("node-a"), WireFrame::LookupAgent(LookupAgent { agent_id: agent("agent-b") }), std::time::Instant::now()) {
        FrameResponse::Reply(WireFrame::LookupAgentResult(result)) => {
            assert_eq!(result.node_id.unwrap().as_str(), "node-b")
        },
        other => panic!("unexpected response: {other:?}"),
    }
    match state.handle_frame(&node("node-c"), WireFrame::GroupJoin(GroupJoin { groups: vec!["g".to_string()] }), std::time::Instant::now()) {
        FrameResponse::Reply(WireFrame::GroupAck(ack)) => assert_eq!(ack.groups, vec!["g".to_string()]),
        other => panic!("unexpected response: {other:?}"),
    }
    match state.handle_frame(&node("node-c"), WireFrame::GroupLeave(GroupLeave { groups: vec!["g".to_string()] }), std::time::Instant::now()) {
        FrameResponse::Reply(WireFrame::GroupAck(ack)) => assert_eq!(ack.groups, vec!["g".to_string()]),
        other => panic!("unexpected response: {other:?}"),
    }
    let envelope = WireEnvelope::new(meta("example.msg").to_agent(agent("agent-b")), vec![7, 8, 9]);
    match state.handle_frame(&node("node-a"), WireFrame::Envelope(envelope.clone()), std::time::Instant::now()) {
        FrameResponse::Routed { summary, outcome } => {
            assert_eq!(summary.payload_len_bytes, 3);
            assert_eq!(names(&outcome.recipients), vec!["node-b"]);
            let events = envelope_events(&node("node-a"), &summary, &outcome);
            assert_eq!(events.len(), 1);
            match &events[0] {
                ObserveEventKind::BrokerEnvelopeRouted { source_node_id, envelope, recipients } => {
                    assert_eq!(source_node_id.as_str(), "node-a");
                    assert_eq!(envelope, &summary);
                    assert_eq!(names(recipients), vec!["node-b"]);
                },
                other => panic!("unexpected event: {other:?}"),
            }
        },
        other => panic!("unexpected response: {other:?}"),
    }
    assert_eq!(rx_b.try_recv().unwrap(), WireFrame::Envelope(envelope));
    assert!(matches!(state.handle_frame(&node("node-a"), WireFrame::Heartbeat(arbiter::protocol::Heartbeat::now()), std::time::Instant::now()), FrameResponse::Ignore));
}

#[test]
fn drops_are_reported_with_their_reason() {
    let mut state = BrokerState::new();
    let envelope = WireEnvelope::new(meta("m").to_agent(agent("nobody")), vec![]);
    let summary = EnvelopeSummary::from_wire_envelope(&envelope);
    let outcome = state.route_envelope(&node("node-a"), envelope);
    let events = envelope_events(&node("node-a"), &summary, &outcome);
    assert_eq!(events.len(), 1);
    match &events[0] {
        ObserveEventKind::BrokerEnvelopeDropped { reason, .. } => assert_eq!(reason, "unknown_recipient"),
        other => panic!("unexpected event: {other:?}"),
    }
}
