use std::time::Instant;

use arbiter::broker::{silent_longer_than, BrokerState, FrameResponse};
use arbiter::lifecycle::{on_handle_result, HandleResultKind};
use arbiter::protocol::{
    on_request_frame, AgentId, CorrelationId, EnvelopeMeta, Heartbeat, RequestStep, MessageId, MessageKind, NodeId, ProtocolVersion, WireEnvelope, WireFrame,
};
use arbiter::supervision::{RestartPolicy, Supervisor};
use arbiter::time::Duration;
use tokio::sync::mpsc;

fn node(name: &str) -> NodeId {
    NodeId::new(name.to_string())
}

#[test]
fn silence_is_compared_strictly_with_the_timeout() {
    let timeout = Duration::from_millis(250);
    assert!(!silent_longer_than(250_000_000, timeout));
    assert!(silent_longer_than(250_000_001, timeout));
    assert!(!silent_longer_than(0, Duration::zero()));
}

#[test]
fn reregistered_node_gets_its_new_queue() {
    let (old_tx, _old_rx) = mpsc::channel(1);
    let mut state = BrokerState::new();
    state.register_peer(node("node-a"), old_tx);
    let envelope = WireEnvelope::new(
        EnvelopeMeta::new(MessageKind::new("example.broadcast".to_string()), MessageId(1)).broadcast(),
        vec![1, 2],
    );
    // Fill the first queue.
    let first = state.route_envelope(&node("src"), envelope.clone());
    assert_eq!(first.recipients.len(), 1);
    let (new_tx, mut new_rx) = mpsc::channel(1);
    state.register_peer(node("node-a"), new_tx);
    assert_eq!(state.snapshot().connected_nodes, 1);
    let second = state.route_envelope(&node("src"), envelope.clone());
    assert_eq!(second.recipients.len(), 1);
    assert_eq!(second.backpressure_drops, 0);
    match new_rx.try_recv() {
        Ok(WireFrame::Envelope(sent)) => assert_eq!(sent, envelope),
        other => panic!("unexpected: {other:?}"),
    }
}

#[test]
fn touching_a_peer_keeps_it_connected() {
    let (tx, _rx) = mpsc::channel(4);
    let mut state = BrokerState::new();
    state.register_peer(node("node-a"), tx);
    state.touch_peer_at(&node("node-a"), Instant::now());
    state.touch_peer_at(&node("node-b"), Instant::now());
    assert_eq!(state.snapshot().connected_nodes, 1);
    assert!(!state.is_peer_timed_out(&node("node-a"), Duration::from_secs(30)));
    assert!(!state.is_peer_timed_out(&node("node-b"), Duration::zero()));
}

#[test]
fn addressed_envelope_reaches_only_its_agents_node() {
    let (tx_a, mut rx_a) = mpsc::channel(4);
    let (tx_b, mut rx_b) = mpsc::channel(4);
    let mut state = BrokerState::new();
    state.register_peer(node("node-a"), tx_a);
    state.register_peer(node("node-b"), tx_b);
    state.register_agents(&node("node-b"), &arbiter::protocol::AdvertiseAgents::new(vec![AgentId::from("agent-b")]));
    let envelope = WireEnvelope::new(
        EnvelopeMeta::new(MessageKind::from("example.msg"), MessageId(9)).to_agent(AgentId::from("agent-b")),
        vec![7],
    );
    let outcome = state.route_envelope(&node("node-a"), envelope.clone());
    assert_eq!(outcome.recipients.len(), 1);
    assert_eq!(outcome.recipients[0].as_str(), "node-b");
    assert!(rx_a.try_recv().is_err());
    match rx_b.try_recv() {
        Ok(WireFrame::Envelope(sent)) => assert_eq!(sent, envelope),
        other => panic!("unexpected: {other:?}"),
    }
}

#[test]
fn identifiers_convert_from_text_and_back() {
    let agent = AgentId::from("agent-b");
    assert_eq!(agent.as_str(), "agent-b");
    assert_eq!(agent, AgentId::new("agent-b".to_string()));
    assert_eq!(agent.to_string(), "agent-b");
    assert_eq!(NodeId::from("node-a").to_string(), "node-a");
    assert_eq!(MessageKind::from("example.msg").to_string(), "example.msg");
}

#[test]
fn protocol_version_text() {
    assert_eq!(ProtocolVersion::current().to_string(), "0.1");
    assert_eq!(ProtocolVersion::new(12, 305).to_string(), "12.305");
    assert_eq!(ProtocolVersion::default(), ProtocolVersion::current());
}

#[test]
fn handler_results_decide_the_agent_step() {
    assert!(on_handle_result(HandleResultKind::Message).broadcast_reply);
    assert!(on_handle_result(HandleResultKind::Update).update_environment);
    assert!(on_handle_result(HandleResultKind::Nothing).snapshot);
    let stop = on_handle_result(HandleResultKind::Stop);
    assert!(stop.exit && !stop.snapshot && !stop.broadcast_reply);
}

#[test]
fn supervisor_counters_over_a_history() {
    let mut s = Supervisor::new(RestartPolicy::Immediate { max_restarts: 1 });
    s.record_failure();
    s.record_failure();
    s.record_success();
    s.record_failure();
    let stats = s.stats();
    assert_eq!(stats.total_failures, 3);
    assert_eq!(stats.consecutive_failures, 1);
    assert_eq!(stats.total_restarts, 2);
    assert_eq!(s.policy(), RestartPolicy::Immediate { max_restarts: 1 });
}

#[test]
fn request_frames_are_sorted_by_correlation() {
    let reply = WireEnvelope::new(
        EnvelopeMeta::new(MessageKind::from("example.reply"), MessageId(5))
            .with_correlation_id(CorrelationId(42)),
        vec![2, 3, 4],
    );
    match on_request_frame(WireFrame::Envelope(reply.clone()), CorrelationId(42)) {
        RequestStep::Reply(envelope) => assert_eq!(envelope, reply),
        other => panic!("unexpected: {other:?}"),
    }
    let stray = WireEnvelope::new(EnvelopeMeta::new(MessageKind::from("example.stray"), MessageId(6)), vec![1]);
    match on_request_frame(WireFrame::Envelope(stray.clone()), CorrelationId(42)) {
        RequestStep::Buffer(WireFrame::Envelope(kept)) => assert_eq!(kept, stray),
        other => panic!("unexpected: {other:?}"),
    }
    match on_request_frame(WireFrame::Envelope(reply), CorrelationId(7)) {
        RequestStep::Buffer(_) => {},
        other => panic!("unexpected: {other:?}"),
    }
}

#[test]
fn last_seen_of_reads_the_nodes_own_reading() {
    let (tx_a, _rx_a) = mpsc::channel(1);
    let (tx_b, _rx_b) = mpsc::channel(1);
    let mut state = BrokerState::new();
    state.register_peer(node("node-a"), tx_a);
    state.register_peer(node("node-b"), tx_b);
    let early = Instant::now() - std::time::Duration::from_secs(60);
    let late = Instant::now();
    state.touch_peer_at(&node("node-a"), early);
    state.touch_peer_at(&node("node-b"), late);
    assert_eq!(state.last_seen_of(&node("node-a")), Some(early));
    assert_eq!(state.last_seen_of(&node("node-b")), Some(late));
    assert_eq!(state.last_seen_of(&node("node-c")), None);
    assert!(state.is_peer_timed_out(&node("node-a"), Duration::from_secs(30)));
    assert!(!state.is_peer_timed_out(&node("node-b"), Duration::from_secs(30)));
}

#[test]
fn every_frame_renews_the_senders_heartbeat_time() {
    let (tx_a, _rx_a) = mpsc::channel(1);
    let (tx_b, _rx_b) = mpsc::channel(1);
    let mut state = BrokerState::new();
    state.register_peer(node("node-a"), tx_a);
    state.register_peer(node("node-b"), tx_b);
    let early = Instant::now() - std::time::Duration::from_secs(60);
    state.touch_peer_at(&node("node-a"), early);
    state.touch_peer_at(&node("node-b"), early);
    let now = Instant::now();
    let response = state.handle_frame(&node("node-a"), WireFrame::Heartbeat(Heartbeat { sent_at_unix_ms: 5 }), now);
    assert!(matches!(response, FrameResponse::Ignore));
    assert_eq!(state.last_seen_of(&node("node-a")), Some(now));
    assert_eq!(state.last_seen_of(&node("node-b")), Some(early));
    assert!(!state.is_peer_timed_out(&node("node-a"), Duration::from_secs(30)));
    assert!(state.is_peer_timed_out(&node("node-b"), Duration::from_secs(30)));
}
