use arbiter::observe::{ObserveEvent, ObserveEventKind};
use arbiter::protocol::NodeId;
use arbiter::replay::{ReplayError, ReplayHarness, ReplayLog, ReplayMismatch};

fn connected(name: &str) -> ObserveEvent {
    ObserveEvent::new(ObserveEventKind::BrokerNodeConnected { node_id: NodeId::new(name.to_string()) })
}

#[test]
fn replay_harness_surfaces_mismatch() {
    let log = ReplayLog::new(vec![connected("node-a")]);

    let error = ReplayHarness::replay_recorded_order(&log, |_index, _event| {
        Err(ReplayMismatch::new("expected different event".to_string()))
    })
    .expect_err("expected replay mismatch");

    match error {
        ReplayError::ReplayMismatch { index, reason } => {
            assert_eq!(index, 0);
            assert_eq!(reason, "expected different event");
        },
        other => panic!("unexpected error: {other:?}"),
    }
}

#[test]
fn replay_visits_events_in_recorded_order() {
    let log = ReplayLog::new(vec![connected("node-a"), connected("node-b"), connected("node-c")]);
    let names = ["node-a", "node-b", "node-c"];
    let result = ReplayHarness::replay_recorded_order(&log, |index, event| match &event.kind {
        ObserveEventKind::BrokerNodeConnected { node_id } if node_id.as_str() == names[index] => Ok(()),
        _ => Err(ReplayMismatch::new(format!("bad event at {index}"))),
    });
    assert!(result.is_ok());
}

#[test]
fn replay_stops_at_the_first_objection() {
    let log = ReplayLog::new(vec![connected("node-a"), connected("node-b"), connected("node-c")]);
    let seen = std::cell::Cell::new(0usize);
    let result = ReplayHarness::replay_recorded_order(&log, |index, _event| {
        seen.set(seen.get() + 1);
        if index == 1 { Err(ReplayMismatch::new("second".to_string())) } else { Ok(()) }
    });
    match result {
        Err(ReplayError::ReplayMismatch { index, reason }) => {
            assert_eq!(index, 1);
            assert_eq!(reason, "second");
        },
        other => panic!("unexpected result: {other:?}"),
    }
    assert_eq!(seen.get(), 2);
}

#[test]
fn empty_logs_replay_cleanly() {
    let log = ReplayLog::new(vec![]);
    assert!(ReplayHarness::replay_recorded_order(&log, |_i, _e| Err(ReplayMismatch::new("never".to_string()))).is_ok());
}
