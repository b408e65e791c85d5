use arbiter::protocol::{
    CodecKind, HandshakeHello, HandshakeRejectReason, NodeId, ProtocolVersion, ServerHandshakeConfig,
};

fn broker() -> ServerHandshakeConfig {
    ServerHandshakeConfig::new(NodeId::new("broker-1".to_string()))
}

#[test]
fn matching_hello_is_acknowledged_with_capabilities() {
    let config = broker().with_capabilities(vec!["coord.lookup".to_string()]);
    let hello = HandshakeHello::new(NodeId::new("node-a".to_string()));
    let ack = config.answer(&hello).expect("accepted");
    assert_eq!(ack.protocol_version, ProtocolVersion::new(0, 1));
    assert_eq!(ack.broker_node_id.as_str(), "broker-1");
    assert_eq!(ack.selected_codec, CodecKind::Json);
    assert!(ack.supports_capability("coord.lookup"));
    assert!(!ack.supports_capability("coord.unknown.v1"));
}

#[test]
fn other_protocol_version_is_rejected() {
    let hello = HandshakeHello::new(NodeId::new("node-a".to_string()))
        .with_protocol_version(ProtocolVersion::new(1, 0));
    let reject = broker().answer(&hello).expect_err("rejected");
    assert_eq!(reject.broker_node_id.as_ref().map(|n| n.as_str().to_string()), Some("broker-1".to_string()));
    assert_eq!(
        reject.reason,
        HandshakeRejectReason::UnsupportedProtocolVersion {
            expected: ProtocolVersion::new(0, 1),
            received: ProtocolVersion::new(1, 0),
        }
    );
}

#[test]
fn hello_without_a_shared_codec_is_rejected() {
    let hello = HandshakeHello::new(NodeId::new("node-a".to_string())).with_supported_codecs(vec![]);
    let reject = broker().answer(&hello).expect_err("rejected");
    assert_eq!(
        reject.reason,
        HandshakeRejectReason::NoSharedCodec {
            server_supported: vec![CodecKind::Json],
            client_supported: vec![],
        }
    );
}

#[test]
fn version_mismatch_takes_precedence_over_codecs() {
    let hello = HandshakeHello::new(NodeId::new("node-a".to_string()))
        .with_protocol_version(ProtocolVersion::new(0, 2))
        .with_supported_codecs(vec![]);
    let reject = broker().answer(&hello).expect_err("rejected");
    assert!(matches!(reject.reason, HandshakeRejectReason::UnsupportedProtocolVersion { .. }));
}
