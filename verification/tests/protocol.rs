use arbiter::clock::{now_unix_ms, timestamp_from_reading};
use arbiter::protocol::{
    select_codec, AdvertiseAgents, AgentId, CodecKind, CorrelationId, EnvelopeMeta, HandshakeHello,
    Heartbeat, JsonCodec, MessageId, MessageKind, NodeId, ProtocolVersion, Recipient, SchemaVersion,
    WireEnvelope, WireFrame,
};

fn meta(kind: &str, id: u64) -> EnvelopeMeta {
    EnvelopeMeta::new(MessageKind::new(kind.to_string()), MessageId(id))
}

#[test]
fn identifiers_keep_their_text() {
    assert_eq!(MessageKind::new("example.msg".to_string()).as_str(), "example.msg");
    assert_eq!(NodeId::new("node-a".to_string()).as_str(), "node-a");
    assert_eq!(AgentId::new("agent-1".to_string()).as_str(), "agent-1");
    assert!(NodeId::new("a".to_string()).same_as(&NodeId::new("a".to_string())));
    assert!(!AgentId::new("a".to_string()).same_as(&AgentId::new("b".to_string())));
}

#[test]
fn fresh_metadata_is_a_broadcast_at_schema_one() {
    let m = meta("example.msg", 42);
    assert_eq!(m.message_id, MessageId(42));
    assert_eq!(m.correlation_id, None);
    assert_eq!(m.message_kind.as_str(), "example.msg");
    assert_eq!(m.schema_version, SchemaVersion(1));
    assert_eq!(m.sender, None);
    assert_eq!(m.recipient, Recipient::Broadcast);
    assert!(m.created_at_unix_ms > 0);
}

#[test]
fn metadata_builders_set_one_field_each() {
    let base = meta("example.msg", 7);
    let with_agent = base.clone().to_agent(AgentId::new("agent-b".to_string()));
    assert_eq!(with_agent.recipient, Recipient::Agent(AgentId::new("agent-b".to_string())));
    assert_eq!(with_agent.message_id, MessageId(7));

    let grouped = with_agent.clone().to_group("workers".to_string());
    assert_eq!(grouped.recipient, Recipient::Group("workers".to_string()));
    assert_eq!(grouped.clone().broadcast().recipient, Recipient::Broadcast);

    let correlated = base.clone().with_correlation_id(CorrelationId::for_message(MessageId(7)));
    assert_eq!(correlated.correlation_id, Some(CorrelationId(7)));

    let sent = base.clone().with_sender(AgentId::new("me".to_string()));
    assert_eq!(sent.sender, Some(AgentId::new("me".to_string())));

    let versioned = base.clone().with_schema_version(SchemaVersion(3));
    assert_eq!(versioned.schema_version, SchemaVersion(3));
    assert_eq!(versioned.created_at_unix_ms, base.created_at_unix_ms);

    let readdressed = base.with_recipient(Recipient::Group("g".to_string()));
    assert_eq!(readdressed.recipient, Recipient::Group("g".to_string()));
}

#[test]
fn recipients_match_agents_as_addressed() {
    let me = AgentId::new("agent-1".to_string());
    assert!(Recipient::Broadcast.matches_agent(&me));
    assert!(Recipient::Agent(AgentId::new("agent-1".to_string())).matches_agent(&me));
    assert!(!Recipient::Agent(AgentId::new("agent-2".to_string())).matches_agent(&me));
    assert!(!Recipient::Group("agent-1".to_string()).matches_agent(&me));
    assert_eq!(Recipient::default(), Recipient::Broadcast);
}

#[test]
fn protocol_versions_match_exactly() {
    let current = ProtocolVersion::current();
    assert_eq!((current.major, current.minor), (0, 1));
    assert_eq!(ProtocolVersion::default(), current);
    assert!(current.matches(ProtocolVersion::new(0, 1)));
    assert!(!current.matches(ProtocolVersion::new(0, 2)));
    assert!(!current.matches(ProtocolVersion::new(1, 1)));
}

#[test]
fn hello_defaults_and_builders() {
    let hello = HandshakeHello::new(NodeId::new("node-a".to_string()));
    assert_eq!(hello.protocol_version, ProtocolVersion::current());
    assert_eq!(hello.node_id.as_str(), "node-a");
    assert_eq!(hello.supported_codecs, vec![CodecKind::Json]);
    assert!(hello.capabilities.is_empty());
    assert_eq!(hello.instance_name, None);

    let hello = hello
        .with_protocol_version(ProtocolVersion::new(2, 0))
        .with_supported_codecs(vec![])
        .with_capabilities(vec!["coord.group.v1".to_string()])
        .with_instance_name("bench".to_string());
    assert_eq!(hello.protocol_version, ProtocolVersion::new(2, 0));
    assert!(hello.supported_codecs.is_empty());
    assert_eq!(hello.capabilities, vec!["coord.group.v1".to_string()]);
    assert_eq!(hello.instance_name, Some("bench".to_string()));
}

#[test]
fn codec_selection_prefers_the_server_order() {
    assert_eq!(select_codec(&[CodecKind::Json], &[CodecKind::Json]), Some(CodecKind::Json));
    assert_eq!(select_codec(&[CodecKind::Json], &[]), None);
    assert_eq!(select_codec(&[], &[CodecKind::Json]), None);
    assert_eq!(JsonCodec.kind(), CodecKind::Json);
    assert_eq!(CodecKind::Json.label(), "json");
}

#[test]
fn frames_name_their_kind() {
    let envelope = WireEnvelope::new(meta("k", 1), vec![1, 2]);
    assert_eq!(envelope.payload, vec![1, 2]);
    assert_eq!(WireFrame::Envelope(envelope).kind_name(), "envelope");
    assert_eq!(WireFrame::Heartbeat(Heartbeat::now()).kind_name(), "heartbeat");
    let hello = HandshakeHello::new(NodeId::new("n".to_string()));
    assert_eq!(WireFrame::Hello(hello).kind_name(), "hello");
    let advertise = AdvertiseAgents::new(vec![AgentId::new("a".to_string())]);
    assert_eq!(advertise.agents.len(), 1);
    assert_eq!(WireFrame::AdvertiseAgents(advertise).kind_name(), "advertise_agents");
}

#[test]
fn clock_readings_become_saturated_timestamps() {
    assert_eq!(timestamp_from_reading(Some(1_700_000_000_000)), 1_700_000_000_000);
    assert_eq!(timestamp_from_reading(Some(u128::MAX)), u64::MAX);
    assert_eq!(timestamp_from_reading(None), 0);
    assert!(now_unix_ms() > 1_600_000_000_000);
    assert!(Heartbeat::now().sent_at_unix_ms > 1_600_000_000_000);
}
