use arbiter::ids::{FabricId, InMemoryAddress};
use arbiter::messager::{ControlFlow, Message, MessageFrom, MessageTo, To};
use arbiter::observe::EnvelopeSummary;
use arbiter::protocol::{AgentId, CorrelationId, EnvelopeMeta, MessageId, MessageKind, WireEnvelope};

#[test]
fn fabric_ids_lay_out_counters_little_endian() {
    let id = FabricId::from_counter(0x0102_0304_0506_0708);
    assert_eq!(id.as_bytes(), &[8, 7, 6, 5, 4, 3, 2, 1, 0, 0, 0, 0, 0, 0, 0, 0]);
    assert_eq!(FabricId::from_counter(1).as_bytes()[0], 1);
    let raw = [9u8; 16];
    assert_eq!(FabricId::from_bytes(raw).as_bytes(), &raw);
}

#[test]
fn envelope_summaries_copy_metadata_and_measure_payloads() {
    let meta = EnvelopeMeta::new(MessageKind::new("example.msg".to_string()), MessageId(11))
        .with_correlation_id(CorrelationId(5))
        .to_agent(AgentId::new("agent-1".to_string()));
    let envelope = WireEnvelope::new(meta.clone(), vec![1, 2, 3, 4]);
    let summary = EnvelopeSummary::from_wire_envelope(&envelope);
    assert_eq!(summary.message_id, MessageId(11));
    assert_eq!(summary.correlation_id, Some(CorrelationId(5)));
    assert_eq!(summary.message_kind, meta.message_kind);
    assert_eq!(summary.recipient, meta.recipient);
    assert_eq!(summary.payload_len_bytes, 4);
    assert_eq!(summary.clone(), summary);
}

#[test]
fn world_messages_carry_their_addressing() {
    let message = Message { from: "a".to_string(), to: To::Agent("b".to_string()), data: "{}".to_string() };
    let to = MessageTo { to: message.to.clone(), data: message.data.clone() };
    let from = MessageFrom { from: message.from.clone(), data: message.data.clone() };
    assert_eq!(to.to, To::Agent("b".to_string()));
    assert_eq!(from.from, "a");
    assert_ne!(ControlFlow::Halt, ControlFlow::Continue);
}

#[test]
fn fabric_label_shows_the_first_four_bytes_in_hex() {
    let id = FabricId::from_counter(0x0000_0000_ab0f_1203);
    assert_eq!(id.label(), "fabric-03120fab");
    assert_eq!(FabricId::from_bytes([0xff; 16]).label(), "fabric-ffffffff");
}

#[test]
fn agent_address_from_counter_and_label() {
    let a = InMemoryAddress::from_counter(0x0102_0304_0506_0708);
    let bytes = a.as_bytes();
    assert_eq!(&bytes[..8], &[8, 7, 6, 5, 4, 3, 2, 1]);
    assert!(bytes[8..].iter().all(|b| *b == 0));
    assert_eq!(a.label(), "agent-08070605");
    let raw = [0x5a; 32];
    assert_eq!(InMemoryAddress::from_bytes(raw).as_bytes(), &raw);
    assert_eq!(InMemoryAddress::from_counter(1), InMemoryAddress::from_counter(1));
    assert_ne!(InMemoryAddress::from_counter(1), InMemoryAddress::from_counter(2));
}
