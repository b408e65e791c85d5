//! Structured observability events emitted by brokers and nodes.

use crate::clock::now_unix_ms;
use crate::protocol::{
    AgentId, CodecKind, CorrelationId, MessageId, MessageKind, NodeId, ProtocolVersion, Recipient,
    SchemaVersion, WireEnvelope,
};
use vstd::prelude::*;

verus! {

/// Envelope metadata summary included in observability events and replay logs.
#[derive(Debug, PartialEq, Eq)]
pub struct EnvelopeSummary {
    pub message_id: MessageId,
    pub correlation_id: Option<CorrelationId>,
    pub message_kind: MessageKind,
    pub schema_version: SchemaVersion,
    pub sender: Option<AgentId>,
    pub recipient: Recipient,
    pub payload_len_bytes: usize,
}

impl Clone for EnvelopeSummary {
    fn clone(&self) -> (s: Self)
        ensures
            s == *self,
    {
        EnvelopeSummary {
            message_id: self.message_id,
            correlation_id: self.correlation_id,
            message_kind: self.message_kind.clone(),
            schema_version: self.schema_version,
            sender: match &self.sender {
                Some(sender) => Some(sender.clone()),
                None => None,
            },
            recipient: self.recipient.clone(),
            payload_len_bytes: self.payload_len_bytes,
        }
    }
}

impl EnvelopeSummary {
    /// The summary of `envelope`: its metadata without the timestamp, and its payload size.
    pub fn from_wire_envelope(envelope: &WireEnvelope) -> (s: EnvelopeSummary)
        ensures
            s.message_id == envelope.meta.message_id,
            s.correlation_id == envelope.meta.correlation_id,
            s.message_kind == envelope.meta.message_kind,
            s.schema_version == envelope.meta.schema_version,
            s.sender == envelope.meta.sender,
            s.recipient == envelope.meta.recipient,
            s.payload_len_bytes == envelope.payload@.len(),
    {
        EnvelopeSummary {
            message_id: envelope.meta.message_id,
            correlation_id: envelope.meta.correlation_id,
            message_kind: envelope.meta.message_kind.clone(),
            schema_version: envelope.meta.schema_version,
            sender: match &envelope.meta.sender {
                Some(sender) => Some(sender.clone()),
                None => None,
            },
            recipient: envelope.meta.recipient.clone(),
            payload_len_bytes: envelope.payload.len(),
        }
    }
}

/// Event payloads for broker and node lifecycle and message routing.
#[derive(Debug, Clone, PartialEq, Eq)]
pub enum ObserveEventKind {
    BrokerHandshakeAccepted { node_id: NodeId, protocol_version: ProtocolVersion, codec: CodecKind },
    BrokerHandshakeRejected { reason: String },
    BrokerNodeConnected { node_id: NodeId },
    BrokerNodeDisconnected { node_id: NodeId, reason: String },
    BrokerAgentsAdvertised { node_id: NodeId, agent_count: usize },
    BrokerEnvelopeRouted { source_node_id: NodeId, envelope: EnvelopeSummary, recipients: Vec<NodeId> },
    BrokerEnvelopeDropped { source_node_id: NodeId, envelope: EnvelopeSummary, reason: String },
    BrokerHeartbeatTimeout { node_id: NodeId },
    NodeConnected {
        node_id: NodeId,
        broker_node_id: NodeId,
        protocol_version: ProtocolVersion,
        codec: CodecKind,
    },
    NodeAgentsAdvertised { node_id: NodeId, agent_count: usize },
    NodeFrameSent { node_id: NodeId, frame_kind: String, envelope: Option<EnvelopeSummary> },
    NodeFrameReceived { node_id: NodeId, frame_kind: String, envelope: Option<EnvelopeSummary> },
}

/// One structured observability event and when it happened.
#[derive(Debug, Clone, PartialEq, Eq)]
pub struct ObserveEvent {
    pub timestamp_unix_ms: u64,
    pub kind: ObserveEventKind,
}

impl ObserveEvent {
    /// The event `kind`, stamped with the current time.
    pub fn new(kind: ObserveEventKind) -> (event: ObserveEvent)
        ensures
            event.kind == kind,
    {
        ObserveEvent { timestamp_unix_ms: now_unix_ms(), kind }
    }
}

} // verus!
