//! Values exchanged between nodes and the broker: identifiers, envelope metadata,
//! handshake frames and the top-level wire frame.

use crate::clock::now_unix_ms;
use vstd::prelude::*;
use vstd::string::StringExecFns;

verus! {

// ── identifiers ─────────────────────────────────────────────────────

/// The name of a message type carried in envelope metadata.
#[derive(Debug, PartialEq, Eq, Hash)]
pub struct MessageKind(String);

impl View for MessageKind {
    type V = Seq<char>;

    closed spec fn view(&self) -> Seq<char> {
        self.0@
    }
}

impl Clone for MessageKind {
    fn clone(&self) -> (kind: Self)
        ensures
            kind == *self,
    {
        MessageKind(self.0.clone())
    }
}

impl MessageKind {
    /// The value spelled `value`.
    pub fn from(value: &str) -> (kind: MessageKind)
        ensures
            kind@ == value@,
    {
        MessageKind(value.to_owned())
    }

    /// The text of the value.
    pub fn to_string(&self) -> (s: String)
        ensures
            s@ == self@,
    {
        self.0.clone()
    }

    pub fn new(value: String) -> (kind: MessageKind)
        ensures
            kind@ == value@,
    {
        MessageKind(value)
    }

    pub fn as_str(&self) -> (s: &str)
        ensures
            s@ == self@,
    {
        self.0.as_str()
    }
}

/// Version of a message's payload schema.
#[derive(Debug, Clone, Copy, PartialEq, Eq, Hash)]
pub struct SchemaVersion(pub u16);

impl Default for SchemaVersion {
    fn default() -> (v: Self)
        ensures
            v.0 == 1,
    {
        SchemaVersion(1)
    }
}

/// Identifier of one message.
#[derive(Debug, Clone, Copy, PartialEq, Eq, Hash)]
pub struct MessageId(pub u64);

/// Identifier tying a reply to the request it answers.
#[derive(Debug, Clone, Copy, PartialEq, Eq, Hash)]
pub struct CorrelationId(pub u64);

impl CorrelationId {
    /// The correlation identifier that answers message `id`: the same number.
    pub fn for_message(id: MessageId) -> (c: CorrelationId)
        ensures
            c.0 == id.0,
    {
        CorrelationId(id.0)
    }
}

/// Identifier of a node connected to a broker.
#[derive(Debug, PartialEq, Eq, Hash)]
pub struct NodeId(String);

impl View for NodeId {
    type V = Seq<char>;

    closed spec fn view(&self) -> Seq<char> {
        self.0@
    }
}

impl Clone for NodeId {
    fn clone(&self) -> (id: Self)
        ensures
            id == *self,
    {
        NodeId(self.0.clone())
    }
}

impl NodeId {
    /// The value spelled `value`.
    pub fn from(value: &str) -> (id: NodeId)
        ensures
            id@ == value@,
    {
        NodeId(value.to_owned())
    }

    /// The text of the value.
    pub fn to_string(&self) -> (s: String)
        ensures
            s@ == self@,
    {
        self.0.clone()
    }

    pub fn new(value: String) -> (id: NodeId)
        ensures
            id@ == value@,
    {
        NodeId(value)
    }

    pub fn as_str(&self) -> (s: &str)
        ensures
            s@ == self@,
    {
        self.0.as_str()
    }

    /// `true` when both identifiers spell the same name.
    pub fn same_as(&self, other: &NodeId) -> (b: bool)
        ensures
            b == (self@ == other@),
    {
        self.0 == other.0
    }
}

/// Identifier of an agent hosted on some node.
#[derive(Debug, PartialEq, Eq, Hash)]
pub struct AgentId(String);

impl View for AgentId {
    type V = Seq<char>;

    closed spec fn view(&self) -> Seq<char> {
        self.0@
    }
}

impl Clone for AgentId {
    fn clone(&self) -> (id: Self)
        ensures
            id == *self,
    {
        AgentId(self.0.clone())
    }
}

impl AgentId {
    /// The value spelled `value`.
    pub fn from(value: &str) -> (id: AgentId)
        ensures
            id@ == value@,
    {
        AgentId(value.to_owned())
    }

    /// The text of the value.
    pub fn to_string(&self) -> (s: String)
        ensures
            s@ == self@,
    {
        self.0.clone()
    }

    pub fn new(value: String) -> (id: AgentId)
        ensures
            id@ == value@,
    {
        AgentId(value)
    }

    pub fn as_str(&self) -> (s: &str)
        ensures
            s@ == self@,
    {
        self.0.as_str()
    }

    /// `true` when both identifiers spell the same name.
    pub fn same_as(&self, other: &AgentId) -> (b: bool)
        ensures
            b == (self@ == other@),
    {
        self.0 == other.0
    }
}

// ── addressing ──────────────────────────────────────────────────────

/// Who an envelope is meant for.
#[derive(Debug, PartialEq, Eq)]
pub enum Recipient {
    Broadcast,
    Agent(AgentId),
    Group(String),
}

impl Clone for Recipient {
    fn clone(&self) -> (r: Self)
        ensures
            r == *self,
    {
        match self {
            Recipient::Broadcast => Recipient::Broadcast,
            Recipient::Agent(agent) => Recipient::Agent(agent.clone()),
            Recipient::Group(group) => Recipient::Group(group.clone()),
        }
    }
}

impl Default for Recipient {
    fn default() -> (r: Self)
        ensures
            (r is Broadcast),
    {
        Recipient::Broadcast
    }
}

/// Whether an envelope addressed to `recipient` is for the agent named `agent`: every
/// broadcast is, an addressed envelope is when the names agree, a group envelope never is.
pub open spec fn recipient_matches(recipient: Recipient, agent: Seq<char>) -> bool {
    match recipient {
        Recipient::Broadcast => true,
        Recipient::Agent(target) => target@ == agent,
        Recipient::Group(_) => false,
    }
}

impl Recipient {
    pub fn matches_agent(&self, agent_id: &AgentId) -> (b: bool)
        ensures
            b == recipient_matches(*self, agent_id@),
    {
        match self {
            Recipient::Broadcast => true,
            Recipient::Agent(target) => target.same_as(agent_id),
            Recipient::Group(_) => false,
        }
    }
}

// ── envelope metadata ───────────────────────────────────────────────

/// Metadata that travels with every envelope.
#[derive(Debug, Clone, PartialEq, Eq)]
pub struct EnvelopeMeta {
    pub message_id: MessageId,
    pub correlation_id: Option<CorrelationId>,
    pub message_kind: MessageKind,
    pub schema_version: SchemaVersion,
    pub sender: Option<AgentId>,
    pub recipient: Recipient,
    pub created_at_unix_ms: u64,
}

impl EnvelopeMeta {
    /// Fresh metadata for message `message_id` of kind `message_kind`: broadcast, without
    /// sender or correlation, at schema version 1, stamped with the current time.
    pub fn new(message_kind: MessageKind, message_id: MessageId) -> (meta: EnvelopeMeta)
        ensures
            meta.message_id == message_id,
            (meta.correlation_id is None),
            meta.message_kind == message_kind,
            meta.schema_version.0 == 1,
            (meta.sender is None),
            (meta.recipient is Broadcast),
    {
        EnvelopeMeta {
            message_id,
            correlation_id: None,
            message_kind,
            schema_version: SchemaVersion::default(),
            sender: None,
            recipient: Recipient::Broadcast,
            created_at_unix_ms: now_unix_ms(),
        }
    }

    pub fn with_schema_version(self, schema_version: SchemaVersion) -> (meta: EnvelopeMeta)
        ensures
            meta == (EnvelopeMeta { schema_version, ..self }),
    {
        EnvelopeMeta { schema_version, ..self }
    }

    pub fn with_sender(self, sender: AgentId) -> (meta: EnvelopeMeta)
        ensures
            meta == (EnvelopeMeta { sender: Some(sender), ..self }),
    {
        EnvelopeMeta { sender: Some(sender), ..self }
    }

    pub fn with_recipient(self, recipient: Recipient) -> (meta: EnvelopeMeta)
        ensures
            meta == (EnvelopeMeta { recipient, ..self }),
    {
        EnvelopeMeta { recipient, ..self }
    }

    pub fn to_agent(self, agent_id: AgentId) -> (meta: EnvelopeMeta)
        ensures
            meta == (EnvelopeMeta { recipient: Recipient::Agent(agent_id), ..self }),
    {
        EnvelopeMeta { recipient: Recipient::Agent(agent_id), ..self }
    }

    pub fn to_group(self, group: String) -> (meta: EnvelopeMeta)
        ensures
            meta == (EnvelopeMeta { recipient: Recipient::Group(group), ..self }),
    {
        EnvelopeMeta { recipient: Recipient::Group(group), ..self }
    }

    pub fn broadcast(self) -> (meta: EnvelopeMeta)
        ensures
            meta == (EnvelopeMeta { recipient: Recipient::Broadcast, ..self }),
    {
        EnvelopeMeta { recipient: Recipient::Broadcast, ..self }
    }

    pub fn with_correlation_id(self, correlation_id: CorrelationId) -> (meta: EnvelopeMeta)
        ensures
            meta == (EnvelopeMeta { correlation_id: Some(correlation_id), ..self }),
    {
        EnvelopeMeta { correlation_id: Some(correlation_id), ..self }
    }
}

/// The character of decimal digit `d`.
pub open spec fn digit_char(d: nat) -> char {
    if d == 0 {
        '0'
    } else if d == 1 {
        '1'
    } else if d == 2 {
        '2'
    } else if d == 3 {
        '3'
    } else if d == 4 {
        '4'
    } else if d == 5 {
        '5'
    } else if d == 6 {
        '6'
    } else if d == 7 {
        '7'
    } else if d == 8 {
        '8'
    } else {
        '9'
    }
}

/// The decimal form of `n`, without leading zeros.
pub open spec fn decimal(n: nat) -> Seq<char>
    decreases n,
{
    if n < 10 {
        seq![digit_char(n)]
    } else {
        decimal(n / 10).push(digit_char(n % 10))
    }
}

/// The one-character text of decimal digit `d`.
fn digit_text(d: u16) -> (s: &'static str)
    requires
        d < 10,
    ensures
        s@ == seq![digit_char(d as nat)],
{
    proof {
        reveal_strlit("0");
        reveal_strlit("1");
        reveal_strlit("2");
        reveal_strlit("3");
        reveal_strlit("4");
        reveal_strlit("5");
        reveal_strlit("6");
        reveal_strlit("7");
        reveal_strlit("8");
        reveal_strlit("9");
    }
    match d {
        0 => "0",
        1 => "1",
        2 => "2",
        3 => "3",
        4 => "4",
        5 => "5",
        6 => "6",
        7 => "7",
        8 => "8",
        _ => "9",
    }
}

/// Appends the decimal form of `n` to `out`.
fn push_decimal(out: &mut String, n: u16)
    ensures
        final(out)@ == old(out)@ + decimal(n as nat),
    decreases n,
{
    if n >= 10 {
        push_decimal(out, n / 10);
        out.append(digit_text(n % 10));
        assert(decimal(n as nat) == decimal((n / 10) as nat).push(digit_char((n % 10) as nat)));
    } else {
        out.append(digit_text(n));
    }
}

// ── handshake ───────────────────────────────────────────────────────

/// Transport-level protocol version used during handshakes.
#[derive(Debug, Clone, Copy, PartialEq, Eq, Hash)]
pub struct ProtocolVersion {
    pub major: u16,
    pub minor: u16,
}

impl ProtocolVersion {
    pub fn new(major: u16, minor: u16) -> (v: ProtocolVersion)
        ensures
            v.major == major,
            v.minor == minor,
    {
        ProtocolVersion { major, minor }
    }

    /// The version this library speaks: 0.1.
    pub fn current() -> (v: ProtocolVersion)
        ensures
            v.major == 0,
            v.minor == 1,
    {
        ProtocolVersion::new(0, 1)
    }

    /// The text form of the version: major and minor number in decimal, joined by a dot.
    pub fn to_string(&self) -> (s: String)
        ensures
            s@ == decimal(self.major as nat) + seq!['.'] + decimal(self.minor as nat),
    {
        let mut s = String::new();
        push_decimal(&mut s, self.major);
        proof {
            reveal_strlit(".");
        }
        s.append(".");
        push_decimal(&mut s, self.minor);
        s
    }

    /// `true` when both versions agree in major and minor number.
    pub fn matches(self, other: ProtocolVersion) -> (b: bool)
        ensures
            b == (self.major == other.major && self.minor == other.minor),
    {
        self.major == other.major && self.minor == other.minor
    }
}

impl Default for ProtocolVersion {
    fn default() -> (v: Self)
        ensures
            v.major == 0,
            v.minor == 1,
    {
        ProtocolVersion::current()
    }
}

/// Payload codecs that peers can agree on during a handshake.
#[derive(Debug, Clone, Copy, PartialEq, Eq, Hash)]
pub enum CodecKind {
    Json,
}

impl CodecKind {
    /// `true` when both name the same codec.
    pub fn same_as(self, other: CodecKind) -> (b: bool)
        ensures
            b == (self == other),
    {
        match (self, other) {
            (CodecKind::Json, CodecKind::Json) => true,
        }
    }

    /// The codec's lowercase name.
    pub fn label(self) -> (s: &'static str)
        ensures
            s@ == "json"@,
    {
        match self {
            CodecKind::Json => "json",
        }
    }
}

/// The JSON payload codec.
#[derive(Debug, Clone, Copy, Default)]
pub struct JsonCodec;

impl JsonCodec {
    pub fn kind(&self) -> (k: CodecKind)
        ensures
            k == CodecKind::Json,
    {
        CodecKind::Json
    }
}

/// The codec a server picks: the first of its own codecs, in its order of preference, that
/// the client also supports.
pub open spec fn first_shared_codec(server: Seq<CodecKind>, client: Seq<CodecKind>) -> Option<CodecKind>
    decreases server.len(),
{
    if server.len() == 0 {
        None
    } else if client.contains(server[0]) {
        Some(server[0])
    } else {
        first_shared_codec(server.drop_first(), client)
    }
}

/// `true` when `codec` occurs in `codecs`.
fn supports_codec(codecs: &[CodecKind], codec: CodecKind) -> (b: bool)
    ensures
        b == codecs@.contains(codec),
{
    let mut i: usize = 0;
    while i < codecs.len()
        invariant
            i <= codecs@.len(),
            forall|j: int| 0 <= j < i ==> codecs@[j] != codec,
        decreases codecs@.len() - i,
    {
        if codecs[i].same_as(codec) {
            return true;
        }
        i = i + 1;
    }
    false
}

/// Negotiates the payload codec (see [`first_shared_codec`]).
pub fn select_codec(server: &[CodecKind], client: &[CodecKind]) -> (c: Option<CodecKind>)
    ensures
        c == first_shared_codec(server@, client@),
{
    let mut i: usize = 0;
    assert(server@.skip(0) =~= server@);
    while i < server.len()
        invariant
            i <= server@.len(),
            first_shared_codec(server@, client@) == first_shared_codec(
                server@.skip(i as int),
                client@,
            ),
        decreases server@.len() - i,
    {
        let codec = server[i];
        proof {
            let rest = server@.skip(i as int);
            assert(rest[0] == codec);
            assert(rest.drop_first() =~= server@.skip(i + 1));
        }
        if supports_codec(client, codec) {
            return Some(codec);
        }
        i = i + 1;
    }
    proof {
        assert(server@.skip(i as int).len() == 0);
    }
    None
}

/// Client to server handshake request.
#[derive(Debug, Clone, PartialEq, Eq)]
pub struct HandshakeHello {
    pub protocol_version: ProtocolVersion,
    pub node_id: NodeId,
    pub supported_codecs: Vec<CodecKind>,
    pub capabilities: Vec<String>,
    pub instance_name: Option<String>,
}

impl HandshakeHello {
    /// A hello from `node_id` at the current protocol version, offering JSON, with no
    /// capabilities and no instance name.
    pub fn new(node_id: NodeId) -> (hello: HandshakeHello)
        ensures
            hello.protocol_version == (ProtocolVersion { major: 0, minor: 1 }),
            hello.node_id == node_id,
            hello.supported_codecs@ == seq![CodecKind::Json],
            hello.capabilities@.len() == 0,
            (hello.instance_name is None),
    {
        HandshakeHello {
            protocol_version: ProtocolVersion::current(),
            node_id,
            supported_codecs: vec![CodecKind::Json],
            capabilities: Vec::new(),
            instance_name: None,
        }
    }

    pub fn with_protocol_version(self, version: ProtocolVersion) -> (hello: HandshakeHello)
        ensures
            hello == (HandshakeHello { protocol_version: version, ..self }),
    {
        HandshakeHello { protocol_version: version, ..self }
    }

    pub fn with_supported_codecs(self, codecs: Vec<CodecKind>) -> (hello: HandshakeHello)
        ensures
            hello == (HandshakeHello { supported_codecs: codecs, ..self }),
    {
        HandshakeHello { supported_codecs: codecs, ..self }
    }

    pub fn with_capabilities(self, capabilities: Vec<String>) -> (hello: HandshakeHello)
        ensures
            hello == (HandshakeHello { capabilities, ..self }),
    {
        HandshakeHello { capabilities, ..self }
    }

    pub fn with_instance_name(self, instance_name: String) -> (hello: HandshakeHello)
        ensures
            hello == (HandshakeHello { instance_name: Some(instance_name), ..self }),
    {
        HandshakeHello { instance_name: Some(instance_name), ..self }
    }
}

/// Server to client handshake success response.
#[derive(Debug, Clone, PartialEq, Eq)]
pub struct HandshakeAck {
    pub protocol_version: ProtocolVersion,
    pub broker_node_id: NodeId,
    pub selected_codec: CodecKind,
    pub capabilities: Vec<String>,
}

/// Why a handshake was refused.
#[derive(Debug, Clone, PartialEq, Eq)]
pub enum HandshakeRejectReason {
    UnsupportedProtocolVersion { expected: ProtocolVersion, received: ProtocolVersion },
    NoSharedCodec { server_supported: Vec<CodecKind>, client_supported: Vec<CodecKind> },
}

/// Server to client handshake rejection response.
#[derive(Debug, Clone, PartialEq, Eq)]
pub struct HandshakeReject {
    pub broker_node_id: Option<NodeId>,
    pub reason: HandshakeRejectReason,
}

impl HandshakeAck {
    /// Whether the broker advertised `capability` in this acknowledgement.
    pub fn supports_capability(&self, capability: &str) -> (b: bool)
        ensures
            b == exists|i: int| 0 <= i < self.capabilities@.len() && #[trigger] self.capabilities@[i]@ == capability@,
    {
        let wanted = capability.to_owned();
        let mut i: usize = 0;
        while i < self.capabilities.len()
            invariant
                i <= self.capabilities@.len(),
                wanted@ == capability@,
                forall|j: int| 0 <= j < i ==> self.capabilities@[j]@ != capability@,
            decreases self.capabilities@.len() - i,
        {
            if self.capabilities[i] == wanted {
                return true;
            }
            i = i + 1;
        }
        false
    }
}

/// How a broker answers handshakes: its identity, the protocol version it speaks, the codecs
/// it supports in order of preference, and the capabilities it advertises.
#[derive(Debug, Clone, PartialEq, Eq)]
pub struct ServerHandshakeConfig {
    pub broker_node_id: NodeId,
    pub protocol_version: ProtocolVersion,
    pub supported_codecs: Vec<CodecKind>,
    pub capabilities: Vec<String>,
}

/// The answer a broker configured by `config` owes `hello`: accepted, with the first shared
/// codec, when the node speaks the broker's protocol version and shares a codec with it;
/// otherwise rejected, a version mismatch taking precedence over a missing codec.
pub open spec fn handshake_answer(
    config: ServerHandshakeConfig,
    hello: HandshakeHello,
    answer: Result<HandshakeAck, HandshakeReject>,
) -> bool {
    if hello.protocol_version != config.protocol_version {
        answer == Err::<HandshakeAck, HandshakeReject>(
            HandshakeReject {
                broker_node_id: Some(config.broker_node_id),
                reason: HandshakeRejectReason::UnsupportedProtocolVersion {
                    expected: config.protocol_version,
                    received: hello.protocol_version,
                },
            },
        )
    } else {
        match first_shared_codec(config.supported_codecs@, hello.supported_codecs@) {
            Some(codec) => match answer {
                Ok(ack) => {
                    &&& ack.protocol_version == config.protocol_version
                    &&& ack.broker_node_id == config.broker_node_id
                    &&& ack.selected_codec == codec
                    &&& ack.capabilities@ == config.capabilities@
                },
                Err(_) => false,
            },
            None => match answer {
                Ok(_) => false,
                Err(reject) => {
                    &&& reject.broker_node_id == Some(config.broker_node_id)
                    &&& match reject.reason {
                        HandshakeRejectReason::NoSharedCodec { server_supported, client_supported } => {
                            &&& server_supported@ == config.supported_codecs@
                            &&& client_supported@ == hello.supported_codecs@
                        },
                        _ => false,
                    }
                },
            },
        }
    }
}

fn clone_strings(values: &Vec<String>) -> (r: Vec<String>)
    ensures
        r@ == values@,
{
    let mut r: Vec<String> = Vec::new();
    let mut i: usize = 0;
    while i < values.len()
        invariant
            i <= values@.len(),
            r@ == values@.take(i as int),
        decreases values@.len() - i,
    {
        r.push(values[i].clone());
        assert(values@.take(i + 1) =~= values@.take(i as int).push(values@[i as int]));
        i = i + 1;
    }
    assert(values@.take(i as int) =~= values@);
    r
}

fn clone_codecs(values: &Vec<CodecKind>) -> (r: Vec<CodecKind>)
    ensures
        r@ == values@,
{
    let mut r: Vec<CodecKind> = Vec::new();
    let mut i: usize = 0;
    while i < values.len()
        invariant
            i <= values@.len(),
            r@ == values@.take(i as int),
        decreases values@.len() - i,
    {
        r.push(values[i]);
        assert(values@.take(i + 1) =~= values@.take(i as int).push(values@[i as int]));
        i = i + 1;
    }
    assert(values@.take(i as int) =~= values@);
    r
}

impl ServerHandshakeConfig {
    /// The configuration of broker `broker_node_id`: the current protocol version, the JSON
    /// codec, and no advertised capability.
    pub fn new(broker_node_id: NodeId) -> (c: ServerHandshakeConfig)
        ensures
            c.broker_node_id == broker_node_id,
            c.protocol_version.major == 0 && c.protocol_version.minor == 1,
            c.supported_codecs@ == seq![CodecKind::Json],
            c.capabilities@.len() == 0,
    {
        ServerHandshakeConfig {
            broker_node_id,
            protocol_version: ProtocolVersion::current(),
            supported_codecs: vec![CodecKind::Json],
            capabilities: Vec::new(),
        }
    }

    /// The same configuration, advertising `capabilities`.
    pub fn with_capabilities(self, capabilities: Vec<String>) -> (c: ServerHandshakeConfig)
        ensures
            c == (ServerHandshakeConfig { capabilities, ..self }),
    {
        ServerHandshakeConfig { capabilities, ..self }
    }

    /// Answers `hello` (see [`handshake_answer`]).
    pub fn answer(&self, hello: &HandshakeHello) -> (r: Result<HandshakeAck, HandshakeReject>)
        ensures
            handshake_answer(*self, *hello, r),
    {
        if !self.protocol_version.matches(hello.protocol_version) {
            return Err(
                HandshakeReject {
                    broker_node_id: Some(self.broker_node_id.clone()),
                    reason: HandshakeRejectReason::UnsupportedProtocolVersion {
                        expected: self.protocol_version,
                        received: hello.protocol_version,
                    },
                },
            );
        }
        match select_codec(self.supported_codecs.as_slice(), hello.supported_codecs.as_slice()) {
            Some(codec) => Ok(
                HandshakeAck {
                    protocol_version: self.protocol_version,
                    broker_node_id: self.broker_node_id.clone(),
                    selected_codec: codec,
                    capabilities: clone_strings(&self.capabilities),
                },
            ),
            None => Err(
                HandshakeReject {
                    broker_node_id: Some(self.broker_node_id.clone()),
                    reason: HandshakeRejectReason::NoSharedCodec {
                        server_supported: clone_codecs(&self.supported_codecs),
                        client_supported: clone_codecs(&hello.supported_codecs),
                    },
                },
            ),
        }
    }
}

/// A node that speaks the broker's protocol version and offers JSON is accepted by a broker
/// that supports JSON alone, and the two agree on JSON.
pub proof fn law_json_peers_are_accepted(
    config: ServerHandshakeConfig,
    hello: HandshakeHello,
    answer: Result<HandshakeAck, HandshakeReject>,
)
    requires
        hello.protocol_version == config.protocol_version,
        config.supported_codecs@ == seq![CodecKind::Json],
        hello.supported_codecs@.contains(CodecKind::Json),
        handshake_answer(config, hello, answer),
    ensures
        answer matches Ok(ack) && ack.selected_codec == CodecKind::Json,
{
    assert(config.supported_codecs@[0] == CodecKind::Json);
}

// ── session frames ──────────────────────────────────────────────────

/// Serialized message frame: metadata and opaque payload bytes.
#[derive(Debug, Clone, PartialEq, Eq)]
pub struct WireEnvelope {
    pub meta: EnvelopeMeta,
    pub payload: Vec<u8>,
}

impl WireEnvelope {
    pub fn new(meta: EnvelopeMeta, payload: Vec<u8>) -> (envelope: WireEnvelope)
        ensures
            envelope.meta == meta,
            envelope.payload == payload,
    {
        WireEnvelope { meta, payload }
    }
}

/// Liveness signal between a node and its broker.
#[derive(Debug, Clone, Copy, PartialEq, Eq)]
pub struct Heartbeat {
    pub sent_at_unix_ms: u64,
}

impl Heartbeat {
    /// A heartbeat stamped with the current time.
    pub fn now() -> (beat: Heartbeat) {
        Heartbeat { sent_at_unix_ms: now_unix_ms() }
    }
}

/// Node to broker registration of locally hosted agents.
#[derive(Debug, Clone, PartialEq, Eq)]
pub struct AdvertiseAgents {
    pub agents: Vec<AgentId>,
}

impl AdvertiseAgents {
    pub fn new(agents: Vec<AgentId>) -> (advertise: AdvertiseAgents)
        ensures
            advertise.agents == agents,
    {
        AdvertiseAgents { agents }
    }
}

/// Broker to node acknowledgement of agent registrations.
#[derive(Debug, Clone, PartialEq, Eq)]
pub struct AdvertiseAck {
    pub registered_agents: usize,
}

/// Node to broker request to join routing groups.
#[derive(Debug, Clone, PartialEq, Eq)]
pub struct GroupJoin {
    pub groups: Vec<String>,
}

/// Node to broker request to leave routing groups.
#[derive(Debug, Clone, PartialEq, Eq)]
pub struct GroupLeave {
    pub groups: Vec<String>,
}

/// Broker to node acknowledgement of a join or leave, naming the groups it concerned.
#[derive(Debug, Clone, PartialEq, Eq)]
pub struct GroupAck {
    pub groups: Vec<String>,
}

/// Node to broker question: which node hosts this agent?
#[derive(Debug, Clone, PartialEq, Eq)]
pub struct LookupAgent {
    pub agent_id: AgentId,
}

/// Broker to node answer to a [`LookupAgent`].
#[derive(Debug, Clone, PartialEq, Eq)]
pub struct LookupAgentResult {
    pub agent_id: AgentId,
    pub node_id: Option<NodeId>,
}

/// Top-level framed payload exchanged between nodes and the broker.
#[derive(Debug, Clone, PartialEq, Eq)]
pub enum WireFrame {
    Hello(HandshakeHello),
    HelloAck(HandshakeAck),
    HelloReject(HandshakeReject),
    AdvertiseAgents(AdvertiseAgents),
    AdvertiseAck(AdvertiseAck),
    GroupJoin(GroupJoin),
    GroupLeave(GroupLeave),
    GroupAck(GroupAck),
    LookupAgent(LookupAgent),
    LookupAgentResult(LookupAgentResult),
    Envelope(WireEnvelope),
    Heartbeat(Heartbeat),
}

/// The short name of each frame variant, as used in diagnostics.
pub open spec fn frame_kind_name(frame: WireFrame) -> Seq<char> {
    match frame {
        WireFrame::Hello(_) => "hello"@,
        WireFrame::HelloAck(_) => "hello_ack"@,
        WireFrame::HelloReject(_) => "hello_reject"@,
        WireFrame::AdvertiseAgents(_) => "advertise_agents"@,
        WireFrame::AdvertiseAck(_) => "advertise_ack"@,
        WireFrame::GroupJoin(_) => "group_join"@,
        WireFrame::GroupLeave(_) => "group_leave"@,
        WireFrame::GroupAck(_) => "group_ack"@,
        WireFrame::LookupAgent(_) => "lookup_agent"@,
        WireFrame::LookupAgentResult(_) => "lookup_agent_result"@,
        WireFrame::Envelope(_) => "envelope"@,
        WireFrame::Heartbeat(_) => "heartbeat"@,
    }
}

impl WireFrame {
    pub fn kind_name(&self) -> (name: &'static str)
        ensures
            name@ == frame_kind_name(*self),
    {
        match self {
            WireFrame::Hello(_) => "hello",
            WireFrame::HelloAck(_) => "hello_ack",
            WireFrame::HelloReject(_) => "hello_reject",
            WireFrame::AdvertiseAgents(_) => "advertise_agents",
            WireFrame::AdvertiseAck(_) => "advertise_ack",
            WireFrame::GroupJoin(_) => "group_join",
            WireFrame::GroupLeave(_) => "group_leave",
            WireFrame::GroupAck(_) => "group_ack",
            WireFrame::LookupAgent(_) => "lookup_agent",
            WireFrame::LookupAgentResult(_) => "lookup_agent_result",
            WireFrame::Envelope(_) => "envelope",
            WireFrame::Heartbeat(_) => "heartbeat",
        }
    }
}


/// `frame` is the reply to the request correlated by `correlation`: an envelope that carries
/// that correlation identifier.
pub open spec fn answers_request(frame: WireFrame, correlation: CorrelationId) -> bool {
    match frame {
        WireFrame::Envelope(envelope) => envelope.meta.correlation_id == Some(correlation),
        _ => false,
    }
}

/// What a node waiting for a reply does with a frame it received.
#[derive(Debug)]
pub enum RequestStep {
    /// The frame is the awaited reply.
    Reply(WireEnvelope),
    /// The frame is unrelated; it is kept for later reads, in arrival order.
    Buffer(WireFrame),
}

/// Sorts a frame received while waiting for the reply correlated by `correlation`.
pub fn on_request_frame(frame: WireFrame, correlation: CorrelationId) -> (step: RequestStep)
    ensures
        match step {
            RequestStep::Reply(envelope) => answers_request(frame, correlation) && frame == WireFrame::Envelope(envelope),
            RequestStep::Buffer(kept) => !answers_request(frame, correlation) && kept == frame,
        },
{
    let matches = match &frame {
        WireFrame::Envelope(envelope) => match envelope.meta.correlation_id {
            Some(id) => id.0 == correlation.0,
            None => false,
        },
        _ => false,
    };
    if matches {
        match frame {
            WireFrame::Envelope(envelope) => RequestStep::Reply(envelope),
            other => RequestStep::Buffer(other),
        }
    } else {
        RequestStep::Buffer(frame)
    }
}

} // verus!
