//! The broker's routing state: connected nodes, the agents they host, the groups they
//! joined, and how an envelope from one node reaches the others.

use crate::observe::{EnvelopeSummary, ObserveEventKind};
use crate::protocol::{
    AdvertiseAck, AdvertiseAgents, AgentId, EnvelopeMeta, GroupAck, GroupJoin, GroupLeave,
    LookupAgentResult, NodeId, Recipient, WireEnvelope, WireFrame,
};
use crate::time::Duration;
use std::time::Instant;
use tokio::sync::mpsc::Sender;
use vstd::prelude::*;
use vstd::string::StringExecFns;

verus! {

#[verifier::external_type_specification]
#[verifier::external_body]
#[verifier::reject_recursive_types(T)]
pub struct ExSender<T>(Sender<T>);

#[verifier::external_type_specification]
#[verifier::external_body]
pub struct ExInstant(Instant);


/// Reads the monotonic clock (`Instant::now`). Nothing is stated of the reading.
#[verifier::external_body]
fn instant_now() -> Instant {
    Instant::now()
}

/// The time elapsed since `earlier` (`Instant::elapsed`). Nothing is stated of the value: it
/// depends on when the call is made.
#[verifier::external_body]
fn elapsed_since(earlier: &Instant) -> std::time::Duration {
    earlier.elapsed()
}

/// The whole nanoseconds of `elapsed` (`Duration::as_nanos`). Nothing is stated: the
/// standard duration is opaque here.
#[verifier::external_body]
fn whole_nanos(elapsed: std::time::Duration) -> u128 {
    elapsed.as_nanos()
}

/// Whether a node silent for `silent_nanos` nanoseconds has been silent for longer than
/// `timeout`.
pub fn silent_longer_than(silent_nanos: u128, timeout: Duration) -> (b: bool)
    ensures
        b == (silent_nanos > timeout@),
{
    silent_nanos > timeout.as_nanos()
}

/// A connected node: its identity, the queue of frames bound for it, and when it was last
/// heard from.
pub struct Peer {
    node_id: NodeId,
    outbound_tx: Sender<WireFrame>,
    last_seen: Instant,
}

/// One entry of the agent routing table.
pub struct AgentRoute {
    agent_id: AgentId,
    node_id: NodeId,
}

/// A routing group and the nodes in it, in the order they joined.
pub struct GroupMembers {
    name: String,
    members: Vec<NodeId>,
}

/// Counters and sizes of a broker's state, as reported to operators.
#[derive(Debug, Clone, Default, PartialEq, Eq)]
pub struct BrokerSnapshot {
    pub connected_nodes: usize,
    pub registered_agents: usize,
    pub backpressure_drops: u64,
    pub unknown_recipient_drops: u64,
    pub unsupported_group_drops: u64,
}

/// Why an envelope, or some of its copies, could not be delivered.
#[derive(Debug, Clone, Copy, PartialEq, Eq)]
pub enum DropReason {
    /// Every targeted node's outbound queue was full or closed.
    Backpressure,
    /// The addressed agent is not registered, or its node is gone.
    UnknownRecipient,
    /// The addressed group does not exist.
    UnknownGroup,
}

/// The name a drop event gives each reason.
pub open spec fn drop_label(reason: DropReason) -> Seq<char> {
    match reason {
        DropReason::Backpressure => "backpressure"@,
        DropReason::UnknownRecipient => "unknown_recipient"@,
        DropReason::UnknownGroup => "unknown_group"@,
    }
}

impl DropReason {
    /// The reason's name as reported in drop events.
    pub fn label(self) -> (s: &'static str)
        ensures
            s@ == drop_label(self),
    {
        match self {
            DropReason::Backpressure => "backpressure",
            DropReason::UnknownRecipient => "unknown_recipient",
            DropReason::UnknownGroup => "unknown_group",
        }
    }
}

/// What became of one routed envelope.
#[derive(Debug)]
pub struct RouteOutcome {
    /// The nodes whose outbound queue accepted a copy.
    pub recipients: Vec<NodeId>,
    /// Copies refused by full or closed outbound queues.
    pub backpressure_drops: u64,
    /// Set when the envelope reached no one for a reason worth reporting.
    pub drop_reason: Option<DropReason>,
}

/// Counts the members of a group that are connected peers.
pub open spec fn connected_count(members: Seq<Seq<char>>, peers: Seq<Seq<char>>) -> nat
    decreases members.len(),
{
    if members.len() == 0 {
        0
    } else {
        connected_count(members.drop_last(), peers) + if peers.contains(members.last()) {
            1nat
        } else {
            0nat
        }
    }
}

/// The drop reason of a fan-out that reached `delivered` nodes and was refused `refused`
/// times: backpressure when every attempt was refused, none otherwise.
pub open spec fn fan_out_reason(delivered: nat, refused: nat) -> Option<DropReason> {
    if delivered == 0 && refused > 0 {
        Some(DropReason::Backpressure)
    } else {
        None
    }
}

/// What a connection must do after the broker handled one frame from its node.
#[derive(Debug)]
pub enum FrameResponse {
    /// Nothing to send back.
    Ignore,
    /// Send this frame back to the node.
    Reply(WireFrame),
    /// An envelope was routed; report it.
    Routed { summary: EnvelopeSummary, outcome: RouteOutcome },
}

impl RouteOutcome {
    /// The drop reason a report names (see [`RouteOutcome::reported_drop`]).
    pub open spec fn reported_drop_spec(&self) -> Option<DropReason> {
        if self.drop_reason is Some {
            self.drop_reason
        } else if self.backpressure_drops > 0 {
            Some(DropReason::Backpressure)
        } else {
            None
        }
    }

    /// The drop reason a report names: the outcome's own reason, or backpressure when some
    /// copies were refused although others got through.
    pub fn reported_drop(&self) -> (r: Option<DropReason>)
        ensures
            r == self.reported_drop_spec(),
    {
        match self.drop_reason {
            Some(reason) => Some(reason),
            None => if self.backpressure_drops > 0 {
                Some(DropReason::Backpressure)
            } else {
                None
            },
        }
    }
}

/// Copies a list of node identifiers.
fn clone_nodes(nodes: &Vec<NodeId>) -> (r: Vec<NodeId>)
    ensures
        r@ == nodes@,
{
    let mut r: Vec<NodeId> = Vec::new();
    let mut i: usize = 0;
    while i < nodes.len()
        invariant
            i <= nodes@.len(),
            r@ == nodes@.take(i as int),
        decreases nodes@.len() - i,
    {
        r.push(nodes[i].clone());
        assert(nodes@.take(i + 1) =~= nodes@.take(i as int).push(nodes@[i as int]));
        i = i + 1;
    }
    assert(nodes@.take(i as int) =~= nodes@);
    r
}

/// The events that report how an envelope from `source` was routed: a routed event naming
/// the recipients when any node got a copy, then a dropped event naming the reported drop
/// reason when there is one (see [`RouteOutcome::reported_drop`]).
pub fn envelope_events(source: &NodeId, summary: &EnvelopeSummary, outcome: &RouteOutcome) -> (events: Vec<ObserveEventKind>)
    ensures
        reports_route(events@, *source, *summary, *outcome),
{
    let mut events: Vec<ObserveEventKind> = Vec::new();
    if outcome.recipients.len() > 0 {
        events.push(
            ObserveEventKind::BrokerEnvelopeRouted {
                source_node_id: source.clone(),
                envelope: summary.clone(),
                recipients: clone_nodes(&outcome.recipients),
            },
        );
    }
    if let Some(reason) = outcome.reported_drop() {
        events.push(
            ObserveEventKind::BrokerEnvelopeDropped {
                source_node_id: source.clone(),
                envelope: summary.clone(),
                reason: String::from_str(reason.label()),
            },
        );
    }
    events
}

/// Routing state shared by all of a broker's connections.
pub struct BrokerState {
    peers: Vec<Peer>,
    agent_routes: Vec<AgentRoute>,
    groups: Vec<GroupMembers>,
    backpressure_drops: u64,
    unknown_recipient_drops: u64,
    unsupported_group_drops: u64,
    route_view: Ghost<Map<Seq<char>, Seq<char>>>,
    group_view: Ghost<Map<Seq<char>, Seq<Seq<char>>>>,
    offers: Ghost<Seq<(Seq<char>, WireFrame, bool)>>,
}

/// Offers `frame` to the outbound channel of the peer at position `p` without waiting
/// (`Sender::try_send`), tells whether the channel took it, and records the offer (the
/// peer's node, the frame, the answer) at the end of the state's offer log; the state is
/// otherwise unchanged. The answer itself is not stated: it depends on how full the channel
/// is and whether its receiver still exists.
#[verifier::external_body]
fn try_send_frame(state: &mut BrokerState, p: usize, frame: WireFrame) -> (queued: bool)
    requires
        p < old(state).peers@.len(),
    ensures
        final(state).peers == old(state).peers,
        final(state).agent_routes == old(state).agent_routes,
        final(state).groups == old(state).groups,
        final(state).backpressure_drops == old(state).backpressure_drops,
        final(state).unknown_recipient_drops == old(state).unknown_recipient_drops,
        final(state).unsupported_group_drops == old(state).unsupported_group_drops,
        final(state).route_view == old(state).route_view,
        final(state).group_view == old(state).group_view,
        final(state).offers@ == old(state).offers@.push(
            (old(state).peers@[p as int].node_id@, frame, queued),
        ),
{
    state.peers[p].outbound_tx.try_send(frame).is_ok()
}

/// The names of a list of node identifiers.
pub open spec fn node_names(nodes: Seq<NodeId>) -> Seq<Seq<char>> {
    nodes.map_values(|n: NodeId| n@)
}

/// The names of a list of agent identifiers.
pub open spec fn agent_names(agents: Seq<AgentId>) -> Seq<Seq<char>> {
    agents.map_values(|a: AgentId| a@)
}

/// The routing entries name each agent once and agree with the route map.
spec fn routes_agree(entries: Seq<AgentRoute>, view: Map<Seq<char>, Seq<char>>) -> bool {
    &&& forall|i: int, j: int|
        0 <= i < j < entries.len() ==> entries[i].agent_id@ != entries[j].agent_id@
    &&& forall|a: Seq<char>|
        #![trigger view.contains_key(a)]
        view.contains_key(a) <==> exists|i: int| 0 <= i < entries.len() && entries[i].agent_id@ == a
    &&& forall|i: int|
        #![trigger entries[i]]
        0 <= i < entries.len() ==> view[entries[i].agent_id@] == entries[i].node_id@
}

/// Writing the route at position `p`, in place of the entry for the same agent or at the end
/// for a new agent, keeps the entries in agreement with the map that gains that route.
proof fn lemma_route_written(
    before: Seq<AgentRoute>,
    after: Seq<AgentRoute>,
    view: Map<Seq<char>, Seq<char>>,
    p: int,
)
    requires
        routes_agree(before, view),
        0 <= p < after.len(),
        after.len() == before.len() || (after.len() == before.len() + 1 && p == before.len()),
        p < before.len() ==> before[p].agent_id@ == after[p].agent_id@,
        p == before.len() ==> !view.contains_key(after[p].agent_id@),
        forall|i: int| 0 <= i < after.len() && i != p ==> after[i] == before[i],
    ensures
        routes_agree(after, view.insert(after[p].agent_id@, after[p].node_id@)),
{
    let a = after[p].agent_id@;
    let v = view.insert(a, after[p].node_id@);
    assert forall|i: int| 0 <= i < after.len() && i != p implies after[i].agent_id@ != a by {
        assert(after[i] == before[i]);
        if p < before.len() {
            if i < p {
                assert(before[i].agent_id@ != before[p].agent_id@);
            } else {
                assert(before[p].agent_id@ != before[i].agent_id@);
            }
        } else if before[i].agent_id@ == a {
            assert(view.contains_key(a));
        }
    }
    assert forall|i: int, j: int| 0 <= i < j < after.len() implies after[i].agent_id@ != after[j].agent_id@ by {
        if i != p && j != p {
            assert(after[i] == before[i] && after[j] == before[j]);
        }
    }
    assert forall|x: Seq<char>| #[trigger] v.contains_key(x) implies exists|i: int| 0 <= i < after.len() && after[i].agent_id@ == x by {
        if x != a {
            let i = choose|i: int| 0 <= i < before.len() && before[i].agent_id@ == x;
            assert(after[i] == before[i]);
        }
    }
    assert forall|x: Seq<char>| (exists|i: int| 0 <= i < after.len() && after[i].agent_id@ == x) implies #[trigger] v.contains_key(x) by {
        let i = choose|i: int| 0 <= i < after.len() && after[i].agent_id@ == x;
        if i != p {
            assert(after[i] == before[i]);
        }
    }
    assert forall|i: int| 0 <= i < after.len() implies #[trigger] v[after[i].agent_id@] == after[i].node_id@ by {
        if i != p {
            assert(after[i] == before[i]);
        }
    }
}

/// Writing the entry at position `p`, in place of the entry for the same group or at the end
/// for a new group, keeps the entries in agreement with the map that gains that entry's
/// members, provided they are distinct and not empty.
proof fn lemma_group_written(
    before: Seq<GroupMembers>,
    after: Seq<GroupMembers>,
    view: Map<Seq<char>, Seq<Seq<char>>>,
    p: int,
)
    requires
        groups_agree(before, view),
        0 <= p < after.len(),
        after.len() == before.len() || (after.len() == before.len() + 1 && p == before.len()),
        p < before.len() ==> before[p].name@ == after[p].name@,
        p == before.len() ==> !view.contains_key(after[p].name@),
        node_names(after[p].members@).no_duplicates(),
        after[p].members@.len() > 0,
        forall|i: int| 0 <= i < after.len() && i != p ==> after[i] == before[i],
    ensures
        groups_agree(after, view.insert(after[p].name@, node_names(after[p].members@))),
{
    let g = after[p].name@;
    let v = view.insert(g, node_names(after[p].members@));
    assert forall|i: int| 0 <= i < after.len() && i != p implies after[i].name@ != g by {
        assert(after[i] == before[i]);
        if p < before.len() {
            if i < p {
                assert(before[i].name@ != before[p].name@);
            } else {
                assert(before[p].name@ != before[i].name@);
            }
        } else if before[i].name@ == g {
            assert(view.contains_key(g));
        }
    }
    assert forall|i: int, j: int| 0 <= i < j < after.len() implies after[i].name@ != after[j].name@ by {
        if i != p && j != p {
            assert(after[i] == before[i] && after[j] == before[j]);
        }
    }
    assert forall|x: Seq<char>| #[trigger] v.contains_key(x) implies exists|i: int| 0 <= i < after.len() && after[i].name@ == x by {
        if x != g {
            let i = choose|i: int| 0 <= i < before.len() && before[i].name@ == x;
            assert(after[i] == before[i]);
        }
    }
    assert forall|x: Seq<char>| (exists|i: int| 0 <= i < after.len() && after[i].name@ == x) implies #[trigger] v.contains_key(x) by {
        let i = choose|i: int| 0 <= i < after.len() && after[i].name@ == x;
        if i != p {
            assert(after[i] == before[i]);
        }
    }
    assert forall|i: int| 0 <= i < after.len() implies {
        &&& v[#[trigger] after[i].name@] == node_names(after[i].members@)
        &&& node_names(after[i].members@).no_duplicates()
        &&& after[i].members@.len() > 0
    } by {
        if i != p {
            assert(after[i] == before[i]);
        }
    }
}

/// The group entries name each group once, list each member once, are never empty, and
/// agree with the group map.
spec fn groups_agree(entries: Seq<GroupMembers>, view: Map<Seq<char>, Seq<Seq<char>>>) -> bool {
    &&& forall|i: int, j: int| 0 <= i < j < entries.len() ==> entries[i].name@ != entries[j].name@
    &&& forall|g: Seq<char>|
        #![trigger view.contains_key(g)]
        view.contains_key(g) <==> exists|i: int| 0 <= i < entries.len() && entries[i].name@ == g
    &&& forall|i: int|
        #![trigger entries[i]]
        0 <= i < entries.len() ==> {
            &&& view[entries[i].name@] == node_names(entries[i].members@)
            &&& node_names(entries[i].members@).no_duplicates()
            &&& entries[i].members@.len() > 0
        }
}

impl BrokerState {
    /// The connected nodes, in the order they connected.
    pub closed spec fn peer_ids(&self) -> Seq<Seq<char>> {
        self.peers@.map_values(|p: Peer| p.node_id@)
    }

    /// When each connected node was last heard from, in the order of [`peer_ids`].
    pub closed spec fn last_seen(&self) -> Seq<Instant> {
        self.peers@.map_values(|p: Peer| p.last_seen)
    }

    /// Every frame offered to a peer's outbound queue so far, oldest first: the node whose
    /// queue it was offered to, the frame, and whether the queue accepted it.
    pub closed spec fn offer_log(&self) -> Seq<(Seq<char>, WireFrame, bool)> {
        self.offers@
    }

    /// The outbound queue of each connected node, in the order of [`peer_ids`].
    pub closed spec fn queues(&self) -> Seq<Sender<WireFrame>> {
        self.peers@.map_values(|p: Peer| p.outbound_tx)
    }

    /// Which node hosts each registered agent.
    pub closed spec fn routes(&self) -> Map<Seq<char>, Seq<char>> {
        self.route_view@
    }

    /// The members of each routing group, in the order they joined.
    pub closed spec fn groups(&self) -> Map<Seq<char>, Seq<Seq<char>>> {
        self.group_view@
    }

    /// Envelopes dropped so far because a peer's outbound queue was full or closed.
    pub closed spec fn backpressure_total(&self) -> u64 {
        self.backpressure_drops
    }

    /// Envelopes dropped so far because their recipient or group was unknown.
    pub closed spec fn unknown_recipient_total(&self) -> u64 {
        self.unknown_recipient_drops
    }

    /// Envelopes dropped so far for want of group routing support.
    pub closed spec fn unsupported_group_total(&self) -> u64 {
        self.unsupported_group_drops
    }

    spec fn group_member_names(&self, i: int) -> Seq<Seq<char>> {
        node_names(self.groups@[i].members@)
    }

    spec fn routes_wf(&self) -> bool {
        routes_agree(self.agent_routes@, self.route_view@)
    }

    spec fn groups_wf(&self) -> bool {
        groups_agree(self.groups@, self.group_view@)
    }

    /// The state's internal consistency: each node, agent and group is listed once, the
    /// tables agree with their views, and no group is empty.
    pub closed spec fn wf(&self) -> bool {
        &&& self.peer_ids().no_duplicates()
        &&& self.routes_wf()
        &&& self.groups_wf()
    }

    /// An empty state: no peers, routes or groups, all counters at zero.
    pub fn new() -> (s: BrokerState)
        ensures
            s.wf(),
            s.peer_ids().len() == 0,
            s.routes() == Map::<Seq<char>, Seq<char>>::empty(),
            s.groups() == Map::<Seq<char>, Seq<Seq<char>>>::empty(),
            s.backpressure_total() == 0,
            s.unknown_recipient_total() == 0,
            s.unsupported_group_total() == 0,
            s.offer_log() == Seq::<(Seq<char>, WireFrame, bool)>::empty(),
    {
        BrokerState {
            peers: Vec::new(),
            agent_routes: Vec::new(),
            groups: Vec::new(),
            backpressure_drops: 0,
            unknown_recipient_drops: 0,
            unsupported_group_drops: 0,
            route_view: Ghost(Map::empty()),
            group_view: Ghost(Map::empty()),
            offers: Ghost(Seq::empty()),
        }
    }

    /// The index of the peer named `node_id`, if it is connected.
    fn find_peer(&self, node_id: &NodeId) -> (k: Option<usize>)
        ensures
            match k {
                Some(k) => k < self.peers@.len() && self.peer_ids()[k as int] == node_id@,
                None => !self.peer_ids().contains(node_id@),
            },
    {
        let mut i: usize = 0;
        while i < self.peers.len()
            invariant
                i <= self.peers@.len(),
                forall|j: int| 0 <= j < i ==> self.peer_ids()[j] != node_id@,
            decreases self.peers@.len() - i,
        {
            if self.peers[i].node_id.same_as(node_id) {
                return Some(i);
            }
            i = i + 1;
        }
        None
    }

    /// The index of the routing entry for `agent_id`, if there is one.
    fn find_route(&self, agent_id: &AgentId) -> (k: Option<usize>)
        requires
            self.wf(),
        ensures
            match k {
                Some(k) => k < self.agent_routes@.len() && self.agent_routes@[k as int].agent_id@
                    == agent_id@,
                None => !self.routes().contains_key(agent_id@),
            },
    {
        let mut i: usize = 0;
        while i < self.agent_routes.len()
            invariant
                i <= self.agent_routes@.len(),
                forall|j: int| 0 <= j < i ==> self.agent_routes@[j].agent_id@ != agent_id@,
            decreases self.agent_routes@.len() - i,
        {
            if self.agent_routes[i].agent_id.same_as(agent_id) {
                return Some(i);
            }
            i = i + 1;
        }
        None
    }

    /// The index of the group named `name`, if it exists.
    fn find_group(&self, name: &String) -> (k: Option<usize>)
        requires
            self.wf(),
        ensures
            match k {
                Some(k) => k < self.groups@.len() && self.groups@[k as int].name@ == name@,
                None => !self.groups().contains_key(name@),
            },
    {
        let mut i: usize = 0;
        while i < self.groups.len()
            invariant
                i <= self.groups@.len(),
                forall|j: int| 0 <= j < i ==> self.groups@[j].name@ != name@,
            decreases self.groups@.len() - i,
        {
            if self.groups[i].name == *name {
                return Some(i);
            }
            i = i + 1;
        }
        None
    }

    /// The state's counters and table sizes.
    pub fn snapshot(&self) -> (s: BrokerSnapshot)
        requires
            self.wf(),
        ensures
            s.connected_nodes == self.peer_ids().len(),
            s.registered_agents == self.routes().len(),
            s.backpressure_drops == self.backpressure_total(),
            s.unknown_recipient_drops == self.unknown_recipient_total(),
            s.unsupported_group_drops == self.unsupported_group_total(),
    {
        proof {
            self.lemma_route_count();
        }
        BrokerSnapshot {
            connected_nodes: self.peers.len(),
            registered_agents: self.agent_routes.len(),
            backpressure_drops: self.backpressure_drops,
            unknown_recipient_drops: self.unknown_recipient_drops,
            unsupported_group_drops: self.unsupported_group_drops,
        }
    }

    /// The routing table holds one entry per registered agent.
    proof fn lemma_route_count(&self)
        requires
            self.wf(),
        ensures
            self.routes().len() == self.agent_routes@.len(),
    {
        let agents = self.agent_routes@.map_values(|r: AgentRoute| r.agent_id@);
        assert(agents.no_duplicates()) by {
            assert forall|i: int, j: int|
                0 <= i < agents.len() && 0 <= j < agents.len() && i != j implies agents[i]
                != agents[j] by {
                if i < j {
                    assert(self.agent_routes@[i].agent_id@ != self.agent_routes@[j].agent_id@);
                } else {
                    assert(self.agent_routes@[j].agent_id@ != self.agent_routes@[i].agent_id@);
                }
            }
        }
        agents.unique_seq_to_set();
        assert(self.routes().dom() =~= agents.to_set()) by {
            assert forall|a: Seq<char>| self.routes().dom().contains(a) implies agents.to_set().contains(a) by {
                let i = choose|i: int| 0 <= i < self.agent_routes@.len() && self.agent_routes@[i].agent_id@ == a;
                assert(agents[i] == a);
            }
            assert forall|a: Seq<char>| agents.to_set().contains(a) implies self.routes().dom().contains(a) by {
                let i = choose|i: int| 0 <= i < agents.len() && agents[i] == a;
                assert(self.agent_routes@[i].agent_id@ == a);
            }
        }
    }

    /// Connects `node_id` with outbound queue `outbound_tx`, heard from now. A node that was
    /// already connected keeps its place and gets the new queue.
    pub fn register_peer(&mut self, node_id: NodeId, outbound_tx: Sender<WireFrame>)
        requires
            old(self).wf(),
        ensures
            final(self).wf(),
            final(self).peer_ids() == (if old(self).peer_ids().contains(node_id@) {
                old(self).peer_ids()
            } else {
                old(self).peer_ids().push(node_id@)
            }),
            final(self).queues().len() == final(self).peer_ids().len(),
            forall|i: int|
                0 <= i < final(self).peer_ids().len() ==> #[trigger] final(self).queues()[i] == (if final(self).peer_ids()[i] == node_id@ {
                    outbound_tx
                } else {
                    old(self).queues()[i]
                }),
            final(self).routes() == old(self).routes(),
            final(self).groups() == old(self).groups(),
            final(self).backpressure_total() == old(self).backpressure_total(),
            final(self).unknown_recipient_total() == old(self).unknown_recipient_total(),
            final(self).unsupported_group_total() == old(self).unsupported_group_total(),
    {
        let last_seen = instant_now();
        let ghost id = node_id@;
        let ghost tx = outbound_tx;
        match self.find_peer(&node_id) {
            Some(k) => {
                self.peers.set(k, Peer { node_id, outbound_tx, last_seen });
                assert(self.peer_ids() =~= old(self).peer_ids());
                assert forall|i: int| 0 <= i < self.peer_ids().len() implies #[trigger] self.queues()[i] == if self.peer_ids()[i] == id {
                    tx
                } else {
                    old(self).queues()[i]
                } by {
                    if i != k {
                        assert(self.peers@[i] == old(self).peers@[i]);
                        assert(old(self).peer_ids()[i] != old(self).peer_ids()[k as int]);
                    }
                }
            },
            None => {
                self.peers.push(Peer { node_id, outbound_tx, last_seen });
                assert(self.peer_ids() =~= old(self).peer_ids().push(id));
                proof {
                    lemma_push_keeps_distinct(old(self).peer_ids(), id);
                }
                assert forall|i: int| 0 <= i < self.peer_ids().len() implies #[trigger] self.queues()[i] == if self.peer_ids()[i] == id {
                    tx
                } else {
                    old(self).queues()[i]
                } by {
                    if i < old(self).peers@.len() {
                        assert(self.peers@[i] == old(self).peers@[i]);
                        assert(old(self).peer_ids()[i] != id);
                    }
                }
            },
        }
    }

    /// Notes that `node_id` was heard from now (see [`BrokerState::touch_peer_at`]).
    pub fn touch_peer(&mut self, node_id: &NodeId)
        requires
            old(self).wf(),
        ensures
            final(self).wf(),
            final(self).peer_ids() == old(self).peer_ids(),
            final(self).queues() == old(self).queues(),
            final(self).offer_log() == old(self).offer_log(),
            final(self).last_seen().len() == old(self).last_seen().len(),
            forall|i: int|
                0 <= i < old(self).peer_ids().len() && old(self).peer_ids()[i] != node_id@
                    ==> #[trigger] final(self).last_seen()[i] == old(self).last_seen()[i],
            final(self).routes() == old(self).routes(),
            final(self).groups() == old(self).groups(),
            final(self).backpressure_total() == old(self).backpressure_total(),
            final(self).unknown_recipient_total() == old(self).unknown_recipient_total(),
            final(self).unsupported_group_total() == old(self).unsupported_group_total(),
    {
        let now = instant_now();
        self.touch_peer_at(node_id, now);
    }

    /// Records that `node_id` was heard from at `now`: a connected node's last-seen reading
    /// becomes `now`; nothing else changes.
    pub fn touch_peer_at(&mut self, node_id: &NodeId, now: Instant)
        requires
            old(self).wf(),
        ensures
            final(self).wf(),
            final(self).peer_ids() == old(self).peer_ids(),
            final(self).queues() == old(self).queues(),
            final(self).offer_log() == old(self).offer_log(),
            final(self).last_seen().len() == old(self).last_seen().len(),
            forall|i: int|
                0 <= i < old(self).peer_ids().len() ==> #[trigger] final(self).last_seen()[i] == (if old(self).peer_ids()[i] == node_id@ {
                    now
                } else {
                    old(self).last_seen()[i]
                }),
            final(self).routes() == old(self).routes(),
            final(self).groups() == old(self).groups(),
            final(self).backpressure_total() == old(self).backpressure_total(),
            final(self).unknown_recipient_total() == old(self).unknown_recipient_total(),
            final(self).unsupported_group_total() == old(self).unsupported_group_total(),
    {
        let ghost reading = now;
        match self.find_peer(node_id) {
            Some(k) => {
                let peer = self.peers.remove(k);
                self.peers.insert(k, Peer { last_seen: now, ..peer });
                assert(self.peer_ids() =~= old(self).peer_ids());
                assert(self.queues() =~= old(self).queues());
                assert forall|i: int| 0 <= i < old(self).peer_ids().len() implies #[trigger] self.last_seen()[i] == if old(self).peer_ids()[i] == node_id@ {
                    reading
                } else {
                    old(self).last_seen()[i]
                } by {
                    if i != k {
                        assert(self.peers@[i] == old(self).peers@[i]);
                        assert(old(self).peer_ids()[i] != old(self).peer_ids()[k as int]);
                    }
                }
            },
            None => {
                assert forall|i: int| 0 <= i < old(self).peer_ids().len() implies old(self).peer_ids()[i] != node_id@ by {
                    assert(old(self).peer_ids().contains(old(self).peer_ids()[i]));
                }
            },
        }
    }

    /// When `node_id` was last heard from, if it is connected.
    pub fn last_seen_of(&self, node_id: &NodeId) -> (r: Option<Instant>)
        ensures
            match r {
                Some(t) => exists|i: int|
                    0 <= i < self.peer_ids().len() && self.peer_ids()[i] == node_id@ && #[trigger] self.last_seen()[i] == t,
                None => !self.peer_ids().contains(node_id@),
            },
            self.peer_ids().no_duplicates() ==> forall|i: int|
                0 <= i < self.peer_ids().len() && self.peer_ids()[i] == node_id@ ==> r == Some(#[trigger] self.last_seen()[i]),
    {
        match self.find_peer(node_id) {
            Some(k) => {
                let t = self.peers[k].last_seen;
                assert(self.last_seen()[k as int] == t);
                proof {
                    if self.peer_ids().no_duplicates() {
                        assert forall|i: int|
                            0 <= i < self.peer_ids().len() && self.peer_ids()[i] == node_id@ implies Some(t) == Some(#[trigger] self.last_seen()[i]) by {
                            if i != k {
                                assert(self.peer_ids()[i] == self.peer_ids()[k as int]);
                            }
                        }
                    }
                }
                Some(t)
            },
            None => None,
        }
    }

    /// Whether `node_id` has been silent for longer than `timeout`: the time elapsed since
    /// its own last-seen reading ([`BrokerState::last_seen_of`]) is compared with `timeout` by
    /// [`silent_longer_than`]. Only a connected node can have timed out.
    pub fn is_peer_timed_out(&self, node_id: &NodeId, timeout: Duration) -> (b: bool)
        ensures
            b ==> self.peer_ids().contains(node_id@),
    {
        match self.last_seen_of(node_id) {
            Some(seen) => {
                let silent = whole_nanos(elapsed_since(&seen));
                silent_longer_than(silent, timeout)
            },
            None => false,
        }
    }

    /// Answers a lookup: the node that hosts `agent_id`, if it is registered.
    pub fn lookup_agent(&self, agent_id: &AgentId) -> (r: LookupAgentResult)
        requires
            self.wf(),
        ensures
            r.agent_id@ == agent_id@,
            match r.node_id {
                Some(node) => self.routes().contains_key(agent_id@) && node@ == self.routes()[agent_id@],
                None => !self.routes().contains_key(agent_id@),
            },
    {
        let node_id = match self.find_route(agent_id) {
            Some(k) => Some(self.agent_routes[k].node_id.clone()),
            None => None,
        };
        LookupAgentResult { agent_id: agent_id.clone(), node_id }
    }

    /// Routes `agent_id` to `node_id`, replacing any earlier route for that agent.
    fn insert_route(&mut self, agent_id: AgentId, node_id: NodeId)
        requires
            old(self).wf(),
        ensures
            final(self).wf(),
            final(self).routes() == old(self).routes().insert(agent_id@, node_id@),
            final(self).peers == old(self).peers,
            final(self).groups == old(self).groups,
            final(self).group_view == old(self).group_view,
            final(self).backpressure_drops == old(self).backpressure_drops,
            final(self).unknown_recipient_drops == old(self).unknown_recipient_drops,
            final(self).unsupported_group_drops == old(self).unsupported_group_drops,
    {
        let ghost a = agent_id@;
        let ghost n = node_id@;
        match self.find_route(&agent_id) {
            Some(k) => {
                self.agent_routes.set(k, AgentRoute { agent_id, node_id });
                proof {
                    self.route_view@ = self.route_view@.insert(a, n);
                    lemma_route_written(old(self).agent_routes@, self.agent_routes@, old(self).route_view@, k as int);
                }
            },
            None => {
                self.agent_routes.push(AgentRoute { agent_id, node_id });
                proof {
                    self.route_view@ = self.route_view@.insert(a, n);
                    lemma_route_written(old(self).agent_routes@, self.agent_routes@, old(self).route_view@, old(self).agent_routes@.len() as int);
                }
            },
        }
    }

    /// Registers every agent that `advertise` names as hosted on `node_id`, replacing earlier
    /// routes for those agents, and acknowledges the number of names received.
    pub fn register_agents(&mut self, node_id: &NodeId, advertise: &AdvertiseAgents) -> (ack:
        AdvertiseAck)
        requires
            old(self).wf(),
        ensures
            final(self).wf(),
            ack.registered_agents == advertise.agents@.len(),
            final(self).routes() == registered(
                old(self).routes(),
                agent_names(advertise.agents@),
                node_id@,
            ),
            final(self).peer_ids() == old(self).peer_ids(),
            final(self).queues() == old(self).queues(),
            final(self).last_seen() == old(self).last_seen(),
            final(self).groups() == old(self).groups(),
            final(self).backpressure_total() == old(self).backpressure_total(),
            final(self).unknown_recipient_total() == old(self).unknown_recipient_total(),
            final(self).unsupported_group_total() == old(self).unsupported_group_total(),
    {
        let mut i: usize = 0;
        while i < advertise.agents.len()
            invariant
                self.wf(),
                i <= advertise.agents@.len(),
                self.routes() == registered(
                    old(self).routes(),
                    agent_names(advertise.agents@.take(i as int)),
                    node_id@,
                ),
                self.peers == old(self).peers,
                self.group_view == old(self).group_view,
                self.backpressure_drops == old(self).backpressure_drops,
                self.unknown_recipient_drops == old(self).unknown_recipient_drops,
                self.unsupported_group_drops == old(self).unsupported_group_drops,
            decreases advertise.agents@.len() - i,
        {
            proof {
                assert(advertise.agents@.take(i + 1) =~= advertise.agents@.take(i as int).push(
                    advertise.agents@[i as int],
                ));
                assert(agent_names(advertise.agents@.take(i + 1)) =~= agent_names(
                    advertise.agents@.take(i as int),
                ).push(advertise.agents@[i as int]@));
            }
            self.insert_route(advertise.agents[i].clone(), node_id.clone());
            proof {
                let names = agent_names(advertise.agents@.take(i + 1));
                assert(names.drop_last() =~= agent_names(advertise.agents@.take(i as int)));
                assert(names.last() == advertise.agents@[i as int]@);
            }
            i = i + 1;
        }
        proof {
            assert(advertise.agents@.take(i as int) =~= advertise.agents@);
        }
        AdvertiseAck { registered_agents: advertise.agents.len() }
    }

    /// Clones a list of group names.
    fn clone_names(names: &Vec<String>) -> (r: Vec<String>)
        ensures
            r@.map_values(|n: String| n@) == names@.map_values(|n: String| n@),
    {
        let mut r: Vec<String> = Vec::new();
        let mut i: usize = 0;
        while i < names.len()
            invariant
                i <= names@.len(),
                r@.map_values(|n: String| n@) == names@.take(i as int).map_values(|n: String| n@),
            decreases names@.len() - i,
        {
            let ghost before = r@;
            let name = names[i].clone();
            assert(name@ == names@[i as int]@);
            r.push(name);
            proof {
                assert(names@.take(i + 1) =~= names@.take(i as int).push(names@[i as int]));
                assert(r@.map_values(|n: String| n@) =~= before.map_values(|n: String| n@).push(names@[i as int]@));
                assert(names@.take(i + 1).map_values(|n: String| n@) =~= names@.take(i as int).map_values(|n: String| n@).push(names@[i as int]@));
            }
            i = i + 1;
        }
        assert(names@.take(i as int) =~= names@);
        r
    }

    /// Whether `node` is among `members`.
    fn has_member(members: &Vec<NodeId>, node: &NodeId) -> (b: bool)
        ensures
            b == node_names(members@).contains(node@),
    {
        let mut i: usize = 0;
        while i < members.len()
            invariant
                i <= members@.len(),
                forall|j: int| 0 <= j < i ==> members@[j]@ != node@,
            decreases members@.len() - i,
        {
            if members[i].same_as(node) {
                assert(node_names(members@)[i as int] == node@);
                return true;
            }
            i = i + 1;
        }
        proof {
            if node_names(members@).contains(node@) {
                let j = choose|j: int| 0 <= j < members@.len() && node_names(members@)[j] == node@;
                assert(members@[j]@ == node@);
            }
        }
        false
    }

    /// `members` without `node`.
    fn members_without(members: &Vec<NodeId>, node: &NodeId) -> (r: Vec<NodeId>)
        ensures
            node_names(r@) == without(node_names(members@), node@),
    {
        let mut r: Vec<NodeId> = Vec::new();
        let mut i: usize = 0;
        while i < members.len()
            invariant
                i <= members@.len(),
                node_names(r@) == without(node_names(members@.take(i as int)), node@),
            decreases members@.len() - i,
        {
            proof {
                let prefix = node_names(members@.take(i + 1));
                assert(prefix.drop_last() =~= node_names(members@.take(i as int)));
                assert(prefix.last() == members@[i as int]@);
            }
            if !members[i].same_as(node) {
                r.push(members[i].clone());
                assert(node_names(r@) =~= without(node_names(members@.take(i + 1)), node@));
            }
            i = i + 1;
        }
        assert(members@.take(i as int) =~= members@);
        r
    }

    /// Adds `node` to the group `name`, creating the group if needed.
    fn join_group(&mut self, name: &String, node: &NodeId)
        requires
            old(self).wf(),
        ensures
            final(self).wf(),
            final(self).groups() == old(self).groups().insert(
                name@,
                with_member(old(self).groups(), name@, node@),
            ),
            final(self).peers == old(self).peers,
            final(self).agent_routes == old(self).agent_routes,
            final(self).route_view == old(self).route_view,
            final(self).backpressure_drops == old(self).backpressure_drops,
            final(self).unknown_recipient_drops == old(self).unknown_recipient_drops,
            final(self).unsupported_group_drops == old(self).unsupported_group_drops,
    {
        let ghost g = name@;
        let ghost n = node@;
        match self.find_group(name) {
            Some(k) => {
                proof {
                    assert(old(self).group_view@[g] == node_names(old(self).groups@[k as int].members@));
                }
                if !Self::has_member(&self.groups[k].members, node) {
                    let mut entry = self.groups.remove(k);
                    entry.members.push(node.clone());
                    proof {
                        assert(node_names(entry.members@) =~= node_names(old(self).groups@[k as int].members@).push(n));
                        lemma_push_keeps_distinct(node_names(old(self).groups@[k as int].members@), n);
                    }
                    self.groups.insert(k, entry);
                }
                proof {
                    assert(node_names(self.groups@[k as int].members@) == with_member(old(self).groups(), g, n));
                    self.group_view@ = self.group_view@.insert(g, with_member(old(self).groups(), g, n));
                    lemma_group_written(old(self).groups@, self.groups@, old(self).group_view@, k as int);
                }
            },
            None => {
                let members = vec![node.clone()];
                self.groups.push(GroupMembers { name: name.clone(), members });
                proof {
                    assert(node_names(self.groups@[old(self).groups@.len() as int].members@) =~= seq![n]);
                    self.group_view@ = self.group_view@.insert(g, seq![n]);
                    lemma_group_written(old(self).groups@, self.groups@, old(self).group_view@, old(self).groups@.len() as int);
                }
            },
        }
    }

    /// Adds `node` to every group that `join` names, creating groups as needed, and
    /// acknowledges the names received.
    pub fn join_groups(&mut self, node_id: &NodeId, join: &GroupJoin) -> (ack: GroupAck)
        requires
            old(self).wf(),
        ensures
            final(self).wf(),
            ack.groups@.map_values(|n: String| n@) == join.groups@.map_values(|n: String| n@),
            final(self).groups() == joined(
                old(self).groups(),
                join.groups@.map_values(|n: String| n@),
                node_id@,
            ),
            final(self).peer_ids() == old(self).peer_ids(),
            final(self).queues() == old(self).queues(),
            final(self).last_seen() == old(self).last_seen(),
            final(self).routes() == old(self).routes(),
            final(self).backpressure_total() == old(self).backpressure_total(),
            final(self).unknown_recipient_total() == old(self).unknown_recipient_total(),
            final(self).unsupported_group_total() == old(self).unsupported_group_total(),
    {
        let mut i: usize = 0;
        while i < join.groups.len()
            invariant
                self.wf(),
                i <= join.groups@.len(),
                self.groups() == joined(
                    old(self).groups(),
                    join.groups@.take(i as int).map_values(|n: String| n@),
                    node_id@,
                ),
                self.peers == old(self).peers,
                self.agent_routes == old(self).agent_routes,
                self.route_view == old(self).route_view,
                self.backpressure_drops == old(self).backpressure_drops,
                self.unknown_recipient_drops == old(self).unknown_recipient_drops,
                self.unsupported_group_drops == old(self).unsupported_group_drops,
            decreases join.groups@.len() - i,
        {
            self.join_group(&join.groups[i], node_id);
            proof {
                let names = join.groups@.take(i + 1).map_values(|n: String| n@);
                assert(names.drop_last() =~= join.groups@.take(i as int).map_values(|n: String| n@));
                assert(names.last() == join.groups@[i as int]@);
            }
            i = i + 1;
        }
        assert(join.groups@.take(i as int) =~= join.groups@);
        GroupAck { groups: Self::clone_names(&join.groups) }
    }

    /// Takes `node` out of the group `name`, dropping the group once it is empty.
    fn leave_group(&mut self, name: &String, node: &NodeId)
        requires
            old(self).wf(),
        ensures
            final(self).wf(),
            final(self).groups() == after_leaving(old(self).groups(), name@, node@),
            final(self).peers == old(self).peers,
            final(self).agent_routes == old(self).agent_routes,
            final(self).route_view == old(self).route_view,
            final(self).backpressure_drops == old(self).backpressure_drops,
            final(self).unknown_recipient_drops == old(self).unknown_recipient_drops,
            final(self).unsupported_group_drops == old(self).unsupported_group_drops,
    {
        let ghost g = name@;
        let ghost n = node@;
        if let Some(k) = self.find_group(name) {
            let remaining = Self::members_without(&self.groups[k].members, node);
            let ghost old_members = node_names(old(self).groups@[k as int].members@);
            proof {
                lemma_without_keeps_distinct(old_members, n);
            }
            if remaining.len() == 0 {
                self.groups.remove(k);
                proof {
                    self.group_view@ = self.group_view@.remove(g);
                    assert forall|i: int| 0 <= i < self.groups@.len() implies #[trigger] self.groups@[i] == old(self).groups@[if i < k { i } else { i + 1 }] by {}
                    assert forall|i: int, j: int| 0 <= i < j < self.groups@.len() implies self.groups@[i].name@ != self.groups@[j].name@ by {
                        let oi = if i < k { i } else { i + 1 };
                        let oj = if j < k { j } else { j + 1 };
                        assert(old(self).groups@[oi].name@ != old(self).groups@[oj].name@);
                    }
                    assert forall|i: int| 0 <= i < self.groups@.len() implies self.groups@[i].name@ != g by {
                        let oi = if i < k { i } else { i + 1 };
                        if oi < k {
                            assert(old(self).groups@[oi].name@ != old(self).groups@[k as int].name@);
                        } else {
                            assert(old(self).groups@[k as int].name@ != old(self).groups@[oi].name@);
                        }
                    }
                    assert forall|x: Seq<char>| #[trigger] self.group_view@.contains_key(x) implies exists|i: int| 0 <= i < self.groups@.len() && self.groups@[i].name@ == x by {
                        let oi = choose|i: int| 0 <= i < old(self).groups@.len() && old(self).groups@[i].name@ == x;
                        let i = if oi < k { oi } else { oi - 1 };
                        assert(self.groups@[i].name@ == x);
                    }
                    assert forall|x: Seq<char>| (exists|i: int| 0 <= i < self.groups@.len() && self.groups@[i].name@ == x) implies #[trigger] self.group_view@.contains_key(x) by {
                        let i = choose|i: int| 0 <= i < self.groups@.len() && self.groups@[i].name@ == x;
                        let oi = if i < k { i } else { i + 1 };
                        assert(old(self).groups@[oi].name@ == x);
                    }
                    assert forall|i: int| 0 <= i < self.groups@.len() implies {
                        &&& self.group_view@[#[trigger] self.groups@[i].name@] == node_names(self.groups@[i].members@)
                        &&& node_names(self.groups@[i].members@).no_duplicates()
                        &&& self.groups@[i].members@.len() > 0
                    } by {
                        let oi = if i < k { i } else { i + 1 };
                        assert(old(self).groups@[oi] == self.groups@[i]);
                    }
                }
            } else {
                let mut entry = self.groups.remove(k);
                entry.members = remaining;
                self.groups.insert(k, entry);
                proof {
                    let rest = without(old_members, n);
                    self.group_view@ = self.group_view@.insert(g, rest);
                    assert forall|i: int| 0 <= i < self.groups@.len() && i != k implies #[trigger] self.groups@[i] == old(self).groups@[i] by {}
                    assert forall|i: int, j: int| 0 <= i < j < self.groups@.len() implies self.groups@[i].name@ != self.groups@[j].name@ by {
                        assert(old(self).groups@[i].name@ != old(self).groups@[j].name@);
                    }
                    assert forall|x: Seq<char>| #[trigger] self.group_view@.contains_key(x) implies exists|i: int| 0 <= i < self.groups@.len() && self.groups@[i].name@ == x by {
                        if x != g {
                            let i = choose|i: int| 0 <= i < old(self).groups@.len() && old(self).groups@[i].name@ == x;
                            assert(self.groups@[i].name@ == x);
                        } else {
                            assert(self.groups@[k as int].name@ == x);
                        }
                    }
                    assert forall|x: Seq<char>| (exists|i: int| 0 <= i < self.groups@.len() && self.groups@[i].name@ == x) implies #[trigger] self.group_view@.contains_key(x) by {
                        let i = choose|i: int| 0 <= i < self.groups@.len() && self.groups@[i].name@ == x;
                        assert(old(self).groups@[i].name@ == x);
                    }
                    assert forall|i: int| 0 <= i < self.groups@.len() implies {
                        &&& self.group_view@[#[trigger] self.groups@[i].name@] == node_names(self.groups@[i].members@)
                        &&& node_names(self.groups@[i].members@).no_duplicates()
                        &&& self.groups@[i].members@.len() > 0
                    } by {
                        if i != k {
                            assert(old(self).groups@[i].name@ != g) by {
                                if i < k {
                                    assert(old(self).groups@[i].name@ != old(self).groups@[k as int].name@);
                                } else {
                                    assert(old(self).groups@[k as int].name@ != old(self).groups@[i].name@);
                                }
                            }
                        }
                    }
                }
            }
        }
    }

    /// Takes `node` out of every group that `leave` names, dropping groups that become
    /// empty, and acknowledges the names received.
    pub fn leave_groups(&mut self, node_id: &NodeId, leave: &GroupLeave) -> (ack: GroupAck)
        requires
            old(self).wf(),
        ensures
            final(self).wf(),
            ack.groups@.map_values(|n: String| n@) == leave.groups@.map_values(|n: String| n@),
            final(self).groups() == left(
                old(self).groups(),
                leave.groups@.map_values(|n: String| n@),
                node_id@,
            ),
            final(self).peer_ids() == old(self).peer_ids(),
            final(self).queues() == old(self).queues(),
            final(self).last_seen() == old(self).last_seen(),
            final(self).routes() == old(self).routes(),
            final(self).backpressure_total() == old(self).backpressure_total(),
            final(self).unknown_recipient_total() == old(self).unknown_recipient_total(),
            final(self).unsupported_group_total() == old(self).unsupported_group_total(),
    {
        let mut i: usize = 0;
        while i < leave.groups.len()
            invariant
                self.wf(),
                i <= leave.groups@.len(),
                self.groups() == left(
                    old(self).groups(),
                    leave.groups@.take(i as int).map_values(|n: String| n@),
                    node_id@,
                ),
                self.peers == old(self).peers,
                self.agent_routes == old(self).agent_routes,
                self.route_view == old(self).route_view,
                self.backpressure_drops == old(self).backpressure_drops,
                self.unknown_recipient_drops == old(self).unknown_recipient_drops,
                self.unsupported_group_drops == old(self).unsupported_group_drops,
            decreases leave.groups@.len() - i,
        {
            self.leave_group(&leave.groups[i], node_id);
            proof {
                let names = leave.groups@.take(i + 1).map_values(|n: String| n@);
                assert(names.drop_last() =~= leave.groups@.take(i as int).map_values(|n: String| n@));
                assert(names.last() == leave.groups@[i as int]@);
            }
            i = i + 1;
        }
        assert(leave.groups@.take(i as int) =~= leave.groups@);
        GroupAck { groups: Self::clone_names(&leave.groups) }
    }

    /// The routing entries whose node is not `node`, in order.
    fn routes_off_node(entries: &Vec<AgentRoute>, node: &NodeId) -> (r: (Vec<AgentRoute>, Ghost<Seq<int>>))
        ensures
            kept_from(entries@, r.0@, r.1@),
            forall|j: int| 0 <= j < r.0@.len() ==> #[trigger] entries@[r.1@[j]].node_id@ != node@,
            forall|i: int| 0 <= i < entries@.len() && #[trigger] entries@[i].node_id@ != node@ ==> exists|j: int| 0 <= j < r.1@.len() && r.1@[j] == i,
            forall|j: int| 0 <= j < r.0@.len() ==> #[trigger] r.0@[j].agent_id@ == entries@[r.1@[j]].agent_id@ && r.0@[j].node_id@ == entries@[r.1@[j]].node_id@,
    {
        let mut kept: Vec<AgentRoute> = Vec::new();
        let ghost mut src: Seq<int> = Seq::empty();
        let mut i: usize = 0;
        while i < entries.len()
            invariant
                i <= entries@.len(),
                kept_from(entries@, kept@, src),
                forall|j: int| 0 <= j < src.len() ==> src[j] < i,
                forall|j: int| 0 <= j < kept@.len() ==> #[trigger] entries@[src[j]].node_id@ != node@,
                forall|x: int| 0 <= x < i && #[trigger] entries@[x].node_id@ != node@ ==> exists|j: int| 0 <= j < src.len() && src[j] == x,
                forall|j: int| 0 <= j < kept@.len() ==> #[trigger] kept@[j].agent_id@ == entries@[src[j]].agent_id@ && kept@[j].node_id@ == entries@[src[j]].node_id@,
            decreases entries@.len() - i,
        {
            if !entries[i].node_id.same_as(node) {
                let entry = AgentRoute {
                    agent_id: entries[i].agent_id.clone(),
                    node_id: entries[i].node_id.clone(),
                };
                kept.push(entry);
                proof {
                    let old_src = src;
                    src = src.push(i as int);
                    assert forall|x: int| 0 <= x < i + 1 && #[trigger] entries@[x].node_id@ != node@ implies exists|j: int| 0 <= j < src.len() && src[j] == x by {
                        if x < i {
                            let j = choose|j: int| 0 <= j < old_src.len() && old_src[j] == x;
                            assert(src[j] == x);
                        } else {
                            assert(src[src.len() - 1] == x);
                        }
                    }
                }
            }
            i = i + 1;
        }
        (kept, Ghost(src))
    }

    /// The groups with `node` taken out of each, empty groups dropped, in order.
    fn groups_off_node(entries: &Vec<GroupMembers>, node: &NodeId) -> (r: (Vec<GroupMembers>, Ghost<Seq<int>>))
        ensures
            groups_kept_from(entries@, r.0@, r.1@),
            forall|j: int| 0 <= j < r.0@.len() ==> #[trigger] r.0@[j].name@ == entries@[r.1@[j]].name@
                && node_names(r.0@[j].members@) == without(node_names(entries@[r.1@[j]].members@), node@)
                && r.0@[j].members@.len() > 0,
            forall|i: int| 0 <= i < entries@.len() && #[trigger] without(node_names(entries@[i].members@), node@).len() > 0 ==> exists|j: int| 0 <= j < r.1@.len() && r.1@[j] == i,
    {
        let mut kept: Vec<GroupMembers> = Vec::new();
        let ghost mut src: Seq<int> = Seq::empty();
        let mut i: usize = 0;
        while i < entries.len()
            invariant
                i <= entries@.len(),
                groups_kept_from(entries@, kept@, src),
                forall|j: int| 0 <= j < src.len() ==> src[j] < i,
                forall|j: int| 0 <= j < kept@.len() ==> #[trigger] kept@[j].name@ == entries@[src[j]].name@
                    && node_names(kept@[j].members@) == without(node_names(entries@[src[j]].members@), node@)
                    && kept@[j].members@.len() > 0,
                forall|x: int| 0 <= x < i && #[trigger] without(node_names(entries@[x].members@), node@).len() > 0 ==> exists|j: int| 0 <= j < src.len() && src[j] == x,
            decreases entries@.len() - i,
        {
            let members = Self::members_without(&entries[i].members, node);
            if members.len() > 0 {
                let entry = GroupMembers { name: entries[i].name.clone(), members };
                kept.push(entry);
                proof {
                    let old_src = src;
                    src = src.push(i as int);
                    assert forall|x: int| 0 <= x < i + 1 && #[trigger] without(node_names(entries@[x].members@), node@).len() > 0 implies exists|j: int| 0 <= j < src.len() && src[j] == x by {
                        if x < i {
                            let j = choose|j: int| 0 <= j < old_src.len() && old_src[j] == x;
                            assert(src[j] == x);
                        } else {
                            assert(src[src.len() - 1] == x);
                        }
                    }
                }
            } else {
                proof {
                    assert forall|x: int| 0 <= x < i + 1 && #[trigger] without(node_names(entries@[x].members@), node@).len() > 0 implies exists|j: int| 0 <= j < src.len() && src[j] == x by {
                        if x == i {
                            assert(node_names(members@).len() == members@.len());
                        }
                    }
                }
            }
            i = i + 1;
        }
        (kept, Ghost(src))
    }

    /// Disconnects `node_id`: it leaves the peers, every route to it is dropped, and it
    /// leaves every group, groups left empty disappearing.
    pub fn remove_peer(&mut self, node_id: &NodeId)
        requires
            old(self).wf(),
        ensures
            final(self).wf(),
            final(self).peer_ids() == without(old(self).peer_ids(), node_id@),
            final(self).routes() == routes_avoiding(old(self).routes(), node_id@),
            final(self).groups() == groups_avoiding(old(self).groups(), node_id@),
            final(self).backpressure_total() == old(self).backpressure_total(),
            final(self).unknown_recipient_total() == old(self).unknown_recipient_total(),
            final(self).unsupported_group_total() == old(self).unsupported_group_total(),
    {
        let ghost n = node_id@;
        match self.find_peer(node_id) {
            Some(k) => {
                self.peers.remove(k);
                proof {
                    lemma_without_at(old(self).peer_ids(), k as int);
                    assert(self.peer_ids() =~= old(self).peer_ids().remove(k as int));
                    lemma_remove_keeps_distinct(old(self).peer_ids(), k as int);
                }
            },
            None => {
                proof {
                    lemma_without_absent(old(self).peer_ids(), n);
                }
            },
        }

        let (kept_routes, Ghost(route_src)) = Self::routes_off_node(&self.agent_routes, node_id);
        let ghost old_routes = old(self).agent_routes@;
        self.agent_routes = kept_routes;
        proof {
            self.route_view@ = routes_avoiding(old(self).route_view@, n);
            let kept = self.agent_routes@;
            assert forall|i: int, j: int| 0 <= i < j < kept.len() implies kept[i].agent_id@ != kept[j].agent_id@ by {
                assert(route_src[i] < route_src[j]);
                assert(old_routes[route_src[i]].agent_id@ != old_routes[route_src[j]].agent_id@);
            }
            assert forall|a: Seq<char>| #[trigger] self.route_view@.contains_key(a) implies exists|i: int| 0 <= i < kept.len() && kept[i].agent_id@ == a by {
                let oi = choose|i: int| 0 <= i < old_routes.len() && old_routes[i].agent_id@ == a;
                assert(old_routes[oi].node_id@ != n);
                let j = choose|j: int| 0 <= j < route_src.len() && route_src[j] == oi;
                assert(kept[j].agent_id@ == a);
            }
            assert forall|a: Seq<char>| (exists|i: int| 0 <= i < kept.len() && kept[i].agent_id@ == a) implies #[trigger] self.route_view@.contains_key(a) by {
                let j = choose|i: int| 0 <= i < kept.len() && kept[i].agent_id@ == a;
                let oi = route_src[j];
                assert(old_routes[oi].agent_id@ == a);
                assert(old(self).route_view@[a] == old_routes[oi].node_id@);
            }
            assert forall|j: int| 0 <= j < kept.len() implies self.route_view@[#[trigger] kept[j].agent_id@] == kept[j].node_id@ by {
                let oi = route_src[j];
                assert(old_routes[oi].agent_id@ == kept[j].agent_id@);
                assert(old(self).route_view@[old_routes[oi].agent_id@] == old_routes[oi].node_id@);
            }
        }

        let (kept_groups, Ghost(group_src)) = Self::groups_off_node(&self.groups, node_id);
        let ghost old_groups = old(self).groups@;
        self.groups = kept_groups;
        proof {
            self.group_view@ = groups_avoiding(old(self).group_view@, n);
            let kept = self.groups@;
            assert forall|i: int, j: int| 0 <= i < j < kept.len() implies kept[i].name@ != kept[j].name@ by {
                assert(group_src[i] < group_src[j]);
                assert(old_groups[group_src[i]].name@ != old_groups[group_src[j]].name@);
            }
            assert forall|g: Seq<char>| #[trigger] self.group_view@.contains_key(g) implies exists|i: int| 0 <= i < kept.len() && kept[i].name@ == g by {
                let oi = choose|i: int| 0 <= i < old_groups.len() && old_groups[i].name@ == g;
                assert(old(self).group_view@[g] == node_names(old_groups[oi].members@));
                assert(without(node_names(old_groups[oi].members@), n).len() > 0);
                let j = choose|j: int| 0 <= j < group_src.len() && group_src[j] == oi;
                assert(kept[j].name@ == g);
            }
            assert forall|g: Seq<char>| (exists|i: int| 0 <= i < kept.len() && kept[i].name@ == g) implies #[trigger] self.group_view@.contains_key(g) by {
                let j = choose|i: int| 0 <= i < kept.len() && kept[i].name@ == g;
                let oi = group_src[j];
                assert(old_groups[oi].name@ == g);
                assert(old(self).group_view@[g] == node_names(old_groups[oi].members@));
                assert(node_names(kept[j].members@).len() == kept[j].members@.len());
            }
            assert forall|j: int| 0 <= j < kept.len() implies {
                &&& self.group_view@[#[trigger] kept[j].name@] == node_names(kept[j].members@)
                &&& node_names(kept[j].members@).no_duplicates()
                &&& kept[j].members@.len() > 0
            } by {
                let oi = group_src[j];
                assert(old_groups[oi].name@ == kept[j].name@);
                assert(old(self).group_view@[old_groups[oi].name@] == node_names(old_groups[oi].members@));
                lemma_without_keeps_distinct(node_names(old_groups[oi].members@), n);
                assert(node_names(kept[j].members@).len() == kept[j].members@.len());
            }
        }
    }

    /// Offers a copy of `envelope` to each peer in turn; returns the nodes that accepted, the
    /// number of refusals, and the offers made.
    fn fan_out_to_peers(&mut self, envelope: &WireEnvelope) -> (r: (Vec<NodeId>, u64, Ghost<Seq<(Seq<char>, WireFrame, bool)>>))
        requires
            old(self).wf(),
        ensures
            final(self).peers == old(self).peers,
            final(self).agent_routes == old(self).agent_routes,
            final(self).groups == old(self).groups,
            final(self).backpressure_drops == old(self).backpressure_drops,
            final(self).unknown_recipient_drops == old(self).unknown_recipient_drops,
            final(self).unsupported_group_drops == old(self).unsupported_group_drops,
            final(self).route_view == old(self).route_view,
            final(self).group_view == old(self).group_view,
            final(self).offers@ == old(self).offers@ + r.2@,
            node_names(r.0@).no_duplicates(),
            forall|x: Seq<char>| node_names(r.0@).contains(x) ==> old(self).peer_ids().contains(x),
            r.0@.len() + r.1 == old(self).peer_ids().len(),
            offered(r.2@, old(self).peer_ids(), *envelope),
            node_names(r.0@) == accepted_nodes(r.2@),
            r.1 == refusals(r.2@),
    {
        let mut recipients: Vec<NodeId> = Vec::new();
        let mut refused: u64 = 0;
        let mut trace: Ghost<Seq<(Seq<char>, WireFrame, bool)>> = Ghost(Seq::empty());
        let mut i: usize = 0;
        while i < self.peers.len()
            invariant
                self.wf(),
                self.peers == old(self).peers,
                self.agent_routes == old(self).agent_routes,
                self.groups == old(self).groups,
                self.backpressure_drops == old(self).backpressure_drops,
                self.unknown_recipient_drops == old(self).unknown_recipient_drops,
                self.unsupported_group_drops == old(self).unsupported_group_drops,
                self.route_view == old(self).route_view,
                self.group_view == old(self).group_view,
                self.offers@ == old(self).offers@ + trace@,
                i <= self.peers@.len(),
                node_names(recipients@).no_duplicates(),
                forall|x: Seq<char>| #[trigger] node_names(recipients@).contains(x) ==> self.peer_ids().take(i as int).contains(x),
                recipients@.len() + refused == i,
                offered(trace@, self.peer_ids().take(i as int), *envelope),
                node_names(recipients@) == accepted_nodes(trace@),
                refused == refusals(trace@),
            decreases self.peers@.len() - i,
        {
            let ghost before = recipients@;
            let ghost before_trace = trace@;
            proof {
                assert(self.peer_ids().take(i + 1) =~= self.peer_ids().take(i as int).push(self.peer_ids()[i as int]));
                assert forall|x: Seq<char>| self.peer_ids().take(i as int).contains(x) implies self.peer_ids().take(i + 1).contains(x) by {
                    let j = choose|j: int| 0 <= j < i && self.peer_ids().take(i as int)[j] == x;
                    assert(self.peer_ids().take(i + 1)[j] == x);
                }
            }
            let frame = WireFrame::Envelope(clone_envelope(envelope));
            let ghost sent = frame;
            let ghost offers_before = self.offers@;
            let accepted = try_send_frame(self, i, frame);
            proof {
                trace@ = trace@.push((self.peer_ids()[i as int], sent, accepted));
                assert(self.offers@ =~= old(self).offers@ + trace@) by {
                    assert(offers_before =~= old(self).offers@ + before_trace);
                }
                assert(trace@.drop_last() =~= before_trace);
                assert forall|j: int| 0 <= j < trace@.len() implies (#[trigger] trace@[j]).0 == self.peer_ids().take(i + 1)[j] && (match trace@[j].1 {
                    WireFrame::Envelope(sent) => same_envelope(sent, *envelope),
                    _ => false,
                }) by {
                    if j < i {
                        assert(trace@[j] == before_trace[j]);
                    }
                }
            }
            if accepted {
                recipients.push(self.peers[i].node_id.clone());
                proof {
                    let id = self.peer_ids()[i as int];
                    assert(node_names(recipients@) =~= node_names(before).push(id));
                    assert(!node_names(before).contains(id)) by {
                        if node_names(before).contains(id) {
                            let j = choose|j: int| 0 <= j < i && self.peer_ids().take(i as int)[j] == id;
                            assert(self.peer_ids()[j] == self.peer_ids()[i as int]);
                        }
                    }
                    lemma_push_keeps_distinct(node_names(before), id);
                    assert forall|x: Seq<char>| #[trigger] node_names(recipients@).contains(x) implies self.peer_ids().take(i + 1).contains(x) by {
                        if x == id {
                            assert(self.peer_ids().take(i + 1)[i as int] == x);
                        } else {
                            let j = choose|j: int| 0 <= j < node_names(recipients@).len() && node_names(recipients@)[j] == x;
                            assert(node_names(before)[j] == x);
                            assert(node_names(before).contains(x));
                            assert(self.peer_ids().take(i as int).contains(x));
                        }
                    }
                }
            } else {
                refused = refused + 1;
            }
            i = i + 1;
        }
        proof {
            assert(self.peer_ids().take(i as int) =~= self.peer_ids());
        }
        (recipients, refused, trace)
    }

    /// Offers a copy of `envelope` to each member of group `k` that is a connected peer;
    /// returns the nodes that accepted, the number of refusals, and the offers made.
    fn fan_out_to_group(&mut self, k: usize, envelope: &WireEnvelope) -> (r: (Vec<NodeId>, u64, Ghost<Seq<(Seq<char>, WireFrame, bool)>>))
        requires
            old(self).wf(),
            k < old(self).groups@.len(),
        ensures
            final(self).peers == old(self).peers,
            final(self).agent_routes == old(self).agent_routes,
            final(self).groups == old(self).groups,
            final(self).backpressure_drops == old(self).backpressure_drops,
            final(self).unknown_recipient_drops == old(self).unknown_recipient_drops,
            final(self).unsupported_group_drops == old(self).unsupported_group_drops,
            final(self).route_view == old(self).route_view,
            final(self).group_view == old(self).group_view,
            final(self).offers@ == old(self).offers@ + r.2@,
            node_names(r.0@).no_duplicates(),
            forall|x: Seq<char>| #[trigger] node_names(r.0@).contains(x) ==> old(self).peer_ids().contains(x) && node_names(old(self).groups@[k as int].members@).contains(x),
            r.0@.len() + r.1 == connected_count(node_names(old(self).groups@[k as int].members@), old(self).peer_ids()),
            r.0@.len() + r.1 <= old(self).peer_ids().len(),
            offered(r.2@, connected_members(node_names(old(self).groups@[k as int].members@), old(self).peer_ids()), *envelope),
            node_names(r.0@) == accepted_nodes(r.2@),
            r.1 == refusals(r.2@),
    {
        let ghost members = node_names(self.groups@[k as int].members@);
        let ghost peers = self.peer_ids();
        let mut recipients: Vec<NodeId> = Vec::new();
        let mut refused: u64 = 0;
        let ghost mut reached: Set<Seq<char>> = Set::empty();
        let mut trace: Ghost<Seq<(Seq<char>, WireFrame, bool)>> = Ghost(Seq::empty());
        let peer_count = self.peers.len();
        let mut i: usize = 0;
        proof {
            peers.unique_seq_to_set();
        }
        while i < self.groups[k].members.len()
            invariant
                self.wf(),
                self.peers == old(self).peers,
                self.agent_routes == old(self).agent_routes,
                self.groups == old(self).groups,
                self.backpressure_drops == old(self).backpressure_drops,
                self.unknown_recipient_drops == old(self).unknown_recipient_drops,
                self.unsupported_group_drops == old(self).unsupported_group_drops,
                self.route_view == old(self).route_view,
                self.group_view == old(self).group_view,
                self.offers@ == old(self).offers@ + trace@,
                k < self.groups@.len(),
                members == node_names(self.groups@[k as int].members@),
                peers == self.peer_ids(),
                peers.to_set().len() == peers.len(),
                peers.len() == peer_count,
                i <= members.len(),
                node_names(recipients@).no_duplicates(),
                forall|x: Seq<char>| #[trigger] node_names(recipients@).contains(x) ==> peers.contains(x) && members.take(i as int).contains(x),
                recipients@.len() + refused == connected_count(members.take(i as int), peers),
                reached.finite(),
                reached.subset_of(peers.to_set()),
                reached.len() == recipients@.len() + refused,
                forall|x: Seq<char>| #[trigger] reached.contains(x) ==> members.take(i as int).contains(x),
                offered(trace@, connected_members(members.take(i as int), peers), *envelope),
                node_names(recipients@) == accepted_nodes(trace@),
                refused == refusals(trace@),
            decreases members.len() - i,
        {
            let ghost before = recipients@;
            let ghost before_trace = trace@;
            let member_id = self.groups[k].members[i].clone();
            let member = &member_id;
            proof {
                let prefix = members.take(i + 1);
                assert(prefix.drop_last() =~= members.take(i as int));
                assert(prefix.last() == member@);
                assert forall|x: Seq<char>| members.take(i as int).contains(x) implies members.take(i + 1).contains(x) by {
                    let j = choose|j: int| 0 <= j < i && members.take(i as int)[j] == x;
                    assert(members.take(i + 1)[j] == x);
                }
                assert(!members.take(i as int).contains(member@)) by {
                    if members.take(i as int).contains(member@) {
                        let j = choose|j: int| 0 <= j < i && members.take(i as int)[j] == member@;
                        assert(members[j] == members[i as int]);
                    }
                }
                assert(members.take(i + 1)[i as int] == member@);
            }
            if let Some(p) = self.find_peer(member) {
                proof {
                    assert(peers.contains(member@)) by {
                        assert(peers[p as int] == member@);
                    }
                    assert(peers.to_set().contains(member@));
                    assert(!reached.contains(member@));
                    assert(peers.len() == self.peers@.len());
                    reached = reached.insert(member@);
                    vstd::set_lib::lemma_len_subset(reached, peers.to_set());
                    assert(reached.len() == recipients@.len() + refused + 1);
                }
                let frame = WireFrame::Envelope(clone_envelope(envelope));
                let ghost sent = frame;
                let ghost offers_before = self.offers@;
                let accepted = try_send_frame(self, p, frame);
                proof {
                    trace@ = trace@.push((member@, sent, accepted));
                    assert(self.offers@ =~= old(self).offers@ + trace@) by {
                        assert(offers_before =~= old(self).offers@ + before_trace);
                    }
                    assert(trace@.drop_last() =~= before_trace);
                    let prefix = members.take(i + 1);
                    assert(connected_members(prefix, peers) == connected_members(members.take(i as int), peers).push(member@));
                    assert forall|j: int| 0 <= j < trace@.len() implies (#[trigger] trace@[j]).0 == connected_members(members.take(i + 1), peers)[j] && (match trace@[j].1 {
                        WireFrame::Envelope(sent) => same_envelope(sent, *envelope),
                        _ => false,
                    }) by {
                        if j < before_trace.len() {
                            assert(trace@[j] == before_trace[j]);
                        }
                    }
                }
                if accepted {
                    recipients.push(member.clone());
                    proof {
                        assert(node_names(recipients@) =~= node_names(before).push(member@));
                        lemma_push_keeps_distinct(node_names(before), member@);
                        assert forall|x: Seq<char>| #[trigger] node_names(recipients@).contains(x) implies peers.contains(x) && members.take(i + 1).contains(x) by {
                            if x != member@ {
                                let j = choose|j: int| 0 <= j < node_names(recipients@).len() && node_names(recipients@)[j] == x;
                                assert(node_names(before)[j] == x);
                                assert(node_names(before).contains(x));
                                assert(members.take(i as int).contains(x));
                            } else {
                                assert(members.take(i + 1).contains(x));
                            }
                        }
                    }
                } else {
                    refused = refused + 1;
                }
            } else {
                proof {
                    let prefix = members.take(i + 1);
                    assert(connected_members(prefix, peers) == connected_members(members.take(i as int), peers));
                }
            }
            i = i + 1;
        }
        proof {
            assert(members.take(i as int) =~= members);
            vstd::set_lib::lemma_len_subset(reached, peers.to_set());
        }
        (recipients, refused, trace)
    }

    /// Routes one envelope from a node to the nodes it is meant for, offering each a copy
    /// without waiting, and counts what could not be delivered.
    ///
    /// A broadcast goes to every connected node; an envelope for an agent goes to the node
    /// that hosts it, if that node is connected; a group envelope goes to the group's
    /// connected members. Unknown agents, vanished nodes and unknown groups are counted as
    /// unknown-recipient drops; refused copies as backpressure drops.
    pub fn route_envelope(&mut self, source_node_id: &NodeId, envelope: WireEnvelope) -> (outcome: RouteOutcome)
        requires
            old(self).wf(),
            old(self).backpressure_total() + old(self).peer_ids().len() <= u64::MAX,
            old(self).unknown_recipient_total() < u64::MAX,
        ensures
            final(self).wf(),
            final(self).peer_ids() == old(self).peer_ids(),
            final(self).routes() == old(self).routes(),
            final(self).groups() == old(self).groups(),
            final(self).unsupported_group_total() == old(self).unsupported_group_total(),
            routed_as(
                old(self).peer_ids(),
                old(self).routes(),
                old(self).groups(),
                envelope.meta.recipient,
                node_names(outcome.recipients@),
                outcome.backpressure_drops as nat,
                outcome.drop_reason,
                final(self).backpressure_total() - old(self).backpressure_total(),
                final(self).unknown_recipient_total() - old(self).unknown_recipient_total(),
            ),
            final(self).queues() == old(self).queues(),
            final(self).last_seen() == old(self).last_seen(),
            final(self).offer_log().len() >= old(self).offer_log().len(),
            final(self).offer_log().take(old(self).offer_log().len() as int) == old(self).offer_log(),
            offered(
                offers_since(final(self).offer_log(), old(self).offer_log().len()),
                route_targets(old(self).peer_ids(), old(self).routes(), old(self).groups(), envelope.meta.recipient),
                envelope,
            ),
            node_names(outcome.recipients@) == accepted_nodes(offers_since(final(self).offer_log(), old(self).offer_log().len())),
            outcome.backpressure_drops == refusals(offers_since(final(self).offer_log(), old(self).offer_log().len())),
    {
        let ghost recipient = envelope.meta.recipient;
        let ghost start = self.offers@;
        let ghost whole = envelope;
        match &envelope.meta.recipient {
            Recipient::Broadcast => {
                let (recipients, refused, trace) = self.fan_out_to_peers(&envelope);
                proof {
                    assert(self.offers@ == start + trace@);
                    assert(offers_since(self.offers@, start.len()) =~= trace@);
                    assert(self.offers@.take(start.len() as int) =~= start);
                }
                self.backpressure_drops = self.backpressure_drops + refused;
                let drop_reason = if recipients.len() == 0 && refused > 0 {
                    Some(DropReason::Backpressure)
                } else {
                    None
                };
                RouteOutcome { recipients, backpressure_drops: refused, drop_reason }
            },
            Recipient::Agent(agent_id) => {
                let target = match self.find_route(agent_id) {
                    Some(k) => self.agent_routes[k].node_id.clone(),
                    None => {
                        self.unknown_recipient_drops = self.unknown_recipient_drops + 1;
                        proof {
                            assert(offers_since(self.offers@, start.len()) =~= Seq::<(Seq<char>, WireFrame, bool)>::empty());
                            assert(self.offers@.take(start.len() as int) =~= start);
                            assert(node_names(Seq::<NodeId>::empty()) =~= accepted_nodes(Seq::<(Seq<char>, WireFrame, bool)>::empty()));
                        }
                        return RouteOutcome {
                            recipients: Vec::new(),
                            backpressure_drops: 0,
                            drop_reason: Some(DropReason::UnknownRecipient),
                        };
                    },
                };
                match self.find_peer(&target) {
                    Some(p) => {
                        let frame = WireFrame::Envelope(envelope);
                        let ghost sent_frame = frame;
                        let accepted = try_send_frame(self, p, frame);
                        proof {
                            let entry = (target@, sent_frame, accepted);
                            assert(old(self).peer_ids()[p as int] == target@);
                            assert(self.offers@ == start.push(entry));
                            let sent = offers_since(self.offers@, start.len());
                            assert(sent =~= seq![entry]);
                            assert(sent.drop_last() =~= Seq::<(Seq<char>, WireFrame, bool)>::empty());
                            assert(sent.last() == entry);
                            assert(accepted_nodes(sent.drop_last()) =~= Seq::<Seq<char>>::empty());
                            assert(refusals(sent.drop_last()) == 0);
                            assert(self.offers@.take(start.len() as int) =~= start);
                            assert(old(self).peer_ids().contains(target@)) by {
                                assert(old(self).peer_ids()[p as int] == target@);
                            }
                        }
                        if accepted {
                            let recipients = vec![target];
                            proof {
                                assert(node_names(recipients@) =~= seq![target@]);
                            }
                            RouteOutcome { recipients, backpressure_drops: 0, drop_reason: None }
                        } else {
                            self.backpressure_drops = self.backpressure_drops + 1;
                            RouteOutcome {
                                recipients: Vec::new(),
                                backpressure_drops: 1,
                                drop_reason: Some(DropReason::Backpressure),
                            }
                        }
                    },
                    None => {
                        self.unknown_recipient_drops = self.unknown_recipient_drops + 1;
                        proof {
                            assert(offers_since(self.offers@, start.len()) =~= Seq::<(Seq<char>, WireFrame, bool)>::empty());
                            assert(self.offers@.take(start.len() as int) =~= start);
                            assert(node_names(Seq::<NodeId>::empty()) =~= accepted_nodes(Seq::<(Seq<char>, WireFrame, bool)>::empty()));
                        }
                        RouteOutcome {
                            recipients: Vec::new(),
                            backpressure_drops: 0,
                            drop_reason: Some(DropReason::UnknownRecipient),
                        }
                    },
                }
            },
            Recipient::Group(group_name) => {
                match self.find_group(group_name) {
                    Some(k) => {
                        proof {
                            assert(self.group_view@[group_name@] == node_names(self.groups@[k as int].members@));
                        }
                        let (recipients, refused, trace) = self.fan_out_to_group(k, &envelope);
                        proof {
                            assert(self.offers@ == start + trace@);
                            assert(offers_since(self.offers@, start.len()) =~= trace@);
                            assert(self.offers@.take(start.len() as int) =~= start);
                        }
                        self.backpressure_drops = self.backpressure_drops + refused;
                        let drop_reason = if recipients.len() == 0 && refused > 0 {
                            Some(DropReason::Backpressure)
                        } else {
                            None
                        };
                        RouteOutcome { recipients, backpressure_drops: refused, drop_reason }
                    },
                    None => {
                        self.unknown_recipient_drops = self.unknown_recipient_drops + 1;
                        proof {
                            assert(offers_since(self.offers@, start.len()) =~= Seq::<(Seq<char>, WireFrame, bool)>::empty());
                            assert(self.offers@.take(start.len() as int) =~= start);
                            assert(node_names(Seq::<NodeId>::empty()) =~= accepted_nodes(Seq::<(Seq<char>, WireFrame, bool)>::empty()));
                        }
                        RouteOutcome {
                            recipients: Vec::new(),
                            backpressure_drops: 0,
                            drop_reason: Some(DropReason::UnknownGroup),
                        }
                    },
                }
            },
        }
    }

    /// Handles one frame received from `node_id` at `now`: the node is marked as heard from
    /// at `now`, then
    /// registrations, group changes and lookups are applied and answered, envelopes are
    /// routed, and every other frame is ignored.
    pub fn handle_frame(&mut self, node_id: &NodeId, frame: WireFrame, now: Instant) -> (response: FrameResponse)
        requires
            old(self).wf(),
            old(self).backpressure_total() + old(self).peer_ids().len() <= u64::MAX,
            old(self).unknown_recipient_total() < u64::MAX,
        ensures
            final(self).wf(),
            final(self).peer_ids() == old(self).peer_ids(),
            final(self).queues() == old(self).queues(),
            final(self).last_seen().len() == old(self).last_seen().len(),
            forall|i: int|
                0 <= i < old(self).peer_ids().len() ==> #[trigger] final(self).last_seen()[i] == (if old(self).peer_ids()[i] == node_id@ {
                    now
                } else {
                    old(self).last_seen()[i]
                }),
            final(self).unsupported_group_total() == old(self).unsupported_group_total(),
            match frame {
                WireFrame::AdvertiseAgents(advertise) => {
                    &&& response matches FrameResponse::Reply(WireFrame::AdvertiseAck(ack))
                    &&& ack.registered_agents == advertise.agents@.len()
                    &&& final(self).routes() == registered(old(self).routes(), agent_names(advertise.agents@), node_id@)
                    &&& final(self).groups() == old(self).groups()
                    &&& unchanged_counters(*old(self), *final(self))
                },
                WireFrame::GroupJoin(join) => {
                    &&& response matches FrameResponse::Reply(WireFrame::GroupAck(ack))
                    &&& ack.groups@.map_values(|n: String| n@) == join.groups@.map_values(|n: String| n@)
                    &&& final(self).groups() == joined(old(self).groups(), join.groups@.map_values(|n: String| n@), node_id@)
                    &&& final(self).routes() == old(self).routes()
                    &&& unchanged_counters(*old(self), *final(self))
                },
                WireFrame::GroupLeave(leave) => {
                    &&& response matches FrameResponse::Reply(WireFrame::GroupAck(ack))
                    &&& ack.groups@.map_values(|n: String| n@) == leave.groups@.map_values(|n: String| n@)
                    &&& final(self).groups() == left(old(self).groups(), leave.groups@.map_values(|n: String| n@), node_id@)
                    &&& final(self).routes() == old(self).routes()
                    &&& unchanged_counters(*old(self), *final(self))
                },
                WireFrame::LookupAgent(lookup) => {
                    &&& response matches FrameResponse::Reply(WireFrame::LookupAgentResult(result))
                    &&& result.agent_id@ == lookup.agent_id@
                    &&& match result.node_id {
                        Some(node) => old(self).routes().contains_key(lookup.agent_id@) && node@ == old(self).routes()[lookup.agent_id@],
                        None => !old(self).routes().contains_key(lookup.agent_id@),
                    }
                    &&& final(self).routes() == old(self).routes()
                    &&& final(self).groups() == old(self).groups()
                    &&& unchanged_counters(*old(self), *final(self))
                },
                WireFrame::Envelope(envelope) => {
                    &&& response matches FrameResponse::Routed { summary, outcome }
                    &&& summary.message_id == envelope.meta.message_id
                    &&& summary.correlation_id == envelope.meta.correlation_id
                    &&& summary.recipient == envelope.meta.recipient
                    &&& summary.payload_len_bytes == envelope.payload@.len()
                    &&& final(self).routes() == old(self).routes()
                    &&& final(self).groups() == old(self).groups()
                    &&& routed_as(
                        old(self).peer_ids(),
                        old(self).routes(),
                        old(self).groups(),
                        envelope.meta.recipient,
                        node_names(outcome.recipients@),
                        outcome.backpressure_drops as nat,
                        outcome.drop_reason,
                        final(self).backpressure_total() - old(self).backpressure_total(),
                        final(self).unknown_recipient_total() - old(self).unknown_recipient_total(),
                    )
                    &&& final(self).offer_log().take(old(self).offer_log().len() as int) == old(self).offer_log()
                    &&& final(self).offer_log().len() >= old(self).offer_log().len()
                    &&& offered(
                        offers_since(final(self).offer_log(), old(self).offer_log().len()),
                        route_targets(old(self).peer_ids(), old(self).routes(), old(self).groups(), envelope.meta.recipient),
                        envelope,
                    )
                    &&& node_names(outcome.recipients@) == accepted_nodes(offers_since(final(self).offer_log(), old(self).offer_log().len()))
                    &&& outcome.backpressure_drops == refusals(offers_since(final(self).offer_log(), old(self).offer_log().len()))
                },
                _ => {
                    &&& response is Ignore
                    &&& final(self).offer_log() == old(self).offer_log()
                    &&& final(self).routes() == old(self).routes()
                    &&& final(self).groups() == old(self).groups()
                    &&& unchanged_counters(*old(self), *final(self))
                },
            },
    {
        self.touch_peer_at(node_id, now);
        match frame {
            WireFrame::AdvertiseAgents(advertise) => {
                let ack = self.register_agents(node_id, &advertise);
                FrameResponse::Reply(WireFrame::AdvertiseAck(ack))
            },
            WireFrame::GroupJoin(join) => {
                let ack = self.join_groups(node_id, &join);
                FrameResponse::Reply(WireFrame::GroupAck(ack))
            },
            WireFrame::GroupLeave(leave) => {
                let ack = self.leave_groups(node_id, &leave);
                FrameResponse::Reply(WireFrame::GroupAck(ack))
            },
            WireFrame::LookupAgent(lookup) => {
                let result = self.lookup_agent(&lookup.agent_id);
                FrameResponse::Reply(WireFrame::LookupAgentResult(result))
            },
            WireFrame::Envelope(envelope) => {
                let summary = EnvelopeSummary::from_wire_envelope(&envelope);
                let outcome = self.route_envelope(node_id, envelope);
                FrameResponse::Routed { summary, outcome }
            },
            WireFrame::Heartbeat(_)
            | WireFrame::Hello(_)
            | WireFrame::HelloAck(_)
            | WireFrame::HelloReject(_)
            | WireFrame::AdvertiseAck(_)
            | WireFrame::GroupAck(_)
            | WireFrame::LookupAgentResult(_) => FrameResponse::Ignore,
        }
    }
}

/// Appending a new element to a list without duplicates keeps it without duplicates.
pub proof fn lemma_push_keeps_distinct<A>(s: Seq<A>, x: A)
    requires
        s.no_duplicates(),
        !s.contains(x),
    ensures
        s.push(x).no_duplicates(),
{
    assert forall|i: int, j: int| 0 <= i < s.len() + 1 && 0 <= j < s.len() + 1 && i != j implies s.push(x)[i] != s.push(x)[j] by {
        if i == s.len() {
            assert(s[j] == s.push(x)[j]);
        } else if j == s.len() {
            assert(s[i] == s.push(x)[i]);
        }
    }
}

/// `routes` after routing each agent in `agents`, in order, to `node`.
pub open spec fn registered(
    routes: Map<Seq<char>, Seq<char>>,
    agents: Seq<Seq<char>>,
    node: Seq<char>,
) -> Map<Seq<char>, Seq<char>>
    decreases agents.len(),
{
    if agents.len() == 0 {
        routes
    } else {
        registered(routes, agents.drop_last(), node).insert(agents.last(), node)
    }
}

/// `members` without `x`, order kept.
pub open spec fn without(members: Seq<Seq<char>>, x: Seq<char>) -> Seq<Seq<char>>
    decreases members.len(),
{
    if members.len() == 0 {
        members
    } else if members.last() == x {
        without(members.drop_last(), x)
    } else {
        without(members.drop_last(), x).push(members.last())
    }
}

/// Membership after a list of nodes without duplicates loses `x`: the others remain, still
/// without duplicates.
pub proof fn lemma_without_keeps_distinct(members: Seq<Seq<char>>, x: Seq<char>)
    requires
        members.no_duplicates(),
    ensures
        without(members, x).no_duplicates(),
        forall|y: Seq<char>| #[trigger] without(members, x).contains(y) <==> (members.contains(y) && y != x),
    decreases members.len(),
{
    assert forall|y: Seq<char>| #[trigger] without(members, x).contains(y) <==> (members.contains(y) && y != x) by {
        lemma_without_contains(members, x, y);
    }
    if members.len() > 0 {
        let rest = members.drop_last();
        assert(rest.no_duplicates());
        lemma_without_keeps_distinct(rest, x);
        if members.last() != x {
            assert(!rest.contains(members.last())) by {
                if rest.contains(members.last()) {
                    let j = choose|j: int| 0 <= j < rest.len() && rest[j] == members.last();
                    assert(members[j] == members[members.len() - 1]);
                }
            }
            lemma_without_contains(rest, x, members.last());
            lemma_push_keeps_distinct(without(rest, x), members.last());
        }
    }
}

/// The members a group has once `node` joins it, given the groups before.
pub open spec fn with_member(
    groups: Map<Seq<char>, Seq<Seq<char>>>,
    group: Seq<char>,
    node: Seq<char>,
) -> Seq<Seq<char>> {
    if groups.contains_key(group) {
        if groups[group].contains(node) {
            groups[group]
        } else {
            groups[group].push(node)
        }
    } else {
        seq![node]
    }
}

/// `groups` after `node` joins each named group, in order.
pub open spec fn joined(
    groups: Map<Seq<char>, Seq<Seq<char>>>,
    names: Seq<Seq<char>>,
    node: Seq<char>,
) -> Map<Seq<char>, Seq<Seq<char>>>
    decreases names.len(),
{
    if names.len() == 0 {
        groups
    } else {
        let before = joined(groups, names.drop_last(), node);
        before.insert(names.last(), with_member(before, names.last(), node))
    }
}

/// `groups` after `node` leaves `group`: the group loses the node and disappears once empty.
pub open spec fn after_leaving(
    groups: Map<Seq<char>, Seq<Seq<char>>>,
    group: Seq<char>,
    node: Seq<char>,
) -> Map<Seq<char>, Seq<Seq<char>>> {
    if groups.contains_key(group) {
        let rest = without(groups[group], node);
        if rest.len() == 0 {
            groups.remove(group)
        } else {
            groups.insert(group, rest)
        }
    } else {
        groups
    }
}

/// `groups` after `node` leaves each named group, in order.
pub open spec fn left(
    groups: Map<Seq<char>, Seq<Seq<char>>>,
    names: Seq<Seq<char>>,
    node: Seq<char>,
) -> Map<Seq<char>, Seq<Seq<char>>>
    decreases names.len(),
{
    if names.len() == 0 {
        groups
    } else {
        after_leaving(left(groups, names.drop_last(), node), names.last(), node)
    }
}

/// Taking `x` out of a list leaves exactly the other elements.
pub proof fn lemma_without_contains(members: Seq<Seq<char>>, x: Seq<char>, y: Seq<char>)
    ensures
        without(members, x).contains(y) <==> (members.contains(y) && y != x),
    decreases members.len(),
{
    if members.len() > 0 {
        let rest = members.drop_last();
        lemma_without_contains(rest, x, y);
        assert(members.contains(y) <==> (rest.contains(y) || y == members.last())) by {
            if members.contains(y) {
                let j = choose|j: int| 0 <= j < members.len() && members[j] == y;
                if j < members.len() - 1 {
                    assert(rest[j] == y);
                }
            }
            if rest.contains(y) {
                let j = choose|j: int| 0 <= j < rest.len() && rest[j] == y;
                assert(members[j] == y);
            }
        }
        if members.last() != x {
            let w = without(rest, x);
            assert(w.push(members.last()).contains(y) <==> (w.contains(y) || y == members.last())) by {
                if w.push(members.last()).contains(y) {
                    let j = choose|j: int| 0 <= j < w.len() + 1 && w.push(members.last())[j] == y;
                    if j < w.len() {
                        assert(w[j] == y);
                    }
                }
                if w.contains(y) {
                    let j = choose|j: int| 0 <= j < w.len() && w[j] == y;
                    assert(w.push(members.last())[j] == y);
                }
                if y == members.last() {
                    assert(w.push(members.last())[w.len() as int] == y);
                }
            }
        }
    }
}

/// When a node advertises agents, each advertised agent is then routed to that node, and every
/// other agent keeps the route it had.
pub proof fn law_advertised_agents_route_to_node(
    routes: Map<Seq<char>, Seq<char>>,
    agents: Seq<Seq<char>>,
    node: Seq<char>,
    agent: Seq<char>,
)
    ensures
        agents.contains(agent) ==> registered(routes, agents, node).contains_key(agent)
            && registered(routes, agents, node)[agent] == node,
        !agents.contains(agent) ==> registered(routes, agents, node).contains_key(agent)
            == routes.contains_key(agent) && (routes.contains_key(agent) ==> registered(
            routes,
            agents,
            node,
        )[agent] == routes[agent]),
    decreases agents.len(),
{
    if agents.len() > 0 {
        let rest = agents.drop_last();
        law_advertised_agents_route_to_node(routes, rest, node, agent);
        assert(agents.contains(agent) <==> (rest.contains(agent) || agent == agents.last())) by {
            if agents.contains(agent) {
                let j = choose|j: int| 0 <= j < agents.len() && agents[j] == agent;
                if j < agents.len() - 1 {
                    assert(rest[j] == agent);
                }
            }
            if rest.contains(agent) {
                let j = choose|j: int| 0 <= j < rest.len() && rest[j] == agent;
                assert(agents[j] == agent);
            }
        }
    }
}

/// Once a node disconnects, no agent is routed to it and no group counts it as a member,
/// while routes to other nodes stay as they were.
pub proof fn law_disconnect_forgets_node(
    routes: Map<Seq<char>, Seq<char>>,
    groups: Map<Seq<char>, Seq<Seq<char>>>,
    node: Seq<char>,
    agent: Seq<char>,
    group: Seq<char>,
)
    ensures
        routes_avoiding(routes, node).contains_key(agent) ==> routes_avoiding(routes, node)[agent]
            != node,
        routes.contains_key(agent) && routes[agent] != node ==> routes_avoiding(
            routes,
            node,
        ).contains_key(agent) && routes_avoiding(routes, node)[agent] == routes[agent],
        groups_avoiding(groups, node).contains_key(group) ==> !groups_avoiding(groups, node)[
            group
        ].contains(node),
{
    if groups_avoiding(groups, node).contains_key(group) {
        lemma_without_contains(groups[group], node, node);
    }
}

/// A node that joins groups is afterwards a member of each of them.
pub proof fn law_joined_groups_include_node(
    groups: Map<Seq<char>, Seq<Seq<char>>>,
    names: Seq<Seq<char>>,
    node: Seq<char>,
    group: Seq<char>,
)
    ensures
        names.contains(group) ==> joined(groups, names, node).contains_key(group) && joined(
            groups,
            names,
            node,
        )[group].contains(node),
    decreases names.len(),
{
    if names.len() > 0 {
        let rest = names.drop_last();
        law_joined_groups_include_node(groups, rest, node, group);
        let before = joined(groups, rest, node);
        let last = names.last();
        let members = with_member(before, last, node);
        assert(members.contains(node)) by {
            if before.contains_key(last) && !before[last].contains(node) {
                assert(before[last].push(node)[before[last].len() as int] == node);
            } else if !before.contains_key(last) {
                assert(seq![node][0] == node);
            }
        }
        if names.contains(group) && group != last {
            let j = choose|j: int| 0 <= j < names.len() && names[j] == group;
            assert(rest[j] == group);
        }
    }
}

/// Joining groups touches only the named groups: every other group keeps exactly its
/// members, and no group appears or disappears except a named one being created. Joining no
/// group changes nothing.
pub proof fn law_join_keeps_other_groups(
    groups: Map<Seq<char>, Seq<Seq<char>>>,
    names: Seq<Seq<char>>,
    node: Seq<char>,
    group: Seq<char>,
)
    ensures
        !names.contains(group) ==> joined(groups, names, node).contains_key(group)
            == groups.contains_key(group),
        !names.contains(group) && groups.contains_key(group) ==> joined(groups, names, node)[group]
            == groups[group],
        names.len() == 0 ==> joined(groups, names, node) == groups,
    decreases names.len(),
{
    if names.len() > 0 {
        let rest = names.drop_last();
        law_join_keeps_other_groups(groups, rest, node, group);
        if !names.contains(group) {
            assert(names.last() != group) by {
                assert(names[names.len() - 1] == names.last());
            }
            assert forall|j: int| 0 <= j < rest.len() implies rest[j] != group by {
                assert(names[j] == rest[j]);
            }
            assert(!rest.contains(group));
        }
    }
}

/// Joining groups never removes a member: whoever was in a group before is in it after, in
/// the same position, and a named group gains the node.
pub proof fn law_join_keeps_members(
    groups: Map<Seq<char>, Seq<Seq<char>>>,
    names: Seq<Seq<char>>,
    node: Seq<char>,
    group: Seq<char>,
)
    ensures
        groups.contains_key(group) ==> joined(groups, names, node).contains_key(group) && groups[group]
            .is_prefix_of(joined(groups, names, node)[group]),
    decreases names.len(),
{
    if names.len() > 0 {
        let rest = names.drop_last();
        law_join_keeps_members(groups, rest, node, group);
        let before = joined(groups, rest, node);
        let last = names.last();
        if groups.contains_key(group) && last == group {
            let members = with_member(before, last, node);
            assert(before[last].is_prefix_of(members)) by {
                if !before[last].contains(node) {
                    assert(before[last].is_prefix_of(before[last].push(node))) by {
                        assert(before[last].push(node).take(before[last].len() as int) =~= before[last]);
                    }
                }
            }
            assert(groups[group].is_prefix_of(members)) by {
                assert(members.take(groups[group].len() as int) =~= before[last].take(groups[group].len() as int));
            }
        }
    }
}

/// A node that leaves groups is afterwards a member of none of them; a group it left empty
/// is gone.
pub proof fn law_left_groups_exclude_node(
    groups: Map<Seq<char>, Seq<Seq<char>>>,
    names: Seq<Seq<char>>,
    node: Seq<char>,
    group: Seq<char>,
)
    ensures
        names.contains(group) && left(groups, names, node).contains_key(group) ==> !left(
            groups,
            names,
            node,
        )[group].contains(node),
    decreases names.len(),
{
    if names.len() > 0 {
        let rest = names.drop_last();
        law_left_groups_exclude_node(groups, rest, node, group);
        let before = left(groups, rest, node);
        let last = names.last();
        if before.contains_key(last) {
            lemma_without_contains(before[last], node, node);
        }
        if names.contains(group) && group != last {
            let j = choose|j: int| 0 <= j < names.len() && names[j] == group;
            assert(rest[j] == group);
        }
    }
}

/// `kept` lists entries of `entries` in their original order: `src` gives, for each kept
/// entry, the strictly increasing index it came from.
spec fn kept_from(entries: Seq<AgentRoute>, kept: Seq<AgentRoute>, src: Seq<int>) -> bool {
    &&& src.len() == kept.len()
    &&& forall|j: int| 0 <= j < src.len() ==> 0 <= #[trigger] src[j] < entries.len()
    &&& forall|i: int, j: int| 0 <= i < j < src.len() ==> src[i] < src[j]
}

/// As [`kept_from`], for group entries.
spec fn groups_kept_from(entries: Seq<GroupMembers>, kept: Seq<GroupMembers>, src: Seq<int>) -> bool {
    &&& src.len() == kept.len()
    &&& forall|j: int| 0 <= j < src.len() ==> 0 <= #[trigger] src[j] < entries.len()
    &&& forall|i: int, j: int| 0 <= i < j < src.len() ==> src[i] < src[j]
}

/// The routes that do not lead to `node`.
pub open spec fn routes_avoiding(routes: Map<Seq<char>, Seq<char>>, node: Seq<char>) -> Map<Seq<char>, Seq<char>> {
    Map::new(|a: Seq<char>| routes.contains_key(a) && routes[a] != node, |a: Seq<char>| routes[a])
}

/// The groups with `node` taken out of each; groups left empty disappear.
pub open spec fn groups_avoiding(groups: Map<Seq<char>, Seq<Seq<char>>>, node: Seq<char>) -> Map<Seq<char>, Seq<Seq<char>>> {
    Map::new(
        |g: Seq<char>| groups.contains_key(g) && without(groups[g], node).len() > 0,
        |g: Seq<char>| without(groups[g], node),
    )
}

/// Taking out an absent element changes nothing.
pub proof fn lemma_without_absent(s: Seq<Seq<char>>, x: Seq<char>)
    requires
        !s.contains(x),
    ensures
        without(s, x) == s,
    decreases s.len(),
{
    if s.len() > 0 {
        let rest = s.drop_last();
        assert(!rest.contains(x)) by {
            if rest.contains(x) {
                let j = choose|j: int| 0 <= j < rest.len() && rest[j] == x;
                assert(s[j] == x);
            }
        }
        lemma_without_absent(rest, x);
        assert(s.last() != x);
        assert(rest.push(s.last()) =~= s);
    }
}

/// In a list without duplicates, taking out the element at `k` removes exactly that position.
pub proof fn lemma_without_at(s: Seq<Seq<char>>, k: int)
    requires
        s.no_duplicates(),
        0 <= k < s.len(),
    ensures
        without(s, s[k]) == s.remove(k),
    decreases s.len(),
{
    let x = s[k];
    let rest = s.drop_last();
    assert(rest.no_duplicates());
    if k == s.len() - 1 {
        assert(!rest.contains(x)) by {
            if rest.contains(x) {
                let j = choose|j: int| 0 <= j < rest.len() && rest[j] == x;
                assert(s[j] == s[k]);
            }
        }
        lemma_without_absent(rest, x);
        assert(s.remove(k) =~= rest);
    } else {
        assert(rest[k] == x);
        lemma_without_at(rest, k);
        assert(s.last() != x);
        assert(s.remove(k) =~= rest.remove(k).push(s.last()));
    }
}

/// Removing a position from a list without duplicates leaves it without duplicates.
pub proof fn lemma_remove_keeps_distinct<A>(s: Seq<A>, k: int)
    requires
        s.no_duplicates(),
        0 <= k < s.len(),
    ensures
        s.remove(k).no_duplicates(),
{
    let r = s.remove(k);
    assert forall|i: int, j: int| 0 <= i < r.len() && 0 <= j < r.len() && i != j implies r[i] != r[j] by {
        let oi = if i < k { i } else { i + 1 };
        let oj = if j < k { j } else { j + 1 };
        assert(r[i] == s[oi]);
        assert(r[j] == s[oj]);
    }
}

/// The connected members of a group, in the order they joined.
pub open spec fn connected_members(members: Seq<Seq<char>>, peers: Seq<Seq<char>>) -> Seq<Seq<char>>
    decreases members.len(),
{
    if members.len() == 0 {
        members
    } else if peers.contains(members.last()) {
        connected_members(members.drop_last(), peers).push(members.last())
    } else {
        connected_members(members.drop_last(), peers)
    }
}

/// The nodes an envelope addressed to `recipient` is offered to, in order: every connected
/// node for a broadcast; the node hosting the agent, when it is connected; the group's
/// connected members.
pub open spec fn route_targets(
    peers: Seq<Seq<char>>,
    routes: Map<Seq<char>, Seq<char>>,
    groups: Map<Seq<char>, Seq<Seq<char>>>,
    recipient: Recipient,
) -> Seq<Seq<char>> {
    match recipient {
        Recipient::Broadcast => peers,
        Recipient::Agent(agent) => if routes.contains_key(agent@) && peers.contains(routes[agent@]) {
            seq![routes[agent@]]
        } else {
            Seq::empty()
        },
        Recipient::Group(group) => if groups.contains_key(group@) {
            connected_members(groups[group@], peers)
        } else {
            Seq::empty()
        },
    }
}

/// Two envelopes carry the same metadata and the same payload bytes.
pub open spec fn same_envelope(a: WireEnvelope, b: WireEnvelope) -> bool {
    a.meta == b.meta && a.payload@ == b.payload@
}

/// `offers` are one offer of `envelope`, as an envelope frame, to each of `targets`, in
/// order.
pub open spec fn offered(
    offers: Seq<(Seq<char>, WireFrame, bool)>,
    targets: Seq<Seq<char>>,
    envelope: WireEnvelope,
) -> bool {
    &&& offers.len() == targets.len()
    &&& forall|i: int|
        0 <= i < offers.len() ==> (#[trigger] offers[i]).0 == targets[i] && (match offers[i].1 {
            WireFrame::Envelope(sent) => same_envelope(sent, envelope),
            _ => false,
        })
}

/// The nodes whose queues accepted their offer, in order.
pub open spec fn accepted_nodes(offers: Seq<(Seq<char>, WireFrame, bool)>) -> Seq<Seq<char>>
    decreases offers.len(),
{
    if offers.len() == 0 {
        Seq::empty()
    } else if offers.last().2 {
        accepted_nodes(offers.drop_last()).push(offers.last().0)
    } else {
        accepted_nodes(offers.drop_last())
    }
}

/// How many offers were refused.
pub open spec fn refusals(offers: Seq<(Seq<char>, WireFrame, bool)>) -> nat
    decreases offers.len(),
{
    if offers.len() == 0 {
        0
    } else {
        refusals(offers.drop_last()) + if offers.last().2 {
            0nat
        } else {
            1nat
        }
    }
}

/// The offers made since the log held `before` offers.
pub open spec fn offers_since(log: Seq<(Seq<char>, WireFrame, bool)>, before: nat) -> Seq<(Seq<char>, WireFrame, bool)> {
    log.skip(before as int)
}

/// A copy of `envelope`.
fn clone_envelope(envelope: &WireEnvelope) -> (r: WireEnvelope)
    ensures
        same_envelope(r, *envelope),
{
    let meta = &envelope.meta;
    let sender = match &meta.sender {
        Some(agent) => Some(agent.clone()),
        None => None,
    };
    let mut payload: Vec<u8> = Vec::new();
    let mut i: usize = 0;
    while i < envelope.payload.len()
        invariant
            i <= envelope.payload@.len(),
            payload@ == envelope.payload@.take(i as int),
        decreases envelope.payload@.len() - i,
    {
        payload.push(envelope.payload[i]);
        assert(envelope.payload@.take(i + 1) =~= envelope.payload@.take(i as int).push(envelope.payload@[i as int]));
        i = i + 1;
    }
    assert(envelope.payload@.take(i as int) =~= envelope.payload@);
    WireEnvelope {
        meta: EnvelopeMeta {
            message_id: meta.message_id,
            correlation_id: meta.correlation_id,
            message_kind: meta.message_kind.clone(),
            schema_version: meta.schema_version,
            sender,
            recipient: meta.recipient.clone(),
            created_at_unix_ms: meta.created_at_unix_ms,
        },
        payload,
    }
}

/// An outcome of routing an envelope addressed to `recipient`, given the connected `peers`,
/// the agent `routes` and the `groups`: `delivered` are the nodes that took a copy,
/// `refused` the copies refused by full queues, `reason` the reported drop reason, and
/// `backpressure_added` / `unknown_added` what the drop counters grew by.
pub open spec fn routed_as(
    peers: Seq<Seq<char>>,
    routes: Map<Seq<char>, Seq<char>>,
    groups: Map<Seq<char>, Seq<Seq<char>>>,
    recipient: Recipient,
    delivered: Seq<Seq<char>>,
    refused: nat,
    reason: Option<DropReason>,
    backpressure_added: int,
    unknown_added: int,
) -> bool {
    match recipient {
        Recipient::Broadcast => {
            &&& delivered.no_duplicates()
            &&& forall|x: Seq<char>| #[trigger] delivered.contains(x) ==> peers.contains(x)
            &&& delivered.len() + refused == peers.len()
            &&& backpressure_added == refused
            &&& unknown_added == 0
            &&& reason == fan_out_reason(delivered.len(), refused)
        },
        Recipient::Agent(agent) => if routes.contains_key(agent@) && peers.contains(routes[agent@]) {
            &&& unknown_added == 0
            &&& ({
                ||| delivered == seq![routes[agent@]] && refused == 0 && backpressure_added == 0
                    && reason is None
                ||| delivered.len() == 0 && refused == 1 && backpressure_added == 1 && reason
                    == Some(DropReason::Backpressure)
            })
        } else {
            &&& delivered.len() == 0
            &&& refused == 0
            &&& backpressure_added == 0
            &&& unknown_added == 1
            &&& reason == Some(DropReason::UnknownRecipient)
        },
        Recipient::Group(group) => if groups.contains_key(group@) {
            &&& delivered.no_duplicates()
            &&& forall|x: Seq<char>|
                #[trigger] delivered.contains(x) ==> peers.contains(x) && groups[group@].contains(x)
            &&& delivered.len() + refused == connected_count(groups[group@], peers)
            &&& backpressure_added == refused
            &&& unknown_added == 0
            &&& reason == fan_out_reason(delivered.len(), refused)
        } else {
            &&& delivered.len() == 0
            &&& refused == 0
            &&& backpressure_added == 0
            &&& unknown_added == 1
            &&& reason == Some(DropReason::UnknownGroup)
        },
    }
}

/// The three drop counters agree between two states.
pub open spec fn unchanged_counters(before: BrokerState, after: BrokerState) -> bool {
    &&& after.backpressure_total() == before.backpressure_total()
    &&& after.unknown_recipient_total() == before.unknown_recipient_total()
    &&& after.unsupported_group_total() == before.unsupported_group_total()
}

/// `events` report the routing `outcome` of the envelope summarized by `summary` from
/// `source`: a routed event naming the recipients when any node got a copy, then a dropped
/// event naming the reported reason when there is one.
pub open spec fn reports_route(
    events: Seq<ObserveEventKind>,
    source: NodeId,
    summary: EnvelopeSummary,
    outcome: RouteOutcome,
) -> bool {
    let routed = outcome.recipients@.len() > 0;
    &&& events.len() == (if routed { 1int } else { 0 }) + (if outcome.reported_drop_spec() is Some {
        1int
    } else {
        0
    })
    &&& routed ==> (match events[0] {
        ObserveEventKind::BrokerEnvelopeRouted { source_node_id, envelope, recipients } => {
            source_node_id == source && envelope == summary && recipients@ == outcome.recipients@
        },
        _ => false,
    })
    &&& outcome.reported_drop_spec() is Some ==> (match events[events.len() - 1] {
        ObserveEventKind::BrokerEnvelopeDropped { source_node_id, envelope, reason } => {
            source_node_id == source && envelope == summary && reason@ == drop_label(
                outcome.reported_drop_spec()->0,
            )
        },
        _ => false,
    })
}

} // verus!
