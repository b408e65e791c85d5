//! The in-memory network's routing table: which actors are reachable, which message types
//! each subscribed to, and where a message of a given type is delivered.

use std::any::TypeId;
use tokio::sync::mpsc::UnboundedSender;
use vstd::prelude::*;

verus! {

#[verifier::external_type_specification]
#[verifier::external_body]
pub struct ExTypeId(TypeId);

#[verifier::external_type_specification]
#[verifier::external_body]
#[verifier::reject_recursive_types(T)]
pub struct ExUnboundedSender<T>(UnboundedSender<T>);

/// Compares two type identifiers with `TypeId`'s `==`, which holds exactly when both
/// identify the same type, that is, when they are the same value.
#[verifier::external_body]
pub(crate) fn same_type(a: &TypeId, b: &TypeId) -> (r: bool)
    ensures
        r == (*a == *b),
{
    *a == *b
}


/// A unique identifier for an actor on the in-memory network.
#[derive(Debug, Clone, Copy, PartialEq, Eq, Hash)]
pub struct InMemoryAddress(u64);

impl View for InMemoryAddress {
    type V = u64;

    closed spec fn view(&self) -> u64 {
        self.0
    }
}

impl InMemoryAddress {
    /// The address numbered `id`.
    pub fn new(id: u64) -> (a: InMemoryAddress)
        ensures
            a@ == id,
    {
        InMemoryAddress(id)
    }

    /// The address's number.
    pub fn id(&self) -> (id: u64)
        ensures
            id == self@,
    {
        self.0
    }
}

#[verifier::reject_recursive_types(E)]
struct Inbox<E> {
    address: InMemoryAddress,
    sender: UnboundedSender<E>,
}

struct Route {
    type_id: TypeId,
    subscribers: Vec<InMemoryAddress>,
}

/// The routing state of an in-memory network carrying envelopes of type `E`.
#[verifier::reject_recursive_types(E)]
pub struct RoutingTable<E> {
    inboxes: Vec<Inbox<E>>,
    routes: Vec<Route>,
    route_view: Ghost<Map<TypeId, Seq<u64>>>,
    sent: Ghost<Seq<(u64, UnboundedSender<E>, E)>>,
}

/// Hands `envelope` to the inbox at position `k` with `UnboundedSender::send`, and records
/// the hand-over, with that inbox's address and channel, at the end of the table's log; the table is
/// otherwise unchanged. Whether the actor receives it is not stated: `send` fails, without
/// panicking, once the inbox's receiver has been dropped.
#[verifier::external_body]
fn send_to_inbox<E>(table: &mut RoutingTable<E>, k: usize, envelope: E)
    requires
        k < old(table).inboxes@.len(),
    ensures
        final(table).inboxes == old(table).inboxes,
        final(table).routes == old(table).routes,
        final(table).route_view == old(table).route_view,
        final(table).sent@ == old(table).sent@.push(
            (old(table).inboxes@[k as int].address@, old(table).inboxes@[k as int].sender, envelope),
        ),
{
    let _ = table.inboxes[k].sender.send(envelope);
}

/// The addresses of a list of actor addresses, as numbers.
pub open spec fn address_ids(addresses: Seq<InMemoryAddress>) -> Seq<u64> {
    addresses.map_values(|a: InMemoryAddress| a@)
}

/// The subscribers in `subscribers` that have an inbox, in subscription order.
pub open spec fn reachable(subscribers: Seq<u64>, registered: Set<u64>) -> Seq<u64>
    decreases subscribers.len(),
{
    if subscribers.len() == 0 {
        subscribers
    } else if registered.contains(subscribers.last()) {
        reachable(subscribers.drop_last(), registered).push(subscribers.last())
    } else {
        reachable(subscribers.drop_last(), registered)
    }
}

/// The subscription lists after `address` subscribes to `type_id`: appended at the end, even
/// when already present.
pub open spec fn subscribed(routes: Map<TypeId, Seq<u64>>, type_id: TypeId, address: u64) -> Map<
    TypeId,
    Seq<u64>,
> {
    routes.insert(
        type_id,
        if routes.contains_key(type_id) {
            routes[type_id].push(address)
        } else {
            seq![address]
        },
    )
}

/// The addresses that have an inbox in `inboxes`.
spec fn inbox_addresses<E>(inboxes: Seq<Inbox<E>>) -> Set<u64> {
    Set::new(|a: u64| exists|i: int| 0 <= i < inboxes.len() && inboxes[i].address@ == a)
}

/// No two inboxes share an address.
spec fn addresses_distinct<E>(inboxes: Seq<Inbox<E>>) -> bool {
    forall|i: int, j: int| 0 <= i < j < inboxes.len() ==> inboxes[i].address@ != inboxes[j].address@
}

/// The channel of the inbox for address `a`, if there is one.
spec fn inbox_lookup<E>(inboxes: Seq<Inbox<E>>, a: u64) -> Option<UnboundedSender<E>> {
    if exists|i: int| 0 <= i < inboxes.len() && inboxes[i].address@ == a {
        Some(inboxes[choose|i: int| 0 <= i < inboxes.len() && inboxes[i].address@ == a].sender)
    } else {
        None
    }
}

/// With distinct addresses, the lookup of an inbox's address finds that inbox's channel.
proof fn lemma_lookup_at<E>(inboxes: Seq<Inbox<E>>, k: int)
    requires
        addresses_distinct(inboxes),
        0 <= k < inboxes.len(),
    ensures
        inbox_lookup(inboxes, inboxes[k].address@) == Some(inboxes[k].sender),
{
    let a = inboxes[k].address@;
    assert(exists|i: int| 0 <= i < inboxes.len() && inboxes[i].address@ == a);
    let j = choose|i: int| 0 <= i < inboxes.len() && inboxes[i].address@ == a;
    if j < k {
        assert(inboxes[j].address@ != inboxes[k].address@);
    } else if k < j {
        assert(inboxes[k].address@ != inboxes[j].address@);
    }
}

/// Writing an inbox for address `a` at position `p`, in place of the inbox for `a` or at the
/// end when `a` had none, keeps the addresses distinct, adds `a` to them, makes the new
/// inbox's channel the one found for `a`, and keeps what is found for every other address.
proof fn lemma_inbox_written<E>(before: Seq<Inbox<E>>, after: Seq<Inbox<E>>, p: int, a: u64)
    requires
        addresses_distinct(before),
        0 <= p < after.len(),
        after.len() == before.len() || (after.len() == before.len() + 1 && p == before.len()),
        after[p].address@ == a,
        p < before.len() ==> before[p].address@ == a,
        p == before.len() ==> !inbox_addresses(before).contains(a),
        forall|i: int| 0 <= i < after.len() && i != p ==> after[i] == before[i],
    ensures
        addresses_distinct(after),
        inbox_addresses(after) =~= inbox_addresses(before).insert(a),
        inbox_lookup(after, a) == Some(after[p].sender),
        forall|x: u64| x != a ==> inbox_lookup(after, x) == inbox_lookup(before, x),
{
    assert forall|i: int| 0 <= i < after.len() && i != p implies after[i].address@ != a by {
        assert(after[i] == before[i]);
        if p < before.len() {
            if i < p {
                assert(before[i].address@ != before[p].address@);
            } else {
                assert(before[p].address@ != before[i].address@);
            }
        } else if before[i].address@ == a {
            assert(inbox_addresses(before).contains(a));
        }
    }
    assert forall|i: int, j: int| 0 <= i < j < after.len() implies after[i].address@ != after[j].address@ by {
        if i != p && j != p {
            assert(after[i] == before[i] && after[j] == before[j]);
        }
    }
    assert forall|x: u64| inbox_addresses(before).insert(a).contains(x) implies inbox_addresses(after).contains(x) by {
        if x == a {
            assert(after[p].address@ == x);
        } else {
            let i = choose|i: int| 0 <= i < before.len() && before[i].address@ == x;
            assert(after[i].address@ == x);
        }
    }
    assert forall|x: u64| inbox_addresses(after).contains(x) implies inbox_addresses(before).insert(a).contains(x) by {
        let i = choose|i: int| 0 <= i < after.len() && after[i].address@ == x;
        if i != p {
            assert(before[i].address@ == x);
        }
    }
    lemma_lookup_at(after, p);
    assert forall|x: u64| x != a implies inbox_lookup(after, x) == inbox_lookup(before, x) by {
        if exists|i: int| 0 <= i < before.len() && before[i].address@ == x {
            let i = choose|i: int| 0 <= i < before.len() && before[i].address@ == x;
            assert(after[i] == before[i]);
            lemma_lookup_at(before, i);
            lemma_lookup_at(after, i);
        } else {
            assert(!inbox_addresses(before).contains(x));
            assert(!inbox_addresses(after).contains(x));
            assert(!exists|i: int| 0 <= i < after.len() && after[i].address@ == x);
        }
    }
}

impl<E> RoutingTable<E> {
    /// The addresses that have an inbox.
    pub closed spec fn registered(&self) -> Set<u64> {
        inbox_addresses(self.inboxes@)
    }

    /// The channel of the inbox registered for address `a`, if any.
    pub closed spec fn inbox_of(&self, a: u64) -> Option<UnboundedSender<E>> {
        inbox_lookup(self.inboxes@, a)
    }

    /// Each message type's subscribers, in subscription order.
    pub closed spec fn subscriptions(&self) -> Map<TypeId, Seq<u64>> {
        self.route_view@
    }

    /// Every envelope handed to an inbox so far, oldest first, with the address and the
    /// channel of that inbox.
    pub closed spec fn sent_log(&self) -> Seq<(u64, UnboundedSender<E>, E)> {
        self.sent@
    }

    /// The table's internal consistency: each inbox address and each message type is listed
    /// once, and the route list agrees with [`RoutingTable::subscriptions`].
    pub closed spec fn wf(&self) -> bool {
        &&& addresses_distinct(self.inboxes@)
        &&& forall|i: int, j: int|
            0 <= i < j < self.routes@.len() ==> self.routes@[i].type_id != self.routes@[j].type_id
        &&& forall|t: TypeId|
            #![trigger self.route_view@.contains_key(t)]
            self.route_view@.contains_key(t) <==> exists|i: int|
                0 <= i < self.routes@.len() && self.routes@[i].type_id == t
        &&& forall|i: int|
            #![trigger self.routes@[i]]
            0 <= i < self.routes@.len() ==> self.route_view@[self.routes@[i].type_id] == address_ids(
                self.routes@[i].subscribers@,
            )
    }

    /// A table with no inboxes and no subscriptions.
    pub fn new() -> (t: RoutingTable<E>)
        ensures
            t.wf(),
            t.registered() == Set::<u64>::empty(),
            t.subscriptions() == Map::<TypeId, Seq<u64>>::empty(),
    {
        let t = RoutingTable {
            inboxes: Vec::new(),
            routes: Vec::new(),
            route_view: Ghost(Map::empty()),
            sent: Ghost(Seq::empty()),
        };
        assert(t.registered() =~= Set::<u64>::empty());
        t
    }

    fn find_inbox(&self, address: InMemoryAddress) -> (k: Option<usize>)
        ensures
            match k {
                Some(k) => k < self.inboxes@.len() && self.inboxes@[k as int].address@ == address@,
                None => !self.registered().contains(address@),
            },
    {
        let mut i: usize = 0;
        while i < self.inboxes.len()
            invariant
                i <= self.inboxes@.len(),
                forall|j: int| 0 <= j < i ==> self.inboxes@[j].address@ != address@,
            decreases self.inboxes@.len() - i,
        {
            if self.inboxes[i].address.0 == address.0 {
                return Some(i);
            }
            i = i + 1;
        }
        None
    }

    fn find_route(&self, type_id: &TypeId) -> (k: Option<usize>)
        requires
            self.wf(),
        ensures
            match k {
                Some(k) => k < self.routes@.len() && self.routes@[k as int].type_id == *type_id,
                None => !self.subscriptions().contains_key(*type_id),
            },
    {
        let mut i: usize = 0;
        while i < self.routes.len()
            invariant
                i <= self.routes@.len(),
                forall|j: int| 0 <= j < i ==> self.routes@[j].type_id != *type_id,
            decreases self.routes@.len() - i,
        {
            if same_type(&self.routes[i].type_id, type_id) {
                return Some(i);
            }
            i = i + 1;
        }
        None
    }

    /// Gives `address` the inbox `sender`, replacing any inbox it had.
    pub fn register(&mut self, address: InMemoryAddress, sender: UnboundedSender<E>)
        requires
            old(self).wf(),
        ensures
            final(self).wf(),
            final(self).registered() == old(self).registered().insert(address@),
            final(self).inbox_of(address@) == Some(sender),
            forall|a: u64| a != address@ ==> #[trigger] final(self).inbox_of(a) == old(self).inbox_of(a),
            final(self).subscriptions() == old(self).subscriptions(),
            final(self).sent_log() == old(self).sent_log(),
    {
        match self.find_inbox(address) {
            Some(k) => {
                self.inboxes.set(k, Inbox { address, sender });
                proof {
                    lemma_inbox_written(old(self).inboxes@, self.inboxes@, k as int, address@);
                }
            },
            None => {
                self.inboxes.push(Inbox { address, sender });
                let ghost last = old(self).inboxes@.len() as int;
                proof {
                    lemma_inbox_written(old(self).inboxes@, self.inboxes@, last, address@);
                }
            },
        }
    }

    /// Subscribes `address` to messages of type `type_id`. Subscribing twice delivers twice.
    pub fn subscribe(&mut self, address: InMemoryAddress, type_id: TypeId)
        requires
            old(self).wf(),
        ensures
            final(self).wf(),
            final(self).registered() == old(self).registered(),
            forall|a: u64| #[trigger] final(self).inbox_of(a) == old(self).inbox_of(a),
            final(self).subscriptions() == subscribed(old(self).subscriptions(), type_id, address@),
            final(self).sent_log() == old(self).sent_log(),
    {
        match self.find_route(&type_id) {
            Some(k) => {
                let mut route = self.routes.remove(k);
                route.subscribers.push(address);
                proof {
                    assert(address_ids(route.subscribers@) =~= address_ids(old(self).routes@[k as int].subscribers@).push(address@));
                }
                self.routes.insert(k, route);
                proof {
                    self.route_view@ = subscribed(old(self).route_view@, type_id, address@);
                    assert(old(self).route_view@[type_id] == address_ids(old(self).routes@[k as int].subscribers@));
                    assert forall|i: int| 0 <= i < self.routes@.len() && i != k implies #[trigger] self.routes@[i] == old(self).routes@[i] by {}
                    assert forall|i: int, j: int| 0 <= i < j < self.routes@.len() implies self.routes@[i].type_id != self.routes@[j].type_id by {
                        assert(old(self).routes@[i].type_id != old(self).routes@[j].type_id);
                    }
                    assert forall|t: TypeId| #[trigger] self.route_view@.contains_key(t) implies exists|i: int| 0 <= i < self.routes@.len() && self.routes@[i].type_id == t by {
                        if t != type_id {
                            let i = choose|i: int| 0 <= i < old(self).routes@.len() && old(self).routes@[i].type_id == t;
                            assert(self.routes@[i].type_id == t);
                        } else {
                            assert(self.routes@[k as int].type_id == t);
                        }
                    }
                    assert forall|t: TypeId| (exists|i: int| 0 <= i < self.routes@.len() && self.routes@[i].type_id == t) implies #[trigger] self.route_view@.contains_key(t) by {
                        let i = choose|i: int| 0 <= i < self.routes@.len() && self.routes@[i].type_id == t;
                        assert(old(self).routes@[i].type_id == t);
                    }
                    assert forall|i: int| 0 <= i < self.routes@.len() implies self.route_view@[#[trigger] self.routes@[i].type_id] == address_ids(self.routes@[i].subscribers@) by {
                        if i != k {
                            if i < k {
                                assert(old(self).routes@[i].type_id != old(self).routes@[k as int].type_id);
                            } else {
                                assert(old(self).routes@[k as int].type_id != old(self).routes@[i].type_id);
                            }
                        }
                    }
                }
            },
            None => {
                let subscribers = vec![address];
                self.routes.push(Route { type_id, subscribers });
                proof {
                    let last = old(self).routes@.len() as int;
                    self.route_view@ = subscribed(old(self).route_view@, type_id, address@);
                    assert(address_ids(self.routes@[last].subscribers@) =~= seq![address@]);
                    assert forall|i: int| 0 <= i < last implies #[trigger] self.routes@[i] == old(self).routes@[i] by {}
                    assert forall|i: int| 0 <= i < last implies self.routes@[i].type_id != type_id by {
                        if old(self).routes@[i].type_id == type_id {
                            assert(old(self).route_view@.contains_key(type_id));
                        }
                    }
                    assert forall|i: int, j: int| 0 <= i < j < self.routes@.len() implies self.routes@[i].type_id != self.routes@[j].type_id by {
                        if j < last {
                            assert(old(self).routes@[i].type_id != old(self).routes@[j].type_id);
                        }
                    }
                    assert forall|t: TypeId| #[trigger] self.route_view@.contains_key(t) implies exists|i: int| 0 <= i < self.routes@.len() && self.routes@[i].type_id == t by {
                        if t != type_id {
                            let i = choose|i: int| 0 <= i < old(self).routes@.len() && old(self).routes@[i].type_id == t;
                            assert(self.routes@[i].type_id == t);
                        } else {
                            assert(self.routes@[last].type_id == t);
                        }
                    }
                    assert forall|t: TypeId| (exists|i: int| 0 <= i < self.routes@.len() && self.routes@[i].type_id == t) implies #[trigger] self.route_view@.contains_key(t) by {
                        let i = choose|i: int| 0 <= i < self.routes@.len() && self.routes@[i].type_id == t;
                        if i != last {
                            assert(old(self).routes@[i].type_id == t);
                        }
                    }
                    assert forall|i: int| 0 <= i < self.routes@.len() implies self.route_view@[#[trigger] self.routes@[i].type_id] == address_ids(self.routes@[i].subscribers@) by {}
                }
            },
        }
    }

    /// The addresses a message of type `type_id` is delivered to: its subscribers that have
    /// an inbox, in subscription order (an address subscribed twice appears twice).
    pub fn deliveries(&self, type_id: &TypeId) -> (r: Vec<InMemoryAddress>)
        requires
            self.wf(),
        ensures
            address_ids(r@) == reachable(
                if self.subscriptions().contains_key(*type_id) {
                    self.subscriptions()[*type_id]
                } else {
                    Seq::empty()
                },
                self.registered(),
            ),
    {
        let mut r: Vec<InMemoryAddress> = Vec::new();
        match self.find_route(type_id) {
            Some(k) => {
                let subscribers = &self.routes[k].subscribers;
                let ghost subs = address_ids(subscribers@);
                proof {
                    assert(self.route_view@[*type_id] == subs);
                }
                let mut i: usize = 0;
                while i < subscribers.len()
                    invariant
                        i <= subscribers@.len(),
                        subs == address_ids(subscribers@),
                        address_ids(r@) == reachable(subs.take(i as int), self.registered()),
                    decreases subscribers@.len() - i,
                {
                    let address = subscribers[i];
                    proof {
                        let prefix = subs.take(i + 1);
                        assert(prefix.drop_last() =~= subs.take(i as int));
                        assert(prefix.last() == address@);
                    }
                    if self.find_inbox(address).is_some() {
                        r.push(address);
                        assert(address_ids(r@) =~= reachable(subs.take(i + 1), self.registered()));
                    }
                    i = i + 1;
                }
                assert(subs.take(i as int) =~= subs);
            },
            None => {
                assert(address_ids(r@) =~= Seq::<u64>::empty());
            },
        }
        r
    }

    /// Delivers a copy of `envelope`, a message of type `type_id`, to every address that
    /// [`RoutingTable::deliveries`] names, in that order, and returns those addresses: the
    /// inbox of each returned address is handed one clone of the envelope, in that order.
    pub fn dispatch(&mut self, type_id: &TypeId, envelope: &E) -> (r: Vec<InMemoryAddress>)
        where
            E: Clone,
        requires
            old(self).wf(),
        ensures
            final(self).wf(),
            final(self).registered() == old(self).registered(),
            final(self).subscriptions() == old(self).subscriptions(),
            address_ids(r@) == reachable(
                if old(self).subscriptions().contains_key(*type_id) {
                    old(self).subscriptions()[*type_id]
                } else {
                    Seq::empty()
                },
                old(self).registered(),
            ),
            final(self).sent_log().len() == old(self).sent_log().len() + r@.len(),
            final(self).sent_log().take(old(self).sent_log().len() as int) == old(self).sent_log(),
            forall|j: int|
                0 <= j < r@.len() ==> {
                    let entry = #[trigger] final(self).sent_log()[old(self).sent_log().len() + j];
                    &&& entry.0 == r@[j]@
                    &&& old(self).inbox_of(r@[j]@) == Some(entry.1)
                    &&& cloned::<E>(*envelope, entry.2)
                },
            forall|a: u64| #[trigger] final(self).inbox_of(a) == old(self).inbox_of(a),
    {
        let targets = self.deliveries(type_id);
        let ghost start = self.sent@;
        let ghost subs = if self.subscriptions().contains_key(*type_id) {
            self.subscriptions()[*type_id]
        } else {
            Seq::empty()
        };
        let mut i: usize = 0;
        while i < targets.len()
            invariant
                i <= targets@.len(),
                self.wf(),
                self.inboxes == old(self).inboxes,
                self.routes == old(self).routes,
                self.route_view == old(self).route_view,
                address_ids(targets@) == reachable(subs, old(self).registered()),
                start == old(self).sent@,
                self.sent@.len() == start.len() + i,
                self.sent@.take(start.len() as int) == start,
                forall|j: int|
                    0 <= j < i ==> {
                        let entry = #[trigger] self.sent@[start.len() + j];
                        &&& entry.0 == targets@[j]@
                        &&& old(self).inbox_of(targets@[j]@) == Some(entry.1)
                        &&& cloned::<E>(*envelope, entry.2)
                    },
            decreases targets@.len() - i,
        {
            proof {
                assert(address_ids(targets@)[i as int] == targets@[i as int]@);
                law_reachable_keeps_registered(subs, old(self).registered(), targets@[i as int]@);
                assert(reachable(subs, old(self).registered()).contains(targets@[i as int]@));
            }
            match self.find_inbox(targets[i]) {
                Some(k) => {
                    let copy = envelope.clone();
                    let ghost before = self.sent@;
                    proof {
                        lemma_lookup_at(self.inboxes@, k as int);
                    }
                    send_to_inbox(self, k, copy);
                    assert(self.sent@.take(start.len() as int) =~= before.take(start.len() as int));
                },
                None => {
                    assert(false);
                },
            }
            i = i + 1;
        }
        targets
    }
}

/// A message type's subscriber that has an inbox receives its messages, as many times as it
/// subscribed; one without an inbox receives none.
pub proof fn law_reachable_keeps_registered(subscribers: Seq<u64>, registered: Set<u64>, a: u64)
    ensures
        reachable(subscribers, registered).contains(a) == (subscribers.contains(a) && registered.contains(a)),
    decreases subscribers.len(),
{
    if subscribers.len() > 0 {
        let rest = subscribers.drop_last();
        law_reachable_keeps_registered(rest, registered, a);
        let r = reachable(rest, registered);
        assert(subscribers.contains(a) == (rest.contains(a) || subscribers.last() == a)) by {
            if subscribers.contains(a) {
                let j = choose|j: int| 0 <= j < subscribers.len() && subscribers[j] == a;
                if j < subscribers.len() - 1 {
                    assert(rest[j] == a);
                }
            }
            if rest.contains(a) {
                let j = choose|j: int| 0 <= j < rest.len() && rest[j] == a;
                assert(subscribers[j] == a);
            }
        }
        if registered.contains(subscribers.last()) {
            assert(r.push(subscribers.last()).contains(a) == (r.contains(a) || subscribers.last() == a)) by {
                if r.push(subscribers.last()).contains(a) {
                    let j = choose|j: int| 0 <= j < r.len() + 1 && r.push(subscribers.last())[j] == a;
                    if j < r.len() {
                        assert(r[j] == a);
                    }
                }
                if r.contains(a) {
                    let j = choose|j: int| 0 <= j < r.len() && r[j] == a;
                    assert(r.push(subscribers.last())[j] == a);
                }
                if subscribers.last() == a {
                    assert(r.push(subscribers.last())[r.len() as int] == a);
                }
            }
        }
    }
}

/// Once an actor has an inbox and subscribed to a message type, messages of that type reach
/// it.
pub proof fn law_subscriber_is_reached(
    routes: Map<TypeId, Seq<u64>>,
    registered: Set<u64>,
    type_id: TypeId,
    address: u64,
)
    requires
        registered.contains(address),
    ensures
        reachable(subscribed(routes, type_id, address)[type_id], registered).contains(address),
{
    let subs = subscribed(routes, type_id, address)[type_id];
    assert(subs[subs.len() - 1] == address);
    law_reachable_keeps_registered(subs, registered, address);
}

} // verus!
