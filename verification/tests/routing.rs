use arbiter::routing::{InMemoryAddress, RoutingTable};
use std::any::TypeId;
use tokio::sync::mpsc;

struct Ping;
struct Pong;

#[test]
fn messages_reach_registered_subscribers_in_order() {
    let mut table: RoutingTable<u32> = RoutingTable::new();
    let (tx1, mut rx1) = mpsc::unbounded_channel();
    let (tx2, mut rx2) = mpsc::unbounded_channel();
    let a1 = InMemoryAddress::new(1);
    let a2 = InMemoryAddress::new(2);
    table.register(a1, tx1);
    table.register(a2, tx2);
    table.subscribe(a2, TypeId::of::<Ping>());
    table.subscribe(a1, TypeId::of::<Ping>());
    table.subscribe(a1, TypeId::of::<Pong>());

    let targets = table.dispatch(&TypeId::of::<Ping>(), &7);
    assert_eq!(targets, vec![a2, a1]);
    assert_eq!(rx1.try_recv().unwrap(), 7);
    assert_eq!(rx2.try_recv().unwrap(), 7);

    let targets = table.dispatch(&TypeId::of::<Pong>(), &8);
    assert_eq!(targets, vec![a1]);
    assert_eq!(rx1.try_recv().unwrap(), 8);
    assert!(rx2.try_recv().is_err());
}

#[test]
fn unsubscribed_types_and_unregistered_addresses_get_nothing() {
    let mut table: RoutingTable<u32> = RoutingTable::new();
    let (tx, mut rx) = mpsc::unbounded_channel();
    table.register(InMemoryAddress::new(1), tx);
    table.subscribe(InMemoryAddress::new(9), TypeId::of::<Ping>());
    assert!(table.dispatch(&TypeId::of::<Ping>(), &1).is_empty());
    assert!(table.deliveries(&TypeId::of::<Pong>()).is_empty());
    assert!(rx.try_recv().is_err());
}

#[test]
fn double_subscription_delivers_twice() {
    let mut table: RoutingTable<u32> = RoutingTable::new();
    let (tx, mut rx) = mpsc::unbounded_channel();
    let a = InMemoryAddress::new(5);
    table.register(a, tx);
    table.subscribe(a, TypeId::of::<Ping>());
    table.subscribe(a, TypeId::of::<Ping>());
    assert_eq!(table.dispatch(&TypeId::of::<Ping>(), &3), vec![a, a]);
    assert_eq!(rx.try_recv().unwrap(), 3);
    assert_eq!(rx.try_recv().unwrap(), 3);
    assert_eq!(a.id(), 5);
}

#[test]
fn re_registering_replaces_the_inbox() {
    let mut table: RoutingTable<u32> = RoutingTable::new();
    let (old_tx, mut old_rx) = mpsc::unbounded_channel();
    let (new_tx, mut new_rx) = mpsc::unbounded_channel();
    let a = InMemoryAddress::new(1);
    table.register(a, old_tx);
    table.register(a, new_tx);
    table.subscribe(a, TypeId::of::<Pong>());
    assert_eq!(table.dispatch(&TypeId::of::<Pong>(), &4), vec![a]);
    assert_eq!(new_rx.try_recv().unwrap(), 4);
    assert!(old_rx.try_recv().is_err());
}
