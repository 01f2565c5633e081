use event_bus::bus::{post, register, unregister, Dispatch, EventBus, QUEUE_CAPACITY};
use event_bus::registry::{index_of_subscriber, Registry};

const CHANGE_EVENT: u64 = 1;
const OTHER_EVENT: u64 = 2;

/// Drains the bus and counts, per subscriber id, the deliveries owed and the
/// payloads each one would be handed.
fn drain(bus: &mut EventBus<String>) -> Vec<(u64, String)> {
    let mut delivered = Vec::new();
    while let Some(Dispatch { event, subscribers, .. }) = bus.next_dispatch() {
        for id in subscribers {
            delivered.push((id, event.clone()));
        }
    }
    delivered
}

#[test]
fn test_post_event() {
    let mut bus: EventBus<String> = EventBus::new();
    register(&mut bus, CHANGE_EVENT, 7);
    assert!(post(&mut bus, CHANGE_EVENT, "test".to_owned()));
    assert_eq!(drain(&mut bus), vec![(7, "test".to_owned())]);
}

#[test]
fn test_register_and_unregister() {
    let mut bus: EventBus<String> = EventBus::new();
    register(&mut bus, CHANGE_EVENT, 7);
    assert!(post(&mut bus, CHANGE_EVENT, "register".to_owned()));
    assert_eq!(drain(&mut bus), vec![(7, "register".to_owned())]);
    unregister(&mut bus, CHANGE_EVENT, 7);
    assert!(post(&mut bus, CHANGE_EVENT, "unregister".to_owned()));
    assert_eq!(drain(&mut bus), vec![]);
}

#[test]
fn change_event_scenario() {
    let s1: u64 = 11;
    let mut bus: EventBus<String> = EventBus::new();
    bus.register(CHANGE_EVENT, s1);
    bus.post(CHANGE_EVENT, "test".to_owned());
    let first = drain(&mut bus);
    assert_eq!(first.len(), 1);
    assert_eq!(first[0], (s1, "test".to_owned()));
    bus.unregister(CHANGE_EVENT, s1);
    bus.post(CHANGE_EVENT, "unregister".to_owned());
    assert!(drain(&mut bus).is_empty());
}

#[test]
fn registered_subscriber_receives_later_events() {
    let mut bus: EventBus<String> = EventBus::new();
    bus.register(CHANGE_EVENT, 1);
    bus.register(OTHER_EVENT, 2);
    bus.unregister(OTHER_EVENT, 2);
    bus.post(CHANGE_EVENT, "a".to_owned());
    bus.post(CHANGE_EVENT, "b".to_owned());
    assert_eq!(drain(&mut bus), vec![(1, "a".to_owned()), (1, "b".to_owned())]);
}

#[test]
fn events_of_another_kind_are_not_delivered() {
    let mut bus: EventBus<String> = EventBus::new();
    bus.register(CHANGE_EVENT, 1);
    bus.register(OTHER_EVENT, 2);
    bus.post(OTHER_EVENT, "other".to_owned());
    assert_eq!(drain(&mut bus), vec![(2, "other".to_owned())]);
    bus.post(3, "nobody".to_owned());
    assert!(drain(&mut bus).is_empty());
}

#[test]
fn every_subscriber_of_a_kind_is_listed_in_order() {
    let mut bus: EventBus<String> = EventBus::new();
    for id in [5u64, 3, 9] {
        bus.register(CHANGE_EVENT, id);
    }
    bus.post(CHANGE_EVENT, "x".to_owned());
    let d = bus.next_dispatch().unwrap();
    assert_eq!(d.kind, CHANGE_EVENT);
    assert_eq!(d.event, "x");
    assert_eq!(d.subscribers, vec![5, 3, 9]);
    assert!(bus.next_dispatch().is_none());
}

#[test]
fn duplicate_registration_delivers_twice() {
    let mut bus: EventBus<String> = EventBus::new();
    bus.register(CHANGE_EVENT, 4);
    bus.register(CHANGE_EVENT, 4);
    bus.post(CHANGE_EVENT, "dup".to_owned());
    assert_eq!(drain(&mut bus), vec![(4, "dup".to_owned()), (4, "dup".to_owned())]);
    bus.unregister(CHANGE_EVENT, 4);
    assert_eq!(bus.subscribers_for(CHANGE_EVENT), vec![4]);
    bus.unregister(CHANGE_EVENT, 4);
    assert!(bus.subscribers_for(CHANGE_EVENT).is_empty());
}

#[test]
fn unregister_removes_only_the_first_entry() {
    let mut bus: EventBus<String> = EventBus::new();
    for id in [1u64, 2, 1, 3] {
        bus.register(CHANGE_EVENT, id);
    }
    bus.unregister(CHANGE_EVENT, 1);
    assert_eq!(bus.subscribers_for(CHANGE_EVENT), vec![2, 1, 3]);
}

#[test]
fn unregister_of_unknown_is_a_no_op() {
    let mut bus: EventBus<String> = EventBus::new();
    bus.unregister(CHANGE_EVENT, 1);
    bus.register(CHANGE_EVENT, 2);
    bus.unregister(CHANGE_EVENT, 1);
    bus.unregister(OTHER_EVENT, 2);
    assert_eq!(bus.subscribers_for(CHANGE_EVENT), vec![2]);
    assert!(bus.subscribers_for(OTHER_EVENT).is_empty());
}

#[test]
fn burst_beyond_capacity_drops_the_excess() {
    assert_eq!(QUEUE_CAPACITY, 2048);
    let mut bus: EventBus<u64> = EventBus::new();
    for i in 0..(QUEUE_CAPACITY as u64) {
        assert!(bus.post(CHANGE_EVENT, i));
    }
    assert!(!bus.post(CHANGE_EVENT, 9999));
    assert!(!bus.post(OTHER_EVENT, 10000));
    assert_eq!(bus.pending_len(), QUEUE_CAPACITY);
    let first = bus.next_dispatch().unwrap();
    assert_eq!(first.event, 0);
    assert!(bus.post(CHANGE_EVENT, 7777));
    let mut last = 0;
    while let Some(d) = bus.next_dispatch() {
        last = d.event;
    }
    assert_eq!(last, 7777);
}

#[test]
fn dispatch_uses_registry_at_dispatch_time() {
    let mut bus: EventBus<String> = EventBus::new();
    bus.post(CHANGE_EVENT, "early".to_owned());
    bus.register(CHANGE_EVENT, 8);
    assert_eq!(drain(&mut bus), vec![(8, "early".to_owned())]);
}

#[test]
fn index_of_subscriber_finds_first() {
    assert_eq!(index_of_subscriber(&vec![4, 5, 4], 4), Some(0));
    assert_eq!(index_of_subscriber(&vec![4, 5, 4], 5), Some(1));
    assert_eq!(index_of_subscriber(&vec![4, 5, 4], 6), None);
    assert_eq!(index_of_subscriber(&vec![], 6), None);
}

#[test]
fn registry_lookup_of_absent_kind_is_empty() {
    let mut r = Registry::new();
    assert!(r.lookup(CHANGE_EVENT).is_empty());
    r.register(CHANGE_EVENT, 3);
    r.register(CHANGE_EVENT, 2);
    assert_eq!(r.lookup(CHANGE_EVENT), vec![3, 2]);
    assert!(r.lookup(OTHER_EVENT).is_empty());
}
