use stargazer::gossip::ident::ID;
use stargazer::gossip::runtime::flood::{Envelope, MessageKind};
use stargazer::gossip::runtime::seen::SeenSet;
use stargazer::uuid::Uuid;

#[test]
fn a_message_is_delivered_once_however_many_paths_bring_it() {
    let mut seen = SeenSet::new(8, 100);
    let id = Uuid::from_u128(42);
    let arrivals = [10u64, 10, 11, 50, 109];
    let delivered = arrivals.iter().filter(|&&at| seen.observe(id, at)).count();
    assert_eq!(delivered, 1);
    assert_eq!(seen.len(), 1);
}

#[test]
fn a_message_is_forgotten_after_the_ttl() {
    let mut seen = SeenSet::new(8, 100);
    let id = Uuid::from_u128(42);
    assert!(seen.observe(id, 10));
    assert!(!seen.observe(id, 109));
    assert!(!seen.would_deliver(id, 109));
    assert!(seen.would_deliver(id, 110));
    assert!(seen.observe(id, 110));
    assert_eq!(seen.len(), 1);
}

#[test]
fn a_duplicate_does_not_renew_the_memory() {
    let mut seen = SeenSet::new(8, 100);
    let id = Uuid::from_u128(42);
    assert!(seen.observe(id, 0));
    assert!(!seen.observe(id, 90));
    assert!(seen.observe(id, 100));
}

#[test]
fn the_oldest_entry_makes_room_when_the_set_is_full() {
    let mut seen = SeenSet::new(2, 1000);
    assert!(seen.observe(Uuid::from_u128(1), 1));
    assert!(seen.observe(Uuid::from_u128(2), 2));
    assert!(seen.observe(Uuid::from_u128(3), 3));
    assert_eq!(seen.len(), 2);
    assert!(!seen.would_deliver(Uuid::from_u128(2), 4));
    assert!(!seen.would_deliver(Uuid::from_u128(3), 4));
    assert!(seen.would_deliver(Uuid::from_u128(1), 4));
}

#[test]
fn a_set_without_capacity_remembers_nothing() {
    let mut seen = SeenSet::new(0, 1000);
    assert!(seen.observe(Uuid::from_u128(1), 1));
    assert!(seen.observe(Uuid::from_u128(1), 1));
    assert_eq!(seen.len(), 0);
}

#[test]
fn a_clock_that_runs_backwards_ages_nothing() {
    let mut seen = SeenSet::new(4, 10);
    assert!(seen.observe(Uuid::from_u128(1), 500));
    assert!(!seen.observe(Uuid::from_u128(1), 3));
}

fn envelope() -> Envelope {
    Envelope::originate(
        ID::new(1),
        Uuid::from_u128(99),
        MessageKind::Publish,
        vec![1, 2, 3],
        vec![9],
    )
}

#[test]
fn a_new_envelope_has_made_no_hop() {
    let e = envelope();
    assert_eq!(e.hop_count, 0);
    assert!(!e.compressed);
    assert_eq!(e.origin, ID::new(1));
    assert_eq!(e.message_id, Uuid::from_u128(99));
    assert_eq!(e.kind, MessageKind::Publish);
    assert_eq!(e.payload, vec![1, 2, 3]);
    assert_eq!(e.signature, vec![9]);
}

#[test]
fn no_chain_of_relays_is_longer_than_the_limit() {
    for limit in [0u8, 1, 3, 255] {
        let mut current = envelope();
        let mut hops = 0u32;
        while let Some(next) = current.relayed(limit) {
            assert_eq!(next.hop_count, current.hop_count + 1);
            assert_eq!(next.payload, current.payload);
            assert_eq!(next.message_id, current.message_id);
            assert_eq!(next.origin, current.origin);
            assert_eq!(next.signature, current.signature);
            current = next;
            hops += 1;
        }
        assert_eq!(hops, limit as u32);
        assert_eq!(current.hop_count, limit);
    }
}

#[test]
fn with_a_limit_of_zero_nothing_is_relayed() {
    assert!(envelope().relayed(0).is_none());
}

#[test]
fn an_envelope_over_the_limit_is_not_relayed() {
    let mut e = envelope();
    e.hop_count = 7;
    assert!(e.relayed(7).is_none());
    assert!(e.relayed(3).is_none());
    assert_eq!(e.relayed(8).unwrap().hop_count, 8);
}

#[test]
fn other_messages_in_between_do_not_bring_a_message_back() {
    let mut seen = SeenSet::new(4, 100);
    let id = Uuid::from_u128(1);
    let mut delivered = 0;
    let trace = [(1u128, 0u64), (2, 1), (1, 2), (3, 3), (1, 4), (4, 5), (1, 99)];
    for (message, at) in trace {
        let fresh = seen.observe(Uuid::from_u128(message), at);
        if message == 1 {
            delivered += fresh as u32;
        }
    }
    assert_eq!(delivered, 1);
    // a fourth other message fills the set, and the first is forgotten
    assert!(seen.observe(Uuid::from_u128(5), 99));
    assert!(seen.observe(id, 99));
}
