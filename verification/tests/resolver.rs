use stargazer::gossip::ident::ID;
use stargazer::gossip::resolver::{Address, Candidate, Resolver, Source};

fn at(port: u16) -> Address {
    Address { host: 0x0000_0000_0000_0000_0000_ffff_7f00_0001, port }
}

#[test]
fn an_unknown_peer_has_no_address() {
    let resolver = Resolver::new(4);
    assert!(resolver.lookup(ID::new(1)).is_empty());
    assert!(resolver.candidates_of(ID::new(1)).is_empty());
}

#[test]
fn the_most_recently_confirmed_address_comes_first() {
    let mut resolver = Resolver::new(4);
    let peer = ID::new(1);
    resolver.update(peer, at(1), Source::Learned, 10);
    resolver.update(peer, at(2), Source::Learned, 30);
    resolver.update(peer, at(3), Source::Learned, 20);
    assert_eq!(resolver.lookup(peer), vec![at(2), at(3), at(1)]);
    resolver.update(peer, at(1), Source::Learned, 40);
    assert_eq!(resolver.lookup(peer), vec![at(1), at(2), at(3)]);
    assert_eq!(resolver.candidates_of(peer).len(), 3);
    assert!(resolver.lookup(ID::new(2)).is_empty());
}

#[test]
fn of_two_confirmed_at_once_the_later_update_comes_first() {
    let mut resolver = Resolver::new(4);
    let peer = ID::new(1);
    resolver.update(peer, at(1), Source::Learned, 10);
    resolver.update(peer, at(2), Source::Learned, 10);
    assert_eq!(resolver.lookup(peer), vec![at(2), at(1)]);
}

#[test]
fn updates_merge_and_never_replace() {
    let mut resolver = Resolver::new(4);
    resolver.update(ID::new(1), at(1), Source::Learned, 10);
    resolver.update(ID::new(2), at(9), Source::Learned, 11);
    resolver.update(ID::new(1), at(2), Source::Learned, 12);
    assert_eq!(resolver.lookup(ID::new(1)), vec![at(2), at(1)]);
    assert_eq!(resolver.lookup(ID::new(2)), vec![at(9)]);
}

#[test]
fn the_oldest_learned_address_is_evicted_over_capacity() {
    let mut resolver = Resolver::new(2);
    let peer = ID::new(1);
    resolver.update(peer, at(1), Source::Learned, 10);
    resolver.update(peer, at(2), Source::Learned, 20);
    resolver.update(peer, at(3), Source::Learned, 30);
    assert_eq!(resolver.lookup(peer), vec![at(3), at(2)]);
    resolver.update(peer, at(4), Source::Learned, 5);
    assert_eq!(resolver.lookup(peer), vec![at(3), at(2)]);
}

#[test]
fn seeds_are_never_evicted() {
    let mut resolver = Resolver::new(2);
    let peer = ID::new(1);
    resolver.update(peer, at(1), Source::Seed, 0);
    resolver.update(peer, at(2), Source::Learned, 20);
    resolver.update(peer, at(3), Source::Learned, 30);
    assert_eq!(resolver.lookup(peer), vec![at(3), at(1)]);
    resolver.update(peer, at(4), Source::Seed, 1);
    assert_eq!(resolver.lookup(peer), vec![at(4), at(1)]);
    resolver.update(peer, at(5), Source::Seed, 2);
    assert_eq!(resolver.lookup(peer), vec![at(5), at(4), at(1)]);
    resolver.update(peer, at(6), Source::Learned, 99);
    assert_eq!(resolver.lookup(peer), vec![at(5), at(4), at(1)]);
}

#[test]
fn a_seed_stays_a_seed_when_gossip_confirms_it() {
    let mut resolver = Resolver::new(2);
    let peer = ID::new(1);
    resolver.update(peer, at(1), Source::Seed, 0);
    resolver.update(peer, at(1), Source::Learned, 50);
    assert_eq!(
        resolver.candidates_of(peer),
        vec![Candidate { address: at(1), last_confirmed: 50, source: Source::Seed }]
    );
    resolver.update(peer, at(2), Source::Learned, 60);
    resolver.update(peer, at(3), Source::Learned, 70);
    assert_eq!(resolver.lookup(peer), vec![at(3), at(1)]);
}

#[test]
fn with_no_capacity_only_seeds_are_kept() {
    let mut resolver = Resolver::new(0);
    let peer = ID::new(1);
    resolver.update(peer, at(1), Source::Learned, 10);
    assert!(resolver.lookup(peer).is_empty());
    resolver.update(peer, at(2), Source::Seed, 10);
    assert_eq!(resolver.lookup(peer), vec![at(2)]);
}

#[test]
fn a_confirmed_address_moves_to_its_place_by_freshness() {
    let mut resolver = Resolver::new(3);
    let peer = ID::new(1);
    resolver.update(peer, at(3), Source::Learned, 10);
    resolver.update(peer, at(2), Source::Seed, 20);
    resolver.update(peer, at(1), Source::Learned, 30);
    resolver.update(peer, at(3), Source::Learned, 25);
    assert_eq!(
        resolver.candidates_of(peer),
        vec![
            Candidate { address: at(1), last_confirmed: 30, source: Source::Learned },
            Candidate { address: at(3), last_confirmed: 25, source: Source::Learned },
            Candidate { address: at(2), last_confirmed: 20, source: Source::Seed },
        ]
    );
    resolver.update(peer, at(4), Source::Learned, 5);
    assert_eq!(resolver.lookup(peer), vec![at(1), at(3), at(2)]);
    resolver.update(peer, at(5), Source::Learned, 27);
    assert_eq!(resolver.lookup(peer), vec![at(1), at(5), at(2)]);
}

#[test]
fn seeds_count_against_the_capacity_of_learned_addresses() {
    let mut resolver = Resolver::new(1);
    let peer = ID::new(1);
    resolver.update(peer, at(1), Source::Seed, 0);
    resolver.update(peer, at(2), Source::Learned, 60);
    assert_eq!(resolver.lookup(peer), vec![at(1)]);
}
