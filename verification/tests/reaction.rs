use stargazer::gossip::ident::ID;
use stargazer::gossip::resolver::Address;
use stargazer::gossip::runtime::detector::{Probe, ProbePhase};
use stargazer::gossip::runtime::engine::{Config, Runtime};
use stargazer::gossip::runtime::flood::MessageKind;
use stargazer::gossip::runtime::membership::PeerState;
use stargazer::gossip::runtime::reaction::{Outgoing, Relays};
use stargazer::gossip::wire::WireError;

fn node(id: u128) -> Runtime {
    let config = Config {
        fanout: 2,
        hop_limit: 3,
        indirect_probes: 2,
        probe_timeout: 10,
        indirect_timeout: 20,
        suspect_timeout: 100,
        tombstone_retention: 1000,
        seen_capacity: 16,
        seen_ttl: 500,
        resolver_capacity: 4,
    };
    Runtime::new(ID::new(id), config, 0)
}

fn at(id: u128) -> Address {
    Address { host: id, port: 7000 }
}

fn naming(id: u128) -> Vec<u8> {
    id.to_be_bytes().to_vec()
}

fn state(node: &Runtime, id: u128) -> Option<PeerState> {
    node.peer(ID::new(id)).map(|record| record.state)
}

#[test]
fn a_ping_is_acknowledged_and_counts_as_contact() {
    let mut a = node(1);
    let reply = a.on_ping(ID::new(2), at(2), 5);
    assert_eq!(reply, Outgoing { to: ID::new(2), kind: MessageKind::Ack, payload: vec![] });
    assert_eq!(state(&a, 2), Some(PeerState::Alive));
    assert_eq!(a.addresses(ID::new(2)), vec![at(2)]);
}

#[test]
fn a_helper_pings_the_target_and_vouches_only_when_it_answers() {
    let mut helper = node(2);
    let mut relays = Relays::new(8);
    let ping = helper.on_probe_request(&mut relays, ID::new(1), at(1), &naming(3), 5).unwrap();
    assert_eq!(ping, Outgoing { to: ID::new(3), kind: MessageKind::Ping, payload: vec![] });
    assert_eq!(relays.len(), 1);
    assert_eq!(state(&helper, 1), Some(PeerState::Alive));
    assert_eq!(state(&helper, 3), None);

    // an acknowledgement of somebody else settles nothing
    let other = helper.on_ack_frame(&mut relays, None, ID::new(4), at(4), &vec![], 6).unwrap();
    assert!(other.send.is_empty());
    assert_eq!(relays.len(), 1);

    // a second requester for the same target
    helper.on_probe_request(&mut relays, ID::new(5), at(5), &naming(3), 7).unwrap();
    // and the same requester again is not noted twice
    helper.on_probe_request(&mut relays, ID::new(1), at(1), &naming(3), 7).unwrap();
    assert_eq!(relays.len(), 2);

    let answered = helper.on_ack_frame(&mut relays, None, ID::new(3), at(3), &vec![], 8).unwrap();
    assert_eq!(
        answered.send,
        vec![
            Outgoing { to: ID::new(1), kind: MessageKind::Ack, payload: naming(3) },
            Outgoing { to: ID::new(5), kind: MessageKind::Ack, payload: naming(3) },
        ]
    );
    assert_eq!(relays.len(), 0);
    assert_eq!(state(&helper, 3), Some(PeerState::Alive));
}

#[test]
fn a_node_asked_about_itself_vouches_at_once() {
    let mut helper = node(2);
    let mut relays = Relays::new(8);
    let reply = helper.on_probe_request(&mut relays, ID::new(1), at(1), &naming(2), 5).unwrap();
    assert_eq!(reply, Outgoing { to: ID::new(1), kind: MessageKind::Ack, payload: naming(2) });
    assert_eq!(relays.len(), 0);
}

#[test]
fn a_vouching_acknowledgement_ends_the_probe_of_its_target() {
    let mut a = node(1);
    a.on_contact(ID::new(3), at(3), 1);
    a.on_probe_failed(ID::new(3), 2);
    assert_eq!(state(&a, 3), Some(PeerState::Suspect));
    let mut relays = Relays::new(8);
    let probe = Probe { target: ID::new(3), phase: ProbePhase::Indirect, deadline: 30 };

    let reaction =
        a.on_ack_frame(&mut relays, Some(probe), ID::new(2), at(2), &naming(3), 10).unwrap();
    assert_eq!(reaction.probe, None);
    assert!(reaction.send.is_empty());
    assert_eq!(state(&a, 3), Some(PeerState::Alive));
    assert_eq!(state(&a, 2), Some(PeerState::Alive));

    let elsewhere =
        a.on_ack_frame(&mut relays, Some(probe), ID::new(2), at(2), &naming(9), 11).unwrap();
    assert_eq!(elsewhere.probe, Some(probe));
}

#[test]
fn a_direct_acknowledgement_ends_the_probe_of_its_sender() {
    let mut a = node(1);
    let mut relays = Relays::new(8);
    let probe = Probe { target: ID::new(3), phase: ProbePhase::Direct, deadline: 30 };
    let other = a.on_ack_frame(&mut relays, Some(probe), ID::new(2), at(2), &vec![], 5).unwrap();
    assert_eq!(other.probe, Some(probe));
    let own = a.on_ack_frame(&mut relays, Some(probe), ID::new(3), at(3), &vec![], 6).unwrap();
    assert_eq!(own.probe, None);
    assert_eq!(state(&a, 3), Some(PeerState::Alive));
}

#[test]
fn a_payload_that_names_no_target_is_a_violation_and_changes_nothing() {
    let mut a = node(1);
    let mut relays = Relays::new(8);
    assert_eq!(
        a.on_probe_request(&mut relays, ID::new(2), at(2), &vec![0; 15], 5),
        Err(WireError::MalformedEnvelope)
    );
    assert_eq!(
        a.on_probe_request(&mut relays, ID::new(2), at(2), &vec![], 5),
        Err(WireError::MalformedEnvelope)
    );
    assert_eq!(
        a.on_ack_frame(&mut relays, None, ID::new(2), at(2), &vec![0; 17], 5).err(),
        Some(WireError::MalformedEnvelope)
    );
    assert_eq!(state(&a, 2), None);
    assert_eq!(relays.len(), 0);
}

#[test]
fn the_book_of_relays_is_bounded_oldest_first() {
    let mut relays = Relays::new(2);
    relays.note(ID::new(10), ID::new(1));
    relays.note(ID::new(11), ID::new(1));
    relays.note(ID::new(12), ID::new(1));
    assert_eq!(relays.len(), 2);
    assert!(relays.settle(ID::new(10)).is_empty());
    assert_eq!(relays.settle(ID::new(11)).len(), 1);
    assert_eq!(relays.settle(ID::new(12)).len(), 1);
    assert_eq!(relays.len(), 0);

    let mut none = Relays::new(0);
    none.note(ID::new(10), ID::new(1));
    assert_eq!(none.len(), 0);
}
