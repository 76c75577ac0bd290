use stargazer::gossip::ident::ID;
use stargazer::gossip::resolver::Address;
use stargazer::gossip::runtime::membership::{MembershipView, MergeOutcome, PeerRecord, PeerState};
use stargazer::gossip::runtime::sync::Digest;

fn record(id: u128, incarnation: u64, state: PeerState, last_seen: u64) -> PeerRecord {
    PeerRecord {
        id: ID::new(id),
        addresses: vec![Address { host: id, port: 7000 }],
        incarnation,
        state,
        last_seen,
    }
}

fn state_of(view: &MembershipView, id: u128) -> (u64, PeerState, u64) {
    let held = view.get(ID::new(id)).expect("peer is known");
    (held.incarnation, held.state, held.last_seen)
}

#[test]
fn priority_orders_the_verdicts() {
    assert_eq!(PeerState::Joining.priority(), 0);
    assert_eq!(PeerState::Alive.priority(), 0);
    assert_eq!(PeerState::Suspect.priority(), 1);
    assert_eq!(PeerState::Dead.priority(), 2);
}

#[test]
fn a_rumour_about_an_unknown_peer_is_held_as_joining() {
    let mut view = MembershipView::new();
    assert_eq!(view.len(), 0);
    assert_eq!(view.epoch(), 0);
    assert_eq!(view.merge(record(7, 3, PeerState::Alive, 10)), MergeOutcome::Inserted);
    assert_eq!(state_of(&view, 7), (3, PeerState::Joining, 10));
    assert_eq!(view.epoch(), 1);
    assert_eq!(view.merge(record(8, 0, PeerState::Suspect, 11)), MergeOutcome::Inserted);
    assert_eq!(state_of(&view, 8), (0, PeerState::Suspect, 11));
    assert_eq!(view.len(), 2);
    assert!(view.get(ID::new(9)).is_none());
}

#[test]
fn merging_twice_is_merging_once() {
    let rumours = [
        record(7, 3, PeerState::Alive, 10),
        record(7, 3, PeerState::Suspect, 11),
        record(7, 2, PeerState::Dead, 12),
        record(7, 4, PeerState::Alive, 13),
    ];
    let mut view = MembershipView::new();
    for rumour in rumours.iter() {
        view.merge(rumour.duplicate());
        let once = (state_of(&view, 7), view.epoch(), view.len());
        assert_eq!(view.merge(rumour.duplicate()), MergeOutcome::Ignored);
        assert_eq!((state_of(&view, 7), view.epoch(), view.len()), once);
    }
    assert_eq!(state_of(&view, 7), (4, PeerState::Alive, 13));
}

#[test]
fn a_greater_incarnation_always_wins() {
    let mut view = MembershipView::new();
    view.merge(record(1, 5, PeerState::Dead, 10));
    assert_eq!(view.merge(record(1, 6, PeerState::Alive, 20)), MergeOutcome::Replaced);
    assert_eq!(state_of(&view, 1), (6, PeerState::Alive, 20));
    assert_eq!(view.merge(record(1, 5, PeerState::Dead, 30)), MergeOutcome::Ignored);
    assert_eq!(state_of(&view, 1), (6, PeerState::Alive, 20));
}

#[test]
fn at_one_incarnation_the_graver_verdict_wins() {
    let mut view = MembershipView::new();
    view.confirm_alive(ID::new(1), 1);
    assert_eq!(view.merge(record(1, 0, PeerState::Suspect, 2)), MergeOutcome::Replaced);
    assert_eq!(view.merge(record(1, 0, PeerState::Alive, 3)), MergeOutcome::Ignored);
    assert_eq!(view.merge(record(1, 0, PeerState::Dead, 4)), MergeOutcome::Replaced);
    assert_eq!(view.merge(record(1, 0, PeerState::Suspect, 5)), MergeOutcome::Ignored);
    assert_eq!(view.merge(record(1, 0, PeerState::Alive, 6)), MergeOutcome::Ignored);
    assert_eq!(state_of(&view, 1), (0, PeerState::Dead, 4));
}

#[test]
fn the_incarnation_held_never_decreases() {
    let mut view = MembershipView::new();
    let rumours = [
        record(1, 2, PeerState::Alive, 1),
        record(1, 1, PeerState::Dead, 2),
        record(1, 2, PeerState::Suspect, 3),
        record(1, 0, PeerState::Alive, 4),
        record(1, 9, PeerState::Alive, 5),
        record(1, 8, PeerState::Dead, 6),
    ];
    let mut held = 0;
    for rumour in rumours.iter() {
        view.merge(rumour.duplicate());
        view.confirm_alive(ID::new(1), 50);
        view.suspect(ID::new(1), 60);
        view.expire_suspects(70, 5);
        let (incarnation, _, _) = state_of(&view, 1);
        assert!(incarnation >= held);
        held = incarnation;
    }
    assert_eq!(held, 9);
}

#[test]
fn direct_contact_makes_a_peer_alive_but_never_revives_the_dead() {
    let mut view = MembershipView::new();
    assert_eq!(view.confirm_alive(ID::new(1), 5), PeerState::Alive);
    assert_eq!(state_of(&view, 1), (0, PeerState::Alive, 5));
    assert!(view.get(ID::new(1)).unwrap().addresses.is_empty());
    view.merge(record(2, 4, PeerState::Alive, 6));
    assert_eq!(view.confirm_alive(ID::new(2), 7), PeerState::Alive);
    assert_eq!(state_of(&view, 2), (4, PeerState::Alive, 7));
    view.merge(record(3, 1, PeerState::Dead, 8));
    assert_eq!(view.confirm_alive(ID::new(3), 9), PeerState::Dead);
    assert_eq!(state_of(&view, 3), (1, PeerState::Dead, 8));
}

#[test]
fn the_epoch_advances_with_every_change_of_state() {
    let mut view = MembershipView::new();
    view.confirm_alive(ID::new(1), 5);
    assert_eq!(view.epoch(), 1);
    view.confirm_alive(ID::new(1), 6);
    assert_eq!(view.epoch(), 1);
    assert!(view.suspect(ID::new(1), 7));
    assert_eq!(view.epoch(), 2);
    assert!(!view.suspect(ID::new(1), 8));
    assert!(!view.suspect(ID::new(2), 8));
    assert_eq!(view.epoch(), 2);
    view.confirm_alive(ID::new(1), 9);
    assert_eq!(view.epoch(), 3);
}

#[test]
fn suspicion_turns_to_death_after_the_timeout_and_no_sooner() {
    let mut view = MembershipView::new();
    view.confirm_alive(ID::new(1), 0);
    view.confirm_alive(ID::new(2), 0);
    assert!(view.suspect(ID::new(1), 100));
    assert_eq!(state_of(&view, 1), (0, PeerState::Suspect, 100));
    assert!(!view.expire_suspects(129, 30));
    assert_eq!(state_of(&view, 1), (0, PeerState::Suspect, 100));
    assert!(!view.expire_suspects(50, 30));
    assert!(view.expire_suspects(130, 30));
    assert_eq!(state_of(&view, 1), (0, PeerState::Dead, 130));
    assert_eq!(state_of(&view, 2), (0, PeerState::Alive, 0));
    assert!(!view.expire_suspects(500, 30));
}

#[test]
fn a_refuted_suspicion_is_lifted() {
    let mut view = MembershipView::new();
    view.confirm_alive(ID::new(1), 0);
    view.suspect(ID::new(1), 100);
    assert_eq!(view.confirm_alive(ID::new(1), 110), PeerState::Alive);
    assert!(!view.expire_suspects(200, 30));
    assert_eq!(state_of(&view, 1), (0, PeerState::Alive, 110));
    view.suspect(ID::new(1), 300);
    assert_eq!(view.merge(record(1, 1, PeerState::Alive, 310)), MergeOutcome::Replaced);
    assert!(!view.expire_suspects(400, 30));
    assert_eq!(state_of(&view, 1), (1, PeerState::Alive, 310));
}

#[test]
fn tombstones_are_kept_for_the_retention_window() {
    let mut view = MembershipView::new();
    view.merge(record(1, 2, PeerState::Dead, 100));
    view.confirm_alive(ID::new(2), 100);
    assert!(!view.purge_tombstones(199, 100));
    assert_eq!(view.len(), 2);
    assert_eq!(view.merge(record(1, 2, PeerState::Alive, 150)), MergeOutcome::Ignored);
    assert!(view.purge_tombstones(200, 100));
    assert_eq!(view.len(), 1);
    assert!(view.get(ID::new(1)).is_none());
    assert_eq!(state_of(&view, 2), (0, PeerState::Alive, 100));
    assert!(!view.purge_tombstones(900, 100));
}

#[test]
fn peers_are_listed_by_state_in_order_of_arrival() {
    let mut view = MembershipView::new();
    view.confirm_alive(ID::new(3), 0);
    view.merge(record(1, 0, PeerState::Alive, 0));
    view.confirm_alive(ID::new(2), 0);
    view.merge(record(4, 0, PeerState::Dead, 0));
    assert_eq!(view.peers_in(PeerState::Alive), vec![ID::new(3), ID::new(2)]);
    assert_eq!(view.peers_in(PeerState::Joining), vec![ID::new(1)]);
    assert_eq!(view.peers_in(PeerState::Dead), vec![ID::new(4)]);
    assert_eq!(view.peers_in(PeerState::Suspect), Vec::<ID>::new());
    assert_eq!(view.record_at(1).id, ID::new(1));
}

#[test]
fn the_digest_lists_every_peer_with_its_incarnation() {
    let mut view = MembershipView::new();
    view.merge(record(1, 4, PeerState::Alive, 0));
    view.merge(record(2, 0, PeerState::Dead, 0));
    let digest = view.digest();
    assert_eq!(digest.len(), 2);
    assert_eq!(digest.get(ID::new(1)), Some(4));
    assert_eq!(digest.get(ID::new(2)), Some(0));
    assert_eq!(digest.get(ID::new(3)), None);
    assert_eq!(digest.entry_at(0), (ID::new(1), 4));
    assert_eq!(digest.entry_at(1), (ID::new(2), 0));
}

#[test]
fn the_delta_holds_what_the_sender_lacks_and_every_verdict() {
    let mut view = MembershipView::new();
    view.confirm_alive(ID::new(1), 0);
    view.merge(record(2, 5, PeerState::Alive, 0));
    view.merge(record(3, 2, PeerState::Dead, 0));
    view.merge(record(4, 1, PeerState::Suspect, 0));
    view.confirm_alive(ID::new(5), 0);

    let mut digest = Digest::new();
    digest.insert(ID::new(1), 0);
    digest.insert(ID::new(2), 4);
    digest.insert(ID::new(3), 2);
    digest.insert(ID::new(4), 2);
    digest.insert(ID::new(9), 7);

    let delta = view.delta_for(&digest);
    let sent: Vec<(ID, u64, PeerState)> =
        delta.iter().map(|r| (r.id, r.incarnation, r.state)).collect();
    assert_eq!(
        sent,
        vec![
            (ID::new(2), 5, PeerState::Joining),
            (ID::new(3), 2, PeerState::Dead),
            (ID::new(5), 0, PeerState::Alive),
        ]
    );
    assert!(view.is_behind(&digest));

    let own = view.digest();
    assert!(!view.is_behind(&own));
    let echo: Vec<ID> = view.delta_for(&own).iter().map(|r| r.id).collect();
    assert_eq!(echo, vec![ID::new(3), ID::new(4)]);
}

#[test]
fn a_later_digest_entry_replaces_an_earlier_one() {
    let mut digest = Digest::new();
    digest.insert(ID::new(1), 3);
    digest.insert(ID::new(2), 1);
    digest.insert(ID::new(1), 8);
    assert_eq!(digest.len(), 2);
    assert_eq!(digest.get(ID::new(1)), Some(8));
    assert_eq!(digest.entry_at(0), (ID::new(1), 8));
}
