//! The local membership view and the rule by which rumours are merged
//! into it.

use super::clock::{elapsed, has_elapsed};
use crate::gossip::ident::ID;
use crate::gossip::resolver::Address;
use crate::gossip::table::{assoc, keys_where, lemma_assoc_at, lemma_keys_where, IdMap};
use vstd::prelude::*;

verus! {

/// What the local node believes of a peer's liveness.
#[derive(Clone, Copy, Debug, PartialEq, Eq, Structural, Hash)]
pub enum PeerState {
    /// Heard of through a rumour, never yet reached directly.
    Joining,
    /// Reached directly, or vouched for at a newer incarnation.
    Alive,
    /// Failed a direct probe and a round of indirect probes.
    Suspect,
    /// Suspected for the whole suspect timeout without refutation.
    Dead,
}

impl PeerState {
    /// The priority of a verdict among rumours of one incarnation:
    /// `Dead` over `Suspect` over `Alive`. `Joining` weighs as `Alive`.
    pub open spec fn rank(self) -> int {
        match self {
            PeerState::Joining => 0,
            PeerState::Alive => 0,
            PeerState::Suspect => 1,
            PeerState::Dead => 2,
        }
    }

    /// The priority of the verdict as a number.
    pub fn priority(self) -> (rank: u8)
        ensures
            rank == self.rank(),
    {
        match self {
            PeerState::Joining => 0,
            PeerState::Alive => 0,
            PeerState::Suspect => 1,
            PeerState::Dead => 2,
        }
    }
}

/// Everything the local node holds about one peer.
#[derive(Clone, Debug, PartialEq, Eq)]
pub struct PeerRecord {
    pub id: ID,
    pub addresses: Vec<Address>,
    pub incarnation: u64,
    pub state: PeerState,
    pub last_seen: u64,
}

/// A peer record as a mathematical value.
pub struct PeerModel {
    pub id: ID,
    pub addresses: Seq<Address>,
    pub incarnation: u64,
    pub state: PeerState,
    pub last_seen: u64,
}

impl View for PeerRecord {
    type V = PeerModel;

    open spec fn view(&self) -> PeerModel {
        PeerModel {
            id: self.id,
            addresses: self.addresses@,
            incarnation: self.incarnation,
            state: self.state,
            last_seen: self.last_seen,
        }
    }
}

impl PeerRecord {
    /// A copy of the record.
    pub fn duplicate(&self) -> (copy: PeerRecord)
        ensures
            copy@ == self@,
    {
        let mut addresses: Vec<Address> = Vec::new();
        let mut i: usize = 0;
        while i < self.addresses.len()
            invariant
                i <= self.addresses@.len(),
                addresses@ == self.addresses@.subrange(0, i as int),
            decreases self.addresses@.len() - i,
        {
            addresses.push(self.addresses[i]);
            i += 1;
        }
        assert(addresses@ =~= self.addresses@);
        PeerRecord {
            id: self.id,
            addresses,
            incarnation: self.incarnation,
            state: self.state,
            last_seen: self.last_seen,
        }
    }
}

/// Whether a rumour outweighs what is held: a strictly greater incarnation
/// always does; at the same incarnation only a verdict of higher priority.
pub open spec fn supersedes(incoming: PeerModel, local: PeerModel) -> bool {
    ||| incoming.incarnation > local.incarnation
    ||| (incoming.incarnation == local.incarnation && incoming.state.rank() > local.state.rank())
}

/// How a rumour about an unknown peer is stored: a peer said to be alive is
/// held as `Joining` until it is reached directly.
pub open spec fn admitted(incoming: PeerModel) -> PeerModel {
    if incoming.state == PeerState::Alive {
        PeerModel { state: PeerState::Joining, ..incoming }
    } else {
        incoming
    }
}

/// What merging a rumour did to the view.
#[derive(Clone, Copy, Debug, PartialEq, Eq, Structural)]
pub enum MergeOutcome {
    /// The peer was unknown; a record was created.
    Inserted,
    /// The rumour outweighed the record held, and replaced it.
    Replaced,
    /// The rumour was stale or redundant; nothing changed.
    Ignored,
}

/// What merging `incoming` into `peers` will do.
pub open spec fn merge_outcome(peers: Map<ID, PeerModel>, incoming: PeerModel) -> MergeOutcome {
    if !peers.contains_key(incoming.id) {
        MergeOutcome::Inserted
    } else if supersedes(incoming, peers[incoming.id]) {
        MergeOutcome::Replaced
    } else {
        MergeOutcome::Ignored
    }
}

/// The merge rule on the records alone.
pub open spec fn merge_peers(peers: Map<ID, PeerModel>, incoming: PeerModel) -> Map<
    ID,
    PeerModel,
> {
    match merge_outcome(peers, incoming) {
        MergeOutcome::Inserted => peers.insert(incoming.id, admitted(incoming)),
        MergeOutcome::Replaced => peers.insert(incoming.id, incoming),
        MergeOutcome::Ignored => peers,
    }
}

/// The epoch after one change to the view. It stops at the largest value
/// rather than wrap.
pub open spec fn next_epoch(epoch: u64) -> u64 {
    if epoch < u64::MAX {
        (epoch + 1) as u64
    } else {
        epoch
    }
}

/// The membership view as a mathematical value.
pub struct ViewModel {
    pub peers: Map<ID, PeerModel>,
    pub epoch: u64,
}

/// Every record is filed under its own identity.
pub open spec fn filed_by_id(peers: Map<ID, PeerModel>) -> bool {
    forall|id: ID| peers.contains_key(id) ==> (#[trigger] peers[id]).id == id
}

/// The merge rule on the whole view: the records change as `merge_peers`
/// says, and the epoch advances exactly when they change.
pub open spec fn merge_view(view: ViewModel, incoming: PeerModel) -> ViewModel {
    ViewModel {
        peers: merge_peers(view.peers, incoming),
        epoch: if merge_outcome(view.peers, incoming) == MergeOutcome::Ignored {
            view.epoch
        } else {
            next_epoch(view.epoch)
        },
    }
}

/// Merging the same rumour twice leaves the view as merging it once does.
pub proof fn lemma_merge_idempotent(view: ViewModel, incoming: PeerModel)
    ensures
        merge_view(merge_view(view, incoming), incoming) == merge_view(view, incoming),
{
}

/// Merging never lowers the incarnation held for any peer, and never
/// forgets a peer.
pub proof fn lemma_merge_monotone(view: ViewModel, incoming: PeerModel, id: ID)
    requires
        view.peers.contains_key(id),
    ensures
        merge_view(view, incoming).peers.contains_key(id),
        merge_view(view, incoming).peers[id].incarnation >= view.peers[id].incarnation,
        merge_view(view, incoming).epoch >= view.epoch,
{
}

/// A `Dead` verdict at some incarnation survives every rumour that says
/// `Alive` (or `Joining`, or `Suspect`) at that incarnation or an earlier one.
pub proof fn lemma_tombstone_holds(view: ViewModel, incoming: PeerModel)
    requires
        view.peers.contains_key(incoming.id),
        view.peers[incoming.id].state == PeerState::Dead,
        incoming.incarnation <= view.peers[incoming.id].incarnation,
    ensures
        merge_view(view, incoming) == view,
{
}

/// A peer held as `Dead` is admitted again as `Alive` by a rumour of a
/// strictly greater incarnation that says so.
pub proof fn lemma_greater_incarnation_wins(view: ViewModel, incoming: PeerModel)
    requires
        view.peers.contains_key(incoming.id),
        incoming.incarnation > view.peers[incoming.id].incarnation,
    ensures
        merge_view(view, incoming).peers[incoming.id] == incoming,
{
}

/// The record of a peer first met by direct contact.
pub open spec fn first_contact(id: ID, now: u64) -> PeerModel {
    PeerModel {
        id,
        addresses: Seq::empty(),
        incarnation: 0,
        state: PeerState::Alive,
        last_seen: now,
    }
}

/// A record after its peer answered directly at time `now`. A peer held as
/// `Dead` stays so: it returns only through a greater incarnation.
pub open spec fn contacted(record: PeerModel, now: u64) -> PeerModel {
    if record.state == PeerState::Dead {
        record
    } else {
        PeerModel { state: PeerState::Alive, last_seen: now, ..record }
    }
}

/// The view after peer `id` answered directly at time `now`. The epoch
/// advances when a record is created or changes state.
pub open spec fn confirm_view(view: ViewModel, id: ID, now: u64) -> ViewModel {
    if !view.peers.contains_key(id) {
        ViewModel {
            peers: view.peers.insert(id, first_contact(id, now)),
            epoch: next_epoch(view.epoch),
        }
    } else {
        let record = view.peers[id];
        ViewModel {
            peers: view.peers.insert(id, contacted(record, now)),
            epoch: if contacted(record, now).state != record.state {
                next_epoch(view.epoch)
            } else {
                view.epoch
            },
        }
    }
}

/// The view after the direct probe of `id` and the indirect probes on its
/// behalf all failed: an `Alive` peer becomes `Suspect` as of `now`; any
/// other record stays as it is.
pub open spec fn suspect_view(view: ViewModel, id: ID, now: u64) -> ViewModel {
    if view.peers.contains_key(id) && view.peers[id].state == PeerState::Alive {
        ViewModel {
            peers: view.peers.insert(
                id,
                PeerModel { state: PeerState::Suspect, last_seen: now, ..view.peers[id] },
            ),
            epoch: next_epoch(view.epoch),
        }
    } else {
        view
    }
}

/// Whether a suspicion has lasted the whole suspect timeout.
pub open spec fn suspicion_expired(record: PeerModel, now: u64, timeout: u64) -> bool {
    record.state == PeerState::Suspect && elapsed(record.last_seen, now, timeout)
}

/// A record after the suspect timeout has been applied to it.
pub open spec fn expire_record(record: PeerModel, now: u64, timeout: u64) -> PeerModel {
    if suspicion_expired(record, now, timeout) {
        PeerModel { state: PeerState::Dead, last_seen: now, ..record }
    } else {
        record
    }
}

/// Whether any suspicion in the view has lasted the whole timeout.
pub open spec fn any_expired(peers: Map<ID, PeerModel>, now: u64, timeout: u64) -> bool {
    exists|id: ID| peers.contains_key(id) && suspicion_expired(#[trigger] peers[id], now, timeout)
}

/// The view after the suspect timeout has been applied to every record.
pub open spec fn expire_view(view: ViewModel, now: u64, timeout: u64) -> ViewModel {
    ViewModel {
        peers: Map::new(
            |id: ID| view.peers.contains_key(id),
            |id: ID| expire_record(view.peers[id], now, timeout),
        ),
        epoch: if any_expired(view.peers, now, timeout) {
            next_epoch(view.epoch)
        } else {
            view.epoch
        },
    }
}

/// Whether a tombstone has been kept for the whole retention window.
pub open spec fn tombstone_stale(record: PeerModel, now: u64, retention: u64) -> bool {
    record.state == PeerState::Dead && elapsed(record.last_seen, now, retention)
}

/// Whether any tombstone in the view has outlived the retention window.
pub open spec fn any_stale(peers: Map<ID, PeerModel>, now: u64, retention: u64) -> bool {
    exists|id: ID| peers.contains_key(id) && tombstone_stale(#[trigger] peers[id], now, retention)
}

/// The view without the tombstones that have outlived the retention
/// window.
pub open spec fn purge_view(view: ViewModel, now: u64, retention: u64) -> ViewModel {
    ViewModel {
        peers: Map::new(
            |id: ID|
                view.peers.contains_key(id) && !tombstone_stale(view.peers[id], now, retention),
            |id: ID| view.peers[id],
        ),
        epoch: if any_stale(view.peers, now, retention) {
            next_epoch(view.epoch)
        } else {
            view.epoch
        },
    }
}

/// The test "is in state `state`".
pub open spec fn in_state(state: PeerState) -> spec_fn(PeerModel) -> bool {
    |record: PeerModel| record.state == state
}

/// Over time the incarnation held for a peer never decreases: not through
/// a merge, a direct contact, a suspicion or the suspect timeout.
pub proof fn lemma_incarnation_never_decreases(
    view: ViewModel,
    incoming: PeerModel,
    peer: ID,
    now: u64,
    span: u64,
    id: ID,
)
    requires
        view.peers.contains_key(id),
    ensures
        merge_view(view, incoming).peers[id].incarnation >= view.peers[id].incarnation,
        confirm_view(view, peer, now).peers[id].incarnation >= view.peers[id].incarnation,
        suspect_view(view, peer, now).peers[id].incarnation >= view.peers[id].incarnation,
        expire_view(view, now, span).peers[id].incarnation >= view.peers[id].incarnation,
        purge_view(view, now, span).peers.contains_key(id) ==> purge_view(
            view,
            now,
            span,
        ).peers[id].incarnation >= view.peers[id].incarnation,
{
}

/// A direct answer never revives a tombstone, and the suspect timeout and
/// suspicion never touch one.
pub proof fn lemma_dead_is_terminal(view: ViewModel, peer: ID, now: u64, timeout: u64, id: ID)
    requires
        view.peers.contains_key(id),
        view.peers[id].state == PeerState::Dead,
    ensures
        confirm_view(view, peer, now).peers[id] == view.peers[id],
        suspect_view(view, peer, now).peers[id] == view.peers[id],
        expire_view(view, now, timeout).peers[id] == view.peers[id],
{
}

/// The local membership view: one record per known peer, and a logical
/// epoch that advances whenever a record changes.
pub struct MembershipView {
    peers: IdMap<PeerRecord>,
    epoch: u64,
}

impl View for MembershipView {
    type V = ViewModel;

    closed spec fn view(&self) -> ViewModel {
        ViewModel { peers: self.peers.model(), epoch: self.epoch }
    }
}

impl MembershipView {
    /// The identities of the known peers, in the order in which they were
    /// first heard of.
    pub closed spec fn ids(&self) -> Seq<ID> {
        self.peers.keys()
    }

    /// The records, in the order of `ids`.
    pub closed spec fn records(&self) -> Seq<PeerModel> {
        self.peers.values()
    }

    /// No peer has two records, and each record is filed under its own
    /// identity.
    pub closed spec fn wf(&self) -> bool {
        &&& self.peers.wf()
        &&& forall|i: int|
            0 <= i < self.peers.keys().len() ==> (#[trigger] self.peers.values()[i]).id
                == self.peers.keys()[i]
    }

    /// What `wf` means for the listing and the model.
    pub proof fn lemma_wf(&self)
        requires
            self.wf(),
        ensures
            self.ids().no_duplicates(),
            self.ids().len() == self.records().len(),
            forall|i: int| 0 <= i < self.ids().len() ==> (#[trigger] self.records()[i]).id == self.ids()[i],
            self@.peers == assoc(self.ids(), self.records()),
            filed_by_id(self@.peers),
    {
    }

    /// The view that knows no peer, at epoch 0.
    pub fn new() -> (view: Self)
        ensures
            view.wf(),
            view@.peers == Map::<ID, PeerModel>::empty(),
            view@.epoch == 0,
            view.ids() == Seq::<ID>::empty(),
    {
        MembershipView { peers: IdMap::new(), epoch: 0 }
    }

    /// The number of known peers.
    pub fn len(&self) -> (n: usize)
        ensures
            n == self.ids().len(),
    {
        self.peers.len()
    }

    /// The logical epoch.
    pub fn epoch(&self) -> (epoch: u64)
        ensures
            epoch == self@.epoch,
    {
        self.epoch
    }

    /// The record held for `id`, if the peer is known.
    pub fn get(&self, id: ID) -> (found: Option<&PeerRecord>)
        requires
            self.wf(),
        ensures
            match found {
                Some(record) => self@.peers.contains_key(id) && self@.peers[id] == record@,
                None => !self@.peers.contains_key(id),
            },
    {
        self.peers.get(id)
    }

    /// The record at position `i` of the listing.
    pub fn record_at(&self, i: usize) -> (record: &PeerRecord)
        requires
            self.wf(),
            i < self.ids().len(),
        ensures
            record@ == self.records()[i as int],
            record.id == self.ids()[i as int],
    {
        self.peers.value_at(i)
    }

    fn bump(&mut self)
        ensures
            final(self).peers == old(self).peers,
            final(self).epoch == next_epoch(old(self).epoch),
    {
        if self.epoch < u64::MAX {
            self.epoch = self.epoch + 1;
        }
    }

    /// Merges one rumour into the view by the merge rule.
    pub fn merge(&mut self, incoming: PeerRecord) -> (outcome: MergeOutcome)
        requires
            old(self).wf(),
        ensures
            final(self).wf(),
            final(self)@ == merge_view(old(self)@, incoming@),
            outcome == merge_outcome(old(self)@.peers, incoming@),
    {
        let id = incoming.id;
        match self.peers.position(id) {
            None => {
                let PeerRecord { id, addresses, incarnation, state, last_seen } = incoming;
                let stored_state = match state {
                    PeerState::Alive => PeerState::Joining,
                    other => other,
                };
                let stored = PeerRecord { id, addresses, incarnation, state: stored_state, last_seen };
                self.peers.push_new(id, stored);
                self.bump();
                MergeOutcome::Inserted
            },
            Some(i) => {
                let local = self.peers.value_at(i);
                let wins = incoming.incarnation > local.incarnation || (incoming.incarnation
                    == local.incarnation && incoming.state.priority() > local.state.priority());
                if wins {
                    self.peers.set_value_at(i, incoming);
                    self.bump();
                    MergeOutcome::Replaced
                } else {
                    MergeOutcome::Ignored
                }
            },
        }
    }

    /// Records that peer `id` answered directly at time `now`; returns the
    /// state in which the peer is held afterwards.
    pub fn confirm_alive(&mut self, id: ID, now: u64) -> (state: PeerState)
        requires
            old(self).wf(),
        ensures
            final(self).wf(),
            final(self)@ == confirm_view(old(self)@, id, now),
            state == final(self)@.peers[id].state,
    {
        match self.peers.position(id) {
            None => {
                let record = PeerRecord {
                    id,
                    addresses: Vec::new(),
                    incarnation: 0,
                    state: PeerState::Alive,
                    last_seen: now,
                };
                self.peers.push_new(id, record);
                self.bump();
                PeerState::Alive
            },
            Some(i) => {
                let local = self.peers.value_at(i);
                let before = local.state;
                match before {
                    PeerState::Dead => {
                        assert(self.peers.model().insert(id, self.peers.model()[id])
                            =~= self.peers.model());
                        PeerState::Dead
                    },
                    _ => {
                        let mut updated = local.duplicate();
                        updated.state = PeerState::Alive;
                        updated.last_seen = now;
                        self.peers.set_value_at(i, updated);
                        match before {
                            PeerState::Alive => {},
                            _ => {
                                self.bump();
                            },
                        }
                        PeerState::Alive
                    },
                }
            },
        }
    }

    /// Records that the direct probe of `id` and the indirect probes on its
    /// behalf all failed by time `now`; returns whether the peer became
    /// `Suspect`.
    pub fn suspect(&mut self, id: ID, now: u64) -> (changed: bool)
        requires
            old(self).wf(),
        ensures
            final(self).wf(),
            final(self)@ == suspect_view(old(self)@, id, now),
            changed == (old(self)@.peers.contains_key(id) && old(self)@.peers[id].state
                == PeerState::Alive),
    {
        match self.peers.position(id) {
            None => false,
            Some(i) => {
                let local = self.peers.value_at(i);
                match local.state {
                    PeerState::Alive => {
                        let mut updated = local.duplicate();
                        updated.state = PeerState::Suspect;
                        updated.last_seen = now;
                        self.peers.set_value_at(i, updated);
                        self.bump();
                        true
                    },
                    _ => false,
                }
            },
        }
    }

    /// Applies the suspect timeout: every peer that has been `Suspect` for
    /// at least `timeout` becomes `Dead` as of `now`. Returns whether any did.
    pub fn expire_suspects(&mut self, now: u64, timeout: u64) -> (changed: bool)
        requires
            old(self).wf(),
        ensures
            final(self).wf(),
            final(self)@ == expire_view(old(self)@, now, timeout),
            final(self).ids() == old(self).ids(),
            changed == any_expired(old(self)@.peers, now, timeout),
    {
        let ghost keys0 = self.peers.keys();
        let ghost values0 = self.peers.values();
        let mut changed = false;
        let mut i: usize = 0;
        while i < self.peers.len()
            invariant
                self.peers.wf(),
                self.epoch == old(self).epoch,
                keys0.no_duplicates(),
                keys0.len() == values0.len(),
                self.peers.keys() == keys0,
                self.peers.values().len() == values0.len(),
                i <= values0.len(),
                forall|j: int| 0 <= j < values0.len() ==> (#[trigger] values0[j]).id == keys0[j],
                forall|j: int|
                    0 <= j < i ==> #[trigger] self.peers.values()[j] == expire_record(
                        values0[j],
                        now,
                        timeout,
                    ),
                forall|j: int| i <= j < values0.len() ==> #[trigger] self.peers.values()[j] == values0[j],
                changed == exists|j: int| 0 <= j < i && suspicion_expired(#[trigger] values0[j], now, timeout),
            decreases values0.len() - i,
        {
            let local = self.peers.value_at(i);
            let due = match local.state {
                PeerState::Suspect => has_elapsed(local.last_seen, now, timeout),
                _ => false,
            };
            if due {
                let mut updated = local.duplicate();
                updated.state = PeerState::Dead;
                updated.last_seen = now;
                self.peers.set_value_at(i, updated);
                changed = true;
            }
            i += 1;
        }
        proof {
            let target = expire_view(old(self)@, now, timeout).peers;
            assert(self.peers.model() =~= target);
            if changed {
                let j = choose|j: int| 0 <= j < i && suspicion_expired(#[trigger] values0[j], now, timeout);
                lemma_assoc_at(keys0, values0, j);
            }
        }
        if changed {
            self.bump();
        }
        changed
    }

    /// Forgets every tombstone that has been kept for at least `retention`.
    /// Returns whether any was forgotten.
    pub fn purge_tombstones(&mut self, now: u64, retention: u64) -> (changed: bool)
        requires
            old(self).wf(),
        ensures
            final(self).wf(),
            final(self)@ == purge_view(old(self)@, now, retention),
            changed == any_stale(old(self)@.peers, now, retention),
    {
        let ghost model0 = self.peers.model();
        let mut changed = false;
        let mut i: usize = 0;
        while i < self.peers.len()
            invariant
                self.wf(),
                self.epoch == old(self).epoch,
                model0 == old(self)@.peers,
                i <= self.peers.keys().len(),
                forall|id: ID|
                    #![trigger self.peers.model().contains_key(id)]
                    self.peers.model().contains_key(id) ==> model0.contains_key(id)
                        && self.peers.model()[id] == model0[id],
                forall|id: ID|
                    #![trigger model0.contains_key(id)]
                    model0.contains_key(id) && !tombstone_stale(model0[id], now, retention)
                        ==> self.peers.model().contains_key(id),
                forall|j: int|
                    0 <= j < i ==> !tombstone_stale(#[trigger] self.peers.values()[j], now, retention),
                changed == exists|id: ID|
                    model0.contains_key(id) && !self.peers.model().contains_key(id),
            decreases self.peers.keys().len() - i,
        {
            proof {
                lemma_assoc_at(self.peers.keys(), self.peers.values(), i as int);
            }
            let local = self.peers.value_at(i);
            let stale = match local.state {
                PeerState::Dead => has_elapsed(local.last_seen, now, retention),
                _ => false,
            };
            if stale {
                let _ = self.peers.remove_at(i);
                changed = true;
            } else {
                i += 1;
            }
        }
        proof {
            let target = purge_view(old(self)@, now, retention).peers;
            assert(self.peers.model() =~= target);
        }
        if changed {
            self.bump();
        }
        changed
    }

    /// The peers held in state `state`, in the order of the listing.
    pub fn peers_in(&self, state: PeerState) -> (ids: Vec<ID>)
        requires
            self.wf(),
        ensures
            ids@ == keys_where(self.ids(), self.records(), in_state(state)),
            ids@.no_duplicates(),
            forall|id: ID|
                ids@.contains(id) <==> (self@.peers.contains_key(id) && self@.peers[id].state
                    == state),
    {
        let mut ids: Vec<ID> = Vec::new();
        let mut i: usize = 0;
        while i < self.peers.len()
            invariant
                i <= self.peers.keys().len(),
                self.peers.keys().len() == self.peers.values().len(),
                ids@ == keys_where(
                    self.peers.keys().take(i as int),
                    self.peers.values().take(i as int),
                    in_state(state),
                ),
            decreases self.peers.keys().len() - i,
        {
            let local = self.peers.value_at(i);
            proof {
                let keys1 = self.peers.keys().take(i + 1);
                let values1 = self.peers.values().take(i + 1);
                assert(keys1.drop_last() =~= self.peers.keys().take(i as int));
                assert(values1.drop_last() =~= self.peers.values().take(i as int));
            }
            if local.state == state {
                ids.push(self.peers.key_at(i));
            }
            i += 1;
        }
        proof {
            assert(self.peers.keys().take(i as int) =~= self.peers.keys());
            assert(self.peers.values().take(i as int) =~= self.peers.values());
            lemma_keys_where(self.peers.keys(), self.peers.values(), in_state(state));
        }
        ids
    }
}

} // verus!
