//! The runtime of one node: the single owner of the membership view, the
//! seen-set and the resolver table.
//!
//! The runtime performs no I/O and keeps no timers. Whoever drives it hands
//! in what happened (a peer answered, a probe failed, a digest arrived, time
//! passed) together with the current time, and carries out what the runtime
//! returns (records to send, an envelope to forward and to whom).

use super::flood::{originated, relay, Envelope, MessageKind};
use super::membership::{
    confirm_view, expire_view, filed_by_id, in_state, merge_view, purge_view, supersedes,
    suspect_view, MembershipView, PeerModel, PeerRecord, PeerState, ViewModel,
};
use super::seen::{is_fresh, live, observed, SeenModel, SeenSet};
use super::select::{choose_peers, excluding, lemma_excluding, lemma_pick, pick, without_id};
use super::sync::{behind, models, news_for, Digest};
use crate::gossip::ident::ID;
use crate::gossip::resolver::{updated, Address, Resolver, ResolverModel, Source};
use crate::gossip::table::{assoc, keys_where, lemma_keys_where};
use crate::uuid::{is_random_form, Uuid};
use vstd::prelude::*;

verus! {

/// What is fixed at startup.
#[derive(Clone, Copy, Debug, PartialEq, Eq, Structural)]
pub struct Config {
    /// How many peers a message or a digest is sent to in one round.
    pub fanout: usize,
    /// How many times a message may be forwarded.
    pub hop_limit: u8,
    /// How many peers are asked to probe on the node's behalf.
    pub indirect_probes: usize,
    /// How long a direct probe may go unanswered.
    pub probe_timeout: u64,
    /// How long the indirect probes may go unanswered.
    pub indirect_timeout: u64,
    /// How long a peer stays suspect before it is held to be dead.
    pub suspect_timeout: u64,
    /// How long a tombstone is kept.
    pub tombstone_retention: u64,
    /// How many messages the seen-set remembers.
    pub seen_capacity: usize,
    /// How long the seen-set remembers a message.
    pub seen_ttl: u64,
    /// How many candidate addresses are kept per peer.
    pub resolver_capacity: usize,
}

/// The runtime as a mathematical value.
pub struct RuntimeModel {
    pub me: ID,
    pub incarnation: u64,
    pub config: Config,
    pub view: ViewModel,
    pub seen: SeenModel,
    pub resolver: ResolverModel,
    pub cursor: usize,
}

/// What holds of every runtime: the node's own record is in its view, alive,
/// at the node's incarnation, and the bounded structures have the bounds of
/// the configuration.
pub open spec fn consistent(model: RuntimeModel) -> bool {
    &&& model.view.peers.contains_key(model.me)
    &&& model.view.peers[model.me].id == model.me
    &&& model.view.peers[model.me].incarnation == model.incarnation
    &&& model.view.peers[model.me].state == PeerState::Alive
    &&& filed_by_id(model.view.peers)
    &&& model.seen.capacity == model.config.seen_capacity
    &&& model.seen.ttl == model.config.seen_ttl
    &&& model.resolver.capacity == model.config.resolver_capacity
}

/// The runtime of a node that has just started at time `now`.
pub open spec fn started(me: ID, config: Config, now: u64) -> RuntimeModel {
    RuntimeModel {
        me,
        incarnation: 0,
        config,
        view: ViewModel {
            peers: Map::<ID, PeerModel>::empty().insert(
                me,
                PeerModel {
                    id: me,
                    addresses: Seq::empty(),
                    incarnation: 0,
                    state: PeerState::Alive,
                    last_seen: now,
                },
            ),
            epoch: 1,
        },
        seen: SeenModel {
            entries: Seq::empty(),
            capacity: config.seen_capacity as nat,
            ttl: config.seen_ttl,
        },
        resolver: ResolverModel { table: Map::empty(), capacity: config.resolver_capacity as nat },
        cursor: 0,
    }
}

/// The runtime after `peer` answered directly from `address` at time `now`.
pub open spec fn after_contact(
    model: RuntimeModel,
    peer: ID,
    address: Address,
    now: u64,
) -> RuntimeModel {
    RuntimeModel {
        view: confirm_view(model.view, peer, now),
        resolver: updated(model.resolver, peer, address, Source::Learned, now),
        ..model
    }
}

/// The runtime after a helper reported at time `now` that `peer` answered
/// its probe: the peer counts as reached, though no address of it was
/// confirmed.
pub open spec fn after_indirect_ack(model: RuntimeModel, peer: ID, now: u64) -> RuntimeModel {
    RuntimeModel { view: confirm_view(model.view, peer, now), ..model }
}

/// The runtime after a seed address was configured for `peer`: the address
/// is kept as a seed, and the peer is on record as one heard of.
pub open spec fn after_seed(
    model: RuntimeModel,
    peer: ID,
    address: Address,
    now: u64,
) -> RuntimeModel {
    RuntimeModel {
        view: if peer == model.me {
            model.view
        } else {
            merge_view(
                model.view,
                PeerModel {
                    id: peer,
                    addresses: seq![address],
                    incarnation: 0,
                    state: PeerState::Joining,
                    last_seen: now,
                },
            )
        },
        resolver: updated(model.resolver, peer, address, Source::Seed, now),
        ..model
    }
}

/// The runtime after the probes of `peer` all failed by time `now`. The
/// node never suspects itself.
pub open spec fn after_probe_failed(model: RuntimeModel, peer: ID, now: u64) -> RuntimeModel {
    if peer == model.me {
        model
    } else {
        RuntimeModel { view: suspect_view(model.view, peer, now), ..model }
    }
}

/// The runtime after its timers were applied at time `now`: suspicions
/// that lasted the suspect timeout become verdicts of death, and tombstones
/// that outlived the retention window are forgotten.
pub open spec fn after_tick(model: RuntimeModel, now: u64) -> RuntimeModel {
    RuntimeModel {
        view: purge_view(
            expire_view(model.view, now, model.config.suspect_timeout),
            now,
            model.config.tombstone_retention,
        ),
        ..model
    }
}

/// The incarnation that refutes a rumour of incarnation `rumoured`.
pub open spec fn refuting(rumoured: u64) -> u64 {
    if rumoured < u64::MAX {
        (rumoured + 1) as u64
    } else {
        u64::MAX
    }
}

/// The runtime after one rumour was taken in at time `now`. A rumour about
/// another peer is merged by the merge rule. A rumour about the node itself
/// is never merged: if it outweighs the node's own record, the node refutes
/// it by moving to a greater incarnation, alive.
pub open spec fn absorbed(model: RuntimeModel, rumour: PeerModel, now: u64) -> RuntimeModel {
    if rumour.id != model.me {
        RuntimeModel { view: merge_view(model.view, rumour), ..model }
    } else if supersedes(rumour, model.view.peers[model.me]) {
        RuntimeModel {
            incarnation: refuting(rumour.incarnation),
            view: merge_view(
                model.view,
                PeerModel {
                    incarnation: refuting(rumour.incarnation),
                    state: PeerState::Alive,
                    last_seen: now,
                    ..model.view.peers[model.me]
                },
            ),
            ..model
        }
    } else {
        model
    }
}

/// The runtime after a list of rumours was taken in, one after the other.
pub open spec fn absorbed_all(model: RuntimeModel, rumours: Seq<PeerModel>, now: u64) -> RuntimeModel
    decreases rumours.len(),
{
    if rumours.len() == 0 {
        model
    } else {
        absorbed_all(absorbed(model, rumours[0], now), rumours.drop_first(), now)
    }
}

/// Whether taking in a list of rumours, one after the other, makes the
/// node refute any of them: whether one of them is about the node itself and
/// outweighs the record that the node holds of itself when its turn comes.
pub open spec fn any_refuted(model: RuntimeModel, rumours: Seq<PeerModel>, now: u64) -> bool
    decreases rumours.len(),
{
    if rumours.len() == 0 {
        false
    } else {
        (rumours[0].id == model.me && supersedes(rumours[0], model.view.peers[model.me]))
            || any_refuted(absorbed(model, rumours[0], now), rumours.drop_first(), now)
    }
}

/// Taking in a rumour keeps the runtime consistent.
pub proof fn lemma_absorbed_consistent(model: RuntimeModel, rumour: PeerModel, now: u64)
    requires
        consistent(model),
    ensures
        consistent(absorbed(model, rumour, now)),
        absorbed(model, rumour, now).incarnation >= model.incarnation,
{
}

/// Self-refutation: whenever a rumour about the node outweighs the node's
/// own record, the record that the node holds of itself afterwards is alive
/// and outweighs the rumour, unless the rumour sits at the greatest
/// incarnation there is.
pub proof fn lemma_refutation(model: RuntimeModel, rumour: PeerModel, now: u64)
    requires
        consistent(model),
        rumour.id == model.me,
        supersedes(rumour, model.view.peers[model.me]),
        rumour.incarnation < u64::MAX,
    ensures
        absorbed(model, rumour, now).view.peers[model.me].state == PeerState::Alive,
        supersedes(absorbed(model, rumour, now).view.peers[model.me], rumour),
{
}

/// Taking in the same rumour twice leaves the runtime as taking it in once
/// does.
pub proof fn lemma_absorbed_idempotent(model: RuntimeModel, rumour: PeerModel, now: u64)
    requires
        consistent(model),
    ensures
        absorbed(absorbed(model, rumour, now), rumour, now) == absorbed(model, rumour, now),
{
}

/// Whether what is held of a peer is at least as new as `theirs`: a greater
/// incarnation, or the same with a verdict that is no less grave.
pub open spec fn up_to_date(peers: Map<ID, PeerModel>, theirs: PeerModel) -> bool {
    peers.contains_key(theirs.id) && !supersedes(theirs, peers[theirs.id])
}

/// Taking in a list of rumours keeps the runtime consistent; what it is up
/// to date with before, it is up to date with after; and it is up to date
/// with every record of the list that is about another peer.
pub proof fn lemma_absorbed_all(
    model: RuntimeModel,
    rumours: Seq<PeerModel>,
    now: u64,
    theirs: PeerModel,
)
    requires
        consistent(model),
        up_to_date(model.view.peers, theirs) || (rumours.contains(theirs) && theirs.id
            != model.me),
    ensures
        consistent(absorbed_all(model, rumours, now)),
        absorbed_all(model, rumours, now).me == model.me,
        up_to_date(absorbed_all(model, rumours, now).view.peers, theirs),
    decreases rumours.len(),
{
    if rumours.len() > 0 {
        let next = absorbed(model, rumours[0], now);
        if !up_to_date(model.view.peers, theirs) {
            let i = rumours.index_of(theirs);
            if i > 0 {
                assert(rumours.drop_first()[i - 1] == theirs);
            }
        }
        lemma_absorbed_all(next, rumours.drop_first(), now, theirs);
    }
}

/// Anti-entropy catches up: when a node has sent its digest and taken in a
/// delta that holds every record of the responder that is news to that
/// digest, nothing that the responder holds of a third peer outweighs what
/// the node holds of it.
pub proof fn lemma_sync_catches_up(
    model: RuntimeModel,
    theirs: Map<ID, PeerModel>,
    delta: Seq<PeerModel>,
    now: u64,
    id: ID,
)
    requires
        consistent(model),
        filed_by_id(theirs),
        theirs.contains_key(id),
        id != model.me,
        forall|k: ID|
            theirs.contains_key(k) && super::sync::is_news(
                #[trigger] theirs[k],
                super::sync::digest_of(model.view.peers),
            ) ==> delta.contains(theirs[k]),
    ensures
        up_to_date(absorbed_all(model, delta, now).view.peers, theirs[id]),
{
    let record = theirs[id];
    lemma_absorbed_all(model, delta, now, record);
}

/// One exchange suffices: when a node has taken in the delta with which a
/// responder answers the node's digest, nothing that the responder holds of
/// a third peer outweighs what the node holds of it. In particular a verdict
/// of death reaches every peer that asks.
pub proof fn lemma_exchange_catches_up(
    model: RuntimeModel,
    ids: Seq<ID>,
    records: Seq<PeerModel>,
    now: u64,
    id: ID,
)
    requires
        consistent(model),
        ids.no_duplicates(),
        ids.len() == records.len(),
        forall|i: int| 0 <= i < ids.len() ==> (#[trigger] records[i]).id == ids[i],
        assoc(ids, records).contains_key(id),
        id != model.me,
    ensures
        up_to_date(
            absorbed_all(
                model,
                records.filter(news_for(super::sync::digest_of(model.view.peers))),
                now,
            ).view.peers,
            assoc(ids, records)[id],
        ),
{
    let theirs = assoc(ids, records);
    let news = news_for(super::sync::digest_of(model.view.peers));
    let delta = records.filter(news);
    assert forall|k: ID| theirs.contains_key(k) implies (#[trigger] theirs[k]).id == k && (news(
        theirs[k],
    ) ==> delta.contains(theirs[k])) by {
        let j = ids.index_of(k);
        crate::gossip::table::lemma_assoc_at(ids, records, j);
        if news(records[j]) {
            records.lemma_filter_contains(news, j);
        }
    }
    lemma_sync_catches_up(model, theirs, delta, now, id);
}

/// A verdict of death spreads in one exchange: when the responder holds a
/// third peer as dead, the node that has taken in the responder's delta
/// holds that peer as dead at the same incarnation, or holds a greater
/// incarnation of it.
pub proof fn lemma_death_spreads(
    model: RuntimeModel,
    ids: Seq<ID>,
    records: Seq<PeerModel>,
    now: u64,
    id: ID,
)
    requires
        consistent(model),
        ids.no_duplicates(),
        ids.len() == records.len(),
        forall|i: int| 0 <= i < ids.len() ==> (#[trigger] records[i]).id == ids[i],
        assoc(ids, records).contains_key(id),
        assoc(ids, records)[id].state == PeerState::Dead,
        id != model.me,
    ensures
        ({
            let theirs = assoc(ids, records)[id];
            let after = absorbed_all(
                model,
                records.filter(news_for(super::sync::digest_of(model.view.peers))),
                now,
            ).view.peers;
            &&& after.contains_key(id)
            &&& after[id].incarnation >= theirs.incarnation
            &&& after[id].incarnation == theirs.incarnation ==> after[id].state == PeerState::Dead
        }),
{
    let j = ids.index_of(id);
    crate::gossip::table::lemma_assoc_at(ids, records, j);
    lemma_exchange_catches_up(model, ids, records, now, id);
}

/// The peers that a round may choose from: those held in state `state`, in
/// the order of the listing, the node itself left out.
pub open spec fn others_in(
    ids: Seq<ID>,
    records: Seq<PeerModel>,
    state: PeerState,
    me: ID,
) -> Seq<ID> {
    excluding(keys_where(ids, records, in_state(state)), me)
}

/// What publishing a message under the identifier `message_id`, to peers
/// chosen by `draws`, does to the runtime and returns: the identifier is
/// noted as seen; if it was not remembered, the message goes out with hop
/// count 0 and no signature to a fanout of the alive peers; if it was,
/// nothing goes out.
pub open spec fn published(
    before: RuntimeModel,
    ids: Seq<ID>,
    records: Seq<PeerModel>,
    message_id: Uuid,
    kind: MessageKind,
    payload: Seq<u8>,
    draws: Seq<u64>,
    now: u64,
    after: RuntimeModel,
    dispatch: Option<Dispatch>,
) -> bool {
    &&& after == (RuntimeModel { seen: observed(before.seen, message_id, now), ..before })
    &&& dispatch is Some <==> is_fresh(before.seen, message_id, now)
    &&& dispatch matches Some(sent) ==> !sent.deliver && sent.forward is Some
        && sent.forward->Some_0@ == originated(
        before.me,
        message_id,
        kind,
        payload,
        Seq::empty(),
    ) && sent.targets@ == pick(
        others_in(ids, records, PeerState::Alive, before.me),
        before.config.fanout as nat,
        draws,
    )
}

/// Whether a number is the low half of an identifier of the random form:
/// its two highest bits are binary 10.
pub open spec fn is_draw(word: u64) -> bool {
    0x8000_0000_0000_0000 <= word < 0xC000_0000_0000_0000
}

/// The round-robin cursor after one use.
pub open spec fn advanced(cursor: usize) -> usize {
    if cursor < usize::MAX {
        (cursor + 1) as usize
    } else {
        0
    }
}

/// What the node does with a message that it publishes or receives.
#[derive(Debug)]
pub struct Dispatch {
    /// Whether the message is handed to the local subscriber.
    pub deliver: bool,
    /// The envelope to send on, if any.
    pub forward: Option<Envelope>,
    /// The peers to send it to.
    pub targets: Vec<ID>,
}

/// The answer to a digest.
#[derive(Debug)]
pub struct SyncReply {
    /// The records that are news to the sender of the digest.
    pub delta: Vec<PeerRecord>,
    /// Whether the digest shows its sender to know more than the node, so
    /// that the node should send its own digest in return.
    pub request_back: bool,
}

/// The runtime of one node.
pub struct Runtime {
    me: ID,
    incarnation: u64,
    config: Config,
    view: MembershipView,
    seen: SeenSet,
    resolver: Resolver,
    cursor: usize,
}

impl View for Runtime {
    type V = RuntimeModel;

    closed spec fn view(&self) -> RuntimeModel {
        RuntimeModel {
            me: self.me,
            incarnation: self.incarnation,
            config: self.config,
            view: self.view@,
            seen: self.seen@,
            resolver: self.resolver@,
            cursor: self.cursor,
        }
    }
}

impl Runtime {
    /// The identities in the membership view, in the order in which they
    /// were first heard of.
    pub closed spec fn ids(&self) -> Seq<ID> {
        self.view.ids()
    }

    /// The records of the membership view, in the order of `ids`.
    pub closed spec fn records(&self) -> Seq<PeerModel> {
        self.view.records()
    }

    /// The parts are well formed and the whole is consistent.
    pub closed spec fn wf(&self) -> bool {
        &&& self.view.wf()
        &&& self.seen.wf()
        &&& self.resolver.wf()
        &&& consistent(self@)
    }

    /// What `wf` means for the model and the listing.
    pub proof fn lemma_wf(&self)
        requires
            self.wf(),
        ensures
            consistent(self@),
            self@.seen.entries.len() <= self@.seen.capacity,
            self.ids().no_duplicates(),
            self.ids().len() == self.records().len(),
            self@.view.peers == assoc(self.ids(), self.records()),
    {
        self.view.lemma_wf();
    }

    /// The runtime of node `me`, started at time `now` with incarnation 0.
    pub fn new(me: ID, config: Config, now: u64) -> (runtime: Self)
        ensures
            runtime.wf(),
            runtime@ == started(me, config, now),
    {
        let mut view = MembershipView::new();
        let _ = view.confirm_alive(me, now);
        Runtime {
            me,
            incarnation: 0,
            config,
            view,
            seen: SeenSet::new(config.seen_capacity, config.seen_ttl),
            resolver: Resolver::new(config.resolver_capacity),
            cursor: 0,
        }
    }

    /// The node's own identity.
    pub fn id(&self) -> (me: ID)
        ensures
            me == self@.me,
    {
        self.me
    }

    /// The configuration that the node was started with.
    pub fn config(&self) -> (config: Config)
        ensures
            config == self@.config,
    {
        self.config
    }

    /// The node's current incarnation.
    pub fn incarnation(&self) -> (incarnation: u64)
        ensures
            incarnation == self@.incarnation,
    {
        self.incarnation
    }

    /// The record held for `id`, if the peer is known.
    pub fn peer(&self, id: ID) -> (found: Option<&PeerRecord>)
        requires
            self.wf(),
        ensures
            match found {
                Some(record) => self@.view.peers.contains_key(id) && self@.view.peers[id]
                    == record@,
                None => !self@.view.peers.contains_key(id),
            },
    {
        self.view.get(id)
    }

    /// A copy of every record of the membership view, in the order of the
    /// listing: a snapshot for readers that must not hold on to the runtime.
    pub fn snapshot(&self) -> (records: Vec<PeerRecord>)
        requires
            self.wf(),
        ensures
            models(records@) == self.records(),
    {
        let mut records: Vec<PeerRecord> = Vec::new();
        let n = self.view.len();
        let mut i: usize = 0;
        while i < n
            invariant
                self.wf(),
                n == self.view.ids().len(),
                i <= n,
                models(records@) == self.view.records().take(i as int),
            decreases n - i,
        {
            proof {
                self.view.lemma_wf();
            }
            let copy = self.view.record_at(i).duplicate();
            let ghost before = records@;
            records.push(copy);
            assert(models(records@) =~= models(before).push(copy@));
            i += 1;
        }
        proof {
            self.view.lemma_wf();
        }
        records
    }

    /// The addresses at which `id` might be reached, the most recently
    /// confirmed first.
    pub fn addresses(&self, id: ID) -> (addresses: Vec<Address>)
        requires
            self.wf(),
        ensures
            addresses@ == crate::gossip::resolver::addresses_of(
                crate::gossip::resolver::candidates(self@.resolver, id),
            ),
    {
        self.resolver.lookup(id)
    }

    /// Configures a seed address for `peer`.
    pub fn seed(&mut self, peer: ID, address: Address, now: u64)
        requires
            old(self).wf(),
        ensures
            final(self).wf(),
            final(self)@ == after_seed(old(self)@, peer, address, now),
    {
        self.resolver.update(peer, address, Source::Seed, now);
        if peer != self.me {
            let mut addresses: Vec<Address> = Vec::new();
            addresses.push(address);
            let rumour = PeerRecord {
                id: peer,
                addresses,
                incarnation: 0,
                state: PeerState::Joining,
                last_seen: now,
            };
            let _ = self.view.merge(rumour);
        }
    }

    /// Records that `peer` answered directly from `address` at time `now`:
    /// a handshake succeeded or an acknowledgement arrived.
    pub fn on_contact(&mut self, peer: ID, address: Address, now: u64)
        requires
            old(self).wf(),
        ensures
            final(self).wf(),
            final(self)@ == after_contact(old(self)@, peer, address, now),
    {
        let _ = self.view.confirm_alive(peer, now);
        self.resolver.update(peer, address, Source::Learned, now);
    }

    /// Records that a helper reported at time `now` that `peer` answered its
    /// probe. Returns the state in which the peer is held afterwards.
    pub fn on_indirect_ack(&mut self, peer: ID, now: u64) -> (state: PeerState)
        requires
            old(self).wf(),
        ensures
            final(self).wf(),
            final(self)@ == after_indirect_ack(old(self)@, peer, now),
            state == final(self)@.view.peers[peer].state,
    {
        self.view.confirm_alive(peer, now)
    }

    /// Records that the direct probe of `peer` and the indirect probes on
    /// its behalf all failed by time `now`. Returns whether the peer became
    /// suspect.
    pub fn on_probe_failed(&mut self, peer: ID, now: u64) -> (changed: bool)
        requires
            old(self).wf(),
        ensures
            final(self).wf(),
            final(self)@ == after_probe_failed(old(self)@, peer, now),
            changed == (peer != old(self)@.me && old(self)@.view.peers.contains_key(peer) && old(
                self,
            )@.view.peers[peer].state == PeerState::Alive),
    {
        if peer == self.me {
            return false;
        }
        self.view.suspect(peer, now)
    }

    /// Applies the timers at time `now`. Returns whether the view changed.
    pub fn on_tick(&mut self, now: u64) -> (changed: bool)
        requires
            old(self).wf(),
        ensures
            final(self).wf(),
            final(self)@ == after_tick(old(self)@, now),
            changed == (final(self)@.view.epoch != old(self)@.view.epoch || final(self)@.view.peers
                != old(self)@.view.peers),
    {
        let expired = self.view.expire_suspects(now, self.config.suspect_timeout);
        let ghost middle = self.view@;
        let purged = self.view.purge_tombstones(now, self.config.tombstone_retention);
        proof {
            if !expired {
                assert(middle.peers =~= old(self)@.view.peers);
            }
            if !purged {
                assert(self@.view.peers =~= middle.peers);
            }
        }
        expired || purged
    }

    /// The digest of the node's view, to open an anti-entropy exchange.
    pub fn digest(&self) -> (digest: Digest)
        requires
            self.wf(),
        ensures
            digest.wf(),
            digest@ == super::sync::digest_of(self@.view.peers),
    {
        self.view.digest()
    }

    /// Answers a digest that arrived from `from` at time `now`. The arrival
    /// counts as a direct answer of `from`.
    pub fn on_digest(&mut self, from: ID, address: Address, digest: &Digest, now: u64) -> (reply:
        SyncReply)
        requires
            old(self).wf(),
            digest.wf(),
        ensures
            final(self).wf(),
            final(self)@ == after_contact(old(self)@, from, address, now),
            models(reply.delta@) == final(self).records().filter(news_for(digest@)),
            reply.request_back == behind(final(self)@.view.peers, digest@),
    {
        self.on_contact(from, address, now);
        let delta = self.view.delta_for(digest);
        let request_back = self.view.is_behind(digest);
        SyncReply { delta, request_back }
    }

    /// Takes in one rumour at time `now`. Returns whether the node had to
    /// refute it.
    pub fn absorb(&mut self, rumour: PeerRecord, now: u64) -> (refuted: bool)
        requires
            old(self).wf(),
        ensures
            final(self).wf(),
            final(self)@ == absorbed(old(self)@, rumour@, now),
            refuted == (rumour.id == old(self)@.me && supersedes(
                rumour@,
                old(self)@.view.peers[old(self)@.me],
            )),
    {
        if rumour.id != self.me {
            let _ = self.view.merge(rumour);
            return false;
        }
        let own = match self.view.get(self.me) {
            Some(own) => own.duplicate(),
            None => {
                return false;
            },
        };
        let outweighed = rumour.incarnation > own.incarnation || (rumour.incarnation
            == own.incarnation && rumour.state.priority() > own.state.priority());
        if !outweighed {
            return false;
        }
        let incarnation = if rumour.incarnation < u64::MAX {
            rumour.incarnation + 1
        } else {
            u64::MAX
        };
        let refutation = PeerRecord {
            id: own.id,
            addresses: own.addresses,
            incarnation,
            state: PeerState::Alive,
            last_seen: now,
        };
        let _ = self.view.merge(refutation);
        self.incarnation = incarnation;
        true
    }

    /// Takes in the records of a sync response, in their order. Returns
    /// whether the node had to refute any of them.
    pub fn on_delta(&mut self, rumours: &Vec<PeerRecord>, now: u64) -> (refuted: bool)
        requires
            old(self).wf(),
        ensures
            final(self).wf(),
            final(self)@ == absorbed_all(old(self)@, models(rumours@), now),
            refuted == any_refuted(old(self)@, models(rumours@), now),
    {
        let mut refuted = false;
        let mut i: usize = 0;
        assert(models(rumours@).skip(0) =~= models(rumours@));
        while i < rumours.len()
            invariant
                i <= rumours@.len(),
                self.wf(),
                absorbed_all(self@, models(rumours@).skip(i as int), now) == absorbed_all(
                    old(self)@,
                    models(rumours@),
                    now,
                ),
                (refuted || any_refuted(self@, models(rumours@).skip(i as int), now))
                    == any_refuted(old(self)@, models(rumours@), now),
            decreases rumours@.len() - i,
        {
            let rumour = rumours[i].duplicate();
            proof {
                let left = models(rumours@).skip(i as int);
                assert(left.drop_first() =~= models(rumours@).skip(i + 1));
            }
            let this = self.absorb(rumour, now);
            refuted = refuted || this;
            i += 1;
        }
        refuted
    }

    /// The next peer to probe, round-robin over the alive peers, and moves
    /// the cursor on. None when no other peer is alive.
    pub fn probe_target(&mut self) -> (target: Option<ID>)
        requires
            old(self).wf(),
        ensures
            final(self).wf(),
            final(self)@ == (RuntimeModel { cursor: advanced(old(self)@.cursor), ..old(self)@ }),
            final(self).ids() == old(self).ids(),
            final(self).records() == old(self).records(),
            target == ({
                let pool = others_in(
                    old(self).ids(),
                    old(self).records(),
                    PeerState::Alive,
                    old(self)@.me,
                );
                if pool.len() == 0 {
                    None
                } else {
                    Some(pool[(old(self)@.cursor as int) % (pool.len() as int)])
                }
            }),
    {
        let pool = without_id(self.view.peers_in(PeerState::Alive), self.me);
        let turn = self.cursor;
        self.cursor = if self.cursor < usize::MAX {
            self.cursor + 1
        } else {
            0
        };
        if pool.len() == 0 {
            None
        } else {
            Some(pool[turn % pool.len()])
        }
    }

    /// Chooses up to `k` distinct peers held in state `state`, the node
    /// itself and `except` left out, by the numbers in `draws`.
    pub fn select(&self, state: PeerState, except: ID, k: usize, draws: &Vec<u64>) -> (chosen: Vec<
        ID,
    >)
        requires
            self.wf(),
        ensures
            chosen@ == pick(
                excluding(others_in(self.ids(), self.records(), state, self@.me), except),
                k as nat,
                draws@,
            ),
            chosen@.no_duplicates(),
            chosen@.len() <= k,
            forall|id: ID|
                #![trigger chosen@.contains(id)]
                chosen@.contains(id) ==> id != self@.me && id != except
                    && self@.view.peers.contains_key(id) && self@.view.peers[id].state == state,
    {
        let listed = self.view.peers_in(state);
        let ghost listed_ids = listed@;
        let others = without_id(listed, self.me);
        let ghost other_ids = others@;
        let pool = without_id(others, except);
        let ghost pool_ids = pool@;
        let chosen = choose_peers(pool, k, draws);
        proof {
            lemma_excluding(listed_ids, self.me);
            lemma_excluding(other_ids, except);
            lemma_pick(pool_ids, k as nat, draws@);
            assert forall|id: ID| #![trigger chosen@.contains(id)] chosen@.contains(id) implies id
                != self@.me && id != except && self@.view.peers.contains_key(id)
                && self@.view.peers[id].state == state by {
                assert(listed_ids.contains(id));
            }
        }
        chosen
    }

    /// Publishes a message under the identifier `message_id`: remembers it
    /// as seen and addresses it, with hop count 0, to a fanout of alive peers
    /// chosen by `draws`. Nothing is published under an identifier that the
    /// node still remembers.
    pub fn publish_as(
        &mut self,
        message_id: Uuid,
        kind: MessageKind,
        payload: Vec<u8>,
        draws: &Vec<u64>,
        now: u64,
    ) -> (dispatch: Option<Dispatch>)
        requires
            old(self).wf(),
        ensures
            final(self).wf(),
            final(self)@ == (RuntimeModel {
                seen: observed(old(self)@.seen, message_id, now),
                ..old(self)@
            }),
            final(self).ids() == old(self).ids(),
            final(self).records() == old(self).records(),
            dispatch is Some <==> is_fresh(old(self)@.seen, message_id, now),
            dispatch matches Some(sent) ==> !sent.deliver && sent.forward is Some
                && sent.forward->Some_0@ == originated(
                old(self)@.me,
                message_id,
                kind,
                payload@,
                Seq::empty(),
            ) && sent.targets@ == pick(
                others_in(old(self).ids(), old(self).records(), PeerState::Alive, old(self)@.me),
                old(self)@.config.fanout as nat,
                draws@,
            ),
    {
        let fresh = self.seen.observe(message_id, now);
        if !fresh {
            return None;
        }
        let envelope = Envelope::originate(self.me, message_id, kind, payload, Vec::new());
        let pool = without_id(self.view.peers_in(PeerState::Alive), self.me);
        let targets = choose_peers(pool, self.config.fanout, draws);
        Some(Dispatch { deliver: false, forward: Some(envelope), targets })
    }

    /// Publishes a message under a freshly drawn identifier, to peers chosen
    /// by freshly drawn numbers: it does what `published` says for some
    /// identifier of the random form and some draws, one for each peer of the
    /// fanout. Where the node remembers no message at time `now`, every
    /// identifier is new to it, and the message is published.
    pub fn publish(&mut self, kind: MessageKind, payload: Vec<u8>, now: u64) -> (dispatch: Option<
        Dispatch,
    >)
        requires
            old(self).wf(),
        ensures
            final(self).wf(),
            final(self).ids() == old(self).ids(),
            final(self).records() == old(self).records(),
            final(self)@.view == old(self)@.view,
            final(self)@.incarnation == old(self)@.incarnation,
            exists|message_id: Uuid, draws: Seq<u64>|
                {
                    &&& is_random_form(message_id.value)
                    &&& draws.len() == old(self)@.config.fanout
                    &&& forall|i: int| 0 <= i < draws.len() ==> is_draw(#[trigger] draws[i])
                    &&& #[trigger] published(
                        old(self)@,
                        old(self).ids(),
                        old(self).records(),
                        message_id,
                        kind,
                        payload@,
                        draws,
                        now,
                        final(self)@,
                        dispatch,
                    )
                },
            live(old(self)@.seen, now).len() == 0 ==> dispatch is Some,
            dispatch matches Some(sent) ==> !sent.deliver && sent.forward is Some && ({
                let envelope = sent.forward->Some_0@;
                &&& envelope.origin == old(self)@.me
                &&& envelope.kind == kind
                &&& envelope.hop_count == 0
                &&& envelope.payload == payload@
                &&& is_fresh(old(self)@.seen, envelope.message_id, now)
                &&& final(self)@.seen == observed(old(self)@.seen, envelope.message_id, now)
            }) && sent.targets@.no_duplicates() && sent.targets@.len() <= old(self)@.config.fanout
                && forall|id: ID|
                #![trigger sent.targets@.contains(id)]
                sent.targets@.contains(id) ==> id != old(self)@.me
                    && old(self)@.view.peers.contains_key(id) && old(self)@.view.peers[id].state
                    == PeerState::Alive,
    {
        let message_id = Uuid::fresh();
        let draws = Self::draw(self.config.fanout);
        proof {
            self.lemma_wf();
            let alive = keys_where(self.ids(), self.records(), in_state(PeerState::Alive));
            let pool = excluding(alive, self.me);
            lemma_keys_where(self.ids(), self.records(), in_state(PeerState::Alive));
            lemma_excluding(alive, self.me);
            lemma_pick(pool, self.config.fanout as nat, draws@);
            assert forall|id: ID|
                #![trigger pick(pool, self.config.fanout as nat, draws@).contains(id)]
                pick(pool, self.config.fanout as nat, draws@).contains(id) implies id != self@.me
                && self@.view.peers.contains_key(id) && self@.view.peers[id].state
                == PeerState::Alive by {
                assert(alive.contains(id));
            }
        }
        let ghost sent = payload@;
        let dispatch = self.publish_as(message_id, kind, payload, &draws, now);
        assert(published(
            old(self)@,
            old(self).ids(),
            old(self).records(),
            message_id,
            kind,
            sent,
            draws@,
            now,
            self@,
            dispatch,
        ));
        dispatch
    }

    /// Draws `k` numbers for choosing peers: each is the low half of a
    /// freshly drawn random identifier.
    fn draw(k: usize) -> (draws: Vec<u64>)
        ensures
            draws@.len() == k,
            forall|i: int| 0 <= i < draws@.len() ==> is_draw(#[trigger] draws@[i]),
    {
        let mut draws: Vec<u64> = Vec::new();
        let mut i: usize = 0;
        while i < k
            invariant
                i <= k,
                draws@.len() == i,
                forall|j: int| 0 <= j < draws@.len() ==> is_draw(#[trigger] draws@[j]),
            decreases k - i,
        {
            let word = Uuid::fresh().value;
            assert((word >> 62) & 0x3 == 2 ==> 0x8000_0000_0000_0000 <= word
                % 0x1_0000_0000_0000_0000 < 0xC000_0000_0000_0000) by (bit_vector);
            draws.push((word % 0x1_0000_0000_0000_0000) as u64);
            i += 1;
        }
        draws
    }

    /// Handles a published message that arrived at time `now`. A message
    /// seen before is dropped. A new one is delivered and, while its hop
    /// count is below the limit, forwarded one hop further to a fanout of
    /// alive peers chosen by `draws`, its origin left out. An envelope of
    /// another kind than `Publish` is none of the flood's business.
    pub fn on_envelope(&mut self, envelope: &Envelope, draws: &Vec<u64>, now: u64) -> (dispatch:
        Dispatch)
        requires
            old(self).wf(),
        ensures
            final(self).wf(),
            final(self).ids() == old(self).ids(),
            final(self).records() == old(self).records(),
            final(self)@ == (RuntimeModel {
                seen: if envelope.kind == MessageKind::Publish {
                    observed(old(self)@.seen, envelope.message_id, now)
                } else {
                    old(self)@.seen
                },
                ..old(self)@
            }),
            dispatch.deliver == (envelope.kind == MessageKind::Publish && is_fresh(
                old(self)@.seen,
                envelope.message_id,
                now,
            )),
            match dispatch.forward {
                Some(next) => dispatch.deliver && relay(envelope@, old(self)@.config.hop_limit)
                    == Some(next@),
                None => !dispatch.deliver || relay(envelope@, old(self)@.config.hop_limit) is None,
            },
            dispatch.targets@ == if dispatch.forward is Some {
                pick(
                    excluding(
                        others_in(
                            old(self).ids(),
                            old(self).records(),
                            PeerState::Alive,
                            old(self)@.me,
                        ),
                        envelope.origin,
                    ),
                    old(self)@.config.fanout as nat,
                    draws@,
                )
            } else {
                Seq::<ID>::empty()
            },
    {
        match envelope.kind {
            MessageKind::Publish => {},
            _ => {
                return Dispatch { deliver: false, forward: None, targets: Vec::new() };
            },
        }
        let fresh = self.seen.observe(envelope.message_id, now);
        if !fresh {
            return Dispatch { deliver: false, forward: None, targets: Vec::new() };
        }
        match envelope.relayed(self.config.hop_limit) {
            Some(next) => {
                let targets = self.select(
                    PeerState::Alive,
                    envelope.origin,
                    self.config.fanout,
                    draws,
                );
                Dispatch { deliver: true, forward: Some(next), targets }
            },
            None => Dispatch { deliver: true, forward: None, targets: Vec::new() },
        }
    }
}

} // verus!
