//! Anti-entropy: digests of a membership view and the deltas that answer
//! them.

use super::membership::{MembershipView, PeerModel, PeerRecord};
use crate::gossip::ident::ID;
use crate::gossip::table::{assoc, lemma_assoc_at, IdMap};
use vstd::prelude::*;

verus! {

/// A compact summary of a membership view: for each known peer, the
/// incarnation held for it.
pub struct Digest {
    entries: IdMap<u64>,
}

impl View for Digest {
    type V = Map<ID, u64>;

    closed spec fn view(&self) -> Map<ID, u64> {
        self.entries.model()
    }
}

/// The digest of a set of records.
pub open spec fn digest_of(peers: Map<ID, PeerModel>) -> Map<ID, u64> {
    Map::new(|id: ID| peers.contains_key(id), |id: ID| peers[id].incarnation)
}

/// Whether a record tells the sender of `digest` something it may not
/// know: a peer that it has not listed, a greater incarnation than it
/// listed, or, at the incarnation that it listed, a verdict of suspicion or
/// death (the digest does not say which verdict its sender holds).
pub open spec fn is_news(record: PeerModel, digest: Map<ID, u64>) -> bool {
    ||| !digest.contains_key(record.id)
    ||| digest[record.id] < record.incarnation
    ||| (digest[record.id] == record.incarnation && record.state.rank() > 0)
}

/// The test "is news to the sender of `digest`".
pub open spec fn news_for(digest: Map<ID, u64>) -> spec_fn(PeerModel) -> bool {
    |record: PeerModel| is_news(record, digest)
}

/// The records of a list, each as a mathematical value.
pub open spec fn models(records: Seq<PeerRecord>) -> Seq<PeerModel> {
    records.map_values(|record: PeerRecord| record@)
}

/// Whether `digest` lists a peer that `peers` lacks, or lists a greater
/// incarnation than `peers` holds.
pub open spec fn behind(peers: Map<ID, PeerModel>, digest: Map<ID, u64>) -> bool {
    exists|id: ID|
        #![trigger digest.contains_key(id)]
        digest.contains_key(id) && (!peers.contains_key(id) || peers[id].incarnation < digest[id])
}

/// A view is never behind its own digest, and none of its records that is
/// held as alive or joining is news to a peer that sent that digest.
pub proof fn lemma_own_digest(peers: Map<ID, PeerModel>, id: ID)
    requires
        peers.contains_key(id),
        peers[id].id == id,
    ensures
        !behind(peers, digest_of(peers)),
        is_news(peers[id], digest_of(peers)) <==> peers[id].state.rank() > 0,
{
}

impl Digest {
    /// No peer is listed twice.
    pub closed spec fn wf(&self) -> bool {
        self.entries.wf()
    }

    /// The peers listed, in order.
    pub closed spec fn ids(&self) -> Seq<ID> {
        self.entries.keys()
    }

    /// The incarnations listed, in the order of `ids`.
    pub closed spec fn incarnations(&self) -> Seq<u64> {
        self.entries.values()
    }

    /// What `wf` means for the listing and the model.
    pub proof fn lemma_wf(&self)
        requires
            self.wf(),
        ensures
            self.ids().no_duplicates(),
            self.ids().len() == self.incarnations().len(),
            self@ == assoc(self.ids(), self.incarnations()),
    {
    }

    /// The digest that lists no peer.
    pub fn new() -> (digest: Self)
        ensures
            digest.wf(),
            digest@ == Map::<ID, u64>::empty(),
            digest.ids() == Seq::<ID>::empty(),
    {
        Digest { entries: IdMap::new() }
    }

    /// The number of peers listed.
    pub fn len(&self) -> (n: usize)
        ensures
            n == self.ids().len(),
            n == self.incarnations().len(),
    {
        self.entries.len()
    }

    /// The entry at position `i`.
    pub fn entry_at(&self, i: usize) -> (entry: (ID, u64))
        requires
            i < self.ids().len(),
        ensures
            entry.0 == self.ids()[i as int],
            entry.1 == self.incarnations()[i as int],
    {
        (self.entries.key_at(i), *self.entries.value_at(i))
    }

    /// The incarnation listed for `id`, if any.
    pub fn get(&self, id: ID) -> (found: Option<u64>)
        requires
            self.wf(),
        ensures
            match found {
                Some(incarnation) => self@.contains_key(id) && self@[id] == incarnation,
                None => !self@.contains_key(id),
            },
    {
        match self.entries.get(id) {
            Some(incarnation) => Some(*incarnation),
            None => None,
        }
    }

    /// Lists `incarnation` for `id`, in place of what was listed for it.
    pub fn insert(&mut self, id: ID, incarnation: u64)
        requires
            old(self).wf(),
        ensures
            final(self).wf(),
            final(self)@ == old(self)@.insert(id, incarnation),
            old(self).ids().contains(id) ==> final(self).ids() == old(self).ids(),
            !old(self).ids().contains(id) ==> final(self).ids() == old(self).ids().push(id),
    {
        self.entries.put(id, incarnation);
    }
}

impl MembershipView {
    /// The digest of the view.
    pub fn digest(&self) -> (digest: Digest)
        requires
            self.wf(),
        ensures
            digest.wf(),
            digest@ == digest_of(self@.peers),
            digest.ids() == self.ids(),
    {
        proof {
            self.lemma_wf();
        }
        let mut digest = Digest::new();
        let n = self.len();
        let mut i: usize = 0;
        while i < n
            invariant
                self.wf(),
                n == self.ids().len(),
                self.ids().no_duplicates(),
                self.ids().len() == self.records().len(),
                i <= n,
                digest.entries.wf(),
                digest.entries.keys() == self.ids().take(i as int),
                digest.entries.values().len() == i,
                forall|j: int|
                    0 <= j < i ==> #[trigger] digest.entries.values()[j] == self.records()[j].incarnation,
            decreases n - i,
        {
            let record = self.record_at(i);
            digest.entries.push_new(record.id, record.incarnation);
            i += 1;
        }
        proof {
            assert(self.ids().take(n as int) =~= self.ids());
        }
        digest
    }

    /// The records that answer `digest`: those that are news to its sender,
    /// in the order of the listing.
    pub fn delta_for(&self, digest: &Digest) -> (delta: Vec<PeerRecord>)
        requires
            self.wf(),
            digest.wf(),
        ensures
            models(delta@) == self.records().filter(news_for(digest@)),
    {
        proof {
            self.lemma_wf();
        }
        let mut delta: Vec<PeerRecord> = Vec::new();
        let n = self.len();
        let mut i: usize = 0;
        while i < n
            invariant
                self.wf(),
                digest.wf(),
                n == self.ids().len(),
                self.ids().len() == self.records().len(),
                i <= n,
                models(delta@) == self.records().take(i as int).filter(news_for(digest@)),
            decreases n - i,
        {
            let record = self.record_at(i);
            let news = match digest.get(record.id) {
                None => true,
                Some(listed) => listed < record.incarnation || (listed == record.incarnation
                    && record.state.priority() > 0),
            };
            proof {
                reveal(Seq::filter);
                let upto = self.records().take(i + 1);
                assert(upto.drop_last() =~= self.records().take(i as int));
            }
            if news {
                let copy = record.duplicate();
                delta.push(copy);
            }
            i += 1;
        }
        assert(self.records().take(n as int) =~= self.records());
        delta
    }

    /// Whether `digest` shows its sender to know a peer that this view
    /// lacks, or a greater incarnation than this view holds.
    pub fn is_behind(&self, digest: &Digest) -> (yes: bool)
        requires
            self.wf(),
            digest.wf(),
        ensures
            yes == behind(self@.peers, digest@),
    {
        let n = digest.len();
        let mut i: usize = 0;
        while i < n
            invariant
                self.wf(),
                digest.wf(),
                n == digest.ids().len(),
                digest.ids().no_duplicates(),
                digest.ids().len() == digest.incarnations().len(),
                digest@ == assoc(digest.ids(), digest.incarnations()),
                i <= n,
                forall|j: int|
                    0 <= j < i ==> self@.peers.contains_key(#[trigger] digest.ids()[j])
                        && self@.peers[digest.ids()[j]].incarnation >= digest.incarnations()[j],
            decreases n - i,
        {
            let (id, listed) = digest.entry_at(i);
            proof {
                lemma_assoc_at(digest.ids(), digest.incarnations(), i as int);
            }
            let stale = match self.get(id) {
                None => true,
                Some(record) => record.incarnation < listed,
            };
            if stale {
                return true;
            }
            i += 1;
        }
        false
    }
}

} // verus!
