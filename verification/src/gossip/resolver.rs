//! Connectivity hints: the addresses at which a peer might be reached.
//!
//! The table is no membership state. It only remembers, for each peer, a
//! bounded list of candidate addresses, the most recently confirmed first.
//! Addresses given as seeds at startup are never evicted, so that a node can
//! always rejoin through them.

use super::ident::ID;
use super::table::IdMap;
use vstd::prelude::*;

verus! {

/// A network endpoint: an IPv6 address (IPv4 in its mapped form) as a
/// number, and a port.
#[derive(Clone, Copy, Debug, PartialEq, Eq, Structural, Hash)]
pub struct Address {
    pub host: u128,
    pub port: u16,
}

/// Where a candidate address came from.
#[derive(Clone, Copy, Debug, PartialEq, Eq, Structural)]
pub enum Source {
    /// Given in the configuration at startup.
    Seed,
    /// Learned from gossip or from a connection.
    Learned,
}

/// One candidate address of a peer.
#[derive(Clone, Copy, Debug, PartialEq, Eq, Structural)]
pub struct Candidate {
    pub address: Address,
    pub last_confirmed: u64,
    pub source: Source,
}

/// No address occurs twice.
pub open spec fn addresses_distinct(list: Seq<Candidate>) -> bool {
    forall|i: int, j: int| 0 <= i < j < list.len() ==> list[i].address != list[j].address
}

/// The most recently confirmed candidate comes first.
pub open spec fn by_freshness(list: Seq<Candidate>) -> bool {
    forall|i: int, j: int|
        0 <= i <= j < list.len() ==> list[i].last_confirmed >= list[j].last_confirmed
}

/// Every candidate is a seed.
pub open spec fn all_seeds(list: Seq<Candidate>) -> bool {
    forall|i: int| 0 <= i < list.len() ==> (#[trigger] list[i]).source == Source::Seed
}

/// What holds of every candidate list in the table: distinct addresses, in
/// order of freshness, and within the capacity unless seeds alone exceed it.
pub open spec fn list_wf(list: Seq<Candidate>, capacity: nat) -> bool {
    &&& addresses_distinct(list)
    &&& by_freshness(list)
    &&& (list.len() <= capacity || all_seeds(list))
}

/// Whether the list has a candidate with this address.
pub open spec fn holds(list: Seq<Candidate>, address: Address) -> bool {
    exists|i: int| 0 <= i < list.len() && (#[trigger] list[i]).address == address
}

/// A position at which the list has this address.
pub open spec fn slot_of(list: Seq<Candidate>, address: Address) -> int {
    choose|i: int| 0 <= i < list.len() && (#[trigger] list[i]).address == address
}

/// The list without the candidate of this address.
pub open spec fn without(list: Seq<Candidate>, address: Address) -> Seq<Candidate> {
    if holds(list, address) {
        list.remove(slot_of(list, address))
    } else {
        list
    }
}

/// The source under which an address is kept after an update: once a seed,
/// always a seed.
pub open spec fn merged_source(list: Seq<Candidate>, address: Address, source: Source) -> Source {
    if source == Source::Seed || (holds(list, address) && list[slot_of(list, address)].source
        == Source::Seed) {
        Source::Seed
    } else {
        Source::Learned
    }
}

/// How many candidates at the head of the list were confirmed after `t`.
pub open spec fn fresher_count(list: Seq<Candidate>, t: u64) -> nat
    decreases list.len(),
{
    if list.len() == 0 || list[0].last_confirmed <= t {
        0
    } else {
        1 + fresher_count(list.drop_first(), t)
    }
}

/// The list with `candidate` put in its place by freshness: after all that
/// were confirmed later, before all that were confirmed at the same time or
/// earlier.
pub open spec fn placed(list: Seq<Candidate>, candidate: Candidate) -> Seq<Candidate> {
    list.insert(fresher_count(list, candidate.last_confirmed) as int, candidate)
}

/// The position of the last learned candidate, if there is one.
pub open spec fn last_learned(list: Seq<Candidate>) -> Option<int>
    decreases list.len(),
{
    if list.len() == 0 {
        None
    } else if list.last().source == Source::Learned {
        Some(list.len() - 1)
    } else {
        last_learned(list.drop_last())
    }
}

/// The list cut back to the capacity: if it is over, the oldest learned
/// candidate goes. Seeds never go.
pub open spec fn trimmed(list: Seq<Candidate>, capacity: nat) -> Seq<Candidate> {
    if list.len() > capacity {
        match last_learned(list) {
            Some(i) => list.remove(i),
            None => list,
        }
    } else {
        list
    }
}

/// The candidate list after `address` was confirmed at time `now`.
pub open spec fn refreshed(
    list: Seq<Candidate>,
    address: Address,
    source: Source,
    now: u64,
    capacity: nat,
) -> Seq<Candidate> {
    trimmed(
        placed(
            without(list, address),
            Candidate { address, last_confirmed: now, source: merged_source(list, address, source) },
        ),
        capacity,
    )
}

/// The addresses of a candidate list, in its order.
pub open spec fn addresses_of(list: Seq<Candidate>) -> Seq<Address> {
    list.map_values(|candidate: Candidate| candidate.address)
}

/// What removing one candidate keeps.
pub proof fn lemma_remove_keeps(list: Seq<Candidate>, i: int)
    requires
        0 <= i < list.len(),
        addresses_distinct(list),
        by_freshness(list),
    ensures
        list.remove(i).len() == list.len() - 1,
        addresses_distinct(list.remove(i)),
        by_freshness(list.remove(i)),
        !holds(list.remove(i), list[i].address),
        all_seeds(list) ==> all_seeds(list.remove(i)),
        forall|k: int|
            0 <= k < list.len() && k != i ==> list.remove(i).contains(#[trigger] list[k]),
{
    let rest = list.remove(i);
    assert forall|k: int| 0 <= k < list.len() && k != i implies rest.contains(
        #[trigger] list[k],
    ) by {
        assert(rest[if k < i { k } else { k - 1 }] == list[k]);
    }
}

/// What `fresher_count` counts.
pub proof fn lemma_fresher_count(list: Seq<Candidate>, t: u64)
    ensures
        fresher_count(list, t) <= list.len(),
        forall|i: int| 0 <= i < fresher_count(list, t) ==> (#[trigger] list[i]).last_confirmed > t,
        fresher_count(list, t) < list.len() ==> list[fresher_count(list, t) as int].last_confirmed
            <= t,
    decreases list.len(),
{
    if !(list.len() == 0 || list[0].last_confirmed <= t) {
        let rest = list.drop_first();
        lemma_fresher_count(rest, t);
        assert forall|i: int| 0 <= i < fresher_count(list, t) implies (
        #[trigger] list[i]).last_confirmed > t by {
            if i > 0 {
                assert(rest[i - 1] == list[i]);
            }
        }
    }
}

/// A head of `p` fresher candidates that ends with the list or at one not
/// fresher is what `fresher_count` counts.
pub proof fn lemma_fresher_count_is(list: Seq<Candidate>, t: u64, p: nat)
    requires
        p <= list.len(),
        forall|i: int| 0 <= i < p ==> (#[trigger] list[i]).last_confirmed > t,
        p == list.len() || list[p as int].last_confirmed <= t,
    ensures
        fresher_count(list, t) == p,
    decreases p,
{
    if p > 0 {
        let rest = list.drop_first();
        lemma_fresher_count_is(rest, t, (p - 1) as nat);
    }
}

/// What putting a candidate in its place keeps.
pub proof fn lemma_placed(list: Seq<Candidate>, candidate: Candidate)
    requires
        addresses_distinct(list),
        by_freshness(list),
        !holds(list, candidate.address),
    ensures
        placed(list, candidate).len() == list.len() + 1,
        addresses_distinct(placed(list, candidate)),
        by_freshness(placed(list, candidate)),
        placed(list, candidate).contains(candidate),
        forall|k: int| 0 <= k < list.len() ==> placed(list, candidate).contains(#[trigger] list[k]),
        all_seeds(list) && candidate.source == Source::Seed ==> all_seeds(placed(list, candidate)),
{
    let t = candidate.last_confirmed;
    let p = fresher_count(list, t) as int;
    lemma_fresher_count(list, t);
    let next = placed(list, candidate);
    assert(next[p] == candidate);
    assert forall|k: int| 0 <= k < list.len() implies next.contains(#[trigger] list[k]) by {
        assert(next[if k < p { k } else { k + 1 }] == list[k]);
    }
}

/// What `last_learned` finds.
pub proof fn lemma_last_learned(list: Seq<Candidate>)
    ensures
        match last_learned(list) {
            Some(i) => 0 <= i < list.len() && list[i].source == Source::Learned && forall|k: int|
                i < k < list.len() ==> (#[trigger] list[k]).source == Source::Seed,
            None => all_seeds(list),
        },
    decreases list.len(),
{
    if list.len() > 0 && list.last().source != Source::Learned {
        let head = list.drop_last();
        lemma_last_learned(head);
        match last_learned(head) {
            Some(i) => {
                assert forall|k: int| i < k < list.len() implies (#[trigger] list[k]).source
                    == Source::Seed by {
                    if k < head.len() {
                        assert(head[k] == list[k]);
                    }
                }
            },
            None => {
                assert forall|k: int| 0 <= k < list.len() implies (#[trigger] list[k]).source
                    == Source::Seed by {
                    if k < head.len() {
                        assert(head[k] == list[k]);
                    }
                }
            },
        }
    }
}

/// What cutting back to the capacity keeps.
pub proof fn lemma_trimmed(list: Seq<Candidate>, capacity: nat)
    requires
        addresses_distinct(list),
        by_freshness(list),
    ensures
        addresses_distinct(trimmed(list, capacity)),
        by_freshness(trimmed(list, capacity)),
        forall|k: int|
            0 <= k < list.len() && (#[trigger] list[k]).source == Source::Seed ==> trimmed(
                list,
                capacity,
            ).contains(list[k]),
        list.len() <= capacity || all_seeds(list) ==> trimmed(list, capacity) == list,
        list.len() > capacity && !all_seeds(list) ==> trimmed(list, capacity).len() == list.len()
            - 1,
{
    if list.len() > capacity {
        lemma_last_learned(list);
        match last_learned(list) {
            Some(i) => {
                lemma_remove_keeps(list, i);
            },
            None => {},
        }
    }
}

/// A learned candidate placed among seeds that already fill the capacity is
/// the one that goes again.
pub proof fn lemma_learned_among_seeds(list: Seq<Candidate>, candidate: Candidate, capacity: nat)
    requires
        all_seeds(list),
        candidate.source == Source::Learned,
        list.len() >= capacity,
    ensures
        trimmed(placed(list, candidate), capacity) == list,
{
    let p = fresher_count(list, candidate.last_confirmed) as int;
    lemma_fresher_count(list, candidate.last_confirmed);
    let next = placed(list, candidate);
    lemma_last_learned(next);
    assert(next[p].source == Source::Learned);
}

/// An update keeps a candidate list well formed and evicts no seed; the
/// address confirmed is held afterwards if it is a seed or the list had room.
pub proof fn lemma_refreshed(
    list: Seq<Candidate>,
    address: Address,
    source: Source,
    now: u64,
    capacity: nat,
)
    requires
        list_wf(list, capacity),
    ensures
        list_wf(refreshed(list, address, source, now, capacity), capacity),
        forall|k: int|
            0 <= k < list.len() && (#[trigger] list[k]).source == Source::Seed && list[k].address
                != address ==> refreshed(list, address, source, now, capacity).contains(list[k]),
        merged_source(list, address, source) == Source::Seed ==> refreshed(
            list,
            address,
            source,
            now,
            capacity,
        ).contains(Candidate { address, last_confirmed: now, source: Source::Seed }),
        capacity > list.len() ==> refreshed(list, address, source, now, capacity).contains(
            Candidate { address, last_confirmed: now, source: merged_source(list, address, source) },
        ),
{
    let candidate = Candidate {
        address,
        last_confirmed: now,
        source: merged_source(list, address, source),
    };
    let rest = without(list, address);
    if holds(list, address) {
        lemma_remove_keeps(list, slot_of(list, address));
    }
    lemma_placed(rest, candidate);
    let next = placed(rest, candidate);
    lemma_trimmed(next, capacity);
    let last = trimmed(next, capacity);
    assert(last.len() <= capacity || all_seeds(last)) by {
        if rest.len() >= capacity && !all_seeds(next) && !(list.len() <= capacity) {
            lemma_learned_among_seeds(rest, candidate, capacity);
        }
    }
}

fn find_address(list: &Vec<Candidate>, address: Address) -> (found: Option<usize>)
    ensures
        match found {
            Some(i) => i < list@.len() && list@[i as int].address == address,
            None => !holds(list@, address),
        },
{
    let mut i: usize = 0;
    while i < list.len()
        invariant
            i <= list@.len(),
            forall|j: int| 0 <= j < i ==> (#[trigger] list@[j]).address != address,
        decreases list@.len() - i,
    {
        if list[i].address == address {
            return Some(i);
        }
        i += 1;
    }
    None
}

fn count_fresher(list: &Vec<Candidate>, t: u64) -> (p: usize)
    ensures
        p == fresher_count(list@, t),
        p <= list@.len(),
{
    let mut p: usize = 0;
    while p < list.len() && list[p].last_confirmed > t
        invariant
            p <= list@.len(),
            forall|i: int| 0 <= i < p ==> (#[trigger] list@[i]).last_confirmed > t,
        decreases list@.len() - p,
    {
        p += 1;
    }
    proof {
        lemma_fresher_count_is(list@, t, p as nat);
    }
    p
}

fn find_last_learned(list: &Vec<Candidate>) -> (found: Option<usize>)
    ensures
        match found {
            Some(i) => last_learned(list@) == Some(i as int) && i < list@.len(),
            None => last_learned(list@) is None,
        },
{
    let mut k: usize = list.len();
    assert(list@.take(k as int) =~= list@);
    while k > 0
        invariant
            k <= list@.len(),
            last_learned(list@) == last_learned(list@.take(k as int)),
        decreases k,
    {
        match list[k - 1].source {
            Source::Learned => {
                return Some(k - 1);
            },
            Source::Seed => {
                assert(list@.take(k as int).drop_last() =~= list@.take(k - 1));
            },
        }
        k -= 1;
    }
    None
}

/// Confirms `address` at time `now` in one candidate list.
fn refresh_list(
    list: &mut Vec<Candidate>,
    address: Address,
    source: Source,
    now: u64,
    capacity: usize,
)
    requires
        list_wf(old(list)@, capacity as nat),
    ensures
        final(list)@ == refreshed(old(list)@, address, source, now, capacity as nat),
        list_wf(final(list)@, capacity as nat),
{
    proof {
        lemma_refreshed(old(list)@, address, source, now, capacity as nat);
    }
    let mut effective = source;
    match find_address(list, address) {
        Some(i) => {
            let previous = list.remove(i);
            match previous.source {
                Source::Seed => {
                    effective = Source::Seed;
                },
                Source::Learned => {},
            }
        },
        None => {},
    }
    let p = count_fresher(list, now);
    list.insert(p, Candidate { address, last_confirmed: now, source: effective });
    if list.len() > capacity {
        match find_last_learned(list) {
            Some(k) => {
                let _ = list.remove(k);
            },
            None => {},
        }
    }
}

/// The resolver table as a mathematical value.
pub struct ResolverModel {
    pub table: Map<ID, Seq<Candidate>>,
    pub capacity: nat,
}

/// The candidates known for a peer; none for a peer that is unknown.
pub open spec fn candidates(model: ResolverModel, id: ID) -> Seq<Candidate> {
    if model.table.contains_key(id) {
        model.table[id]
    } else {
        Seq::empty()
    }
}

/// The table after `address` was confirmed for `id` at time `now`.
pub open spec fn updated(
    model: ResolverModel,
    id: ID,
    address: Address,
    source: Source,
    now: u64,
) -> ResolverModel {
    ResolverModel {
        table: model.table.insert(
            id,
            refreshed(candidates(model, id), address, source, now, model.capacity),
        ),
        ..model
    }
}

/// The table of candidate addresses per peer.
pub struct Resolver {
    table: IdMap<Vec<Candidate>>,
    capacity: usize,
}

impl View for Resolver {
    type V = ResolverModel;

    closed spec fn view(&self) -> ResolverModel {
        ResolverModel { table: self.table.model(), capacity: self.capacity as nat }
    }
}

impl Resolver {
    /// Every candidate list in the table is well formed.
    pub closed spec fn wf(&self) -> bool {
        &&& self.table.wf()
        &&& forall|i: int|
            0 <= i < self.table.values().len() ==> list_wf(
                #[trigger] self.table.values()[i],
                self.capacity as nat,
            )
    }

    /// What `wf` means for the model: each peer's candidates have distinct
    /// addresses, come most recently confirmed first, and stay within the
    /// capacity unless seeds alone exceed it.
    pub proof fn lemma_wf(&self, id: ID)
        requires
            self.wf(),
        ensures
            list_wf(candidates(self@, id), self@.capacity),
    {
    }

    /// The empty table that keeps at most `capacity` candidates per peer,
    /// seeds not counted against learned ones.
    pub fn new(capacity: usize) -> (resolver: Self)
        ensures
            resolver.wf(),
            resolver@ == (ResolverModel { table: Map::empty(), capacity: capacity as nat }),
    {
        Resolver { table: IdMap::new(), capacity }
    }

    /// Merges `address` into the candidates of `id`, confirmed at `now`.
    pub fn update(&mut self, id: ID, address: Address, source: Source, now: u64)
        requires
            old(self).wf(),
        ensures
            final(self).wf(),
            final(self)@ == updated(old(self)@, id, address, source, now),
    {
        let mut list: Vec<Candidate> = match self.table.position(id) {
            Some(i) => {
                self.table.remove_at(i)
            },
            None => Vec::new(),
        };
        refresh_list(&mut list, address, source, now, self.capacity);
        self.table.push_new(id, list);
        proof {
            assert(self@.table =~= updated(old(self)@, id, address, source, now).table);
        }
    }

    /// The addresses at which `id` might be reached, the most recently
    /// confirmed first; none if the peer is unknown.
    pub fn lookup(&self, id: ID) -> (addresses: Vec<Address>)
        requires
            self.wf(),
        ensures
            addresses@ == addresses_of(candidates(self@, id)),
            by_freshness(candidates(self@, id)),
            addresses_distinct(candidates(self@, id)),
    {
        proof {
            self.lemma_wf(id);
        }
        let mut addresses: Vec<Address> = Vec::new();
        match self.table.get(id) {
            Some(list) => {
                let mut i: usize = 0;
                while i < list.len()
                    invariant
                        i <= list@.len(),
                        addresses@ == addresses_of(list@.take(i as int)),
                    decreases list@.len() - i,
                {
                    addresses.push(list[i].address);
                    i += 1;
                }
            },
            None => {},
        }
        addresses
    }

    /// The candidates of `id` with their freshness and source.
    pub fn candidates_of(&self, id: ID) -> (list: Vec<Candidate>)
        requires
            self.wf(),
        ensures
            list@ == candidates(self@, id),
            list_wf(list@, self@.capacity),
    {
        proof {
            self.lemma_wf(id);
        }
        let mut copy: Vec<Candidate> = Vec::new();
        match self.table.get(id) {
            Some(list) => {
                let mut i: usize = 0;
                while i < list.len()
                    invariant
                        i <= list@.len(),
                        copy@ == list@.take(i as int),
                    decreases list@.len() - i,
                {
                    copy.push(list[i]);
                    i += 1;
                }
            },
            None => {},
        }
        copy
    }
}

} // verus!
