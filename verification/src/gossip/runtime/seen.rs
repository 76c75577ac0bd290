//! The memory of delivered messages that makes flooding idempotent.

use super::clock::{elapsed, has_elapsed};
use crate::uuid::Uuid;
use vstd::prelude::*;

verus! {

/// One remembered message: its identifier and when it first arrived.
#[derive(Clone, Copy, Debug, PartialEq, Eq, Structural)]
pub struct SeenEntry {
    pub message_id: Uuid,
    pub seen_at: u64,
}

/// The seen-set as a mathematical value: the remembered messages, oldest
/// first, and the two bounds that evict them.
pub struct SeenModel {
    pub entries: Seq<SeenEntry>,
    pub capacity: nat,
    pub ttl: u64,
}

/// The test "is still remembered at time `now`": fewer than `ttl` ticks
/// have passed since the message arrived.
pub open spec fn live_at(now: u64, ttl: u64) -> spec_fn(SeenEntry) -> bool {
    |entry: SeenEntry| !elapsed(entry.seen_at, now, ttl)
}

/// Whether `entries` holds the message `message_id`.
pub open spec fn remembers(entries: Seq<SeenEntry>, message_id: Uuid) -> bool {
    exists|i: int| 0 <= i < entries.len() && (#[trigger] entries[i]).message_id == message_id
}

/// The entries that have not aged out by time `now`.
pub open spec fn live(model: SeenModel, now: u64) -> Seq<SeenEntry> {
    model.entries.filter(live_at(now, model.ttl))
}

/// Whether a message arriving at time `now` is new to the node.
pub open spec fn is_fresh(model: SeenModel, message_id: Uuid, now: u64) -> bool {
    !remembers(live(model, now), message_id)
}

/// The seen-set after a message arrived at time `now`: aged entries are
/// gone; a new message is remembered as the youngest, and the oldest entry
/// makes room for it when the set is full.
pub open spec fn observed(model: SeenModel, message_id: Uuid, now: u64) -> SeenModel {
    let kept = live(model, now);
    let entries = if !is_fresh(model, message_id, now) || model.capacity == 0 {
        kept
    } else if kept.len() >= model.capacity {
        kept.drop_first().push(SeenEntry { message_id, seen_at: now })
    } else {
        kept.push(SeenEntry { message_id, seen_at: now })
    };
    SeenModel { entries, ..model }
}

/// One arrival at a node: which message, and when.
pub struct Arrival {
    pub message_id: Uuid,
    pub at: u64,
}

/// How many times the message `message_id` is delivered when the arrivals
/// of `trace` come in, one after the other.
pub open spec fn deliveries(model: SeenModel, trace: Seq<Arrival>, message_id: Uuid) -> nat
    decreases trace.len(),
{
    if trace.len() == 0 {
        0
    } else {
        let rest = deliveries(
            observed(model, trace[0].message_id, trace[0].at),
            trace.drop_first(),
            message_id,
        );
        if trace[0].message_id == message_id && is_fresh(model, message_id, trace[0].at) {
            1 + rest
        } else {
            rest
        }
    }
}

/// How many arrivals of `trace` bring another message than `message_id`.
pub open spec fn others(trace: Seq<Arrival>, message_id: Uuid) -> nat
    decreases trace.len(),
{
    if trace.len() == 0 {
        0
    } else if trace[0].message_id != message_id {
        1 + others(trace.drop_first(), message_id)
    } else {
        others(trace.drop_first(), message_id)
    }
}

/// A message that is remembered since `since`, at place `p` of the set, is
/// not delivered again by a trace whose arrivals all come within `ttl` of
/// `since`, as long as the younger entries and the other messages of the
/// trace together do not fill the set.
pub proof fn lemma_remembered_is_dropped(
    model: SeenModel,
    trace: Seq<Arrival>,
    message_id: Uuid,
    since: u64,
    p: int,
)
    requires
        0 <= p < model.entries.len(),
        model.entries[p] == (SeenEntry { message_id, seen_at: since }),
        (model.entries.len() - 1 - p) + others(trace, message_id) < model.capacity,
        forall|k: int| 0 <= k < trace.len() ==> !elapsed(since, (#[trigger] trace[k]).at, model.ttl),
    ensures
        deliveries(model, trace, message_id) == 0,
    decreases trace.len(),
{
    if trace.len() > 0 {
        let arrival = trace[0];
        let rest = trace.drop_first();
        let entry = SeenEntry { message_id, seen_at: since };
        let pred = live_at(arrival.at, model.ttl);
        let upto = model.entries.take(p + 1);
        let younger = model.entries.skip(p + 1);
        let kept = live(model, arrival.at);
        let q = upto.filter(pred).len() - 1;
        assert(kept == upto.filter(pred) + younger.filter(pred) && 0 <= q && kept[q] == entry
            && kept.len() - 1 - q <= model.entries.len() - 1 - p) by {
            assert(model.entries =~= upto + younger);
            reveal(Seq::filter);
        }
        let next = observed(model, arrival.message_id, arrival.at);
        if arrival.message_id == message_id || !is_fresh(model, arrival.message_id, arrival.at) {
            lemma_remembered_is_dropped(next, rest, message_id, since, q);
        } else if kept.len() >= model.capacity {
            lemma_remembered_is_dropped(next, rest, message_id, since, q - 1);
        } else {
            lemma_remembered_is_dropped(next, rest, message_id, since, q);
        }
    }
}

/// Exactly-once delivery: a message that reaches a node along several
/// paths is delivered once, by its first arrival, whatever other messages
/// come in between, provided that all its arrivals come within `ttl` of the
/// first and that the other messages are fewer than the set can remember.
pub proof fn lemma_delivered_once(model: SeenModel, trace: Seq<Arrival>, message_id: Uuid)
    requires
        trace.len() > 0,
        trace[0].message_id == message_id,
        is_fresh(model, message_id, trace[0].at),
        others(trace, message_id) < model.capacity,
        forall|k: int|
            0 <= k < trace.len() ==> !elapsed(trace[0].at, (#[trigger] trace[k]).at, model.ttl),
    ensures
        deliveries(model, trace, message_id) == 1,
{
    let first = trace[0];
    let rest = trace.drop_first();
    let next = observed(model, message_id, first.at);
    lemma_remembered_is_dropped(next, rest, message_id, first.at, next.entries.len() - 1);
}

/// A bounded memory of the messages already delivered, evicting by age and,
/// when full, oldest first.
pub struct SeenSet {
    entries: Vec<SeenEntry>,
    capacity: usize,
    ttl: u64,
}

impl View for SeenSet {
    type V = SeenModel;

    closed spec fn view(&self) -> SeenModel {
        SeenModel { entries: self.entries@, capacity: self.capacity as nat, ttl: self.ttl }
    }
}

impl SeenSet {
    /// The set never holds more than its capacity.
    pub open spec fn wf(&self) -> bool {
        self@.entries.len() <= self@.capacity
    }

    /// The empty set that remembers at most `capacity` messages, each for
    /// `ttl` ticks.
    pub fn new(capacity: usize, ttl: u64) -> (set: Self)
        ensures
            set.wf(),
            set@ == (SeenModel { entries: Seq::empty(), capacity: capacity as nat, ttl }),
    {
        SeenSet { entries: Vec::new(), capacity, ttl }
    }

    /// The number of messages remembered.
    pub fn len(&self) -> (n: usize)
        ensures
            n == self@.entries.len(),
    {
        self.entries.len()
    }

    /// Notes the arrival of a message at time `now`. Returns whether the
    /// message is new, that is, whether it is to be delivered.
    pub fn observe(&mut self, message_id: Uuid, now: u64) -> (fresh: bool)
        requires
            old(self).wf(),
        ensures
            final(self).wf(),
            final(self)@ == observed(old(self)@, message_id, now),
            fresh == is_fresh(old(self)@, message_id, now),
    {
        let ghost pred = live_at(now, self.ttl);
        let mut kept: Vec<SeenEntry> = Vec::new();
        let mut found = false;
        let mut i: usize = 0;
        while i < self.entries.len()
            invariant
                i <= self.entries@.len(),
                pred == live_at(now, self.ttl),
                kept@ == self.entries@.take(i as int).filter(pred),
                kept@.len() <= i,
                found == remembers(kept@, message_id),
            decreases self.entries@.len() - i,
        {
            let entry = self.entries[i];
            proof {
                reveal(Seq::filter);
                let upto = self.entries@.take(i + 1);
                assert(upto.drop_last() =~= self.entries@.take(i as int));
            }
            if !has_elapsed(entry.seen_at, now, self.ttl) {
                let ghost before = kept@;
                kept.push(entry);
                if entry.message_id == message_id {
                    found = true;
                    assert(kept@[kept@.len() - 1].message_id == message_id);
                } else {
                    assert(remembers(kept@, message_id) == remembers(before, message_id)) by {
                        if remembers(before, message_id) {
                            let k = choose|k: int|
                                0 <= k < before.len() && (#[trigger] before[k]).message_id
                                    == message_id;
                            assert(kept@[k].message_id == message_id);
                        }
                    }
                }
            }
            i += 1;
        }
        assert(self.entries@.take(i as int) =~= self.entries@);
        if !found && self.capacity > 0 {
            if kept.len() >= self.capacity {
                let _ = kept.remove(0);
            }
            kept.push(SeenEntry { message_id, seen_at: now });
        }
        self.entries = kept;
        !found
    }

    /// Whether a message arriving at time `now` would be new, without noting
    /// the arrival.
    pub fn would_deliver(&self, message_id: Uuid, now: u64) -> (fresh: bool)
        ensures
            fresh == is_fresh(self@, message_id, now),
    {
        let ghost pred = live_at(now, self.ttl);
        let ghost mut kept: Seq<SeenEntry> = Seq::empty();
        let mut found = false;
        let mut i: usize = 0;
        while i < self.entries.len()
            invariant
                i <= self.entries@.len(),
                pred == live_at(now, self.ttl),
                kept == self.entries@.take(i as int).filter(pred),
                found == remembers(kept, message_id),
            decreases self.entries@.len() - i,
        {
            let entry = self.entries[i];
            proof {
                reveal(Seq::filter);
                let upto = self.entries@.take(i + 1);
                assert(upto.drop_last() =~= self.entries@.take(i as int));
            }
            if !has_elapsed(entry.seen_at, now, self.ttl) {
                let ghost before = kept;
                proof {
                    kept = kept.push(entry);
                }
                if entry.message_id == message_id {
                    found = true;
                    assert(kept[kept.len() - 1].message_id == message_id);
                } else {
                    assert(remembers(kept, message_id) == remembers(before, message_id)) by {
                        if remembers(before, message_id) {
                            let k = choose|k: int|
                                0 <= k < before.len() && (#[trigger] before[k]).message_id
                                    == message_id;
                            assert(kept[k].message_id == message_id);
                        }
                    }
                }
            }
            i += 1;
        }
        assert(self.entries@.take(i as int) =~= self.entries@);
        !found
    }
}

} // verus!
