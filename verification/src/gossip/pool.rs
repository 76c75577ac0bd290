//! Book-keeping of the connection pool: which peers have a connection, how
//! many activities hold it, and which connections have idled long enough to
//! be closed. The connections themselves belong to whoever drives the node.

use super::ident::ID;
use super::runtime::clock::{elapsed, has_elapsed};
use super::table::{keys_where, lemma_keys_where, IdMap};
use vstd::prelude::*;

verus! {

/// The use of one pooled connection.
#[derive(Clone, Copy, Debug, PartialEq, Eq, Structural)]
pub struct Lease {
    /// How many activities hold the connection.
    pub holders: u32,
    /// When it was last acquired or released.
    pub last_used: u64,
}

impl View for Lease {
    type V = Lease;

    open spec fn view(&self) -> Lease {
        *self
    }
}

/// The lease after one more activity took the connection at time `now`.
pub open spec fn taken(lease: Lease, now: u64) -> Lease {
    Lease {
        holders: if lease.holders < u32::MAX {
            (lease.holders + 1) as u32
        } else {
            lease.holders
        },
        last_used: now,
    }
}

/// The lease after one activity gave the connection back at time `now`.
pub open spec fn given_back(lease: Lease, now: u64) -> Lease {
    Lease {
        holders: if lease.holders > 0 {
            (lease.holders - 1) as u32
        } else {
            0
        },
        last_used: now,
    }
}

/// The leases after an activity asked for the connection to `id`.
pub open spec fn acquired(leases: Map<ID, Lease>, id: ID, now: u64) -> Map<ID, Lease> {
    if leases.contains_key(id) {
        leases.insert(id, taken(leases[id], now))
    } else {
        leases.insert(id, Lease { holders: 1, last_used: now })
    }
}

/// The leases after an activity gave the connection to `id` back.
pub open spec fn released(leases: Map<ID, Lease>, id: ID, now: u64) -> Map<ID, Lease> {
    if leases.contains_key(id) {
        leases.insert(id, given_back(leases[id], now))
    } else {
        leases
    }
}

/// Whether a connection may be closed at time `now`: nobody holds it and it
/// has not been used for the idle timeout.
pub open spec fn is_idle(lease: Lease, now: u64, idle_timeout: u64) -> bool {
    lease.holders == 0 && elapsed(lease.last_used, now, idle_timeout)
}

/// The test "may be closed at time `now`".
pub open spec fn idle_at(now: u64, idle_timeout: u64) -> spec_fn(Lease) -> bool {
    |lease: Lease| is_idle(lease, now, idle_timeout)
}

/// The leases that stay after an idle sweep at time `now`.
pub open spec fn swept(leases: Map<ID, Lease>, now: u64, idle_timeout: u64) -> Map<ID, Lease> {
    Map::new(
        |id: ID| leases.contains_key(id) && !is_idle(leases[id], now, idle_timeout),
        |id: ID| leases[id],
    )
}

/// A connection that is held is never swept, whatever its age.
pub proof fn lemma_held_is_kept(leases: Map<ID, Lease>, id: ID, now: u64, idle_timeout: u64)
    requires
        leases.contains_key(id),
        leases[id].holders > 0,
    ensures
        swept(leases, now, idle_timeout).contains_key(id),
        swept(leases, now, idle_timeout)[id] == leases[id],
{
}

/// The pool's book of leases, one per peer with a connection.
pub struct ConnectionPool {
    leases: IdMap<Lease>,
    idle_timeout: u64,
}

/// The pool's book as a mathematical value.
pub struct PoolModel {
    pub leases: Map<ID, Lease>,
    pub idle_timeout: u64,
}

impl View for ConnectionPool {
    type V = PoolModel;

    closed spec fn view(&self) -> PoolModel {
        PoolModel { leases: self.leases.model(), idle_timeout: self.idle_timeout }
    }
}

impl ConnectionPool {
    /// No peer has two leases.
    pub closed spec fn wf(&self) -> bool {
        self.leases.wf()
    }

    /// The peers with a connection, in the order in which they got it.
    pub closed spec fn ids(&self) -> Seq<ID> {
        self.leases.keys()
    }

    /// The leases, in the order of `ids`.
    pub closed spec fn leases(&self) -> Seq<Lease> {
        self.leases.values()
    }

    /// The empty pool.
    pub fn new(idle_timeout: u64) -> (pool: Self)
        ensures
            pool.wf(),
            pool@ == (PoolModel { leases: Map::empty(), idle_timeout }),
    {
        ConnectionPool { leases: IdMap::new(), idle_timeout }
    }

    /// Notes that an activity wants the connection to `id` at time `now`.
    /// Returns whether a connection is there to be reused; if not, the caller
    /// is to dial, and to `discard` the lease if the dial fails.
    pub fn acquire(&mut self, id: ID, now: u64) -> (reused: bool)
        requires
            old(self).wf(),
        ensures
            final(self).wf(),
            final(self)@ == (PoolModel { leases: acquired(old(self)@.leases, id, now), ..old(self)@ }),
            reused == old(self)@.leases.contains_key(id),
    {
        match self.leases.position(id) {
            Some(i) => {
                let lease = *self.leases.value_at(i);
                let holders = if lease.holders < u32::MAX {
                    lease.holders + 1
                } else {
                    lease.holders
                };
                self.leases.set_value_at(i, Lease { holders, last_used: now });
                true
            },
            None => {
                self.leases.push_new(id, Lease { holders: 1, last_used: now });
                false
            },
        }
    }

    /// Notes that an activity gave the connection to `id` back at time
    /// `now`.
    pub fn release(&mut self, id: ID, now: u64)
        requires
            old(self).wf(),
        ensures
            final(self).wf(),
            final(self)@ == (PoolModel { leases: released(old(self)@.leases, id, now), ..old(self)@ }),
    {
        match self.leases.position(id) {
            Some(i) => {
                let lease = *self.leases.value_at(i);
                let holders = if lease.holders > 0 {
                    lease.holders - 1
                } else {
                    0
                };
                self.leases.set_value_at(i, Lease { holders, last_used: now });
            },
            None => {},
        }
    }

    /// Forgets the connection to `id`: it failed to open, or it was closed
    /// after a protocol violation.
    pub fn discard(&mut self, id: ID)
        requires
            old(self).wf(),
        ensures
            final(self).wf(),
            final(self)@ == (PoolModel { leases: old(self)@.leases.remove(id), ..old(self)@ }),
    {
        match self.leases.position(id) {
            Some(i) => {
                let _ = self.leases.remove_at(i);
            },
            None => {},
        }
        assert(self@.leases =~= old(self)@.leases.remove(id));
    }

    /// Sweeps the pool at time `now`: forgets every connection that nobody
    /// holds and that has idled for the idle timeout, and returns their
    /// peers, for the caller to close them.
    pub fn sweep(&mut self, now: u64) -> (closed: Vec<ID>)
        requires
            old(self).wf(),
        ensures
            final(self).wf(),
            final(self)@ == (PoolModel {
                leases: swept(old(self)@.leases, now, old(self)@.idle_timeout),
                ..old(self)@
            }),
            closed@ == keys_where(
                old(self).ids(),
                old(self).leases(),
                idle_at(now, old(self)@.idle_timeout),
            ),
            forall|id: ID|
                #![trigger closed@.contains(id)]
                closed@.contains(id) <==> (old(self)@.leases.contains_key(id) && is_idle(
                    old(self)@.leases[id],
                    now,
                    old(self)@.idle_timeout,
                )),
    {
        let ghost model0 = self.leases.model();
        let ghost pred = idle_at(now, self.idle_timeout);
        let mut closed: Vec<ID> = Vec::new();
        let mut i: usize = 0;
        while i < self.leases.len()
            invariant
                i <= self.leases.keys().len(),
                self.leases.keys().len() == self.leases.values().len(),
                pred == idle_at(now, self.idle_timeout),
                closed@ == keys_where(
                    self.leases.keys().take(i as int),
                    self.leases.values().take(i as int),
                    pred,
                ),
            decreases self.leases.keys().len() - i,
        {
            let lease = *self.leases.value_at(i);
            proof {
                let keys1 = self.leases.keys().take(i + 1);
                let values1 = self.leases.values().take(i + 1);
                assert(keys1.drop_last() =~= self.leases.keys().take(i as int));
                assert(values1.drop_last() =~= self.leases.values().take(i as int));
            }
            if lease.holders == 0 && has_elapsed(lease.last_used, now, self.idle_timeout) {
                closed.push(self.leases.key_at(i));
            }
            i += 1;
        }
        proof {
            assert(self.leases.keys().take(i as int) =~= self.leases.keys());
            assert(self.leases.values().take(i as int) =~= self.leases.values());
            lemma_keys_where(self.leases.keys(), self.leases.values(), pred);
        }
        let mut j: usize = 0;
        while j < self.leases.len()
            invariant
                self.leases.wf(),
                self.idle_timeout == old(self).idle_timeout,
                model0 == old(self)@.leases,
                j <= self.leases.keys().len(),
                forall|id: ID|
                    #![trigger self.leases.model().contains_key(id)]
                    self.leases.model().contains_key(id) ==> model0.contains_key(id)
                        && self.leases.model()[id] == model0[id],
                forall|id: ID|
                    #![trigger model0.contains_key(id)]
                    model0.contains_key(id) && !is_idle(model0[id], now, self.idle_timeout)
                        ==> self.leases.model().contains_key(id),
                forall|k: int|
                    0 <= k < j ==> !is_idle(#[trigger] self.leases.values()[k], now, self.idle_timeout),
            decreases self.leases.keys().len() - j,
        {
            let lease = *self.leases.value_at(j);
            if lease.holders == 0 && has_elapsed(lease.last_used, now, self.idle_timeout) {
                let _ = self.leases.remove_at(j);
            } else {
                j += 1;
            }
        }
        assert(self@.leases =~= swept(old(self)@.leases, now, self.idle_timeout));
        closed
    }
}

} // verus!
