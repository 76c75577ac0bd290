//! Choosing the peers of a round: a few distinct peers out of a list, by
//! numbers drawn elsewhere.

use crate::gossip::ident::ID;
use vstd::prelude::*;

verus! {

/// The list without `who`.
pub open spec fn excluding(ids: Seq<ID>, who: ID) -> Seq<ID> {
    if ids.contains(who) {
        ids.remove(ids.index_of(who))
    } else {
        ids
    }
}

/// The position that the next draw selects in a pool of `size` peers: the
/// first number drawn, reduced modulo the size; the first position when the
/// draws have run out.
pub open spec fn drawn(size: nat, draws: Seq<u64>) -> int {
    if draws.len() > 0 {
        (draws[0] as int) % (size as int)
    } else {
        0
    }
}

/// The draws left after one was used.
pub open spec fn spent(draws: Seq<u64>) -> Seq<u64> {
    if draws.len() > 0 {
        draws.drop_first()
    } else {
        draws
    }
}

/// Up to `k` peers chosen from `pool` without repetition: each draw takes
/// one peer out of the pool.
pub open spec fn pick(pool: Seq<ID>, k: nat, draws: Seq<u64>) -> Seq<ID>
    decreases k,
{
    if k == 0 || pool.len() == 0 {
        Seq::empty()
    } else {
        let j = drawn(pool.len(), draws);
        seq![pool[j]] + pick(pool.remove(j), (k - 1) as nat, spent(draws))
    }
}

/// Removing one position of a list without duplicates leaves a list
/// without duplicates that lacks the element removed and keeps the others.
pub proof fn lemma_remove_distinct(ids: Seq<ID>, i: int)
    requires
        ids.no_duplicates(),
        0 <= i < ids.len(),
    ensures
        ids.remove(i).no_duplicates(),
        ids.remove(i).len() == ids.len() - 1,
        !ids.remove(i).contains(ids[i]),
        forall|id: ID| ids.remove(i).contains(id) <==> (ids.contains(id) && id != ids[i]),
{
    let rest = ids.remove(i);
    assert forall|id: ID| rest.contains(id) <==> (ids.contains(id) && id != ids[i]) by {
        if ids.contains(id) && id != ids[i] {
            let k = ids.index_of(id);
            assert(rest[if k < i { k } else { k - 1 }] == id);
        }
    }
}

/// What `excluding` leaves.
pub proof fn lemma_excluding(ids: Seq<ID>, who: ID)
    requires
        ids.no_duplicates(),
    ensures
        excluding(ids, who).no_duplicates(),
        forall|id: ID| excluding(ids, who).contains(id) <==> (ids.contains(id) && id != who),
{
    if ids.contains(who) {
        lemma_remove_distinct(ids, ids.index_of(who));
    }
}

/// The peers picked are distinct members of the pool, and as many as asked
/// for unless the pool has fewer.
pub proof fn lemma_pick(pool: Seq<ID>, k: nat, draws: Seq<u64>)
    requires
        pool.no_duplicates(),
    ensures
        pick(pool, k, draws).no_duplicates(),
        pick(pool, k, draws).len() == if k <= pool.len() {
            k
        } else {
            pool.len()
        },
        forall|id: ID| pick(pool, k, draws).contains(id) ==> pool.contains(id),
    decreases k,
{
    if !(k == 0 || pool.len() == 0) {
        let j = drawn(pool.len(), draws);
        let rest = pool.remove(j);
        lemma_remove_distinct(pool, j);
        lemma_pick(rest, (k - 1) as nat, spent(draws));
    }
}

/// The list without `who`.
pub(crate) fn without_id(ids: Vec<ID>, who: ID) -> (rest: Vec<ID>)
    requires
        ids@.no_duplicates(),
    ensures
        rest@ == excluding(ids@, who),
{
    let mut rest = ids;
    let mut i: usize = 0;
    while i < rest.len()
        invariant
            i <= rest@.len(),
            rest@ == ids@,
            ids@.no_duplicates(),
            forall|j: int| 0 <= j < i ==> ids@[j] != who,
        decreases rest@.len() - i,
    {
        if rest[i] == who {
            let _ = rest.remove(i);
            return rest;
        }
        i += 1;
    }
    rest
}

/// Chooses up to `k` distinct peers from `pool` by the numbers in `draws`.
pub fn choose_peers(pool: Vec<ID>, k: usize, draws: &Vec<u64>) -> (chosen: Vec<ID>)
    ensures
        chosen@ == pick(pool@, k as nat, draws@),
{
    let ghost pool0 = pool@;
    let mut pool = pool;
    let mut chosen: Vec<ID> = Vec::new();
    let mut used: usize = 0;
    assert(draws@.skip(0) =~= draws@);
    while chosen.len() < k && pool.len() > 0
        invariant
            used <= draws@.len(),
            chosen@.len() <= k,
            chosen@ + pick(pool@, (k - chosen@.len()) as nat, draws@.skip(used as int)) == pick(
                pool0,
                k as nat,
                draws@,
            ),
        decreases pool@.len(),
    {
        let ghost left = draws@.skip(used as int);
        let j: usize = if used < draws.len() {
            (draws[used] % (pool.len() as u64)) as usize
        } else {
            0
        };
        if used < draws.len() {
            used += 1;
        }
        assert(draws@.skip(used as int) =~= spent(left));
        let id = pool.remove(j);
        chosen.push(id);
    }
    chosen
}

} // verus!
