//! A small insertion-ordered map keyed by node identity.
//!
//! Every piece of per-peer state in the gossip core (membership records,
//! digests, resolver candidates, trusted issuer keys) is such a map. It is
//! held as a vector of entries in which no identity occurs twice.

use super::ident::ID;
use vstd::prelude::*;

verus! {

/// The map that pairs `keys[i]` with `values[i]`.
pub open spec fn assoc<T>(keys: Seq<ID>, values: Seq<T>) -> Map<ID, T> {
    Map::new(|id: ID| keys.contains(id), |id: ID| values[keys.index_of(id)])
}

/// In a list without duplicates each key is paired with the value at its own
/// position.
pub proof fn lemma_assoc_at<T>(keys: Seq<ID>, values: Seq<T>, i: int)
    requires
        keys.no_duplicates(),
        0 <= i < keys.len(),
    ensures
        assoc(keys, values).contains_key(keys[i]),
        assoc(keys, values)[keys[i]] == values[i],
{
}

/// Appending a key that is new adds one pair to the map.
pub proof fn lemma_assoc_push<T>(keys: Seq<ID>, values: Seq<T>, id: ID, value: T)
    requires
        keys.no_duplicates(),
        keys.len() == values.len(),
        !keys.contains(id),
    ensures
        keys.push(id).no_duplicates(),
        assoc(keys.push(id), values.push(value)) == assoc(keys, values).insert(id, value),
{
    let keys2 = keys.push(id);
    let values2 = values.push(value);
    let lhs = assoc(keys2, values2);
    let rhs = assoc(keys, values).insert(id, value);
    assert forall|k: ID| lhs.contains_key(k) <==> rhs.contains_key(k) by {
        if keys.contains(k) {
            let i = keys.index_of(k);
            assert(keys2[i] == k);
        }
        if k == id {
            assert(keys2[keys.len() as int] == k);
        }
    }
}

/// Dropping one position drops that key's pair.
pub proof fn lemma_assoc_remove<T>(keys: Seq<ID>, values: Seq<T>, i: int)
    requires
        keys.no_duplicates(),
        keys.len() == values.len(),
        0 <= i < keys.len(),
    ensures
        keys.remove(i).no_duplicates(),
        !keys.remove(i).contains(keys[i]),
        assoc(keys.remove(i), values.remove(i)) == assoc(keys, values).remove(keys[i]),
{
    let keys2 = keys.remove(i);
    let values2 = values.remove(i);
    let lhs = assoc(keys2, values2);
    let rhs = assoc(keys, values).remove(keys[i]);
    assert forall|k: ID| lhs.contains_key(k) <==> rhs.contains_key(k) by {
        if keys.contains(k) && k != keys[i] {
            let j = keys.index_of(k);
            assert(keys2[if j < i { j } else { j - 1 }] == k);
        }
    }
}

/// The keys whose values satisfy `pred`, in their order.
pub open spec fn keys_where<T>(keys: Seq<ID>, values: Seq<T>, pred: spec_fn(T) -> bool) -> Seq<ID>
    decreases keys.len(),
{
    if keys.len() == 0 {
        Seq::empty()
    } else {
        let rest = keys_where(keys.drop_last(), values.drop_last(), pred);
        if pred(values.last()) {
            rest.push(keys.last())
        } else {
            rest
        }
    }
}

/// `keys_where` lists, once each, exactly the keys that the map pairs with a
/// value satisfying `pred`.
pub proof fn lemma_keys_where<T>(keys: Seq<ID>, values: Seq<T>, pred: spec_fn(T) -> bool)
    requires
        keys.no_duplicates(),
        keys.len() == values.len(),
    ensures
        keys_where(keys, values, pred).no_duplicates(),
        keys_where(keys, values, pred).len() <= keys.len(),
        forall|id: ID|
            keys_where(keys, values, pred).contains(id) <==> (assoc(keys, values).contains_key(id)
                && pred(assoc(keys, values)[id])),
    decreases keys.len(),
{
    let picked = keys_where(keys, values, pred);
    if keys.len() == 0 {
    } else {
        let keys1 = keys.drop_last();
        let values1 = values.drop_last();
        let rest = keys_where(keys1, values1, pred);
        let last = keys.last();
        lemma_keys_where(keys1, values1, pred);
        assert(!rest.contains(last));
        assert forall|id: ID| keys.contains(id) <==> (keys1.contains(id) || id == last) by {
            if keys.contains(id) {
                let i = keys.index_of(id);
                if i < keys1.len() {
                    assert(keys1[i] == id);
                }
            }
        }
        if pred(values.last()) {
            assert forall|id: ID| picked.contains(id) <==> (rest.contains(id) || id == last) by {
                if rest.contains(id) {
                    let i = rest.index_of(id);
                    assert(picked[i] == id);
                }
                if id == last {
                    assert(picked[picked.len() - 1] == id);
                }
            }
        }
    }
}

/// One pair of the map.
pub struct Entry<V> {
    id: ID,
    value: V,
}

/// An insertion-ordered map from node identity to `V`.
pub struct IdMap<V> {
    entries: Vec<Entry<V>>,
}

impl<V: View> IdMap<V> {
    /// The keys in insertion order.
    pub closed spec fn keys(&self) -> Seq<ID> {
        Seq::new(self.entries@.len(), |i: int| self.entries@[i].id)
    }

    /// The values, each by its view, in the order of their keys.
    pub closed spec fn values(&self) -> Seq<V::V> {
        Seq::new(self.entries@.len(), |i: int| self.entries@[i].value@)
    }

    /// No key occurs twice.
    pub open spec fn wf(&self) -> bool {
        &&& self.keys().no_duplicates()
        &&& self.keys().len() == self.values().len()
    }

    /// The map as a mathematical map.
    pub open spec fn model(&self) -> Map<ID, V::V> {
        assoc(self.keys(), self.values())
    }

    /// The empty map.
    pub fn new() -> (result: Self)
        ensures
            result.wf(),
            result.keys() == Seq::<ID>::empty(),
            result.values() == Seq::<V::V>::empty(),
            result.model() == Map::<ID, V::V>::empty(),
    {
        IdMap { entries: Vec::new() }
    }

    /// The number of pairs.
    pub fn len(&self) -> (n: usize)
        ensures
            n == self.keys().len(),
            n == self.values().len(),
    {
        self.entries.len()
    }

    /// The key at position `i`.
    pub fn key_at(&self, i: usize) -> (id: ID)
        requires
            i < self.keys().len(),
        ensures
            id == self.keys()[i as int],
    {
        self.entries[i].id
    }

    /// The value at position `i`.
    pub fn value_at(&self, i: usize) -> (value: &V)
        requires
            i < self.keys().len(),
        ensures
            value@ == self.values()[i as int],
    {
        &self.entries[i].value
    }

    /// The position of `id`, if the map holds it.
    pub fn position(&self, id: ID) -> (found: Option<usize>)
        ensures
            match found {
                Some(i) => i < self.keys().len() && self.keys()[i as int] == id,
                None => !self.keys().contains(id),
            },
    {
        let mut i: usize = 0;
        while i < self.entries.len()
            invariant
                i <= self.entries@.len(),
                forall|j: int| 0 <= j < i ==> self.entries@[j].id != id,
            decreases self.entries@.len() - i,
        {
            if self.entries[i].id == id {
                return Some(i);
            }
            i += 1;
        }
        None
    }

    /// Whether the map holds `id`.
    pub fn contains(&self, id: ID) -> (found: bool)
        ensures
            found == self.model().contains_key(id),
    {
        self.position(id).is_some()
    }

    /// The value paired with `id`, if any.
    pub fn get(&self, id: ID) -> (found: Option<&V>)
        requires
            self.wf(),
        ensures
            match found {
                Some(value) => self.model().contains_key(id) && self.model()[id] == value@,
                None => !self.model().contains_key(id),
            },
    {
        match self.position(id) {
            Some(i) => {
                Some(&self.entries[i].value)
            },
            None => None,
        }
    }

    /// Replaces the value at position `i`, keeping its key.
    pub(crate) fn set_value_at(&mut self, i: usize, value: V)
        requires
            old(self).wf(),
            i < old(self).keys().len(),
        ensures
            final(self).wf(),
            final(self).keys() == old(self).keys(),
            final(self).values() == old(self).values().update(i as int, value@),
            final(self).model() == old(self).model().insert(old(self).keys()[i as int], value@),
    {
        let id = self.entries[i].id;
        self.entries[i] = Entry { id, value };
        proof {
            assert(self.keys() =~= old(self).keys());
        }
    }

    /// Appends a pair whose key the map does not hold yet.
    pub(crate) fn push_new(&mut self, id: ID, value: V)
        requires
            old(self).wf(),
            !old(self).keys().contains(id),
        ensures
            final(self).wf(),
            final(self).keys() == old(self).keys().push(id),
            final(self).values() == old(self).values().push(value@),
            final(self).model() == old(self).model().insert(id, value@),
    {
        self.entries.push(Entry { id, value });
        proof {
            assert(self.keys() =~= old(self).keys().push(id));
            lemma_assoc_push(old(self).keys(), old(self).values(), id, value@);
        }
    }

    /// Pairs `id` with `value`, replacing what `id` was paired with.
    pub fn put(&mut self, id: ID, value: V)
        requires
            old(self).wf(),
        ensures
            final(self).wf(),
            final(self).model() == old(self).model().insert(id, value@),
            old(self).keys().contains(id) ==> final(self).keys() == old(self).keys(),
            !old(self).keys().contains(id) ==> final(self).keys() == old(self).keys().push(id),
    {
        match self.position(id) {
            Some(i) => self.set_value_at(i, value),
            None => self.push_new(id, value),
        }
    }

    /// Removes the pair at position `i` and hands back its value.
    pub(crate) fn remove_at(&mut self, i: usize) -> (value: V)
        requires
            old(self).wf(),
            i < old(self).keys().len(),
        ensures
            final(self).wf(),
            value@ == old(self).values()[i as int],
            final(self).keys() == old(self).keys().remove(i as int),
            final(self).values() == old(self).values().remove(i as int),
            final(self).model() == old(self).model().remove(old(self).keys()[i as int]),
    {
        let entry = self.entries.remove(i);
        proof {
            assert(self.keys() =~= old(self).keys().remove(i as int));
            lemma_assoc_remove(old(self).keys(), old(self).values(), i as int);
        }
        entry.value
    }
}

} // verus!
