//! Secondary indexes over derived keys: one mapping a key to a single
//! entity identifier, one mapping a key to a set of identifiers.
//!
//! Neither index validates that an identifier is stored in any collection,
//! and no collection updates any index: keeping an index fresh is entirely
//! the caller's responsibility.
//!
//! The contracts in this module promise something only when the key type's
//! ordering obeys the comparison model of the standard ordered maps
//! (`vstd::laws_cmp::obeys_cmp`), which holds of the integer types and of
//! tuples of them.

use core::marker::PhantomData;
use crate::collection::map_get_mut;
use crate::entity::Entity;
use crate::id::Id;
use std::collections::{BTreeMap, BTreeSet};
use vstd::laws_cmp::obeys_cmp;
use vstd::prelude::*;
use vstd::std_specs::btree::{increasing_seq, spec_btree_keys_iter};
use vstd::std_specs::cmp::OrdSpec;
use vstd::std_specs::iter::IteratorSpec;

verus! {

/// An ordered map from an arbitrary key to a single entity identifier:
/// lookup by a unique derived attribute.
///
/// Its view is the mapping from keys to identifiers. At most one
/// identifier is kept per key: inserting under a key that is already
/// present replaces the mapping and hands the displaced identifier back.
#[derive(Debug)]
pub struct UniqueIndex<K, T: Entity> {
    map: BTreeMap<K, Id<T>>,
}

impl<K, T: Entity> View for UniqueIndex<K, T> {
    type V = Map<K, Id<T>>;

    closed spec fn view(&self) -> Map<K, Id<T>> {
        self.map@
    }
}

impl<K, T: Entity> Default for UniqueIndex<K, T> {
    /// The empty index.
    fn default() -> (r: Self)
        ensures
            r@ == Map::<K, Id<T>>::empty(),
    {
        UniqueIndex { map: BTreeMap::new() }
    }
}

impl<K: Ord, T: Entity> UniqueIndex<K, T> {
    /// Maps the key to the identifier, unconditionally overwriting, and
    /// returns the identifier that previously occupied the key.
    pub fn insert(&mut self, key: K, id: Id<T>) -> (r: Option<Id<T>>)
        ensures
            obeys_cmp::<K>() ==> {
                &&& final(self)@ == old(self)@.insert(key, id)
                &&& r == if old(self)@.contains_key(key) {
                    Some(old(self)@[key])
                } else {
                    None::<Id<T>>
                }
            },
    {
        self.map.insert(key, id)
    }

    /// Looks the identifier mapped to the key up.
    pub fn get(&self, key: &K) -> (r: Option<Id<T>>)
        ensures
            obeys_cmp::<K>() ==> match r {
                Some(id) => self@.contains_key(*key) && id == self@[*key],
                None => !self@.contains_key(*key),
            },
    {
        match self.map.get(key) {
            Some(id) => Some(*id),
            None => None,
        }
    }

    /// Whether some identifier is mapped to the key.
    pub fn has_key(&self, key: &K) -> (r: bool)
        ensures
            obeys_cmp::<K>() ==> r == self@.contains_key(*key),
    {
        self.map.contains_key(key)
    }
}

/// Law: mapping a key to a first identifier and then to a second, the
/// second insertion displaces the first identifier — it is what that
/// insertion hands back — and a lookup afterwards finds the second.
pub proof fn lemma_unique_index_overwrite<K, T: Entity>(m: Map<K, Id<T>>, k: K, id1: Id<T>, id2: Id<
    T,
>)
    ensures
        ({
            let m1 = m.insert(k, id1);
            &&& m1.contains_key(k)
            &&& m1[k] == id1
            &&& m1.insert(k, id2)[k] == id2
        }),
{
}

/// Whether `ids` lists exactly the identifier values of `bucket`, in
/// strictly increasing identifier order and so without duplicates.
pub open spec fn is_ordered_ids_of<T>(ids: Seq<Id<T>>, bucket: Set<u64>) -> bool {
    &&& ids.len() == bucket.len()
    &&& forall|i: int, j: int| 0 <= i < j < ids.len() ==> ids[i]@ < ids[j]@
    &&& forall|i: int| 0 <= i < ids.len() ==> bucket.contains(#[trigger] ids[i]@)
    &&& forall|v: u64| #[trigger] bucket.contains(v) ==> exists|i: int|
        0 <= i < ids.len() && ids[i]@ == v
}

/// The ordering the standard ordered containers go by, as a spec value.
spec fn cmp_of<K: Ord>(a: K, b: K) -> core::cmp::Ordering {
    a.cmp_spec(&b)
}

/// Walks the bucket in its own order and wraps each identifier value,
/// yielding the bucket's contents in strictly increasing identifier
/// order.
fn collect_ids<T>(bucket: &BTreeSet<u64>) -> (ids: Vec<Id<T>>)
    ensures
        is_ordered_ids_of(ids@, bucket@),
{
    let mut ids: Vec<Id<T>> = Vec::new();
    proof {
        let ks = spec_btree_keys_iter(bucket).remaining();
        assert(ks.unref().to_set() == bucket@);
        assert(increasing_seq(ks));
        assert forall|i: int, j: int| 0 <= i < j < ks.len() implies *ks[i] < *ks[j] by {
            assert(cmp_of(ks[i], ks[j]) is Less);
        }
        assert forall|v: u64| bucket@.contains(v) implies exists|i: int|
            0 <= i < ks.len() && *ks[i] == v by {
            assert(ks.unref().contains(v));
            let i = choose|i: int| 0 <= i < ks.unref().len() && ks.unref()[i] == v;
            assert(*ks[i] == v);
        }
    }
    for value in it: bucket.iter()
        invariant
            ids@.len() == it.index(),
            it.seq() == spec_btree_keys_iter(bucket).remaining(),
            it.seq().len() == bucket@.len(),
            forall|i: int| 0 <= i < ids@.len() ==> ids@[i]@ == *(#[trigger] it.seq()[i]),
            forall|i: int, j: int| 0 <= i < j < it.seq().len() ==> *it.seq()[i] < *it.seq()[j],
            forall|v: u64| #[trigger] bucket@.contains(v) ==> exists|i: int|
                0 <= i < it.seq().len() && *it.seq()[i] == v,
            forall|i: int, j: int| 0 <= i < j < ids@.len() ==> ids@[i]@ < ids@[j]@,
            forall|i: int| 0 <= i < ids@.len() ==> bucket@.contains(#[trigger] ids@[i]@),
    {
        ids.push(Id::new(*value));
        proof {
            let n = ids@.len() as int;
            assert(ids@[n - 1]@ == *it.seq()[n - 1]);
            assert forall|i: int| 0 <= i < n implies bucket@.contains(#[trigger] ids@[i]@) by {
                assert(ids@[i]@ == *it.seq()[i]);
                assert(it.seq().unref()[i] == *it.seq()[i]);
                assert(it.seq().unref().contains(it.seq().unref()[i]));
                assert(it.seq().unref().to_set().contains(*it.seq()[i]));
            }
            assert forall|i: int, j: int| 0 <= i < j < n implies ids@[i]@ < ids@[j]@ by {
                assert(ids@[i]@ == *it.seq()[i]);
                assert(ids@[j]@ == *it.seq()[j]);
            }
        }
    }
    proof {
        assert(ids@.len() == bucket@.len());
        assert forall|v: u64| #[trigger] bucket@.contains(v) implies exists|i: int|
            0 <= i < ids@.len() && ids@[i]@ == v by {
        }
    }
    ids
}

/// An ordered map from an arbitrary key to a set of entity identifiers:
/// lookup of all entities matching a derived attribute.
///
/// Its view is the mapping from keys to sets of identifier values. A
/// key's bucket can only receive identifiers if the bucket is already in
/// the map: `insert` never creates a bucket, so every key must have been
/// seeded before identifiers can be added to it.
#[derive(Debug)]
pub struct ReverseIndex<K, T: Entity> {
    map: BTreeMap<K, BTreeSet<u64>>,
    owner: PhantomData<T>,
}

impl<K, T: Entity> View for ReverseIndex<K, T> {
    type V = Map<K, Set<u64>>;

    closed spec fn view(&self) -> Map<K, Set<u64>> {
        self.map@.map_values(|bucket: BTreeSet<u64>| bucket@)
    }
}

impl<K, T: Entity> Default for ReverseIndex<K, T> {
    /// The empty index.
    fn default() -> (r: Self)
        ensures
            r@ == Map::<K, Set<u64>>::empty(),
    {
        let r = ReverseIndex { map: BTreeMap::new(), owner: PhantomData };
        proof {
            assert(r@ =~= Map::<K, Set<u64>>::empty());
        }
        r
    }
}

impl<K: Ord, T: Entity> ReverseIndex<K, T> {
    /// Seeds an empty bucket for the key, so that identifiers can be
    /// added to it later. A bucket that is already in the map is left
    /// untouched, whatever it holds.
    pub fn seed_key(&mut self, key: K)
        ensures
            obeys_cmp::<K>() ==> {
                &&& old(self)@.contains_key(key) ==> final(self)@ == old(self)@
                &&& !old(self)@.contains_key(key) ==> final(self)@ == old(self)@.insert(
                    key,
                    Set::<u64>::empty(),
                )
            },
    {
        if !self.map.contains_key(&key) {
            self.map.insert(key, BTreeSet::new());
            proof {
                if obeys_cmp::<K>() {
                    assert(final(self)@ =~= old(self)@.insert(key, Set::<u64>::empty()));
                }
            }
        }
    }

    /// Adds the identifier to the key's bucket, if the key already has
    /// one: true means the identifier is newly added, false that it was
    /// already a member. If the key has no bucket, nothing changes and
    /// the result is false — indistinguishable, by the result alone, from
    /// an identifier that was already present.
    pub fn insert(&mut self, key: K, id: Id<T>) -> (r: bool)
        ensures
            obeys_cmp::<K>() ==> {
                &&& !old(self)@.contains_key(key) ==> r == false && final(self)@ == old(self)@
                &&& old(self)@.contains_key(key) ==> final(self)@ == old(self)@.insert(
                    key,
                    old(self)@[key].insert(id@),
                ) && r == !old(self)@[key].contains(id@)
            },
    {
        match map_get_mut(&mut self.map, &key) {
            Some(bucket) => {
                let newly_added = bucket.insert(id.value());
                proof {
                    if obeys_cmp::<K>() {
                        assert(final(self)@ =~= old(self)@.insert(key, old(self)@[key].insert(id@)));
                    }
                }
                newly_added
            },
            None => false,
        }
    }

    /// Returns the key's bucket as a sequence of identifiers in strictly
    /// increasing identifier order, or nothing if the key has no bucket.
    pub fn get_ids(&self, key: &K) -> (r: Option<Vec<Id<T>>>)
        ensures
            obeys_cmp::<K>() ==> match r {
                Some(ids) => self@.contains_key(*key) && is_ordered_ids_of(ids@, self@[*key]),
                None => !self@.contains_key(*key),
            },
    {
        match self.map.get(key) {
            None => None,
            Some(bucket) => Some(collect_ids(bucket)),
        }
    }

    /// Whether the key has a bucket, empty or not.
    pub fn has_key(&self, key: &K) -> (r: bool)
        ensures
            obeys_cmp::<K>() ==> r == self@.contains_key(*key),
    {
        self.map.contains_key(key)
    }
}

/// Law: with a bucket holding exactly one identifier, adding that
/// identifier again reports it as already present and changes nothing;
/// adding a distinct second identifier reports it as newly added; and the
/// bucket then reads back as the two identifiers in identifier order.
pub proof fn lemma_seeded_bucket_round<K, T: Entity>(
    m: Map<K, Set<u64>>,
    k: K,
    id1: Id<T>,
    id2: Id<T>,
    ids: Seq<Id<T>>,
)
    requires
        m.contains_key(k),
        m[k] == Set::<u64>::empty().insert(id1@),
        id1@ != id2@,
        is_ordered_ids_of(ids, m[k].insert(id1@).insert(id2@)),
    ensures
        m[k].contains(id1@),
        m.insert(k, m[k].insert(id1@)) == m,
        !m[k].contains(id2@),
        ids.len() == 2,
        ids[0]@ == if id1@ < id2@ {
            id1@
        } else {
            id2@
        },
        ids[1]@ == if id1@ < id2@ {
            id2@
        } else {
            id1@
        },
{
    assert(m[k].insert(id1@) =~= m[k]);
    assert(m.insert(k, m[k]) =~= m);
    let bucket = m[k].insert(id1@).insert(id2@);
    assert(bucket.len() == 2) by {
        assert(Set::<u64>::empty().insert(id1@).len() == 1);
    }
    assert(bucket.contains(id1@) && bucket.contains(id2@));
    let i1 = choose|i: int| 0 <= i < ids.len() && ids[i]@ == id1@;
    let i2 = choose|i: int| 0 <= i < ids.len() && ids[i]@ == id2@;
    assert(i1 != i2);
    assert(ids[0]@ == id1@ || ids[0]@ == id2@);
    assert(ids[1]@ == id1@ || ids[1]@ == id2@);
    assert(ids[0]@ < ids[1]@);
}

} // verus!
