//! Owning and shared collections of entities, keyed by their identifiers.

use core::cell::RefCell;
use crate::entity::Entity;
use crate::id::Id;
use std::collections::BTreeMap;
use std::rc::Rc;
use vstd::prelude::*;

verus! {

/// A shared, interior-mutable handle to an entity: any number of owners in
/// one thread, with exclusive mutable access checked at runtime.
pub type EntityRef<T> = Rc<RefCell<T>>;

/// The runtime-borrow-checked cell behind a shared handle. Verified code
/// treats the cell as opaque: it creates cells and passes handles around,
/// and only callers read or mutate what is inside.
#[verifier::external_type_specification]
#[verifier::external_body]
#[verifier::reject_recursive_types(T)]
pub struct ExRefCell<T: ?Sized>(RefCell<T>);

/// Relies on `RefCell::new`: wraps the value in a fresh cell. What the
/// cell holds afterwards is beyond the contracts here, since any clone of
/// a handle to it may later mutate it in place.
pub assume_specification<T>[ RefCell::<T>::new ](value: T) -> RefCell<T>;

/// Relies on `Rc::clone`: the clone is one more owner of the very same
/// allocation, so both handles are the same value.
#[verifier::external_body]
fn clone_handle<T>(this: &EntityRef<T>) -> (r: EntityRef<T>)
    ensures
        r == *this,
{
    this.clone()
}

/// Relies on `BTreeMap::get_mut`: a mutable borrow of the value stored
/// under the key, leaving the rest of the map as it was. As with the
/// other map operations, this says something only when the key type obeys
/// the comparison model.
#[verifier::external_body]
pub(crate) fn map_get_mut<'a, K: Ord, V>(map: &'a mut BTreeMap<K, V>, key: &K) -> (r: Option<
    &'a mut V,
>)
    ensures
        vstd::laws_cmp::obeys_cmp::<K>() ==> {
            &&& old(map)@.contains_key(*key) ==> r is Some && *r.unwrap() == old(map)@[*key]
                && final(map)@ == old(map)@.insert(*key, *final(r.unwrap()))
            &&& !old(map)@.contains_key(*key) ==> r is None && final(map)@ == old(map)@
        },
{
    map.get_mut(key)
}

/// An owning, ordered map from identifier to entity. The sole owner of the
/// entities stored in it.
///
/// Its view is the mapping from underlying identifier values to entities.
/// At most one entity is stored per identifier: inserting under an
/// identifier that is already present replaces the prior entity and hands
/// it back to the caller. No operation removes an entity.
#[derive(Debug)]
pub struct EntityCollection<T: Entity> {
    map: BTreeMap<u64, T>,
}

impl<T: Entity> View for EntityCollection<T> {
    type V = Map<u64, T>;

    closed spec fn view(&self) -> Map<u64, T> {
        self.map@
    }
}

impl<T: Entity> Default for EntityCollection<T> {
    /// The empty collection.
    fn default() -> (r: Self)
        ensures
            r@ == Map::<u64, T>::empty(),
    {
        EntityCollection { map: BTreeMap::new() }
    }
}

impl<T: Entity> EntityCollection<T> {
    /// Inserts the entity under its own identifier, returning whatever
    /// entity previously occupied that identifier. Never fails.
    pub fn insert(&mut self, e: T) -> (r: Option<T>)
        ensures
            final(self)@ == old(self)@.insert(e.spec_id(), e),
            r == if old(self)@.contains_key(e.spec_id()) {
                Some(old(self)@[e.spec_id()])
            } else {
                None::<T>
            },
    {
        let id = e.id();
        self.map.insert(id.value(), e)
    }

    /// Looks the entity up, returning a read-only reference if one is
    /// stored under the identifier.
    pub fn get(&self, id: &Id<T>) -> (r: Option<&T>)
        ensures
            match r {
                Some(e) => self@.contains_key(id@) && *e == self@[id@],
                None => !self@.contains_key(id@),
            },
    {
        self.map.get(&id.value())
    }

    /// Looks the entity up, returning an exclusive mutable reference if one
    /// is stored under the identifier. The caller may mutate the entity
    /// freely, but is responsible for not changing what identifier it
    /// reports: the collection is not re-keyed by such a mutation.
    pub fn get_mut(&mut self, id: &Id<T>) -> (r: Option<&mut T>)
        ensures
            old(self)@.contains_key(id@) ==> r is Some && *r.unwrap() == old(self)@[id@]
                && final(self)@ == old(self)@.insert(id@, *final(r.unwrap())),
            !old(self)@.contains_key(id@) ==> r is None && final(self)@ == old(self)@,
    {
        let key = id.value();
        map_get_mut(&mut self.map, &key)
    }

    /// Whether some entity is stored under the identifier.
    pub fn has_key(&self, id: &Id<T>) -> (r: bool)
        ensures
            r == self@.contains_key(id@),
    {
        self.map.contains_key(&id.value())
    }
}

/// Law: an entity inserted into the empty collection is found again,
/// unchanged, under its own identifier.
pub proof fn lemma_insert_into_empty_then_get<T: Entity>(e: T)
    ensures
        Map::<u64, T>::empty().insert(e.spec_id(), e).contains_key(e.spec_id()),
        Map::<u64, T>::empty().insert(e.spec_id(), e)[e.spec_id()] == e,
{
}

/// Law: inserting two entities with the same identifier, the second
/// insertion displaces the first entity — it is what that insertion hands
/// back — and a lookup afterwards finds the second entity.
pub proof fn lemma_colliding_insert_replaces<T: Entity>(m: Map<u64, T>, e1: T, e2: T)
    requires
        e1.spec_id() == e2.spec_id(),
    ensures
        ({
            let m1 = m.insert(e1.spec_id(), e1);
            &&& m1.contains_key(e2.spec_id())
            &&& m1[e2.spec_id()] == e1
            &&& m1.insert(e2.spec_id(), e2)[e2.spec_id()] == e2
        }),
{
}

/// Law: a key never inserted stays absent, whatever is inserted under
/// other keys. Every container here states its lookups over a map view of
/// this shape, and its `get`, `get_mut` and `has_key` report exactly the
/// keys of that view, so a lookup under such a key reports it absent.
pub proof fn lemma_insert_elsewhere_keeps_absent<K, V>(m: Map<K, V>, k1: K, v: V, k: K)
    requires
        k != k1,
        !m.contains_key(k),
    ensures
        !m.insert(k1, v).contains_key(k),
{
}

/// An ordered map from identifier to a shared, runtime-borrow-checked
/// handle to an entity, so that several collaborators can hold and mutate
/// the same entity without going through the collection.
///
/// Its view is the mapping from underlying identifier values to handles.
/// Insertion never silently replaces: a colliding identifier makes the
/// insertion fail and hands the caller's entity back unmodified, leaving
/// the stored handle untouched.
#[derive(Debug)]
#[verifier::reject_recursive_types(T)]
pub struct SharedEntityCollection<T: Entity> {
    map: BTreeMap<u64, EntityRef<T>>,
}

impl<T: Entity> View for SharedEntityCollection<T> {
    type V = Map<u64, EntityRef<T>>;

    closed spec fn view(&self) -> Map<u64, EntityRef<T>> {
        self.map@
    }
}

impl<T: Entity> Default for SharedEntityCollection<T> {
    /// The empty collection.
    fn default() -> (r: Self)
        ensures
            r@ == Map::<u64, EntityRef<T>>::empty(),
    {
        SharedEntityCollection { map: BTreeMap::new() }
    }
}

impl<T: Entity> SharedEntityCollection<T> {
    /// Inserts the entity under its own identifier. If the identifier is
    /// free, the entity is wrapped in a fresh shared handle, the handle is
    /// stored, and one more owner of that same handle is returned. If the
    /// identifier is already taken, the stored handle is left untouched
    /// and the caller's entity comes back unmodified as the error payload.
    ///
    /// The defensive re-extraction the collision policy would otherwise
    /// call for — reclaiming sole ownership of a handle that was stored
    /// and must be handed back — is proven unreachable here: the key was
    /// checked free just before the handle went in.
    pub fn insert(&mut self, e: T) -> (r: Result<EntityRef<T>, T>)
        ensures
            old(self)@.contains_key(e.spec_id()) ==> r == Result::<EntityRef<T>, T>::Err(e)
                && final(self)@ == old(self)@,
            !old(self)@.contains_key(e.spec_id()) ==> match r {
                Ok(handle) => final(self)@ == old(self)@.insert(e.spec_id(), handle),
                Err(_) => false,
            },
    {
        let id = e.id();
        let key = id.value();
        if self.map.contains_key(&key) {
            return Err(e);
        }

        let entity_ref: EntityRef<T> = Rc::new(RefCell::new(e));
        match self.map.insert(key, clone_handle(&entity_ref)) {
            None => Ok(entity_ref),
            Some(_) => vstd::pervasive::unreached(),
        }
    }

    /// Looks the entity up, returning one more owner of the stored handle
    /// if one is stored under the identifier.
    pub fn get(&self, id: &Id<T>) -> (r: Option<EntityRef<T>>)
        ensures
            match r {
                Some(handle) => self@.contains_key(id@) && handle == self@[id@],
                None => !self@.contains_key(id@),
            },
    {
        match self.map.get(&id.value()) {
            Some(entity_ref) => Some(clone_handle(entity_ref)),
            None => None,
        }
    }

    /// Whether some entity is stored under the identifier.
    pub fn has_key(&self, id: &Id<T>) -> (r: bool)
        ensures
            r == self@.contains_key(id@),
    {
        self.map.contains_key(&id.value())
    }
}

/// Law: once a first insertion has stored a handle under an identifier, a
/// second insertion under the same identifier is rejected — it hands the
/// caller's entity back and changes nothing — so lookup still yields the
/// handle the first insertion stored.
pub proof fn lemma_colliding_insert_rejected<T: Entity>(
    m: Map<u64, EntityRef<T>>,
    e1: T,
    e2: T,
    h: EntityRef<T>,
)
    requires
        e1.spec_id() == e2.spec_id(),
        !m.contains_key(e1.spec_id()),
    ensures
        ({
            let m1 = m.insert(e1.spec_id(), h);
            &&& m1.contains_key(e2.spec_id())
            &&& m1[e2.spec_id()] == h
        }),
{
}

} // verus!
