use entities::collection::{EntityCollection, SharedEntityCollection};
use entities::entity::Entity;
use entities::id::Id;

#[derive(Debug, Clone, PartialEq, Eq, PartialOrd, Ord)]
struct User {
    id: Id<User>,
    name: String,
}

impl User {
    fn new(id: u64, name: &str) -> User {
        User { id: Id::new(id), name: name.to_string() }
    }
}

impl Entity for User {
    fn spec_id(&self) -> u64 {
        self.id.value()
    }

    fn id(&self) -> Id<User> {
        self.id
    }
}

#[test]
fn insert_into_empty_then_get_returns_equal_entity() {
    let mut users = EntityCollection::<User>::default();
    let alice = User::new(1, "alice");
    assert_eq!(users.insert(alice.clone()), None);
    assert_eq!(users.get(&Id::new(1)), Some(&alice));
    assert!(users.has_key(&alice.id()));
}

#[test]
fn colliding_insert_replaces_and_returns_displaced() {
    let mut users = EntityCollection::<User>::default();
    let first = User::new(7, "first");
    let second = User::new(7, "second");
    assert_eq!(users.insert(first.clone()), None);
    assert_eq!(users.insert(second.clone()), Some(first));
    assert_eq!(users.get(&Id::new(7)), Some(&second));
}

#[test]
fn absent_identifier_is_absent_in_owning_collection() {
    let mut users = EntityCollection::<User>::default();
    users.insert(User::new(1, "alice"));
    let missing: Id<User> = Id::new(2);
    assert_eq!(users.get(&missing), None);
    assert!(users.get_mut(&missing).is_none());
    assert!(!users.has_key(&missing));
}

#[test]
fn get_mut_mutates_the_stored_entity() {
    let mut users = EntityCollection::<User>::default();
    users.insert(User::new(4, "before"));
    let key: Id<User> = Id::new(4);
    let entry = users.get_mut(&key).unwrap();
    entry.name = "after".to_string();
    assert_eq!(users.get(&key).unwrap().name, "after");
}

#[test]
fn shared_insert_returns_handle_of_stored_entity() {
    let mut users = SharedEntityCollection::<User>::default();
    let alice = User::new(1, "alice");
    let handle = users.insert(alice.clone()).expect("fresh identifier");
    assert_eq!(*handle.borrow(), alice);
    let again = users.get(&Id::new(1)).expect("stored");
    assert_eq!(*again.borrow(), alice);
}

#[test]
fn shared_insert_rejects_collision_and_keeps_first_entity() {
    let mut users = SharedEntityCollection::<User>::default();
    let first = User::new(3, "first");
    let second = User::new(3, "second");
    users.insert(first.clone()).expect("fresh identifier");
    let rejected = users.insert(second.clone());
    assert_eq!(rejected, Err(second));
    let handle = users.get(&Id::new(3)).expect("still stored");
    assert_eq!(*handle.borrow(), first);
}

#[test]
fn shared_handles_alias_one_entity() {
    let mut users = SharedEntityCollection::<User>::default();
    let handle = users.insert(User::new(5, "before")).expect("fresh identifier");
    users.get(&Id::new(5)).expect("stored").borrow_mut().name = "after".to_string();
    assert_eq!(handle.borrow().name, "after");
}

#[test]
fn absent_identifier_is_absent_in_shared_collection() {
    let mut users = SharedEntityCollection::<User>::default();
    users.insert(User::new(1, "alice")).expect("fresh identifier");
    let missing: Id<User> = Id::new(9);
    assert!(users.get(&missing).is_none());
    assert!(!users.has_key(&missing));
}
