use entities::entity::Entity;
use entities::id::Id;

#[derive(Debug, PartialEq, Eq, PartialOrd, Ord)]
struct User {
    id: Id<User>,
}

impl Entity for User {
    fn spec_id(&self) -> u64 {
        self.id.value()
    }

    fn id(&self) -> Id<User> {
        self.id
    }
}

#[test]
fn identifiers_are_made_from_values() {
    let from_new: Id<User> = Id::new(1);
    let from_into: Id<User> = 1u64.into();
    assert_eq!(from_new, from_into);
    assert_eq!(from_new.value(), 1);
}

#[test]
fn identifiers_compare_by_value() {
    let alice = User { id: 1.into() };
    let bob = User { id: 2.into() };
    assert_eq!(alice.id(), alice.id());
    assert_ne!(alice.id(), bob.id());
    assert!(alice.id() < bob.id());
}

#[test]
fn entities_with_derived_ordering_follow_their_identifiers() {
    let alice = User { id: 1.into() };
    let bob = User { id: 2.into() };
    assert_eq!(alice, alice);
    assert_ne!(alice, bob);
    assert!(alice < bob);
}
