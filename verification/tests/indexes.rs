use entities::entity::Entity;
use entities::id::Id;
use entities::index::{ReverseIndex, UniqueIndex};

#[derive(Debug, PartialEq, Eq, PartialOrd, Ord)]
struct Item {
    id: Id<Item>,
}

impl Entity for Item {
    fn spec_id(&self) -> u64 {
        self.id.value()
    }

    fn id(&self) -> Id<Item> {
        self.id
    }
}

#[test]
fn unique_index_overwrites_and_returns_displaced() {
    let mut by_name = UniqueIndex::<String, Item>::default();
    let id1: Id<Item> = Id::new(1);
    let id2: Id<Item> = Id::new(2);
    assert_eq!(by_name.insert("widget".to_string(), id1), None);
    assert_eq!(by_name.insert("widget".to_string(), id2), Some(id1));
    assert_eq!(by_name.get(&"widget".to_string()), Some(id2));
}

#[test]
fn unique_index_absent_key_is_absent() {
    let mut by_name = UniqueIndex::<String, Item>::default();
    by_name.insert("widget".to_string(), Id::new(1));
    assert_eq!(by_name.get(&"gadget".to_string()), None);
    assert!(!by_name.has_key(&"gadget".to_string()));
}

#[test]
fn reverse_index_never_creates_a_bucket() {
    let mut by_tag = ReverseIndex::<u64, Item>::default();
    let id: Id<Item> = Id::new(1);
    assert!(!by_tag.insert(10, id));
    assert_eq!(by_tag.get_ids(&10), None);
    assert!(!by_tag.has_key(&10));
}

#[test]
fn reverse_index_seeded_bucket_accepts_and_orders() {
    let mut by_tag = ReverseIndex::<u64, Item>::default();
    let id1: Id<Item> = Id::new(1);
    let id2: Id<Item> = Id::new(2);
    by_tag.seed_key(10);
    assert!(by_tag.insert(10, id1));
    assert!(!by_tag.insert(10, id1));
    assert!(by_tag.insert(10, id2));
    assert_eq!(by_tag.get_ids(&10), Some(vec![id1, id2]));
}

#[test]
fn reverse_index_orders_by_identifier_not_by_insertion() {
    let mut by_tag = ReverseIndex::<u64, Item>::default();
    by_tag.seed_key(10);
    assert!(by_tag.insert(10, Id::new(5)));
    assert!(by_tag.insert(10, Id::new(2)));
    assert_eq!(by_tag.get_ids(&10), Some(vec![Id::new(2), Id::new(5)]));
}

#[test]
fn seeding_again_keeps_the_existing_bucket() {
    let mut by_tag = ReverseIndex::<u64, Item>::default();
    by_tag.seed_key(10);
    assert!(by_tag.insert(10, Id::new(3)));
    by_tag.seed_key(10);
    assert_eq!(by_tag.get_ids(&10), Some(vec![Id::new(3)]));
    assert!(by_tag.has_key(&10));
}

#[test]
fn seeded_empty_bucket_reads_back_empty() {
    let mut by_tag = ReverseIndex::<u64, Item>::default();
    by_tag.seed_key(10);
    assert!(by_tag.has_key(&10));
    assert_eq!(by_tag.get_ids(&10), Some(vec![]));
}
