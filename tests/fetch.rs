use hydra::direction::Order;
use hydra::fetch::{fetch, FetchQuery};
use vstd::seq::Seq;
use hydra::query::Record;

pub struct TestRecord {
    pub id: usize,
    pub value: String,
}

impl Record for TestRecord {
    type ID = usize;
    // The spec items below describe the record to the verifier; they are
    // never called when the tests run.
    fn spec_id(&self) -> usize {
        self.id
    }
    fn decodable(_bytes: Seq<u8>) -> bool {
        unreachable!()
    }
    fn decodes_to(_bytes: Seq<u8>, _record: Self) -> bool {
        unreachable!()
    }
    fn id(&self) -> &Self::ID {
        &self.id
    }
    fn decode(bytes: &[u8]) -> Option<Self> {
        let (id, value): (usize, String) = bincode::deserialize(bytes).ok()?;
        Some(TestRecord { id, value })
    }
}

fn test_tree() -> sled::Tree {
    let db = sled::Config::new()
        .temporary(true)
        .flush_every_ms(None)
        .open()
        .unwrap();
    db.open_tree("test").unwrap()
}

#[test]
fn fetch_test_fetch() {
    let tree = test_tree();

    // load the tree with records keyed 0..12
    for id in 0usize..12 {
        let value = format!("test value {}", id);
        // big-endian keys keep the numeric order
        tree.insert(&id.to_be_bytes(), bincode::serialize(&(id, value)).unwrap())
            .unwrap();
    }

    let query = FetchQuery::<usize>::new().limit(5);
    let result = fetch::<TestRecord, _>(&tree, query).unwrap();

    // ascending by default, so the first 5 are the oldest 5
    assert_eq!(result.items.len(), 5);
    assert_eq!(result.ids(), &[0, 1, 2, 3, 4]);
    assert!(result.more_records);

    let query = FetchQuery::<usize>::new()
        .cursor(4)
        .limit(5);
    let result = fetch::<TestRecord, _>(&tree, query).unwrap();
    assert_eq!(result.items.len(), 5);
    assert_eq!(result.ids(), &[5, 6, 7, 8, 9]);
    assert!(result.more_records);

    // a partial page
    let query = FetchQuery::<usize>::new()
        .cursor(9)
        .limit(5);
    let result = fetch::<TestRecord, _>(&tree, query).unwrap();
    assert_eq!(result.items.len(), 2);
    assert_eq!(result.ids(), &[10, 11]);
    assert!(!result.more_records);

    // back the other way
    let query = FetchQuery::<usize>::new()
        .cursor(10)
        .limit(5)
        .order(Order::Descending);
    let result = fetch::<TestRecord, _>(&tree, query).unwrap();
    assert_eq!(result.items.len(), 5);
    assert_eq!(result.ids(), &[9, 8, 7, 6, 5]);
    assert!(result.more_records);

    let query = FetchQuery::<usize>::new()
        .cursor(5)
        .limit(5)
        .order(Order::Descending);
    let result = fetch::<TestRecord, _>(&tree, query).unwrap();
    assert_eq!(result.items.len(), 5);
    assert_eq!(result.ids(), &[4, 3, 2, 1, 0]);
    assert!(!result.more_records);

    // the cursor is the first record
    let query = FetchQuery::<usize>::new()
        .cursor(0)
        .limit(5);
    let result = fetch::<TestRecord, _>(&tree, query).unwrap();
    assert_eq!(result.items.len(), 5);
    assert_eq!(result.ids(), &[1, 2, 3, 4, 5]);
    assert!(result.more_records);

    // the cursor is the first record, descending
    let query = FetchQuery::<usize>::new()
        .cursor(0)
        .limit(5)
        .order(Order::Descending);
    let result = fetch::<TestRecord, _>(&tree, query).unwrap();
    assert_eq!(result.items.len(), 0);
    assert!(!result.more_records);

    // the cursor is the last record, ascending
    let query = FetchQuery::<usize>::new()
        .cursor(11)
        .limit(5)
        .order(Order::Ascending);
    let result = fetch::<TestRecord, _>(&tree, query).unwrap();
    assert_eq!(result.items.len(), 0);
    assert!(!result.more_records);
}
