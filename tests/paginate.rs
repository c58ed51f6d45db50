use hydra::direction::Direction;
use hydra::key::Key;
use hydra::paginate::{
    fetch_paginated, paginate_scanned, reverse_entries, scan_plan, PaginatedCursor,
    PaginatedFetchRequest, PaginatedFetchResponse,
};
use hydra::query::{take_window, Record};
use vstd::seq::Seq;
use std::ops::Bound;

pub struct Entry {
    pub id: usize,
}

impl Record for Entry {
    type ID = usize;
    // The spec items below describe the record to the verifier; they are
    // never called when the tests run.
    fn spec_id(&self) -> usize {
        self.id
    }
    fn decodable(_bytes: Seq<u8>) -> bool {
        unreachable!()
    }
    fn decodes_to(_bytes: Seq<u8>, _record: Self) -> bool {
        unreachable!()
    }
    fn id(&self) -> &Self::ID {
        &self.id
    }
    fn decode(bytes: &[u8]) -> Option<Self> {
        let (id, _value): (usize, String) = bincode::deserialize(bytes).ok()?;
        Some(Entry { id })
    }
}

fn tree_with(n: usize) -> sled::Tree {
    let db = sled::Config::new()
        .temporary(true)
        .flush_every_ms(None)
        .open()
        .unwrap();
    let tree = db.open_tree("records").unwrap();
    for id in 0..n {
        let value = format!("record {}", id);
        tree.insert(id.as_bytes(), bincode::serialize(&(id, value)).unwrap())
            .unwrap();
    }
    tree
}

fn page(tree: &sled::Tree, direction: Direction, cursor: PaginatedCursor, limit: usize) -> PaginatedFetchResponse<Entry> {
    let request = PaginatedFetchRequest { cursor, limit, direction };
    fetch_paginated::<Entry>(tree, request).unwrap()
}

fn ids(resp: &PaginatedFetchResponse<Entry>) -> Vec<usize> {
    resp.items.iter().map(|it| it.item.id).collect()
}

fn key(id: usize) -> Vec<u8> {
    id.as_bytes()
}

#[test]
fn coverage_first_page_ascending() {
    let tree = tree_with(12);
    let resp = page(&tree, Direction::Ascending, PaginatedCursor::Start, 5);
    assert_eq!(ids(&resp), vec![0, 1, 2, 3, 4]);
    assert!(resp.has_more_after);
    assert!(!resp.has_more_before);
    assert_eq!(resp.limit, 5);
    assert_eq!(resp.items[0].key, key(0));
}

#[test]
fn coverage_limit_above_count() {
    let tree = tree_with(3);
    let resp = page(&tree, Direction::Ascending, PaginatedCursor::Start, 5);
    assert_eq!(ids(&resp), vec![0, 1, 2]);
    assert!(!resp.has_more_after);
    assert!(!resp.has_more_before);
}

#[test]
fn coverage_limit_equal_to_count() {
    let tree = tree_with(5);
    let resp = page(&tree, Direction::Ascending, PaginatedCursor::Start, 5);
    assert_eq!(ids(&resp), vec![0, 1, 2, 3, 4]);
    assert!(!resp.has_more_after);
}

#[test]
fn empty_store_gives_empty_page() {
    let tree = tree_with(0);
    let resp = page(&tree, Direction::Ascending, PaginatedCursor::Start, 5);
    assert!(resp.items.is_empty());
    assert!(!resp.has_more_after);
    assert!(!resp.has_more_before);
}

#[test]
fn forward_walk_ascending_visits_each_key_once() {
    let tree = tree_with(12);
    let mut seen = Vec::new();
    let mut cursor = PaginatedCursor::Start;
    let mut pages = 0;
    loop {
        let resp = page(&tree, Direction::Ascending, cursor, 5);
        pages += 1;
        seen.extend(ids(&resp));
        if !resp.has_more_after {
            break;
        }
        cursor = PaginatedCursor::After(resp.items.last().unwrap().key.clone());
    }
    assert_eq!(pages, 3);
    assert_eq!(seen, (0..12).collect::<Vec<usize>>());
}

#[test]
fn forward_walk_descending_from_a_key() {
    let tree = tree_with(12);
    let mut seen = Vec::new();
    let mut cursor = PaginatedCursor::After(key(12));
    loop {
        let resp = page(&tree, Direction::Descending, cursor, 5);
        seen.extend(ids(&resp));
        if !resp.has_more_after {
            break;
        }
        cursor = PaginatedCursor::After(resp.items.last().unwrap().key.clone());
    }
    assert_eq!(seen, (0..12).rev().collect::<Vec<usize>>());
}

#[test]
fn before_mirrors_after_in_opposite_order() {
    let tree = tree_with(12);
    let before = page(&tree, Direction::Ascending, PaginatedCursor::Before(key(5)), 3);
    let after = page(&tree, Direction::Descending, PaginatedCursor::After(key(5)), 3);
    assert_eq!(ids(&before), vec![2, 3, 4]);
    assert_eq!(ids(&after), vec![4, 3, 2]);
    assert!(before.has_more_before);
    assert!(before.has_more_after);
    assert_eq!(before.has_more_before, after.has_more_after);
    assert_eq!(before.has_more_after, after.has_more_before);
}

#[test]
fn before_in_descending_display_walks_up() {
    let tree = tree_with(12);
    let resp = page(&tree, Direction::Descending, PaginatedCursor::Before(key(5)), 3);
    assert_eq!(ids(&resp), vec![8, 7, 6]);
    assert!(resp.has_more_before);
    assert!(resp.has_more_after);
    let resp = page(&tree, Direction::Descending, PaginatedCursor::Before(key(8)), 5);
    assert_eq!(ids(&resp), vec![11, 10, 9]);
    assert!(!resp.has_more_before);
    assert!(resp.has_more_after);
}

#[test]
fn scenario_pages_through_twelve_keys() {
    let tree = tree_with(12);
    let resp = page(&tree, Direction::Ascending, PaginatedCursor::Start, 5);
    assert_eq!(ids(&resp), vec![0, 1, 2, 3, 4]);
    assert!(resp.has_more_after);
    let resp = page(&tree, Direction::Ascending, PaginatedCursor::After(key(4)), 5);
    assert_eq!(ids(&resp), vec![5, 6, 7, 8, 9]);
    assert!(resp.has_more_after);
    assert!(resp.has_more_before);
    let resp = page(&tree, Direction::Ascending, PaginatedCursor::After(key(9)), 5);
    assert_eq!(ids(&resp), vec![10, 11]);
    assert!(!resp.has_more_after);
    let resp = page(&tree, Direction::Descending, PaginatedCursor::After(key(10)), 5);
    assert_eq!(ids(&resp), vec![9, 8, 7, 6, 5]);
    assert!(resp.has_more_after);
    let resp = page(&tree, Direction::Descending, PaginatedCursor::After(key(5)), 5);
    assert_eq!(ids(&resp), vec![4, 3, 2, 1, 0]);
    assert!(!resp.has_more_after);
}

#[test]
fn boundary_at_first_and_last_key() {
    let tree = tree_with(12);
    let resp = page(&tree, Direction::Descending, PaginatedCursor::After(key(0)), 5);
    assert!(resp.items.is_empty());
    assert!(!resp.has_more_after);
    assert!(resp.has_more_before);
    let resp = page(&tree, Direction::Ascending, PaginatedCursor::After(key(11)), 5);
    assert!(resp.items.is_empty());
    assert!(!resp.has_more_after);
    assert!(resp.has_more_before);
}

#[test]
fn start_descending_reports_overflow_before() {
    let tree = tree_with(12);
    let resp = page(&tree, Direction::Descending, PaginatedCursor::Start, 5);
    assert_eq!(ids(&resp), vec![11, 10, 9, 8, 7]);
    assert!(resp.has_more_before);
    assert!(!resp.has_more_after);
}

#[test]
fn reserved_cursors_start_at_the_extremity() {
    let tree = tree_with(12);
    let resp = page(&tree, Direction::Ascending, PaginatedCursor::StartingWith(key(6)), 3);
    assert_eq!(ids(&resp), vec![0, 1, 2]);
    let resp = page(&tree, Direction::Ascending, PaginatedCursor::EndingWith(key(6)), 3);
    assert_eq!(ids(&resp), vec![0, 1, 2]);
}

#[test]
fn undecodable_record_fails_the_page() {
    let tree = tree_with(3);
    tree.insert(3usize.as_bytes(), vec![7u8]).unwrap();
    let request = PaginatedFetchRequest {
        cursor: PaginatedCursor::Start,
        limit: 10,
        direction: Direction::Ascending,
    };
    let result = fetch_paginated::<Entry>(&tree, request);
    assert!(matches!(result, Err(hydra::store::FetchError::Decode)));
}

fn raw(ids: &[u8]) -> Vec<(Vec<u8>, u8)> {
    ids.iter().map(|i| (vec![*i], *i)).collect()
}

#[test]
fn paginate_scanned_reverses_a_before_page() {
    let resp = paginate_scanned(Direction::Ascending, &PaginatedCursor::Before(vec![9]), 2, raw(&[8, 7, 6]));
    let got: Vec<(Vec<u8>, u8)> = resp.items.into_iter().map(|it| (it.key, it.item)).collect();
    assert_eq!(got, vec![(vec![7], 7), (vec![8], 8)]);
    assert!(resp.has_more_before);
    assert!(resp.has_more_after);
    assert_eq!(resp.limit, 2);
}

#[test]
fn paginate_scanned_after_page_without_overflow() {
    let resp = paginate_scanned(Direction::Ascending, &PaginatedCursor::After(vec![1]), 3, raw(&[2, 3]));
    let got: Vec<u8> = resp.items.iter().map(|it| it.item).collect();
    assert_eq!(got, vec![2, 3]);
    assert!(resp.has_more_before);
    assert!(!resp.has_more_after);
}

#[test]
fn scan_plan_follows_the_rule_table() {
    let k = vec![4u8];
    let (d, b) = scan_plan(Direction::Ascending, &PaginatedCursor::Start);
    assert_eq!(d, Direction::Ascending);
    assert_eq!(b, Bound::Unbounded);
    let (d, b) = scan_plan(Direction::Descending, &PaginatedCursor::Start);
    assert_eq!(d, Direction::Descending);
    assert_eq!(b, Bound::Unbounded);
    let (d, b) = scan_plan(Direction::Ascending, &PaginatedCursor::Before(k.clone()));
    assert_eq!(d, Direction::Descending);
    assert_eq!(b, Bound::Excluded(k.clone()));
    let (d, b) = scan_plan(Direction::Descending, &PaginatedCursor::Before(k.clone()));
    assert_eq!(d, Direction::Ascending);
    assert_eq!(b, Bound::Excluded(k.clone()));
    let (d, b) = scan_plan(Direction::Ascending, &PaginatedCursor::After(k.clone()));
    assert_eq!(d, Direction::Ascending);
    assert_eq!(b, Bound::Excluded(k.clone()));
    let (d, b) = scan_plan(Direction::Descending, &PaginatedCursor::After(k.clone()));
    assert_eq!(d, Direction::Descending);
    assert_eq!(b, Bound::Excluded(k));
}

#[test]
fn window_and_reverse_on_values() {
    let (kept, more) = take_window(raw(&[1, 2, 3, 4]), 3);
    assert_eq!(kept, raw(&[1, 2, 3]));
    assert!(more);
    let (kept, more) = take_window(raw(&[1, 2]), 2);
    assert_eq!(kept, raw(&[1, 2]));
    assert!(!more);
    assert_eq!(reverse_entries(raw(&[1, 2, 3])), raw(&[3, 2, 1]));
    assert_eq!(reverse_entries(raw(&[])), raw(&[]));
}

#[test]
fn store_errors_pass_through_unchanged() {
    let err = sled::Error::Unsupported(String::from("closed"));
    match hydra::store::store_result(Err(err)) {
        Err(hydra::store::FetchError::StoreIo(sled::Error::Unsupported(m))) => assert_eq!(m, "closed"),
        _ => panic!("expected the store error"),
    }
    let found = vec![(vec![1u8], vec![2u8])];
    assert_eq!(hydra::store::store_result(Ok(found.clone())).unwrap(), found);
}

#[test]
fn page_items_are_decoded_stored_values() {
    let tree = tree_with(4);
    let resp = page(&tree, Direction::Descending, PaginatedCursor::After(key(3)), 2);
    let got: Vec<(Vec<u8>, usize)> = resp.items.iter().map(|it| (it.key.clone(), it.item.id)).collect();
    assert_eq!(got, vec![(key(2), 2), (key(1), 1)]);
}

#[test]
fn direction_inverse() {
    assert_eq!(Direction::Ascending.inverse(), Direction::Descending);
    assert_eq!(Direction::Descending.inverse(), Direction::Ascending);
}
