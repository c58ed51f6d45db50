use vstd::prelude::*;
use std::ops::Bound;
use crate::direction::Direction;
use crate::model::{beyond, entries, entry_keys, is_scan_outcome, ordered, precedes};

verus! {

#[verifier::external_type_specification]
#[verifier::reject_recursive_types(T)]
pub struct ExBound<T>(Bound<T>);

#[verifier::external_type_specification]
#[verifier::external_body]
pub struct ExTree(sled::Tree);

#[verifier::external_type_specification]
#[verifier::external_body]
pub struct ExSledError(sled::Error);

/// Why a fetch failed. No partial page is ever returned.
#[derive(Debug)]
pub enum FetchError {
    /// The store failed while it was read; its error is passed on unchanged.
    StoreIo(sled::Error),
    /// A stored value could not be decoded into a record.
    Decode,
    /// A cursor's bytes are not the encoding of a key.
    InvalidCursor,
}

/// Whether key `k` may be yielded by a walk in direction `d` that starts at
/// `bound`.
pub open spec fn admits(bound: Bound<Vec<u8>>, d: Direction, k: Seq<u8>) -> bool {
    match bound {
        Bound::Unbounded => true,
        Bound::Excluded(c) => precedes(c@, k, d),
        Bound::Included(c) => c@ == k || precedes(c@, k, d),
    }
}

/// The key that a starting bound excludes, where it is not inclusive.
pub open spec fn exclusion_of(bound: Bound<Vec<u8>>) -> Option<Seq<u8>> {
    match bound {
        Bound::Excluded(c) => Option::Some(c@),
        _ => Option::None,
    }
}

/// What a walk in direction `d` from `bound` may yield, taking at most `n`
/// entries: keys in strictly increasing (ascending) or decreasing
/// (descending) byte order, each admitted by the bound.
pub open spec fn walked<V>(items: Seq<(Vec<u8>, V)>, d: Direction, bound: Bound<Vec<u8>>, n: nat) -> bool {
    &&& items.len() <= n
    &&& ordered(entry_keys(entries(items)), d)
    &&& forall|i: int| 0 <= i < items.len() ==> admits(bound, d, #[trigger] items[i].0@)
}

/// Relies on sled's `Tree::range` with `lo` as start and no end, walked
/// forward: sled yields the keys within the range in increasing byte order
/// (its `Iter` moves its lower bound past each key it hands out), and
/// `take` stops after `n`. The first store error ends the walk.
#[verifier::external_body]
fn walk_forward(tree: &sled::Tree, lo: Bound<Vec<u8>>, n: usize) -> (r: Result<
    Vec<(Vec<u8>, Vec<u8>)>,
    sled::Error,
>)
    ensures
        r matches Ok(items) ==> walked(items@, Direction::Ascending, lo, n as nat),
{
    let mut items = Vec::new();
    for item in tree.range((lo, Bound::Unbounded)).take(n) {
        let (k, v) = item?;
        items.push((k.to_vec(), v.to_vec()));
    }
    Ok(items)
}

/// Relies on sled's `Tree::range` with no start and `hi` as end, walked
/// backward through `rev`: sled yields the keys within the range in
/// decreasing byte order (`next_back` moves its upper bound below each key
/// it hands out), and `take` stops after `n`. The first store error ends
/// the walk.
#[verifier::external_body]
fn walk_backward(tree: &sled::Tree, hi: Bound<Vec<u8>>, n: usize) -> (r: Result<
    Vec<(Vec<u8>, Vec<u8>)>,
    sled::Error,
>)
    ensures
        r matches Ok(items) ==> walked(items@, Direction::Descending, hi, n as nat),
{
    let mut items = Vec::new();
    for item in tree.range((Bound::Unbounded, hi)).rev().take(n) {
        let (k, v) = item?;
        items.push((k.to_vec(), v.to_vec()));
    }
    Ok(items)
}

/// What the library makes of a walk's outcome: the entries it found, or its
/// store error passed on unchanged as `StoreIo`.
pub fn store_result(walk: Result<Vec<(Vec<u8>, Vec<u8>)>, sled::Error>) -> (r: Result<
    Vec<(Vec<u8>, Vec<u8>)>,
    FetchError,
>)
    ensures
        r is Ok <==> walk is Ok,
        r matches Ok(items) ==> walk matches Ok(found) && items == found,
        r matches Err(e) ==> e matches FetchError::StoreIo(se) && walk matches Err(we) && se == we,
{
    match walk {
        Ok(items) => Ok(items),
        Err(e) => Err(FetchError::StoreIo(e)),
    }
}

/// Walks the tree in direction `d` from `bound`, taking at most `n` entries
/// as raw key and value bytes.
pub fn scan(tree: &sled::Tree, d: Direction, bound: Bound<Vec<u8>>, n: usize) -> (r: Result<
    Vec<(Vec<u8>, Vec<u8>)>,
    FetchError,
>)
    ensures
        r matches Ok(items) ==> walked(items@, d, bound, n as nat),
        r matches Err(e) ==> e is StoreIo,
{
    let walk = match d {
        Direction::Ascending => walk_forward(tree, bound, n),
        Direction::Descending => walk_backward(tree, bound, n),
    };
    store_result(walk)
}

/// A walk from a bound that is not inclusive is a scan outcome for the key
/// that the bound excludes.
pub proof fn lemma_walked_is_scan_outcome<V>(items: Seq<(Vec<u8>, V)>, d: Direction, bound: Bound<Vec<u8>>, n: nat)
    requires
        walked(items, d, bound, n),
        !(bound is Included),
    ensures
        is_scan_outcome(entry_keys(entries(items)), d, exclusion_of(bound), n),
{
    let ks = entry_keys(entries(items));
    assert forall|i: int| 0 <= i < ks.len() implies beyond(#[trigger] ks[i], d, exclusion_of(bound)) by {
        assert(admits(bound, d, items[i].0@));
    }
}

} // verus!
