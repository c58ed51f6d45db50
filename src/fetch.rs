use vstd::prelude::*;
use crate::direction::Order;
use crate::key::Key;
use crate::model::{entries, entry_keys, is_scan_outcome, window};
use crate::query::{
    all_decode, decoded_from, fetch_window, limit_or_default, record_ids, FetchCursor, Record,
    DEFAULT_LIMIT,
};
use crate::store::FetchError;

verus! {

/// A one-directional query whose cursor is a key to start just past.
pub struct FetchQuery<K: Key> {
    pub cursor: Option<K>,
    pub limit: Option<usize>,
    pub order: Order,
}

impl<K: Key> FetchQuery<K> {
    /// The key that the query's cursor excludes, if any.
    pub open spec fn exclusion(&self) -> Option<Seq<u8>> {
        match self.cursor {
            Option::Some(k) => Option::Some(k.encoding()),
            Option::None => Option::None,
        }
    }

    /// A query from the lowest key, ascending, with the default limit.
    pub fn new() -> (r: Self)
        ensures
            r.cursor is None,
            r.limit is None,
            r.order == Order::Ascending,
    {
        FetchQuery { cursor: None, limit: None, order: Order::Ascending }
    }

    pub fn cursor(self, value: K) -> (r: Self)
        ensures
            r.cursor == Some(value),
            r.limit == self.limit,
            r.order == self.order,
    {
        FetchQuery { cursor: Some(value), limit: self.limit, order: self.order }
    }

    pub fn limit(self, value: usize) -> (r: Self)
        ensures
            r.cursor == self.cursor,
            r.limit == Some(value),
            r.order == self.order,
    {
        FetchQuery { cursor: self.cursor, limit: Some(value), order: self.order }
    }

    pub fn order(self, order: Order) -> (r: Self)
        ensures
            r.cursor == self.cursor,
            r.limit == self.limit,
            r.order == order,
    {
        FetchQuery { cursor: self.cursor, limit: self.limit, order }
    }
}

/// The records of one fetch, in the order walked, and whether the walk
/// found more records beyond them.
pub struct FetchResult<T: Record> {
    pub items: Vec<(Vec<u8>, T)>,
    pub order: Order,
    pub more_records: bool,
}

impl<T: Record> FetchResult<T> {
    pub fn ids(&self) -> (r: Vec<T::ID>)
        ensures
            r@.len() == self.items@.len(),
            forall|i: int| 0 <= i < self.items@.len() ==> r@[i] == (#[trigger] self.items@[i]).1.spec_id(),
    {
        record_ids(&self.items)
    }
}

/// Fetches up to `limit` records (ten by default) just past the cursor key,
/// in the query's order, and whether more lie beyond them.
pub fn fetch<T: Record, K: Key>(tree: &sled::Tree, query: FetchQuery<K>) -> (r: Result<FetchResult<T>, FetchError>)
    requires
        limit_or_default(query.limit) < usize::MAX,
    ensures
        r matches Err(e) ==> e is StoreIo || e is Decode,
        !(r matches Err(FetchError::StoreIo(_))) ==> exists|s: Seq<(Seq<u8>, Seq<u8>)>|
            #![trigger all_decode::<T>(s)]
            is_scan_outcome(entry_keys(s), query.order, query.exclusion(), limit_or_default(query.limit) + 1)
                && (r is Ok <==> all_decode::<T>(s))
                && (r matches Ok(res) ==> res.order == query.order
                    && decoded_from(window(s, limit_or_default(query.limit)), entries(res.items@))
                    && res.more_records == (s.len() > limit_or_default(query.limit))),
{
    let limit = match query.limit {
        Some(l) => l,
        None => DEFAULT_LIMIT,
    };
    let order = query.order;
    let ghost ex = query.exclusion();
    let cursor = match query.cursor {
        Some(k) => FetchCursor::Excluding(k),
        None => FetchCursor::Unbounded,
    };
    let bound = cursor.into_bound();
    let fetched = fetch_window::<T>(tree, order, bound, limit);
    let ghost s = choose|s: Seq<(Seq<u8>, Seq<u8>)>|
        is_scan_outcome(entry_keys(s), order, ex, limit as nat + 1)
            && (fetched is Ok <==> all_decode::<T>(s))
            && (fetched matches Ok((items, more)) ==> decoded_from(window(s, limit as nat), entries(items@))
                && more == (s.len() > limit));
    assert(all_decode::<T>(s) == all_decode::<T>(s));
    match fetched {
        Ok((items, more_records)) => Ok(FetchResult { items, order, more_records }),
        Err(e) => Err(e),
    }
}

} // verus!
