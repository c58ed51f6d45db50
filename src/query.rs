use vstd::prelude::*;
use std::ops::Bound;
use crate::direction::Direction;
use crate::key::{DecodableKey, Key};
use crate::model::{entries, entry_keys, is_scan_outcome, window};
use crate::store::{lemma_walked_is_scan_outcome, scan, FetchError};
use vstd::slice::slice_to_vec;

verus! {

/// A record kept in the store. Its type says how its stored bytes are
/// decoded, and which identifier it carries.
pub trait Record: Sized {
    type ID: Copy;

    /// The identifier this record carries.
    spec fn spec_id(&self) -> Self::ID;

    /// Whether `bytes` decode into a record of this type.
    spec fn decodable(bytes: Seq<u8>) -> bool;

    /// Whether `record` is what `bytes` decode to.
    spec fn decodes_to(bytes: Seq<u8>, record: Self) -> bool;

    fn id(&self) -> (r: &Self::ID)
        ensures
            *r == self.spec_id(),
    ;

    fn decode(bytes: &[u8]) -> (r: Option<Self>)
        ensures
            r is Some <==> Self::decodable(bytes@),
            r matches Some(x) ==> Self::decodes_to(bytes@, x),
    ;
}

/// A stored value taken as it is: every value decodes, to its own bytes.
/// A raw value names nothing, so every one carries the identifier `0`.
impl Record for Vec<u8> {
    type ID = u8;

    open spec fn spec_id(&self) -> u8 {
        0
    }

    open spec fn decodable(bytes: Seq<u8>) -> bool {
        true
    }

    open spec fn decodes_to(bytes: Seq<u8>, record: Vec<u8>) -> bool {
        record@ == bytes
    }

    fn id(&self) -> (r: &u8) {
        &0
    }

    fn decode(bytes: &[u8]) -> (r: Option<Vec<u8>>) {
        Some(slice_to_vec(bytes))
    }
}

/// The abstract view of stored entries: key bytes and value bytes.
pub open spec fn byte_entries(s: Seq<(Vec<u8>, Vec<u8>)>) -> Seq<(Seq<u8>, Seq<u8>)> {
    s.map_values(|e: (Vec<u8>, Vec<u8>)| (e.0@, e.1@))
}

/// Whether every stored value decodes into a record.
pub open spec fn all_decode<T: Record>(s: Seq<(Seq<u8>, Seq<u8>)>) -> bool {
    forall|j: int| 0 <= j < s.len() ==> #[trigger] T::decodable(s[j].1)
}

/// Whether `d` holds the stored entries `s`, each with its value decoded:
/// same keys in the same order, each record what its value decodes to.
pub open spec fn decoded_from<T: Record>(s: Seq<(Seq<u8>, Seq<u8>)>, d: Seq<(Seq<u8>, T)>) -> bool {
    &&& d.len() == s.len()
    &&& forall|j: int| 0 <= j < s.len() ==> (#[trigger] d[j]).0 == s[j].0 && T::decodes_to(s[j].1, d[j].1)
}

/// Where a one-directional fetch starts: at the extremity, or just past a key.
pub enum FetchCursor<K: Key> {
    /// No key is excluded: the walk starts at the extremity.
    Unbounded,
    Excluding(K),
}

impl<K: Key> FetchCursor<K> {
    /// The encoded key that the cursor excludes, if any.
    pub open spec fn exclusion(&self) -> Option<Seq<u8>> {
        match self {
            FetchCursor::Unbounded => Option::None,
            FetchCursor::Excluding(k) => Option::Some(k.encoding()),
        }
    }

    /// The starting bound of the walk: nothing, or past the encoded key.
    pub fn into_bound(self) -> (r: Bound<Vec<u8>>)
        ensures
            !(r is Included),
            crate::store::exclusion_of(r) == self.exclusion(),
    {
        match self {
            FetchCursor::Unbounded => Bound::Unbounded,
            FetchCursor::Excluding(k) => Bound::Excluded(k.as_bytes()),
        }
    }
}

/// Reads a key from a cursor's bytes, which a client supplied.
pub fn decode_cursor_key<K: DecodableKey>(bytes: &[u8]) -> (r: Result<K, FetchError>)
    ensures
        r is Ok <==> K::is_encoding(bytes@),
        r matches Ok(k) ==> k.encoding() == bytes@,
        r matches Err(e) ==> e is InvalidCursor,
{
    match K::from_key_bytes(bytes) {
        Some(k) => Ok(k),
        None => Err(FetchError::InvalidCursor),
    }
}

/// The number of records a query asks for when it names no limit.
pub const DEFAULT_LIMIT: usize = 10;

pub open spec fn limit_or_default(limit: Option<usize>) -> nat {
    match limit {
        Option::Some(l) => l as nat,
        Option::None => DEFAULT_LIMIT as nat,
    }
}

/// A one-directional query: where to start, how many records, which way.
pub struct FetchRecordQuery<K: Key> {
    pub cursor: FetchCursor<K>,
    pub limit: Option<usize>,
    pub order: Direction,
}

impl<K: Key> FetchRecordQuery<K> {
    /// A query from the lowest key, ascending, with the default limit.
    pub fn new() -> (r: Self)
        ensures
            r.cursor is Unbounded,
            r.limit is None,
            r.order == Direction::Ascending,
    {
        FetchRecordQuery { cursor: FetchCursor::Unbounded, limit: None, order: Direction::Ascending }
    }

    pub fn cursor(self, value: FetchCursor<K>) -> (r: Self)
        ensures
            r.cursor == value,
            r.limit == self.limit,
            r.order == self.order,
    {
        FetchRecordQuery { cursor: value, limit: self.limit, order: self.order }
    }

    pub fn limit(self, value: usize) -> (r: Self)
        ensures
            r.cursor == self.cursor,
            r.limit == Some(value),
            r.order == self.order,
    {
        FetchRecordQuery { cursor: self.cursor, limit: Some(value), order: self.order }
    }

    pub fn order(self, order: Direction) -> (r: Self)
        ensures
            r.cursor == self.cursor,
            r.limit == self.limit,
            r.order == order,
    {
        FetchRecordQuery { cursor: self.cursor, limit: self.limit, order }
    }
}

/// The records of one fetch, in the order walked, and whether the walk
/// found more records beyond them.
pub struct FetchRecordResult<T: Record> {
    pub items: Vec<(Vec<u8>, T)>,
    pub order: Direction,
    pub more_records: bool,
}

/// The identifiers of the records, in order.
pub fn record_ids<T: Record>(items: &Vec<(Vec<u8>, T)>) -> (r: Vec<T::ID>)
    ensures
        r@.len() == items@.len(),
        forall|i: int| 0 <= i < items@.len() ==> r@[i] == (#[trigger] items@[i]).1.spec_id(),
{
    let mut ids: Vec<T::ID> = Vec::new();
    let mut i: usize = 0;
    while i < items.len()
        invariant
            i <= items@.len(),
            ids@.len() == i,
            forall|j: int| 0 <= j < i ==> ids@[j] == (#[trigger] items@[j]).1.spec_id(),
        decreases items@.len() - i,
    {
        ids.push(*items[i].1.id());
        i = i + 1;
    }
    ids
}

impl<T: Record> FetchRecordResult<T> {
    pub fn ids(&self) -> (r: Vec<T::ID>)
        ensures
            r@.len() == self.items@.len(),
            forall|i: int| 0 <= i < self.items@.len() ==> r@[i] == (#[trigger] self.items@[i]).1.spec_id(),
    {
        record_ids(&self.items)
    }
}

/// Keeps the first `limit` entries and reports whether any were dropped.
pub fn take_window<V>(items: Vec<(Vec<u8>, V)>, limit: usize) -> (r: (Vec<(Vec<u8>, V)>, bool))
    ensures
        r.0@ == window(items@, limit as nat),
        r.1 == (items@.len() > limit),
{
    let ghost before = items@;
    let mut items = items;
    let more = items.len() > limit;
    items.truncate(limit);
    assert(items@ =~= window(before, limit as nat));
    (items, more)
}

/// Decodes every stored value into a record, keeping keys and order; the
/// first value that does not decode fails the whole batch.
pub fn decode_records<T: Record>(raw: Vec<(Vec<u8>, Vec<u8>)>) -> (r: Result<Vec<(Vec<u8>, T)>, FetchError>)
    ensures
        r is Ok <==> all_decode::<T>(byte_entries(raw@)),
        r matches Ok(v) ==> decoded_from(byte_entries(raw@), entries(v@)),
        r matches Err(e) ==> e is Decode,
{
    let ghost s = byte_entries(raw@);
    let mut out: Vec<(Vec<u8>, T)> = Vec::new();
    let mut i: usize = 0;
    while i < raw.len()
        invariant
            s == byte_entries(raw@),
            i <= raw@.len(),
            out@.len() == i,
            forall|j: int| 0 <= j < i ==> #[trigger] T::decodable(s[j].1),
            forall|j: int| 0 <= j < i ==> (#[trigger] entries(out@)[j]).0 == s[j].0 && T::decodes_to(s[j].1, entries(out@)[j].1),
        decreases raw@.len() - i,
    {
        let (k, v) = &raw[i];
        match T::decode(v.as_slice()) {
            Some(record) => {
                let ghost prev = entries(out@);
                assert(T::decodes_to(s[i as int].1, record));
                out.push((k.clone(), record));
                assert forall|j: int| 0 <= j < i + 1 implies (#[trigger] entries(out@)[j]).0 == s[j].0
                    && T::decodes_to(s[j].1, entries(out@)[j].1) by {
                    if j < i {
                        assert(entries(out@)[j] == prev[j]);
                    }
                }
            },
            None => {
                assert(!T::decodable(s[i as int].1));
                return Err(FetchError::Decode);
            },
        }
        i = i + 1;
    }
    Ok(out)
}

/// Walks the tree in direction `d` from `bound`, taking at most `n` entries,
/// and decodes what it found. Unless the store failed, the walk had some
/// outcome `s`: the fetch succeeds exactly when every value of `s` decodes,
/// and then holds the entries of `s` with their values decoded.
pub(crate) fn walk_and_decode<T: Record>(tree: &sled::Tree, d: Direction, bound: Bound<Vec<u8>>, n: usize) -> (r: Result<Vec<(Vec<u8>, T)>, FetchError>)
    requires
        !(bound is Included),
    ensures
        r matches Err(e) ==> e is StoreIo || e is Decode,
        !(r matches Err(FetchError::StoreIo(_))) ==> exists|s: Seq<(Seq<u8>, Seq<u8>)>|
            #![trigger all_decode::<T>(s)]
            is_scan_outcome(entry_keys(s), d, crate::store::exclusion_of(bound), n as nat)
                && (r is Ok <==> all_decode::<T>(s))
                && (r matches Ok(v) ==> decoded_from(s, entries(v@))),
{
    let ghost b = bound;
    let raw = match scan(tree, d, bound, n) {
        Ok(raw) => raw,
        Err(e) => return Err(e),
    };
    let ghost s = byte_entries(raw@);
    proof {
        lemma_walked_is_scan_outcome(raw@, d, b, n as nat);
        assert(entry_keys(s) =~= entry_keys(entries(raw@)));
    }
    let r = decode_records::<T>(raw);
    assert(all_decode::<T>(s) == all_decode::<T>(s));
    r
}

/// Cutting decoded entries to a window cuts the stored entries alike.
proof fn lemma_decoded_window<T: Record>(s: Seq<(Seq<u8>, Seq<u8>)>, d: Seq<(Seq<u8>, T)>, limit: nat)
    requires
        decoded_from(s, d),
    ensures
        decoded_from(window(s, limit), window(d, limit)),
{
    let ws = window(s, limit);
    let wd = window(d, limit);
    assert forall|j: int| 0 <= j < ws.len() implies (#[trigger] wd[j]).0 == ws[j].0 && T::decodes_to(ws[j].1, wd[j].1) by {
        assert(wd[j] == d[j]);
        assert(ws[j] == s[j]);
    }
}

/// One walk of `limit + 1` entries from `bound`, decoded, cut to `limit`,
/// with whether the extra entry was found.
pub(crate) fn fetch_window<T: Record>(tree: &sled::Tree, order: Direction, bound: Bound<Vec<u8>>, limit: usize) -> (r: Result<(Vec<(Vec<u8>, T)>, bool), FetchError>)
    requires
        limit < usize::MAX,
        !(bound is Included),
    ensures
        r matches Err(e) ==> e is StoreIo || e is Decode,
        !(r matches Err(FetchError::StoreIo(_))) ==> exists|s: Seq<(Seq<u8>, Seq<u8>)>|
            #![trigger all_decode::<T>(s)]
            is_scan_outcome(entry_keys(s), order, crate::store::exclusion_of(bound), limit as nat + 1)
                && (r is Ok <==> all_decode::<T>(s))
                && (r matches Ok((items, more)) ==> decoded_from(window(s, limit as nat), entries(items@))
                    && more == (s.len() > limit)),
{
    let ghost ex = crate::store::exclusion_of(bound);
    let walked = walk_and_decode::<T>(tree, order, bound, limit + 1);
    let ghost s = choose|s: Seq<(Seq<u8>, Seq<u8>)>|
        is_scan_outcome(entry_keys(s), order, ex, limit as nat + 1)
            && (walked is Ok <==> all_decode::<T>(s))
            && (walked matches Ok(v) ==> decoded_from(s, entries(v@)));
    let decoded = match walked {
        Ok(d) => d,
        Err(e) => {
            assert(all_decode::<T>(s) == all_decode::<T>(s));
            return Err(e);
        },
    };
    let ghost dv = decoded@;
    let (items, more) = take_window(decoded, limit);
    proof {
        assert(entries(items@) =~= window(entries(dv), limit as nat));
        lemma_decoded_window(s, entries(dv), limit as nat);
        assert(all_decode::<T>(s) == all_decode::<T>(s));
    }
    Ok((items, more))
}

/// Fetches one page of records in the query's order: up to `limit` records
/// (ten by default) past the cursor, and whether more lie beyond them.
pub fn fetch_records<T: Record, K: Key>(tree: &sled::Tree, query: FetchRecordQuery<K>) -> (r: Result<FetchRecordResult<T>, FetchError>)
    requires
        limit_or_default(query.limit) < usize::MAX,
    ensures
        r matches Err(e) ==> e is StoreIo || e is Decode,
        !(r matches Err(FetchError::StoreIo(_))) ==> exists|s: Seq<(Seq<u8>, Seq<u8>)>|
            #![trigger all_decode::<T>(s)]
            is_scan_outcome(entry_keys(s), query.order, query.cursor.exclusion(), limit_or_default(query.limit) + 1)
                && (r is Ok <==> all_decode::<T>(s))
                && (r matches Ok(res) ==> res.order == query.order
                    && decoded_from(window(s, limit_or_default(query.limit)), entries(res.items@))
                    && res.more_records == (s.len() > limit_or_default(query.limit))),
{
    let limit = match query.limit {
        Some(l) => l,
        None => DEFAULT_LIMIT,
    };
    let order = query.order;
    let bound = query.cursor.into_bound();
    let fetched = fetch_window::<T>(tree, order, bound, limit);
    let ghost s = choose|s: Seq<(Seq<u8>, Seq<u8>)>|
        is_scan_outcome(entry_keys(s), order, query.cursor.exclusion(), limit as nat + 1)
            && (fetched is Ok <==> all_decode::<T>(s))
            && (fetched matches Ok((items, more)) ==> decoded_from(window(s, limit as nat), entries(items@))
                && more == (s.len() > limit));
    assert(all_decode::<T>(s) == all_decode::<T>(s));
    match fetched {
        Ok((items, more_records)) => Ok(FetchRecordResult { items, order, more_records }),
        Err(e) => Err(e),
    }
}

} // verus!
