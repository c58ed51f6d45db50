use vstd::prelude::*;
use std::ops::Bound;
use crate::direction::Direction;
use crate::model::{
    cursor_exclusion, entries, entry_keys, is_scan_outcome, page_of_scan, scan_direction, window,
};
use crate::query::{all_decode, decoded_from, take_window, walk_and_decode, Record};
use crate::store::{exclusion_of, FetchError};

verus! {

/// Where a requested page lies, relative to a key the caller has seen.
#[derive(Debug)]
pub enum PaginatedCursor {
    /// Start from the extremity that the display order begins with.
    Start,
    /// The page just after this key in display order, without it.
    After(Vec<u8>),
    /// The page just before this key in display order, without it.
    Before(Vec<u8>),
    /// Reserved: a page from this key onward; served as `Start` for now.
    StartingWith(Vec<u8>),
    /// Reserved: a page up to this key; served as `Start` for now.
    EndingWith(Vec<u8>),
}

/// A request for one page: its cursor, how many items at most, and the
/// order in which the caller shows them.
pub struct PaginatedFetchRequest {
    pub cursor: PaginatedCursor,
    pub limit: usize,
    pub direction: Direction,
}

/// One item of a page: the raw key it is stored under, and the record.
pub struct FetchResultItem<T> {
    pub key: Vec<u8>,
    pub item: T,
}

/// One page, always in display order, with the limit it was asked with and
/// whether more items exist before and after it.
pub struct PaginatedFetchResponse<T> {
    pub items: Vec<FetchResultItem<T>>,
    pub limit: usize,
    pub has_more_before: bool,
    pub has_more_after: bool,
}

impl<T> PaginatedFetchResponse<T> {
    /// The items as key and record, with the two flags.
    pub open spec fn page(&self) -> (Seq<(Seq<u8>, T)>, bool, bool) {
        (
            self.items@.map_values(|it: FetchResultItem<T>| (it.key@, it.item)),
            self.has_more_before,
            self.has_more_after,
        )
    }
}

/// Maps a cursor and a display order to the direction of the walk
/// and the bound it starts from.
pub fn scan_plan(display: Direction, cursor: &PaginatedCursor) -> (r: (Direction, Bound<Vec<u8>>))
    ensures
        r.0 == scan_direction(display, *cursor),
        !(r.1 is Included),
        exclusion_of(r.1) == cursor_exclusion(*cursor),
{
    match cursor {
        PaginatedCursor::Before(k) => (display.inverse(), Bound::Excluded(k.clone())),
        PaginatedCursor::After(k) => (display, Bound::Excluded(k.clone())),
        _ => (display, Bound::Unbounded),
    }
}

/// The entries in reverse order.
pub fn reverse_entries<V>(items: Vec<(Vec<u8>, V)>) -> (r: Vec<(Vec<u8>, V)>)
    ensures
        r@ == items@.reverse(),
{
    let ghost orig = items@;
    let mut items = items;
    let mut out: Vec<(Vec<u8>, V)> = Vec::new();
    while items.len() > 0
        invariant
            items@ == orig.subrange(0, items@.len() as int),
            out@ == orig.subrange(items@.len() as int, orig.len() as int).reverse(),
            items@.len() <= orig.len(),
        decreases items@.len(),
    {
        let ghost n = items@.len();
        let e = items.pop().unwrap();
        out.push(e);
        assert(out@ =~= orig.subrange(n - 1, orig.len() as int).reverse());
        assert(items@ =~= orig.subrange(0, n - 1));
    }
    assert(orig.subrange(0, orig.len() as int) =~= orig);
    out
}

/// Builds the page from what the walk found: keeps the first `limit`
/// entries, puts them in display order, and sets the two flags, one from
/// the cursor's existence and the other from whether the walk found more.
pub fn paginate_scanned<V>(
    display: Direction,
    cursor: &PaginatedCursor,
    limit: usize,
    scanned: Vec<(Vec<u8>, V)>,
) -> (r: PaginatedFetchResponse<V>)
    ensures
        r.page() == page_of_scan(display, *cursor, limit as nat, entries(scanned@)),
        r.limit == limit,
{
    let ghost s = entries(scanned@);
    let d = match cursor {
        PaginatedCursor::Before(_) => display.inverse(),
        _ => display,
    };
    let (kept, more) = take_window(scanned, limit);
    let ghost kept_view = kept@;
    let ordered = if d == display {
        kept
    } else {
        reverse_entries(kept)
    };
    let mut items: Vec<FetchResultItem<V>> = Vec::new();
    let mut rest = ordered;
    let ghost all = rest@;
    assert(all.len() <= usize::MAX);
    let mut i: usize = 0;
    while rest.len() > 0
        invariant
            rest@ == all.subrange(i as int, all.len() as int),
            items@.len() == i,
            i <= all.len() <= usize::MAX,
            forall|j: int| 0 <= j < i ==> (#[trigger] items@[j]).key@ == all[j].0@ && items@[j].item == all[j].1,
        decreases rest@.len(),
    {
        let (key, item) = rest.remove(0);
        items.push(FetchResultItem { key, item });
        i = i + 1;
        assert(rest@ =~= all.subrange(i as int, all.len() as int));
    }
    let (has_more_before, has_more_after) = match cursor {
        PaginatedCursor::Before(_) => (more, true),
        PaginatedCursor::After(_) => (true, more),
        _ => match display {
            Direction::Ascending => (false, more),
            Direction::Descending => (more, false),
        },
    };
    let r = PaginatedFetchResponse { items, limit, has_more_before, has_more_after };
    proof {
        assert(entries(kept_view) =~= window(s, limit as nat));
        assert(entries(kept_view).reverse() =~= entries(kept_view.reverse()));
        assert(r.page().0 =~= entries(all));
    }
    r
}

/// Serves one page: walks the tree from the cursor in the direction the
/// cursor calls for, taking one entry more than the limit, decodes what it
/// found, and builds the page in display order. Unless the store failed, the
/// walk had some outcome `s`: the page is served exactly when every value
/// of `s` decodes, and it is the page built from `s` with its values
/// decoded.
pub fn fetch_paginated<T: Record>(tree: &sled::Tree, request: PaginatedFetchRequest) -> (r: Result<PaginatedFetchResponse<T>, FetchError>)
    requires
        request.limit < usize::MAX,
    ensures
        r matches Err(e) ==> e is StoreIo || e is Decode,
        !(r matches Err(FetchError::StoreIo(_))) ==> exists|s: Seq<(Seq<u8>, Seq<u8>)>|
            #![trigger all_decode::<T>(s)]
            is_scan_outcome(
                entry_keys(s),
                scan_direction(request.direction, request.cursor),
                cursor_exclusion(request.cursor),
                request.limit as nat + 1,
            ) && (r is Ok <==> all_decode::<T>(s)) && (r matches Ok(resp) ==> resp.limit == request.limit
                && exists|d: Seq<(Seq<u8>, T)>|
                #![trigger decoded_from(s, d)]
                decoded_from(s, d) && resp.page() == page_of_scan(
                    request.direction,
                    request.cursor,
                    request.limit as nat,
                    d,
                )),
{
    let display = request.direction;
    let limit = request.limit;
    let (d, bound) = scan_plan(display, &request.cursor);
    let ghost ex = exclusion_of(bound);
    let walked = walk_and_decode::<T>(tree, d, bound, limit + 1);
    let ghost s = choose|s: Seq<(Seq<u8>, Seq<u8>)>|
        is_scan_outcome(entry_keys(s), d, ex, limit as nat + 1)
            && (walked is Ok <==> all_decode::<T>(s))
            && (walked matches Ok(v) ==> decoded_from(s, entries(v@)));
    assert(all_decode::<T>(s) == all_decode::<T>(s));
    match walked {
        Ok(decoded) => {
            let ghost dv = entries(decoded@);
            let resp = paginate_scanned(display, &request.cursor, limit, decoded);
            assert(decoded_from(s, dv));
            Ok(resp)
        },
        Err(e) => Err(e),
    }
}

} // verus!
