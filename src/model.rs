use vstd::prelude::*;
use crate::direction::Direction;
use crate::key_order::key_lt;
use crate::paginate::PaginatedCursor;

verus! {

/// The keys of a sequence of stored entries.
pub open spec fn entry_keys<V>(s: Seq<(Seq<u8>, V)>) -> Seq<Seq<u8>> {
    s.map_values(|e: (Seq<u8>, V)| e.0)
}

/// The abstract view of entries held in vectors.
pub open spec fn entries<V>(s: Seq<(Vec<u8>, V)>) -> Seq<(Seq<u8>, V)> {
    s.map_values(|e: (Vec<u8>, V)| (e.0@, e.1))
}

/// Whether key `a` is visited before key `b` by a walk in direction `d`.
pub open spec fn precedes(a: Seq<u8>, b: Seq<u8>, d: Direction) -> bool {
    match d {
        Direction::Ascending => key_lt(a, b),
        Direction::Descending => key_lt(b, a),
    }
}

/// Whether the keys come strictly in the order of a walk in direction `d`.
pub open spec fn ordered(ks: Seq<Seq<u8>>, d: Direction) -> bool {
    forall|i: int, j: int| 0 <= i < j < ks.len() ==> precedes(#[trigger] ks[i], #[trigger] ks[j], d)
}

/// Whether key `k` lies strictly beyond the excluded key `from` for a walk
/// in direction `d`; every key does when nothing is excluded.
pub open spec fn beyond(k: Seq<u8>, d: Direction, from: Option<Seq<u8>>) -> bool {
    match from {
        Option::None => true,
        Option::Some(c) => precedes(c, k, d),
    }
}

/// What a bounded, directional scan of an ordered store may hand back: at
/// most `n` keys, in the scan's order, all beyond the excluded key.
pub open spec fn is_scan_outcome(ks: Seq<Seq<u8>>, d: Direction, from: Option<Seq<u8>>, n: nat) -> bool {
    &&& ks.len() <= n
    &&& ordered(ks, d)
    &&& forall|i: int| 0 <= i < ks.len() ==> beyond(#[trigger] ks[i], d, from)
}

/// The first `limit` elements, or all of them when there are fewer.
pub open spec fn window<A>(s: Seq<A>, limit: nat) -> Seq<A> {
    if s.len() <= limit {
        s
    } else {
        s.take(limit as int)
    }
}

/// The direction in which the store is walked to serve a cursor: a page
/// before the cursor is found by walking against the display order.
pub open spec fn scan_direction(display: Direction, cursor: PaginatedCursor) -> Direction {
    match cursor {
        PaginatedCursor::Before(_) => display.flip(),
        _ => display,
    }
}

/// The key that a cursor excludes from its page, if any.
pub open spec fn cursor_exclusion(cursor: PaginatedCursor) -> Option<Seq<u8>> {
    match cursor {
        PaginatedCursor::Before(k) => Option::Some(k@),
        PaginatedCursor::After(k) => Option::Some(k@),
        _ => Option::None,
    }
}

/// A page as the caller sees it: the items in display order, whether more
/// items exist before them, and whether more exist after them.
pub open spec fn page_of_scan<V>(
    display: Direction,
    cursor: PaginatedCursor,
    limit: nat,
    scanned: Seq<(Seq<u8>, V)>,
) -> (Seq<(Seq<u8>, V)>, bool, bool) {
    let kept = window(scanned, limit);
    let more = scanned.len() > limit;
    let items = if scan_direction(display, cursor) == display {
        kept
    } else {
        kept.reverse()
    };
    match cursor {
        PaginatedCursor::Before(_) => (items, more, true),
        PaginatedCursor::After(_) => (items, true, more),
        _ => match display {
            Direction::Ascending => (items, false, more),
            Direction::Descending => (items, more, false),
        },
    }
}

/// The number of entries of an ascending store whose keys are not above `c`.
pub open spec fn count_not_above<V>(store: Seq<(Seq<u8>, V)>, c: Seq<u8>) -> nat
    decreases store.len(),
{
    if store.len() == 0 {
        0
    } else {
        count_not_above(store.drop_last(), c) + if key_lt(c, store.last().0) {
            0nat
        } else {
            1nat
        }
    }
}

/// The number of entries of an ascending store whose keys are below `c`.
pub open spec fn count_below<V>(store: Seq<(Seq<u8>, V)>, c: Seq<u8>) -> nat
    decreases store.len(),
{
    if store.len() == 0 {
        0
    } else {
        count_below(store.drop_last(), c) + if key_lt(store.last().0, c) {
            1nat
        } else {
            0nat
        }
    }
}

/// The entries of a store, held in ascending key order, that lie beyond the
/// excluded key, in the order of a walk in direction `d`.
pub open spec fn remaining<V>(store: Seq<(Seq<u8>, V)>, d: Direction, from: Option<Seq<u8>>) -> Seq<(Seq<u8>, V)> {
    match (d, from) {
        (Direction::Ascending, Option::None) => store,
        (Direction::Ascending, Option::Some(c)) => store.subrange(
            count_not_above(store, c) as int,
            store.len() as int,
        ),
        (Direction::Descending, Option::None) => store.reverse(),
        (Direction::Descending, Option::Some(c)) => store.subrange(
            0,
            count_below(store, c) as int,
        ).reverse(),
    }
}

/// The page served from a store that holds exactly `store`, in ascending key
/// order, when its scan yields the first `limit + 1` remaining entries.
pub open spec fn page_of_store<V>(
    store: Seq<(Seq<u8>, V)>,
    display: Direction,
    cursor: PaginatedCursor,
    limit: nat,
) -> (Seq<(Seq<u8>, V)>, bool, bool) {
    let d = scan_direction(display, cursor);
    page_of_scan(display, cursor, limit, window(remaining(store, d, cursor_exclusion(cursor)), limit + 1))
}

} // verus!
