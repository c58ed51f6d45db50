use vstd::prelude::*;
use crate::direction::Direction;
use crate::key::{be_bytes, lemma_be_bytes_order, lemma_word_width, word_width};
use crate::key_order::{key_lt, lemma_key_lt_irreflexive, lemma_key_lt_transitive};
use crate::model::{
    count_below, count_not_above, cursor_exclusion, entry_keys, is_scan_outcome, ordered,
    page_of_store, remaining, scan_direction, window,
};
use crate::paginate::PaginatedCursor;

verus! {

/// Whether a store's entries are held in strictly ascending key order.
pub open spec fn ascending_store<V>(store: Seq<(Seq<u8>, V)>) -> bool {
    ordered(entry_keys(store), Direction::Ascending)
}

proof fn lemma_ascending_at<V>(store: Seq<(Seq<u8>, V)>, i: int, j: int)
    requires
        ascending_store(store),
        0 <= i < j < store.len(),
    ensures
        key_lt(store[i].0, store[j].0),
{
    assert(entry_keys(store)[i] == store[i].0);
    assert(entry_keys(store)[j] == store[j].0);
}

/// In an ascending store, the entries not above `c` are a prefix.
proof fn lemma_count_not_above<V>(store: Seq<(Seq<u8>, V)>, c: Seq<u8>)
    requires
        ascending_store(store),
    ensures
        count_not_above(store, c) <= store.len(),
        forall|i: int| 0 <= i < count_not_above(store, c) ==> !key_lt(c, #[trigger] store[i].0),
        forall|i: int| count_not_above(store, c) <= i < store.len() ==> key_lt(c, #[trigger] store[i].0),
    decreases store.len(),
{
    if store.len() > 0 {
        let init = store.drop_last();
        assert(ascending_store(init)) by {
            assert forall|i: int, j: int| 0 <= i < j < entry_keys(init).len() implies key_lt(
                #[trigger] entry_keys(init)[i],
                #[trigger] entry_keys(init)[j],
            ) by {
                lemma_ascending_at(store, i, j);
            }
        }
        lemma_count_not_above(init, c);
        let n = store.len() - 1;
        let last = store[n].0;
        if !key_lt(c, last) {
            assert forall|i: int| 0 <= i < n implies !key_lt(c, #[trigger] init[i].0) by {
                lemma_ascending_at(store, i, n);
                if key_lt(c, init[i].0) {
                    lemma_key_lt_transitive(c, init[i].0, last);
                }
            }
            if count_not_above(init, c) < n {
                let a = count_not_above(init, c) as int;
                assert(key_lt(c, init[a].0));
                assert(!key_lt(c, init[a].0));
            }
        }
        let a = count_not_above(store, c);
        assert forall|i: int| 0 <= i < a implies !key_lt(c, #[trigger] store[i].0) by {
            if i < n {
                assert(store[i] == init[i]);
            }
        }
        assert forall|i: int| a <= i < store.len() implies key_lt(c, #[trigger] store[i].0) by {
            if i < n {
                assert(store[i] == init[i]);
            }
        }
    }
}

/// In an ascending store, the entries below `c` are a prefix.
proof fn lemma_count_below<V>(store: Seq<(Seq<u8>, V)>, c: Seq<u8>)
    requires
        ascending_store(store),
    ensures
        count_below(store, c) <= store.len(),
        forall|i: int| 0 <= i < count_below(store, c) ==> key_lt(#[trigger] store[i].0, c),
        forall|i: int| count_below(store, c) <= i < store.len() ==> !key_lt(#[trigger] store[i].0, c),
    decreases store.len(),
{
    if store.len() > 0 {
        let init = store.drop_last();
        assert(ascending_store(init)) by {
            assert forall|i: int, j: int| 0 <= i < j < entry_keys(init).len() implies key_lt(
                #[trigger] entry_keys(init)[i],
                #[trigger] entry_keys(init)[j],
            ) by {
                lemma_ascending_at(store, i, j);
            }
        }
        lemma_count_below(init, c);
        let n = store.len() - 1;
        let last = store[n].0;
        if key_lt(last, c) {
            assert forall|i: int| 0 <= i < n implies key_lt(#[trigger] init[i].0, c) by {
                lemma_ascending_at(store, i, n);
                lemma_key_lt_transitive(init[i].0, last, c);
            }
            if count_below(init, c) < n {
                let b = count_below(init, c) as int;
                assert(key_lt(init[b].0, c));
            }
        }
        let b = count_below(store, c);
        assert forall|i: int| 0 <= i < b implies key_lt(#[trigger] store[i].0, c) by {
            if i < n {
                assert(store[i] == init[i]);
            }
        }
        assert forall|i: int| b <= i < store.len() implies !key_lt(#[trigger] store[i].0, c) by {
            if i < n {
                assert(store[i] == init[i]);
            }
        }
    }
}

/// In an ascending store, exactly the first `j + 1` entries are not above
/// the key of entry `j`.
proof fn lemma_count_not_above_at<V>(store: Seq<(Seq<u8>, V)>, j: int)
    requires
        ascending_store(store),
        0 <= j < store.len(),
    ensures
        count_not_above(store, store[j].0) == j + 1,
{
    let c = store[j].0;
    lemma_count_not_above(store, c);
    let a = count_not_above(store, c) as int;
    lemma_key_lt_irreflexive(c);
    if a <= j {
        assert(key_lt(c, store[j].0));
    }
    if a > j + 1 {
        lemma_ascending_at(store, j, j + 1);
        assert(!key_lt(c, store[j + 1].0));
    }
}

/// In an ascending store, exactly the first `j` entries are below the key
/// of entry `j`.
proof fn lemma_count_below_at<V>(store: Seq<(Seq<u8>, V)>, j: int)
    requires
        ascending_store(store),
        0 <= j < store.len(),
    ensures
        count_below(store, store[j].0) == j,
{
    let c = store[j].0;
    lemma_count_below(store, c);
    let b = count_below(store, c) as int;
    lemma_key_lt_irreflexive(c);
    if b > j {
        assert(key_lt(store[j].0, c));
    }
    if b < j {
        lemma_ascending_at(store, b, j);
        assert(!key_lt(store[b].0, c));
    }
}

proof fn lemma_window_window<A>(s: Seq<A>, limit: nat)
    ensures
        window(window(s, limit + 1), limit) == window(s, limit),
        (window(s, limit + 1).len() > limit) == (s.len() > limit),
{
    assert(window(window(s, limit + 1), limit) =~= window(s, limit));
}

/// The items of a page served from a store are the first `limit` entries
/// that remain beyond the cursor, in the direction of the walk.
proof fn lemma_page_items<V>(store: Seq<(Seq<u8>, V)>, display: Direction, cursor: PaginatedCursor, limit: nat)
    ensures
        ({
            let rem = remaining(store, scan_direction(display, cursor), cursor_exclusion(cursor));
            let p = page_of_store(store, display, cursor, limit);
            &&& scan_direction(display, cursor) == display ==> p.0 == window(rem, limit)
            &&& scan_direction(display, cursor) != display ==> p.0 == window(rem, limit).reverse()
            &&& (cursor is After ==> p.2 == (rem.len() > limit))
            &&& (cursor is Start && display == Direction::Ascending ==> p.2 == (rem.len() > limit))
        }),
{
    let rem = remaining(store, scan_direction(display, cursor), cursor_exclusion(cursor));
    lemma_window_window(rem, limit);
}

/// Monotonic coverage: with the words `0..n` stored under their big-endian
/// encodings (one byte per byte of a machine word), the store is in ascending order, and an ascending page with no
/// cursor holds the first `min(limit, n)` of them, with more after it
/// exactly when `n > limit` and never any before it.
pub proof fn lemma_monotonic_coverage<V>(store: Seq<(Seq<u8>, V)>, n: nat, limit: nat)
    requires
        n <= usize::MAX + 1,
        limit >= 1,
        store.len() == n,
        forall|i: int| 0 <= i < n ==> (#[trigger] store[i]).0 == be_bytes(i as nat, word_width()),
    ensures
        ascending_store(store),
        ({
            let p = page_of_store(store, Direction::Ascending, PaginatedCursor::Start, limit);
            &&& entry_keys(p.0) == Seq::new(
                if n < limit {
                    n
                } else {
                    limit
                },
                |i: int| be_bytes(i as nat, word_width()),
            )
            &&& p.2 == (n > limit)
            &&& !p.1
        }),
{
    lemma_word_width();
    assert forall|i: int, j: int| 0 <= i < j < entry_keys(store).len() implies key_lt(
        #[trigger] entry_keys(store)[i],
        #[trigger] entry_keys(store)[j],
    ) by {
        lemma_be_bytes_order(i as nat, j as nat, word_width());
    }
    let p = page_of_store(store, Direction::Ascending, PaginatedCursor::Start, limit);
    lemma_page_items(store, Direction::Ascending, PaginatedCursor::Start, limit);
    let m = if n < limit {
        n
    } else {
        limit
    };
    assert(entry_keys(p.0) =~= Seq::new(m, |i: int| be_bytes(i as nat, word_width())));
}

/// The entries that remain beyond the key of entry `j` of an ascending store,
/// walking in direction `d`.
proof fn lemma_remaining_at<V>(store: Seq<(Seq<u8>, V)>, d: Direction, j: int)
    requires
        ascending_store(store),
        0 <= j < store.len(),
    ensures
        d == Direction::Ascending ==> remaining(store, d, Some(store[j].0)) == store.subrange(
            j + 1,
            store.len() as int,
        ),
        d == Direction::Descending ==> remaining(store, d, Some(store[j].0)) == store.subrange(
            0,
            j,
        ).reverse(),
{
    lemma_count_not_above_at(store, j);
    lemma_count_below_at(store, j);
}

/// What remains beyond the excluded key is the next window followed by what
/// remains beyond the window's last key.
proof fn lemma_remaining_split<V>(store: Seq<(Seq<u8>, V)>, d: Direction, from: Option<Seq<u8>>, limit: nat)
    requires
        ascending_store(store),
        window(remaining(store, d, from), limit).len() > 0,
    ensures
        ({
            let rem = remaining(store, d, from);
            let w = window(rem, limit);
            rem == w + remaining(store, d, Some(w.last().0))
        }),
{
    let rem = remaining(store, d, from);
    let w = window(rem, limit);
    let m = w.len() as int;
    match d {
        Direction::Ascending => {
            let a: int = match from {
                Option::Some(c) => {
                    lemma_count_not_above(store, c);
                    count_not_above(store, c) as int
                },
                Option::None => 0,
            };
            assert(rem == store.subrange(a, store.len() as int)) by {
                assert(store.subrange(0, store.len() as int) =~= store);
            }
            assert(w.last() == store[a + m - 1]);
            lemma_remaining_at(store, d, a + m - 1);
            assert(rem =~= w + store.subrange(a + m, store.len() as int));
        },
        Direction::Descending => {
            let b: int = match from {
                Option::Some(c) => {
                    lemma_count_below(store, c);
                    count_below(store, c) as int
                },
                Option::None => store.len() as int,
            };
            assert(rem == store.subrange(0, b).reverse()) by {
                assert(store.subrange(0, store.len() as int) =~= store);
            }
            assert(w.last() == store[b - m]);
            lemma_remaining_at(store, d, b - m);
            assert(rem =~= w + store.subrange(0, b - m).reverse());
        },
    }
}

/// One step of a walk through the pages: the entries that remain beyond
/// the cursor are this page followed by what remains beyond its last key,
/// more lies after the page exactly when something remains beyond that key,
/// and a page comes back empty only when nothing remained. A descending
/// walk starts from a key: a descending page with no cursor reports what
/// follows it under `has_more_before`.
pub proof fn lemma_forward_walk_step<V>(
    store: Seq<(Seq<u8>, V)>,
    display: Direction,
    cursor: PaginatedCursor,
    limit: nat,
)
    requires
        ascending_store(store),
        limit >= 1,
        cursor is After || (cursor is Start && display == Direction::Ascending),
    ensures
        ({
            let rem = remaining(store, display, cursor_exclusion(cursor));
            let p = page_of_store(store, display, cursor, limit);
            &&& p.0 == window(rem, limit)
            &&& p.0.len() == 0 <==> rem.len() == 0
            &&& p.0.len() > 0 ==> {
                let rest = remaining(store, display, Some(p.0.last().0));
                &&& rem == p.0 + rest
                &&& p.2 == (rest.len() > 0)
            }
        }),
{
    let p = page_of_store(store, display, cursor, limit);
    lemma_page_items(store, display, cursor, limit);
    if p.0.len() > 0 {
        lemma_remaining_split(store, display, cursor_exclusion(cursor), limit);
    }
}

/// The entries a walk through pages of `limit` returns, starting beyond
/// `from` and taking at most `steps` pages: each page is the next `limit`
/// remaining entries, and the walk goes on past a page's last key while
/// more lie after the page. By `lemma_forward_walk_step`, each such page and
/// its "more after" flag are what a request with an `After` cursor on the
/// previous page's last key is served.
pub open spec fn walk_pages<V>(
    store: Seq<(Seq<u8>, V)>,
    d: Direction,
    from: Option<Seq<u8>>,
    limit: nat,
    steps: nat,
) -> Seq<(Seq<u8>, V)>
    decreases steps,
{
    let rem = remaining(store, d, from);
    let page = window(rem, limit);
    if steps == 0 {
        Seq::empty()
    } else if rem.len() <= limit {
        page
    } else {
        page + walk_pages(store, d, Option::Some(page.last().0), limit, (steps - 1) as nat)
    }
}

/// Forward walk: following each page with the page after its last key, for
/// as many pages as there are entries left, returns every entry beyond the
/// start exactly once, in the order of the walk, and nothing else.
pub proof fn lemma_forward_walk<V>(
    store: Seq<(Seq<u8>, V)>,
    d: Direction,
    from: Option<Seq<u8>>,
    limit: nat,
    steps: nat,
)
    requires
        ascending_store(store),
        limit >= 1,
        remaining(store, d, from).len() <= steps,
    ensures
        walk_pages(store, d, from, limit, steps) == remaining(store, d, from),
    decreases steps,
{
    let rem = remaining(store, d, from);
    if steps == 0 {
        assert(rem =~= Seq::<(Seq<u8>, V)>::empty());
    } else if rem.len() > limit {
        let page = window(rem, limit);
        lemma_remaining_split(store, d, from, limit);
        let rest = remaining(store, d, Option::Some(page.last().0));
        assert(rest.len() == rem.len() - limit);
        lemma_forward_walk(store, d, Option::Some(page.last().0), limit, (steps - 1) as nat);
    }
}

/// Symmetry: the page before a key, shown in one order, is the page after
/// that key shown in the opposite order, reversed; and what lies before the
/// one lies after the other.
pub proof fn lemma_before_mirrors_after<V>(
    store: Seq<(Seq<u8>, V)>,
    display: Direction,
    k: Vec<u8>,
    limit: nat,
)
    ensures
        ({
            let before = page_of_store(store, display, PaginatedCursor::Before(k), limit);
            let after = page_of_store(store, display.flip(), PaginatedCursor::After(k), limit);
            &&& before.0 == after.0.reverse()
            &&& before.1 == after.2
            &&& before.2 == after.1
        }),
{
    let before = page_of_store(store, display, PaginatedCursor::Before(k), limit);
    let after = page_of_store(store, display.flip(), PaginatedCursor::After(k), limit);
    lemma_page_items(store, display, PaginatedCursor::Before(k), limit);
    lemma_page_items(store, display.flip(), PaginatedCursor::After(k), limit);
    assert(before.0 =~= after.0.reverse());
}

/// The model of a store's scan is one of the outcomes a scan may have: the
/// first `n` entries beyond the excluded key, walking in direction `d`, come
/// in the walk's order and all lie beyond that key.
pub proof fn lemma_store_scan_is_outcome<V>(store: Seq<(Seq<u8>, V)>, d: Direction, from: Option<Seq<u8>>, n: nat)
    requires
        ascending_store(store),
    ensures
        is_scan_outcome(entry_keys(window(remaining(store, d, from), n)), d, from, n),
{
    let rem = remaining(store, d, from);
    let (lo, hi): (int, int) = match (d, from) {
        (Direction::Ascending, Option::Some(c)) => {
            lemma_count_not_above(store, c);
            (count_not_above(store, c) as int, store.len() as int)
        },
        (Direction::Descending, Option::Some(c)) => {
            lemma_count_below(store, c);
            (0, count_below(store, c) as int)
        },
        _ => (0, store.len() as int),
    };
    assert(store.subrange(0, store.len() as int) =~= store);
    let w = window(rem, n);
    let ks = entry_keys(w);
    assert forall|i: int, j: int| 0 <= i < j < ks.len() implies crate::model::precedes(
        #[trigger] ks[i],
        #[trigger] ks[j],
        d,
    ) by {
        match d {
            Direction::Ascending => {
                assert(store.subrange(lo, hi) == rem);
                lemma_ascending_at(store, lo + i, lo + j);
            },
            Direction::Descending => {
                assert(store.subrange(lo, hi).reverse() == rem);
                lemma_ascending_at(store, hi - 1 - j, hi - 1 - i);
            },
        }
    }
    assert forall|i: int| 0 <= i < ks.len() implies crate::model::beyond(#[trigger] ks[i], d, from) by {
        match d {
            Direction::Ascending => {
                assert(store.subrange(lo, hi) == rem);
                assert(ks[i] == store[lo + i].0);
            },
            Direction::Descending => {
                assert(store.subrange(lo, hi).reverse() == rem);
                assert(ks[i] == store[hi - 1 - i].0);
            },
        }
    }
}

/// Whatever the cursor, a page served from an ascending store holds at most
/// `limit` items, and they come in display order.
pub proof fn lemma_page_in_display_order<V>(
    store: Seq<(Seq<u8>, V)>,
    display: Direction,
    cursor: PaginatedCursor,
    limit: nat,
)
    requires
        ascending_store(store),
    ensures
        page_of_store(store, display, cursor, limit).0.len() <= limit,
        ordered(entry_keys(page_of_store(store, display, cursor, limit).0), display),
{
    let d = scan_direction(display, cursor);
    let rem = remaining(store, d, cursor_exclusion(cursor));
    let p = page_of_store(store, display, cursor, limit);
    lemma_page_items(store, display, cursor, limit);
    lemma_store_scan_is_outcome(store, d, cursor_exclusion(cursor), limit);
    let w = window(rem, limit);
    if d != display {
        assert forall|i: int, j: int| 0 <= i < j < entry_keys(p.0).len() implies crate::model::precedes(
            #[trigger] entry_keys(p.0)[i],
            #[trigger] entry_keys(p.0)[j],
            display,
        ) by {
            let n = w.len() as int;
            assert(entry_keys(p.0)[i] == entry_keys(w)[n - 1 - i]);
            assert(entry_keys(p.0)[j] == entry_keys(w)[n - 1 - j]);
        }
    }
}

} // verus!
