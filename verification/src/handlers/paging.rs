//! The window that `offset` and `limit` cut out of a result list.

use vstd::prelude::*;

verus! {

/// Where the page begins: at `offset`, or at the end of a shorter list.
pub open spec fn page_start(total: nat, offset: nat) -> nat {
    if offset < total {
        offset
    } else {
        total
    }
}

/// Where the page ends: `limit` items on, or at the end of the list.
pub open spec fn page_end(total: nat, offset: nat, limit: nat) -> nat {
    if page_start(total, offset) + limit < total {
        page_start(total, offset) + limit
    } else {
        total
    }
}

/// The items of the page.
pub open spec fn page<T>(items: Seq<T>, offset: nat, limit: nat) -> Seq<T> {
    items.subrange(
        page_start(items.len(), offset) as int,
        page_end(items.len(), offset, limit) as int,
    )
}

/// Whether items are left behind a page of `returned` items at `offset`.
pub open spec fn has_more(total: nat, offset: nat, returned: nat) -> bool {
    total > offset + returned
}

/// Computes the bounds of a page over a list of `total` items.
pub fn page_bounds(total: usize, offset: u64, limit: u64) -> (bounds: (usize, usize))
    ensures
        bounds.0 == page_start(total as nat, offset as nat),
        bounds.1 == page_end(total as nat, offset as nat, limit as nat),
        bounds.0 <= bounds.1 <= total,
{
    let start: usize = if offset < total as u64 {
        offset as usize
    } else {
        total
    };
    let room: usize = total - start;
    let end: usize = if limit < room as u64 {
        start + limit as usize
    } else {
        total
    };
    (start, end)
}

/// Decides [`has_more`].
pub fn more_after(total: usize, offset: u64, returned: usize) -> (more: bool)
    ensures
        more == has_more(total as nat, offset as nat, returned as nat),
{
    if offset >= total as u64 {
        false
    } else {
        total as u64 - offset > returned as u64
    }
}

/// The page number `k`, counted from zero, among pages of `limit` items.
pub open spec fn nth_page<T>(items: Seq<T>, limit: nat, k: nat) -> Seq<T> {
    page(items, k * limit, limit)
}

/// Whether the page number `k` reports that items are left behind it.
pub open spec fn more_after_page<T>(items: Seq<T>, limit: nat, k: nat) -> bool {
    has_more(items.len(), k * limit, nth_page(items, limit, k).len())
}

/// The first `count` pages of `limit` items, one after the other.
pub open spec fn pages_through<T>(items: Seq<T>, limit: nat, count: nat) -> Seq<T>
    decreases count,
{
    if count == 0 {
        Seq::empty()
    } else {
        pages_through(items, limit, (count - 1) as nat) + nth_page(
            items,
            limit,
            (count - 1) as nat,
        )
    }
}

/// The first `count` pages make up the first `count * limit` items.
pub proof fn lemma_pages_are_a_prefix<T>(items: Seq<T>, limit: nat, count: nat)
    ensures
        pages_through(items, limit, count) == items.take(
            page_start(items.len(), count * limit) as int,
        ),
    decreases count,
{
    if count == 0 {
        assert(0 * limit == 0) by (nonlinear_arith);
        assert(items.take(0) =~= Seq::<T>::empty());
    } else {
        let before = (count - 1) as nat;
        lemma_pages_are_a_prefix(items, limit, before);
        assert(before * limit + limit == count * limit) by (nonlinear_arith)
            requires
                before == count - 1,
        ;
        assert(pages_through(items, limit, count) =~= items.take(
            page_start(items.len(), count * limit) as int,
        ));
    }
}

/// Pagination law: pages of `limit` items fetched at offsets `0`, `limit`,
/// `2 * limit`, ... up to the first page that reports nothing more, put one
/// after the other, are the whole list, which is the single page at offset
/// `0` with the total as its limit.
pub proof fn lemma_pagination<T>(items: Seq<T>, limit: nat, count: nat)
    requires
        limit > 0,
        count > 0,
        !more_after_page(items, limit, (count - 1) as nat),
    ensures
        pages_through(items, limit, count) == page(items, 0, items.len()),
        page(items, 0, items.len()) == items,
{
    lemma_pages_are_a_prefix(items, limit, count);
    let before = (count - 1) as nat;
    assert(before * limit + limit == count * limit) by (nonlinear_arith)
        requires
            before == count - 1,
    ;
    assert(items.take(items.len() as int) =~= items);
    assert(page(items, 0, items.len()) =~= items);
}

} // verus!
