//! Windows over ordered results.

use vstd::prelude::*;

verus! {

/// The window of at most `limit` items that starts after the first `offset`
/// items. It is empty where `offset` reaches past the end.
pub open spec fn page_of<T>(items: Seq<T>, limit: int, offset: int) -> Seq<T>
    recommends
        0 <= limit,
        0 <= offset,
{
    let start = if offset < items.len() {
        offset
    } else {
        items.len() as int
    };
    let end = if start + limit < items.len() {
        start + limit
    } else {
        items.len() as int
    };
    items.subrange(start, end)
}

/// Consecutive windows neither overlap nor leave a gap: a window followed
/// by the window that starts where it ends is the window of twice the size.
pub proof fn lemma_pages_adjoin<T>(items: Seq<T>, limit: int, offset: int)
    requires
        0 <= limit,
        0 <= offset,
    ensures
        page_of(items, limit, offset) + page_of(items, limit, offset + limit) == page_of(
            items,
            2 * limit,
            offset,
        ),
{
    assert(page_of(items, limit, offset) + page_of(items, limit, offset + limit) =~= page_of(
        items,
        2 * limit,
        offset,
    ));
}

/// A window holds at most `limit` items, and its items are those of the
/// sequence from position `offset` on, in order.
pub proof fn lemma_page_is_subrange<T>(items: Seq<T>, limit: int, offset: int)
    requires
        0 <= limit,
        0 <= offset,
    ensures
        page_of(items, limit, offset).len() <= limit,
        offset + limit <= items.len() ==> page_of(items, limit, offset) == items.subrange(
            offset,
            offset + limit,
        ),
        forall|i: int|
            0 <= i < page_of(items, limit, offset).len() ==> page_of(items, limit, offset)[i]
                == items[offset + i],
{
}

/// A sequence of no more than `limit` items is its own first window.
pub proof fn lemma_first_page_holds_all<T>(items: Seq<T>, limit: int)
    requires
        items.len() <= limit,
    ensures
        page_of(items, limit, 0) == items,
{
    assert(page_of(items, limit, 0) =~= items);
}

/// Cuts the window of at most `limit` items after the first `offset` items
/// out of a list.
pub fn page<T>(items: Vec<T>, limit: usize, offset: usize) -> (r: Vec<T>)
    ensures
        r@ == page_of(items@, limit as int, offset as int),
{
    let ghost all = items@;
    let mut items = items;
    let start: usize = if offset < items.len() {
        offset
    } else {
        items.len()
    };
    let mut window = items.split_off(start);
    window.truncate(limit);
    assert(window@ =~= page_of(all, limit as int, offset as int));
    window
}

} // verus!
