//! What the bridge asks of the Grocy REST API when a tag's count changes.
use vstd::prelude::*;

verus! {

/// The Grocy stock operation that brings Grocy from one count to another.
#[derive(Debug, Clone, Copy, PartialEq, Eq, Structural)]
pub enum StockSync {
    /// `POST /api/stock/products/{id}/add` with this (positive) amount.
    Add(i32),
    /// `POST /api/stock/products/{id}/consume` with this (positive) amount.
    Consume(i32),
    /// Nothing to do: the count did not change.
    Unchanged,
}

/// The Grocy operation that takes Grocy from `previous` to `new_count`.
pub open spec fn stock_sync_of(previous: int, new_count: int) -> StockSync {
    if new_count - previous > 0 {
        StockSync::Add((new_count - previous) as i32)
    } else if new_count - previous < 0 {
        StockSync::Consume((previous - new_count) as i32)
    } else {
        StockSync::Unchanged
    }
}

/// Synchronise a physical count to Grocy: `delta = new_count - previous`;
/// a positive delta is added, a negative one consumed, zero needs nothing.
///
/// The difference and its negation must fit in an `i32`.
pub fn sync_stock_action(previous: i32, new_count: i32) -> (r: StockSync)
    requires
        i32::MIN < new_count - previous <= i32::MAX,
    ensures
        r == stock_sync_of(previous as int, new_count as int),
{
    let delta = new_count - previous;
    if delta > 0 {
        StockSync::Add(delta)
    } else if delta < 0 {
        StockSync::Consume(-delta)
    } else {
        StockSync::Unchanged
    }
}

} // verus!
