//! The cancellation of expired orders.
use crate::clock::is_moment;
use crate::number::Number;
use crate::orders::{is_walk, walk};
use crate::run::{
    order_models, RuntimeModel, RuntimeState, Side, VolatileOrder, VolatileOrderModel,
    BUY_ORDER_TTL, CANCEL_RETRY_DELAY, LIQUIDATION_SELL_ORDER_TTL, SELL_ORDER_TTL,
};
use crate::state::{OpenOrder, OpenOrderModel};
use crate::text::same_text;
use std::collections::HashMap;
use vstd::prelude::*;

verus! {

/// The lifetime of an order. During liquidation a buy expires at once.
pub open spec fn lifetime(side: Side, liquidating: bool) -> int {
    match (side, liquidating) {
        (Side::Buy, true) => 0,
        (Side::Sell, true) => LIQUIDATION_SELL_ORDER_TTL as int,
        (Side::Buy, false) => BUY_ORDER_TTL as int,
        (Side::Sell, false) => SELL_ORDER_TTL as int,
    }
}

/// Whether an order has expired, and its last cancellation attempt is old enough to retry.
pub open spec fn due(order: OpenOrderModel, side: Side, liquidating: bool, now: i128) -> bool {
    &&& now >= order.created_at + lifetime(side, liquidating)
    &&& order.last_cancelled_at matches Some(attempt) ==> now >= attempt + CANCEL_RETRY_DELAY
}

/// Determine whether an open order has expired and is eligible for another cancellation attempt.
pub fn cancellation_due(order: &OpenOrder, side: Side, liquidating: bool, now: i128) -> (result:
    bool)
    requires
        is_moment(now as int),
    ensures
        result == due(order@, side, liquidating, now),
{
    // Apply the liquidation lifetime or the normal side-specific lifetime.
    let time_to_live: i128 = if liquidating {
        match side {
            Side::Buy => 0,
            Side::Sell => LIQUIDATION_SELL_ORDER_TTL,
        }
    } else {
        match side {
            Side::Buy => BUY_ORDER_TTL,
            Side::Sell => SELL_ORDER_TTL,
        }
    };

    // Space repeated cancellation requests even after the order has expired.
    now - time_to_live >= order.created_at && match order.last_cancelled_at {
        Some(attempt) => now - CANCEL_RETRY_DELAY >= attempt,
        None => true,
    }
}

/// The identifier of the order with a reference. Should several have it, the last on the walk.
pub open spec fn id_along<N>(
    ids: Seq<i32>,
    orders: Map<i32, VolatileOrderModel<N>>,
    order_ref: Seq<char>,
) -> Option<i32>
    decreases ids.len(),
{
    if ids.len() == 0 {
        None
    } else if orders[ids.last()].order_ref == order_ref {
        Some(ids.last())
    } else {
        id_along(ids.drop_last(), orders, order_ref)
    }
}

/// Find the order with a reference.
fn find_id<N>(
    ids: &Vec<i32>,
    orders: &HashMap<i32, VolatileOrder<N>>,
    order_ref: &str,
) -> (result: Option<i32>)
    requires
        is_walk(ids@, orders@),
    ensures
        result == id_along(ids@, order_models(orders@), order_ref@),
        result matches Some(id) ==> orders@.contains_key(id),
{
    let mut found: Option<i32> = None;
    for index in 0..ids.len()
        invariant
            is_walk(ids@, orders@),
            found == id_along(ids@.take(index as int), order_models(orders@), order_ref@),
            found matches Some(id) ==> orders@.contains_key(id),
    {
        let id: i32 = ids[index];
        assert(ids@.contains(id));
        assert(ids@.take(index + 1).drop_last() =~= ids@.take(index as int));
        if let Some(order) = orders.get(&id) {
            if same_text(&order.order_ref, order_ref) {
                found = Some(id);
            }
        }
    }
    assert(ids@.take(ids.len() as int) =~= ids@);
    found
}

/// Whether a durable order is to be cancelled. One that the connection does not know is not.
pub open spec fn due_along<N>(
    ids: Seq<i32>,
    orders: Map<i32, VolatileOrderModel<N>>,
    order: OpenOrderModel,
    symbol: Seq<char>,
    liquidating: bool,
    now: i128,
) -> bool {
    match id_along(ids, orders, order.order_ref) {
        Some(id) => due(
            order,
            orders[id].side,
            liquidating && orders[id].symbol == symbol,
            now,
        ),
        None => false,
    }
}

/// A durable order after its cancellation attempt, if it is due, has been recorded.
pub open spec fn attempted<N>(
    ids: Seq<i32>,
    orders: Map<i32, VolatileOrderModel<N>>,
    order: OpenOrderModel,
    symbol: Seq<char>,
    liquidating: bool,
    now: i128,
) -> OpenOrderModel {
    if due_along(ids, orders, order, symbol, liquidating, now) {
        OpenOrderModel { last_cancelled_at: Some(now), ..order }
    } else {
        order
    }
}

/// The orders to cancel, each by its connection-specific identifier and its reference.
pub open spec fn cancellations<N>(
    ids: Seq<i32>,
    orders: Map<i32, VolatileOrderModel<N>>,
    persistent: Seq<OpenOrderModel>,
    symbol: Seq<char>,
    liquidating: bool,
    now: i128,
) -> Seq<(i32, Seq<char>)>
    decreases persistent.len(),
{
    if persistent.len() == 0 {
        Seq::empty()
    } else {
        let earlier = cancellations(
            ids,
            orders,
            persistent.drop_last(),
            symbol,
            liquidating,
            now,
        );
        let order = persistent.last();
        if due_along(ids, orders, order, symbol, liquidating, now) {
            earlier.push((id_along(ids, orders, order.order_ref)->0, order.order_ref))
        } else {
            earlier
        }
    }
}

/// The identifiers and references of a list of cancellations.
pub open spec fn cancellation_models(attempts: Seq<(i32, String)>) -> Seq<(i32, Seq<char>)> {
    attempts.map_values(|attempt: (i32, String)| (attempt.0, attempt.1@))
}

/// The state after the cancellation attempts that are due have been recorded.
pub open spec fn with_attempts<N>(
    ids: Seq<i32>,
    state: RuntimeModel<N>,
    symbol: Seq<char>,
    liquidating: bool,
    now: i128,
) -> RuntimeModel<N> {
    RuntimeModel {
        persistent: state.persistent.map_values(
            |order: OpenOrderModel|
                attempted(ids, state.volatile.open_orders, order, symbol, liquidating, now),
        ),
        ..state
    }
}

/// Record every cancellation attempt that is due, for open orders walked in a given order.
pub fn cancel_expired_orders_along<N: Number>(
    state: &mut RuntimeState<N>,
    ids: &Vec<i32>,
    symbol: &str,
    liquidating: bool,
    now: i128,
) -> (attempts: Vec<(i32, String)>)
    requires
        is_walk(ids@, old(state)@.volatile.open_orders),
        is_moment(now as int),
    ensures
        final(state)@ == with_attempts(ids@, old(state)@, symbol@, liquidating, now),
        cancellation_models(attempts@) == cancellations(
            ids@,
            old(state)@.volatile.open_orders,
            old(state)@.persistent,
            symbol@,
            liquidating,
            now,
        ),
{
    let ghost before = state@;
    let ghost orders = before.volatile.open_orders;
    let mut attempts: Vec<(i32, String)> = Vec::new();
    assert(is_walk(ids@, state.volatile.open_orders@)) by {
        assert forall|id: i32|
            ids@.contains(id) <==> #[trigger] state.volatile.open_orders@.contains_key(id) by {
            assert(orders.contains_key(id) <==> state.volatile.open_orders@.contains_key(id));
        }
    }
    assert(cancellation_models(attempts@) =~= Seq::empty());
    let count: usize = state.persistent.open_orders.len();
    for index in 0..count
        invariant
            count == before.persistent.len(),
            is_walk(ids@, state.volatile.open_orders@),
            is_moment(now as int),
            orders == before.volatile.open_orders,
            state.volatile@ == before.volatile,
            state@.persistent.len() == before.persistent.len(),
            forall|place: int|
                0 <= place < before.persistent.len() ==> (#[trigger] state@.persistent[place])
                    == if place < index {
                    attempted(ids@, orders, before.persistent[place], symbol@, liquidating, now)
                } else {
                    before.persistent[place]
                },
            cancellation_models(attempts@) == cancellations(
                ids@,
                orders,
                before.persistent.take(index as int),
                symbol@,
                liquidating,
                now,
            ),
    {
        let ghost previous = state@.persistent;
        let ghost earlier = attempts@;
        assert(state@.persistent[index as int] == before.persistent[index as int]);
        assert(before.persistent.take(index + 1).drop_last() =~= before.persistent.take(
            index as int,
        ));
        let order = &state.persistent.open_orders[index];
        if let Some(id) = find_id(ids, &state.volatile.open_orders, &order.order_ref) {
            if let Some(details) = state.volatile.open_orders.get(&id) {
                assert(details@ == orders[id]);
                let liquidation_order = liquidating && same_text(&details.symbol, symbol);
                if cancellation_due(order, details.side, liquidation_order, now) {
                    attempts.push((id, order.order_ref.clone()));
                    state.persistent.open_orders[index].last_cancelled_at = Some(now);
                    assert(cancellation_models(attempts@) =~= cancellation_models(earlier).push(
                        (id, before.persistent[index as int].order_ref),
                    ));
                }
            }
        }
        assert forall|place: int| 0 <= place < before.persistent.len() && place != index implies (
        #[trigger] state@.persistent[place]) == previous[place] by {}
    }
    assert(before.persistent.take(before.persistent.len() as int) =~= before.persistent);
    assert(state@ =~~= with_attempts(ids@, before, symbol@, liquidating, now));
    attempts
}

/// Record every cancellation attempt that is due. The result lists the orders to cancel; durable
/// state has changed and must be saved if there are any.
pub fn cancel_expired_orders<N: Number>(
    state: &mut RuntimeState<N>,
    symbol: &str,
    liquidating: bool,
    now: i128,
) -> (attempts: Vec<(i32, String)>)
    requires
        is_moment(now as int),
    ensures
        exists|ids: Seq<i32>| #[trigger]
            is_walk(ids, old(state)@.volatile.open_orders) && final(state)@ == with_attempts(
                ids,
                old(state)@,
                symbol@,
                liquidating,
                now,
            ) && cancellation_models(attempts@) == cancellations(
                ids,
                old(state)@.volatile.open_orders,
                old(state)@.persistent,
                symbol@,
                liquidating,
                now,
            ),
{
    let ids = walk(&state.volatile.open_orders);
    cancel_expired_orders_along(state, &ids, symbol, liquidating, now)
}

} // verus!
