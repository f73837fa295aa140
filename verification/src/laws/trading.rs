//! Laws of the live trading bot.
use crate::cancellation::{cancellations, due, due_along, id_along, lifetime, with_attempts};
use crate::control::{is_control_step, ControlStep};
use crate::number::Number;
use crate::orders::{
    is_walk, managed, reconciled, references, with_listed, with_new_order, with_open_order,
    with_reported, with_status, OrderData, OrderStatus, OrderUpdate,
};
use crate::run::{
    empty_volatile, stale, with_metric, with_position, with_quote, without_stale_quotes,
    PositionUpdate, RuntimeModel, Side, VolatileModel, VolatileOrderModel, CANCEL_RETRY_DELAY,
    ORDER_REF_PREFIX, QUOTE_MAX_AGE,
};
use crate::state::OpenOrderModel;
use crate::table::position;
use vstd::prelude::*;

verus! {

// Quotes and metrics

/// Whether each side of the quote has a price exactly when it has a moment.
pub open spec fn quotes_timed<N>(state: VolatileModel<N>) -> bool {
    &&& state.bid_price is Some <==> state.bid_price_timestamp is Some
    &&& state.ask_price is Some <==> state.ask_price_timestamp is Some
}

/// Whether the account metrics that have been retained are finite.
pub open spec fn metrics_finite<N: Number>(state: VolatileModel<N>) -> bool {
    &&& state.equity_with_loan_value matches Some(equity) ==> equity.is_finite_spec()
    &&& state.init_margin_req matches Some(margin) ==> margin.is_finite_spec()
}

/// The state of a new connection has timed quotes and finite metrics.
pub proof fn law_new_connections_are_sound<N: Number>()
    ensures
        quotes_timed(empty_volatile::<N>()),
        metrics_finite(empty_volatile::<N>()),
{
}

/// A quote leaves each side with a price exactly when it has a moment, whatever was there
/// before, and the price is positive.
pub proof fn law_quotes_are_timed<N: Number>(
    state: VolatileModel<N>,
    bid_price: N,
    ask_price: N,
    moment: i128,
)
    ensures
        quotes_timed(with_quote(state, bid_price, ask_price, moment)),
        metrics_finite(state) ==> metrics_finite(
            with_quote(state, bid_price, ask_price, moment),
        ),
{
}

/// Account metrics, positions, and the clearing of stale quotes keep quotes timed and metrics
/// finite.
pub proof fn law_updates_keep_state_sound<N: Number>(
    state: VolatileModel<N>,
    tag: Seq<char>,
    value: Seq<char>,
    symbol: Seq<char>,
    update: PositionUpdate<N>,
    now: i128,
)
    requires
        quotes_timed(state),
        metrics_finite(state),
    ensures
        quotes_timed(with_metric(state, tag, value)),
        metrics_finite(with_metric(state, tag, value)),
        quotes_timed(with_position(state, symbol, update)),
        metrics_finite(with_position(state, symbol, update)),
        quotes_timed(without_stale_quotes(state, now)),
        metrics_finite(without_stale_quotes(state, now)),
{
}

/// After stale quotes have been cleared, no quote is older than the limit, and clearing them
/// again at the same moment changes nothing.
pub proof fn law_no_stale_quote_is_left<N>(state: VolatileModel<N>, now: i128)
    ensures
        !stale(without_stale_quotes(state, now).bid_price_timestamp, now),
        !stale(without_stale_quotes(state, now).ask_price_timestamp, now),
        without_stale_quotes(without_stale_quotes(state, now), now) == without_stale_quotes(
            state,
            now,
        ),
{
}

/// A quote exactly at the age limit is kept, and each side is cleared by its own moment alone.
pub proof fn law_fresh_quotes_are_kept<N>(state: VolatileModel<N>, now: i128)
    ensures
        (state.bid_price_timestamp matches Some(moment) ==> moment >= now - QUOTE_MAX_AGE) ==> (
        without_stale_quotes(state, now).bid_price == state.bid_price),
        (state.ask_price_timestamp matches Some(moment) ==> moment >= now - QUOTE_MAX_AGE) ==> (
        without_stale_quotes(state, now).ask_price == state.ask_price),
{
}

// Orders

/// Whether every order that the connection knows is also recorded durably.
pub open spec fn synchronized<N>(state: RuntimeModel<N>) -> bool {
    forall|id: i32| #[trigger]
        state.volatile.open_orders.contains_key(id) ==> references(state.persistent).contains(
            state.volatile.open_orders[id].order_ref,
        )
}

proof fn lemma_references_of_push(orders: Seq<OpenOrderModel>, order: OpenOrderModel)
    ensures
        references(orders.push(order)) == references(orders).push(order.order_ref),
{
    assert(references(orders.push(order)) =~= references(orders).push(order.order_ref));
}

/// Every reference is found where it first stands.
proof fn lemma_position(names: Seq<Seq<char>>, name: Seq<char>)
    ensures
        match position(names, name) {
            Some(index) => 0 <= index < names.len() && names[index] == name,
            None => !names.contains(name),
        },
    decreases names.len(),
{
    if names.len() > 0 {
        lemma_position(names.drop_last(), name);
        match position(names.drop_last(), name) {
            Some(index) => {
                assert(names.drop_last()[index] == names[index]);
            },
            None => {
                assert forall|index: int| 0 <= index < names.len() && names.last()
                    != name implies names[index] != name by {
                    if index < names.len() - 1 {
                        assert(names.drop_last()[index] == names[index]);
                    }
                }
            },
        }
    }
}

/// What a reference has in common with the bot's own orders is their prefix: the reference of a
/// new order is always recognized.
pub proof fn law_own_references_are_recognized(identifier: Seq<char>)
    ensures
        managed(ORDER_REF_PREFIX@ + identifier),
{
    let order_ref = ORDER_REF_PREFIX@ + identifier;
    assert(order_ref.subrange(0, ORDER_REF_PREFIX@.len() as int) =~= ORDER_REF_PREFIX@);
}

/// Recording a new order keeps both representations synchronized, and adds it to both.
pub proof fn law_new_orders_are_synchronized<N: Number>(
    state: RuntimeModel<N>,
    order_id: i32,
    order_ref: Seq<char>,
    symbol: Seq<char>,
    side: Side,
    shares: N,
    limit: N,
    now: i128,
)
    requires
        synchronized(state),
    ensures
        ({
            let after = with_new_order(
                state,
                order_id,
                order_ref,
                symbol,
                side,
                shares,
                limit,
                now,
            );
            &&& synchronized(after)
            &&& after.persistent.last().order_ref == order_ref
            &&& after.volatile.open_orders[order_id].order_ref == order_ref
        }),
{
    let after = with_new_order(state, order_id, order_ref, symbol, side, shares, limit, now);
    lemma_references_of_push(state.persistent, after.persistent.last());
    let names = references(state.persistent);
    assert forall|id: i32| #[trigger]
        after.volatile.open_orders.contains_key(id) implies references(
        after.persistent,
    ).contains(after.volatile.open_orders[id].order_ref) by {
        if id == order_id {
            assert(names.push(order_ref)[names.len() as int] == order_ref);
        } else {
            let known = state.volatile.open_orders[id].order_ref;
            assert(state.volatile.open_orders.contains_key(id));
            let index = choose|index: int| 0 <= index < names.len() && names[index] == known;
            assert(names.push(order_ref)[index] == known);
        }
    }
}

/// The references after an order has been reported.
proof fn lemma_references_of_reported(
    orders: Seq<OpenOrderModel>,
    order_ref: Seq<char>,
    perm_id: Option<i64>,
    now: i128,
)
    ensures
        references(with_reported(orders, order_ref, perm_id, now)) == if references(
            orders,
        ).contains(order_ref) {
            references(orders)
        } else {
            references(orders).push(order_ref)
        },
{
    lemma_position(references(orders), order_ref);
    let after = with_reported(orders, order_ref, perm_id, now);
    match position(references(orders), order_ref) {
        Some(index) => {
            assert(references(orders)[index] == order_ref);
            assert(references(after) =~= references(orders));
        },
        None => {
            lemma_references_of_push(orders, after.last());
        },
    }
}

/// Reporting an open order keeps both representations synchronized.
pub proof fn law_reported_orders_are_synchronized<N: Number>(
    state: RuntimeModel<N>,
    data: OrderData<N>,
    order: VolatileOrderModel<N>,
    now: i128,
)
    requires
        synchronized(state),
        order.order_ref == data.order_ref@,
    ensures
        synchronized(with_open_order(state, data, order, now)),
{
    let after = with_open_order(state, data, order, now);
    let names = references(state.persistent);
    lemma_references_of_reported(
        state.persistent,
        data.order_ref@,
        crate::orders::assigned(data.perm_id),
        now,
    );
    assert forall|id: i32| #[trigger]
        after.volatile.open_orders.contains_key(id) implies references(
        after.persistent,
    ).contains(after.volatile.open_orders[id].order_ref) by {
        let extended = names.push(data.order_ref@);
        assert(extended[names.len() as int] == data.order_ref@);
        if id != data.order_id {
            let known = state.volatile.open_orders[id].order_ref;
            assert(state.volatile.open_orders.contains_key(id));
            let index = choose|index: int| 0 <= index < names.len() && names[index] == known;
            assert(extended[index] == known);
        }
    }
}

/// An order that is already recorded keeps its age and its cancellation attempts when it is
/// reported, only its first record takes over the permanent identifier, and reporting it again
/// changes nothing.
pub proof fn law_reports_keep_the_age_of_orders(
    orders: Seq<OpenOrderModel>,
    order_ref: Seq<char>,
    perm_id: Option<i64>,
    first: i128,
    second: i128,
)
    requires
        references(orders).contains(order_ref),
    ensures
        ({
            let after = with_reported(orders, order_ref, perm_id, first);
            &&& after.len() == orders.len()
            &&& forall|index: int|
                0 <= index < orders.len() ==> {
                    &&& (#[trigger] after[index]).order_ref == orders[index].order_ref
                    &&& after[index].created_at == orders[index].created_at
                    &&& after[index].last_cancelled_at == orders[index].last_cancelled_at
                }
            &&& with_reported(after, order_ref, perm_id, second) == after
        }),
{
    lemma_position(references(orders), order_ref);
    lemma_references_of_reported(orders, order_ref, perm_id, first);
    let after = with_reported(orders, order_ref, perm_id, first);
    assert(with_reported(after, order_ref, perm_id, second) =~= after);
}

/// A filter keeps what meets it, and nothing else.
proof fn lemma_filter_contains<A>(items: Seq<A>, keeps: spec_fn(A) -> bool, item: A)
    ensures
        items.filter(keeps).contains(item) <==> items.contains(item) && keeps(item),
    decreases items.len(),
{
    reveal(Seq::filter);
    if items.len() > 0 {
        let rest = items.drop_last();
        let kept = rest.filter(keeps);
        lemma_filter_contains(rest, keeps, item);
        assert(items =~= rest.push(items.last()));
        lemma_push_contains(rest, items.last(), item);
        lemma_push_contains(kept, items.last(), item);
    }
}

proof fn lemma_push_contains<A>(items: Seq<A>, last: A, item: A)
    ensures
        items.push(last).contains(item) <==> items.contains(item) || item == last,
{
    let extended = items.push(last);
    assert(extended[items.len() as int] == last);
    if items.contains(item) {
        let index = choose|index: int| 0 <= index < items.len() && items[index] == item;
        assert(extended[index] == item);
    }
    if extended.contains(item) && item != last {
        let index = choose|index: int| 0 <= index < extended.len() && extended[index] == item;
        assert(items[index] == item);
    }
}

/// When an order that the connection knows has ended, it is gone from both representations, and
/// every order with another reference stays.
pub proof fn law_ended_orders_are_forgotten<N: Number>(
    state: RuntimeModel<N>,
    status: OrderStatus<N>,
    order: OpenOrderModel,
)
    requires
        status.status.terminal(),
        state.volatile.open_orders.contains_key(status.order_id),
    ensures
        ({
            let after = with_status(state, status);
            let order_ref = state.volatile.open_orders[status.order_id].order_ref;
            &&& !after.volatile.open_orders.contains_key(status.order_id)
            &&& after.persistent.contains(order) <==> state.persistent.contains(order)
                && order.order_ref != order_ref
        }),
{
    let order_ref = state.volatile.open_orders[status.order_id].order_ref;
    lemma_filter_contains(
        state.persistent,
        |order: OpenOrderModel| order.order_ref != order_ref,
        order,
    );
}

/// When an order that the connection does not know has ended, what has its permanent identifier
/// is gone, and everything else stays.
pub proof fn law_unknown_orders_are_forgotten_by_permanent_id<N: Number>(
    state: RuntimeModel<N>,
    status: OrderStatus<N>,
    order: OpenOrderModel,
)
    requires
        status.status.terminal(),
        !state.volatile.open_orders.contains_key(status.order_id),
    ensures
        ({
            let after = with_status(state, status);
            &&& after.volatile == state.volatile
            &&& after.persistent.contains(order) <==> state.persistent.contains(order) && (
            status.perm_id == 0 || order.perm_id != Some(status.perm_id))
        }),
{
    let after = with_status(state, status);
    assert(after.volatile.open_orders =~= state.volatile.open_orders);
    lemma_filter_contains(
        state.persistent,
        |order: OpenOrderModel| order.perm_id != Some(status.perm_id),
        order,
    );
}

proof fn lemma_filter_all<A>(items: Seq<A>, keeps: spec_fn(A) -> bool)
    requires
        forall|index: int| 0 <= index < items.len() ==> keeps(#[trigger] items[index]),
    ensures
        items.filter(keeps) == items,
    decreases items.len(),
{
    reveal(Seq::filter);
    if items.len() > 0 {
        assert forall|index: int| 0 <= index < items.drop_last().len() implies keeps(
            #[trigger] items.drop_last()[index],
        ) by {
            assert(keeps(items[index]));
        }
        lemma_filter_all(items.drop_last(), keeps);
        assert(keeps(items[items.len() - 1]));
        assert(items.drop_last().push(items.last()) =~= items);
    }
}

/// Recording a new order under a fresh identifier and a fresh reference, and learning that it has
/// ended, leaves the state as it was.
pub proof fn law_an_ended_order_leaves_no_trace<N: Number>(
    state: RuntimeModel<N>,
    order_id: i32,
    order_ref: Seq<char>,
    symbol: Seq<char>,
    side: Side,
    shares: N,
    limit: N,
    now: i128,
    status: OrderStatus<N>,
)
    requires
        !state.volatile.open_orders.contains_key(order_id),
        !references(state.persistent).contains(order_ref),
        status.order_id == order_id,
        status.status.terminal(),
    ensures
        with_status(
            with_new_order(state, order_id, order_ref, symbol, side, shares, limit, now),
            status,
        ) == state,
{
    let placed = with_new_order(state, order_id, order_ref, symbol, side, shares, limit, now);
    let after = with_status(placed, status);
    let keeps = |order: OpenOrderModel| order.order_ref != order_ref;
    assert forall|index: int| 0 <= index < state.persistent.len() implies keeps(
        #[trigger] state.persistent[index],
    ) by {
        assert(references(state.persistent)[index] == state.persistent[index].order_ref);
    }
    lemma_filter_all(state.persistent, keeps);
    assert(placed.persistent.drop_last() =~= state.persistent);
    reveal(Seq::filter);
    assert(after.persistent == state.persistent);
    assert(after.volatile.open_orders =~= state.volatile.open_orders);
    assert(after =~= state);
}

/// A status of an order that is still open changes nothing durable, and of the connection's
/// orders only the shares of that one.
pub proof fn law_open_statuses_change_only_shares<N: Number>(
    state: RuntimeModel<N>,
    status: OrderStatus<N>,
    id: i32,
)
    requires
        !status.status.terminal(),
    ensures
        ({
            let after = with_status(state, status);
            let orders = state.volatile.open_orders;
            &&& after.persistent == state.persistent
            &&& after.volatile.open_orders.dom() == orders.dom()
            &&& id != status.order_id ==> after.volatile.open_orders[id] == orders[id]
            &&& orders.contains_key(status.order_id) ==> {
                let order = after.volatile.open_orders[status.order_id];
                &&& order.order_ref == orders[status.order_id].order_ref
                &&& order.symbol == orders[status.order_id].symbol
                &&& order.price == orders[status.order_id].price
                &&& order.side == orders[status.order_id].side
                &&& order.filled_shares == status.filled
                &&& order.remaining_shares == status.remaining
            }
        }),
{
    let after = with_status(state, status);
    assert(after.volatile.open_orders.dom() =~= state.volatile.open_orders.dom());
}

/// A status keeps both representations synchronized, unless it ends an order whose record the
/// connection also needs for another identifier.
pub proof fn law_statuses_keep_orders_synchronized<N: Number>(
    state: RuntimeModel<N>,
    status: OrderStatus<N>,
)
    requires
        synchronized(state),
        status.status.terminal() ==> state.volatile.open_orders.contains_key(status.order_id),
        status.status.terminal() ==> forall|id: i32|
            #![trigger state.volatile.open_orders.contains_key(id)]
            state.volatile.open_orders.contains_key(id) && id != status.order_id
                ==> state.volatile.open_orders[id].order_ref
                != state.volatile.open_orders[status.order_id].order_ref,
    ensures
        synchronized(with_status(state, status)),
{
    let after = with_status(state, status);
    let orders = state.volatile.open_orders;
    assert forall|id: i32| #[trigger]
        after.volatile.open_orders.contains_key(id) implies references(
        after.persistent,
    ).contains(after.volatile.open_orders[id].order_ref) by {
        assert(orders.contains_key(id));
        let order_ref = orders[id].order_ref;
        let index = choose|index: int|
            0 <= index < references(state.persistent).len() && references(state.persistent)[index]
                == order_ref;
        let order = state.persistent[index];
        assert(state.persistent.contains(order));
        if status.status.terminal() {
            law_ended_orders_are_forgotten(state, status, order);
            let place = choose|place: int|
                0 <= place < after.persistent.len() && after.persistent[place] == order;
            assert(references(after.persistent)[place] == order_ref);
        }
    }
}

/// After a complete snapshot, both representations hold exactly what they held of the orders
/// that it lists, and another look at the same snapshot changes nothing.
pub proof fn law_snapshots_decide_what_is_kept<N>(
    state: RuntimeModel<N>,
    order_refs: Seq<Seq<char>>,
    order: OpenOrderModel,
    id: i32,
)
    ensures
        ({
            let after = reconciled(state, order_refs);
            let orders = state.volatile.open_orders;
            &&& after.persistent.contains(order) <==> state.persistent.contains(order)
                && order_refs.contains(order.order_ref)
            &&& after.volatile.open_orders.contains_key(id) <==> orders.contains_key(id)
                && order_refs.contains(orders[id].order_ref)
            &&& after.volatile.open_orders.contains_key(id) ==> after.volatile.open_orders[id]
                == orders[id]
            &&& reconciled(after, order_refs) == after
        }),
{
    let keeps = |order: OpenOrderModel| order_refs.contains(order.order_ref);
    lemma_filter_contains(state.persistent, keeps, order);
    let after = reconciled(state, order_refs);
    assert forall|index: int| 0 <= index < after.persistent.len() implies keeps(
        #[trigger] after.persistent[index],
    ) by {
        state.persistent.lemma_filter_pred(keeps, index);
    }
    lemma_filter_all(after.persistent, keeps);
    let again = reconciled(after, order_refs);
    assert(again.volatile.open_orders =~= after.volatile.open_orders);
    assert(again =~= after);
}

/// A snapshot keeps both representations synchronized.
pub proof fn law_snapshots_keep_orders_synchronized<N>(
    state: RuntimeModel<N>,
    order_refs: Seq<Seq<char>>,
)
    requires
        synchronized(state),
    ensures
        synchronized(reconciled(state, order_refs)),
{
    let after = reconciled(state, order_refs);
    assert forall|id: i32| #[trigger]
        after.volatile.open_orders.contains_key(id) implies references(
        after.persistent,
    ).contains(after.volatile.open_orders[id].order_ref) by {
        assert(state.volatile.open_orders.contains_key(id));
        let order_ref = state.volatile.open_orders[id].order_ref;
        let index = choose|index: int|
            0 <= index < references(state.persistent).len() && references(state.persistent)[index]
                == order_ref;
        let order = state.persistent[index];
        assert(state.persistent.contains(order));
        law_snapshots_decide_what_is_kept(state, order_refs, order, id);
        let place = choose|place: int|
            0 <= place < after.persistent.len() && after.persistent[place] == order;
        assert(references(after.persistent)[place] == order_ref);
    }
}

/// An order that a snapshot reports is listed by it, so the snapshot does not remove it.
pub proof fn law_reported_orders_are_listed<N: Number>(
    order_refs: Seq<Seq<char>>,
    data: OrderData<N>,
)
    requires
        managed(data.order_ref@),
    ensures
        with_listed(order_refs, OrderUpdate::OpenOrder(data)).contains(data.order_ref@),
{
    lemma_push_contains(order_refs, data.order_ref@, data.order_ref@);
}

// Cancellations

/// After a cancellation attempt, an order is not due again until the retry delay has passed, and
/// is due as soon as it has.
pub proof fn law_attempts_are_spaced(
    order: OpenOrderModel,
    side: Side,
    liquidating: bool,
    now: i128,
    later: i128,
)
    requires
        due(order, side, liquidating, now),
        now <= later,
    ensures
        ({
            let tried = OpenOrderModel { last_cancelled_at: Some(now), ..order };
            due(tried, side, liquidating, later) <==> later >= now + CANCEL_RETRY_DELAY
        }),
{
}

/// No order is cancelled before its lifetime has passed, and an order that has never been tried
/// is due from then on.
pub proof fn law_orders_live_their_lifetime(
    order: OpenOrderModel,
    side: Side,
    liquidating: bool,
    now: i128,
)
    ensures
        due(order, side, liquidating, now) ==> now >= order.created_at + lifetime(
            side,
            liquidating,
        ),
        order.last_cancelled_at is None && now >= order.created_at + lifetime(side, liquidating)
            ==> due(order, side, liquidating, now),
{
}

/// An identifier found on a walk belongs to an open order with the reference.
proof fn lemma_id_along<N>(
    ids: Seq<i32>,
    orders: Map<i32, VolatileOrderModel<N>>,
    order_ref: Seq<char>,
)
    ensures
        match id_along(ids, orders, order_ref) {
            Some(id) => ids.contains(id) && orders[id].order_ref == order_ref,
            None => forall|id: i32| #[trigger]
                ids.contains(id) ==> orders[id].order_ref != order_ref,
        },
    decreases ids.len(),
{
    if ids.len() > 0 {
        let rest = ids.drop_last();
        lemma_id_along(rest, orders, order_ref);
        assert(ids =~= rest.push(ids.last()));
        assert forall|id: i32| #[trigger]
            ids.contains(id) <==> rest.contains(id) || id == ids.last() by {
            lemma_push_contains(rest, ids.last(), id);
        }
    }
}

/// Every order to cancel is one that the connection knows, with the same reference.
pub proof fn law_only_known_orders_are_cancelled<N>(
    ids: Seq<i32>,
    orders: Map<i32, VolatileOrderModel<N>>,
    persistent: Seq<OpenOrderModel>,
    symbol: Seq<char>,
    liquidating: bool,
    now: i128,
    index: int,
)
    requires
        is_walk(ids, orders),
        0 <= index < cancellations(ids, orders, persistent, symbol, liquidating, now).len(),
    ensures
        ({
            let (id, order_ref) = cancellations(
                ids,
                orders,
                persistent,
                symbol,
                liquidating,
                now,
            )[index];
            orders.contains_key(id) && orders[id].order_ref == order_ref
        }),
    decreases persistent.len(),
{
    if persistent.len() > 0 {
        let earlier = cancellations(
            ids,
            orders,
            persistent.drop_last(),
            symbol,
            liquidating,
            now,
        );
        if index < earlier.len() {
            law_only_known_orders_are_cancelled(
                ids,
                orders,
                persistent.drop_last(),
                symbol,
                liquidating,
                now,
                index,
            );
        } else {
            lemma_id_along(ids, orders, persistent.last().order_ref);
        }
    }
}

/// As many orders are cancelled as have an attempt recorded, each once, and recording changes
/// nothing but the moments of the attempts.
pub proof fn law_attempts_are_recorded<N>(
    ids: Seq<i32>,
    state: RuntimeModel<N>,
    symbol: Seq<char>,
    liquidating: bool,
    now: i128,
    index: int,
)
    requires
        0 <= index < state.persistent.len(),
    ensures
        ({
            let after = with_attempts(ids, state, symbol, liquidating, now);
            let order = state.persistent[index];
            let orders = state.volatile.open_orders;
            &&& after.volatile == state.volatile
            &&& after.persistent.len() == state.persistent.len()
            &&& after.persistent[index] == if due_along(
                ids,
                orders,
                order,
                symbol,
                liquidating,
                now,
            ) {
                OpenOrderModel { last_cancelled_at: Some(now), ..order }
            } else {
                order
            }
        }),
{
}

/// Where no two open orders share a reference, the order in which they are walked decides
/// nothing.
pub proof fn law_walks_agree<N>(
    first: Seq<i32>,
    second: Seq<i32>,
    orders: Map<i32, VolatileOrderModel<N>>,
    order_ref: Seq<char>,
)
    requires
        is_walk(first, orders),
        is_walk(second, orders),
        forall|left: i32, right: i32|
            #![trigger orders.contains_key(left), orders.contains_key(right)]
            orders.contains_key(left) && orders.contains_key(right) && orders[left].order_ref
                == orders[right].order_ref ==> left == right,
    ensures
        id_along(first, orders, order_ref) == id_along(second, orders, order_ref),
{
    lemma_id_along(first, orders, order_ref);
    lemma_id_along(second, orders, order_ref);
    if let Some(id) = id_along(first, orders, order_ref) {
        assert(orders.contains_key(id));
        assert(second.contains(id));
    }
    if let Some(id) = id_along(second, orders, order_ref) {
        assert(orders.contains_key(id));
        assert(first.contains(id));
    }
}

// Decisions

/// Nothing is bought during liquidation, and nothing is bought or sold before the quotes and the
/// account are known.
pub proof fn law_orders_need_their_reasons<N: Number>(
    step: ControlStep<N>,
    state: VolatileModel<N>,
    ids: Seq<i32>,
    symbol: Seq<char>,
    buffer_percent: N,
    requirement_percent: N,
    liquidating: bool,
)
    requires
        is_control_step(
            step,
            state,
            ids,
            symbol,
            buffer_percent,
            requirement_percent,
            liquidating,
        ),
    ensures
        step.buy is Some ==> !liquidating && state.bid_price is Some
            && state.equity_with_loan_value is Some && state.init_margin_req is Some,
        step.sell is Some ==> state.ask_price is Some && state.position_shares is Some,
{
}

} // verus!
