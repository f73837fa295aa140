//! The bookkeeping of the orders that the trading bot manages.
use crate::number::{zero, zero_spec, Number};
use crate::run::{
    order_models, RuntimeModel, RuntimeState, Side, VolatileModel, VolatileOrder,
    VolatileOrderModel, ORDER_REF_PREFIX,
};
use crate::state::{OpenOrder, OpenOrderModel, State};
use crate::table::position;
use crate::text::{
    decimal, has_prefix, joined, joined3, same_text, show_count, starts_with, texts,
};
use std::collections::HashMap;
use uuid::Uuid;
use vstd::prelude::*;
use vstd::std_specs::iter::IteratorSpec;

verus! {

// References

/// Whether a reference is one that the bot attaches to its orders.
pub open spec fn managed(order_ref: Seq<char>) -> bool {
    has_prefix(order_ref, ORDER_REF_PREFIX@)
}

/// Whether a reference is one that the bot attaches to its orders.
pub fn is_managed(order_ref: &str) -> (result: bool)
    ensures
        result == managed(order_ref@),
{
    starts_with(order_ref, ORDER_REF_PREFIX)
}

/// Whether a character is a lowercase hexadecimal digit.
pub open spec fn is_hexadecimal(character: char) -> bool {
    '0' <= character <= '9' || 'a' <= character <= 'f'
}

/// Whether a text is a random identifier in its simple form: thirty-two hexadecimal digits, of
/// which one tells the version and one the variant.
pub open spec fn is_simple_uuid(text: Seq<char>) -> bool {
    &&& text.len() == 32
    &&& forall|index: int| 0 <= index < 32 ==> is_hexadecimal(#[trigger] text[index])
    &&& text[12] == '4'
    &&& text[16] == '8' || text[16] == '9' || text[16] == 'a' || text[16] == 'b'
}

/// Draw a random identifier with `uuid::Uuid::new_v4`, written with `uuid::Uuid::simple`. Of
/// the digits that chance decides, nothing more is said.
#[verifier::external_body]
fn random_uuid() -> (result: String)
    ensures
        is_simple_uuid(result@),
{
    Uuid::new_v4().simple().to_string()
}

/// The reference that is made from an identifier.
pub fn order_ref_of(identifier: &str) -> (result: String)
    ensures
        result@ == ORDER_REF_PREFIX@ + identifier@,
        managed(result@),
{
    let result = joined(ORDER_REF_PREFIX, identifier);
    assert(result@.subrange(0, ORDER_REF_PREFIX@.len() as int) =~= ORDER_REF_PREFIX@);
    result
}

/// Make a stable reference for a new order.
pub fn new_order_ref() -> (result: String)
    ensures
        managed(result@),
        exists|identifier: Seq<char>| #[trigger]
            is_simple_uuid(identifier) && result@ == ORDER_REF_PREFIX@ + identifier,
{
    let identifier = random_uuid();
    assert(is_simple_uuid(identifier@));
    order_ref_of(&identifier)
}

// Walks

/// Whether a list holds every key of a map once, in some order.
pub open spec fn is_walk<V>(ids: Seq<i32>, orders: Map<i32, V>) -> bool {
    &&& ids.no_duplicates()
    &&& forall|id: i32| ids.contains(id) <==> #[trigger] orders.contains_key(id)
}

/// List the identifiers of open orders in the order in which the map is walked.
pub fn walk<N>(orders: &HashMap<i32, VolatileOrder<N>>) -> (result: Vec<i32>)
    ensures
        is_walk(result@, orders@),
        is_walk(result@, order_models(orders@)),
{
    let mut ids: Vec<i32> = Vec::new();
    let keys = orders.keys();
    let ghost visited = IteratorSpec::remaining(&keys).unref();
    for id in iterator: keys
        invariant
            iterator.seq().unref() == visited,
            ids@ == visited.take(iterator.index() as int),
    {
        ids.push(*id);
        assert(ids@ =~= visited.take(iterator.index() + 1));
    }
    assert(visited.take(visited.len() as int) =~= visited);
    ids
}

// New orders

/// The state after a new order has been recorded in both representations.
pub open spec fn with_new_order<N: Number>(
    state: RuntimeModel<N>,
    order_id: i32,
    order_ref: Seq<char>,
    symbol: Seq<char>,
    side: Side,
    shares: N,
    limit: N,
    now: i128,
) -> RuntimeModel<N> {
    RuntimeModel {
        persistent: state.persistent.push(
            OpenOrderModel {
                order_ref,
                perm_id: None,
                created_at: now,
                last_cancelled_at: None,
            },
        ),
        volatile: VolatileModel {
            open_orders: state.volatile.open_orders.insert(
                order_id,
                VolatileOrderModel {
                    order_ref,
                    symbol,
                    price: limit,
                    side,
                    filled_shares: zero_spec(),
                    remaining_shares: shares,
                },
            ),
            ..state.volatile
        },
    }
}

/// Record a new order in both representations. The durable one is to be saved before the order
/// is submitted.
fn record_order<N: Number>(
    state: &mut RuntimeState<N>,
    order_id: i32,
    order_ref: &str,
    symbol: &str,
    side: Side,
    shares: N,
    limit: N,
    now: i128,
)
    ensures
        final(state)@ == with_new_order(
            old(state)@,
            order_id,
            order_ref@,
            symbol@,
            side,
            shares,
            limit,
            now,
        ),
{
    state.persistent.open_orders.push(
        OpenOrder {
            order_ref: order_ref.to_owned(),
            perm_id: None,
            created_at: now,
            last_cancelled_at: None,
        },
    );
    state.volatile.open_orders.insert(
        order_id,
        VolatileOrder {
            order_ref: order_ref.to_owned(),
            symbol: symbol.to_owned(),
            price: limit,
            side,
            filled_shares: zero(),
            remaining_shares: shares,
        },
    );
    assert(state@ =~~= with_new_order(
        old(state)@,
        order_id,
        order_ref@,
        symbol@,
        side,
        shares,
        limit,
        now,
    ));
}

/// Record a limit order to buy the requested number of shares.
pub fn place_limit_buy<N: Number>(
    state: &mut RuntimeState<N>,
    order_id: i32,
    order_ref: &str,
    symbol: &str,
    shares: N,
    limit: N,
    now: i128,
)
    ensures
        final(state)@ == with_new_order(
            old(state)@,
            order_id,
            order_ref@,
            symbol@,
            Side::Buy,
            shares,
            limit,
            now,
        ),
{
    record_order(state, order_id, order_ref, symbol, Side::Buy, shares, limit, now);
}

/// Record a limit order to sell the requested number of shares.
pub fn place_limit_sell<N: Number>(
    state: &mut RuntimeState<N>,
    order_id: i32,
    order_ref: &str,
    symbol: &str,
    shares: N,
    limit: N,
    now: i128,
)
    ensures
        final(state)@ == with_new_order(
            old(state)@,
            order_id,
            order_ref@,
            symbol@,
            Side::Sell,
            shares,
            limit,
            now,
        ),
{
    record_order(state, order_id, order_ref, symbol, Side::Sell, shares, limit, now);
}

// Open orders that the broker reports

/// The direction of an order, as the broker reports it.
#[derive(Clone, Copy, Debug, PartialEq, Eq, Structural)]
pub enum Action {
    Buy,
    Sell,
    SellShort,
    SellLong,
}

/// An open order, as the broker reports it.
pub struct OrderData<N> {
    pub order_id: i32,
    pub order_ref: String,
    pub symbol: String,
    pub limit_price: Option<N>,
    pub action: Action,
    pub filled_quantity: N,
    pub total_quantity: N,
    /// The permanent identifier, or zero before one is assigned.
    pub perm_id: i64,
}

/// The connection-local details of a reported order, or why it cannot be managed.
pub open spec fn reported_order<N: Number>(
    data: OrderData<N>,
) -> Result<VolatileOrderModel<N>, Seq<char>> {
    match data.limit_price {
        None => Err("A Stockholm order is missing its limit price."@),
        Some(price) => {
            let order = VolatileOrderModel {
                order_ref: data.order_ref@,
                symbol: data.symbol@,
                price,
                side: if data.action == Action::Buy {
                    Side::Buy
                } else {
                    Side::Sell
                },
                filled_shares: data.filled_quantity,
                remaining_shares: data.total_quantity.minus_spec(data.filled_quantity),
            };
            match data.action {
                Action::Buy | Action::Sell => Ok(order),
                _ => Err("A Stockholm order has an unsupported institutional side."@),
            }
        },
    }
}

/// A permanent identifier, once it is assigned.
pub open spec fn assigned(perm_id: i64) -> Option<i64> {
    if perm_id != 0 {
        Some(perm_id)
    } else {
        None
    }
}

/// The references of durable orders.
pub open spec fn references(orders: Seq<OpenOrderModel>) -> Seq<Seq<char>> {
    orders.map_values(|order: OpenOrderModel| order.order_ref)
}

/// Durable orders after one has been reported: the first with its reference takes over the
/// permanent identifier, or a new one is added.
pub open spec fn with_reported(
    orders: Seq<OpenOrderModel>,
    order_ref: Seq<char>,
    perm_id: Option<i64>,
    now: i128,
) -> Seq<OpenOrderModel> {
    match position(references(orders), order_ref) {
        Some(index) => orders.update(index, OpenOrderModel { perm_id, ..orders[index] }),
        None => orders.push(
            OpenOrderModel { order_ref, perm_id, created_at: now, last_cancelled_at: None },
        ),
    }
}

/// Find the first durable order with a reference.
fn find_order(orders: &Vec<OpenOrder>, order_ref: &str) -> (result: Option<usize>)
    ensures
        match result {
            Some(index) => {
                &&& index < orders@.len()
                &&& orders@[index as int]@.order_ref == order_ref@
                &&& position(
                    references(orders@.map_values(|order: OpenOrder| order@)),
                    order_ref@,
                ) == Some(index as int)
            },
            None => position(
                references(orders@.map_values(|order: OpenOrder| order@)),
                order_ref@,
            ) is None,
        },
{
    let ghost names = references(orders@.map_values(|order: OpenOrder| order@));
    for index in 0..orders.len()
        invariant
            names == references(orders@.map_values(|order: OpenOrder| order@)),
            position(names.take(index as int), order_ref@) is None,
    {
        assert(names.take(index + 1).drop_last() =~= names.take(index as int));
        if same_text(&orders[index].order_ref, order_ref) {
            proof {
                crate::table::lemma_position_of_prefix(names, order_ref@, index + 1);
            }
            return Some(index);
        }
    }
    assert(names.take(orders.len() as int) =~= names);
    None
}

/// The state after an open order has been reported.
pub open spec fn with_open_order<N: Number>(
    state: RuntimeModel<N>,
    data: OrderData<N>,
    order: VolatileOrderModel<N>,
    now: i128,
) -> RuntimeModel<N> {
    RuntimeModel {
        persistent: with_reported(
            state.persistent,
            data.order_ref@,
            assigned(data.perm_id),
            now,
        ),
        volatile: VolatileModel {
            open_orders: state.volatile.open_orders.insert(data.order_id, order),
            ..state.volatile
        },
    }
}

/// Record the latest details of an open order. The result tells whether durable state has
/// changed and must be saved.
pub fn update_open_order<N: Number>(
    state: &mut RuntimeState<N>,
    data: &OrderData<N>,
    now: i128,
) -> (result: Result<bool, String>)
    ensures
        match (result, reported_order(*data)) {
            (Ok(changed), Ok(order)) => {
                &&& final(state)@ == with_open_order(old(state)@, *data, order, now)
                &&& changed == (final(state)@.persistent != old(state)@.persistent)
            },
            (Err(message), Err(expected)) => {
                &&& message@ == expected
                &&& final(state)@ == old(state)@
            },
            _ => false,
        },
{
    // Validate connection-specific details before changing either representation.
    let price: N = match data.limit_price {
        Some(price) => price,
        None => {
            return Err("A Stockholm order is missing its limit price.".to_owned());
        },
    };
    let side = match data.action {
        Action::Buy => Side::Buy,
        Action::Sell => Side::Sell,
        Action::SellShort | Action::SellLong => {
            return Err(
                "A Stockholm order has an unsupported institutional side.".to_owned(),
            );
        },
    };
    let order = VolatileOrder {
        order_ref: data.order_ref.clone(),
        symbol: data.symbol.clone(),
        price,
        side,
        filled_shares: data.filled_quantity,
        remaining_shares: data.total_quantity.minus(data.filled_quantity),
    };
    let ghost model = order@;

    // Refresh volatile details and persistent identifiers together.
    let perm_id: Option<i64> = if data.perm_id != 0 {
        Some(data.perm_id)
    } else {
        None
    };
    state.volatile.open_orders.insert(data.order_id, order);
    let changed = match find_order(&state.persistent.open_orders, &data.order_ref) {
        Some(index) => {
            let previous: Option<i64> = state.persistent.open_orders[index].perm_id;
            state.persistent.open_orders[index].perm_id = perm_id;
            let unchanged = match (previous, perm_id) {
                (Some(left), Some(right)) => left == right,
                (None, None) => true,
                _ => false,
            };
            proof {
                let before = old(state)@.persistent;
                assert(state@.persistent =~= before.update(
                    index as int,
                    OpenOrderModel { perm_id, ..before[index as int] },
                ));
                if unchanged {
                    assert(state@.persistent =~= before);
                } else {
                    assert(state@.persistent[index as int] != before[index as int]);
                }
            }
            !unchanged
        },
        None => {
            state.persistent.open_orders.push(
                OpenOrder {
                    order_ref: data.order_ref.clone(),
                    perm_id,
                    created_at: now,
                    last_cancelled_at: None,
                },
            );
            assert(state@.persistent.len() == old(state)@.persistent.len() + 1);
            true
        },
    };
    assert(state@ =~~= with_open_order(old(state)@, *data, model, now));
    Ok(changed)
}

// Removal

/// Which durable orders are removed.
pub enum Removal {
    /// The orders with a reference.
    Reference(String),
    /// The orders with a permanent identifier.
    PermanentId(i64),
    /// The orders whose reference is not in a list.
    Unlisted(Vec<String>),
}

impl Removal {
    /// Whether an order is kept.
    pub open spec fn keeps(self, order: OpenOrderModel) -> bool {
        match self {
            Removal::Reference(order_ref) => order.order_ref != order_ref@,
            Removal::PermanentId(perm_id) => order.perm_id != Some(perm_id),
            Removal::Unlisted(order_refs) => texts(order_refs@).contains(order.order_ref),
        }
    }

    /// The orders that are kept, in their order.
    pub open spec fn kept(self, orders: Seq<OpenOrderModel>) -> Seq<OpenOrderModel> {
        orders.filter(|order: OpenOrderModel| self.keeps(order))
    }

    /// Tell whether an order is kept.
    fn keeps_order(&self, order: &OpenOrder) -> (result: bool)
        ensures
            result == self.keeps(order@),
    {
        match self {
            Removal::Reference(order_ref) => !same_text(&order.order_ref, order_ref),
            Removal::PermanentId(perm_id) => match order.perm_id {
                Some(assigned_id) => assigned_id != *perm_id,
                None => true,
            },
            Removal::Unlisted(order_refs) => is_listed(order_refs, &order.order_ref),
        }
    }
}

/// Whether a text stands in a list.
fn is_listed(list: &Vec<String>, text: &str) -> (result: bool)
    ensures
        result == texts(list@).contains(text@),
{
    for index in 0..list.len()
        invariant
            forall|earlier: int| 0 <= earlier < index ==> (#[trigger] list@[earlier])@ != text@,
    {
        if same_text(&list[index], text) {
            assert(texts(list@)[index as int] == text@);
            return true;
        }
    }
    assert forall|index: int| 0 <= index < list@.len() implies texts(list@)[index] != text@ by {
        assert(texts(list@)[index] == list@[index]@);
    }
    false
}

/// A filter that keeps as many items as there are keeps them all.
proof fn lemma_filter_of_full_length<A>(items: Seq<A>, keeps: spec_fn(A) -> bool)
    requires
        items.filter(keeps).len() == items.len(),
    ensures
        items.filter(keeps) == items,
    decreases items.len(),
{
    reveal(Seq::filter);
    if items.len() > 0 {
        items.drop_last().lemma_filter_len(keeps);
        lemma_filter_of_full_length(items.drop_last(), keeps);
        assert(items.drop_last().push(items.last()) =~= items);
    }
}

/// Remove durable orders, and tell whether there were any to remove.
fn remove_orders(state: &mut State, removal: &Removal) -> (changed: bool)
    ensures
        final(state)@ == removal.kept(old(state)@),
        changed == (final(state)@ != old(state)@),
{
    let ghost before = state@;
    let ghost keeps = |order: OpenOrderModel| removal.keeps(order);
    let mut orders: Vec<OpenOrder> = Vec::new();
    std::mem::swap(&mut orders, &mut state.open_orders);
    let previous_count: usize = orders.len();
    let ghost originals = orders@;
    let mut kept: Vec<OpenOrder> = Vec::new();
    proof {
        reveal(Seq::filter);
        assert(kept@.map_values(|order: OpenOrder| order@) =~= before.take(0).filter(keeps));
    }
    for order in iterator: orders
        invariant
            iterator.seq() == originals,
            before == originals.map_values(|order: OpenOrder| order@),
            keeps == (|order: OpenOrderModel| removal.keeps(order)),
            kept@.map_values(|order: OpenOrder| order@) == before.take(
                iterator.index() as int,
            ).filter(keeps),
    {
        let ghost index = iterator.index() as int;
        proof {
            reveal(Seq::filter);
            assert(before.take(index + 1).drop_last() =~= before.take(index));
            assert(before.take(index + 1).last() == order@);
        }
        let ghost earlier = kept@;
        if removal.keeps_order(&order) {
            kept.push(order);
            assert(kept@.map_values(|order: OpenOrder| order@) =~= earlier.map_values(
                |order: OpenOrder| order@,
            ).push(order@));
        }
    }
    assert(before.take(before.len() as int) =~= before);
    let changed = kept.len() != previous_count;
    state.open_orders = kept;
    proof {
        assert(state@ == removal.kept(before));
        if !changed {
            lemma_filter_of_full_length(before, keeps);
        }
    }
    changed
}

// Order statuses

/// The status of an order, as the broker reports it.
#[derive(Clone, Copy, Debug, PartialEq, Eq, Structural)]
pub enum OrderStatusKind {
    ApiPending,
    PendingSubmit,
    PendingCancel,
    PreSubmitted,
    Submitted,
    ApiCancelled,
    Cancelled,
    Filled,
    Inactive,
    Unknown,
}

impl OrderStatusKind {
    /// Whether an order with this status is no longer open.
    pub open spec fn terminal(self) -> bool {
        self is Filled || self is Cancelled || self is ApiCancelled || self is Inactive
    }

    /// Whether an order with this status is no longer open.
    pub fn is_terminal(&self) -> (result: bool)
        ensures
            result == self.terminal(),
    {
        match self {
            OrderStatusKind::Filled
            | OrderStatusKind::Cancelled
            | OrderStatusKind::ApiCancelled
            | OrderStatusKind::Inactive => true,
            OrderStatusKind::ApiPending
            | OrderStatusKind::PendingSubmit
            | OrderStatusKind::PendingCancel
            | OrderStatusKind::PreSubmitted
            | OrderStatusKind::Submitted
            | OrderStatusKind::Unknown => false,
        }
    }
}

/// The progress of an order, as the broker reports it.
pub struct OrderStatus<N> {
    pub order_id: i32,
    pub status: OrderStatusKind,
    pub filled: N,
    pub remaining: N,
    /// The permanent identifier, or zero before one is assigned.
    pub perm_id: i64,
}

/// The durable orders that remain after an order has ended: those with another reference, or,
/// when the connection does not know the order, those with another permanent identifier.
pub open spec fn without_ended<N>(
    state: RuntimeModel<N>,
    status: OrderStatus<N>,
) -> Seq<OpenOrderModel> {
    if state.volatile.open_orders.contains_key(status.order_id) {
        let order_ref = state.volatile.open_orders[status.order_id].order_ref;
        state.persistent.filter(|order: OpenOrderModel| order.order_ref != order_ref)
    } else if status.perm_id != 0 {
        state.persistent.filter(|order: OpenOrderModel| order.perm_id != Some(status.perm_id))
    } else {
        state.persistent
    }
}

/// The state after the status of an order has been reported.
pub open spec fn with_status<N>(
    state: RuntimeModel<N>,
    status: OrderStatus<N>,
) -> RuntimeModel<N> {
    let orders = state.volatile.open_orders;
    if status.status.terminal() {
        RuntimeModel {
            persistent: without_ended(state, status),
            volatile: VolatileModel {
                open_orders: orders.remove(status.order_id),
                ..state.volatile
            },
        }
    } else if orders.contains_key(status.order_id) {
        let order = VolatileOrderModel {
            filled_shares: status.filled,
            remaining_shares: status.remaining,
            ..orders[status.order_id]
        };
        RuntimeModel {
            volatile: VolatileModel {
                open_orders: orders.insert(status.order_id, order),
                ..state.volatile
            },
            ..state
        }
    } else {
        state
    }
}

/// Apply a status. The result tells whether durable state has changed and must be saved.
pub fn update_order_status<N: Number>(
    state: &mut RuntimeState<N>,
    status: &OrderStatus<N>,
) -> (changed: bool)
    ensures
        final(state)@ == with_status(old(state)@, *status),
        changed == (final(state)@.persistent != old(state)@.persistent),
{
    let ghost before = state@;
    let known = state.volatile.open_orders.remove(&status.order_id);
    if status.status.is_terminal() {
        let removal = match known {
            Some(order) => Removal::Reference(order.order_ref),
            None => if status.perm_id != 0 {
                Removal::PermanentId(status.perm_id)
            } else {
                assert(state@ =~~= with_status(before, *status));
                return false;
            },
        };
        let changed = remove_orders(&mut state.persistent, &removal);
        assert(state@.volatile =~~= with_status(before, *status).volatile);
        assert(removal.kept(before.persistent) == without_ended(before, *status)) by {
            match removal {
                Removal::Reference(order_ref) => {
                    assert((|order: OpenOrderModel| removal.keeps(order)) =~= (
                    |order: OpenOrderModel| order.order_ref != order_ref@));
                },
                Removal::PermanentId(perm_id) => {
                    assert((|order: OpenOrderModel| removal.keeps(order)) =~= (
                    |order: OpenOrderModel| order.perm_id != Some(perm_id)));
                },
                _ => {},
            }
        }
        changed
    } else {
        if let Some(order) = known {
            state.volatile.open_orders.insert(
                status.order_id,
                VolatileOrder {
                    filled_shares: status.filled,
                    remaining_shares: status.remaining,
                    ..order
                },
            );
        }
        assert(state@ =~~= with_status(before, *status));
        false
    }
}

// Order streams

/// An event in a stream of order updates or in a snapshot of open orders.
pub enum OrderUpdate<N> {
    OpenOrder(OrderData<N>),
    OrderStatus(OrderStatus<N>),
    /// An execution or a commission, which changes no state.
    Other,
}

/// The state after an event, or why it cannot be applied. Orders of others are ignored.
pub open spec fn with_update<N: Number>(
    state: RuntimeModel<N>,
    update: OrderUpdate<N>,
    now: i128,
) -> Result<RuntimeModel<N>, Seq<char>> {
    match update {
        OrderUpdate::OpenOrder(data) => if managed(data.order_ref@) {
            match reported_order(data) {
                Ok(order) => Ok(with_open_order(state, data, order, now)),
                Err(message) => Err(message),
            }
        } else {
            Ok(state)
        },
        OrderUpdate::OrderStatus(status) => Ok(with_status(state, status)),
        OrderUpdate::Other => Ok(state),
    }
}

/// Apply an event. The result tells whether durable state has changed and must be saved. An
/// event that cannot be applied changes nothing.
pub fn apply_order_update<N: Number>(
    state: &mut RuntimeState<N>,
    update: &OrderUpdate<N>,
    now: i128,
) -> (result: Result<bool, String>)
    ensures
        match (result, with_update(old(state)@, *update, now)) {
            (Ok(changed), Ok(expected)) => {
                &&& final(state)@ == expected
                &&& changed == (final(state)@.persistent != old(state)@.persistent)
            },
            (Err(message), Err(expected)) => {
                &&& message@ == expected
                &&& final(state)@ == old(state)@
            },
            _ => false,
        },
{
    match update {
        OrderUpdate::OpenOrder(data) => {
            if is_managed(&data.order_ref) {
                update_open_order(state, data, now)
            } else {
                Ok(false)
            }
        },
        OrderUpdate::OrderStatus(status) => Ok(update_order_status(state, status)),
        OrderUpdate::Other => Ok(false),
    }
}

/// A snapshot of the open orders, while it is being received.
pub struct OrderSnapshot {
    /// The references of the managed orders received so far, one for each order.
    pub order_refs: Vec<String>,
}

impl View for OrderSnapshot {
    type V = Seq<Seq<char>>;

    open spec fn view(&self) -> Seq<Seq<char>> {
        texts(self.order_refs@)
    }
}

/// The references received after an event.
pub open spec fn with_listed<N>(
    order_refs: Seq<Seq<char>>,
    update: OrderUpdate<N>,
) -> Seq<Seq<char>> {
    match update {
        OrderUpdate::OpenOrder(data) => if managed(data.order_ref@) {
            order_refs.push(data.order_ref@)
        } else {
            order_refs
        },
        _ => order_refs,
    }
}

/// The state from which everything that a complete snapshot does not list has been removed.
pub open spec fn reconciled<N>(
    state: RuntimeModel<N>,
    order_refs: Seq<Seq<char>>,
) -> RuntimeModel<N> {
    let orders = state.volatile.open_orders;
    RuntimeModel {
        persistent: state.persistent.filter(
            |order: OpenOrderModel| order_refs.contains(order.order_ref),
        ),
        volatile: VolatileModel {
            open_orders: orders.restrict(
                orders.dom().filter(|id: i32| order_refs.contains(orders[id].order_ref)),
            ),
            ..state.volatile
        },
    }
}

/// What is reported once a snapshot is complete.
pub open spec fn snapshot_summary(count: nat) -> Seq<char> {
    if count == 0 {
        "No Stockholm open orders found."@
    } else if count == 1 {
        "Finished listing 1 Stockholm open order."@
    } else {
        "Finished listing "@ + decimal(count as int) + " Stockholm open orders."@
    }
}

impl OrderSnapshot {
    /// A snapshot of which nothing has been received.
    pub fn new() -> (result: OrderSnapshot)
        ensures
            result@ == Seq::<Seq<char>>::empty(),
    {
        let result = OrderSnapshot { order_refs: Vec::new() };
        assert(result@ =~= Seq::empty());
        result
    }

    /// Receive an event, and apply it. The result tells whether durable state has changed and
    /// must be saved.
    pub fn observe<N: Number>(
        &mut self,
        state: &mut RuntimeState<N>,
        update: &OrderUpdate<N>,
        now: i128,
    ) -> (result: Result<bool, String>)
        ensures
            final(self)@ == with_listed(old(self)@, *update),
            match (result, with_update(old(state)@, *update, now)) {
                (Ok(changed), Ok(expected)) => {
                    &&& final(state)@ == expected
                    &&& changed == (final(state)@.persistent != old(state)@.persistent)
                },
                (Err(message), Err(expected)) => {
                    &&& message@ == expected
                    &&& final(state)@ == old(state)@
                },
                _ => false,
            },
    {
        if let OrderUpdate::OpenOrder(data) = update {
            if is_managed(&data.order_ref) {
                self.order_refs.push(data.order_ref.clone());
                assert(self@ =~= old(self)@.push(data.order_ref@));
            }
        }
        apply_order_update(state, update, now)
    }

    /// Remove from both representations what the complete snapshot does not list. The result
    /// tells whether durable state has changed and must be saved.
    pub fn reconcile<N: Number>(self, state: &mut RuntimeState<N>) -> (changed: bool)
        ensures
            final(state)@ == reconciled(old(state)@, self@),
            changed == (final(state)@.persistent != old(state)@.persistent),
    {
        let ghost before = state@;
        let ids = walk(&state.volatile.open_orders);
        let ghost originals = state.volatile.open_orders@;
        for index in 0..ids.len()
            invariant
                is_walk(ids@, originals),
                forall|id: i32| #[trigger]
                    state.volatile.open_orders@.contains_key(id) <==> (originals.contains_key(id)
                        && (self@.contains(originals[id]@.order_ref) || !ids@.take(
                        index as int,
                    ).contains(id))),
                forall|id: i32| #[trigger]
                    state.volatile.open_orders@.contains_key(id)
                        ==> state.volatile.open_orders@[id] == originals[id],
                state.persistent == old(state).persistent,
                state@ == (RuntimeModel {
                    volatile: VolatileModel {
                        open_orders: state@.volatile.open_orders,
                        ..before.volatile
                    },
                    ..before
                }),
        {
            let id: i32 = ids[index];
            assert(ids@.contains(id));
            assert(ids@.take(index + 1) =~= ids@.take(index as int).push(id));
            assert(!ids@.take(index as int).contains(id));
            let listed = match state.volatile.open_orders.get(&id) {
                Some(order) => is_listed(&self.order_refs, &order.order_ref),
                None => true,
            };
            if !listed {
                state.volatile.open_orders.remove(&id);
            }
            assert forall|other: i32| ids@.take(index + 1).contains(other) <==> (ids@.take(
                index as int,
            ).contains(other) || other == id) by {
                assert(ids@.take(index as int).push(id)[index as int] == id);
                if ids@.take(index as int).contains(other) {
                    let place = choose|place: int|
                        0 <= place < index && ids@.take(index as int)[place] == other;
                    assert(ids@.take(index as int).push(id)[place] == other);
                }
            }
        }
        assert(ids@.take(ids.len() as int) =~= ids@);
        let removal = Removal::Unlisted(self.order_refs);
        let changed = remove_orders(&mut state.persistent, &removal);
        assert(state@.volatile =~~= reconciled(before, self@).volatile);
        assert((|order: OpenOrderModel| removal.keeps(order)) =~= (
        |order: OpenOrderModel| self@.contains(order.order_ref)));
        changed
    }

    /// Report the number of managed orders in the complete snapshot.
    pub fn summary(&self) -> (result: String)
        ensures
            result@ == snapshot_summary(self@.len()),
    {
        let count: usize = self.order_refs.len();
        if count == 0 {
            "No Stockholm open orders found.".to_owned()
        } else if count == 1 {
            "Finished listing 1 Stockholm open order.".to_owned()
        } else {
            joined3("Finished listing ", &show_count(count), " Stockholm open orders.")
        }
    }
}

} // verus!
