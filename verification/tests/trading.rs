use stockholm::cancellation::{cancel_expired_orders, cancellation_due};
use stockholm::clock::is_liquidating;
use stockholm::control::{
    begin_control_step, calculate_buying_power, calculate_open_buy_order_value,
    calculate_open_sell_shares, calculate_order_limits, round_down_to_cent, round_up_to_cent,
    run_control_step,
};
use stockholm::number::Number;
use stockholm::orders::{
    apply_order_update, is_managed, new_order_ref, order_ref_of, place_limit_buy,
    place_limit_sell, update_open_order, update_order_status, walk, Action, OrderData,
    OrderSnapshot, OrderStatus, OrderStatusKind, OrderUpdate,
};
use stockholm::run::{
    clear_stale_quote_prices, initial_volatile_state, parse_percent, parse_positive_percent,
    update_account_metric, update_position, update_quote, Args, PositionUpdate, RuntimeState,
    Side, VolatileOrder, EQUITY_WITH_LOAN_VALUE, INIT_MARGIN_REQ,
};
use stockholm::state::{initial, OpenOrder};
use clap::{Arg, Command};
use ibapi::accounts::AccountSummaryTags;
use std::collections::HashMap;
use time::{Date, Month};

const SECOND: i128 = 1_000_000_000;
const MINUTE: i128 = 60 * SECOND;

// Double-precision arithmetic.
#[derive(Clone, Copy, Debug, PartialEq)]
struct Double(f64);

impl Number for Double {
    fn plus(self, other: Self) -> Self {
        Double(self.0 + other.0)
    }

    fn minus(self, other: Self) -> Self {
        Double(self.0 - other.0)
    }

    fn times(self, other: Self) -> Self {
        Double(self.0 * other.0)
    }

    fn over(self, other: Self) -> Self {
        Double(self.0 / other.0)
    }

    fn minimum(self, other: Self) -> Self {
        Double(self.0.min(other.0))
    }

    fn maximum(self, other: Self) -> Self {
        Double(self.0.max(other.0))
    }

    fn floor(self) -> Self {
        Double(self.0.floor())
    }

    fn ceiling(self) -> Self {
        Double(self.0.ceil())
    }

    fn square_root(self) -> Self {
        Double(self.0.sqrt())
    }

    fn natural_log(self) -> Self {
        Double(self.0.ln())
    }

    fn squared(self) -> Self {
        Double(self.0.powi(2))
    }

    fn below(self, other: Self) -> bool {
        self.0 < other.0
    }

    fn at_most(self, other: Self) -> bool {
        self.0 <= other.0
    }

    fn same(self, other: Self) -> bool {
        self.0 == other.0
    }

    fn total_below(self, other: Self) -> bool {
        self.0.total_cmp(&other.0).is_lt()
    }

    fn is_finite(self) -> bool {
        self.0.is_finite()
    }

    fn infinity() -> Self {
        Double(f64::INFINITY)
    }

    fn negative_infinity() -> Self {
        Double(f64::NEG_INFINITY)
    }

    fn epsilon() -> Self {
        Double(f64::EPSILON)
    }

    fn empty_sum() -> Self {
        Double(std::iter::empty::<f64>().sum())
    }

    fn ratio(numerator: u32, denominator: u32) -> Self {
        Double(f64::from(numerator) / f64::from(denominator))
    }

    fn count(value: usize) -> Self {
        Double(value as f64)
    }

    fn parse(text: &str) -> Result<Self, String> {
        text.parse::<f64>().map(Double).map_err(|error| error.to_string())
    }

    fn show(self) -> String {
        self.0.to_string()
    }

    fn show_fixed(self, places: usize) -> String {
        format!("{:.*}", places, self.0)
    }
}

// Parse the arguments of the bot with the parsers of the library.
fn parse_args(line: &[&'static str]) -> Result<Args<Double>, clap::Error> {
    let mut matches = Command::new("run")
        .arg(Arg::new("symbol").long("symbol"))
        .arg(
            Arg::new("buying-power-buffer")
                .long("buying-power-buffer")
                .allow_hyphen_values(true)
                .value_parser(|value: &str| parse_percent::<Double>(value)),
        )
        .arg(
            Arg::new("initial-margin-requirement")
                .long("initial-margin-requirement")
                .value_parser(|value: &str| parse_positive_percent::<Double>(value)),
        )
        .try_get_matches_from(line)?;
    let defaults = Args::<Double>::default();
    Ok(Args {
        symbol: matches.remove_one("symbol").unwrap_or(defaults.symbol),
        buying_power_buffer: matches
            .remove_one("buying-power-buffer")
            .unwrap_or(defaults.buying_power_buffer),
        initial_margin_requirement: matches
            .remove_one("initial-margin-requirement")
            .unwrap_or(defaults.initial_margin_requirement),
    })
}

// Construct UTC test instants without relying on formatter-sensitive macros.
fn utc_moment(month: Month, day: u8, hour: u8, minute: u8, second: u8) -> i128 {
    Date::from_calendar_date(2026, month, day)
        .unwrap()
        .with_hms(hour, minute, second)
        .unwrap()
        .assume_utc()
        .unix_timestamp_nanos()
}

fn fresh_state() -> RuntimeState<Double> {
    RuntimeState {
        persistent: initial(),
        volatile: initial_volatile_state(),
    }
}

fn open_order(order_ref: &str, created_at: i128) -> OpenOrder {
    OpenOrder {
        order_ref: order_ref.to_string(),
        perm_id: None,
        created_at,
        last_cancelled_at: None,
    }
}

fn volatile_order(order_ref: &str, symbol: &str, side: Side, price: f64, shares: f64) -> VolatileOrder<Double> {
    VolatileOrder {
        order_ref: order_ref.to_string(),
        symbol: symbol.to_string(),
        price: Double(price),
        side,
        filled_shares: Double(0.0),
        remaining_shares: Double(shares),
    }
}

fn order_data(order_id: i32, order_ref: &str, action: Action) -> OrderData<Double> {
    OrderData {
        order_id,
        order_ref: order_ref.to_string(),
        symbol: "SOXL".to_string(),
        limit_price: Some(Double(10.5)),
        action,
        filled_quantity: Double(2.0),
        total_quantity: Double(5.0),
        perm_id: 77,
    }
}

fn order_status(order_id: i32, status: OrderStatusKind, perm_id: i64) -> OrderStatus<Double> {
    OrderStatus {
        order_id,
        status,
        filled: Double(3.0),
        remaining: Double(4.0),
        perm_id,
    }
}

#[test]
fn default_symbol() {
    // Confirm the run command falls back to the shared default symbol.
    let args = parse_args(&["run"]).unwrap();

    assert_eq!(args.symbol, "SOXL");
    assert!((args.buying_power_buffer.0 - 20.0_f64).abs() < f64::EPSILON);
    assert!((args.initial_margin_requirement.0 - 75.0_f64).abs() < f64::EPSILON);
}

#[test]
fn explicit_symbol() {
    // Confirm the run command accepts an explicit symbol.
    let args = parse_args(&["run", "--symbol", "AAPL"]).unwrap();

    assert_eq!(args.symbol, "AAPL");
}

#[test]
fn validate_initial_margin_requirement() {
    // Accept both interior and upper-bound percentages while rejecting invalid values.
    let valid = parse_args(&["run", "--initial-margin-requirement", "100"]);
    let zero = parse_args(&["run", "--initial-margin-requirement", "0"]);
    let excessive = parse_args(&["run", "--initial-margin-requirement", "100.1"]);
    let nonfinite = parse_args(&["run", "--initial-margin-requirement", "NaN"]);

    assert!((valid.unwrap().initial_margin_requirement.0 - 100.0_f64).abs() < f64::EPSILON);
    assert!(zero.is_err());
    assert!(excessive.is_err());
    assert!(nonfinite.is_err());
}

#[test]
fn validate_buying_power_buffer() {
    // Accept both buffer boundaries while rejecting out-of-range and nonfinite values.
    let zero = parse_args(&["run", "--buying-power-buffer", "0"]);
    let full = parse_args(&["run", "--buying-power-buffer", "100"]);
    let excessive = parse_args(&["run", "--buying-power-buffer", "100.1"]);
    let negative = parse_args(&["run", "--buying-power-buffer", "-1"]);
    let nonfinite = parse_args(&["run", "--buying-power-buffer", "NaN"]);

    assert!(zero.is_ok());
    assert!(full.is_ok());
    assert!(excessive.is_err());
    assert!(negative.is_err());
    assert!(nonfinite.is_err());
}

#[test]
fn percentages_are_refused_with_their_range() {
    assert_eq!(
        parse_percent::<Double>("-1").unwrap_err(),
        "The percentage must be a finite number in the range [0, 100].",
    );
    assert_eq!(
        parse_positive_percent::<Double>("word").unwrap_err(),
        "The percentage must be a finite number in the range (0, 100].",
    );
}

#[test]
fn buffer_and_round_down_buying_power() {
    // Apply the equity buffer before the margin formula and floor the result to cents.
    let buying_power = calculate_buying_power(
        Double(1_000.0),
        Double(100.0),
        Double(20.0),
        Double(75.0),
        Double(0.0),
    );

    assert!((buying_power.0 - 933.33_f64).abs() < f64::EPSILON);
}

#[test]
fn clamp_negative_buying_power() {
    // Report zero once existing margin exceeds the buffered margin budget.
    let buying_power = calculate_buying_power(
        Double(1_000.0),
        Double(900.0),
        Double(20.0),
        Double(75.0),
        Double(0.0),
    );

    assert!(buying_power.0.abs() < f64::EPSILON);
}

#[test]
fn reserve_open_buy_order_margin() {
    // Deduct the unfilled buy notional after converting it to required margin.
    let buying_power = calculate_buying_power(
        Double(1_000.0),
        Double(100.0),
        Double(20.0),
        Double(75.0),
        Double(200.0),
    );

    assert!((buying_power.0 - 733.33_f64).abs() < f64::EPSILON);
}

#[test]
fn total_only_remaining_buy_orders() {
    // Ignore filled quantities and sell orders when totaling reserved notional.
    let open_orders = HashMap::from([
        (
            1_i32,
            VolatileOrder {
                order_ref: "stockholm:buy".to_string(),
                symbol: "SOXL".to_string(),
                price: Double(10.0),
                side: Side::Buy,
                filled_shares: Double(3.0),
                remaining_shares: Double(2.0),
            },
        ),
        (
            2_i32,
            VolatileOrder {
                order_ref: "stockholm:sell".to_string(),
                symbol: "SOXL".to_string(),
                price: Double(20.0),
                side: Side::Sell,
                filled_shares: Double(0.0),
                remaining_shares: Double(4.0),
            },
        ),
    ]);

    assert!((calculate_open_buy_order_value(&open_orders).0 - 20.0_f64).abs() < f64::EPSILON);
    assert!((calculate_open_sell_shares(&open_orders, "SOXL").0 - 4.0_f64).abs() < f64::EPSILON);
    assert!(calculate_open_sell_shares(&open_orders, "AAPL").0.abs() < f64::EPSILON);
}

#[test]
fn select_limits_for_current_trading_behavior() {
    // Suppress buys and quote directly at the ask only while liquidating.
    assert_eq!(
        calculate_order_limits(Some(Double(10.129_f64)), Some(Double(10.231_f64)), false),
        (Some(Double(10.05_f64)), Some(Double(10.33_f64))),
    );
    assert_eq!(
        calculate_order_limits(Some(Double(10.129_f64)), Some(Double(10.231_f64)), true),
        (None, Some(Double(10.24_f64))),
    );
    assert_eq!(
        calculate_order_limits(Some(Double(10.129_f64)), None, true),
        (None, None),
    );
}

#[test]
fn clear_only_quotes_older_than_five_minutes() {
    // Expire each side independently while retaining a quote exactly at the age boundary.
    let now = 10 * MINUTE;
    let mut state = initial_volatile_state();
    state.bid_price = Some(Double(10.0_f64));
    state.bid_price_timestamp = Some(now - 5 * MINUTE - SECOND);
    state.ask_price = Some(Double(11.0_f64));
    state.ask_price_timestamp = Some(now - 5 * MINUTE);

    clear_stale_quote_prices(&mut state, now);

    assert_eq!(state.bid_price, None);
    assert_eq!(state.bid_price_timestamp, None);
    assert_eq!(state.ask_price, Some(Double(11.0_f64)));
    assert_eq!(state.ask_price_timestamp, Some(now - 5 * MINUTE));
}

#[test]
fn round_limit_prices_conservatively() {
    // Keep buys below and sells above fractional-cent strategy prices.
    assert!((round_down_to_cent(Double(10.129_f64)).0 - 10.12_f64).abs() < f64::EPSILON);
    assert!((round_up_to_cent(Double(10.121_f64)).0 - 10.13_f64).abs() < f64::EPSILON);
}

#[test]
fn retry_expired_order_cancellations() {
    // Cancel after each order lifetime and then at ten-second retry intervals.
    let now = 5 * SECOND;
    let mut order = open_order("stockholm:test", 0);

    assert!(!cancellation_due(&order, Side::Sell, false, 29 * SECOND));
    assert!(cancellation_due(&order, Side::Sell, false, 30 * SECOND));
    assert!(cancellation_due(&order, Side::Buy, false, now));
    order.last_cancelled_at = Some(now - 9 * SECOND);
    assert!(!cancellation_due(&order, Side::Buy, false, now));
    order.last_cancelled_at = Some(now - 10 * SECOND);
    assert!(cancellation_due(&order, Side::Buy, false, now));
}

#[test]
fn expire_orders_quickly_during_liquidation() {
    // Expire buys immediately and sells after one minute during liquidation.
    let order = open_order("stockholm:test", 0);

    assert!(cancellation_due(&order, Side::Buy, true, 0));
    assert!(!cancellation_due(&order, Side::Sell, true, 59 * SECOND));
    assert!(cancellation_due(&order, Side::Sell, true, 60 * SECOND));
}

#[test]
fn liquidate_between_start_and_end_times() {
    // Compare Eastern wall-clock boundaries in both daylight and standard time.
    assert!(!is_liquidating(utc_moment(Month::August, 10, 19, 44, 59)));
    assert!(is_liquidating(utc_moment(Month::August, 10, 19, 45, 0)));
    assert!(is_liquidating(utc_moment(Month::August, 11, 0, 4, 59)));
    assert!(!is_liquidating(utc_moment(Month::August, 11, 0, 5, 0)));
    assert!(!is_liquidating(utc_moment(Month::January, 9, 20, 44, 59)));
    assert!(is_liquidating(utc_moment(Month::January, 9, 20, 45, 0)));
    assert!(is_liquidating(utc_moment(Month::January, 10, 1, 4, 59)));
    assert!(!is_liquidating(utc_moment(Month::January, 10, 1, 5, 0)));
}

#[test]
fn retain_only_valid_account_metrics() {
    // Confirm only finite numeric tracked summaries update volatile state.
    let mut state = fresh_state();
    update_account_metric(
        &mut state.volatile,
        AccountSummaryTags::EQUITY_WITH_LOAN_VALUE,
        "1234.5",
    );
    update_account_metric(&mut state.volatile, AccountSummaryTags::INIT_MARGIN_REQ, "234.5");
    update_account_metric(&mut state.volatile, AccountSummaryTags::INIT_MARGIN_REQ, "NaN");
    update_account_metric(&mut state.volatile, AccountSummaryTags::NET_LIQUIDATION, "9999");

    assert_eq!(state.volatile.equity_with_loan_value, Some(Double(1234.5_f64)));
    assert_eq!(state.volatile.init_margin_req, Some(Double(234.5_f64)));
}

#[test]
fn account_tags_are_those_of_the_broker() {
    assert_eq!(EQUITY_WITH_LOAN_VALUE, AccountSummaryTags::EQUITY_WITH_LOAN_VALUE);
    assert_eq!(INIT_MARGIN_REQ, AccountSummaryTags::INIT_MARGIN_REQ);
}

#[test]
fn terminal_statuses_are_those_of_the_broker() {
    let kinds = [
        (OrderStatusKind::ApiPending, ibapi::orders::OrderStatusKind::ApiPending),
        (OrderStatusKind::PendingSubmit, ibapi::orders::OrderStatusKind::PendingSubmit),
        (OrderStatusKind::PendingCancel, ibapi::orders::OrderStatusKind::PendingCancel),
        (OrderStatusKind::PreSubmitted, ibapi::orders::OrderStatusKind::PreSubmitted),
        (OrderStatusKind::Submitted, ibapi::orders::OrderStatusKind::Submitted),
        (OrderStatusKind::ApiCancelled, ibapi::orders::OrderStatusKind::ApiCancelled),
        (OrderStatusKind::Cancelled, ibapi::orders::OrderStatusKind::Cancelled),
        (OrderStatusKind::Filled, ibapi::orders::OrderStatusKind::Filled),
        (OrderStatusKind::Inactive, ibapi::orders::OrderStatusKind::Inactive),
    ];
    for (kind, broker) in kinds {
        assert_eq!(kind.is_terminal(), broker.is_terminal());
    }
    assert!(!OrderStatusKind::Unknown.is_terminal());
}

#[test]
fn positions_follow_the_configured_symbol() {
    let mut state = initial_volatile_state::<Double>();
    let other = PositionUpdate::Position { symbol: "AAPL".to_string(), shares: Double(9.0) };
    update_position(&mut state, "SOXL", &other);
    assert_eq!(state.position_shares, None);
    update_position(&mut state, "SOXL", &PositionUpdate::PositionEnd);
    assert_eq!(state.position_shares, Some(Double(0.0)));
    let held = PositionUpdate::Position { symbol: "SOXL".to_string(), shares: Double(7.0) };
    update_position(&mut state, "SOXL", &held);
    update_position(&mut state, "SOXL", &PositionUpdate::PositionEnd);
    assert_eq!(state.position_shares, Some(Double(7.0)));
}

#[test]
fn quotes_keep_only_positive_prices() {
    let mut state = initial_volatile_state::<Double>();
    update_quote(&mut state, Double(10.0), Double(-1.0), 5);
    assert_eq!(state.bid_price, Some(Double(10.0)));
    assert_eq!(state.bid_price_timestamp, Some(5));
    assert_eq!(state.ask_price, None);
    assert_eq!(state.ask_price_timestamp, None);
    update_quote(&mut state, Double(f64::NAN), Double(11.0), 6);
    assert_eq!(state.bid_price, None);
    assert_eq!(state.bid_price_timestamp, None);
    assert_eq!(state.ask_price, Some(Double(11.0)));
    assert_eq!(state.ask_price_timestamp, Some(6));
}

#[test]
fn new_references_are_managed_and_differ() {
    let first = new_order_ref();
    let second = new_order_ref();
    assert!(is_managed(&first));
    assert_eq!(first.len(), "stockholm:".len() + 32);
    let digits = &first["stockholm:".len()..];
    assert!(digits.chars().all(|digit| digit.is_ascii_digit() || ('a'..='f').contains(&digit)));
    assert_eq!(digits.as_bytes()[12], b'4');
    assert!(b"89ab".contains(&digits.as_bytes()[16]));
    assert_ne!(first, second);
    assert_eq!(order_ref_of("x"), "stockholm:x");
    assert!(!is_managed("stock"));
    assert!(!is_managed("other:stockholm:"));
}

#[test]
fn walks_visit_every_order_once() {
    let mut state = fresh_state();
    for order_id in 0..20 {
        place_limit_buy(&mut state, order_id, "stockholm:x", "SOXL", Double(1.0), Double(2.0), 0);
    }
    let mut ids = walk(&state.volatile.open_orders);
    ids.sort_unstable();
    assert_eq!(ids, (0..20).collect::<Vec<i32>>());
}

#[test]
fn placed_orders_are_recorded_twice() {
    let mut state = fresh_state();
    place_limit_buy(&mut state, 4, "stockholm:b", "SOXL", Double(3.0), Double(9.5), 100);
    place_limit_sell(&mut state, 5, "stockholm:s", "SOXL", Double(2.0), Double(9.9), 200);
    assert_eq!(state.persistent.open_orders.len(), 2);
    assert_eq!(state.persistent.open_orders[0].order_ref, "stockholm:b");
    assert_eq!(state.persistent.open_orders[0].perm_id, None);
    assert_eq!(state.persistent.open_orders[0].created_at, 100);
    assert_eq!(state.persistent.open_orders[1].created_at, 200);
    let buy = &state.volatile.open_orders[&4];
    assert_eq!(buy.side, Side::Buy);
    assert_eq!(buy.price, Double(9.5));
    assert_eq!(buy.filled_shares, Double(0.0));
    assert_eq!(buy.remaining_shares, Double(3.0));
    assert_eq!(state.volatile.open_orders[&5].side, Side::Sell);
}

#[test]
fn reported_orders_refresh_both_representations() {
    let mut state = fresh_state();
    place_limit_buy(&mut state, 4, "stockholm:b", "SOXL", Double(5.0), Double(9.5), 100);
    let data = order_data(4, "stockholm:b", Action::Buy);
    assert_eq!(update_open_order(&mut state, &data, 900), Ok(true));
    assert_eq!(update_open_order(&mut state, &data, 901), Ok(false));
    assert_eq!(state.persistent.open_orders.len(), 1);
    assert_eq!(state.persistent.open_orders[0].perm_id, Some(77));
    assert_eq!(state.persistent.open_orders[0].created_at, 100);
    let order = &state.volatile.open_orders[&4];
    assert_eq!(order.price, Double(10.5));
    assert_eq!(order.filled_shares, Double(2.0));
    assert_eq!(order.remaining_shares, Double(3.0));

    let unknown = order_data(6, "stockholm:n", Action::Sell);
    assert_eq!(update_open_order(&mut state, &unknown, 950), Ok(true));
    assert_eq!(state.persistent.open_orders[1].created_at, 950);
    assert_eq!(state.volatile.open_orders[&6].side, Side::Sell);
}

#[test]
fn unmanageable_orders_are_refused() {
    let mut state = fresh_state();
    let mut data = order_data(1, "stockholm:x", Action::SellShort);
    assert_eq!(
        update_open_order(&mut state, &data, 0),
        Err("A Stockholm order has an unsupported institutional side.".to_string()),
    );
    data.limit_price = None;
    assert_eq!(
        update_open_order(&mut state, &data, 0),
        Err("A Stockholm order is missing its limit price.".to_string()),
    );
    assert!(state.persistent.open_orders.is_empty());
    assert!(state.volatile.open_orders.is_empty());
}

#[test]
fn ended_orders_leave_no_trace() {
    let mut state = fresh_state();
    place_limit_buy(&mut state, 4, "stockholm:b", "SOXL", Double(5.0), Double(9.5), 100);
    place_limit_sell(&mut state, 5, "stockholm:s", "SOXL", Double(5.0), Double(9.9), 100);
    assert!(update_order_status(&mut state, &order_status(4, OrderStatusKind::Filled, 0)));
    assert_eq!(state.persistent.open_orders.len(), 1);
    assert_eq!(state.persistent.open_orders[0].order_ref, "stockholm:s");
    assert!(!state.volatile.open_orders.contains_key(&4));
    assert!(!update_order_status(&mut state, &order_status(4, OrderStatusKind::Filled, 0)));

    state.persistent.open_orders[0].perm_id = Some(8);
    state.volatile = initial_volatile_state();
    assert!(!update_order_status(&mut state, &order_status(9, OrderStatusKind::Cancelled, 7)));
    assert!(update_order_status(&mut state, &order_status(9, OrderStatusKind::Cancelled, 8)));
    assert!(state.persistent.open_orders.is_empty());
}

#[test]
fn open_statuses_update_shares() {
    let mut state = fresh_state();
    place_limit_buy(&mut state, 4, "stockholm:b", "SOXL", Double(7.0), Double(9.5), 100);
    assert!(!update_order_status(&mut state, &order_status(4, OrderStatusKind::Submitted, 0)));
    assert_eq!(state.volatile.open_orders[&4].filled_shares, Double(3.0));
    assert_eq!(state.volatile.open_orders[&4].remaining_shares, Double(4.0));
    assert_eq!(state.persistent.open_orders.len(), 1);
}

#[test]
fn foreign_orders_are_ignored() {
    let mut state = fresh_state();
    let update = OrderUpdate::OpenOrder(order_data(1, "other:x", Action::SellLong));
    assert_eq!(apply_order_update(&mut state, &update, 0), Ok(false));
    assert_eq!(apply_order_update(&mut state, &OrderUpdate::Other, 0), Ok(false));
    assert!(state.volatile.open_orders.is_empty());
    let status = OrderUpdate::OrderStatus(order_status(1, OrderStatusKind::Filled, 3));
    assert_eq!(apply_order_update(&mut state, &status, 0), Ok(false));
}

#[test]
fn snapshots_prune_what_they_do_not_list() {
    let mut state = fresh_state();
    place_limit_buy(&mut state, 1, "stockholm:kept", "SOXL", Double(5.0), Double(9.5), 100);
    place_limit_buy(&mut state, 2, "stockholm:gone", "SOXL", Double(5.0), Double(9.5), 100);
    let mut snapshot = OrderSnapshot::new();
    assert_eq!(snapshot.summary(), "No Stockholm open orders found.");
    let kept = OrderUpdate::OpenOrder(order_data(1, "stockholm:kept", Action::Buy));
    assert_eq!(snapshot.observe(&mut state, &kept, 900), Ok(true));
    assert_eq!(snapshot.summary(), "Finished listing 1 Stockholm open order.");
    let added = OrderUpdate::OpenOrder(order_data(3, "stockholm:new", Action::Sell));
    assert_eq!(snapshot.observe(&mut state, &added, 900), Ok(true));
    let foreign = OrderUpdate::OpenOrder(order_data(4, "other", Action::Sell));
    assert_eq!(snapshot.observe(&mut state, &foreign, 900), Ok(false));
    assert_eq!(snapshot.summary(), "Finished listing 2 Stockholm open orders.");
    assert!(snapshot.reconcile(&mut state));
    let references = state
        .persistent
        .open_orders
        .iter()
        .map(|order| order.order_ref.as_str())
        .collect::<Vec<_>>();
    assert_eq!(references, vec!["stockholm:kept", "stockholm:new"]);
    let mut ids = walk(&state.volatile.open_orders);
    ids.sort_unstable();
    assert_eq!(ids, vec![1, 3]);
}

#[test]
fn due_orders_are_cancelled_once_per_delay() {
    let mut state = fresh_state();
    place_limit_buy(&mut state, 1, "stockholm:b", "SOXL", Double(5.0), Double(9.5), 0);
    place_limit_sell(&mut state, 2, "stockholm:s", "SOXL", Double(5.0), Double(9.9), 0);
    state.persistent.open_orders.push(open_order("stockholm:unknown", 0));

    let attempts = cancel_expired_orders(&mut state, "SOXL", false, 6 * SECOND);
    assert_eq!(attempts, vec![(1, "stockholm:b".to_string())]);
    assert_eq!(state.persistent.open_orders[0].last_cancelled_at, Some(6 * SECOND));
    assert_eq!(state.persistent.open_orders[1].last_cancelled_at, None);
    assert!(cancel_expired_orders(&mut state, "SOXL", false, 15 * SECOND).is_empty());
    let attempts = cancel_expired_orders(&mut state, "SOXL", false, 30 * SECOND);
    assert_eq!(
        attempts,
        vec![(1, "stockholm:b".to_string()), (2, "stockholm:s".to_string())],
    );
    assert_eq!(state.persistent.open_orders[2].last_cancelled_at, None);
}

#[test]
fn liquidation_applies_to_the_configured_symbol() {
    let mut state = fresh_state();
    place_limit_buy(&mut state, 1, "stockholm:b", "AAPL", Double(5.0), Double(9.5), 0);
    assert!(cancel_expired_orders(&mut state, "SOXL", true, SECOND).is_empty());
    assert_eq!(cancel_expired_orders(&mut state, "AAPL", true, SECOND).len(), 1);
}

#[test]
fn steps_begin_with_the_eastern_clock() {
    let mut state = fresh_state();
    let open = utc_moment(Month::August, 10, 15, 0, 0);
    let closing = utc_moment(Month::August, 10, 19, 45, 0);
    place_limit_buy(&mut state, 1, "stockholm:b", "SOXL", Double(5.0), Double(9.5), open);
    let (liquidating, attempts) = begin_control_step(&mut state, "SOXL", open);
    assert!(!liquidating);
    assert!(attempts.is_empty());
    let (liquidating, attempts) = begin_control_step(&mut state, "SOXL", closing);
    assert!(liquidating);
    assert_eq!(attempts, vec![(1, "stockholm:b".to_string())]);
}

#[test]
fn steps_spend_what_is_available() {
    let mut state = initial_volatile_state::<Double>();
    state.open_orders.insert(1, volatile_order("stockholm:b", "SOXL", Side::Buy, 10.0, 20.0));
    state.open_orders.insert(2, volatile_order("stockholm:s", "SOXL", Side::Sell, 10.0, 4.0));
    state.equity_with_loan_value = Some(Double(1_000.0));
    state.init_margin_req = Some(Double(100.0));
    state.position_shares = Some(Double(10.5));
    state.bid_price = Some(Double(10.129));
    state.ask_price = Some(Double(10.231));

    let step = run_control_step(&state, "SOXL", Double(20.0), Double(75.0), false);
    let buy = step.buy.unwrap();
    assert_eq!(buy.limit, Double(10.05));
    assert_eq!(buy.shares, Double(72.0));
    let sell = step.sell.unwrap();
    assert_eq!(sell.limit, Double(10.33));
    assert_eq!(sell.shares, Double(6.0));
    assert_eq!(
        step.status,
        "Equity: 1000; buying power: 733.33; open orders: 2; bid: 10.129; ask: 10.231; liquidating: false",
    );

    let step = run_control_step(&state, "SOXL", Double(20.0), Double(75.0), true);
    assert!(step.buy.is_none());
    assert_eq!(step.sell.unwrap().limit, Double(10.24));
}

#[test]
fn steps_wait_for_data() {
    let state = initial_volatile_state::<Double>();
    let step = run_control_step(&state, "SOXL", Double(20.0), Double(75.0), false);
    assert!(step.buy.is_none());
    assert!(step.sell.is_none());
    assert_eq!(
        step.status,
        "Equity: unavailable; buying power: unavailable; open orders: 0; bid: unavailable; ask: unavailable; liquidating: false",
    );
}

#[test]
fn clearing_quotes_twice_changes_nothing() {
    let mut state = initial_volatile_state::<Double>();
    update_quote(&mut state, Double(10.0), Double(11.0), 0);
    clear_stale_quote_prices(&mut state, 5 * MINUTE);
    assert_eq!(state.bid_price, Some(Double(10.0)));
    for _ in 0..2 {
        clear_stale_quote_prices(&mut state, 5 * MINUTE + 1);
        assert_eq!(state.bid_price, None);
        assert_eq!(state.ask_price, None);
        assert_eq!(state.bid_price_timestamp, None);
        assert_eq!(state.ask_price_timestamp, None);
    }
}

#[test]
fn reconciling_twice_changes_nothing() {
    let mut state = fresh_state();
    place_limit_buy(&mut state, 1, "stockholm:kept", "SOXL", Double(5.0), Double(9.5), 100);
    place_limit_buy(&mut state, 2, "stockholm:gone", "SOXL", Double(5.0), Double(9.5), 100);
    let snapshot = || OrderSnapshot { order_refs: vec!["stockholm:kept".to_string()] };
    assert!(snapshot().reconcile(&mut state));
    assert!(!snapshot().reconcile(&mut state));
    assert_eq!(state.persistent.open_orders.len(), 1);
    assert_eq!(walk(&state.volatile.open_orders), vec![1]);
}

#[test]
fn reservations_count_once_placed() {
    let mut state = fresh_state();
    state.volatile.position_shares = Some(Double(10.0));
    state.volatile.ask_price = Some(Double(10.0));
    let step = run_control_step(&state.volatile, "SOXL", Double(20.0), Double(75.0), true);
    let sell = step.sell.unwrap();
    assert_eq!(sell.shares, Double(10.0));
    place_limit_sell(&mut state, 1, "stockholm:s", "SOXL", sell.shares, sell.limit, 0);
    let step = run_control_step(&state.volatile, "SOXL", Double(20.0), Double(75.0), true);
    assert!(step.sell.is_none());
}
