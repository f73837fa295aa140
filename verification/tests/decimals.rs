use stockholm::control::{calculate_buying_power, round_down_to_cent, round_up_to_cent};
use stockholm::fixed::Fixed;
use stockholm::market_maker::{simulate_market_maker, Bar, Day, MarketMakerConfig};
use stockholm::number::Number;

fn fixed(text: &str) -> Fixed {
    Fixed::parse(text).unwrap()
}

#[test]
fn decimals_read_and_write() {
    assert_eq!(fixed("12.5").units, 12_500_000);
    assert_eq!(fixed("-0.000001").units, -1);
    for text in ["0", "7", "-3", "12.5", "-0.000001", "999999999999.999999", "10.05"] {
        assert_eq!(fixed(text).show(), text);
    }
    for text in ["", "-", ".", "1.", ".5", "1.2345678", "1234567890123", "one", "1 "] {
        assert_eq!(Fixed::parse(text), Err("invalid decimal number".to_string()));
    }
    assert_eq!(fixed("2.345").show_fixed(2), "2.35");
    assert_eq!(fixed("2").show_fixed(2), "2.00");
    assert_eq!(fixed("-2.5").show_fixed(0), "-3");
    assert_eq!(fixed("0.5").show_fixed(8), "0.50000000");
}

#[test]
fn decimals_calculate() {
    assert_eq!(fixed("1.5").plus(fixed("2.25")), fixed("3.75"));
    assert_eq!(fixed("1.5").minus(fixed("2.25")), fixed("-0.75"));
    assert_eq!(fixed("1.5").times(fixed("2.5")), fixed("3.75"));
    assert_eq!(fixed("-0.000001").times(fixed("0.5")), fixed("-0.000001"));
    assert_eq!(fixed("10").over(fixed("4")), fixed("2.5"));
    assert_eq!(fixed("10").over(fixed("-3")), fixed("-3.333334"));
    assert_eq!(fixed("1").over(fixed("0")), Fixed::infinity());
    assert_eq!(fixed("2.7").floor(), fixed("2"));
    assert_eq!(fixed("-2.7").floor(), fixed("-3"));
    assert_eq!(fixed("2.1").ceiling(), fixed("3"));
    assert_eq!(fixed("2").square_root(), fixed("1.414213"));
    assert_eq!(fixed("2.25").square_root(), fixed("1.5"));
    assert_eq!(fixed("1").natural_log(), fixed("0"));
    assert_eq!(Fixed::ratio(7, 10), fixed("0.7"));
    assert_eq!(Fixed::ratio(2, 3), fixed("0.666667"));
    assert_eq!(Fixed::infinity().plus(fixed("1")), Fixed::infinity());
    assert!(!Fixed::infinity().is_finite());
    assert!(fixed("1").below(fixed("1").plus(Fixed::epsilon())));
}

#[test]
fn limits_are_rounded_by_less_than_a_cent() {
    assert_eq!(round_down_to_cent(fixed("10.129")), fixed("10.12"));
    assert_eq!(round_up_to_cent(fixed("10.121")), fixed("10.13"));
    assert_eq!(round_down_to_cent(fixed("10.12")), fixed("10.12"));
    assert_eq!(round_up_to_cent(fixed("10.12")), fixed("10.12"));
}

#[test]
fn buying_power_is_exact_in_decimals() {
    let power = calculate_buying_power(
        fixed("1000"),
        fixed("100"),
        fixed("20"),
        fixed("75"),
        fixed("200"),
    );
    assert_eq!(power, fixed("733.33"));
}

#[test]
fn simulations_run_in_decimals() {
    let bar = |timestamp: i64, low: &str, high: &str| Bar {
        timestamp,
        low: fixed(low),
        high: fixed(high),
        close: fixed("100"),
        liquidate: false,
    };
    let days = vec![Day {
        filename: "prices.csv".to_string(),
        bars: vec![bar(1_000, "100", "100"), bar(1_001, "99", "100"), bar(1_002, "100", "101")],
    }];
    let config = MarketMakerConfig {
        initial_cash: fixed("1000"),
        bar_volume_limit: fixed("1000"),
        buy_ttl: 3_600,
        sell_ttl: 14_400,
        discount_percent: fixed("1"),
        markup_percent: fixed("1"),
        bet_size: fixed("100"),
    };
    let result = simulate_market_maker(&days, config, true).unwrap();
    assert_eq!(result.final_value, fixed("1020"));
    assert_eq!(result.daily_returns, vec![fixed("0.02")]);
    assert_eq!(result.log.len(), 2);
}
