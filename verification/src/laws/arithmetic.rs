//! Laws of decimal arithmetic.
use crate::control::{rounded_down, rounded_up};
use crate::fixed::Fixed;
use crate::number::{on_one_line, orders_strictly, orders_totally, Number};
use vstd::prelude::*;

verus! {

/// Decimal numbers are ordered strictly, all of them on one line, and totally.
pub proof fn law_decimals_are_ordered()
    ensures
        orders_strictly::<Fixed>(),
        forall|first: Fixed, second: Fixed, third: Fixed| #[trigger]
            on_one_line(first, second, third),
        orders_totally::<Fixed>(),
{
    reveal(orders_strictly);
    reveal(orders_totally);
}

/// Limits are rounded conservatively: a buy limit down by less than a cent, a sell limit up by
/// less than a cent, each to a whole number of cents.
pub proof fn law_limits_are_rounded_conservatively(price: Fixed)
    requires
        0 <= price.units <= 90_000_000_000_000_000,
    ensures
        price.units - 10_000 < rounded_down(price).units <= price.units,
        rounded_down(price).units % 10_000 == 0,
        price.units <= rounded_up(price).units < price.units + 10_000,
        rounded_up(price).units % 10_000 == 0,
{
    let units = price.units as int;
    let hundred = crate::number::hundred_spec::<Fixed>();
    assert(hundred.units == 100_000_000) by {
        let (numerator, denominator): (int, int) = (100, 1);
        assert((2 * numerator * 1_000_000 + denominator) / (2 * denominator) == 100_000_000)
            by (nonlinear_arith)
            requires
                numerator == 100,
                denominator == 1,
        ;
    }
    let cents = price.times_spec(hundred);
    assert(units * 100_000_000 / 1_000_000 == units * 100) by (nonlinear_arith);
    assert(cents.units == units * 100);
    let down = cents.floor_spec();
    let up = cents.ceiling_spec();
    assert(down.units == units * 100 / 1_000_000 * 1_000_000);
    assert(up.units == -(-(units * 100) / 1_000_000 * 1_000_000));
    assert(rounded_down(price).units == down.units * 1_000_000 / 100_000_000);
    assert(rounded_up(price).units == up.units * 1_000_000 / 100_000_000);
}

} // verus!
