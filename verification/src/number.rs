//! The arithmetic in which prices, share counts, and rates are computed.
use vstd::prelude::*;

verus! {

/// The arithmetic in which prices, share counts, and rates are computed.
///
/// An operation is a function of its operands: each method returns what the specification
/// function of the same name says. Those functions are left open here, so what is proved of
/// code that is generic over `Number` holds in every arithmetic, rounded or exact. They have
/// a body only so that an arithmetic outside the verified library may leave them out.
pub trait Number: Sized + Copy {
    closed spec fn plus_spec(self, other: Self) -> Self {
        arbitrary()
    }

    closed spec fn minus_spec(self, other: Self) -> Self {
        arbitrary()
    }

    closed spec fn times_spec(self, other: Self) -> Self {
        arbitrary()
    }

    closed spec fn over_spec(self, other: Self) -> Self {
        arbitrary()
    }

    closed spec fn minimum_spec(self, other: Self) -> Self {
        arbitrary()
    }

    closed spec fn maximum_spec(self, other: Self) -> Self {
        arbitrary()
    }

    closed spec fn floor_spec(self) -> Self {
        arbitrary()
    }

    closed spec fn ceiling_spec(self) -> Self {
        arbitrary()
    }

    closed spec fn square_root_spec(self) -> Self {
        arbitrary()
    }

    closed spec fn natural_log_spec(self) -> Self {
        arbitrary()
    }

    closed spec fn squared_spec(self) -> Self {
        arbitrary()
    }

    closed spec fn below_spec(self, other: Self) -> bool {
        arbitrary()
    }

    closed spec fn at_most_spec(self, other: Self) -> bool {
        arbitrary()
    }

    closed spec fn same_spec(self, other: Self) -> bool {
        arbitrary()
    }

    closed spec fn total_below_spec(self, other: Self) -> bool {
        arbitrary()
    }

    closed spec fn is_finite_spec(self) -> bool {
        arbitrary()
    }

    closed spec fn infinity_spec() -> Self {
        arbitrary()
    }

    closed spec fn negative_infinity_spec() -> Self {
        arbitrary()
    }

    closed spec fn epsilon_spec() -> Self {
        arbitrary()
    }

    closed spec fn empty_sum_spec() -> Self {
        arbitrary()
    }

    closed spec fn ratio_spec(numerator: int, denominator: int) -> Self {
        arbitrary()
    }

    closed spec fn count_spec(value: nat) -> Self {
        arbitrary()
    }

    closed spec fn parse_spec(text: Seq<char>) -> Result<Self, Seq<char>> {
        arbitrary()
    }

    closed spec fn show_spec(self) -> Seq<char> {
        arbitrary()
    }

    closed spec fn show_fixed_spec(self, places: nat) -> Seq<char> {
        arbitrary()
    }

    /// The sum.
    fn plus(self, other: Self) -> (result: Self)
        ensures
            result == self.plus_spec(other),
    ;

    /// The difference.
    fn minus(self, other: Self) -> (result: Self)
        ensures
            result == self.minus_spec(other),
    ;

    /// The product.
    fn times(self, other: Self) -> (result: Self)
        ensures
            result == self.times_spec(other),
    ;

    /// The quotient.
    fn over(self, other: Self) -> (result: Self)
        ensures
            result == self.over_spec(other),
    ;

    /// The smaller of two numbers.
    fn minimum(self, other: Self) -> (result: Self)
        ensures
            result == self.minimum_spec(other),
    ;

    /// The larger of two numbers.
    fn maximum(self, other: Self) -> (result: Self)
        ensures
            result == self.maximum_spec(other),
    ;

    /// The largest whole number that is at most this one.
    fn floor(self) -> (result: Self)
        ensures
            result == self.floor_spec(),
    ;

    /// The smallest whole number that is at least this one.
    fn ceiling(self) -> (result: Self)
        ensures
            result == self.ceiling_spec(),
    ;

    /// The square root.
    fn square_root(self) -> (result: Self)
        ensures
            result == self.square_root_spec(),
    ;

    /// The natural logarithm.
    fn natural_log(self) -> (result: Self)
        ensures
            result == self.natural_log_spec(),
    ;

    /// The second power.
    fn squared(self) -> (result: Self)
        ensures
            result == self.squared_spec(),
    ;

    /// Whether this number is less than another.
    fn below(self, other: Self) -> (result: bool)
        ensures
            result == self.below_spec(other),
    ;

    /// Whether this number is less than or equal to another.
    fn at_most(self, other: Self) -> (result: bool)
        ensures
            result == self.at_most_spec(other),
    ;

    /// Whether this number equals another.
    fn same(self, other: Self) -> (result: bool)
        ensures
            result == self.same_spec(other),
    ;

    /// Whether this number comes before another in the total order of all values.
    fn total_below(self, other: Self) -> (result: bool)
        ensures
            result == self.total_below_spec(other),
    ;

    /// Whether this is a number, and neither infinity.
    fn is_finite(self) -> (result: bool)
        ensures
            result == self.is_finite_spec(),
    ;

    /// The value above every finite number.
    fn infinity() -> (result: Self)
        ensures
            result == Self::infinity_spec(),
    ;

    /// The value below every finite number.
    fn negative_infinity() -> (result: Self)
        ensures
            result == Self::negative_infinity_spec(),
    ;

    /// The gap between one and the next larger number.
    fn epsilon() -> (result: Self)
        ensures
            result == Self::epsilon_spec(),
    ;

    /// The sum of no numbers, from which every sum starts.
    fn empty_sum() -> (result: Self)
        ensures
            result == Self::empty_sum_spec(),
    ;

    /// The number nearest to the quotient of two small integers.
    fn ratio(numerator: u32, denominator: u32) -> (result: Self)
        requires
            denominator > 0,
        ensures
            result == Self::ratio_spec(numerator as int, denominator as int),
    ;

    /// The number nearest to a count.
    fn count(value: usize) -> (result: Self)
        ensures
            result == Self::count_spec(value as nat),
    ;

    /// Read a number, or say why the text is none.
    fn parse(text: &str) -> (result: Result<Self, String>)
        ensures
            match result {
                Ok(value) => Self::parse_spec(text@) == Ok::<Self, Seq<char>>(value),
                Err(message) => Self::parse_spec(text@) == Err::<Self, Seq<char>>(message@),
            },
    ;

    /// The shortest text that reads back as this number.
    fn show(self) -> (result: String)
        ensures
            result@ == self.show_spec(),
    ;

    /// The text of this number rounded to a number of decimal places.
    fn show_fixed(self, places: usize) -> (result: String)
        ensures
            result@ == self.show_fixed_spec(places as nat),
    ;
}

/// Zero.
pub open spec fn zero_spec<N: Number>() -> N {
    N::ratio_spec(0, 1)
}

/// One.
pub open spec fn one_spec<N: Number>() -> N {
    N::ratio_spec(1, 1)
}

/// One hundred.
pub open spec fn hundred_spec<N: Number>() -> N {
    N::ratio_spec(100, 1)
}

/// Zero.
pub fn zero<N: Number>() -> (result: N)
    ensures
        result == zero_spec::<N>(),
{
    N::ratio(0, 1)
}

/// One.
pub fn one<N: Number>() -> (result: N)
    ensures
        result == one_spec::<N>(),
{
    N::ratio(1, 1)
}

/// One hundred.
pub fn hundred<N: Number>() -> (result: N)
    ensures
        result == hundred_spec::<N>(),
{
    N::ratio(100, 1)
}

/// The sum of numbers, added up from the first to the last.
pub open spec fn total<N: Number>(values: Seq<N>) -> N
    decreases values.len(),
{
    if values.len() == 0 {
        N::empty_sum_spec()
    } else {
        total(values.drop_last()).plus_spec(values.last())
    }
}

/// Add up numbers from the first to the last.
pub fn sum<N: Number>(values: &Vec<N>) -> (result: N)
    ensures
        result == total(values@),
{
    let mut result = N::empty_sum();
    for index in 0..values.len()
        invariant
            result == total(values@.take(index as int)),
    {
        assert(values@.take(index + 1).drop_last() =~= values@.take(index as int));
        result = result.plus(values[index]);
    }
    assert(values@.take(values.len() as int) =~= values@);
    result
}

// Arithmetics

/// Whether sums do not depend on the order of their terms, and subtraction undoes addition. This
/// holds of numbers that are not rounded.
#[verifier::opaque]
pub open spec fn sums_exactly<N: Number>() -> bool {
    &&& forall|left: N, right: N| #[trigger] left.plus_spec(right) == right.plus_spec(left)
    &&& forall|first: N, second: N, third: N| #[trigger]
        first.plus_spec(second).plus_spec(third) == first.plus_spec(second.plus_spec(third))
    &&& forall|left: N, right: N| #[trigger] left.minus_spec(right).plus_spec(right) == left
    &&& forall|value: N| #[trigger] zero_spec::<N>().plus_spec(value) == value
    &&& N::empty_sum_spec() == zero_spec::<N>()
}

/// Whether no number is below itself, and what is below a number that is below another is itself
/// below that other.
#[verifier::opaque]
pub open spec fn orders_strictly<N: Number>() -> bool {
    &&& forall|value: N| !#[trigger] value.below_spec(value)
    &&& forall|first: N, second: N, third: N|
        #![trigger first.below_spec(second), second.below_spec(third)]
        first.below_spec(second) && second.below_spec(third) ==> first.below_spec(third)
}

/// Whether a number that is below another is also below a third, or the third is below the other.
/// This fails where the third can be compared with neither.
pub open spec fn on_one_line<N: Number>(first: N, second: N, third: N) -> bool {
    first.below_spec(second) ==> first.below_spec(third) || third.below_spec(second)
}

/// Whether the total order of all values is transitive, and no value comes before itself.
#[verifier::opaque]
pub open spec fn orders_totally<N: Number>() -> bool {
    &&& forall|value: N| !#[trigger] value.total_below_spec(value)
    &&& forall|first: N, second: N, third: N|
        #![trigger first.total_below_spec(second), second.total_below_spec(third)]
        first.total_below_spec(second) && second.total_below_spec(third)
            ==> first.total_below_spec(third)
    &&& forall|first: N, second: N, third: N|
        #![trigger first.total_below_spec(third), second.total_below_spec(third)]
        first.total_below_spec(third) && !second.total_below_spec(third)
            ==> first.total_below_spec(second)
}

/// Where sums are exact, terms can be exchanged.
pub(crate) proof fn lemma_exchange<N: Number>(first: N, second: N, third: N)
    requires
        sums_exactly::<N>(),
    ensures
        first.plus_spec(second).plus_spec(third) == first.plus_spec(third).plus_spec(second),
        first.plus_spec(second.plus_spec(third)) == first.plus_spec(second).plus_spec(third),
{
    reveal(sums_exactly);
    assert(second.plus_spec(third) == third.plus_spec(second));
    assert(first.plus_spec(second).plus_spec(third) == first.plus_spec(second.plus_spec(third)));
    assert(first.plus_spec(third).plus_spec(second) == first.plus_spec(third.plus_spec(second)));
}

/// Where sums are exact, what is taken from one term and added to another leaves their sum.
pub(crate) proof fn lemma_transfer<N: Number>(left: N, right: N, amount: N)
    requires
        sums_exactly::<N>(),
    ensures
        left.minus_spec(amount).plus_spec(right.plus_spec(amount)) == left.plus_spec(right),
        left.plus_spec(amount).plus_spec(right.minus_spec(amount)) == left.plus_spec(right),
{
    reveal(sums_exactly);
    let less = left.minus_spec(amount);
    assert(less.plus_spec(amount) == left);
    assert(right.plus_spec(amount) == amount.plus_spec(right));
    assert(less.plus_spec(amount).plus_spec(right) == less.plus_spec(amount.plus_spec(right)));
    let fewer = right.minus_spec(amount);
    assert(fewer.plus_spec(amount) == right);
    assert(fewer.plus_spec(amount) == amount.plus_spec(fewer));
    assert(left.plus_spec(amount).plus_spec(fewer) == left.plus_spec(amount.plus_spec(fewer)));
}

} // verus!
