//! A search for the market-maker parameters with the best results.
use crate::backtest::Args;
use crate::market_maker::{
    day_models, days_have_bars, outcome_model, simulate_market_maker, simulation, Day, DayModel,
    MarketMakerConfig, MarketMakerResult, ResultModel,
};
use crate::number::{zero, zero_spec, Number};
use rayon::iter::{IntoParallelRefIterator, ParallelIterator};
use vstd::prelude::*;

verus! {

/// One configuration with its simulation statistics.
pub struct GridCandidate<N> {
    pub config: MarketMakerConfig<N>,
    pub result: MarketMakerResult<N>,
}

/// The mathematical model of a [`GridCandidate`].
#[verifier::ext_equal]
pub struct CandidateModel<N> {
    pub config: MarketMakerConfig<N>,
    pub result: ResultModel<N>,
}

impl<N> View for GridCandidate<N> {
    type V = CandidateModel<N>;

    open spec fn view(&self) -> CandidateModel<N> {
        CandidateModel { config: self.config, result: self.result@ }
    }
}

/// The models of a list of candidates.
pub open spec fn candidate_models<N>(candidates: Seq<GridCandidate<N>>) -> Seq<CandidateModel<N>> {
    candidates.map_values(|candidate: GridCandidate<N>| candidate@)
}

/// The configurations favored by return and by risk-adjusted return.
pub struct GridResult<N> {
    pub highest_return: GridCandidate<N>,
    pub highest_annualized_sharpe: Option<GridCandidate<N>>,
}

// Configurations

/// The sequences that a function gives for each item, one after another.
pub open spec fn for_each<A, B>(items: Seq<A>, f: spec_fn(A) -> Seq<B>) -> Seq<B>
    decreases items.len(),
{
    if items.len() == 0 {
        Seq::empty()
    } else {
        for_each(items.drop_last(), f) + f(items.last())
    }
}

/// A configuration with each bet size.
pub open spec fn bet_configs<N>(
    base: MarketMakerConfig<N>,
    bet_sizes: Seq<N>,
) -> Seq<MarketMakerConfig<N>> {
    bet_sizes.map_values(|bet_size: N| MarketMakerConfig { bet_size, ..base })
}

/// A configuration with each markup and, for each of them, each bet size.
pub open spec fn markup_configs<N>(
    base: MarketMakerConfig<N>,
    markups: Seq<N>,
    bet_sizes: Seq<N>,
) -> Seq<MarketMakerConfig<N>> {
    for_each(
        markups,
        |markup_percent: N|
            bet_configs(MarketMakerConfig { markup_percent, ..base }, bet_sizes),
    )
}

/// A configuration with each discount and, for each of them, each markup and bet size.
pub open spec fn discount_configs<N>(
    base: MarketMakerConfig<N>,
    discounts: Seq<N>,
    markups: Seq<N>,
    bet_sizes: Seq<N>,
) -> Seq<MarketMakerConfig<N>> {
    for_each(
        discounts,
        |discount_percent: N|
            markup_configs(MarketMakerConfig { discount_percent, ..base }, markups, bet_sizes),
    )
}

/// A configuration with each sell lifetime and, for each of them, each combination of the
/// parameters that vary faster.
pub open spec fn sell_ttl_configs<N>(
    base: MarketMakerConfig<N>,
    sell_ttls: Seq<u64>,
    discounts: Seq<N>,
    markups: Seq<N>,
    bet_sizes: Seq<N>,
) -> Seq<MarketMakerConfig<N>> {
    for_each(
        sell_ttls,
        |sell_ttl: u64|
            discount_configs(
                MarketMakerConfig { sell_ttl, ..base },
                discounts,
                markups,
                bet_sizes,
            ),
    )
}

/// A configuration with each buy lifetime and, for each of them, each combination of the
/// parameters that vary faster.
pub open spec fn buy_ttl_configs<N>(
    base: MarketMakerConfig<N>,
    buy_ttls: Seq<u64>,
    sell_ttls: Seq<u64>,
    discounts: Seq<N>,
    markups: Seq<N>,
    bet_sizes: Seq<N>,
) -> Seq<MarketMakerConfig<N>> {
    for_each(
        buy_ttls,
        |buy_ttl: u64|
            sell_ttl_configs(
                MarketMakerConfig { buy_ttl, ..base },
                sell_ttls,
                discounts,
                markups,
                bet_sizes,
            ),
    )
}

fn add_bet_configs<N: Number>(
    configs: &mut Vec<MarketMakerConfig<N>>,
    base: MarketMakerConfig<N>,
    bet_sizes: &Vec<N>,
)
    ensures
        final(configs)@ == old(configs)@ + bet_configs(base, bet_sizes@),
{
    for index in 0..bet_sizes.len()
        invariant
            configs@ == old(configs)@ + bet_configs(base, bet_sizes@.take(index as int)),
    {
        let ghost before = configs@;
        configs.push(MarketMakerConfig { bet_size: bet_sizes[index], ..base });
        assert(configs@ =~= old(configs)@ + bet_configs(base, bet_sizes@.take(index + 1)));
    }
    assert(bet_sizes@.take(bet_sizes.len() as int) =~= bet_sizes@);
}

fn add_markup_configs<N: Number>(
    configs: &mut Vec<MarketMakerConfig<N>>,
    base: MarketMakerConfig<N>,
    markups: &Vec<N>,
    bet_sizes: &Vec<N>,
)
    ensures
        final(configs)@ == old(configs)@ + markup_configs(base, markups@, bet_sizes@),
{
    assert(configs@ =~= old(configs)@ + markup_configs(base, markups@.take(0), bet_sizes@));
    for index in 0..markups.len()
        invariant
            configs@ == old(configs)@ + markup_configs(
                base,
                markups@.take(index as int),
                bet_sizes@,
            ),
    {
        assert(markups@.take(index + 1).drop_last() =~= markups@.take(index as int));
        add_bet_configs(
            configs,
            MarketMakerConfig { markup_percent: markups[index], ..base },
            bet_sizes,
        );
        assert(configs@ =~= old(configs)@ + markup_configs(
            base,
            markups@.take(index + 1),
            bet_sizes@,
        ));
    }
    assert(markups@.take(markups.len() as int) =~= markups@);
}

fn add_discount_configs<N: Number>(
    configs: &mut Vec<MarketMakerConfig<N>>,
    base: MarketMakerConfig<N>,
    discounts: &Vec<N>,
    markups: &Vec<N>,
    bet_sizes: &Vec<N>,
)
    ensures
        final(configs)@ == old(configs)@ + discount_configs(
            base,
            discounts@,
            markups@,
            bet_sizes@,
        ),
{
    assert(configs@ =~= old(configs)@ + discount_configs(
        base,
        discounts@.take(0),
        markups@,
        bet_sizes@,
    ));
    for index in 0..discounts.len()
        invariant
            configs@ == old(configs)@ + discount_configs(
                base,
                discounts@.take(index as int),
                markups@,
                bet_sizes@,
            ),
    {
        assert(discounts@.take(index + 1).drop_last() =~= discounts@.take(index as int));
        add_markup_configs(
            configs,
            MarketMakerConfig { discount_percent: discounts[index], ..base },
            markups,
            bet_sizes,
        );
        assert(configs@ =~= old(configs)@ + discount_configs(
            base,
            discounts@.take(index + 1),
            markups@,
            bet_sizes@,
        ));
    }
    assert(discounts@.take(discounts.len() as int) =~= discounts@);
}

fn add_sell_ttl_configs<N: Number>(
    configs: &mut Vec<MarketMakerConfig<N>>,
    base: MarketMakerConfig<N>,
    args: &Args<N>,
)
    ensures
        final(configs)@ == old(configs)@ + sell_ttl_configs(
            base,
            args.sell_ttls@,
            args.discount_percentages@,
            args.markup_percentages@,
            args.bet_sizes@,
        ),
{
    let ghost sell_ttls = args.sell_ttls@;
    let ghost discounts = args.discount_percentages@;
    let ghost markups = args.markup_percentages@;
    let ghost bet_sizes = args.bet_sizes@;
    assert(configs@ =~= old(configs)@ + sell_ttl_configs(
        base,
        sell_ttls.take(0),
        discounts,
        markups,
        bet_sizes,
    ));
    for index in 0..args.sell_ttls.len()
        invariant
            sell_ttls == args.sell_ttls@,
            discounts == args.discount_percentages@,
            markups == args.markup_percentages@,
            bet_sizes == args.bet_sizes@,
            configs@ == old(configs)@ + sell_ttl_configs(
                base,
                sell_ttls.take(index as int),
                discounts,
                markups,
                bet_sizes,
            ),
    {
        assert(sell_ttls.take(index + 1).drop_last() =~= sell_ttls.take(index as int));
        add_discount_configs(
            configs,
            MarketMakerConfig { sell_ttl: args.sell_ttls[index], ..base },
            &args.discount_percentages,
            &args.markup_percentages,
            &args.bet_sizes,
        );
        assert(configs@ =~= old(configs)@ + sell_ttl_configs(
            base,
            sell_ttls.take(index + 1),
            discounts,
            markups,
            bet_sizes,
        ));
    }
    assert(sell_ttls.take(sell_ttls.len() as int) =~= sell_ttls);
}

impl<N: Number> Args<N> {
    /// The configuration that every combination starts from.
    pub open spec fn base(&self) -> MarketMakerConfig<N> {
        MarketMakerConfig {
            initial_cash: self.initial_cash,
            bar_volume_limit: self.bar_volume_limit,
            buy_ttl: 0,
            sell_ttl: 0,
            discount_percent: zero_spec(),
            markup_percent: zero_spec(),
            bet_size: zero_spec(),
        }
    }

    /// Every combination of the parameters, in the order in which they are searched.
    pub open spec fn combinations(&self) -> Seq<MarketMakerConfig<N>> {
        buy_ttl_configs(
            self.base(),
            self.buy_ttls@,
            self.sell_ttls@,
            self.discount_percentages@,
            self.markup_percentages@,
            self.bet_sizes@,
        )
    }

    /// Build every configuration in search order.
    pub fn configs(&self) -> (result: Vec<MarketMakerConfig<N>>)
        ensures
            result@ == self.combinations(),
    {
        let base = MarketMakerConfig {
            initial_cash: self.initial_cash,
            bar_volume_limit: self.bar_volume_limit,
            buy_ttl: 0,
            sell_ttl: 0,
            discount_percent: zero(),
            markup_percent: zero(),
            bet_size: zero(),
        };
        let ghost buy_ttls = self.buy_ttls@;
        let ghost combine = |buy_ttls: Seq<u64>|
            buy_ttl_configs(
                base,
                buy_ttls,
                self.sell_ttls@,
                self.discount_percentages@,
                self.markup_percentages@,
                self.bet_sizes@,
            );
        let mut configs: Vec<MarketMakerConfig<N>> = Vec::new();
        assert(configs@ =~= combine(buy_ttls.take(0)));
        for index in 0..self.buy_ttls.len()
            invariant
                buy_ttls == self.buy_ttls@,
                configs@ == combine(buy_ttls.take(index as int)),
                combine == |buy_ttls: Seq<u64>|
                    buy_ttl_configs(
                        base,
                        buy_ttls,
                        self.sell_ttls@,
                        self.discount_percentages@,
                        self.markup_percentages@,
                        self.bet_sizes@,
                    ),
        {
            assert(buy_ttls.take(index + 1).drop_last() =~= buy_ttls.take(index as int));
            add_sell_ttl_configs(
                &mut configs,
                MarketMakerConfig { buy_ttl: self.buy_ttls[index], ..base },
                self,
            );
            assert(configs@ =~= combine(buy_ttls.take(index + 1)));
        }
        assert(buy_ttls.take(buy_ttls.len() as int) =~= buy_ttls);
        configs
    }
}

// Candidates

/// The candidates of a list of configurations, or the message of the first failure.
pub open spec fn candidates_of<N: Number>(
    days: Seq<DayModel<N>>,
    configs: Seq<MarketMakerConfig<N>>,
) -> Result<Seq<CandidateModel<N>>, Seq<char>>
    decreases configs.len(),
{
    if configs.len() == 0 {
        Ok(Seq::empty())
    } else {
        match candidates_of(days, configs.drop_last()) {
            Err(message) => Err(message),
            Ok(candidates) => match simulation(days, configs.last(), false) {
                Err(message) => Err(message),
                Ok(result) => Ok(
                    candidates.push(CandidateModel { config: configs.last(), result }),
                ),
            },
        }
    }
}

/// The first failure among some configurations is the first among more.
pub(crate) proof fn lemma_candidates_error<N: Number>(
    days: Seq<DayModel<N>>,
    configs: Seq<MarketMakerConfig<N>>,
    count: int,
)
    requires
        0 <= count <= configs.len(),
        candidates_of(days, configs.take(count)) is Err,
    ensures
        candidates_of(days, configs) == candidates_of(days, configs.take(count)),
    decreases configs.len(),
{
    if count < configs.len() {
        assert(configs.drop_last().take(count) =~= configs.take(count));
        lemma_candidates_error(days, configs.drop_last(), count);
    } else {
        assert(configs.take(count) =~= configs);
    }
}

/// There is a candidate for each configuration.
pub(crate) proof fn lemma_candidate_count<N: Number>(
    days: Seq<DayModel<N>>,
    configs: Seq<MarketMakerConfig<N>>,
)
    requires
        candidates_of(days, configs) is Ok,
    ensures
        candidates_of(days, configs)->Ok_0.len() == configs.len(),
    decreases configs.len(),
{
    if configs.len() > 0 {
        lemma_candidate_count(days, configs.drop_last());
    }
}

/// The candidates of two lists of configurations, one after the other.
pub open spec fn joined_candidates<N>(
    first: Result<Seq<CandidateModel<N>>, Seq<char>>,
    second: Result<Seq<CandidateModel<N>>, Seq<char>>,
) -> Result<Seq<CandidateModel<N>>, Seq<char>> {
    match (first, second) {
        (Err(message), _) => Err(message),
        (Ok(_), Err(message)) => Err(message),
        (Ok(earlier), Ok(later)) => Ok(earlier + later),
    }
}

/// Evaluating configurations in two parts is evaluating all of them.
pub(crate) proof fn lemma_candidates_join<N: Number>(
    days: Seq<DayModel<N>>,
    first: Seq<MarketMakerConfig<N>>,
    second: Seq<MarketMakerConfig<N>>,
)
    ensures
        candidates_of(days, first + second) == joined_candidates(
            candidates_of(days, first),
            candidates_of(days, second),
        ),
    decreases second.len(),
{
    if second.len() == 0 {
        assert(first + second =~= first);
        if let Ok(earlier) = candidates_of(days, first) {
            assert(earlier + Seq::<CandidateModel<N>>::empty() =~= earlier);
        }
    } else {
        let rest = second.drop_last();
        lemma_candidates_join(days, first, rest);
        assert((first + second).drop_last() =~= first + rest);
        assert((first + second).last() == second.last());
        if let (Ok(earlier), Ok(later)) = (candidates_of(days, first), candidates_of(days, rest)) {
            if let Ok(result) = simulation(days, second.last(), false) {
                let candidate = CandidateModel { config: second.last(), result };
                assert((earlier + later).push(candidate) =~= earlier + later.push(candidate));
            }
        }
    }
}

/// Simulate every configuration with `rayon`'s parallel iterator over a list.
///
/// It calls [`simulate_market_maker`] once for each configuration, on some thread, and collects
/// the outcomes in the order of the configurations.
#[verifier::external_body]
fn simulate_all<N: Number + Send + Sync>(
    days: &Vec<Day<N>>,
    configs: &Vec<MarketMakerConfig<N>>,
) -> (result: Vec<Result<MarketMakerResult<N>, String>>)
    requires
        days_have_bars(days@),
    ensures
        result@.len() == configs@.len(),
        forall|index: int|
            0 <= index < configs@.len() ==> outcome_model(#[trigger] result@[index])
                == simulation(day_models(days@), configs@[index], false),
{
    configs.par_iter().map(|config| simulate_market_maker(days, *config, false)).collect()
}

/// The models of evaluated candidates, or the text of their error.
pub open spec fn candidates_model<N>(
    result: Result<Vec<GridCandidate<N>>, String>,
) -> Result<Seq<CandidateModel<N>>, Seq<char>> {
    match result {
        Ok(candidates) => Ok(candidate_models(candidates@)),
        Err(message) => Err(message@),
    }
}

/// Evaluate independent candidates in parallel and keep them in configuration order.
pub fn evaluate_candidates<N: Number + Send + Sync>(
    days: &Vec<Day<N>>,
    configs: &Vec<MarketMakerConfig<N>>,
) -> (result: Result<Vec<GridCandidate<N>>, String>)
    requires
        days_have_bars(days@),
    ensures
        candidates_model(result) == candidates_of(day_models(days@), configs@),
{
    let ghost models = day_models(days@);
    let outcomes = simulate_all(days, configs);
    let mut candidates: Vec<GridCandidate<N>> = Vec::new();
    assert(candidate_models(candidates@) =~= Seq::empty());
    let mut index: usize = 0;
    for outcome in iterator: outcomes
        invariant
            models == day_models(days@),
            index == iterator.index(),
            iterator.seq() == outcomes@,
            outcomes@.len() == configs@.len(),
            forall|position: int|
                0 <= position < configs@.len() ==> outcome_model(#[trigger] outcomes@[position])
                    == simulation(models, configs@[position], false),
            candidates_of(models, configs@.take(index as int)) == Ok::<_, Seq<char>>(
                candidate_models(candidates@),
            ),
    {
        assert(configs@.take(index + 1).drop_last() =~= configs@.take(index as int));
        assert(outcome == outcomes@[index as int]);
        assert(index < configs.len());
        match outcome {
            Ok(result) => {
                let ghost before = candidates@;
                let candidate = GridCandidate { config: configs[index], result };
                candidates.push(candidate);
                assert(candidate_models(candidates@) =~= candidate_models(before).push(
                    candidate@,
                ));
            },
            Err(message) => {
                proof {
                    lemma_candidates_error(models, configs@, index + 1);
                }
                return Err(message);
            },
        }
        index = index + 1;
    }
    assert(configs@.take(configs.len() as int) =~= configs@);
    Ok(candidates)
}

// Winners

/// The candidate with the highest final value, the first of them in a tie.
pub open spec fn highest_return<N: Number>(
    candidates: Seq<CandidateModel<N>>,
) -> Option<CandidateModel<N>>
    decreases candidates.len(),
{
    if candidates.len() == 0 {
        None
    } else {
        match highest_return(candidates.drop_last()) {
            Some(highest) if !highest.result.final_value.below_spec(
                candidates.last().result.final_value,
            ) => Some(highest),
            _ => Some(candidates.last()),
        }
    }
}

/// The candidate with the highest Sharpe ratio, the first of them in a tie.
pub open spec fn highest_sharpe<N: Number>(
    candidates: Seq<CandidateModel<N>>,
) -> Option<CandidateModel<N>>
    decreases candidates.len(),
{
    if candidates.len() == 0 {
        None
    } else {
        let highest = highest_sharpe(candidates.drop_last());
        match candidates.last().result.annualized_sharpe {
            None => highest,
            Some(sharpe) => match highest {
                Some(candidate) => match candidate.result.annualized_sharpe {
                    Some(highest_sharpe) if !highest_sharpe.below_spec(sharpe) => highest,
                    _ => Some(candidates.last()),
                },
                None => Some(candidates.last()),
            },
        }
    }
}

/// The text that no candidate was found.
pub open spec fn no_candidates_text() -> Seq<char> {
    "the parameter grid contains no valid candidates"@
}

fn copy_numbers<N: Number>(values: &Vec<N>) -> (result: Vec<N>)
    ensures
        result@ == values@,
{
    let mut result: Vec<N> = Vec::new();
    for index in 0..values.len()
        invariant
            result@ == values@.take(index as int),
    {
        result.push(values[index]);
        assert(result@ =~= values@.take(index + 1));
    }
    assert(values@.take(values.len() as int) =~= values@);
    result
}

fn copy_lines(lines: &Vec<String>) -> (result: Vec<String>)
    ensures
        result@ == lines@,
{
    let mut result: Vec<String> = Vec::new();
    for index in 0..lines.len()
        invariant
            result@ == lines@.take(index as int),
    {
        result.push(lines[index].clone());
        assert(result@ =~= lines@.take(index + 1));
    }
    assert(lines@.take(lines.len() as int) =~= lines@);
    result
}

fn copy_candidate<N: Number>(candidate: &GridCandidate<N>) -> (result: GridCandidate<N>)
    ensures
        result@ == candidate@,
{
    GridCandidate {
        config: candidate.config,
        result: MarketMakerResult {
            final_value: candidate.result.final_value,
            annualized_sharpe: candidate.result.annualized_sharpe,
            daily_returns: copy_numbers(&candidate.result.daily_returns),
            log: copy_lines(&candidate.result.log),
        },
    }
}

/// Search results in configuration order while retaining the first candidate in a tie.
pub fn select_winners<N: Number>(candidates: &Vec<GridCandidate<N>>) -> (result: Result<
    GridResult<N>,
    String,
>)
    ensures
        result is Ok <==> candidates@.len() > 0,
        result matches Ok(winners) ==> {
            &&& highest_return(candidate_models(candidates@)) == Some(winners.highest_return@)
            &&& match winners.highest_annualized_sharpe {
                Some(winner) => highest_sharpe(candidate_models(candidates@)) == Some(winner@),
                None => highest_sharpe(candidate_models(candidates@)) is None,
            }
        },
        result matches Err(message) ==> message@ == no_candidates_text(),
{
    let ghost models = candidate_models(candidates@);
    let mut best_return: Option<usize> = None;
    let mut best_sharpe: Option<usize> = None;
    for index in 0..candidates.len()
        invariant
            models == candidate_models(candidates@),
            match best_return {
                Some(best) => best < index && highest_return(models.take(index as int)) == Some(
                    candidates@[best as int]@,
                ),
                None => index == 0,
            },
            match best_sharpe {
                Some(best) => best < index && highest_sharpe(models.take(index as int)) == Some(
                    candidates@[best as int]@,
                ),
                None => highest_sharpe(models.take(index as int)) is None,
            },
    {
        assert(models.take(index + 1).drop_last() =~= models.take(index as int));
        assert(models[index as int] == candidates@[index as int]@);
        let candidate = &candidates[index];
        let exceeds_return = match best_return {
            Some(best) => candidates[best].result.final_value.below(candidate.result.final_value),
            None => true,
        };
        if exceeds_return {
            best_return = Some(index);
        }
        if let Some(candidate_sharpe) = candidate.result.annualized_sharpe {
            let exceeds_sharpe = match best_sharpe {
                Some(best) => match candidates[best].result.annualized_sharpe {
                    Some(highest_sharpe) => highest_sharpe.below(candidate_sharpe),
                    None => true,
                },
                None => true,
            };
            if exceeds_sharpe {
                best_sharpe = Some(index);
            }
        }
    }
    assert(models.take(candidates.len() as int) =~= models);
    match best_return {
        None => Err("the parameter grid contains no valid candidates".to_owned()),
        Some(best) => {
            let highest_annualized_sharpe = match best_sharpe {
                Some(index) => Some(copy_candidate(&candidates[index])),
                None => None,
            };
            Ok(
                GridResult {
                    highest_return: copy_candidate(&candidates[best]),
                    highest_annualized_sharpe,
                },
            )
        },
    }
}

} // verus!
