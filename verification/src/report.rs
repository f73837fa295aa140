//! Human-readable reports of market-maker backtests.
use crate::grid::GridResult;
use crate::market_maker::{MarketMakerConfig, MarketMakerResult, ResultModel};
use crate::number::{hundred, hundred_spec, Number};
use crate::text::{digits, joined, joined3, joined4, show_unsigned, texts};
use vstd::prelude::*;

verus! {

/// The line that reports a Sharpe ratio, or why it is unavailable.
pub open spec fn sharpe_line<N: Number>(sharpe: Option<N>) -> Seq<char> {
    match sharpe {
        Some(sharpe) => "Annualized Sharpe ratio: "@ + sharpe.show_fixed_spec(4),
        None => "Annualized Sharpe ratio: unavailable (requires at least two daily returns)"@,
    }
}

/// Report one available annualized Sharpe ratio or explain why it is unavailable.
pub fn report_sharpe_ratio<N: Number>(sharpe: Option<N>) -> (result: String)
    ensures
        result@ == sharpe_line(sharpe),
{
    match sharpe {
        Some(sharpe) => joined("Annualized Sharpe ratio: ", &sharpe.show_fixed(4)),
        None => {
            "Annualized Sharpe ratio: unavailable (requires at least two daily returns)".to_owned()
        },
    }
}

/// The lines that report the fields of a configuration beside the shared liquidation schedule.
pub open spec fn config_field_lines<N: Number>(config: MarketMakerConfig<N>) -> Seq<Seq<char>> {
    seq![
        "  Initial cash: "@ + config.initial_cash.show_fixed_spec(2),
        "  Liquidation start time (ET): 15:45:00.0"@,
        "  Liquidation end time (ET): 20:05:00.0"@,
        "  Bar volume limit: "@ + config.bar_volume_limit.show_spec(),
        "  Buy TTL: "@ + digits(config.buy_ttl as nat),
        "  Sell TTL: "@ + digits(config.sell_ttl as nat),
        "  Discount: "@ + config.discount_percent.show_spec() + "%"@,
        "  Markup: "@ + config.markup_percent.show_spec() + "%"@,
        "  Bet size: "@ + config.bet_size.show_spec() + "%"@,
    ]
}

/// Report the fields of one market-maker configuration.
fn report_config_fields<N: Number>(config: MarketMakerConfig<N>, lines: &mut Vec<String>)
    ensures
        texts(final(lines)@) == texts(old(lines)@) + config_field_lines(config),
{
    lines.push(joined("  Initial cash: ", &config.initial_cash.show_fixed(2)));
    lines.push("  Liquidation start time (ET): 15:45:00.0".to_owned());
    lines.push("  Liquidation end time (ET): 20:05:00.0".to_owned());
    lines.push(joined("  Bar volume limit: ", &config.bar_volume_limit.show()));
    lines.push(joined("  Buy TTL: ", &show_unsigned(config.buy_ttl as u128)));
    lines.push(joined("  Sell TTL: ", &show_unsigned(config.sell_ttl as u128)));
    lines.push(joined3("  Discount: ", &config.discount_percent.show(), "%"));
    lines.push(joined3("  Markup: ", &config.markup_percent.show(), "%"));
    lines.push(joined3("  Bet size: ", &config.bet_size.show(), "%"));
    assert(texts(lines@) =~= texts(old(lines)@) + config_field_lines(config));
}

/// The line that reports the return of one day, numbered from one.
pub open spec fn day_line<N: Number>(number: nat, daily_return: N) -> Seq<char> {
    "  Day "@ + digits(number) + ": "@ + hundred_spec::<N>().times_spec(
        daily_return,
    ).show_fixed_spec(2) + "%"@
}

/// The lines that report the returns of days.
pub open spec fn day_lines<N: Number>(daily_returns: Seq<N>) -> Seq<Seq<char>> {
    Seq::new(
        daily_returns.len(),
        |index: int| day_line((index + 1) as nat, daily_returns[index]),
    )
}

/// The line that names a ranking, if there is one.
pub open spec fn label_lines(label: Option<Seq<char>>) -> Seq<Seq<char>> {
    match label {
        Some(label) => seq![label],
        None => Seq::empty(),
    }
}

/// The lines that report one result: summary statistics, daily returns, and the configuration.
pub open spec fn result_lines<N: Number>(
    label: Option<Seq<char>>,
    result: ResultModel<N>,
    config: MarketMakerConfig<N>,
) -> Seq<Seq<char>> {
    label_lines(label) + seq![
        "Final account value: "@ + result.final_value.show_fixed_spec(2),
        sharpe_line(result.annualized_sharpe),
        "Daily returns:"@,
    ] + day_lines(result.daily_returns) + seq!["Configuration:"@] + config_field_lines(config)
}

fn add_result_lines<N: Number>(
    label: Option<&str>,
    result: &MarketMakerResult<N>,
    config: MarketMakerConfig<N>,
    lines: &mut Vec<String>,
)
    ensures
        texts(final(lines)@) == texts(old(lines)@) + result_lines(
            crate::table::optional_text(label),
            result@,
            config,
        ),
{
    // Identify a grid winner while leaving single-strategy reports unlabelled.
    let ghost heading = label_lines(crate::table::optional_text(label));
    if let Some(label) = label {
        lines.push(label.to_owned());
    }
    assert(texts(lines@) =~= texts(old(lines)@) + heading);

    // Present summary statistics before the detailed daily returns.
    lines.push(joined("Final account value: ", &result.final_value.show_fixed(2)));
    lines.push(report_sharpe_ratio(result.annualized_sharpe));
    lines.push("Daily returns:".to_owned());
    let ghost statistics = seq![
        "Final account value: "@ + result.final_value.show_fixed_spec(2),
        sharpe_line(result.annualized_sharpe),
        "Daily returns:"@,
    ];
    assert(texts(lines@) =~= texts(old(lines)@) + (heading + statistics));

    // Number days in chronological input order for easy comparison between reports.
    let ghost rates = result.daily_returns@;
    for index in 0..result.daily_returns.len()
        invariant
            rates == result.daily_returns@,
            texts(lines@) == texts(old(lines)@) + (heading + statistics + day_lines(
                rates.take(index as int),
            )),
    {
        let ghost before = lines@;
        let percent = hundred::<N>().times(result.daily_returns[index]);
        let number = show_unsigned(index as u128 + 1);
        let mut line = joined4("  Day ", &number, ": ", &percent.show_fixed(2));
        line.append("%");
        lines.push(line);
        assert(texts(lines@) =~= texts(before).push(line@));
        assert(day_lines(rates.take(index + 1)) =~= day_lines(rates.take(index as int)).push(
            day_line((index + 1) as nat, rates[index as int]),
        ));
        assert(texts(lines@) =~= texts(old(lines)@) + (heading + statistics + day_lines(
            rates.take(index + 1),
        )));
    }
    assert(rates.take(rates.len() as int) =~= rates);

    // Finish with the effective simulation parameters.
    let ghost days = lines@;
    lines.push("Configuration:".to_owned());
    assert(texts(lines@) =~= texts(days).push("Configuration:"@));
    report_config_fields(config, lines);
    assert(texts(lines@) =~= texts(old(lines)@) + result_lines(
        crate::table::optional_text(label),
        result@,
        config,
    ));
}

/// Report one market-maker result with an optional grid-ranking label.
pub fn report_market_maker_result<N: Number>(
    label: Option<&str>,
    result: &MarketMakerResult<N>,
    config: MarketMakerConfig<N>,
) -> (lines: Vec<String>)
    ensures
        texts(lines@) == result_lines(crate::table::optional_text(label), result@, config),
{
    let mut lines: Vec<String> = Vec::new();
    add_result_lines(label, result, config, &mut lines);
    assert(texts(lines@) =~= result_lines(crate::table::optional_text(label), result@, config));
    lines
}

/// The lines that report both winners of a search.
pub open spec fn grid_lines<N: Number>(result: GridResult<N>) -> Seq<Seq<char>> {
    result_lines(
        Some("Highest return"@),
        result.highest_return@.result,
        result.highest_return@.config,
    ) + seq![""@] + match result.highest_annualized_sharpe {
        Some(candidate) => result_lines(
            Some("Highest Sharpe ratio"@),
            candidate@.result,
            candidate@.config,
        ),
        None => seq!["Highest Sharpe ratio"@, sharpe_line::<N>(None)],
    }
}

/// Report both winning grid candidates.
pub fn report_grid_result<N: Number>(result: &GridResult<N>) -> (lines: Vec<String>)
    ensures
        texts(lines@) == grid_lines(*result),
{
    // Give each optimization criterion its own complete section.
    let mut lines = report_market_maker_result(
        Some("Highest return"),
        &result.highest_return.result,
        result.highest_return.config,
    );
    lines.push("".to_owned());
    match &result.highest_annualized_sharpe {
        Some(candidate) => {
            add_result_lines(
                Some("Highest Sharpe ratio"),
                &candidate.result,
                candidate.config,
                &mut lines,
            );
        },
        None => {
            lines.push("Highest Sharpe ratio".to_owned());
            lines.push(report_sharpe_ratio::<N>(None));
        },
    }
    assert(texts(lines@) =~= grid_lines(*result));
    lines
}

/// The line that reports the progress of a search in tenths of a percent.
pub open spec fn progress_line(completed: nat, total: nat) -> Seq<char> {
    let tenths = 1_000 * completed / total;
    "Searched "@ + digits(completed) + "/"@ + digits(total) + " configurations ("@ + digits(
        tenths / 10,
    ) + "."@ + digits(tenths % 10) + "%)"@
}

/// Report the progress of a search.
pub fn report_progress(completed: usize, total: usize) -> (line: String)
    requires
        completed <= total,
        total > 0,
    ensures
        line@ == progress_line(completed as nat, total as nat),
{
    let tenths: u128 = 1_000 * completed as u128 / total as u128;
    let mut line = joined4(
        "Searched ",
        &show_unsigned(completed as u128),
        "/",
        &show_unsigned(total as u128),
    );
    line.append(" configurations (");
    line.append(&show_unsigned(tenths / 10));
    line.append(".");
    line.append(&show_unsigned(tenths % 10));
    line.append("%)");
    line
}

} // verus!
