//! Laws of the files of a backtest.
use crate::backtest::{
    bar_of, bars_of, boundary_of, config_of, day_of, days_of, file_boundaries, file_days,
    grid_candidates, held_value, is_backtest, is_grid_outcome, market_maker_outcome,
    reliable_rows, row_timestamp, unread, Args, BarColumns, Output, Strategy,
};
use crate::files::{in_path_order, is_ordering, path_precedes, tied, FileModel};
use crate::grid::{candidates_of, GridResult};
use crate::laws::backtest::law_file_names_do_not_matter;
use crate::market_maker::{daily_logs, simulation, DayModel, MarketMakerConfig};
use crate::number::Number;
use crate::text::texts;
use vstd::prelude::*;

verus! {

// Order

/// Whether files whose paths are tied have the same key.
pub open spec fn paths_tell<K>(files: Seq<FileModel>, key: spec_fn(FileModel) -> K) -> bool {
    forall|left: int, right: int|
        #![trigger files[left], files[right]]
        0 <= left < files.len() && 0 <= right < files.len() && tied(
            files[left].path,
            files[right].path,
        ) ==> key(files[left]) == key(files[right])
}

/// In which order files are given does not matter for anything in which files with tied paths
/// agree: ordered by their paths, they agree in it place by place.
pub proof fn law_ordered_files_agree<K>(
    first: Seq<FileModel>,
    second: Seq<FileModel>,
    first_ordered: Seq<FileModel>,
    second_ordered: Seq<FileModel>,
    key: spec_fn(FileModel) -> K,
)
    ensures
        first.to_multiset() == second.to_multiset() && paths_tell(first, key) && is_ordering(
            first_ordered,
            first,
        ) && is_ordering(second_ordered, second) ==> {
            &&& first_ordered.len() == second_ordered.len()
            &&& forall|place: int|
                0 <= place < first_ordered.len() ==> key(#[trigger] first_ordered[place]) == key(
                    second_ordered[place],
                )
        },
{
    if first.to_multiset() == second.to_multiset() && paths_tell(first, key) && is_ordering(
        first_ordered,
        first,
    ) && is_ordering(second_ordered, second) {
        assert forall|left: int, right: int|
            #![trigger first_ordered[left], first_ordered[right]]
            0 <= left < first_ordered.len() && 0 <= right < first_ordered.len() && tied(
                first_ordered[left].path,
                first_ordered[right].path,
            ) implies key(first_ordered[left]) == key(first_ordered[right]) by {
            first.to_multiset_ensures();
            first_ordered.to_multiset_ensures();
            assert(first.to_multiset().count(first_ordered[left]) > 0);
            assert(first.to_multiset().count(first_ordered[right]) > 0);
            let one = choose|index: int|
                0 <= index < first.len() && first[index] == first_ordered[left];
            let other = choose|index: int|
                0 <= index < first.len() && first[index] == first_ordered[right];
            assert(key(first[one]) == key(first[other]));
        }
        lemma_same_keys(first_ordered, second_ordered, key);
    }
}

proof fn lemma_same_keys<K>(
    first: Seq<FileModel>,
    second: Seq<FileModel>,
    key: spec_fn(FileModel) -> K,
)
    requires
        first.to_multiset() == second.to_multiset(),
        in_path_order(first),
        in_path_order(second),
        paths_tell(first, key),
    ensures
        first.len() == second.len(),
        forall|place: int|
            0 <= place < first.len() ==> key(#[trigger] first[place]) == key(second[place]),
    decreases first.len(),
{
    first.to_multiset_ensures();
    second.to_multiset_ensures();
    if first.len() > 0 {
        let last = first.len() - 1;
        let file = first[last];
        assert(second.to_multiset().count(file) > 0);
        let place = choose|index: int| 0 <= index < second.len() && second[index] == file;
        let (first_rest, second_rest) = (first.drop_last(), second.remove(place));
        assert(first_rest =~= first.remove(last));
        assert forall|left: int, right: int|
            #![trigger first_rest[left], first_rest[right]]
            0 <= left < first_rest.len() && 0 <= right < first_rest.len() && tied(
                first_rest[left].path,
                first_rest[right].path,
            ) implies key(first_rest[left]) == key(first_rest[right]) by {
            assert(key(first[left]) == key(first[right]));
        }
        assert forall|earlier: int, later: int|
            0 <= earlier < later < first_rest.len() implies !path_precedes(
            (#[trigger] first_rest[later]).path,
            (#[trigger] first_rest[earlier]).path,
        ) by {
            assert(!path_precedes(first[later].path, first[earlier].path));
        }
        let shifted = |index: int|
            if index < place {
                index
            } else {
                index + 1
            };
        assert forall|index: int| 0 <= index < second_rest.len() implies #[trigger]
            second_rest[index] == second[shifted(index)] by {}
        assert forall|earlier: int, later: int|
            0 <= earlier < later < second_rest.len() implies !path_precedes(
            (#[trigger] second_rest[later]).path,
            (#[trigger] second_rest[earlier]).path,
        ) by {
            assert(!path_precedes(second[shifted(later)].path, second[shifted(earlier)].path));
        }
        lemma_same_keys(first_rest, second_rest, key);

        // From the place of the file on, all files are tied with it.
        assert forall|index: int| place <= index <= last implies key(#[trigger] second[index])
            == key(file) by {
            if place < index {
                let other = second[index];
                assert(first.to_multiset().count(other) > 0);
                let at = choose|at: int| 0 <= at < first.len() && first[at] == other;
                assert(!path_precedes(other.path, file.path));
                if at < last {
                    assert(!path_precedes(first[last].path, first[at].path));
                    assert(tied(first[at].path, first[last].path));
                    assert(key(first[at]) == key(first[last]));
                }
            }
        }
        assert forall|index: int| 0 <= index < first.len() implies key(#[trigger] first[index])
            == key(second[index]) by {
            if index < last {
                assert(key(first_rest[index]) == key(second_rest[index]));
                if index >= place {
                    assert(key(second[index + 1]) == key(file));
                }
            }
        }
    }
}

// Contents

/// Whether two attempts to read something agree but for the message of a failure.
pub open spec fn agree<T>(left: Result<T, Seq<char>>, right: Result<T, Seq<char>>) -> bool {
    match (left, right) {
        (Ok(one), Ok(other)) => one == other,
        (Err(_), Err(_)) => true,
        _ => false,
    }
}

/// Whether two lists of files hold the same texts, place by place.
pub open spec fn same_contents(first: Seq<FileModel>, second: Seq<FileModel>) -> bool {
    &&& first.len() == second.len()
    &&& forall|index: int|
        0 <= index < first.len() ==> (#[trigger] first[index]).contents == second[index].contents
}

/// Whether two lists of days have the same bars, place by place.
pub open spec fn same_bars<N>(first: Seq<DayModel<N>>, second: Seq<DayModel<N>>) -> bool {
    &&& first.len() == second.len()
    &&& forall|index: int|
        0 <= index < first.len() ==> (#[trigger] first[index]).bars == second[index].bars
}

proof fn lemma_bars_ignore_paths<N: Number>(
    rows: Seq<Seq<Seq<char>>>,
    path: Seq<char>,
    other: Seq<char>,
    columns: BarColumns,
)
    ensures
        agree(bars_of::<N>(rows, path, columns), bars_of::<N>(rows, other, columns)),
    decreases rows.len(),
{
    if rows.len() > 0 {
        lemma_bars_ignore_paths::<N>(rows.drop_last(), path, other, columns);
        assert(agree(
            bar_of::<N>(rows.last(), path, rows.len() + 1, columns),
            bar_of::<N>(rows.last(), other, rows.len() + 1, columns),
        ));
    }
}

proof fn lemma_rows_ignore_paths(
    rows: Seq<Seq<Seq<char>>>,
    path: Seq<char>,
    other: Seq<char>,
    timestamp_index: int,
)
    ensures
        agree(
            reliable_rows(rows, path, timestamp_index),
            reliable_rows(rows, other, timestamp_index),
        ),
    decreases rows.len(),
{
    if rows.len() > 0 {
        lemma_rows_ignore_paths(rows.drop_last(), path, other, timestamp_index);
        assert(agree(
            row_timestamp(rows.last(), path, rows.len() + 1, timestamp_index),
            row_timestamp(rows.last(), other, rows.len() + 1, timestamp_index),
        ));
    }
}

proof fn lemma_days_ignore_paths<N: Number>(file: FileModel, other: FileModel)
    requires
        file.contents == other.contents,
    ensures
        match (day_of::<N>(file), day_of::<N>(other)) {
            (Ok(day), Ok(other_day)) => day.bars == other_day.bars,
            (Err(_), Err(_)) => true,
            _ => false,
        },
{
    assert forall|rows: Seq<Seq<Seq<char>>>, columns: BarColumns| agree(
        #[trigger] bars_of::<N>(rows, file.path, columns),
        bars_of::<N>(rows, other.path, columns),
    ) by {
        lemma_bars_ignore_paths::<N>(rows, file.path, other.path, columns);
    }
}

proof fn lemma_boundaries_ignore_paths<N: Number>(file: FileModel, other: FileModel)
    requires
        file.contents == other.contents,
    ensures
        agree(boundary_of::<N>(file), boundary_of::<N>(other)),
{
    assert forall|rows: Seq<Seq<Seq<char>>>, timestamp_index: int| agree(
        #[trigger] reliable_rows(rows, file.path, timestamp_index),
        reliable_rows(rows, other.path, timestamp_index),
    ) by {
        lemma_rows_ignore_paths(rows, file.path, other.path, timestamp_index);
    }
}

proof fn lemma_files_ignore_paths<N: Number>(first: Seq<FileModel>, second: Seq<FileModel>)
    requires
        same_contents(first, second),
    ensures
        agree(file_boundaries::<N>(first), file_boundaries::<N>(second)),
        match (file_days::<N>(first), file_days::<N>(second)) {
            (Ok(days), Ok(others)) => same_bars(days, others),
            (Err(_), Err(_)) => true,
            _ => false,
        },
    decreases first.len(),
{
    if first.len() > 0 {
        let (rest, others) = (first.drop_last(), second.drop_last());
        assert forall|index: int| 0 <= index < rest.len() implies (
        #[trigger] rest[index]).contents == others[index].contents by {
            assert(first[index].contents == second[index].contents);
        }
        lemma_files_ignore_paths::<N>(rest, others);
        assert(first[first.len() - 1].contents == second[first.len() - 1].contents);
        lemma_days_ignore_paths::<N>(first.last(), second.last());
        lemma_boundaries_ignore_paths::<N>(first.last(), second.last());
    }
}

proof fn lemma_logs_ignore_names<N: Number>(
    days: Seq<DayModel<N>>,
    renamed: Seq<DayModel<N>>,
    config: MarketMakerConfig<N>,
)
    requires
        same_bars(days, renamed),
    ensures
        daily_logs(days, config, false) == daily_logs(renamed, config, false),
        simulation(days, config, false) == simulation(renamed, config, false),
    decreases days.len(),
{
    law_file_names_do_not_matter(days, renamed, config, false);
    if days.len() > 0 {
        let (rest, others) = (days.drop_last(), renamed.drop_last());
        assert forall|index: int| 0 <= index < rest.len() implies (#[trigger] rest[index]).bars
            == others[index].bars by {
            assert(days[index].bars == renamed[index].bars);
        }
        assert(days[days.len() - 1].bars == renamed[days.len() - 1].bars);
        lemma_logs_ignore_names(rest, others, config);
        law_file_names_do_not_matter(rest, others, config, false);
    }
}

proof fn lemma_candidates_ignore_names<N: Number>(
    days: Seq<DayModel<N>>,
    renamed: Seq<DayModel<N>>,
    configs: Seq<MarketMakerConfig<N>>,
)
    requires
        same_bars(days, renamed),
    ensures
        candidates_of(days, configs) == candidates_of(renamed, configs),
    decreases configs.len(),
{
    if configs.len() > 0 {
        lemma_candidates_ignore_names(days, renamed, configs.drop_last());
        lemma_logs_ignore_names(days, renamed, configs.last());
    }
}

/// Whether two backtests end alike: both fail, or both print the same report.
pub open spec fn same_report(
    first: Result<Output, String>,
    second: Result<Output, String>,
) -> bool {
    match (first, second) {
        (Ok(one), Ok(other)) => texts(one.report@) == texts(other.report@),
        (Err(_), Err(_)) => true,
        _ => false,
    }
}

/// The report of a backtest depends on the texts of its files and on their order, not on what
/// their paths are.
pub proof fn law_reports_depend_on_contents<N: Number>(
    first: Seq<FileModel>,
    second: Seq<FileModel>,
    args: Args<N>,
    first_result: Result<Output, String>,
    second_result: Result<Output, String>,
)
    ensures
        same_contents(first, second) && is_backtest(first_result, first, args) && is_backtest(
            second_result,
            second,
            args,
        ) ==> same_report(first_result, second_result),
{
    if same_contents(first, second) && is_backtest(first_result, first, args) && is_backtest(
        second_result,
        second,
        args,
    ) {
        lemma_files_ignore_paths::<N>(first, second);
        match args.strategy {
            Strategy::BuyAndHold => {
                assert(agree(
                    held_value(first, args.initial_cash),
                    held_value(second, args.initial_cash),
                ));
            },
            Strategy::MarketMaker => {
                if let (Ok(days), Ok(others)) = (days_of::<N>(first), days_of::<N>(second)) {
                    law_file_names_do_not_matter(days, others, config_of(args), true);
                }
                match (market_maker_outcome(first, args), market_maker_outcome(second, args)) {
                    (Ok(one), Ok(other)) => {
                        assert(one.final_value == other.final_value);
                        assert(one.daily_returns == other.daily_returns);
                    },
                    _ => {},
                }
            },
            Strategy::MarketMakerGrid => {
                if let (Ok(days), Ok(others)) = (days_of::<N>(first), days_of::<N>(second)) {
                    lemma_candidates_ignore_names(days, others, args.combinations());
                    assert(grid_candidates(first, args) == grid_candidates(second, args));
                }
                let one = choose|outcome: Result<GridResult<N>, String>|
                    {
                        &&& #[trigger] is_grid_outcome(outcome, first, args)
                        &&& match outcome {
                            Err(message) => first_result matches Err(reported) && reported@
                                == message@,
                            Ok(winners) => {
                                &&& first_result matches Ok(output)
                                &&& output.log@.len() == 0
                                &&& texts(output.report@) == crate::report::grid_lines(winners)
                            },
                        }
                    };
                let other = choose|outcome: Result<GridResult<N>, String>|
                    {
                        &&& #[trigger] is_grid_outcome(outcome, second, args)
                        &&& match outcome {
                            Err(message) => second_result matches Err(reported) && reported@
                                == message@,
                            Ok(winners) => {
                                &&& second_result matches Ok(output)
                                &&& output.log@.len() == 0
                                &&& texts(output.report@) == crate::report::grid_lines(winners)
                            },
                        }
                    };
                assert(is_grid_outcome(one, first, args) && is_grid_outcome(other, second, args));
            },
        }
    }
}

// Backtests

/// Files with the texts that are found at their paths.
pub open spec fn loaded(
    files: Seq<FileModel>,
    contents: spec_fn(Seq<char>) -> Seq<char>,
) -> Seq<FileModel> {
    files.map_values(|file: FileModel| FileModel { path: file.path, contents: contents(file.path) })
}

/// Whether the same text is found at paths that are tied, as it is at two spellings of one path.
pub open spec fn spellings_agree(
    paths: Seq<Seq<char>>,
    contents: spec_fn(Seq<char>) -> Seq<char>,
) -> bool {
    forall|left: int, right: int|
        #![trigger paths[left], paths[right]]
        0 <= left < paths.len() && 0 <= right < paths.len() && tied(paths[left], paths[right])
            ==> contents(paths[left]) == contents(paths[right])
}

proof fn lemma_multiset_of_map<A, B>(first: Seq<A>, second: Seq<A>, f: spec_fn(A) -> B)
    requires
        first.to_multiset() == second.to_multiset(),
    ensures
        first.map_values(f).to_multiset() == second.map_values(f).to_multiset(),
    decreases first.len(),
{
    first.to_multiset_ensures();
    second.to_multiset_ensures();
    if first.len() == 0 {
        assert(first.map_values(f) =~= second.map_values(f));
    } else {
        let last = first.len() - 1;
        let item = first[last];
        assert(second.to_multiset().count(item) > 0);
        let place = choose|index: int| 0 <= index < second.len() && second[index] == item;
        let (first_rest, second_rest) = (first.remove(last), second.remove(place));
        lemma_multiset_of_map(first_rest, second_rest, f);
        let (one, other) = (first.map_values(f), second.map_values(f));
        assert(one.remove(last) =~= first_rest.map_values(f));
        assert(other.remove(place) =~= second_rest.map_values(f));
        one.to_multiset_ensures();
        other.to_multiset_ensures();
        assert(one[last] == f(item) && other[place] == f(item));
        assert(one.to_multiset() =~= one.remove(last).to_multiset().insert(f(item)));
        assert(other.to_multiset() =~= other.remove(place).to_multiset().insert(f(item)));
    }
}

/// The order in which the paths of a backtest are given does not matter: over the files at a
/// permutation of the paths, put into their order and read, a backtest ends with the same report,
/// or fails as well. Two spellings of one path need only lead to the same text.
pub proof fn law_the_given_order_does_not_matter<N: Number>(
    first: Seq<Seq<char>>,
    second: Seq<Seq<char>>,
    first_files: Seq<FileModel>,
    second_files: Seq<FileModel>,
    contents: spec_fn(Seq<char>) -> Seq<char>,
    args: Args<N>,
    first_result: Result<Output, String>,
    second_result: Result<Output, String>,
)
    ensures
        ({
            &&& first.to_multiset() == second.to_multiset()
            &&& spellings_agree(first, contents)
            &&& is_ordering(first_files, unread(first))
            &&& is_ordering(second_files, unread(second))
            &&& is_backtest(first_result, loaded(first_files, contents), args)
            &&& is_backtest(second_result, loaded(second_files, contents), args)
        }) ==> same_report(first_result, second_result),
{
    if first.to_multiset() == second.to_multiset() && spellings_agree(first, contents)
        && is_ordering(first_files, unread(first)) && is_ordering(second_files, unread(second)) {
        let key = |file: FileModel| contents(file.path);
        lemma_multiset_of_map(
            first,
            second,
            |path: Seq<char>| FileModel { path, contents: Seq::empty() },
        );
        let files = unread(first);
        assert forall|left: int, right: int|
            #![trigger files[left], files[right]]
            0 <= left < files.len() && 0 <= right < files.len() && tied(
                files[left].path,
                files[right].path,
            ) implies key(files[left]) == key(files[right]) by {
            assert(contents(first[left]) == contents(first[right]));
        }
        law_ordered_files_agree(files, unread(second), first_files, second_files, key);
        let (one, other) = (loaded(first_files, contents), loaded(second_files, contents));
        assert forall|index: int| 0 <= index < one.len() implies (#[trigger] one[index]).contents
            == other[index].contents by {
            assert(key(first_files[index]) == key(second_files[index]));
        }
        law_reports_depend_on_contents(one, other, args, first_result, second_result);
    }
}

} // verus!
