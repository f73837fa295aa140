//! Laws of historical requests.
use crate::clock::{is_moment, NANOSECONDS_PER_SECOND};
use crate::historical::{
    bar_row, bar_seconds, chunk_end_of, chunk_of, chunk_rows_of, chunks_of, larger, starts_inside,
    BarSize, Chunk, HistoricalBar, HISTORICAL_MINIMUM_CHUNK_SECONDS, HISTORICAL_MINIMUM_SECONDS,
};
use crate::number::Number;
use vstd::prelude::*;

verus! {

/// The chunks of a range hold it exactly: the first begins where it begins, each other begins
/// where the one before it ends, and the last ends where it ends.
pub proof fn law_chunks_cover_the_range(start: int, end: int, interval: BarSize, index: int)
    requires
        is_moment(start),
        is_moment(end),
        start < end,
        0 <= index < chunks_of(start, end, interval).len(),
    ensures
        ({
            let chunks = chunks_of(start, end, interval);
            &&& chunks[0].start == start
            &&& chunks[chunks.len() - 1].end == end
            &&& index > 0 ==> chunks[index].start == chunks[index - 1].end
            &&& start <= chunks[index].start < chunks[index].end <= end
        }),
    decreases end - start,
{
    let middle = chunk_end_of(start, end, interval);
    let first = chunk_of(start, end, interval);
    let rest = chunks_of(middle, end, interval);
    let chunks = chunks_of(start, end, interval);
    assert(chunks =~= seq![first] + rest);
    assert(first.start == start && first.end == middle);
    if middle < end {
        lemma_chunks_exist(middle, end, interval);
        law_chunks_cover_the_range(middle, end, interval, 0);
        assert(chunks[chunks.len() - 1] == rest[rest.len() - 1]);
        if index > 0 {
            law_chunks_cover_the_range(middle, end, interval, index - 1);
            assert(chunks[index] == rest[index - 1]);
            if index > 1 {
                assert(chunks[index - 1] == rest[index - 2]);
            }
        }
    } else {
        assert(rest =~= Seq::empty());
    }
}

proof fn lemma_chunks_exist(start: int, end: int, interval: BarSize)
    requires
        start < end,
    ensures
        chunks_of(start, end, interval).len() > 0,
{
}

/// Every moment of a range stands in one of its chunks.
pub proof fn law_every_moment_is_in_a_chunk(
    start: int,
    end: int,
    interval: BarSize,
    moment: int,
) -> (index: int)
    requires
        is_moment(start),
        is_moment(end),
        start <= moment < end,
    ensures
        0 <= index < chunks_of(start, end, interval).len(),
        chunks_of(start, end, interval)[index].start <= moment < chunks_of(
            start,
            end,
            interval,
        )[index].end,
    decreases end - start,
{
    let middle = chunk_end_of(start, end, interval);
    let rest = chunks_of(middle, end, interval);
    let chunks = chunks_of(start, end, interval);
    assert(chunks =~= seq![chunk_of(start, end, interval)] + rest);
    if moment < middle {
        0
    } else {
        let place = law_every_moment_is_in_a_chunk(middle, end, interval, moment);
        assert(chunks[place + 1] == rest[place]);
        place + 1
    }
}

proof fn lemma_chunks_are_ordered(start: int, end: int, interval: BarSize, left: int, right: int)
    requires
        is_moment(start),
        is_moment(end),
        start < end,
        0 <= left < right < chunks_of(start, end, interval).len(),
    ensures
        chunks_of(start, end, interval)[left].end <= chunks_of(start, end, interval)[right].start,
    decreases right - left,
{
    law_chunks_cover_the_range(start, end, interval, right);
    if left < right - 1 {
        lemma_chunks_are_ordered(start, end, interval, left, right - 1);
        law_chunks_cover_the_range(start, end, interval, right - 1);
    }
}

/// No moment stands in two chunks of a range, so no bar is printed twice.
pub proof fn law_no_moment_is_in_two_chunks(
    start: int,
    end: int,
    interval: BarSize,
    left: int,
    right: int,
    moment: int,
)
    requires
        is_moment(start),
        is_moment(end),
        start < end,
        0 <= left < chunks_of(start, end, interval).len(),
        0 <= right < chunks_of(start, end, interval).len(),
        chunks_of(start, end, interval)[left].start <= moment < chunks_of(
            start,
            end,
            interval,
        )[left].end,
        chunks_of(start, end, interval)[right].start <= moment < chunks_of(
            start,
            end,
            interval,
        )[right].end,
    ensures
        left == right,
{
    if left < right {
        lemma_chunks_are_ordered(start, end, interval, left, right);
    } else if right < left {
        lemma_chunks_are_ordered(start, end, interval, right, left);
    }
}

/// A chunk is no longer than the span for its interval, a full one can hold a bar, and its
/// request reaches back to the second before it, spans the minimum, and can hold a bar.
pub proof fn law_requests_span_their_chunks(start: int, end: int, interval: BarSize)
    requires
        is_moment(start),
        is_moment(end),
        start < end,
    ensures
        ({
            let chunk = chunk_of(start, end, interval);
            let span = larger(HISTORICAL_MINIMUM_CHUNK_SECONDS as int, bar_seconds(interval))
                * NANOSECONDS_PER_SECOND;
            &&& chunk.end - chunk.start <= span
            &&& span >= bar_seconds(interval) * NANOSECONDS_PER_SECOND
            &&& chunk.end < end ==> chunk.end - chunk.start == span
            &&& chunk.request_start <= chunk.start - NANOSECONDS_PER_SECOND
            &&& chunk.end - chunk.request_start >= HISTORICAL_MINIMUM_SECONDS
                * NANOSECONDS_PER_SECOND
            &&& chunk.end - chunk.request_start >= bar_seconds(interval) * NANOSECONDS_PER_SECOND
        }),
{
}

/// The rows of a chunk are those of the bars that start inside it, in their order, and of no
/// others.
pub proof fn law_rows_start_inside_their_chunk<N: Number>(
    chunk: Chunk,
    bars: Seq<HistoricalBar<N>>,
)
    ensures
        chunk_rows_of(chunk, bars) == bars.filter(
            |bar: HistoricalBar<N>| starts_inside(bar, chunk),
        ).map_values(|bar: HistoricalBar<N>| bar_row(bar)),
    decreases bars.len(),
{
    reveal(Seq::filter);
    let inside = |bar: HistoricalBar<N>| starts_inside(bar, chunk);
    let row = |bar: HistoricalBar<N>| bar_row(bar);
    if bars.len() == 0 {
        assert(bars.filter(inside).map_values(row) =~= Seq::empty());
    } else {
        law_rows_start_inside_their_chunk(chunk, bars.drop_last());
        let earlier = bars.drop_last().filter(inside);
        if inside(bars.last()) {
            assert(earlier.push(bars.last()).map_values(row) =~= earlier.map_values(row).push(
                bar_row(bars.last()),
            ));
        }
    }
}

} // verus!
