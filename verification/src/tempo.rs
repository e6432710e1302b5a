//! The tempo map: conversion between musical ticks and wall-clock
//! nanoseconds under a piecewise-constant list of tempo changes.
//!
//! Time accumulates segment by segment: between two tempo events the
//! nanoseconds per tick are `60e9 / (tempo * ppq)`, and each segment's
//! contribution is floored to whole nanoseconds.

use vstd::prelude::*;
use crate::events::TempoEvent;

verus! {

use vstd::arithmetic::div_mod::{
    lemma_div_pos_is_pos, lemma_div_is_ordered, lemma_fundamental_div_mod,
    lemma_div_multiples_vanish, lemma_div_plus_one, lemma_mod_division_less_than_divisor,
    lemma_div_of0,
};
use vstd::arithmetic::mul::{
    lemma_mul_strictly_positive, lemma_mul_nonnegative, lemma_mul_is_distributive_sub,
    lemma_mul_is_distributive_add_other_way, lemma_mul_inequality,
};

/// Nanoseconds per minute: the numerator of every tick-length formula.
pub const NANOS_PER_MINUTE: u64 = 60_000_000_000;

/// Tempo assumed when the event list is empty.
pub const DEFAULT_BPM: u32 = 120;

/// Nanoseconds spent crossing `dt` ticks at `bpm` beats per minute with
/// `ppq` ticks per quarter note, floored.
pub open spec fn segment_nanos(dt: int, bpm: int, ppq: int) -> int {
    dt * (NANOS_PER_MINUTE as int) / (bpm * ppq)
}

/// Ticks covered by `dt` nanoseconds at `bpm` beats per minute with
/// `ppq` ticks per quarter note, floored.
pub open spec fn segment_ticks(dt: int, bpm: int, ppq: int) -> int {
    dt * (bpm * ppq) / (NANOS_PER_MINUTE as int)
}

/// The tick-to-nanosecond walk from event index `i` on, with the tick
/// and tempo of the last event already passed.  Mirrors the sequential
/// scan: each event at or before the target tick closes one segment;
/// the first event beyond it ends the walk.
pub open spec fn ticks_to_nanos_from(
    events: Seq<TempoEvent>,
    ppq: int,
    tick: int,
    i: int,
    last_tick: int,
    last_tempo: int,
) -> int
    decreases events.len() - i,
{
    if 0 <= i < events.len() && events[i].time <= tick {
        segment_nanos(events[i].time - last_tick, last_tempo, ppq) + ticks_to_nanos_from(
            events,
            ppq,
            tick,
            i + 1,
            events[i].time as int,
            events[i].tempo as int,
        )
    } else {
        segment_nanos(tick - last_tick, last_tempo, ppq)
    }
}

/// Nanosecond position of `tick` under the tempo map; a single default
/// tempo applies when the list is empty.
pub open spec fn ticks_to_nanos_spec(events: Seq<TempoEvent>, ppq: int, tick: int) -> int {
    if events.len() == 0 {
        segment_nanos(tick, DEFAULT_BPM as int, ppq)
    } else {
        ticks_to_nanos_from(events, ppq, tick, 1, 0, events[0].tempo as int)
    }
}

/// The nanosecond-to-tick walk from event index `i` on: each event
/// whose cached nanosecond position is at or before the target hands
/// over its tick, position and tempo; the tail is projected through the
/// last tempo passed.
pub open spec fn nanos_to_ticks_from(
    events: Seq<TempoEvent>,
    ppq: int,
    time: int,
    i: int,
    last_tick: int,
    last_time: int,
    bpm: int,
) -> int
    decreases events.len() - i,
{
    if 0 <= i < events.len() && events[i].time_norm <= time {
        nanos_to_ticks_from(
            events,
            ppq,
            time,
            i + 1,
            events[i].time as int,
            events[i].time_norm as int,
            events[i].tempo as int,
        )
    } else {
        last_tick + segment_ticks(time - last_time, bpm, ppq)
    }
}

/// Tick position of nanosecond `time` under the tempo map.
pub open spec fn nanos_to_ticks_spec(events: Seq<TempoEvent>, ppq: int, time: int) -> int {
    if events.len() == 0 {
        segment_ticks(time, DEFAULT_BPM as int, ppq)
    } else {
        nanos_to_ticks_from(
            events,
            ppq,
            time,
            0,
            events[0].time as int,
            events[0].time_norm as int,
            events[0].tempo as int,
        )
    }
}

/// What every tempo-event list handed to the conversions must satisfy:
/// positive resolution and tempi, events sorted both by tick and by
/// cached nanosecond position, and the first event anchored at zero.
pub open spec fn tempo_map_wf(events: Seq<TempoEvent>, ppq: int) -> bool {
    &&& 1 <= ppq <= u16::MAX
    &&& forall|i: int| 0 <= i < events.len() ==> 1 <= (#[trigger] events[i]).tempo
    &&& forall|i: int|
        0 <= i < events.len() - 1 ==> (#[trigger] events[i]).time <= events[i + 1].time
    &&& forall|i: int|
        0 <= i < events.len() - 1 ==> (#[trigger] events[i]).time_norm <= events[i + 1].time_norm
    &&& (events.len() > 0 ==> events[0].time == 0 && events[0].time_norm == 0)
}

/// A tempo (at most `u32::MAX`) times a resolution (at most
/// `u16::MAX`) stays far below every fixed-width bound used here.
proof fn lemma_tempo_ppq_product(a: int, b: int)
    by (nonlinear_arith)
    requires
        0 <= a <= u32::MAX,
        0 <= b <= u16::MAX,
    ensures
        0 <= a * b <= 0x1_0000_0000_0000,
{
}

/// A nanosecond count times a tempo-resolution product fits in 128
/// bits.
proof fn lemma_projection_product(a: int, b: int)
    by (nonlinear_arith)
    requires
        0 <= a <= u64::MAX,
        0 <= b <= 0x1_0000_0000_0000,
    ensures
        0 <= a * b <= 0x1_0000_0000_0000_0000_0000_0000_0000,
{
}

/// Every closed or open segment of the walk contributes a nonnegative
/// number of nanoseconds, so the walk's total dominates each prefix.
proof fn lemma_walk_nonneg(
    events: Seq<TempoEvent>,
    ppq: int,
    tick: int,
    i: int,
    last_tick: int,
    last_tempo: int,
)
    requires
        1 <= ppq,
        1 <= last_tempo,
        0 <= last_tick <= tick,
        forall|j: int| 0 <= j < events.len() ==> 1 <= (#[trigger] events[j]).tempo,
        forall|j: int|
            0 <= j < events.len() - 1 ==> (#[trigger] events[j]).time <= events[j + 1].time,
        0 <= i < events.len() && events[i].time <= tick ==> last_tick <= events[i].time,
    ensures
        0 <= ticks_to_nanos_from(events, ppq, tick, i, last_tick, last_tempo),
    decreases events.len() - i,
{
    if 0 <= i < events.len() && events[i].time <= tick {
        lemma_mul_strictly_positive(last_tempo, ppq);
        lemma_div_pos_is_pos(
            (events[i].time - last_tick) * (NANOS_PER_MINUTE as int),
            last_tempo * ppq,
        );
        lemma_walk_nonneg(events, ppq, tick, i + 1, events[i].time as int, events[i].tempo as int);
    } else {
        lemma_mul_strictly_positive(last_tempo, ppq);
        lemma_div_pos_is_pos((tick - last_tick) * (NANOS_PER_MINUTE as int), last_tempo * ppq);
    }
}

/// A canonical tempo map additionally has strictly increasing ticks,
/// cached nanosecond positions that agree with the map itself, and at
/// least one nanosecond per tick (`tempo * ppq` within a minute's
/// nanoseconds).
pub open spec fn tempo_map_canonical(events: Seq<TempoEvent>, ppq: int) -> bool {
    &&& tempo_map_wf(events, ppq)
    &&& forall|i: int|
        0 <= i < events.len() - 1 ==> (#[trigger] events[i]).time < events[i + 1].time
    &&& forall|i: int|
        0 <= i < events.len() ==> (#[trigger] events[i]).tempo * ppq <= NANOS_PER_MINUTE
    &&& forall|i: int|
        0 <= i < events.len() ==> (#[trigger] events[i]).time_norm == ticks_to_nanos_spec(
            events,
            ppq,
            events[i].time as int,
        )
}

/// Tick order is transitive across the whole event list.
proof fn lemma_times_sorted(events: Seq<TempoEvent>, i: int, j: int)
    requires
        forall|k: int|
            0 <= k < events.len() - 1 ==> (#[trigger] events[k]).time <= events[k + 1].time,
        0 <= i <= j < events.len(),
    ensures
        events[i].time <= events[j].time,
    decreases j - i,
{
    if i < j {
        lemma_times_sorted(events, i + 1, j);
    }
}

/// Cached-position order is transitive across the whole event list.
proof fn lemma_norms_sorted(events: Seq<TempoEvent>, i: int, j: int)
    requires
        forall|k: int|
            0 <= k < events.len() - 1 ==> (#[trigger] events[k]).time_norm <= events[k
                + 1].time_norm,
        0 <= i <= j < events.len(),
    ensures
        events[i].time_norm <= events[j].time_norm,
    decreases j - i,
{
    if i < j {
        lemma_norms_sorted(events, i + 1, j);
    }
}

/// Two targets that both lie past every event in `[j, m)` accumulate
/// identical prefixes, so the walks' difference is unchanged by
/// advancing both to index `m`.
proof fn lemma_walk_prefix(events: Seq<TempoEvent>, ppq: int, t1: int, t2: int, j: int, m: int)
    requires
        1 <= j <= m <= events.len(),
        forall|k: int| j <= k < m ==> (#[trigger] events[k]).time <= t1,
        forall|k: int| j <= k < m ==> (#[trigger] events[k]).time <= t2,
    ensures
        ticks_to_nanos_from(events, ppq, t1, j, events[j - 1].time as int,
            events[j - 1].tempo as int) - ticks_to_nanos_from(events, ppq, t2, j,
            events[j - 1].time as int, events[j - 1].tempo as int) == ticks_to_nanos_from(
            events,
            ppq,
            t1,
            m,
            events[m - 1].time as int,
            events[m - 1].tempo as int,
        ) - ticks_to_nanos_from(events, ppq, t2, m, events[m - 1].time as int,
            events[m - 1].tempo as int),
    decreases m - j,
{
    if j < m {
        lemma_walk_prefix(events, ppq, t1, t2, j + 1, m);
    }
}

/// The one-nanosecond floor: scaling `a` ticks up to nanoseconds and
/// back down loses less than one tick when each tick spans at least one
/// nanosecond (`d <= n`).
proof fn lemma_floor_round_trip(a: int, n: int, d: int)
    requires
        0 <= a,
        0 < d <= n,
    ensures
        a - 1 <= (a * n / d) * d / n <= a,
{
    let q = a * n / d;
    lemma_fundamental_div_mod(a * n, d);
    lemma_mod_division_less_than_divisor(a * n, d);
    lemma_mul_nonnegative(a, n);
    lemma_div_pos_is_pos(a * n, d);
    // q * d == a * n - (a * n) % d, so q * d <= a * n
    lemma_div_is_ordered(q * d, a * n, n);
    lemma_div_multiples_vanish(a, n);
    assert(n * a == a * n) by (nonlinear_arith);
    assert(q * d / n <= a);
    // and q * d >= a * n - (d - 1) >= n * (a - 1) + 1
    lemma_mul_is_distributive_sub(n, a, 1);
    assert(q * d >= n * (a - 1));
    lemma_div_is_ordered(n * (a - 1), q * d, n);
    lemma_div_multiples_vanish(a - 1, n);
    assert(q * d / n >= a - 1);
}

/// One more tick never maps to the same nanosecond when each tick spans
/// at least one nanosecond.
proof fn lemma_floor_step(a: int, n: int, d: int)
    requires
        0 <= a,
        0 < d <= n,
    ensures
        a * n / d + 1 <= (a + 1) * n / d,
{
    lemma_mul_is_distributive_add_other_way(n, a, 1);
    assert((a + 1) * n == a * n + n);
    lemma_div_plus_one(a * n, d);
    lemma_div_is_ordered(a * n + d, a * n + n, d);
}

/// The backward walk from index `j` (with state from event `j - 1`)
/// lands in segment `hi - 1` whenever `time` lies at or after that
/// event's cached position and before the next one's.
proof fn lemma_backward_localize(events: Seq<TempoEvent>, ppq: int, time: int, j: int, hi: int)
    requires
        forall|k: int|
            0 <= k < events.len() - 1 ==> (#[trigger] events[k]).time_norm <= events[k
                + 1].time_norm,
        1 <= j <= hi <= events.len(),
        events[hi - 1].time_norm <= time,
        hi == events.len() || events[hi].time_norm > time,
    ensures
        nanos_to_ticks_from(
            events,
            ppq,
            time,
            j,
            events[j - 1].time as int,
            events[j - 1].time_norm as int,
            events[j - 1].tempo as int,
        ) == events[hi - 1].time + segment_ticks(
            time - events[hi - 1].time_norm,
            events[hi - 1].tempo as int,
            ppq,
        ),
    decreases hi - j,
{
    if j < hi {
        lemma_norms_sorted(events, j, hi - 1);
        lemma_backward_localize(events, ppq, time, j + 1, hi);
    }
}

/// The backward conversion localized: `time` in segment `hi - 1` is
/// that event's tick plus the floored projection of the nanoseconds
/// since it.
proof fn lemma_backward_segment(events: Seq<TempoEvent>, ppq: int, time: int, hi: int)
    requires
        tempo_map_wf(events, ppq),
        0 <= time,
        1 <= hi <= events.len(),
        events[hi - 1].time_norm <= time,
        hi == events.len() || events[hi].time_norm > time,
    ensures
        nanos_to_ticks_spec(events, ppq, time) == events[hi - 1].time + segment_ticks(
            time - events[hi - 1].time_norm,
            events[hi - 1].tempo as int,
            ppq,
        ),
{
    lemma_backward_localize(events, ppq, time, 1, hi);
}

/// The forward conversion localized: a tick in segment `hi - 1` maps
/// to that event's cached position plus the floored span since it.
proof fn lemma_forward_segment(events: Seq<TempoEvent>, ppq: int, tick: int, hi: int)
    requires
        tempo_map_canonical(events, ppq),
        1 <= hi <= events.len(),
        events[hi - 1].time <= tick,
        hi == events.len() || events[hi].time > tick,
    ensures
        ticks_to_nanos_spec(events, ppq, tick) == events[hi - 1].time_norm + segment_nanos(
            tick - events[hi - 1].time,
            events[hi - 1].tempo as int,
            ppq,
        ),
{
    let t0 = events[hi - 1].time as int;
    assert forall|k: int| 1 <= k < hi implies (#[trigger] events[k]).time <= t0 by {
        lemma_times_sorted(events, k, hi - 1);
    }
    assert forall|k: int| 1 <= k < hi implies (#[trigger] events[k]).time <= tick by {
        lemma_times_sorted(events, k, hi - 1);
    }
    lemma_walk_prefix(events, ppq, tick, t0, 1, hi);
    lemma_mul_strictly_positive(events[hi - 1].tempo as int, ppq);
    lemma_div_of0((events[hi - 1].tempo as int) * ppq);
    assert(segment_nanos(0, events[hi - 1].tempo as int, ppq) == 0);
}

/// Consecutive cached positions differ by exactly the floored span of
/// the segment between them.
proof fn lemma_norm_step(events: Seq<TempoEvent>, ppq: int, hi: int)
    requires
        tempo_map_canonical(events, ppq),
        1 <= hi < events.len(),
    ensures
        events[hi].time_norm == events[hi - 1].time_norm + segment_nanos(
            events[hi].time - events[hi - 1].time,
            events[hi - 1].tempo as int,
            ppq,
        ),
{
    let t0 = events[hi - 1].time as int;
    let t1 = events[hi].time as int;
    assert forall|k: int| 1 <= k < hi implies (#[trigger] events[k]).time <= t0 by {
        lemma_times_sorted(events, k, hi - 1);
    }
    assert forall|k: int| 1 <= k < hi implies (#[trigger] events[k]).time <= t1 by {
        lemma_times_sorted(events, k, hi - 1);
    }
    lemma_walk_prefix(events, ppq, t1, t0, 1, hi);
    let b0 = events[hi - 1].tempo as int;
    let b1 = events[hi].tempo as int;
    lemma_mul_strictly_positive(b0, ppq);
    lemma_div_of0(b0 * ppq);
    lemma_mul_strictly_positive(b1, ppq);
    lemma_div_of0(b1 * ppq);
    assert(segment_nanos(0, b0, ppq) == 0);
    assert(segment_nanos(0, b1, ppq) == 0);
    // The walk for target `t1` takes the segment to event `hi`, then
    // stops; the walk for `t0` stops at `hi` at once.
    assert(ticks_to_nanos_from(events, ppq, t1, hi + 1, t1, b1) == segment_nanos(0, b1, ppq));
    assert(ticks_to_nanos_from(events, ppq, t1, hi, t0, b0) == segment_nanos(t1 - t0, b0, ppq)
        + ticks_to_nanos_from(events, ppq, t1, hi + 1, t1, b1));
    assert(ticks_to_nanos_from(events, ppq, t0, hi, t0, b0) == segment_nanos(0, b0, ppq));
}

/// A floored segment span never shrinks as the span grows.
proof fn lemma_segment_nanos_monotonic(d1: int, d2: int, bpm: int, ppq: int)
    requires
        0 <= d1 <= d2,
        1 <= bpm,
        1 <= ppq,
    ensures
        segment_nanos(d1, bpm, ppq) <= segment_nanos(d2, bpm, ppq),
{
    lemma_mul_strictly_positive(bpm, ppq);
    lemma_mul_inequality(d1, d2, NANOS_PER_MINUTE as int);
    lemma_div_is_ordered(d1 * (NANOS_PER_MINUTE as int), d2 * (NANOS_PER_MINUTE as int),
        bpm * ppq);
}

/// The walk is monotonic in its target tick.
proof fn lemma_walk_monotonic(
    events: Seq<TempoEvent>,
    ppq: int,
    t1: int,
    t2: int,
    i: int,
    last_tick: int,
    last_tempo: int,
)
    requires
        1 <= ppq,
        1 <= last_tempo,
        0 <= last_tick <= t1 <= t2,
        forall|j: int| 0 <= j < events.len() ==> 1 <= (#[trigger] events[j]).tempo,
        forall|j: int|
            0 <= j < events.len() - 1 ==> (#[trigger] events[j]).time <= events[j + 1].time,
        0 <= i < events.len() && events[i].time <= t2 ==> last_tick <= events[i].time,
    ensures
        ticks_to_nanos_from(events, ppq, t1, i, last_tick, last_tempo) <= ticks_to_nanos_from(
            events,
            ppq,
            t2,
            i,
            last_tick,
            last_tempo,
        ),
    decreases events.len() - i,
{
    if 0 <= i < events.len() && events[i].time <= t1 {
        lemma_walk_monotonic(events, ppq, t1, t2, i + 1, events[i].time as int,
            events[i].tempo as int);
    } else if 0 <= i < events.len() && events[i].time <= t2 {
        lemma_segment_nanos_monotonic(t1 - last_tick, events[i].time - last_tick, last_tempo, ppq);
        lemma_walk_nonneg(events, ppq, t2, i + 1, events[i].time as int, events[i].tempo as int);
    } else {
        lemma_segment_nanos_monotonic(t1 - last_tick, t2 - last_tick, last_tempo, ppq);
    }
}

/// The tick-to-nanosecond conversion is monotonic: a later tick never
/// maps to an earlier moment.
pub proof fn lemma_ticks_to_nanos_monotonic(events: Seq<TempoEvent>, ppq: int, t1: int, t2: int)
    requires
        tempo_map_wf(events, ppq),
        0 <= t1 <= t2,
    ensures
        ticks_to_nanos_spec(events, ppq, t1) <= ticks_to_nanos_spec(events, ppq, t2),
{
    if events.len() == 0 {
        lemma_segment_nanos_monotonic(t1, t2, DEFAULT_BPM as int, ppq);
    } else {
        lemma_walk_monotonic(events, ppq, t1, t2, 1, 0, events[0].tempo as int);
    }
}

/// The index just past the last tempo event at or before `tick`.
proof fn lemma_find_segment(events: Seq<TempoEvent>, tick: int, i: int) -> (hi: int)
    requires
        1 <= i <= events.len(),
        events[i - 1].time <= tick,
    ensures
        i <= hi <= events.len(),
        events[hi - 1].time <= tick,
        hi == events.len() || events[hi].time > tick,
    decreases events.len() - i,
{
    if i == events.len() || events[i].time > tick {
        i
    } else {
        lemma_find_segment(events, tick, i + 1)
    }
}

/// A floored tick projection never shrinks as the span grows, and is
/// never negative.
proof fn lemma_segment_ticks_monotonic(d1: int, d2: int, bpm: int, ppq: int)
    requires
        0 <= d1 <= d2,
        1 <= bpm,
        1 <= ppq,
    ensures
        0 <= segment_ticks(d1, bpm, ppq) <= segment_ticks(d2, bpm, ppq),
{
    lemma_mul_strictly_positive(bpm, ppq);
    lemma_mul_nonnegative(d1, bpm * ppq);
    lemma_div_pos_is_pos(d1 * (bpm * ppq), NANOS_PER_MINUTE as int);
    lemma_mul_inequality(d1, d2, bpm * ppq);
    lemma_div_is_ordered(d1 * (bpm * ppq), d2 * (bpm * ppq), NANOS_PER_MINUTE as int);
}

/// The index just past the last tempo event at or before nanosecond
/// `time`.
proof fn lemma_find_time_segment(events: Seq<TempoEvent>, time: int, i: int) -> (hi: int)
    requires
        1 <= i <= events.len(),
        events[i - 1].time_norm <= time,
    ensures
        i <= hi <= events.len(),
        events[hi - 1].time_norm <= time,
        hi == events.len() || events[hi].time_norm > time,
    decreases events.len() - i,
{
    if i == events.len() || events[i].time_norm > time {
        i
    } else {
        lemma_find_time_segment(events, time, i + 1)
    }
}

/// The nanosecond-to-tick conversion is monotonic on a canonical
/// tempo map: a later moment never maps to an earlier tick.
pub proof fn lemma_nanos_to_ticks_monotonic(events: Seq<TempoEvent>, ppq: int, s1: int, s2: int)
    requires
        tempo_map_canonical(events, ppq),
        0 <= s1 <= s2,
    ensures
        nanos_to_ticks_spec(events, ppq, s1) <= nanos_to_ticks_spec(events, ppq, s2),
{
    let n = NANOS_PER_MINUTE as int;
    if events.len() == 0 {
        lemma_segment_ticks_monotonic(s1, s2, DEFAULT_BPM as int, ppq);
    } else {
        let i = lemma_find_time_segment(events, s1, 1);
        let j = lemma_find_time_segment(events, s2, 1);
        if j < i {
            lemma_norms_sorted(events, j, i - 1);
            assert(false);
        }
        lemma_backward_segment(events, ppq, s1, i);
        lemma_backward_segment(events, ppq, s2, j);
        let b1 = events[i - 1].tempo as int;
        let b2 = events[j - 1].tempo as int;
        lemma_segment_ticks_monotonic(0, s2 - events[j - 1].time_norm, b2, ppq);
        if i == j {
            lemma_segment_ticks_monotonic(
                s1 - events[i - 1].time_norm,
                s2 - events[i - 1].time_norm,
                b1,
                ppq,
            );
        } else {
            // `s1` lies strictly before the next cached position, so
            // its projection stays within its own segment.
            lemma_norm_step(events, ppq, i);
            let a = events[i].time - events[i - 1].time;
            let d = b1 * ppq;
            lemma_mul_strictly_positive(b1, ppq);
            lemma_mul_nonnegative(a, n);
            lemma_segment_ticks_monotonic(
                s1 - events[i - 1].time_norm,
                segment_nanos(a, b1, ppq),
                b1,
                ppq,
            );
            lemma_floor_round_trip(a, n, d);
            lemma_times_sorted(events, i, j - 1);
        }
    }
}

/// Tempo round trip: converting a tick to nanoseconds and back loses
/// less than one tick, on any canonical tempo map.
pub proof fn lemma_tempo_round_trip(events: Seq<TempoEvent>, ppq: int, tick: int)
    requires
        tempo_map_canonical(events, ppq),
        0 <= tick,
    ensures
        ({
            let back = nanos_to_ticks_spec(events, ppq, ticks_to_nanos_spec(events, ppq, tick));
            tick - 1 <= back <= tick
        }),
{
    let n = NANOS_PER_MINUTE as int;
    if events.len() == 0 {
        let d = (DEFAULT_BPM as int) * ppq;
        lemma_floor_round_trip(tick, n, d);
        lemma_mul_nonnegative(tick, n);
        lemma_div_pos_is_pos(tick * n, d);
    } else {
        let hi = lemma_find_segment(events, tick, 1);
        let t0 = events[hi - 1].time as int;
        let s0 = events[hi - 1].time_norm as int;
        let b = events[hi - 1].tempo as int;
        let d = b * ppq;
        lemma_mul_strictly_positive(b, ppq);
        assert(d <= n);
        lemma_forward_segment(events, ppq, tick, hi);
        let a = tick - t0;
        lemma_mul_nonnegative(a, n);
        lemma_div_pos_is_pos(a * n, d);
        let s = s0 + a * n / d;
        assert(s == ticks_to_nanos_spec(events, ppq, tick));
        if hi < events.len() {
            lemma_norm_step(events, ppq, hi);
            let span = events[hi].time - t0;
            lemma_floor_step(a, n, d);
            lemma_mul_inequality(a + 1, span, n);
            lemma_div_is_ordered((a + 1) * n, span * n, d);
            assert(events[hi].time_norm > s);
        }
        lemma_backward_segment(events, ppq, s, hi);
        lemma_floor_round_trip(a, n, d);
    }
}

/// Nanosecond position of musical tick `tick`: the sum over tempo
/// segments up to `tick` of the floored segment durations.
pub fn ticks_to_nanos(events: &Vec<TempoEvent>, ppq: u16, tick: u64) -> (nanos: u64)
    requires
        tempo_map_wf(events@, ppq as int),
        ticks_to_nanos_spec(events@, ppq as int, tick as int) <= u64::MAX,
    ensures
        nanos as int == ticks_to_nanos_spec(events@, ppq as int, tick as int),
{
    if events.len() == 0 {
        let divisor: u128 = (DEFAULT_BPM as u128) * (ppq as u128);
        let wide: u128 = (tick as u128) * (NANOS_PER_MINUTE as u128) / divisor;
        return wide as u64;
    }
    let ghost total = ticks_to_nanos_spec(events@, ppq as int, tick as int);
    let mut acc: u64 = 0;
    let mut last_tick: u64 = 0;
    let mut last_tempo: u32 = events[0].tempo;
    let mut i: usize = 1;
    while i < events.len() && events[i].time <= tick
        invariant
            tempo_map_wf(events@, ppq as int),
            total == ticks_to_nanos_spec(events@, ppq as int, tick as int),
            total <= u64::MAX,
            1 <= i <= events.len(),
            1 <= last_tempo,
            last_tick <= tick,
            last_tick == events@[i - 1].time,
            last_tempo == events@[i - 1].tempo,
            total == acc + ticks_to_nanos_from(
                events@,
                ppq as int,
                tick as int,
                i as int,
                last_tick as int,
                last_tempo as int,
            ),
        decreases events.len() - i,
    {
        let ev_time: u64 = events[i].time;
        let ev_tempo: u32 = events[i].tempo;
        proof {
            lemma_mul_strictly_positive(last_tempo as int, ppq as int);
            lemma_walk_nonneg(
                events@,
                ppq as int,
                tick as int,
                i as int + 1,
                ev_time as int,
                ev_tempo as int,
            );
            lemma_mul_strictly_positive(last_tempo as int, ppq as int);
            lemma_div_pos_is_pos(
                (ev_time - last_tick) * (NANOS_PER_MINUTE as int),
                (last_tempo as int) * (ppq as int),
            );
        }
        let dt: u64 = ev_time - last_tick;
        proof {
            lemma_tempo_ppq_product(last_tempo as int, ppq as int);
        }
        let divisor: u128 = (last_tempo as u128) * (ppq as u128);
        let term: u128 = (dt as u128) * (NANOS_PER_MINUTE as u128) / divisor;
        acc = acc + (term as u64);
        last_tick = ev_time;
        last_tempo = ev_tempo;
        i = i + 1;
    }
    proof {
        lemma_mul_strictly_positive(last_tempo as int, ppq as int);
        lemma_div_pos_is_pos(
            (tick - last_tick) * (NANOS_PER_MINUTE as int),
            (last_tempo as int) * (ppq as int),
        );
    }
    let dt: u64 = tick - last_tick;
    proof {
        lemma_tempo_ppq_product(last_tempo as int, ppq as int);
    }
    let divisor: u128 = (last_tempo as u128) * (ppq as u128);
    let term: u128 = (dt as u128) * (NANOS_PER_MINUTE as u128) / divisor;
    acc + (term as u64)
}

/// Tick position of wall-clock nanosecond `time`: finds the last tempo
/// event whose cached position is not beyond `time` and projects the
/// rest through that segment's tempo.
pub fn nanos_to_ticks(events: &Vec<TempoEvent>, ppq: u16, time: u64) -> (tick: u64)
    requires
        tempo_map_wf(events@, ppq as int),
        nanos_to_ticks_spec(events@, ppq as int, time as int) <= u64::MAX,
    ensures
        tick as int == nanos_to_ticks_spec(events@, ppq as int, time as int),
{
    if events.len() == 0 {
        let factor: u128 = (DEFAULT_BPM as u128) * (ppq as u128);
        let wide: u128 = (time as u128) * factor / (NANOS_PER_MINUTE as u128);
        return wide as u64;
    }
    let mut last_tick: u64 = events[0].time;
    let mut last_time: u64 = events[0].time_norm;
    let mut bpm: u32 = events[0].tempo;
    let mut i: usize = 0;
    while i < events.len() && events[i].time_norm <= time
        invariant
            tempo_map_wf(events@, ppq as int),
            i <= events.len(),
            1 <= bpm,
            last_time <= time,
            i == 0 ==> (last_tick == events@[0].time && last_time == events@[0].time_norm && bpm
                == events@[0].tempo),
            i > 0 ==> (last_tick == events@[i - 1].time && last_time == events@[i - 1].time_norm
                && bpm == events@[i - 1].tempo),
            nanos_to_ticks_spec(events@, ppq as int, time as int) == nanos_to_ticks_from(
                events@,
                ppq as int,
                time as int,
                i as int,
                last_tick as int,
                last_time as int,
                bpm as int,
            ),
        decreases events.len() - i,
    {
        last_tick = events[i].time;
        last_time = events[i].time_norm;
        bpm = events[i].tempo;
        i = i + 1;
    }
    proof {
        lemma_mul_strictly_positive(bpm as int, ppq as int);
        lemma_div_pos_is_pos((time - last_time) * ((bpm as int) * (ppq as int)),
            NANOS_PER_MINUTE as int);
    }
    let dt: u64 = time - last_time;
    proof {
        lemma_tempo_ppq_product(bpm as int, ppq as int);
        lemma_projection_product(dt as int, (bpm as int) * (ppq as int));
    }
    let factor: u128 = (bpm as u128) * (ppq as u128);
    let wide: u128 = (dt as u128) * factor / (NANOS_PER_MINUTE as u128);
    last_tick + (wide as u64)
}

} // verus!
