//! Piano-roll geometry: which notes and which bar stripes fall inside
//! the visible tick window.  The renderer itself (shaders, buffers,
//! normalised coordinates) lives outside the library; it asks here for
//! the index window of visible notes and for the visible bar stripes.

use vstd::prelude::*;
use crate::notes::ProjectNote;

verus! {

use vstd::arithmetic::div_mod::{lemma_div_is_ordered, lemma_div_by_multiple};
use vstd::arithmetic::mul::{lemma_mul_inequality, lemma_mul_is_distributive_add_other_way};

/// Some listed bar carries this number.
pub open spec fn bar_listed(bars: Seq<(u64, u32)>, number: int) -> bool {
    exists|j: int| 0 <= j < bars.len() && (#[trigger] bars[j]).1 == number
}

/// The window `[start, end)` of indices of `notes` the view can see,
/// resuming the scan at `cached_start`: `start` is the first index
/// from `cached_start` on whose note still reaches past the view's
/// left edge, `end` the first index after it whose note starts past
/// the view's right edge.  On a start-ordered list these are exactly
/// the visible notes.
pub fn visible_note_range(
    notes: &Vec<ProjectNote>,
    view_start: u64,
    view_end: u64,
    cached_start: usize,
) -> (r: (usize, usize))
    requires
        cached_start <= notes.len(),
    ensures
        cached_start <= r.0 <= r.1 <= notes.len(),
        forall|k: int|
            cached_start <= k < r.0 ==> (#[trigger] notes[k]).start + notes[k].length
                <= view_start,
        r.0 < notes.len() ==> notes[r.0 as int].start + notes[r.0 as int].length > view_start,
        forall|k: int| r.0 <= k < r.1 ==> (#[trigger] notes[k]).start <= view_end,
        r.1 < notes.len() ==> notes[r.1 as int].start > view_end,
{
    let n = notes.len();
    let mut start: usize = cached_start;
    while start < n && (notes[start].start as u64) + (notes[start].length as u64) <= view_start
        invariant
            cached_start <= start <= n,
            n == notes.len(),
            forall|k: int|
                cached_start <= k < start ==> (#[trigger] notes[k]).start + notes[k].length
                    <= view_start,
        decreases n - start,
    {
        start = start + 1;
    }
    let mut end: usize = start;
    while end < n && (notes[end].start as u64) <= view_end
        invariant
            start <= end <= n,
            n == notes.len(),
            forall|k: int| start <= k < end ==> (#[trigger] notes[k]).start <= view_end,
        decreases n - end,
    {
        end = end + 1;
    }
    (start, end)
}

/// The bar stripes the view can see: each bar spans `4 * ppq` ticks,
/// bar `b` starting at tick `b * 4 * ppq`.  A bar is emitted exactly
/// when it ends at or after the view's left edge and starts before its
/// right edge; the result lists them in order, numbered consecutively.
pub fn visible_bars(tick_pos: u64, zoom_ticks: u64, ppq: u16) -> (bars: Vec<(u64, u32)>)
    requires
        1 <= ppq,
        1 <= zoom_ticks,
        tick_pos + zoom_ticks + 4 * ppq <= u64::MAX,
        (tick_pos + zoom_ticks) / (4 * ppq as int) + 1 <= u32::MAX,
    ensures
        forall|j: int|
            0 <= j < bars@.len() ==> (#[trigger] bars@[j]).0 == bars@[j].1 * (4 * ppq as int),
        forall|j: int|
            0 <= j < bars@.len() ==> ((#[trigger] bars@[j]).1 + 1) * (4 * ppq as int) >= tick_pos,
        forall|j: int|
            0 <= j < bars@.len() ==> (#[trigger] bars@[j]).1 * (4 * ppq as int) < tick_pos
                + zoom_ticks,
        forall|j: int| 0 <= j < bars@.len() ==> (#[trigger] bars@[j]).1 == bars@[0].1 + j,
        forall|b: int|
            0 <= b && (b + 1) * (4 * ppq as int) >= tick_pos && b * (4 * ppq as int) < tick_pos
                + zoom_ticks ==> #[trigger] bar_listed(bars@, b),
{
    let bar_len: u64 = 4 * (ppq as u64);
    let limit: u64 = tick_pos + zoom_ticks;
    let mut bars: Vec<(u64, u32)> = Vec::new();
    let mut curr_tick: u64 = 0;
    let mut bar_num: u32 = 0;
    while curr_tick < limit
        invariant
            bar_len == 4 * ppq as int,
            1 <= bar_len,
            limit == tick_pos + zoom_ticks,
            limit + bar_len <= u64::MAX,
            1 <= zoom_ticks,
            (limit as int) / (bar_len as int) + 1 <= u32::MAX,
            curr_tick == bar_num * (bar_len as int),
            forall|j: int|
                0 <= j < bars@.len() ==> (#[trigger] bars@[j]).0 == bars@[j].1 * (bar_len as int),
            forall|j: int|
                0 <= j < bars@.len() ==> ((#[trigger] bars@[j]).1 + 1) * (bar_len as int)
                    >= tick_pos,
            forall|j: int|
                0 <= j < bars@.len() ==> (#[trigger] bars@[j]).1 * (bar_len as int) < limit,
            forall|j: int| 0 <= j < bars@.len() ==> (#[trigger] bars@[j]).1 == bars@[0].1 + j,
            forall|b: int|
                0 <= b < bar_num && (b + 1) * (bar_len as int) >= tick_pos ==> #[trigger]
                    bar_listed(bars@, b),
            bars@.len() > 0 ==> bars@.last().1 + 1 == bar_num,
        decreases limit + bar_len - curr_tick,
    {
        proof {
            lemma_bar_count(bar_num as int, bar_len as int, limit as int);
        }
        let this_bar: u32 = bar_num;
        let this_tick: u64 = curr_tick;
        bar_num = bar_num + 1;
        let next_tick: u64 = curr_tick + bar_len;
        proof {
            lemma_mul_is_distributive_add_other_way(bar_len as int, this_bar as int, 1);
            assert(next_tick == bar_num * (bar_len as int));
        }
        let ghost bars_before = bars@;
        if next_tick >= tick_pos {
            bars.push((this_tick, this_bar));
        }
        proof {
            assert forall|b: int|
                0 <= b < bar_num && (b + 1) * (bar_len as int) >= tick_pos implies #[trigger]
                bar_listed(bars@, b) by {
                if b < this_bar {
                    assert(bar_listed(bars_before, b));
                    let j = choose|j: int|
                        0 <= j < bars_before.len() && (#[trigger] bars_before[j]).1 == b;
                    assert(bars@[j].1 == b);
                } else {
                    assert(b == this_bar);
                    assert(bars@[bars@.len() - 1].1 == b);
                }
            }
        }
        curr_tick = next_tick;
    }
    proof {
        assert forall|b: int|
            0 <= b && (b + 1) * (4 * ppq as int) >= tick_pos && b * (4 * ppq as int) < tick_pos
                + zoom_ticks implies #[trigger] bar_listed(bars@, b) by {
            if b >= bar_num {
                lemma_mul_inequality(bar_num as int, b, bar_len as int);
            }
        }
    }
    bars
}

/// A bar that starts inside the window has a number below the
/// window-end quotient, so the running count fits its word.
proof fn lemma_bar_count(bar_num: int, bar_len: int, limit: int)
    requires
        1 <= bar_len,
        0 <= bar_num,
        bar_num * bar_len < limit,
    ensures
        bar_num <= limit / bar_len,
{
    lemma_div_is_ordered(bar_num * bar_len, limit, bar_len);
    lemma_div_by_multiple(bar_num, bar_len);
}

} // verus!
