//! The playback clock: a frozen position while stopped, a wall-clock
//! anchor while playing.  The caller supplies monotonic nanosecond
//! readings; every position computation is the verified tempo-map
//! conversion.

use vstd::prelude::*;
use crate::events::TempoEvent;
use crate::tempo::{
    ticks_to_nanos, nanos_to_ticks, ticks_to_nanos_spec, nanos_to_ticks_spec, tempo_map_wf,
};

verus! {

/// The playback clock.  While stopped, the position is frozen at
/// `playback_nanos`; while playing, it is `last_pos` plus the time
/// elapsed since the anchor reading `time_delta`.
pub struct Playback {
    /// The frozen position, in nanoseconds.
    pub playback_nanos: u64,
    /// The tempo map used for all tick conversions.
    pub tempo_events: Vec<TempoEvent>,
    /// Position at the moment playback last started.
    pub last_pos: u64,
    pub is_playing: bool,
    /// Monotonic clock reading when playback last started.
    pub time_delta: u64,
}

impl Playback {
    /// The current position at monotonic reading `now_nanos`.
    pub open spec fn position_at(self, now_nanos: int) -> int {
        if self.is_playing {
            self.last_pos + (now_nanos - self.time_delta)
        } else {
            self.playback_nanos as int
        }
    }

    /// A stopped clock at position zero.
    pub fn new() -> (r: Self)
        ensures
            r.playback_nanos == 0,
            r.tempo_events.len() == 0,
            r.last_pos == 0,
            !r.is_playing,
            r.time_delta == 0,
    {
        Playback {
            playback_nanos: 0,
            tempo_events: Vec::new(),
            last_pos: 0,
            is_playing: false,
            time_delta: 0,
        }
    }

    /// Toggles between playing and stopped.  Stopping freezes the
    /// position at the current computed position; starting re-anchors
    /// the wall clock at `now_nanos` with the frozen position as the
    /// new baseline.
    pub fn play_or_stop(&mut self, now_nanos: u64)
        requires
            old(self).is_playing ==> old(self).time_delta <= now_nanos,
            old(self).is_playing ==> old(self).position_at(now_nanos as int) <= u64::MAX,
        ensures
            final(self).is_playing == !old(self).is_playing,
            final(self).tempo_events == old(self).tempo_events,
            old(self).is_playing ==> {
                &&& final(self).playback_nanos == old(self).position_at(now_nanos as int)
                &&& final(self).last_pos == old(self).last_pos
                &&& final(self).time_delta == old(self).time_delta
            },
            !old(self).is_playing ==> {
                &&& final(self).playback_nanos == old(self).playback_nanos
                &&& final(self).last_pos == old(self).playback_nanos
                &&& final(self).time_delta == now_nanos
            },
    {
        if self.is_playing {
            self.playback_nanos = self.last_pos + (now_nanos - self.time_delta);
        } else {
            self.last_pos = self.playback_nanos;
            self.time_delta = now_nanos;
        }
        self.is_playing = !self.is_playing;
    }

    /// Jumps the frozen position to musical tick `tick`; only
    /// meaningful while stopped.
    pub fn navigate_to(&mut self, ppq: u16, tick: u64)
        requires
            !old(self).is_playing,
            tempo_map_wf(old(self).tempo_events@, ppq as int),
            ticks_to_nanos_spec(old(self).tempo_events@, ppq as int, tick as int) <= u64::MAX,
        ensures
            final(self).tempo_events == old(self).tempo_events,
            final(self).is_playing == old(self).is_playing,
            final(self).time_delta == old(self).time_delta,
            final(self).last_pos == ticks_to_nanos_spec(
                old(self).tempo_events@,
                ppq as int,
                tick as int,
            ),
            final(self).playback_nanos == final(self).last_pos,
    {
        let pos = ticks_to_nanos(&self.tempo_events, ppq, tick);
        self.last_pos = pos;
        self.playback_nanos = pos;
    }

    /// The current position as a musical tick, at monotonic reading
    /// `now_nanos`.
    pub fn get_playback_time(&self, ppq: u16, now_nanos: u64) -> (tick: u64)
        requires
            tempo_map_wf(self.tempo_events@, ppq as int),
            self.is_playing ==> self.time_delta <= now_nanos,
            self.position_at(now_nanos as int) <= u64::MAX,
            nanos_to_ticks_spec(self.tempo_events@, ppq as int, self.position_at(now_nanos as int))
                <= u64::MAX,
        ensures
            tick as int == nanos_to_ticks_spec(
                self.tempo_events@,
                ppq as int,
                self.position_at(now_nanos as int),
            ),
    {
        let position: u64 = if self.is_playing {
            self.last_pos + (now_nanos - self.time_delta)
        } else {
            self.playback_nanos
        };
        nanos_to_ticks(&self.tempo_events, ppq, position)
    }
}

impl Default for Playback {
    fn default() -> (r: Self)
        ensures
            r.playback_nanos == 0,
            r.tempo_events.len() == 0,
            r.last_pos == 0,
            !r.is_playing,
            r.time_delta == 0,
    {
        Playback::new()
    }
}

} // verus!
