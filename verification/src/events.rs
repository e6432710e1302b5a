//! Event records exchanged between the editor, the tempo map and the
//! audio pipeline.  All times are integers: ticks for musical time,
//! nanoseconds for wall-clock time.

use vstd::prelude::*;

verus! {

/// A tempo change: from tick `time` onward the tempo is `tempo` beats
/// per minute; `time_norm` caches the wall-clock nanosecond position of
/// that tick under all earlier tempo changes.
pub struct TempoEvent {
    /// Tick at which this tempo takes effect.
    pub time: u64,
    /// Nanosecond position of `time`, derived from the preceding events.
    pub time_norm: u64,
    /// Beats per minute in force from `time` on.
    pub tempo: u32,
}

/// The two channel-voice events the render pipeline understands.
#[derive(Debug, Clone, Copy, PartialEq, Eq, Structural)]
pub enum MIDIEventType {
    NoteOff,
    NoteOn,
}

/// A timestamped channel-voice event.  `data` carries the raw message
/// bytes: status (with the channel in its low nibble), key, and for a
/// note-on the velocity.
#[derive(Debug, Clone)]
pub struct MIDIEvent {
    /// Event time in nanoseconds from the start of the piece.
    pub time: u64,
    pub event_type: MIDIEventType,
    pub data: Vec<u8>,
}

impl MIDIEvent {
    /// The raw message holds enough bytes for its kind.
    pub open spec fn wf(self) -> bool {
        match self.event_type {
            MIDIEventType::NoteOn => self.data.len() >= 3,
            MIDIEventType::NoteOff => self.data.len() >= 2,
        }
    }

    /// Channel number from the status byte's low nibble.
    pub open spec fn spec_channel(self) -> u8 {
        self.data[0] & 0x0f
    }
}

} // verus!
