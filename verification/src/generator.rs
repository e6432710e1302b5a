//! The producer: walks the note-event list, keeps the ring buffer
//! filled ahead of the consumer within the look-ahead cap, applies the
//! adaptive note-skipping policy, and terminates promptly on
//! cancellation.
//!
//! The generator itself is a state machine over plain values.  Each
//! `poll` decides the next outside action — pace, wait for the
//! consumer, render a number of frames, emit a note event to the
//! synthesis engine, or finish — and the surrounding application
//! performs it, handing rendered audio back through `push_audio`.

use vstd::prelude::*;
use crate::events::{MIDIEvent, MIDIEventType};
use crate::ring::PrerenderBuffer;

verus! {

/// Nanoseconds per second.
pub const NANOS_PER_SEC: u64 = 1_000_000_000;

/// Frame index at which a nanosecond timestamp falls at `rate` frames
/// per second.
pub open spec fn frame_of(time_nanos: int, rate: int) -> int {
    time_nanos * rate / (NANOS_PER_SEC as int)
}

/// Every event's target frame fits the cursor width at this rate.
pub open spec fn events_fit(events: Seq<MIDIEvent>, rate: int) -> bool {
    forall|i: int|
        0 <= i < events.len() ==> #[trigger] frame_of(events[i].time as int, rate) <= u64::MAX
}

/// Where the generator stands in its walk of the event list.
#[derive(Debug, Clone, Copy, PartialEq, Eq, Structural)]
pub enum GeneratorPhase {
    /// About to take up the next event.
    NextEvent,
    /// Filling the buffer up to the current event's target frame.
    Filling,
    /// Terminal: the event list is drained or the run was cancelled.
    Done,
}

/// The outside work the application must perform after a `poll`.
#[derive(Debug, Clone, Copy, PartialEq, Eq, Structural)]
pub enum GeneratorAction {
    /// Sleep briefly (the fixed inter-event pacing delay).
    Pace,
    /// The buffer is saturated: yield briefly, then poll again.
    WaitForConsumer,
    /// Render `frames` stereo frames from the synthesis engine and hand
    /// them back through `push_audio`.
    Render { frames: usize },
    /// Send a note-on to the synthesis engine.
    NoteOn { channel: u8, key: u8, velocity: u8 },
    /// The note fell below the skip threshold: dispatch nothing.
    NoteSkipped { channel: u8, key: u8, velocity: u8 },
    /// Send a note-off to the synthesis engine.
    NoteOff { channel: u8, key: u8 },
    /// Send the all-notes-kill event and stop polling this generator.
    Finished,
}

/// The producer state machine.
pub struct Generator {
    /// The note events to drain, non-decreasing in time.
    pub events: Vec<MIDIEvent>,
    /// Index of the event being worked on.
    pub idx: usize,
    /// Frames still to produce before the current event is due.
    pub remaining: u64,
    pub phase: GeneratorPhase,
}

impl Generator {
    pub open spec fn wf(self) -> bool {
        &&& self.idx <= self.events.len()
        &&& (self.phase is Filling ==> self.idx < self.events.len())
        &&& forall|i: int| 0 <= i < self.events.len() ==> (#[trigger] self.events[i]).wf()
    }

    /// A fresh generator at the head of `events`.
    pub fn new(events: Vec<MIDIEvent>) -> (g: Self)
        requires
            forall|i: int| 0 <= i < events.len() ==> (#[trigger] events[i]).wf(),
        ensures
            g.wf(),
            g.events == events,
            g.idx == 0,
            g.remaining == 0,
            g.phase is NextEvent,
    {
        Generator { events, idx: 0, remaining: 0, phase: GeneratorPhase::NextEvent }
    }

    /// The exact transition `poll` takes: the successor state and the
    /// action handed to the application.
    pub open spec fn poll_spec(self, buf: PrerenderBuffer, cancelled: bool) -> (
        Generator,
        GeneratorAction,
    ) {
        let done = (Generator { phase: GeneratorPhase::Done, ..self });
        if cancelled {
            (done, GeneratorAction::Finished)
        } else if self.phase is NextEvent {
            if self.idx >= self.events.len() {
                (done, GeneratorAction::Finished)
            } else {
                let target = frame_of(self.events[self.idx as int].time as int,
                    buf.sample_rate as int);
                let rem = if target > buf.write_pos { target - buf.write_pos } else { 0 };
                (
                    (Generator { remaining: rem as u64, phase: GeneratorPhase::Filling, ..self }),
                    GeneratorAction::Pace,
                )
            }
        } else {
            if self.remaining == 0 {
                self.dispatch_spec(buf)
            } else {
                let spare = buf.read_pos + buf.half_capacity() - buf.write_pos;
                if spare <= 0 {
                    (self, GeneratorAction::WaitForConsumer)
                } else {
                    let count = if spare < self.remaining { spare } else { self.remaining as int };
                    let count = if count < buf.half_capacity() { count } else {
                        buf.half_capacity()
                    };
                    (self, GeneratorAction::Render { frames: count as usize })
                }
            }
        }
    }

    /// The dispatch step for the event that has just come due: note-ons
    /// below the adaptive skip threshold are dropped, everything else
    /// goes to the synthesis engine.
    pub open spec fn dispatch_spec(self, buf: PrerenderBuffer) -> (Generator, GeneratorAction) {
        let e = self.events[self.idx as int];
        let g2 = (Generator { idx: (self.idx + 1) as usize, phase: GeneratorPhase::NextEvent,
            ..self });
        match e.event_type {
            MIDIEventType::NoteOn => {
                if (e.data[2] as int) < PrerenderBuffer::skip_threshold(
                    buf.write_pos as int,
                    buf.read_pos as int,
                ) {
                    (
                        g2,
                        GeneratorAction::NoteSkipped {
                            channel: e.spec_channel(),
                            key: e.data[1],
                            velocity: e.data[2],
                        },
                    )
                } else {
                    (
                        g2,
                        GeneratorAction::NoteOn {
                            channel: e.spec_channel(),
                            key: e.data[1],
                            velocity: e.data[2],
                        },
                    )
                }
            },
            MIDIEventType::NoteOff => {
                (g2, GeneratorAction::NoteOff { channel: e.spec_channel(), key: e.data[1] })
            },
        }
    }

    /// One decision step of the producer.  Reads the buffer's cursors
    /// but moves nothing; rendered audio enters through `push_audio`.
    pub fn poll(&mut self, buf: &PrerenderBuffer, cancelled: bool) -> (act: GeneratorAction)
        requires
            old(self).wf(),
            buf.wf(),
            !(old(self).phase is Done),
            events_fit(old(self).events@, buf.sample_rate as int),
        ensures
            final(self).wf(),
            (*final(self), act) == old(self).poll_spec(*buf, cancelled),
            act is Finished <==> final(self).phase is Done,
            act matches GeneratorAction::Render { frames } ==> {
                &&& 0 < frames <= old(self).remaining
                &&& buf.write_pos + frames <= buf.read_pos + buf.half_capacity()
                &&& frames <= buf.half_capacity()
            },
    {
        if cancelled {
            self.phase = GeneratorPhase::Done;
            return GeneratorAction::Finished;
        }
        match self.phase {
            GeneratorPhase::NextEvent => {
                if self.idx >= self.events.len() {
                    self.phase = GeneratorPhase::Done;
                    GeneratorAction::Finished
                } else {
                    let e = &self.events[self.idx];
                    proof {
                        let t = e.time as int;
                        let r = buf.sample_rate as int;
                        assert(t * r <= (u64::MAX as int) * (u32::MAX as int))
                            by (nonlinear_arith)
                            requires
                                0 <= t <= u64::MAX as int,
                                0 <= r <= u32::MAX as int,
                        ;
                        assert(frame_of(t, r) <= u64::MAX);
                    }
                    let wide: u128 = (e.time as u128) * (buf.sample_rate as u128)
                        / (NANOS_PER_SEC as u128);
                    let target: u64 = wide as u64;
                    self.remaining = if target > buf.write_pos {
                        target - buf.write_pos
                    } else {
                        0
                    };
                    self.phase = GeneratorPhase::Filling;
                    GeneratorAction::Pace
                }
            },
            GeneratorPhase::Filling => {
                if self.remaining == 0 {
                    let threshold = buf.get_skipping_velocity();
                    let e = &self.events[self.idx];
                    let channel: u8 = e.data[0] & 0x0f;
                    let key: u8 = e.data[1];
                    self.idx = self.idx + 1;
                    self.phase = GeneratorPhase::NextEvent;
                    match e.event_type {
                        MIDIEventType::NoteOn => {
                            let velocity: u8 = e.data[2];
                            if velocity < threshold {
                                GeneratorAction::NoteSkipped { channel, key, velocity }
                            } else {
                                GeneratorAction::NoteOn { channel, key, velocity }
                            }
                        },
                        MIDIEventType::NoteOff => GeneratorAction::NoteOff { channel, key },
                    }
                } else {
                    let half: u64 = (buf.audio_buffer.len() / 2 / 2) as u64;
                    let headroom: u128 = (buf.read_pos as u128) + (half as u128);
                    let spare: u128 = headroom - (buf.write_pos as u128);
                    if spare == 0 {
                        GeneratorAction::WaitForConsumer
                    } else {
                        let mut count: u64 = if spare < (self.remaining as u128) {
                            spare as u64
                        } else {
                            self.remaining
                        };
                        if count > half {
                            count = half;
                        }
                        GeneratorAction::Render { frames: count as usize }
                    }
                }
            },
            GeneratorPhase::Done => {
                // Excluded by the precondition; keep the state terminal.
                GeneratorAction::Finished
            },
        }
    }

    /// Accepts `samples.len() / 2` freshly rendered frames, copies them
    /// into the buffer at the write cursor, and advances the write
    /// cursor — never past the look-ahead cap.
    pub fn push_audio(&mut self, buf: &mut PrerenderBuffer, samples: &Vec<i64>)
        requires
            old(self).wf(),
            old(buf).wf(),
            old(self).phase is Filling,
            samples.len() % 2 == 0,
            samples.len() / 2 <= old(self).remaining,
            samples.len() <= old(buf).audio_buffer.len(),
            old(buf).write_pos + samples.len() / 2 <= old(buf).read_pos + old(
                buf,
            ).half_capacity(),
            old(buf).write_pos + samples.len() / 2 <= u64::MAX,
        ensures
            final(self).wf(),
            final(buf).wf(),
            final(self).events == old(self).events,
            final(self).idx == old(self).idx,
            final(self).phase == old(self).phase,
            final(self).remaining == old(self).remaining - samples.len() / 2,
            final(buf).read_pos == old(buf).read_pos,
            final(buf).sample_rate == old(buf).sample_rate,
            final(buf).write_pos == old(buf).write_pos + samples.len() / 2,
            final(buf).audio_buffer.len() == old(buf).audio_buffer.len(),
            forall|j: int|
                0 <= j < final(buf).audio_buffer.len() ==> final(buf).audio_buffer[j] == {
                    let s0 = (old(buf).write_pos as int % old(buf).frame_capacity()) * 2;
                    let k = (j - s0) % (final(buf).audio_buffer.len() as int);
                    if k < samples.len() {
                        samples[k]
                    } else {
                        old(buf).audio_buffer[j]
                    }
                },
    {
        let frames: usize = samples.len() / 2;
        let start: u64 = buf.write_pos;
        buf.write_wrapped(samples, start, frames);
        buf.write_pos = buf.write_pos + frames as u64;
        self.remaining = self.remaining - frames as u64;
    }

    /// Cancellation law: however far a run has progressed, one poll with
    /// the cancellation flag set reaches the terminal state and yields
    /// the final all-notes-kill signal; the terminal state is never left
    /// again, so that signal is produced exactly once per run.
    pub proof fn lemma_cancellation_terminates(self, buf: PrerenderBuffer)
        requires
            !(self.phase is Done),
        ensures
            ({
                let (g2, act) = self.poll_spec(buf, true);
                g2.phase is Done && act is Finished
            }),
    {
    }
}

} // verus!
