//! The mode controller: owns the render-mode flag, the pending event
//! list, the cancellation flag and the knowledge of whether a producer
//! run is live.  Every transition first cancels and retires the
//! previous producer, so at most one producer is ever active; the
//! application performs the actual join and thread spawn.

use vstd::prelude::*;
use crate::events::MIDIEvent;
use crate::ring::PrerenderBuffer;

verus! {

/// How the consumer callback obtains its audio: direct synthesis per
/// block, or playback of pre-rendered audio from the ring buffer.
#[derive(Debug, Clone, Copy, PartialEq, Eq, Structural)]
pub enum RenderMode {
    Realtime,
    Rendering,
}

/// Control state shared (through the application) between the UI, the
/// producer and the consumer.
pub struct RenderControl {
    /// The mode the consumer callback follows.
    pub render_mode: RenderMode,
    /// Cancellation flag: a set flag makes the producer stop within one
    /// poll and the consumer substitute silence.
    pub reset_requested: bool,
    /// Whether a producer run has been started and not yet retired.
    pub generator_active: bool,
    /// The note events the next producer run will drain.
    pub events: Vec<MIDIEvent>,
}

impl RenderControl {
    /// Fresh controller: realtime mode, no pending reset, no producer.
    pub fn new() -> (r: Self)
        ensures
            r.render_mode is Realtime,
            !r.reset_requested,
            !r.generator_active,
            r.events.len() == 0,
    {
        RenderControl {
            render_mode: RenderMode::Realtime,
            reset_requested: false,
            generator_active: false,
            events: Vec::new(),
        }
    }

    /// Replaces the pending event list; a no-op when handed an empty
    /// list.
    pub fn set_events(&mut self, events: Vec<MIDIEvent>)
        ensures
            final(self).render_mode == old(self).render_mode,
            final(self).reset_requested == old(self).reset_requested,
            final(self).generator_active == old(self).generator_active,
            events.len() > 0 ==> final(self).events == events,
            events.len() == 0 ==> final(self).events == old(self).events,
    {
        if events.len() > 0 {
            self.events = events;
        }
    }

    /// Requests cancellation of the previous producer and marks it
    /// retired.  Returns whether the application must join a producer
    /// thread before going on — the guarantee that two producers never
    /// run at once.
    pub fn kill_last_generator(&mut self) -> (join_needed: bool)
        ensures
            join_needed == old(self).generator_active,
            final(self).reset_requested,
            !final(self).generator_active,
            final(self).render_mode == old(self).render_mode,
            final(self).events == old(self).events,
    {
        self.reset_requested = true;
        let join_needed = self.generator_active;
        self.generator_active = false;
        join_needed
    }

    /// Starts a fresh producer run: cancels and retires the previous
    /// one, clears the cancellation flag, takes the pending events and
    /// hands them out for the new producer thread.
    pub fn start(&mut self) -> (r: (bool, Vec<MIDIEvent>))
        ensures
            r.0 == old(self).generator_active,
            r.1 == old(self).events,
            !final(self).reset_requested,
            final(self).generator_active,
            final(self).events.len() == 0,
            final(self).render_mode == old(self).render_mode,
    {
        let join_needed = self.kill_last_generator();
        self.reset_requested = false;
        self.generator_active = true;
        let mut taken: Vec<MIDIEvent> = Vec::new();
        core::mem::swap(&mut taken, &mut self.events);
        (join_needed, taken)
    }

    /// Stops rendering: cancels and retires the producer, leaves the
    /// cancellation flag set, and rewinds both ring-buffer cursors so
    /// the next run starts from a clean buffer.
    pub fn stop(&mut self, buf: &mut PrerenderBuffer) -> (join_needed: bool)
        requires
            old(buf).wf(),
        ensures
            join_needed == old(self).generator_active,
            final(self).reset_requested,
            !final(self).generator_active,
            final(self).render_mode == old(self).render_mode,
            final(self).events == old(self).events,
            final(buf).wf(),
            final(buf).read_pos == 0,
            final(buf).write_pos == 0,
            final(buf).audio_buffer == old(buf).audio_buffer,
            final(buf).sample_rate == old(buf).sample_rate,
    {
        let join_needed = self.kill_last_generator();
        self.reset_requested = true;
        buf.read_pos = 0;
        buf.write_pos = 0;
        join_needed
    }

    /// Switches the render mode: entering realtime stops prerendering;
    /// entering rendering immediately starts a fresh producer run,
    /// whose events are returned for the new thread.  Either way the
    /// previous producer is retired first.
    pub fn switch_render_mode(&mut self, buf: &mut PrerenderBuffer, rm: RenderMode) -> (r: (
        bool,
        Option<Vec<MIDIEvent>>,
    ))
        requires
            old(buf).wf(),
        ensures
            final(self).render_mode == rm,
            r.0 == old(self).generator_active,
            final(buf).wf(),
            final(buf).audio_buffer == old(buf).audio_buffer,
            final(buf).sample_rate == old(buf).sample_rate,
            rm is Realtime ==> {
                &&& r.1 is None
                &&& final(self).reset_requested
                &&& !final(self).generator_active
                &&& final(self).events == old(self).events
                &&& final(buf).read_pos == 0
                &&& final(buf).write_pos == 0
            },
            rm is Rendering ==> {
                &&& r.1 == Some(old(self).events)
                &&& !final(self).reset_requested
                &&& final(self).generator_active
                &&& final(self).events.len() == 0
                &&& final(buf).read_pos == old(buf).read_pos
                &&& final(buf).write_pos == old(buf).write_pos
            },
    {
        match rm {
            RenderMode::Realtime => {
                let join_needed = self.stop(buf);
                self.render_mode = rm;
                (join_needed, None)
            },
            RenderMode::Rendering => {
                let (join_needed, evs) = self.start();
                self.render_mode = rm;
                (join_needed, Some(evs))
            },
        }
    }
}

} // verus!
