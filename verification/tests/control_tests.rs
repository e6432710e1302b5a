use andromeda::controller::{RenderControl, RenderMode};
use andromeda::events::{MIDIEvent, MIDIEventType};
use andromeda::navigation::Navigation;
use andromeda::piano_roll::{visible_bars, visible_note_range};
use andromeda::notes::ProjectNote;
use andromeda::ring::PrerenderBuffer;

fn some_event(time: u64) -> MIDIEvent {
    MIDIEvent {
        time,
        event_type: MIDIEventType::NoteOff,
        data: vec![0x80, 60],
    }
}

#[test]
fn set_events_ignores_an_empty_list() {
    let mut ctl = RenderControl::new();
    ctl.set_events(vec![some_event(1)]);
    assert_eq!(ctl.events.len(), 1);
    ctl.set_events(Vec::new());
    assert_eq!(ctl.events.len(), 1);
}

#[test]
fn switching_to_rendering_takes_the_events_and_clears_the_flag() {
    let mut ctl = RenderControl::new();
    let mut buf = PrerenderBuffer::new(1, 8);
    ctl.set_events(vec![some_event(1), some_event(2)]);
    let (join_needed, evs) = ctl.switch_render_mode(&mut buf, RenderMode::Rendering);
    assert!(!join_needed);
    assert_eq!(evs.unwrap().len(), 2);
    assert_eq!(ctl.render_mode, RenderMode::Rendering);
    assert!(!ctl.reset_requested);
    assert!(ctl.generator_active);
    assert_eq!(ctl.events.len(), 0);
}

#[test]
fn switching_to_realtime_stops_and_rewinds_the_cursors() {
    let mut ctl = RenderControl::new();
    let mut buf = PrerenderBuffer::new(1, 8);
    let _ = ctl.switch_render_mode(&mut buf, RenderMode::Rendering);
    buf.write_pos = 3;
    buf.read_pos = 2;
    let (join_needed, evs) = ctl.switch_render_mode(&mut buf, RenderMode::Realtime);
    assert!(join_needed);
    assert!(evs.is_none());
    assert_eq!(ctl.render_mode, RenderMode::Realtime);
    assert!(ctl.reset_requested);
    assert!(!ctl.generator_active);
    assert_eq!(buf.read_pos, 0);
    assert_eq!(buf.write_pos, 0);
}

#[test]
fn navigation_pans_and_zooms_within_bounds() {
    let mut nav = Navigation::new();
    // Panning far down clamps at the bottom of the keyboard.
    nav.pan_keys(-1_000_000);
    assert_eq!(nav.key_pos, 0);
    // Panning far up clamps so the window still fits.
    nav.pan_keys(1_000_000);
    assert_eq!(nav.key_pos + nav.zoom_keys, 128_000);
    // Zooming out beyond the keyboard clamps the window to it.
    nav.zoom_keys_by(1_000_000);
    assert_eq!(nav.zoom_keys, 128_000);
    assert_eq!(nav.key_pos, 0);
    // Tick zoom clamps at both ends.
    nav.zoom_ticks_by(1);
    assert_eq!(nav.zoom_ticks, 10_000);
    nav.zoom_ticks_by(1_000_000);
    assert_eq!(nav.zoom_ticks, 10_000_000);
    // Panning left of zero clamps at zero.
    nav.pan_ticks(-1_000_000, 1920);
    assert_eq!(nav.tick_pos, 0);
}

#[test]
fn visible_note_range_scans_from_the_cache() {
    let mk = |start: u32, length: u32| ProjectNote {
        start,
        length,
        channel_track: 0,
        key: 60,
        velocity: 100,
    };
    let notes = vec![mk(0, 10), mk(20, 10), mk(40, 10), mk(60, 10)];
    // View [15, 45]: the first note has already ended, the last starts
    // past the right edge.
    let (start, end) = visible_note_range(&notes, 15, 45, 0);
    assert_eq!((start, end), (1, 3));
    // Resuming from a cached index never looks back.
    let (start2, end2) = visible_note_range(&notes, 15, 65, 2);
    assert_eq!((start2, end2), (2, 4));
}

#[test]
fn visible_bars_cover_the_window() {
    // ppq 2: bars are 8 ticks wide.  View [10, 26): bar 1 (ticks 8..16)
    // still reaches in, bar 3 (24..32) starts before the edge.
    let bars = visible_bars(10, 16, 2);
    let numbers: Vec<u32> = bars.iter().map(|b| b.1).collect();
    assert_eq!(numbers, vec![1, 2, 3]);
    let ticks: Vec<u64> = bars.iter().map(|b| b.0).collect();
    assert_eq!(ticks, vec![8, 16, 24]);
}
