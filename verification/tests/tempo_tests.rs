use andromeda::events::TempoEvent;
use andromeda::playback::Playback;
use andromeda::tempo::{nanos_to_ticks, ticks_to_nanos};

fn tempo(time: u64, time_norm: u64, bpm: u32) -> TempoEvent {
    TempoEvent {
        time,
        time_norm,
        tempo: bpm,
    }
}

#[test]
fn single_tempo_quarter_note_is_half_second() {
    // One quarter note at 120 BPM lasts exactly half a second.
    let events = vec![tempo(0, 0, 120)];
    assert_eq!(ticks_to_nanos(&events, 1920, 1920), 500_000_000);
}

#[test]
fn empty_tempo_map_defaults_to_120_bpm() {
    let events: Vec<TempoEvent> = Vec::new();
    assert_eq!(ticks_to_nanos(&events, 1920, 1920), 500_000_000);
    assert_eq!(nanos_to_ticks(&events, 1920, 500_000_000), 1920);
}

#[test]
fn tempo_change_mid_stream() {
    // 120 BPM for the first quarter, 60 BPM after: the second quarter
    // note takes twice as long.
    let events = vec![tempo(0, 0, 120), tempo(1920, 500_000_000, 60)];
    assert_eq!(ticks_to_nanos(&events, 1920, 1920), 500_000_000);
    assert_eq!(ticks_to_nanos(&events, 1920, 3840), 1_500_000_000);
}

#[test]
fn seconds_to_tick_projects_through_last_segment() {
    let events = vec![tempo(0, 0, 120), tempo(1920, 500_000_000, 60)];
    assert_eq!(nanos_to_ticks(&events, 1920, 500_000_000), 1920);
    assert_eq!(nanos_to_ticks(&events, 1920, 1_500_000_000), 3840);
    // Halfway into the slow segment: half of a 60-BPM quarter note.
    assert_eq!(nanos_to_ticks(&events, 1920, 1_000_000_000), 2880);
}

#[test]
fn round_trip_loses_less_than_one_tick() {
    let events = vec![tempo(0, 0, 120), tempo(1920, 500_000_000, 60)];
    for t in [0u64, 1, 7, 959, 1920, 1921, 3840, 123_457] {
        let s = ticks_to_nanos(&events, 1920, t);
        let back = nanos_to_ticks(&events, 1920, s);
        assert!(back <= t && t - back <= 1, "tick {} came back as {}", t, back);
    }
}

#[test]
fn playback_clock_freezes_and_reanchors() {
    let mut pb = Playback::new();
    pb.tempo_events.push(tempo(0, 0, 120));

    // Start playing at t = 1s; 0.5s later the position is one quarter
    // note in.
    pb.play_or_stop(1_000_000_000);
    assert!(pb.is_playing);
    assert_eq!(pb.get_playback_time(1920, 1_500_000_000), 1920);

    // Stop at 1.5s: the position freezes there.
    pb.play_or_stop(1_500_000_000);
    assert!(!pb.is_playing);
    assert_eq!(pb.playback_nanos, 500_000_000);
    assert_eq!(pb.get_playback_time(1920, 9_000_000_000), 1920);
}

#[test]
fn navigate_to_sets_frozen_position() {
    let mut pb = Playback::new();
    pb.tempo_events.push(tempo(0, 0, 120));
    pb.navigate_to(1920, 3840);
    assert_eq!(pb.playback_nanos, 1_000_000_000);
    assert_eq!(pb.last_pos, 1_000_000_000);
}
