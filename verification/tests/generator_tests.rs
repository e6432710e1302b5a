use andromeda::events::{MIDIEvent, MIDIEventType};
use andromeda::generator::{Generator, GeneratorAction, GeneratorPhase};
use andromeda::ring::PrerenderBuffer;

fn note_on(time: u64, channel: u8, key: u8, velocity: u8) -> MIDIEvent {
    MIDIEvent {
        time,
        event_type: MIDIEventType::NoteOn,
        data: vec![0x90 | (channel & 0x0f), key, velocity],
    }
}

fn note_off(time: u64, channel: u8, key: u8) -> MIDIEvent {
    MIDIEvent {
        time,
        event_type: MIDIEventType::NoteOff,
        data: vec![0x80 | (channel & 0x0f), key],
    }
}

#[test]
fn due_events_dispatch_without_rendering() {
    // 100 frames of buffer at 100 frames per second; an event at time
    // zero is due at once.
    let mut buf = PrerenderBuffer::new(1, 100);
    let mut gen = Generator::new(vec![note_on(0, 3, 60, 127)]);
    assert_eq!(gen.poll(&buf, false), GeneratorAction::Pace);
    assert_eq!(
        gen.poll(&buf, false),
        GeneratorAction::NoteOn { channel: 3, key: 60, velocity: 127 }
    );
    // List drained: the next poll finishes the run.
    assert_eq!(gen.poll(&buf, false), GeneratorAction::Finished);
    assert_eq!(gen.phase, GeneratorPhase::Done);
    let _ = buf;
}

#[test]
fn quiet_note_is_skipped_when_the_buffer_is_empty() {
    // With no run-ahead the threshold sits at 127: a velocity below
    // that is dropped, a full-velocity note plays.
    let buf = PrerenderBuffer::new(1, 100);
    let mut gen = Generator::new(vec![note_on(0, 0, 64, 100), note_on(0, 0, 65, 127)]);
    assert_eq!(gen.poll(&buf, false), GeneratorAction::Pace);
    assert_eq!(
        gen.poll(&buf, false),
        GeneratorAction::NoteSkipped { channel: 0, key: 64, velocity: 100 }
    );
    assert_eq!(gen.poll(&buf, false), GeneratorAction::Pace);
    assert_eq!(
        gen.poll(&buf, false),
        GeneratorAction::NoteOn { channel: 0, key: 65, velocity: 127 }
    );
}

#[test]
fn filling_respects_the_lookahead_cap() {
    // An event one second out needs 100 frames, but only half the
    // 100-frame buffer may be produced ahead of the reader.
    let mut buf = PrerenderBuffer::new(1, 100);
    let mut gen = Generator::new(vec![note_off(1_000_000_000, 0, 60)]);
    assert_eq!(gen.poll(&buf, false), GeneratorAction::Pace);
    assert_eq!(gen.remaining, 100);
    match gen.poll(&buf, false) {
        GeneratorAction::Render { frames } => {
            assert_eq!(frames, 50);
            let samples: Vec<i64> = vec![7; 2 * frames];
            gen.push_audio(&mut buf, &samples);
        }
        other => panic!("expected a render request, got {:?}", other),
    }
    assert_eq!(buf.write_pos, 50);
    assert_eq!(gen.remaining, 50);
    // Saturated: the producer must wait for the consumer.
    assert_eq!(gen.poll(&buf, false), GeneratorAction::WaitForConsumer);
    // The consumer frees 10 frames; the producer may write 10 more.
    let _ = buf.read_block(20, false);
    match gen.poll(&buf, false) {
        GeneratorAction::Render { frames } => assert_eq!(frames, 10),
        other => panic!("expected a render request, got {:?}", other),
    }
}

#[test]
fn cancellation_finishes_within_one_poll() {
    let mut buf = PrerenderBuffer::new(1, 100);
    let mut gen = Generator::new(vec![
        note_off(1_000_000_000, 0, 60),
        note_off(2_000_000_000, 0, 61),
    ]);
    assert_eq!(gen.poll(&buf, false), GeneratorAction::Pace);
    match gen.poll(&buf, false) {
        GeneratorAction::Render { frames } => {
            let samples: Vec<i64> = vec![0; 2 * frames];
            gen.push_audio(&mut buf, &samples);
        }
        other => panic!("expected a render request, got {:?}", other),
    }
    // Cancellation mid-fill: the very next poll yields the single
    // all-notes-kill signal and the terminal state.
    assert_eq!(gen.poll(&buf, true), GeneratorAction::Finished);
    assert_eq!(gen.phase, GeneratorPhase::Done);
}

#[test]
fn rendered_audio_lands_at_the_write_cursor() {
    let mut buf = PrerenderBuffer::new(1, 100);
    let mut gen = Generator::new(vec![note_off(40_000_000, 0, 60)]);
    assert_eq!(gen.poll(&buf, false), GeneratorAction::Pace);
    assert_eq!(gen.remaining, 4);
    match gen.poll(&buf, false) {
        GeneratorAction::Render { frames } => {
            assert_eq!(frames, 4);
            let samples: Vec<i64> = vec![1, 2, 3, 4, 5, 6, 7, 8];
            gen.push_audio(&mut buf, &samples);
        }
        other => panic!("expected a render request, got {:?}", other),
    }
    assert_eq!(buf.write_pos, 4);
    assert_eq!(&buf.audio_buffer[0..8], &[1, 2, 3, 4, 5, 6, 7, 8]);
    // The event is now due.
    assert_eq!(
        gen.poll(&buf, false),
        GeneratorAction::NoteOff { channel: 0, key: 60 }
    );
}

#[test]
fn producer_and_consumer_interleaved_respect_the_cap() {
    // A long run: the producer fills toward each event while the
    // consumer drains in smaller blocks.  The look-ahead cap holds at
    // every step, whatever the interleaving.
    let mut buf = PrerenderBuffer::new(1, 1000);
    let half = 500u64;
    let events = vec![
        note_on(0, 0, 60, 127),
        note_off(1_000_000_000, 0, 60),
        note_on(1_500_000_000, 0, 62, 127),
        note_off(2_000_000_000, 0, 62),
    ];
    let mut gen = Generator::new(events);
    let mut steps = 0u32;
    let mut kill_signals = 0u32;
    loop {
        steps += 1;
        assert!(steps < 10_000, "the producer failed to terminate");
        match gen.poll(&buf, false) {
            GeneratorAction::Render { frames } => {
                let samples: Vec<i64> = vec![9; 2 * frames];
                gen.push_audio(&mut buf, &samples);
            }
            GeneratorAction::WaitForConsumer => {
                let _ = buf.read_block(100, false);
            }
            GeneratorAction::Finished => {
                kill_signals += 1;
                break;
            }
            _ => {}
        }
        // The cap: never more than half the buffer ahead of the reader.
        assert!(buf.write_pos <= buf.read_pos + half);
        // Consume a little every few steps, as a device callback would.
        if steps % 7 == 0 {
            let _ = buf.read_block(60, false);
        }
    }
    assert_eq!(kill_signals, 1);
    // Everything the events demanded was produced: the last event sits
    // at 2 seconds, i.e. frame 2000.
    assert!(buf.write_pos >= 2000);
}
