use andromeda::events::MIDIEventType;
use andromeda::notes::{Note, ProjectNoteManager};

fn note(start: u32, length: u32, channel: u8, key: u8, velocity: u8) -> Note {
    Note {
        start,
        length,
        channel,
        key,
        velocity,
    }
}

#[test]
fn add_note_packs_track_and_channel() {
    let mut mgr = ProjectNoteManager::new();
    mgr.add_note(2, note(100, 50, 3, 60, 90));
    assert_eq!(mgr.curr_id, 1);
    assert!(mgr.render_needs_update);
    let (id, stored) = mgr.project_notes[0];
    assert_eq!(id, 0);
    assert_eq!(stored.start, 100);
    assert_eq!(stored.length, 50);
    assert_eq!(stored.channel_track, (2u32 << 8) | 3);
    assert_eq!(stored.key, 60);
    assert_eq!(stored.velocity, 90);
}

#[test]
fn convert_notes_stores_end_as_length() {
    // Imported notes carry an end tick in `length`.
    let mut mgr = ProjectNoteManager::new();
    mgr.convert_notes(vec![note(10, 30, 1, 40, 80), note(20, 25, 2, 41, 81)]);
    assert_eq!(mgr.curr_id, 2);
    assert!(!mgr.render_needs_update);
    assert_eq!(mgr.project_notes[0].1.length, 20);
    assert_eq!(mgr.project_notes[1].1.length, 5);
    assert_eq!(mgr.project_notes[0].1.channel_track, 1);
}

#[test]
fn remove_last_note_steps_the_key_back() {
    let mut mgr = ProjectNoteManager::new();
    mgr.add_note(0, note(0, 10, 0, 50, 70));
    mgr.add_note(0, note(5, 10, 0, 51, 71));
    assert_eq!(mgr.curr_id, 2);
    // The running key (2) has no binding, so only the key steps back;
    // the next add then overwrites the note stored under key 1.
    mgr.remove_last_note();
    assert_eq!(mgr.curr_id, 1);
    assert_eq!(mgr.project_notes.len(), 2);
    mgr.add_note(0, note(9, 9, 0, 52, 72));
    assert_eq!(mgr.project_notes.len(), 2);
    assert_eq!(mgr.project_notes[1].1.key, 52);
}

#[test]
fn get_notes_groups_by_track_sorted_by_start() {
    let mut mgr = ProjectNoteManager::new();
    mgr.add_note(1, note(300, 10, 0, 60, 90));
    mgr.add_note(1, note(100, 10, 0, 61, 91));
    mgr.add_note(1, note(200, 10, 0, 62, 92));
    let groups = mgr.get_notes();
    assert_eq!(groups.len(), 1);
    let starts: Vec<u32> = groups[0].1.iter().map(|n| n.start).collect();
    assert_eq!(starts, vec![100, 200, 300]);
    // The group key is the track bits above the channel byte.
    assert_eq!(groups[0].0, ((1u32 << 8) >> 16) & 0xffff);
}

#[test]
fn get_events_emits_ordered_on_off_pairs() {
    let mut mgr = ProjectNoteManager::new();
    mgr.add_note(0, note(100, 50, 2, 60, 90));
    mgr.add_note(0, note(20, 30, 1, 61, 91));
    let events = mgr.get_events();
    assert_eq!(events.len(), 4);
    let times: Vec<u64> = events.iter().map(|e| e.time).collect();
    assert_eq!(times, vec![20, 50, 100, 150]);
    assert!(matches!(events[0].event_type, MIDIEventType::NoteOn));
    assert_eq!(events[0].data, vec![0x90 | 1, 61, 91]);
    assert!(matches!(events[1].event_type, MIDIEventType::NoteOff));
    assert_eq!(events[1].data, vec![0x80 | 1, 61]);
    assert_eq!(events[2].data, vec![0x90 | 2, 60, 90]);
    assert_eq!(events[3].data, vec![0x80 | 2, 60]);
}
