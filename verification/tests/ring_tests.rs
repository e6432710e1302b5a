use andromeda::ring::PrerenderBuffer;

#[test]
fn new_buffer_is_silent_with_cursors_at_zero() {
    let buf = PrerenderBuffer::new(1, 8);
    assert_eq!(buf.audio_buffer.len(), 16);
    assert_eq!(buf.read_pos, 0);
    assert_eq!(buf.write_pos, 0);
    assert!(buf.audio_buffer.iter().all(|s| *s == 0));
}

#[test]
fn write_wrapped_splits_at_the_physical_end() {
    // 8-frame buffer; writing 2 frames starting at frame 7 wraps into
    // the first frame.
    let mut buf = PrerenderBuffer::new(1, 8);
    let source: Vec<i64> = vec![10, 11, 12, 13];
    buf.write_wrapped(&source, 7, 2);
    assert_eq!(buf.audio_buffer[14], 10);
    assert_eq!(buf.audio_buffer[15], 11);
    assert_eq!(buf.audio_buffer[0], 12);
    assert_eq!(buf.audio_buffer[1], 13);
    assert_eq!(buf.audio_buffer[2], 0);
    // Cursors are untouched by the copy itself.
    assert_eq!(buf.write_pos, 0);
    assert_eq!(buf.read_pos, 0);
}

#[test]
fn underrun_reads_silence_and_still_advances() {
    // Two frames produced, three requested: the third frame comes back
    // as silence and the read cursor still moves the full amount.
    let mut buf = PrerenderBuffer::new(1, 8);
    let source: Vec<i64> = vec![1, 2, 3, 4];
    buf.write_wrapped(&source, 0, 2);
    buf.write_pos = 2;
    let block = buf.read_block(6, false);
    assert_eq!(block, vec![1, 2, 3, 4, 0, 0]);
    assert_eq!(buf.read_pos, 3);
    assert!(buf.read_pos > buf.write_pos);
}

#[test]
fn reset_in_flight_reads_pure_silence_without_advancing() {
    let mut buf = PrerenderBuffer::new(1, 8);
    let source: Vec<i64> = vec![5, 6];
    buf.write_wrapped(&source, 0, 1);
    buf.write_pos = 1;
    let block = buf.read_block(4, true);
    assert_eq!(block, vec![0, 0, 0, 0]);
    assert_eq!(buf.read_pos, 0);
}

#[test]
fn read_wraps_past_the_physical_end() {
    let mut buf = PrerenderBuffer::new(1, 8);
    let source: Vec<i64> = vec![20, 21, 22, 23];
    buf.write_wrapped(&source, 7, 2);
    buf.read_pos = 7;
    buf.write_pos = 9;
    let block = buf.read_block(4, false);
    assert_eq!(block, vec![20, 21, 22, 23]);
    assert_eq!(buf.read_pos, 9);
}

#[test]
fn skip_velocity_follows_the_stated_formula() {
    // runAhead 0, 1000, 12700, 20000 -> thresholds 127, 127, 10, 0:
    // clamped to [0, 127] and non-increasing as runAhead grows.
    let mut buf = PrerenderBuffer::new(2, 22050);
    let mut last = 128u8;
    for (run_ahead, expected) in [(0u64, 127u8), (1000, 127), (12700, 10), (20000, 0)] {
        buf.read_pos = 0;
        buf.write_pos = run_ahead;
        let got = buf.get_skipping_velocity();
        assert_eq!(got, expected);
        assert!(got <= last);
        last = got;
    }
}

#[test]
fn skip_velocity_is_full_when_the_reader_overran() {
    let mut buf = PrerenderBuffer::new(1, 8);
    buf.read_pos = 5;
    buf.write_pos = 2;
    assert_eq!(buf.get_skipping_velocity(), 127);
}
