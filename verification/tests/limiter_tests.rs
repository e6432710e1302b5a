use andromeda::limiter::{Limiter, DEFAULT_FLOOR, SAMPLE_UNIT};

#[test]
fn new_limiter_scales_times_by_the_sample_rate() {
    let lim = Limiter::new(10, 100, 48000);
    assert_eq!(lim.attack, 480);
    assert_eq!(lim.falloff, 4800);
    assert_eq!(lim.loudness_l, SAMPLE_UNIT);
    assert_eq!(lim.loudness_r, SAMPLE_UNIT);
    assert_eq!(lim.velocity_l, 0);
    assert_eq!(lim.velocity_r, 0);
    assert_eq!(lim.strength, SAMPLE_UNIT);
    assert_eq!(lim.min_thresh, DEFAULT_FLOOR);
}

#[test]
fn worst_case_square_wave_stays_bounded() {
    // Alternating full-scale frames for 10000 frames: every output
    // magnitude stays below 1 / (2 * 0.4) = 1.25, here 125_000.
    let mut lim = Limiter::new(10, 100, 48000);
    let mut block: Vec<i64> = Vec::with_capacity(20000);
    for k in 0..10000 {
        let s = if k % 2 == 0 { SAMPLE_UNIT } else { -SAMPLE_UNIT };
        block.push(s);
        block.push(s);
    }
    lim.apply_limiter(&mut block);
    let bound = SAMPLE_UNIT * SAMPLE_UNIT / DEFAULT_FLOOR / 2;
    assert_eq!(bound, 125_000);
    for s in &block {
        assert!(s.abs() <= bound);
    }
    // With the envelope settled at full scale, the gain is exactly one
    // half: the tail of the block sits at +/- 0.5.
    assert_eq!(block[19998].abs(), SAMPLE_UNIT / 2);
    assert_eq!(block[19999].abs(), SAMPLE_UNIT / 2);
}

#[test]
fn silence_stays_silence() {
    let mut lim = Limiter::new(10, 100, 48000);
    let mut block: Vec<i64> = vec![0; 256];
    lim.apply_limiter(&mut block);
    assert!(block.iter().all(|s| *s == 0));
    // The envelope never decays below its floor.
    assert!(lim.loudness_l >= DEFAULT_FLOOR);
    assert!(lim.loudness_r >= DEFAULT_FLOOR);
}

#[test]
fn quiet_signal_is_halved_not_boosted_above_bound() {
    let mut lim = Limiter::new(10, 100, 48000);
    let mut block: Vec<i64> = vec![SAMPLE_UNIT / 10; 64];
    lim.apply_limiter(&mut block);
    let bound = SAMPLE_UNIT * SAMPLE_UNIT / DEFAULT_FLOOR / 2;
    for s in &block {
        assert!(*s >= 0 && *s <= bound);
    }
}

#[test]
fn limiter_state_carries_across_blocks() {
    let mut lim = Limiter::new(10, 100, 48000);
    let mut first: Vec<i64> = vec![SAMPLE_UNIT; 512];
    lim.apply_limiter(&mut first);
    let loud_after_first = lim.loudness_l;
    let mut second: Vec<i64> = vec![0; 512];
    lim.apply_limiter(&mut second);
    // The envelope decays from where the previous block left it.
    assert!(lim.loudness_l < loud_after_first);
    assert!(lim.loudness_l >= DEFAULT_FLOOR);
}
