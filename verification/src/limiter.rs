//! The dynamics limiter: a stateful, causal, single-pass filter that
//! keeps the output signal bounded.  Per channel it follows the
//! signal's loudness with an envelope (fast attack, slow release),
//! floors the envelope to avoid dividing by almost zero, and divides
//! each sample by the strength-weighted envelope, then halves.
//!
//! Samples and coefficients are decimal fixed point: `SAMPLE_UNIT`
//! represents 1.0.  Attack and release are frame counts.

use vstd::prelude::*;

verus! {

use vstd::arithmetic::div_mod::{
    lemma_div_pos_is_pos, lemma_div_is_ordered, lemma_div_by_multiple, lemma_div_nonincreasing,
    lemma_div_is_ordered_by_denominator,
};
use vstd::arithmetic::mul::{
    lemma_mul_nonnegative, lemma_mul_inequality, lemma_mul_upper_bound,
};

/// Fixed-point representation of 1.0.
pub const SAMPLE_UNIT: i64 = 100_000;

/// Default envelope floor: 0.4 in fixed point.
pub const DEFAULT_FLOOR: i64 = 40_000;

/// Largest accepted attack or release, in frames.
pub const SMOOTH_LIMIT: i64 = 32_768;

/// Largest accepted sample magnitude.
pub const SAMPLE_LIMIT: i64 = 0x4000_0000;

/// Bound on the smoothed velocity trackers.
pub const VELOCITY_LIMIT: i64 = 0x8000_0000_0000;

/// Magnitude of a sample value.
pub open spec fn mag(x: int) -> int {
    if x >= 0 {
        x
    } else {
        -x
    }
}

/// One smoothing step shared by the envelope and velocity followers:
/// the follower moves toward the signal, slowly (`falloff`) while above
/// it, quickly (`attack`) while below.
pub open spec fn follow_step(state: int, signal: int, attack: int, falloff: int) -> int {
    if state > signal {
        (state * falloff + signal) / (falloff + 1)
    } else {
        (state * attack + signal) / (attack + 1)
    }
}

/// The envelope floored from below.
pub open spec fn floored(v: int, floor: int) -> int {
    if v < floor {
        floor
    } else {
        v
    }
}

/// The gain divisor: interpolates between the envelope (full strength)
/// and a fixed factor of two (no limiting).
pub open spec fn gain_divisor(loudness: int, strength: int) -> int {
    loudness * strength / (SAMPLE_UNIT as int) + 2 * ((SAMPLE_UNIT as int) - strength)
}

/// A nonnegative sample divided by the gain divisor, then halved.
pub open spec fn limit_mag(ax: int, divisor: int) -> int {
    ax * (SAMPLE_UNIT as int) / divisor / 2
}

/// A signed sample through the limiter gain (truncating toward zero,
/// as the executable division does).
pub open spec fn limit_sample(x: int, divisor: int) -> int {
    if x >= 0 {
        limit_mag(x, divisor)
    } else {
        -limit_mag(-x, divisor)
    }
}

/// The followers' state between frames, as mathematical integers.
pub struct LimiterState {
    pub loudness_l: int,
    pub loudness_r: int,
    pub velocity_l: int,
    pub velocity_r: int,
}

/// The dynamics limiter.
pub struct Limiter {
    pub loudness_l: i64,
    pub loudness_r: i64,
    pub velocity_l: i64,
    pub velocity_r: i64,
    /// Attack time in frames.
    pub attack: i64,
    /// Release time in frames.
    pub falloff: i64,
    pub strength: i64,
    pub min_thresh: i64,
}

/// The follower values are within their working ranges, relative to
/// the envelope floor.
pub open spec fn state_wf(s: LimiterState, floor: int) -> bool {
    &&& floor <= s.loudness_l <= SAMPLE_LIMIT
    &&& floor <= s.loudness_r <= SAMPLE_LIMIT
    &&& 0 <= s.velocity_l <= VELOCITY_LIMIT
    &&& 0 <= s.velocity_r <= VELOCITY_LIMIT
}

/// The worst-case output magnitude once the envelope is floored at
/// `floor`: half the unit signal over the floor.
pub open spec fn limit_bound(floor: int) -> int {
    (SAMPLE_UNIT as int) * (SAMPLE_UNIT as int) / floor / 2
}

impl Limiter {
    /// The fixed configuration is sane.
    pub open spec fn config_wf(self) -> bool {
        &&& 0 <= self.attack <= SMOOTH_LIMIT
        &&& 0 <= self.falloff <= SMOOTH_LIMIT
        &&& 0 <= self.strength <= SAMPLE_UNIT
        &&& 1 <= self.min_thresh <= SAMPLE_UNIT
    }

    /// Configuration and follower state are both in range.
    pub open spec fn wf(self) -> bool {
        &&& self.config_wf()
        &&& state_wf(self.state(), self.min_thresh as int)
    }

    /// The followers' state of this limiter.
    pub open spec fn state(self) -> LimiterState {
        LimiterState {
            loudness_l: self.loudness_l as int,
            loudness_r: self.loudness_r as int,
            velocity_l: self.velocity_l as int,
            velocity_r: self.velocity_r as int,
        }
    }

    /// A fresh limiter: envelopes at 1.0, full strength, default floor.
    /// Attack and release are given in milliseconds and scaled by the
    /// sample rate.
    pub fn new(attack_ms: u32, release_ms: u32, sample_rate: u32) -> (r: Self)
        requires
            attack_ms * sample_rate <= 32_768_000,
            release_ms * sample_rate <= 32_768_000,
        ensures
            r.wf(),
            r.state() == (LimiterState {
                loudness_l: SAMPLE_UNIT as int,
                loudness_r: SAMPLE_UNIT as int,
                velocity_l: 0,
                velocity_r: 0,
            }),
            r.attack == attack_ms * sample_rate / 1000,
            r.falloff == release_ms * sample_rate / 1000,
            r.strength == SAMPLE_UNIT,
            r.min_thresh == DEFAULT_FLOOR,
    {
        let attack: u64 = (attack_ms as u64) * (sample_rate as u64) / 1000;
        let falloff: u64 = (release_ms as u64) * (sample_rate as u64) / 1000;
        Limiter {
            loudness_l: SAMPLE_UNIT,
            loudness_r: SAMPLE_UNIT,
            velocity_l: 0,
            velocity_r: 0,
            attack: attack as i64,
            falloff: falloff as i64,
            strength: SAMPLE_UNIT,
            min_thresh: DEFAULT_FLOOR,
        }
    }

    /// One frame through the limiter: new follower state and the two
    /// output samples.  The velocity trackers hold still on the first
    /// frame of each block, where no previous limited frame exists.
    pub open spec fn frame_step(self, s: LimiterState, xl: int, xr: int, first: bool) -> (
        LimiterState,
        int,
        int,
    ) {
        let ll = floored(
            follow_step(s.loudness_l, mag(xl), self.attack as int, self.falloff as int),
            self.min_thresh as int,
        );
        let lr = floored(
            follow_step(s.loudness_r, mag(xr), self.attack as int, self.falloff as int),
            self.min_thresh as int,
        );
        let ol = limit_sample(xl, gain_divisor(ll, self.strength as int));
        let or = limit_sample(xr, gain_divisor(lr, self.strength as int));
        let vl = if first {
            s.velocity_l
        } else {
            follow_step(s.velocity_l, mag(xl - ol), self.attack as int, self.falloff as int)
        };
        let vr = if first {
            s.velocity_r
        } else {
            follow_step(s.velocity_r, mag(xr - or), self.attack as int, self.falloff as int)
        };
        (LimiterState { loudness_l: ll, loudness_r: lr, velocity_l: vl, velocity_r: vr }, ol, or)
    }

    /// Follower state after the first `k` frames of `input`.
    pub open spec fn run(self, s0: LimiterState, input: Seq<i64>, k: int) -> LimiterState
        decreases k,
    {
        if k <= 0 {
            s0
        } else {
            self.frame_step(
                self.run(s0, input, k - 1),
                input[2 * (k - 1)] as int,
                input[2 * k - 1] as int,
                k - 1 == 0,
            ).0
        }
    }

    /// The pair of output samples for frame `k` of `input`.
    pub open spec fn out_pair(self, s0: LimiterState, input: Seq<i64>, k: int) -> (int, int) {
        let step = self.frame_step(
            self.run(s0, input, k),
            input[2 * k] as int,
            input[2 * k + 1] as int,
            k == 0,
        );
        (step.1, step.2)
    }

    /// Applies the limiter to an interleaved stereo block in place:
    /// each frame is divided by the strength-weighted, floored loudness
    /// envelope and halved, and the follower state carries over to the
    /// next block.  The block is processed strictly in order.
    pub fn apply_limiter(&mut self, buffer: &mut Vec<i64>)
        requires
            old(self).wf(),
            old(buffer).len() % 2 == 0,
            forall|k: int|
                0 <= k < old(buffer).len() ==> mag(#[trigger] old(buffer)[k] as int)
                    <= SAMPLE_LIMIT,
        ensures
            final(self).wf(),
            final(self).attack == old(self).attack,
            final(self).falloff == old(self).falloff,
            final(self).strength == old(self).strength,
            final(self).min_thresh == old(self).min_thresh,
            final(self).state() == old(self).run(
                old(self).state(),
                old(buffer)@,
                old(buffer).len() as int / 2,
            ),
            final(buffer).len() == old(buffer).len(),
            forall|k: int|
                0 <= k < old(buffer).len() / 2 ==> {
                    let out = #[trigger] old(self).out_pair(old(self).state(), old(buffer)@, k);
                    final(buffer)[2 * k] == out.0 && final(buffer)[2 * k + 1] == out.1
                },
    {
        let ghost cfg = *old(self);
        let ghost s0 = old(self).state();
        let ghost input = old(buffer)@;
        let frames: usize = buffer.len() / 2;
        let mut i: usize = 0;
        while i < frames
            invariant
                cfg.config_wf(),
                self.attack == cfg.attack,
                self.falloff == cfg.falloff,
                self.strength == cfg.strength,
                self.min_thresh == cfg.min_thresh,
                state_wf(self.state(), cfg.min_thresh as int),
                i <= frames,
                buffer.len() == input.len(),
                frames == input.len() / 2,
                input.len() % 2 == 0,
                forall|k: int| 0 <= k < input.len() ==> mag(#[trigger] input[k] as int)
                    <= SAMPLE_LIMIT,
                self.state() == cfg.run(s0, input, i as int),
                forall|k: int|
                    0 <= k < i ==> {
                        let out = #[trigger] cfg.out_pair(s0, input, k);
                        buffer[2 * k] == out.0 && buffer[2 * k + 1] == out.1
                    },
                forall|k: int| 2 * i <= k < input.len() ==> buffer[k] == input[k],
            decreases frames - i,
        {
            let xl: i64 = buffer[2 * i];
            let xr: i64 = buffer[2 * i + 1];
            let ghost s = self.state();
            let ghost step = cfg.frame_step(s, xl as int, xr as int, i == 0);
            proof {
                assert(xl == input[2 * i as int]);
                assert(xr == input[2 * i as int + 1]);
                assert(mag(input[2 * i as int] as int) <= SAMPLE_LIMIT);
                assert(mag(input[2 * i as int + 1] as int) <= SAMPLE_LIMIT);
                lemma_frame_step_wf(cfg, s, xl as int, xr as int, i == 0);
                lemma_mul_upper_bound(
                    self.loudness_l as int,
                    SAMPLE_LIMIT as int,
                    self.falloff as int,
                    SMOOTH_LIMIT as int,
                );
                lemma_mul_upper_bound(
                    self.loudness_l as int,
                    SAMPLE_LIMIT as int,
                    self.attack as int,
                    SMOOTH_LIMIT as int,
                );
                lemma_mul_upper_bound(
                    self.loudness_r as int,
                    SAMPLE_LIMIT as int,
                    self.falloff as int,
                    SMOOTH_LIMIT as int,
                );
                lemma_mul_upper_bound(
                    self.loudness_r as int,
                    SAMPLE_LIMIT as int,
                    self.attack as int,
                    SMOOTH_LIMIT as int,
                );
                lemma_mul_nonnegative(self.loudness_l as int, self.falloff as int);
                lemma_mul_nonnegative(self.loudness_l as int, self.attack as int);
                lemma_mul_nonnegative(self.loudness_r as int, self.falloff as int);
                lemma_mul_nonnegative(self.loudness_r as int, self.attack as int);
            }
            let axl: i64 = if xl >= 0 { xl } else { -xl };
            let axr: i64 = if xr >= 0 { xr } else { -xr };
            let mut el: i64 = if self.loudness_l > axl {
                (self.loudness_l * self.falloff + axl) / (self.falloff + 1)
            } else {
                (self.loudness_l * self.attack + axl) / (self.attack + 1)
            };
            let mut er: i64 = if self.loudness_r > axr {
                (self.loudness_r * self.falloff + axr) / (self.falloff + 1)
            } else {
                (self.loudness_r * self.attack + axr) / (self.attack + 1)
            };
            if el < self.min_thresh {
                el = self.min_thresh;
            }
            if er < self.min_thresh {
                er = self.min_thresh;
            }
            self.loudness_l = el;
            self.loudness_r = er;
            proof {
                lemma_mul_upper_bound(el as int, SAMPLE_LIMIT as int, self.strength as int,
                    SAMPLE_UNIT as int);
                lemma_mul_upper_bound(er as int, SAMPLE_LIMIT as int, self.strength as int,
                    SAMPLE_UNIT as int);
                lemma_mul_nonnegative(el as int, self.strength as int);
                lemma_mul_nonnegative(er as int, self.strength as int);
                lemma_gain_divisor_bounds(el as int, self.strength as int);
                lemma_gain_divisor_bounds(er as int, self.strength as int);
            }
            let div_l: i64 = el * self.strength / SAMPLE_UNIT + 2 * (SAMPLE_UNIT - self.strength);
            let div_r: i64 = er * self.strength / SAMPLE_UNIT + 2 * (SAMPLE_UNIT - self.strength);
            let oml: i64 = axl * SAMPLE_UNIT / div_l / 2;
            let omr: i64 = axr * SAMPLE_UNIT / div_r / 2;
            let ol: i64 = if xl >= 0 { oml } else { -oml };
            let or: i64 = if xr >= 0 { omr } else { -omr };
            proof {
                lemma_limit_mag_bounds(axl as int, div_l as int, 1);
                lemma_limit_mag_bounds(axr as int, div_r as int, 1);
            }
            if i != 0 {
                let dl: i64 = xl - ol;
                let dr: i64 = xr - or;
                let adl: i64 = if dl >= 0 { dl } else { -dl };
                let adr: i64 = if dr >= 0 { dr } else { -dr };
                proof {
                    lemma_mul_upper_bound(
                        self.velocity_l as int,
                        VELOCITY_LIMIT as int,
                        self.falloff as int,
                        SMOOTH_LIMIT as int,
                    );
                    lemma_mul_upper_bound(
                        self.velocity_l as int,
                        VELOCITY_LIMIT as int,
                        self.attack as int,
                        SMOOTH_LIMIT as int,
                    );
                    lemma_mul_upper_bound(
                        self.velocity_r as int,
                        VELOCITY_LIMIT as int,
                        self.falloff as int,
                        SMOOTH_LIMIT as int,
                    );
                    lemma_mul_upper_bound(
                        self.velocity_r as int,
                        VELOCITY_LIMIT as int,
                        self.attack as int,
                        SMOOTH_LIMIT as int,
                    );
                    lemma_mul_nonnegative(self.velocity_l as int, self.falloff as int);
                    lemma_mul_nonnegative(self.velocity_l as int, self.attack as int);
                    lemma_mul_nonnegative(self.velocity_r as int, self.falloff as int);
                    lemma_mul_nonnegative(self.velocity_r as int, self.attack as int);
                }
                self.velocity_l = if self.velocity_l > adl {
                    (self.velocity_l * self.falloff + adl) / (self.falloff + 1)
                } else {
                    (self.velocity_l * self.attack + adl) / (self.attack + 1)
                };
                self.velocity_r = if self.velocity_r > adr {
                    (self.velocity_r * self.falloff + adr) / (self.falloff + 1)
                } else {
                    (self.velocity_r * self.attack + adr) / (self.attack + 1)
                };
            }
            buffer.set(2 * i, ol);
            buffer.set(2 * i + 1, or);
            proof {
                assert(self.state() == step.0);
                assert(ol as int == step.1);
                assert(or as int == step.2);
                assert(cfg.run(s0, input, i + 1) == step.0);
            }
            i = i + 1;
        }
    }
}

/// One frame preserves the follower ranges, and the outputs stay
/// within half the scaled inputs.
proof fn lemma_frame_step_wf(cfg: Limiter, s: LimiterState, xl: int, xr: int, first: bool)
    requires
        cfg.config_wf(),
        state_wf(s, cfg.min_thresh as int),
        mag(xl) <= SAMPLE_LIMIT,
        mag(xr) <= SAMPLE_LIMIT,
    ensures
        ({
            let (s2, ol, or) = cfg.frame_step(s, xl, xr, first);
            &&& state_wf(s2, cfg.min_thresh as int)
            &&& mag(ol) <= mag(xl) * (SAMPLE_UNIT as int) / 2
            &&& mag(or) <= mag(xr) * (SAMPLE_UNIT as int) / 2
            &&& mag(ol) <= (SAMPLE_LIMIT as int) * (SAMPLE_UNIT as int) / 2
            &&& mag(or) <= (SAMPLE_LIMIT as int) * (SAMPLE_UNIT as int) / 2
        }),
{
    let a = cfg.attack as int;
    let f = cfg.falloff as int;
    let floor = cfg.min_thresh as int;
    let u = SAMPLE_UNIT as int;
    let (s2, ol, or) = cfg.frame_step(s, xl, xr, first);
    lemma_follow_step_bounded(s.loudness_l, mag(xl), a, f, SAMPLE_LIMIT as int);
    lemma_follow_step_bounded(s.loudness_r, mag(xr), a, f, SAMPLE_LIMIT as int);
    let ll = s2.loudness_l;
    let lr = s2.loudness_r;
    lemma_gain_divisor_bounds(ll, cfg.strength as int);
    lemma_gain_divisor_bounds(lr, cfg.strength as int);
    lemma_limit_mag_bounds(mag(xl), gain_divisor(ll, cfg.strength as int), 1);
    lemma_limit_mag_bounds(mag(xr), gain_divisor(lr, cfg.strength as int), 1);
    lemma_mul_inequality(mag(xl), SAMPLE_LIMIT as int, u);
    lemma_mul_inequality(mag(xr), SAMPLE_LIMIT as int, u);
    lemma_div_is_ordered(mag(xl) * u, (SAMPLE_LIMIT as int) * u, 2);
    lemma_div_is_ordered(mag(xr) * u, (SAMPLE_LIMIT as int) * u, 2);
    if !first {
        lemma_follow_step_bounded(s.velocity_l, mag(xl - ol), a, f, VELOCITY_LIMIT as int);
        lemma_follow_step_bounded(s.velocity_r, mag(xr - or), a, f, VELOCITY_LIMIT as int);
    }
}

/// At full strength the gain divisor is exactly the floored envelope.
proof fn lemma_full_strength_divisor(loudness: int)
    requires
        0 <= loudness,
    ensures
        gain_divisor(loudness, SAMPLE_UNIT as int) == loudness,
{
    lemma_div_by_multiple(loudness, SAMPLE_UNIT as int);
}

/// One full-strength frame on unit-bounded input keeps the envelopes
/// at or below 1.0 and the outputs within the floor-determined bound.
proof fn lemma_frame_step_unit(cfg: Limiter, s: LimiterState, xl: int, xr: int, first: bool)
    requires
        cfg.config_wf(),
        cfg.strength == SAMPLE_UNIT,
        state_wf(s, cfg.min_thresh as int),
        s.loudness_l <= SAMPLE_UNIT,
        s.loudness_r <= SAMPLE_UNIT,
        mag(xl) <= SAMPLE_UNIT,
        mag(xr) <= SAMPLE_UNIT,
    ensures
        ({
            let (s2, ol, or) = cfg.frame_step(s, xl, xr, first);
            &&& state_wf(s2, cfg.min_thresh as int)
            &&& s2.loudness_l <= SAMPLE_UNIT
            &&& s2.loudness_r <= SAMPLE_UNIT
            &&& mag(ol) <= limit_bound(cfg.min_thresh as int)
            &&& mag(or) <= limit_bound(cfg.min_thresh as int)
        }),
{
    let a = cfg.attack as int;
    let f = cfg.falloff as int;
    let floor = cfg.min_thresh as int;
    let u = SAMPLE_UNIT as int;
    let (s2, ol, or) = cfg.frame_step(s, xl, xr, first);
    lemma_frame_step_wf(cfg, s, xl, xr, first);
    lemma_follow_step_bounded(s.loudness_l, mag(xl), a, f, u);
    lemma_follow_step_bounded(s.loudness_r, mag(xr), a, f, u);
    let ll = s2.loudness_l;
    let lr = s2.loudness_r;
    lemma_full_strength_divisor(ll);
    lemma_full_strength_divisor(lr);
    lemma_limit_mag_bounds(mag(xl), ll, floor);
    lemma_limit_mag_bounds(mag(xr), lr, floor);
    lemma_mul_inequality(mag(xl), u, u);
    lemma_mul_inequality(mag(xr), u, u);
    lemma_div_is_ordered(mag(xl) * u, u * u, floor);
    lemma_div_is_ordered(mag(xr) * u, u * u, floor);
    lemma_div_is_ordered(mag(xl) * u / floor, u * u / floor, 2);
    lemma_div_is_ordered(mag(xr) * u / floor, u * u / floor, 2);
}

/// Limiter boundedness law: at full strength, if every sample of a
/// block lies within ±1.0 and both loudness envelopes start at or
/// below 1.0, then every output sample has magnitude at most
/// `1 / (2 · floor)` — with the default floor of 0.4, at most 1.25 —
/// and the envelopes stay at or below 1.0 for the next block.
pub proof fn lemma_limiter_bounded(cfg: Limiter, s0: LimiterState, input: Seq<i64>, k: int)
    requires
        cfg.config_wf(),
        cfg.strength == SAMPLE_UNIT,
        state_wf(s0, cfg.min_thresh as int),
        s0.loudness_l <= SAMPLE_UNIT,
        s0.loudness_r <= SAMPLE_UNIT,
        forall|j: int| 0 <= j < input.len() ==> mag(#[trigger] input[j] as int) <= SAMPLE_UNIT,
        0 <= k,
        2 * k + 1 < input.len(),
    ensures
        state_wf(cfg.run(s0, input, k), cfg.min_thresh as int),
        cfg.run(s0, input, k).loudness_l <= SAMPLE_UNIT,
        cfg.run(s0, input, k).loudness_r <= SAMPLE_UNIT,
        mag(cfg.out_pair(s0, input, k).0) <= limit_bound(cfg.min_thresh as int),
        mag(cfg.out_pair(s0, input, k).1) <= limit_bound(cfg.min_thresh as int),
    decreases k,
{
    if k > 0 {
        lemma_limiter_bounded(cfg, s0, input, k - 1);
        lemma_frame_step_unit(
            cfg,
            cfg.run(s0, input, k - 1),
            input[2 * (k - 1)] as int,
            input[2 * k - 1] as int,
            k - 1 == 0,
        );
    }
    lemma_frame_step_unit(
        cfg,
        cfg.run(s0, input, k),
        input[2 * k] as int,
        input[2 * k + 1] as int,
        k == 0,
    );
}

/// A follower step stays within `[0, bound]` when its state and signal
/// do.
proof fn lemma_follow_step_bounded(state: int, signal: int, attack: int, falloff: int, bound: int)
    requires
        0 <= state <= bound,
        0 <= signal <= bound,
        0 <= attack,
        0 <= falloff,
    ensures
        0 <= follow_step(state, signal, attack, falloff) <= bound,
{
    lemma_avg_le(state, signal, falloff, bound);
    lemma_avg_le(state, signal, attack, bound);
}

/// `(a * k + b) / (k + 1)` lies between 0 and any bound dominating both
/// `a` and `b`.
proof fn lemma_avg_le(a: int, b: int, k: int, m: int)
    requires
        0 <= a <= m,
        0 <= b <= m,
        0 <= k,
    ensures
        0 <= (a * k + b) / (k + 1) <= m,
{
    lemma_mul_nonnegative(a, k);
    lemma_div_pos_is_pos(a * k + b, k + 1);
    lemma_mul_inequality(a, m, k);
    lemma_div_is_ordered(a * k + b, m * k + m, k + 1);
    assert(m * k + m == m * (k + 1)) by (nonlinear_arith);
    lemma_div_by_multiple(m, k + 1);
}

/// The gain divisor is at least 1 once the envelope is floored, and at
/// most the envelope plus two units.
proof fn lemma_gain_divisor_bounds(loudness: int, strength: int)
    requires
        1 <= loudness <= SAMPLE_LIMIT,
        0 <= strength <= SAMPLE_UNIT,
    ensures
        1 <= gain_divisor(loudness, strength) <= SAMPLE_LIMIT + 2 * SAMPLE_UNIT,
{
    let u = SAMPLE_UNIT as int;
    lemma_mul_nonnegative(loudness, strength);
    lemma_div_pos_is_pos(loudness * strength, u);
    lemma_mul_upper_bound(loudness, SAMPLE_LIMIT as int, strength, u);
    lemma_div_is_ordered(loudness * strength, SAMPLE_LIMIT as int * u, u);
    lemma_div_by_multiple(SAMPLE_LIMIT as int, u);
    if strength == u {
        lemma_div_by_multiple(loudness, u);
        assert(loudness * strength / u == loudness);
    }
}

/// The limited magnitude is bounded by half the scaled input, and by
/// the floor-determined worst case when the divisor is at least the
/// floor.
proof fn lemma_limit_mag_bounds(ax: int, divisor: int, floor: int)
    requires
        0 <= ax,
        1 <= floor <= divisor,
    ensures
        0 <= limit_mag(ax, divisor) <= ax * SAMPLE_UNIT / 2,
        limit_mag(ax, divisor) <= ax * SAMPLE_UNIT / floor / 2,
{
    let u = SAMPLE_UNIT as int;
    lemma_mul_nonnegative(ax, u);
    lemma_div_pos_is_pos(ax * u, divisor);
    lemma_div_pos_is_pos(ax * u / divisor, 2);
    lemma_div_nonincreasing(ax * u, divisor);
    lemma_div_is_ordered(ax * u / divisor, ax * u, 2);
    lemma_div_is_ordered_by_denominator(ax * u, floor, divisor);
    lemma_div_is_ordered(ax * u / divisor, ax * u / floor, 2);
}

} // verus!
