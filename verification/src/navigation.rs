//! Piano-roll navigation: the visible window over keys and ticks, and
//! the clamping rules for panning and zooming.  Positions and zoom
//! spans are kept in thousandths (milli-keys and milli-ticks); the
//! caller turns a wheel movement into a signed milli-unit delta or a
//! milli-unit zoom factor.

use vstd::prelude::*;

verus! {

use vstd::arithmetic::mul::lemma_mul_upper_bound;

/// The whole keyboard, in milli-keys.
pub const KEY_SPAN: u32 = 128_000;

/// Narrowest key window, in milli-keys (one octave).
pub const ZOOM_KEYS_MIN: u32 = 12_000;

/// Narrowest tick window, in milli-ticks.
pub const ZOOM_TICKS_MIN: u64 = 10_000;

/// Widest tick window, in milli-ticks.
pub const ZOOM_TICKS_MAX: u64 = 384_000_000;

/// Largest accepted wheel delta, in milli-units.
pub const SCROLL_LIMIT: i64 = 1_000_000;

/// Largest accepted zoom factor, in thousandths.
pub const FACTOR_LIMIT: u32 = 1_000_000;

/// The visible window of the piano roll.
pub struct Navigation {
    /// Left edge, in milli-ticks.
    pub tick_pos: u64,
    /// Bottom key, in milli-keys.
    pub key_pos: u32,
    /// Window width, in milli-ticks.
    pub zoom_ticks: u64,
    /// Window height, in milli-keys.
    pub zoom_keys: u32,
}

/// A wheel delta scaled to the current zoom: `scroll_md / 1000` wheel
/// units, each worth `span / per` window units, truncated toward zero
/// as the executable integer division does.
pub open spec fn wheel_shift(scroll_md: int, span: int, per: int) -> int {
    if scroll_md >= 0 {
        scroll_md * span / per / 1000
    } else {
        -((-scroll_md) * span / per / 1000)
    }
}

/// Clamp helper for the key window.
pub open spec fn clamp_key_pos(v: int, zoom_keys: int) -> int {
    if v < 0 {
        0
    } else if v + zoom_keys > KEY_SPAN {
        KEY_SPAN - zoom_keys
    } else {
        v
    }
}

impl Navigation {
    /// The window fits the keyboard and both zooms are within range.
    pub open spec fn wf(self) -> bool {
        &&& ZOOM_KEYS_MIN <= self.zoom_keys <= KEY_SPAN
        &&& self.key_pos + self.zoom_keys <= KEY_SPAN
        &&& ZOOM_TICKS_MIN <= self.zoom_ticks <= ZOOM_TICKS_MAX
    }

    /// The default window: four bars wide, the full 88 keys from A0.
    pub fn new() -> (r: Self)
        ensures
            r.wf(),
            r.tick_pos == 0,
            r.key_pos == 21_000,
            r.zoom_ticks == 7_680_000,
            r.zoom_keys == 88_000,
    {
        Navigation { tick_pos: 0, key_pos: 21_000, zoom_ticks: 7_680_000, zoom_keys: 88_000 }
    }

    /// Moves the left edge to `tick_pos`.
    pub fn change_tick_pos(&mut self, tick_pos: u64)
        ensures
            final(self).tick_pos == tick_pos,
            final(self).key_pos == old(self).key_pos,
            final(self).zoom_ticks == old(self).zoom_ticks,
            final(self).zoom_keys == old(self).zoom_keys,
    {
        self.tick_pos = tick_pos;
    }

    /// Pans the key window by a wheel delta scaled to the current key
    /// zoom, clamped to the keyboard.
    pub fn pan_keys(&mut self, scroll_md: i64)
        requires
            old(self).wf(),
            -SCROLL_LIMIT <= scroll_md <= SCROLL_LIMIT,
        ensures
            final(self).wf(),
            final(self).tick_pos == old(self).tick_pos,
            final(self).zoom_ticks == old(self).zoom_ticks,
            final(self).zoom_keys == old(self).zoom_keys,
            final(self).key_pos == clamp_key_pos(
                old(self).key_pos + wheel_shift(scroll_md as int, old(self).zoom_keys as int, 128),
                old(self).zoom_keys as int,
            ),
    {
        let magnitude: u64 = if scroll_md >= 0 {
            scroll_md as u64
        } else {
            (-scroll_md) as u64
        };
        proof {
            lemma_mul_upper_bound(magnitude as int, SCROLL_LIMIT as int, self.zoom_keys as int,
                KEY_SPAN as int);
        }
        let scaled: u64 = magnitude * (self.zoom_keys as u64) / 128 / 1000;
        let shift: i64 = if scroll_md >= 0 {
            scaled as i64
        } else {
            -(scaled as i64)
        };
        let raw: i64 = (self.key_pos as i64) + shift;
        let zoom: i64 = self.zoom_keys as i64;
        self.key_pos = if raw < 0 {
            0
        } else if raw + zoom > KEY_SPAN as i64 {
            KEY_SPAN - self.zoom_keys
        } else {
            raw as u32
        };
    }

    /// Pans the tick window by a wheel delta scaled to the current tick
    /// zoom over the project resolution, clamped at zero.
    pub fn pan_ticks(&mut self, scroll_md: i64, ppq: u16)
        requires
            old(self).wf(),
            1 <= ppq,
            -SCROLL_LIMIT <= scroll_md <= SCROLL_LIMIT,
            old(self).tick_pos + wheel_shift(scroll_md as int, old(self).zoom_ticks as int,
                ppq as int) <= u64::MAX,
        ensures
            final(self).wf(),
            final(self).key_pos == old(self).key_pos,
            final(self).zoom_ticks == old(self).zoom_ticks,
            final(self).zoom_keys == old(self).zoom_keys,
            final(self).tick_pos == ({
                let moved = old(self).tick_pos + wheel_shift(
                    scroll_md as int,
                    old(self).zoom_ticks as int,
                    ppq as int,
                );
                if moved < 0 {
                    0
                } else {
                    moved
                }
            }),
    {
        let magnitude: u64 = if scroll_md >= 0 {
            scroll_md as u64
        } else {
            (-scroll_md) as u64
        };
        proof {
            lemma_mul_upper_bound(magnitude as int, SCROLL_LIMIT as int, self.zoom_ticks as int,
                ZOOM_TICKS_MAX as int);
        }
        let scaled: u64 = magnitude * self.zoom_ticks / (ppq as u64) / 1000;
        let moved: i128 = (self.tick_pos as i128) + (if scroll_md >= 0 {
            scaled as i128
        } else {
            -(scaled as i128)
        });
        self.tick_pos = if moved < 0 {
            0
        } else {
            moved as u64
        };
    }

    /// Scales the key window by a factor in thousandths, keeps it
    /// within range, and pulls the window back under the top of the
    /// keyboard if the growth pushed it past.
    pub fn zoom_keys_by(&mut self, factor_milli: u32)
        requires
            old(self).wf(),
            1 <= factor_milli <= FACTOR_LIMIT,
        ensures
            final(self).wf(),
            final(self).tick_pos == old(self).tick_pos,
            final(self).zoom_ticks == old(self).zoom_ticks,
            ({
                let scaled = old(self).zoom_keys * factor_milli / 1000;
                let zoomed: int = if scaled < ZOOM_KEYS_MIN {
                    ZOOM_KEYS_MIN as int
                } else if scaled > KEY_SPAN {
                    KEY_SPAN as int
                } else {
                    scaled
                };
                &&& final(self).zoom_keys == zoomed
                &&& final(self).key_pos == ({
                    let corrected: int = if old(self).key_pos + zoomed > KEY_SPAN {
                        old(self).key_pos - (zoomed - old(self).zoom_keys)
                    } else {
                        old(self).key_pos as int
                    };
                    if corrected < 0 {
                        0
                    } else {
                        corrected
                    }
                })
            }),
    {
        let old_zoom: u32 = self.zoom_keys;
        proof {
            lemma_mul_upper_bound(self.zoom_keys as int, KEY_SPAN as int, factor_milli as int,
                FACTOR_LIMIT as int);
        }
        let scaled64: u64 = (self.zoom_keys as u64) * (factor_milli as u64) / 1000;
        let mut zoomed: u32 = if scaled64 < ZOOM_KEYS_MIN as u64 {
            ZOOM_KEYS_MIN
        } else if scaled64 > KEY_SPAN as u64 {
            KEY_SPAN
        } else {
            scaled64 as u32
        };
        self.zoom_keys = zoomed;
        if self.key_pos + zoomed > KEY_SPAN {
            let corrected: i64 = (self.key_pos as i64) - ((zoomed as i64) - (old_zoom as i64));
            self.key_pos = if corrected < 0 {
                0
            } else {
                corrected as u32
            };
        }
    }

    /// Scales the tick window by a factor in thousandths, kept within
    /// range.
    pub fn zoom_ticks_by(&mut self, factor_milli: u32)
        requires
            old(self).wf(),
            1 <= factor_milli <= FACTOR_LIMIT,
        ensures
            final(self).wf(),
            final(self).tick_pos == old(self).tick_pos,
            final(self).key_pos == old(self).key_pos,
            final(self).zoom_keys == old(self).zoom_keys,
            final(self).zoom_ticks == ({
                let scaled = old(self).zoom_ticks * factor_milli / 1000;
                if scaled < ZOOM_TICKS_MIN {
                    ZOOM_TICKS_MIN as int
                } else if scaled > ZOOM_TICKS_MAX {
                    ZOOM_TICKS_MAX as int
                } else {
                    scaled
                }
            }),
    {
        proof {
            lemma_mul_upper_bound(self.zoom_ticks as int, ZOOM_TICKS_MAX as int,
                factor_milli as int, FACTOR_LIMIT as int);
        }
        let scaled: u64 = self.zoom_ticks * (factor_milli as u64) / 1000;
        self.zoom_ticks = if scaled < ZOOM_TICKS_MIN {
            ZOOM_TICKS_MIN
        } else if scaled > ZOOM_TICKS_MAX {
            ZOOM_TICKS_MAX
        } else {
            scaled
        };
    }
}

} // verus!
