//! The pre-render ring buffer: a fixed block of interleaved stereo
//! samples shared between the producer (which renders audio ahead of
//! real time) and the consumer (the audio callback), coordinated by two
//! monotonically increasing frame cursors.

use vstd::prelude::*;

verus! {

use vstd::arithmetic::div_mod::{
    lemma_small_mod, lemma_mod_add_multiples_vanish, lemma_mod_sub_multiples_vanish,
    lemma_div_is_ordered, lemma_div_pos_is_pos,
};

/// An abstract move of one of the two ring-buffer cursors: the producer
/// advancing `write_pos`, or the consumer advancing `read_pos`.
pub enum CursorOp {
    /// The producer advances `write_pos` by `frames`.
    Produce { frames: int },
    /// The consumer advances `read_pos` by `frames`.
    Consume { frames: int },
}

/// The cursor pair after one abstract move.
pub open spec fn cursors_after(read: int, write: int, op: CursorOp) -> (int, int) {
    match op {
        CursorOp::Produce { frames } => (read, write + frames),
        CursorOp::Consume { frames } => (read + frames, write),
    }
}

/// Producer discipline: a write never advances past the look-ahead cap
/// `read + half`.  Consumer moves are unconstrained here — the consumer
/// advances by its full block size even on underrun.
pub open spec fn op_within_cap(read: int, write: int, half: int, op: CursorOp) -> bool {
    match op {
        CursorOp::Produce { frames } => 0 <= frames && write + frames <= read + half,
        CursorOp::Consume { frames } => 0 <= frames,
    }
}

/// A whole sequence of moves respects the producer discipline, each in
/// the state reached by the moves before it.
pub open spec fn ops_within_cap(read: int, write: int, half: int, ops: Seq<CursorOp>) -> bool
    decreases ops.len(),
{
    ops.len() == 0 || {
        &&& op_within_cap(read, write, half, ops[0])
        &&& {
            let (r2, w2) = cursors_after(read, write, ops[0]);
            ops_within_cap(r2, w2, half, ops.drop_first())
        }
    }
}

/// Additionally, every consumer move stays within the audio already
/// produced (no read past the write cursor).
pub open spec fn ops_conservative(read: int, write: int, half: int, ops: Seq<CursorOp>) -> bool
    decreases ops.len(),
{
    ops.len() == 0 || {
        &&& op_within_cap(read, write, half, ops[0])
        &&& (ops[0] matches CursorOp::Consume { frames } ==> read + frames <= write)
        &&& {
            let (r2, w2) = cursors_after(read, write, ops[0]);
            ops_conservative(r2, w2, half, ops.drop_first())
        }
    }
}

/// The cursor pair after a whole sequence of moves.
pub open spec fn cursors_after_ops(read: int, write: int, ops: Seq<CursorOp>) -> (int, int)
    decreases ops.len(),
{
    if ops.len() == 0 {
        (read, write)
    } else {
        let (r2, w2) = cursors_after(read, write, ops[0]);
        cursors_after_ops(r2, w2, ops.drop_first())
    }
}

/// Ring-buffer cursor law, look-ahead half: under the producer
/// discipline alone, `write_pos - read_pos` never exceeds the cap, for
/// any interleaving of producer writes and consumer reads, and both
/// cursors only ever move forward.
pub proof fn lemma_lookahead_cap(read: int, write: int, half: int, ops: Seq<CursorOp>)
    requires
        write <= read + half,
        ops_within_cap(read, write, half, ops),
    ensures
        ({
            let (r2, w2) = cursors_after_ops(read, write, ops);
            r2 >= read && w2 >= write && w2 <= r2 + half
        }),
    decreases ops.len(),
{
    if ops.len() > 0 {
        let (r2, w2) = cursors_after(read, write, ops[0]);
        lemma_lookahead_cap(r2, w2, half, ops.drop_first());
    }
}

/// Ring-buffer cursor law, no overrun: if in addition every consumer
/// read stays within the produced audio, the run-ahead
/// `write_pos - read_pos` also never goes negative.
pub proof fn lemma_no_overrun(read: int, write: int, half: int, ops: Seq<CursorOp>)
    requires
        read <= write <= read + half,
        ops_conservative(read, write, half, ops),
    ensures
        ({
            let (r2, w2) = cursors_after_ops(read, write, ops);
            read <= r2 <= w2 <= r2 + half && write <= w2
        }),
    decreases ops.len(),
{
    if ops.len() > 0 {
        let (r2, w2) = cursors_after(read, write, ops[0]);
        lemma_ops_conservative_within_cap(r2, w2, half, ops.drop_first());
        lemma_no_overrun(r2, w2, half, ops.drop_first());
    }
}

/// Conservative sequences are in particular within the cap.
proof fn lemma_ops_conservative_within_cap(read: int, write: int, half: int, ops: Seq<CursorOp>)
    requires
        ops_conservative(read, write, half, ops),
    ensures
        ops_within_cap(read, write, half, ops),
    decreases ops.len(),
{
    if ops.len() > 0 {
        let (r2, w2) = cursors_after(read, write, ops[0]);
        lemma_ops_conservative_within_cap(r2, w2, half, ops.drop_first());
    }
}

/// Facts about a window of `len` consecutive modular positions starting
/// at physical index `s0`: the `k`-th position of the window is
/// `(s0 + k) % len`, and that correspondence is a bijection.
proof fn lemma_window_index(s0: int, k: int, len: int)
    requires
        0 <= s0 < len,
        0 <= k < len,
    ensures
        0 <= (s0 + k) % len < len,
        ((s0 + k) % len - s0) % len == k,
        forall|j: int| 0 <= j < len && #[trigger] ((j - s0) % len) == k ==> j == (s0 + k) % len,
{
    if s0 + k < len {
        lemma_small_mod((s0 + k) as nat, len as nat);
    } else {
        lemma_mod_sub_multiples_vanish(s0 + k, len);
        lemma_small_mod((s0 + k - len) as nat, len as nat);
    }
    let idx = (s0 + k) % len;
    if idx >= s0 {
        lemma_small_mod((idx - s0) as nat, len as nat);
    } else {
        lemma_mod_add_multiples_vanish(idx - s0, len);
        lemma_small_mod((idx - s0 + len) as nat, len as nat);
    }
    assert forall|j: int| 0 <= j < len && #[trigger] ((j - s0) % len) == k implies j == (s0 + k)
        % len by {
        if j >= s0 {
            lemma_small_mod((j - s0) as nat, len as nat);
        } else {
            lemma_mod_add_multiples_vanish(j - s0, len);
            lemma_small_mod((j - s0 + len) as nat, len as nat);
        }
    }
}

/// Interleaved samples per stereo frame.
pub const CHANNELS: usize = 2;

/// Pre-rendered audio storage plus the two frame cursors.
///
/// Samples are stored in decimal fixed point (see `crate::limiter`), one
/// frame being two consecutive samples.  The physical position of frame
/// cursor `c` is `(c % frame_capacity) * 2`.
pub struct PrerenderBuffer {
    /// Interleaved stereo sample storage; its length is fixed at
    /// construction and always even.
    pub audio_buffer: Vec<i64>,
    /// Frames consumed so far; owned by the consumer, monotonic.
    pub read_pos: u64,
    /// Frames produced so far; owned by the producer, monotonic.
    pub write_pos: u64,
    /// Frames per second of the audio device.
    pub sample_rate: u32,
}

impl PrerenderBuffer {
    /// Number of whole stereo frames the storage can hold.
    pub open spec fn frame_capacity(self) -> int {
        self.audio_buffer.len() as int / 2
    }

    /// The look-ahead cap: the producer may run at most this many frames
    /// ahead of the consumer.
    pub open spec fn half_capacity(self) -> int {
        self.frame_capacity() / 2
    }

    /// Well-formedness: even, non-trivial storage, and the producer
    /// within the look-ahead cap.  The read cursor may temporarily
    /// overtake the write cursor after an underrun, so no lower bound on
    /// `write_pos - read_pos` is part of the invariant.
    pub open spec fn wf(self) -> bool {
        &&& self.audio_buffer.len() % 2 == 0
        &&& 4 <= self.audio_buffer.len()
        &&& 2 * self.audio_buffer.len() <= usize::MAX
        &&& self.write_pos <= self.read_pos + self.half_capacity()
    }

    /// Physical sample index of sample `k` of the frame window starting
    /// at frame cursor `cursor`.
    pub open spec fn storage_index(self, cursor: int, k: int) -> int {
        ((cursor % self.frame_capacity()) * 2 + k) % (self.audio_buffer.len() as int)
    }

    /// Allocates `buffer_seconds * sample_rate` frames of silence.
    pub fn new(buffer_seconds: u32, sample_rate: u32) -> (r: Self)
        requires
            1 <= buffer_seconds,
            1 <= sample_rate,
            2 <= buffer_seconds * sample_rate,
            4 * (buffer_seconds * sample_rate) <= usize::MAX,
        ensures
            r.wf(),
            r.read_pos == 0,
            r.write_pos == 0,
            r.sample_rate == sample_rate,
            r.frame_capacity() == buffer_seconds * sample_rate,
            forall|k: int| 0 <= k < r.audio_buffer.len() ==> r.audio_buffer[k] == 0,
    {
        let frames: usize = (buffer_seconds as usize) * (sample_rate as usize);
        let samples: Vec<i64> = vec![0i64; CHANNELS * frames];
        PrerenderBuffer {
            audio_buffer: samples,
            read_pos: 0,
            write_pos: 0,
            sample_rate,
        }
    }

    /// The adaptive note-skipping threshold as a function of the two
    /// cursors: a note is rendered only if its velocity is at least this
    /// value.  The more audio is buffered ahead, the lower the bar.
    pub open spec fn skip_threshold(write_pos: int, read_pos: int) -> int {
        if write_pos <= read_pos {
            127
        } else {
            let d = 127 + 10 - (write_pos - read_pos) / 100;
            if d > 127 {
                127
            } else if d < 0 {
                0
            } else {
                d
            }
        }
    }

    /// Frames already produced but not yet consumed; zero while the
    /// read cursor has overtaken the write cursor after an underrun.
    pub open spec fn available_frames(self) -> int {
        if self.write_pos >= self.read_pos {
            self.write_pos - self.read_pos
        } else {
            0
        }
    }

    /// Copies `count` pre-rendered frames into the storage window that
    /// starts at frame cursor `start`, wrapping past the physical end of
    /// the storage.  Cursors are not touched; the producer advances
    /// `write_pos` separately once the copy is in place.
    pub fn write_wrapped(&mut self, source: &Vec<i64>, start: u64, count: usize)
        requires
            old(self).wf(),
            source.len() == 2 * count,
            2 * count <= old(self).audio_buffer.len(),
        ensures
            final(self).wf(),
            final(self).read_pos == old(self).read_pos,
            final(self).write_pos == old(self).write_pos,
            final(self).sample_rate == old(self).sample_rate,
            final(self).audio_buffer.len() == old(self).audio_buffer.len(),
            forall|j: int|
                0 <= j < final(self).audio_buffer.len() ==> final(self).audio_buffer[j] == {
                    let s0 = (start as int % old(self).frame_capacity()) * 2;
                    let k = (j - s0) % (final(self).audio_buffer.len() as int);
                    if k < 2 * count {
                        source[k]
                    } else {
                        old(self).audio_buffer[j]
                    }
                },
    {
        let len: usize = self.audio_buffer.len();
        let cap: usize = len / 2;
        let s0: usize = ((start % (cap as u64)) as usize) * 2;
        assert(s0 < len);
        let ghost old_buf = self.audio_buffer@;
        let mut k: usize = 0;
        while k < 2 * count
            invariant
                old(self).wf(),
                2 * count <= len,
                2 * len <= usize::MAX,
                len == self.audio_buffer.len(),
                len == old_buf.len(),
                cap == len / 2,
                s0 == (start as int % old(self).frame_capacity()) * 2,
                0 <= s0 < len,
                k <= 2 * count,
                source.len() == 2 * count,
                self.read_pos == old(self).read_pos,
                self.write_pos == old(self).write_pos,
                self.sample_rate == old(self).sample_rate,
                forall|j: int|
                    0 <= j < len ==> self.audio_buffer[j] == {
                        let w = (j - s0) % (len as int);
                        if w < k {
                            source@[w]
                        } else {
                            old_buf[j]
                        }
                    },
            decreases 2 * count - k,
        {
            proof {
                lemma_window_index(s0 as int, k as int, len as int);
            }
            let idx: usize = (s0 + k) % len;
            let value: i64 = source[k];
            self.audio_buffer.set(idx, value);
            k = k + 1;
        }
    }

    /// The consumer's block read.  Returns `count` samples: as much
    /// already-produced audio as is available, zero-filled past the
    /// write cursor (an underrun degrades to silence, it never fails),
    /// then advances the read cursor by the full requested frame count
    /// regardless of how much was available.  While a reset is in
    /// flight the block is all silence and the cursor does not move.
    pub fn read_block(&mut self, count: usize, reset_in_flight: bool) -> (out: Vec<i64>)
        requires
            old(self).wf(),
            count % 2 == 0,
            count <= usize::MAX - old(self).audio_buffer.len(),
            old(self).read_pos + count / 2 <= u64::MAX,
        ensures
            final(self).wf(),
            out.len() == count,
            final(self).audio_buffer == old(self).audio_buffer,
            final(self).write_pos == old(self).write_pos,
            final(self).sample_rate == old(self).sample_rate,
            reset_in_flight ==> final(self).read_pos == old(self).read_pos,
            reset_in_flight ==> forall|k: int| 0 <= k < count ==> out[k] == 0,
            !reset_in_flight ==> final(self).read_pos == old(self).read_pos + count / 2,
            !reset_in_flight ==> {
                let copied = 2 * (if old(self).available_frames() < count as int / 2 {
                    old(self).available_frames()
                } else {
                    count as int / 2
                });
                forall|k: int|
                    0 <= k < count ==> out[k] == (if k < copied {
                        old(self).audio_buffer[old(self).storage_index(
                            old(self).read_pos as int,
                            k,
                        )]
                    } else {
                        0
                    })
            },
    {
        if reset_in_flight {
            let out: Vec<i64> = vec![0i64; count];
            return out;
        }
        let frames: usize = count / 2;
        let len: usize = self.audio_buffer.len();
        let cap: usize = len / 2;
        let avail64: u64 = if self.write_pos >= self.read_pos {
            self.write_pos - self.read_pos
        } else {
            0
        };
        let copy_frames: usize = if avail64 >= frames as u64 {
            frames
        } else {
            avail64 as usize
        };
        let rp: usize = (self.read_pos % (cap as u64)) as usize;
        let mut out: Vec<i64> = Vec::new();
        let mut k: usize = 0;
        while k < 2 * copy_frames
            invariant
                self == old(self),
                self.wf(),
                len == self.audio_buffer.len(),
                cap == len / 2,
                rp == self.read_pos as int % self.frame_capacity(),
                0 <= rp < cap,
                2 * copy_frames <= len,
                2 * copy_frames <= count,
                count <= usize::MAX - len,
                copy_frames as int == (if self.available_frames() < count as int / 2 {
                    self.available_frames()
                } else {
                    count as int / 2
                }),
                k <= 2 * copy_frames,
                out.len() == k,
                forall|j: int|
                    0 <= j < k ==> out[j] == self.audio_buffer[self.storage_index(
                        self.read_pos as int,
                        j,
                    )],
            decreases 2 * copy_frames - k,
        {
            let idx: usize = (rp * 2 + k) % len;
            let sample: i64 = self.audio_buffer[idx];
            out.push(sample);
            k = k + 1;
        }
        while k < count
            invariant
                self == old(self),
                self.wf(),
                2 * copy_frames <= count,
                copy_frames as int == (if self.available_frames() < count as int / 2 {
                    self.available_frames()
                } else {
                    count as int / 2
                }),
                2 * copy_frames <= k <= count,
                out.len() == k,
                forall|j: int|
                    0 <= j < k ==> out[j] == (if j < 2 * copy_frames {
                        self.audio_buffer[self.storage_index(self.read_pos as int, j)]
                    } else {
                        0
                    }),
            decreases count - k,
        {
            out.push(0i64);
            k = k + 1;
        }
        self.read_pos = self.read_pos + frames as u64;
        out
    }

    /// The skip threshold never leaves `[0, 127]` and never increases as
    /// the run-ahead (`write_pos - read_pos`) grows: the more audio is
    /// already buffered, the lower the velocity bar for rendering a
    /// note.
    pub proof fn lemma_skip_threshold_monotonic(w1: int, r1: int, w2: int, r2: int)
        requires
            w1 - r1 <= w2 - r2,
        ensures
            0 <= Self::skip_threshold(w1, r1) <= 127,
            0 <= Self::skip_threshold(w2, r2) <= 127,
            Self::skip_threshold(w2, r2) <= Self::skip_threshold(w1, r1),
    {
        if r1 < w1 && r2 < w2 {
            lemma_div_is_ordered(w1 - r1, w2 - r2, 100);
            lemma_div_pos_is_pos(w1 - r1, 100);
            lemma_div_pos_is_pos(w2 - r2, 100);
        } else if r2 < w2 {
            lemma_div_pos_is_pos(w2 - r2, 100);
        } else if r1 < w1 {
            lemma_div_pos_is_pos(w1 - r1, 100);
        }
    }

    /// Current note-skipping velocity threshold.
    pub fn get_skipping_velocity(&self) -> (v: u8)
        ensures
            v == Self::skip_threshold(self.write_pos as int, self.read_pos as int),
    {
        if self.write_pos <= self.read_pos {
            127
        } else {
            let run_ahead: u64 = self.write_pos - self.read_pos;
            let q: u64 = run_ahead / 100;
            if q <= 10 {
                127
            } else if q >= 137 {
                0
            } else {
                (137 - q) as u8
            }
        }
    }
}

} // verus!
