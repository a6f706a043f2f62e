//! The shared session record: the recording gate, the input accumulation
//! buffer and the resampled scratch buffer, and what a captured block or a
//! control message does to them.
use vstd::prelude::*;
use crate::audio::{
    chunk_output, input_window_size, mixdown, mixdown_spec, process_window, resample_spec,
    window_len,
};

verus! {

/// The `j`-th window of width `w` cut from the front of `total`.
pub open spec fn window_at(total: Seq<i32>, w: int, j: int) -> Seq<i32> {
    total.subrange(j * w, j * w + w)
}

/// The first `m` windows of width `w`, laid end to end.
pub open spec fn joined_windows(total: Seq<i32>, w: int, m: nat) -> Seq<i32>
    decreases m,
{
    if m == 0 {
        Seq::empty()
    } else {
        joined_windows(total, w, (m - 1) as nat) + window_at(total, w, m - 1)
    }
}

/// How many whole windows of width `w` `total` holds.
pub open spec fn window_count(total: Seq<i32>, w: int) -> nat {
    (total.len() as int / w) as nat
}

/// What stays in the buffer once every whole window has been taken.
pub open spec fn remainder(total: Seq<i32>, w: int) -> Seq<i32> {
    total.subrange(window_count(total, w) * w, total.len() as int)
}

proof fn lemma_joined_prefix(total: Seq<i32>, w: int, m: nat)
    requires
        w > 0,
        m * w <= total.len(),
    ensures
        joined_windows(total, w, m) == total.subrange(0, m * w),
    decreases m,
{
    if m > 0 {
        assert((m - 1) * w == m * w - w) by (nonlinear_arith);
        lemma_joined_prefix(total, w, (m - 1) as nat);
        assert(joined_windows(total, w, m) =~= total.subrange(0, m * w));
    } else {
        assert(m * w == 0) by (nonlinear_arith)
            requires m == 0;
        assert(joined_windows(total, w, m) =~= total.subrange(0, m * w));
    }
}

/// Nothing is lost or repeated by windowing: the windows taken, laid end to
/// end, followed by what stays in the buffer, give back the buffer's whole
/// contents, and every window has width `w`.
pub proof fn lemma_windowing_conservation(total: Seq<i32>, w: int)
    requires
        w > 0,
    ensures
        joined_windows(total, w, window_count(total, w)) + remainder(total, w) == total,
        total.len() == window_count(total, w) * w + remainder(total, w).len(),
        forall|j: int| 0 <= j < window_count(total, w) ==> #[trigger] window_at(total, w, j).len() == w,
{
    let m = window_count(total, w);
    vstd::arithmetic::div_mod::lemma_fundamental_div_mod(total.len() as int, w);
    assert(m * w <= total.len()) by {
        vstd::arithmetic::div_mod::lemma_mod_bound(total.len() as int, w);
        assert(w * m == m * w) by (nonlinear_arith);
    }
    lemma_joined_prefix(total, w, m);
    assert(joined_windows(total, w, m) + remainder(total, w) =~= total);
    assert forall|j: int| 0 <= j < m implies #[trigger] window_at(total, w, j).len() == w by {
        assert(j * w + w <= m * w) by (nonlinear_arith)
            requires j < m, w > 0;
        assert(0 <= j * w) by (nonlinear_arith)
            requires j >= 0, w > 0;
    }
}

/// A control message from a client. Only `recording_state` messages have an
/// effect; `device_id` is carried but not acted upon.
pub struct ClientMessage {
    pub kind: String,
    pub is_recording: bool,
    pub device_id: String,
}

/// The message kind that switches recording on or off.
pub open spec fn recording_state_kind() -> Seq<char> {
    "recording_state"@
}

pub struct AudioState {
    pub recording: bool,
    /// Mono samples at the input rate, not yet taken as a window.
    pub raw: Vec<i32>,
    /// Resampled samples of the latest window.
    pub scratch: Vec<i32>,
    /// The rate the recognition engine expects, in samples per second.
    pub target_rate: u32,
}

impl AudioState {
    pub open spec fn wf(&self) -> bool {
        self.target_rate > 0
    }

    /// `new` is `old` after the recording flag was set to `on`: turning it off
    /// empties both buffers, turning it on keeps them.
    pub open spec fn recording_set(old: AudioState, new: AudioState, on: bool) -> bool {
        &&& new.recording == on
        &&& new.target_rate == old.target_rate
        &&& if on {
            new.raw@ == old.raw@ && new.scratch@ == old.scratch@
        } else {
            new.raw@.len() == 0 && new.scratch@.len() == 0
        }
    }

    /// Turning recording off and then on again starts from empty buffers.
    pub proof fn lemma_recording_toggle(s0: AudioState, s1: AudioState, s2: AudioState)
        requires
            Self::recording_set(s0, s1, false),
            Self::recording_set(s1, s2, true),
        ensures
            s1.raw@.len() == 0 && s1.scratch@.len() == 0,
            s2.recording,
            s2.raw@.len() == 0 && s2.scratch@.len() == 0,
            s2.target_rate == s0.target_rate,
    {
    }

    /// A session that is not recording, with empty buffers.
    pub fn new(target_rate: u32) -> (r: AudioState)
        requires
            target_rate > 0,
        ensures
            r.wf(),
            !r.recording,
            r.raw@.len() == 0,
            r.scratch@.len() == 0,
            r.target_rate == target_rate,
    {
        AudioState { recording: false, raw: Vec::new(), scratch: Vec::new(), target_rate }
    }

    /// Sets the recording flag; on the way to off, both buffers are emptied
    /// and any partial window is dropped.
    pub fn set_recording(&mut self, on: bool)
        ensures
            Self::recording_set(*old(self), *final(self), on),
    {
        self.recording = on;
        if !on {
            self.raw.clear();
            self.scratch.clear();
        }
    }

    /// Applies a client control message: a `recording_state` message sets the
    /// recording flag, any other kind is ignored.
    pub fn apply_control(&mut self, msg: &ClientMessage)
        ensures
            msg.kind@ == recording_state_kind() ==> Self::recording_set(
                *old(self),
                *final(self),
                msg.is_recording,
            ),
            msg.kind@ != recording_state_kind() ==> *final(self) == *old(self),
    {
        let expected = String::from_str("recording_state");
        proof {
            reveal_strlit("recording_state");
        }
        if msg.kind == expected {
            self.set_recording(msg.is_recording);
        }
    }

    /// Takes one captured block of interleaved samples. While recording, the
    /// block is mixed down and appended to the buffer, and every whole window
    /// of one second at the target rate is taken from the front, resampled
    /// and quantized; the chunks come back in order. While not recording the
    /// block is dropped.
    pub fn process_block(&mut self, data: &[i32], channels: u16, input_rate: u32) -> (r: Vec<Vec<i16>>)
        requires
            old(self).wf(),
            input_rate > 0,
            input_rate * old(self).target_rate <= usize::MAX,
        ensures
            final(self).wf(),
            !old(self).recording ==> r@.len() == 0 && *final(self) == *old(self),
            old(self).recording ==> ({
                let total = old(self).raw@ + mixdown_spec(data@, channels);
                let w = window_len(old(self).target_rate as int, input_rate as int);
                let m = window_count(total, w);
                &&& r@.len() == m
                &&& forall|j: int| 0 <= j < m ==> #[trigger] r@[j]@ == chunk_output(
                    window_at(total, w, j),
                    input_rate as int,
                    old(self).target_rate as int,
                )
                &&& final(self).raw@ == remainder(total, w)
                &&& final(self).raw@.len() < w
                &&& final(self).recording == old(self).recording
                &&& final(self).target_rate == old(self).target_rate
                &&& m > 0 ==> final(self).scratch@ == resample_spec(
                    window_at(total, w, m - 1),
                    input_rate as int,
                    old(self).target_rate as int,
                )
                &&& m == 0 ==> final(self).scratch@ == old(self).scratch@
            }),
    {
        let mut chunks: Vec<Vec<i16>> = Vec::new();
        if !self.recording {
            return chunks;
        }
        let ghost total = self.raw@ + mixdown_spec(data@, channels);
        let mut mixed = mixdown(data, channels);
        self.raw.append(&mut mixed);
        let w = input_window_size(self.target_rate, input_rate);
        let tr = self.target_rate;
        let mut off: usize = 0;
        let mut j: usize = 0;
        while self.raw.len() - off >= w
            invariant
                self.raw@ == total,
                self.recording == old(self).recording,
                self.target_rate == tr,
                tr == old(self).target_rate,
                tr > 0,
                w == input_rate,
                input_rate > 0,
                w == window_len(tr as int, input_rate as int),
                w * tr <= usize::MAX,
                off == j * w,
                off <= total.len(),
                chunks@.len() == j,
                forall|i: int| 0 <= i < j ==> #[trigger] chunks@[i]@ == chunk_output(
                    window_at(total, w as int, i),
                    input_rate as int,
                    tr as int,
                ),
                j > 0 ==> self.scratch@ == resample_spec(
                    window_at(total, w as int, j - 1),
                    input_rate as int,
                    tr as int,
                ),
                j == 0 ==> self.scratch@ == old(self).scratch@,
            decreases total.len() - off,
        {
            let window = vstd::slice::slice_subrange(self.raw.as_slice(), off, off + w);
            let (res, q) = process_window(window, input_rate, tr);
            self.scratch = res;
            chunks.push(q);
            off = off + w;
            assert(j < off) by (nonlinear_arith)
                requires off == j * w + w, w > 0, j >= 0;
            j = j + 1;
            assert(off == j * w) by (nonlinear_arith)
                requires off == (j - 1) * w + w;
        }
        proof {
            vstd::arithmetic::div_mod::lemma_fundamental_div_mod_converse(
                total.len() as int,
                w as int,
                j as int,
                total.len() - off,
            );
        }
        let rest = self.raw.split_off(off);
        self.raw = rest;
        chunks
    }
}

} // verus!
