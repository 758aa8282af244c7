//! The audio sink abstraction and the frame-pacing arithmetic.
//!
//! Audio back-pressure, not wall-clock sleep, paces the emulator: while the
//! sink still holds at least two frames' worth of samples, the next `Run`
//! is delayed.  [`AudioPacing`] tracks the sink's occupancy as samples are
//! queued and played, and the ticker asks [`ticker_next`] what to do.

use vstd::prelude::*;

verus! {

/// Describes an audio backend implementation.
#[derive(Debug)]
pub struct AudioBackendInfo {
    pub name: &'static str,
}

/// An audio sink: takes interleaved stereo samples, reports when it has
/// drained below the pacing threshold.
pub trait AudioBackend {
    fn submit_frame(&mut self, frames: &[i16]);

    fn is_done(&self) -> bool;
}

/// The occupancy below which the next frame may run: two frames' worth of
/// samples at a nominal 60 Hz.
pub open spec fn spec_audio_threshold(sample_rate: u32) -> int {
    sample_rate as int / 60 * 2
}

/// Sample attenuation: every sample divided by four, rounding toward zero,
/// exactly as the integer division of the sink's sample type does.
pub open spec fn spec_attenuate_sample(v: i16) -> int {
    if v >= 0 {
        v as int / 4
    } else {
        -((-(v as int)) / 4)
    }
}

/// Attenuates a batch of samples to a quarter of their amplitude.
pub fn attenuate(frames: &[i16]) -> (r: Vec<i16>)
    ensures
        r@.len() == frames@.len(),
        forall|i: int| 0 <= i < frames@.len() ==> r@[i] == spec_attenuate_sample(#[trigger] frames@[i]),
{
    let mut out: Vec<i16> = Vec::new();
    let mut i: usize = 0;
    while i < frames.len()
        invariant
            0 <= i <= frames@.len(),
            out@.len() == i,
            forall|k: int| 0 <= k < i ==> out@[k] == spec_attenuate_sample(#[trigger] frames@[k]),
        decreases frames@.len() - i,
    {
        let v = frames[i] as i32;
        let q: i32 = if v >= 0 {
            v / 4
        } else {
            -((-v) / 4)
        };
        out.push(q as i16);
        i = i + 1;
    }
    out
}

/// The sink occupancy one side tracks: how many samples are queued but not
/// yet played.  The count is signed and can go negative when the device
/// outruns the core.
pub struct AudioPacing {
    pub frames_queued: i64,
    pub sample_rate: u32,
}

impl AudioPacing {
    /// A fresh counter for a sink running at `sample_rate`.
    pub fn new(sample_rate: u32) -> (r: Self)
        ensures
            r.frames_queued == 0,
            r.sample_rate == sample_rate,
    {
        AudioPacing { frames_queued: 0, sample_rate }
    }

    /// Records `count` samples queued to the sink.
    pub fn submit(&mut self, count: usize)
        requires
            count <= i64::MAX,
            old(self).frames_queued + count <= i64::MAX,
        ensures
            final(self).frames_queued == old(self).frames_queued + count,
            final(self).sample_rate == old(self).sample_rate,
    {
        self.frames_queued = self.frames_queued + count as i64;
    }

    /// Records one sample leaving for the device.
    pub fn take_sample(&mut self)
        requires
            old(self).frames_queued > i64::MIN,
        ensures
            final(self).frames_queued == old(self).frames_queued - 1,
            final(self).sample_rate == old(self).sample_rate,
    {
        self.frames_queued = self.frames_queued - 1;
    }

    /// Whether the sink has drained below the pacing threshold, so the
    /// next frame may run.
    pub fn is_done(&self) -> (r: bool)
        ensures
            r == (self.frames_queued < spec_audio_threshold(self.sample_rate)),
    {
        self.frames_queued < (self.sample_rate as i64) / 60 * 2
    }
}

/// What the frame-pacing ticker does next.
#[derive(Debug, Clone, Copy, PartialEq, Eq, Structural)]
pub enum TickerAction {
    /// Send a blocking `Run` and wait for its response.
    IssueRun,
    /// Wait for the outstanding `Run` to complete.
    AwaitRun,
    /// Sleep briefly and look at the audio sink again.
    Sleep,
    /// Send `Unload` then `Deinit` and exit.
    Shutdown,
}

/// The ticker's decision: shut down when asked; otherwise wait for the
/// outstanding frame, then let audio back-pressure gate the next one.
pub fn ticker_next(stop_requested: bool, run_outstanding: bool, audio_ready: bool) -> (r:
    TickerAction)
    ensures
        stop_requested ==> r == TickerAction::Shutdown,
        !stop_requested && run_outstanding ==> r == TickerAction::AwaitRun,
        !stop_requested && !run_outstanding && !audio_ready ==> r == TickerAction::Sleep,
        !stop_requested && !run_outstanding && audio_ready ==> r == TickerAction::IssueRun,
{
    if stop_requested {
        TickerAction::Shutdown
    } else if run_outstanding {
        TickerAction::AwaitRun
    } else if !audio_ready {
        TickerAction::Sleep
    } else {
        TickerAction::IssueRun
    }
}

} // verus!
