//! Frame timing: the last frame's delta and a once-a-second frame count.
use vstd::prelude::*;

verus! {

/// One second, in nanoseconds.
pub const NANOS_PER_SECOND: u128 = 1_000_000_000;

/// The longest `std::time::Duration`, in nanoseconds.
pub const MAX_DURATION_NANOS: u128 = 18_446_744_073_709_551_615_999_999_999;

/// Frame timing. Durations are kept in nanoseconds.
pub struct EngineTime {
    frame_count: u32,
    time_acc: u128,
    dt: u128,
}

/// A completed measuring window: this many frames in this much time.
#[derive(Clone, Copy, Debug, PartialEq, Eq)]
pub struct FrameRateSample {
    pub frames: u32,
    pub elapsed_nanos: u128,
}

impl EngineTime {
    pub closed spec fn frame_count_view(&self) -> u32 {
        self.frame_count
    }

    pub closed spec fn time_acc_view(&self) -> u128 {
        self.time_acc
    }

    pub closed spec fn dt_view(&self) -> u128 {
        self.dt
    }

    /// The window being measured is shorter than a second.
    pub closed spec fn wf(&self) -> bool {
        self.time_acc < NANOS_PER_SECOND && self.dt <= MAX_DURATION_NANOS
    }

    pub fn new() -> (r: EngineTime)
        ensures
            r.wf(),
            r.frame_count_view() == 0,
            r.time_acc_view() == 0,
            r.dt_view() == 0,
    {
        EngineTime { frame_count: 0, time_acc: 0, dt: 0 }
    }

    /// The frames recorded in the current measuring window.
    pub fn frame_count(&self) -> (r: u32)
        ensures
            r == self.frame_count_view(),
    {
        self.frame_count
    }

    /// The time recorded in the current measuring window, in nanoseconds.
    pub fn time_acc(&self) -> (r: u128)
        ensures
            r == self.time_acc_view(),
    {
        self.time_acc
    }

    /// Records a frame that took `delta_nanos`. When the frames recorded since the last
    /// sample add up to a second or more, returns them as a sample (from which the caller
    /// may print a frame rate) and starts a new window. The frame count and the window's
    /// time must not overflow, as counting one more frame and adding the delta would.
    pub fn update_time(&mut self, delta_nanos: u128) -> (r: Option<FrameRateSample>)
        requires
            old(self).wf(),
            old(self).frame_count_view() < u32::MAX,
            delta_nanos <= MAX_DURATION_NANOS - old(self).time_acc_view(),
        ensures
            final(self).wf(),
            final(self).time_acc_view() < NANOS_PER_SECOND,
            final(self).dt_view() == delta_nanos,
            ({
                let frames = old(self).frame_count_view() + 1;
                let acc = old(self).time_acc_view() + delta_nanos;
                if acc >= NANOS_PER_SECOND {
                    &&& r == Some(FrameRateSample { frames: frames as u32, elapsed_nanos: acc as u128 })
                    &&& final(self).frame_count_view() == 0
                    &&& final(self).time_acc_view() == 0
                } else {
                    &&& r is None
                    &&& final(self).frame_count_view() == frames
                    &&& final(self).time_acc_view() == acc
                }
            }),
    {
        self.frame_count = self.frame_count + 1;
        self.time_acc = self.time_acc + delta_nanos;
        let r = if self.time_acc >= NANOS_PER_SECOND {
            let sample = FrameRateSample { frames: self.frame_count, elapsed_nanos: self.time_acc };
            self.frame_count = 0;
            self.time_acc = 0;
            Some(sample)
        } else {
            None
        };
        self.dt = delta_nanos;
        r
    }

    /// The last frame's delta, in nanoseconds.
    pub fn dt(&self) -> (r: u128)
        ensures
            r == self.dt_view(),
    {
        self.dt
    }
}

} // verus!
