//! What a caller tells the engine: the format of a buffer and the length of the window.

use vstd::prelude::*;

verus! {

/// A sample: a signed fixed-point number whose full scale is the range of `i32`.
pub type Wave = i32;

/// A level: a root mean square of samples, in the unit of the samples. That of a window
/// full of the lowest sample is `2^31`, one more than the highest sample.
pub type Level = u32;

/// The format of one buffer of interleaved samples.
#[derive(Clone, Copy, Debug, PartialEq, Eq, Structural)]
pub struct Settings {
    /// The number of frames per second.
    pub sample_hz: u32,
    /// The number of frames in the buffer.
    pub frames: u16,
    /// The number of channels, that is of samples in a frame.
    pub channels: u16,
}

impl Settings {
    /// The number of samples in a buffer of this format.
    pub open spec fn spec_buffer_size(self) -> int {
        self.frames * self.channels
    }

    /// The number of samples in a buffer of this format.
    pub fn buffer_size(self) -> (n: usize)
        ensures
            n == self.spec_buffer_size(),
    {
        assert(self.frames * self.channels <= 0xFFFF * 0xFFFF) by (nonlinear_arith)
            requires
                self.frames <= 0xFFFF,
                self.channels <= 0xFFFF,
        ;
        self.frames as usize * self.channels as usize
    }
}

/// The length of a window: a number of samples, or a duration that each update turns into
/// a number of samples at the sample rate of its buffer.
#[derive(Clone, Copy, Debug, PartialEq, Eq, Structural)]
pub enum WindowSize {
    /// So many samples, at any sample rate.
    Samples(usize),
    /// So many milliseconds.
    Millis(u64),
    /// So many microseconds, for durations that are no whole number of milliseconds.
    Micros(u64),
}

impl WindowSize {
    /// The number of samples that the window spans at `sample_hz` frames per second. A
    /// duration of `ms` milliseconds spans `ms * sample_hz / 1000` samples, one of `us`
    /// microseconds `us * sample_hz / 1000000`, rounded to the nearest whole number, a half
    /// rounded up.
    pub open spec fn spec_samples(self, sample_hz: u32) -> int {
        match self {
            WindowSize::Samples(n) => n as int,
            WindowSize::Millis(ms) => (ms * sample_hz + 500) / 1000,
            WindowSize::Micros(us) => (us * sample_hz + 500_000) / 1_000_000,
        }
    }

    /// The number of samples that the window spans at `sample_hz` frames per second, or
    /// `None` where that number is more than a `usize` holds.
    pub fn samples(self, sample_hz: u32) -> (n: Option<usize>)
        ensures
            n == if self.spec_samples(sample_hz) <= usize::MAX {
                Some(self.spec_samples(sample_hz) as usize)
            } else {
                None
            },
    {
        match self {
            WindowSize::Samples(n) => Some(n),
            WindowSize::Millis(ms) => {
                assert(ms * sample_hz <= 0xFFFF_FFFF_FFFF_FFFF * 0xFFFF_FFFF) by (nonlinear_arith)
                    requires
                        ms <= 0xFFFF_FFFF_FFFF_FFFF,
                        sample_hz <= 0xFFFF_FFFF,
                ;
                let rounded = (ms as u128 * sample_hz as u128 + 500) / 1000;
                if rounded <= usize::MAX as u128 {
                    Some(rounded as usize)
                } else {
                    None
                }
            },
            WindowSize::Micros(us) => {
                assert(us * sample_hz <= 0xFFFF_FFFF_FFFF_FFFF * 0xFFFF_FFFF) by (nonlinear_arith)
                    requires
                        us <= 0xFFFF_FFFF_FFFF_FFFF,
                        sample_hz <= 0xFFFF_FFFF,
                ;
                let rounded = (us as u128 * sample_hz as u128 + 500_000) / 1_000_000;
                if rounded <= usize::MAX as u128 {
                    Some(rounded as usize)
                } else {
                    None
                }
            },
        }
    }
}

/// Why an update was refused.
#[derive(Clone, Copy, Debug, PartialEq, Eq, Structural)]
pub enum RmsError {
    /// The buffer does not hold one sample for each channel of each frame.
    BufferMismatch,
    /// The window spans more samples at this sample rate than a window can hold.
    WindowTooLong,
}

} // verus!
