//! The root-mean-square level of multi-channel, interleaved audio over a sliding window,
//! sample by sample, as buffers arrive.
//!
//! A [`Window`] holds the squares of the newest samples of one channel and their running
//! sum. An [`Rms`] engine holds one window for each channel. Each [`Rms::update`] makes
//! the windows match the format of its buffer, lets every sample into the window of its
//! channel, and stores the level of that window right after the sample, at the sample's
//! place in the buffer.
//!
//! # Numbers
//!
//! Samples are signed fixed-point numbers ([`Wave`]), levels are unsigned numbers in the
//! same unit ([`Level`]). All arithmetic is on integers and exact: a running sum is always
//! the sum of its slots, so it never drifts below zero and is never clamped. A level is
//! the square root of the mean of the squares (not the mean square itself), rounded down
//! to a whole number. A mean is rounded down too.
//!
//! # Resizing
//!
//! A window that shrinks loses its oldest slots. A window that grows gets new slots in
//! front of its oldest, each holding the mean square of the window, so that growing
//! changes neither the mean square nor the level, and the new slots are the first to leave.
//!
//! # Modules
//!
//! - [`math`]: integer square roots, sums and means of sequences.
//! - [`settings`]: the format of a buffer, the length of a window, and why an update can
//!   be refused.
//! - [`window`]: the window of one channel.
//! - [`engine`]: the engine for all channels.
//! - [`laws`]: what holds of windows and engines whatever they are fed.

pub mod engine;
pub mod laws;
pub mod math;
pub mod settings;
pub mod window;

pub use engine::{Rms, RmsView};
pub use settings::{Level, RmsError, Settings, Wave, WindowSize};
pub use window::Window;
