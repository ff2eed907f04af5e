//! Verified core of a wearable pulse sensor.
//!
//! The crate holds the parts of the device that decide: the ring buffer of
//! recent samples, the two beat detectors that work on a stream, the search
//! for heartbeats in a window, the heart rate and the band it must lie in,
//! and the rules of the control channel, of the firmware download and of the
//! status record. It reads no sensor, no clock and no socket, and it does no
//! floating-point arithmetic: the caller filters and measures, and tells the
//! library what it found.
//!
//! - [`circ`]: the ring buffer.
//! - [`adaptive`]: beat detection on raw samples with an adaptive threshold.
//! - [`pulse_sensor`]: beat detection on the slope of the filtered signal.
//! - [`signal`]: heartbeats in a window, from the signs of its differences.
//! - [`batch`]: from the heartbeats of a window to a rate.
//! - [`bpm`]: rates, bands and the estimate kept between passes.
//! - [`command`], [`ota`], [`status`]: the device around the engine.

pub mod adaptive;
pub mod batch;
pub mod bpm;
pub mod circ;
pub mod command;
pub mod ota;
pub mod pulse_sensor;
pub mod signal;
pub mod status;
