//! Turns a live stream of audio samples into a bounded history of
//! frequency-band intensities for visualization.
//!
//! Samples enter a bounded `SampleBuffer`; a `Pipeline` takes fixed-size frames
//! out of it, and, once a frame has been windowed and transformed into bin
//! magnitudes, aggregates those into a fixed number of bands and keeps the
//! latest band frames in a `HistoryBuffer`.
pub mod analysis;
pub mod bands;
pub mod history;
pub mod pipeline;
pub mod recent;
pub mod sample_buffer;
