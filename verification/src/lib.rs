//! Rasterising blocks of audio samples into a shared pixel canvas.
//!
//! The crate turns a block of amplitude samples into a smoothed waveform
//! drawn on a row-major canvas of packed RGB pixels, and offers a frame
//! buffer through which a producer and a consumer share that canvas.

pub mod raster;
pub mod disc;
pub mod error;
pub mod render;
pub mod canvas;
pub mod frame_buffer;
