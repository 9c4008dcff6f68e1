//! Real-time voice pipeline: the integer side of the audio-processing graph.
//!
//! Sample arithmetic (filters, echo cancellation, denoising) runs on floats
//! and lives with the program around this library. What is verified here:
//! how many frames each stage of the graph moves, sweep by sweep until no
//! stage can run, and what that does
//! to the internal rings (`scheduler`), the echo canceller's divergence guard
//! (`aec_guard`), the slot bookkeeping of the partitioned echo canceller
//! (`partition`), the render callback's channel spreading (`render`), the
//! decoder's command handling, the choice of device configuration and the
//! error types (`engine`, `device`, `error`).
pub mod constant;
pub mod error;
pub mod engine;
pub mod device;
pub mod aec_guard;
pub mod scheduler;
pub mod partition;
pub mod render;
