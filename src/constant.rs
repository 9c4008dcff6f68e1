use vstd::prelude::*;

verus! {

/// Sample rate of every stream in the graph, in hertz.
pub const SAMPLE_RATE: u32 = 48000;

/// Samples in one 20 ms codec frame at `SAMPLE_RATE`.
pub const FRAME_SIZE: usize = 960;

/// Capacity of a ring that carries codec frames.
pub const RB_SIZE: usize = FRAME_SIZE * 4;

/// Samples in one echo-canceller block.
pub const AEC_FRAME_SIZE: usize = 512;

/// FFT length of the overlap-save echo canceller.
pub const AEC_FFT_SIZE: usize = AEC_FRAME_SIZE * 2;

/// Samples in 10 ms at `SAMPLE_RATE`.
pub const FRAME10MS: usize = 480;

/// Samples in 20 ms at `SAMPLE_RATE`.
pub const FRAME20MS: usize = 960;

} // verus!
