//! A bench core for driving an audio-processing module with synthetic
//! oscillator inputs: the control-plane state, the capture ring and the
//! window arithmetic of the analyzer, with machine-checked contracts.

use vstd::prelude::*;
use crate::scalar::Scalar;

pub mod scalar;
pub mod input;
pub mod output;
pub mod analyze;
pub mod queue;

verus! {

/// Frames held by the capture ring, and the length of the analysis window.
pub const BUFFER_SIZE: usize = 8192;

/// Slots of the command queue and of the event queue.
pub const RINGBUFFER_CAPACITY: usize = 64;

/// The device under test: it takes one frame of inputs and gives one frame
/// of outputs. Nothing is asked of what it computes.
pub trait Module<const IN: usize, const OUT: usize>: Sized {
    /// Takes the frame of freshly synthesized input samples.
    fn map_inputs(&mut self, input_buffer: &[Scalar; IN]);

    /// Writes the next frame of output samples.
    fn map_outputs(&mut self, output_buffer: &mut [Scalar; OUT]);
}

} // verus!
