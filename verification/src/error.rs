//! The kinds of failure and how each is handled.

use vstd::prelude::*;

verus! {

/// What can go wrong while capturing, rendering and presenting.
#[derive(Clone, Copy, Debug, PartialEq, Eq, Structural)]
pub enum VisualizerError {
    /// No capture device was found, or no stream could be negotiated.
    DeviceUnavailable,
    /// The capture stream reported an error while it was running.
    StreamRuntimeError,
    /// A block of samples or a canvas that cannot be rendered.
    InvalidInput,
    /// The window could not show a frame.
    PresentationFailure,
}

impl VisualizerError {
    /// Whether the process has to end on this error. A missing device and a
    /// failed presentation are fatal; a stream error is only reported, and
    /// invalid input only costs the one render pass.
    pub open spec fn fatal(self) -> bool {
        self is DeviceUnavailable || self is PresentationFailure
    }

    /// Whether the process has to end on this error.
    pub fn is_fatal(&self) -> (b: bool)
        ensures
            b == self.fatal(),
    {
        match self {
            VisualizerError::DeviceUnavailable => true,
            VisualizerError::StreamRuntimeError => false,
            VisualizerError::InvalidInput => false,
            VisualizerError::PresentationFailure => true,
        }
    }
}

/// The exit code the process owes for `outcome`: zero when the window was
/// closed in the ordinary way or the error was not fatal, one otherwise.
pub open spec fn exit_code_of(outcome: Result<(), VisualizerError>) -> i32 {
    match outcome {
        Ok(_) => 0i32,
        Err(e) => if e.fatal() { 1i32 } else { 0i32 },
    }
}

/// The exit code the process owes for `outcome`.
pub fn exit_code(outcome: Result<(), VisualizerError>) -> (code: i32)
    ensures
        code == exit_code_of(outcome),
{
    match outcome {
        Ok(_) => 0,
        Err(e) => if e.is_fatal() { 1 } else { 0 },
    }
}

} // verus!
