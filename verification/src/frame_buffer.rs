//! The canvas that the capturing side and the displaying side share.
//!
//! One canvas lives behind a lock. Whoever draws holds the lock for one
//! whole pass, and whoever displays holds it for one copy, so that a copy
//! never shows part of one frame and part of another.

use vstd::prelude::*;
use std::sync::{Arc, Mutex, MutexGuard};
use crate::canvas::{holdable, Canvas};
use crate::error::VisualizerError;
use crate::raster::is_canvas;
use crate::render::rendered;

verus! {

/// The lock of the standard library. Nothing is stated of what it holds.
#[verifier::external_type_specification]
#[verifier::external_body]
#[verifier::reject_recursive_types(T)]
pub struct ExMutex<T: ?Sized>(Mutex<T>);

/// The guard that stands for a held lock; the lock is released when the
/// guard goes out of scope.
#[verifier::external_type_specification]
#[verifier::external_body]
#[verifier::reject_recursive_types(T)]
pub struct ExMutexGuard<'a, T: ?Sized + 'a>(MutexGuard<'a, T>);

/// Calls `Mutex::new`: a lock round `value`. Nothing is claimed of the
/// result.
#[verifier::external_body]
fn new_lock<T>(value: T) -> (lock: Mutex<T>) {
    Mutex::new(value)
}

/// Calls `Mutex::lock` and waits until the lock is free. A lock that was
/// poisoned by a holder that unwound is taken all the same. Nothing is
/// claimed of the result.
///
/// The call does not return where the calling thread holds the lock
/// already, and no contract can say so. The module rules it out by how it
/// is built: only `with_write` and `snapshot` ask for the lock, both are
/// done with it before they return, and the code that runs while it is
/// held is the module's own (drawing on the canvas, copying it), which
/// reaches for no frame buffer. No closure of a caller ever runs under the
/// lock.
#[verifier::external_body]
fn acquire<'a, T>(lock: &'a Mutex<T>) -> (guard: MutexGuard<'a, T>) {
    match lock.lock() {
        Ok(guard) => guard,
        Err(poisoned) => poisoned.into_inner(),
    }
}

/// Calls `Deref::deref` of the guard: the value behind the held lock.
/// Nothing is claimed of the result.
#[verifier::external_body]
fn guarded<'a, 'b, T>(guard: &'b MutexGuard<'a, T>) -> (value: &'b T) {
    &**guard
}

/// Calls `DerefMut::deref_mut` of the guard: the value behind the held
/// lock, to be changed in place. Nothing is claimed of the result.
#[verifier::external_body]
fn guarded_mut<'a, 'b, T>(guard: &'b mut MutexGuard<'a, T>) -> (value: &'b mut T) {
    &mut **guard
}

/// What capturing a block of `samples_len` samples on a canvas `width`
/// wide comes to: the block is drawn where there are at least two samples
/// and two columns, and refused as invalid input where not.
pub open spec fn capture_outcome(samples_len: int, width: int) -> Result<(), VisualizerError> {
    if samples_len >= 2 && width >= 2 {
        Ok(())
    } else {
        Err(VisualizerError::InvalidInput)
    }
}

/// A handle on the shared canvas of `W` by `H` pixels. Handles are cloned
/// and passed to the two sides; all of them reach the same canvas.
#[verifier::reject_recursive_types(W)]
#[verifier::reject_recursive_types(H)]
#[derive(Clone)]
pub struct FrameBuffer<const W: usize, const H: usize> {
    shared: Arc<Mutex<Canvas<W, H>>>,
}

impl<const W: usize, const H: usize> FrameBuffer<W, H> {
    /// A frame buffer whose canvas is in the background colour, or nothing
    /// where a canvas of this size cannot be held in memory.
    pub fn new() -> (buffer: Option<Self>)
        ensures
            buffer is Some <==> holdable(W as int, H as int),
    {
        match Canvas::<W, H>::new() {
            Some(canvas) => Some(FrameBuffer { shared: Arc::new(new_lock(canvas)) }),
            None => None,
        }
    }

    /// Runs `f` on the canvas while holding the lock, and hands back what
    /// `f` returns. The lock is released when `f` is done, also when it
    /// unwinds.
    ///
    /// This stays private: `f` runs while the lock is held, so it must not
    /// reach for this frame buffer, or a clone of it, and that can be seen
    /// to only of the closures written in this module.
    fn with_write<R, F: FnOnce(&mut Canvas<W, H>) -> R>(&self, f: F) -> (result: R)
        requires
            forall|canvas: &mut Canvas<W, H>|
                is_canvas(canvas@, W as int, H as int) ==> f.requires((canvas,)),
        ensures
            exists|canvas: &mut Canvas<W, H>|
                is_canvas(canvas@, W as int, H as int) && f.ensures((canvas,), result),
    {
        let mut guard = acquire(&self.shared);
        let canvas = guarded_mut(&mut guard);
        proof {
            use_type_invariant(&*canvas);
        }
        f(canvas)
    }

    /// A copy of the canvas, taken while holding the lock. It is a whole
    /// frame: `W * H` pixels, each in one of the two colours.
    pub fn snapshot(&self) -> (copy: Canvas<W, H>)
        ensures
            is_canvas(copy@, W as int, H as int),
    {
        let guard = acquire(&self.shared);
        let canvas = guarded(&guard);
        let copy = canvas.clone();
        proof {
            use_type_invariant(&copy);
        }
        copy
    }

    /// Draws one block of samples on the shared canvas while holding the
    /// lock. A block that cannot be drawn is reported and costs only this
    /// pass: the canvas then stays as it was.
    pub fn capture(&self, block: &Vec<i32>) -> (result: Result<(), VisualizerError>)
        ensures
            result == capture_outcome(block@.len() as int, W as int),
    {
        let draw = |canvas: &mut Canvas<W, H>| -> (outcome: Result<(), VisualizerError>)
            ensures
                outcome == capture_outcome(block@.len() as int, W as int),
                final(canvas)@ == (if block@.len() >= 2 && W >= 2 {
                    rendered(block@, W as int, H as int)
                } else {
                    old(canvas)@
                }),
            { canvas.render(block) };
        self.with_write(draw)
    }

    /// One turn of the display loop: the frame to present while the window
    /// is open and the cancel key is up, and nothing once the loop has to
    /// end.
    pub fn next_frame(&self, window_open: bool, cancel_pressed: bool) -> (frame: Option<
        Canvas<W, H>,
    >)
        ensures
            frame is Some <==> window_open && !cancel_pressed,
            frame matches Some(copy) ==> is_canvas(copy@, W as int, H as int),
    {
        if window_open && !cancel_pressed {
            Some(self.snapshot())
        } else {
            None
        }
    }
}

} // verus!
