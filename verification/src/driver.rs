use vstd::prelude::*;
use crate::input::Key;

verus! {

/// The signal a driver hands back from a key callback: keep the loop going,
/// or close the window and quit.
#[derive(Clone, Copy, PartialEq, Eq, Structural, Debug)]
pub enum Run {
    Continue,
    Quit,
}

/// The callback surface a host application implements to take part in the
/// event loop. `render` draws one frame. The key callbacks answer with a
/// [`Run`] signal; a driver that does not care about keys answers
/// [`Run::Continue`] in a one-line body and keeps the defaulted models.
///
/// Each key callback carries a specification-level model (`pressed_spec`,
/// `released_spec`) giving the driver state after the call and the signal
/// returned; the loop's own contracts are stated over these models. The
/// models default to the no-op that answers Continue, so an implementer
/// overrides only what it needs.
pub trait Driver: Sized {
    /// Model of [`Self::key_pressed`]: the driver state after the call and
    /// the signal it returns. Defaults to the no-op that answers Continue.
    open spec fn pressed_spec(self, key: Key) -> (Self, Run) {
        (self, Run::Continue)
    }

    /// Model of [`Self::key_released`]: the driver state after the call and
    /// the signal it returns. Defaults to the no-op that answers Continue.
    open spec fn released_spec(self, key: Key) -> (Self, Run) {
        (self, Run::Continue)
    }

    /// Draw one frame.
    fn render(&self);

    /// Called once for every key press drained from the window's queue.
    fn key_pressed(&mut self, key: Key) -> (r: Run)
        ensures
            (*final(self), r) == old(self).pressed_spec(key),
    ;

    /// Called once for every key release or repeat drained from the window's
    /// queue.
    fn key_released(&mut self, key: Key) -> (r: Run)
        ensures
            (*final(self), r) == old(self).released_spec(key),
    ;
}

/// A driver that draws nothing and ignores every key: the simplest possible
/// loop participant. Under it the loop never closes the window.
pub struct IdleDriver;

impl Driver for IdleDriver {
    fn render(&self) {
    }

    fn key_pressed(&mut self, _key: Key) -> (r: Run) {
        Run::Continue
    }

    fn key_released(&mut self, _key: Key) -> (r: Run) {
        Run::Continue
    }
}

/// A driver that asks to quit when a released key counts as Escape, and
/// otherwise keeps the loop going. Its models say exactly that, so the loop
/// contracts expose when this driver closes the window.
pub struct EscapeQuitDriver;

impl Driver for EscapeQuitDriver {
    open spec fn released_spec(self, key: Key) -> (Self, Run) {
        (self, if key.is_escape_spec() { Run::Quit } else { Run::Continue })
    }

    fn render(&self) {
    }

    fn key_pressed(&mut self, _key: Key) -> (r: Run) {
        Run::Continue
    }

    fn key_released(&mut self, key: Key) -> (r: Run) {
        if key.is_escape() {
            return Run::Quit;
        }

        Run::Continue
    }
}

} // verus!
