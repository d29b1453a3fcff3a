//! When the window repaints.

use vstd::prelude::*;

verus! {

/// The window repaints at most once in this many milliseconds.
pub const FRAME_MS: u64 = 16;

/// While connecting, the spinner moves this often.
pub const SPIN_MS: u64 = 60;

/// What the window does before it waits for the next event.
#[derive(Debug, Clone, Copy, PartialEq, Eq, Structural)]
pub enum Pause {
    /// Wait for an event.
    Wait,
    /// Ask for a repaint, then wait for an event.
    Paint,
    /// Ask for a repaint, then wait at most this long.
    PaintAndWait(u64),
    /// Wait at most this long.
    WaitAtMost(u64),
}

/// Holds repaints down to the frame rate. A request that comes too early is put off.
#[derive(Debug, Clone, Copy, PartialEq, Eq, Structural)]
pub struct RepaintCap {
    /// Whether a repaint was put off.
    pub pending: bool,
}

impl RepaintCap {
    pub fn new() -> (c: Self)
        ensures
            !c.pending,
    {
        RepaintCap { pending: false }
    }

    /// A repaint is asked for, `since` milliseconds after the last: whether to paint.
    pub fn request(&mut self, since: u64) -> (paint: bool)
        ensures
            paint == (since >= FRAME_MS),
            final(self).pending == !paint,
    {
        self.pending = since < FRAME_MS;
        !self.pending
    }

    pub open spec fn pause_of(self, painted: bool, closed: bool, since: u64) -> Pause {
        if !painted && !closed {
            Pause::PaintAndWait(SPIN_MS)
        } else if !self.pending {
            Pause::Wait
        } else if since >= FRAME_MS {
            Pause::Paint
        } else {
            Pause::WaitAtMost((FRAME_MS - since) as u64)
        }
    }

    /// What to do before waiting: animate while nothing was painted, and paint what
    /// was put off as soon as its time has come.
    pub fn pause(&self, painted: bool, closed: bool, since: u64) -> (p: Pause)
        ensures
            p == self.pause_of(painted, closed, since),
    {
        if !painted && !closed {
            Pause::PaintAndWait(SPIN_MS)
        } else if !self.pending {
            Pause::Wait
        } else if since >= FRAME_MS {
            Pause::Paint
        } else {
            Pause::WaitAtMost(FRAME_MS - since)
        }
    }
}

/// A repaint that was put off is not lost: the window asks for it once its time has
/// come, and until then sleeps no longer than to that time.
pub proof fn law_deferred_repaints_land(c: RepaintCap, closed: bool, since: u64)
    requires
        c.pending,
    ensures
        since >= FRAME_MS ==> c.pause_of(true, closed, since) == Pause::Paint,
        since < FRAME_MS ==> c.pause_of(true, closed, since) == Pause::WaitAtMost(
            (FRAME_MS - since) as u64,
        ),
{
}

} // verus!
