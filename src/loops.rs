//! The render loop's state machine.
//!
//! A loop owns a frame tree and decides, cycle by cycle, whether to go on,
//! how long to pause, which codes erase the previous drawing and what to
//! draw next. Sleeping, locking and writing are left to the caller, which
//! hands the loop the facts it cannot see (whether anyone else still holds
//! the loop) and writes out what the loop returns.
use vstd::prelude::*;

use std::time::Duration;

use crate::Frames;

verus! {

/// The loop's state: its flags, its timing, and the frames it draws.
pub struct Loop<F: Frames> {
    running: bool,
    stop: bool,
    auto_stop: bool,
    reset: bool,
    delay: Duration,
    wait: Option<Duration>,
    drawn: Option<String>,
    frames: F,
}

/// What one cycle writes: first the codes that erase the previous drawing,
/// then the new drawing.
pub struct Drawing {
    pub clear: String,
    pub text: String,
}

/// The text of a string, if there is one, else nothing.
pub open spec fn text_or_empty(s: Option<Seq<char>>) -> Seq<char> {
    match s {
        Some(t) => t,
        None => Seq::empty(),
    }
}

impl<F: Frames> Loop<F> {
    /// A drive cycle is under way.
    pub closed spec fn is_running(&self) -> bool {
        self.running
    }

    /// A stop was asked for and not yet seen.
    pub closed spec fn stop_requested(&self) -> bool {
        self.stop
    }

    /// The loop stops by itself once nobody else holds it.
    pub closed spec fn auto_stop_enabled(&self) -> bool {
        self.auto_stop
    }

    /// The next cycle resets the frames instead of erasing them.
    pub closed spec fn reset_requested(&self) -> bool {
        self.reset
    }

    /// The pause after each cycle.
    pub closed spec fn interval(&self) -> Duration {
        self.delay
    }

    /// A one-off pause before the next cycle.
    pub closed spec fn pending_wait(&self) -> Option<Duration> {
        self.wait
    }

    /// The codes that erase the last drawing of this run, if there was one.
    pub closed spec fn drawn_erase(&self) -> Option<Seq<char>> {
        match self.drawn {
            Some(s) => Some(s@),
            None => None,
        }
    }

    /// The frames.
    pub closed spec fn frames_view(&self) -> F {
        self.frames
    }

    /// The frames are well formed.
    pub open spec fn wf(&self) -> bool {
        self.frames_view().inv()
    }

    /// Creates a stopped loop that draws `frames` every `interval`, with
    /// auto-stop on.
    pub fn new(interval: Duration, frames: F) -> (r: Self)
        ensures
            !r.is_running(),
            !r.stop_requested(),
            r.auto_stop_enabled(),
            !r.reset_requested(),
            r.interval() == interval,
            r.pending_wait() is None,
            r.drawn_erase() is None,
            r.frames_view() == frames,
    {
        Loop {
            running: false,
            stop: false,
            auto_stop: true,
            reset: false,
            delay: interval,
            wait: None,
            drawn: None,
            frames,
        }
    }

    /// Whether a drive cycle is under way.
    pub fn running(&self) -> (r: bool)
        ensures
            r == self.is_running(),
    {
        self.running
    }

    /// Starts a run: does nothing and returns `false` if one is under way;
    /// else clears the stop flag, marks the loop running and returns `true`.
    pub fn start(&mut self) -> (r: bool)
        ensures
            r == !old(self).is_running(),
            final(self).is_running(),
            r ==> !final(self).stop_requested() && final(self).drawn_erase() is None,
            !r ==> *final(self) == *old(self),
            final(self).auto_stop_enabled() == old(self).auto_stop_enabled(),
            final(self).reset_requested() == old(self).reset_requested(),
            final(self).interval() == old(self).interval(),
            final(self).pending_wait() == old(self).pending_wait(),
            final(self).frames_view() == old(self).frames_view(),
    {
        if self.running {
            return false;
        }
        self.stop = false;
        self.running = true;
        self.drawn = None;
        true
    }

    /// The check at the top of each cycle. `sole_owner` says that nobody
    /// but the loop's own driver holds it. Returns `None` when the run ends
    /// (a stop was asked for, or auto-stop is on and nobody else holds the
    /// loop), and the loop is then no longer running; else the one-off
    /// pause to take before drawing, which is used up.
    pub fn next_cycle(&mut self, sole_owner: bool) -> (r: Option<Option<Duration>>)
        ensures
            r is None <==> (old(self).stop_requested() || (old(self).auto_stop_enabled()
                && sole_owner)),
            r is None ==> !final(self).is_running() && final(self).pending_wait()
                == old(self).pending_wait(),
            r matches Some(w) ==> w == old(self).pending_wait() && final(self).pending_wait() is None
                && final(self).is_running() == old(self).is_running(),
            final(self).stop_requested() == old(self).stop_requested(),
            final(self).auto_stop_enabled() == old(self).auto_stop_enabled(),
            final(self).reset_requested() == old(self).reset_requested(),
            final(self).interval() == old(self).interval(),
            final(self).drawn_erase() == old(self).drawn_erase(),
            final(self).frames_view() == old(self).frames_view(),
    {
        if (self.auto_stop && sole_owner) || self.stop {
            self.running = false;
            return None;
        }
        let w = self.wait;
        self.wait = None;
        Some(w)
    }

    /// The body of a cycle. Where a reset was asked for, the frames are
    /// reset and nothing is erased; else the codes that erase the previous
    /// drawing of this run (none before the first). Then the frames are
    /// drawn, the codes that erase that drawing are kept for the next
    /// cycle, and the frames move on by one step.
    pub fn draw(&mut self) -> (r: Drawing)
        requires
            old(self).wf(),
        ensures
            final(self).wf(),
            !final(self).reset_requested(),
            old(self).reset_requested() ==> r.clear@ == Seq::<char>::empty() && exists|mid: F|
                {
                    &&& #[trigger] mid.reset_from(old(self).frames_view())
                    &&& r.text@ == mid.shown()
                    &&& final(self).drawn_erase() == Some(mid.erased())
                    &&& final(self).frames_view().advanced_from(mid)
                },
            !old(self).reset_requested() ==> {
                &&& r.clear@ == text_or_empty(old(self).drawn_erase())
                &&& r.text@ == old(self).frames_view().shown()
                &&& final(self).drawn_erase() == Some(old(self).frames_view().erased())
                &&& final(self).frames_view().advanced_from(old(self).frames_view())
            },
            final(self).is_running() == old(self).is_running(),
            final(self).stop_requested() == old(self).stop_requested(),
            final(self).auto_stop_enabled() == old(self).auto_stop_enabled(),
            final(self).interval() == old(self).interval(),
            final(self).pending_wait() == old(self).pending_wait(),
    {
        let clear = if self.reset {
            self.reset = false;
            self.frames.reset();
            String::new()
        } else {
            match self.drawn.take() {
                Some(c) => c,
                None => String::new(),
            }
        };
        let ghost mid = self.frames;
        let text = self.frames.render();
        self.drawn = Some(self.frames.clear());
        self.frames.advance();
        Drawing { clear, text }
    }

    /// Ends the run: the loop is no longer running.
    pub fn finish(&mut self)
        ensures
            !final(self).is_running(),
            final(self).stop_requested() == old(self).stop_requested(),
            final(self).auto_stop_enabled() == old(self).auto_stop_enabled(),
            final(self).reset_requested() == old(self).reset_requested(),
            final(self).interval() == old(self).interval(),
            final(self).pending_wait() == old(self).pending_wait(),
            final(self).drawn_erase() == old(self).drawn_erase(),
            final(self).frames_view() == old(self).frames_view(),
    {
        self.running = false;
    }

    /// The pause after each cycle.
    pub fn delay(&self) -> (r: Duration)
        ensures
            r == self.interval(),
    {
        self.delay
    }

    /// The codes that erase the last drawing of this run; nothing if there
    /// was none.
    pub fn clear_codes(&self) -> (r: String)
        ensures
            r@ == text_or_empty(self.drawn_erase()),
    {
        match &self.drawn {
            Some(c) => c.clone(),
            None => String::new(),
        }
    }

    /// Asks a running loop to stop at the top of its next cycle.
    pub fn stop(&mut self)
        ensures
            final(self).stop_requested(),
            final(self).is_running() == old(self).is_running(),
            final(self).auto_stop_enabled() == old(self).auto_stop_enabled(),
            final(self).reset_requested() == old(self).reset_requested(),
            final(self).interval() == old(self).interval(),
            final(self).pending_wait() == old(self).pending_wait(),
            final(self).drawn_erase() == old(self).drawn_erase(),
            final(self).frames_view() == old(self).frames_view(),
    {
        self.stop = true;
    }

    /// Pauses for `duration` before the next cycle.
    pub fn wait(&mut self, duration: Duration)
        ensures
            final(self).pending_wait() == Some(duration),
            final(self).is_running() == old(self).is_running(),
            final(self).stop_requested() == old(self).stop_requested(),
            final(self).auto_stop_enabled() == old(self).auto_stop_enabled(),
            final(self).reset_requested() == old(self).reset_requested(),
            final(self).interval() == old(self).interval(),
            final(self).drawn_erase() == old(self).drawn_erase(),
            final(self).frames_view() == old(self).frames_view(),
    {
        self.wait = Some(duration);
    }

    /// Resets the frames at the next cycle instead of erasing them.
    pub fn reset(&mut self)
        ensures
            final(self).reset_requested(),
            final(self).is_running() == old(self).is_running(),
            final(self).stop_requested() == old(self).stop_requested(),
            final(self).auto_stop_enabled() == old(self).auto_stop_enabled(),
            final(self).interval() == old(self).interval(),
            final(self).pending_wait() == old(self).pending_wait(),
            final(self).drawn_erase() == old(self).drawn_erase(),
            final(self).frames_view() == old(self).frames_view(),
    {
        self.reset = true;
    }

    /// Turns auto-stop on or off.
    pub fn auto_stop(&mut self, stop: bool)
        ensures
            final(self).auto_stop_enabled() == stop,
            final(self).is_running() == old(self).is_running(),
            final(self).stop_requested() == old(self).stop_requested(),
            final(self).reset_requested() == old(self).reset_requested(),
            final(self).interval() == old(self).interval(),
            final(self).pending_wait() == old(self).pending_wait(),
            final(self).drawn_erase() == old(self).drawn_erase(),
            final(self).frames_view() == old(self).frames_view(),
    {
        self.auto_stop = stop;
    }

    /// The frames.
    pub fn inner(&self) -> (r: &F)
        ensures
            *r == self.frames_view(),
    {
        &self.frames
    }

    /// The frames, to change in place. The codes that erase the last
    /// drawing stay those of the frames as they were drawn.
    pub fn inner_mut(&mut self) -> (r: &mut F)
        ensures
            *r == old(self).frames_view(),
            final(self).frames_view() == *final(r),
            final(self).is_running() == old(self).is_running(),
            final(self).stop_requested() == old(self).stop_requested(),
            final(self).auto_stop_enabled() == old(self).auto_stop_enabled(),
            final(self).reset_requested() == old(self).reset_requested(),
            final(self).interval() == old(self).interval(),
            final(self).pending_wait() == old(self).pending_wait(),
            final(self).drawn_erase() == old(self).drawn_erase(),
    {
        &mut self.frames
    }
}

} // verus!
