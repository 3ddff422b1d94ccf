//! The pace of a loop that ticks at a fixed interval and ends on request.

use vstd::prelude::*;

verus! {

/// What a paced loop does next.
#[derive(Debug, Clone, Copy, PartialEq, Eq, Structural)]
pub enum Pace {
    /// A tick is due: run it now, and count time from now on.
    Run,
    /// No tick is due: sleep this many microseconds, then ask again.
    Sleep(u64),
    /// A tick is due, and the loop was asked to end: leave the loop.
    Stop,
}

/// What the loop does when `elapsed` microseconds have passed since its last
/// tick, the ticks being `interval` microseconds apart. The request to end
/// counts only when a tick is due.
pub open spec fn next_pace(interval: u64, elapsed: u64, quit: bool) -> Pace {
    if elapsed >= interval {
        if quit {
            Pace::Stop
        } else {
            Pace::Run
        }
    } else {
        Pace::Sleep((interval - elapsed) as u64)
    }
}

/// Decides what a paced loop does next: see [`next_pace`].
pub fn poll_interval(interval: u64, elapsed: u64, quit: bool) -> (pace: Pace)
    ensures
        pace == next_pace(interval, elapsed, quit),
{
    if elapsed >= interval {
        if quit {
            Pace::Stop
        } else {
            Pace::Run
        }
    } else {
        Pace::Sleep(interval - elapsed)
    }
}

/// A loop that was asked to end leaves within one interval of its last tick:
/// where a tick is due it leaves at once; where none is due it sleeps for what
/// is left of the interval and no longer, and leaves when asked again after
/// that sleep or later. It never runs another tick.
pub proof fn lemma_quit_ends_loop_within_interval(interval: u64, elapsed: u64, later: u64)
    ensures
        next_pace(interval, elapsed, true) != Pace::Run,
        elapsed >= interval ==> next_pace(interval, elapsed, true) == Pace::Stop,
        elapsed < interval ==> next_pace(interval, elapsed, true) == Pace::Sleep(
            (interval - elapsed) as u64,
        ),
        elapsed < interval && later >= elapsed + (interval - elapsed) ==> next_pace(
            interval,
            later,
            true,
        ) == Pace::Stop,
{
}

/// A loop never sleeps past the time at which its next tick is due, and it
/// never lets a due tick wait.
pub proof fn lemma_sleep_ends_when_due(interval: u64, elapsed: u64, quit: bool)
    ensures
        next_pace(interval, elapsed, quit) matches Pace::Sleep(rest) ==> 0 < rest <= interval
            && elapsed + rest == interval,
        elapsed >= interval ==> !(next_pace(interval, elapsed, quit) is Sleep),
{
}

} // verus!
