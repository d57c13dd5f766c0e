//! Reconnect-delay policies: a pluggable backoff trait, a deterministic
//! exponential policy, and a wrapper that clamps any policy's delay to a
//! dynamic minimum raised by server `retry:` frames.

use vstd::prelude::*;

verus! {

/// A reconnect-delay policy. Implementors return the next delay in
/// milliseconds, or `None` once they consider the attempts exhausted.
pub trait Backoff {
    /// The next delay, or `None` when attempts are exhausted.
    fn next_backoff(&mut self) -> Option<u64>;

    /// Forgets accumulated state, after a successful connection.
    fn reset(&mut self);
}

/// `delay` clamped from below by `floor`; exhaustion passes through.
pub open spec fn clamped_delay(delay: Option<u64>, floor: u64) -> Option<u64> {
    match delay {
        Some(d) => Some(
            if d >= floor {
                d
            } else {
                floor
            },
        ),
        None => None,
    }
}

/// Clamps a policy's delay from below by `floor`.
pub fn clamp_min(delay: Option<u64>, floor: u64) -> (r: Option<u64>)
    ensures
        r == clamped_delay(delay, floor),
{
    match delay {
        Some(d) => Some(
            if d >= floor {
                d
            } else {
                floor
            },
        ),
        None => None,
    }
}

/// Wraps a backoff so that every delay it produces is at least a dynamic
/// minimum, raised whenever the server sends a `retry:` frame.
#[derive(Debug)]
pub struct MinimumBackoffDuration<B> {
    pub backoff: B,
    pub minimum_duration: u64,
}

impl<B: Backoff> MinimumBackoffDuration<B> {
    pub fn new(backoff: B, minimum_duration: u64) -> (r: Self)
        ensures
            r.minimum_duration == minimum_duration,
    {
        Self { backoff, minimum_duration }
    }

    /// Raises (or lowers) the floor under every future delay.
    pub fn set_minimum_duration(&mut self, minimum_duration: u64)
        ensures
            final(self).minimum_duration == minimum_duration,
    {
        self.minimum_duration = minimum_duration;
    }

    /// The inner policy's next delay, clamped from below by the floor.
    /// Whatever the inner policy returns, a produced delay honors the floor.
    pub fn next_backoff(&mut self) -> (r: Option<u64>)
        ensures
            final(self).minimum_duration == old(self).minimum_duration,
            r matches Some(d) ==> d >= final(self).minimum_duration,
    {
        let inner = self.backoff.next_backoff();
        clamp_min(inner, self.minimum_duration)
    }

    /// Resets the inner policy. The floor is kept.
    pub fn reset(&mut self)
        ensures
            final(self).minimum_duration == old(self).minimum_duration,
    {
        self.backoff.reset();
    }
}

/// Builder-style entry into [`MinimumBackoffDuration`] for any policy.
pub trait WithMinimumBackoff<B> {
    /// Wraps this policy so that its delays honor the given floor.
    fn with_minimum_duration(self, duration: u64) -> MinimumBackoffDuration<B>;
}

impl<B: Backoff> WithMinimumBackoff<B> for B {
    fn with_minimum_duration(self, duration: u64) -> (r: MinimumBackoffDuration<B>) {
        MinimumBackoffDuration::new(self, duration)
    }
}

/// A deterministic exponential backoff: delays double from an initial value
/// up to a cap, and the policy is exhausted once the delays handed out
/// together pass an elapsed-time budget, where one is set.
#[derive(Debug, Clone, PartialEq, Eq)]
pub struct ExponentialBackoff {
    pub initial_interval_ms: u64,
    pub max_interval_ms: u64,
    pub max_elapsed_ms: Option<u64>,
    pub current_interval_ms: u64,
    pub elapsed_ms: u64,
}

impl ExponentialBackoff {
    /// A policy with the given initial and maximum delay and elapsed-time
    /// budget.
    pub fn with_intervals(initial_ms: u64, max_ms: u64, max_elapsed_ms: Option<u64>) -> (r: Self)
        ensures
            r.initial_interval_ms == initial_ms,
            r.max_interval_ms == max_ms,
            r.max_elapsed_ms == max_elapsed_ms,
            r.current_interval_ms == initial_ms,
            r.elapsed_ms == 0,
    {
        Self {
            initial_interval_ms: initial_ms,
            max_interval_ms: max_ms,
            max_elapsed_ms,
            current_interval_ms: initial_ms,
            elapsed_ms: 0,
        }
    }

    /// Half a second doubling up to a minute, for a quarter of an hour.
    pub fn new() -> (r: Self)
        ensures
            r.initial_interval_ms == 500,
            r.max_interval_ms == 60000,
            r.max_elapsed_ms == Some(900000u64),
            r.current_interval_ms == 500,
            r.elapsed_ms == 0,
    {
        Self::with_intervals(500, 60000, Some(900000))
    }

    /// The next delay: the current interval, which then doubles up to the
    /// cap. `None` once the handed-out delays have passed the budget.
    pub fn step(&mut self) -> (r: Option<u64>)
        ensures
            ({
                let exhausted = match old(self).max_elapsed_ms {
                    Some(budget) => old(self).elapsed_ms > budget,
                    None => false,
                };
                if exhausted {
                    r == None::<u64> && *final(self) == *old(self)
                } else {
                    &&& r == Some(old(self).current_interval_ms)
                    &&& final(self).elapsed_ms == if old(self).elapsed_ms + old(
                        self,
                    ).current_interval_ms <= u64::MAX {
                        old(self).elapsed_ms + old(self).current_interval_ms
                    } else {
                        u64::MAX as int
                    }
                    &&& final(self).current_interval_ms == if old(self).current_interval_ms * 2
                        <= old(self).max_interval_ms {
                        old(self).current_interval_ms * 2
                    } else {
                        old(self).max_interval_ms as int
                    }
                    &&& final(self).initial_interval_ms == old(self).initial_interval_ms
                    &&& final(self).max_interval_ms == old(self).max_interval_ms
                    &&& final(self).max_elapsed_ms == old(self).max_elapsed_ms
                }
            }),
    {
        let exhausted = match self.max_elapsed_ms {
            Some(budget) => self.elapsed_ms > budget,
            None => false,
        };
        if exhausted {
            return None;
        }
        let d = self.current_interval_ms;
        self.elapsed_ms = self.elapsed_ms.saturating_add(d);
        self.current_interval_ms = if d <= self.max_interval_ms / 2 {
            d * 2
        } else {
            self.max_interval_ms
        };
        proof {
            if old(self).current_interval_ms * 2 <= old(self).max_interval_ms {
                assert(self.current_interval_ms == old(self).current_interval_ms * 2);
            }
        }
        Some(d)
    }

    /// Restores the initial interval and clears the elapsed budget.
    pub fn restart(&mut self)
        ensures
            final(self).current_interval_ms == old(self).initial_interval_ms,
            final(self).elapsed_ms == 0,
            final(self).initial_interval_ms == old(self).initial_interval_ms,
            final(self).max_interval_ms == old(self).max_interval_ms,
            final(self).max_elapsed_ms == old(self).max_elapsed_ms,
    {
        self.current_interval_ms = self.initial_interval_ms;
        self.elapsed_ms = 0;
    }
}

impl Backoff for ExponentialBackoff {
    fn next_backoff(&mut self) -> Option<u64> {
        self.step()
    }

    fn reset(&mut self) {
        self.restart()
    }
}

impl Default for ExponentialBackoff {
    fn default() -> (r: Self)
        ensures
            r.initial_interval_ms == 500,
            r.max_interval_ms == 60000,
            r.max_elapsed_ms == Some(900000u64),
            r.current_interval_ms == 500,
            r.elapsed_ms == 0,
    {
        Self::new()
    }
}

} // verus!
