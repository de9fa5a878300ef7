//! Adaptive wait strategies for ring buffer consumers.
//!
//! A wait polls a condition, and between polls spins, yields to the scheduler, or parks on an
//! operating system primitive. This module decides what to do after each poll; polling, telling
//! the time and pausing are the caller's part.
use vstd::prelude::*;
use crate::time::Duration;

verus! {

/// How often the `Yield` strategy spins before it yields: as often as the default strategy does.
pub const YIELD_SPIN_BUDGET: u64 = 100;

/// Wait strategy for ring buffer consumers.
#[derive(Debug, Clone, Copy, PartialEq, Eq, Structural)]
pub enum WaitStrategy {
    /// Pure spin loop: lowest latency, highest CPU usage.
    Spin,
    /// Spin first, and yield to the OS scheduler once the spin budget is used up.
    Yield,
    /// Park immediately on an OS primitive.
    Park,
    /// Adaptive: spin `spin_count` times, yield `yield_count` times, then park.
    Adaptive { spin_count: u32, yield_count: u32 },
}

impl Default for WaitStrategy {
    fn default() -> (s: WaitStrategy)
        ensures
            s == (WaitStrategy::Adaptive { spin_count: 100, yield_count: 10 }),
    {
        WaitStrategy::Adaptive { spin_count: 100, yield_count: 10 }
    }
}

/// What a waiter does after a poll.
#[derive(Debug, Clone, Copy, PartialEq, Eq)]
pub enum WaitAction {
    /// The wait is over: the condition held (`true`) or the time ran out (`false`).
    Done(bool),
    /// Hint to the processor that this is a spin loop, then poll again.
    Spin,
    /// Yield to the scheduler, then poll again.
    Yield,
    /// Park for at most the remaining time, then poll again.
    Park { remaining: Duration },
}

/// How a waiter pauses.
pub enum Pause {
    Spin,
    Yield,
    Park,
}

impl WaitStrategy {
    /// How a waiter with this strategy pauses after a fruitless poll that came after `polls`
    /// others.
    pub open spec fn pause(self, polls: int) -> Pause {
        match self {
            WaitStrategy::Spin => Pause::Spin,
            WaitStrategy::Yield => if polls < YIELD_SPIN_BUDGET {
                Pause::Spin
            } else {
                Pause::Yield
            },
            WaitStrategy::Park => Pause::Park,
            WaitStrategy::Adaptive { spin_count, yield_count } => if polls < spin_count {
                Pause::Spin
            } else if polls < spin_count + yield_count {
                Pause::Yield
            } else {
                Pause::Park
            },
        }
    }
}

/// Whether an action is the pause of this kind, with the time that remains.
pub open spec fn is_pause(action: WaitAction, pause: Pause, remaining_nanos: int) -> bool {
    match pause {
        Pause::Spin => action == WaitAction::Spin,
        Pause::Yield => action == WaitAction::Yield,
        Pause::Park => match action {
            WaitAction::Park { remaining } => remaining.wf() && remaining.total_nanos()
                == remaining_nanos,
            _ => false,
        },
    }
}

/// A waiter that waits until a condition is met, using the chosen strategy.
#[derive(Debug, Clone, Copy)]
pub struct Waiter {
    pub strategy: WaitStrategy,
}

impl Waiter {
    pub fn new(strategy: WaitStrategy) -> (waiter: Waiter)
        ensures
            waiter.strategy == strategy,
    {
        Waiter { strategy }
    }

    /// Decides how a wait goes on after a poll.
    ///
    /// `polls` is the number of earlier polls, `condition` is what this poll found, `elapsed` is
    /// the time since the wait began. A condition that holds ends the wait even after the
    /// timeout.
    pub fn wait_until(
        &self,
        polls: u64,
        condition: bool,
        elapsed: &Duration,
        timeout: &Duration,
    ) -> (action: WaitAction)
        requires
            elapsed.wf(),
            timeout.wf(),
        ensures
            condition ==> action == WaitAction::Done(true),
            !condition && elapsed.total_nanos() >= timeout.total_nanos() ==> action
                == WaitAction::Done(false),
            !condition && elapsed.total_nanos() < timeout.total_nanos() ==> is_pause(
                action,
                self.strategy.pause(polls as int),
                timeout.total_nanos() - elapsed.total_nanos(),
            ),
    {
        if condition {
            return WaitAction::Done(true);
        }
        if elapsed.reaches(timeout) {
            return WaitAction::Done(false);
        }
        match self.strategy {
            WaitStrategy::Spin => WaitAction::Spin,
            WaitStrategy::Yield => if polls < YIELD_SPIN_BUDGET {
                WaitAction::Spin
            } else {
                WaitAction::Yield
            },
            WaitStrategy::Park => self.wait_park(elapsed, timeout),
            WaitStrategy::Adaptive { spin_count, yield_count } => self.wait_adaptive(
                polls,
                elapsed,
                timeout,
                spin_count,
                yield_count,
            ),
        }
    }

    fn wait_park(&self, elapsed: &Duration, timeout: &Duration) -> (action: WaitAction)
        requires
            elapsed.wf(),
            timeout.wf(),
            elapsed.total_nanos() < timeout.total_nanos(),
        ensures
            is_pause(action, Pause::Park, timeout.total_nanos() - elapsed.total_nanos()),
    {
        WaitAction::Park { remaining: timeout.minus(elapsed) }
    }

    fn wait_adaptive(
        &self,
        polls: u64,
        elapsed: &Duration,
        timeout: &Duration,
        spin_count: u32,
        yield_count: u32,
    ) -> (action: WaitAction)
        requires
            elapsed.wf(),
            timeout.wf(),
            elapsed.total_nanos() < timeout.total_nanos(),
        ensures
            is_pause(
                action,
                (WaitStrategy::Adaptive { spin_count, yield_count }).pause(polls as int),
                timeout.total_nanos() - elapsed.total_nanos(),
            ),
    {
        if polls < spin_count as u64 {
            WaitAction::Spin
        } else if polls < spin_count as u64 + yield_count as u64 {
            WaitAction::Yield
        } else {
            self.wait_park(elapsed, timeout)
        }
    }
}

/// The milliseconds to park for where the OS takes them as a 32-bit number.
pub fn park_millis(remaining: &Duration) -> (millis: u32)
    ensures
        remaining.total_millis() <= u32::MAX ==> millis == remaining.total_millis(),
        remaining.total_millis() > u32::MAX ==> millis == u32::MAX,
{
    let millis: u128 = remaining.as_millis();
    if millis > u32::MAX as u128 {
        u32::MAX
    } else {
        millis as u32
    }
}

/// The time to sleep for where the OS has nothing to park on: at most a millisecond at once.
pub fn park_sleep(remaining: &Duration) -> (sleep: Duration)
    requires
        remaining.wf(),
    ensures
        sleep.wf(),
        remaining.total_nanos() <= 1_000_000 ==> sleep == *remaining,
        remaining.total_nanos() > 1_000_000 ==> sleep.total_nanos() == 1_000_000,
{
    if remaining.secs > 0 || remaining.nanos > 1_000_000 {
        Duration { secs: 0, nanos: 1_000_000 }
    } else {
        *remaining
    }
}

/// An adaptive wait spins exactly `spin_count` times, then yields exactly `yield_count` times,
/// and then only parks.
pub proof fn law_adaptive_phases(spin_count: u32, yield_count: u32, polls: int)
    requires
        0 <= polls,
    ensures
        ({
            let pause = (WaitStrategy::Adaptive { spin_count, yield_count }).pause(polls);
            &&& pause is Spin <==> polls < spin_count
            &&& pause is Yield <==> spin_count <= polls < spin_count + yield_count
            &&& pause is Park <==> spin_count + yield_count <= polls
        }),
{
}

/// A yielding wait spins a hundred times, then only yields, and never parks.
pub proof fn law_yield_phases(polls: int)
    requires
        0 <= polls,
    ensures
        ({
            let pause = WaitStrategy::Yield.pause(polls);
            &&& pause is Spin <==> polls < 100
            &&& pause is Yield <==> 100 <= polls
        }),
{
}

/// A spinning wait only spins, and a parking wait only parks.
pub proof fn law_plain_strategies(polls: int)
    ensures
        WaitStrategy::Spin.pause(polls) is Spin,
        WaitStrategy::Park.pause(polls) is Park,
{
}

/// A pause of a kind is that one action; to park is to park for exactly the time that remains.
pub proof fn law_pauses(action: WaitAction, remaining: int)
    ensures
        is_pause(action, Pause::Spin, remaining) <==> action == WaitAction::Spin,
        is_pause(action, Pause::Yield, remaining) <==> action == WaitAction::Yield,
        is_pause(action, Pause::Park, remaining) <==> (action matches WaitAction::Park {
            remaining: left,
        } && left.nanos < 1_000_000_000 && left.secs * 1_000_000_000 + left.nanos == remaining),
{
}

} // verus!
