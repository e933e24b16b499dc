//! The scheduler: when a consolidation cycle is due, and that no two run
//! at once.

use vstd::prelude::*;
use crate::error::SonaError;

verus! {

/// Where the scheduler stands: no cycle is due, one is due, or one runs.
#[derive(Clone, Copy, Debug, PartialEq, Eq, Structural)]
pub enum SchedulerState {
    Idle,
    Due,
    Running,
}

/// When the last cycle ended, and when the next is due.
#[derive(Clone, Copy, Debug, PartialEq, Eq, Structural)]
pub struct Scheduler {
    pub state: SchedulerState,
    /// Time of the end of the last cycle, in milliseconds.
    pub last_cycle_ms: u64,
    pub interval_ms: u64,
    pub batch_size: usize,
}

impl Scheduler {
    /// A cycle is due once more than `interval_ms` have passed since the
    /// last one, or more than `batch_size` trajectories are buffered.
    pub open spec fn is_due(&self, now_ms: u64, buffered: usize) -> bool {
        now_ms - self.last_cycle_ms > self.interval_ms || buffered > self.batch_size
    }

    /// The state after a poll.
    pub open spec fn polled(&self, now_ms: u64, buffered: usize) -> Scheduler {
        if self.state == SchedulerState::Idle && self.is_due(now_ms, buffered) {
            Scheduler { state: SchedulerState::Due, ..*self }
        } else {
            *self
        }
    }

    /// The state after a cycle that ended at `now_ms`: idle, and the time
    /// of the last cycle never goes back.
    pub open spec fn finished(&self, now_ms: u64) -> Scheduler {
        Scheduler {
            state: SchedulerState::Idle,
            last_cycle_ms: if now_ms > self.last_cycle_ms {
                now_ms
            } else {
                self.last_cycle_ms
            },
            ..*self
        }
    }

    /// An idle scheduler whose last cycle ended at time zero.
    pub fn new(interval_ms: u64, batch_size: usize) -> (s: Scheduler)
        ensures
            s == (Scheduler { state: SchedulerState::Idle, last_cycle_ms: 0, interval_ms, batch_size }),
    {
        Scheduler { state: SchedulerState::Idle, last_cycle_ms: 0, interval_ms, batch_size }
    }

    /// Whether a cycle is due at `now_ms` with `buffered` trajectories.
    pub fn due(&self, now_ms: u64, buffered: usize) -> (d: bool)
        ensures
            d == self.is_due(now_ms, buffered),
    {
        (now_ms > self.last_cycle_ms && now_ms - self.last_cycle_ms > self.interval_ms) || buffered
            > self.batch_size
    }

    /// Moves from idle to due when a cycle is due; says whether one is
    /// waiting to start.
    pub fn poll(&mut self, now_ms: u64, buffered: usize) -> (waiting: bool)
        ensures
            *final(self) == old(self).polled(now_ms, buffered),
            waiting == (final(self).state == SchedulerState::Due),
    {
        if self.state == SchedulerState::Idle && self.due(now_ms, buffered) {
            self.state = SchedulerState::Due;
        }
        self.state == SchedulerState::Due
    }

    /// Starts a cycle, unless one is running.
    pub fn start(&mut self) -> (r: Result<(), SonaError>)
        ensures
            old(self).state == SchedulerState::Running ==> r == Err::<(), SonaError>(
                SonaError::InvalidState,
            ) && *final(self) == *old(self),
            old(self).state != SchedulerState::Running ==> r is Ok && *final(self) == (Scheduler {
                state: SchedulerState::Running,
                ..*old(self)
            }),
    {
        if self.state == SchedulerState::Running {
            return Err(SonaError::InvalidState);
        }
        self.state = SchedulerState::Running;
        Ok(())
    }

    /// Ends the running cycle at `now_ms`.
    pub fn finish(&mut self, now_ms: u64) -> (r: Result<(), SonaError>)
        ensures
            old(self).state != SchedulerState::Running ==> r == Err::<(), SonaError>(
                SonaError::InvalidState,
            ) && *final(self) == *old(self),
            old(self).state == SchedulerState::Running ==> r is Ok && *final(self) == old(
                self,
            ).finished(now_ms),
    {
        if self.state != SchedulerState::Running {
            return Err(SonaError::InvalidState);
        }
        self.state = SchedulerState::Idle;
        if now_ms > self.last_cycle_ms {
            self.last_cycle_ms = now_ms;
        }
        Ok(())
    }

    /// Gives up a due cycle that cannot run.
    pub fn stand_down(&mut self)
        ensures
            old(self).state == SchedulerState::Due ==> *final(self) == (Scheduler {
                state: SchedulerState::Idle,
                ..*old(self)
            }),
            old(self).state != SchedulerState::Due ==> *final(self) == *old(self),
    {
        if self.state == SchedulerState::Due {
            self.state = SchedulerState::Idle;
        }
    }
}

} // verus!
