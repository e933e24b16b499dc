use sona::scheduler::{Scheduler, SchedulerState};
use sona::SonaError;

#[test]
fn cycle_is_due_by_time_or_by_volume() {
    let scheduler = Scheduler::new(1_000, 4);
    assert!(!scheduler.due(1_000, 4));
    assert!(scheduler.due(1_001, 0));
    assert!(scheduler.due(0, 5));
    assert!(!scheduler.due(0, 0));
}

#[test]
fn poll_moves_from_idle_to_due_only() {
    let mut scheduler = Scheduler::new(1_000, 4);
    assert!(!scheduler.poll(500, 1));
    assert_eq!(scheduler.state, SchedulerState::Idle);
    assert!(scheduler.poll(1_001, 1));
    assert_eq!(scheduler.state, SchedulerState::Due);
    assert!(scheduler.poll(0, 0));
    assert_eq!(scheduler.state, SchedulerState::Due);
    scheduler.stand_down();
    assert_eq!(scheduler.state, SchedulerState::Idle);
    scheduler.stand_down();
    assert_eq!(scheduler.state, SchedulerState::Idle);
}

#[test]
fn a_running_cycle_cannot_be_started_again() {
    let mut scheduler = Scheduler::new(1_000, 4);
    assert_eq!(scheduler.start(), Ok(()));
    assert_eq!(scheduler.state, SchedulerState::Running);
    assert_eq!(scheduler.start(), Err(SonaError::InvalidState));
    assert!(!scheduler.poll(5_000, 100));
    assert_eq!(scheduler.state, SchedulerState::Running);
    scheduler.stand_down();
    assert_eq!(scheduler.state, SchedulerState::Running);
}

#[test]
fn finish_returns_to_idle_and_time_never_goes_back() {
    let mut scheduler = Scheduler::new(1_000, 4);
    assert_eq!(scheduler.finish(10), Err(SonaError::InvalidState));
    scheduler.start().unwrap();
    assert_eq!(scheduler.finish(5_000), Ok(()));
    assert_eq!(scheduler.state, SchedulerState::Idle);
    assert_eq!(scheduler.last_cycle_ms, 5_000);
    assert!(!scheduler.due(6_000, 0));
    assert!(scheduler.due(6_001, 0));
    scheduler.start().unwrap();
    assert_eq!(scheduler.finish(4_000), Ok(()));
    assert_eq!(scheduler.last_cycle_ms, 5_000);
    assert!(!scheduler.due(100, 0));
}
