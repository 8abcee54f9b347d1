#![allow(non_snake_case)]

use memory_scanner::pool::{PoolError, TaskTP, WorkerSchedule};

#[test]
fn TaskEnvelopeCarriesArgs() {
    let mut task: TaskTP<(i32, i32)> = TaskTP::new((3, 4));
    assert!(!task.is_exit());
    assert_eq!(Some(&(3, 4)), task.get_args());
    assert_eq!(Some((3, 4)), task.take_args());
    assert_eq!(None, task.get_args());
    assert!(!task.is_exit());
}

#[test]
fn ExitSentinelCarriesNothing() {
    let task: TaskTP<i32> = TaskTP::exit();
    assert!(task.is_exit());
    assert_eq!(None, task.get_args());
}

#[test]
fn ScheduleRefusesBusyWorker() {
    let mut schedule = WorkerSchedule::new(3);
    assert_eq!(Ok(()), schedule.submit(1));
    assert_eq!(Err(PoolError::BusyWorker), schedule.submit(1));
    assert_eq!(Ok(()), schedule.submit(0));
}

#[test]
fn DrainReportsAssignedWorkersInOrder() {
    let mut schedule = WorkerSchedule::new(4);
    schedule.submit(2).unwrap();
    schedule.submit(0).unwrap();
    assert_eq!(vec![0, 2], schedule.drain());
    // Draining clears every mark: nothing is owed afterwards, and the
    // workers accept jobs again.
    assert_eq!(Vec::<usize>::new(), schedule.drain());
    assert_eq!(Ok(()), schedule.submit(2));
}
