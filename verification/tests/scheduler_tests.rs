use check_scheduler::errors::SchedulingError;
use check_scheduler::scheduler::{Scheduler, TickOutcome};

#[test]
fn scheduler_initialization() {
    let scheduler = Scheduler::new();
    assert!(
        scheduler.is_job_queues_empty(),
        "Scheduler job_queues should be initialized as empty"
    );
}

#[test]
fn add_and_stop_check() {
    let mut scheduler = Scheduler::new();
    let _ = scheduler.add_check("test_check".to_string(), 1000);
    assert!(
        scheduler.has_ticker("test_check"),
        "Check should be added to the scheduler"
    );

    scheduler.stop_check("test_check");
    assert!(
        !scheduler.has_ticker("test_check"),
        "Check should be removed from the scheduler"
    );
}

#[test]
fn add_check_with_invalid_interval() {
    let mut scheduler = Scheduler::new();
    let result = scheduler.add_check("test_check".to_string(), 0); // Zero interval is invalid
    assert!(matches!(result, Err(SchedulingError::InvalidInterval)));
}

#[test]
fn add_check_with_valid_interval() {
    let mut scheduler = Scheduler::new();
    let _ = scheduler.add_check("test_check".to_string(), 5000);
    assert!(
        scheduler.has_ticker("test_check"),
        "Check should be added to the scheduler"
    );
}

#[test]
fn cancel_scheduled_check() {
    let mut scheduler = Scheduler::new();
    let _ = scheduler.add_check("test_check".to_string(), 5000);
    scheduler.stop_check("test_check");
    assert!(
        !scheduler.has_ticker("test_check"),
        "Scheduled check should be canceled"
    );
}

/// Drives one simulated turn and returns how many checks fired.
fn fired_count(scheduler: &mut Scheduler, interval_ms: u64, now_ms: u64) -> usize {
    match scheduler.tick(interval_ms, now_ms) {
        TickOutcome::Fired { executed, .. } => executed.len(),
        _ => 0,
    }
}

#[test]
fn scheduler_starts_and_runs_checks() {
    let mut scheduler = Scheduler::new();
    let _ = scheduler.add_check("test_check".to_string(), 100);
    // The turns a ticker thread would take over 350 ms of wall time.
    let mut executions: usize = 0;
    for now in [0, 100, 200, 300] {
        executions += fired_count(&mut scheduler, 100, now);
    }
    assert!(executions > 0, "Checks should have been executed");
}

#[test]
fn scheduler_stops_correctly() {
    let mut scheduler = Scheduler::new();
    let _ = scheduler.add_check("test_check".to_string(), 100);
    let mut executions: usize = 0;
    for now in [0, 100, 200, 300] {
        executions += fired_count(&mut scheduler, 100, now);
    }
    scheduler.stop_check("test_check");
    let count_before_stop = executions;
    // Turns taken after the stop observe the teardown and fire nothing.
    for now in [400, 500] {
        let outcome = scheduler.tick(100, now);
        assert!(matches!(outcome, TickOutcome::Stopped));
    }
    assert_eq!(
        executions, count_before_stop,
        "No further checks should be executed after stopping the scheduler"
    );
}

#[test]
fn telemetry_and_statistics_tracking() {
    let mut scheduler = Scheduler::new();
    let _ = scheduler.add_check("test_check".to_string(), 1000);
    for now in [0, 1000, 2000] {
        let _ = scheduler.tick(1000, now);
    }
    let stats = scheduler.get_scheduler_stats();
    let count = stats
        .iter()
        .find(|entry| entry.0 == 1000)
        .map(|entry| entry.1)
        .unwrap_or(0);
    assert!(
        count > 1,
        "Multiple executions of 'test_check' should be tracked in statistics"
    );
}

#[test]
fn duplicate_check_rejected() {
    let mut scheduler = Scheduler::new();
    let first = scheduler.add_check("test_check".to_string(), 1000);
    assert!(first.is_ok());
    let second = scheduler.add_check("test_check".to_string(), 2000);
    assert!(matches!(second, Err(SchedulingError::DuplicateCheck)));
    // The failed registration left no extra queue behind.
    assert_eq!(scheduler.get_ticker_count(), 1);
}

#[test]
fn zero_interval_leaves_no_ticker() {
    let mut scheduler = Scheduler::new();
    let result = scheduler.add_check("disk".to_string(), 0);
    assert!(matches!(result, Err(SchedulingError::InvalidInterval)));
    assert_eq!(scheduler.get_ticker_count(), 0);
}

#[test]
fn first_turn_fires_immediately() {
    let mut scheduler = Scheduler::new();
    let _ = scheduler.add_check("cpu".to_string(), 100);
    match scheduler.tick(100, 7) {
        TickOutcome::Fired { executed, sleep_ms } => {
            assert_eq!(executed, vec!["cpu".to_string()]);
            assert_eq!(sleep_ms, 100);
        }
        _ => panic!("a freshly armed ticker fires on its first turn"),
    }
}

#[test]
fn cadence_self_corrects_after_late_turn() {
    let mut scheduler = Scheduler::new();
    let _ = scheduler.add_check("cpu".to_string(), 100);
    assert!(matches!(
        scheduler.tick(100, 0),
        TickOutcome::Fired { .. }
    ));
    // The turn due at 100 runs late, at 150; the next one is then due a
    // full interval later, at 250, not at the original 200.
    assert!(matches!(
        scheduler.tick(100, 150),
        TickOutcome::Fired { .. }
    ));
    match scheduler.tick(100, 200) {
        TickOutcome::Waiting { sleep_ms } => assert_eq!(sleep_ms, 50),
        _ => panic!("nothing is due again before a full interval has passed"),
    }
    assert!(matches!(
        scheduler.tick(100, 250),
        TickOutcome::Fired { .. }
    ));
}

#[test]
fn execution_counts_grow_with_each_period() {
    let mut scheduler = Scheduler::new();
    let _ = scheduler.add_check("cpu".to_string(), 100);
    // Turns over a bit more than three periods: at least two full periods
    // elapse, and the count never decreases along the way.
    let mut executions: usize = 0;
    let mut last_count: usize = 0;
    for now in [0, 100, 200, 300, 350] {
        executions += fired_count(&mut scheduler, 100, now);
        let stats = scheduler.get_scheduler_stats();
        let count = stats
            .iter()
            .find(|entry| entry.0 == 100)
            .map(|entry| entry.1)
            .unwrap_or(0);
        assert!(count >= last_count, "execution counts never decrease");
        last_count = count;
    }
    assert!(executions >= 2, "at least two full periods elapsed");
    // Stopping the check freezes its count for good.
    scheduler.stop_check("cpu");
    for now in [400, 450, 500] {
        assert!(matches!(scheduler.tick(100, now), TickOutcome::Stopped));
    }
}

#[test]
fn shared_interval_counts_both_checks() {
    let mut scheduler = Scheduler::new();
    let _ = scheduler.add_check("a".to_string(), 50);
    let _ = scheduler.add_check("b".to_string(), 50);
    // One queue, one ticker for the shared interval.
    assert_eq!(scheduler.get_ticker_count(), 1);
    match scheduler.tick(50, 0) {
        TickOutcome::Fired { executed, .. } => {
            assert_eq!(executed, vec!["a".to_string(), "b".to_string()]);
        }
        _ => panic!("the shared ticker fires both checks together"),
    }
    let stats = scheduler.get_scheduler_stats();
    let count = stats
        .iter()
        .find(|entry| entry.0 == 50)
        .map(|entry| entry.1)
        .unwrap_or(0);
    assert_eq!(count, 2, "the shared counter reflects the sum of both checks");
    // Stopping one check leaves the other still ticking.
    scheduler.stop_check("a");
    assert!(!scheduler.has_ticker("a"));
    assert!(scheduler.has_ticker("b"));
    match scheduler.tick(50, 50) {
        TickOutcome::Fired { executed, .. } => {
            assert_eq!(executed, vec!["b".to_string()]);
        }
        _ => panic!("the remaining check keeps ticking"),
    }
}

#[test]
fn one_shot_runs_are_serialized_in_arrival_order() {
    let mut scheduler = Scheduler::new();
    scheduler.enqueue_once("first".to_string());
    scheduler.enqueue_once("second".to_string());
    let started = scheduler.start_next_once();
    assert_eq!(started, Some("first".to_string()));
    // A second request must wait until the first run has finished.
    assert_eq!(scheduler.start_next_once(), None);
    let report = scheduler.finish_once(true);
    assert!(report.is_none());
    let started = scheduler.start_next_once();
    assert_eq!(started, Some("second".to_string()));
    let report = scheduler.finish_once(false);
    match report {
        Some(SchedulingError::CheckExecutionFailed(name)) => assert_eq!(name, "second"),
        _ => panic!("a failed one-shot run is reported with the check's name"),
    }
    // The registry was never involved.
    assert_eq!(scheduler.get_ticker_count(), 0);
}
