use check_scheduler::scheduler::Scheduler;
use check_scheduler::scheduler::TickOutcome;

#[test]
fn scheduler_integration_tests_scheduler_initialization() {
    let scheduler = Scheduler::new();
    assert!(
        scheduler.is_job_queues_empty(),
        "Scheduler job_queues should be initialized as empty"
    );
}

#[test]
fn scheduler_integration_tests_add_and_stop_check() {
    let mut scheduler = Scheduler::new();
    let _ = scheduler.add_check("test_check".to_string(), 1000);
    assert!(
        scheduler.has_ticker("test_check"),
        "Check should be added to the scheduler"
    );

    scheduler.stop_check("test_check");
    assert!(
        !scheduler.has_ticker("test_check"),
        "Check should be removed from the scheduler"
    );
}

#[test]
fn scheduler_integration_tests_add_check_with_valid_interval() {
    let mut scheduler = Scheduler::new();
    let _ = scheduler.add_check("test_check".to_string(), 5000);
    assert!(
        scheduler.has_ticker("test_check"),
        "Check should be added to the scheduler"
    );
}

#[test]
fn scheduler_integration_tests_cancel_scheduled_check() {
    let mut scheduler = Scheduler::new();
    let _ = scheduler.add_check("test_check".to_string(), 5000);
    scheduler.stop_check("test_check");
    assert!(
        !scheduler.has_ticker("test_check"),
        "Scheduled check should be canceled"
    );
}

#[test]
fn concurrent_check_addition() {
    println!("Starting concurrent_check_addition test");
    let mut scheduler = Scheduler::new();
    println!("Main thread: attempting to add test_check_1");
    let _ = scheduler.add_check("test_check_1".to_string(), 100);
    println!("Main thread: test_check_1 added");
    println!("Main thread: attempting to add test_check_2");
    let _ = scheduler.add_check("test_check_2".to_string(), 100);
    println!("Main thread: test_check_2 added");

    assert!(
        scheduler.has_ticker("test_check_1"),
        "Check test_check_1 should be added to the scheduler"
    );
    assert!(
        scheduler.has_ticker("test_check_2"),
        "Check test_check_2 should be added to the scheduler"
    );
}

#[test]
fn concurrent_check_execution() {
    let mut scheduler = Scheduler::new();
    let _ = scheduler.add_check("test_check_1".to_string(), 100);
    let _ = scheduler.add_check("test_check_2".to_string(), 100);
    // The turns the shared ticker's thread would take over 500 ms.
    let mut execute_count: usize = 0;
    for now in [0, 100, 200, 300, 400, 500] {
        if let TickOutcome::Fired { executed, .. } = scheduler.tick(100, now) {
            execute_count += executed.len();
        }
    }
    assert!(
        execute_count > 0,
        "Checks should have been executed concurrently"
    );
}
