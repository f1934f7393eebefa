use check_scheduler::check_loader::CheckLoader;
use check_scheduler::job_queue::JobQueue;
use check_scheduler::once_runner::OnceRunner;
use check_scheduler::scheduler::MockCheck;
use check_scheduler::ticker::{Ticker, TickerTurn};
use check_scheduler::Collector;

#[test]
fn check_loader_initialization() {
    let _loader = CheckLoader::new();
    assert!(true, "CheckLoader should be initialized");
}

#[test]
fn load_checks() {
    let _loader = CheckLoader::new();
    _loader.load_checks();
    assert!(true, "Checks should be loaded");
}

#[test]
fn collector_initialization() {
    let _collector = Collector::new();
    assert!(true, "Collector should be initialized");
}

#[test]
fn collector_run_is_inert() {
    let collector = Collector::new();
    collector.run();
}

#[test]
fn mock_check_carries_name_and_interval() {
    let mock = MockCheck::new("test_check".to_string(), 5000);
    assert_eq!(mock.name, "test_check");
    assert_eq!(mock.interval, 5000);
}

#[test]
fn job_queue_counts_each_member_once_per_turn() {
    let mut queue = JobQueue::new();
    assert_eq!(queue.get_stats(), 0);
    queue.add_check("a".to_string());
    queue.add_check("b".to_string());
    // Adding a member again is a no-op at this layer.
    queue.add_check("a".to_string());
    let executed = queue.execute_checks();
    assert_eq!(executed, vec!["a".to_string(), "b".to_string()]);
    assert_eq!(queue.get_stats(), 2);
    let executed = queue.execute_checks();
    assert_eq!(executed.len(), 2);
    assert_eq!(queue.get_stats(), 4);
}

#[test]
fn job_queue_remove_reports_emptiness() {
    let mut queue = JobQueue::new();
    queue.add_check("a".to_string());
    queue.add_check("b".to_string());
    let empty = queue.remove_check("a");
    assert!(!empty, "one member is left");
    let empty = queue.remove_check("missing");
    assert!(!empty, "removing an absent name changes nothing");
    let empty = queue.remove_check("b");
    assert!(empty, "the last member left the queue");
    // Removal never touches the execution counter.
    assert_eq!(queue.get_stats(), 0);
}

#[test]
fn ticker_fires_then_waits_out_the_interval() {
    let mut ticker = Ticker::new(100);
    match ticker.poll(0, false) {
        TickerTurn::Fire { sleep_ms } => assert_eq!(sleep_ms, 100),
        _ => panic!("a freshly armed ticker fires at once"),
    }
    match ticker.poll(40, false) {
        TickerTurn::Wait { sleep_ms } => assert_eq!(sleep_ms, 60),
        _ => panic!("nothing is due before the interval has passed"),
    }
    match ticker.poll(100, false) {
        TickerTurn::Fire { sleep_ms } => assert_eq!(sleep_ms, 100),
        _ => panic!("the next turn at the due time fires"),
    }
}

#[test]
fn ticker_stops_on_cancellation_signal() {
    let mut ticker = Ticker::new(100);
    // A disconnected cancellation channel is reported the same way as an
    // explicit signal, so one poll argument covers both.
    match ticker.poll(0, true) {
        TickerTurn::Stop => {}
        _ => panic!("the cancellation signal wins over everything else"),
    }
}

#[test]
fn once_runner_serializes_and_keeps_arrival_order() {
    let mut runner = OnceRunner::new();
    runner.enqueue("first".to_string());
    runner.enqueue("second".to_string());
    assert_eq!(runner.start_next(), Some("first".to_string()));
    assert_eq!(runner.start_next(), None, "at most one run is in flight");
    assert!(runner.finish(true).is_none());
    assert_eq!(runner.start_next(), Some("second".to_string()));
    assert!(runner.finish(true).is_none());
    assert_eq!(runner.start_next(), None, "nothing is left to run");
}
