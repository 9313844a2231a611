use bench::runner::{outcomes_per_leaf, request_error_kind, worker_iterations, OutcomeLog};
use bench::stats::RequestOutcome;

fn outcome(lat: u64) -> RequestOutcome {
    RequestOutcome { latency_us: lat, status_code: Some(200), error: None, offset_ms: 0 }
}

#[test]
fn iterations_are_shared_evenly() {
    assert_eq!(worker_iterations(10, 3), vec![4, 4, 2]);
    assert_eq!(worker_iterations(9, 3), vec![3, 3, 3]);
    assert_eq!(worker_iterations(2, 5), vec![1, 1, 0, 0, 0]);
    assert_eq!(worker_iterations(0, 4), vec![0, 0, 0, 0]);
    assert_eq!(worker_iterations(7, 1), vec![7]);
}

#[test]
fn iterations_sum_to_total() {
    for total in [0u64, 1, 5, 99, 100, 1001] {
        for workers in [1usize, 2, 3, 7, 10, 64] {
            let v = worker_iterations(total, workers);
            assert_eq!(v.len(), workers);
            assert_eq!(v.iter().sum::<u64>(), total);
        }
    }
}

#[test]
fn log_take_returns_recorded_in_order() {
    let mut log = OutcomeLog::new();
    log.record(&"a".to_string(), outcome(1));
    log.record(&"b".to_string(), outcome(2));
    log.record(&"a".to_string(), outcome(3));
    let a = log.take(&"a".to_string());
    assert_eq!(a.iter().map(|o| o.latency_us).collect::<Vec<_>>(), vec![1, 3]);
    assert!(log.take(&"a".to_string()).is_empty());
    let b = log.take(&"b".to_string());
    assert_eq!(b.len(), 1);
    assert!(log.take(&"missing".to_string()).is_empty());
}

#[test]
fn duplicate_leaf_names_get_outcomes_once() {
    let mut log = OutcomeLog::new();
    log.record(&"x".to_string(), outcome(5));
    log.record(&"y".to_string(), outcome(6));
    log.record(&"x".to_string(), outcome(7));
    let leaf = |n: &str, u: &str| (n.to_string(), u.to_string(), "GET".to_string());
    let per = outcomes_per_leaf(&vec![leaf("x", "u1"), leaf("y", "u2"), leaf("x", "u3"), leaf("z", "u4")], log);
    assert_eq!(per.len(), 3);
    assert_eq!(per[0].0, leaf("x", "u1"));
    assert_eq!(per[0].1.iter().map(|o| o.latency_us).collect::<Vec<_>>(), vec![5, 7]);
    assert_eq!(per[1].0, leaf("y", "u2"));
    assert_eq!(per[1].1.len(), 1);
    assert_eq!(per[2].0, leaf("z", "u4"));
    assert!(per[2].1.is_empty());
}

#[test]
fn error_kinds() {
    assert_eq!(request_error_kind(true, true), "timeout");
    assert_eq!(request_error_kind(false, true), "connection error");
    assert_eq!(request_error_kind(false, false), "request error");
}
