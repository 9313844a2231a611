use bench::stats::{build_latency_histogram, latency_histogram, RequestOutcome, StepStats};

fn ok(lat: u64, code: u16, off: u64) -> RequestOutcome {
    RequestOutcome { latency_us: lat, status_code: Some(code), error: None, offset_ms: off }
}

fn err(lat: u64, kind: &str, off: u64) -> RequestOutcome {
    RequestOutcome { latency_us: lat, status_code: None, error: Some(kind.to_string()), offset_ms: off }
}

fn sorted<K: Ord + Clone>(v: &[(K, u64)]) -> Vec<(K, u64)> {
    let mut v = v.to_vec();
    v.sort();
    v
}

#[test]
fn counts_by_class() {
    let outcomes = vec![
        ok(1200, 200, 0),
        ok(800, 204, 10),
        ok(3000, 301, 900),
        ok(5000, 404, 1500),
        ok(9000, 500, 2100),
        err(5_000_000, "timeout", 2200),
        err(1000, "connection error", 2300),
        err(7000, "timeout", 4100),
    ];
    let s = StepStats::from_outcomes(&outcomes);
    assert_eq!(s.total_requests, 8);
    // 2xx are successful, 4xx and 5xx failed; the 301 is neither.
    assert_eq!(s.successful_requests, 2);
    assert_eq!(s.failed_requests, 2);
    assert_eq!(s.error_requests, 3);
    assert_eq!(s.latency_min_us, 800);
    assert_eq!(s.latency_max_us, 5_000_000);
    assert_eq!(s.latency_sum_us, 1200 + 800 + 3000 + 5000 + 9000 + 5_000_000 + 1000 + 7000);
    assert_eq!(sorted(&s.status_distribution), vec![(200, 1), (204, 1), (301, 1), (404, 1), (500, 1)]);
    assert_eq!(
        sorted(&s.error_distribution),
        vec![("connection error".to_string(), 1), ("timeout".to_string(), 2)]
    );
}

#[test]
fn only_2xx_succeed_and_only_4xx_5xx_fail() {
    let outcomes = vec![ok(1, 100, 0), ok(1, 199, 0), ok(1, 200, 0), ok(1, 299, 0), ok(1, 300, 0),
        ok(1, 399, 0), ok(1, 400, 0), ok(1, 599, 0), ok(1, 600, 0)];
    let s = StepStats::from_outcomes(&outcomes);
    assert_eq!(s.successful_requests, 2);
    assert_eq!(s.failed_requests, 2);
    assert_eq!(s.error_requests, 0);
    let status_total: u64 = s.status_distribution.iter().map(|(_, c)| c).sum();
    assert_eq!(status_total, 9);
}

#[test]
fn timeline_fills_gaps_with_zero() {
    let outcomes = vec![ok(1, 200, 0), ok(1, 200, 999), ok(1, 200, 1000), ok(1, 200, 3500)];
    let s = StepStats::from_outcomes(&outcomes);
    assert_eq!(s.timeline, vec![(0, 2), (1, 1), (2, 0), (3, 1)]);
    let total: u64 = s.timeline.iter().map(|(_, c)| c).sum();
    assert_eq!(total, s.total_requests);
}

#[test]
fn empty_outcomes() {
    let s = StepStats::from_outcomes(&vec![]);
    assert_eq!(s.total_requests, 0);
    assert_eq!(s.latency_min_us, 0);
    assert_eq!(s.latency_max_us, 0);
    assert_eq!(s.timeline, vec![(0, 0)]);
    assert!(s.status_distribution.is_empty());
    assert!(s.error_distribution.is_empty());
    assert!(s.latency_histogram.is_empty());
}

#[test]
fn distribution_totals_match_counts() {
    let outcomes = vec![ok(10, 200, 0), ok(10, 200, 0), ok(10, 503, 0), err(10, "request error", 0)];
    let s = StepStats::from_outcomes(&outcomes);
    let status_total: u64 = s.status_distribution.iter().map(|(_, c)| c).sum();
    let error_total: u64 = s.error_distribution.iter().map(|(_, c)| c).sum();
    assert_eq!(status_total, s.total_requests - s.error_requests);
    assert_eq!(status_total, s.successful_requests + s.failed_requests);
    assert_eq!(error_total, s.error_requests);
}

#[test]
fn latency_chart_starts_at_first_nonempty_bucket() {
    let outcomes = vec![ok(3_000, 200, 0), ok(40_000, 200, 0), ok(45_000, 200, 0), ok(70_000_000, 200, 0)];
    let s = StepStats::from_outcomes(&outcomes);
    let labels: Vec<&str> = s.latency_histogram.iter().map(|(l, _)| l.as_str()).collect();
    assert_eq!(
        labels,
        vec!["≤5ms", "≤10ms", "≤25ms", "≤50ms", "≤100ms", "≤250ms", "≤500ms", "≤1s", "≤2s", "≤5s", "≤10s", ">10s"]
    );
    assert_eq!(s.latency_histogram[0].1, 1);
    assert_eq!(s.latency_histogram[3].1, 2);
    assert_eq!(s.latency_histogram[11].1, 1);
    assert!(s.latency_histogram[0].1 > 0);
}

#[test]
fn latency_chart_microsecond_label() {
    let outcomes = vec![ok(100, 200, 0)];
    let h = latency_histogram(&outcomes);
    let chart = build_latency_histogram(&h);
    assert_eq!(chart[0], ("≤500µs".to_string(), 1));
    assert_eq!(chart.len(), 14);
    assert_eq!(h.histogram.len(), 1);
}

#[test]
fn latency_is_capped_at_sixty_seconds() {
    let outcomes = vec![ok(u64::MAX, 200, 0)];
    let s = StepStats::from_outcomes(&outcomes);
    assert_eq!(s.histogram.histogram.len(), 1);
    assert_eq!(s.latency_max_us, u64::MAX);
    assert_eq!(s.latency_histogram, vec![(">10s".to_string(), 1)]);
}
