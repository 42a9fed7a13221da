use httpmark::stats::{Snapshot, Stats};

fn counts(s: &Snapshot) -> [u64; 11] {
    [
        s.requests,
        s.errors,
        s.bytes_recv,
        s.status_2xx,
        s.status_3xx,
        s.status_4xx,
        s.status_5xx,
        s.interval_reqs,
        s.interval_bytes,
        s.interval_errors,
        s.interval_2xx,
    ]
}

#[test]
fn new_stats_are_empty_and_running() {
    let mut s = Stats::new();
    assert!(!s.is_stopped());
    assert_eq!(counts(&s.snapshot()), [0; 11]);
    let t = s.totals();
    assert_eq!(t.requests, 0);
    assert_eq!(t.max_us, 0);
}

#[test]
fn record_counts_status_classes() {
    let mut s = Stats::new();
    s.record(100, 10, 200);
    s.record(100, 20, 299);
    s.record(100, 30, 301);
    s.record(100, 40, 404);
    s.record(100, 50, 503);
    s.record(100, 60, 199);
    s.record(100, 70, 600);
    let snap = s.snapshot();
    assert_eq!(snap.requests, 7);
    assert_eq!(snap.bytes_recv, 280);
    assert_eq!(snap.status_2xx, 2);
    assert_eq!(snap.status_3xx, 1);
    assert_eq!(snap.status_4xx, 1);
    assert_eq!(snap.status_5xx, 1);
    assert_eq!(snap.errors, 0);
    assert_eq!(snap.interval_reqs, 7);
    assert_eq!(snap.interval_bytes, 280);
    assert_eq!(snap.interval_2xx, 2);
}

#[test]
fn status_classes_never_exceed_requests() {
    let mut s = Stats::new();
    for code in [100u16, 200, 250, 302, 418, 500, 599, 700, 0, 65535] {
        s.record(1, 1, code);
    }
    let snap = s.snapshot();
    let classified = snap.status_2xx + snap.status_3xx + snap.status_4xx + snap.status_5xx;
    assert_eq!(snap.requests, 10);
    assert_eq!(classified, 6);
}

#[test]
fn record_error_counts_only_errors() {
    let mut s = Stats::new();
    s.record_error();
    s.record_error();
    let snap = s.snapshot();
    assert_eq!(snap.errors, 2);
    assert_eq!(snap.interval_errors, 2);
    assert_eq!(snap.requests, 0);
    assert_eq!(snap.bytes_recv, 0);
    assert_eq!(s.totals().requests, 0);
}

#[test]
fn snapshot_resets_only_interval_counts() {
    let mut s = Stats::new();
    s.record(10, 100, 200);
    s.record_error();
    let first = s.snapshot();
    assert_eq!(first.interval_reqs, 1);
    assert_eq!(first.interval_errors, 1);
    let second = s.snapshot();
    assert_eq!(second.requests, 1);
    assert_eq!(second.errors, 1);
    assert_eq!(second.bytes_recv, 100);
    assert_eq!(second.interval_reqs, 0);
    assert_eq!(second.interval_bytes, 0);
    assert_eq!(second.interval_errors, 0);
    assert_eq!(second.interval_2xx, 0);
}

#[test]
fn intervals_add_up_to_totals() {
    let mut s = Stats::new();
    s.record(10, 5, 200);
    s.record(10, 6, 500);
    let a = s.snapshot();
    s.record(10, 7, 201);
    s.record_error();
    let b = s.snapshot();
    assert_eq!(a.interval_reqs + b.interval_reqs, b.requests);
    assert_eq!(a.interval_bytes + b.interval_bytes, b.bytes_recv);
    assert_eq!(a.interval_errors + b.interval_errors, b.errors);
    assert_eq!(a.interval_2xx + b.interval_2xx, b.status_2xx);
    assert_eq!(b.interval_reqs, 1);
    assert_eq!(b.interval_bytes, 7);
}

#[test]
fn many_snapshots_add_up_to_the_last() {
    let mut s = Stats::new();
    let mut snaps = Vec::new();
    for round in 0..5u64 {
        for i in 0..round {
            s.record(100 + i, 10 * round, if i % 2 == 0 { 200 } else { 404 });
        }
        if round % 2 == 1 {
            s.record_error();
        }
        snaps.push(s.snapshot());
    }
    let last = snaps.last().unwrap();
    assert_eq!(snaps.iter().map(|r| r.interval_reqs).sum::<u64>(), last.requests);
    assert_eq!(snaps.iter().map(|r| r.interval_bytes).sum::<u64>(), last.bytes_recv);
    assert_eq!(snaps.iter().map(|r| r.interval_errors).sum::<u64>(), last.errors);
    assert_eq!(snaps.iter().map(|r| r.interval_2xx).sum::<u64>(), last.status_2xx);
    assert_eq!(last.requests, 10);
    assert_eq!(last.errors, 2);
    assert_eq!(last.status_2xx, 6);
    assert_eq!(last.bytes_recv, 10 + 40 + 90 + 160);
}

#[test]
fn stopped_only_after_stop_and_for_good() {
    let mut s = Stats::new();
    s.record(1, 1, 200);
    s.record_error();
    let _ = s.snapshot();
    assert!(!s.is_stopped());
    s.stop();
    assert!(s.is_stopped());
    s.record(2, 2, 500);
    s.record_error();
    let _ = s.snapshot();
    let _ = s.totals();
    assert!(s.is_stopped());
}

#[test]
fn byte_counter_wraps_around() {
    let mut s = Stats::new();
    s.record(1, u64::MAX, 200);
    s.record(1, 3, 200);
    let snap = s.snapshot();
    assert_eq!(snap.bytes_recv, 2);
    assert_eq!(snap.interval_bytes, 2);
}

#[test]
fn stop_is_seen_and_kept() {
    let mut s = Stats::new();
    s.stop();
    assert!(s.is_stopped());
    s.stop();
    s.record(1, 1, 200);
    assert!(s.is_stopped());
}

#[test]
fn totals_report_largest_latency() {
    let mut s = Stats::new();
    s.record(120, 0, 200);
    s.record(1500, 0, 200);
    s.record(7, 0, 500);
    let t = s.totals();
    assert_eq!(t.max_us, 1500);
    assert_eq!(t.requests, 3);
    assert_eq!(t.status_2xx, 2);
    assert_eq!(t.status_5xx, 1);
}

#[test]
fn zero_latency_is_recorded_as_one() {
    let mut s = Stats::new();
    s.record(0, 0, 200);
    assert_eq!(s.totals().max_us, 1);
    assert_eq!(s.latency_buckets(), vec![(1, 1)]);
}

#[test]
fn histogram_holds_one_sample_per_response() {
    let mut s = Stats::new();
    s.record(10, 0, 200);
    s.record_error();
    s.record(20, 0, 404);
    s.record(30, 0, 0);
    assert_eq!(s.latency_buckets(), vec![(10, 1), (20, 1), (30, 1)]);
}

#[test]
fn large_latency_max_is_within_resolution() {
    let mut s = Stats::new();
    s.record(1_000_000, 0, 200);
    let m = s.totals().max_us;
    assert!(m >= 1_000_000);
    assert!(m <= 1_000_000 + 1_000_000 / 1000);
}

#[test]
fn latencies_above_2048_share_buckets() {
    let mut s = Stats::new();
    s.record(2048, 0, 200);
    s.record(2049, 0, 200);
    s.record(4100, 0, 200);
    s.record(5, 0, 200);
    assert_eq!(s.latency_buckets(), vec![(5, 1), (2049, 2), (4103, 1)]);
    assert_eq!(s.totals().max_us, 4103);
}

#[test]
fn max_of_2049_is_top_of_its_bucket() {
    let mut s = Stats::new();
    s.record(2049, 0, 200);
    assert_eq!(s.totals().max_us, 2049);
    let mut s = Stats::new();
    s.record(2048, 0, 200);
    assert_eq!(s.totals().max_us, 2049);
}

#[test]
fn no_buckets_before_any_response() {
    let mut s = Stats::new();
    s.record_error();
    assert!(s.latency_buckets().is_empty());
    assert_eq!(s.totals().max_us, 0);
}
