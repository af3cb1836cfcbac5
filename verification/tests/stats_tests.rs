use wltp::types::{HopSample, HopStats, Severity};

#[test]
fn test_hop_stats_sample() {
    let mut stats = HopStats::default();
    stats.add_sample(10_000);
    stats.add_sample(20_000);
    stats.add_sample(15_000);

    assert_eq!(stats.sent, 3);
    assert_eq!(stats.received, 3);
    assert_eq!(stats.loss_basis_points(), 0);
    assert_eq!(stats.best_us, Some(10_000));
    assert_eq!(stats.worst_us, Some(20_000));
    assert_eq!(stats.last_us, Some(15_000));
    assert!(stats.avg_us().unwrap() > 0);
}

#[test]
fn test_hop_stats_timeout() {
    let mut stats = HopStats::default();
    stats.add_sample(10_000);
    stats.add_timeout();
    stats.add_sample(20_000);

    assert_eq!(stats.sent, 3);
    assert_eq!(stats.received, 2);
    let loss_percent = stats.loss_basis_points() as f64 / 100.0;
    assert!((loss_percent - 33.333).abs() < 1.0);
}

#[test]
fn average_and_jitter_values() {
    let mut stats = HopStats::default();
    stats.add_sample(10_000);
    stats.add_sample(20_000);
    stats.add_sample(15_000);
    assert_eq!(stats.total_us, 45_000);
    assert_eq!(stats.avg_us(), Some(15_000));
    // deviations: |10000-10000| = 0, |20000-15000| = 5000, |15000-15000| = 0
    assert_eq!(stats.deviation_total_us, 5_000);
    assert_eq!(stats.jitter_us(), Some(1_666));
    assert_eq!(stats.rounded_avg_ms(), 15);
    assert_eq!(stats.rounded_jitter_ms(), 2);
}

#[test]
fn fresh_stats_have_no_latency() {
    let stats = HopStats::default();
    assert_eq!(stats.avg_us(), None);
    assert_eq!(stats.jitter_us(), None);
    assert_eq!(stats.loss_basis_points(), 0);
    assert_eq!(stats.rounded_loss_percent(), 0);
}

#[test]
fn loss_rounding_ties_to_even() {
    let mut stats = HopStats::default();
    stats.sent = 8;
    stats.received = 7;
    // 12.5% rounds to 12
    assert_eq!(stats.rounded_loss_percent(), 12);
    stats.received = 5;
    // 37.5% rounds to 38
    assert_eq!(stats.rounded_loss_percent(), 38);
    assert_eq!(stats.loss_basis_points(), 3750);
}

#[test]
fn timeouts_only_add_loss() {
    let mut stats = HopStats::default();
    stats.add_timeout();
    stats.add_timeout();
    assert_eq!(stats.sent, 2);
    assert_eq!(stats.received, 0);
    assert_eq!(stats.loss_basis_points(), 10_000);
    assert_eq!(stats.best_us, None);
}

#[test]
fn extremes_bound_every_sample() {
    let mut stats = HopStats::default();
    for x in [30_000u64, 5_000, 70_000, 12_000] {
        stats.add_sample(x);
        assert!(stats.best_us.unwrap() <= x && x <= stats.worst_us.unwrap());
        let avg = stats.avg_us().unwrap();
        assert!(stats.best_us.unwrap() <= avg && avg <= stats.worst_us.unwrap());
    }
    assert_eq!(stats.best_us, Some(5_000));
    assert_eq!(stats.worst_us, Some(70_000));
}

#[test]
fn new_hop_is_unknown_and_empty() {
    let h = HopSample::new(4);
    assert_eq!(h.index, 4);
    assert_eq!(h.status, Severity::Unknown);
    assert!(h.hostname.is_none());
    assert!(h.ip.is_none());
    assert!(h.interpretation.is_none());
    assert_eq!(h.stats, HopStats::default());
}

#[test]
fn average_over_a_run_is_the_mean_of_the_answers() {
    let mut s = HopStats::default();
    s.add_sample(10_000);
    s.add_timeout();
    s.add_sample(20_000);
    s.add_timeout();
    s.add_sample(15_001);
    assert_eq!(s.sent, 5);
    assert_eq!(s.received, 3);
    assert_eq!(s.total_us, 45_001);
    assert_eq!(s.avg_us(), Some(15_000));
    assert_eq!(s.best_us, Some(10_000));
    assert_eq!(s.worst_us, Some(20_000));
    assert_eq!(s.last_us, Some(15_001));

    let mut t = HopStats::default();
    t.add_timeout();
    assert_eq!(t.last_us, None);
    assert_eq!(t.avg_us(), None);
    assert_eq!(t.jitter_us(), None);
}
