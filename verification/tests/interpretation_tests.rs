use wltp::interpretation::InterpretationEngine;
use wltp::settings::ExplanationLevel;
use wltp::traceroute::literal_target_ip;
use wltp::types::{HopSample, Severity};

/// A hop with the given counts and average latency (in milliseconds); the loss
/// percentage follows from the counts and is checked against the given value.
fn make_hop(index: u8, sent: u32, received: u32, avg_ms: Option<f64>, loss_percent: f64) -> HopSample {
    let mut hop = HopSample::new(index);
    hop.stats.sent = sent;
    hop.stats.received = received;
    if let Some(avg) = avg_ms {
        hop.stats.total_us = (avg * 1000.0) as u128 * received as u128;
    }
    let derived = hop.stats.loss_basis_points() as f64 / 100.0;
    assert!((derived - loss_percent).abs() < 0.01);
    hop
}

#[test]
fn test_interpret_ok() {
    let engine = InterpretationEngine::new();
    let mut hop = HopSample::new(5);
    hop.stats.add_sample(20_000);
    hop.stats.add_sample(25_000);
    hop.stats.add_sample(22_000);
    hop.ip = literal_target_ip("192.168.1.1");

    let interpretation = engine.interpret_hop(&hop, false, &[]);

    assert_eq!(interpretation.severity, Severity::Healthy);
    assert!(interpretation.headline.contains("Healthy"));
}

#[test]
fn test_interpret_loss_at_destination() {
    let engine = InterpretationEngine::new();
    let hop = make_hop(10, 100, 70, Some(50.0), 30.0);

    let interpretation = engine.interpret_hop(&hop, true, &[]);

    assert!(matches!(interpretation.severity, Severity::Critical | Severity::Warning));
    assert!(interpretation.headline.contains("30% packet loss"));
}

#[test]
fn test_interpret_rate_limited() {
    let engine = InterpretationEngine::new();
    let hop = make_hop(5, 100, 80, Some(20.0), 20.0);
    let next_hop = make_hop(6, 100, 99, Some(22.0), 1.0);

    let interpretation = engine.interpret_hop(&hop, false, &[&next_hop]);

    assert_eq!(interpretation.severity, Severity::Warning);
    assert!(interpretation.headline.contains("rate-limiting"));
}

#[test]
fn test_simple_no_response_message_for_beginners() {
    let engine = InterpretationEngine::new();
    let hop = make_hop(4, 5, 0, None, 100.0);
    let next_hop = make_hop(5, 5, 5, Some(18.0), 0.0);

    let interpretation = engine.interpret_hop_with_level(&hop, false, &[&next_hop], ExplanationLevel::Simple);

    assert_eq!(interpretation.severity, Severity::Unknown);
    assert!(interpretation.headline.contains("ignores ping replies"));
}

#[test]
fn test_generate_summary_ok() {
    let engine = InterpretationEngine::new();

    let mut hops = vec![
        make_hop(1, 10, 10, Some(5.0), 0.0),
        make_hop(2, 10, 10, Some(15.0), 0.0),
        make_hop(3, 10, 10, Some(25.0), 0.0),
    ];

    for hop in &mut hops {
        let interpretation = engine.interpret_hop(hop, hop.index == 3, &[]);
        hop.status = interpretation.severity;
        hop.interpretation = Some(interpretation);
    }

    let summary = engine.generate_summary(&hops);

    assert_eq!(summary.overall_status, Severity::Healthy);
    assert!(summary.destination_reachable);
}

#[test]
fn destination_heavy_loss_is_critical_with_exact_headline() {
    let engine = InterpretationEngine::new();
    let hop = make_hop(10, 100, 70, Some(50.0), 30.0);
    let interpretation = engine.interpret_hop(&hop, true, &[]);
    assert_eq!(interpretation.severity, Severity::Critical);
    assert_eq!(interpretation.headline, "30% packet loss to destination");
    assert_eq!(interpretation.confidence_percent, 90);
    assert_eq!(interpretation.probable_causes.len(), 4);
}

#[test]
fn moderate_destination_loss_is_a_warning() {
    let engine = InterpretationEngine::new();
    let hop = make_hop(10, 100, 90, Some(50.0), 10.0);
    let interpretation = engine.interpret_hop_with_level(&hop, true, &[], ExplanationLevel::Simple);
    assert_eq!(interpretation.severity, Severity::Warning);
    assert_eq!(interpretation.headline, "10% packet loss to the target");
}

#[test]
fn silent_destination_is_critical() {
    let engine = InterpretationEngine::new();
    let hop = make_hop(9, 4, 0, None, 100.0);
    let interpretation = engine.interpret_hop(&hop, true, &[]);
    assert_eq!(interpretation.severity, Severity::Critical);
    assert_eq!(interpretation.headline, "Destination not responding");
}

#[test]
fn silent_hop_before_silent_hops_breaks_the_route() {
    let engine = InterpretationEngine::new();
    let hop = make_hop(4, 5, 0, None, 100.0);
    let next_hop = make_hop(5, 5, 0, None, 100.0);
    let interpretation = engine.interpret_hop(&hop, false, &[&next_hop]);
    assert_eq!(interpretation.severity, Severity::Critical);
    assert_eq!(interpretation.headline, "Connection lost at this hop");
    assert_eq!(interpretation.confidence_percent, 75);
}

#[test]
fn loss_that_continues_starts_here() {
    let engine = InterpretationEngine::new();
    let hop = make_hop(3, 100, 80, Some(20.0), 20.0);
    let next_hop = make_hop(4, 100, 85, Some(22.0), 15.0);
    let interpretation = engine.interpret_hop(&hop, false, &[&next_hop]);
    assert_eq!(interpretation.severity, Severity::Warning);
    assert_eq!(interpretation.headline, "20% packet loss starting here");
}

#[test]
fn loss_with_moderate_later_loss_is_local() {
    let engine = InterpretationEngine::new();
    let hop = make_hop(3, 100, 80, Some(20.0), 20.0);
    let next_hop = make_hop(4, 100, 97, Some(22.0), 3.0);
    let other = make_hop(5, 100, 96, Some(22.0), 4.0);
    let mut third = make_hop(6, 100, 95, Some(22.0), 5.0);
    third.stats.received = 95;
    let interpretation = engine.interpret_hop(&hop, false, &[&next_hop, &other, &third]);
    assert_eq!(interpretation.headline, "20% packet loss at intermediate hop");
    assert_eq!(interpretation.confidence_percent, 60);
}

#[test]
fn latency_spike_and_slow_hop() {
    let engine = InterpretationEngine::new();
    let hop = make_hop(3, 10, 10, Some(150.0), 0.0);
    let slow_next = make_hop(4, 10, 10, Some(160.0), 0.0);
    let fast_next = make_hop(4, 10, 10, Some(20.0), 0.0);
    let spike = engine.interpret_hop(&hop, false, &[&slow_next]);
    assert_eq!(spike.severity, Severity::Warning);
    assert_eq!(spike.headline, "Latency spike at this hop: 150ms");
    let slow = engine.interpret_hop(&hop, false, &[&fast_next]);
    assert_eq!(slow.headline, "Elevated latency: 150ms");
    let last = engine.interpret_hop(&hop, false, &[]);
    assert_eq!(last.headline, "Elevated latency: 150ms");
}

#[test]
fn very_high_latency_at_destination_is_critical() {
    let engine = InterpretationEngine::new();
    let hop = make_hop(8, 10, 10, Some(350.0), 0.0);
    let interpretation = engine.interpret_hop_with_level(&hop, true, &[], ExplanationLevel::Simple);
    assert_eq!(interpretation.severity, Severity::Critical);
    assert_eq!(interpretation.headline, "The target is slow to answer (350ms)");
}

#[test]
fn jitter_is_reported() {
    let engine = InterpretationEngine::new();
    let mut hop = HopSample::new(7);
    hop.stats.add_sample(10_000);
    hop.stats.add_sample(110_000);
    hop.stats.add_sample(10_000);
    hop.stats.add_sample(110_000);
    assert_eq!(hop.stats.jitter_us(), Some(33_333));
    let interpretation = engine.interpret_hop(&hop, true, &[]);
    assert_eq!(interpretation.severity, Severity::Warning);
    assert_eq!(interpretation.headline, "High jitter: 33ms variation");
    let intermediate = engine.interpret_hop_with_level(&hop, false, &[], ExplanationLevel::Simple);
    assert_eq!(intermediate.headline, "This hop has unstable reply times (33ms)");
}

#[test]
fn healthy_destination_without_samples_shows_na() {
    let engine = InterpretationEngine::new();
    let hop = HopSample::new(2);
    let interpretation = engine.interpret_hop(&hop, true, &[]);
    assert_eq!(interpretation.severity, Severity::Healthy);
    assert_eq!(interpretation.headline, "Destination responding normally (N/A)");
    let lossy = make_hop(2, 1, 0, None, 100.0);
    let interpretation = engine.interpret_hop(&lossy, true, &[]);
    assert_eq!(interpretation.headline, "100% packet loss to destination");
}

#[test]
fn explanation_level_only_changes_wording() {
    let engine = InterpretationEngine::new();
    let hop = make_hop(5, 100, 80, Some(20.0), 20.0);
    let next_hop = make_hop(6, 100, 99, Some(22.0), 1.0);
    let simple = engine.interpret_hop_with_level(&hop, false, &[&next_hop], ExplanationLevel::Simple);
    let detailed = engine.interpret_hop_with_level(&hop, false, &[&next_hop], ExplanationLevel::Detailed);
    assert_eq!(simple.severity, detailed.severity);
    assert_eq!(simple.probable_causes, detailed.probable_causes);
    assert_eq!(simple.confidence_percent, detailed.confidence_percent);
    assert_ne!(simple.headline, detailed.headline);
    assert_eq!(simple.headline, "20% loss here is probably harmless");
}
