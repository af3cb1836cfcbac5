use wltp::interpretation::InterpretationEngine;
use wltp::settings::{ExplanationLevel, Settings};
use wltp::types::{HopSample, Severity};

fn hop(index: u8, sent: u32, received: u32, avg_ms: u64) -> HopSample {
    let mut h = HopSample::new(index);
    h.stats.sent = sent;
    h.stats.received = received;
    h.stats.total_us = (avg_ms as u128) * 1000 * received as u128;
    h
}

#[test]
fn empty_route_summary() {
    let engine = InterpretationEngine::new();
    let summary = engine.generate_summary(&[]);
    assert_eq!(summary.overall_status, Severity::Unknown);
    assert_eq!(summary.primary_finding, "No trace data available");
    assert_eq!(summary.secondary_findings, vec!["The trace did not complete or no hops were discovered".to_string()]);
    assert_eq!(summary.recommended_next_steps, vec!["Try running the trace again".to_string()]);
    assert!(!summary.destination_reachable);
    assert_eq!(summary.problem_hop_index, None);
}

#[test]
fn healthy_route_summary() {
    let engine = InterpretationEngine::new();
    let hops = vec![hop(1, 10, 10, 5), hop(2, 10, 10, 15), hop(3, 10, 10, 25)];
    let annotated = engine.annotate_hops(&hops, ExplanationLevel::Detailed);
    let summary = engine.generate_summary(&annotated);
    assert_eq!(summary.overall_status, Severity::Healthy);
    assert_eq!(summary.primary_finding, "Connection looks stable");
    assert_eq!(summary.secondary_findings, vec!["No significant issues detected along the route".to_string()]);
    assert_eq!(summary.recommended_next_steps, vec!["No action needed - connection is healthy".to_string()]);
    assert!(summary.destination_reachable);
}

#[test]
fn unreachable_destination_is_critical() {
    let engine = InterpretationEngine::new();
    let hops = vec![hop(1, 10, 10, 5), hop(2, 10, 0, 0), hop(3, 10, 0, 0)];
    let annotated = engine.annotate_hops(&hops, ExplanationLevel::Detailed);
    let summary = engine.generate_summary(&annotated);
    assert_eq!(summary.overall_status, Severity::Critical);
    assert!(!summary.destination_reachable);
    assert_eq!(summary.primary_finding, "The route likely breaks near hop 2");
    assert_eq!(summary.secondary_findings[0], "Destination is not responding to ICMP requests");
    assert_eq!(summary.recommended_next_steps.len(), 2);
}

#[test]
fn loss_start_is_named() {
    let engine = InterpretationEngine::new();
    let hops = vec![hop(1, 100, 100, 5), hop(2, 100, 80, 10), hop(3, 100, 70, 12)];
    let annotated = engine.annotate_hops(&hops, ExplanationLevel::Detailed);
    let summary = engine.generate_summary(&annotated);
    assert!(summary.destination_reachable);
    assert_eq!(summary.primary_finding, "Packet loss begins at hop 2");
    assert_eq!(summary.secondary_findings[0], "High packet loss at destination: 30%");
    assert_eq!(summary.recommended_next_steps[0], "Contact your ISP or the destination server administrator");
    assert_eq!(summary.problem_hop_index, Some(2));
    assert_eq!(summary.overall_status, Severity::Warning);
}

#[test]
fn latency_start_is_named() {
    let engine = InterpretationEngine::new();
    let hops = vec![hop(1, 10, 10, 5), hop(2, 10, 10, 150), hop(3, 10, 10, 160)];
    let annotated = engine.annotate_hops(&hops, ExplanationLevel::Detailed);
    let summary = engine.generate_summary(&annotated);
    assert_eq!(summary.primary_finding, "Latency increase begins at hop 2");
    assert_eq!(summary.secondary_findings, vec!["Elevated latency to destination: 160ms".to_string()]);
    assert_eq!(
        summary.recommended_next_steps,
        vec!["Monitor the connection for changes".to_string(), "Share this report with technical support if issues persist".to_string()]
    );
}

#[test]
fn local_network_issue_is_flagged() {
    let engine = InterpretationEngine::new();
    let hops = vec![hop(1, 100, 80, 5), hop(2, 100, 100, 6), hop(3, 100, 100, 7)];
    let annotated = engine.annotate_hops(&hops, ExplanationLevel::Detailed);
    let summary = engine.generate_summary(&annotated);
    assert!(summary.secondary_findings.contains(&"Issues detected starting at your local network or ISP".to_string()));
    assert!(summary.recommended_next_steps.contains(&"Restart your router/modem".to_string()));
    assert_eq!(summary.primary_finding, "20% packet loss (likely rate-limiting)");
}

#[test]
fn annotate_marks_last_hop_as_destination() {
    let engine = InterpretationEngine::new();
    let hops = vec![hop(1, 5, 0, 0), hop(2, 5, 5, 10)];
    let annotated = engine.annotate_hops(&hops, ExplanationLevel::Simple);
    assert_eq!(annotated.len(), 2);
    assert_eq!(annotated[0].status, Severity::Unknown);
    assert_eq!(annotated[0].interpretation.as_ref().unwrap().headline, "This hop ignores ping replies");
    assert_eq!(annotated[1].status, Severity::Healthy);
    assert_eq!(annotated[1].interpretation.as_ref().unwrap().headline, "Target looks healthy (10ms)");
    assert_eq!(annotated[1].stats, hops[1].stats);
}

#[test]
fn interpret_hops_uses_settings_level() {
    let engine = InterpretationEngine::new();
    let mut settings = Settings::default();
    settings.explanation_level = ExplanationLevel::Detailed;
    let hops = vec![hop(1, 10, 10, 5), hop(2, 10, 10, 150), hop(3, 10, 10, 160)];
    let summary = wltp::interpretation::interpret_hops(&engine, &settings, &hops).unwrap();
    assert_eq!(summary.primary_finding, "Latency increase begins at hop 2");
}

#[test]
fn destination_is_highest_index_even_out_of_order() {
    let engine = InterpretationEngine::new();
    let hops = vec![hop(3, 10, 0, 0), hop(1, 10, 10, 5), hop(2, 10, 10, 8)];
    let summary = engine.generate_summary(&hops);
    assert!(!summary.destination_reachable);
    assert_eq!(summary.overall_status, Severity::Critical);
}
