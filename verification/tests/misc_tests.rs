use wltp::interpretation::InterpretationEngine;
use wltp::ip::IpAddress;
use wltp::report::{export_html, render_html_report};
use wltp::settings::{default_language, sanitize_settings, settings_from_stored, ExplanationLevel, Language, Settings, Theme};
use wltp::text::decimal_string;
use wltp::traceroute::{cycle_delay_ms, record_probe, traceroute_wait_seconds, ProbeAction, ProbeSchedule, TraceError};
use wltp::types::{
    default_count, default_interval, default_max_hops, default_protocol, default_timeout, HopSample, ProtocolMode,
    SessionState, SessionSummary, Severity, TraceConfig, TraceSession,
};

#[test]
fn defaults() {
    assert_eq!(default_protocol(), ProtocolMode::Icmp);
    assert_eq!(default_interval(), 1000);
    assert_eq!(default_max_hops(), 30);
    assert_eq!(default_timeout(), 1000);
    assert_eq!(default_count(), 0);
    let c = TraceConfig::default();
    assert_eq!(c.target, "");
    assert_eq!(c.max_hops, 30);
    assert_eq!(default_language(), Language::En);
    let s = Settings::default();
    assert_eq!(s.theme, Theme::System);
    assert_eq!(s.explanation_level, ExplanationLevel::Simple);
    assert_eq!(s.default_interval_ms, 1000);
    let summary = SessionSummary::default();
    assert_eq!(summary.primary_finding, "Analysis pending...");
    assert_eq!(summary.overall_status, Severity::Unknown);
}

#[test]
fn settings_are_clamped() {
    let mut s = Settings::default();
    s.default_interval_ms = 5;
    s.default_max_hops = 200;
    s.default_timeout_ms = 50_000;
    s.language = Language::Ru;
    let c = sanitize_settings(s);
    assert_eq!(c.default_interval_ms, 100);
    assert_eq!(c.default_max_hops, 64);
    assert_eq!(c.default_timeout_ms, 10_000);
    assert_eq!(c.language, Language::Ru);
    assert_eq!(sanitize_settings(c), c);
    s.default_max_hops = 0;
    assert_eq!(sanitize_settings(s).default_max_hops, 1);
    assert_eq!(settings_from_stored(None), Settings::default());
    assert_eq!(settings_from_stored(Some(s)).default_interval_ms, 100);
}

#[test]
fn sessions() {
    let mut config = TraceConfig::default();
    config.target = "example.com".to_string();
    let mut s = TraceSession::new(config);
    assert_eq!(s.id.len(), 36);
    assert_eq!(s.id.as_bytes()[14], b'4');
    assert_eq!(s.state, SessionState::Initializing);
    assert_eq!(s.config.target, "example.com");
    let other = TraceSession::new(TraceConfig::default());
    assert_ne!(s.id, other.id);
    s.mark_running(IpAddress::V4(1, 2, 3, 4), 1_700_000_000_000);
    assert_eq!(s.state, SessionState::Running);
    assert_eq!(s.target_ip, Some(IpAddress::V4(1, 2, 3, 4)));
    s.mark_error("boom".to_string());
    assert_eq!(s.state, SessionState::Error);
    assert_eq!(s.error.as_deref(), Some("boom"));
    let w = TraceSession::with_id("abc".to_string(), TraceConfig::default());
    assert_eq!(w.id, "abc");
}

#[test]
fn error_messages() {
    assert_eq!(TraceError::DnsResolution("x: y".to_string()).message(), "DNS resolution failed: x: y");
    assert_eq!(TraceError::Socket("s".to_string()).message(), "Socket error: s");
    assert_eq!(TraceError::PermissionDenied.message(), "Permission denied (requires administrator/root)");
    assert_eq!(TraceError::InvalidTarget("t".to_string()).message(), "Invalid target: t");
    assert_eq!(TraceError::AlreadyRunning.message(), "Trace already running");
    assert_eq!(TraceError::NotRunning.message(), "Trace not running");
    assert_eq!(TraceError::Internal("i".to_string()).message(), "Internal error: i");
}

#[test]
fn probing_schedule() {
    let mut s = ProbeSchedule::new(2, 1).unwrap();
    assert_eq!(s.next_action(true), ProbeAction::Probe(0));
    assert_eq!(s.next_action(true), ProbeAction::Probe(1));
    assert_eq!(s.next_action(true), ProbeAction::Sleep);
    assert_eq!(s.next_action(true), ProbeAction::Finish);
    let mut s = ProbeSchedule::new(1, 0).unwrap();
    for _ in 0..5 {
        assert_eq!(s.next_action(true), ProbeAction::Probe(0));
        assert_eq!(s.next_action(true), ProbeAction::Sleep);
    }
    assert_eq!(s.next_action(false), ProbeAction::Finish);
    assert_eq!(s.cycle, 5);
    let err = ProbeSchedule::new(0, 3).unwrap_err();
    assert_eq!(err.message(), "Internal error: Could not discover any hops for the route");
    assert_eq!(cycle_delay_ms(100), 250);
    assert_eq!(cycle_delay_ms(1000), 1000);
    assert_eq!(traceroute_wait_seconds(500), 1);
    assert_eq!(traceroute_wait_seconds(3000), 3);
}

#[test]
fn probes_update_hops() {
    let mut hop = HopSample::new(3);
    assert_eq!(record_probe(&mut hop, Some(12_000)), Some(12_000));
    assert_eq!(hop.status, Severity::Healthy);
    assert_eq!(record_probe(&mut hop, None), None);
    assert_eq!(hop.status, Severity::Unknown);
    assert_eq!(hop.stats.sent, 2);
    assert_eq!(hop.stats.received, 1);
}

#[test]
fn decimal_rendering() {
    assert_eq!(decimal_string(0), "0");
    assert_eq!(decimal_string(7), "7");
    assert_eq!(decimal_string(1234567890), "1234567890");
}

#[test]
fn html_report() {
    let engine = InterpretationEngine::new();
    let mut h1 = HopSample::new(1);
    h1.ip = Some(IpAddress::V4(192, 168, 1, 1));
    h1.stats.add_sample(1_250);
    h1.stats.add_timeout();
    h1.stats.add_sample(2_050);
    let mut h2 = HopSample::new(2);
    h2.hostname = Some("dns.example".to_string());
    h2.stats.add_sample(10_000);
    let hops = engine.annotate_hops(&[h1, h2], ExplanationLevel::Detailed);
    let summary = engine.generate_summary(&hops);
    let mut config = TraceConfig::default();
    config.target = "example.com".to_string();
    let html = render_html_report(&summary, &hops, &config, "2025-01-01 00:00:00 UTC");
    assert!(html.starts_with("<!DOCTYPE html>"));
    assert!(html.contains("<title>WLTP Report - example.com</title>"));
    assert!(html.contains("Target: <strong>example.com</strong> | Generated: 2025-01-01 00:00:00 UTC"));
    assert!(html.contains("<td title=\"192.168.1.1\">192.168.1.1</td>"));
    assert!(html.contains("<td title=\"*\">dns.example</td>"));
    assert!(html.contains("<td>33.3%</td>"));
    assert!(html.contains("<td>1.2</td>"));
    assert!(html.contains("<td>1.6</td>"));
    assert!(html.contains("<td>2.0</td>"));
    assert!(html.contains("<td>0.2</td>"));
    assert!(html.contains("<td>10.0</td>"));
    assert!(html.contains("<td>-</td>") == false);
    assert!(html.contains(&format!("<li>{}</li>", summary.secondary_findings[0])));
    assert!(html.ends_with("</html>"));
    let exported = export_html(summary, hops, config).unwrap();
    assert!(exported.contains("WLTP Network Diagnostic Report"));
    let at = exported.find("Generated: ").unwrap() + "Generated: ".len();
    let stamp: Vec<char> = exported[at..].chars().take(23).collect();
    assert_eq!(stamp[4], '-');
    assert_eq!(stamp[7], '-');
    assert_eq!(stamp[10], ' ');
    assert_eq!(stamp[13], ':');
    assert_eq!(stamp[16], ':');
    assert_eq!(stamp[19..].iter().collect::<String>(), " UTC");
    for i in [0usize, 1, 2, 3, 5, 6, 8, 9, 11, 12, 14, 15, 17, 18] {
        assert!(stamp[i].is_ascii_digit());
    }
}

#[test]
fn each_hop_is_probed_count_times_then_the_run_finishes() {
    let mut s = ProbeSchedule::new(3, 2).unwrap();
    let mut probes = [0u32; 3];
    let mut steps = 0;
    loop {
        match s.next_action(true) {
            ProbeAction::Probe(i) => probes[i] += 1,
            ProbeAction::Sleep => {},
            ProbeAction::Finish => break,
        }
        steps += 1;
    }
    assert_eq!(steps, 2 * (3 + 1));
    assert_eq!(probes, [2, 2, 2]);
}
