use wltp::ip::{parse_ip, ip_to_string, IpAddress};
use wltp::portable::PortableTraceRunner;
use wltp::scan::parse_latency_us;
use wltp::text::chars_of;
use wltp::traceroute::{
    supported_target,
    accept_route_line, extract_ping_time, finish_route_discovery, literal_target_ip, parse_macos_hop_line,
    parse_macos_traceroute_output, parse_windows_ping_latency, parse_windows_route_line,
};
use wltp::types::{HopSample, Severity, TraceConfig, TraceSession};

fn ip(s: &str) -> Option<IpAddress> {
    parse_ip(&chars_of(s))
}

#[test]
fn ipv4_parsing_follows_the_standard_rules() {
    assert_eq!(ip("192.168.1.1"), Some(IpAddress::V4(192, 168, 1, 1)));
    assert_eq!(ip("0.0.0.0"), Some(IpAddress::V4(0, 0, 0, 0)));
    assert_eq!(ip("255.255.255.255"), Some(IpAddress::V4(255, 255, 255, 255)));
    assert_eq!(ip("256.1.1.1"), None);
    assert_eq!(ip("01.2.3.4"), None);
    assert_eq!(ip("1.2.3"), None);
    assert_eq!(ip("1.2.3.4.5"), None);
    assert_eq!(ip("+1.2.3.4"), None);
    assert_eq!(ip("1..3.4"), None);
    assert_eq!(ip(""), None);
    assert_eq!(ip("1234.1.1.1"), None);
    assert_eq!(literal_target_ip("8.8.8.8"), Some(IpAddress::V4(8, 8, 8, 8)));
    assert_eq!(literal_target_ip("example.com"), None);
}

#[test]
fn ipv6_parsing_follows_the_standard_rules() {
    assert_eq!(ip("2001:db8::1"), Some(IpAddress::V6(0x2001, 0xdb8, 0, 0, 0, 0, 0, 1)));
    assert_eq!(ip("::"), Some(IpAddress::V6(0, 0, 0, 0, 0, 0, 0, 0)));
    assert_eq!(ip("::1"), Some(IpAddress::V6(0, 0, 0, 0, 0, 0, 0, 1)));
    assert_eq!(ip("fe80::"), Some(IpAddress::V6(0xfe80, 0, 0, 0, 0, 0, 0, 0)));
    assert_eq!(ip("1:2:3:4:5:6:7:8"), Some(IpAddress::V6(1, 2, 3, 4, 5, 6, 7, 8)));
    assert_eq!(ip("FFFF:abcd:0:0:0:0:0:0"), Some(IpAddress::V6(0xffff, 0xabcd, 0, 0, 0, 0, 0, 0)));
    assert_eq!(ip("::ffff:192.168.1.1"), Some(IpAddress::V6(0, 0, 0, 0, 0, 0xffff, 0xc0a8, 0x0101)));
    assert_eq!(ip("1:2:3:4:5:6:1.2.3.4"), Some(IpAddress::V6(1, 2, 3, 4, 5, 6, 0x0102, 0x0304)));
    assert_eq!(ip("1::2:3"), Some(IpAddress::V6(1, 0, 0, 0, 0, 0, 2, 3)));
    assert_eq!(ip("0001:02::"), Some(IpAddress::V6(1, 2, 0, 0, 0, 0, 0, 0)));
    assert_eq!(ip("1::2::3"), None);
    assert_eq!(ip("12345::"), None);
    assert_eq!(ip("1.2.3.4::"), None);
    assert_eq!(ip("1.2.3.4::1"), None);
    assert_eq!(ip(":1::"), None);
    assert_eq!(ip("1:2:3:4:5:6:7:8:9"), None);
    assert_eq!(ip("1:2:3:4:5:6:7"), None);
    assert_eq!(ip("1:2:3:4:5:6:7:8::"), None);
    assert_eq!(ip("1:2:3:4::5:6:7:8"), None);
    assert_eq!(ip("::ffff:1.2.3.04"), None);
    assert_eq!(ip("g::"), None);
    assert_eq!(ip("::1.2.3.4"), Some(IpAddress::V6(0, 0, 0, 0, 0, 0, 0x0102, 0x0304)));
    assert_eq!(literal_target_ip("2001:4860:4860::8888"), Some(IpAddress::V6(0x2001, 0x4860, 0x4860, 0, 0, 0, 0, 0x8888)));
}

#[test]
fn ip_text_matches_std_display() {
    let cases: Vec<(IpAddress, &str)> = vec![
        (IpAddress::V4(10, 0, 255, 1), "10.0.255.1"),
        (IpAddress::V6(0x2001, 0xdb8, 0, 0, 0, 0, 0, 1), "2001:db8::1"),
        (IpAddress::V6(0, 0, 0, 0, 0, 0, 0, 0), "::"),
        (IpAddress::V6(0, 0, 0, 0, 0, 0, 0, 1), "::1"),
        (IpAddress::V6(0, 0, 0, 0, 0, 0xffff, 0xc0a8, 0x0101), "::ffff:192.168.1.1"),
        (IpAddress::V6(1, 0, 2, 0, 3, 0, 4, 0), "1:0:2:0:3:0:4:0"),
        (IpAddress::V6(1, 0, 0, 2, 0, 0, 3, 4), "1::2:0:0:3:4"),
        (IpAddress::V6(0xfe80, 0, 0, 0, 0xabcd, 0, 0, 0), "fe80::abcd:0:0:0"),
    ];
    for (addr, text) in cases {
        assert_eq!(ip_to_string(&addr), text);
    }
}

#[test]
fn ipv4_text_reads_back() {
    for (a, b, c, d) in [(0u8, 0u8, 0u8, 0u8), (1, 22, 100, 255), (9, 10, 99, 200)] {
        let addr = IpAddress::V4(a, b, c, d);
        assert_eq!(ip(&ip_to_string(&addr)), Some(addr));
    }
}

#[test]
fn ipv6_text_reads_back() {
    let addrs = [
        IpAddress::V6(0x2001, 0xdb8, 0, 0, 0, 0, 0, 1),
        IpAddress::V6(0, 0, 0, 0, 0, 0, 0, 0),
        IpAddress::V6(0, 0, 0, 0, 0, 0xffff, 0xc0a8, 0x0101),
        IpAddress::V6(1, 0, 2, 0, 3, 0, 4, 0),
        IpAddress::V6(0xffff, 0xffff, 0xffff, 0xffff, 0xffff, 0xffff, 0xffff, 0xffff),
    ];
    for addr in addrs {
        assert_eq!(ip(&ip_to_string(&addr)), Some(addr));
    }
}

#[test]
fn windows_route_lines() {
    let h = parse_windows_route_line("  1    <1 ms    <1 ms    <1 ms  192.168.1.1").unwrap();
    assert_eq!(h.index, 1);
    assert_eq!(h.ip, Some(IpAddress::V4(192, 168, 1, 1)));
    assert_eq!(h.hostname, None);
    assert_eq!(h.stats.sent, 0);

    let h = parse_windows_route_line("  2     *        *        *     Request timed out.").unwrap();
    assert_eq!(h.index, 2);
    assert_eq!(h.ip, None);
    assert_eq!(h.hostname, None);

    let h = parse_windows_route_line("  3    12 ms    11 ms    13 ms  router.example.net [10.0.0.1]").unwrap();
    assert_eq!(h.ip, Some(IpAddress::V4(10, 0, 0, 1)));
    assert_eq!(h.hostname.as_deref(), Some("router.example.net"));

    assert!(parse_windows_route_line("Tracing route to example.com [93.184.216.34]").is_none());
    assert!(parse_windows_route_line("over a maximum of 30 hops:").is_none());
    assert!(parse_windows_route_line("Trace complete.").is_none());
    assert!(parse_windows_route_line("   ").is_none());
    assert!(parse_windows_route_line("abc 1.2.3.4").is_none());

    let h = parse_windows_route_line("  4    14 ms    <1 ms    9 ms  10.0.0.9").unwrap();
    assert_eq!(h.hostname, None);
    assert_eq!(h.ip, Some(IpAddress::V4(10, 0, 0, 9)));
}

#[test]
fn windows_ping_replies() {
    assert_eq!(parse_windows_ping_latency("\r\nPinging 8.8.8.8 with 32 bytes of data:\r\nReply from 8.8.8.8: bytes=32 time=14ms TTL=117\r\n"), Some(14_000));
    assert_eq!(parse_windows_ping_latency("Reply from 127.0.0.1: bytes=32 time<1ms TTL=128\r\n"), Some(1_000));
    assert_eq!(parse_windows_ping_latency("Pinging 10.1.1.1 with 32 bytes of data:\r\nRequest timed out.\r\n"), None);
    assert_eq!(parse_windows_ping_latency("Reply from 10.0.0.1: Destination host unreachable.\r\n"), None);
    assert_eq!(parse_windows_ping_latency(""), None);
    assert_eq!(extract_ping_time(&chars_of("time=2.5ms"), "time="), Some(2_500));
    assert_eq!(extract_ping_time(&chars_of("no marker"), "time="), None);
    assert_eq!(extract_ping_time(&chars_of("time=7ms time=9ms"), "time="), Some(7_000));
}

#[test]
fn macos_hop_lines() {
    let h = parse_macos_hop_line("1  192.168.1.1 (192.168.1.1)  0.543 ms  0.456 ms  0.321 ms").unwrap();
    assert_eq!(h.index, 1);
    assert_eq!(h.ip, Some(IpAddress::V4(192, 168, 1, 1)));
    assert_eq!(h.stats.sent, 3);
    assert_eq!(h.stats.received, 3);
    assert_eq!(h.stats.best_us, Some(321));
    assert_eq!(h.stats.worst_us, Some(543));
    assert_eq!(h.status, Severity::Healthy);
    assert_eq!(h.hostname, None);

    let h = parse_macos_hop_line("2  * * *").unwrap();
    assert_eq!(h.stats.sent, 3);
    assert_eq!(h.stats.received, 0);
    assert_eq!(h.status, Severity::Unknown);

    let h = parse_macos_hop_line("3  router.local (10.0.0.1)  1.2 ms *  2.0 MS").unwrap();
    assert_eq!(h.hostname.as_deref(), Some("router.local"));
    assert_eq!(h.ip, Some(IpAddress::V4(10, 0, 0, 1)));
    assert_eq!(h.stats.sent, 3);
    assert_eq!(h.stats.received, 2);
    assert_eq!(h.stats.total_us, 3_200);

    assert!(parse_macos_hop_line("4  somehost").is_none());
    assert!(parse_macos_hop_line("traceroute to example.com").is_none());

    let h = parse_macos_hop_line("1 1e2 ms").unwrap();
    assert_eq!(h.stats.sent, 1);
    assert_eq!(h.stats.received, 1);
    assert_eq!(h.stats.last_us, Some(100_000));
}

fn latency(s: &str) -> Option<u64> {
    parse_latency_us(&chars_of(s))
}

#[test]
fn latency_tokens_follow_decimal_number_syntax() {
    assert_eq!(latency("12"), Some(12_000));
    assert_eq!(latency("+12"), Some(12_000));
    assert_eq!(latency("0.543"), Some(543));
    assert_eq!(latency("1.23456"), Some(1_234));
    assert_eq!(latency("5."), Some(5_000));
    assert_eq!(latency(".5"), Some(500));
    assert_eq!(latency("1e2"), Some(100_000));
    assert_eq!(latency("2E+1"), Some(20_000));
    assert_eq!(latency("1.5e-1"), Some(150));
    assert_eq!(latency("1e-4"), Some(0));
    assert_eq!(latency("0e99999999999999999999"), Some(0));
    assert_eq!(latency("3e-99999999999999999999"), Some(0));
    assert_eq!(latency("1e30"), None);
    assert_eq!(latency("18446744073709551.615"), Some(u64::MAX));
    assert_eq!(latency("18446744073709551.616"), None);
    assert_eq!(latency("1e"), None);
    assert_eq!(latency("e5"), None);
    assert_eq!(latency("."), None);
    assert_eq!(latency("1.2.3"), None);
    assert_eq!(latency("-1"), None);
    assert_eq!(latency("inf"), None);
    assert_eq!(latency("NaN"), None);
    assert_eq!(latency(""), None);
}

#[test]
fn macos_output() {
    let out = "traceroute to example.com (93.184.216.34), 30 hops max, 60 byte packets\n 1  192.168.1.1 (192.168.1.1)  1.0 ms  2.0 ms  3.0 ms\n\n 2  * * *\n";
    let hops = parse_macos_traceroute_output(out).unwrap();
    assert_eq!(hops.len(), 2);
    assert_eq!(hops[0].index, 1);
    assert_eq!(hops[0].stats.total_us, 6_000);
    assert_eq!(hops[1].index, 2);
    assert_eq!(hops[1].stats.sent, 3);
}

fn runner() -> PortableTraceRunner {
    let session = TraceSession::new(TraceConfig::default());
    PortableTraceRunner::new(&session, IpAddress::V4(1, 1, 1, 1)).unwrap()
}

#[test]
fn ipv6_targets_are_not_yet_supported() {
    let session = TraceSession::new(TraceConfig::default());
    let v6 = IpAddress::V6(0x2001, 0xdb8, 0, 0, 0, 0, 0, 1);
    let err = PortableTraceRunner::new(&session, v6).err().unwrap();
    assert_eq!(err.message(), "Invalid target: IPv6 is not yet supported");
    assert_eq!(supported_target(IpAddress::V4(8, 8, 8, 8)).unwrap(), IpAddress::V4(8, 8, 8, 8));
    assert_eq!(supported_target(v6).err().unwrap().message(), "Invalid target: IPv6 is not yet supported");
}

#[test]
fn portable_tracert_parsing() {
    let mut r = runner();
    assert_eq!(r.target_ip(), IpAddress::V4(1, 1, 1, 1));
    let h = r.parse_tracert_line("1  <1 ms    <1 ms    <1 ms  192.168.1.1").unwrap();
    assert_eq!(h.ip, Some(IpAddress::V4(192, 168, 1, 1)));
    assert_eq!(h.stats.sent, 0);
    let h = r.parse_tracert_line("2     *        *     * Request timed out.").unwrap();
    assert_eq!(h.stats.sent, 3);
    assert_eq!(h.stats.received, 0);
    assert_eq!(h.stats.loss_basis_points(), 10_000);
    assert_eq!(h.status, Severity::Unknown);
    let h = r.parse_tracert_line("3  12ms 13ms 11ms 10.0.0.1 10.0.0.2").unwrap();
    assert_eq!(h.stats.received, 3);
    assert_eq!(h.stats.best_us, Some(11_000));
    assert_eq!(h.ip, Some(IpAddress::V4(10, 0, 0, 1)));
    assert!(r.parse_tracert_line("").is_none());

    let out = "\r\nTracing route to example.com [93.184.216.34]\r\nover a maximum of 30 hops:\r\n\r\n  1    <1 ms    <1 ms    <1 ms  192.168.1.1\r\n  2     *        *        *     Request timed out.\r\n\r\nTrace complete.\r\n";
    let hops = r.parse_tracert_output(out).unwrap();
    assert_eq!(hops.len(), 2);
    assert_eq!(hops[1].stats.sent, 3);
    let kept = r.get_hops();
    assert_eq!(kept.len(), 2);
    assert_eq!(kept[0].index, 1);
    assert_eq!(kept[0].ip, Some(IpAddress::V4(192, 168, 1, 1)));
    assert_eq!(kept[1].stats.sent, 3);
}

#[test]
fn portable_macos_parsing() {
    let mut r = runner();
    let h = r.parse_macos_traceroute_line("1  192.168.1.1 (192.168.1.1)  0.5ms  0.4 ms").unwrap();
    assert_eq!(h.ip, Some(IpAddress::V4(192, 168, 1, 1)));
    assert_eq!(h.stats.received, 1);
    assert_eq!(h.stats.last_us, Some(500));
    let out = "traceroute to x (1.2.3.4), 64 hops max\n 1  (10.0.0.1)  3ms\n";
    let hops = r.parse_macos_traceroute_output(out).unwrap();
    assert_eq!(hops.len(), 1);
    assert_eq!(hops[0].ip, Some(IpAddress::V4(10, 0, 0, 1)));
    let kept = r.get_hops();
    assert_eq!(kept.len(), 1);
    assert_eq!(kept[0].ip, Some(IpAddress::V4(10, 0, 0, 1)));
    assert_eq!(kept[0].stats.last_us, Some(3000));
}

#[test]
fn route_discovery_keeps_first_hop_per_index() {
    let mut hops: Vec<HopSample> = Vec::new();
    assert!(accept_route_line(&mut hops, "  1    <1 ms    <1 ms    <1 ms  192.168.1.1"));
    assert!(!accept_route_line(&mut hops, "  1    <1 ms    <1 ms    <1 ms  192.168.1.2"));
    assert!(!accept_route_line(&mut hops, "Trace complete."));
    assert!(accept_route_line(&mut hops, "  2     *        *        *     Request timed out."));
    assert_eq!(hops.len(), 2);
    assert_eq!(hops[0].ip, Some(IpAddress::V4(192, 168, 1, 1)));

    let err = finish_route_discovery(Vec::new(), false, true).unwrap_err();
    assert_eq!(err.message(), "Internal error: tracert did not return any usable hop information");
    assert!(finish_route_discovery(Vec::new(), false, false).unwrap().is_empty());
    assert_eq!(finish_route_discovery(hops, false, true).unwrap().len(), 2);
}
