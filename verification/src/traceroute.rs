//! Reading what the system route tools print, and the decisions of the probing loop.
//!
//! The tools themselves (`tracert`, `ping`, `traceroute`) are run by the application; this
//! module turns their output into hops and decides what the probing loop does next.

use vstd::prelude::*;
use crate::ip::{IpAddress, ip_spec, parse_ip};
use crate::scan::{
    all_digits, is_digit, contains_lit, contains_text, count_equal, count_text, ends_with_text, find_from, find_text,
    is_text, latency_us_spec, lemma_find_from, lemma_lines_len, lines, parse_latency_us,
    parse_u8, parse_u8_spec, set_pred, split_lines, split_words, starts_with_text, strip_start,
    strip_suffix_rep, trim, trim_chars, trim_end_text, trim_set, trim_start_chars, trim_ws, vecs_view, words,
};
use crate::text::{chars_of, string_from_chars};
use crate::types::{HopSample, HopStats, Severity};

verus! {

/// The content of a hop as parsed from tool output: everything but the interpretation,
/// with the hostname as its characters.
pub struct HopRecord {
    pub index: u8,
    pub hostname: Option<Seq<char>>,
    pub ip: Option<IpAddress>,
    pub stats: HopStats,
    pub status: Severity,
}

/// The record of a hop.
pub open spec fn record_of(h: HopSample) -> HopRecord {
    HopRecord {
        index: h.index,
        hostname: match h.hostname {
            Some(s) => Some(s@),
            None => None,
        },
        ip: h.ip,
        stats: h.stats,
        status: h.status,
    }
}

/// The records of a list of hops.
pub open spec fn records_of(hs: Seq<HopSample>) -> Seq<HopRecord> {
    hs.map_values(|h: HopSample| record_of(h))
}

/// A hop at `index` with no data yet.
pub open spec fn fresh_record(index: u8) -> HopRecord {
    HopRecord { index, hostname: None, ip: None, stats: HopStats::spec_default(), status: Severity::Unknown }
}

/// `r` is the hop described by `spec`, and parsing attaches no interpretation.
pub open spec fn parsed_as(r: Option<HopSample>, spec: Option<HopRecord>) -> bool {
    match r {
        Some(h) => spec == Some(record_of(h)) && h.interpretation is None,
        None => spec is None,
    }
}

/// Errors that can occur during tracing.
#[derive(Debug, Clone)]
pub enum TraceError {
    DnsResolution(String),
    Socket(String),
    PermissionDenied,
    InvalidTarget(String),
    AlreadyRunning,
    NotRunning,
    Internal(String),
}

/// The message of an error, as its `Display` writes it.
pub open spec fn trace_error_text(e: TraceError) -> Seq<char> {
    match e {
        TraceError::DnsResolution(s) => "DNS resolution failed: "@ + s@,
        TraceError::Socket(s) => "Socket error: "@ + s@,
        TraceError::PermissionDenied => "Permission denied (requires administrator/root)"@,
        TraceError::InvalidTarget(s) => "Invalid target: "@ + s@,
        TraceError::AlreadyRunning => "Trace already running"@,
        TraceError::NotRunning => "Trace not running"@,
        TraceError::Internal(s) => "Internal error: "@ + s@,
    }
}

impl TraceError {
    /// The human-readable message of the error.
    pub fn message(&self) -> (r: String)
        ensures
            r@ == trace_error_text(*self),
    {
        match self {
            TraceError::DnsResolution(s) => {
                let mut r = String::from_str("DNS resolution failed: ");
                r.append(s.as_str());
                r
            },
            TraceError::Socket(s) => {
                let mut r = String::from_str("Socket error: ");
                r.append(s.as_str());
                r
            },
            TraceError::PermissionDenied => String::from_str("Permission denied (requires administrator/root)"),
            TraceError::InvalidTarget(s) => {
                let mut r = String::from_str("Invalid target: ");
                r.append(s.as_str());
                r
            },
            TraceError::AlreadyRunning => String::from_str("Trace already running"),
            TraceError::NotRunning => String::from_str("Trace not running"),
            TraceError::Internal(s) => {
                let mut r = String::from_str("Internal error: ");
                r.append(s.as_str());
                r
            },
        }
    }
}

/// The address a target names directly, before any name lookup is tried.
pub fn literal_target_ip(target: &str) -> (r: Option<IpAddress>)
    ensures
        r == ip_spec(target@),
{
    let c = chars_of(target);
    parse_ip(c.as_slice())
}

/// The tracer probes IPv4 addresses only: an IPv4 target is kept, an IPv6 target is
/// refused as not yet supported.
pub fn supported_target(ip: IpAddress) -> (r: Result<IpAddress, TraceError>)
    ensures
        ip is V4 ==> r == Ok::<IpAddress, TraceError>(ip),
        ip is V6 ==> (r matches Err(e) && trace_error_text(e) == "Invalid target: "@ + "IPv6 is not yet supported"@),
{
    match ip {
        IpAddress::V4(..) => Ok(ip),
        IpAddress::V6(..) => Err(TraceError::InvalidTarget(String::from_str("IPv6 is not yet supported"))),
    }
}

/// Records the outcome of one probe of `hop`: an answer after `probe` microseconds, or a
/// timeout. Returns the answer.
pub fn record_probe(hop: &mut HopSample, probe: Option<u64>) -> (r: Option<u64>)
    requires
        old(hop).stats.wf(),
        old(hop).stats.sent < u32::MAX,
    ensures
        r == probe,
        final(hop).stats == (match probe {
            Some(x) => old(hop).stats.after_sample(x),
            None => old(hop).stats.after_timeout(),
        }),
        final(hop).status == (if probe is Some { Severity::Healthy } else { Severity::Unknown }),
        final(hop).index == old(hop).index,
        final(hop).hostname == old(hop).hostname,
        final(hop).ip == old(hop).ip,
        final(hop).interpretation == old(hop).interpretation,
        final(hop).stats.wf(),
{
    match probe {
        Some(latency_us) => {
            hop.stats.add_sample(latency_us);
            hop.status = Severity::Healthy;
            Some(latency_us)
        },
        None => {
            hop.stats.add_timeout();
            hop.status = Severity::Unknown;
            None
        },
    }
}

/// The pause between probing cycles: the configured interval, but never under 250 ms.
pub fn cycle_delay_ms(interval_ms: u64) -> (r: u64)
    ensures
        r == (if interval_ms > 250 { interval_ms } else { 250 }),
{
    if interval_ms > 250 { interval_ms } else { 250 }
}

/// The per-probe wait given to `traceroute`, in whole seconds, never under one.
pub fn traceroute_wait_seconds(timeout_ms: u64) -> (r: u64)
    ensures
        r == (if timeout_ms / 1000 > 1 { timeout_ms / 1000 } else { 1 }),
{
    let s = timeout_ms / 1000;
    if s > 1 { s } else { 1 }
}

} // verus!

verus! {

/// Header and footer lines of `tracert` output, and empty lines.
pub open spec fn route_ignored_line(t: Seq<char>) -> bool {
    ||| t.len() == 0
    ||| "Tracing route"@.is_prefix_of(t)
    ||| "over a maximum"@.is_prefix_of(t)
    ||| "Trace complete"@.is_prefix_of(t)
}

/// A round-trip time as `tracert` prints it: digits, after an optional `<`.
pub open spec fn latency_word(c: Seq<char>) -> bool {
    let d = if c.len() > 0 && c[0] == '<' { c.drop_first() } else { c };
    d.len() > 0 && all_digits(d)
}

/// Words of a `tracert` line that are never a host name: timeout words, the `ms` unit and
/// round-trip times.
pub open spec fn route_noise(c: Seq<char>) -> bool {
    c == "*"@ || c == "ms"@ || c == "Request"@ || c == "timed"@ || c == "out."@ || latency_word(c)
}

/// The brackets around addresses in `tracert` output.
pub open spec fn bracket_set() -> Seq<char> {
    seq!['[', ']', '(', ')']
}

/// One word of a `tracert` route line applied to the hop read so far.
pub open spec fn route_step(h: HopRecord, word: Seq<char>) -> HopRecord {
    let clean = trim_set(word, bracket_set());
    match ip_spec(clean) {
        Some(ip) => HopRecord { ip: Some(ip), ..h },
        None => if !route_noise(clean) && h.hostname is None { HopRecord { hostname: Some(clean), ..h } } else { h },
    }
}

/// The words of a route line from position `i` on, applied to `h`.
pub open spec fn route_fold(h: HopRecord, parts: Seq<Seq<char>>, i: int) -> HopRecord
    decreases parts.len() - i,
{
    if i < 0 || i >= parts.len() { h } else { route_fold(route_step(h, parts[i]), parts, i + 1) }
}

/// The hop a `tracert` route line describes: its first word is the hop number, a word that
/// is an address (brackets removed) gives the address, and the first other word that is
/// not timeout noise gives the host name.
pub open spec fn route_line_spec(line: Seq<char>) -> Option<HopRecord> {
    let t = trim(line);
    if route_ignored_line(t) {
        None
    } else {
        let parts = words(t);
        if parts.len() == 0 {
            None
        } else {
            match parse_u8_spec(parts[0]) {
                None => None,
                Some(idx) => Some(route_fold(fresh_record(idx), parts, 1)),
            }
        }
    }
}

fn bracket_chars() -> (v: Vec<char>)
    ensures
        v@ == bracket_set(),
{
    let v = vec!['[', ']', '(', ')'];
    proof {
        assert(v@ =~= bracket_set());
    }
    v
}

fn is_latency_word(c: &[char]) -> (r: bool)
    ensures
        r == latency_word(c@),
{
    let start: usize = if c.len() > 0 && c[0] == '<' { 1 } else { 0 };
    let ghost d = if c@.len() > 0 && c@[0] == '<' { c@.drop_first() } else { c@ };
    if start >= c.len() {
        return false;
    }
    let mut i = start;
    while i < c.len()
        invariant
            start <= i <= c@.len(),
            start == (if c@.len() > 0 && c@[0] == '<' { 1int } else { 0int }),
            d == (if c@.len() > 0 && c@[0] == '<' { c@.drop_first() } else { c@ }),
            forall|m: int| 0 <= m < i - start ==> is_digit(#[trigger] d[m]),
        decreases c@.len() - i,
    {
        if !('0' <= c[i] && c[i] <= '9') {
            proof {
                assert(d[i - start] == c@[i as int]);
                assert(!is_digit(d[i - start]));
            }
            return false;
        }
        proof {
            assert(d[i - start] == c@[i as int]);
        }
        i = i + 1;
    }
    true
}

fn is_route_noise(c: &[char]) -> (r: bool)
    ensures
        r == route_noise(c@),
{
    is_text(c, "*") || is_text(c, "ms") || is_text(c, "Request") || is_text(c, "timed") || is_text(c, "out.")
        || is_latency_word(c)
}

/// A host name that is not a round-trip time (no name at all qualifies).
pub open spec fn name_not_latency(n: Option<Seq<char>>) -> bool {
    n matches Some(w) ==> !latency_word(w)
}

proof fn lemma_route_fold_names(h: HopRecord, parts: Seq<Seq<char>>, i: int)
    requires
        name_not_latency(h.hostname),
    ensures
        name_not_latency(route_fold(h, parts, i).hostname),
    decreases parts.len() - i,
{
    if 0 <= i < parts.len() {
        lemma_route_fold_names(route_step(h, parts[i]), parts, i + 1);
    }
}

/// A route line never gives a round-trip time such as `<1` or `12` as the host name.
pub proof fn lemma_route_line_names(line: Seq<char>)
    ensures
        route_line_spec(line) matches Some(h) ==> name_not_latency(h.hostname),
{
    let t = trim(line);
    let parts = words(t);
    if !route_ignored_line(t) && parts.len() > 0 {
        if let Some(idx) = parse_u8_spec(parts[0]) {
            lemma_route_fold_names(fresh_record(idx), parts, 1);
        }
    }
}

/// Reads one line of `tracert` output during route discovery. A round-trip time is never
/// taken as the host name.
pub fn parse_windows_route_line(line: &str) -> (r: Option<HopSample>)
    ensures
        parsed_as(r, route_line_spec(line@)),
        r matches Some(h) ==> (h.hostname matches Some(n) ==> !latency_word(n@)),
{
    proof {
        lemma_route_line_names(line@);
    }
    let raw = chars_of(line);
    let t = trim_ws(raw.as_slice());
    if t.len() == 0 || starts_with_text(t.as_slice(), "Tracing route") || starts_with_text(t.as_slice(), "over a maximum")
        || starts_with_text(t.as_slice(), "Trace complete") {
        return None;
    }
    let parts = split_words(t.as_slice());
    let ghost ps = vecs_view(parts@);
    if parts.len() == 0 {
        return None;
    }
    proof {
        assert(ps[0] == parts@[0]@);
    }
    let idx = match parse_u8(parts[0].as_slice()) {
        Some(v) => v,
        None => return None,
    };
    let mut hop = HopSample::new(idx);
    let brackets = bracket_chars();
    let mut i: usize = 1;
    proof {
        assert(record_of(hop) == fresh_record(idx));
    }
    while i < parts.len()
        invariant
            1 <= i <= parts@.len(),
            ps == vecs_view(parts@),
            brackets@ == bracket_set(),
            route_fold(fresh_record(idx), ps, 1) == route_fold(record_of(hop), ps, i as int),
            hop.interpretation is None,
        decreases parts@.len() - i,
    {
        let ghost pre = record_of(hop);
        proof {
            assert(ps[i as int] == parts@[i as int]@);
        }
        let clean = trim_chars(parts[i].as_slice(), brackets.as_slice());
        match parse_ip(clean.as_slice()) {
            Some(ip) => {
                hop.ip = Some(ip);
            },
            None => {
                if !is_route_noise(clean.as_slice()) && hop.hostname.is_none() {
                    hop.hostname = Some(string_from_chars(clean.as_slice()));
                }
            },
        }
        proof {
            assert(record_of(hop) == route_step(pre, ps[i as int]));
        }
        i = i + 1;
    }
    Some(hop)
}

/// The value a ping reply line carries after `marker`: the piece of the line between the
/// first occurrence of `marker` and the next one (or the end), its first word, without
/// trailing `ms` and leading `<`, read as milliseconds.
pub open spec fn ping_time_spec(line: Seq<char>, marker: Seq<char>) -> Option<u64> {
    match find_from(line, marker, 0) {
        None => None,
        Some(p) => {
            let start = p + marker.len();
            let end = match find_from(line, marker, start) {
                Some(q) => q,
                None => line.len() as int,
            };
            let w = words(line.subrange(start, end));
            if w.len() == 0 {
                None
            } else {
                latency_us_spec(strip_start(strip_suffix_rep(w[0], "ms"@), set_pred(seq!['<'])))
            }
        },
    }
}

/// Reads the time a `ping` reply line reports after `marker` (see `ping_time_spec`).
pub fn extract_ping_time(line: &[char], marker: &str) -> (r: Option<u64>)
    requires
        marker@.len() > 0,
    ensures
        r == ping_time_spec(line@, marker@),
{
    let m = chars_of(marker);
    let p = match find_text(line, m.as_slice(), 0) {
        Some(p) => p,
        None => return None,
    };
    let line_len = line.len();
    proof {
        lemma_find_from(line@, m@, 0);
        assert(crate::scan::occurs_at(line@, m@, p as int));
    }
    let start = p + m.len();
    let end = match find_text(line, m.as_slice(), start) {
        Some(q) => q,
        None => line.len(),
    };
    proof {
        lemma_find_from(line@, m@, start as int);
    }
    let mut rest: Vec<char> = Vec::new();
    let mut k = start;
    while k < end
        invariant
            start <= k <= end <= line@.len(),
            rest@ =~= line@.subrange(start as int, k as int),
        decreases end - k,
    {
        rest.push(line[k]);
        k = k + 1;
    }
    let w = split_words(rest.as_slice());
    if w.len() == 0 {
        return None;
    }
    proof {
        assert(vecs_view(w@)[0] == w@[0]@);
    }
    let ms = chars_of("ms");
    let a = trim_end_text(w[0].as_slice(), ms.as_slice());
    let lt = vec!['<'];
    proof {
        assert(lt@ =~= seq!['<']);
    }
    let b = trim_start_chars(a.as_slice(), lt.as_slice());
    parse_latency_us(b.as_slice())
}

/// The round-trip time a `ping -n 1` report gives: lines are read in order; a line saying
/// the request timed out or the host is unreachable means no answer, and the first line
/// with a `time=` or `time<` value gives it.
pub open spec fn ping_scan(ls: Seq<Seq<char>>, i: int) -> Option<u64>
    decreases ls.len() - i,
{
    if i < 0 || i >= ls.len() {
        None
    } else {
        let l = trim(ls[i]);
        if contains_text(l, "Request timed out."@) || contains_text(l, "Destination host unreachable"@) {
            None
        } else {
            match ping_time_spec(l, "time="@) {
                Some(v) => Some(v),
                None => match ping_time_spec(l, "time<"@) {
                    Some(v) => Some(v),
                    None => ping_scan(ls, i + 1),
                },
            }
        }
    }
}

/// Reads the latency, in microseconds, from the output of one Windows `ping`.
pub fn parse_windows_ping_latency(output: &str) -> (r: Option<u64>)
    ensures
        r == ping_scan(lines(output@), 0),
{
    let raw = chars_of(output);
    let ls = split_lines(raw.as_slice());
    let ghost lv = vecs_view(ls@);
    let mut i: usize = 0;
    proof {
        reveal_strlit("time=");
        reveal_strlit("time<");
    }
    while i < ls.len()
        invariant
            i <= ls@.len(),
            lv == vecs_view(ls@),
            lv == lines(output@),
            ping_scan(lv, 0) == ping_scan(lv, i as int),
        decreases ls@.len() - i,
    {
        proof {
            assert(lv[i as int] == ls@[i as int]@);
        }
        let l = trim_ws(ls[i].as_slice());
        if contains_lit(l.as_slice(), "Request timed out.") || contains_lit(l.as_slice(), "Destination host unreachable") {
            return None;
        }
        proof {
            reveal_strlit("time=");
            reveal_strlit("time<");
        }
        match extract_ping_time(l.as_slice(), "time=") {
            Some(v) => {
                return Some(v);
            },
            None => {},
        }
        match extract_ping_time(l.as_slice(), "time<") {
            Some(v) => {
                return Some(v);
            },
            None => {},
        }
        i = i + 1;
    }
    None
}

} // verus!

verus! {

/// The word `ms`, in any letter case.
pub open spec fn is_ms_word(w: Seq<char>) -> bool {
    w.len() == 2 && (w[0] == 'm' || w[0] == 'M') && (w[1] == 's' || w[1] == 'S')
}

/// The parentheses around addresses in `traceroute` output.
pub open spec fn paren_set() -> Seq<char> {
    seq!['(', ')']
}

/// The words of a `traceroute` hop line from position `i` on, applied to `h`: `*` is a
/// timeout, a word that is an address (parentheses removed) sets the address, a number
/// followed by `ms` is an answer, and the first other word names the host.
pub open spec fn macos_scan(h: HopRecord, parts: Seq<Seq<char>>, i: int) -> HopRecord
    decreases parts.len() - i,
{
    if i < 0 || i >= parts.len() {
        h
    } else if parts[i] == "*"@ {
        macos_scan(HopRecord { stats: h.stats.after_timeout(), ..h }, parts, i + 1)
    } else {
        let tok = trim_set(parts[i], paren_set());
        match ip_spec(tok) {
            Some(ip) => macos_scan(HopRecord { ip: Some(ip), ..h }, parts, i + 1),
            None => if i + 1 < parts.len() && is_ms_word(parts[i + 1]) && latency_us_spec(parts[i]) is Some {
                macos_scan(HopRecord { stats: h.stats.after_sample(latency_us_spec(parts[i]).unwrap()), ..h }, parts, i + 2)
            } else if h.hostname is None {
                macos_scan(HopRecord { hostname: Some(tok), ..h }, parts, i + 1)
            } else {
                macos_scan(h, parts, i + 1)
            },
        }
    }
}

/// The hop a `traceroute` line describes, or `None` when the line is not a hop line or
/// carries neither a probe nor an address. The status is unknown without an answer and
/// healthy with one.
pub open spec fn macos_hop_line_spec(line: Seq<char>) -> Option<HopRecord> {
    let parts = words(line);
    if parts.len() == 0 {
        None
    } else {
        match parse_u8_spec(parts[0]) {
            None => None,
            Some(idx) => {
                let h = macos_scan(fresh_record(idx), parts, 1);
                if h.stats.sent == 0 && h.ip is None {
                    None
                } else {
                    Some(HopRecord { status: if h.stats.received == 0 { Severity::Unknown } else { Severity::Healthy }, ..h })
                }
            },
        }
    }
}

fn is_ms_word_exec(w: &[char]) -> (r: bool)
    ensures
        r == is_ms_word(w@),
{
    w.len() == 2 && (w[0] == 'm' || w[0] == 'M') && (w[1] == 's' || w[1] == 'S')
}

/// Reads one hop line of macOS `traceroute` output (see `macos_hop_line_spec`).
pub fn parse_macos_hop_line(line: &str) -> (r: Option<HopSample>)
    requires
        words(line@).len() <= u32::MAX,
    ensures
        parsed_as(r, macos_hop_line_spec(line@)),
{
    let raw = chars_of(line);
    let parts = split_words(raw.as_slice());
    let ghost ps = vecs_view(parts@);
    if parts.len() == 0 {
        return None;
    }
    proof {
        assert(ps[0] == parts@[0]@);
    }
    let idx = match parse_u8(parts[0].as_slice()) {
        Some(v) => v,
        None => return None,
    };
    let mut hop = HopSample::new(idx);
    let parens = vec!['(', ')'];
    proof {
        assert(parens@ =~= paren_set());
        assert(record_of(hop) == fresh_record(idx));
    }
    let n = parts.len();
    let mut i: usize = 1;
    while i < n
        invariant
            1 <= i,
            n == parts@.len(),
            n <= u32::MAX,
            ps == vecs_view(parts@),
            parens@ == paren_set(),
            macos_scan(fresh_record(idx), ps, 1) == macos_scan(record_of(hop), ps, i as int),
            hop.stats.wf(),
            hop.stats.sent <= i,
            hop.interpretation is None,
        decreases n - i,
    {
        let ghost pre = record_of(hop);
        proof {
            assert(ps[i as int] == parts@[i as int]@);
        }
        if is_text(parts[i].as_slice(), "*") {
            hop.stats.add_timeout();
            proof {
                assert(record_of(hop) == HopRecord { stats: pre.stats.after_timeout(), ..pre });
            }
            i = i + 1;
        } else {
            let tok = trim_chars(parts[i].as_slice(), parens.as_slice());
            match parse_ip(tok.as_slice()) {
                Some(ip) => {
                    hop.ip = Some(ip);
                    i = i + 1;
                },
                None => {
                    let mut sampled = false;
                    if i + 1 < n {
                        proof {
                            assert(ps[i + 1] == parts@[i + 1]@);
                        }
                        if is_ms_word_exec(parts[i + 1].as_slice()) {
                            match parse_latency_us(parts[i].as_slice()) {
                                Some(x) => {
                                    hop.stats.add_sample(x);
                                    sampled = true;
                                },
                                None => {},
                            }
                        }
                    }
                    if sampled {
                        i = i + 2;
                    } else {
                        if hop.hostname.is_none() {
                            hop.hostname = Some(string_from_chars(tok.as_slice()));
                        }
                        i = i + 1;
                    }
                },
            }
        }
    }
    if hop.stats.sent == 0 && hop.ip.is_none() {
        return None;
    }
    hop.status = if hop.stats.received == 0 { Severity::Unknown } else { Severity::Healthy };
    Some(hop)
}

/// The hops macOS `traceroute` output describes, line by line: empty lines and the
/// `traceroute to` header are skipped, and every line that reads as a hop gives one.
pub open spec fn macos_output_spec(ls: Seq<Seq<char>>) -> Seq<HopRecord>
    decreases ls.len(),
{
    if ls.len() == 0 {
        Seq::empty()
    } else {
        let prev = macos_output_spec(ls.drop_last());
        let l = trim(ls.last());
        if l.len() == 0 || "traceroute to"@.is_prefix_of(l) {
            prev
        } else {
            match macos_hop_line_spec(l) {
                Some(h) => prev.push(h),
                None => prev,
            }
        }
    }
}

/// Reads the hops of macOS `traceroute` output.
pub fn parse_macos_traceroute_output(output: &str) -> (r: Result<Vec<HopSample>, TraceError>)
    requires
        forall|k: int| 0 <= k < lines(output@).len() ==> words(#[trigger] lines(output@)[k]).len() <= u32::MAX,
    ensures
        r matches Ok(hops) && records_of(hops@) == macos_output_spec(lines(output@))
            && forall|k: int| 0 <= k < hops@.len() ==> (#[trigger] hops@[k]).interpretation is None,
{
    let raw = chars_of(output);
    let ls = split_lines(raw.as_slice());
    let ghost lv = vecs_view(ls@);
    let mut hops: Vec<HopSample> = Vec::new();
    let mut i: usize = 0;
    proof {
        assert(lv.take(0) =~= Seq::<Seq<char>>::empty());
        assert(records_of(hops@) =~= Seq::<HopRecord>::empty());
    }
    while i < ls.len()
        invariant
            i <= ls@.len(),
            lv == vecs_view(ls@),
            lv == lines(output@),
            forall|k: int| 0 <= k < lv.len() ==> words(#[trigger] lv[k]).len() <= u32::MAX,
            records_of(hops@) == macos_output_spec(lv.take(i as int)),
            forall|k: int| 0 <= k < hops@.len() ==> (#[trigger] hops@[k]).interpretation is None,
        decreases ls@.len() - i,
    {
        let ghost prev = hops@;
        proof {
            assert(lv[i as int] == ls@[i as int]@);
            assert(lv.take(i as int + 1).drop_last() =~= lv.take(i as int));
            assert(lv.take(i as int + 1).last() == lv[i as int]);
            crate::scan::lemma_words_trim(lv[i as int]);
        }
        let l = trim_ws(ls[i].as_slice());
        if l.len() == 0 || starts_with_text(l.as_slice(), "traceroute to") {
        } else {
            let text = string_from_chars(l.as_slice());
            match parse_macos_hop_line(text.as_str()) {
                Some(h) => {
                    hops.push(h);
                    proof {
                        assert(records_of(hops@) =~= records_of(prev).push(record_of(h)));
                    }
                },
                None => {},
            }
        }
        i = i + 1;
    }
    proof {
        assert(lv.take(ls@.len() as int) =~= lv);
    }
    Ok(hops)
}

} // verus!

verus! {

/// No two hops of `hops` carry the same index.
pub open spec fn distinct_indices(hops: Seq<HopSample>) -> bool {
    forall|i: int, j: int| 0 <= i < j < hops.len() ==> (#[trigger] hops[i]).index != (#[trigger] hops[j]).index
}

/// Adds the hop a route line describes, unless a hop with its index is already known.
/// Returns whether the hop was added. A route whose hop indices are distinct keeps them so.
pub fn accept_route_line(hops: &mut Vec<HopSample>, line: &str) -> (added: bool)
    ensures
        distinct_indices(old(hops)@) ==> distinct_indices(final(hops)@),
        match route_line_spec(line@) {
            Some(h) => if forall|k: int| 0 <= k < old(hops)@.len() ==> (#[trigger] old(hops)@[k]).index != h.index {
                &&& added
                &&& final(hops)@.len() == old(hops)@.len() + 1
                &&& final(hops)@.drop_last() == old(hops)@
                &&& record_of(final(hops)@.last()) == h
                &&& final(hops)@.last().interpretation is None
            } else {
                !added && final(hops)@ == old(hops)@
            },
            None => !added && final(hops)@ == old(hops)@,
        },
{
    match parse_windows_route_line(line) {
        None => false,
        Some(hop) => {
            let mut k: usize = 0;
            while k < hops.len()
                invariant
                    k <= hops@.len(),
                    hops@ == old(hops)@,
                    route_line_spec(line@) == Some(record_of(hop)),
                    forall|m: int| 0 <= m < k ==> (#[trigger] hops@[m]).index != hop.index,
                decreases hops@.len() - k,
            {
                if hops[k].index == hop.index {
                    proof {
                        assert(old(hops)@[k as int].index == record_of(hop).index);
                    }
                    return false;
                }
                k = k + 1;
            }
            let ghost before = hops@;
            hops.push(hop);
            proof {
                assert(hops@.drop_last() =~= before);
                if distinct_indices(before) {
                    assert forall|i: int, j: int| 0 <= i < j < hops@.len() implies (#[trigger] hops@[i]).index != (#[trigger] hops@[j]).index by {
                        if j == hops@.len() - 1 {
                            assert(hops@[i] == before[i]);
                        } else {
                            assert(hops@[i] == before[i]);
                            assert(hops@[j] == before[j]);
                        }
                    }
                }
            }
            true
        },
    }
}

/// The outcome of route discovery: an error when the tool failed, found nothing and was
/// not cancelled; the discovered hops otherwise.
pub fn finish_route_discovery(hops: Vec<HopSample>, tool_succeeded: bool, still_running: bool) -> (r: Result<Vec<HopSample>, TraceError>)
    ensures
        (!tool_succeeded && hops@.len() == 0 && still_running) ==> (r matches Err(e) && trace_error_text(e)
            == "Internal error: "@ + "tracert did not return any usable hop information"@),
        !(!tool_succeeded && hops@.len() == 0 && still_running) ==> r == Ok::<Vec<HopSample>, TraceError>(hops),
{
    if !tool_succeeded && hops.len() == 0 && still_running {
        Err(TraceError::Internal(String::from_str("tracert did not return any usable hop information")))
    } else {
        Ok(hops)
    }
}

/// What the probing loop does next.
#[derive(Debug, Clone, Copy, PartialEq, Eq, Structural)]
pub enum ProbeAction {
    /// Probe the hop at this position.
    Probe(usize),
    /// Pause for the cycle delay before the next cycle.
    Sleep,
    /// Stop probing.
    Finish,
}

/// The position of the probing loop: which cycle it is in and which hop comes next.
#[derive(Debug, Clone, Copy, PartialEq, Eq, Structural)]
pub struct ProbeSchedule {
    /// Number of hops probed in every cycle
    pub hop_count: usize,
    /// Number of cycles to run (`None` = until stopped)
    pub max_cycles: Option<u32>,
    /// Cycles completed so far
    pub cycle: u64,
    /// Position of the next hop to probe in the current cycle
    pub position: usize,
}

impl ProbeSchedule {
    /// There are hops to probe, the position lies within the cycle, and the completed
    /// cycles never exceed the limit; at the limit a new cycle has not begun.
    pub open spec fn wf(self) -> bool {
        &&& self.hop_count > 0
        &&& self.position <= self.hop_count
        &&& self.max_cycles matches Some(l) ==> self.cycle <= l && (self.cycle == l ==> self.position == 0)
    }

    /// The action and the schedule after it, given whether probing is still wanted.
    pub open spec fn step(self, running: bool) -> (ProbeAction, ProbeSchedule) {
        if !running {
            (ProbeAction::Finish, self)
        } else if self.position == self.hop_count {
            (ProbeAction::Sleep, ProbeSchedule {
                cycle: if self.cycle < u64::MAX { (self.cycle + 1) as u64 } else { self.cycle },
                position: 0,
                ..self
            })
        } else if self.position == 0 && (self.max_cycles matches Some(l) && self.cycle >= l) {
            (ProbeAction::Finish, self)
        } else {
            (ProbeAction::Probe(self.position), ProbeSchedule { position: (self.position + 1) as usize, ..self })
        }
    }

    /// A schedule for `hop_count` hops, probed `count` times each (0 = until stopped).
    /// Probing needs at least one hop.
    pub fn new(hop_count: usize, count: u32) -> (r: Result<ProbeSchedule, TraceError>)
        ensures
            hop_count == 0 ==> (r matches Err(e) && trace_error_text(e) == "Internal error: "@ + "Could not discover any hops for the route"@),
            hop_count > 0 ==> r == Ok::<ProbeSchedule, TraceError>(ProbeSchedule {
                hop_count,
                max_cycles: if count == 0 { None } else { Some(count) },
                cycle: 0,
                position: 0,
            }),
            r matches Ok(s) ==> s.wf(),
    {
        if hop_count == 0 {
            return Err(TraceError::Internal(String::from_str("Could not discover any hops for the route")));
        }
        Ok(ProbeSchedule { hop_count, max_cycles: if count == 0 { None } else { Some(count) }, cycle: 0, position: 0 })
    }

    /// Decides the next action of the probing loop.
    pub fn next_action(&mut self, running: bool) -> (a: ProbeAction)
        requires
            old(self).wf(),
        ensures
            (a, *final(self)) == old(self).step(running),
            final(self).wf(),
    {
        if !running {
            return ProbeAction::Finish;
        }
        if self.position == self.hop_count {
            if self.cycle < u64::MAX {
                self.cycle = self.cycle + 1;
            }
            self.position = 0;
            return ProbeAction::Sleep;
        }
        if self.position == 0 {
            match self.max_cycles {
                Some(l) => {
                    if self.cycle >= l as u64 {
                        return ProbeAction::Finish;
                    }
                },
                None => {},
            }
        }
        let i = self.position;
        self.position = self.position + 1;
        ProbeAction::Probe(i)
    }
}

/// The schedule after `n` steps taken while probing is wanted.
pub open spec fn schedule_after(s: ProbeSchedule, n: nat) -> ProbeSchedule
    decreases n,
{
    if n == 0 { s } else { schedule_after(s.step(true).1, (n - 1) as nat) }
}

/// How many of the first `n` steps taken while probing is wanted probe the hop at `h`.
pub open spec fn probes_of(s: ProbeSchedule, n: nat, h: nat) -> nat
    decreases n,
{
    if n == 0 {
        0
    } else {
        (if (s.step(true).0 matches ProbeAction::Probe(i) && i == h) { 1nat } else { 0nat }) + probes_of(s.step(true).1, (n - 1) as nat, h)
    }
}

/// None of the first `n` steps taken while probing is wanted finishes.
pub open spec fn keeps_running(s: ProbeSchedule, n: nat) -> bool
    decreases n,
{
    n == 0 || (s.step(true).0 != ProbeAction::Finish && keeps_running(s.step(true).1, (n - 1) as nat))
}

proof fn lemma_run_split(s: ProbeSchedule, a: nat, b: nat, h: nat)
    ensures
        schedule_after(s, a + b) == schedule_after(schedule_after(s, a), b),
        probes_of(s, a + b, h) == probes_of(s, a, h) + probes_of(schedule_after(s, a), b, h),
        keeps_running(s, a + b) == (keeps_running(s, a) && keeps_running(schedule_after(s, a), b)),
    decreases a,
{
    if a > 0 {
        lemma_run_split(s.step(true).1, (a - 1) as nat, b, h);
        assert((a + b - 1) as nat == (a - 1) as nat + b);
    }
}

proof fn lemma_rest_of_cycle(s: ProbeSchedule, h: nat)
    requires
        s.wf(),
        s.max_cycles matches Some(l) ==> s.cycle < l,
    ensures
        ({
            let r = (s.hop_count - s.position) as nat;
            &&& schedule_after(s, r) == ProbeSchedule { position: s.hop_count, ..s }
            &&& probes_of(s, r, h) == (if s.position <= h < s.hop_count { 1nat } else { 0nat })
            &&& keeps_running(s, r)
        }),
    decreases s.hop_count - s.position,
{
    if s.position < s.hop_count {
        let t = s.step(true).1;
        assert(t == ProbeSchedule { position: (s.position + 1) as usize, ..s });
        lemma_rest_of_cycle(t, h);
        let r = (s.hop_count - s.position) as nat;
        assert((r - 1) as nat == (t.hop_count - t.position) as nat);
    } else {
        assert(ProbeSchedule { position: s.hop_count, ..s } == s);
    }
}

proof fn lemma_whole_cycles(s: ProbeSchedule, l: u32, h: nat)
    requires
        s.wf(),
        s.max_cycles == Some(l),
        s.position == 0,
        h < s.hop_count,
    ensures
        ({
            let n = ((l - s.cycle) * (s.hop_count + 1)) as nat;
            &&& schedule_after(s, n) == ProbeSchedule { cycle: l as u64, ..s }
            &&& probes_of(s, n, h) == (l - s.cycle) as nat
            &&& keeps_running(s, n)
        }),
    decreases l - s.cycle,
{
    let hc = s.hop_count as nat;
    if s.cycle < l {
        lemma_rest_of_cycle(s, h);
        let mid = schedule_after(s, hc);
        assert(mid == ProbeSchedule { position: s.hop_count, ..s });
        let t = mid.step(true).1;
        assert(mid.step(true).0 == ProbeAction::Sleep);
        assert(t == ProbeSchedule { cycle: (s.cycle + 1) as u64, position: 0, ..s });
        assert(schedule_after(t, 0) == t);
        assert(probes_of(t, 0, h) == 0);
        assert(keeps_running(t, 0));
        assert(schedule_after(mid, 1) == t);
        assert(probes_of(mid, 1, h) == 0);
        assert(keeps_running(mid, 1));
        lemma_run_split(s, hc, 1, h);
        lemma_whole_cycles(t, l, h);
        let m = ((l - t.cycle) * (t.hop_count + 1)) as nat;
        let n = ((l - s.cycle) * (s.hop_count + 1)) as nat;
        assert(n == hc + 1 + m) by (nonlinear_arith)
            requires
                n == (l - s.cycle) * (s.hop_count + 1),
                m == (l - t.cycle) * (t.hop_count + 1),
                t.cycle == s.cycle + 1,
                t.hop_count == s.hop_count,
                hc == s.hop_count,
                s.cycle < l;
        lemma_run_split(s, hc + 1, m, h);
    } else {
        assert(ProbeSchedule { cycle: l as u64, ..s } == s);
    }
}

/// With a count of `count` cycles (not 0), a run that is never stopped probes every hop
/// exactly `count` times and then finishes: none of the first `count * (hops + 1)` steps
/// of the schedule `ProbeSchedule::new` gives finishes, every hop is probed `count` times
/// in them, and the step after them finishes.
pub proof fn lemma_probes_each_hop_count_times(hop_count: usize, count: u32, h: nat)
    requires
        hop_count > 0,
        count > 0,
        h < hop_count,
    ensures
        ({
            let s0 = ProbeSchedule { hop_count, max_cycles: Some(count), cycle: 0, position: 0 };
            let n = (count * (hop_count + 1)) as nat;
            &&& keeps_running(s0, n)
            &&& probes_of(s0, n, h) == count
            &&& schedule_after(s0, n).step(true).0 == ProbeAction::Finish
        }),
{
    let s0 = ProbeSchedule { hop_count, max_cycles: Some(count), cycle: 0, position: 0 };
    lemma_whole_cycles(s0, count, h);
}

/// With a count of 0 (no cycle limit), a run that is never stopped never finishes: no
/// number of steps taken while probing is wanted reaches `Finish`.
pub proof fn lemma_unlimited_runs_until_stopped(s: ProbeSchedule, n: nat)
    requires
        s.wf(),
        s.max_cycles is None,
    ensures
        keeps_running(s, n),
    decreases n,
{
    if n > 0 {
        lemma_probe_within_limits(s, true);
        lemma_unlimited_runs_until_stopped(s.step(true).1, (n - 1) as nat);
    }
}

/// A probe is only ever asked for a hop that exists, and only while the cycle limit has
/// not been reached; every step keeps the schedule well formed; a stop request finishes
/// at once, and without a cycle limit (a count of 0) probing goes on until stopped.
pub proof fn lemma_probe_within_limits(s: ProbeSchedule, running: bool)
    requires
        s.wf(),
    ensures
        s.step(running).1.wf(),
        s.step(running).0 matches ProbeAction::Probe(i) ==> i < s.hop_count
            && (s.max_cycles matches Some(l) ==> s.cycle < l),
        !running ==> s.step(running).0 == ProbeAction::Finish,
        running && s.max_cycles is None ==> s.step(running).0 != ProbeAction::Finish,
{
}

} // verus!
