//! Rule-based interpretation of hop statistics.
//!
//! Every hop gets a severity, a headline, an explanation and a list of probable causes,
//! chosen by fixed thresholds on loss, latency and jitter and by what the later hops show.

use vstd::prelude::*;
use crate::settings::ExplanationLevel;
use crate::text::{digits, framed, framed_number, framed_text};
use crate::types::{HopInterpretation, HopSample, HopStats, InterpretationView, SessionSummary, Severity, SummaryView, strings_view};

verus! {

/// Interpretation rules engine.
pub struct InterpretationEngine {
    /// Loss threshold for warning (percent)
    pub loss_warning_threshold: u64,
    /// Loss threshold for critical (percent)
    pub loss_critical_threshold: u64,
    /// Latency threshold for warning (microseconds)
    pub latency_warning_threshold_us: u64,
    /// Latency threshold for critical (microseconds)
    pub latency_critical_threshold_us: u64,
    /// Jitter threshold for warning (microseconds)
    pub jitter_warning_threshold_us: u64,
}

impl InterpretationEngine {
    /// The thresholds every engine is built with.
    pub open spec fn spec_default() -> InterpretationEngine {
        InterpretationEngine {
            loss_warning_threshold: 5,
            loss_critical_threshold: 20,
            latency_warning_threshold_us: 100_000,
            latency_critical_threshold_us: 300_000,
            jitter_warning_threshold_us: 30_000,
        }
    }

    /// The loss thresholds are percentages.
    pub open spec fn wf(self) -> bool {
        self.loss_warning_threshold <= 100 && self.loss_critical_threshold <= 100
    }
}

impl Default for InterpretationEngine {
    fn default() -> (e: Self)
        ensures
            e == InterpretationEngine::spec_default(),
    {
        InterpretationEngine {
            loss_warning_threshold: 5,
            loss_critical_threshold: 20,
            latency_warning_threshold_us: 100_000,
            latency_critical_threshold_us: 300_000,
            jitter_warning_threshold_us: 30_000,
        }
    }
}

/// The hops a reference list points to.
pub open spec fn deref_hops(s: Seq<&HopSample>) -> Seq<HopSample> {
    s.map_values(|h: &HopSample| *h)
}

/// The interpretation assembled from the texts of both explanation levels.
pub open spec fn message_view(
    level: ExplanationLevel,
    severity: Severity,
    simple_headline: Seq<char>,
    simple_explanation: Seq<char>,
    detailed_headline: Seq<char>,
    detailed_explanation: Seq<char>,
    probable_causes: Seq<Seq<char>>,
    confidence_percent: u8,
) -> InterpretationView {
    match level {
        ExplanationLevel::Simple => InterpretationView {
            severity,
            headline: simple_headline,
            explanation: simple_explanation,
            probable_causes,
            confidence_percent,
        },
        ExplanationLevel::Detailed => InterpretationView {
            severity,
            headline: detailed_headline,
            explanation: detailed_explanation,
            probable_causes,
            confidence_percent,
        },
    }
}

/// The average latency as shown in a healthy hop's headline.
pub open spec fn avg_text(stats: HopStats) -> Seq<char> {
    if stats.received > 0 { digits(stats.avg_ms_rounded()) + "ms"@ } else { "N/A"@ }
}

/// Some later hop answers with less than 10% loss.
pub open spec fn later_hops_ok(next: Seq<HopSample>) -> bool {
    exists|j: int| 0 <= j < next.len() && next[j].stats.received > 0 && #[trigger] next[j].stats.loss_below(10)
}

/// Some later hop shows loss above the warning threshold.
pub open spec fn loss_continues(e: InterpretationEngine, next: Seq<HopSample>) -> bool {
    exists|j: int| 0 <= j < next.len() && #[trigger] next[j].stats.loss_above(e.loss_warning_threshold as nat)
}

/// Every later hop has less than 5% loss.
pub open spec fn later_loss_small(next: Seq<HopSample>) -> bool {
    forall|j: int| 0 <= j < next.len() ==> #[trigger] next[j].stats.loss_below(5)
}

/// Every later hop has an average latency above the warning threshold.
pub open spec fn latency_continues(e: InterpretationEngine, next: Seq<HopSample>) -> bool {
    forall|j: int| 0 <= j < next.len() ==> #[trigger] next[j].stats.avg_above(e.latency_warning_threshold_us as nat)
}


/// Interpretation of a hop that never answered.
pub open spec fn no_response_view(hop: HopSample, is_destination: bool, next: Seq<HopSample>, level: ExplanationLevel) -> InterpretationView {
    if is_destination {
        message_view(level, Severity::Critical, "Target is not replying"@, "This address did not answer ping at all. Usually that means the host is down, blocks ping, or the route cannot reach it."@, "Destination not responding"@, "The target server is not responding to ICMP (ping) requests. This could indicate the server is down, a firewall is blocking ICMP, or there's a network issue at the destination."@, seq!["The server may be offline"@, "A firewall may be blocking ping replies"@, "The route may not be reaching the destination"@], 90)
    } else if later_hops_ok(next) {
        message_view(level, Severity::Unknown, "This hop ignores ping replies"@, "This router is not answering, but later hops still reply. That usually means the router hides ping responses and is not the real problem."@, "Hop not responding (may be normal)"@, "This intermediate router is not responding to ICMP requests, but traffic is still reaching later hops. Many routers are configured to deprioritize or block ICMP responses while continuing to forward traffic normally."@, seq!["The router may be rate-limiting ping"@, "This device may deprioritize control traffic"@, "ICMP could be filtered at this hop"@], 85)
    } else {
        message_view(level, Severity::Critical, "Traffic likely stops here"@, "This hop and the ones after it are not replying. That usually means the route breaks at this point or just before it."@, "Connection lost at this hop"@, "Network connectivity is being lost at or before this hop, and subsequent hops are also not responding. This suggests a real connectivity issue rather than ICMP filtering."@, seq!["A router or link may be down"@, "Routing may be broken at this point"@, "Heavy congestion may be dropping packets"@], 75)
    }
}

/// Interpretation of a hop with loss above the warning threshold.
pub open spec fn loss_view(e: InterpretationEngine, hop: HopSample, is_destination: bool, next: Seq<HopSample>, level: ExplanationLevel) -> InterpretationView {
    let sev = if hop.stats.loss_above(e.loss_critical_threshold as nat) { Severity::Critical } else { Severity::Warning };
    if !is_destination && !loss_continues(e, next) && later_loss_small(next) {
        message_view(level, Severity::Warning, framed(""@, hop.stats.loss_percent_rounded(), "% loss here is probably harmless"@), "This hop drops ping replies, but later hops are healthy. Usually the router is limiting ping responses rather than dropping real traffic."@, framed(""@, hop.stats.loss_percent_rounded(), "% packet loss (likely rate-limiting)"@), "This hop shows packet loss, but subsequent hops and the destination are responding normally. This is typically caused by ICMP rate limiting, where the router deliberately slows down its responses to prevent overload."@, seq!["The router may be rate-limiting ICMP"@, "This device may give low priority to ping replies"@, "The control plane could be busy even while forwarding stays normal"@], 80)
    } else if is_destination {
        message_view(level, sev, framed(""@, hop.stats.loss_percent_rounded(), "% packet loss to the target"@), "Some packets reach the target and some do not. Apps may feel slow, disconnect, or retry."@, framed(""@, hop.stats.loss_percent_rounded(), "% packet loss to destination"@), "The target server is experiencing significant packet loss. This indicates a real connectivity issue that will affect application performance."@, seq!["There may be congestion between you and the target"@, "The target may be overloaded"@, "Your connection may be unstable"@, "An ISP or routing issue may be involved"@], 90)
    } else if loss_continues(e, next) {
        message_view(level, Severity::Warning, framed(""@, hop.stats.loss_percent_rounded(), "% loss starts at this hop"@), "Packet loss begins here and keeps showing up later. This usually points to a real problem on this link or router."@, framed(""@, hop.stats.loss_percent_rounded(), "% packet loss starting here"@), "Packet loss begins at this hop and continues to subsequent hops. This suggests a genuine network issue at this point in the route."@, seq!["There may be congestion on this segment"@, "This router or link may have a fault"@, "Link capacity may be saturated"@, "ISP peering could be unstable"@], 75)
    } else {
        message_view(level, Severity::Warning, framed(""@, hop.stats.loss_percent_rounded(), "% loss only on this router"@), "Later hops look normal, so this is often ping-reply behavior rather than a real end-to-end loss problem."@, framed(""@, hop.stats.loss_percent_rounded(), "% packet loss at intermediate hop"@), "This intermediate hop shows packet loss, but subsequent hops appear normal. This could be due to ICMP deprioritization rather than actual traffic loss."@, seq!["ICMP may be rate-limited here"@, "There may be temporary congestion"@, "Load balancing can make traceroute look uneven"@], 60)
    }
}

/// Interpretation of a hop with average latency above the warning threshold.
pub open spec fn high_latency_view(e: InterpretationEngine, hop: HopSample, is_destination: bool, next: Seq<HopSample>, level: ExplanationLevel) -> InterpretationView {
    let sev = if hop.stats.avg_above(e.latency_critical_threshold_us as nat) { Severity::Critical } else { Severity::Warning };
    if is_destination {
        message_view(level, sev, framed("The target is slow to answer ("@, hop.stats.avg_ms_rounded(), "ms)"@), "Replies take longer than normal. Browsing, downloads, calls, or games may feel delayed."@, framed("High latency: "@, hop.stats.avg_ms_rounded(), "ms average"@), "The destination server is responding with high latency. This will cause noticeable delays in applications and may indicate server load or network issues."@, seq!["The target may be overloaded"@, "The route may cover a long geographic distance"@, "There may be congestion near the destination"@], 85)
    } else if next.len() > 0 && latency_continues(e, next) {
        message_view(level, sev, framed("Delay starts around this hop ("@, hop.stats.avg_ms_rounded(), "ms)"@), "Latency jumps here and stays high later. This is a good suspect link for congestion or distance."@, framed("Latency spike at this hop: "@, hop.stats.avg_ms_rounded(), "ms"@), "A significant increase in latency begins at this hop and continues to the destination. This identifies the network segment where delays are being introduced."@, seq!["This network segment may be congested"@, "The route may cross a long-distance link"@, "There may be an oversubscribed peering point"@, "A tunnel or VPN can add delay here"@], 80)
    } else {
        message_view(level, Severity::Warning, framed("This hop replies slowly ("@, hop.stats.avg_ms_rounded(), "ms)"@), "This router is slower to answer ping than the rest of the path. That matters only if the delay continues to the target."@, framed("Elevated latency: "@, hop.stats.avg_ms_rounded(), "ms"@), "This hop shows higher than optimal latency. If this is an intermediate hop with normal latency at the destination, it may be due to ICMP deprioritization."@, seq!["The router control plane may answer slowly"@, "ICMP processing overhead can inflate this number"@, "This may be normal for this network segment"@], 60)
    }
}

/// Interpretation of a hop with jitter above the warning threshold.
pub open spec fn high_jitter_view(hop: HopSample, is_destination: bool, level: ExplanationLevel) -> InterpretationView {
    if is_destination {
        message_view(level, Severity::Warning, framed("Latency is unstable ("@, hop.stats.jitter_ms_rounded(), "ms jitter)"@), "Reply time changes a lot from packet to packet. Calls, streams, and games may stutter even if average ping looks okay."@, framed("High jitter: "@, hop.stats.jitter_ms_rounded(), "ms variation"@), "The connection to the destination has high latency variation (jitter). This can cause problems for real-time applications like VoIP, video calls, and gaming, even if average latency is acceptable."@, seq!["There may be congestion causing queue swings"@, "Bufferbloat on a router or modem is possible"@, "Wireless interference can cause jitter"@, "Traffic shaping may be inconsistent"@], 80)
    } else {
        message_view(level, Severity::Warning, framed("This hop has unstable reply times ("@, hop.stats.jitter_ms_rounded(), "ms)"@), "If later hops stay stable, this is often just how this router answers ping."@, framed("High jitter detected: "@, hop.stats.jitter_ms_rounded(), "ms"@), "This hop shows significant latency variation. Jitter at intermediate hops may indicate congestion or variable routing, but only matters if it affects the destination."@, seq!["ICMP processing time may vary here"@, "There may be short congestion bursts"@, "Load balancing across paths can change timings"@], 60)
    }
}

/// Interpretation of a hop with nothing to report.
pub open spec fn ok_view(hop: HopSample, is_destination: bool, level: ExplanationLevel) -> InterpretationView {
    if is_destination {
        message_view(level, Severity::Healthy, "Target looks healthy ("@ + avg_text(hop.stats) + ")"@, "The destination is replying with little or no loss and normal delay."@, "Destination responding normally ("@ + avg_text(hop.stats) + ")"@, "The target server is responding with healthy latency and no packet loss. The network path appears to be functioning correctly."@, Seq::<Seq<char>>::empty(), 90)
    } else {
        message_view(level, Severity::Healthy, "This hop looks normal ("@ + avg_text(hop.stats) + ")"@, "This router is replying normally."@, "Healthy ("@ + avg_text(hop.stats) + ")"@, "This hop is responding normally with acceptable latency and no significant packet loss."@, Seq::<Seq<char>>::empty(), 85)
    }
}

/// Whether a hop has been probed at least three times without a single answer.
pub open spec fn never_answered(stats: HopStats) -> bool {
    stats.received == 0 && stats.sent >= 3
}

/// The interpretation of `hop`, given whether it is the destination and the hops after it.
pub open spec fn interpretation_view(e: InterpretationEngine, hop: HopSample, is_destination: bool, next: Seq<HopSample>, level: ExplanationLevel) -> InterpretationView {
    if never_answered(hop.stats) {
        no_response_view(hop, is_destination, next, level)
    } else if hop.stats.loss_above(e.loss_warning_threshold as nat) {
        loss_view(e, hop, is_destination, next, level)
    } else if hop.stats.avg_above(e.latency_warning_threshold_us as nat) {
        high_latency_view(e, hop, is_destination, next, level)
    } else if hop.stats.jitter_above(e.jitter_warning_threshold_us as nat) {
        high_jitter_view(hop, is_destination, level)
    } else {
        ok_view(hop, is_destination, level)
    }
}


fn no_resp_dest_causes() -> (v: Vec<String>)
    ensures
        strings_view(v@) == seq!["The server may be offline"@, "A firewall may be blocking ping replies"@, "The route may not be reaching the destination"@],
{
    let v: Vec<String> = vec![String::from_str("The server may be offline"), String::from_str("A firewall may be blocking ping replies"), String::from_str("The route may not be reaching the destination")];
    proof {
        assert(strings_view(v@) =~= seq!["The server may be offline"@, "A firewall may be blocking ping replies"@, "The route may not be reaching the destination"@]);
    }
    v
}


fn no_resp_filtered_causes() -> (v: Vec<String>)
    ensures
        strings_view(v@) == seq!["The router may be rate-limiting ping"@, "This device may deprioritize control traffic"@, "ICMP could be filtered at this hop"@],
{
    let v: Vec<String> = vec![String::from_str("The router may be rate-limiting ping"), String::from_str("This device may deprioritize control traffic"), String::from_str("ICMP could be filtered at this hop")];
    proof {
        assert(strings_view(v@) =~= seq!["The router may be rate-limiting ping"@, "This device may deprioritize control traffic"@, "ICMP could be filtered at this hop"@]);
    }
    v
}


fn no_resp_break_causes() -> (v: Vec<String>)
    ensures
        strings_view(v@) == seq!["A router or link may be down"@, "Routing may be broken at this point"@, "Heavy congestion may be dropping packets"@],
{
    let v: Vec<String> = vec![String::from_str("A router or link may be down"), String::from_str("Routing may be broken at this point"), String::from_str("Heavy congestion may be dropping packets")];
    proof {
        assert(strings_view(v@) =~= seq!["A router or link may be down"@, "Routing may be broken at this point"@, "Heavy congestion may be dropping packets"@]);
    }
    v
}


fn loss_rate_limited_causes() -> (v: Vec<String>)
    ensures
        strings_view(v@) == seq!["The router may be rate-limiting ICMP"@, "This device may give low priority to ping replies"@, "The control plane could be busy even while forwarding stays normal"@],
{
    let v: Vec<String> = vec![String::from_str("The router may be rate-limiting ICMP"), String::from_str("This device may give low priority to ping replies"), String::from_str("The control plane could be busy even while forwarding stays normal")];
    proof {
        assert(strings_view(v@) =~= seq!["The router may be rate-limiting ICMP"@, "This device may give low priority to ping replies"@, "The control plane could be busy even while forwarding stays normal"@]);
    }
    v
}


fn loss_dest_causes() -> (v: Vec<String>)
    ensures
        strings_view(v@) == seq!["There may be congestion between you and the target"@, "The target may be overloaded"@, "Your connection may be unstable"@, "An ISP or routing issue may be involved"@],
{
    let v: Vec<String> = vec![String::from_str("There may be congestion between you and the target"), String::from_str("The target may be overloaded"), String::from_str("Your connection may be unstable"), String::from_str("An ISP or routing issue may be involved")];
    proof {
        assert(strings_view(v@) =~= seq!["There may be congestion between you and the target"@, "The target may be overloaded"@, "Your connection may be unstable"@, "An ISP or routing issue may be involved"@]);
    }
    v
}


fn loss_starts_causes() -> (v: Vec<String>)
    ensures
        strings_view(v@) == seq!["There may be congestion on this segment"@, "This router or link may have a fault"@, "Link capacity may be saturated"@, "ISP peering could be unstable"@],
{
    let v: Vec<String> = vec![String::from_str("There may be congestion on this segment"), String::from_str("This router or link may have a fault"), String::from_str("Link capacity may be saturated"), String::from_str("ISP peering could be unstable")];
    proof {
        assert(strings_view(v@) =~= seq!["There may be congestion on this segment"@, "This router or link may have a fault"@, "Link capacity may be saturated"@, "ISP peering could be unstable"@]);
    }
    v
}


fn loss_local_causes() -> (v: Vec<String>)
    ensures
        strings_view(v@) == seq!["ICMP may be rate-limited here"@, "There may be temporary congestion"@, "Load balancing can make traceroute look uneven"@],
{
    let v: Vec<String> = vec![String::from_str("ICMP may be rate-limited here"), String::from_str("There may be temporary congestion"), String::from_str("Load balancing can make traceroute look uneven")];
    proof {
        assert(strings_view(v@) =~= seq!["ICMP may be rate-limited here"@, "There may be temporary congestion"@, "Load balancing can make traceroute look uneven"@]);
    }
    v
}


fn lat_dest_causes() -> (v: Vec<String>)
    ensures
        strings_view(v@) == seq!["The target may be overloaded"@, "The route may cover a long geographic distance"@, "There may be congestion near the destination"@],
{
    let v: Vec<String> = vec![String::from_str("The target may be overloaded"), String::from_str("The route may cover a long geographic distance"), String::from_str("There may be congestion near the destination")];
    proof {
        assert(strings_view(v@) =~= seq!["The target may be overloaded"@, "The route may cover a long geographic distance"@, "There may be congestion near the destination"@]);
    }
    v
}


fn lat_spike_causes() -> (v: Vec<String>)
    ensures
        strings_view(v@) == seq!["This network segment may be congested"@, "The route may cross a long-distance link"@, "There may be an oversubscribed peering point"@, "A tunnel or VPN can add delay here"@],
{
    let v: Vec<String> = vec![String::from_str("This network segment may be congested"), String::from_str("The route may cross a long-distance link"), String::from_str("There may be an oversubscribed peering point"), String::from_str("A tunnel or VPN can add delay here")];
    proof {
        assert(strings_view(v@) =~= seq!["This network segment may be congested"@, "The route may cross a long-distance link"@, "There may be an oversubscribed peering point"@, "A tunnel or VPN can add delay here"@]);
    }
    v
}


fn lat_slow_hop_causes() -> (v: Vec<String>)
    ensures
        strings_view(v@) == seq!["The router control plane may answer slowly"@, "ICMP processing overhead can inflate this number"@, "This may be normal for this network segment"@],
{
    let v: Vec<String> = vec![String::from_str("The router control plane may answer slowly"), String::from_str("ICMP processing overhead can inflate this number"), String::from_str("This may be normal for this network segment")];
    proof {
        assert(strings_view(v@) =~= seq!["The router control plane may answer slowly"@, "ICMP processing overhead can inflate this number"@, "This may be normal for this network segment"@]);
    }
    v
}


fn jit_dest_causes() -> (v: Vec<String>)
    ensures
        strings_view(v@) == seq!["There may be congestion causing queue swings"@, "Bufferbloat on a router or modem is possible"@, "Wireless interference can cause jitter"@, "Traffic shaping may be inconsistent"@],
{
    let v: Vec<String> = vec![String::from_str("There may be congestion causing queue swings"), String::from_str("Bufferbloat on a router or modem is possible"), String::from_str("Wireless interference can cause jitter"), String::from_str("Traffic shaping may be inconsistent")];
    proof {
        assert(strings_view(v@) =~= seq!["There may be congestion causing queue swings"@, "Bufferbloat on a router or modem is possible"@, "Wireless interference can cause jitter"@, "Traffic shaping may be inconsistent"@]);
    }
    v
}


fn jit_hop_causes() -> (v: Vec<String>)
    ensures
        strings_view(v@) == seq!["ICMP processing time may vary here"@, "There may be short congestion bursts"@, "Load balancing across paths can change timings"@],
{
    let v: Vec<String> = vec![String::from_str("ICMP processing time may vary here"), String::from_str("There may be short congestion bursts"), String::from_str("Load balancing across paths can change timings")];
    proof {
        assert(strings_view(v@) =~= seq!["ICMP processing time may vary here"@, "There may be short congestion bursts"@, "Load balancing across paths can change timings"@]);
    }
    v
}


fn ok_dest_causes() -> (v: Vec<String>)
    ensures
        strings_view(v@) == Seq::<Seq<char>>::empty(),
{
    let v: Vec<String> = Vec::new();
    proof {
        assert(strings_view(v@) =~= Seq::<Seq<char>>::empty());
    }
    v
}


fn ok_hop_causes() -> (v: Vec<String>)
    ensures
        strings_view(v@) == Seq::<Seq<char>>::empty(),
{
    let v: Vec<String> = Vec::new();
    proof {
        assert(strings_view(v@) =~= Seq::<Seq<char>>::empty());
    }
    v
}


fn message(
    level: ExplanationLevel,
    severity: Severity,
    simple_headline: &str,
    simple_explanation: &str,
    detailed_headline: &str,
    detailed_explanation: &str,
    probable_causes: Vec<String>,
    confidence_percent: u8,
) -> (r: HopInterpretation)
    ensures
        r@ == message_view(level, severity, simple_headline@, simple_explanation@, detailed_headline@,
            detailed_explanation@, strings_view(probable_causes@), confidence_percent),
{
    let (headline, explanation) = match level {
        ExplanationLevel::Simple => (String::from_str(simple_headline), String::from_str(simple_explanation)),
        ExplanationLevel::Detailed => (String::from_str(detailed_headline), String::from_str(detailed_explanation)),
    };
    HopInterpretation { severity, headline, explanation, probable_causes, confidence_percent }
}

impl InterpretationEngine {
    pub fn new() -> (e: Self)
        ensures
            e == InterpretationEngine::spec_default(),
    {
        InterpretationEngine::default()
    }

    /// Interpret a single hop based on its statistics and context, with detailed texts.
    pub fn interpret_hop(&self, hop: &HopSample, is_destination: bool, next_hops: &[&HopSample]) -> (r: HopInterpretation)
        requires
            self.wf(),
        ensures
            r@ == interpretation_view(*self, *hop, is_destination, deref_hops(next_hops@), ExplanationLevel::Detailed),
    {
        self.interpret_hop_with_level(hop, is_destination, next_hops, ExplanationLevel::Detailed)
    }

    /// Interpret a single hop based on its statistics and context.
    pub fn interpret_hop_with_level(
        &self,
        hop: &HopSample,
        is_destination: bool,
        next_hops: &[&HopSample],
        level: ExplanationLevel,
    ) -> (r: HopInterpretation)
        requires
            self.wf(),
        ensures
            r@ == interpretation_view(*self, *hop, is_destination, deref_hops(next_hops@), level),
    {
        let stats = &hop.stats;
        if stats.received == 0 && stats.sent >= 3 {
            return self.interpret_no_response(hop, is_destination, next_hops, level);
        }
        if stats.exceeds_loss(self.loss_warning_threshold) {
            return self.interpret_loss(hop, is_destination, next_hops, level);
        }
        if stats.exceeds_avg_us(self.latency_warning_threshold_us) {
            return self.interpret_high_latency(hop, is_destination, next_hops, level);
        }
        if stats.exceeds_jitter_us(self.jitter_warning_threshold_us) {
            return self.interpret_high_jitter(hop, is_destination, level);
        }
        self.interpret_ok(hop, is_destination, level)
    }

    fn interpret_no_response(
        &self,
        hop: &HopSample,
        is_destination: bool,
        next_hops: &[&HopSample],
        level: ExplanationLevel,
    ) -> (r: HopInterpretation)
        ensures
            r@ == no_response_view(*hop, is_destination, deref_hops(next_hops@), level),
    {
        let ghost next = deref_hops(next_hops@);
        let mut later_ok = false;
        let mut j: usize = 0;
        while j < next_hops.len()
            invariant
                j <= next_hops@.len(),
                next == deref_hops(next_hops@),
                later_ok == (exists|k: int| 0 <= k < j && next[k].stats.received > 0 && #[trigger] next[k].stats.loss_below(10)),
            decreases next_hops@.len() - j,
        {
            let h = next_hops[j];
            proof { assert(next[j as int] == *h); }
            if h.stats.received > 0 && h.stats.under_loss(10) {
                later_ok = true;
            }
            j = j + 1;
        }
        if is_destination {
            let simple_headline = String::from_str("Target is not replying");
            let detailed_headline = String::from_str("Destination not responding");
            let causes = no_resp_dest_causes();
            message(level, Severity::Critical, simple_headline.as_str(), "This address did not answer ping at all. Usually that means the host is down, blocks ping, or the route cannot reach it.", detailed_headline.as_str(), "The target server is not responding to ICMP (ping) requests. This could indicate the server is down, a firewall is blocking ICMP, or there's a network issue at the destination.", causes, 90)
        } else if later_ok {
            let simple_headline = String::from_str("This hop ignores ping replies");
            let detailed_headline = String::from_str("Hop not responding (may be normal)");
            let causes = no_resp_filtered_causes();
            message(level, Severity::Unknown, simple_headline.as_str(), "This router is not answering, but later hops still reply. That usually means the router hides ping responses and is not the real problem.", detailed_headline.as_str(), "This intermediate router is not responding to ICMP requests, but traffic is still reaching later hops. Many routers are configured to deprioritize or block ICMP responses while continuing to forward traffic normally.", causes, 85)
        } else {
            let simple_headline = String::from_str("Traffic likely stops here");
            let detailed_headline = String::from_str("Connection lost at this hop");
            let causes = no_resp_break_causes();
            message(level, Severity::Critical, simple_headline.as_str(), "This hop and the ones after it are not replying. That usually means the route breaks at this point or just before it.", detailed_headline.as_str(), "Network connectivity is being lost at or before this hop, and subsequent hops are also not responding. This suggests a real connectivity issue rather than ICMP filtering.", causes, 75)
        }
    }

    fn interpret_loss(
        &self,
        hop: &HopSample,
        is_destination: bool,
        next_hops: &[&HopSample],
        level: ExplanationLevel,
    ) -> (r: HopInterpretation)
        requires
            self.wf(),
        ensures
            r@ == loss_view(*self, *hop, is_destination, deref_hops(next_hops@), level),
    {
        let ghost next = deref_hops(next_hops@);
        let loss = hop.stats.rounded_loss_percent();
        let mut continues = false;
        let mut all_small = true;
        let mut j: usize = 0;
        while j < next_hops.len()
            invariant
                j <= next_hops@.len(),
                next == deref_hops(next_hops@),
                self.wf(),
                continues == (exists|k: int| 0 <= k < j && #[trigger] next[k].stats.loss_above(self.loss_warning_threshold as nat)),
                all_small == (forall|k: int| 0 <= k < j ==> #[trigger] next[k].stats.loss_below(5)),
            decreases next_hops@.len() - j,
        {
            let h = next_hops[j];
            proof { assert(next[j as int] == *h); }
            if h.stats.exceeds_loss(self.loss_warning_threshold) {
                continues = true;
            }
            if !h.stats.under_loss(5) {
                all_small = false;
            }
            j = j + 1;
        }
        let sev = if hop.stats.exceeds_loss(self.loss_critical_threshold) { Severity::Critical } else { Severity::Warning };
        if !is_destination && !continues && all_small {
            let simple_headline = framed_number("", loss, "% loss here is probably harmless");
            let detailed_headline = framed_number("", loss, "% packet loss (likely rate-limiting)");
            let causes = loss_rate_limited_causes();
            message(level, Severity::Warning, simple_headline.as_str(), "This hop drops ping replies, but later hops are healthy. Usually the router is limiting ping responses rather than dropping real traffic.", detailed_headline.as_str(), "This hop shows packet loss, but subsequent hops and the destination are responding normally. This is typically caused by ICMP rate limiting, where the router deliberately slows down its responses to prevent overload.", causes, 80)
        } else if is_destination {
            let simple_headline = framed_number("", loss, "% packet loss to the target");
            let detailed_headline = framed_number("", loss, "% packet loss to destination");
            let causes = loss_dest_causes();
            message(level, sev, simple_headline.as_str(), "Some packets reach the target and some do not. Apps may feel slow, disconnect, or retry.", detailed_headline.as_str(), "The target server is experiencing significant packet loss. This indicates a real connectivity issue that will affect application performance.", causes, 90)
        } else if continues {
            let simple_headline = framed_number("", loss, "% loss starts at this hop");
            let detailed_headline = framed_number("", loss, "% packet loss starting here");
            let causes = loss_starts_causes();
            message(level, Severity::Warning, simple_headline.as_str(), "Packet loss begins here and keeps showing up later. This usually points to a real problem on this link or router.", detailed_headline.as_str(), "Packet loss begins at this hop and continues to subsequent hops. This suggests a genuine network issue at this point in the route.", causes, 75)
        } else {
            let simple_headline = framed_number("", loss, "% loss only on this router");
            let detailed_headline = framed_number("", loss, "% packet loss at intermediate hop");
            let causes = loss_local_causes();
            message(level, Severity::Warning, simple_headline.as_str(), "Later hops look normal, so this is often ping-reply behavior rather than a real end-to-end loss problem.", detailed_headline.as_str(), "This intermediate hop shows packet loss, but subsequent hops appear normal. This could be due to ICMP deprioritization rather than actual traffic loss.", causes, 60)
        }
    }

    fn interpret_high_latency(
        &self,
        hop: &HopSample,
        is_destination: bool,
        next_hops: &[&HopSample],
        level: ExplanationLevel,
    ) -> (r: HopInterpretation)
        ensures
            r@ == high_latency_view(*self, *hop, is_destination, deref_hops(next_hops@), level),
    {
        let ghost next = deref_hops(next_hops@);
        let avg = hop.stats.rounded_avg_ms();
        let mut continues = true;
        let mut j: usize = 0;
        while j < next_hops.len()
            invariant
                j <= next_hops@.len(),
                next == deref_hops(next_hops@),
                continues == (forall|k: int| 0 <= k < j ==> #[trigger] next[k].stats.avg_above(self.latency_warning_threshold_us as nat)),
            decreases next_hops@.len() - j,
        {
            let h = next_hops[j];
            proof { assert(next[j as int] == *h); }
            if !h.stats.exceeds_avg_us(self.latency_warning_threshold_us) {
                continues = false;
            }
            j = j + 1;
        }
        let increase_here = next_hops.len() > 0;
        let sev = if hop.stats.exceeds_avg_us(self.latency_critical_threshold_us) { Severity::Critical } else { Severity::Warning };
        if is_destination {
            let simple_headline = framed_number("The target is slow to answer (", avg, "ms)");
            let detailed_headline = framed_number("High latency: ", avg, "ms average");
            let causes = lat_dest_causes();
            message(level, sev, simple_headline.as_str(), "Replies take longer than normal. Browsing, downloads, calls, or games may feel delayed.", detailed_headline.as_str(), "The destination server is responding with high latency. This will cause noticeable delays in applications and may indicate server load or network issues.", causes, 85)
        } else if increase_here && continues {
            let simple_headline = framed_number("Delay starts around this hop (", avg, "ms)");
            let detailed_headline = framed_number("Latency spike at this hop: ", avg, "ms");
            let causes = lat_spike_causes();
            message(level, sev, simple_headline.as_str(), "Latency jumps here and stays high later. This is a good suspect link for congestion or distance.", detailed_headline.as_str(), "A significant increase in latency begins at this hop and continues to the destination. This identifies the network segment where delays are being introduced.", causes, 80)
        } else {
            let simple_headline = framed_number("This hop replies slowly (", avg, "ms)");
            let detailed_headline = framed_number("Elevated latency: ", avg, "ms");
            let causes = lat_slow_hop_causes();
            message(level, Severity::Warning, simple_headline.as_str(), "This router is slower to answer ping than the rest of the path. That matters only if the delay continues to the target.", detailed_headline.as_str(), "This hop shows higher than optimal latency. If this is an intermediate hop with normal latency at the destination, it may be due to ICMP deprioritization.", causes, 60)
        }
    }

    fn interpret_high_jitter(
        &self,
        hop: &HopSample,
        is_destination: bool,
        level: ExplanationLevel,
    ) -> (r: HopInterpretation)
        ensures
            r@ == high_jitter_view(*hop, is_destination, level),
    {
        let jitter = hop.stats.rounded_jitter_ms();
        if is_destination {
            let simple_headline = framed_number("Latency is unstable (", jitter, "ms jitter)");
            let detailed_headline = framed_number("High jitter: ", jitter, "ms variation");
            let causes = jit_dest_causes();
            message(level, Severity::Warning, simple_headline.as_str(), "Reply time changes a lot from packet to packet. Calls, streams, and games may stutter even if average ping looks okay.", detailed_headline.as_str(), "The connection to the destination has high latency variation (jitter). This can cause problems for real-time applications like VoIP, video calls, and gaming, even if average latency is acceptable.", causes, 80)
        } else {
            let simple_headline = framed_number("This hop has unstable reply times (", jitter, "ms)");
            let detailed_headline = framed_number("High jitter detected: ", jitter, "ms");
            let causes = jit_hop_causes();
            message(level, Severity::Warning, simple_headline.as_str(), "If later hops stay stable, this is often just how this router answers ping.", detailed_headline.as_str(), "This hop shows significant latency variation. Jitter at intermediate hops may indicate congestion or variable routing, but only matters if it affects the destination.", causes, 60)
        }
    }

    fn interpret_ok(
        &self,
        hop: &HopSample,
        is_destination: bool,
        level: ExplanationLevel,
    ) -> (r: HopInterpretation)
        ensures
            r@ == ok_view(*hop, is_destination, level),
    {
        let avg = if hop.stats.received > 0 {
            framed_number("", hop.stats.rounded_avg_ms(), "ms")
        } else {
            String::from_str("N/A")
        };
        proof {
            assert(avg@ == avg_text(hop.stats)) by {
                if hop.stats.received > 0 {
                    reveal_strlit("");
                    assert(""@ + digits(hop.stats.avg_ms_rounded()) + "ms"@ =~= digits(hop.stats.avg_ms_rounded()) + "ms"@);
                }
            }
        }
        if is_destination {
            let simple_headline = framed_text("Target looks healthy (", avg.as_str(), ")");
            let detailed_headline = framed_text("Destination responding normally (", avg.as_str(), ")");
            let causes = ok_dest_causes();
            message(level, Severity::Healthy, simple_headline.as_str(), "The destination is replying with little or no loss and normal delay.", detailed_headline.as_str(), "The target server is responding with healthy latency and no packet loss. The network path appears to be functioning correctly.", causes, 90)
        } else {
            let simple_headline = framed_text("This hop looks normal (", avg.as_str(), ")");
            let detailed_headline = framed_text("Healthy (", avg.as_str(), ")");
            let causes = ok_hop_causes();
            message(level, Severity::Healthy, simple_headline.as_str(), "This router is replying normally.", detailed_headline.as_str(), "This hop is responding normally with acceptable latency and no significant packet loss.", causes, 85)
        }
    }
}

} // verus!


verus! {

/// The hop at position `i` of `hops` as `annotate_hops` returns it.
pub open spec fn annotated_hop(e: InterpretationEngine, hops: Seq<HopSample>, i: int, level: ExplanationLevel, r: HopSample) -> bool {
    let view = interpretation_view(e, hops[i], i == hops.len() - 1, hops.skip(i + 1), level);
    &&& r.index == hops[i].index
    &&& r.hostname == hops[i].hostname
    &&& r.ip == hops[i].ip
    &&& r.stats == hops[i].stats
    &&& r.interpretation is Some
    &&& r.interpretation.unwrap()@ == view
    &&& r.status == view.severity
}

/// The first position at or after `i` whose hop satisfies `f`.
pub open spec fn first_where(hops: Seq<HopSample>, i: int, f: spec_fn(HopSample) -> bool) -> Option<int>
    decreases hops.len() - i,
{
    if i < 0 || i >= hops.len() {
        None
    } else if f(hops[i]) {
        Some(i)
    } else {
        first_where(hops, i + 1, f)
    }
}

/// The last position holding the largest hop index (the destination).
pub open spec fn destination_pos(hops: Seq<HopSample>) -> int
    decreases hops.len(),
{
    if hops.len() <= 1 {
        0
    } else {
        let p = destination_pos(hops.drop_last());
        if hops.last().index >= hops[p].index { hops.len() - 1 } else { p }
    }
}

/// A hop flagged as a problem: a warning or critical status while still answering.
pub open spec fn is_problem(h: HopSample) -> bool {
    (h.status == Severity::Warning || h.status == Severity::Critical) && h.stats.received > 0
}

/// The predicate `is_problem` as a value.
pub open spec fn problem_pred() -> spec_fn(HopSample) -> bool {
    |h: HopSample| is_problem(h)
}

/// The predicate "never answered" as a value.
pub open spec fn dead_pred() -> spec_fn(HopSample) -> bool {
    |h: HopSample| never_answered(h.stats)
}

/// The predicate "has index 1" as a value.
pub open spec fn first_hop_pred() -> spec_fn(HopSample) -> bool {
    |h: HopSample| h.index == 1
}

/// The predicate `loss_starts_at` on `hops` as a value.
pub open spec fn loss_start_pred(e: InterpretationEngine, hops: Seq<HopSample>) -> spec_fn(HopSample) -> bool {
    |h: HopSample| loss_starts_at(e, hops, h)
}

/// The predicate `latency_starts_at` on `hops` as a value.
pub open spec fn latency_start_pred(e: InterpretationEngine, hops: Seq<HopSample>) -> spec_fn(HopSample) -> bool {
    |h: HopSample| latency_starts_at(e, hops, h)
}

/// The destination answers and loses less than half of the probes.
pub open spec fn reachable(d: HopSample) -> bool {
    d.stats.received > 0 && d.stats.loss_below(50)
}

/// Loss above the warning threshold at the hop at position `p`, continuing at a hop with a larger index.
pub open spec fn loss_starts_at(e: InterpretationEngine, hops: Seq<HopSample>, h: HopSample) -> bool {
    &&& h.stats.loss_above(e.loss_warning_threshold as nat)
    &&& exists|q: int| 0 <= q < hops.len() && hops[q].index > h.index && #[trigger] hops[q].stats.loss_above(e.loss_warning_threshold as nat)
}

/// Latency above the warning threshold at hop `h`, continuing at a hop with a larger index.
pub open spec fn latency_starts_at(e: InterpretationEngine, hops: Seq<HopSample>, h: HopSample) -> bool {
    &&& h.stats.avg_above(e.latency_warning_threshold_us as nat)
    &&& exists|q: int| 0 <= q < hops.len() && hops[q].index > h.index && #[trigger] hops[q].stats.avg_above(e.latency_warning_threshold_us as nat)
}

/// Position of the first hop, other than the last one, where loss starts and continues.
pub open spec fn loss_start_pos(e: InterpretationEngine, hops: Seq<HopSample>) -> Option<int> {
    first_where(hops.take(hops.len() - 1), 0, loss_start_pred(e, hops))
}

/// Position of the first hop, other than the last one, where latency rises and stays up.
pub open spec fn latency_start_pos(e: InterpretationEngine, hops: Seq<HopSample>) -> Option<int> {
    first_where(hops.take(hops.len() - 1), 0, latency_start_pred(e, hops))
}

/// Position of the first hop with index 1.
pub open spec fn first_hop_pos(hops: Seq<HopSample>) -> Option<int> {
    first_where(hops, 0, first_hop_pred())
}

/// The first hop with index 1 exists and shows loss above the warning threshold.
pub open spec fn local_issue(e: InterpretationEngine, hops: Seq<HopSample>) -> bool {
    match first_hop_pos(hops) {
        Some(p) => hops[p].stats.loss_above(e.loss_warning_threshold as nat),
        None => false,
    }
}

/// The findings about the destination and the local network, before the fallback line.
pub open spec fn raw_findings(e: InterpretationEngine, hops: Seq<HopSample>) -> Seq<Seq<char>> {
    let d = hops[destination_pos(hops)].stats;
    let f1: Seq<Seq<char>> = if d.received == 0 {
        seq!["Destination is not responding to ICMP requests"@]
    } else if d.loss_above(e.loss_critical_threshold as nat) {
        seq![framed("High packet loss at destination: "@, d.loss_percent_rounded(), "%"@)]
    } else if d.loss_above(e.loss_warning_threshold as nat) {
        seq![framed("Moderate packet loss at destination: "@, d.loss_percent_rounded(), "%"@)]
    } else {
        Seq::empty()
    };
    let f2: Seq<Seq<char>> = if d.avg_above(e.latency_critical_threshold_us as nat) {
        seq![framed("Very high latency to destination: "@, d.avg_ms_rounded(), "ms"@)]
    } else if d.avg_above(e.latency_warning_threshold_us as nat) {
        seq![framed("Elevated latency to destination: "@, d.avg_ms_rounded(), "ms"@)]
    } else {
        Seq::empty()
    };
    let f3: Seq<Seq<char>> = if d.jitter_above(e.jitter_warning_threshold_us as nat) {
        seq![framed("High jitter at destination: "@, d.jitter_ms_rounded(), "ms"@)]
    } else {
        Seq::empty()
    };
    let f4: Seq<Seq<char>> = if local_issue(e, hops) {
        seq!["Issues detected starting at your local network or ISP"@]
    } else {
        Seq::empty()
    };
    f1 + f2 + f3 + f4
}

/// The recommendations about the destination and the local network, before the fallback lines.
pub open spec fn raw_recommendations(e: InterpretationEngine, hops: Seq<HopSample>) -> Seq<Seq<char>> {
    let d = hops[destination_pos(hops)].stats;
    let r1: Seq<Seq<char>> = if d.received == 0 {
        seq!["Verify the destination address is correct"@, "The server may be down or blocking ICMP"@]
    } else if d.loss_above(e.loss_critical_threshold as nat) {
        seq!["Contact your ISP or the destination server administrator"@]
    } else {
        Seq::empty()
    };
    let r2: Seq<Seq<char>> = if d.jitter_above(e.jitter_warning_threshold_us as nat) {
        seq!["For VoIP/gaming issues, check for bufferbloat on your router"@]
    } else {
        Seq::empty()
    };
    let r3: Seq<Seq<char>> = if local_issue(e, hops) {
        seq!["Check your local network equipment (router, cables)"@, "Restart your router/modem"@]
    } else {
        Seq::empty()
    };
    r1 + r2 + r3
}

/// The overall status of a non-empty route.
pub open spec fn overall_status_of(hops: Seq<HopSample>) -> Severity {
    if !reachable(hops[destination_pos(hops)]) {
        Severity::Critical
    } else {
        match first_where(hops, 0, problem_pred()) {
            Some(p) => hops[p].status,
            None => Severity::Healthy,
        }
    }
}

/// The primary finding of a non-empty route.
pub open spec fn primary_finding_of(e: InterpretationEngine, hops: Seq<HopSample>) -> Seq<char> {
    if !reachable(hops[destination_pos(hops)]) {
        match first_where(hops, 0, dead_pred()) {
            Some(p) => framed("The route likely breaks near hop "@, hops[p].index as nat, ""@),
            None => "The target is not replying"@,
        }
    } else {
        match loss_start_pos(e, hops) {
            Some(p) => framed("Packet loss begins at hop "@, hops[p].index as nat, ""@),
            None => match latency_start_pos(e, hops) {
                Some(p) => framed("Latency increase begins at hop "@, hops[p].index as nat, ""@),
                None => match first_where(hops, 0, problem_pred()) {
                    Some(p) => match hops[p].interpretation {
                        Some(i) => i.headline@,
                        None => "Some issues detected"@,
                    },
                    None => "Connection looks stable"@,
                },
            },
        }
    }
}

/// The summary `generate_summary` returns for `hops`.
pub open spec fn summary_view(e: InterpretationEngine, hops: Seq<HopSample>) -> SummaryView {
    if hops.len() == 0 {
        SummaryView {
            overall_status: Severity::Unknown,
            primary_finding: "No trace data available"@,
            secondary_findings: seq!["The trace did not complete or no hops were discovered"@],
            recommended_next_steps: seq!["Try running the trace again"@],
            problem_hop_index: None,
            destination_reachable: false,
        }
    } else {
        let overall = overall_status_of(hops);
        let findings = raw_findings(e, hops);
        let recs = raw_recommendations(e, hops);
        SummaryView {
            overall_status: overall,
            primary_finding: primary_finding_of(e, hops),
            secondary_findings: if findings.len() == 0 {
                seq!["No significant issues detected along the route"@]
            } else {
                findings
            },
            recommended_next_steps: if recs.len() > 0 {
                recs
            } else if overall == Severity::Healthy {
                seq!["No action needed - connection is healthy"@]
            } else {
                seq!["Monitor the connection for changes"@, "Share this report with technical support if issues persist"@]
            },
            problem_hop_index: match first_where(hops, 0, problem_pred()) {
                Some(p) => Some(hops[p].index),
                None => None,
            },
            destination_reachable: reachable(hops[destination_pos(hops)]),
        }
    }
}

proof fn lemma_first_where_step(hops: Seq<HopSample>, i: int, f: spec_fn(HopSample) -> bool)
    requires
        0 <= i < hops.len(),
        !f(hops[i]),
    ensures
        first_where(hops, i, f) == first_where(hops, i + 1, f),
{
}

proof fn lemma_first_where_found(hops: Seq<HopSample>, i: int, f: spec_fn(HopSample) -> bool)
    requires
        0 <= i < hops.len(),
        f(hops[i]),
    ensures
        first_where(hops, i, f) == Some(i),
{
}

/// The position `first_where` gives satisfies the predicate and nothing before it does.
pub proof fn lemma_first_where_spec(hops: Seq<HopSample>, i: int, f: spec_fn(HopSample) -> bool)
    requires
        0 <= i,
    ensures
        first_where(hops, i, f) matches Some(p) ==> i <= p < hops.len() && f(hops[p])
            && forall|k: int| i <= k < p ==> !f(#[trigger] hops[k]),
        first_where(hops, i, f) is None ==> forall|k: int| i <= k < hops.len() ==> !f(#[trigger] hops[k]),
    decreases hops.len() - i,
{
    if i < hops.len() && !f(hops[i]) {
        lemma_first_where_spec(hops, i + 1, f);
    }
}

proof fn lemma_destination_pos_bounds(hops: Seq<HopSample>)
    requires
        hops.len() > 0,
    ensures
        0 <= destination_pos(hops) < hops.len(),
    decreases hops.len(),
{
    if hops.len() > 1 {
        lemma_destination_pos_bounds(hops.drop_last());
    }
}

fn push_str_lit(v: &mut Vec<String>, s: &str)
    ensures
        strings_view(final(v)@) == strings_view(old(v)@).push(s@),
{
    v.push(String::from_str(s));
    proof {
        assert(strings_view(v@) =~= strings_view(old(v)@).push(s@));
    }
}

fn push_string(v: &mut Vec<String>, s: String)
    ensures
        strings_view(final(v)@) == strings_view(old(v)@).push(s@),
{
    v.push(s);
    proof {
        assert(strings_view(v@) =~= strings_view(old(v)@).push(s@));
    }
}

fn first_problem_pos(hops: &[HopSample]) -> (r: Option<usize>)
    ensures
        r matches Some(p) ==> first_where(hops@, 0, problem_pred()) == Some(p as int) && p < hops@.len(),
        r is None ==> first_where(hops@, 0, problem_pred()) is None,
{
    let ghost f = problem_pred();
    let mut i: usize = 0;
    while i < hops.len()
        invariant
            i <= hops@.len(),
            f == problem_pred(),
            first_where(hops@, 0, f) == first_where(hops@, i as int, f),
        decreases hops@.len() - i,
    {
        let h = &hops[i];
        if (h.status == Severity::Warning || h.status == Severity::Critical) && h.stats.received > 0 {
            proof { lemma_first_where_found(hops@, i as int, f); }
            return Some(i);
        }
        proof { lemma_first_where_step(hops@, i as int, f); }
        i = i + 1;
    }
    None
}

fn first_dead_pos(hops: &[HopSample]) -> (r: Option<usize>)
    ensures
        r matches Some(p) ==> first_where(hops@, 0, dead_pred()) == Some(p as int) && p < hops@.len(),
        r is None ==> first_where(hops@, 0, dead_pred()) is None,
{
    let ghost f = dead_pred();
    let mut i: usize = 0;
    while i < hops.len()
        invariant
            i <= hops@.len(),
            f == dead_pred(),
            first_where(hops@, 0, f) == first_where(hops@, i as int, f),
        decreases hops@.len() - i,
    {
        let h = &hops[i];
        if h.stats.received == 0 && h.stats.sent >= 3 {
            proof { lemma_first_where_found(hops@, i as int, f); }
            return Some(i);
        }
        proof { lemma_first_where_step(hops@, i as int, f); }
        i = i + 1;
    }
    None
}

fn first_index_one_pos(hops: &[HopSample]) -> (r: Option<usize>)
    ensures
        r matches Some(p) ==> first_hop_pos(hops@) == Some(p as int) && p < hops@.len(),
        r is None ==> first_hop_pos(hops@) is None,
{
    let ghost f = first_hop_pred();
    let mut i: usize = 0;
    while i < hops.len()
        invariant
            i <= hops@.len(),
            f == first_hop_pred(),
            first_where(hops@, 0, f) == first_where(hops@, i as int, f),
        decreases hops@.len() - i,
    {
        if hops[i].index == 1 {
            proof { lemma_first_where_found(hops@, i as int, f); }
            return Some(i);
        }
        proof { lemma_first_where_step(hops@, i as int, f); }
        i = i + 1;
    }
    None
}

fn find_destination(hops: &[HopSample]) -> (r: usize)
    requires
        hops@.len() > 0,
    ensures
        r == destination_pos(hops@),
        r < hops@.len(),
{
    let mut best: usize = 0;
    let mut i: usize = 1;
    proof {
        assert(hops@.take(1).len() == 1);
    }
    while i < hops.len()
        invariant
            1 <= i <= hops@.len(),
            best < i,
            best == destination_pos(hops@.take(i as int)),
        decreases hops@.len() - i,
    {
        proof {
            let t = hops@.take(i as int + 1);
            assert(t.drop_last() =~= hops@.take(i as int));
            assert(t.last() == hops@[i as int]);
            assert(t[best as int] == hops@[best as int]);
        }
        if hops[i].index >= hops[best].index {
            best = i;
        }
        i = i + 1;
    }
    proof {
        assert(hops@.take(hops@.len() as int) =~= hops@);
    }
    best
}

impl InterpretationEngine {
    /// Interprets every hop, marking the last one as the destination.
    pub fn annotate_hops(&self, hops: &[HopSample], level: ExplanationLevel) -> (r: Vec<HopSample>)
        requires
            self.wf(),
        ensures
            r@.len() == hops@.len(),
            forall|i: int| 0 <= i < hops@.len() ==> annotated_hop(*self, hops@, i, level, #[trigger] r@[i]),
    {
        let n = hops.len();
        let mut out: Vec<HopSample> = Vec::new();
        let mut i: usize = 0;
        while i < n
            invariant
                n == hops@.len(),
                i <= n,
                self.wf(),
                out@.len() == i,
                forall|k: int| 0 <= k < i ==> annotated_hop(*self, hops@, k, level, #[trigger] out@[k]),
            decreases n - i,
        {
            let mut next_hops: Vec<&HopSample> = Vec::new();
            let mut j: usize = i + 1;
            while j < n
                invariant
                    n == hops@.len(),
                    i < j <= n || (j == i + 1 && i + 1 <= n),
                    i < n,
                    deref_hops(next_hops@) =~= hops@.subrange(i as int + 1, j as int),
                decreases n - j,
            {
                let ghost before = next_hops@;
                next_hops.push(&hops[j]);
                proof {
                    assert(next_hops@ == before.push(&hops@[j as int]));
                    assert(deref_hops(next_hops@).len() == deref_hops(before).len() + 1);
                    assert forall|k: int| 0 <= k < deref_hops(next_hops@).len() implies deref_hops(next_hops@)[k] == hops@.subrange(i as int + 1, j as int + 1)[k] by {
                        if k < deref_hops(before).len() {
                            assert(deref_hops(next_hops@)[k] == deref_hops(before)[k]);
                        }
                    }
                    assert(deref_hops(next_hops@) =~= hops@.subrange(i as int + 1, j as int + 1));
                }
                j = j + 1;
            }
            proof {
                assert(hops@.subrange(i as int + 1, n as int) =~= hops@.skip(i as int + 1));
            }
            let hop = &hops[i];
            let is_destination = i == n - 1;
            let interpretation = self.interpret_hop_with_level(hop, is_destination, next_hops.as_slice(), level);
            let hostname = match &hop.hostname {
                Some(h) => Some(h.clone()),
                None => None,
            };
            let annotated = HopSample {
                index: hop.index,
                hostname,
                ip: hop.ip,
                stats: hop.stats,
                status: interpretation.severity,
                interpretation: Some(interpretation),
            };
            out.push(annotated);
            i = i + 1;
        }
        out
    }

    /// Generate an overall session summary.
    pub fn generate_summary(&self, hops: &[HopSample]) -> (r: SessionSummary)
        requires
            self.wf(),
        ensures
            r@ == summary_view(*self, hops@),
    {
        if hops.len() == 0 {
            let mut f: Vec<String> = Vec::new();
            push_str_lit(&mut f, "The trace did not complete or no hops were discovered");
            let mut rec: Vec<String> = Vec::new();
            push_str_lit(&mut rec, "Try running the trace again");
            let r = SessionSummary {
                overall_status: Severity::Unknown,
                primary_finding: String::from_str("No trace data available"),
                secondary_findings: f,
                recommended_next_steps: rec,
                problem_hop_index: None,
                destination_reachable: false,
            };
            proof {
                assert(strings_view(r.secondary_findings@) =~= seq!["The trace did not complete or no hops were discovered"@]);
                assert(strings_view(r.recommended_next_steps@) =~= seq!["Try running the trace again"@]);
            }
            return r;
        }
        let ghost hs = hops@;
        let n = hops.len();
        let dpos = find_destination(hops);
        let dest = &hops[dpos];
        let d = dest.stats;
        let destination_reachable = d.received > 0 && d.under_loss(50);
        let problem = first_problem_pos(hops);

        let mut findings: Vec<String> = Vec::new();
        let mut recommendations: Vec<String> = Vec::new();
        proof {
            assert(strings_view(findings@) =~= Seq::<Seq<char>>::empty());
            assert(strings_view(recommendations@) =~= Seq::<Seq<char>>::empty());
        }
        let ghost ef1: Seq<Seq<char>>;
        let ghost er1: Seq<Seq<char>>;
        if d.received == 0 {
            push_str_lit(&mut findings, "Destination is not responding to ICMP requests");
            push_str_lit(&mut recommendations, "Verify the destination address is correct");
            push_str_lit(&mut recommendations, "The server may be down or blocking ICMP");
        } else if d.exceeds_loss(self.loss_critical_threshold) {
            push_string(&mut findings, framed_number("High packet loss at destination: ", d.rounded_loss_percent(), "%"));
            push_str_lit(&mut recommendations, "Contact your ISP or the destination server administrator");
        } else if d.exceeds_loss(self.loss_warning_threshold) {
            push_string(&mut findings, framed_number("Moderate packet loss at destination: ", d.rounded_loss_percent(), "%"));
        }
        let ghost f1 = strings_view(findings@);
        let ghost r1 = strings_view(recommendations@);
        if d.exceeds_avg_us(self.latency_critical_threshold_us) {
            push_string(&mut findings, framed_number("Very high latency to destination: ", d.rounded_avg_ms(), "ms"));
        } else if d.exceeds_avg_us(self.latency_warning_threshold_us) {
            push_string(&mut findings, framed_number("Elevated latency to destination: ", d.rounded_avg_ms(), "ms"));
        }
        let ghost f2 = strings_view(findings@);
        if d.exceeds_jitter_us(self.jitter_warning_threshold_us) {
            push_string(&mut findings, framed_number("High jitter at destination: ", d.rounded_jitter_ms(), "ms"));
            push_str_lit(&mut recommendations, "For VoIP/gaming issues, check for bufferbloat on your router");
        }
        let ghost f3 = strings_view(findings@);
        let ghost r2 = strings_view(recommendations@);

        // Where loss and latency start to propagate, excluding the last hop.
        let loss_start = self.find_loss_start(hops);
        let latency_start = self.find_latency_start(hops);

        let first_hop = first_index_one_pos(hops);
        let local = match first_hop {
            Some(p) => hops[p].stats.exceeds_loss(self.loss_warning_threshold),
            None => false,
        };
        if local {
            push_str_lit(&mut findings, "Issues detected starting at your local network or ISP");
            push_str_lit(&mut recommendations, "Check your local network equipment (router, cables)");
            push_str_lit(&mut recommendations, "Restart your router/modem");
        }
        proof {
            assert(strings_view(findings@) =~= raw_findings(*self, hs));
            assert(strings_view(recommendations@) =~= raw_recommendations(*self, hs));
        }

        let overall_status = if !destination_reachable {
            Severity::Critical
        } else {
            match problem {
                Some(p) => hops[p].status,
                None => Severity::Healthy,
            }
        };

        let primary_finding = if !destination_reachable {
            match first_dead_pos(hops) {
                Some(p) => framed_number("The route likely breaks near hop ", hops[p].index as u128, ""),
                None => String::from_str("The target is not replying"),
            }
        } else {
            match loss_start {
                Some(p) => framed_number("Packet loss begins at hop ", hops[p].index as u128, ""),
                None => match latency_start {
                    Some(p) => framed_number("Latency increase begins at hop ", hops[p].index as u128, ""),
                    None => match problem {
                        Some(p) => match &hops[p].interpretation {
                            Some(i) => i.headline.clone(),
                            None => String::from_str("Some issues detected"),
                        },
                        None => String::from_str("Connection looks stable"),
                    },
                },
            }
        };

        if findings.len() == 0 {
            push_str_lit(&mut findings, "No significant issues detected along the route");
        }
        if recommendations.len() == 0 {
            if overall_status == Severity::Healthy {
                push_str_lit(&mut recommendations, "No action needed - connection is healthy");
            } else {
                push_str_lit(&mut recommendations, "Monitor the connection for changes");
                push_str_lit(&mut recommendations, "Share this report with technical support if issues persist");
            }
        }
        let problem_hop_index = match problem {
            Some(p) => Some(hops[p].index),
            None => None,
        };
        let r = SessionSummary {
            overall_status,
            primary_finding,
            secondary_findings: findings,
            recommended_next_steps: recommendations,
            problem_hop_index,
            destination_reachable,
        };
        proof {
            assert(r@.secondary_findings =~= summary_view(*self, hs).secondary_findings);
            assert(r@.recommended_next_steps =~= summary_view(*self, hs).recommended_next_steps);
        }
        r
    }

    fn find_loss_start(&self, hops: &[HopSample]) -> (r: Option<usize>)
        requires
            self.wf(),
            hops@.len() > 0,
        ensures
            r matches Some(p) ==> loss_start_pos(*self, hops@) == Some(p as int) && p < hops@.len(),
            r is None ==> loss_start_pos(*self, hops@) is None,
    {
        let ghost hs = hops@;
        let ghost f = loss_start_pred(*self, hs);
        let ghost t = hs.take(hs.len() - 1);
        let m = hops.len() - 1;
        let mut i: usize = 0;
        while i < m
            invariant
                m == hs.len() - 1,
                i <= m,
                self.wf(),
                hs == hops@,
                t == hs.take(hs.len() - 1),
                f == loss_start_pred(*self, hs),
                first_where(t, 0, f) == first_where(t, i as int, f),
            decreases m - i,
        {
            let h = &hops[i];
            let mut here = false;
            if h.stats.exceeds_loss(self.loss_warning_threshold) {
                let mut q: usize = 0;
                let mut cont = false;
                while q < hops.len()
                    invariant
                        q <= hops@.len(),
                        self.wf(),
                        i < hops@.len(),
                        cont == (exists|k: int| 0 <= k < q && hops@[k].index > hops@[i as int].index && #[trigger] hops@[k].stats.loss_above(self.loss_warning_threshold as nat)),
                    decreases hops@.len() - q,
                {
                    if hops[q].index > hops[i].index && hops[q].stats.exceeds_loss(self.loss_warning_threshold) {
                        cont = true;
                    }
                    q = q + 1;
                }
                here = cont;
            }
            proof {
                assert(t[i as int] == hs[i as int]);
                assert(here == f(t[i as int]));
            }
            if here {
                proof { lemma_first_where_found(t, i as int, f); }
                return Some(i);
            }
            proof { lemma_first_where_step(t, i as int, f); }
            i = i + 1;
        }
        None
    }

    fn find_latency_start(&self, hops: &[HopSample]) -> (r: Option<usize>)
        requires
            hops@.len() > 0,
        ensures
            r matches Some(p) ==> latency_start_pos(*self, hops@) == Some(p as int) && p < hops@.len(),
            r is None ==> latency_start_pos(*self, hops@) is None,
    {
        let ghost hs = hops@;
        let ghost f = latency_start_pred(*self, hs);
        let ghost t = hs.take(hs.len() - 1);
        let m = hops.len() - 1;
        let mut i: usize = 0;
        while i < m
            invariant
                m == hs.len() - 1,
                i <= m,
                hs == hops@,
                t == hs.take(hs.len() - 1),
                f == latency_start_pred(*self, hs),
                first_where(t, 0, f) == first_where(t, i as int, f),
            decreases m - i,
        {
            let h = &hops[i];
            let mut here = false;
            if h.stats.exceeds_avg_us(self.latency_warning_threshold_us) {
                let mut q: usize = 0;
                let mut cont = false;
                while q < hops.len()
                    invariant
                        q <= hops@.len(),
                        i < hops@.len(),
                        cont == (exists|k: int| 0 <= k < q && hops@[k].index > hops@[i as int].index && #[trigger] hops@[k].stats.avg_above(self.latency_warning_threshold_us as nat)),
                    decreases hops@.len() - q,
                {
                    if hops[q].index > hops[i].index && hops[q].stats.exceeds_avg_us(self.latency_warning_threshold_us) {
                        cont = true;
                    }
                    q = q + 1;
                }
                here = cont;
            }
            proof {
                assert(t[i as int] == hs[i as int]);
                assert(here == f(t[i as int]));
            }
            if here {
                proof { lemma_first_where_found(t, i as int, f); }
                return Some(i);
            }
            proof { lemma_first_where_step(t, i as int, f); }
            i = i + 1;
        }
        None
    }
}

} // verus!

verus! {

/// The explanation level changes only the wording: severity, probable causes and
/// confidence of an interpretation are the same at both levels.
pub proof fn lemma_level_changes_only_wording(e: InterpretationEngine, hop: HopSample, is_destination: bool, next: Seq<HopSample>)
    ensures
        interpretation_view(e, hop, is_destination, next, ExplanationLevel::Simple).severity
            == interpretation_view(e, hop, is_destination, next, ExplanationLevel::Detailed).severity,
        interpretation_view(e, hop, is_destination, next, ExplanationLevel::Simple).probable_causes
            == interpretation_view(e, hop, is_destination, next, ExplanationLevel::Detailed).probable_causes,
        interpretation_view(e, hop, is_destination, next, ExplanationLevel::Simple).confidence_percent
            == interpretation_view(e, hop, is_destination, next, ExplanationLevel::Detailed).confidence_percent,
{
}

/// A destination losing more than the critical share of its probes is critical.
pub proof fn lemma_destination_heavy_loss_is_critical(e: InterpretationEngine, hop: HopSample, next: Seq<HopSample>, level: ExplanationLevel)
    requires
        e.wf(),
        e.loss_warning_threshold <= e.loss_critical_threshold,
        hop.stats.loss_above(e.loss_critical_threshold as nat),
    ensures
        interpretation_view(e, hop, true, next, level).severity == Severity::Critical,
{
    assert(hop.stats.loss_above(e.loss_warning_threshold as nat)) by (nonlinear_arith)
        requires
            hop.stats.sent > 0,
            100 * hop.stats.lost() > (e.loss_critical_threshold as nat) * hop.stats.sent,
            e.loss_warning_threshold <= e.loss_critical_threshold;
}

/// An intermediate hop that never answers while some later hop answers with little loss
/// is reported as unknown (ping filtering), not as a failure.
pub proof fn lemma_silent_hop_with_live_successor_is_unknown(e: InterpretationEngine, hop: HopSample, next: Seq<HopSample>, level: ExplanationLevel)
    requires
        never_answered(hop.stats),
        later_hops_ok(next),
    ensures
        interpretation_view(e, hop, false, next, level).severity == Severity::Unknown,
{
}

/// Loss at an intermediate hop that does not continue, with every later hop under 5% loss,
/// is reported as a warning about rate limiting.
pub proof fn lemma_isolated_loss_is_rate_limiting(e: InterpretationEngine, hop: HopSample, next: Seq<HopSample>)
    requires
        hop.stats.received > 0,
        hop.stats.loss_above(e.loss_warning_threshold as nat),
        !loss_continues(e, next),
        later_loss_small(next),
    ensures
        interpretation_view(e, hop, false, next, ExplanationLevel::Detailed).severity == Severity::Warning,
        interpretation_view(e, hop, false, next, ExplanationLevel::Detailed).headline
            == framed(""@, hop.stats.loss_percent_rounded(), "% packet loss (likely rate-limiting)"@),
{
}

/// A hop with no loss, average latency and jitter under their warning thresholds is healthy.
pub proof fn lemma_quiet_hop_is_healthy(e: InterpretationEngine, hop: HopSample, is_destination: bool, next: Seq<HopSample>, level: ExplanationLevel)
    requires
        hop.stats.received > 0,
        !hop.stats.loss_above(e.loss_warning_threshold as nat),
        !hop.stats.avg_above(e.latency_warning_threshold_us as nat),
        !hop.stats.jitter_above(e.jitter_warning_threshold_us as nat),
    ensures
        interpretation_view(e, hop, is_destination, next, level).severity == Severity::Healthy,
{
}

/// Every summary carries at least one finding and at least one recommendation.
pub proof fn lemma_summary_never_silent(e: InterpretationEngine, hops: Seq<HopSample>)
    ensures
        summary_view(e, hops).secondary_findings.len() > 0,
        summary_view(e, hops).recommended_next_steps.len() > 0,
{
}

/// An unreachable destination makes the whole route critical; a reachable one with no
/// problem hop makes it healthy.
pub proof fn lemma_summary_status(e: InterpretationEngine, hops: Seq<HopSample>)
    requires
        hops.len() > 0,
    ensures
        !summary_view(e, hops).destination_reachable ==> summary_view(e, hops).overall_status == Severity::Critical,
        summary_view(e, hops).destination_reachable && summary_view(e, hops).problem_hop_index is None
            ==> summary_view(e, hops).overall_status == Severity::Healthy,
{
}

/// The problem hop a summary names is a hop of the route with a warning or critical status
/// that still answers, and every hop before it is not such a hop.
pub proof fn lemma_summary_problem_hop(e: InterpretationEngine, hops: Seq<HopSample>)
    requires
        hops.len() > 0,
    ensures
        summary_view(e, hops).problem_hop_index matches Some(idx) ==> exists|p: int|
            0 <= p < hops.len() && hops[p].index == idx && is_problem(#[trigger] hops[p])
                && forall|k: int| 0 <= k < p ==> !is_problem(#[trigger] hops[k]),
        summary_view(e, hops).problem_hop_index is None ==> forall|k: int| 0 <= k < hops.len() ==> !is_problem(#[trigger] hops[k]),
{
    lemma_first_where_spec(hops, 0, problem_pred());
    match first_where(hops, 0, problem_pred()) {
        Some(p) => {
            assert(is_problem(hops[p]));
            assert forall|k: int| 0 <= k < p implies !is_problem(#[trigger] hops[k]) by {
                assert(!problem_pred()(hops[k]));
            }
        },
        None => {
            assert forall|k: int| 0 <= k < hops.len() implies !is_problem(#[trigger] hops[k]) by {
                assert(!problem_pred()(hops[k]));
            }
        },
    }
}

/// The destination is the hop with the largest index.
pub proof fn lemma_destination_has_largest_index(hops: Seq<HopSample>)
    requires
        hops.len() > 0,
    ensures
        0 <= destination_pos(hops) < hops.len(),
        forall|k: int| 0 <= k < hops.len() ==> #[trigger] hops[k].index <= hops[destination_pos(hops)].index,
    decreases hops.len(),
{
    lemma_destination_pos_bounds(hops);
    if hops.len() > 1 {
        let h = hops.drop_last();
        lemma_destination_has_largest_index(h);
        let p = destination_pos(h);
        assert forall|k: int| 0 <= k < hops.len() implies #[trigger] hops[k].index <= hops[destination_pos(hops)].index by {
            if k < hops.len() - 1 {
                assert(h[k] == hops[k]);
                assert(h[p] == hops[p]);
            }
        }
    }
}

} // verus!

verus! {

/// Interprets the hops at the explanation level of `settings` and summarises the route.
pub fn interpret_hops(engine: &InterpretationEngine, settings: &crate::settings::Settings, hops: &[HopSample]) -> (r: Result<SessionSummary, String>)
    requires
        engine.wf(),
    ensures
        r matches Ok(summary) && exists|annotated: Seq<HopSample>| {
            &&& annotated.len() == hops@.len()
            &&& (forall|i: int| 0 <= i < hops@.len() ==> annotated_hop(*engine, hops@, i, settings.explanation_level, #[trigger] annotated[i]))
            &&& summary@ == summary_view(*engine, annotated)
        },
{
    let annotated = engine.annotate_hops(hops, settings.explanation_level);
    let summary = engine.generate_summary(annotated.as_slice());
    Ok(summary)
}

} // verus!

verus! {

/// On a route whose destination answers (every hop carrying the largest index answers with
/// under half of its probes lost), the overall status is the status of the first hop that
/// is flagged Warning or Critical while still answering: a reachable route whose first such
/// hop is Critical is summarised as Critical, one whose first such hop is a Warning as a
/// Warning.
pub proof fn lemma_overall_status_is_first_problem_status(e: InterpretationEngine, hops: Seq<HopSample>, i: int)
    requires
        0 <= i < hops.len(),
        forall|d: int| 0 <= d < hops.len() && (forall|k: int| 0 <= k < hops.len() ==> hops[k].index <= hops[d].index)
            ==> #[trigger] hops[d].stats.received > 0 && hops[d].stats.loss_below(50),
        hops[i].status == Severity::Warning || hops[i].status == Severity::Critical,
        hops[i].stats.received > 0,
        forall|j: int| 0 <= j < i ==> !(((#[trigger] hops[j]).status == Severity::Warning || hops[j].status == Severity::Critical)
            && hops[j].stats.received > 0),
    ensures
        summary_view(e, hops).overall_status == hops[i].status,
{
    lemma_destination_has_largest_index(hops);
    let d = destination_pos(hops);
    assert(hops[d].stats.received > 0 && hops[d].stats.loss_below(50));
    lemma_first_where_spec(hops, 0, problem_pred());
    assert(problem_pred()(hops[i]));
    match first_where(hops, 0, problem_pred()) {
        Some(p) => {
            if p < i {
                assert(problem_pred()(hops[p]));
                assert(!((hops[p].status == Severity::Warning || hops[p].status == Severity::Critical) && hops[p].stats.received > 0));
            }
        },
        None => {},
    }
}

/// An intermediate hop with an average latency above the warning threshold (that answers,
/// without loss above the loss threshold) is reported as the start of a latency spike only
/// when every later hop's average is above the warning threshold as well. If some later hop
/// is at or below it, the hop is a Warning reading "Elevated latency" with confidence 60;
/// if all later hops are above it (and there is one), it reads "Latency spike at this hop"
/// with confidence 80 and is Critical exactly when its own average is above the critical
/// threshold.
pub proof fn lemma_latency_spike_needs_every_later_hop(
    e: InterpretationEngine,
    hop: HopSample,
    next: Seq<HopSample>,
    level: ExplanationLevel,
)
    requires
        !(hop.stats.received == 0 && hop.stats.sent >= 3),
        !hop.stats.loss_above(e.loss_warning_threshold as nat),
        hop.stats.received > 0,
        hop.stats.total_us > e.latency_warning_threshold_us * hop.stats.received,
    ensures
        (exists|j: int| 0 <= j < next.len() && !((#[trigger] next[j]).stats.received > 0
            && next[j].stats.total_us > e.latency_warning_threshold_us * next[j].stats.received)) ==> {
            let v = interpretation_view(e, hop, false, next, level);
            &&& v.severity == Severity::Warning
            &&& v.confidence_percent == 60
            &&& (level == ExplanationLevel::Detailed ==> v.headline == "Elevated latency: "@ + digits(hop.stats.avg_ms_rounded()) + "ms"@)
        },
        (next.len() > 0 && forall|j: int| 0 <= j < next.len() ==> (#[trigger] next[j]).stats.received > 0
            && next[j].stats.total_us > e.latency_warning_threshold_us * next[j].stats.received) ==> {
            let v = interpretation_view(e, hop, false, next, level);
            &&& v.severity == (if hop.stats.total_us > e.latency_critical_threshold_us * hop.stats.received { Severity::Critical } else { Severity::Warning })
            &&& v.confidence_percent == 80
            &&& (level == ExplanationLevel::Detailed ==> v.headline == "Latency spike at this hop: "@ + digits(hop.stats.avg_ms_rounded()) + "ms"@)
        },
{
    let v = interpretation_view(e, hop, false, next, level);
    if exists|j: int| 0 <= j < next.len() && !((#[trigger] next[j]).stats.received > 0
        && next[j].stats.total_us > e.latency_warning_threshold_us * next[j].stats.received) {
        let j = choose|j: int| 0 <= j < next.len() && !((#[trigger] next[j]).stats.received > 0
            && next[j].stats.total_us > e.latency_warning_threshold_us * next[j].stats.received);
        assert(!next[j].stats.avg_above(e.latency_warning_threshold_us as nat));
        assert(!latency_continues(e, next));
    }
    if next.len() > 0 && forall|j: int| 0 <= j < next.len() ==> (#[trigger] next[j]).stats.received > 0
        && next[j].stats.total_us > e.latency_warning_threshold_us * next[j].stats.received {
        assert forall|j: int| 0 <= j < next.len() implies #[trigger] next[j].stats.avg_above(e.latency_warning_threshold_us as nat) by {
        }
        assert(latency_continues(e, next));
    }
}

/// In an annotated route, a hop that is not the last and never answered three or more
/// probes is judged by every later hop, not only the next one: it is reported as ignoring
/// pings (Unknown, confidence 85) when any later hop answers with under 10% loss, and as the
/// place where the connection is lost (Critical, confidence 75) when no later hop does.
pub proof fn lemma_silent_hop_judged_by_every_later_hop(
    e: InterpretationEngine,
    hops: Seq<HopSample>,
    level: ExplanationLevel,
    r: Seq<HopSample>,
    i: int,
)
    requires
        r.len() == hops.len(),
        forall|k: int| 0 <= k < hops.len() ==> annotated_hop(e, hops, k, level, #[trigger] r[k]),
        0 <= i < hops.len() - 1,
        hops[i].stats.received == 0,
        hops[i].stats.sent >= 3,
    ensures
        (exists|j: int| i < j < hops.len() && (#[trigger] hops[j]).stats.received > 0 && hops[j].stats.loss_below(10))
            ==> r[i].status == Severity::Unknown && r[i].interpretation.unwrap()@.confidence_percent == 85,
        (forall|j: int| i < j < hops.len() ==> !((#[trigger] hops[j]).stats.received > 0 && hops[j].stats.loss_below(10)))
            ==> r[i].status == Severity::Critical && r[i].interpretation.unwrap()@.confidence_percent == 75,
{
    assert(annotated_hop(e, hops, i, level, r[i]));
    let next = hops.skip(i + 1);
    if exists|j: int| i < j < hops.len() && (#[trigger] hops[j]).stats.received > 0 && hops[j].stats.loss_below(10) {
        let j = choose|j: int| i < j < hops.len() && (#[trigger] hops[j]).stats.received > 0 && hops[j].stats.loss_below(10);
        assert(next[j - i - 1] == hops[j]);
        assert(later_hops_ok(next));
    }
    if forall|j: int| i < j < hops.len() ==> !((#[trigger] hops[j]).stats.received > 0 && hops[j].stats.loss_below(10)) {
        assert forall|m: int| 0 <= m < next.len() implies !((#[trigger] next[m]).stats.received > 0 && next[m].stats.loss_below(10)) by {
            assert(next[m] == hops[i + 1 + m]);
        }
        assert(!later_hops_ok(next));
    }
}

} // verus!
