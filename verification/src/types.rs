//! Core data types: configuration, sessions, per-hop statistics, interpretations and summaries.
//!
//! Latencies are kept as whole microseconds and loss as the pair of sent and received
//! counts, so every comparison made on them is exact.

use vstd::prelude::*;
use crate::ip::IpAddress;

verus! {

/// Severity level for hop and session interpretation.
#[derive(Debug, Clone, Copy, PartialEq, Eq, Structural)]
pub enum Severity {
    /// Everything looks good
    Healthy,
    /// Something worth attention, but may not be a problem
    Warning,
    /// Significant issue detected
    Critical,
    /// Unable to determine status (e.g., no response)
    Unknown,
}

/// Protocol mode for tracing.
#[derive(Debug, Clone, Copy, PartialEq, Eq, Structural)]
pub enum ProtocolMode {
    Icmp,
    Udp,
    Tcp,
}

/// Configuration for a trace session.
#[derive(Debug, Clone)]
pub struct TraceConfig {
    /// Target hostname or IP address
    pub target: String,
    /// Protocol to use for probing
    pub protocol: ProtocolMode,
    /// Interval between probes in milliseconds
    pub interval_ms: u64,
    /// Maximum number of hops to trace
    pub max_hops: u8,
    /// Timeout for each probe in milliseconds
    pub timeout_ms: u64,
    /// Number of packets to send per hop (0 = infinite)
    pub count: u32,
}

/// The protocol used when a configuration names none.
pub fn default_protocol() -> (p: ProtocolMode)
    ensures
        p == ProtocolMode::Icmp,
{
    ProtocolMode::Icmp
}

/// The probe interval used when a configuration names none.
pub fn default_interval() -> (v: u64)
    ensures
        v == 1000,
{
    1000
}

/// The hop limit used when a configuration names none.
pub fn default_max_hops() -> (v: u8)
    ensures
        v == 30,
{
    30
}

/// The probe timeout used when a configuration names none.
pub fn default_timeout() -> (v: u64)
    ensures
        v == 1000,
{
    1000
}

/// The probe count used when a configuration names none (0 means unlimited).
pub fn default_count() -> (v: u32)
    ensures
        v == 0,
{
    0
}

impl Default for TraceConfig {
    fn default() -> (c: Self)
        ensures
            c.target@ == Seq::<char>::empty(),
            c.protocol == ProtocolMode::Icmp,
            c.interval_ms == 1000,
            c.max_hops == 30,
            c.timeout_ms == 1000,
            c.count == 0,
    {
        TraceConfig {
            target: String::new(),
            protocol: default_protocol(),
            interval_ms: default_interval(),
            max_hops: default_max_hops(),
            timeout_ms: default_timeout(),
            count: default_count(),
        }
    }
}

impl TraceConfig {
    /// An equal copy of the configuration.
    pub fn duplicate(&self) -> (r: Self)
        ensures
            r == *self,
    {
        TraceConfig {
            target: self.target.clone(),
            protocol: self.protocol,
            interval_ms: self.interval_ms,
            max_hops: self.max_hops,
            timeout_ms: self.timeout_ms,
            count: self.count,
        }
    }
}

/// Running state of a trace session.
#[derive(Debug, Clone, Copy, PartialEq, Eq, Structural)]
pub enum SessionState {
    /// Session is being initialized
    Initializing,
    /// Session is actively probing
    Running,
    /// Session has been paused
    Paused,
    /// Session has completed (reached count limit or stopped)
    Completed,
    /// Session encountered an error
    Error,
}

/// A single trace session.
#[derive(Debug, Clone)]
pub struct TraceSession {
    /// Unique session identifier
    pub id: String,
    /// Configuration used for this session
    pub config: TraceConfig,
    /// Resolved target IP address
    pub target_ip: Option<IpAddress>,
    /// Current state of the session
    pub state: SessionState,
    /// When the session was started, in milliseconds since the Unix epoch
    pub started_at: Option<i64>,
    /// When the session ended, in milliseconds since the Unix epoch
    pub ended_at: Option<i64>,
    /// Error message if state is Error
    pub error: Option<String>,
}

/// Whether `id` has the shape of a hyphenated version-4 UUID text.
pub open spec fn is_v4_uuid_text(id: Seq<char>) -> bool {
    &&& id.len() == 36
    &&& id[8] == '-'
    &&& id[13] == '-'
    &&& id[18] == '-'
    &&& id[23] == '-'
    &&& id[14] == '4'
}

/// Calls `uuid::Uuid::new_v4` and renders it with `to_string`.
/// The value is random; what is claimed is the shape of the hyphenated form that
/// uuid's `Display` writes: 36 characters, hyphens at 8, 13, 18 and 23, and the
/// version digit `4` at position 14.
#[verifier::external_body]
fn random_session_id() -> (id: String)
    ensures
        is_v4_uuid_text(id@),
{
    uuid::Uuid::new_v4().to_string()
}

impl TraceSession {
    /// A fresh session for `config` with a random identifier.
    pub fn new(config: TraceConfig) -> (s: Self)
        ensures
            is_v4_uuid_text(s.id@),
            s.config == config,
            s.target_ip is None,
            s.state == SessionState::Initializing,
            s.started_at is None,
            s.ended_at is None,
            s.error is None,
    {
        let id = random_session_id();
        TraceSession::with_id(id, config)
    }

    /// A fresh session for `config` carrying the given identifier.
    pub fn with_id(id: String, config: TraceConfig) -> (s: Self)
        ensures
            s.id == id,
            s.config == config,
            s.target_ip is None,
            s.state == SessionState::Initializing,
            s.started_at is None,
            s.ended_at is None,
            s.error is None,
    {
        TraceSession {
            id,
            config,
            target_ip: None,
            state: SessionState::Initializing,
            started_at: None,
            ended_at: None,
            error: None,
        }
    }

    /// Marks the session as running towards `ip`, started at `now_ms`.
    pub fn mark_running(&mut self, ip: IpAddress, now_ms: i64)
        ensures
            final(self).target_ip == Some(ip),
            final(self).state == SessionState::Running,
            final(self).started_at == Some(now_ms),
            final(self).id == old(self).id,
            final(self).config == old(self).config,
            final(self).ended_at == old(self).ended_at,
            final(self).error == old(self).error,
    {
        self.target_ip = Some(ip);
        self.state = SessionState::Running;
        self.started_at = Some(now_ms);
    }

    /// Marks the session as failed with `message`.
    pub fn mark_error(&mut self, message: String)
        ensures
            final(self).state == SessionState::Error,
            final(self).error == Some(message),
            final(self).id == old(self).id,
            final(self).config == old(self).config,
            final(self).target_ip == old(self).target_ip,
            final(self).started_at == old(self).started_at,
            final(self).ended_at == old(self).ended_at,
    {
        self.state = SessionState::Error;
        self.error = Some(message);
    }
}

/// Statistics for a single hop.
///
/// `total_us` is the sum of all received latencies; `deviation_total_us` is the sum, over
/// the received samples, of each sample's distance from the running average taken just
/// after it (in whole microseconds, rounded down).
#[derive(Debug, Clone, Copy, PartialEq, Eq, Structural)]
pub struct HopStats {
    /// Number of packets sent
    pub sent: u32,
    /// Number of packets received
    pub received: u32,
    /// Best latency in microseconds
    pub best_us: Option<u64>,
    /// Worst latency in microseconds
    pub worst_us: Option<u64>,
    /// Most recent latency in microseconds
    pub last_us: Option<u64>,
    /// Sum of the received latencies in microseconds
    pub total_us: u128,
    /// Sum of the per-sample deviations in microseconds
    pub deviation_total_us: u128,
}

/// The deviation recorded for the `k`-th sample `x` when the samples so far sum to `s`:
/// the distance between `x` and the average `s / k`, rounded down.
pub open spec fn sample_deviation(k: nat, x: nat, s: nat) -> nat
    recommends
        k > 0,
{
    if k * x >= s {
        ((k * x - s) as nat) / k
    } else {
        ((s - k * x) as nat) / k
    }
}

pub open spec fn min_opt(a: Option<u64>, x: u64) -> Option<u64> {
    match a {
        None => Some(x),
        Some(b) => if x < b { Some(x) } else { Some(b) },
    }
}

pub open spec fn max_opt(a: Option<u64>, x: u64) -> Option<u64> {
    match a {
        None => Some(x),
        Some(b) => if x > b { Some(x) } else { Some(b) },
    }
}

impl HopStats {
    /// Statistics of a hop that has seen no probe.
    pub open spec fn spec_default() -> HopStats {
        HopStats {
            sent: 0,
            received: 0,
            best_us: None,
            worst_us: None,
            last_us: None,
            total_us: 0,
            deviation_total_us: 0,
        }
    }

    /// The counts are consistent and the sums are those of at most `received` latencies.
    pub open spec fn wf(self) -> bool {
        &&& self.received <= self.sent
        &&& self.total_us <= (self.received as int) * (u64::MAX as int)
        &&& self.deviation_total_us <= (self.received as int) * (u64::MAX as int)
    }

    /// Packets sent but not answered.
    pub open spec fn lost(self) -> nat {
        if self.received <= self.sent { (self.sent - self.received) as nat } else { 0 }
    }

    /// Loss percentage strictly above `p`.
    pub open spec fn loss_above(self, p: nat) -> bool {
        self.sent > 0 && 100 * self.lost() > p * self.sent
    }

    /// Loss percentage strictly below `p` (an unprobed hop has no loss).
    pub open spec fn loss_below(self, p: nat) -> bool {
        self.sent == 0 || 100 * self.lost() < p * self.sent
    }

    /// Average latency strictly above `t` microseconds (false when nothing was received).
    pub open spec fn avg_above(self, t: nat) -> bool {
        self.received > 0 && self.total_us > t * self.received
    }

    /// Jitter strictly above `t` microseconds (false when nothing was received).
    pub open spec fn jitter_above(self, t: nat) -> bool {
        self.received > 0 && self.deviation_total_us > t * self.received
    }

    /// Loss percentage rounded to a whole number.
    pub open spec fn loss_percent_rounded(self) -> nat {
        if self.sent == 0 { 0 } else { crate::text::round_half_even(100 * self.lost(), self.sent as nat) }
    }

    /// Average latency in milliseconds, rounded to a whole number (0 without samples).
    pub open spec fn avg_ms_rounded(self) -> nat {
        if self.received == 0 { 0 } else { crate::text::round_half_even(self.total_us as nat, (1000 * self.received) as nat) }
    }

    /// Jitter in milliseconds, rounded to a whole number (0 without samples).
    pub open spec fn jitter_ms_rounded(self) -> nat {
        if self.received == 0 { 0 } else { crate::text::round_half_even(self.deviation_total_us as nat, (1000 * self.received) as nat) }
    }

    /// The statistics after one more answered probe with latency `x`.
    pub open spec fn after_sample(self, x: u64) -> HopStats {
        let k = self.received + 1;
        let s = self.total_us + x;
        HopStats {
            sent: (self.sent + 1) as u32,
            received: (self.received + 1) as u32,
            best_us: min_opt(self.best_us, x),
            worst_us: max_opt(self.worst_us, x),
            last_us: Some(x),
            total_us: s as u128,
            deviation_total_us: (self.deviation_total_us + sample_deviation(k as nat, x as nat, s as nat)) as u128,
        }
    }

    /// The statistics after one more unanswered probe.
    pub open spec fn after_timeout(self) -> HopStats {
        HopStats { sent: (self.sent + 1) as u32, ..self }
    }

    /// Update statistics with a new latency sample (in microseconds).
    pub fn add_sample(&mut self, latency_us: u64)
        requires
            old(self).wf(),
            old(self).sent < u32::MAX,
        ensures
            *final(self) == old(self).after_sample(latency_us),
            final(self).wf(),
    {
        let ghost pre = *self;
        self.sent = self.sent + 1;
        self.received = self.received + 1;
        self.last_us = Some(latency_us);
        match self.best_us {
            None => self.best_us = Some(latency_us),
            Some(best) => {
                if latency_us < best {
                    self.best_us = Some(latency_us);
                }
            },
        }
        match self.worst_us {
            None => self.worst_us = Some(latency_us),
            Some(worst) => {
                if latency_us > worst {
                    self.worst_us = Some(latency_us);
                }
            },
        }
        let k: u128 = self.received as u128;
        let x: u128 = latency_us as u128;
        proof {
            assert(pre.total_us + x <= (k as int) * (u64::MAX as int)) by (nonlinear_arith)
                requires
                    pre.total_us <= (pre.received as int) * (u64::MAX as int),
                    k == pre.received + 1,
                    x <= u64::MAX;
            assert(k * x <= (k as int) * (u64::MAX as int)) by (nonlinear_arith)
                requires x <= u64::MAX, k >= 0;
            assert((k as int) * (u64::MAX as int) <= 0x1_0000_0000 * (u64::MAX as int)) by (nonlinear_arith)
                requires k <= 0x1_0000_0000;
        }
        let s: u128 = self.total_us + x;
        self.total_us = s;
        let kx: u128 = k * x;
        let dev: u128 = if kx >= s { (kx - s) / k } else { (s - kx) / k };
        proof {
            assert(dev <= u64::MAX) by (nonlinear_arith)
                requires
                    dev == (if kx >= s { (kx - s) as int / (k as int) } else { (s - kx) as int / (k as int) }),
                    kx == k * x,
                    x <= u64::MAX,
                    s <= k * (u64::MAX as int),
                    k > 0;
            assert(pre.deviation_total_us + dev <= (k as int) * (u64::MAX as int)) by (nonlinear_arith)
                requires
                    pre.deviation_total_us <= (pre.received as int) * (u64::MAX as int),
                    k == pre.received + 1,
                    dev <= u64::MAX;
        }
        self.deviation_total_us = self.deviation_total_us + dev;
    }

    /// Record a timeout (packet sent but not received).
    pub fn add_timeout(&mut self)
        requires
            old(self).sent < u32::MAX,
        ensures
            *final(self) == old(self).after_timeout(),
            old(self).wf() ==> final(self).wf(),
    {
        self.sent = self.sent + 1;
    }

    /// Packet loss in hundredths of a percent, rounded to nearest (0 when nothing was sent).
    pub fn loss_basis_points(&self) -> (r: u32)
        ensures
            r == (if self.sent == 0 { 0 } else { crate::text::round_half_even(10000 * self.lost(), self.sent as nat) }),
    {
        if self.sent == 0 {
            0
        } else {
            let lost: u128 = if self.received <= self.sent { (self.sent - self.received) as u128 } else { 0 };
            proof {
                assert((lost * 10000) as int / (self.sent as int) <= 10000) by (nonlinear_arith)
                    requires lost <= self.sent, self.sent > 0;
            }
            let r = crate::text::round_div(10000 * lost, self.sent as u128);
            proof {
                assert(r <= 10001);
            }
            r as u32
        }
    }

    /// Average latency in whole microseconds, rounded down; `None` before the first answer.
    pub fn avg_us(&self) -> (r: Option<u64>)
        requires
            self.wf(),
        ensures
            r == (if self.received == 0 { None } else { Some((self.total_us / (self.received as u128)) as u64) }),
    {
        if self.received == 0 {
            None
        } else {
            proof {
                assert(self.total_us / (self.received as u128) <= u64::MAX) by (nonlinear_arith)
                    requires self.total_us <= (self.received as int) * (u64::MAX as int), self.received > 0;
            }
            Some((self.total_us / (self.received as u128)) as u64)
        }
    }

    /// Jitter in whole microseconds, rounded down; `None` before the first answer.
    pub fn jitter_us(&self) -> (r: Option<u64>)
        requires
            self.wf(),
        ensures
            r == (if self.received == 0 { None } else { Some((self.deviation_total_us / (self.received as u128)) as u64) }),
    {
        if self.received == 0 {
            None
        } else {
            proof {
                assert(self.deviation_total_us / (self.received as u128) <= u64::MAX) by (nonlinear_arith)
                    requires self.deviation_total_us <= (self.received as int) * (u64::MAX as int), self.received > 0;
            }
            Some((self.deviation_total_us / (self.received as u128)) as u64)
        }
    }
}

impl HopStats {
    /// Whether the loss percentage is strictly above `p`.
    pub fn exceeds_loss(&self, p: u64) -> (r: bool)
        requires
            p <= 100,
        ensures
            r == self.loss_above(p as nat),
    {
        let lost: u64 = if self.received <= self.sent { (self.sent - self.received) as u64 } else { 0 };
        proof {
            assert((p as int) * (self.sent as int) <= 100 * (u32::MAX as int)) by (nonlinear_arith)
                requires p <= 100, self.sent <= u32::MAX;
        }
        self.sent > 0 && 100 * lost > p * (self.sent as u64)
    }

    /// Whether the loss percentage is strictly below `p`.
    pub fn under_loss(&self, p: u64) -> (r: bool)
        requires
            p <= 100,
        ensures
            r == self.loss_below(p as nat),
    {
        let lost: u64 = if self.received <= self.sent { (self.sent - self.received) as u64 } else { 0 };
        proof {
            assert((p as int) * (self.sent as int) <= 100 * (u32::MAX as int)) by (nonlinear_arith)
                requires p <= 100, self.sent <= u32::MAX;
        }
        self.sent == 0 || 100 * lost < p * (self.sent as u64)
    }

    /// Whether the average latency is strictly above `t` microseconds.
    pub fn exceeds_avg_us(&self, t: u64) -> (r: bool)
        ensures
            r == self.avg_above(t as nat),
    {
        proof {
            assert((t as int) * (self.received as int) <= (u64::MAX as int) * (u32::MAX as int)) by (nonlinear_arith)
                requires t <= u64::MAX, self.received <= u32::MAX;
        }
        self.received > 0 && self.total_us > (t as u128) * (self.received as u128)
    }

    /// Whether the jitter is strictly above `t` microseconds.
    pub fn exceeds_jitter_us(&self, t: u64) -> (r: bool)
        ensures
            r == self.jitter_above(t as nat),
    {
        proof {
            assert((t as int) * (self.received as int) <= (u64::MAX as int) * (u32::MAX as int)) by (nonlinear_arith)
                requires t <= u64::MAX, self.received <= u32::MAX;
        }
        self.received > 0 && self.deviation_total_us > (t as u128) * (self.received as u128)
    }

    /// The loss percentage rounded to a whole number.
    pub fn rounded_loss_percent(&self) -> (r: u128)
        ensures
            r == self.loss_percent_rounded(),
    {
        if self.sent == 0 {
            0
        } else {
            let lost: u128 = if self.received <= self.sent { (self.sent - self.received) as u128 } else { 0 };
            proof {
                assert((lost * 100) as int / (self.sent as int) <= 100) by (nonlinear_arith)
                    requires lost <= self.sent, self.sent > 0;
            }
            crate::text::round_div(100 * lost, self.sent as u128)
        }
    }

    /// The average latency in milliseconds rounded to a whole number (0 without samples).
    pub fn rounded_avg_ms(&self) -> (r: u128)
        ensures
            r == self.avg_ms_rounded(),
    {
        if self.received == 0 {
            0
        } else {
            let d: u128 = 1000 * (self.received as u128);
            proof {
                assert(self.total_us as int / (d as int) < u128::MAX) by (nonlinear_arith)
                    requires d >= 1000, self.total_us <= u128::MAX;
            }
            crate::text::round_div(self.total_us, d)
        }
    }

    /// The jitter in milliseconds rounded to a whole number (0 without samples).
    pub fn rounded_jitter_ms(&self) -> (r: u128)
        ensures
            r == self.jitter_ms_rounded(),
    {
        if self.received == 0 {
            0
        } else {
            let d: u128 = 1000 * (self.received as u128);
            proof {
                assert(self.deviation_total_us as int / (d as int) < u128::MAX) by (nonlinear_arith)
                    requires d >= 1000, self.deviation_total_us <= u128::MAX;
            }
            crate::text::round_div(self.deviation_total_us, d)
        }
    }
}

impl HopStats {
    /// The recorded extremes bound every sample: best, worst and last exist exactly when
    /// something was received, the last sample lies between best and worst, and the sum of the
    /// samples lies between `received` times the best and `received` times the worst; without
    /// an answer both sums are zero.
    pub open spec fn consistent(self) -> bool {
        if self.received == 0 {
            &&& self.best_us is None
            &&& self.worst_us is None
            &&& self.last_us is None
            &&& self.total_us == 0
            &&& self.deviation_total_us == 0
        } else {
            &&& self.best_us is Some
            &&& self.worst_us is Some
            &&& self.last_us is Some
            &&& self.best_us.unwrap() <= self.last_us.unwrap() <= self.worst_us.unwrap()
            &&& (self.received as int) * (self.best_us.unwrap() as int) <= self.total_us
            &&& self.total_us <= (self.received as int) * (self.worst_us.unwrap() as int)
        }
    }
}

/// Fresh statistics are consistent and well formed.
pub proof fn lemma_default_stats_consistent()
    ensures
        HopStats::spec_default().consistent(),
        HopStats::spec_default().wf(),
{
}

/// A new sample keeps the statistics consistent, lies between the new best and worst,
/// becomes the last sample and leaves the number of lost probes unchanged.
pub proof fn lemma_sample_keeps_consistent(s: HopStats, x: u64)
    requires
        s.consistent(),
        s.wf(),
        s.sent < u32::MAX,
    ensures
        s.after_sample(x).consistent(),
        s.after_sample(x).best_us.unwrap() <= x <= s.after_sample(x).worst_us.unwrap(),
        s.after_sample(x).last_us == Some(x),
        s.after_sample(x).lost() == s.lost(),
        s.after_sample(x).received == s.received + 1,
        s.after_sample(x).wf(),
{
    let t = s.after_sample(x);
    let r = s.received as int;
    let k = r + 1;
    let tot = s.total_us + x;
    assert(tot <= k * (u64::MAX as int)) by (nonlinear_arith)
        requires s.total_us <= r * (u64::MAX as int), x <= u64::MAX, k == r + 1, tot == s.total_us + x;
    let dev = sample_deviation(k as nat, x as nat, tot as nat);
    assert(dev <= u64::MAX) by (nonlinear_arith)
        requires
            dev == (if k * x >= tot { (k * x - tot) / k } else { (tot - k * x) / k }),
            x <= u64::MAX,
            0 <= tot <= k * (u64::MAX as int),
            k > 0;
    assert(s.deviation_total_us + dev <= k * (u64::MAX as int)) by (nonlinear_arith)
        requires s.deviation_total_us <= r * (u64::MAX as int), dev <= u64::MAX, k == r + 1;
    assert(s.total_us + x <= (r + 1) * (u64::MAX as int)) by (nonlinear_arith)
        requires s.total_us <= r * (u64::MAX as int), x <= u64::MAX;
    assert((r + 1) * (u64::MAX as int) <= 0x1_0000_0000 * (u64::MAX as int)) by (nonlinear_arith)
        requires r + 1 <= 0x1_0000_0000;
    assert(t.total_us == s.total_us + x);
    if s.received == 0 {
        assert(t.total_us == x);
        assert(t.received == 1);
        assert((t.received as int) * (t.best_us.unwrap() as int) == x as int);
        assert((t.received as int) * (t.worst_us.unwrap() as int) == x as int);
    } else {
        let b = s.best_us.unwrap() as int;
        let w = s.worst_us.unwrap() as int;
        let nb = t.best_us.unwrap() as int;
        let nw = t.worst_us.unwrap() as int;
        assert(nb <= b && nb <= x);
        assert(nw >= w && nw >= x);
        assert((r + 1) * nb <= s.total_us + x) by (nonlinear_arith)
            requires r * b <= s.total_us, nb <= b, nb <= x, r >= 0, nb >= 0;
        assert(s.total_us + x <= (r + 1) * nw) by (nonlinear_arith)
            requires s.total_us <= r * w, w <= nw, x <= nw, r >= 0;
        assert(t.received as int == r + 1);
        assert(t.best_us is Some);
        assert(t.worst_us is Some);
        assert(nb <= x <= nw);
        assert((t.received as int) * (t.best_us.unwrap() as int) <= t.total_us);
        assert(t.total_us <= (t.received as int) * (t.worst_us.unwrap() as int));
    }
}

/// A timeout adds one lost probe and changes nothing else but the sent count.
pub proof fn lemma_timeout_adds_one_loss(s: HopStats)
    requires
        s.received <= s.sent,
        s.sent < u32::MAX,
    ensures
        s.after_timeout().lost() == s.lost() + 1,
        s.after_timeout().received == s.received,
        s.consistent() ==> s.after_timeout().consistent(),
{
}

/// The outcomes of a run of probes, in order: `Some(x)` an answer after `x` microseconds,
/// `None` a timeout.
pub open spec fn stats_after(ops: Seq<Option<u64>>) -> HopStats
    decreases ops.len(),
{
    if ops.len() == 0 {
        HopStats::spec_default()
    } else {
        match ops.last() {
            Some(x) => stats_after(ops.drop_last()).after_sample(x),
            None => stats_after(ops.drop_last()).after_timeout(),
        }
    }
}

/// The latencies of the answered probes of a run, in order.
pub open spec fn answered(ops: Seq<Option<u64>>) -> Seq<u64>
    decreases ops.len(),
{
    if ops.len() == 0 {
        Seq::empty()
    } else {
        match ops.last() {
            Some(x) => answered(ops.drop_last()).push(x),
            None => answered(ops.drop_last()),
        }
    }
}

/// The sum of a sequence of latencies.
pub open spec fn sum_us(xs: Seq<u64>) -> nat
    decreases xs.len(),
{
    if xs.len() == 0 { 0 } else { sum_us(xs.drop_last()) + (xs.last() as nat) }
}

/// Over any run of probes from fresh statistics: every probe is counted as sent, the
/// answers as received, the total is the sum of the answered latencies (so the average is
/// their arithmetic mean, and timeouts do not count), best and worst bound every answer,
/// the last answer is the last sample, and the statistics stay well formed and consistent.
pub proof fn lemma_stats_over_run(ops: Seq<Option<u64>>)
    requires
        ops.len() < u32::MAX,
    ensures
        ({
            let s = stats_after(ops);
            let xs = answered(ops);
            &&& s.sent == ops.len()
            &&& s.received == xs.len()
            &&& s.total_us == sum_us(xs)
            &&& s.wf()
            &&& s.consistent()
            &&& forall|i: int| 0 <= i < xs.len() ==> s.best_us.unwrap() <= #[trigger] xs[i] <= s.worst_us.unwrap()
            &&& (xs.len() > 0 ==> s.last_us == Some(xs.last()))
        }),
    decreases ops.len(),
{
    if ops.len() > 0 {
        let pre = ops.drop_last();
        lemma_stats_over_run(pre);
        let p = stats_after(pre);
        let pxs = answered(pre);
        match ops.last() {
            Some(x) => {
                lemma_sample_keeps_consistent(p, x);
                let r = p.received as int;
                assert(p.total_us + x <= (r + 1) * (u64::MAX as int)) by (nonlinear_arith)
                    requires p.total_us <= r * (u64::MAX as int), x <= u64::MAX;
                assert((r + 1) * (u64::MAX as int) <= 0x1_0000_0000 * (u64::MAX as int)) by (nonlinear_arith)
                    requires r + 1 <= 0x1_0000_0000;
                let s = stats_after(ops);
                let xs = answered(ops);
                assert(xs == pxs.push(x));
                assert(xs.drop_last() =~= pxs);
                assert forall|i: int| 0 <= i < xs.len() implies s.best_us.unwrap() <= #[trigger] xs[i] <= s.worst_us.unwrap() by {
                    if i < pxs.len() {
                        assert(xs[i] == pxs[i]);
                        assert(p.best_us.unwrap() <= pxs[i] <= p.worst_us.unwrap());
                    }
                }
            },
            None => {
                lemma_timeout_adds_one_loss(p);
            },
        }
    }
}

/// The rounded loss percentage of well-formed statistics is at most 100.
pub proof fn lemma_loss_percent_at_most_100(s: HopStats)
    requires
        s.received <= s.sent,
    ensures
        s.loss_percent_rounded() <= 100,
{
    if s.sent > 0 {
        let n = 100 * s.lost();
        let d = s.sent as nat;
        assert(n <= 100 * d);
        assert(n / d <= 100) by (nonlinear_arith) requires n <= 100 * d, d > 0;
        assert(n / d == 100 ==> n % d == 0) by (nonlinear_arith) requires n <= 100 * d, d > 0;
    }
}

impl Default for HopStats {
    fn default() -> (s: Self)
        ensures
            s == HopStats::spec_default(),
    {
        HopStats {
            sent: 0,
            received: 0,
            best_us: None,
            worst_us: None,
            last_us: None,
            total_us: 0,
            deviation_total_us: 0,
        }
    }
}

/// Interpretation of a hop's behavior.
#[derive(Debug, Clone)]
pub struct HopInterpretation {
    /// Severity level
    pub severity: Severity,
    /// Short headline (e.g., "High latency detected")
    pub headline: String,
    /// Detailed explanation
    pub explanation: String,
    /// Possible causes for this behavior
    pub probable_causes: Vec<String>,
    /// Confidence level in percent (0 - 100)
    pub confidence_percent: u8,
}

/// The mathematical content of a `HopInterpretation`.
pub struct InterpretationView {
    pub severity: Severity,
    pub headline: Seq<char>,
    pub explanation: Seq<char>,
    pub probable_causes: Seq<Seq<char>>,
    pub confidence_percent: u8,
}

/// The character sequences held by a list of strings.
pub open spec fn strings_view(v: Seq<String>) -> Seq<Seq<char>> {
    v.map_values(|s: String| s@)
}

impl View for HopInterpretation {
    type V = InterpretationView;

    open spec fn view(&self) -> InterpretationView {
        InterpretationView {
            severity: self.severity,
            headline: self.headline@,
            explanation: self.explanation@,
            probable_causes: strings_view(self.probable_causes@),
            confidence_percent: self.confidence_percent,
        }
    }
}

/// A single hop in the trace route.
#[derive(Debug, Clone)]
pub struct HopSample {
    /// Hop index (1-based, as shown in traceroute)
    pub index: u8,
    /// Resolved hostname (if available)
    pub hostname: Option<String>,
    /// IP address of the hop
    pub ip: Option<IpAddress>,
    /// Statistics for this hop
    pub stats: HopStats,
    /// Current status based on statistics
    pub status: Severity,
    /// Interpretation of this hop's behavior
    pub interpretation: Option<HopInterpretation>,
}

impl HopSample {
    /// A hop at `index` with no data yet.
    pub fn new(index: u8) -> (h: Self)
        ensures
            h.index == index,
            h.hostname is None,
            h.ip is None,
            h.stats == HopStats::spec_default(),
            h.status == Severity::Unknown,
            h.interpretation is None,
    {
        HopSample {
            index,
            hostname: None,
            ip: None,
            stats: HopStats::default(),
            status: Severity::Unknown,
            interpretation: None,
        }
    }
}

/// Overall session summary.
#[derive(Debug, Clone)]
pub struct SessionSummary {
    /// Overall status of the route
    pub overall_status: Severity,
    /// Primary finding (main issue or "looks good")
    pub primary_finding: String,
    /// Secondary findings (additional observations)
    pub secondary_findings: Vec<String>,
    /// Recommended next steps
    pub recommended_next_steps: Vec<String>,
    /// Index of the problem hop (if applicable)
    pub problem_hop_index: Option<u8>,
    /// Whether the destination is reachable
    pub destination_reachable: bool,
}

/// The mathematical content of a `SessionSummary`.
pub struct SummaryView {
    pub overall_status: Severity,
    pub primary_finding: Seq<char>,
    pub secondary_findings: Seq<Seq<char>>,
    pub recommended_next_steps: Seq<Seq<char>>,
    pub problem_hop_index: Option<u8>,
    pub destination_reachable: bool,
}

impl View for SessionSummary {
    type V = SummaryView;

    open spec fn view(&self) -> SummaryView {
        SummaryView {
            overall_status: self.overall_status,
            primary_finding: self.primary_finding@,
            secondary_findings: strings_view(self.secondary_findings@),
            recommended_next_steps: strings_view(self.recommended_next_steps@),
            problem_hop_index: self.problem_hop_index,
            destination_reachable: self.destination_reachable,
        }
    }
}

impl Default for SessionSummary {
    fn default() -> (s: Self)
        ensures
            s@ == (SummaryView {
                overall_status: Severity::Unknown,
                primary_finding: "Analysis pending..."@,
                secondary_findings: Seq::empty(),
                recommended_next_steps: Seq::empty(),
                problem_hop_index: None,
                destination_reachable: false,
            }),
    {
        let s = SessionSummary {
            overall_status: Severity::Unknown,
            primary_finding: String::from_str("Analysis pending..."),
            secondary_findings: Vec::new(),
            recommended_next_steps: Vec::new(),
            problem_hop_index: None,
            destination_reachable: false,
        };
        proof {
            assert(strings_view(s.secondary_findings@) =~= Seq::<Seq<char>>::empty());
            assert(strings_view(s.recommended_next_steps@) =~= Seq::<Seq<char>>::empty());
        }
        s
    }
}

/// Event emitted during tracing.
#[derive(Debug, Clone)]
pub enum TraceEvent {
    /// Session has started
    SessionStarted { session: TraceSession },
    /// A new hop was discovered
    HopDiscovered { session_id: String, hop: HopSample },
    /// A hop received a response
    HopResponse { session_id: String, hop_index: u8, latency_us: u64 },
    /// A hop timed out
    HopTimeout { session_id: String, hop_index: u8 },
    /// Statistics updated for a hop
    HopStatsUpdate { session_id: String, hop_index: u8, stats: HopStats },
    /// Session completed
    SessionCompleted { session_id: String, summary: SessionSummary, hops: Vec<HopSample> },
    /// Session encountered an error
    SessionError { session_id: String, error: String },
    /// DNS resolution result
    DnsResolved { session_id: String, hostname: String, ip: IpAddress },
}

} // verus!

verus! {

/// A copy of a list of strings.
pub fn copy_strings(v: &Vec<String>) -> (r: Vec<String>)
    ensures
        r@ == v@,
{
    let mut r: Vec<String> = Vec::new();
    let mut i: usize = 0;
    while i < v.len()
        invariant
            i <= v@.len(),
            r@ == v@.take(i as int),
        decreases v@.len() - i,
    {
        r.push(v[i].clone());
        proof {
            assert(r@ =~= v@.take(i as int + 1));
        }
        i = i + 1;
    }
    proof {
        assert(v@.take(v@.len() as int) =~= v@);
    }
    r
}

impl HopInterpretation {
    /// An equal copy of the interpretation.
    pub fn duplicate(&self) -> (r: Self)
        ensures
            r.severity == self.severity,
            r.headline == self.headline,
            r.explanation == self.explanation,
            r.probable_causes@ == self.probable_causes@,
            r.confidence_percent == self.confidence_percent,
            r@ == self@,
    {
        HopInterpretation {
            severity: self.severity,
            headline: self.headline.clone(),
            explanation: self.explanation.clone(),
            probable_causes: copy_strings(&self.probable_causes),
            confidence_percent: self.confidence_percent,
        }
    }
}

impl HopSample {
    /// An equal copy of the hop.
    pub fn duplicate(&self) -> (r: Self)
        ensures
            r.index == self.index,
            r.hostname == self.hostname,
            r.ip == self.ip,
            r.stats == self.stats,
            r.status == self.status,
            r.interpretation is Some <==> self.interpretation is Some,
            r.interpretation is Some ==> r.interpretation.unwrap()@ == self.interpretation.unwrap()@,
    {
        HopSample {
            index: self.index,
            hostname: match &self.hostname {
                Some(h) => Some(h.clone()),
                None => None,
            },
            ip: self.ip,
            stats: self.stats,
            status: self.status,
            interpretation: match &self.interpretation {
                Some(i) => Some(i.duplicate()),
                None => None,
            },
        }
    }
}

} // verus!
