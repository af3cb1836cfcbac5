//! A trace runner that reads the report of the system `tracert` / `traceroute` once,
//! without probing hops itself.

use vstd::prelude::*;
use crate::ip::{IpAddress, ip_spec, parse_ip};
use crate::scan::{
    count_equal, count_text, ends_with_text, latency_us_spec, lines, parse_latency_us, parse_u8, parse_u8_spec,
    split_lines, split_words,
    starts_with_text, strip_suffix_rep, trim, trim_chars, trim_end_text, trim_set, trim_ws, vecs_view, words,
};
use crate::text::{chars_of, string_from_chars};
use crate::traceroute::{HopRecord, TraceError, fresh_record, parsed_as, record_of, records_of, supported_target, trace_error_text};
use crate::types::{HopSample, HopStats, TraceConfig, TraceSession};

verus! {

/// A word of a `tracert` report applied to the hop read so far: the first address found
/// is kept, and a word ending in `ms` whose rest reads as a latency adds an answer.
pub open spec fn tracert_step(h: HopRecord, part: Seq<char>) -> HopRecord {
    let h1 = match ip_spec(part) {
        Some(ip) => if h.ip is None { HopRecord { ip: Some(ip), ..h } } else { h },
        None => h,
    };
    latency_step(h1, part)
}

/// A word ending in `ms` whose rest reads as a latency adds an answer to `h`.
pub open spec fn latency_step(h: HopRecord, part: Seq<char>) -> HopRecord {
    if "ms"@.is_suffix_of(part) {
        match latency_us_spec(strip_suffix_rep(part, "ms"@)) {
            Some(x) => HopRecord { stats: h.stats.after_sample(x), ..h },
            None => h,
        }
    } else {
        h
    }
}

/// The words of a report line from position `i` on, applied by `step`.
pub open spec fn fold_words(h: HopRecord, parts: Seq<Seq<char>>, i: int, step: spec_fn(HopRecord, Seq<char>) -> HopRecord) -> HopRecord
    decreases parts.len() - i,
{
    if i < 0 || i >= parts.len() { h } else { fold_words(step(h, parts[i]), parts, i + 1, step) }
}

/// `tracert_step` as a value.
pub open spec fn tracert_step_fn() -> spec_fn(HopRecord, Seq<char>) -> HopRecord {
    |h: HopRecord, p: Seq<char>| tracert_step(h, p)
}

/// The hop a `tracert` report line describes: the first word is the hop number; with three
/// or more `*` the hop timed out three times; otherwise its words are read one by one.
pub open spec fn tracert_line_spec(line: Seq<char>) -> Option<HopRecord> {
    let parts = words(line);
    if parts.len() == 0 {
        None
    } else {
        match parse_u8_spec(parts[0]) {
            None => None,
            Some(idx) => if count_equal(parts, "*"@) >= 3 {
                Some(HopRecord { stats: HopStats { sent: 3, ..HopStats::spec_default() }, ..fresh_record(idx) })
            } else {
                Some(fold_words(fresh_record(idx), parts, 1, tracert_step_fn()))
            },
        }
    }
}

/// A word of a `traceroute` report applied to the hop read so far: the first address
/// found (parentheses removed) is kept, and a word ending in `ms` may add an answer.
pub open spec fn macos_step(h: HopRecord, part: Seq<char>) -> HopRecord {
    let bare = trim_set(trim_set(part, seq!['(']), seq![')']);
    let h1 = match ip_spec(bare) {
        Some(ip) => if h.ip is None { HopRecord { ip: Some(ip), ..h } } else { h },
        None => h,
    };
    latency_step(h1, part)
}

/// `macos_step` as a value.
pub open spec fn macos_step_fn() -> spec_fn(HopRecord, Seq<char>) -> HopRecord {
    |h: HopRecord, p: Seq<char>| macos_step(h, p)
}

/// The hop a `traceroute` report line describes: the first word is the hop number and the
/// other words are read one by one.
pub open spec fn macos_line_spec(line: Seq<char>) -> Option<HopRecord> {
    let parts = words(line);
    if parts.len() == 0 {
        None
    } else {
        match parse_u8_spec(parts[0]) {
            None => None,
            Some(idx) => Some(fold_words(fresh_record(idx), parts, 1, macos_step_fn())),
        }
    }
}

/// The hops of a `tracert` report, line by line, without empty and header lines.
pub open spec fn tracert_output_spec(ls: Seq<Seq<char>>) -> Seq<HopRecord>
    decreases ls.len(),
{
    if ls.len() == 0 {
        Seq::empty()
    } else {
        let prev = tracert_output_spec(ls.drop_last());
        let l = trim(ls.last());
        if l.len() == 0 || "Tracing route"@.is_prefix_of(l) || "over a maximum"@.is_prefix_of(l) {
            prev
        } else {
            match tracert_line_spec(l) {
                Some(h) => prev.push(h),
                None => prev,
            }
        }
    }
}

/// The hops of a `traceroute` report, line by line, without empty and header lines.
pub open spec fn macos_report_spec(ls: Seq<Seq<char>>) -> Seq<HopRecord>
    decreases ls.len(),
{
    if ls.len() == 0 {
        Seq::empty()
    } else {
        let prev = macos_report_spec(ls.drop_last());
        let l = trim(ls.last());
        if l.len() == 0 || "traceroute to"@.is_prefix_of(l) {
            prev
        } else {
            match macos_line_spec(l) {
                Some(h) => prev.push(h),
                None => prev,
            }
        }
    }
}

/// Portable traceroute that reads the report of a system command.
pub struct PortableTraceRunner {
    config: TraceConfig,
    target_ip: IpAddress,
    hops: Vec<HopSample>,
}

fn apply_latency(hop: &mut HopSample, part: &[char])
    requires
        old(hop).stats.wf(),
        old(hop).stats.sent < u32::MAX,
    ensures
        record_of(*final(hop)) == latency_step(record_of(*old(hop)), part@),
        final(hop).interpretation == old(hop).interpretation,
        final(hop).stats.wf(),
        final(hop).stats.sent <= old(hop).stats.sent + 1,
{
    if ends_with_text(part, "ms") {
        let ms = chars_of("ms");
        let body = trim_end_text(part, ms.as_slice());
        match parse_latency_us(body.as_slice()) {
            Some(x) => hop.stats.add_sample(x),
            None => {},
        }
    }
}

/// Equal copies of the hops in `v`.
fn copy_hops(v: &Vec<HopSample>) -> (r: Vec<HopSample>)
    ensures
        records_of(r@) == records_of(v@),
        forall|k: int| 0 <= k < r@.len() ==> ((#[trigger] r@[k]).interpretation is None <==> v@[k].interpretation is None),
{
    let mut r: Vec<HopSample> = Vec::new();
    let mut i: usize = 0;
    while i < v.len()
        invariant
            i <= v@.len(),
            r@.len() == i,
            forall|k: int| 0 <= k < i ==> record_of(#[trigger] r@[k]) == record_of(v@[k]),
            forall|k: int| 0 <= k < i ==> ((#[trigger] r@[k]).interpretation is None <==> v@[k].interpretation is None),
        decreases v@.len() - i,
    {
        r.push(v[i].duplicate());
        i = i + 1;
    }
    proof {
        assert(records_of(r@) =~= records_of(v@));
    }
    r
}

impl PortableTraceRunner {
    /// A runner for `session`, towards the already resolved `target_ip`; an IPv6 target is
    /// refused as not yet supported.
    pub fn new(session: &TraceSession, target_ip: IpAddress) -> (r: Result<Self, TraceError>)
        ensures
            target_ip is V4 ==> (r matches Ok(x) && x.config() == session.config && x.spec_target_ip() == target_ip
                && x.hops()@.len() == 0),
            target_ip is V6 ==> (r matches Err(e) && trace_error_text(e) == "Invalid target: "@ + "IPv6 is not yet supported"@),
    {
        let target_ip = supported_target(target_ip)?;
        Ok(PortableTraceRunner { config: session.config.duplicate(), target_ip, hops: Vec::new() })
    }

    pub closed spec fn config(&self) -> TraceConfig {
        self.config
    }

    pub closed spec fn hops(&self) -> Vec<HopSample> {
        self.hops
    }

    /// The resolved target address.
    pub closed spec fn spec_target_ip(&self) -> IpAddress {
        self.target_ip
    }

    /// The configuration the runner traces with.
    pub fn trace_config(&self) -> (r: &TraceConfig)
        ensures
            *r == self.config(),
    {
        &self.config
    }

    /// The resolved target address.
        pub fn target_ip(&self) -> (r: IpAddress)
        ensures
            r == self.spec_target_ip(),
    {
        self.target_ip
    }

    /// The hops the runner holds.
    pub fn get_hops(&self) -> (r: Vec<HopSample>)
        ensures
            r@.len() == self.hops()@.len(),
            forall|k: int| 0 <= k < r@.len() ==> record_of(#[trigger] r@[k]) == record_of(self.hops()@[k]),
            forall|k: int| 0 <= k < r@.len() ==> ((#[trigger] r@[k]).interpretation is Some <==> self.hops()@[k].interpretation is Some),
            forall|k: int| 0 <= k < r@.len() && (#[trigger] r@[k]).interpretation is Some
                ==> r@[k].interpretation.unwrap()@ == self.hops()@[k].interpretation.unwrap()@,
    {
        let mut r: Vec<HopSample> = Vec::new();
        let mut i: usize = 0;
        while i < self.hops.len()
            invariant
                i <= self.hops@.len(),
                r@.len() == i,
                forall|k: int| 0 <= k < i ==> record_of(#[trigger] r@[k]) == record_of(self.hops@[k]),
                forall|k: int| 0 <= k < i ==> ((#[trigger] r@[k]).interpretation is Some <==> self.hops@[k].interpretation is Some),
                forall|k: int| 0 <= k < i && (#[trigger] r@[k]).interpretation is Some
                    ==> r@[k].interpretation.unwrap()@ == self.hops@[k].interpretation.unwrap()@,
            decreases self.hops@.len() - i,
        {
            r.push(self.hops[i].duplicate());
            i = i + 1;
        }
        r
    }

    /// Reads one line of a `tracert` report (see `tracert_line_spec`).
    pub fn parse_tracert_line(&self, line: &str) -> (r: Option<HopSample>)
        requires
            words(line@).len() <= u32::MAX,
        ensures
            parsed_as(r, tracert_line_spec(line@)),
    {
        let raw = chars_of(line);
        let parts = split_words(raw.as_slice());
        let ghost ps = vecs_view(parts@);
        if parts.len() == 0 {
            return None;
        }
        proof {
            assert(ps[0] == parts@[0]@);
        }
        let idx = match parse_u8(parts[0].as_slice()) {
            Some(v) => v,
            None => return None,
        };
        let mut hop = HopSample::new(idx);
        let stars = count_text(&parts, "*");
        if stars >= 3 {
            hop.stats.sent = 3;
            hop.stats.received = 0;
            proof {
                assert(record_of(hop) == HopRecord { stats: HopStats { sent: 3, ..HopStats::spec_default() }, ..fresh_record(idx) });
            }
            return Some(hop);
        }
        let n = parts.len();
        let mut i: usize = 1;
        proof {
            assert(record_of(hop) == fresh_record(idx));
        }
        while i < n
            invariant
                1 <= i <= n,
                n == parts@.len(),
                n <= u32::MAX,
                ps == vecs_view(parts@),
                fold_words(fresh_record(idx), ps, 1, tracert_step_fn()) == fold_words(record_of(hop), ps, i as int, tracert_step_fn()),
                hop.stats.wf(),
                hop.stats.sent <= i,
                hop.interpretation is None,
            decreases n - i,
        {
            let ghost pre = record_of(hop);
            proof {
                assert(ps[i as int] == parts@[i as int]@);
            }
            match parse_ip(parts[i].as_slice()) {
                Some(ip) => {
                    if hop.ip.is_none() {
                        hop.ip = Some(ip);
                    }
                },
                None => {},
            }
            apply_latency(&mut hop, parts[i].as_slice());
            proof {
                assert(record_of(hop) == tracert_step(pre, ps[i as int]));
            }
            i = i + 1;
        }
        Some(hop)
    }

    /// Reads one line of a `traceroute` report (see `macos_line_spec`).
    pub fn parse_macos_traceroute_line(&self, line: &str) -> (r: Option<HopSample>)
        requires
            words(line@).len() <= u32::MAX,
        ensures
            parsed_as(r, macos_line_spec(line@)),
    {
        let raw = chars_of(line);
        let parts = split_words(raw.as_slice());
        let ghost ps = vecs_view(parts@);
        if parts.len() == 0 {
            return None;
        }
        proof {
            assert(ps[0] == parts@[0]@);
        }
        let idx = match parse_u8(parts[0].as_slice()) {
            Some(v) => v,
            None => return None,
        };
        let mut hop = HopSample::new(idx);
        let open_paren = vec!['('];
        let close_paren = vec![')'];
        proof {
            assert(open_paren@ =~= seq!['(']);
            assert(close_paren@ =~= seq![')']);
            assert(record_of(hop) == fresh_record(idx));
        }
        let n = parts.len();
        let mut i: usize = 1;
        while i < n
            invariant
                1 <= i <= n,
                n == parts@.len(),
                n <= u32::MAX,
                ps == vecs_view(parts@),
                open_paren@ == seq!['('],
                close_paren@ == seq![')'],
                fold_words(fresh_record(idx), ps, 1, macos_step_fn()) == fold_words(record_of(hop), ps, i as int, macos_step_fn()),
                hop.stats.wf(),
                hop.stats.sent <= i,
                hop.interpretation is None,
            decreases n - i,
        {
            let ghost pre = record_of(hop);
            proof {
                assert(ps[i as int] == parts@[i as int]@);
            }
            let a = trim_chars(parts[i].as_slice(), open_paren.as_slice());
            let bare = trim_chars(a.as_slice(), close_paren.as_slice());
            match parse_ip(bare.as_slice()) {
                Some(ip) => {
                    if hop.ip.is_none() {
                        hop.ip = Some(ip);
                    }
                },
                None => {},
            }
            apply_latency(&mut hop, parts[i].as_slice());
            proof {
                assert(record_of(hop) == macos_step(pre, ps[i as int]));
            }
            i = i + 1;
        }
        Some(hop)
    }

    /// Reads every hop of a `tracert` report (see `tracert_output_spec`) and keeps them as
    /// the runner's current hops.
    pub fn parse_tracert_output(&mut self, output: &str) -> (r: Result<Vec<HopSample>, TraceError>)
        requires
            forall|k: int| 0 <= k < lines(output@).len() ==> words(#[trigger] lines(output@)[k]).len() <= u32::MAX,
        ensures
            r matches Ok(hops) && records_of(hops@) == tracert_output_spec(lines(output@))
                && forall|k: int| 0 <= k < hops@.len() ==> (#[trigger] hops@[k]).interpretation is None,
            final(self).config() == old(self).config(),
            final(self).spec_target_ip() == old(self).spec_target_ip(),
            records_of(final(self).hops()@) == tracert_output_spec(lines(output@)),
            forall|k: int| 0 <= k < final(self).hops()@.len() ==> (#[trigger] final(self).hops()@[k]).interpretation is None,
    {
        let raw = chars_of(output);
        let ls = split_lines(raw.as_slice());
        let ghost lv = vecs_view(ls@);
        let mut hops: Vec<HopSample> = Vec::new();
        let mut i: usize = 0;
        proof {
            assert(lv.take(0) =~= Seq::<Seq<char>>::empty());
            assert(records_of(hops@) =~= Seq::<HopRecord>::empty());
        }
        while i < ls.len()
            invariant
                i <= ls@.len(),
                lv == vecs_view(ls@),
                lv == lines(output@),
                forall|k: int| 0 <= k < lv.len() ==> words(#[trigger] lv[k]).len() <= u32::MAX,
                records_of(hops@) == tracert_output_spec(lv.take(i as int)),
                forall|k: int| 0 <= k < hops@.len() ==> (#[trigger] hops@[k]).interpretation is None,
            decreases ls@.len() - i,
        {
            let ghost prev = hops@;
            proof {
                assert(lv[i as int] == ls@[i as int]@);
                assert(lv.take(i as int + 1).drop_last() =~= lv.take(i as int));
                assert(lv.take(i as int + 1).last() == lv[i as int]);
                crate::scan::lemma_words_trim(lv[i as int]);
            }
            let l = trim_ws(ls[i].as_slice());
            if l.len() == 0 || starts_with_text(l.as_slice(), "Tracing route") || starts_with_text(l.as_slice(), "over a maximum") {
            } else {
                let text = string_from_chars(l.as_slice());
                match self.parse_tracert_line(text.as_str()) {
                    Some(h) => {
                        hops.push(h);
                        proof {
                            assert(records_of(hops@) =~= records_of(prev).push(record_of(h)));
                        }
                    },
                    None => {},
                }
            }
            i = i + 1;
        }
        proof {
            assert(lv.take(ls@.len() as int) =~= lv);
        }
        self.hops = copy_hops(&hops);
        Ok(hops)
    }

    /// Reads every hop of a `traceroute` report (see `macos_report_spec`) and keeps them as
    /// the runner's current hops.
    pub fn parse_macos_traceroute_output(&mut self, output: &str) -> (r: Result<Vec<HopSample>, TraceError>)
        requires
            forall|k: int| 0 <= k < lines(output@).len() ==> words(#[trigger] lines(output@)[k]).len() <= u32::MAX,
        ensures
            r matches Ok(hops) && records_of(hops@) == macos_report_spec(lines(output@))
                && forall|k: int| 0 <= k < hops@.len() ==> (#[trigger] hops@[k]).interpretation is None,
            final(self).config() == old(self).config(),
            final(self).spec_target_ip() == old(self).spec_target_ip(),
            records_of(final(self).hops()@) == macos_report_spec(lines(output@)),
            forall|k: int| 0 <= k < final(self).hops()@.len() ==> (#[trigger] final(self).hops()@[k]).interpretation is None,
    {
        let raw = chars_of(output);
        let ls = split_lines(raw.as_slice());
        let ghost lv = vecs_view(ls@);
        let mut hops: Vec<HopSample> = Vec::new();
        let mut i: usize = 0;
        proof {
            assert(lv.take(0) =~= Seq::<Seq<char>>::empty());
            assert(records_of(hops@) =~= Seq::<HopRecord>::empty());
        }
        while i < ls.len()
            invariant
                i <= ls@.len(),
                lv == vecs_view(ls@),
                lv == lines(output@),
                forall|k: int| 0 <= k < lv.len() ==> words(#[trigger] lv[k]).len() <= u32::MAX,
                records_of(hops@) == macos_report_spec(lv.take(i as int)),
                forall|k: int| 0 <= k < hops@.len() ==> (#[trigger] hops@[k]).interpretation is None,
            decreases ls@.len() - i,
        {
            let ghost prev = hops@;
            proof {
                assert(lv[i as int] == ls@[i as int]@);
                assert(lv.take(i as int + 1).drop_last() =~= lv.take(i as int));
                assert(lv.take(i as int + 1).last() == lv[i as int]);
                crate::scan::lemma_words_trim(lv[i as int]);
            }
            let l = trim_ws(ls[i].as_slice());
            if l.len() == 0 || starts_with_text(l.as_slice(), "traceroute to") {
            } else {
                let text = string_from_chars(l.as_slice());
                match self.parse_macos_traceroute_line(text.as_str()) {
                    Some(h) => {
                        hops.push(h);
                        proof {
                            assert(records_of(hops@) =~= records_of(prev).push(record_of(h)));
                        }
                    },
                    None => {},
                }
            }
            i = i + 1;
        }
        proof {
            assert(lv.take(ls@.len() as int) =~= lv);
        }
        self.hops = copy_hops(&hops);
        Ok(hops)
    }
}

} // verus!

verus! {

proof fn lemma_tracert_fold_counts(h: HopRecord, parts: Seq<Seq<char>>, i: int)
    requires
        h.stats.sent == h.stats.received,
    ensures
        fold_words(h, parts, i, tracert_step_fn()).stats.sent == fold_words(h, parts, i, tracert_step_fn()).stats.received,
        fold_words(h, parts, i, tracert_step_fn()).index == h.index,
    decreases parts.len() - i,
{
    if 0 <= i < parts.len() {
        let h2 = tracert_step(h, parts[i]);
        assert(tracert_step_fn()(h, parts[i]) == h2);
        lemma_tracert_fold_counts(h2, parts, i + 1);
    }
}

proof fn lemma_tracert_fold_ip(h: HopRecord, parts: Seq<Seq<char>>, i: int, k: int)
    requires
        0 <= i,
        h.ip is None ==> (i <= k < parts.len() && ip_spec(parts[k]) is Some
            && forall|m: int| i <= m < k ==> ip_spec(#[trigger] parts[m]) is None),
    ensures
        h.ip is Some ==> fold_words(h, parts, i, tracert_step_fn()).ip == h.ip,
        h.ip is None ==> fold_words(h, parts, i, tracert_step_fn()).ip == ip_spec(parts[k]),
    decreases parts.len() - i,
{
    if i < parts.len() {
        let h2 = tracert_step(h, parts[i]);
        assert(tracert_step_fn()(h, parts[i]) == h2);
        lemma_tracert_fold_ip(h2, parts, i + 1, k);
    }
}

/// A `tracert` report line with fewer than three `*` words is read word by word: every probe
/// it counts is an answer (no loss is invented), and the hop keeps the first address among
/// its words. Only a line with at least three `*` words is read as three unanswered probes.
pub proof fn lemma_tracert_line_timeouts(line: Seq<char>, k: int)
    ensures
        ({
            let parts = words(line);
            parts.len() > 0 && parse_u8_spec(parts[0]) is Some && count_equal(parts, "*"@) < 3 ==> {
                &&& tracert_line_spec(line) matches Some(h)
                &&& h.index == parse_u8_spec(parts[0]).unwrap()
                &&& h.stats.sent == h.stats.received
                &&& (1 <= k < parts.len() && ip_spec(parts[k]) is Some
                    && (forall|m: int| 1 <= m < k ==> ip_spec(#[trigger] parts[m]) is None)
                    ==> h.ip == ip_spec(parts[k]))
            }
        }),
        ({
            let parts = words(line);
            parts.len() > 0 && parse_u8_spec(parts[0]) is Some && count_equal(parts, "*"@) >= 3 ==> {
                &&& tracert_line_spec(line) matches Some(h)
                &&& h.stats.sent == 3
                &&& h.stats.received == 0
                &&& h.ip is None
            }
        }),
{
    let parts = words(line);
    if parts.len() > 0 && parse_u8_spec(parts[0]) is Some && count_equal(parts, "*"@) < 3 {
        let idx = parse_u8_spec(parts[0]).unwrap();
        lemma_tracert_fold_counts(fresh_record(idx), parts, 1);
        if 1 <= k < parts.len() && ip_spec(parts[k]) is Some && (forall|m: int| 1 <= m < k ==> ip_spec(#[trigger] parts[m]) is None) {
            lemma_tracert_fold_ip(fresh_record(idx), parts, 1, k);
        }
    }
}

} // verus!
