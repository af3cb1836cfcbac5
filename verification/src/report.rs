//! The HTML report of a trace: summary, findings, recommendations and the hop table.

use vstd::prelude::*;
use crate::ip::{ip_text, ip_to_string};
use crate::text::{decimal_string, digits, push_decimal, round_div, round_half_even};
use crate::types::{HopSample, HopStats, SessionSummary, Severity, TraceConfig, strings_view};
use crate::scan::is_digit;

verus! {

/// The colour of a severity in the report.
pub open spec fn severity_color(s: Severity) -> Seq<char> {
    match s {
        Severity::Healthy => "#22c55e"@,
        Severity::Warning => "#eab308"@,
        Severity::Critical => "#ef4444"@,
        Severity::Unknown => "#6b7280"@,
    }
}

/// The label of a severity in the report.
pub open spec fn severity_label(s: Severity) -> Seq<char> {
    match s {
        Severity::Healthy => "OK"@,
        Severity::Warning => "Warning"@,
        Severity::Critical => "Critical"@,
        Severity::Unknown => "Unknown"@,
    }
}

fn severity_color_str(s: Severity) -> (r: &'static str)
    ensures
        r@ == severity_color(s),
{
    match s {
        Severity::Healthy => "#22c55e",
        Severity::Warning => "#eab308",
        Severity::Critical => "#ef4444",
        Severity::Unknown => "#6b7280",
    }
}

fn severity_label_str(s: Severity) -> (r: &'static str)
    ensures
        r@ == severity_label(s),
{
    match s {
        Severity::Healthy => "OK",
        Severity::Warning => "Warning",
        Severity::Critical => "Critical",
        Severity::Unknown => "Unknown",
    }
}

/// A number of tenths written with one decimal, as `{:.1}` writes the value.
pub open spec fn tenths_text(t: nat) -> Seq<char> {
    digits(t / 10) + seq!['.'] + digits(t % 10)
}

/// The loss percentage in tenths, rounded (0 when nothing was sent).
pub open spec fn loss_tenths(s: HopStats) -> nat {
    if s.sent == 0 { 0 } else { round_half_even(1000 * s.lost(), s.sent as nat) }
}

/// A latency in microseconds shown in milliseconds with one decimal, or `-` without one.
pub open spec fn opt_tenths(v: Option<u64>, n: nat) -> Seq<char> {
    match v {
        Some(x) => tenths_text(round_half_even(x as nat, 100 * n)),
        None => "-"@,
    }
}

/// The average latency cell.
pub open spec fn avg_cell(s: HopStats) -> Seq<char> {
    if s.received == 0 { "-"@ } else { tenths_text(round_half_even(s.total_us as nat, 100 * (s.received as nat))) }
}

/// The jitter cell.
pub open spec fn jitter_cell(s: HopStats) -> Seq<char> {
    if s.received == 0 { "-"@ } else { tenths_text(round_half_even(s.deviation_total_us as nat, 100 * (s.received as nat))) }
}

/// The address cell: the address or `*`.
pub open spec fn ip_cell(h: HopSample) -> Seq<char> {
    match h.ip {
        Some(ip) => ip_text(ip),
        None => "*"@,
    }
}

/// The host cell: the host name, or else the address cell.
pub open spec fn host_cell(h: HopSample) -> Seq<char> {
    match h.hostname {
        Some(n) => n@,
        None => ip_cell(h),
    }
}

/// The interpretation headline of a hop, empty without one.
pub open spec fn headline_cell(h: HopSample) -> Seq<char> {
    match h.interpretation {
        Some(i) => i.headline@,
        None => Seq::empty(),
    }
}

/// The interpretation explanation of a hop, empty without one.
pub open spec fn explanation_cell(h: HopSample) -> Seq<char> {
    match h.interpretation {
        Some(i) => i.explanation@,
        None => Seq::empty(),
    }
}

/// The parts joined with line feeds.
pub open spec fn join_lines(parts: Seq<Seq<char>>) -> Seq<char>
    decreases parts.len(),
{
    if parts.len() == 0 {
        Seq::empty()
    } else if parts.len() == 1 {
        parts[0]
    } else {
        join_lines(parts.drop_last()) + seq!['\n'] + parts.last()
    }
}

/// Each item as an HTML list item, one per line.
pub open spec fn list_items(items: Seq<Seq<char>>) -> Seq<char> {
    join_lines(items.map_values(|t: Seq<char>| "<li>"@ + t + "</li>"@))
}

/// The table row of one hop.
pub open spec fn hop_row(h: HopSample) -> Seq<char> {
    "<tr>\n                <td style=\"text-align: center; color: "@ + severity_color(h.status) + ";\">&#9679;</td>\n                <td>"@ + digits(h.index as nat) + "</td>\n                <td title=\""@ + ip_cell(h) + "\">"@ + host_cell(h) + "</td>\n                <td>"@ + tenths_text(loss_tenths(h.stats)) + "%"@ + "</td>\n                <td>"@ + digits(h.stats.sent as nat) + "</td>\n                <td>"@ + digits(h.stats.received as nat) + "</td>\n                <td>"@ + opt_tenths(h.stats.best_us, 1) + "</td>\n                <td>"@ + avg_cell(h.stats) + "</td>\n                <td>"@ + opt_tenths(h.stats.worst_us, 1) + "</td>\n                <td>"@ + opt_tenths(h.stats.last_us, 1) + "</td>\n                <td>"@ + jitter_cell(h.stats) + "</td>\n                <td><strong>"@ + headline_cell(h) + "</strong><br/><small style=\"color: #666;\">"@ + explanation_cell(h) + "</small></td>\n            </tr>"@
}

/// The table rows of all hops, one per line.
pub open spec fn hop_rows(hops: Seq<HopSample>) -> Seq<char> {
    join_lines(hops.map_values(|h: HopSample| hop_row(h)))
}

/// The whole report page.
pub open spec fn report_html(summary: SessionSummary, hops: Seq<HopSample>, config: TraceConfig, timestamp: Seq<char>) -> Seq<char> {
    "<!DOCTYPE html>\n<html lang=\"en\">\n<head>\n    <meta charset=\"UTF-8\">\n    <meta name=\"viewport\" content=\"width=device-width, initial-scale=1.0\">\n    <title>WLTP Report - "@ + config.target@ + "</title>\n    <style>\n        * { margin: 0; padding: 0; box-sizing: border-box; }\n        body { font-family: -apple-system, BlinkMacSystemFont, 'Segoe UI', Roboto, sans-serif; line-height: 1.6; color: #333; background: #f5f5f5; padding: 20px; }\n        .container { max-width: 1200px; margin: 0 auto; background: white; border-radius: 8px; box-shadow: 0 2px 4px rgba(0,0,0,0.1); }\n        .header { padding: 24px; border-bottom: 1px solid #eee; }\n        .header h1 { font-size: 24px; margin-bottom: 8px; }\n        .header .meta { color: #666; font-size: 14px; }\n        .status { display: inline-block; padding: 4px 12px; border-radius: 4px; color: white; font-weight: 600; font-size: 14px; margin-left: 12px; }\n        .summary { padding: 24px; background: #fafafa; border-bottom: 1px solid #eee; }\n        .summary h2 { font-size: 18px; margin-bottom: 16px; }\n        .summary-grid { display: grid; grid-template-columns: repeat(auto-fit, minmax(300px, 1fr)); gap: 24px; }\n        .summary-card { background: white; padding: 16px; border-radius: 6px; border: 1px solid #e0e0e0; }\n        .summary-card h3 { font-size: 14px; color: #666; margin-bottom: 8px; }\n        .summary-card ul { margin-left: 20px; }\n        .summary-card li { margin-bottom: 4px; }\n        .primary-finding { font-size: 18px; font-weight: 600; margin-bottom: 16px; padding: 12px; background: white; border-radius: 6px; border-left: 4px solid "@ + severity_color(summary.overall_status) + "; }\n        .hops { padding: 24px; }\n        .hops h2 { font-size: 18px; margin-bottom: 16px; }\n        table { width: 100%; border-collapse: collapse; font-size: 14px; }\n        th { background: #f5f5f5; padding: 12px 8px; text-align: left; font-weight: 600; border-bottom: 2px solid #e0e0e0; }\n        td { padding: 10px 8px; border-bottom: 1px solid #eee; }\n        tr:hover { background: #fafafa; }\n        .footer { padding: 16px 24px; border-top: 1px solid #eee; font-size: 12px; color: #666; text-align: center; }\n    </style>\n</head>\n<body>\n    <div class=\"container\">\n        <div class=\"header\">\n            <h1>WLTP Network Diagnostic Report<span class=\"status\" style=\"background: "@ + severity_color(summary.overall_status) + ";\">"@ + severity_label(summary.overall_status) + "</span></h1>\n            <div class=\"meta\">\n                Target: <strong>"@ + config.target@ + "</strong> | Generated: "@ + timestamp + "\n            </div>\n        </div>\n\n        <div class=\"summary\">\n            <h2>Summary</h2>\n            <div class=\"primary-finding\">"@ + summary.primary_finding@ + "</div>\n            <div class=\"summary-grid\">\n                <div class=\"summary-card\">\n                    <h3>Findings</h3>\n                    <ul>\n                        "@ + list_items(strings_view(summary.secondary_findings@)) + "\n                    </ul>\n                </div>\n                <div class=\"summary-card\">\n                    <h3>Recommendations</h3>\n                    <ul>\n                        "@ + list_items(strings_view(summary.recommended_next_steps@)) + "\n                    </ul>\n                </div>\n            </div>\n        </div>\n\n        <div class=\"hops\">\n            <h2>Route Details</h2>\n            <table>\n                <thead>\n                    <tr>\n                        <th style=\"width: 40px;\"></th>\n                        <th style=\"width: 50px;\">Hop</th>\n                        <th>Host</th>\n                        <th>Loss%</th>\n                        <th>Sent</th>\n                        <th>Recv</th>\n                        <th>Best</th>\n                        <th>Avg</th>\n                        <th>Worst</th>\n                        <th>Last</th>\n                        <th>Jitter</th>\n                        <th>Interpretation</th>\n                    </tr>\n                </thead>\n                <tbody>\n                    "@ + hop_rows(hops) + "\n                </tbody>\n            </table>\n        </div>\n\n        <div class=\"footer\">\n            Generated by WLTP - Modern WinMTR for Windows/macOS\n        </div>\n    </div>\n</body>\n</html>"@
}

fn push_tenths(out: &mut String, t: u128)
    ensures
        final(out)@ == old(out)@ + tenths_text(t as nat),
{
    push_decimal(out, t / 10);
    out.append(".");
    push_decimal(out, t % 10);
    proof {
        reveal_strlit(".");
        assert(final(out)@ =~= old(out)@ + tenths_text(t as nat));
    }
}

fn tenths_string(t: u128) -> (r: String)
    ensures
        r@ == tenths_text(t as nat),
{
    let mut r = String::new();
    push_tenths(&mut r, t);
    proof {
        assert(r@ =~= tenths_text(t as nat));
    }
    r
}

fn opt_tenths_string(v: Option<u64>) -> (r: String)
    ensures
        r@ == opt_tenths(v, 1),
{
    match v {
        Some(x) => {
            proof {
                assert((x as int) / 100 < u128::MAX);
            }
            tenths_string(round_div(x as u128, 100))
        },
        None => String::from_str("-"),
    }
}

fn mean_tenths_string(sum: u128, received: u32) -> (r: String)
    ensures
        r@ == (if received == 0 { "-"@ } else { tenths_text(round_half_even(sum as nat, 100 * (received as nat))) }),
{
    if received == 0 {
        String::from_str("-")
    } else {
        let d: u128 = 100 * (received as u128);
        proof {
            assert(sum as int / (d as int) < u128::MAX) by (nonlinear_arith)
                requires d >= 100, sum <= u128::MAX;
        }
        tenths_string(round_div(sum, d))
    }
}

fn ip_cell_string(h: &HopSample) -> (r: String)
    ensures
        r@ == ip_cell(*h),
{
    match &h.ip {
        Some(ip) => ip_to_string(ip),
        None => String::from_str("*"),
    }
}

fn loss_cell_string(stats: &HopStats) -> (r: String)
    ensures
        r@ == tenths_text(loss_tenths(*stats)) + "%"@,
{
    let lost: u128 = if stats.received <= stats.sent { (stats.sent - stats.received) as u128 } else { 0 };
    let loss_t: u128 = if stats.sent == 0 {
        0
    } else {
        proof {
            assert((1000 * lost) as int / (stats.sent as int) <= 1000) by (nonlinear_arith)
                requires lost <= stats.sent, stats.sent > 0;
        }
        round_div(1000 * lost, stats.sent as u128)
    };
    let mut loss = tenths_string(loss_t);
    loss.append("%");
    loss
}

#[verifier::rlimit(50)]
fn hop_row_string(h: &HopSample) -> (r: String)
    ensures
        r@ == hop_row(*h),
{
    let index = decimal_string(h.index as u128);
    let ip = ip_cell_string(h);
    let host = match &h.hostname {
        Some(n) => n.clone(),
        None => ip_cell_string(h),
    };
    let loss = loss_cell_string(&h.stats);
    let sent = decimal_string(h.stats.sent as u128);
    let recv = decimal_string(h.stats.received as u128);
    let best = opt_tenths_string(h.stats.best_us);
    let avg = mean_tenths_string(h.stats.total_us, h.stats.received);
    let worst = opt_tenths_string(h.stats.worst_us);
    let last = opt_tenths_string(h.stats.last_us);
    let jitter = mean_tenths_string(h.stats.deviation_total_us, h.stats.received);
    let headline = match &h.interpretation {
        Some(i) => i.headline.clone(),
        None => String::new(),
    };
    let explanation = match &h.interpretation {
        Some(i) => i.explanation.clone(),
        None => String::new(),
    };
    let mut r = String::new();
    r.append("<tr>\n                <td style=\"text-align: center; color: ");
    r.append(severity_color_str(h.status));
    r.append(";\">&#9679;</td>\n                <td>");
    r.append(index.as_str());
    r.append("</td>\n                <td title=\"");
    r.append(ip.as_str());
    r.append("\">");
    r.append(host.as_str());
    r.append("</td>\n                <td>");
    r.append(loss.as_str());
    r.append("</td>\n                <td>");
    r.append(sent.as_str());
    r.append("</td>\n                <td>");
    r.append(recv.as_str());
    r.append("</td>\n                <td>");
    r.append(best.as_str());
    r.append("</td>\n                <td>");
    r.append(avg.as_str());
    r.append("</td>\n                <td>");
    r.append(worst.as_str());
    r.append("</td>\n                <td>");
    r.append(last.as_str());
    r.append("</td>\n                <td>");
    r.append(jitter.as_str());
    r.append("</td>\n                <td><strong>");
    r.append(headline.as_str());
    r.append("</strong><br/><small style=\"color: #666;\">");
    r.append(explanation.as_str());
    r.append("</small></td>\n            </tr>");
    proof {
        assert(r@ =~= hop_row(*h));
    }
    r
}

fn push_list_items(out: &mut String, items: &Vec<String>)
    ensures
        final(out)@ == old(out)@ + list_items(strings_view(items@)),
{
    let ghost start = out@;
    let ghost all = strings_view(items@).map_values(|t: Seq<char>| "<li>"@ + t + "</li>"@);
    let mut i: usize = 0;
    proof {
        assert(all.take(0) =~= Seq::<Seq<char>>::empty());
        assert(out@ =~= start + join_lines(all.take(0)));
    }
    while i < items.len()
        invariant
            i <= items@.len(),
            all == strings_view(items@).map_values(|t: Seq<char>| "<li>"@ + t + "</li>"@),
            out@ == start + join_lines(all.take(i as int)),
        decreases items@.len() - i,
    {
        if i > 0 {
            out.append("\n");
        }
        out.append("<li>");
        out.append(items[i].as_str());
        out.append("</li>");
        proof {
            reveal_strlit("\n");
            let pre = all.take(i as int);
            let post = all.take(i as int + 1);
            assert(post.drop_last() =~= pre);
            assert(post.last() == "<li>"@ + items@[i as int]@ + "</li>"@);
            assert(out@ =~= start + join_lines(post));
        }
        i = i + 1;
    }
    proof {
        assert(all.take(items@.len() as int) =~= all);
    }
}

fn push_hop_rows(out: &mut String, hops: &[HopSample])
    ensures
        final(out)@ == old(out)@ + hop_rows(hops@),
{
    let ghost start = out@;
    let ghost all = hops@.map_values(|h: HopSample| hop_row(h));
    let mut i: usize = 0;
    proof {
        assert(all.take(0) =~= Seq::<Seq<char>>::empty());
        assert(out@ =~= start + join_lines(all.take(0)));
    }
    while i < hops.len()
        invariant
            i <= hops@.len(),
            all == hops@.map_values(|h: HopSample| hop_row(h)),
            out@ == start + join_lines(all.take(i as int)),
        decreases hops@.len() - i,
    {
        if i > 0 {
            out.append("\n");
        }
        let row = hop_row_string(&hops[i]);
        out.append(row.as_str());
        proof {
            reveal_strlit("\n");
            let pre = all.take(i as int);
            let post = all.take(i as int + 1);
            assert(post.drop_last() =~= pre);
            assert(post.last() == hop_row(hops@[i as int]));
            assert(out@ =~= start + join_lines(post));
        }
        i = i + 1;
    }
    proof {
        assert(all.take(hops@.len() as int) =~= all);
    }
}

/// Renders the HTML report of a trace, stamped with `timestamp`.
pub fn render_html_report(summary: &SessionSummary, hops: &[HopSample], config: &TraceConfig, timestamp: &str) -> (r: String)
    ensures
        r@ == report_html(*summary, hops@, *config, timestamp@),
{
    let mut findings = String::new();
    push_list_items(&mut findings, &summary.secondary_findings);
    let mut recs = String::new();
    push_list_items(&mut recs, &summary.recommended_next_steps);
    let mut rows = String::new();
    push_hop_rows(&mut rows, hops);
    let mut r = String::new();
    r.append("<!DOCTYPE html>\n<html lang=\"en\">\n<head>\n    <meta charset=\"UTF-8\">\n    <meta name=\"viewport\" content=\"width=device-width, initial-scale=1.0\">\n    <title>WLTP Report - ");
    r.append(config.target.as_str());
    r.append("</title>\n    <style>\n        * { margin: 0; padding: 0; box-sizing: border-box; }\n        body { font-family: -apple-system, BlinkMacSystemFont, 'Segoe UI', Roboto, sans-serif; line-height: 1.6; color: #333; background: #f5f5f5; padding: 20px; }\n        .container { max-width: 1200px; margin: 0 auto; background: white; border-radius: 8px; box-shadow: 0 2px 4px rgba(0,0,0,0.1); }\n        .header { padding: 24px; border-bottom: 1px solid #eee; }\n        .header h1 { font-size: 24px; margin-bottom: 8px; }\n        .header .meta { color: #666; font-size: 14px; }\n        .status { display: inline-block; padding: 4px 12px; border-radius: 4px; color: white; font-weight: 600; font-size: 14px; margin-left: 12px; }\n        .summary { padding: 24px; background: #fafafa; border-bottom: 1px solid #eee; }\n        .summary h2 { font-size: 18px; margin-bottom: 16px; }\n        .summary-grid { display: grid; grid-template-columns: repeat(auto-fit, minmax(300px, 1fr)); gap: 24px; }\n        .summary-card { background: white; padding: 16px; border-radius: 6px; border: 1px solid #e0e0e0; }\n        .summary-card h3 { font-size: 14px; color: #666; margin-bottom: 8px; }\n        .summary-card ul { margin-left: 20px; }\n        .summary-card li { margin-bottom: 4px; }\n        .primary-finding { font-size: 18px; font-weight: 600; margin-bottom: 16px; padding: 12px; background: white; border-radius: 6px; border-left: 4px solid ");
    r.append(severity_color_str(summary.overall_status));
    r.append("; }\n        .hops { padding: 24px; }\n        .hops h2 { font-size: 18px; margin-bottom: 16px; }\n        table { width: 100%; border-collapse: collapse; font-size: 14px; }\n        th { background: #f5f5f5; padding: 12px 8px; text-align: left; font-weight: 600; border-bottom: 2px solid #e0e0e0; }\n        td { padding: 10px 8px; border-bottom: 1px solid #eee; }\n        tr:hover { background: #fafafa; }\n        .footer { padding: 16px 24px; border-top: 1px solid #eee; font-size: 12px; color: #666; text-align: center; }\n    </style>\n</head>\n<body>\n    <div class=\"container\">\n        <div class=\"header\">\n            <h1>WLTP Network Diagnostic Report<span class=\"status\" style=\"background: ");
    r.append(severity_color_str(summary.overall_status));
    r.append(";\">");
    r.append(severity_label_str(summary.overall_status));
    r.append("</span></h1>\n            <div class=\"meta\">\n                Target: <strong>");
    r.append(config.target.as_str());
    r.append("</strong> | Generated: ");
    r.append(timestamp);
    r.append("\n            </div>\n        </div>\n\n        <div class=\"summary\">\n            <h2>Summary</h2>\n            <div class=\"primary-finding\">");
    r.append(summary.primary_finding.as_str());
    r.append("</div>\n            <div class=\"summary-grid\">\n                <div class=\"summary-card\">\n                    <h3>Findings</h3>\n                    <ul>\n                        ");
    r.append(findings.as_str());
    r.append("\n                    </ul>\n                </div>\n                <div class=\"summary-card\">\n                    <h3>Recommendations</h3>\n                    <ul>\n                        ");
    r.append(recs.as_str());
    r.append("\n                    </ul>\n                </div>\n            </div>\n        </div>\n\n        <div class=\"hops\">\n            <h2>Route Details</h2>\n            <table>\n                <thead>\n                    <tr>\n                        <th style=\"width: 40px;\"></th>\n                        <th style=\"width: 50px;\">Hop</th>\n                        <th>Host</th>\n                        <th>Loss%</th>\n                        <th>Sent</th>\n                        <th>Recv</th>\n                        <th>Best</th>\n                        <th>Avg</th>\n                        <th>Worst</th>\n                        <th>Last</th>\n                        <th>Jitter</th>\n                        <th>Interpretation</th>\n                    </tr>\n                </thead>\n                <tbody>\n                    ");
    r.append(rows.as_str());
    r.append("\n                </tbody>\n            </table>\n        </div>\n\n        <div class=\"footer\">\n            Generated by WLTP - Modern WinMTR for Windows/macOS\n        </div>\n    </div>\n</body>\n</html>");
    proof {
        assert(findings@ =~= list_items(strings_view(summary.secondary_findings@)));
        assert(recs@ =~= list_items(strings_view(summary.recommended_next_steps@)));
        assert(rows@ =~= hop_rows(hops@));
        assert(r@ =~= report_html(*summary, hops@, *config, timestamp@));
    }
    r
}

/// Text shaped like `<year>-MM-DD HH:MM:SS UTC`: a year of at least four characters, then
/// two-digit month, day, hour, minute and second with their separators, then ` UTC`.
pub open spec fn utc_stamp_shape(t: Seq<char>) -> bool {
    let n = t.len() as int;
    &&& n >= 23
    &&& t[n - 19] == '-' && t[n - 16] == '-' && t[n - 13] == ' ' && t[n - 10] == ':' && t[n - 7] == ':'
    &&& is_digit(t[n - 18]) && is_digit(t[n - 17]) && is_digit(t[n - 15]) && is_digit(t[n - 14])
    &&& is_digit(t[n - 12]) && is_digit(t[n - 11]) && is_digit(t[n - 9]) && is_digit(t[n - 8])
    &&& is_digit(t[n - 6]) && is_digit(t[n - 5])
    &&& t.subrange(n - 4, n) == seq![' ', 'U', 'T', 'C']
}

/// Reads the clock with `std::time::SystemTime::now` and measures it from the Unix epoch
/// with `duration_since(UNIX_EPOCH)`, giving whole seconds and the nanoseconds past them;
/// `None` when the clock reads before the epoch (the `Err` of `duration_since`). Which
/// instant it reads depends on the clock; the only claim is the bound that
/// `Duration::subsec_nanos` documents: the nanoseconds are under one billion.
#[verifier::external_body]
fn clock_since_epoch() -> (r: Option<(u64, u32)>)
    ensures
        r matches Some((secs, nanos)) ==> nanos < 1_000_000_000,
{
    match std::time::SystemTime::now().duration_since(std::time::UNIX_EPOCH) {
        Ok(d) => Some((d.as_secs(), d.subsec_nanos())),
        Err(_) => None,
    }
}

/// What `chrono::DateTime::from_timestamp(secs, nanos)` gives, formatted with
/// `%Y-%m-%d %H:%M:%S UTC` (`None` where `from_timestamp` gives `None`).
pub uninterp spec fn utc_stamp_text(secs: i64, nanos: u32) -> Option<Seq<char>>;

/// Calls `chrono::DateTime::from_timestamp` and formats the instant with
/// `%Y-%m-%d %H:%M:%S UTC`. `from_timestamp` gives `None` only for seconds outside chrono's
/// date range (years beyond 262143) or an invalid nanosecond count, so seconds from 0 to
/// 8 * 10^12 (before the year 250000) with fewer than a billion nanoseconds always give a
/// text. Every text has the shape chrono's formatter writes: the year in at least four
/// characters, the other fields zero-padded to two digits, and the literal ` UTC`.
#[verifier::external_body]
fn utc_stamp(secs: i64, nanos: u32) -> (r: Option<String>)
    ensures
        match r {
            Some(s) => utc_stamp_text(secs, nanos) == Some(s@),
            None => utc_stamp_text(secs, nanos) is None,
        },
        0 <= secs <= 8_000_000_000_000 && nanos < 1_000_000_000 ==> r is Some,
        r matches Some(s) ==> utc_stamp_shape(s@),
{
    match chrono::DateTime::from_timestamp(secs, nanos) {
        Some(t) => Some(t.format("%Y-%m-%d %H:%M:%S UTC").to_string()),
        None => None,
    }
}

/// The current time as `<year>-MM-DD HH:MM:SS UTC`, or `None` when the clock reads before
/// 1970 or beyond the dates that can be written.
fn report_timestamp() -> (r: Option<String>)
    ensures
        r matches Some(s) ==> utc_stamp_shape(s@),
{
    match clock_since_epoch() {
        None => None,
        Some((secs, nanos)) => {
            if secs > 0x7FFF_FFFF_FFFF_FFFF {
                None
            } else {
                utc_stamp(secs as i64, nanos)
            }
        },
    }
}

/// The HTML report of a trace, stamped with the current time; an error when the clock does
/// not read as a date from 1970 on.
pub fn export_html(summary: SessionSummary, hops: Vec<HopSample>, config: TraceConfig) -> (r: Result<String, String>)
    ensures
        r matches Ok(html) ==> exists|t: Seq<char>| utc_stamp_shape(t) && html@ == report_html(summary, hops@, config, t),
        r matches Err(e) ==> e@ == "The system clock does not read as a date from 1970 on"@,
{
    match report_timestamp() {
        Some(timestamp) => {
            let html = render_html_report(&summary, hops.as_slice(), &config, timestamp.as_str());
            Ok(html)
        },
        None => Err(String::from_str("The system clock does not read as a date from 1970 on")),
    }
}

} // verus!

verus! {

proof fn lemma_round_tenths_monotone(a: nat, b: nat)
    requires
        a <= b,
    ensures
        round_half_even(a, 100) <= round_half_even(b, 100),
{
    let qa = a / 100;
    let qb = b / 100;
    let ra = a % 100;
    let rb = b % 100;
    assert(qa <= qb);
    assert(qa == qb ==> ra <= rb);
}

/// In the table row of a hop that answered, with consistent statistics, the cells after the
/// Recv cell follow the header's order Best, Avg, Worst, Last, Jitter, Interpretation: the
/// Best cell shows the best latency and the Worst cell the worst one (in milliseconds with
/// one decimal), and the value shown as Best is never greater than the one shown as Worst.
#[verifier::spinoff_prover]
#[verifier::rlimit(60)]
pub proof fn lemma_row_shows_best_then_worst(h: HopSample)
    requires
        h.stats.consistent(),
        h.stats.received > 0,
    ensures
        ({
            let b = round_half_even(h.stats.best_us.unwrap() as nat, 100);
            let w = round_half_even(h.stats.worst_us.unwrap() as nat, 100);
            &&& b <= w
            &&& ("</td>\n                <td>"@ + tenths_text(b) + "</td>\n                <td>"@ + avg_cell(h.stats)
                + "</td>\n                <td>"@ + tenths_text(w) + "</td>\n                <td>"@
                + opt_tenths(h.stats.last_us, 1) + "</td>\n                <td>"@ + jitter_cell(h.stats)
                + "</td>\n                <td><strong>"@ + headline_cell(h)
                + "</strong><br/><small style=\"color: #666;\">"@ + explanation_cell(h)
                + "</small></td>\n            </tr>"@).is_suffix_of(hop_row(h))
        }),
{
    let best = h.stats.best_us.unwrap();
    let worst = h.stats.worst_us.unwrap();
    assert(best <= worst);
    lemma_round_tenths_monotone(best as nat, worst as nat);
    let b = round_half_even(best as nat, 100);
    let w = round_half_even(worst as nat, 100);
    let tail = "</td>\n                <td>"@ + tenths_text(b) + "</td>\n                <td>"@ + avg_cell(h.stats)
        + "</td>\n                <td>"@ + tenths_text(w) + "</td>\n                <td>"@
        + opt_tenths(h.stats.last_us, 1) + "</td>\n                <td>"@ + jitter_cell(h.stats)
        + "</td>\n                <td><strong>"@ + headline_cell(h)
        + "</strong><br/><small style=\"color: #666;\">"@ + explanation_cell(h)
        + "</small></td>\n            </tr>"@;
    let head = "<tr>\n                <td style=\"text-align: center; color: "@ + severity_color(h.status)
        + ";\">&#9679;</td>\n                <td>"@ + digits(h.index as nat) + "</td>\n                <td title=\""@
        + ip_cell(h) + "\">"@ + host_cell(h) + "</td>\n                <td>"@ + tenths_text(loss_tenths(h.stats)) + "%"@
        + "</td>\n                <td>"@ + digits(h.stats.sent as nat) + "</td>\n                <td>"@
        + digits(h.stats.received as nat);
    assert(opt_tenths(h.stats.best_us, 1) == tenths_text(b));
    assert(opt_tenths(h.stats.worst_us, 1) == tenths_text(w));
    assert(hop_row(h) =~= head + tail);
    assert(tail =~= (head + tail).subrange(head.len() as int, (head + tail).len() as int));
}

} // verus!
