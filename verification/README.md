# wltp

A traceroute companion library with its contracts proved by Verus: hop statistics,
the diagnostic engine that explains a route (rate limiting versus real loss, silent
routers, congested segments), the readers for `tracert`, `ping` and `traceroute`
output, IP address text, settings, and the HTML report.

Layout:

- `src/` — the verified library.
  - `types.rs` — sessions, hop statistics in whole microseconds, hops and summaries.
  - `interpretation.rs` — per-hop interpretation and the route summary.
  - `traceroute.rs`, `portable.rs` — tool output readers, route discovery and the
    probe schedule that drives the live loop.
  - `ip.rs`, `ipv6.rs`, `readback.rs` — address text, its parsing, and the proof that
    parsing the rendered text gives the address back.
  - `scan.rs`, `text.rs` — text scanning and decimal rendering.
  - `settings.rs`, `report.rs` — settings sanitation and the HTML report.
- `tests/` — tests of the library on concrete values.
- `app/` — a command-line program around the library: running the system tools,
  DNS lookup, the async session loop, JSON and settings files.
