//! WLTP: traceroute statistics, route interpretation and report rendering.

pub mod text;
pub mod settings;
pub mod ip;
pub mod types;
pub mod interpretation;
pub mod scan;
pub mod traceroute;
pub mod portable;
pub mod report;
pub mod ipv6;
pub mod readback;
