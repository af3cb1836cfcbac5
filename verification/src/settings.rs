//! User settings and their normalisation.

use vstd::prelude::*;

verus! {

/// Interface language.
#[derive(Debug, Clone, Copy, PartialEq, Eq, Structural)]
pub enum Language {
    En,
    Ru,
}

/// Colour theme of the interface.
#[derive(Debug, Clone, Copy, PartialEq, Eq, Structural)]
pub enum Theme {
    System,
    Light,
    Dark,
}

/// How much detail the hop interpretations carry.
#[derive(Debug, Clone, Copy, PartialEq, Eq, Structural)]
pub enum ExplanationLevel {
    Simple,
    Detailed,
}

/// Application settings.
#[derive(Debug, Clone, Copy, PartialEq, Eq, Structural)]
pub struct Settings {
    pub language: Language,
    pub theme: Theme,
    pub explanation_level: ExplanationLevel,
    pub default_interval_ms: u64,
    pub default_max_hops: u8,
    pub default_timeout_ms: u64,
}

/// The language used when none is stored.
pub fn default_language() -> (l: Language)
    ensures
        l == Language::En,
{
    Language::En
}

impl Settings {
    /// The settings of a fresh installation.
    pub open spec fn spec_default() -> Settings {
        Settings {
            language: Language::En,
            theme: Theme::System,
            explanation_level: ExplanationLevel::Simple,
            default_interval_ms: 1000,
            default_max_hops: 30,
            default_timeout_ms: 1000,
        }
    }
}

impl Default for Settings {
    fn default() -> (s: Self)
        ensures
            s == Settings::spec_default(),
    {
        Settings {
            language: Language::En,
            theme: Theme::System,
            explanation_level: ExplanationLevel::Simple,
            default_interval_ms: 1000,
            default_max_hops: 30,
            default_timeout_ms: 1000,
        }
    }
}

/// `v` clamped into the closed range `[lo, hi]`.
pub open spec fn clamp_spec(v: int, lo: int, hi: int) -> int {
    if v < lo { lo } else if v > hi { hi } else { v }
}

/// Whether the numeric settings lie in the ranges the application accepts.
pub open spec fn settings_in_range(s: Settings) -> bool {
    &&& 100 <= s.default_interval_ms <= 10_000
    &&& 1 <= s.default_max_hops <= 64
    &&& 100 <= s.default_timeout_ms <= 10_000
}

fn clamp_u64(v: u64, lo: u64, hi: u64) -> (r: u64)
    requires
        lo <= hi,
    ensures
        r == clamp_spec(v as int, lo as int, hi as int),
{
    if v < lo { lo } else if v > hi { hi } else { v }
}

fn clamp_u8(v: u8, lo: u8, hi: u8) -> (r: u8)
    requires
        lo <= hi,
    ensures
        r == clamp_spec(v as int, lo as int, hi as int),
{
    if v < lo { lo } else if v > hi { hi } else { v }
}

/// Brings the numeric settings into their accepted ranges, keeping the rest.
pub fn sanitize_settings(settings: Settings) -> (r: Settings)
    ensures
        r.language == settings.language,
        r.theme == settings.theme,
        r.explanation_level == settings.explanation_level,
        r.default_interval_ms == clamp_spec(settings.default_interval_ms as int, 100, 10_000),
        r.default_max_hops == clamp_spec(settings.default_max_hops as int, 1, 64),
        r.default_timeout_ms == clamp_spec(settings.default_timeout_ms as int, 100, 10_000),
        r == sanitized_spec(settings),
{
    Settings {
        language: settings.language,
        theme: settings.theme,
        explanation_level: settings.explanation_level,
        default_interval_ms: clamp_u64(settings.default_interval_ms, 100, 10_000),
        default_max_hops: clamp_u8(settings.default_max_hops, 1, 64),
        default_timeout_ms: clamp_u64(settings.default_timeout_ms, 100, 10_000),
    }
}

/// Sanitized settings always lie in range, and settings already in range are left as they are.
pub proof fn lemma_sanitize_in_range_and_idempotent(s: Settings)
    ensures
        settings_in_range(sanitized_spec(s)),
        settings_in_range(s) ==> sanitized_spec(s) == s,
        sanitized_spec(sanitized_spec(s)) == sanitized_spec(s),
{
}

/// What `sanitize_settings` returns, as a value.
pub open spec fn sanitized_spec(s: Settings) -> Settings {
    Settings {
        language: s.language,
        theme: s.theme,
        explanation_level: s.explanation_level,
        default_interval_ms: clamp_spec(s.default_interval_ms as int, 100, 10_000) as u64,
        default_max_hops: clamp_spec(s.default_max_hops as int, 1, 64) as u8,
        default_timeout_ms: clamp_spec(s.default_timeout_ms as int, 100, 10_000) as u64,
    }
}

} // verus!

verus! {

/// The settings in effect after reading the stored ones: the stored settings brought
/// into range, or the defaults when none could be read.
pub fn settings_from_stored(stored: Option<Settings>) -> (r: Settings)
    ensures
        r == (match stored {
            Some(s) => sanitized_spec(s),
            None => Settings::spec_default(),
        }),
{
    match stored {
        Some(s) => sanitize_settings(s),
        None => Settings::default(),
    }
}

} // verus!
