//! UTC instants and the calls into `chrono` that parse and print them.
use vstd::prelude::*;

use chrono::{DateTime, NaiveDateTime};

verus! {

/// A UTC instant: whole seconds since the Unix epoch and the nanoseconds past
/// them. As in `chrono`, a leap second is carried by `nanos` of at least one
/// billion.
#[derive(Clone, Copy, Debug, PartialEq, Eq, Structural, PartialOrd, Ord, Hash)]
pub struct Timestamp {
    pub secs: i64,
    pub nanos: u32,
}

/// `a` is no later than `b`: the order of `chrono`'s `DateTime<Utc>`, which
/// compares the seconds first and the nanoseconds second.
pub open spec fn ts_le(a: Timestamp, b: Timestamp) -> bool {
    a.secs < b.secs || (a.secs == b.secs && a.nanos <= b.nanos)
}

pub open spec fn ts_lt(a: Timestamp, b: Timestamp) -> bool {
    ts_le(a, b) && a != b
}

/// Instants are ordered as `chrono` orders them: by the second first, then, within
/// one second, by the nanosecond. The order is total and transitive, and two
/// instants each no later than the other are the same instant; an instant in an
/// earlier second, or in the same second with fewer nanoseconds, is strictly
/// earlier.
pub proof fn lemma_instant_order(a: Timestamp, b: Timestamp, c: Timestamp)
    ensures
        ts_le(a, b) || ts_le(b, a),
        ts_le(a, b) && ts_le(b, a) ==> a == b,
        ts_le(a, b) && ts_le(b, c) ==> ts_le(a, c),
        ts_le(a, b) ==> a.secs <= b.secs,
        a.secs < b.secs ==> ts_le(a, b) && !ts_le(b, a),
        a.secs == b.secs && a.nanos < b.nanos ==> ts_le(a, b) && !ts_le(b, a),
        a.secs == b.secs && a.nanos == b.nanos ==> ts_le(a, b),
{
}

impl Timestamp {
    pub fn new(secs: i64, nanos: u32) -> (t: Timestamp)
        ensures
            t.secs == secs,
            t.nanos == nanos,
    {
        Timestamp { secs, nanos }
    }

    /// Whether `self` is no later than `other`.
    pub fn is_at_or_before(&self, other: &Timestamp) -> (b: bool)
        ensures
            b == ts_le(*self, *other),
    {
        self.secs < other.secs || (self.secs == other.secs && self.nanos <= other.nanos)
    }

    /// Whether `self` and `other` are the same instant.
    pub fn same_instant(&self, other: &Timestamp) -> (b: bool)
        ensures
            b == (*self == *other),
    {
        self.secs == other.secs && self.nanos == other.nanos
    }
}

/// What `chrono`'s `DateTime::parse_from_rfc2822` gives for a text, as a UTC instant.
pub uninterp spec fn chrono_rfc2822(text: Seq<char>) -> Option<Timestamp>;

/// What `chrono`'s `DateTime::parse_from_str` gives for a text and a format that
/// holds an offset, as a UTC instant.
pub uninterp spec fn chrono_parse_with_offset(text: Seq<char>, format: Seq<char>) -> Option<Timestamp>;

/// What `chrono`'s `NaiveDateTime::parse_from_str` gives for a text and a format,
/// read as UTC.
pub uninterp spec fn chrono_parse_naive(text: Seq<char>, format: Seq<char>) -> Option<Timestamp>;

/// The text that `chrono` prints for an instant with the format
/// `%Y-%m-%d %H:%M:%S%.f UTC`.
pub uninterp spec fn chrono_utc_text(secs: i64, nanos: u32) -> Seq<char>;

/// Calls `chrono::DateTime::parse_from_rfc2822`. Trusted: the result is `chrono`'s
/// answer for `text`, taken as seconds and nanoseconds since the epoch; nothing is
/// stated about which texts it accepts.
#[verifier::external_body]
pub(crate) fn parse_rfc2822(text: &str) -> (r: Option<Timestamp>)
    ensures
        r == chrono_rfc2822(text@),
{
    match DateTime::parse_from_rfc2822(text) {
        Ok(t) => Some(Timestamp { secs: t.timestamp(), nanos: t.timestamp_subsec_nanos() }),
        Err(_) => None,
    }
}

/// Calls `chrono::DateTime::parse_from_str`. Trusted: the result is `chrono`'s answer
/// for `text` under `format`, taken as seconds and nanoseconds since the epoch.
#[verifier::external_body]
pub(crate) fn parse_with_offset(text: &str, format: &str) -> (r: Option<Timestamp>)
    ensures
        r == chrono_parse_with_offset(text@, format@),
{
    match DateTime::parse_from_str(text, format) {
        Ok(t) => Some(Timestamp { secs: t.timestamp(), nanos: t.timestamp_subsec_nanos() }),
        Err(_) => None,
    }
}

/// Calls `chrono::NaiveDateTime::parse_from_str` and reads the result as UTC with
/// `and_utc`. Trusted: the result is `chrono`'s answer for `text` under `format`.
#[verifier::external_body]
pub(crate) fn parse_naive(text: &str, format: &str) -> (r: Option<Timestamp>)
    ensures
        r == chrono_parse_naive(text@, format@),
{
    match NaiveDateTime::parse_from_str(text, format) {
        Ok(t) => {
            let t = t.and_utc();
            Some(Timestamp { secs: t.timestamp(), nanos: t.timestamp_subsec_nanos() })
        },
        Err(_) => None,
    }
}

/// Calls `chrono::DateTime::from_timestamp`. Trusted: when it gives an instant, that
/// instant has the seconds and nanoseconds it was given; within about thirty thousand
/// years of the epoch (well inside `chrono`'s range) and below one billion nanoseconds it
/// always gives one.
#[verifier::external_body]
pub(crate) fn from_unix(secs: i64, nanos: u32) -> (r: Option<Timestamp>)
    ensures
        r matches Some(t) ==> t.secs == secs && t.nanos == nanos,
        (-1_000_000_000_000 <= secs <= 1_000_000_000_000 && nanos < 1_000_000_000)
            ==> r is Some,
{
    match DateTime::from_timestamp(secs, nanos) {
        Some(t) => Some(Timestamp { secs: t.timestamp(), nanos: t.timestamp_subsec_nanos() }),
        None => None,
    }
}

/// Prints an instant with `chrono`'s `format("%Y-%m-%d %H:%M:%S%.f UTC")`, after
/// building it with `DateTime::from_timestamp` (an instant outside `chrono`'s range
/// prints as the empty text). Trusted: the text is a function of the instant.
#[verifier::external_body]
pub(crate) fn utc_text(t: &Timestamp) -> (s: String)
    ensures
        s@ == chrono_utc_text(t.secs, t.nanos),
{
    match DateTime::from_timestamp(t.secs, t.nanos) {
        Some(d) => d.format("%Y-%m-%d %H:%M:%S%.f UTC").to_string(),
        None => String::new(),
    }
}

} // verus!
