//! Timestamps as the application shows them (UTC).
use vstd::prelude::*;
use chrono::{DateTime, Utc};

verus! {

/// What chrono prints for the UTC time `secs` seconds after the epoch with
/// `%Y-%m-%d %H:%M:%S`, or `None` when chrono has no such time.
pub uninterp spec fn utc_seconds_text(secs: i64) -> Option<Seq<char>>;

/// What chrono prints for the UTC time `secs` seconds after the epoch with
/// `%Y-%m-%d %H:%M`, or `None` when chrono has no such time.
pub uninterp spec fn utc_minutes_text(secs: i64) -> Option<Seq<char>>;

/// `DateTime::<Utc>::from_timestamp(secs, 0)` formatted with
/// `%Y-%m-%d %H:%M:%S`; the text is named, not stated.
#[verifier::external_body]
fn utc_seconds(secs: i64) -> (r: Option<String>)
    ensures
        match r {
            Some(s) => utc_seconds_text(secs) == Some(s@),
            None => utc_seconds_text(secs) is None,
        },
{
    DateTime::<Utc>::from_timestamp(secs, 0).map(|value| value.format("%Y-%m-%d %H:%M:%S").to_string())
}

/// `DateTime::<Utc>::from_timestamp(secs, 0)` formatted with
/// `%Y-%m-%d %H:%M`; the text is named, not stated.
#[verifier::external_body]
fn utc_minutes(secs: i64) -> (r: Option<String>)
    ensures
        match r {
            Some(s) => utc_minutes_text(secs) == Some(s@),
            None => utc_minutes_text(secs) is None,
        },
{
    DateTime::<Utc>::from_timestamp(secs, 0).map(|value| value.format("%Y-%m-%d %H:%M").to_string())
}

/// A stored timestamp as text: "未知" for none (zero or less) or one chrono
/// cannot represent.
pub open spec fn unix_ts_label(ts: i64) -> Seq<char> {
    if ts <= 0 {
        "未知"@
    } else {
        match utc_seconds_text(ts) {
            Some(t) => t,
            None => "未知"@,
        }
    }
}

/// A stored timestamp as text (see `unix_ts_label`).
pub fn format_unix_ts(timestamp: i64) -> (r: String)
    ensures
        r@ == unix_ts_label(timestamp),
{
    if timestamp <= 0 {
        return "未知".to_owned();
    }
    match utc_seconds(timestamp) {
        Some(t) => t,
        None => "未知".to_owned(),
    }
}

/// A stored timestamp as text, empty when there is none.
pub open spec fn unix_ts_label_or_empty(ts: i64) -> Seq<char> {
    if ts <= 0 {
        Seq::empty()
    } else {
        match utc_seconds_text(ts) {
            Some(t) => t,
            None => Seq::empty(),
        }
    }
}

/// A stored timestamp as text, empty when there is none (see
/// `unix_ts_label_or_empty`).
pub fn format_unix_ts_or_empty(timestamp: i64) -> (r: String)
    ensures
        r@ == unix_ts_label_or_empty(timestamp),
{
    if timestamp <= 0 {
        return String::new();
    }
    match utc_seconds(timestamp) {
        Some(t) => t,
        None => String::new(),
    }
}

/// The modification time of a file as text, to the minute; "未知" when the
/// file system gave none.
pub open spec fn modified_label(secs: Option<i64>) -> Seq<char> {
    match secs {
        Some(s) => match utc_minutes_text(s) {
            Some(t) => t,
            None => "未知"@,
        },
        None => "未知"@,
    }
}

/// The modification time of a file as text (see `modified_label`).
pub fn format_modified(secs: Option<i64>) -> (r: String)
    ensures
        r@ == modified_label(secs),
{
    match secs {
        Some(s) => match utc_minutes(s) {
            Some(t) => t,
            None => "未知".to_owned(),
        },
        None => "未知".to_owned(),
    }
}

} // verus!
