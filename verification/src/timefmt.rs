//! Timestamps.  The store keys everything by a formatted local time string;
//! converting a unix timestamp into that string is delegated to the `time`
//! crate behind one trusted wrapper.

use vstd::prelude::*;

verus! {

/// What the `time` crate's formatting pipeline yields for a unix timestamp,
/// an offset in whole hours, and a format description: a function of the
/// arguments alone.
pub uninterp spec fn formatted_of(timestamp: i64, offset_hours: i8, desc: Seq<char>) -> Option<
    Seq<char>,
>;

/// Relies on the `time` crate: `UtcOffset::from_hms`,
/// `OffsetDateTime::from_unix_timestamp`, `OffsetDateTime::checked_to_offset`,
/// `format_description::parse` and `OffsetDateTime::format`.  The outcome
/// depends only on the three arguments, so it is named rather than spelled
/// out; every step of the pipeline is total, and any failure along it — a
/// timestamp or shifted date-time outside the representable years, a bad
/// format description — yields `None`.
#[verifier::external_body]
fn format_unix_timestamp(timestamp: i64, offset_hours: i8, desc: &str) -> (r: Option<String>)
    ensures
        (r is Some) == (formatted_of(timestamp, offset_hours, desc@) is Some),
        r matches Some(s) ==> formatted_of(timestamp, offset_hours, desc@) matches Some(v) && s@
            == v,
{
    let offset = time::UtcOffset::from_hms(offset_hours, 0, 0).ok()?;
    let dt = time::OffsetDateTime::from_unix_timestamp(timestamp).ok()?;
    let dt = dt.checked_to_offset(offset)?;
    let items = time::format_description::parse(desc).ok()?;
    dt.format(&items).ok()
}

/// The store's timestamp format for a unix timestamp: year-month-day
/// hour:minute:second, at the fixed UTC+8 offset.
pub open spec fn iso_time_of(timestamp: i64) -> Option<Seq<char>> {
    formatted_of(timestamp, 8, "[year]-[month]-[day] [hour]:[minute]:[second]"@)
}

/// Converts a unix timestamp to the store's timestamp string; `None` when
/// the timestamp lies outside the representable range.
pub fn iso8601_from_timestamp(timestamp: i64) -> (r: Option<String>)
    ensures
        (r is Some) == (iso_time_of(timestamp) is Some),
        r matches Some(s) ==> iso_time_of(timestamp) matches Some(v) && s@ == v,
{
    format_unix_timestamp(timestamp, 8, "[year]-[month]-[day] [hour]:[minute]:[second]")
}

/// A point in time as this library receives it: either already formatted, or
/// a raw unix timestamp still to be converted.
pub enum TimeRepr {
    Iso8601(String),
    UnixTimeStamp(i64),
}

impl TimeRepr {
    /// The formatted form: the string itself, or the converted timestamp;
    /// `None` when a raw timestamp cannot be represented.
    pub fn to_iso8601(&self) -> (r: Option<String>)
        ensures
            match self {
                TimeRepr::Iso8601(t) => r matches Some(s) && s@ == t@,
                TimeRepr::UnixTimeStamp(t) => {
                    &&& (r is Some) == (iso_time_of(*t) is Some)
                    &&& (r matches Some(s) ==> iso_time_of(*t) matches Some(v) && s@ == v)
                },
            },
    {
        match self {
            TimeRepr::Iso8601(t) => Some(t.clone()),
            TimeRepr::UnixTimeStamp(t) => iso8601_from_timestamp(*t),
        }
    }
}

} // verus!
