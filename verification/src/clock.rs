//! Time stamps.
use time::format_description::well_known::Rfc3339;
use time::OffsetDateTime;
use vstd::prelude::*;

verus! {

/// RFC 3339 text of a moment, given in nanoseconds since the Unix epoch, where it has one.
pub uninterp spec fn rfc3339_text(unix_nanos: int) -> Option<Seq<char>>;

/// First nanosecond of the year 0.
pub const FIRST_NANOSECOND: i128 = -62_167_219_200_000_000_000;

/// Last nanosecond of the year 9999.
pub const LAST_NANOSECOND: i128 = 253_402_300_799_999_999_999;

/// The time stamp of a moment: its RFC 3339 text, or that of the epoch where it has none.
pub open spec fn timestamp_text(unix_nanos: int) -> Seq<char> {
    match rfc3339_text(unix_nanos) {
        Some(text) => text,
        None => "1970-01-01T00:00:00Z"@,
    }
}

/// True of the texts that are the time stamp of some moment.
pub open spec fn is_timestamp(text: Seq<char>) -> bool {
    exists|unix_nanos: int| text == #[trigger] timestamp_text(unix_nanos)
}

/// The current moment in nanoseconds since the Unix epoch, from `OffsetDateTime::now_utc`.
/// Nothing is claimed of it.
#[verifier::external_body]
pub(crate) fn unix_nanos_now() -> i128 {
    OffsetDateTime::now_utc().unix_timestamp_nanos()
}

/// RFC 3339 text of a moment, from `OffsetDateTime::from_unix_timestamp_nanos` and
/// `OffsetDateTime::format`. Claimed: the text depends on the moment alone, and a moment of the
/// years 0 to 9999 has one. The text itself is left unsaid.
#[verifier::external_body]
fn format_rfc3339(unix_nanos: i128) -> (text: Option<String>)
    ensures
        crate::text::opt_text(text) == rfc3339_text(unix_nanos as int),
        FIRST_NANOSECOND <= unix_nanos <= LAST_NANOSECOND ==> text is Some,
{
    OffsetDateTime::from_unix_timestamp_nanos(unix_nanos).ok()?.format(&Rfc3339).ok()
}

/// A time stamp, or that of the epoch in its place.
pub fn or_epoch(stamp: Option<String>) -> (text: String)
    ensures
        text@ == (match stamp {
            Some(stamp) => stamp@,
            None => "1970-01-01T00:00:00Z"@,
        }),
{
    match stamp {
        Some(stamp) => stamp,
        None => "1970-01-01T00:00:00Z".to_string(),
    }
}

/// The time stamp of a moment, given in nanoseconds since the Unix epoch.
pub fn format_system_time(unix_nanos: i128) -> (text: String)
    ensures
        text@ == timestamp_text(unix_nanos as int),
        is_timestamp(text@),
        FIRST_NANOSECOND <= unix_nanos <= LAST_NANOSECOND ==> rfc3339_text(unix_nanos as int)
            == Some(text@),
{
    let text = or_epoch(format_rfc3339(unix_nanos));
    assert(text@ == timestamp_text(unix_nanos as int));
    text
}

/// The time stamp of the current moment.
pub fn now() -> (text: String)
    ensures
        is_timestamp(text@),
{
    format_system_time(unix_nanos_now())
}

} // verus!
