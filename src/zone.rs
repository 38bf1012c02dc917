use chrono::{Datelike, TimeZone, Timelike};
use chrono_tz::Tz;
use vstd::prelude::*;

use crate::stamp::Stamp;

verus! {

/// The instant, in milliseconds since the Unix epoch, at which the
/// wall-clock time `local` occurs in the IANA time zone named `zone`; `None`
/// where the name is unknown or the time occurs never (a gap) or twice (a fold).
pub uninterp spec fn local_instant_of(zone: Seq<char>, local: Stamp) -> Option<int>;

/// The UTC calendar date and time of an instant given in milliseconds since
/// the Unix epoch; `None` outside the range of dates chrono can represent.
pub uninterp spec fn utc_stamp_of(millis: int) -> Option<Stamp>;

/// Relies on chrono_tz's `Tz::from_str`, a lookup of the zone by its IANA
/// name in the built-in tz database, and on chrono's
/// `TimeZone::from_local_datetime` for that zone, with `LocalResult::single`
/// and `DateTime::timestamp_millis`: the instant at which the wall-clock time
/// `local` occurs in the zone, which depends on the name and the time alone.
#[verifier::external_body]
pub(crate) fn instant_in_zone(zone: &str, local: &Stamp) -> (r: Option<i64>)
    requires
        local.wf(),
    ensures
        r matches Some(x) ==> local_instant_of(zone@, *local) == Some(x as int),
        r is None ==> local_instant_of(zone@, *local) is None,
{
    let tz: Tz = zone.parse().ok()?;
    let date = chrono::NaiveDate::from_ymd_opt(local.year, local.month, local.day)?;
    let naive = date.and_hms_milli_opt(local.hour, local.minute, local.second, local.milli)?;
    tz.from_local_datetime(&naive).single().map(|t| t.timestamp_millis())
}

/// Relies on chrono's `DateTime::<Utc>::from_timestamp_millis`: the UTC
/// calendar date and time of an instant in milliseconds since the Unix epoch,
/// which is a real date and a time of day without leap second.
#[verifier::external_body]
pub(crate) fn utc_stamp(millis: i64) -> (r: Option<Stamp>)
    ensures
        r == utc_stamp_of(millis as int),
        r matches Some(t) ==> t.wf(),
{
    let t = chrono::DateTime::from_timestamp_millis(millis)?;
    Some(Stamp {
        year: t.year(),
        month: t.month(),
        day: t.day(),
        hour: t.hour(),
        minute: t.minute(),
        second: t.second(),
        milli: t.timestamp_subsec_millis(),
    })
}

} // verus!
