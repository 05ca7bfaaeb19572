//! Local calendar days. A day is held as chrono numbers it: the count of days
//! from the start of the common era, 0001-01-01 being day 1.
use vstd::prelude::*;
use chrono::Datelike;

verus! {

#[derive(Clone, Copy, Debug, PartialEq, Eq, Structural)]
pub struct LocalDay {
    pub days_from_ce: i32,
}

/// The day that a `YYYY-MM-DD` text names, if it names one.
pub uninterp spec fn ymd_day_of(s: Seq<char>) -> Option<int>;

/// Relies on chrono's `NaiveDate::parse_from_str` with `%Y-%m-%d`, and on
/// `Datelike::num_days_from_ce`: which day the text names depends on the text
/// alone.
#[verifier::external_body]
fn parse_ymd(s: &str) -> (r: Option<LocalDay>)
    ensures
        match r {
            Some(d) => ymd_day_of(s@) == Some(d.days_from_ce as int),
            None => (ymd_day_of(s@) is None),
        },
{
    chrono::NaiveDate::parse_from_str(s, "%Y-%m-%d").ok().map(
        |d| LocalDay { days_from_ce: d.num_days_from_ce() },
    )
}

/// The latest Unix time whose local day exists in every time zone: the first
/// second of 262142-12-31 UTC, chrono's last date. A time zone's offset is
/// under a day, so the local day never passes that date.
pub const LATEST_DATABLE_UNIX_TIME: u64 = 8_210_266_790_400;

/// The day, counted from the common era, on which a Unix time falls in UTC;
/// 1970-01-01 is day 719163.
pub open spec fn utc_day_of(t: u64) -> int {
    t as int / 86_400 + 719_163
}

/// A local day is at most one day off the UTC day of the same instant.
pub open spec fn near_utc_day(day: LocalDay, t: u64) -> bool {
    utc_day_of(t) - 1 <= day.days_from_ce <= utc_day_of(t) + 1
}

/// Relies on chrono's `DateTime::<Utc>::from_timestamp` (which counts the UTC
/// day as `t / 86400 + 719163`), `with_timezone(&Local)`, whose offset
/// `FixedOffset::east_opt` keeps under a day, and `date_naive`, which stays in
/// chrono's range, without panicking, up to the limit.
#[verifier::external_body]
fn local_day_of_unix(t: u64) -> (r: Option<LocalDay>)
    requires
        t <= LATEST_DATABLE_UNIX_TIME,
    ensures
        r is Some,
        near_utc_day(r->Some_0, t),
{
    let secs = i64::try_from(t).ok()?;
    let utc = chrono::DateTime::<chrono::Utc>::from_timestamp(secs, 0)?;
    Some(LocalDay { days_from_ce: utc.with_timezone(&chrono::Local).date_naive().num_days_from_ce() })
}

/// Relies on chrono's `Local::now`, through `Utc::now`, which stops the
/// program on a clock set before 1970: today's date in the machine's time
/// zone, so never before 1969-12-31 (day 719162).
#[verifier::external_body]
fn local_today() -> (r: LocalDay)
    ensures
        r.days_from_ce >= 719_162,
{
    LocalDay { days_from_ce: chrono::Local::now().date_naive().num_days_from_ce() }
}

/// Reads a `YYYY-MM-DD` date.
pub fn parse_day(text: &str) -> (r: Option<LocalDay>)
    ensures
        match r {
            Some(d) => ymd_day_of(text@) == Some(d.days_from_ce as int),
            None => (ymd_day_of(text@) is None),
        },
{
    parse_ymd(text)
}

/// The local day on which a Unix time falls; none past the last datable time.
pub fn local_day(unix_time: u64) -> (r: Option<LocalDay>)
    ensures
        (r is Some) == (unix_time <= LATEST_DATABLE_UNIX_TIME),
        r is Some ==> near_utc_day(r->Some_0, unix_time),
{
    if unix_time <= LATEST_DATABLE_UNIX_TIME {
        local_day_of_unix(unix_time)
    } else {
        None
    }
}

/// Today, local time.
pub fn today() -> (r: LocalDay)
    ensures
        r.days_from_ce >= 719_162,
{
    local_today()
}

} // verus!
