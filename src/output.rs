use vstd::prelude::*;
use crate::text::string_view;
use crate::text::{decimal, decimal_text};

verus! {

/// How long ago something happened, `d` seconds before now, in words.
pub open spec fn relative_text(d: int) -> Seq<char> {
    if d < 0 {
        "in the future"@
    } else if d < 60 {
        "just now"@
    } else if d / 60 < 60 {
        count_text(d / 60, "minute"@)
    } else if d / 3600 < 24 {
        count_text(d / 3600, "hour"@)
    } else if d / 86400 < 30 {
        count_text(d / 86400, "day"@)
    } else if d / 86400 < 365 {
        count_text(d / 86400 / 30, "month"@)
    } else {
        count_text(d / 86400 / 365, "year"@)
    }
}

/// `1 <unit> ago`, or `<n> <unit>s ago`.
pub open spec fn count_text(n: int, unit: Seq<char>) -> Seq<char> {
    if n == 1 {
        "1 "@ + unit + " ago"@
    } else {
        decimal_text(n) + " "@ + unit + "s ago"@
    }
}

/// The UTC date and time of a moment, `YYYY-MM-DD HH:MM`, as chrono writes
/// it; none for a moment chrono cannot represent.
pub uninterp spec fn calendar_minute(secs: int) -> Option<Seq<char>>;

/// Relies on chrono's `DateTime::<Utc>::from_timestamp` and its `format`
/// with `%Y-%m-%d %H:%M`: the text depends on the seconds alone.
#[verifier::external_body]
fn calendar_text(secs: i64) -> (r: Option<String>)
    ensures
        string_view(r) == calendar_minute(secs as int),
{
    match chrono::DateTime::from_timestamp(secs, 0) {
        Some(t) => Some(t.format("%Y-%m-%d %H:%M").to_string()),
        None => None,
    }
}

/// What a timestamp shows: the date for one more than thirty days old (when
/// it has one), else how long ago it was.
pub open spec fn timestamp_text(d: int, calendar: Option<Seq<char>>) -> Seq<char> {
    if d >= 0 && d / 86400 > 30 && calendar is Some {
        calendar->Some_0
    } else {
        relative_text(d)
    }
}

fn count_phrase(n: i64, unit: &str) -> (r: String)
    ensures
        r@ == count_text(n as int, unit@),
{
    let mut s = String::new();
    if n == 1 {
        s.append("1 ");
        s.append(unit);
        s.append(" ago");
    } else {
        s.append(decimal(n).as_str());
        s.append(" ");
        s.append(unit);
        s.append("s ago");
    }
    proof {
        assert(s@ =~= count_text(n as int, unit@));
    }
    s
}

/// How long before `now` a moment was, in words (both in seconds since the
/// epoch): "just now", "5 minutes ago", "1 day ago", "in the future".
pub fn format_relative_time(timestamp: i64, now: i64) -> (r: String)
    ensures
        r@ == relative_text(now - timestamp),
{
    let d: i128 = now as i128 - timestamp as i128;
    if d < 0 {
        return "in the future".to_owned();
    }
    if d < 60 {
        return "just now".to_owned();
    }
    assert(d < 0x1_0000_0000_0000_0000);
    if d / 60 < 60 {
        return count_phrase((d / 60) as i64, "minute");
    }
    if d / 3600 < 24 {
        return count_phrase((d / 3600) as i64, "hour");
    }
    let days = d / 86400;
    if days < 30 {
        return count_phrase(days as i64, "day");
    }
    if days < 365 {
        return count_phrase((days / 30) as i64, "month");
    }
    count_phrase((days / 365) as i64, "year")
}

/// What a timestamp shows, given the calendar text of the moment (see
/// `timestamp_text`).
pub fn pick_timestamp_text(timestamp: i64, now: i64, calendar: Option<String>) -> (r: String)
    ensures
        r@ == timestamp_text(now - timestamp, string_view(calendar)),
{
    let d: i128 = now as i128 - timestamp as i128;
    match calendar {
        Some(c) => {
            if d >= 0 && d / 86400 > 30 {
                return c;
            }
        },
        None => {},
    }
    format_relative_time(timestamp, now)
}

/// A timestamp for display: the date if it is over thirty days before
/// `now`, else how long ago it was.
pub fn format_timestamp(timestamp: i64, now: i64) -> (r: String)
    ensures
        r@ == timestamp_text(now - timestamp, calendar_minute(timestamp as int)),
{
    pick_timestamp_text(timestamp, now, calendar_text(timestamp))
}

} // verus!
