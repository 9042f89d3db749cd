//! Points in time, and how they are shown in the local time zone.
//!
//! A point in time is a number of nanoseconds since the start of 1970 in UTC;
//! earlier ones are negative.

use vstd::prelude::*;

verus! {

/// The first second that can be shown: the start of the year -262143.
pub const FIRST_SECOND: i64 = -8_334_601_228_800;

/// The last second that can be shown: the end of the year 262142.
pub const LAST_SECOND: i64 = 8_210_266_876_799;

pub const NANOS_PER_SECOND: i128 = 1_000_000_000;

pub const NANOS_PER_MILLI: i128 = 1_000_000;

/// The second `secs` can be shown.
pub open spec fn showable(secs: int) -> bool {
    FIRST_SECOND <= secs <= LAST_SECOND
}

/// The second that the point `time` lies in.
pub open spec fn second_of(time: int) -> int {
    time / (NANOS_PER_SECOND as int)
}

/// The second `secs` written out after `pattern`, on a clock that is `offset`
/// seconds ahead of UTC.
pub uninterp spec fn stamp_text(secs: int, offset: int, pattern: Seq<char>) -> Seq<char>;

/// `text` shows the second `secs` as `year-month-day hour:minute:second` on a
/// clock less than a day away from UTC.
pub open spec fn is_stamp(text: Seq<char>, secs: int) -> bool {
    exists|offset: int|
        -86_400 < offset < 86_400 && text == #[trigger] stamp_text(
            secs,
            offset,
            "%Y-%m-%d %H:%M:%S"@,
        )
}

/// Writes a second out with `chrono::Local.timestamp_opt(secs, 0)` and
/// `chrono::DateTime::format`. There is a text exactly for the seconds of the
/// years that chrono knows. It is the text for the offset from UTC that the
/// machine's time zone has at that second; which one that is depends on the
/// machine and is left open. It has a year of at least four characters and two
/// digits each for the rest.
#[verifier::external_body]
fn local_stamp(secs: i64, pattern: &str) -> (text: Option<String>)
    requires
        pattern@ == "%Y-%m-%d %H:%M:%S"@,
    ensures
        text is Some <==> showable(secs as int),
        text matches Some(t) ==> exists|offset: int|
            -86_400 < offset < 86_400 && t@ == #[trigger] stamp_text(secs as int, offset, pattern@),
        text matches Some(t) ==> t@.len() >= 19,
{
    chrono::TimeZone::timestamp_opt(&chrono::Local, secs, 0).single().map(
        |t| t.format(pattern).to_string(),
    )
}

/// The second `secs` on the local clock, if it can be shown.
pub fn show_second(secs: i64) -> (text: Option<String>)
    ensures
        text is Some <==> showable(secs as int),
        text matches Some(t) ==> is_stamp(t@, secs as int) && t@.len() >= 19,
{
    local_stamp(secs, "%Y-%m-%d %H:%M:%S")
}

/// The second that a point in time lies in.
pub fn whole_second(time: i128) -> (secs: i128)
    ensures
        secs == second_of(time as int),
{
    if time >= 0 {
        time / NANOS_PER_SECOND
    } else {
        let up: i128 = (-(time + 1)) / NANOS_PER_SECOND;
        -up - 1
    }
}

/// Whether a point in time can be shown.
pub fn can_show(time: i128) -> (yes: bool)
    ensures
        yes == showable(second_of(time as int)),
{
    let secs: i128 = whole_second(time);
    FIRST_SECOND as i128 <= secs && secs <= LAST_SECOND as i128
}

/// A point in time on the local clock.
pub fn show_time(time: i128) -> (text: String)
    requires
        showable(second_of(time as int)),
    ensures
        is_stamp(text@, second_of(time as int)),
        text@.len() >= 19,
{
    let secs: i64 = whole_second(time) as i64;
    show_second(secs).unwrap()
}

// ---- laws ----

/// A point in time lies in its second.
pub proof fn law_second_holds_its_time(time: int)
    ensures
        second_of(time) * 1_000_000_000 <= time < (second_of(time) + 1) * 1_000_000_000,
{
}

/// The second of a timestamp in milliseconds is a thousandth of it, and that of a
/// timestamp in seconds is the timestamp.
pub proof fn law_seconds_of_stamps(t: int)
    ensures
        second_of(t * 1_000_000) == t / 1000,
        second_of(t * 1_000_000_000) == t,
{
}

/// The seconds that can be shown are those of whole days, counted from 1970: the
/// days of the years -262143 to 262142.
pub proof fn law_what_can_be_shown(secs: int)
    ensures
        showable(secs) <==> -96_465_292 * 86_400 <= secs < 95_026_237 * 86_400,
{
}

/// A time is shown as its date and its time of day, in some time zone.
pub proof fn law_form_of_times(text: Seq<char>, secs: int) -> (offset: int)
    requires
        is_stamp(text, secs),
    ensures
        text == stamp_text(secs, offset, "%Y-%m-%d %H:%M:%S"@),
        -86_400 < offset < 86_400,
{
    choose|offset: int|
        -86_400 < offset < 86_400 && text == #[trigger] stamp_text(
            secs,
            offset,
            "%Y-%m-%d %H:%M:%S"@,
        )
}

} // verus!
