//! The business calendar: whole business days between two instants, counted
//! on the civil calendar of `Europe/Berlin`.

use chrono::Datelike;
use chrono::TimeZone;
use vstd::prelude::*;

verus! {

/// Day number of the earliest civil date the calendar can name
/// (1 January of the year -262143; day 1 is 1 January of the year 1).
pub const MIN_DAY: i32 = -95_746_129;

/// Day number of the latest civil date the calendar can name
/// (31 December of the year 262142).
pub const MAX_DAY: i32 = 95_745_399;

/// First second of the day after [`MIN_DAY`], in seconds since the Unix epoch.
pub const MIN_TIMESTAMP: i64 = -8_334_601_142_400;

/// Last second of the day before [`MAX_DAY`], in seconds since the Unix epoch.
pub const MAX_TIMESTAMP: i64 = 8_210_266_790_399;

/// The largest distance, in days, between two civil dates.
pub const MAX_GAP: i32 = 191_491_528;

/// The civil date on which the instant `secs` (seconds since the Unix epoch)
/// falls in `Europe/Berlin`, as a day number: 1 is Monday, 1 January of the
/// year 1 in the proleptic Gregorian calendar. The time-zone rules are those
/// of the IANA database as `chrono-tz` carries them.
pub uninterp spec fn berlin_day(secs: int) -> int;

/// An instant whose civil date can be named in every time zone: it lies at
/// least one day inside the range of dates that the calendar can represent.
pub open spec fn valid_timestamp(secs: int) -> bool {
    MIN_TIMESTAMP <= secs <= MAX_TIMESTAMP
}

/// A day number that names a civil date of the calendar.
pub open spec fn valid_day(day: int) -> bool {
    MIN_DAY <= day <= MAX_DAY
}

/// Monday to Friday. Day 1 is a Monday.
pub open spec fn is_business_day(day: int) -> bool {
    (day - 1) % 7 < 5
}

/// The number of business days `d` with `from <= d < to`.
pub open spec fn business_days_in(from: int, to: int) -> int
    decreases to - from,
{
    if to <= from {
        0
    } else {
        business_days_in(from, to - 1) + if is_business_day(to - 1) {
            1int
        } else {
            0int
        }
    }
}

/// The signed number of business days from day `day0` up to, and not
/// including, day `day1`; negative when `day1` comes first.
pub open spec fn weekdays_between(day0: int, day1: int) -> int {
    if day0 <= day1 {
        business_days_in(day0, day1)
    } else {
        -business_days_in(day1, day0)
    }
}

/// The signed number of business days between the Berlin dates of two instants.
pub open spec fn business_days_between(secs0: int, secs1: int) -> int {
    weekdays_between(berlin_day(secs0), berlin_day(secs1))
}

/// A span of days holds no more business days than days.
pub proof fn lemma_business_days_in_bounds(from: int, to: int)
    ensures
        0 <= business_days_in(from, to),
        from <= to ==> business_days_in(from, to) <= to - from,
        to <= from ==> business_days_in(from, to) == 0,
    decreases to - from,
{
    if from < to {
        lemma_business_days_in_bounds(from, to - 1);
    }
}

/// Any seven consecutive days hold exactly five business days.
pub proof fn lemma_week_has_five_business_days(from: int)
    ensures
        business_days_in(from, from + 7) == 5,
{
    reveal_with_fuel(business_days_in, 8);
}

/// The count between a day and itself is zero, and exchanging the two days
/// negates the count.
pub proof fn lemma_weekdays_between_antisymmetric(day0: int, day1: int)
    ensures
        weekdays_between(day0, day0) == 0,
        weekdays_between(day0, day1) == -weekdays_between(day1, day0),
{
}

/// The count is no larger than the distance between the two days, and is not
/// negative where the first day is not the later one.
pub proof fn lemma_weekdays_between_bounds(day0: int, day1: int)
    ensures
        day0 <= day1 ==> 0 <= weekdays_between(day0, day1) <= day1 - day0,
        day1 <= day0 ==> day1 - day0 <= weekdays_between(day0, day1) <= 0,
{
    lemma_business_days_in_bounds(day0, day1);
    lemma_business_days_in_bounds(day1, day0);
}

/// No business day lies between an instant and itself, and counting from
/// `secs1` back to `secs0` negates the count from `secs0` to `secs1`.
pub proof fn lemma_business_days_between_antisymmetric(secs0: int, secs1: int)
    ensures
        business_days_between(secs0, secs0) == 0,
        business_days_between(secs0, secs1) == -business_days_between(secs1, secs0),
{
    lemma_weekdays_between_antisymmetric(berlin_day(secs0), berlin_day(secs1));
    lemma_weekdays_between_antisymmetric(berlin_day(secs0), berlin_day(secs0));
}

/// Two instants of one Berlin date are no business day apart, whatever their
/// times of day.
pub proof fn lemma_same_day_counts_nothing(secs0: int, secs1: int)
    ensures
        berlin_day(secs0) == berlin_day(secs1) ==> business_days_between(secs0, secs1) == 0,
{
}

/// Converts the instant with `chrono::DateTime::from_timestamp`, moves it to
/// `Europe/Berlin` with `chrono_tz::Tz::from_utc_datetime` and reads the day
/// number of the local date with `chrono::Datelike::num_days_from_ce`.
///
/// Assumed: the three calls do not panic on an instant that keeps one day
/// from either end of the calendar; the result is a function of the instant
/// alone; and, a time-zone offset being shorter than a day, the local date is
/// one that the calendar can name.
#[verifier::external_body]
fn berlin_day_number(secs: i64) -> (day: i32)
    requires
        valid_timestamp(secs as int),
    ensures
        day as int == berlin_day(secs as int),
        valid_day(day as int),
{
    let utc = chrono::DateTime::from_timestamp(secs, 0).unwrap().naive_utc();
    chrono_tz::Europe::Berlin.from_utc_datetime(&utc).num_days_from_ce()
}

/// Calls `bdays::HolidayCalendar::bdays` of `bdays::calendars::WeekendsOnly`
/// on the two dates, built with `chrono::NaiveDate::from_num_days_from_ce_opt`.
///
/// Assumed: for equal dates the call returns zero; otherwise it counts five
/// for every whole week between the earlier and the later date and one for
/// each remaining day that is not a Saturday or Sunday, the earlier date
/// included and the later excluded, and negates the count when the second
/// date is the earlier one.
#[verifier::external_body]
fn weekends_only_bdays(day0: i32, day1: i32) -> (count: i32)
    requires
        valid_day(day0 as int),
        valid_day(day1 as int),
    ensures
        count as int == weekdays_between(day0 as int, day1 as int),
{
    let d0 = chrono::NaiveDate::from_num_days_from_ce_opt(day0).unwrap();
    let d1 = chrono::NaiveDate::from_num_days_from_ce_opt(day1).unwrap();
    bdays::HolidayCalendar::bdays(&bdays::calendars::WeekendsOnly, d0, d1)
}

/// Whether `secs` is an instant that [`days_diff`] accepts.
pub fn is_valid_timestamp(secs: i64) -> (ok: bool)
    ensures
        ok == valid_timestamp(secs as int),
{
    MIN_TIMESTAMP <= secs && secs <= MAX_TIMESTAMP
}

/// A clock reading as an instant, where it is one that [`days_diff`] accepts.
pub fn timestamp_of(secs: u64) -> (instant: Option<i64>)
    ensures
        instant == if secs <= MAX_TIMESTAMP {
            Some(secs as i64)
        } else {
            None
        },
        instant matches Some(t) ==> valid_timestamp(t as int),
{
    if secs <= MAX_TIMESTAMP as u64 {
        Some(secs as i64)
    } else {
        None
    }
}

/// The signed number of business days from the civil date `day0` up to, and
/// not including, the civil date `day1`.
pub fn business_days_between_dates(day0: i32, day1: i32) -> (count: i32)
    requires
        valid_day(day0 as int),
        valid_day(day1 as int),
    ensures
        count as int == weekdays_between(day0 as int, day1 as int),
        -MAX_GAP <= count <= MAX_GAP,
        day0 <= day1 ==> count >= 0,
{
    proof {
        lemma_weekdays_between_bounds(day0 as int, day1 as int);
    }
    weekends_only_bdays(day0, day1)
}

/// The signed number of business days between two instants, each taken on
/// its civil date in `Europe/Berlin`: the business days from the date of
/// `secs0` up to, and not including, the date of `secs1`. Two instants of one
/// date are zero days apart, whatever their times of day.
pub fn days_diff(secs0: i64, secs1: i64) -> (days: i32)
    requires
        valid_timestamp(secs0 as int),
        valid_timestamp(secs1 as int),
    ensures
        days as int == business_days_between(secs0 as int, secs1 as int),
        -MAX_GAP <= days <= MAX_GAP,
{
    let day0: i32 = berlin_day_number(secs0);
    let day1: i32 = berlin_day_number(secs1);
    business_days_between_dates(day0, day1)
}

/// `std::time::SystemTime`, carried through as an opaque value.
#[verifier::external_type_specification]
#[verifier::external_body]
pub struct ExSystemTime(std::time::SystemTime);

/// `std::time::SystemTimeError`, carried through as an opaque value.
#[verifier::external_type_specification]
#[verifier::external_body]
pub struct ExSystemTimeError(std::time::SystemTimeError);

/// `std::time::SystemTime::now` reads the system clock: nothing is promised
/// of the reading.
pub assume_specification[ std::time::SystemTime::now ]() -> (now: std::time::SystemTime)
;

/// `std::time::SystemTime::duration_since` returns the time elapsed since
/// `earlier`, or an error when `earlier` is the later of the two: nothing is
/// promised of which.
pub assume_specification[ std::time::SystemTime::duration_since ](
    this: &std::time::SystemTime,
    earlier: std::time::SystemTime,
) -> (elapsed: Result<core::time::Duration, std::time::SystemTimeError>)
;

/// `core::time::Duration::as_secs` returns the whole seconds of the duration.
pub assume_specification[ core::time::Duration::as_secs ](duration: &core::time::Duration) -> (
    secs: u64
)
;

/// Hands out the constant `std::time::UNIX_EPOCH`.
#[verifier::external_body]
fn unix_epoch() -> (epoch: std::time::SystemTime) {
    std::time::UNIX_EPOCH
}

/// The system clock's reading in whole seconds since the Unix epoch. A clock
/// that is set before the epoch reads as the epoch itself.
pub fn secs_now() -> (secs: u64) {
    let now = std::time::SystemTime::now();
    let elapsed: Option<u64> = match now.duration_since(unix_epoch()) {
        Ok(elapsed) => Some(elapsed.as_secs()),
        Err(_) => None,
    };
    reading_or_epoch(elapsed)
}

/// The clock reading that the time elapsed since the Unix epoch stands for:
/// the whole seconds that have elapsed, or zero, the epoch itself, where the
/// clock is set before the epoch and nothing has elapsed since.
pub fn reading_or_epoch(elapsed: Option<u64>) -> (secs: u64)
    ensures
        secs == match elapsed {
            Some(whole) => whole,
            None => 0,
        },
{
    match elapsed {
        Some(whole) => whole,
        None => 0,
    }
}

} // verus!
