use shift_ledger::time::{
    business_days_between_dates, days_diff, is_valid_timestamp, reading_or_epoch, secs_now,
    timestamp_of, MAX_DAY, MAX_GAP, MAX_TIMESTAMP, MIN_DAY, MIN_TIMESTAMP,
};

// Monday, 19 December 2022.
const MONDAY: i32 = 738_508;

#[test]
fn days_diff_test() {
    assert_eq!(days_diff(1671404400, 1671490800), 1);
}

#[test]
fn same_day() {
    assert_eq!(days_diff(1671404100, 1671404400), 0);
    assert_eq!(days_diff(1671405000, 1671404400), 0);
}

#[test]
fn an_instant_is_no_day_from_itself() {
    assert_eq!(days_diff(1671436800, 1671436800), 0);
    assert_eq!(days_diff(0, 0), 0);
    assert_eq!(days_diff(MIN_TIMESTAMP, MIN_TIMESTAMP), 0);
}

#[test]
fn exchanging_the_instants_negates_the_count() {
    let pairs: [(i64, i64); 4] = [
        (1671436800, 1671523200),
        (1671436800, 1672041600),
        (0, 1671436800),
        (1671868800, 1671955200),
    ];
    for (a, b) in pairs {
        assert_eq!(days_diff(a, b), -days_diff(b, a));
    }
    assert_eq!(days_diff(1671523200, 1671436800), -1);
}

#[test]
fn a_week_counts_five_days() {
    // Monday 09:00 to the next Monday 09:00, Berlin time.
    assert_eq!(days_diff(1671436800, 1672041600), 5);
    assert_eq!(business_days_between_dates(MONDAY, MONDAY + 7), 5);
    assert_eq!(business_days_between_dates(MONDAY + 3, MONDAY + 10), 5);
    assert_eq!(business_days_between_dates(MONDAY + 5, MONDAY + 12), 5);
}

#[test]
fn the_weekend_counts_nothing() {
    // Saturday to Sunday, and Saturday to Monday.
    assert_eq!(days_diff(1671868800, 1671955200), 0);
    assert_eq!(days_diff(1671868800, 1672041600), 0);
    // Friday to Monday counts the Friday.
    assert_eq!(days_diff(1671782400, 1672041600), 1);
    assert_eq!(business_days_between_dates(MONDAY + 5, MONDAY + 6), 0);
    assert_eq!(business_days_between_dates(MONDAY + 5, MONDAY + 7), 0);
    assert_eq!(business_days_between_dates(MONDAY + 4, MONDAY + 7), 1);
}

#[test]
fn the_day_is_the_day_in_berlin() {
    // Sunday 22:30 UTC is Monday 00:30 in Berlin in summer, and still Sunday in winter.
    assert_eq!(days_diff(1688337000, 1688423400), 1);
    assert_eq!(days_diff(1672612200, 1672698600), 0);
    // The epoch fell on a Thursday.
    assert_eq!(days_diff(0, 86_400), 1);
    assert_eq!(days_diff(0, 3 * 86_400), 2);
}

#[test]
fn counts_between_dates() {
    assert_eq!(business_days_between_dates(MONDAY, MONDAY), 0);
    assert_eq!(business_days_between_dates(MONDAY, MONDAY + 1), 1);
    assert_eq!(business_days_between_dates(MONDAY + 1, MONDAY), -1);
    assert_eq!(business_days_between_dates(MONDAY, MONDAY + 6), 5);
    assert_eq!(business_days_between_dates(MONDAY + 6, MONDAY), -5);
    assert_eq!(business_days_between_dates(MONDAY, MONDAY + 14), 10);
    // Day 1 is a Monday; the days before it count as well.
    assert_eq!(business_days_between_dates(1, 2), 1);
    assert_eq!(business_days_between_dates(-1, 1), 0);
    assert_eq!(business_days_between_dates(-2, 1), 1);
}

#[test]
fn the_whole_calendar_can_be_counted() {
    assert_eq!(business_days_between_dates(MIN_DAY, MAX_DAY), 136_779_662);
    assert_eq!(business_days_between_dates(MAX_DAY, MIN_DAY), -136_779_662);
    assert_eq!(MAX_DAY - MIN_DAY, MAX_GAP);
    assert_eq!(days_diff(MIN_TIMESTAMP, MAX_TIMESTAMP), 136_779_661);
    assert_eq!(days_diff(MAX_TIMESTAMP, MIN_TIMESTAMP), -136_779_661);
}

#[test]
fn valid_timestamps_are_a_range() {
    assert!(is_valid_timestamp(0));
    assert!(is_valid_timestamp(1671404400));
    assert!(is_valid_timestamp(MIN_TIMESTAMP));
    assert!(is_valid_timestamp(MAX_TIMESTAMP));
    assert!(!is_valid_timestamp(MIN_TIMESTAMP - 1));
    assert!(!is_valid_timestamp(MAX_TIMESTAMP + 1));
    assert!(!is_valid_timestamp(i64::MAX));
    assert!(!is_valid_timestamp(i64::MIN));
}

#[test]
fn clock_readings_become_instants() {
    assert_eq!(timestamp_of(0), Some(0));
    assert_eq!(timestamp_of(1671404400), Some(1671404400));
    assert_eq!(timestamp_of(MAX_TIMESTAMP as u64), Some(MAX_TIMESTAMP));
    assert_eq!(timestamp_of(MAX_TIMESTAMP as u64 + 1), None);
    assert_eq!(timestamp_of(u64::MAX), None);
}

#[test]
fn the_clock_reads_the_present() {
    let now: u64 = secs_now();
    // Later than 1 January 2020, and an instant of the calendar.
    assert!(now > 1_577_836_800);
    assert!(timestamp_of(now).is_some());
}

#[test]
fn a_clock_before_the_epoch_reads_as_the_epoch() {
    assert_eq!(reading_or_epoch(None), 0);
    assert_eq!(reading_or_epoch(Some(0)), 0);
    assert_eq!(reading_or_epoch(Some(1671404400)), 1671404400);
    assert_eq!(reading_or_epoch(Some(u64::MAX)), u64::MAX);
}
