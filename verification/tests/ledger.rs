use shift_ledger::punch_clock::{
    advance_ledger, advance_row, credit_member, find_member, recalculate_punch_time, LedgerError,
    PunchClock, MAX_HISTORY_LEN,
};
use shift_ledger::schedule::Schedule;
use shift_ledger::time::days_diff;

// 09:00 in Berlin on the days of the week that began on 19 December 2022.
const MON: i64 = 1671436800;
const TUE: i64 = 1671523200;
const WED: i64 = 1671609600;
const THU: i64 = 1671696000;
const FRI: i64 = 1671782400;
const SAT: i64 = 1671868800;
const SUN: i64 = 1671955200;
const NEXT_MON: i64 = 1672041600;

fn shift(start: i64, assignees: &[&str]) -> Schedule {
    Schedule {
        hero: "batman".to_string(),
        shift_start_time: start,
        assignees: assignees.iter().map(|a| a.to_string()).collect(),
        repeat_every_days: None,
    }
}

fn row(member: &str, days: u64, first_punch: i64, last_punch: i64) -> PunchClock {
    PunchClock {
        hero: "batman".to_string(),
        member: member.to_string(),
        days,
        first_punch,
        last_punch,
    }
}

fn recompute(history: Vec<Schedule>) -> Vec<PunchClock> {
    recalculate_punch_time("batman".to_string(), history)
}

#[test]
fn three_shifts_two_members() {
    let rows = recompute(vec![shift(MON, &["a", "b"]), shift(TUE, &["b"]), shift(WED, &["a"])]);
    assert_eq!(rows, vec![row("a", 1, MON, MON), row("b", 2, MON, TUE)]);
}

#[test]
fn no_boundary_no_rows() {
    assert_eq!(recompute(vec![]), vec![]);
    assert_eq!(recompute(vec![shift(MON, &["a", "b"])]), vec![]);
}

#[test]
fn recomputing_twice_gives_the_same_rows() {
    let history = || {
        vec![
            shift(MON, &["c", "a"]),
            shift(WED, &["b", "a"]),
            shift(FRI, &["c"]),
            shift(NEXT_MON, &["a"]),
        ]
    };
    let first = recompute(history());
    let second = recompute(history());
    assert_eq!(first, second);
    assert_eq!(first, vec![row("c", 3, MON, FRI), row("a", 4, MON, WED), row("b", 2, WED, WED)]);
}

#[test]
fn a_member_total_is_the_sum_of_the_gaps() {
    let history = vec![
        shift(MON, &["a", "b"]),
        shift(TUE, &["b"]),
        shift(THU, &["a"]),
        shift(NEXT_MON, &["b"]),
    ];
    let mut expected_a: i32 = 0;
    let mut expected_b: i32 = 0;
    for pair in history.windows(2) {
        let gap: i32 = days_diff(pair[0].shift_start_time, pair[1].shift_start_time);
        if pair[0].assignees.contains(&"a".to_string()) {
            expected_a += gap;
        }
        if pair[0].assignees.contains(&"b".to_string()) {
            expected_b += gap;
        }
    }
    let rows = recompute(history);
    let total = |member: &str| -> u64 {
        rows.iter().filter(|r| r.member == member).map(|r| r.days).sum()
    };
    assert_eq!(total("a"), expected_a as u64);
    assert_eq!(total("b"), expected_b as u64);
    assert_eq!(total("a"), 3);
    assert_eq!(total("b"), 3);
    assert_eq!(rows.len(), 2);
}

#[test]
fn a_weekend_shift_earns_nothing() {
    assert_eq!(recompute(vec![shift(SAT, &["a"]), shift(SUN, &["a"])]), vec![]);
    assert_eq!(
        recompute(vec![shift(FRI, &["a"]), shift(SAT, &["b"]), shift(NEXT_MON, &["a"])]),
        vec![row("a", 1, FRI, FRI)]
    );
}

#[test]
fn shifts_of_one_day_earn_nothing() {
    assert_eq!(recompute(vec![shift(MON, &["a"]), shift(MON + 3600, &["b"])]), vec![]);
}

#[test]
fn a_backward_step_earns_nothing() {
    assert_eq!(recompute(vec![shift(TUE, &["a"]), shift(MON, &["a"])]), vec![]);
    assert_eq!(
        recompute(vec![shift(TUE, &["a"]), shift(MON, &["a"]), shift(WED, &["b"])]),
        vec![row("a", 2, MON, MON)]
    );
}

#[test]
fn rows_carry_the_team_they_were_computed_for() {
    let rows = recalculate_punch_time(
        "robin".to_string(),
        vec![shift(MON, &["a"]), shift(TUE, &["a"])],
    );
    assert_eq!(rows.len(), 1);
    assert_eq!(rows[0].hero, "robin");
    assert_eq!(rows[0].days, 1);
}

#[test]
fn the_history_limit_is_generous() {
    assert_eq!(MAX_HISTORY_LEN, 4_294_967_295);
}

#[test]
fn finds_the_first_row_of_a_member() {
    let rows = vec![row("a", 1, MON, MON), row("b", 2, MON, TUE), row("a", 7, TUE, TUE)];
    assert_eq!(find_member(&rows, &"a".to_string()), 0);
    assert_eq!(find_member(&rows, &"b".to_string()), 1);
    assert_eq!(find_member(&rows, &"c".to_string()), 3);
    assert_eq!(find_member(&Vec::new(), &"a".to_string()), 0);
}

#[test]
fn a_credit_adds_to_the_row_or_opens_one() {
    let hero = "batman".to_string();
    let mut rows = vec![row("a", 1, MON, MON)];
    credit_member(&mut rows, &hero, &"a".to_string(), 2, WED);
    assert_eq!(rows, vec![row("a", 3, MON, WED)]);
    credit_member(&mut rows, &hero, &"b".to_string(), 2, WED);
    assert_eq!(rows, vec![row("a", 3, MON, WED), row("b", 2, WED, WED)]);
}

#[test]
fn advancing_without_a_row_opens_one() {
    let written = advance_row(&"batman".to_string(), &"a".to_string(), MON, 3, &None);
    assert_eq!(written, Some(row("a", 3, MON, MON)));
}

#[test]
fn advancing_a_row_adds_the_days() {
    let existing = Some(row("a", 4, MON, TUE));
    let written = advance_row(&"batman".to_string(), &"a".to_string(), THU, 2, &existing);
    assert_eq!(written, Some(row("a", 6, MON, THU)));
}

#[test]
fn advancing_to_a_counted_boundary_writes_nothing() {
    let existing = Some(row("a", 4, MON, TUE));
    assert_eq!(advance_row(&"batman".to_string(), &"a".to_string(), TUE, 2, &existing), None);
    let full = Some(row("a", u64::MAX, MON, TUE));
    assert_eq!(advance_row(&"batman".to_string(), &"a".to_string(), TUE, 2, &full), None);
}

#[test]
fn the_ledger_advances_by_the_days_until_now() {
    let hero = "batman".to_string();
    let member = "a".to_string();
    assert_eq!(advance_ledger(&hero, &member, MON, THU, &None), Ok(Some(row("a", 3, MON, MON))));
    assert_eq!(advance_ledger(&hero, &member, MON, MON + 60, &None), Ok(Some(row("a", 0, MON, MON))));
    let existing = Some(row("a", 10, 1000, MON));
    assert_eq!(
        advance_ledger(&hero, &member, WED, NEXT_MON, &existing),
        Ok(Some(row("a", 13, 1000, WED)))
    );
}

#[test]
fn advancing_twice_writes_once() {
    let hero = "batman".to_string();
    let member = "a".to_string();
    let existing = Some(row("a", 10, 1000, MON));
    let first = advance_ledger(&hero, &member, WED, FRI, &existing).unwrap();
    assert_eq!(first, Some(row("a", 12, 1000, WED)));
    assert_eq!(advance_ledger(&hero, &member, WED, FRI, &first), Ok(None));
    assert_eq!(advance_ledger(&hero, &member, WED, NEXT_MON, &first), Ok(None));
    let opened = advance_ledger(&hero, &member, WED, FRI, &None).unwrap();
    assert_eq!(advance_ledger(&hero, &member, WED, NEXT_MON, &opened), Ok(None));
}

#[test]
fn a_boundary_after_now_is_an_error() {
    let hero = "batman".to_string();
    let member = "a".to_string();
    assert_eq!(advance_ledger(&hero, &member, WED, MON, &None), Err(LedgerError::BoundaryAfterNow));
    let existing = Some(row("a", 10, 1000, MON));
    assert_eq!(
        advance_ledger(&hero, &member, WED, TUE, &existing),
        Err(LedgerError::BoundaryAfterNow)
    );
    // A boundary that the row has counted is left alone, wherever it lies.
    let counted = Some(row("a", 10, 1000, WED));
    assert_eq!(advance_ledger(&hero, &member, WED, TUE, &counted), Ok(None));
}

#[test]
fn a_full_row_is_an_error() {
    let hero = "batman".to_string();
    let member = "a".to_string();
    let full = Some(row("a", u64::MAX, 1000, MON));
    assert_eq!(advance_ledger(&hero, &member, WED, FRI, &full), Err(LedgerError::DaysOverflow));
    assert_eq!(
        advance_ledger(&hero, &member, WED, WED + 60, &full),
        Ok(Some(row("a", u64::MAX, 1000, WED)))
    );
    let nearly = Some(row("a", u64::MAX - 2, 1000, MON));
    assert_eq!(
        advance_ledger(&hero, &member, WED, FRI, &nearly),
        Ok(Some(row("a", u64::MAX, 1000, WED)))
    );
}

#[test]
fn ledger_errors_have_messages() {
    assert_eq!(
        LedgerError::BoundaryAfterNow.message(),
        "The shift boundary lies after the present day."
    );
    assert_eq!(LedgerError::DaysOverflow.message(), "The punch clock cannot hold that many days.");
}

#[test]
fn rows_can_be_copied() {
    let r = row("a", 4, MON, TUE);
    assert_eq!(r.clone(), r);
}
