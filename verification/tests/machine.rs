use shift_ledger::directory::{MembershipUpdate, UserGroup};
use shift_ledger::punch_clock::{LedgerError, PunchClock};
use shift_ledger::schedule::Schedule;
use shift_ledger::sync::{
    plan_ledger_writes, tally, CycleReport, FailureReason, LedgerRead, SkipReason, SyncAction,
    SyncEvent, TeamOutcome, TeamSync,
};
use shift_ledger::time::MAX_TIMESTAMP;

// 09:00 in Berlin on days of the week that began on 19 December 2022.
const MON: i64 = 1671436800;
const WED: i64 = 1671609600;
const FRI: i64 = 1671782400;

fn strings(items: &[&str]) -> Vec<String> {
    items.iter().map(|i| i.to_string()).collect()
}

fn shift(start: i64, assignees: &[&str]) -> Schedule {
    Schedule {
        hero: "batman".to_string(),
        shift_start_time: start,
        assignees: strings(assignees),
        repeat_every_days: None,
    }
}

fn row(member: &str, days: u64, first_punch: i64, last_punch: i64) -> PunchClock {
    PunchClock {
        hero: "batman".to_string(),
        member: member.to_string(),
        days,
        first_punch,
        last_punch,
    }
}

fn groups() -> Option<Vec<UserGroup>> {
    Some(vec![
        UserGroup { id: "G1".to_string(), handle: "batman".to_string() },
        UserGroup { id: "G2".to_string(), handle: "robin".to_string() },
    ])
}

fn finish(outcome: TeamOutcome) -> (TeamSync, SyncAction) {
    (TeamSync::Done, SyncAction::Finish(outcome))
}

fn begun() -> TeamSync {
    TeamSync::begin("batman".to_string(), FRI as u64, &groups()).0
}

fn awaiting_identities(assignees: &[&str]) -> TeamSync {
    TeamSync::AwaitingIdentities { usergroup_id: "G1".to_string(), current: shift(WED, assignees) }
}

#[test]
fn a_cycle_begins_by_fetching_two_windows() {
    let (state, action) = TeamSync::begin("batman".to_string(), FRI as u64, &groups());
    assert_eq!(
        state,
        TeamSync::AwaitingWindows {
            hero: "batman".to_string(),
            now: FRI,
            usergroup_id: "G1".to_string()
        }
    );
    assert_eq!(
        action,
        SyncAction::FetchWindows { hero: "batman".to_string(), at: FRI as u64, limit: 2 }
    );
}

#[test]
fn a_team_without_a_group_is_skipped() {
    let started = TeamSync::begin("joker".to_string(), FRI as u64, &groups());
    assert_eq!(started, finish(TeamOutcome::Skipped(SkipReason::NoUserGroup)));
    // The skipped team writes nothing, whatever it is handed afterwards.
    let (state, _) = started;
    let after = state.step(SyncEvent::Windows(Some(vec![shift(WED, &["a"]), shift(MON, &["b"])])));
    assert_eq!(after, finish(TeamOutcome::Failed(FailureReason::UnexpectedEvent)));
    // Another team of the same cycle is not held up.
    let (_, action) = TeamSync::begin("robin".to_string(), FRI as u64, &groups());
    assert_eq!(
        action,
        SyncAction::FetchWindows { hero: "robin".to_string(), at: FRI as u64, limit: 2 }
    );
}

#[test]
fn without_a_listing_the_cycle_fails() {
    assert_eq!(
        TeamSync::begin("batman".to_string(), FRI as u64, &None),
        finish(TeamOutcome::Failed(FailureReason::DirectoryUnavailable))
    );
    assert_eq!(
        TeamSync::begin("batman".to_string(), FRI as u64, &Some(vec![])),
        finish(TeamOutcome::Skipped(SkipReason::NoUserGroup))
    );
}

#[test]
fn a_clock_outside_the_calendar_is_a_failure() {
    assert_eq!(
        TeamSync::begin("batman".to_string(), MAX_TIMESTAMP as u64 + 1, &groups()),
        finish(TeamOutcome::Failed(FailureReason::InvalidTimestamp))
    );
    assert_eq!(
        TeamSync::begin("joker".to_string(), u64::MAX, &groups()),
        finish(TeamOutcome::Skipped(SkipReason::NoUserGroup))
    );
}

#[test]
fn one_window_skips_the_ledger() {
    let next = begun().step(SyncEvent::Windows(Some(vec![shift(WED, &["a", "b"])])));
    assert_eq!(
        next,
        (
            awaiting_identities(&["a", "b"]),
            SyncAction::ResolveIdentities { emails: strings(&["a", "b"]) }
        )
    );
}

#[test]
fn two_windows_read_the_ledger_of_the_previous_one() {
    let next =
        begun().step(SyncEvent::Windows(Some(vec![shift(WED, &["a"]), shift(MON, &["b", "c"])])));
    assert_eq!(
        next,
        (
            TeamSync::AwaitingLedgerRows {
                now: FRI,
                usergroup_id: "G1".to_string(),
                current: shift(WED, &["a"]),
                previous: shift(MON, &["b", "c"]),
            },
            SyncAction::ReadLedger { hero: "batman".to_string(), members: strings(&["b", "c"]) }
        )
    );
}

#[test]
fn no_window_is_skipped() {
    assert_eq!(
        begun().step(SyncEvent::Windows(Some(vec![]))),
        finish(TeamOutcome::Skipped(SkipReason::NoCurrentWindow))
    );
}

#[test]
fn shifts_that_were_not_asked_for_end_the_cycle() {
    let malformed = finish(TeamOutcome::Failed(FailureReason::MalformedWindows));
    // More than the two that were asked for.
    assert_eq!(
        begun().step(SyncEvent::Windows(Some(vec![
            shift(FRI, &["a"]),
            shift(WED, &["a"]),
            shift(MON, &["a"])
        ]))),
        malformed
    );
    // The earlier shift first.
    assert_eq!(
        begun().step(SyncEvent::Windows(Some(vec![shift(MON, &["a"]), shift(WED, &["a"])]))),
        malformed
    );
    // A shift that begins after the present.
    assert_eq!(begun().step(SyncEvent::Windows(Some(vec![shift(FRI + 1, &["a"])]))), malformed);
    // A shift of another team.
    let mut other = shift(WED, &["a"]);
    other.hero = "robin".to_string();
    assert_eq!(begun().step(SyncEvent::Windows(Some(vec![other]))), malformed);
}

#[test]
fn a_failing_schedule_store_ends_the_cycle() {
    assert_eq!(
        begun().step(SyncEvent::Windows(None)),
        finish(TeamOutcome::Failed(FailureReason::WindowsUnavailable))
    );
}

#[test]
fn ledger_rows_are_advanced_and_written() {
    let state = TeamSync::AwaitingLedgerRows {
        now: FRI,
        usergroup_id: "G1".to_string(),
        current: shift(WED, &["a"]),
        previous: shift(MON, &["b", "c", "d", "e"]),
    };
    let reads = vec![
        LedgerRead::Row(None),
        LedgerRead::Row(Some(row("c", 5, 1000, 2000))),
        LedgerRead::Unavailable,
        LedgerRead::Row(Some(row("e", 5, 1000, MON))),
    ];
    assert_eq!(
        state.step(SyncEvent::LedgerRows(reads)),
        (
            TeamSync::AwaitingLedgerWrite {
                usergroup_id: "G1".to_string(),
                current: shift(WED, &["a"])
            },
            SyncAction::WriteLedger { rows: vec![row("b", 4, MON, MON), row("c", 9, 1000, MON)] }
        )
    );
}

#[test]
fn counted_rows_are_not_written_again() {
    let state = TeamSync::AwaitingLedgerRows {
        now: FRI,
        usergroup_id: "G1".to_string(),
        current: shift(WED, &["a"]),
        previous: shift(MON, &["b"]),
    };
    assert_eq!(
        state.step(SyncEvent::LedgerRows(vec![LedgerRead::Row(Some(row("b", 5, 1000, MON)))])),
        (awaiting_identities(&["a"]), SyncAction::ResolveIdentities { emails: strings(&["a"]) })
    );
}

#[test]
fn a_ledger_error_ends_the_cycle() {
    let state = TeamSync::AwaitingLedgerRows {
        now: MON,
        usergroup_id: "G1".to_string(),
        current: shift(FRI, &["a"]),
        previous: shift(WED, &["b"]),
    };
    assert_eq!(
        state.step(SyncEvent::LedgerRows(vec![LedgerRead::Row(None)])),
        finish(TeamOutcome::Failed(FailureReason::Ledger(LedgerError::BoundaryAfterNow)))
    );
}

#[test]
fn a_shift_start_outside_the_calendar_ends_the_cycle() {
    let state = TeamSync::AwaitingLedgerRows {
        now: FRI,
        usergroup_id: "G1".to_string(),
        current: shift(WED, &["a"]),
        previous: shift(i64::MIN, &["b"]),
    };
    assert_eq!(
        state.step(SyncEvent::LedgerRows(vec![LedgerRead::Row(None)])),
        finish(TeamOutcome::Failed(FailureReason::InvalidTimestamp))
    );
}

#[test]
fn the_wrong_number_of_rows_ends_the_cycle() {
    let state = TeamSync::AwaitingLedgerRows {
        now: FRI,
        usergroup_id: "G1".to_string(),
        current: shift(WED, &["a"]),
        previous: shift(MON, &["b", "c"]),
    };
    assert_eq!(
        state.step(SyncEvent::LedgerRows(vec![LedgerRead::Row(None)])),
        finish(TeamOutcome::Failed(FailureReason::UnexpectedEvent))
    );
}

#[test]
fn after_the_ledger_the_identities_are_resolved() {
    let state = TeamSync::AwaitingLedgerWrite {
        usergroup_id: "G1".to_string(),
        current: shift(WED, &["a", "b"]),
    };
    assert_eq!(
        state.step(SyncEvent::LedgerWritten),
        (
            awaiting_identities(&["a", "b"]),
            SyncAction::ResolveIdentities { emails: strings(&["a", "b"]) }
        )
    );
}

#[test]
fn a_failed_lookup_leaves_one_member_out() {
    let next = awaiting_identities(&["a", "b"])
        .step(SyncEvent::Identities(vec![Some("U1".to_string()), None]));
    assert_eq!(
        next,
        (
            TeamSync::AwaitingPush,
            SyncAction::PushMembership {
                update: MembershipUpdate {
                    usergroup_id: "G1".to_string(),
                    user_ids: strings(&["U1"])
                },
                unresolved: strings(&["b"]),
            }
        )
    );
}

#[test]
fn all_resolved_identities_are_pushed() {
    let next = awaiting_identities(&["a", "b"])
        .step(SyncEvent::Identities(vec![Some("U1".to_string()), Some("U2".to_string())]));
    assert_eq!(
        next,
        (
            TeamSync::AwaitingPush,
            SyncAction::PushMembership {
                update: MembershipUpdate {
                    usergroup_id: "G1".to_string(),
                    user_ids: strings(&["U1", "U2"])
                },
                unresolved: strings(&[]),
            }
        )
    );
}

#[test]
fn the_wrong_number_of_lookups_ends_the_cycle() {
    assert_eq!(
        awaiting_identities(&["a", "b"]).step(SyncEvent::Identities(vec![None])),
        finish(TeamOutcome::Failed(FailureReason::UnexpectedEvent))
    );
}

#[test]
fn the_push_ends_the_cycle() {
    assert_eq!(TeamSync::AwaitingPush.step(SyncEvent::Pushed(true)), finish(TeamOutcome::Updated));
    assert_eq!(
        TeamSync::AwaitingPush.step(SyncEvent::Pushed(false)),
        finish(TeamOutcome::Failed(FailureReason::PushRejected))
    );
}

#[test]
fn an_answer_that_was_not_asked_for_ends_the_cycle() {
    let unexpected = finish(TeamOutcome::Failed(FailureReason::UnexpectedEvent));
    assert_eq!(begun().step(SyncEvent::Pushed(true)), unexpected);
    assert_eq!(begun().step(SyncEvent::LedgerWritten), unexpected);
    assert_eq!(awaiting_identities(&["a"]).step(SyncEvent::Windows(None)), unexpected);
    assert_eq!(TeamSync::AwaitingPush.step(SyncEvent::Identities(vec![])), unexpected);
    assert_eq!(TeamSync::Done.step(SyncEvent::Pushed(true)), unexpected);
    assert_eq!(TeamSync::Done.step(SyncEvent::LedgerRows(vec![])), unexpected);
}

#[test]
fn a_whole_cycle() {
    let (state, _) = TeamSync::begin("batman".to_string(), FRI as u64, &groups());
    let (state, action) =
        state.step(SyncEvent::Windows(Some(vec![shift(WED, &["a", "b"]), shift(MON, &["c"])])));
    assert_eq!(
        action,
        SyncAction::ReadLedger { hero: "batman".to_string(), members: strings(&["c"]) }
    );
    let (state, action) = state.step(SyncEvent::LedgerRows(vec![LedgerRead::Row(None)]));
    assert_eq!(action, SyncAction::WriteLedger { rows: vec![row("c", 4, MON, MON)] });
    let (state, action) = state.step(SyncEvent::LedgerWritten);
    assert_eq!(action, SyncAction::ResolveIdentities { emails: strings(&["a", "b"]) });
    let (state, action) =
        state.step(SyncEvent::Identities(vec![None, Some("U2".to_string())]));
    assert_eq!(
        action,
        SyncAction::PushMembership {
            update: MembershipUpdate { usergroup_id: "G1".to_string(), user_ids: strings(&["U2"]) },
            unresolved: strings(&["a"]),
        }
    );
    assert_eq!(state.step(SyncEvent::Pushed(true)), finish(TeamOutcome::Updated));
}

#[test]
fn the_first_failing_member_fails_the_plan() {
    let previous = shift(MON, &["a", "b", "c"]);
    let reads = vec![
        LedgerRead::Row(None),
        LedgerRead::Row(Some(row("b", u64::MAX, 1000, 2000))),
        LedgerRead::Row(None),
    ];
    assert_eq!(plan_ledger_writes(&previous, FRI, &reads), Err(LedgerError::DaysOverflow));
    let reads = vec![
        LedgerRead::Row(None),
        LedgerRead::Unavailable,
        LedgerRead::Row(Some(row("c", 1, 1000, MON))),
    ];
    assert_eq!(plan_ledger_writes(&previous, FRI, &reads), Ok(vec![row("a", 4, MON, MON)]));
    assert_eq!(plan_ledger_writes(&shift(MON, &[]), FRI, &Vec::new()), Ok(vec![]));
}

#[test]
fn every_team_is_counted_once() {
    assert_eq!(tally(&vec![]), CycleReport { updated: 0, skipped: 0, failed: 0 });
    let outcomes = vec![
        TeamOutcome::Updated,
        TeamOutcome::Failed(FailureReason::PushRejected),
        TeamOutcome::Skipped(SkipReason::NoUserGroup),
        TeamOutcome::Updated,
        TeamOutcome::Skipped(SkipReason::NoCurrentWindow),
        TeamOutcome::Updated,
    ];
    let report = tally(&outcomes);
    assert_eq!(report, CycleReport { updated: 3, skipped: 2, failed: 1 });
    assert_eq!(report.updated + report.skipped + report.failed, outcomes.len());
}
