//! One team's synchronisation cycle, as a machine that decides and never
//! acts: it is handed what a collaborator answered and says what to ask next.
//!
//! A cycle runs through these steps: find the team's group in the directory
//! listing; fetch the team's two most recent shifts; advance the ledger rows
//! of those who were on the previous shift; resolve the assignees of the
//! current shift to directory identities; push the resolved identities as the
//! group's members. A team without a group or without a current shift is
//! skipped before anything is written. A failure ends the cycle of the team
//! it concerns and of no other: each team has a machine of its own, and
//! [`tally`] counts how they ended.

use crate::directory::{
    find_usergroup_id, group_id_of, groups_view, lookups_view, resolved, resolved_identities,
    unresolved, unresolved_assignees, MembershipUpdate, MembershipUpdateView, UserGroup,
    UserGroupView,
};
use crate::punch_clock::{
    advance_ledger, advance_outcome, rows_view, row_view, LedgerError, PunchClock, PunchClockView,
};
use crate::schedule::{
    check_recent_answer, clone_names, history_view, is_recent_answer, names, windows_of,
    LastTwoSchedules, Schedule, ScheduleView,
};
use crate::time::{
    business_days_between, is_valid_timestamp, timestamp_of, valid_timestamp, MAX_TIMESTAMP,
};
use vstd::prelude::*;

verus! {

/// What the ledger store answered when asked for a member's row.
#[derive(Debug, PartialEq, Eq)]
pub enum LedgerRead {
    /// The store could not be read.
    Unavailable,
    /// The member's row, or `None` where the member has none yet.
    Row(Option<PunchClock>),
}

/// What a [`LedgerRead`] holds, as mathematical values.
pub enum LedgerReadView {
    Unavailable,
    Row(Option<PunchClockView>),
}

impl View for LedgerRead {
    type V = LedgerReadView;

    open spec fn view(&self) -> LedgerReadView {
        match self {
            LedgerRead::Unavailable => LedgerReadView::Unavailable,
            LedgerRead::Row(row) => LedgerReadView::Row(row_view(*row)),
        }
    }
}

/// The views of a sequence of reads.
pub open spec fn reads_view(reads: Seq<LedgerRead>) -> Seq<LedgerReadView> {
    reads.map_values(|r: LedgerRead| r@)
}

/// The view of a plan of ledger writes.
pub open spec fn plan_view(plan: Result<Vec<PunchClock>, LedgerError>) -> Result<
    Seq<PunchClockView>,
    LedgerError,
> {
    match plan {
        Ok(rows) => Ok(rows_view(rows@)),
        Err(e) => Err(e),
    }
}

/// The rows to write when the members of a shift that began at `boundary`
/// have left it and `elapsed` business days have passed since. The members
/// are taken in order, each with the read of its row: a row that could not be
/// read is left alone, a row that has counted the boundary is not written
/// again, and every other member's advanced row is written. The first member
/// whose row cannot be advanced makes the whole plan fail with that error.
pub open spec fn planned_writes(
    hero: Seq<char>,
    members: Seq<Seq<char>>,
    boundary: int,
    elapsed: int,
    reads: Seq<LedgerReadView>,
) -> Result<Seq<PunchClockView>, LedgerError>
    decreases members.len(),
{
    if members.len() == 0 || reads.len() != members.len() {
        Ok(Seq::empty())
    } else {
        match planned_writes(hero, members.drop_last(), boundary, elapsed, reads.drop_last()) {
            Err(e) => Err(e),
            Ok(rows) => match reads.last() {
                LedgerReadView::Unavailable => Ok(rows),
                LedgerReadView::Row(existing) => match advance_outcome(
                    hero,
                    members.last(),
                    boundary,
                    elapsed,
                    existing,
                ) {
                    Ok(Some(row)) => Ok(rows.push(row)),
                    Ok(None) => Ok(rows),
                    Err(e) => Err(e),
                },
            },
        }
    }
}

/// A plan that has failed for the first `from` members fails alike for any
/// more of them.
pub proof fn lemma_plan_failure_persists(
    hero: Seq<char>,
    members: Seq<Seq<char>>,
    boundary: int,
    elapsed: int,
    reads: Seq<LedgerReadView>,
    from: int,
    to: int,
)
    requires
        0 <= from <= to <= members.len(),
        members.len() == reads.len(),
        planned_writes(hero, members.take(from), boundary, elapsed, reads.take(from)) is Err,
    ensures
        planned_writes(hero, members.take(to), boundary, elapsed, reads.take(to)) == planned_writes(
            hero,
            members.take(from),
            boundary,
            elapsed,
            reads.take(from),
        ),
    decreases to - from,
{
    if from < to {
        lemma_plan_failure_persists(hero, members, boundary, elapsed, reads, from, to - 1);
        assert(members.take(to).drop_last() =~= members.take(to - 1));
        assert(reads.take(to).drop_last() =~= reads.take(to - 1));
    }
}

/// Plans the ledger writes for the members of `previous`, the shift that
/// ended when the current one began: one [`advance_ledger`] per member, each
/// with the row that the store returned for it.
pub fn plan_ledger_writes(previous: &Schedule, now: i64, reads: &Vec<LedgerRead>) -> (plan: Result<
    Vec<PunchClock>,
    LedgerError,
>)
    requires
        valid_timestamp(previous.shift_start_time as int),
        valid_timestamp(now as int),
        reads.len() == previous.assignees.len(),
    ensures
        plan_view(plan) == planned_writes(
            previous@.hero,
            previous@.assignees,
            previous@.shift_start_time,
            business_days_between(previous@.shift_start_time, now as int),
            reads_view(reads@),
        ),
{
    let ghost members = names(previous.assignees@);
    let ghost answers = reads_view(reads@);
    let ghost elapsed = business_days_between(previous.shift_start_time as int, now as int);
    let mut rows: Vec<PunchClock> = Vec::new();
    let mut i: usize = 0;
    assert(members.take(0) =~= Seq::empty());
    assert(rows_view(rows@) =~= Seq::empty());
    while i < reads.len()
        invariant
            i <= reads.len(),
            reads.len() == previous.assignees.len(),
            valid_timestamp(previous.shift_start_time as int),
            valid_timestamp(now as int),
            members == names(previous.assignees@),
            answers == reads_view(reads@),
            elapsed == business_days_between(previous.shift_start_time as int, now as int),
            planned_writes(
                previous.hero@,
                members.take(i as int),
                previous.shift_start_time as int,
                elapsed,
                answers.take(i as int),
            ) == Ok::<Seq<PunchClockView>, LedgerError>(rows_view(rows@)),
        decreases reads.len() - i,
    {
        proof {
            assert(members.take(i + 1).drop_last() =~= members.take(i as int));
            assert(answers.take(i + 1).drop_last() =~= answers.take(i as int));
            assert(members.take(i + 1).last() == previous.assignees@[i as int]@);
            assert(answers.take(i + 1).last() == reads@[i as int]@);
        }
        match &reads[i] {
            LedgerRead::Unavailable => {},
            LedgerRead::Row(existing) => {
                match advance_ledger(
                    &previous.hero,
                    &previous.assignees[i],
                    previous.shift_start_time,
                    now,
                    existing,
                ) {
                    Ok(Some(row)) => {
                        let ghost before = rows_view(rows@);
                        rows.push(row);
                        assert(rows_view(rows@) =~= before.push(row@));
                    },
                    Ok(None) => {},
                    Err(e) => {
                        proof {
                            lemma_plan_failure_persists(
                                previous.hero@,
                                members,
                                previous.shift_start_time as int,
                                elapsed,
                                answers,
                                i + 1,
                                members.len() as int,
                            );
                            assert(members.take(members.len() as int) =~= members);
                            assert(answers.take(answers.len() as int) =~= answers);
                        }
                        return Err(e);
                    },
                }
            },
        }
        i += 1;
    }
    proof {
        assert(members.take(members.len() as int) =~= members);
        assert(answers.take(answers.len() as int) =~= answers);
    }
    Ok(rows)
}

/// Why a team was passed over with nothing written.
#[derive(Debug, Clone, Copy, PartialEq, Eq, Structural)]
pub enum SkipReason {
    /// No group of the directory listing has the team's name as its handle.
    NoUserGroup,
    /// The team has no shift at or before the present.
    NoCurrentWindow,
}

/// Why the cycle of a team ended early.
#[derive(Debug, Clone, Copy, PartialEq, Eq, Structural)]
pub enum FailureReason {
    /// The directory did not list its groups.
    DirectoryUnavailable,
    /// The schedule store did not answer.
    WindowsUnavailable,
    /// The schedule store answered with shifts that were not asked for.
    MalformedWindows,
    /// The clock or a shift start is not an instant of the calendar.
    InvalidTimestamp,
    /// A ledger row could not be advanced.
    Ledger(LedgerError),
    /// The directory did not accept the members.
    PushRejected,
    /// The machine was handed an answer to a question it had not asked.
    UnexpectedEvent,
}

/// How the cycle of a team ended.
#[derive(Debug, Clone, Copy, PartialEq, Eq, Structural)]
pub enum TeamOutcome {
    /// The group's members were set.
    Updated,
    /// The team was passed over; nothing was written.
    Skipped(SkipReason),
    /// The cycle ended early.
    Failed(FailureReason),
}

/// Where the cycle of a team stands: what it waits for, with all that the
/// remaining steps need.
#[derive(Debug, PartialEq, Eq)]
pub enum TeamSync {
    AwaitingWindows { hero: String, now: i64, usergroup_id: String },
    AwaitingLedgerRows { now: i64, usergroup_id: String, current: Schedule, previous: Schedule },
    AwaitingLedgerWrite { usergroup_id: String, current: Schedule },
    AwaitingIdentities { usergroup_id: String, current: Schedule },
    AwaitingPush,
    Done,
}

/// What a [`TeamSync`] holds, as mathematical values.
pub enum TeamSyncView {
    AwaitingWindows { hero: Seq<char>, now: int, usergroup_id: Seq<char> },
    AwaitingLedgerRows {
        now: int,
        usergroup_id: Seq<char>,
        current: ScheduleView,
        previous: ScheduleView,
    },
    AwaitingLedgerWrite { usergroup_id: Seq<char>, current: ScheduleView },
    AwaitingIdentities { usergroup_id: Seq<char>, current: ScheduleView },
    AwaitingPush,
    Done,
}

impl View for TeamSync {
    type V = TeamSyncView;

    open spec fn view(&self) -> TeamSyncView {
        match self {
            TeamSync::AwaitingWindows { hero, now, usergroup_id } => TeamSyncView::AwaitingWindows {
                hero: hero@,
                now: *now as int,
                usergroup_id: usergroup_id@,
            },
            TeamSync::AwaitingLedgerRows {
                now,
                usergroup_id,
                current,
                previous,
            } => TeamSyncView::AwaitingLedgerRows {
                now: *now as int,
                usergroup_id: usergroup_id@,
                current: current@,
                previous: previous@,
            },
            TeamSync::AwaitingLedgerWrite {
                usergroup_id,
                current,
            } => TeamSyncView::AwaitingLedgerWrite {
                usergroup_id: usergroup_id@,
                current: current@,
            },
            TeamSync::AwaitingIdentities {
                usergroup_id,
                current,
            } => TeamSyncView::AwaitingIdentities {
                usergroup_id: usergroup_id@,
                current: current@,
            },
            TeamSync::AwaitingPush => TeamSyncView::AwaitingPush,
            TeamSync::Done => TeamSyncView::Done,
        }
    }
}

/// What a collaborator answered.
#[derive(Debug, PartialEq, Eq)]
pub enum SyncEvent {
    /// The team's most recent shifts, most recent first, or `None` where the
    /// schedule store failed.
    Windows(Option<Vec<Schedule>>),
    /// The reads of the ledger rows that were asked for, in the order asked.
    LedgerRows(Vec<LedgerRead>),
    /// The ledger rows have been handed to the store.
    LedgerWritten,
    /// The lookups of the identities that were asked for, in the order asked;
    /// `None` where a lookup failed.
    Identities(Vec<Option<String>>),
    /// Whether the directory accepted the members.
    Pushed(bool),
}

/// What a [`SyncEvent`] holds, as mathematical values.
pub enum SyncEventView {
    Windows(Option<Seq<ScheduleView>>),
    LedgerRows(Seq<LedgerReadView>),
    LedgerWritten,
    Identities(Seq<Option<Seq<char>>>),
    Pushed(bool),
}

impl View for SyncEvent {
    type V = SyncEventView;

    open spec fn view(&self) -> SyncEventView {
        match self {
            SyncEvent::Windows(answer) => SyncEventView::Windows(
                match answer {
                    Some(recent) => Some(history_view(recent@)),
                    None => None,
                },
            ),
            SyncEvent::LedgerRows(reads) => SyncEventView::LedgerRows(reads_view(reads@)),
            SyncEvent::LedgerWritten => SyncEventView::LedgerWritten,
            SyncEvent::Identities(lookups) => SyncEventView::Identities(lookups_view(lookups@)),
            SyncEvent::Pushed(accepted) => SyncEventView::Pushed(*accepted),
        }
    }
}

/// What to ask of a collaborator next.
#[derive(Debug, PartialEq, Eq)]
pub enum SyncAction {
    /// Fetch the `limit` most recent shifts of `hero` that began at or
    /// before `at`, most recent first.
    FetchWindows { hero: String, at: u64, limit: usize },
    /// Read the ledger rows of `members` on the team `hero`.
    ReadLedger { hero: String, members: Vec<String> },
    /// Write the rows to the ledger.
    WriteLedger { rows: Vec<PunchClock> },
    /// Look up the directory identity of each of `emails`.
    ResolveIdentities { emails: Vec<String> },
    /// Set the members of a group; `unresolved` are the assignees that are
    /// left out because their lookup failed.
    PushMembership { update: MembershipUpdate, unresolved: Vec<String> },
    /// Nothing more: the cycle of this team has ended.
    Finish(TeamOutcome),
}

/// What a [`SyncAction`] holds, as mathematical values.
pub enum SyncActionView {
    FetchWindows { hero: Seq<char>, at: int, limit: int },
    ReadLedger { hero: Seq<char>, members: Seq<Seq<char>> },
    WriteLedger { rows: Seq<PunchClockView> },
    ResolveIdentities { emails: Seq<Seq<char>> },
    PushMembership { update: MembershipUpdateView, unresolved: Seq<Seq<char>> },
    Finish(TeamOutcome),
}

impl View for SyncAction {
    type V = SyncActionView;

    open spec fn view(&self) -> SyncActionView {
        match self {
            SyncAction::FetchWindows { hero, at, limit } => SyncActionView::FetchWindows {
                hero: hero@,
                at: *at as int,
                limit: *limit as int,
            },
            SyncAction::ReadLedger { hero, members } => SyncActionView::ReadLedger {
                hero: hero@,
                members: names(members@),
            },
            SyncAction::WriteLedger { rows } => SyncActionView::WriteLedger {
                rows: rows_view(rows@),
            },
            SyncAction::ResolveIdentities { emails } => SyncActionView::ResolveIdentities {
                emails: names(emails@),
            },
            SyncAction::PushMembership { update, unresolved } => SyncActionView::PushMembership {
                update: update@,
                unresolved: names(unresolved@),
            },
            SyncAction::Finish(outcome) => SyncActionView::Finish(*outcome),
        }
    }
}

/// The cycle ends with `outcome`.
pub open spec fn finish(outcome: TeamOutcome) -> (TeamSyncView, SyncActionView) {
    (TeamSyncView::Done, SyncActionView::Finish(outcome))
}

/// The step that asks for the identities of the current shift's assignees.
pub open spec fn ask_identities(usergroup_id: Seq<char>, current: ScheduleView) -> (
    TeamSyncView,
    SyncActionView,
) {
    (
        TeamSyncView::AwaitingIdentities { usergroup_id, current },
        SyncActionView::ResolveIdentities { emails: current.assignees },
    )
}

/// How a cycle begins for the team `hero` at the clock reading `now`, given
/// the directory's listing of groups, or `None` where the directory did not
/// list them: without a listing the cycle fails, a team without a group is
/// skipped, a clock reading that is no instant of the calendar is a failure,
/// and every other team has its two most recent shifts fetched.
pub open spec fn begin_spec(hero: Seq<char>, now: int, listing: Option<Seq<UserGroupView>>) -> (
    TeamSyncView,
    SyncActionView,
) {
    match listing {
        None => finish(TeamOutcome::Failed(FailureReason::DirectoryUnavailable)),
        Some(groups) => match group_id_of(groups, hero) {
            None => finish(TeamOutcome::Skipped(SkipReason::NoUserGroup)),
            Some(usergroup_id) => if now > MAX_TIMESTAMP {
                finish(TeamOutcome::Failed(FailureReason::InvalidTimestamp))
            } else {
                (
                    TeamSyncView::AwaitingWindows { hero, now, usergroup_id },
                    SyncActionView::FetchWindows { hero, at: now, limit: 2 },
                )
            },
        },
    }
}

/// The view of a listing of groups.
pub open spec fn listing_view(listing: Option<Vec<UserGroup>>) -> Option<Seq<UserGroupView>> {
    match listing {
        Some(groups) => Some(groups_view(groups@)),
        None => None,
    }
}

/// What the machine answers to the fetched shifts: a store that failed, or
/// that answered with anything but the team's two most recent shifts at or
/// before the present, ends the cycle; a team without a shift is skipped;
/// a team with a previous shift has the ledger rows of its assignees read;
/// and a team with a current shift alone goes on to its identities.
pub open spec fn on_windows(
    hero: Seq<char>,
    now: int,
    usergroup_id: Seq<char>,
    answer: Option<Seq<ScheduleView>>,
) -> (TeamSyncView, SyncActionView) {
    match answer {
        None => finish(TeamOutcome::Failed(FailureReason::WindowsUnavailable)),
        Some(recent) => if !is_recent_answer(recent, hero, now, 2) {
            finish(TeamOutcome::Failed(FailureReason::MalformedWindows))
        } else {
            match windows_of(recent) {
                None => finish(TeamOutcome::Skipped(SkipReason::NoCurrentWindow)),
                Some(windows) => match windows.previous_to_last {
                    Some(previous) => (
                        TeamSyncView::AwaitingLedgerRows {
                            now,
                            usergroup_id,
                            current: windows.last,
                            previous,
                        },
                        SyncActionView::ReadLedger {
                            hero: previous.hero,
                            members: previous.assignees,
                        },
                    ),
                    None => ask_identities(usergroup_id, windows.last),
                },
            }
        },
    }
}

/// What the machine answers to the rows of those who were on the previous
/// shift.
pub open spec fn on_ledger_rows(
    now: int,
    usergroup_id: Seq<char>,
    current: ScheduleView,
    previous: ScheduleView,
    reads: Seq<LedgerReadView>,
) -> (TeamSyncView, SyncActionView) {
    if reads.len() != previous.assignees.len() {
        finish(TeamOutcome::Failed(FailureReason::UnexpectedEvent))
    } else if !valid_timestamp(now) || !valid_timestamp(previous.shift_start_time) {
        finish(TeamOutcome::Failed(FailureReason::InvalidTimestamp))
    } else {
        match planned_writes(
            previous.hero,
            previous.assignees,
            previous.shift_start_time,
            business_days_between(previous.shift_start_time, now),
            reads,
        ) {
            Err(e) => finish(TeamOutcome::Failed(FailureReason::Ledger(e))),
            Ok(rows) => if rows.len() == 0 {
                ask_identities(usergroup_id, current)
            } else {
                (
                    TeamSyncView::AwaitingLedgerWrite { usergroup_id, current },
                    SyncActionView::WriteLedger { rows },
                )
            },
        }
    }
}

/// What the machine answers to the lookups of the current assignees: the
/// resolved identities become the group's members, and an assignee whose
/// lookup failed is left out and named.
pub open spec fn on_identities(
    usergroup_id: Seq<char>,
    current: ScheduleView,
    lookups: Seq<Option<Seq<char>>>,
) -> (TeamSyncView, SyncActionView) {
    if lookups.len() != current.assignees.len() {
        finish(TeamOutcome::Failed(FailureReason::UnexpectedEvent))
    } else {
        (
            TeamSyncView::AwaitingPush,
            SyncActionView::PushMembership {
                update: MembershipUpdateView { usergroup_id, user_ids: resolved(lookups) },
                unresolved: unresolved(current.assignees, lookups),
            },
        )
    }
}

/// The next state and the next question, given where the cycle stands and
/// what was answered. An answer to a question that was not asked ends the
/// cycle as a failure.
pub open spec fn step_spec(state: TeamSyncView, event: SyncEventView) -> (
    TeamSyncView,
    SyncActionView,
) {
    match state {
        TeamSyncView::AwaitingWindows { hero, now, usergroup_id } => match event {
            SyncEventView::Windows(answer) => on_windows(hero, now, usergroup_id, answer),
            _ => finish(TeamOutcome::Failed(FailureReason::UnexpectedEvent)),
        },
        TeamSyncView::AwaitingLedgerRows { now, usergroup_id, current, previous } => match event {
            SyncEventView::LedgerRows(reads) => on_ledger_rows(
                now,
                usergroup_id,
                current,
                previous,
                reads,
            ),
            _ => finish(TeamOutcome::Failed(FailureReason::UnexpectedEvent)),
        },
        TeamSyncView::AwaitingLedgerWrite { usergroup_id, current } => match event {
            SyncEventView::LedgerWritten => ask_identities(usergroup_id, current),
            _ => finish(TeamOutcome::Failed(FailureReason::UnexpectedEvent)),
        },
        TeamSyncView::AwaitingIdentities { usergroup_id, current } => match event {
            SyncEventView::Identities(lookups) => on_identities(usergroup_id, current, lookups),
            _ => finish(TeamOutcome::Failed(FailureReason::UnexpectedEvent)),
        },
        TeamSyncView::AwaitingPush => match event {
            SyncEventView::Pushed(accepted) => if accepted {
                finish(TeamOutcome::Updated)
            } else {
                finish(TeamOutcome::Failed(FailureReason::PushRejected))
            },
            _ => finish(TeamOutcome::Failed(FailureReason::UnexpectedEvent)),
        },
        TeamSyncView::Done => finish(TeamOutcome::Failed(FailureReason::UnexpectedEvent)),
    }
}

/// The number of answers that a cycle can still take in.
pub open spec fn steps_left(state: TeamSyncView) -> nat {
    match state {
        TeamSyncView::AwaitingWindows { .. } => 5,
        TeamSyncView::AwaitingLedgerRows { .. } => 4,
        TeamSyncView::AwaitingLedgerWrite { .. } => 3,
        TeamSyncView::AwaitingIdentities { .. } => 2,
        TeamSyncView::AwaitingPush => 1,
        TeamSyncView::Done => 0,
    }
}

/// A cycle ends, whatever is answered: every answer brings the machine
/// nearer to `Done`, which it reaches after five answers at most and never
/// leaves; and it says `Finish` exactly when it has got there.
pub proof fn lemma_step_advances(state: TeamSyncView, event: SyncEventView)
    ensures
        state != TeamSyncView::Done ==> steps_left(step_spec(state, event).0) < steps_left(state),
        state == TeamSyncView::Done ==> step_spec(state, event).0 == TeamSyncView::Done,
        step_spec(state, event).1 is Finish <==> step_spec(state, event).0 == TeamSyncView::Done,
{
}

/// Nothing is written for a team that is skipped or whose collaborators
/// fail: the ledger and the group's members are only ever written in answer
/// to a successful read of what the write is computed from.
pub proof fn lemma_writes_follow_reads(state: TeamSyncView, event: SyncEventView)
    ensures
        step_spec(state, event).1 is WriteLedger ==> state is AwaitingLedgerRows
            && event is LedgerRows,
        step_spec(state, event).1 is PushMembership ==> state is AwaitingIdentities
            && event is Identities,
        event == SyncEventView::Windows(None) ==> step_spec(state, event).1 is Finish,
        event == SyncEventView::Pushed(false) ==> step_spec(state, event).1 is Finish,
{
}

/// The step that asks for the identities of the current shift's assignees.
fn to_identities(usergroup_id: String, current: Schedule) -> (next: (TeamSync, SyncAction))
    ensures
        (next.0@, next.1@) == ask_identities(usergroup_id@, current@),
{
    let emails = clone_names(&current.assignees);
    (
        TeamSync::AwaitingIdentities { usergroup_id, current },
        SyncAction::ResolveIdentities { emails },
    )
}

/// The end of a cycle.
fn to_done(outcome: TeamOutcome) -> (next: (TeamSync, SyncAction))
    ensures
        (next.0@, next.1@) == finish(outcome),
{
    (TeamSync::Done, SyncAction::Finish(outcome))
}

/// The step that answers the fetched shifts.
fn after_windows(
    hero: String,
    now: i64,
    usergroup_id: String,
    answer: Option<Vec<Schedule>>,
) -> (next: (TeamSync, SyncAction))
    ensures
        (next.0@, next.1@) == on_windows(
            hero@,
            now as int,
            usergroup_id@,
            match answer {
                Some(recent) => Some(history_view(recent@)),
                None => None,
            },
        ),
{
    let recent = match answer {
        Some(recent) => recent,
        None => {
            return to_done(TeamOutcome::Failed(FailureReason::WindowsUnavailable));
        },
    };
    if !check_recent_answer(&recent, &hero, now, 2) {
        return to_done(TeamOutcome::Failed(FailureReason::MalformedWindows));
    }
    match LastTwoSchedules::from_most_recent(recent) {
        None => to_done(TeamOutcome::Skipped(SkipReason::NoCurrentWindow)),
        Some(windows) => {
            let LastTwoSchedules { last, previous_to_last } = windows;
            match previous_to_last {
                Some(previous) => {
                    let read = SyncAction::ReadLedger {
                        hero: previous.hero.clone(),
                        members: clone_names(&previous.assignees),
                    };
                    (
                        TeamSync::AwaitingLedgerRows {
                            now,
                            usergroup_id,
                            current: last,
                            previous,
                        },
                        read,
                    )
                },
                None => to_identities(usergroup_id, last),
            }
        },
    }
}

/// The step that answers the rows of those who were on the previous shift.
fn after_ledger_rows(
    now: i64,
    usergroup_id: String,
    current: Schedule,
    previous: Schedule,
    reads: Vec<LedgerRead>,
) -> (next: (TeamSync, SyncAction))
    ensures
        (next.0@, next.1@) == on_ledger_rows(
            now as int,
            usergroup_id@,
            current@,
            previous@,
            reads_view(reads@),
        ),
{
    if reads.len() != previous.assignees.len() {
        return to_done(TeamOutcome::Failed(FailureReason::UnexpectedEvent));
    }
    if !is_valid_timestamp(now) || !is_valid_timestamp(previous.shift_start_time) {
        return to_done(TeamOutcome::Failed(FailureReason::InvalidTimestamp));
    }
    match plan_ledger_writes(&previous, now, &reads) {
        Err(e) => to_done(TeamOutcome::Failed(FailureReason::Ledger(e))),
        Ok(rows) => {
            if rows.len() == 0 {
                to_identities(usergroup_id, current)
            } else {
                (
                    TeamSync::AwaitingLedgerWrite { usergroup_id, current },
                    SyncAction::WriteLedger { rows },
                )
            }
        },
    }
}

/// The step that answers the lookups of the current assignees.
fn after_identities(
    usergroup_id: String,
    current: Schedule,
    lookups: Vec<Option<String>>,
) -> (next: (TeamSync, SyncAction))
    ensures
        (next.0@, next.1@) == on_identities(usergroup_id@, current@, lookups_view(lookups@)),
{
    if lookups.len() != current.assignees.len() {
        return to_done(TeamOutcome::Failed(FailureReason::UnexpectedEvent));
    }
    let user_ids = resolved_identities(&lookups);
    let unresolved = unresolved_assignees(&current.assignees, &lookups);
    (
        TeamSync::AwaitingPush,
        SyncAction::PushMembership {
            update: MembershipUpdate { usergroup_id, user_ids },
            unresolved,
        },
    )
}

impl TeamSync {
    /// Begins the cycle of the team `hero` at the clock reading `now`, with
    /// the directory's listing of groups, which one cycle fetches once for
    /// all its teams; `None` where it could not be fetched.
    pub fn begin(hero: String, now: u64, listing: &Option<Vec<UserGroup>>) -> (started: (
        TeamSync,
        SyncAction,
    ))
        ensures
            (started.0@, started.1@) == begin_spec(hero@, now as int, listing_view(*listing)),
    {
        let groups = match listing {
            Some(groups) => groups,
            None => {
                return to_done(TeamOutcome::Failed(FailureReason::DirectoryUnavailable));
            },
        };
        match find_usergroup_id(groups, &hero) {
            None => to_done(TeamOutcome::Skipped(SkipReason::NoUserGroup)),
            Some(usergroup_id) => match timestamp_of(now) {
                None => to_done(TeamOutcome::Failed(FailureReason::InvalidTimestamp)),
                Some(instant) => {
                    let fetch = SyncAction::FetchWindows { hero: hero.clone(), at: now, limit: 2 };
                    (TeamSync::AwaitingWindows { hero, now: instant, usergroup_id }, fetch)
                },
            },
        }
    }

    /// Takes in what a collaborator answered and says what to ask next.
    pub fn step(self, event: SyncEvent) -> (next: (TeamSync, SyncAction))
        ensures
            (next.0@, next.1@) == step_spec(self@, event@),
    {
        match self {
            TeamSync::AwaitingWindows { hero, now, usergroup_id } => match event {
                SyncEvent::Windows(answer) => after_windows(hero, now, usergroup_id, answer),
                _ => to_done(TeamOutcome::Failed(FailureReason::UnexpectedEvent)),
            },
            TeamSync::AwaitingLedgerRows { now, usergroup_id, current, previous } => match event {
                SyncEvent::LedgerRows(reads) => after_ledger_rows(
                    now,
                    usergroup_id,
                    current,
                    previous,
                    reads,
                ),
                _ => to_done(TeamOutcome::Failed(FailureReason::UnexpectedEvent)),
            },
            TeamSync::AwaitingLedgerWrite { usergroup_id, current } => match event {
                SyncEvent::LedgerWritten => to_identities(usergroup_id, current),
                _ => to_done(TeamOutcome::Failed(FailureReason::UnexpectedEvent)),
            },
            TeamSync::AwaitingIdentities { usergroup_id, current } => match event {
                SyncEvent::Identities(lookups) => after_identities(usergroup_id, current, lookups),
                _ => to_done(TeamOutcome::Failed(FailureReason::UnexpectedEvent)),
            },
            TeamSync::AwaitingPush => match event {
                SyncEvent::Pushed(true) => to_done(TeamOutcome::Updated),
                SyncEvent::Pushed(false) => to_done(
                    TeamOutcome::Failed(FailureReason::PushRejected),
                ),
                _ => to_done(TeamOutcome::Failed(FailureReason::UnexpectedEvent)),
            },
            TeamSync::Done => to_done(TeamOutcome::Failed(FailureReason::UnexpectedEvent)),
        }
    }
}

/// How the teams of one cycle ended, in numbers.
#[derive(Debug, Clone, Copy, PartialEq, Eq, Structural)]
pub struct CycleReport {
    pub updated: usize,
    pub skipped: usize,
    pub failed: usize,
}

/// The number of teams among `outcomes` whose members were set.
pub open spec fn updated_among(outcomes: Seq<TeamOutcome>) -> nat
    decreases outcomes.len(),
{
    if outcomes.len() == 0 {
        0
    } else {
        updated_among(outcomes.drop_last()) + if outcomes.last() is Updated {
            1nat
        } else {
            0nat
        }
    }
}

/// The number of teams among `outcomes` that were skipped.
pub open spec fn skipped_among(outcomes: Seq<TeamOutcome>) -> nat
    decreases outcomes.len(),
{
    if outcomes.len() == 0 {
        0
    } else {
        skipped_among(outcomes.drop_last()) + if outcomes.last() is Skipped {
            1nat
        } else {
            0nat
        }
    }
}

/// The number of teams among `outcomes` whose cycle failed.
pub open spec fn failed_among(outcomes: Seq<TeamOutcome>) -> nat
    decreases outcomes.len(),
{
    if outcomes.len() == 0 {
        0
    } else {
        failed_among(outcomes.drop_last()) + if outcomes.last() is Failed {
            1nat
        } else {
            0nat
        }
    }
}

/// Every team is counted once.
pub proof fn lemma_every_team_is_counted(outcomes: Seq<TeamOutcome>)
    ensures
        updated_among(outcomes) + skipped_among(outcomes) + failed_among(outcomes)
            == outcomes.len(),
    decreases outcomes.len(),
{
    if outcomes.len() > 0 {
        lemma_every_team_is_counted(outcomes.drop_last());
    }
}

/// Counts how the teams of one cycle ended. A failed team is one count among
/// the others: the cycle as a whole has no failure of its own.
pub fn tally(outcomes: &Vec<TeamOutcome>) -> (report: CycleReport)
    ensures
        report.updated == updated_among(outcomes@),
        report.skipped == skipped_among(outcomes@),
        report.failed == failed_among(outcomes@),
        report.updated + report.skipped + report.failed == outcomes.len(),
{
    let mut report = CycleReport { updated: 0, skipped: 0, failed: 0 };
    let mut i: usize = 0;
    while i < outcomes.len()
        invariant
            i <= outcomes.len(),
            report.updated == updated_among(outcomes@.take(i as int)),
            report.skipped == skipped_among(outcomes@.take(i as int)),
            report.failed == failed_among(outcomes@.take(i as int)),
            report.updated + report.skipped + report.failed == i,
        decreases outcomes.len() - i,
    {
        assert(outcomes@.take(i + 1).drop_last() =~= outcomes@.take(i as int));
        match outcomes[i] {
            TeamOutcome::Updated => {
                report.updated += 1;
            },
            TeamOutcome::Skipped(_) => {
                report.skipped += 1;
            },
            TeamOutcome::Failed(_) => {
                report.failed += 1;
            },
        }
        i += 1;
    }
    assert(outcomes@.take(outcomes.len() as int) =~= outcomes@);
    report
}

} // verus!
