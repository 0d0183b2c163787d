//! The punch-clock ledger: per member, the business days served on a team.
//!
//! A member is credited when a shift ends: the business days from the start
//! of that shift to the start of the next one go to everyone who was assigned
//! to it. [`recalculate_punch_time`] rebuilds the ledger of a team from its
//! whole shift history; [`advance_ledger`] brings one row up to date when a
//! new shift has begun.

use crate::schedule::{distinct, history_view, names, Schedule, ScheduleView};
use crate::time::{
    business_days_between, days_diff, valid_timestamp, MAX_GAP,
};
use vstd::prelude::*;

verus! {

/// The most shifts a history may hold for a full recomputation: with no more
/// than this many, no member's total can leave the range of `u64`.
pub const MAX_HISTORY_LEN: usize = 0xFFFF_FFFF;

/// One row of the ledger: the business days that `member` has served on the
/// team `hero`, with the start of the first and of the latest shift that
/// were credited.
#[derive(Debug, PartialEq, Eq)]
pub struct PunchClock {
    pub hero: String,
    pub member: String,
    pub days: u64,
    pub first_punch: i64,
    pub last_punch: i64,
}

/// What a [`PunchClock`] holds, as mathematical values.
pub struct PunchClockView {
    pub hero: Seq<char>,
    pub member: Seq<char>,
    pub days: nat,
    pub first_punch: int,
    pub last_punch: int,
}

impl View for PunchClock {
    type V = PunchClockView;

    open spec fn view(&self) -> PunchClockView {
        PunchClockView {
            hero: self.hero@,
            member: self.member@,
            days: self.days as nat,
            first_punch: self.first_punch as int,
            last_punch: self.last_punch as int,
        }
    }
}

impl Clone for PunchClock {
    fn clone(&self) -> (copy: Self)
        ensures
            copy@ == self@,
    {
        PunchClock {
            hero: self.hero.clone(),
            member: self.member.clone(),
            days: self.days,
            first_punch: self.first_punch,
            last_punch: self.last_punch,
        }
    }
}

/// The views of a sequence of rows.
pub open spec fn rows_view(rows: Seq<PunchClock>) -> Seq<PunchClockView> {
    rows.map_values(|r: PunchClock| r@)
}

/// The index of the first row of `member`, or the number of rows where the
/// member has none.
pub open spec fn position_of(rows: Seq<PunchClockView>, member: Seq<char>) -> int
    decreases rows.len(),
{
    if rows.len() == 0 {
        0
    } else if rows[0].member == member {
        0
    } else {
        1 + position_of(rows.drop_first(), member)
    }
}

/// The ledger after `member` has been credited with `days` business days for
/// the shift that began at `boundary`: the member's row grows by `days` and
/// takes `boundary` as its latest punch; a member without a row gets one, at
/// the end, that starts and ends at `boundary`.
pub open spec fn credit(
    rows: Seq<PunchClockView>,
    hero: Seq<char>,
    member: Seq<char>,
    days: nat,
    boundary: int,
) -> Seq<PunchClockView> {
    let at = position_of(rows, member);
    if at < rows.len() {
        rows.update(
            at,
            PunchClockView { days: rows[at].days + days, last_punch: boundary, ..rows[at] },
        )
    } else {
        rows.push(
            PunchClockView { hero, member, days, first_punch: boundary, last_punch: boundary },
        )
    }
}

/// The ledger after each of `members`, in order, has been credited.
pub open spec fn credit_all(
    rows: Seq<PunchClockView>,
    hero: Seq<char>,
    members: Seq<Seq<char>>,
    days: nat,
    boundary: int,
) -> Seq<PunchClockView>
    decreases members.len(),
{
    if members.len() == 0 {
        rows
    } else {
        credit(
            credit_all(rows, hero, members.drop_last(), days, boundary),
            hero,
            members.last(),
            days,
            boundary,
        )
    }
}

/// The business days between the start of shift `i` and the start of the
/// shift after it.
pub open spec fn gap(history: Seq<ScheduleView>, i: int) -> int {
    business_days_between(history[i].shift_start_time, history[i + 1].shift_start_time)
}

/// The ledger of the team `hero` once the first `ended` shifts of `history`
/// have ended: each of them, where at least one business day lies between it
/// and its successor, credits its assignees with those days.
pub open spec fn ledger_after(hero: Seq<char>, history: Seq<ScheduleView>, ended: nat) -> Seq<
    PunchClockView,
>
    decreases ended,
{
    if ended == 0 {
        Seq::empty()
    } else {
        let before = ledger_after(hero, history, (ended - 1) as nat);
        let days = gap(history, ended - 1);
        if days > 0 {
            credit_all(
                before,
                hero,
                history[ended - 1].assignees,
                days as nat,
                history[ended - 1].shift_start_time,
            )
        } else {
            before
        }
    }
}

/// The ledger of the team `hero` that its whole shift history gives: every
/// shift but the last has ended.
pub open spec fn recompute_ledger(hero: Seq<char>, history: Seq<ScheduleView>) -> Seq<
    PunchClockView,
> {
    if history.len() == 0 {
        Seq::empty()
    } else {
        ledger_after(hero, history, (history.len() - 1) as nat)
    }
}

/// Every row holds at most `base` days, or `base + days` where its member is
/// among `credited`.
spec fn within(
    rows: Seq<PunchClockView>,
    base: int,
    days: int,
    credited: Seq<Seq<char>>,
) -> bool {
    forall|j: int|
        0 <= j < rows.len() ==> (#[trigger] rows[j]).days <= base + if credited.contains(
            rows[j].member,
        ) {
            days
        } else {
            0
        }
}

/// What [`position_of`] finds: an index no row before which is the member's,
/// and at which, if it is a row at all, the member's row stands.
pub proof fn lemma_position_of(rows: Seq<PunchClockView>, member: Seq<char>)
    ensures
        0 <= position_of(rows, member) <= rows.len(),
        position_of(rows, member) < rows.len() ==> rows[position_of(rows, member)].member
            == member,
        forall|j: int| 0 <= j < position_of(rows, member) ==> (#[trigger] rows[j]).member != member,
    decreases rows.len(),
{
    if rows.len() > 0 && rows[0].member != member {
        let rest = rows.drop_first();
        lemma_position_of(rest, member);
        assert forall|j: int| 0 <= j < position_of(rows, member) implies (#[trigger] rows[j]).member
            != member by {
            if j > 0 {
                assert(rest[j - 1] == rows[j]);
            }
        }
    }
}

/// The first index at which the member's row stands is what [`position_of`]
/// finds.
pub proof fn lemma_position_of_is(rows: Seq<PunchClockView>, member: Seq<char>, at: int)
    requires
        0 <= at <= rows.len(),
        forall|j: int| 0 <= j < at ==> (#[trigger] rows[j]).member != member,
        at < rows.len() ==> rows[at].member == member,
    ensures
        position_of(rows, member) == at,
{
    lemma_position_of(rows, member);
    let found = position_of(rows, member);
    if found < at {
        assert(rows[found].member != member);
    } else if found > at {
        assert(rows[at].member != member);
    }
}

/// Crediting a member who is not yet among `credited` keeps every row within
/// its bound, the member now counted among the credited.
proof fn lemma_credit_within(
    rows: Seq<PunchClockView>,
    hero: Seq<char>,
    member: Seq<char>,
    days: nat,
    boundary: int,
    base: int,
    credited: Seq<Seq<char>>,
)
    requires
        0 <= base,
        within(rows, base, days as int, credited),
        !credited.contains(member),
    ensures
        within(
            credit(rows, hero, member, days, boundary),
            base,
            days as int,
            credited.push(member),
        ),
{
    lemma_position_of(rows, member);
    let after = credit(rows, hero, member, days, boundary);
    let at = position_of(rows, member);
    let wider = credited.push(member);
    assert(wider[credited.len() as int] == member);
    assert forall|j: int| 0 <= j < after.len() implies (#[trigger] after[j]).days <= base
        + if wider.contains(after[j].member) {
        days as int
    } else {
        0
    } by {
        if j == at {
            assert(wider.contains(member));
            if at < rows.len() {
                assert(rows[at].days <= base);
            }
        } else {
            assert(after[j] == rows[j]);
            if credited.contains(rows[j].member) {
                let c = choose|c: int| 0 <= c < credited.len() && credited[c] == rows[j].member;
                assert(wider[c] == rows[j].member);
            }
        }
    }
}

/// The index of the first row of `member`, or the number of rows where the
/// member has none.
pub fn find_member(rows: &Vec<PunchClock>, member: &String) -> (at: usize)
    ensures
        at as int == position_of(rows_view(rows@), member@),
        at <= rows.len(),
{
    let mut at: usize = 0;
    while at < rows.len()
        invariant
            at <= rows.len(),
            forall|j: int| 0 <= j < at ==> (#[trigger] rows_view(rows@)[j]).member != member@,
        decreases rows.len() - at,
    {
        if rows[at].member == *member {
            proof {
                lemma_position_of_is(rows_view(rows@), member@, at as int);
            }
            return at;
        }
        at += 1;
    }
    proof {
        lemma_position_of_is(rows_view(rows@), member@, at as int);
    }
    at
}

/// Credits `member` with `days` business days for the shift of the team
/// `hero` that began at `boundary`.
pub fn credit_member(
    rows: &mut Vec<PunchClock>,
    hero: &String,
    member: &String,
    days: u64,
    boundary: i64,
)
    requires
        forall|j: int|
            0 <= j < old(rows)@.len() && (#[trigger] old(rows)@[j]).member@ == member@
                ==> old(rows)@[j].days + days <= u64::MAX,
    ensures
        rows_view(final(rows)@) == credit(
            rows_view(old(rows)@),
            hero@,
            member@,
            days as nat,
            boundary as int,
        ),
{
    let at: usize = find_member(rows, member);
    proof {
        lemma_position_of(rows_view(rows@), member@);
    }
    if at < rows.len() {
        assert(rows_view(rows@)[at as int] == rows@[at as int]@);
        let row = PunchClock {
            hero: rows[at].hero.clone(),
            member: rows[at].member.clone(),
            days: rows[at].days + days,
            first_punch: rows[at].first_punch,
            last_punch: boundary,
        };
        rows.set(at, row);
        assert(rows_view(rows@) =~= credit(
            rows_view(old(rows)@),
            hero@,
            member@,
            days as nat,
            boundary as int,
        ));
    } else {
        let row = PunchClock {
            hero: hero.clone(),
            member: member.clone(),
            days,
            first_punch: boundary,
            last_punch: boundary,
        };
        rows.push(row);
        assert(rows_view(rows@) =~= credit(
            rows_view(old(rows)@),
            hero@,
            member@,
            days as nat,
            boundary as int,
        ));
    }
}

/// Rebuilds the ledger of the team `hero` from its complete shift history,
/// oldest shift first.
///
/// Every shift but the last has ended where its successor begins. Where at
/// least one business day lies between the two, each assignee of the ended
/// shift is credited with those days, and the start of the ended shift becomes
/// the latest punch of the assignee's row (and its first, where the row is
/// new). The rows come in the order in which their members were first
/// credited. The result is a function of the history alone: recomputing over
/// the same history gives the same rows in the same order, and they replace
/// whatever the ledger held.
pub fn recalculate_punch_time(hero: String, schedules: Vec<Schedule>) -> (punch_cards: Vec<
    PunchClock,
>)
    requires
        schedules.len() <= MAX_HISTORY_LEN,
        schedules.len() >= 2 ==> forall|i: int|
            0 <= i < schedules.len() ==> valid_timestamp(
                (#[trigger] schedules[i]).shift_start_time as int,
            ),
        forall|i: int| 0 <= i < schedules.len() - 1 ==> (#[trigger] schedules[i]).well_formed(),
    ensures
        rows_view(punch_cards@) == recompute_ledger(hero@, history_view(schedules@)),
        keyed_by_member(rows_view(punch_cards@), hero@),
        schedules.len() < 2 ==> punch_cards.len() == 0,
{
    let mut rows: Vec<PunchClock> = Vec::new();
    let ghost history = history_view(schedules@);
    if schedules.len() < 2 {
        assert(rows_view(rows@) =~= Seq::empty());
        return rows;
    }
    let last: usize = schedules.len() - 1;
    let mut ended: usize = 0;
    assert(rows_view(rows@) =~= ledger_after(hero@, history, 0));
    while ended < last
        invariant
            ended <= last,
            last + 1 == schedules.len(),
            schedules.len() <= MAX_HISTORY_LEN,
            history == history_view(schedules@),
            forall|i: int|
                0 <= i < schedules.len() ==> valid_timestamp(
                    (#[trigger] schedules[i]).shift_start_time as int,
                ),
            forall|i: int| 0 <= i < last ==> (#[trigger] schedules[i]).well_formed(),
            rows_view(rows@) == ledger_after(hero@, history, ended as nat),
            within(rows_view(rows@), ended * MAX_GAP, 0, Seq::empty()),
        decreases last - ended,
    {
        let previous = &schedules[ended];
        let current = &schedules[ended + 1];
        let days: i32 = days_diff(previous.shift_start_time, current.shift_start_time);
        assert(history[ended as int] == previous@);
        assert(history[ended + 1] == current@);
        assert(days as int == gap(history, ended as int));
        if days > 0 {
            let ghost before = rows_view(rows@);
            let ghost members = names(previous.assignees@);
            let ghost base = ended * MAX_GAP;
            let mut a: usize = 0;
            assert(members.take(0) =~= Seq::empty());
            while a < previous.assignees.len()
                invariant
                    a <= previous.assignees.len(),
                    0 < days <= MAX_GAP,
                    ended < MAX_HISTORY_LEN,
                    base == ended * MAX_GAP,
                    members == names(previous.assignees@),
                    distinct(members),
                    rows_view(rows@) == credit_all(
                        before,
                        hero@,
                        members.take(a as int),
                        days as nat,
                        previous.shift_start_time as int,
                    ),
                    within(rows_view(rows@), base, days as int, members.take(a as int)),
                decreases previous.assignees.len() - a,
            {
                let member = &previous.assignees[a];
                let ghost credited = members.take(a as int);
                let ghost held = rows_view(rows@);
                assert(members[a as int] == member@);
                assert(!credited.contains(member@)) by {
                    if credited.contains(member@) {
                        let c = choose|c: int| 0 <= c < credited.len() && credited[c] == member@;
                        assert(members[c] == members[a as int]);
                    }
                }
                assert forall|j: int|
                    0 <= j < rows@.len() && (#[trigger] rows@[j]).member@
                        == member@ implies rows@[j].days + days <= u64::MAX by {
                    assert(held[j] == rows@[j]@);
                    assert(held[j].days <= base);
                }
                credit_member(&mut rows, &hero, member, days as u64, previous.shift_start_time);
                proof {
                    lemma_credit_within(
                        held,
                        hero@,
                        member@,
                        days as nat,
                        previous.shift_start_time as int,
                        base,
                        credited,
                    );
                    assert(members.take(a + 1).drop_last() =~= credited);
                    assert(members.take(a + 1).last() == member@);
                    assert(members.take(a + 1) =~= credited.push(member@));
                }
                a += 1;
            }
            assert(members.take(previous.assignees.len() as int) =~= members);
            assert(within(rows_view(rows@), (ended + 1) * MAX_GAP, 0, Seq::empty())) by {
                assert forall|j: int| 0 <= j < rows_view(rows@).len() implies (#[trigger] rows_view(
                    rows@,
                )[j]).days <= (ended + 1) * MAX_GAP + 0 by {}
            }
        } else {
            assert(within(rows_view(rows@), (ended + 1) * MAX_GAP, 0, Seq::empty()));
        }
        ended += 1;
    }
    proof {
        lemma_ledger_keyed(hero@, history, last as nat);
    }
    rows
}

/// A history of fewer than two shifts has crossed no boundary: its ledger is
/// empty.
pub proof fn lemma_no_boundary_no_rows(hero: Seq<char>, history: Seq<ScheduleView>)
    requires
        history.len() < 2,
    ensures
        recompute_ledger(hero, history) == Seq::<PunchClockView>::empty(),
{
}

/// The days that the rows of `member` hold, all rows together.
pub open spec fn days_of(rows: Seq<PunchClockView>, member: Seq<char>) -> nat
    decreases rows.len(),
{
    if rows.len() == 0 {
        0
    } else {
        days_of(rows.drop_last(), member) + if rows.last().member == member {
            rows.last().days
        } else {
            0nat
        }
    }
}

/// Whether `member` is assigned to shift `i` of the history.
pub open spec fn listed(history: Seq<ScheduleView>, i: int, member: Seq<char>) -> bool {
    history[i].assignees.contains(member)
}

/// The sum, over the first `ended` shifts to which `member` is assigned, of
/// the business days between the shift and its successor.
pub open spec fn contribution_sum(history: Seq<ScheduleView>, member: Seq<char>, ended: nat) -> int
    decreases ended,
{
    if ended == 0 {
        0
    } else {
        contribution_sum(history, member, (ended - 1) as nat) + if listed(
            history,
            ended - 1,
            member,
        ) {
            gap(history, ended - 1)
        } else {
            0
        }
    }
}

/// As [`contribution_sum`], counting only the shifts that are followed by at
/// least one business day.
pub open spec fn credited_days(history: Seq<ScheduleView>, member: Seq<char>, ended: nat) -> int
    decreases ended,
{
    if ended == 0 {
        0
    } else {
        credited_days(history, member, (ended - 1) as nat) + if listed(history, ended - 1, member)
            && gap(history, ended - 1) > 0 {
            gap(history, ended - 1)
        } else {
            0
        }
    }
}

/// No two rows belong to one member, and every row belongs to the team `hero`.
pub open spec fn keyed_by_member(rows: Seq<PunchClockView>, hero: Seq<char>) -> bool {
    &&& forall|a: int, b: int|
        0 <= a < b < rows.len() ==> (#[trigger] rows[a]).member != (#[trigger] rows[b]).member
    &&& forall|a: int| 0 <= a < rows.len() ==> (#[trigger] rows[a]).hero == hero
}

/// Replacing one row changes a member's days by what the two rows differ in.
pub proof fn lemma_days_of_update(
    rows: Seq<PunchClockView>,
    at: int,
    row: PunchClockView,
    member: Seq<char>,
)
    requires
        0 <= at < rows.len(),
    ensures
        days_of(rows.update(at, row), member) + (if rows[at].member == member {
            rows[at].days
        } else {
            0nat
        }) == days_of(rows, member) + (if row.member == member {
            row.days
        } else {
            0nat
        }),
    decreases rows.len(),
{
    let changed = rows.update(at, row);
    if at == rows.len() - 1 {
        assert(changed.drop_last() =~= rows.drop_last());
    } else {
        assert(changed.drop_last() =~= rows.drop_last().update(at, row));
        lemma_days_of_update(rows.drop_last(), at, row, member);
    }
}

/// A credit adds its days to the credited member and to no one else.
pub proof fn lemma_days_of_credit(
    rows: Seq<PunchClockView>,
    hero: Seq<char>,
    credited: Seq<char>,
    days: nat,
    boundary: int,
    member: Seq<char>,
)
    ensures
        days_of(credit(rows, hero, credited, days, boundary), member) == days_of(rows, member)
            + if credited == member {
            days
        } else {
            0nat
        },
{
    lemma_position_of(rows, credited);
    let at = position_of(rows, credited);
    if at < rows.len() {
        lemma_days_of_update(
            rows,
            at,
            PunchClockView { days: rows[at].days + days, last_punch: boundary, ..rows[at] },
            member,
        );
    } else {
        let row = PunchClockView {
            hero,
            member: credited,
            days,
            first_punch: boundary,
            last_punch: boundary,
        };
        assert(rows.push(row).drop_last() =~= rows);
    }
}

/// Crediting a set of members adds the days once to each of them.
pub proof fn lemma_days_of_credit_all(
    rows: Seq<PunchClockView>,
    hero: Seq<char>,
    members: Seq<Seq<char>>,
    days: nat,
    boundary: int,
    member: Seq<char>,
)
    requires
        distinct(members),
    ensures
        days_of(credit_all(rows, hero, members, days, boundary), member) == days_of(rows, member)
            + if members.contains(member) {
            days
        } else {
            0nat
        },
    decreases members.len(),
{
    if members.len() > 0 {
        let earlier = members.drop_last();
        assert(distinct(earlier)) by {
            assert forall|a: int, b: int| 0 <= a < b < earlier.len() implies earlier[a]
                != earlier[b] by {
                assert(earlier[a] == members[a] && earlier[b] == members[b]);
            }
        }
        lemma_days_of_credit_all(rows, hero, earlier, days, boundary, member);
        lemma_days_of_credit(
            credit_all(rows, hero, earlier, days, boundary),
            hero,
            members.last(),
            days,
            boundary,
            member,
        );
        if earlier.contains(member) {
            let c = choose|c: int| 0 <= c < earlier.len() && earlier[c] == member;
            assert(members[c] == member);
            assert(members.last() != member);
        } else if members.last() == member {
            assert(members[members.len() - 1] == member);
        } else if members.contains(member) {
            let c = choose|c: int| 0 <= c < members.len() && members[c] == member;
            assert(earlier[c] == member);
        }
    }
}

/// Credits keep the ledger keyed: one row per member, all of one team.
pub proof fn lemma_credit_all_keyed(
    rows: Seq<PunchClockView>,
    hero: Seq<char>,
    members: Seq<Seq<char>>,
    days: nat,
    boundary: int,
)
    requires
        keyed_by_member(rows, hero),
    ensures
        keyed_by_member(credit_all(rows, hero, members, days, boundary), hero),
    decreases members.len(),
{
    if members.len() > 0 {
        lemma_credit_all_keyed(rows, hero, members.drop_last(), days, boundary);
        let before = credit_all(rows, hero, members.drop_last(), days, boundary);
        lemma_position_of(before, members.last());
    }
}

/// At most one row per member: the rows of a recomputed ledger belong to
/// pairwise different members, and all to the team it was computed for.
pub proof fn lemma_ledger_keyed(hero: Seq<char>, history: Seq<ScheduleView>, ended: nat)
    ensures
        keyed_by_member(ledger_after(hero, history, ended), hero),
    decreases ended,
{
    if ended > 0 {
        lemma_ledger_keyed(hero, history, (ended - 1) as nat);
        let days = gap(history, ended - 1);
        if days > 0 {
            lemma_credit_all_keyed(
                ledger_after(hero, history, (ended - 1) as nat),
                hero,
                history[ended - 1].assignees,
                days as nat,
                history[ended - 1].shift_start_time,
            );
        }
    }
}

/// Once `ended` shifts have ended, a member's rows hold the business days
/// that followed the ended shifts to which the member was assigned.
pub proof fn lemma_days_of_ledger(
    hero: Seq<char>,
    history: Seq<ScheduleView>,
    ended: nat,
    member: Seq<char>,
)
    requires
        forall|i: int| 0 <= i < ended ==> distinct((#[trigger] history[i]).assignees),
    ensures
        days_of(ledger_after(hero, history, ended), member) == credited_days(
            history,
            member,
            ended,
        ),
    decreases ended,
{
    if ended > 0 {
        lemma_days_of_ledger(hero, history, (ended - 1) as nat, member);
        let days = gap(history, ended - 1);
        if days > 0 {
            assert(distinct(history[ended - 1].assignees));
            lemma_days_of_credit_all(
                ledger_after(hero, history, (ended - 1) as nat),
                hero,
                history[ended - 1].assignees,
                days as nat,
                history[ended - 1].shift_start_time,
                member,
            );
        }
    }
}

/// Where no shift of the member is followed by a negative count, the
/// credited days are the plain sum of the counts.
pub proof fn lemma_credited_days_is_sum(
    history: Seq<ScheduleView>,
    member: Seq<char>,
    ended: nat,
)
    requires
        forall|i: int|
            0 <= i < ended && listed(history, i, member) ==> #[trigger] gap(history, i) >= 0,
    ensures
        credited_days(history, member, ended) == contribution_sum(history, member, ended),
    decreases ended,
{
    if ended > 0 {
        lemma_credited_days_is_sum(history, member, (ended - 1) as nat);
        if listed(history, ended - 1, member) {
            assert(gap(history, ended - 1) >= 0);
        }
    }
}

/// The days that a recomputed ledger holds for a member are the sum, over
/// every pair of consecutive shifts whose earlier one lists the member, of
/// the business days between the two. This is stated for histories in which
/// no such pair runs backwards in the calendar: a pair that does is credited
/// nothing, not a negative number of days.
pub proof fn lemma_member_total(hero: Seq<char>, history: Seq<ScheduleView>, member: Seq<char>)
    requires
        forall|i: int| 0 <= i < history.len() ==> distinct((#[trigger] history[i]).assignees),
        forall|i: int|
            0 <= i < history.len() - 1 && listed(history, i, member) ==> #[trigger] gap(history, i)
                >= 0,
    ensures
        history.len() == 0 ==> days_of(recompute_ledger(hero, history), member) == 0,
        history.len() > 0 ==> days_of(recompute_ledger(hero, history), member) == contribution_sum(
            history,
            member,
            (history.len() - 1) as nat,
        ),
{
    if history.len() > 0 {
        let ended = (history.len() - 1) as nat;
        lemma_days_of_ledger(hero, history, ended, member);
        lemma_credited_days_is_sum(history, member, ended);
    }
}

/// The first row of `member`, if the member has one.
pub open spec fn row_of(rows: Seq<PunchClockView>, member: Seq<char>) -> Option<PunchClockView> {
    let at = position_of(rows, member);
    if at < rows.len() {
        Some(rows[at])
    } else {
        None
    }
}

/// A member's row after one more credit of `days` for the shift that began
/// at `boundary`.
pub open spec fn credited_row(
    row: Option<PunchClockView>,
    hero: Seq<char>,
    member: Seq<char>,
    days: nat,
    boundary: int,
) -> PunchClockView {
    match row {
        None => PunchClockView { hero, member, days, first_punch: boundary, last_punch: boundary },
        Some(held) => PunchClockView { days: held.days + days, last_punch: boundary, ..held },
    }
}

/// The row that the history gives `member` once the first `ended` shifts have
/// ended, read off the history alone: its days are those of the ended shifts
/// that list the member and are followed by at least one business day, its
/// first punch is the start of the first such shift and its latest punch the
/// start of the last. A member with no such shift has no row.
pub open spec fn member_row(
    hero: Seq<char>,
    history: Seq<ScheduleView>,
    member: Seq<char>,
    ended: nat,
) -> Option<PunchClockView>
    decreases ended,
{
    if ended == 0 {
        None
    } else {
        let before = member_row(hero, history, member, (ended - 1) as nat);
        let days = gap(history, ended - 1);
        if days > 0 && listed(history, ended - 1, member) {
            Some(
                credited_row(
                    before,
                    hero,
                    member,
                    days as nat,
                    history[ended - 1].shift_start_time,
                ),
            )
        } else {
            before
        }
    }
}

/// A credit changes the row of the credited member and no other.
pub proof fn lemma_row_of_credit(
    rows: Seq<PunchClockView>,
    hero: Seq<char>,
    credited: Seq<char>,
    days: nat,
    boundary: int,
    member: Seq<char>,
)
    ensures
        row_of(credit(rows, hero, credited, days, boundary), member) == if credited == member {
            Some(credited_row(row_of(rows, member), hero, member, days, boundary))
        } else {
            row_of(rows, member)
        },
{
    let after = credit(rows, hero, credited, days, boundary);
    lemma_position_of(rows, credited);
    lemma_position_of(rows, member);
    let at = position_of(rows, member);
    assert forall|j: int| 0 <= j < at implies (#[trigger] after[j]).member != member by {
        assert(after[j].member == rows[j].member);
    }
    if at < rows.len() {
        assert(after[at].member == rows[at].member);
        lemma_position_of_is(after, member, at);
    } else if credited == member {
        lemma_position_of_is(after, member, at);
    } else {
        lemma_position_of_is(after, member, after.len() as int);
    }
}

/// Crediting a set of members changes the rows of those members, once each.
pub proof fn lemma_row_of_credit_all(
    rows: Seq<PunchClockView>,
    hero: Seq<char>,
    members: Seq<Seq<char>>,
    days: nat,
    boundary: int,
    member: Seq<char>,
)
    requires
        distinct(members),
    ensures
        row_of(credit_all(rows, hero, members, days, boundary), member) == if members.contains(
            member,
        ) {
            Some(credited_row(row_of(rows, member), hero, member, days, boundary))
        } else {
            row_of(rows, member)
        },
    decreases members.len(),
{
    if members.len() > 0 {
        let earlier = members.drop_last();
        assert(distinct(earlier)) by {
            assert forall|a: int, b: int| 0 <= a < b < earlier.len() implies earlier[a]
                != earlier[b] by {
                assert(earlier[a] == members[a] && earlier[b] == members[b]);
            }
        }
        lemma_row_of_credit_all(rows, hero, earlier, days, boundary, member);
        lemma_row_of_credit(
            credit_all(rows, hero, earlier, days, boundary),
            hero,
            members.last(),
            days,
            boundary,
            member,
        );
        if earlier.contains(member) {
            let c = choose|c: int| 0 <= c < earlier.len() && earlier[c] == member;
            assert(members[c] == member);
            assert(members.last() != member);
        } else if members.last() == member {
            assert(members[members.len() - 1] == member);
        } else if members.contains(member) {
            let c = choose|c: int| 0 <= c < members.len() && members[c] == member;
            assert(earlier[c] == member);
        }
    }
}

/// The row that a recomputed ledger holds for a member is the row that the
/// history gives the member, and a member whom the history gives no row has
/// none in the ledger.
pub proof fn lemma_ledger_row_of_member(
    hero: Seq<char>,
    history: Seq<ScheduleView>,
    ended: nat,
    member: Seq<char>,
)
    requires
        forall|i: int| 0 <= i < ended ==> distinct((#[trigger] history[i]).assignees),
    ensures
        row_of(ledger_after(hero, history, ended), member) == member_row(
            hero,
            history,
            member,
            ended,
        ),
    decreases ended,
{
    if ended > 0 {
        lemma_ledger_row_of_member(hero, history, (ended - 1) as nat, member);
        let days = gap(history, ended - 1);
        if days > 0 {
            assert(distinct(history[ended - 1].assignees));
            lemma_row_of_credit_all(
                ledger_after(hero, history, (ended - 1) as nat),
                hero,
                history[ended - 1].assignees,
                days as nat,
                history[ended - 1].shift_start_time,
                member,
            );
        }
    }
}

/// The shifts of the history begin one after the other: none begins before
/// its predecessor.
pub open spec fn ascending(history: Seq<ScheduleView>) -> bool {
    forall|i: int, j: int|
        0 <= i <= j < history.len() ==> (#[trigger] history[i]).shift_start_time <= (
        #[trigger] history[j]).shift_start_time
}

/// In a history that is ascending in time, a member's row holds at least one
/// day, belongs to the member and the team, and its punches are in order: the
/// first is not after the latest, and the latest is the start of a shift that
/// has ended.
pub proof fn lemma_member_row_in_order(
    hero: Seq<char>,
    history: Seq<ScheduleView>,
    member: Seq<char>,
    ended: nat,
)
    requires
        ascending(history),
        ended < history.len(),
    ensures
        member_row(hero, history, member, ended) matches Some(row) ==> {
            &&& row.hero == hero
            &&& row.member == member
            &&& row.days > 0
            &&& row.first_punch <= row.last_punch
            &&& row.last_punch <= history[ended - 1].shift_start_time
        },
    decreases ended,
{
    if ended > 0 {
        lemma_member_row_in_order(hero, history, member, (ended - 1) as nat);
        if ended > 1 {
            assert(history[ended - 2].shift_start_time <= history[ended - 1].shift_start_time);
        }
    }
}

/// Why a row could not be advanced.
#[derive(Debug, Clone, Copy, PartialEq, Eq, Structural)]
pub enum LedgerError {
    /// The boundary lies on a later business day than the present: the
    /// count of days since the boundary is negative.
    BoundaryAfterNow,
    /// The row's days and the days since the boundary do not fit together
    /// in the row.
    DaysOverflow,
}

impl LedgerError {
    /// The error in words.
    pub fn message(&self) -> (text: String)
        ensures
            text@ == match *self {
                LedgerError::BoundaryAfterNow => "The shift boundary lies after the present day."@,
                LedgerError::DaysOverflow => "The punch clock cannot hold that many days."@,
            },
    {
        match self {
            LedgerError::BoundaryAfterNow => {
                "The shift boundary lies after the present day.".to_owned()
            },
            LedgerError::DaysOverflow => "The punch clock cannot hold that many days.".to_owned(),
        }
    }
}

/// The view of an optional row.
pub open spec fn row_view(row: Option<PunchClock>) -> Option<PunchClockView> {
    match row {
        Some(r) => Some(r@),
        None => None,
    }
}

/// The row to write when `member` of the team `hero` has reached `boundary`
/// with `elapsed` business days to add, or `None` where nothing is to be
/// written: a member without a row gets one that starts and ends at
/// `boundary`; a row whose latest punch is `boundary` has counted that
/// boundary already and stays; any other row grows by `elapsed`, keeps its
/// first punch and takes `boundary` as its latest.
pub open spec fn advanced_row(
    hero: Seq<char>,
    member: Seq<char>,
    boundary: int,
    elapsed: nat,
    existing: Option<PunchClockView>,
) -> Option<PunchClockView> {
    match existing {
        None => Some(
            PunchClockView {
                hero,
                member,
                days: elapsed,
                first_punch: boundary,
                last_punch: boundary,
            },
        ),
        Some(row) => if row.last_punch == boundary {
            None
        } else {
            Some(
                PunchClockView {
                    hero,
                    member,
                    days: row.days + elapsed,
                    first_punch: row.first_punch,
                    last_punch: boundary,
                },
            )
        },
    }
}

/// What advancing a row comes to when `elapsed` business days, a signed
/// count, lie between the boundary and the present. A boundary that the row
/// has counted already leaves the row as it is, whatever the count. Otherwise
/// a negative count and a sum beyond `u64` are errors, and in every other
/// case the row of [`advanced_row`] is written.
pub open spec fn advance_outcome(
    hero: Seq<char>,
    member: Seq<char>,
    boundary: int,
    elapsed: int,
    existing: Option<PunchClockView>,
) -> Result<Option<PunchClockView>, LedgerError> {
    if existing matches Some(row) && row.last_punch == boundary {
        Ok(None)
    } else if elapsed < 0 {
        Err(LedgerError::BoundaryAfterNow)
    } else if existing matches Some(row) && row.days + elapsed > u64::MAX {
        Err(LedgerError::DaysOverflow)
    } else {
        Ok(advanced_row(hero, member, boundary, elapsed as nat, existing))
    }
}

/// The view of the result of [`advance_ledger`].
pub open spec fn outcome_view(outcome: Result<Option<PunchClock>, LedgerError>) -> Result<
    Option<PunchClockView>,
    LedgerError,
> {
    match outcome {
        Ok(row) => Ok(row_view(row)),
        Err(e) => Err(e),
    }
}

/// Advances the row of `member` on the team `hero` to `new_boundary`, the
/// start of the shift that the member has just left, adding `elapsed`
/// business days. Returns the row to write, or `None` where the row has
/// counted that boundary already and nothing is to be written. A row that is
/// written never holds fewer days than the row it replaces.
pub fn advance_row(
    hero: &String,
    member: &String,
    new_boundary: i64,
    elapsed: u64,
    existing: &Option<PunchClock>,
) -> (update: Option<PunchClock>)
    requires
        existing matches Some(row) ==> (row.last_punch != new_boundary ==> row.days + elapsed
            <= u64::MAX),
    ensures
        row_view(update) == advanced_row(
            hero@,
            member@,
            new_boundary as int,
            elapsed as nat,
            row_view(*existing),
        ),
        update matches Some(written) ==> (*existing matches Some(row) ==> written.days
            >= row.days),
{
    match existing {
        None => Some(
            PunchClock {
                hero: hero.clone(),
                member: member.clone(),
                days: elapsed,
                first_punch: new_boundary,
                last_punch: new_boundary,
            },
        ),
        Some(row) => {
            if row.last_punch != new_boundary {
                Some(
                    PunchClock {
                        hero: hero.clone(),
                        member: member.clone(),
                        days: row.days + elapsed,
                        first_punch: row.first_punch,
                        last_punch: new_boundary,
                    },
                )
            } else {
                None
            }
        },
    }
}

/// Advances the row of `member` on the team `hero` to `new_boundary`, the
/// start of the shift that the member has just left, at the instant `now`:
/// the business days from the boundary to the present are added to the row.
///
/// Returns the row to write; `Ok(None)` where the row has counted that
/// boundary already, so that a second run for one shift change writes
/// nothing; and an error, with nothing to write, where the boundary lies on a
/// later business day than `now` or the row cannot hold the sum.
pub fn advance_ledger(
    hero: &String,
    member: &String,
    new_boundary: i64,
    now: i64,
    existing: &Option<PunchClock>,
) -> (outcome: Result<Option<PunchClock>, LedgerError>)
    requires
        valid_timestamp(new_boundary as int),
        valid_timestamp(now as int),
    ensures
        outcome_view(outcome) == advance_outcome(
            hero@,
            member@,
            new_boundary as int,
            business_days_between(new_boundary as int, now as int),
            row_view(*existing),
        ),
{
    let days: i32 = days_diff(new_boundary, now);
    let counted: bool = match existing {
        Some(row) => row.last_punch == new_boundary,
        None => false,
    };
    if counted {
        return Ok(None);
    }
    if days < 0 {
        return Err(LedgerError::BoundaryAfterNow);
    }
    let elapsed: u64 = days as u64;
    let fits: bool = match existing {
        Some(row) => row.days <= u64::MAX - elapsed,
        None => true,
    };
    if !fits {
        return Err(LedgerError::DaysOverflow);
    }
    Ok(advance_row(hero, member, new_boundary, elapsed, existing))
}

/// An advance never takes days away and never moves the first punch; it
/// moves the latest punch forward where the boundary is not before the punch
/// that the row holds.
pub proof fn lemma_advance_is_monotone(
    hero: Seq<char>,
    member: Seq<char>,
    boundary: int,
    elapsed: int,
    row: PunchClockView,
)
    ensures
        advance_outcome(hero, member, boundary, elapsed, Some(row)) matches Ok(Some(written)) ==> {
            &&& written.days >= row.days
            &&& written.days <= u64::MAX
            &&& written.first_punch == row.first_punch
            &&& written.last_punch == boundary
            &&& row.last_punch <= boundary ==> row.last_punch < written.last_punch
        },
{
}

/// Advancing twice to one boundary writes once: where a first advance gives
/// a row to write, an advance of that row to the same boundary writes
/// nothing, whatever the days that have passed since, so the row keeps its
/// days and its latest punch.
pub proof fn lemma_advance_twice_writes_once(
    hero: Seq<char>,
    member: Seq<char>,
    boundary: int,
    elapsed: int,
    existing: Option<PunchClockView>,
    elapsed_again: int,
)
    ensures
        advance_outcome(hero, member, boundary, elapsed, existing) matches Ok(Some(written))
            ==> written.last_punch == boundary && advance_outcome(
            hero,
            member,
            boundary,
            elapsed_again,
            Some(written),
        ) == Ok::<Option<PunchClockView>, LedgerError>(None),
{
}

} // verus!
