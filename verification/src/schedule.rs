//! Shift assignments and the two most recent shift windows of a team.

use vstd::prelude::*;

verus! {

/// One shift of a team: who is assigned from `shift_start_time` (seconds
/// since the Unix epoch) until the team's next shift begins.
#[derive(Debug, PartialEq, Eq)]
pub struct Schedule {
    pub hero: String,
    pub shift_start_time: i64,
    pub assignees: Vec<String>,
    pub repeat_every_days: Option<i32>,
}

/// What a [`Schedule`] holds, as mathematical values.
pub struct ScheduleView {
    pub hero: Seq<char>,
    pub shift_start_time: int,
    pub assignees: Seq<Seq<char>>,
    pub repeat_every_days: Option<int>,
}

/// The texts of a sequence of strings.
pub open spec fn names(strings: Seq<String>) -> Seq<Seq<char>> {
    strings.map_values(|s: String| s@)
}

/// No text occurs twice.
pub open spec fn distinct(texts: Seq<Seq<char>>) -> bool {
    forall|a: int, b: int| 0 <= a < b < texts.len() ==> texts[a] != texts[b]
}

/// The views of a sequence of shifts.
pub open spec fn history_view(schedules: Seq<Schedule>) -> Seq<ScheduleView> {
    schedules.map_values(|s: Schedule| s@)
}

impl View for Schedule {
    type V = ScheduleView;

    open spec fn view(&self) -> ScheduleView {
        ScheduleView {
            hero: self.hero@,
            shift_start_time: self.shift_start_time as int,
            assignees: names(self.assignees@),
            repeat_every_days: match self.repeat_every_days {
                Some(days) => Some(days as int),
                None => None,
            },
        }
    }
}

/// A copy of a list of strings.
pub fn clone_names(strings: &Vec<String>) -> (copy: Vec<String>)
    ensures
        names(copy@) == names(strings@),
{
    let mut copy: Vec<String> = Vec::new();
    let mut i: usize = 0;
    while i < strings.len()
        invariant
            i <= strings.len(),
            copy@.len() == i,
            names(copy@) == names(strings@).take(i as int),
        decreases strings.len() - i,
    {
        let ghost before = copy@;
        let item = strings[i].clone();
        copy.push(item);
        i += 1;
        assert(names(copy@) =~= names(before).push(item@));
        assert(names(copy@) =~= names(strings@).take(i as int));
    }
    assert(names(strings@).take(strings.len() as int) =~= names(strings@));
    copy
}

/// Whether `needle` occurs among the first `end` strings.
pub fn occurs_before(strings: &Vec<String>, end: usize, needle: &String) -> (found: bool)
    requires
        end <= strings.len(),
    ensures
        found == names(strings@).take(end as int).contains(needle@),
{
    let mut i: usize = 0;
    while i < end
        invariant
            i <= end <= strings.len(),
            !names(strings@).take(i as int).contains(needle@),
        decreases end - i,
    {
        if strings[i] == *needle {
            assert(names(strings@).take(end as int)[i as int] == needle@);
            return true;
        }
        assert(names(strings@).take(i + 1) == names(strings@).take(i as int).push(
            names(strings@)[i as int],
        ));
        i += 1;
    }
    false
}

impl Clone for Schedule {
    fn clone(&self) -> (copy: Self)
        ensures
            copy@ == self@,
    {
        Schedule {
            hero: self.hero.clone(),
            shift_start_time: self.shift_start_time,
            assignees: clone_names(&self.assignees),
            repeat_every_days: self.repeat_every_days,
        }
    }
}

impl Schedule {
    /// The assignees form a set: no identifier is listed twice.
    pub open spec fn well_formed(&self) -> bool {
        distinct(self@.assignees)
    }

    /// Whether the assignees form a set.
    pub fn has_distinct_assignees(&self) -> (ok: bool)
        ensures
            ok == self.well_formed(),
    {
        let mut i: usize = 0;
        while i < self.assignees.len()
            invariant
                i <= self.assignees.len(),
                distinct(names(self.assignees@).take(i as int)),
            decreases self.assignees.len() - i,
        {
            if occurs_before(&self.assignees, i, &self.assignees[i]) {
                proof {
                    let texts = names(self.assignees@);
                    let a = choose|a: int|
                        0 <= a < texts.take(i as int).len() && texts.take(i as int)[a]
                            == self.assignees[i as int]@;
                    assert(texts[a] == texts[i as int]);
                }
                return false;
            }
            assert(names(self.assignees@).take(i + 1) == names(self.assignees@).take(
                i as int,
            ).push(names(self.assignees@)[i as int]));
            i += 1;
        }
        assert(names(self.assignees@).take(self.assignees.len() as int) == names(
            self.assignees@,
        ));
        true
    }
}

/// The most recent shift of a team and, where the team has an earlier one,
/// the shift just before it.
#[derive(Debug, PartialEq, Eq)]
pub struct LastTwoSchedules {
    pub last: Schedule,
    pub previous_to_last: Option<Schedule>,
}

/// What a [`LastTwoSchedules`] holds, as mathematical values.
pub struct LastTwoSchedulesView {
    pub last: ScheduleView,
    pub previous_to_last: Option<ScheduleView>,
}

impl View for LastTwoSchedules {
    type V = LastTwoSchedulesView;

    open spec fn view(&self) -> LastTwoSchedulesView {
        LastTwoSchedulesView {
            last: self.last@,
            previous_to_last: match self.previous_to_last {
                Some(previous) => Some(previous@),
                None => None,
            },
        }
    }
}

/// The windows that a list of shifts, most recent first, stands for: one
/// shift is a current window without a previous one, two shifts are the
/// current and the previous window, and any other number is no window.
pub open spec fn windows_of(recent: Seq<ScheduleView>) -> Option<LastTwoSchedulesView> {
    if recent.len() == 1 {
        Some(LastTwoSchedulesView { last: recent[0], previous_to_last: None })
    } else if recent.len() == 2 {
        Some(LastTwoSchedulesView { last: recent[0], previous_to_last: Some(recent[1]) })
    } else {
        None
    }
}

/// The view of an optional pair of windows.
pub open spec fn windows_view(windows: Option<LastTwoSchedules>) -> Option<LastTwoSchedulesView> {
    match windows {
        Some(w) => Some(w@),
        None => None,
    }
}

/// The view of an optional shift.
pub open spec fn shift_view(shift: Option<Schedule>) -> Option<ScheduleView> {
    match shift {
        Some(s) => Some(s@),
        None => None,
    }
}

/// What the schedule store owes when it is asked for the `limit` most recent
/// shifts of the team `hero` that began at or before `timestamp`: no more
/// than `limit` shifts, all of that team, none begun after `timestamp`, the
/// most recent first. (Whether a more recent shift was left out, only the
/// store can tell.)
pub open spec fn is_recent_answer(
    answer: Seq<ScheduleView>,
    hero: Seq<char>,
    timestamp: int,
    limit: int,
) -> bool {
    &&& answer.len() <= limit
    &&& forall|i: int|
        0 <= i < answer.len() ==> (#[trigger] answer[i]).hero == hero
            && answer[i].shift_start_time <= timestamp
    &&& forall|i: int, j: int|
        0 <= i < j < answer.len() ==> (#[trigger] answer[i]).shift_start_time > (
        #[trigger] answer[j]).shift_start_time
}

/// Whether a list of shifts is an answer that the schedule store may give to
/// the question for the `limit` most recent shifts of `hero` at or before
/// `timestamp`.
pub fn check_recent_answer(
    answer: &Vec<Schedule>,
    hero: &String,
    timestamp: i64,
    limit: usize,
) -> (ok: bool)
    ensures
        ok == is_recent_answer(history_view(answer@), hero@, timestamp as int, limit as int),
{
    if answer.len() > limit {
        return false;
    }
    let ghost shifts = history_view(answer@);
    let mut i: usize = 0;
    while i < answer.len()
        invariant
            i <= answer.len() <= limit,
            shifts == history_view(answer@),
            is_recent_answer(shifts.take(i as int), hero@, timestamp as int, limit as int),
        decreases answer.len() - i,
    {
        let shift = &answer[i];
        assert(shifts[i as int] == shift@);
        let in_order: bool = i == 0 || answer[i - 1].shift_start_time > shift.shift_start_time;
        if !(shift.hero == *hero) || shift.shift_start_time > timestamp || !in_order {
            assert(i > 0 ==> shifts[i - 1] == answer@[i - 1]@);
            return false;
        }
        assert forall|a: int, b: int| 0 <= a < b < i + 1 implies (#[trigger] shifts.take(
            i + 1,
        )[a]).shift_start_time > (#[trigger] shifts.take(i + 1)[b]).shift_start_time by {
            assert(shifts.take(i + 1)[a] == shifts.take(i as int)[a]);
            if b < i {
                assert(shifts.take(i + 1)[b] == shifts.take(i as int)[b]);
            } else if a < i - 1 {
                assert(shifts.take(i as int)[i - 1] == answer@[i - 1]@);
            } else {
                assert(shifts.take(i as int)[a] == answer@[i - 1]@);
            }
        }
        assert forall|a: int| 0 <= a < i + 1 implies (#[trigger] shifts.take(i + 1)[a]).hero
            == hero@ && shifts.take(i + 1)[a].shift_start_time <= timestamp by {
            if a < i {
                assert(shifts.take(i + 1)[a] == shifts.take(i as int)[a]);
            }
        }
        i += 1;
    }
    assert(shifts.take(answer.len() as int) =~= shifts);
    true
}

impl LastTwoSchedules {
    /// Reads the answer to "the two most recent shifts at or before now",
    /// most recent first, as the current and the previous window.
    pub fn from_most_recent(schedules: Vec<Schedule>) -> (windows: Option<LastTwoSchedules>)
        ensures
            windows_view(windows) == windows_of(history_view(schedules@)),
    {
        let mut schedules = schedules;
        let ghost recent = history_view(schedules@);
        if schedules.len() == 1 {
            let last = schedules.pop().unwrap();
            assert(last@ == recent[0]);
            Some(LastTwoSchedules { last, previous_to_last: None })
        } else if schedules.len() == 2 {
            let previous = schedules.pop().unwrap();
            let last = schedules.pop().unwrap();
            assert(last@ == recent[0]);
            assert(previous@ == recent[1]);
            Some(LastTwoSchedules { last, previous_to_last: Some(previous) })
        } else {
            None
        }
    }
}

/// The most recent shift of a list that holds the most recent first.
pub fn most_recent(schedules: Vec<Schedule>) -> (first: Option<Schedule>)
    ensures
        shift_view(first) == if schedules.len() == 0 {
            None
        } else {
            Some(schedules[0]@)
        },
{
    let mut schedules = schedules;
    if schedules.len() == 0 {
        None
    } else {
        Some(schedules.remove(0))
    }
}

/// A change to the assignees of a shift: a set of identifiers to add or to
/// take away.
#[derive(Debug, Clone, Copy, PartialEq, Eq, Structural)]
pub enum Operation {
    Add,
    Delete,
}

/// The operation that a word names: `ADD` or `DELETE`, in capitals.
pub open spec fn operation_named(word: Seq<char>) -> Option<Operation> {
    if word == "ADD"@ {
        Some(Operation::Add)
    } else if word == "DELETE"@ {
        Some(Operation::Delete)
    } else {
        None
    }
}

impl Operation {
    /// Reads an operation from its name.
    pub fn parse(word: &str) -> (operation: Option<Operation>)
        ensures
            operation == operation_named(word@),
    {
        let text = word.to_owned();
        if text == "ADD".to_owned() {
            Some(Operation::Add)
        } else if text == "DELETE".to_owned() {
            Some(Operation::Delete)
        } else {
            None
        }
    }

    /// The update expression by which the store applies the change to the
    /// set attribute `assignees`.
    pub fn update_expression(&self) -> (expression: String)
        ensures
            expression@ == match *self {
                Operation::Add => "ADD assignees :a"@,
                Operation::Delete => "DELETE assignees :a"@,
            },
    {
        match self {
            Operation::Add => "ADD assignees :a".to_owned(),
            Operation::Delete => "DELETE assignees :a".to_owned(),
        }
    }
}

impl core::str::FromStr for Operation {
    type Err = ();

    fn from_str(s: &str) -> (operation: Result<Operation, ()>)
        ensures
            operation == match operation_named(s@) {
                Some(named) => Ok::<Operation, ()>(named),
                None => Err::<Operation, ()>(()),
            },
    {
        match Operation::parse(s) {
            Some(operation) => Ok(operation),
            None => Err(()),
        }
    }
}

} // verus!
