//! The external directory: its groups, the identities it resolves, and the
//! membership that a team's current shift asks for.

use crate::schedule::names;
use vstd::prelude::*;

verus! {

/// A group of the external directory: its identifier and the handle by
/// which a team is matched to it.
#[derive(Debug, PartialEq, Eq)]
pub struct UserGroup {
    pub id: String,
    pub handle: String,
}

/// An earlier spelling of [`UserGroup`].
pub type Usergroup = UserGroup;

/// What a [`UserGroup`] holds, as mathematical values.
pub struct UserGroupView {
    pub id: Seq<char>,
    pub handle: Seq<char>,
}

impl View for UserGroup {
    type V = UserGroupView;

    open spec fn view(&self) -> UserGroupView {
        UserGroupView { id: self.id@, handle: self.handle@ }
    }
}

/// An identity of the external directory.
#[derive(Debug, PartialEq, Eq)]
pub struct User {
    pub id: String,
}

impl View for User {
    type V = Seq<char>;

    open spec fn view(&self) -> Seq<char> {
        self.id@
    }
}

/// The members to set on one group of the external directory.
#[derive(Debug, PartialEq, Eq)]
pub struct MembershipUpdate {
    pub usergroup_id: String,
    pub user_ids: Vec<String>,
}

/// What a [`MembershipUpdate`] holds, as mathematical values.
pub struct MembershipUpdateView {
    pub usergroup_id: Seq<char>,
    pub user_ids: Seq<Seq<char>>,
}

impl View for MembershipUpdate {
    type V = MembershipUpdateView;

    open spec fn view(&self) -> MembershipUpdateView {
        MembershipUpdateView { usergroup_id: self.usergroup_id@, user_ids: names(self.user_ids@) }
    }
}

/// The views of a sequence of groups.
pub open spec fn groups_view(groups: Seq<UserGroup>) -> Seq<UserGroupView> {
    groups.map_values(|g: UserGroup| g@)
}

/// The view of an optional string.
pub open spec fn text_view(text: Option<String>) -> Option<Seq<char>> {
    match text {
        Some(t) => Some(t@),
        None => None,
    }
}

/// The views of a sequence of lookup results.
pub open spec fn lookups_view(lookups: Seq<Option<String>>) -> Seq<Option<Seq<char>>> {
    lookups.map_values(|l: Option<String>| text_view(l))
}

/// The identifier of the group with the given handle. Where several groups
/// of a listing share the handle, the last of them counts.
pub open spec fn group_id_of(groups: Seq<UserGroupView>, handle: Seq<char>) -> Option<Seq<char>>
    decreases groups.len(),
{
    if groups.len() == 0 {
        None
    } else if groups.last().handle == handle {
        Some(groups.last().id)
    } else {
        group_id_of(groups.drop_last(), handle)
    }
}

/// The identities that the lookups resolved, in the order of the lookups;
/// a failed lookup, `None`, contributes nothing.
pub open spec fn resolved(lookups: Seq<Option<Seq<char>>>) -> Seq<Seq<char>>
    decreases lookups.len(),
{
    if lookups.len() == 0 {
        Seq::empty()
    } else {
        match lookups.last() {
            Some(id) => resolved(lookups.drop_last()).push(id),
            None => resolved(lookups.drop_last()),
        }
    }
}

/// The assignees whose lookup failed, in the order of the assignees.
pub open spec fn unresolved(assignees: Seq<Seq<char>>, lookups: Seq<Option<Seq<char>>>) -> Seq<
    Seq<char>,
>
    decreases lookups.len(),
{
    if lookups.len() == 0 || assignees.len() != lookups.len() {
        Seq::empty()
    } else {
        match lookups.last() {
            Some(_) => unresolved(assignees.drop_last(), lookups.drop_last()),
            None => unresolved(assignees.drop_last(), lookups.drop_last()).push(assignees.last()),
        }
    }
}

/// Every lookup is counted once: as resolved or as unresolved.
pub proof fn lemma_lookups_partition(assignees: Seq<Seq<char>>, lookups: Seq<Option<Seq<char>>>)
    requires
        assignees.len() == lookups.len(),
    ensures
        resolved(lookups).len() + unresolved(assignees, lookups).len() == lookups.len(),
        (forall|i: int| 0 <= i < lookups.len() ==> (#[trigger] lookups[i]) is Some) ==> resolved(
            lookups,
        ).len() == lookups.len(),
    decreases lookups.len(),
{
    if lookups.len() > 0 {
        lemma_lookups_partition(assignees.drop_last(), lookups.drop_last());
        if forall|i: int| 0 <= i < lookups.len() ==> (#[trigger] lookups[i]) is Some {
            assert forall|i: int| 0 <= i < lookups.drop_last().len() implies (
            #[trigger] lookups.drop_last()[i]) is Some by {
                assert(lookups[i] is Some);
            }
            assert(lookups[lookups.len() - 1] is Some);
        }
    }
}

/// The identifier of the group whose handle is `handle`, if the listing has
/// one.
pub fn find_usergroup_id(groups: &Vec<UserGroup>, handle: &String) -> (id: Option<String>)
    ensures
        text_view(id) == group_id_of(groups_view(groups@), handle@),
{
    let mut i: usize = groups.len();
    assert(groups_view(groups@).take(groups.len() as int) =~= groups_view(groups@));
    while i > 0
        invariant
            i <= groups.len(),
            group_id_of(groups_view(groups@), handle@) == group_id_of(
                groups_view(groups@).take(i as int),
                handle@,
            ),
        decreases i,
    {
        let ghost upto = groups_view(groups@).take(i as int);
        assert(upto.last() == groups@[i - 1]@);
        assert(upto.drop_last() =~= groups_view(groups@).take(i - 1));
        if groups[i - 1].handle == *handle {
            return Some(groups[i - 1].id.clone());
        }
        i -= 1;
    }
    assert(groups_view(groups@).take(0).len() == 0);
    None
}

/// The identities that the lookups resolved, in order.
pub fn resolved_identities(lookups: &Vec<Option<String>>) -> (user_ids: Vec<String>)
    ensures
        names(user_ids@) == resolved(lookups_view(lookups@)),
{
    let mut user_ids: Vec<String> = Vec::new();
    let mut i: usize = 0;
    assert(lookups_view(lookups@).take(0) =~= Seq::empty());
    assert(names(user_ids@) =~= Seq::empty());
    while i < lookups.len()
        invariant
            i <= lookups.len(),
            names(user_ids@) == resolved(lookups_view(lookups@).take(i as int)),
        decreases lookups.len() - i,
    {
        let ghost upto = lookups_view(lookups@).take(i + 1);
        assert(upto.drop_last() =~= lookups_view(lookups@).take(i as int));
        assert(upto.last() == text_view(lookups@[i as int]));
        match &lookups[i] {
            Some(id) => {
                let ghost before = names(user_ids@);
                user_ids.push(id.clone());
                assert(names(user_ids@) =~= before.push(id@));
            },
            None => {},
        }
        i += 1;
    }
    assert(lookups_view(lookups@).take(lookups.len() as int) =~= lookups_view(lookups@));
    user_ids
}

/// The assignees whose lookup failed, in order: the ones to report.
pub fn unresolved_assignees(assignees: &Vec<String>, lookups: &Vec<Option<String>>) -> (failed: Vec<
    String,
>)
    requires
        assignees.len() == lookups.len(),
    ensures
        names(failed@) == unresolved(names(assignees@), lookups_view(lookups@)),
{
    let mut failed: Vec<String> = Vec::new();
    let mut i: usize = 0;
    assert(lookups_view(lookups@).take(0) =~= Seq::empty());
    assert(names(failed@) =~= Seq::empty());
    while i < lookups.len()
        invariant
            i <= lookups.len(),
            assignees.len() == lookups.len(),
            names(failed@) == unresolved(
                names(assignees@).take(i as int),
                lookups_view(lookups@).take(i as int),
            ),
        decreases lookups.len() - i,
    {
        let ghost upto = lookups_view(lookups@).take(i + 1);
        let ghost who = names(assignees@).take(i + 1);
        assert(upto.drop_last() =~= lookups_view(lookups@).take(i as int));
        assert(who.drop_last() =~= names(assignees@).take(i as int));
        assert(upto.last() == text_view(lookups@[i as int]));
        assert(who.last() == assignees@[i as int]@);
        if lookups[i].is_none() {
            let ghost before = names(failed@);
            failed.push(assignees[i].clone());
            assert(names(failed@) =~= before.push(assignees@[i as int]@));
        }
        i += 1;
    }
    assert(lookups_view(lookups@).take(lookups.len() as int) =~= lookups_view(lookups@));
    assert(names(assignees@).take(assignees.len() as int) =~= names(assignees@));
    failed
}

} // verus!
