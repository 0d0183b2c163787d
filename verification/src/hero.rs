//! Teams and the changes that can be asked of their member lists.

use crate::schedule::names;
use vstd::prelude::*;

verus! {

/// A team: its name, everyone who has ever been assigned to one of its
/// shifts, and the channel, if any, in which its shift changes are announced.
#[derive(Debug, PartialEq, Eq)]
pub struct Hero {
    pub name: String,
    pub members: Vec<String>,
    pub channel: Option<String>,
}

/// What a [`Hero`] holds, as mathematical values.
pub struct HeroView {
    pub name: Seq<char>,
    pub members: Seq<Seq<char>>,
    pub channel: Option<Seq<char>>,
}

impl View for Hero {
    type V = HeroView;

    open spec fn view(&self) -> HeroView {
        HeroView {
            name: self.name@,
            members: names(self.members@),
            channel: match self.channel {
                Some(c) => Some(c@),
                None => None,
            },
        }
    }
}

/// A change to the members of a team: a set of names to add or to take away.
#[derive(Debug, Clone, Copy, PartialEq, Eq, Structural)]
pub enum UpdateOperation {
    Add,
    Delete,
}

impl UpdateOperation {
    /// The update expression by which the store applies the change to the
    /// set attribute `members`.
    pub fn update_expression(&self) -> (expression: String)
        ensures
            expression@ == match *self {
                UpdateOperation::Add => "ADD members :m"@,
                UpdateOperation::Delete => "DELETE members :m"@,
            },
    {
        match self {
            UpdateOperation::Add => "ADD members :m".to_owned(),
            UpdateOperation::Delete => "DELETE members :m".to_owned(),
        }
    }
}

} // verus!
