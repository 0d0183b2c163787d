//! What can go wrong at the edges of the service, each with its message.

use vstd::prelude::*;

verus! {

/// The listing of teams failed.
#[derive(Debug, Clone, Copy, PartialEq, Eq, Structural)]
pub enum HeroListError {
    NoneScan,
}

impl HeroListError {
    /// The error in words.
    pub fn message(&self) -> (text: String)
        ensures
            text@ == "Scan of league table failed!"@,
    {
        match self {
            HeroListError::NoneScan => "Scan of league table failed!".to_owned(),
        }
    }
}

/// A team could not be fetched.
#[derive(Debug, Clone, Copy, PartialEq, Eq, Structural)]
pub enum HeroGetError {
    HeroParameterMissing,
}

impl HeroGetError {
    /// The error in words.
    pub fn message(&self) -> (text: String)
        ensures
            text@ == "`hero` is missing in `pathParameters`!"@,
    {
        match self {
            HeroGetError::HeroParameterMissing => {
                "`hero` is missing in `pathParameters`!".to_owned()
            },
        }
    }
}

/// The shifts of a team could not be fetched.
#[derive(Debug, Clone, Copy, PartialEq, Eq, Structural)]
pub enum ScheduleGetError {
    HeroParameterMissing,
}

impl ScheduleGetError {
    /// The error in words.
    pub fn message(&self) -> (text: String)
        ensures
            text@ == "`hero` is missing in `pathParameters`!"@,
    {
        match self {
            ScheduleGetError::HeroParameterMissing => {
                "`hero` is missing in `pathParameters`!".to_owned()
            },
        }
    }
}

/// A shift could not be changed.
#[derive(Debug, Clone, Copy, PartialEq, Eq, Structural)]
pub enum ScheduleUpdateError {
    HeroParameterMissing,
    AssigneesMissing,
}

impl ScheduleUpdateError {
    /// The error in words.
    pub fn message(&self) -> (text: String)
        ensures
            text@ == match *self {
                ScheduleUpdateError::HeroParameterMissing => {
                    "`hero` is missing in `pathParameters`!"@
                },
                ScheduleUpdateError::AssigneesMissing => "`assignees` not specified in the body"@,
            },
    {
        match self {
            ScheduleUpdateError::HeroParameterMissing => {
                "`hero` is missing in `pathParameters`!".to_owned()
            },
            ScheduleUpdateError::AssigneesMissing => {
                "`assignees` not specified in the body".to_owned()
            },
        }
    }
}

/// The external directory answered, and refused.
#[derive(Debug, Clone, Copy, PartialEq, Eq, Structural)]
pub enum SlackUsergroupUsersUpdateError {
    NotOk,
}

impl SlackUsergroupUsersUpdateError {
    /// The error in words.
    pub fn message(&self) -> (text: String)
        ensures
            text@ == "Slack response field `ok` is false!"@,
    {
        match self {
            SlackUsergroupUsersUpdateError::NotOk => {
                "Slack response field `ok` is false!".to_owned()
            },
        }
    }
}

/// A user could not be stored.
#[derive(Debug, Clone, Copy, PartialEq, Eq, Structural)]
pub enum UserPutError {
    NoEmailProvided,
}

impl UserPutError {
    /// The error in words.
    pub fn message(&self) -> (text: String)
        ensures
            text@ == "No `email` parameter provided"@,
    {
        match self {
            UserPutError::NoEmailProvided => "No `email` parameter provided".to_owned(),
        }
    }
}

/// A store could not be read.
#[derive(Debug, Clone, Copy, PartialEq, Eq, Structural)]
pub enum RepositoryError {
    NoneScan,
}

impl RepositoryError {
    /// The error in words.
    pub fn message(&self) -> (text: String)
        ensures
            text@ == "Scan of league table failed!"@,
    {
        match self {
            RepositoryError::NoneScan => "Scan of league table failed!".to_owned(),
        }
    }
}

} // verus!
