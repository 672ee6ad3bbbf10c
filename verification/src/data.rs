//! The dataset's record types and their mathematical models.
//!
//! A dataset is an ordered `Vec<User>`; duplicates are legal and are simply
//! double-counted by the aggregations. Each record type has a deep view
//! (`deep_view`) into a model struct over `Seq<char>` and `Seq<_>`, and a
//! `Clone` that is proved to preserve that view, so that a copied snapshot
//! models the same dataset as the original.

use vstd::prelude::*;

verus! {

/// One project owned by a team membership.
#[derive(Debug, PartialEq)]
pub struct TeamProject {
    pub name: String,
    pub completed: bool,
}

/// A user's team membership: the team name is the grouping key (not globally
/// unique), the leader flag belongs to the membership, not to the team.
#[derive(Debug, PartialEq)]
pub struct UserTeam {
    pub name: String,
    pub leader: bool,
    pub projects: Vec<TeamProject>,
}

/// One login-log entry: a calendar day (string-comparable) and an action label.
#[derive(Debug, PartialEq)]
pub struct UserLog {
    pub date: String,
    pub action: String,
}

/// One user record. A user always has exactly one team membership; the log
/// sequence keeps insertion order.
#[derive(Debug, PartialEq)]
pub struct User {
    pub id: String,
    pub name: String,
    pub age: u8,
    pub score: u16,
    pub active: bool,
    pub country: String,
    pub team: UserTeam,
    pub logs: Vec<UserLog>,
}

/// Mathematical model of a [`TeamProject`].
#[verifier::ext_equal]
pub struct ProjectModel {
    pub name: Seq<char>,
    pub completed: bool,
}

/// Mathematical model of a [`UserTeam`].
#[verifier::ext_equal]
pub struct TeamModel {
    pub name: Seq<char>,
    pub leader: bool,
    pub projects: Seq<ProjectModel>,
}

/// Mathematical model of a [`UserLog`].
#[verifier::ext_equal]
pub struct LogModel {
    pub date: Seq<char>,
    pub action: Seq<char>,
}

/// Mathematical model of a [`User`].
#[verifier::ext_equal]
pub struct UserModel {
    pub id: Seq<char>,
    pub name: Seq<char>,
    pub age: u8,
    pub score: u16,
    pub active: bool,
    pub country: Seq<char>,
    pub team: TeamModel,
    pub logs: Seq<LogModel>,
}

impl DeepView for TeamProject {
    type V = ProjectModel;

    open spec fn deep_view(&self) -> ProjectModel {
        ProjectModel { name: self.name@, completed: self.completed }
    }
}

impl DeepView for UserTeam {
    type V = TeamModel;

    open spec fn deep_view(&self) -> TeamModel {
        TeamModel {
            name: self.name@,
            leader: self.leader,
            projects: self.projects.deep_view(),
        }
    }
}

impl DeepView for UserLog {
    type V = LogModel;

    open spec fn deep_view(&self) -> LogModel {
        LogModel { date: self.date@, action: self.action@ }
    }
}

impl DeepView for User {
    type V = UserModel;

    open spec fn deep_view(&self) -> UserModel {
        UserModel {
            id: self.id@,
            name: self.name@,
            age: self.age,
            score: self.score,
            active: self.active,
            country: self.country@,
            team: self.team.deep_view(),
            logs: self.logs.deep_view(),
        }
    }
}

impl Clone for TeamProject {
    fn clone(&self) -> (res: Self)
        ensures
            res.deep_view() == self.deep_view(),
    {
        TeamProject { name: self.name.clone(), completed: self.completed }
    }
}

impl Clone for UserTeam {
    fn clone(&self) -> (res: Self)
        ensures
            res.deep_view() == self.deep_view(),
    {
        let projects = self.projects.clone();
        proof {
            assert(projects.deep_view() =~= self.projects.deep_view());
        }
        UserTeam { name: self.name.clone(), leader: self.leader, projects }
    }
}

impl Clone for UserLog {
    fn clone(&self) -> (res: Self)
        ensures
            res.deep_view() == self.deep_view(),
    {
        UserLog { date: self.date.clone(), action: self.action.clone() }
    }
}

impl Clone for User {
    fn clone(&self) -> (res: Self)
        ensures
            res.deep_view() == self.deep_view(),
    {
        let logs = self.logs.clone();
        proof {
            assert(logs.deep_view() =~= self.logs.deep_view());
        }
        User {
            id: self.id.clone(),
            name: self.name.clone(),
            age: self.age,
            score: self.score,
            active: self.active,
            country: self.country.clone(),
            team: self.team.clone(),
            logs,
        }
    }
}

} // verus!
