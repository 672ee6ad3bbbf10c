//! The query surface the transport layer consumes: each function reads the
//! current snapshot out of the store, runs one aggregation on its own copy,
//! and wraps the payload in a report stamped with a generation timestamp and
//! the measured computation time.
//!
//! A report's payload is always the exact aggregate of one dataset — some
//! generation the store held during the call; under concurrent replacement
//! no caller can know which one, so the contracts quantify over it.

use vstd::prelude::*;
use crate::clock::timestamp_now;
use crate::countries::{is_country_ranking, top_countries, CountrySummary};
use crate::data::{User, UserModel};
use crate::logins::{
    active_users_per_day, all_logs, is_login_report, min_of, total_login_entries, ActiveUserLogin,
};
use crate::store::Root;
use crate::superusers::{superusers, superusers_of};
use crate::teams::{is_team_insights, team_insights, total_completed, total_completed_projects,
    TeamInsight};

verus! {

/// The root greeting.
pub fn index() -> (res: &'static str)
    ensures
        res@ == "Hello, world!"@,
{
    "Hello, world!"
}

/// The superuser report: the matching records in dataset order.
pub struct GetSuperusersResp {
    pub timestamp: String,
    pub execution_time_ms: u128,
    pub user_count: usize,
    pub data: Vec<User>,
}

/// The country-ranking report.
pub struct TopCountriesResp {
    pub timestamp: String,
    pub execution_time_ms: u128,
    pub countries: Vec<CountrySummary>,
}

/// The team-insight report.
pub struct TeamInsightsResp {
    pub timestamp: String,
    pub execution_time_ms: u128,
    pub teams: Vec<TeamInsight>,
}

/// The per-day login report.
pub struct ActiveUsersResp {
    pub timestamp: String,
    pub execution_time_ms: u128,
    pub logins: Vec<ActiveUserLogin>,
}

/// Filters the current snapshot down to its superusers.
pub fn get_superusers(root: &Root) -> (resp: GetSuperusersResp)
    ensures
        resp.user_count == resp.data@.len(),
        exists|snapshot: Seq<UserModel>| resp.data.deep_view() == superusers_of(snapshot),
{
    let start_time = std::time::Instant::now();
    let users = root.get_users();
    let data = superusers(&users);
    proof {
        assert(data.deep_view() == superusers_of(users.deep_view()));
    }
    let elapsed = start_time.elapsed();
    GetSuperusersResp {
        timestamp: timestamp_now(),
        execution_time_ms: elapsed.as_millis(),
        user_count: data.len(),
        data,
    }
}

/// Ranks the countries of the current snapshot.
pub fn get_topcountries(root: &Root) -> (resp: TopCountriesResp)
    ensures
        exists|snapshot: Seq<UserModel>| is_country_ranking(snapshot, resp.countries@),
{
    let start_time = std::time::Instant::now();
    let users = root.get_users();
    let countries = top_countries(&users);
    let elapsed = start_time.elapsed();
    let resp = TopCountriesResp {
        timestamp: timestamp_now(),
        execution_time_ms: elapsed.as_millis(),
        countries,
    };
    proof {
        assert(is_country_ranking(users.deep_view(), resp.countries@));
    }
    resp
}

/// Whether some dataset has `teams` as its exact team-insight report.
pub open spec fn teams_from_snapshot(teams: Seq<TeamInsight>) -> bool {
    exists|snapshot: Seq<UserModel>| is_team_insights(snapshot, teams)
}

/// Whether some dataset has `logins` as its exact per-day login report for
/// threshold `min`.
pub open spec fn logins_from_snapshot(min: nat, logins: Seq<ActiveUserLogin>) -> bool {
    exists|snapshot: Seq<UserModel>| is_login_report(snapshot, min, logins)
}

/// Computes the team insights of the current snapshot. `None` only on the
/// machine limit: a snapshot whose total completed-project count does not
/// fit a `usize`.
pub fn get_team_insights(root: &Root) -> (resp: Option<TeamInsightsResp>)
    ensures
        resp matches Some(r) ==> teams_from_snapshot(r.teams@),
        resp is None ==> exists|snapshot: Seq<UserModel>| total_completed(snapshot) > usize::MAX,
{
    let start_time = std::time::Instant::now();
    let users = root.get_users();
    match total_completed_projects(&users) {
        Some(_) => {
            let teams = team_insights(&users);
            let elapsed = start_time.elapsed();
            let r = TeamInsightsResp {
                timestamp: timestamp_now(),
                execution_time_ms: elapsed.as_millis(),
                teams,
            };
            proof {
                assert(teams_from_snapshot(r.teams@)) by {
                    assert(is_team_insights(users.deep_view(), r.teams@));
                }
            }
            Some(r)
        },
        None => {
            proof {
                assert(exists|snapshot: Seq<UserModel>| total_completed(snapshot) > usize::MAX)
                    by {
                    assert(total_completed(users.deep_view()) > usize::MAX);
                }
            }
            None
        },
    }
}

/// Counts the logins per day of the current snapshot, keeping the days with
/// at least `min` logins. `None` only on the machine limit: a snapshot whose
/// flattened log does not fit a `usize`.
pub fn get_active_users_per_day(min: Option<u16>, root: &Root) -> (resp: Option<ActiveUsersResp>)
    ensures
        resp matches Some(r) ==> logins_from_snapshot(min_of(min), r.logins@),
        resp is None ==> exists|snapshot: Seq<UserModel>| all_logs(snapshot).len() > usize::MAX,
{
    let start_time = std::time::Instant::now();
    let users = root.get_users();
    match total_login_entries(&users) {
        Some(_) => {
            let logins = active_users_per_day(&users, min);
            let elapsed = start_time.elapsed();
            let r = ActiveUsersResp {
                timestamp: timestamp_now(),
                execution_time_ms: elapsed.as_millis(),
                logins,
            };
            proof {
                assert(logins_from_snapshot(min_of(min), r.logins@)) by {
                    assert(is_login_report(users.deep_view(), min_of(min), r.logins@));
                }
            }
            Some(r)
        },
        None => {
            proof {
                assert(exists|snapshot: Seq<UserModel>| all_logs(snapshot).len() > usize::MAX)
                    by {
                    assert(all_logs(users.deep_view()).len() > usize::MAX);
                }
            }
            None
        },
    }
}

} // verus!
