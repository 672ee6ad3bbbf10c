//! Team insights: groups users by team name and accumulates, per team, the
//! member count, the leader count, the completed-project count and a running
//! active-percentage.
//!
//! The running percentage is fixed-point: after every insertion it is
//! recomputed as `(active_members * 1000) / members`, i.e. the percentage
//! truncated (not rounded) to one decimal place, stored in tenths of a
//! percent. Output entries are in first-seen order of the team names (the
//! grouping order is not part of the interface).

use vstd::prelude::*;
use vstd::arithmetic::div_mod::{lemma_div_is_ordered, lemma_div_multiples_vanish};
use crate::data::{ProjectModel, User, UserModel};

verus! {

/// The accumulated insight for one team.
pub struct TeamInsight {
    pub team: String,
    pub total_members: usize,
    pub leaders: usize,
    pub completed_projects: usize,
    /// The running active-percentage, in tenths of a percent (one truncated
    /// decimal place): `66.6%` is stored as `666`.
    pub active_percentage_tenths: u32,
    pub active_count: usize,
}

/// The distinct team names of the dataset, in first-seen order.
pub open spec fn distinct_teams(users: Seq<UserModel>) -> Seq<Seq<char>>
    decreases users.len(),
{
    if users.len() == 0 {
        Seq::empty()
    } else {
        let rest = distinct_teams(users.drop_last());
        if rest.contains(users.last().team.name) {
            rest
        } else {
            rest.push(users.last().team.name)
        }
    }
}

/// How many users belong to team `t`.
pub open spec fn team_members(users: Seq<UserModel>, t: Seq<char>) -> nat
    decreases users.len(),
{
    if users.len() == 0 {
        0
    } else {
        team_members(users.drop_last(), t) + (if users.last().team.name == t {
            1nat
        } else {
            0nat
        })
    }
}

/// How many users of team `t` carry the leader flag.
pub open spec fn team_leaders(users: Seq<UserModel>, t: Seq<char>) -> nat
    decreases users.len(),
{
    if users.len() == 0 {
        0
    } else {
        team_leaders(users.drop_last(), t) + (if users.last().team.name == t
            && users.last().team.leader {
            1nat
        } else {
            0nat
        })
    }
}

/// How many users of team `t` are active.
pub open spec fn team_active(users: Seq<UserModel>, t: Seq<char>) -> nat
    decreases users.len(),
{
    if users.len() == 0 {
        0
    } else {
        team_active(users.drop_last(), t) + (if users.last().team.name == t
            && users.last().active {
            1nat
        } else {
            0nat
        })
    }
}

/// How many of these projects are completed.
pub open spec fn completed_in(projects: Seq<ProjectModel>) -> nat
    decreases projects.len(),
{
    if projects.len() == 0 {
        0
    } else {
        completed_in(projects.drop_last()) + (if projects.last().completed {
            1nat
        } else {
            0nat
        })
    }
}

/// The completed-project count summed over every member of team `t`.
pub open spec fn team_completed(users: Seq<UserModel>, t: Seq<char>) -> nat
    decreases users.len(),
{
    if users.len() == 0 {
        0
    } else {
        team_completed(users.drop_last(), t) + (if users.last().team.name == t {
            completed_in(users.last().team.projects)
        } else {
            0nat
        })
    }
}

/// The completed-project count summed over the whole dataset.
pub open spec fn total_completed(users: Seq<UserModel>) -> nat
    decreases users.len(),
{
    if users.len() == 0 {
        0
    } else {
        total_completed(users.drop_last()) + completed_in(users.last().team.projects)
    }
}

/// The active-percentage in truncated tenths of a percent: the integer part
/// of `active / total * 1000`, and 0 for an empty group.
pub open spec fn pct_tenths(active: nat, total: nat) -> nat {
    if total == 0 {
        0
    } else {
        (active * 1000) / total
    }
}

/// An empty dataset has no teams.
pub proof fn lemma_distinct_teams_empty()
    ensures
        distinct_teams(Seq::<UserModel>::empty()) == Seq::<Seq<char>>::empty(),
{
}

/// The team-insight report of an empty dataset is empty, never an error.
pub proof fn lemma_empty_dataset_insights(res: Seq<TeamInsight>)
    requires
        is_team_insights(Seq::<UserModel>::empty(), res),
    ensures
        res == Seq::<TeamInsight>::empty(),
{
    lemma_distinct_teams_empty();
    assert(res =~= Seq::<TeamInsight>::empty());
}

/// The truncated percentage of a group never exceeds 100.0% (1000 tenths).
proof fn lemma_pct_le_1000(active: nat, total: nat)
    requires
        active <= total,
    ensures
        pct_tenths(active, total) <= 1000,
{
    if total > 0 {
        assert(active * 1000 <= total * 1000) by (nonlinear_arith)
            requires
                active <= total,
        ;
        lemma_div_is_ordered((active * 1000) as int, (total * 1000) as int, total as int);
        lemma_div_multiples_vanish(1000, total as int);
        assert(total * 1000 == (total as int) * 1000);
    }
}

/// A team's member count never exceeds the dataset's length; the active and
/// leader counts never exceed the member count; a team with no member has no
/// completed project.
proof fn lemma_team_counts(users: Seq<UserModel>, t: Seq<char>)
    ensures
        team_members(users, t) <= users.len(),
        team_active(users, t) <= team_members(users, t),
        team_leaders(users, t) <= team_members(users, t),
        team_completed(users, t) <= total_completed(users),
        team_members(users, t) == 0 ==> team_completed(users, t) == 0,
    decreases users.len(),
{
    if users.len() > 0 {
        lemma_team_counts(users.drop_last(), t);
    }
}

/// A team name is listed among the distinct teams iff its member count is
/// positive.
proof fn lemma_distinct_teams_iff_members(users: Seq<UserModel>, t: Seq<char>)
    ensures
        distinct_teams(users).contains(t) <==> team_members(users, t) > 0,
    decreases users.len(),
{
    if users.len() == 0 {
    } else {
        let rest = users.drop_last();
        lemma_distinct_teams_iff_members(rest, t);
        let dr = distinct_teams(rest);
        let d = distinct_teams(users);
        if users.last().team.name == t {
            assert(d.contains(t)) by {
                if dr.contains(t) {
                } else {
                    assert(d == dr.push(t));
                    assert(d[dr.len() as int] == t);
                }
            }
        } else {
            assert(d.contains(t) <==> dr.contains(t)) by {
                if dr.contains(t) {
                    let i = choose|i: int| 0 <= i < dr.len() && dr[i] == t;
                    assert(d[i] == t);
                } else if d.contains(t) {
                    let i = choose|i: int| 0 <= i < d.len() && d[i] == t;
                    if !dr.contains(users.last().team.name) {
                        assert(d == dr.push(users.last().team.name));
                        assert(i < dr.len() ==> dr[i] == t);
                    }
                }
            }
        }
    }
}

/// The distinct-team sequence has no repeated entries.
proof fn lemma_distinct_teams_no_dup(users: Seq<UserModel>)
    ensures
        forall|k: int, l: int|
            0 <= k < l < distinct_teams(users).len() ==> distinct_teams(users)[k]
                != distinct_teams(users)[l],
    decreases users.len(),
{
    if users.len() > 0 {
        let rest = users.drop_last();
        lemma_distinct_teams_no_dup(rest);
        let dr = distinct_teams(rest);
        let d = distinct_teams(users);
        if !dr.contains(users.last().team.name) {
            assert forall|k: int, l: int| 0 <= k < l < d.len() implies d[k] != d[l] by {
                if l == d.len() - 1 {
                    assert(d[l] == users.last().team.name);
                    assert(dr[k] == d[k]);
                    assert(!(exists|i: int|
                        0 <= i < dr.len() && dr[i] == users.last().team.name));
                }
            }
        }
    }
}

/// A prefix of the dataset never has more completed projects than the whole.
proof fn lemma_total_completed_take(users: Seq<UserModel>, k: int)
    requires
        0 <= k <= users.len(),
    ensures
        total_completed(users.take(k)) <= total_completed(users),
    decreases users.len(),
{
    if k == users.len() {
        assert(users.take(k) =~= users);
    } else {
        assert(users.drop_last().take(k) =~= users.take(k));
        lemma_total_completed_take(users.drop_last(), k);
    }
}

impl TeamInsight {
    /// The accumulator's internal consistency: the counters are mutually
    /// bounded and the stored percentage is the truncated percentage of the
    /// counters.
    pub open spec fn wf(&self) -> bool {
        &&& self.active_count <= self.total_members
        &&& self.leaders <= self.total_members
        &&& self.active_percentage_tenths == pct_tenths(
            self.active_count as nat,
            self.total_members as nat,
        )
    }

    /// A fresh, zeroed accumulator for the team named `team`.
    pub fn new(team: String) -> (res: TeamInsight)
        ensures
            res.wf(),
            res.team@ == team@,
            res.total_members == 0,
            res.leaders == 0,
            res.completed_projects == 0,
            res.active_count == 0,
            res.active_percentage_tenths == 0,
    {
        TeamInsight {
            team,
            total_members: 0,
            leaders: 0,
            completed_projects: 0,
            active_percentage_tenths: 0,
            active_count: 0,
        }
    }

    /// Folds one more member into the accumulator: bumps the member count,
    /// the active and leader counts and the completed-project count, and
    /// recomputes the running truncated percentage from the new counters.
    pub fn update_with_user(&mut self, u: &User)
        requires
            old(self).wf(),
            old(self).total_members < usize::MAX,
            old(self).completed_projects + completed_in(u.deep_view().team.projects) <= usize::MAX,
        ensures
            final(self).wf(),
            final(self).team == old(self).team,
            final(self).total_members == old(self).total_members + 1,
            final(self).active_count == old(self).active_count + (if u.deep_view().active {
                1int
            } else {
                0int
            }),
            final(self).leaders == old(self).leaders + (if u.deep_view().team.leader {
                1int
            } else {
                0int
            }),
            final(self).completed_projects == old(self).completed_projects + completed_in(
                u.deep_view().team.projects,
            ),
            final(self).active_percentage_tenths == pct_tenths(
                final(self).active_count as nat,
                final(self).total_members as nat,
            ),
    {
        self.total_members = self.total_members + 1;
        if u.active {
            self.active_count = self.active_count + 1;
        }
        proof {
            lemma_pct_le_1000(self.active_count as nat, self.total_members as nat);
        }
        let tenths = ((self.active_count as u128) * 1000) / (self.total_members as u128);
        self.active_percentage_tenths = tenths as u32;
        if u.team.leader {
            self.leaders = self.leaders + 1;
        }
        let done = completed_projects_of(u);
        self.completed_projects = self.completed_projects + done;
    }
}

/// Counts the completed projects of one user's team membership.
fn completed_projects_of(u: &User) -> (done: usize)
    ensures
        done == completed_in(u.deep_view().team.projects),
{
    let ghost pv = u.team.projects.deep_view();
    let mut done: usize = 0;
    let mut j: usize = 0;
    while j < u.team.projects.len()
        invariant
            j <= u.team.projects@.len(),
            pv == u.team.projects.deep_view(),
            pv.len() == u.team.projects@.len(),
            done == completed_in(pv.take(j as int)),
            done <= j,
        decreases u.team.projects@.len() - j,
    {
        proof {
            assert(pv.take(j + 1).drop_last() =~= pv.take(j as int));
            assert(pv.take(j + 1).last() == pv[j as int]);
        }
        if u.team.projects[j].completed {
            done = done + 1;
        }
        j = j + 1;
    }
    proof {
        assert(pv.take(u.team.projects@.len() as int) =~= pv);
    }
    done
}

/// Sums the completed-project count over the whole dataset, reporting
/// overflow instead of wrapping: the sum is returned exactly when it fits a
/// `usize`.
pub fn total_completed_projects(users: &Vec<User>) -> (res: Option<usize>)
    ensures
        match res {
            Some(n) => n == total_completed(users.deep_view()),
            None => total_completed(users.deep_view()) > usize::MAX,
        },
{
    let ghost dv = users.deep_view();
    let mut acc: usize = 0;
    let mut i: usize = 0;
    while i < users.len()
        invariant
            i <= users.len(),
            dv == users.deep_view(),
            dv.len() == users@.len(),
            acc == total_completed(dv.take(i as int)),
        decreases users@.len() - i,
    {
        proof {
            assert(dv[i as int] == users@[i as int].deep_view());
            assert(dv.take(i + 1).drop_last() =~= dv.take(i as int));
            assert(dv.take(i + 1).last() == dv[i as int]);
        }
        let c = completed_projects_of(&users[i]);
        if acc > usize::MAX - c {
            proof {
                lemma_total_completed_take(dv, i + 1);
            }
            return None;
        }
        acc = acc + c;
        i = i + 1;
    }
    proof {
        assert(dv.take(users@.len() as int) =~= dv);
    }
    Some(acc)
}

/// Finds the insight accumulated for team `name`, if any.
fn find_team(insights: &Vec<TeamInsight>, name: &String) -> (res: Option<usize>)
    ensures
        match res {
            Some(j) => j < insights@.len() && insights@[j as int].team@ == name@,
            None => forall|k: int| 0 <= k < insights@.len() ==> insights@[k].team@ != name@,
        },
{
    let mut j: usize = 0;
    while j < insights.len()
        invariant
            j <= insights@.len(),
            forall|k: int| 0 <= k < j ==> insights@[k].team@ != name@,
        decreases insights@.len() - j,
    {
        if insights[j].team == *name {
            return Some(j);
        }
        j = j + 1;
    }
    None
}

/// What the team-insight report of a dataset is: one entry per distinct team
/// name in first-seen order, each carrying the team's exact member, leader,
/// active and completed-project counts and the truncated active-percentage
/// of its counters.
pub open spec fn is_team_insights(users: Seq<UserModel>, res: Seq<TeamInsight>) -> bool {
    &&& res.len() == distinct_teams(users).len()
    &&& forall|k: int|
        0 <= k < res.len() ==> {
            let t = distinct_teams(users)[k];
            &&& (#[trigger] res[k]).team@ == t
            &&& res[k].total_members == team_members(users, t)
            &&& res[k].leaders == team_leaders(users, t)
            &&& res[k].completed_projects == team_completed(users, t)
            &&& res[k].active_count == team_active(users, t)
            &&& res[k].active_percentage_tenths == pct_tenths(
                team_active(users, t),
                team_members(users, t),
            )
        }
}

/// Groups the dataset by team name and returns one insight per team, in
/// first-seen order. The bound on the total completed-project count is a
/// machine limit: the per-team counter lives in a `usize`.
pub fn team_insights(users: &Vec<User>) -> (res: Vec<TeamInsight>)
    requires
        total_completed(users.deep_view()) <= usize::MAX,
    ensures
        is_team_insights(users.deep_view(), res@),
{
    let ghost dv = users.deep_view();
    let mut res: Vec<TeamInsight> = Vec::new();
    let mut i: usize = 0;
    while i < users.len()
        invariant
            i <= users.len(),
            dv == users.deep_view(),
            dv.len() == users@.len(),
            total_completed(dv) <= usize::MAX,
            res@.len() == distinct_teams(dv.take(i as int)).len(),
            forall|k: int|
                0 <= k < res@.len() ==> {
                    let prefix = dv.take(i as int);
                    let t = distinct_teams(prefix)[k];
                    &&& (#[trigger] res@[k]).team@ == t
                    &&& res@[k].total_members == team_members(prefix, t)
                    &&& res@[k].leaders == team_leaders(prefix, t)
                    &&& res@[k].completed_projects == team_completed(prefix, t)
                    &&& res@[k].active_count == team_active(prefix, t)
                    &&& res@[k].wf()
                },
        decreases users@.len() - i,
    {
        let ghost prefix = dv.take(i as int);
        let ghost d_i = distinct_teams(prefix);
        let ghost un = dv[i as int].team.name;
        proof {
            assert(dv[i as int] == users@[i as int].deep_view());
            assert(dv.take(i + 1).drop_last() =~= prefix);
            assert(dv.take(i + 1).last() == dv[i as int]);
            assert forall|t: Seq<char>| #![all_triggers] {
                &&& team_members(dv.take(i + 1), t) == team_members(prefix, t) + (if un == t {
                    1nat
                } else {
                    0nat
                })
                &&& team_leaders(dv.take(i + 1), t) == team_leaders(prefix, t) + (if un == t
                    && dv[i as int].team.leader {
                    1nat
                } else {
                    0nat
                })
                &&& team_active(dv.take(i + 1), t) == team_active(prefix, t) + (if un == t
                    && dv[i as int].active {
                    1nat
                } else {
                    0nat
                })
                &&& team_completed(dv.take(i + 1), t) == team_completed(prefix, t) + (if un == t {
                    completed_in(dv[i as int].team.projects)
                } else {
                    0nat
                })
            } by {
                assert(dv.take(i + 1).drop_last() =~= prefix);
            }
            lemma_total_completed_take(dv, i + 1);
            assert(total_completed(dv.take(i + 1)) == total_completed(prefix) + completed_in(
                dv[i as int].team.projects,
            ));
        }
        let u_team = &users[i].team.name;
        match find_team(&res, u_team) {
            Some(j) => {
                proof {
                    assert(d_i.contains(un)) by {
                        assert(d_i[j as int] == un);
                    }
                    assert(distinct_teams(dv.take(i + 1)) == d_i);
                    lemma_distinct_teams_no_dup(prefix);
                    lemma_team_counts(prefix, d_i[j as int]);
                    lemma_total_completed_take(dv, i as int);
                }
                let ghost old_res = res@;
                let mut insight = res.remove(j);
                insight.update_with_user(&users[i]);
                res.insert(j, insight);
                proof {
                    assert(res@ =~= old_res.update(j as int, res@[j as int]));
                }
            },
            None => {
                proof {
                    assert(!d_i.contains(un)) by {
                        if d_i.contains(un) {
                            let k = choose|k: int| 0 <= k < d_i.len() && d_i[k] == un;
                            assert(res@[k].team@ == un);
                        }
                    }
                    assert(distinct_teams(dv.take(i + 1)) == d_i.push(un));
                    lemma_distinct_teams_iff_members(prefix, un);
                    lemma_team_counts(prefix, un);
                    lemma_total_completed_take(dv, i as int);
                }
                let mut insight = TeamInsight::new(users[i].team.name.clone());
                insight.update_with_user(&users[i]);
                res.push(insight);
            },
        }
        i = i + 1;
    }
    proof {
        assert(dv.take(users@.len() as int) =~= dv);
    }
    res
}

} // verus!
