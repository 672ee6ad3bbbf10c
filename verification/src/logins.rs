//! Per-day login counts: flattens every user's login log, counts entries per
//! date, and keeps the dates whose count reaches a caller-supplied minimum
//! (no filtering when the minimum is absent).
//!
//! Output entries are in first-seen order of the dates across the flattened
//! log (the output order is not part of the interface).

use vstd::prelude::*;
use crate::data::{LogModel, User, UserModel};

verus! {

/// One entry of the per-day login report.
pub struct ActiveUserLogin {
    pub date: String,
    pub total: usize,
}

/// Every login-log entry of the dataset, in dataset order, each user's log
/// kept in insertion order.
pub open spec fn all_logs(users: Seq<UserModel>) -> Seq<LogModel>
    decreases users.len(),
{
    if users.len() == 0 {
        Seq::empty()
    } else {
        all_logs(users.drop_last()) + users.last().logs
    }
}

/// How many log entries fall on date `d`.
pub open spec fn date_count(logs: Seq<LogModel>, d: Seq<char>) -> nat
    decreases logs.len(),
{
    if logs.len() == 0 {
        0
    } else {
        date_count(logs.drop_last(), d) + (if logs.last().date == d {
            1nat
        } else {
            0nat
        })
    }
}

/// The distinct dates of the flattened log, in first-seen order.
pub open spec fn distinct_dates(logs: Seq<LogModel>) -> Seq<Seq<char>>
    decreases logs.len(),
{
    if logs.len() == 0 {
        Seq::empty()
    } else {
        let rest = distinct_dates(logs.drop_last());
        if rest.contains(logs.last().date) {
            rest
        } else {
            rest.push(logs.last().date)
        }
    }
}

/// Of `dates`, those whose count in `logs` reaches `min`, in order.
pub open spec fn kept_from(dates: Seq<Seq<char>>, logs: Seq<LogModel>, min: nat) -> Seq<Seq<char>>
    decreases dates.len(),
{
    if dates.len() == 0 {
        Seq::empty()
    } else {
        let rest = kept_from(dates.drop_last(), logs, min);
        if date_count(logs, dates.last()) >= min {
            rest.push(dates.last())
        } else {
            rest
        }
    }
}

/// The dates the report keeps: the distinct dates whose login count reaches
/// `min`, in first-seen order.
pub open spec fn kept_dates(users: Seq<UserModel>, min: nat) -> Seq<Seq<char>> {
    kept_from(distinct_dates(all_logs(users)), all_logs(users), min)
}

/// The minimum threshold carried by the optional query parameter: absent
/// means no filtering.
pub open spec fn min_of(min: Option<u16>) -> nat {
    match min {
        Some(m) => m as nat,
        None => 0,
    }
}

/// An empty dataset has no logins, so every report on it is empty.
pub proof fn lemma_logins_empty(min: nat)
    ensures
        all_logs(Seq::<UserModel>::empty()) == Seq::<LogModel>::empty(),
        kept_dates(Seq::<UserModel>::empty(), min) == Seq::<Seq<char>>::empty(),
{
}

/// The per-day login report of an empty dataset is empty for every
/// threshold, never an error.
pub proof fn lemma_empty_dataset_logins(min: nat, res: Seq<ActiveUserLogin>)
    requires
        is_login_report(Seq::<UserModel>::empty(), min, res),
    ensures
        res == Seq::<ActiveUserLogin>::empty(),
{
    lemma_logins_empty(min);
    assert(res =~= Seq::<ActiveUserLogin>::empty());
}

/// A date's count never exceeds the log's length.
proof fn lemma_date_count_le_len(logs: Seq<LogModel>, d: Seq<char>)
    ensures
        date_count(logs, d) <= logs.len(),
    decreases logs.len(),
{
    if logs.len() > 0 {
        lemma_date_count_le_len(logs.drop_last(), d);
    }
}

/// A date is listed among the distinct dates iff its count is positive.
proof fn lemma_distinct_dates_iff_count(logs: Seq<LogModel>, d: Seq<char>)
    ensures
        distinct_dates(logs).contains(d) <==> date_count(logs, d) > 0,
    decreases logs.len(),
{
    if logs.len() == 0 {
    } else {
        let rest = logs.drop_last();
        lemma_distinct_dates_iff_count(rest, d);
        let dr = distinct_dates(rest);
        let dd = distinct_dates(logs);
        if logs.last().date == d {
            assert(dd.contains(d)) by {
                if dr.contains(d) {
                } else {
                    assert(dd == dr.push(d));
                    assert(dd[dr.len() as int] == d);
                }
            }
        } else {
            assert(dd.contains(d) <==> dr.contains(d)) by {
                if dr.contains(d) {
                    let i = choose|i: int| 0 <= i < dr.len() && dr[i] == d;
                    assert(dd[i] == d);
                } else if dd.contains(d) {
                    let i = choose|i: int| 0 <= i < dd.len() && dd[i] == d;
                    if !dr.contains(logs.last().date) {
                        assert(dd == dr.push(logs.last().date));
                        assert(i < dr.len() ==> dr[i] == d);
                    }
                }
            }
        }
    }
}

/// A prefix of the dataset never holds more log entries than the whole.
proof fn lemma_all_logs_take(users: Seq<UserModel>, k: int)
    requires
        0 <= k <= users.len(),
    ensures
        all_logs(users.take(k)).len() <= all_logs(users).len(),
    decreases users.len(),
{
    if k == users.len() {
        assert(users.take(k) =~= users);
    } else {
        assert(users.drop_last().take(k) =~= users.take(k));
        lemma_all_logs_take(users.drop_last(), k);
    }
}

/// Counts the login-log entries over the whole dataset, reporting overflow
/// instead of wrapping: the count is returned exactly when it fits a
/// `usize`.
pub fn total_login_entries(users: &Vec<User>) -> (res: Option<usize>)
    ensures
        match res {
            Some(n) => n == all_logs(users.deep_view()).len(),
            None => all_logs(users.deep_view()).len() > usize::MAX,
        },
{
    let ghost dv = users.deep_view();
    let mut acc: usize = 0;
    let mut i: usize = 0;
    while i < users.len()
        invariant
            i <= users.len(),
            dv == users.deep_view(),
            dv.len() == users@.len(),
            acc == all_logs(dv.take(i as int)).len(),
        decreases users@.len() - i,
    {
        proof {
            assert(dv[i as int] == users@[i as int].deep_view());
            assert(dv.take(i + 1).drop_last() =~= dv.take(i as int));
            assert(dv.take(i + 1).last() == dv[i as int]);
        }
        let c = users[i].logs.len();
        if acc > usize::MAX - c {
            proof {
                lemma_all_logs_take(dv, i + 1);
            }
            return None;
        }
        acc = acc + c;
        i = i + 1;
    }
    proof {
        assert(dv.take(users@.len() as int) =~= dv);
    }
    Some(acc)
}

/// Finds the tally holding date `d`, if any.
fn find_date(tallies: &Vec<(String, usize)>, d: &String) -> (res: Option<usize>)
    ensures
        match res {
            Some(j) => j < tallies@.len() && tallies@[j as int].0@ == d@,
            None => forall|k: int| 0 <= k < tallies@.len() ==> tallies@[k].0@ != d@,
        },
{
    let mut j: usize = 0;
    while j < tallies.len()
        invariant
            j <= tallies@.len(),
            forall|k: int| 0 <= k < j ==> tallies@[k].0@ != d@,
        decreases tallies@.len() - j,
    {
        if tallies[j].0 == *d {
            return Some(j);
        }
        j = j + 1;
    }
    None
}

/// Counts the log entries of each distinct date, in first-seen order.
fn tally_dates(users: &Vec<User>) -> (tallies: Vec<(String, usize)>)
    requires
        all_logs(users.deep_view()).len() <= usize::MAX,
    ensures
        tallies@.len() == distinct_dates(all_logs(users.deep_view())).len(),
        forall|k: int|
            0 <= k < tallies@.len() ==> {
                let logs = all_logs(users.deep_view());
                &&& (#[trigger] tallies@[k]).0@ == distinct_dates(logs)[k]
                &&& tallies@[k].1 == date_count(logs, distinct_dates(logs)[k])
            },
{
    let ghost dv = users.deep_view();
    let ghost whole = all_logs(dv);
    let mut tallies: Vec<(String, usize)> = Vec::new();
    let mut i: usize = 0;
    while i < users.len()
        invariant
            i <= users.len(),
            dv == users.deep_view(),
            dv.len() == users@.len(),
            whole == all_logs(dv),
            whole.len() <= usize::MAX,
            tallies@.len() == distinct_dates(all_logs(dv.take(i as int))).len(),
            forall|k: int|
                0 <= k < tallies@.len() ==> {
                    let logs = all_logs(dv.take(i as int));
                    &&& (#[trigger] tallies@[k]).0@ == distinct_dates(logs)[k]
                    &&& tallies@[k].1 == date_count(logs, distinct_dates(logs)[k])
                },
        decreases users@.len() - i,
    {
        let ghost flat_i = all_logs(dv.take(i as int));
        let ghost lv = dv[i as int].logs;
        proof {
            assert(dv[i as int] == users@[i as int].deep_view());
            assert(dv.take(i + 1).drop_last() =~= dv.take(i as int));
            assert(dv.take(i + 1).last() == dv[i as int]);
            assert(all_logs(dv.take(i + 1)) == flat_i + lv);
            lemma_all_logs_take(dv, i + 1);
            assert(lv.take(0) =~= Seq::<LogModel>::empty());
            assert(flat_i + lv.take(0) =~= flat_i);
        }
        let logs_len = users[i].logs.len();
        let mut j: usize = 0;
        while j < logs_len
            invariant
                j <= lv.len(),
                logs_len == lv.len(),
                users@[i as int].deep_view() == dv[i as int],
                i < users@.len(),
                lv == dv[i as int].logs,
                dv == users.deep_view(),
                (flat_i + lv).len() <= usize::MAX,
                flat_i == all_logs(dv.take(i as int)),
                tallies@.len() == distinct_dates(flat_i + lv.take(j as int)).len(),
                forall|k: int|
                    0 <= k < tallies@.len() ==> {
                        let logs = flat_i + lv.take(j as int);
                        &&& (#[trigger] tallies@[k]).0@ == distinct_dates(logs)[k]
                        &&& tallies@[k].1 == date_count(logs, distinct_dates(logs)[k])
                    },
            decreases lv.len() - j,
        {
            let ghost flat = flat_i + lv.take(j as int);
            let ghost d_j = distinct_dates(flat);
            let ghost entry = lv[j as int];
            proof {
                assert(flat_i + lv.take(j + 1) =~= flat.push(entry));
                assert(flat.push(entry).drop_last() =~= flat);
                assert forall|c: Seq<char>|
                    date_count(flat.push(entry), c) == date_count(flat, c) + (if entry.date == c {
                        1nat
                    } else {
                        0nat
                    }) by {
                    assert(flat.push(entry).drop_last() =~= flat);
                }
                assert(flat.len() < (flat_i + lv).len());
                assert(lv[j as int] == users@[i as int].deep_view().logs[j as int]);
            }
            let u_date = &users[i].logs[j].date;
            match find_date(&tallies, u_date) {
                Some(p) => {
                    proof {
                        assert(d_j.contains(entry.date)) by {
                            assert(d_j[p as int] == entry.date);
                        }
                        assert(distinct_dates(flat.push(entry)) == d_j);
                        lemma_date_count_le_len(flat, d_j[p as int]);
                        lemma_distinct_dates_no_dup(flat);
                    }
                    let total = tallies[p].1;
                    let c2 = tallies[p].0.clone();
                    tallies.set(p, (c2, total + 1));
                },
                None => {
                    proof {
                        assert(!d_j.contains(entry.date)) by {
                            if d_j.contains(entry.date) {
                                let k = choose|k: int| 0 <= k < d_j.len() && d_j[k] == entry.date;
                                assert(tallies@[k].0@ == entry.date);
                            }
                        }
                        assert(distinct_dates(flat.push(entry)) == d_j.push(entry.date));
                        lemma_distinct_dates_iff_count(flat, entry.date);
                    }
                    tallies.push((u_date.clone(), 1));
                },
            }
            j = j + 1;
        }
        proof {
            assert(lv.take(lv.len() as int) =~= lv);
        }
        i = i + 1;
    }
    proof {
        assert(dv.take(users@.len() as int) =~= dv);
    }
    tallies
}

/// The distinct-date sequence has no repeated entries.
proof fn lemma_distinct_dates_no_dup(logs: Seq<LogModel>)
    ensures
        forall|k: int, l: int|
            0 <= k < l < distinct_dates(logs).len() ==> distinct_dates(logs)[k] != distinct_dates(
                logs,
            )[l],
    decreases logs.len(),
{
    if logs.len() > 0 {
        let rest = logs.drop_last();
        lemma_distinct_dates_no_dup(rest);
        let dr = distinct_dates(rest);
        let dd = distinct_dates(logs);
        if !dr.contains(logs.last().date) {
            assert forall|k: int, l: int| 0 <= k < l < dd.len() implies dd[k] != dd[l] by {
                if l == dd.len() - 1 {
                    assert(dd[l] == logs.last().date);
                    assert(dr[k] == dd[k]);
                    assert(!(exists|i: int| 0 <= i < dr.len() && dr[i] == logs.last().date));
                }
            }
        }
    }
}

/// What the per-day login report of a dataset is, for threshold `min`: one
/// entry per kept date, in first-seen order, each carrying the date's exact
/// login count.
pub open spec fn is_login_report(
    users: Seq<UserModel>,
    min: nat,
    res: Seq<ActiveUserLogin>,
) -> bool {
    &&& res.len() == kept_dates(users, min).len()
    &&& forall|k: int|
        0 <= k < res.len() ==> {
            &&& (#[trigger] res[k]).date@ == kept_dates(users, min)[k]
            &&& res[k].total == date_count(all_logs(users), res[k].date@)
        }
}

/// Counts logins per day over the whole dataset and keeps the days whose
/// count reaches `min` (all of them when `min` is absent). The bound on the
/// flattened log is a machine limit: a day's counter lives in a `usize`.
pub fn active_users_per_day(users: &Vec<User>, min: Option<u16>) -> (res: Vec<ActiveUserLogin>)
    requires
        all_logs(users.deep_view()).len() <= usize::MAX,
    ensures
        is_login_report(users.deep_view(), min_of(min), res@),
{
    let ghost dv = users.deep_view();
    let ghost logs = all_logs(dv);
    let ghost dd = distinct_dates(logs);
    let tallies = tally_dates(users);
    let min_val: usize = match min {
        Some(m) => m as usize,
        None => 0,
    };
    let mut res: Vec<ActiveUserLogin> = Vec::new();
    let mut k: usize = 0;
    while k < tallies.len()
        invariant
            k <= tallies@.len(),
            tallies@.len() == dd.len(),
            dd == distinct_dates(logs),
            min_val == min_of(min),
            forall|p: int|
                0 <= p < tallies@.len() ==> (#[trigger] tallies@[p]).0@ == dd[p] && tallies@[p].1
                    == date_count(logs, dd[p]),
            res@.len() == kept_from(dd.take(k as int), logs, min_of(min)).len(),
            forall|p: int|
                0 <= p < res@.len() ==> {
                    &&& (#[trigger] res@[p]).date@ == kept_from(dd.take(k as int), logs, min_of(min))[p]
                    &&& res@[p].total == date_count(logs, res@[p].date@)
                },
        decreases tallies@.len() - k,
    {
        proof {
            assert(dd.take(k + 1).drop_last() =~= dd.take(k as int));
            assert(dd.take(k + 1).last() == dd[k as int]);
        }
        if tallies[k].1 >= min_val {
            res.push(ActiveUserLogin { date: tallies[k].0.clone(), total: tallies[k].1 });
        }
        k = k + 1;
    }
    proof {
        assert(dd.take(tallies@.len() as int) =~= dd);
    }
    res
}

} // verus!
