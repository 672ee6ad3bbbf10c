//! Country ranking: groups users by country, counts occurrences, sorts by
//! count descending and returns the top 5 entries (all of them when fewer
//! than 5 distinct countries exist).
//!
//! Ties on the count are broken deterministically by first-seen order: the
//! country whose first occurrence in the dataset comes earlier ranks first.
//! First-seen order is the order of [`distinct_countries`], so the tie-break
//! is the index in that sequence.

use vstd::prelude::*;
use crate::data::{User, UserModel};

verus! {

/// One entry of the country ranking.
pub struct CountrySummary {
    pub country: String,
    pub total: usize,
}

/// How many users of the dataset have country `c` (duplicates double-count).
pub open spec fn country_count(users: Seq<UserModel>, c: Seq<char>) -> nat
    decreases users.len(),
{
    if users.len() == 0 {
        0
    } else {
        country_count(users.drop_last(), c) + (if users.last().country == c {
            1nat
        } else {
            0nat
        })
    }
}

/// The distinct countries of the dataset, in first-seen order.
pub open spec fn distinct_countries(users: Seq<UserModel>) -> Seq<Seq<char>>
    decreases users.len(),
{
    if users.len() == 0 {
        Seq::empty()
    } else {
        let rest = distinct_countries(users.drop_last());
        if rest.contains(users.last().country) {
            rest
        } else {
            rest.push(users.last().country)
        }
    }
}

/// The ranking order: `c1` ranks strictly before `c2` when it has more
/// users, or the same number of users and an earlier first occurrence.
pub open spec fn country_rank_before(users: Seq<UserModel>, c1: Seq<char>, c2: Seq<char>) -> bool {
    let d = distinct_countries(users);
    country_count(users, c1) > country_count(users, c2) || (country_count(users, c1)
        == country_count(users, c2) && d.index_of(c1) < d.index_of(c2))
}

/// An empty dataset has no countries.
pub proof fn lemma_distinct_countries_empty()
    ensures
        distinct_countries(Seq::<UserModel>::empty()) == Seq::<Seq<char>>::empty(),
{
}

/// The country ranking of an empty dataset is empty, never an error.
pub proof fn lemma_empty_dataset_ranking(res: Seq<CountrySummary>)
    requires
        is_country_ranking(Seq::<UserModel>::empty(), res),
    ensures
        res == Seq::<CountrySummary>::empty(),
{
    lemma_distinct_countries_empty();
    assert(res =~= Seq::<CountrySummary>::empty());
}

/// A country's count never exceeds the dataset's length.
proof fn lemma_count_le_len(users: Seq<UserModel>, c: Seq<char>)
    ensures
        country_count(users, c) <= users.len(),
    decreases users.len(),
{
    if users.len() > 0 {
        lemma_count_le_len(users.drop_last(), c);
    }
}

/// A country is listed among the distinct countries iff its count is positive.
proof fn lemma_distinct_iff_count(users: Seq<UserModel>, c: Seq<char>)
    ensures
        distinct_countries(users).contains(c) <==> country_count(users, c) > 0,
    decreases users.len(),
{
    if users.len() == 0 {
    } else {
        let rest = users.drop_last();
        lemma_distinct_iff_count(rest, c);
        let dr = distinct_countries(rest);
        let d = distinct_countries(users);
        if users.last().country == c {
            assert(d.contains(c)) by {
                if dr.contains(c) {
                } else {
                    assert(d == dr.push(c));
                    assert(d[dr.len() as int] == c);
                }
            }
        } else {
            assert(d.contains(c) <==> dr.contains(c)) by {
                if dr.contains(c) {
                    let i = choose|i: int| 0 <= i < dr.len() && dr[i] == c;
                    assert(d[i] == c);
                } else if d.contains(c) {
                    let i = choose|i: int| 0 <= i < d.len() && d[i] == c;
                    if !dr.contains(users.last().country) {
                        assert(d == dr.push(users.last().country));
                        assert(i < dr.len() ==> dr[i] == c);
                    }
                }
            }
        }
    }
}

/// The distinct-country sequence has no repeated entries.
proof fn lemma_distinct_no_dup(users: Seq<UserModel>)
    ensures
        forall|k: int, l: int|
            0 <= k < l < distinct_countries(users).len() ==> distinct_countries(users)[k]
                != distinct_countries(users)[l],
    decreases users.len(),
{
    if users.len() > 0 {
        let rest = users.drop_last();
        lemma_distinct_no_dup(rest);
        let dr = distinct_countries(rest);
        let d = distinct_countries(users);
        if !dr.contains(users.last().country) {
            assert forall|k: int, l: int| 0 <= k < l < d.len() implies d[k] != d[l] by {
                if l == d.len() - 1 {
                    assert(d[l] == users.last().country);
                    assert(dr[k] == d[k]);
                    assert(!(exists|i: int| 0 <= i < dr.len() && dr[i] == users.last().country));
                }
            }
        }
    }
}

/// Within the distinct-country sequence, `index_of` inverts indexing.
proof fn lemma_distinct_index_of(users: Seq<UserModel>, k: int)
    requires
        0 <= k < distinct_countries(users).len(),
    ensures
        distinct_countries(users).index_of(distinct_countries(users)[k]) == k,
{
    lemma_distinct_no_dup(users);
    let d = distinct_countries(users);
    assert(0 <= k < d.len() && d[k] == d[k]);
    let i = choose|i: int| 0 <= i < d.len() && d[i] == d[k];
    assert(i == k);
}

/// A running tally: the country, its count so far, and its index in the
/// distinct-country sequence (its first-seen rank).
type Tally = (String, usize, usize);

/// The strict sort order on tallies: more users first, ties broken by the
/// earlier first-seen rank.
spec fn tally_before(a: Tally, b: Tally) -> bool {
    a.1 > b.1 || (a.1 == b.1 && a.2 < b.2)
}

/// Finds the tally holding country `c`, if any.
fn find_country(tallies: &Vec<Tally>, c: &String) -> (res: Option<usize>)
    ensures
        match res {
            Some(j) => j < tallies@.len() && tallies@[j as int].0@ == c@,
            None => forall|k: int| 0 <= k < tallies@.len() ==> tallies@[k].0@ != c@,
        },
{
    let mut j: usize = 0;
    while j < tallies.len()
        invariant
            j <= tallies@.len(),
            forall|k: int| 0 <= k < j ==> tallies@[k].0@ != c@,
        decreases tallies@.len() - j,
    {
        if tallies[j].0 == *c {
            return Some(j);
        }
        j = j + 1;
    }
    None
}

/// Counts the users of each distinct country, in first-seen order. Entry `k`
/// holds the `k`-th distinct country, its count, and its rank `k`.
fn tally_countries(users: &Vec<User>) -> (tallies: Vec<Tally>)
    ensures
        tallies@.len() == distinct_countries(users.deep_view()).len(),
        forall|k: int|
            0 <= k < tallies@.len() ==> {
                &&& (#[trigger] tallies@[k]).0@ == distinct_countries(users.deep_view())[k]
                &&& tallies@[k].1 == country_count(
                    users.deep_view(),
                    distinct_countries(users.deep_view())[k],
                )
                &&& tallies@[k].2 == k
            },
{
    let ghost dv = users.deep_view();
    let mut tallies: Vec<Tally> = Vec::new();
    let mut i: usize = 0;
    while i < users.len()
        invariant
            i <= users.len(),
            dv == users.deep_view(),
            dv.len() == users@.len(),
            tallies@.len() == distinct_countries(dv.take(i as int)).len(),
            forall|k: int|
                0 <= k < tallies@.len() ==> {
                    &&& (#[trigger] tallies@[k]).0@ == distinct_countries(dv.take(i as int))[k]
                    &&& tallies@[k].1 == country_count(
                        dv.take(i as int),
                        distinct_countries(dv.take(i as int))[k],
                    )
                    &&& tallies@[k].2 == k
                },
        decreases users@.len() - i,
    {
        let ghost prefix = dv.take(i as int);
        let ghost d_i = distinct_countries(prefix);
        proof {
            assert(dv[i as int] == users@[i as int].deep_view());
            assert(dv.take(i + 1).drop_last() =~= prefix);
            assert(dv.take(i + 1).last() == dv[i as int]);
            assert forall|c: Seq<char>|
                country_count(dv.take(i + 1), c) == country_count(prefix, c) + (if dv[i as int].country
                    == c {
                    1nat
                } else {
                    0nat
                }) by {
                assert(dv.take(i + 1).drop_last() =~= prefix);
            }
            lemma_distinct_no_dup(prefix);
        }
        let u_country = &users[i].country;
        match find_country(&tallies, u_country) {
            Some(j) => {
                proof {
                    assert(d_i.contains(dv[i as int].country)) by {
                        assert(d_i[j as int] == dv[i as int].country);
                    }
                    assert(distinct_countries(dv.take(i + 1)) == d_i);
                    lemma_count_le_len(prefix, d_i[j as int]);
                }
                let total = tallies[j].1;
                let pos = tallies[j].2;
                let c2 = tallies[j].0.clone();
                tallies.set(j, (c2, total + 1, pos));
            },
            None => {
                proof {
                    assert(!d_i.contains(dv[i as int].country)) by {
                        if d_i.contains(dv[i as int].country) {
                            let k = choose|k: int|
                                0 <= k < d_i.len() && d_i[k] == dv[i as int].country;
                            assert(tallies@[k].0@ == dv[i as int].country);
                        }
                    }
                    assert(distinct_countries(dv.take(i + 1)) == d_i.push(dv[i as int].country));
                    lemma_distinct_iff_count(prefix, dv[i as int].country);
                }
                let pos = tallies.len();
                tallies.push((u_country.clone(), 1, pos));
            },
        }
        i = i + 1;
    }
    proof {
        assert(dv.take(users@.len() as int) =~= dv);
    }
    tallies
}

/// Sorts the tallies by [`tally_before`]: count descending, ties broken by
/// first-seen rank. Selection of the maximum, repeated.
fn rank_tallies(tallies: Vec<Tally>) -> (ranked: Vec<Tally>)
    requires
        forall|k: int, l: int|
            0 <= k < l < tallies@.len() ==> (#[trigger] tallies@[k]).2 != (#[trigger] tallies@[l]).2,
    ensures
        ranked@.len() == tallies@.len(),
        forall|p: int, q: int|
            0 <= p < q < ranked@.len() ==> tally_before(#[trigger] ranked@[p], #[trigger] ranked@[q]),
        forall|p: int| 0 <= p < ranked@.len() ==> tallies@.contains(#[trigger] ranked@[p]),
        forall|k: int| 0 <= k < tallies@.len() ==> ranked@.contains(#[trigger] tallies@[k]),
{
    let mut remaining = tallies;
    let ghost orig = remaining@;
    let mut ranked: Vec<Tally> = Vec::new();
    while remaining.len() > 0
        invariant
            ranked@.len() + remaining@.len() == orig.len(),
            forall|p: int, q: int|
                0 <= p < q < ranked@.len() ==> tally_before(
                    #[trigger] ranked@[p],
                    #[trigger] ranked@[q],
                ),
            forall|p: int, q: int|
                0 <= p < ranked@.len() && 0 <= q < remaining@.len() ==> tally_before(
                    #[trigger] ranked@[p],
                    #[trigger] remaining@[q],
                ),
            forall|p: int| 0 <= p < ranked@.len() ==> orig.contains(#[trigger] ranked@[p]),
            forall|q: int| 0 <= q < remaining@.len() ==> orig.contains(#[trigger] remaining@[q]),
            forall|k: int|
                0 <= k < orig.len() ==> ranked@.contains(#[trigger] orig[k]) || remaining@.contains(
                    orig[k],
                ),
            forall|k: int, l: int|
                0 <= k < l < remaining@.len() ==> (#[trigger] remaining@[k]).2 != (
                #[trigger] remaining@[l]).2,
        decreases remaining@.len(),
    {
        let mut best: usize = 0;
        let mut j: usize = 1;
        while j < remaining.len()
            invariant
                best < j,
                j <= remaining@.len(),
                1 <= j,
                forall|k: int, l: int|
                    0 <= k < l < remaining@.len() ==> (#[trigger] remaining@[k]).2 != (
                    #[trigger] remaining@[l]).2,
                forall|k: int|
                    0 <= k < j && k != best ==> tally_before(
                        remaining@[best as int],
                        #[trigger] remaining@[k],
                    ),
            decreases remaining@.len() - j,
        {
            let better = remaining[j].1 > remaining[best].1 || (remaining[j].1 == remaining[best].1
                && remaining[j].2 < remaining[best].2);
            if better {
                best = j;
            }
            j = j + 1;
        }
        let ghost old_remaining = remaining@;
        let item = remaining.remove(best);
        proof {
            assert(item == old_remaining[best as int]);
            assert(remaining@ == old_remaining.remove(best as int));
            assert forall|q: int| 0 <= q < remaining@.len() implies tally_before(
                item,
                #[trigger] remaining@[q],
            ) by {
                if q < best {
                    assert(remaining@[q] == old_remaining[q]);
                } else {
                    assert(remaining@[q] == old_remaining[q + 1]);
                }
            }
            assert forall|q: int| 0 <= q < remaining@.len() implies orig.contains(
                #[trigger] remaining@[q],
            ) by {
                if q < best {
                    assert(remaining@[q] == old_remaining[q]);
                } else {
                    assert(remaining@[q] == old_remaining[q + 1]);
                }
            }
            assert forall|k: int, l: int| 0 <= k < l < remaining@.len() implies (
            #[trigger] remaining@[k]).2 != (#[trigger] remaining@[l]).2 by {
                let k0 = if k < best { k } else { k + 1 };
                let l0 = if l < best { l } else { l + 1 };
                assert(remaining@[k] == old_remaining[k0]);
                assert(remaining@[l] == old_remaining[l0]);
            }
            assert forall|k: int|
                0 <= k < orig.len() && !ranked@.contains(#[trigger] orig[k]) && orig[k]
                    != item implies remaining@.contains(orig[k]) by {
                assert(old_remaining.contains(orig[k]));
                let m = choose|m: int| 0 <= m < old_remaining.len() && old_remaining[m] == orig[k];
                if m < best {
                    assert(remaining@[m] == orig[k]);
                } else if m > best {
                    assert(remaining@[m - 1] == orig[k]);
                }
            }
        }
        let ghost old_ranked = ranked@;
        ranked.push(item);
        proof {
            assert forall|k: int|
                0 <= k < orig.len() implies ranked@.contains(#[trigger] orig[k])
                || remaining@.contains(orig[k]) by {
                if old_ranked.contains(orig[k]) {
                    let p = choose|p: int| 0 <= p < old_ranked.len() && old_ranked[p] == orig[k];
                    assert(ranked@[p] == orig[k]);
                } else if orig[k] == item {
                    assert(ranked@[ranked@.len() - 1] == item);
                }
            }
            assert forall|p: int| 0 <= p < ranked@.len() implies orig.contains(
                #[trigger] ranked@[p],
            ) by {
                if p < old_ranked.len() {
                    assert(ranked@[p] == old_ranked[p]);
                } else {
                    assert(ranked@[p] == item);
                    assert(orig.contains(old_remaining[best as int]));
                }
            }
        }
    }
    proof {
        assert forall|k: int| 0 <= k < orig.len() implies ranked@.contains(#[trigger] orig[k]) by {
            assert(!remaining@.contains(orig[k]));
        }
    }
    ranked
}

/// What the country ranking of a dataset is: as many entries as there are
/// distinct countries but at most 5; every entry carries a country of the
/// dataset with its exact count; entries rank strictly downward; and every
/// country left out ranks after every entry returned.
pub open spec fn is_country_ranking(users: Seq<UserModel>, res: Seq<CountrySummary>) -> bool {
    &&& res.len() == if distinct_countries(users).len() < 5 {
        distinct_countries(users).len()
    } else {
        5nat
    }
    &&& forall|k: int|
        0 <= k < res.len() ==> {
            &&& distinct_countries(users).contains((#[trigger] res[k]).country@)
            &&& res[k].total == country_count(users, res[k].country@)
        }
    &&& forall|p: int, q: int|
        0 <= p < q < res.len() ==> country_rank_before(
            users,
            (#[trigger] res[p]).country@,
            (#[trigger] res[q]).country@,
        )
    &&& forall|c: Seq<char>|
        distinct_countries(users).contains(c) && (forall|k: int|
            0 <= k < res.len() ==> (#[trigger] res[k]).country@ != c) ==> (forall|k: int|
            0 <= k < res.len() ==> country_rank_before(users, (#[trigger] res[k]).country@, c))
}

/// The country ranking: the top 5 countries by user count (ties broken by
/// first-seen order), or all of them when fewer than 5 exist.
pub fn top_countries(users: &Vec<User>) -> (res: Vec<CountrySummary>)
    ensures
        is_country_ranking(users.deep_view(), res@),
{
    let ghost dv = users.deep_view();
    let ghost d = distinct_countries(dv);
    let tallies = tally_countries(users);
    let ghost tv = tallies@;
    let ranked = rank_tallies(tallies);
    proof {
        lemma_distinct_no_dup(dv);
    }
    let n = if ranked.len() < 5 {
        ranked.len()
    } else {
        5
    };
    let mut res: Vec<CountrySummary> = Vec::new();
    let mut k: usize = 0;
    while k < n
        invariant
            k <= n,
            n <= ranked@.len(),
            res@.len() == k,
            forall|p: int|
                0 <= p < k ==> (#[trigger] res@[p]).country@ == ranked@[p].0@ && res@[p].total
                    == ranked@[p].1,
        decreases n - k,
    {
        let country = ranked[k].0.clone();
        let total = ranked[k].1;
        res.push(CountrySummary { country, total });
        k = k + 1;
    }
    proof {
        // Every ranked entry is a tally, so it carries a distinct country,
        // its exact count, and its first-seen rank.
        assert forall|p: int| 0 <= p < ranked@.len() implies {
            &&& 0 <= (#[trigger] ranked@[p]).2 < d.len()
            &&& ranked@[p].0@ == d[ranked@[p].2 as int]
            &&& ranked@[p].1 == country_count(dv, ranked@[p].0@)
        } by {
            assert(tv.contains(ranked@[p]));
            let m = choose|m: int| 0 <= m < tv.len() && tv[m] == ranked@[p];
            assert(tv[m].0@ == d[m] && tv[m].1 == country_count(dv, d[m]) && tv[m].2 == m);
        }
        // The sort order on tallies is exactly the ranking order on their countries.
        assert forall|p: int, q: int|
            0 <= p < ranked@.len() && 0 <= q < ranked@.len() && tally_before(
                ranked@[p],
                ranked@[q],
            ) implies country_rank_before(dv, (#[trigger] ranked@[p]).0@, (
        #[trigger] ranked@[q]).0@) by {
            lemma_distinct_index_of(dv, ranked@[p].2 as int);
            lemma_distinct_index_of(dv, ranked@[q].2 as int);
        }
        // The excluded countries all rank after every returned one.
        assert forall|c: Seq<char>|
            d.contains(c) && (forall|k2: int|
                0 <= k2 < res@.len() ==> (#[trigger] res@[k2]).country@ != c) implies (forall|
            k2: int|
            0 <= k2 < res@.len() ==> country_rank_before(dv, (#[trigger] res@[k2]).country@, c)) by {
            let m = choose|m: int| 0 <= m < d.len() && d[m] == c;
            assert(tv[m].0@ == c && tv[m].2 == m);
            assert(ranked@.contains(tv[m]));
            let p = choose|p: int| 0 <= p < ranked@.len() && ranked@[p] == tv[m];
            assert forall|k2: int| 0 <= k2 < res@.len() implies country_rank_before(
                dv,
                (#[trigger] res@[k2]).country@,
                c,
            ) by {
                assert(res@[k2].country@ == ranked@[k2].0@);
                if p < res@.len() {
                    assert(res@[p].country@ != c);
                    assert(res@[p].country@ == ranked@[p].0@);
                    assert(false);
                } else {
                    assert(tally_before(ranked@[k2], ranked@[p]));
                }
            }
        }
    }
    res
}

} // verus!
