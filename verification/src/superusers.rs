//! The superuser filter: selects users with score at least 900 that are
//! active, preserving dataset order and without deduplication.

use vstd::prelude::*;
use crate::data::{User, UserModel};

verus! {

/// A superuser has a score of at least 900 and is active.
pub open spec fn is_superuser(u: UserModel) -> bool {
    u.score >= 900 && u.active
}

/// The subsequence of `users` made of its superusers, in dataset order.
pub open spec fn superusers_of(users: Seq<UserModel>) -> Seq<UserModel>
    decreases users.len(),
{
    if users.len() == 0 {
        Seq::empty()
    } else {
        let rest = superusers_of(users.drop_last());
        if is_superuser(users.last()) {
            rest.push(users.last())
        } else {
            rest
        }
    }
}

/// An empty dataset has no superusers.
pub proof fn lemma_superusers_empty()
    ensures
        superusers_of(Seq::<UserModel>::empty()) == Seq::<UserModel>::empty(),
{
}

/// Filters the dataset down to its superusers, in dataset order.
pub fn superusers(users: &Vec<User>) -> (res: Vec<User>)
    ensures
        res.deep_view() == superusers_of(users.deep_view()),
{
    let ghost dv = users.deep_view();
    let mut res: Vec<User> = Vec::new();
    let mut i: usize = 0;
    while i < users.len()
        invariant
            i <= users.len(),
            dv == users.deep_view(),
            dv.len() == users@.len(),
            res.deep_view() == superusers_of(dv.take(i as int)),
        decreases users@.len() - i,
    {
        let u = &users[i];
        if u.score >= 900 && u.active {
            let ghost old_res = res.deep_view();
            res.push(u.clone());
            proof {
                assert(res.deep_view() =~= old_res.push(dv[i as int]));
            }
        }
        proof {
            assert(dv.take(i + 1).drop_last() =~= dv.take(i as int));
            assert(dv.take(i + 1).last() == dv[i as int]);
        }
        i = i + 1;
    }
    proof {
        assert(dv.take(users@.len() as int) =~= dv);
    }
    res
}

} // verus!
