//! The snapshot store: one shared slot holding the current dataset.
//!
//! [`Root`] keeps the dataset behind a [`vstd::rwlock::RwLock`]. A reader
//! copies the current generation out under a shared lock and then works on
//! its own independent copy; a writer installs a whole new generation under
//! an exclusive lock. The lock discipline makes a torn read or a
//! use-after-reclaim unrepresentable: an old generation is dropped only once
//! no handle to it is live, and a swap is all-or-nothing.

use vstd::prelude::*;
use vstd::rwlock::RwLock;
use crate::data::User;

verus! {

/// Predicate for the store's lock: every dataset is a legal content of the
/// slot, so the predicate accepts any value.
pub open spec fn any_dataset() -> spec_fn(Vec<User>) -> bool {
    |v: Vec<User>| true
}

/// The snapshot store. Holds exactly one current generation at all times,
/// initially the empty dataset.
pub struct Root {
    users: RwLock<Vec<User>, spec_fn(Vec<User>) -> bool>,
}

impl Root {
    /// Well-formedness: the lock was built with the trivial predicate, so a
    /// writer may install any dataset.
    #[verifier::type_invariant]
    spec fn wf(&self) -> bool {
        self.users.pred() == any_dataset()
    }

    /// A fresh store holding the empty dataset.
    pub fn new() -> Root {
        let users: Vec<User> = Vec::new();
        Root { users: RwLock::new(users, Ghost(any_dataset())) }
    }

    /// A store holding `users` as its first generation.
    pub fn from_users(users: Vec<User>) -> Root {
        Root { users: RwLock::new(users, Ghost(any_dataset())) }
    }

    /// Atomically replaces the current generation with `new_users`.
    ///
    /// The previous generation is reclaimed here, after the swap, at a point
    /// where no reader can still borrow it: a concurrent `get_users` either
    /// completed its copy before the exclusive lock was granted or starts
    /// after the new generation is installed.
    pub fn update(&self, new_users: Vec<User>) {
        proof {
            use_type_invariant(self);
        }
        let (_previous_generation, handle) = self.users.acquire_write();
        handle.release_write(new_users);
    }

    /// Copies the current generation out and returns it as an independent
    /// dataset: the result models the same dataset as the generation it was
    /// copied from, and a later `update` cannot touch it.
    pub fn get_users(&self) -> Vec<User> {
        proof {
            use_type_invariant(self);
        }
        let handle = self.users.acquire_read();
        let users = handle.borrow().clone();
        handle.release_read();
        users
    }

    /// Installs `users` as the current dataset and reports how many records
    /// were accepted; an empty dataset is accepted like any other.
    pub fn ingest(&self, users: Vec<User>) -> (count: usize)
        ensures
            count == users@.len(),
    {
        let count = users.len();
        self.update(users);
        count
    }
}

} // verus!
