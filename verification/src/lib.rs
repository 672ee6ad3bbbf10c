//! An in-memory user dataset behind an atomically replaceable snapshot slot,
//! with a pure aggregation engine computing analytic reports over a snapshot.
//!
//! The snapshot store ([`store::Root`]) holds the current dataset behind a
//! reader–writer lock: `get_users` copies the current generation out under a
//! shared lock, `update` installs a whole new generation under an exclusive
//! lock, so readers never observe a torn dataset and reclamation of an old
//! generation cannot race a live reader.
//!
//! The aggregation engine is a set of pure functions over a dataset:
//! superuser filtering, country ranking, team insights and per-day login
//! counts. Each is specified against a mathematical model of the dataset.

pub mod api;
pub mod clock;
pub mod data;
pub mod store;
pub mod countries;
pub mod logins;
pub mod superusers;
pub mod teams;
