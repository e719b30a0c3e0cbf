//! A project and task rotation engine with time tracking.
//!
//! The engine keeps the projects in rotation, their tasks and the tracking
//! sessions that run against them, and beside them a store: a model of the
//! durable tables that mirror this state, with a journal of every write for a
//! backend to replay. Every operation is stated over mathematical views of
//! the data and proved against that statement.
//!
//! - `model`: tasks, projects, sessions and time entries.
//! - `store`, `tables`, `queries`, `schema`: the tables, the writes that
//!   change them, what is read from them, and how a store of an earlier
//!   shape is brought up to date.
//! - `engine`, `rotation`, `tracking`, `projects`, `archive`, `seed`: the
//!   engine and its operations.
//! - `stats`, `calendar`: sums over the ledger of committed time.
//! - `overlay`: what the engine exchanges with the panel of running timers.
//! - `validity`, `machine`, `mirror`, `laws`: what holds across operations.

pub mod model;
pub mod seq_util;
pub mod store;
pub mod tables;
pub mod queries;
pub mod schema;
pub mod engine;
pub mod rotation;
pub mod tracking;
pub mod projects;
pub mod archive;
pub mod seed;
pub mod calendar;
pub mod stats;
pub mod overlay;
pub mod validity;
pub mod machine;
pub mod mirror;
pub mod laws;
