//! Decision logic of a drop farmer: which live channel each account watches,
//! how the progress of a drop is followed against a deadline, and when a
//! drop is claimed. Every function here is a step from state and event to
//! next state and action; the program around the library performs the
//! requests, the waits and the file accesses.
//!
//! - `channel`: channel identities.
//! - `registry`: the bounded set of eligible channels and the channel lists
//!   of the campaigns.
//! - `claimed`: the cache of claimed drops and its file format.
//! - `retry`: the retry policy.
//! - `discovery`: filling the set of eligible channels.
//! - `feed`: the presence feed that takes channels out of the set.
//! - `scheduler`: the priority queue and the choice of the channel to watch.
//! - `heartbeat`: the heartbeat loop of an account.
//! - `tracker`: the drop tracker of an account.
//! - `claim`: the claim engine.
//! - `campaign`: the campaign controller.
//! - `text`, `json`: strings, and what is taken on trust from `serde_json`.

pub mod channel;
pub mod registry;
pub mod claimed;
pub mod retry;
pub mod discovery;
pub mod feed;
pub mod scheduler;
pub mod heartbeat;
pub mod tracker;
pub mod claim;
pub mod campaign;
pub mod text;
pub mod json;
