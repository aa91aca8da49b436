//! xrebalance: move funds between a node's own channels via
//! independent circular self-payments, using askrene for route
//! computation.
//!
//! This is what the plugin decides and computes, apart from its calls
//! to lightningd:
//!
//!   - `request`, `chan_spec`: what a caller may ask for;
//!   - `channels`, `layer`, `plan`, `planner`: planning on a split node;
//!   - `exec`, `claims`: parts, and how they are claimed;
//!   - `feedback`, `onion_error`, `overrides`, `coalesce`: what outcomes
//!     teach, and how long it is remembered;
//!   - `rounds`, `run`: replanning what has not moved;
//!   - `config`, `stats`: the options, and what was learned;
//!   - `render`: responses, notifications, and the parameters of calls;
//!   - `json`, `text`, `table`, `order`, `outside`: the ground it all
//!     stands on.

pub mod chan_spec;
pub mod channels;
pub mod claims;
pub mod coalesce;
pub mod config;
pub mod exec;
pub mod feedback;
pub mod json;
pub mod layer;
pub mod onion_error;
pub mod order;
pub mod outside;
pub mod overrides;
pub mod plan;
pub mod planner;
pub mod render;
pub mod request;
pub mod rounds;
pub mod run;
pub mod stats;
pub mod table;
pub mod text;
