//! Data-access and consistency layer of a social content backend.
//!
//! Users publish articles, comment on them, follow one another and react
//! with like/dislike.  This crate holds the part with real invariants: the
//! relational state, its well-formedness (unique logins, unique follow
//! edges, unique reactions, foreign keys with cascade delete), and the
//! derived metrics (follower counts, like/dislike tallies, popularity
//! ranking).  The network-facing request handlers, the logging sink and the
//! physical database connection live outside this crate and talk to it
//! through plain values.

pub mod codec;
pub mod conn;
pub mod errors;
pub mod laws;
pub mod limits;
pub mod logger;
pub mod models;
pub mod store;
