//! Denormalization and query planning for a daily news/trend store.
//!
//! The store holds primary news rows that optionally reference a keyword row
//! and an image row. This library turns one read-only snapshot of those
//! tables ([`model::Dataset`]) into the nested records the API serves: it
//! resolves the latest day, validates date parameters, selects a day's rows
//! in ascending `id` order, resolves each row's references (misses degrade
//! to absent fields, never to errors), expands and deduplicates category
//! tags, and synthesizes media and browse URLs.
//!
//! Every function here is verified: the planner's contracts in [`planner`]
//! pin each response down to the exact rows, order, fields and URLs owed for
//! the snapshot, and the proof functions state the laws the pipeline keeps
//! (no duplicate tags or days, first-occurrence order, ascending `id`
//! order). I/O stays outside: callers load the snapshot and serialize the
//! result.

pub mod assemble;
pub mod days;
pub mod errors;
pub mod media;
pub mod model;
pub mod planner;
pub mod sort;
pub mod tags;
pub mod text;
