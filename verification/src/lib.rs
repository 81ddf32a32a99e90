//! Verified core of a private saved-link reading queue: input cleaning,
//! device-key handling, and the text formats the queue is read in (an RSS
//! feed and a CSV export).

pub mod text;
pub mod xml;
pub mod error;
pub mod save;
pub mod item;
pub mod auth;
pub mod feed;
pub mod csv;
pub mod queue;
pub mod config;
