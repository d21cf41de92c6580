//! A self-hosted headless content service, as a verified library.
//!
//! - [`content`]: the content index (posts and series), its listings, lookups,
//!   validation and ETag; [`order`] holds the sort behind the listings.
//! - [`auth`], [`time`] and [`http`]: who may see what, and the answers of the HTTP layer.
//! - [`cgi`] and [`git`]: the Git Smart HTTP gateway's parsing, limits and rules.
//! - [`webhook`] and [`ip`]: where webhooks may be sent, how they are signed and retried.
//! - [`config`], [`storage`], [`text`] and [`error`]: configuration, object storage
//!   rules, character helpers and errors.
pub mod auth;
pub mod cgi;
pub mod config;
pub mod content;
pub mod error;
pub mod git;
pub mod http;
pub mod ip;
pub mod order;
pub mod storage;
pub mod text;
pub mod time;
pub mod webhook;
