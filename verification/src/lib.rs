//! Aggregation of a user's recent GitHub activity into a deduplicated
//! standup report.
//!
//! The crate holds the decisions of the reporting pipeline: which pages of
//! the event feed are worth asking for, which push events need a pull-request
//! lookup, and how a time-ordered stream of events folds into report entries.
//! Every exchange with a remote service is left to the caller; the functions
//! here take the answers as plain values.

pub mod calendar;
pub mod classify;
pub mod classify_laws;
pub mod config;
pub mod enrich;
pub mod enrich_laws;
pub mod event;
pub mod failure;
pub mod fetcher;
pub mod grouping;
pub mod link;
pub mod order;
pub mod redirect;
pub mod report;
pub mod request;
pub mod summary;
pub mod text;
pub mod timestamp;
pub mod window;
pub mod wizard;
