//! Decision logic of a small error-log collection service.
//!
//! Clients submit error reports. Reports whose normalized message and
//! category agree are gathered into one group, keyed by a content digest.
//! The functions here take plain values and return plain values: what to
//! look up, what to store, and what to answer. Storage and transport are
//! left to the caller.

pub mod admin;
pub mod auth;
pub mod decimal;
pub mod digest;
pub mod group;
pub mod history;
pub mod ingest;
pub mod key;
pub mod list;
pub mod listing;
pub mod members;
pub mod normalize;
pub mod reply;
pub mod site;
pub mod statistics;
pub mod text;
