//! Logic of a small multi-domain web server, verified: a sliding-window
//! rate tracker fed by periodic counter snapshots, a parser for plain-text
//! metric expositions, the paging and merging rules of the GitHub queries,
//! the issue and document reductions behind the dashboard pages, and the
//! host-dispatch and redirect tables of the server itself.
//!
//! Everything here is pure computation over plain values; the surrounding
//! binary performs the HTTP calls and hands the results in.  The only
//! leaning on outside code is named openly: the calendar readings of
//! `chrono` and the age wording of `timeago`, each behind one trusted
//! declaration.

pub mod atproto;
pub mod dates;
pub mod exposition;
pub mod firehose;
pub mod github;
pub mod go_data;
pub mod groups;
pub mod ietf_data;
pub mod network;
pub mod rfc_common;
pub mod roadmap;
pub mod rust_data;
pub mod social;
pub mod sorting;
pub mod text;
pub mod util;
