//! A personal bookmark store: links with titles, notes and tags, kept per user, found by
//! pattern and by tag facet, and kept in step between clients by versions.
//!
//! The library holds the rules of the store and proves them:
//!
//! - [`query`] builds parameterized statements fragment by fragment;
//! - [`tags`] sorts tag tokens into a facet and decides whether a link's tags pass it;
//! - [`search`] reads the query language into a search pattern;
//! - [`statements`], [`writes`], [`sync`] and [`stored_query`] compose the statements that
//!   a store on disk runs, and plan its writes from what it answers;
//! - [`vault`] is the store itself as a state machine over plain values, with versioned
//!   writes, first-write-wins merging and searches; [`laws`] states what follows;
//! - [`migration`] plans the opening of a store: which scripts are due, and when a schema
//!   must be refused;
//! - [`auth`] decides authentications.
//!
//! Reading and writing a database, a terminal or a socket is left to the program around
//! the library.

pub mod appver;
pub mod auth;
pub mod config;
pub mod error;
pub mod laws;
pub mod link;
pub mod migration;
pub mod order;
pub mod query;
pub mod search;
pub mod server;
pub mod statements;
pub mod stored_query;
pub mod sync;
pub mod tags;
pub mod user;
pub mod utils;
pub mod vault;
pub mod version;
pub mod writes;
