//! Keeps a local directory of block files in step with a remote object
//! store, without fetching again what is already there.
//!
//! The library computes which keys to ask the store for and when to ask
//! again; it copies nothing itself. One cycle scans the listing of the
//! block directory ([`coverage`]), plans a range of heights or a set of keys
//! ([`planner`]), writes the plan out as a batch of patterns ([`query`]) and,
//! once the copier has run, reads its report ([`report`]). The [`driver`]
//! says when a cycle is due. Names are read and written by [`codec`], the
//! heights in them by [`decimal`]. [`cycle`] puts the steps of one cycle
//! together, and [`config`] holds the options of the four ways to run.
//!
//! Every function is verified against its contract. Two calls into the
//! standard library are taken on trust: the decoding of the copier's report
//! from bytes to text, and the appending of one character to a string.

pub mod codec;
pub mod config;
pub mod coverage;
pub mod cycle;
pub mod decimal;
pub mod driver;
pub mod error;
pub mod planner;
pub mod query;
pub mod report;
pub mod text;
