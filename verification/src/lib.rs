//! Ranks candidate diagnoses for a set of reported symptoms against an
//! in-memory knowledge base.
//!
//! A knowledge base is loaded once from a JSON document ([`loader`]), held in
//! a [`store::SharedStore`], and read as snapshots. A query is answered from
//! a snapshot by [`matcher::diagnose`], either by the answers to follow-up
//! questions ([`branching`]) or by the share of symptoms that were reported
//! ([`overlap`]). Scores are exact fractions ([`score`]), so that the ranking
//! ([`ranking`]) never depends on rounding.

pub mod branching;
pub mod json;
pub mod knowledge;
pub mod loader;
pub mod matcher;
pub mod overlap;
pub mod ranking;
pub mod score;
pub mod store;
pub mod text;
