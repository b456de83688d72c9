//! The query entry point: one of the two scoring strategies, chosen by the
//! caller, applied to a snapshot of the knowledge base.

use crate::branching::{branching, branching_results, no_answers};
use crate::knowledge::{
    result_views, DiagnosisView, KnowledgeBase, QueryView, RankedResult, RankedResultView,
    SymptomQuery,
};
use crate::overlap::{overlap, overlap_results};
use vstd::prelude::*;

verus! {

/// How a query is scored.
#[derive(Clone, Copy, Debug, PartialEq, Eq)]
pub enum Strategy {
    /// By the answers to follow-up questions; see [`branching`].
    Branching,
    /// By the share of symptoms that were reported; see [`overlap`].
    Overlap,
}

/// The results that a query has under a strategy.
pub open spec fn diagnosis_of(kb: Seq<DiagnosisView>, q: QueryView, strategy: Strategy) -> Seq<
    RankedResultView,
> {
    match strategy {
        Strategy::Branching => branching_results(kb, q),
        Strategy::Overlap => overlap_results(kb, q),
    }
}

/// Answers a query from a snapshot of the knowledge base, by the strategy
/// that the caller names. A query that matches nothing has an empty answer;
/// no query fails.
pub fn diagnose(kb: &KnowledgeBase, query: &SymptomQuery, strategy: Strategy) -> (results: Vec<
    RankedResult,
>)
    ensures
        result_views(results@) == diagnosis_of(kb@, query@, strategy),
        strategy == Strategy::Branching && no_answers(query@) ==> results@.len() == 0,
        strategy == Strategy::Overlap && query@.symptoms.len() == 0 ==> results@.len() == 0,
{
    match strategy {
        Strategy::Branching => branching(kb, query),
        Strategy::Overlap => overlap(kb, query),
    }
}

} // verus!
