//! Overlap scoring: a record scores by the share of its symptoms that were
//! reported, without regard to case, with a bonus when all of its required
//! symptoms were.

use crate::knowledge::{
    record_views, result_views, DiagnosisView, KnowledgeBase, QueryView, RankedResult,
    RankedResultView, SymptomQuery,
};
use crate::ranking::{descending, lemma_ranked_descending, rank, ranked, scores_wf};
use crate::score::{Score, ScoreModel};
use crate::text::{
    all_present, count_present, every_present, fold_all, folded, lemma_present_count_bound,
    lemma_present_count_empty, present_count, views,
};
use vstd::prelude::*;

verus! {

/// The score of a list of symptoms against the reported ones, all compared
/// exactly: the count of symptoms that were reported, out of all of them, with
/// the bonus when there are required symptoms and every one was reported.
pub open spec fn overlap_of(
    symptoms: Seq<Seq<char>>,
    required: Seq<Seq<char>>,
    reported: Seq<Seq<char>>,
) -> ScoreModel {
    ScoreModel {
        matched: present_count(symptoms, reported),
        total: symptoms.len(),
        bonus: required.len() > 0 && all_present(required, reported),
    }
}

/// How many symptoms of `d` the query reports, without regard to case.
pub open spec fn matched_count(d: DiagnosisView, q: QueryView) -> nat {
    present_count(folded(d.symptoms), folded(q.symptoms))
}

/// Whether `d` earns the bonus: it has required symptoms, and the query
/// reports every one of them, without regard to case.
pub open spec fn required_met(d: DiagnosisView, q: QueryView) -> bool {
    d.required_symptoms.len() > 0 && all_present(folded(d.required_symptoms), folded(q.symptoms))
}

/// A record is a candidate when the query reports at least one of its
/// symptoms.
pub open spec fn eligible(d: DiagnosisView, q: QueryView) -> bool {
    matched_count(d, q) > 0
}

/// The score of `d` for the query. It depends on `d` and the query alone, not
/// on where `d` stands in the knowledge base.
pub open spec fn overlap_score(d: DiagnosisView, q: QueryView) -> ScoreModel {
    overlap_of(folded(d.symptoms), folded(d.required_symptoms), folded(q.symptoms))
}

/// The result reported for a candidate.
pub open spec fn candidate(d: DiagnosisView, q: QueryView) -> RankedResultView {
    RankedResultView {
        diagnosis_name: d.name,
        score: overlap_score(d, q),
        recommended_action: d.recommended_action,
    }
}

/// The results of the candidates among the records, in the order of the
/// knowledge base.
pub open spec fn candidates(kb: Seq<DiagnosisView>, q: QueryView) -> Seq<RankedResultView>
    decreases kb.len(),
{
    if kb.len() == 0 {
        Seq::empty()
    } else if eligible(kb.last(), q) {
        candidates(kb.drop_last(), q).push(candidate(kb.last(), q))
    } else {
        candidates(kb.drop_last(), q)
    }
}

/// The results of overlap scoring: the candidates ranked by score, highest
/// first, ties in the order of the knowledge base.
pub open spec fn overlap_results(kb: Seq<DiagnosisView>, q: QueryView) -> Seq<RankedResultView> {
    ranked(candidates(kb, q))
}

/// Scores a list of symptoms against the reported ones, comparing the strings
/// exactly. `None` when no symptom was reported.
pub fn score_overlap(symptoms: &Vec<String>, required: &Vec<String>, reported: &Vec<String>) -> (score:
    Option<Score>)
    ensures
        score is Some <==> present_count(views(symptoms@), views(reported@)) > 0,
        score matches Some(s) ==> s@ == overlap_of(
            views(symptoms@),
            views(required@),
            views(reported@),
        ),
{
    proof {
        lemma_present_count_bound(views(symptoms@), views(reported@));
    }
    let matched = count_present(symptoms, reported);
    if matched == 0 {
        return None;
    }
    let bonus = required.len() > 0 && every_present(required, reported);
    Score::new(matched, symptoms.len(), bonus)
}

/// Scores every record against the query and ranks the candidates. A record
/// is a candidate when at least one of its symptoms equals a reported one
/// without regard to case; its score is the share of its symptoms that do,
/// times 100, plus 10 when it has required symptoms and all were reported.
/// The candidates come out by score, highest first, ties in the order of the
/// knowledge base.
pub fn overlap(kb: &KnowledgeBase, query: &SymptomQuery) -> (results: Vec<RankedResult>)
    ensures
        result_views(results@) == overlap_results(kb@, query@),
        descending(result_views(results@)),
        query@.symptoms.len() == 0 ==> results@.len() == 0,
{
    let records = kb.records();
    let reported = fold_all(query.symptoms());
    let mut found: Vec<RankedResult> = Vec::new();
    let mut i: usize = 0;
    assert(result_views(found@) =~= candidates(kb@.take(0), query@));
    while i < records.len()
        invariant
            i <= records.len(),
            kb@ == record_views(records@),
            views(reported@) == folded(query@.symptoms),
            result_views(found@) == candidates(kb@.take(i as int), query@),
        decreases records.len() - i,
    {
        let record = &records[i];
        let ghost d = kb@[i as int];
        assert(record@ == d);
        proof {
            assert(kb@.take(i + 1).drop_last() =~= kb@.take(i as int));
            assert(kb@.take(i + 1).last() == d);
        }
        let symptoms = fold_all(record.symptoms());
        let required = fold_all(record.required_symptoms());
        if let Some(score) = score_overlap(&symptoms, &required, &reported) {
            let result = RankedResult {
                diagnosis_name: record.name().clone(),
                score,
                recommended_action: record.recommended_action().clone(),
            };
            proof {
                assert(result@ == candidate(d, query@));
                assert(result_views(found@.push(result)) =~= result_views(found@).push(result@));
            }
            found.push(result);
        }
        i += 1;
    }
    proof {
        assert(kb@.take(i as int) =~= kb@);
        if query@.symptoms.len() == 0 {
            lemma_no_symptoms_no_candidates(kb@, query@);
        }
    }
    rank(found)
}

/// A query that reports no symptom has no candidate.
pub proof fn lemma_no_symptoms_no_candidates(kb: Seq<DiagnosisView>, q: QueryView)
    requires
        q.symptoms.len() == 0,
    ensures
        candidates(kb, q).len() == 0,
        overlap_results(kb, q).len() == 0,
    decreases kb.len(),
{
    if kb.len() > 0 {
        lemma_no_symptoms_no_candidates(kb.drop_last(), q);
        lemma_present_count_empty(folded(kb.last().symptoms), folded(q.symptoms));
    }
}

/// A record without symptoms is never a candidate, whatever the query holds.
pub proof fn lemma_no_symptoms_not_eligible(d: DiagnosisView, q: QueryView)
    requires
        d.symptoms.len() == 0,
    ensures
        !eligible(d, q),
{
    lemma_present_count_empty(folded(d.symptoms), folded(q.symptoms));
}

/// The score of a candidate is `100 * matched / total`, plus 10 with the
/// bonus, where at least one and at most all of the record's symptoms
/// matched: it lies above 0 and at most at 110.
pub proof fn lemma_candidate_score(d: DiagnosisView, q: QueryView)
    requires
        eligible(d, q),
    ensures
        overlap_score(d, q).matched == matched_count(d, q),
        overlap_score(d, q).total == d.symptoms.len(),
        overlap_score(d, q).bonus == required_met(d, q),
        overlap_score(d, q).wf(),
        overlap_score(d, q).scaled() == 100 * matched_count(d, q) + if required_met(d, q) {
            10 * d.symptoms.len()
        } else {
            0
        },
        0 < overlap_score(d, q).scaled() <= 110 * d.symptoms.len(),
{
    lemma_present_count_bound(folded(d.symptoms), folded(q.symptoms));
}

/// The bonus is part of a score exactly when the record has required
/// symptoms and the query reports all of them. A record without required
/// symptoms never has it, and then scores at most 100.
pub proof fn lemma_bonus(d: DiagnosisView, q: QueryView)
    ensures
        overlap_score(d, q).bonus <==> d.required_symptoms.len() > 0 && all_present(
            folded(d.required_symptoms),
            folded(q.symptoms),
        ),
        d.required_symptoms.len() == 0 ==> !overlap_score(d, q).bonus,
        !overlap_score(d, q).bonus ==> overlap_score(d, q).scaled() <= 100 * d.symptoms.len(),
{
    lemma_present_count_bound(folded(d.symptoms), folded(q.symptoms));
}

/// The candidates of two lists of records, one after the other.
pub proof fn lemma_candidates_concat(a: Seq<DiagnosisView>, b: Seq<DiagnosisView>, q: QueryView)
    ensures
        candidates(a + b, q) == candidates(a, q) + candidates(b, q),
    decreases b.len(),
{
    if b.len() == 0 {
        assert(a + b =~= a);
        assert(candidates(a, q) + candidates(b, q) =~= candidates(a, q));
    } else {
        lemma_candidates_concat(a, b.drop_last(), q);
        assert((a + b).drop_last() =~= a + b.drop_last());
        assert((a + b).last() == b.last());
        if eligible(b.last(), q) {
            assert(candidates(a, q) + candidates(b, q) =~= (candidates(a, q) + candidates(
                b.drop_last(),
                q,
            )).push(candidate(b.last(), q)));
        }
    }
}

/// `r` is the result of a record of `kb` that is a candidate.
pub open spec fn from_record(kb: Seq<DiagnosisView>, q: QueryView, r: RankedResultView) -> bool {
    exists|i: int| 0 <= i < kb.len() && eligible(#[trigger] kb[i], q) && r == candidate(kb[i], q)
}

/// Every candidate result belongs to a record that is a candidate, and every
/// such record has its result among them.
pub proof fn lemma_candidates_exact(kb: Seq<DiagnosisView>, q: QueryView)
    ensures
        forall|k: int|
            0 <= k < candidates(kb, q).len() ==> from_record(kb, q, #[trigger] candidates(kb, q)[k]),
        forall|i: int|
            0 <= i < kb.len() && eligible(#[trigger] kb[i], q) ==> candidates(kb, q).contains(
                candidate(kb[i], q),
            ),
        scores_wf(candidates(kb, q)),
        candidates(kb, q).len() <= kb.len(),
    decreases kb.len(),
{
    if kb.len() > 0 {
        let rest = kb.drop_last();
        let d = kb.last();
        let found = candidates(kb, q);
        lemma_candidates_exact(rest, q);
        lemma_present_count_bound(folded(d.symptoms), folded(q.symptoms));
        assert forall|k: int| 0 <= k < found.len() implies from_record(
            kb,
            q,
            #[trigger] found[k],
        ) by {
            if k < candidates(rest, q).len() {
                assert(from_record(rest, q, candidates(rest, q)[k]));
                let i = choose|i: int|
                    0 <= i < rest.len() && eligible(#[trigger] rest[i], q) && candidates(
                        rest,
                        q,
                    )[k] == candidate(rest[i], q);
                assert(kb[i] == rest[i]);
            } else {
                assert(found[k] == candidate(kb[kb.len() - 1], q));
            }
        }
        assert forall|i: int| 0 <= i < kb.len() && eligible(#[trigger] kb[i], q) implies found.contains(
            candidate(kb[i], q),
        ) by {
            if i < rest.len() {
                assert(kb[i] == rest[i]);
                let k = choose|k: int|
                    0 <= k < candidates(rest, q).len() && candidates(rest, q)[k] == candidate(
                        rest[i],
                        q,
                    );
                assert(found[k] == candidate(kb[i], q));
            } else {
                assert(found[found.len() - 1] == candidate(kb[i], q));
            }
        }
        assert forall|k: int| 0 <= k < found.len() implies (#[trigger] found[k]).score.wf() by {
            if k < candidates(rest, q).len() {
                assert(found[k] == candidates(rest, q)[k]);
            }
        }
    }
}

/// The results of overlap scoring are exactly the results of the records
/// that are candidates: nothing else comes out, and no candidate is left out.
/// They come out by score, highest first, and every score is well formed.
pub proof fn lemma_overlap_exact(kb: Seq<DiagnosisView>, q: QueryView)
    ensures
        forall|r: RankedResultView|
            #[trigger] overlap_results(kb, q).contains(r) <==> from_record(kb, q, r),
        descending(overlap_results(kb, q)),
        scores_wf(overlap_results(kb, q)),
        overlap_results(kb, q).len() == candidates(kb, q).len(),
{
    broadcast use vstd::seq_lib::group_to_multiset_ensures;

    let found = candidates(kb, q);
    let out = overlap_results(kb, q);
    lemma_candidates_exact(kb, q);
    crate::ranking::lemma_ranked_permutes(found);
    lemma_ranked_descending(found);
    assert forall|r: RankedResultView| #[trigger] out.contains(r) <==> from_record(kb, q, r) by {
        assert(out.contains(r) <==> out.to_multiset().count(r) > 0);
        assert(found.contains(r) <==> found.to_multiset().count(r) > 0);
        if found.contains(r) {
            let k = choose|k: int| 0 <= k < found.len() && found[k] == r;
            assert(from_record(kb, q, found[k]));
        }
    }
}

/// Reordering the knowledge base changes no score: the same results come out,
/// each as often as before, and only their order among ties can differ.
pub proof fn lemma_order_of_records(kb1: Seq<DiagnosisView>, kb2: Seq<DiagnosisView>, q: QueryView)
    requires
        kb1.to_multiset() == kb2.to_multiset(),
    ensures
        candidates(kb1, q).to_multiset() == candidates(kb2, q).to_multiset(),
        overlap_results(kb1, q).to_multiset() == overlap_results(kb2, q).to_multiset(),
    decreases kb1.len(),
{
    broadcast use vstd::seq_lib::group_to_multiset_ensures;

    crate::ranking::lemma_ranked_permutes(candidates(kb1, q));
    crate::ranking::lemma_ranked_permutes(candidates(kb2, q));
    if kb1.len() == 0 {
        assert(kb2.len() == kb2.to_multiset().len());
        assert(kb1.to_multiset().len() == 0);
        assert(kb2 =~= kb1);
    } else {
        let d = kb1.last();
        let rest1 = kb1.drop_last();
        assert(kb1 =~= rest1.push(d));
        assert(kb1.to_multiset().count(d) > 0);
        assert(kb2.contains(d));
        let j = choose|j: int| 0 <= j < kb2.len() && kb2[j] == d;
        let rest2 = kb2.remove(j);
        vstd::seq_lib::to_multiset_remove(kb2, j);
        assert(rest1.to_multiset() =~= kb1.to_multiset().remove(d));
        lemma_order_of_records(rest1, rest2, q);
        let front = kb2.take(j);
        let back = kb2.skip(j + 1);
        assert(kb2 =~= (front + seq![d]) + back);
        assert(rest2 =~= front + back);
        lemma_candidates_concat(front + seq![d], back, q);
        lemma_candidates_concat(front, seq![d], q);
        lemma_candidates_concat(front, back, q);
        let one = candidates(seq![d], q);
        assert(seq![d].drop_last() =~= Seq::<DiagnosisView>::empty());
        assert(seq![d].last() == d);
        assert(candidates(seq![d].drop_last(), q) =~= Seq::<RankedResultView>::empty());
        assert(one =~= if eligible(d, q) {
            seq![candidate(d, q)]
        } else {
            Seq::empty()
        });
        vstd::seq_lib::lemma_multiset_commutative(candidates(front, q) + one, candidates(back, q));
        vstd::seq_lib::lemma_multiset_commutative(candidates(front, q), one);
        vstd::seq_lib::lemma_multiset_commutative(candidates(front, q), candidates(back, q));
        vstd::seq_lib::lemma_multiset_commutative(candidates(rest1, q), one);
        assert(candidates(kb1, q) =~= candidates(rest1, q) + one);
        assert(candidates(kb1, q).to_multiset() =~= candidates(kb2, q).to_multiset());
    }
}

} // verus!
