//! Branching resolution: the answer to a symptom's follow-up question selects
//! a list of diagnosis names, each reported as a certain match.

use crate::knowledge::{
    result_views, DiagnosisView, KnowledgeBase, QueryView, RankedResult, RankedResultView,
    SymptomQuery,
};
use crate::score::{Score, ScoreModel};
use crate::text::views;
use vstd::prelude::*;

verus! {

/// One certain match for each of `names`, in order, all with `action`.
pub open spec fn option_results(names: Seq<Seq<char>>, action: Seq<char>) -> Seq<
    RankedResultView,
> {
    names.map_values(
        |name: Seq<char>|
            RankedResultView {
                diagnosis_name: name,
                score: ScoreModel::certain(),
                recommended_action: action,
            },
    )
}

/// Whether `symptom` triggers a follow-up question of `d` that the query
/// answers with one of the question's options.
pub open spec fn triggers(d: DiagnosisView, q: QueryView, symptom: Seq<char>) -> bool {
    &&& d.sub_questions matches Some(table)
    &&& table.contains_key(symptom)
    &&& q.follow_up_answers.contains_key(symptom)
    &&& table[symptom].options.contains_key(q.follow_up_answers[symptom])
}

/// The names that the answered follow-up question of `symptom` selects.
pub open spec fn selected_names(d: DiagnosisView, q: QueryView, symptom: Seq<char>) -> Seq<
    Seq<char>,
> {
    d.sub_questions->0[symptom].options[q.follow_up_answers[symptom]]
}

/// What one reported symptom contributes for the record `d`: the names under
/// the chosen option with the action of `d` itself, or nothing.
pub open spec fn symptom_results(d: DiagnosisView, q: QueryView, symptom: Seq<char>) -> Seq<
    RankedResultView,
> {
    if triggers(d, q, symptom) {
        option_results(selected_names(d, q, symptom), d.recommended_action)
    } else {
        Seq::empty()
    }
}

/// What the record `d` contributes for `symptoms`, symptom after symptom.
pub open spec fn diagnosis_results(d: DiagnosisView, q: QueryView, symptoms: Seq<Seq<char>>) -> Seq<
    RankedResultView,
>
    decreases symptoms.len(),
{
    if symptoms.len() == 0 {
        Seq::empty()
    } else {
        diagnosis_results(d, q, symptoms.drop_last()) + symptom_results(d, q, symptoms.last())
    }
}

/// The results of branching resolution: the contributions of the records in
/// the order of the knowledge base, with nothing merged or removed.
pub open spec fn branching_results(kb: Seq<DiagnosisView>, q: QueryView) -> Seq<RankedResultView>
    decreases kb.len(),
{
    if kb.len() == 0 {
        Seq::empty()
    } else {
        branching_results(kb.drop_last(), q) + diagnosis_results(kb.last(), q, q.symptoms)
    }
}

/// The query came without any answer to a follow-up question.
pub open spec fn no_answers(q: QueryView) -> bool {
    forall|symptom: Seq<char>| !q.follow_up_answers.contains_key(symptom)
}

/// A record contributes nothing when no reported symptom triggers an answered
/// question of it.
pub proof fn lemma_untriggered_record(d: DiagnosisView, q: QueryView, symptoms: Seq<Seq<char>>)
    requires
        forall|j: int| 0 <= j < symptoms.len() ==> !triggers(d, q, #[trigger] symptoms[j]),
    ensures
        diagnosis_results(d, q, symptoms) == Seq::<RankedResultView>::empty(),
    decreases symptoms.len(),
{
    if symptoms.len() > 0 {
        lemma_untriggered_record(d, q, symptoms.drop_last());
    }
}

/// Branching resolution yields nothing when the query carries no answers,
/// whatever symptoms it reports.
pub proof fn lemma_no_answers_no_results(kb: Seq<DiagnosisView>, q: QueryView)
    requires
        no_answers(q),
    ensures
        branching_results(kb, q) == Seq::<RankedResultView>::empty(),
    decreases kb.len(),
{
    if kb.len() > 0 {
        lemma_no_answers_no_results(kb.drop_last(), q);
        lemma_untriggered_record(kb.last(), q, q.symptoms);
    }
}

/// The contributions of two lists of symptoms, one after the other.
pub proof fn lemma_diagnosis_results_concat(
    d: DiagnosisView,
    q: QueryView,
    a: Seq<Seq<char>>,
    b: Seq<Seq<char>>,
)
    ensures
        diagnosis_results(d, q, a + b) == diagnosis_results(d, q, a) + diagnosis_results(d, q, b),
    decreases b.len(),
{
    if b.len() == 0 {
        assert(a + b =~= a);
        assert(diagnosis_results(d, q, a) + diagnosis_results(d, q, b) =~= diagnosis_results(
            d,
            q,
            a,
        ));
    } else {
        lemma_diagnosis_results_concat(d, q, a, b.drop_last());
        assert((a + b).drop_last() =~= a + b.drop_last());
        assert((a + b).last() == b.last());
        assert(diagnosis_results(d, q, a) + diagnosis_results(d, q, b) =~= (diagnosis_results(
            d,
            q,
            a,
        ) + diagnosis_results(d, q, b.drop_last())) + symptom_results(d, q, b.last()));
    }
}

/// The results for two lists of records, one after the other.
pub proof fn lemma_branching_results_concat(
    a: Seq<DiagnosisView>,
    b: Seq<DiagnosisView>,
    q: QueryView,
)
    ensures
        branching_results(a + b, q) == branching_results(a, q) + branching_results(b, q),
    decreases b.len(),
{
    if b.len() == 0 {
        assert(a + b =~= a);
        assert(branching_results(a, q) + branching_results(b, q) =~= branching_results(a, q));
    } else {
        lemma_branching_results_concat(a, b.drop_last(), q);
        assert((a + b).drop_last() =~= a + b.drop_last());
        assert((a + b).last() == b.last());
        assert(branching_results(a, q) + branching_results(b, q) =~= (branching_results(a, q)
            + branching_results(b.drop_last(), q)) + diagnosis_results(b.last(), q, q.symptoms));
    }
}

/// How many results the record `d` contributes for `symptoms`: for each
/// symptom that triggers an answered question, the number of names under the
/// chosen option.
pub open spec fn diagnosis_count(d: DiagnosisView, q: QueryView, symptoms: Seq<Seq<char>>) -> nat
    decreases symptoms.len(),
{
    if symptoms.len() == 0 {
        0
    } else {
        diagnosis_count(d, q, symptoms.drop_last()) + if triggers(d, q, symptoms.last()) {
            selected_names(d, q, symptoms.last()).len()
        } else {
            0
        }
    }
}

/// How many results branching resolution yields: the contributions of all
/// records, added up.
pub open spec fn branching_count(kb: Seq<DiagnosisView>, q: QueryView) -> nat
    decreases kb.len(),
{
    if kb.len() == 0 {
        0
    } else {
        branching_count(kb.drop_last(), q) + diagnosis_count(kb.last(), q, q.symptoms)
    }
}

/// A record contributes one result for each name under each chosen option.
pub proof fn lemma_diagnosis_count(d: DiagnosisView, q: QueryView, symptoms: Seq<Seq<char>>)
    ensures
        diagnosis_results(d, q, symptoms).len() == diagnosis_count(d, q, symptoms),
    decreases symptoms.len(),
{
    if symptoms.len() > 0 {
        lemma_diagnosis_count(d, q, symptoms.drop_last());
    }
}

/// Branching resolution yields one result for each record, each reported
/// symptom that triggers an answered question of it, and each name under the
/// chosen option: as many results as there are such combinations, a name
/// that several of them select being reported once for each.
pub proof fn lemma_branching_count(kb: Seq<DiagnosisView>, q: QueryView)
    ensures
        branching_results(kb, q).len() == branching_count(kb, q),
    decreases kb.len(),
{
    if kb.len() > 0 {
        lemma_branching_count(kb.drop_last(), q);
        lemma_diagnosis_count(kb.last(), q, q.symptoms);
    }
}

/// Where the results of record `i` for the reported symptom `j` stand: the
/// names under the chosen option follow, in their order and with the action
/// of record `i`, on the results of the records before `i` and of the
/// symptoms before `j`. Nothing is merged with them or removed from them.
pub proof fn lemma_contribution_in_place(kb: Seq<DiagnosisView>, q: QueryView, i: int, j: int)
    requires
        0 <= i < kb.len(),
        0 <= j < q.symptoms.len(),
    ensures
        ({
            let start = (branching_count(kb.take(i), q) + diagnosis_count(
                kb[i],
                q,
                q.symptoms.take(j),
            )) as int;
            let own = symptom_results(kb[i], q, q.symptoms[j]);
            &&& start + own.len() <= branching_results(kb, q).len()
            &&& branching_results(kb, q).subrange(start, start + own.len()) == own
        }),
{
    let d = kb[i];
    let s = q.symptoms[j];
    let own = symptom_results(d, q, s);
    let before = branching_results(kb.take(i), q);
    let after = branching_results(kb.skip(i + 1), q);
    let earlier = diagnosis_results(d, q, q.symptoms.take(j));
    let later = diagnosis_results(d, q, q.symptoms.skip(j + 1));
    assert(kb =~= (kb.take(i) + seq![d]) + kb.skip(i + 1));
    lemma_branching_results_concat(kb.take(i) + seq![d], kb.skip(i + 1), q);
    lemma_branching_results_concat(kb.take(i), seq![d], q);
    assert(seq![d].drop_last() =~= Seq::<DiagnosisView>::empty());
    assert(branching_results(seq![d].drop_last(), q) =~= Seq::<RankedResultView>::empty());
    assert(branching_results(seq![d], q) =~= diagnosis_results(d, q, q.symptoms));
    assert(q.symptoms =~= (q.symptoms.take(j) + seq![s]) + q.symptoms.skip(j + 1));
    lemma_diagnosis_results_concat(d, q, q.symptoms.take(j) + seq![s], q.symptoms.skip(j + 1));
    lemma_diagnosis_results_concat(d, q, q.symptoms.take(j), seq![s]);
    assert(seq![s].drop_last() =~= Seq::<Seq<char>>::empty());
    assert(diagnosis_results(d, q, seq![s].drop_last()) =~= Seq::<RankedResultView>::empty());
    assert(diagnosis_results(d, q, seq![s]) =~= own);
    lemma_branching_count(kb.take(i), q);
    lemma_diagnosis_count(d, q, q.symptoms.take(j));
    let all = branching_results(kb, q);
    assert(all =~= (before + ((earlier + own) + later)) + after);
    let start = (before.len() + earlier.len()) as int;
    assert(all.subrange(start, start + own.len()) =~= own);
}

/// Appends to `results` one certain match for each of `names`, with `action`.
fn push_option_results(results: &mut Vec<RankedResult>, names: &Vec<String>, action: &String)
    ensures
        result_views(final(results)@) == result_views(old(results)@) + option_results(
            views(names@),
            action@,
        ),
{
    let ghost before = result_views(results@);
    let ghost added = option_results(views(names@), action@);
    let mut k: usize = 0;
    assert(result_views(results@) =~= before + added.take(0));
    while k < names.len()
        invariant
            k <= names.len(),
            added == option_results(views(names@), action@),
            result_views(results@) == before + added.take(k as int),
        decreases names.len() - k,
    {
        let result = RankedResult {
            diagnosis_name: names[k].clone(),
            score: Score::certain(),
            recommended_action: action.clone(),
        };
        proof {
            assert(result@ == added[k as int]);
            assert(result_views(results@.push(result)) =~= result_views(results@).push(result@));
            assert(before + added.take(k + 1) =~= (before + added.take(k as int)).push(
                added[k as int],
            ));
        }
        results.push(result);
        k += 1;
    }
    assert(added.take(k as int) =~= added);
}

/// Resolves the query by its follow-up answers. For each record that declares
/// follow-up questions, and each reported symptom in order: when the symptom
/// has a question, the query answers it, and the answer is one of its options,
/// every name under that option is reported as a certain match with the
/// record's own recommended action. Anything else is passed over in silence.
pub fn branching(kb: &KnowledgeBase, query: &SymptomQuery) -> (results: Vec<RankedResult>)
    ensures
        result_views(results@) == branching_results(kb@, query@),
        no_answers(query@) ==> results@.len() == 0,
{
    let records = kb.records();
    let symptoms = query.symptoms();
    let mut results: Vec<RankedResult> = Vec::new();
    let mut i: usize = 0;
    assert(result_views(results@) =~= branching_results(kb@.take(0), query@));
    while i < records.len()
        invariant
            i <= records.len(),
            kb@ == crate::knowledge::record_views(records@),
            views(symptoms@) == query@.symptoms,
            result_views(results@) == branching_results(kb@.take(i as int), query@),
        decreases records.len() - i,
    {
        let record = &records[i];
        let ghost d = kb@[i as int];
        let ghost before = result_views(results@);
        assert(record@ == d);
        proof {
            assert(kb@.take(i + 1).drop_last() =~= kb@.take(i as int));
            assert(kb@.take(i + 1).last() == d);
        }
        if record.has_sub_questions() {
            let mut j: usize = 0;
            assert(result_views(results@) =~= before + diagnosis_results(
                d,
                query@,
                query@.symptoms.take(0),
            ));
            while j < symptoms.len()
                invariant
                    j <= symptoms.len(),
                    record@ == d,
                    views(symptoms@) == query@.symptoms,
                    result_views(results@) == before + diagnosis_results(
                        d,
                        query@,
                        query@.symptoms.take(j as int),
                    ),
                decreases symptoms.len() - j,
            {
                let symptom = symptoms[j].as_str();
                let ghost so_far = diagnosis_results(d, query@, query@.symptoms.take(j as int));
                proof {
                    assert(query@.symptoms.take(j + 1).drop_last() =~= query@.symptoms.take(
                        j as int,
                    ));
                    assert(query@.symptoms.take(j + 1).last() == symptom@);
                }
                let mut triggered = false;
                if let Some(sub_question) = record.sub_question(symptom) {
                    if let Some(answer) = query.answer_for(symptom) {
                        if let Some(names) = sub_question.names_for(answer.as_str()) {
                            assert(triggers(d, query@, symptom@));
                            push_option_results(&mut results, names, record.recommended_action());
                            triggered = true;
                        }
                    }
                }
                proof {
                    if !triggered {
                        assert(!triggers(d, query@, symptom@));
                    }
                    assert(result_views(results@) =~= before + (so_far + symptom_results(
                        d,
                        query@,
                        symptom@,
                    )));
                }
                j += 1;
            }
            assert(query@.symptoms.take(j as int) =~= query@.symptoms);
        } else {
            proof {
                lemma_untriggered_record(d, query@, query@.symptoms);
                assert(result_views(results@) =~= before + diagnosis_results(
                    d,
                    query@,
                    query@.symptoms,
                ));
            }
        }
        i += 1;
    }
    proof {
        assert(kb@.take(i as int) =~= kb@);
        if no_answers(query@) {
            lemma_no_answers_no_results(kb@, query@);
        }
    }
    results
}

} // verus!
