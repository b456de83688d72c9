//! The knowledge base: diagnosis records, their follow-up questions, and the
//! queries put to them.

use crate::score::{Score, ScoreModel};
use crate::text::views;
use vstd::hash_map::StringHashMap;
use vstd::prelude::*;

verus! {

/// The map that a list of named entries stands for: each entry is put under
/// its name in turn, so of two entries with one name the later one stays.
pub open spec fn entries<V, W>(pairs: Seq<(String, V)>, content: spec_fn(V) -> W) -> Map<
    Seq<char>,
    W,
>
    decreases pairs.len(),
{
    if pairs.len() == 0 {
        Map::empty()
    } else {
        entries(pairs.drop_last(), content).insert(pairs.last().0@, content(pairs.last().1))
    }
}

/// The mathematical content of a [`SubQuestion`].
pub struct SubQuestionView {
    /// The prompt shown to the person asked.
    pub question: Seq<char>,
    /// For each answer, the diagnosis names that it leads to, in order.
    pub options: Map<Seq<char>, Seq<Seq<char>>>,
}

/// A follow-up question tied to a symptom: each of its answers selects a list
/// of more specific diagnosis names.
pub struct SubQuestion {
    question: String,
    options: StringHashMap<Vec<String>>,
}

impl View for SubQuestion {
    type V = SubQuestionView;

    closed spec fn view(&self) -> SubQuestionView {
        SubQuestionView {
            question: self.question@,
            options: self.options@.map_values(|names: Vec<String>| views(names@)),
        }
    }
}

impl SubQuestion {
    /// A question with the given answers. Of two entries of `options` with
    /// the same answer the later one stays.
    pub fn new(question: String, options: Vec<(String, Vec<String>)>) -> (sub_question: SubQuestion)
        ensures
            sub_question@.question == question@,
            sub_question@.options == entries(options@, |names: Vec<String>| views(names@)),
    {
        let ghost content = |names: Vec<String>| views(names@);
        let ghost all = options@;
        let mut table: StringHashMap<Vec<String>> = StringHashMap::new();
        assert(table@.map_values(content) =~= entries(all.take(0), content));
        for pair in it: options
            invariant
                it.seq() == all,
                content == (|names: Vec<String>| views(names@)),
                table@.map_values(content) == entries(all.take(it.index()), content),
        {
            let (answer, names) = pair;
            proof {
                let next = all.take(it.index() + 1);
                assert(next.drop_last() =~= all.take(it.index()));
                assert(next.last() == (answer, names));
                assert(table@.insert(answer@, names).map_values(content) =~= table@.map_values(
                    content,
                ).insert(answer@, content(names)));
            }
            table.insert(answer, names);
        }
        assert(all.take(all.len() as int) =~= all);
        SubQuestion { question, options: table }
    }

    /// The prompt of the question.
    pub fn question(&self) -> (text: &String)
        ensures
            text@ == self@.question,
    {
        &self.question
    }

    /// The diagnosis names under `answer`, if the question has that answer.
    pub fn names_for(&self, answer: &str) -> (names: Option<&Vec<String>>)
        ensures
            names is Some <==> self@.options.contains_key(answer@),
            names matches Some(list) ==> views(list@) == self@.options[answer@],
    {
        self.options.get(answer)
    }
}

/// The mathematical content of a [`Diagnosis`].
pub struct DiagnosisView {
    /// The name of the condition.
    pub name: Seq<char>,
    /// The symptoms of the condition, in order, as stored.
    pub symptoms: Seq<Seq<char>>,
    /// The symptoms that earn the bonus when all of them are reported.
    pub required_symptoms: Seq<Seq<char>>,
    /// The follow-up question of each symptom that has one, if the record
    /// declares any.
    pub sub_questions: Option<Map<Seq<char>, SubQuestionView>>,
    /// What to do about the condition.
    pub recommended_action: Seq<char>,
}

impl DiagnosisView {
    /// A record names its condition and recommends an action.
    pub open spec fn wf(self) -> bool {
        self.name.len() > 0 && self.recommended_action.len() > 0
    }
}

/// A named condition with its symptoms, its follow-up questions and a
/// recommended action. Neither the name nor the action is empty.
pub struct Diagnosis {
    name: String,
    symptoms: Vec<String>,
    required_symptoms: Vec<String>,
    sub_questions: Option<StringHashMap<SubQuestion>>,
    recommended_action: String,
}

impl View for Diagnosis {
    type V = DiagnosisView;

    closed spec fn view(&self) -> DiagnosisView {
        DiagnosisView {
            name: self.name@,
            symptoms: views(self.symptoms@),
            required_symptoms: views(self.required_symptoms@),
            sub_questions: match self.sub_questions {
                Some(table) => Some(table@.map_values(|sq: SubQuestion| sq@)),
                None => None,
            },
            recommended_action: self.recommended_action@,
        }
    }
}

impl Diagnosis {
    /// Every record names its condition and recommends an action.
    #[verifier::type_invariant]
    pub open spec fn inv(self) -> bool {
        self@.wf()
    }

    /// A record with the given fields, or `None` when the name or the
    /// recommended action is empty. Of two entries of `sub_questions` for the
    /// same symptom the later one stays.
    pub fn new(
        name: String,
        symptoms: Vec<String>,
        required_symptoms: Vec<String>,
        sub_questions: Option<Vec<(String, SubQuestion)>>,
        recommended_action: String,
    ) -> (record: Option<Diagnosis>)
        ensures
            record is Some <==> name@.len() > 0 && recommended_action@.len() > 0,
            record matches Some(d) ==> d@ == (DiagnosisView {
                name: name@,
                symptoms: views(symptoms@),
                required_symptoms: views(required_symptoms@),
                sub_questions: match sub_questions {
                    Some(pairs) => Some(entries(pairs@, |sq: SubQuestion| sq@)),
                    None => None,
                },
                recommended_action: recommended_action@,
            }),
    {
        if name.as_str().is_empty() || recommended_action.as_str().is_empty() {
            return None;
        }
        let table = match sub_questions {
            Some(pairs) => Some(sub_question_table(pairs)),
            None => None,
        };
        Some(Diagnosis { name, symptoms, required_symptoms, sub_questions: table, recommended_action })
    }

    /// The name of the condition.
    pub fn name(&self) -> (text: &String)
        ensures
            text@ == self@.name,
            self@.wf(),
    {
        proof {
            use_type_invariant(self);
        }
        &self.name
    }

    /// The symptoms of the condition.
    pub fn symptoms(&self) -> (list: &Vec<String>)
        ensures
            views(list@) == self@.symptoms,
    {
        &self.symptoms
    }

    /// The symptoms that earn the bonus when all of them are reported.
    pub fn required_symptoms(&self) -> (list: &Vec<String>)
        ensures
            views(list@) == self@.required_symptoms,
    {
        &self.required_symptoms
    }

    /// What to do about the condition.
    pub fn recommended_action(&self) -> (text: &String)
        ensures
            text@ == self@.recommended_action,
            self@.wf(),
    {
        proof {
            use_type_invariant(self);
        }
        &self.recommended_action
    }

    /// Whether the record declares follow-up questions at all.
    pub fn has_sub_questions(&self) -> (declared: bool)
        ensures
            declared == self@.sub_questions is Some,
    {
        self.sub_questions.is_some()
    }

    /// The follow-up question of `symptom`, if the record declares one.
    pub fn sub_question(&self, symptom: &str) -> (found: Option<&SubQuestion>)
        ensures
            found is Some <==> (self@.sub_questions matches Some(table) && table.contains_key(
                symptom@,
            )),
            found matches Some(sq) ==> sq@ == self@.sub_questions->0[symptom@],
    {
        match &self.sub_questions {
            Some(table) => table.get(symptom),
            None => None,
        }
    }
}

/// Puts each follow-up question under its symptom, in turn.
fn sub_question_table(pairs: Vec<(String, SubQuestion)>) -> (table: StringHashMap<SubQuestion>)
    ensures
        table@.map_values(|sq: SubQuestion| sq@) == entries(pairs@, |sq: SubQuestion| sq@),
{
    let ghost content = |sq: SubQuestion| sq@;
    let ghost all = pairs@;
    let mut table: StringHashMap<SubQuestion> = StringHashMap::new();
    assert(table@.map_values(content) =~= entries(all.take(0), content));
    for pair in it: pairs
        invariant
            it.seq() == all,
            content == (|sq: SubQuestion| sq@),
            table@.map_values(content) == entries(all.take(it.index()), content),
    {
        let (symptom, sub_question) = pair;
        proof {
            let next = all.take(it.index() + 1);
            assert(next.drop_last() =~= all.take(it.index()));
            assert(next.last() == (symptom, sub_question));
            assert(table@.insert(symptom@, sub_question).map_values(content) =~= table@.map_values(
                content,
            ).insert(symptom@, content(sub_question)));
        }
        table.insert(symptom, sub_question);
    }
    assert(all.take(all.len() as int) =~= all);
    table
}

/// The contents of a list of records.
pub open spec fn record_views(records: Seq<Diagnosis>) -> Seq<DiagnosisView> {
    records.map_values(|d: Diagnosis| d@)
}

/// Every record of a knowledge base names its condition and recommends an
/// action.
pub open spec fn all_wf(records: Seq<DiagnosisView>) -> bool {
    forall|i: int| 0 <= i < records.len() ==> (#[trigger] records[i]).wf()
}

/// The diagnosis records, in the order in which they were given. Names need
/// not be unique.
pub struct KnowledgeBase {
    records: Vec<Diagnosis>,
}

impl View for KnowledgeBase {
    type V = Seq<DiagnosisView>;

    closed spec fn view(&self) -> Seq<DiagnosisView> {
        record_views(self.records@)
    }
}

impl KnowledgeBase {
    /// Every record of a knowledge base is well formed.
    #[verifier::type_invariant]
    pub open spec fn inv(self) -> bool {
        all_wf(self@)
    }

    /// A knowledge base of the given records, in their order.
    pub fn new(records: Vec<Diagnosis>) -> (kb: KnowledgeBase)
        ensures
            kb@ == record_views(records@),
            all_wf(kb@),
    {
        let ghost all = records@;
        let mut kept: Vec<Diagnosis> = Vec::new();
        for record in it: records
            invariant
                it.seq() == all,
                kept@ == all.take(it.index()),
                all_wf(record_views(kept@)),
        {
            proof {
                use_type_invariant(&record);
                assert(all.take(it.index() + 1) =~= kept@.push(record));
                assert forall|i: int| 0 <= i < kept.len() + 1 implies (#[trigger] record_views(
                    kept@.push(record),
                )[i]).wf() by {
                    if i < kept.len() {
                        assert(record_views(kept@)[i].wf());
                    }
                }
            }
            kept.push(record);
        }
        assert(all.take(all.len() as int) =~= all);
        KnowledgeBase { records: kept }
    }

    /// The records, in order.
    pub fn records(&self) -> (list: &Vec<Diagnosis>)
        ensures
            record_views(list@) == self@,
            all_wf(self@),
    {
        proof {
            use_type_invariant(self);
        }
        &self.records
    }

    /// How many records there are.
    pub fn len(&self) -> (n: usize)
        ensures
            n == self@.len(),
    {
        self.records.len()
    }
}

/// The mathematical content of a [`SymptomQuery`].
pub struct QueryView {
    /// The reported symptoms, in order.
    pub symptoms: Seq<Seq<char>>,
    /// The answer given to the follow-up question of each symptom that got
    /// one; empty when no answers came with the query.
    pub follow_up_answers: Map<Seq<char>, Seq<char>>,
}

/// The reported symptoms, with the answers to follow-up questions if any were
/// given.
pub struct SymptomQuery {
    symptoms: Vec<String>,
    follow_up_answers: Option<StringHashMap<String>>,
}

impl View for SymptomQuery {
    type V = QueryView;

    closed spec fn view(&self) -> QueryView {
        QueryView {
            symptoms: views(self.symptoms@),
            follow_up_answers: match self.follow_up_answers {
                Some(table) => table@.map_values(|answer: String| answer@),
                None => Map::empty(),
            },
        }
    }
}

impl SymptomQuery {
    /// A query for the given symptoms. Absent answers count as none given. Of
    /// two answers for the same symptom the later one stays.
    pub fn new(symptoms: Vec<String>, follow_up_answers: Option<Vec<(String, String)>>) -> (query:
        SymptomQuery)
        ensures
            query@.symptoms == views(symptoms@),
            query@.follow_up_answers == match follow_up_answers {
                Some(pairs) => entries(pairs@, |answer: String| answer@),
                None => Map::empty(),
            },
    {
        let table = match follow_up_answers {
            Some(pairs) => Some(answer_table(pairs)),
            None => None,
        };
        SymptomQuery { symptoms, follow_up_answers: table }
    }

    /// The reported symptoms.
    pub fn symptoms(&self) -> (list: &Vec<String>)
        ensures
            views(list@) == self@.symptoms,
    {
        &self.symptoms
    }

    /// The answer given for `symptom`, if there is one.
    pub fn answer_for(&self, symptom: &str) -> (found: Option<&String>)
        ensures
            found is Some <==> self@.follow_up_answers.contains_key(symptom@),
            found matches Some(answer) ==> answer@ == self@.follow_up_answers[symptom@],
    {
        match &self.follow_up_answers {
            Some(table) => table.get(symptom),
            None => None,
        }
    }
}

/// Puts each answer under its symptom, in turn.
fn answer_table(pairs: Vec<(String, String)>) -> (table: StringHashMap<String>)
    ensures
        table@.map_values(|answer: String| answer@) == entries(pairs@, |answer: String| answer@),
{
    let ghost content = |answer: String| answer@;
    let ghost all = pairs@;
    let mut table: StringHashMap<String> = StringHashMap::new();
    assert(table@.map_values(content) =~= entries(all.take(0), content));
    for pair in it: pairs
        invariant
            it.seq() == all,
            content == (|answer: String| answer@),
            table@.map_values(content) == entries(all.take(it.index()), content),
    {
        let (symptom, answer) = pair;
        proof {
            let next = all.take(it.index() + 1);
            assert(next.drop_last() =~= all.take(it.index()));
            assert(next.last() == (symptom, answer));
            assert(table@.insert(symptom@, answer).map_values(content) =~= table@.map_values(
                content,
            ).insert(symptom@, content(answer)));
        }
        table.insert(symptom, answer);
    }
    assert(all.take(all.len() as int) =~= all);
    table
}

/// The mathematical content of a [`RankedResult`].
pub struct RankedResultView {
    /// The name of the candidate diagnosis.
    pub diagnosis_name: Seq<char>,
    /// How well the candidate matches.
    pub score: ScoreModel,
    /// What to do about it.
    pub recommended_action: Seq<char>,
}

/// A candidate diagnosis with its score and the action to take.
#[derive(Clone, Debug, PartialEq, Eq)]
pub struct RankedResult {
    /// The name of the candidate diagnosis.
    pub diagnosis_name: String,
    /// How well the candidate matches.
    pub score: Score,
    /// What to do about it.
    pub recommended_action: String,
}

impl View for RankedResult {
    type V = RankedResultView;

    open spec fn view(&self) -> RankedResultView {
        RankedResultView {
            diagnosis_name: self.diagnosis_name@,
            score: self.score@,
            recommended_action: self.recommended_action@,
        }
    }
}

/// The contents of a list of results.
pub open spec fn result_views(results: Seq<RankedResult>) -> Seq<RankedResultView> {
    results.map_values(|r: RankedResult| r@)
}

} // verus!
