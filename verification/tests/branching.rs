use symptom_match::branching::branching;
use symptom_match::knowledge::{Diagnosis, KnowledgeBase, SubQuestion, SymptomQuery};
use symptom_match::matcher::{diagnose, Strategy};
use symptom_match::score::Score;

fn strings(items: &[&str]) -> Vec<String> {
    items.iter().map(|s| s.to_string()).collect()
}

fn question(options: &[(&str, &[&str])]) -> SubQuestion {
    SubQuestion::new(
        "Which?".to_string(),
        options.iter().map(|(answer, names)| (answer.to_string(), strings(names))).collect(),
    )
}

fn answers(pairs: &[(&str, &str)]) -> Option<Vec<(String, String)>> {
    Some(pairs.iter().map(|(s, a)| (s.to_string(), a.to_string())).collect())
}

fn allergy() -> KnowledgeBase {
    let record = Diagnosis::new(
        "Allergy".to_string(),
        strings(&["rash"]),
        Vec::new(),
        Some(vec![("rash".to_string(), question(&[("yes", &["Contact Dermatitis"])]))]),
        "see an allergist".to_string(),
    )
    .unwrap();
    KnowledgeBase::new(vec![record])
}

#[test]
fn answered_sub_question_gives_the_names_under_the_option() {
    let query = SymptomQuery::new(strings(&["rash"]), answers(&[("rash", "yes")]));
    let results = branching(&allergy(), &query);
    assert_eq!(results.len(), 1);
    assert_eq!(results[0].diagnosis_name, "Contact Dermatitis");
    assert_eq!(results[0].recommended_action, "see an allergist");
    assert_eq!(results[0].score, Score::certain());
    assert_eq!(results[0].score.matched(), 1);
    assert_eq!(results[0].score.total(), 1);
    assert!(!results[0].score.has_bonus());
}

#[test]
fn no_answers_give_no_results() {
    let without = SymptomQuery::new(strings(&["rash"]), None);
    assert!(branching(&allergy(), &without).is_empty());
    let empty = SymptomQuery::new(strings(&["rash", "fever"]), Some(Vec::new()));
    assert!(branching(&allergy(), &empty).is_empty());
}

#[test]
fn silent_no_matches() {
    let kb = allergy();
    let absent_symptom = SymptomQuery::new(strings(&["fever"]), answers(&[("rash", "yes")]));
    assert!(branching(&kb, &absent_symptom).is_empty());
    let absent_answer = SymptomQuery::new(strings(&["rash"]), answers(&[("fever", "yes")]));
    assert!(branching(&kb, &absent_answer).is_empty());
    let unknown_option = SymptomQuery::new(strings(&["rash"]), answers(&[("rash", "maybe")]));
    assert!(branching(&kb, &unknown_option).is_empty());
    let other_case = SymptomQuery::new(strings(&["Rash"]), answers(&[("Rash", "yes")]));
    assert!(branching(&kb, &other_case).is_empty());
}

#[test]
fn record_without_sub_questions_gives_nothing() {
    let record =
        Diagnosis::new("Flu".to_string(), strings(&["fever"]), Vec::new(), None, "rest".to_string())
            .unwrap();
    let kb = KnowledgeBase::new(vec![record]);
    let query = SymptomQuery::new(strings(&["fever"]), answers(&[("fever", "yes")]));
    assert!(branching(&kb, &query).is_empty());
}

#[test]
fn one_result_for_each_combination_and_nothing_merged() {
    let skin = Diagnosis::new(
        "Skin".to_string(),
        Vec::new(),
        Vec::new(),
        Some(vec![
            ("rash".to_string(), question(&[("yes", &["Eczema", "Hives"]), ("no", &["Dry skin"])])),
            ("itch".to_string(), question(&[("night", &["Hives", "Scabies"])])),
        ]),
        "moisturise".to_string(),
    )
    .unwrap();
    let joint = Diagnosis::new(
        "Joint".to_string(),
        strings(&["pain"]),
        Vec::new(),
        Some(vec![("itch".to_string(), question(&[("night", &["Hives"])]))]),
        "rest".to_string(),
    )
    .unwrap();
    let kb = KnowledgeBase::new(vec![skin, joint]);
    let query = SymptomQuery::new(
        strings(&["itch", "rash", "cough"]),
        answers(&[("rash", "yes"), ("itch", "night")]),
    );
    let results = branching(&kb, &query);
    let seen: Vec<(&str, &str)> = results
        .iter()
        .map(|r| (r.diagnosis_name.as_str(), r.recommended_action.as_str()))
        .collect();
    assert_eq!(
        seen,
        vec![
            ("Hives", "moisturise"),
            ("Scabies", "moisturise"),
            ("Eczema", "moisturise"),
            ("Hives", "moisturise"),
            ("Hives", "rest"),
        ]
    );
    for result in &results {
        assert_eq!(result.score, Score::certain());
    }
}

#[test]
fn a_symptom_reported_twice_triggers_twice() {
    let query = SymptomQuery::new(strings(&["rash", "rash"]), answers(&[("rash", "yes")]));
    assert_eq!(branching(&allergy(), &query).len(), 2);
}

#[test]
fn later_entry_for_the_same_key_stays() {
    let record = Diagnosis::new(
        "Allergy".to_string(),
        Vec::new(),
        Vec::new(),
        Some(vec![
            ("rash".to_string(), question(&[("yes", &["Old"])])),
            ("rash".to_string(), question(&[("yes", &["Older"]), ("yes", &["New"])])),
        ]),
        "act".to_string(),
    )
    .unwrap();
    let kb = KnowledgeBase::new(vec![record]);
    let query =
        SymptomQuery::new(strings(&["rash"]), answers(&[("rash", "no"), ("rash", "yes")]));
    let results = branching(&kb, &query);
    assert_eq!(results.len(), 1);
    assert_eq!(results[0].diagnosis_name, "New");
}

#[test]
fn diagnose_applies_the_named_strategy() {
    let kb = allergy();
    let query = SymptomQuery::new(strings(&["rash"]), answers(&[("rash", "yes")]));
    let branched = diagnose(&kb, &query, Strategy::Branching);
    assert_eq!(branched.len(), 1);
    assert_eq!(branched[0].diagnosis_name, "Contact Dermatitis");
    let scored = diagnose(&kb, &query, Strategy::Overlap);
    assert_eq!(scored.len(), 1);
    assert_eq!(scored[0].diagnosis_name, "Allergy");
    assert_eq!((scored[0].score.matched(), scored[0].score.total()), (1, 1));
    let nothing = SymptomQuery::new(strings(&["cough"]), None);
    assert!(diagnose(&kb, &nothing, Strategy::Branching).is_empty());
    assert!(diagnose(&kb, &nothing, Strategy::Overlap).is_empty());
}
