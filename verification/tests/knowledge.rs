use symptom_match::knowledge::{Diagnosis, KnowledgeBase, SubQuestion, SymptomQuery};
use symptom_match::text::{contains_text, count_present, every_present, fold_all};

fn strings(items: &[&str]) -> Vec<String> {
    items.iter().map(|s| s.to_string()).collect()
}

#[test]
fn diagnosis_needs_a_name_and_an_action() {
    let make = |name: &str, action: &str| {
        Diagnosis::new(name.to_string(), Vec::new(), Vec::new(), None, action.to_string())
    };
    assert!(make("", "rest").is_none());
    assert!(make("Flu", "").is_none());
    assert!(make("", "").is_none());
    let record = make("Flu", "rest").unwrap();
    assert_eq!(record.name(), "Flu");
    assert_eq!(record.recommended_action(), "rest");
    assert!(record.symptoms().is_empty());
    assert!(record.required_symptoms().is_empty());
    assert!(!record.has_sub_questions());
    assert!(record.sub_question("fever").is_none());
}

#[test]
fn diagnosis_keeps_its_fields() {
    let sub_question = SubQuestion::new(
        "How long?".to_string(),
        vec![("days".to_string(), strings(&["Flu"])), ("weeks".to_string(), strings(&["Mono", "CFS"]))],
    );
    let record = Diagnosis::new(
        "Fatigue".to_string(),
        strings(&["Tired", "weak"]),
        strings(&["Tired"]),
        Some(vec![("Tired".to_string(), sub_question)]),
        "rest".to_string(),
    )
    .unwrap();
    assert_eq!(record.symptoms(), &["Tired", "weak"]);
    assert_eq!(record.required_symptoms(), &["Tired"]);
    assert!(record.has_sub_questions());
    let found = record.sub_question("Tired").unwrap();
    assert_eq!(found.question(), "How long?");
    assert_eq!(found.names_for("weeks").unwrap(), &["Mono", "CFS"]);
    assert!(found.names_for("Weeks").is_none());
    assert!(record.sub_question("tired").is_none());
}

#[test]
fn knowledge_base_keeps_its_records_in_order() {
    let make = |name: &str| {
        Diagnosis::new(name.to_string(), Vec::new(), Vec::new(), None, "act".to_string()).unwrap()
    };
    let kb = KnowledgeBase::new(vec![make("B"), make("A"), make("B")]);
    assert_eq!(kb.len(), 3);
    let names: Vec<&str> = kb.records().iter().map(|d| d.name().as_str()).collect();
    assert_eq!(names, vec!["B", "A", "B"]);
    assert_eq!(KnowledgeBase::new(Vec::new()).len(), 0);
}

#[test]
fn query_keeps_symptoms_and_answers() {
    let query = SymptomQuery::new(
        strings(&["rash", "itch"]),
        Some(vec![
            ("rash".to_string(), "yes".to_string()),
            ("itch".to_string(), "no".to_string()),
            ("rash".to_string(), "no".to_string()),
        ]),
    );
    assert_eq!(query.symptoms(), &["rash", "itch"]);
    assert_eq!(query.answer_for("rash").unwrap(), "no");
    assert_eq!(query.answer_for("itch").unwrap(), "no");
    assert!(query.answer_for("fever").is_none());
    let bare = SymptomQuery::new(strings(&["rash"]), None);
    assert!(bare.answer_for("rash").is_none());
}

#[test]
fn fold_all_lowers_each_text() {
    assert_eq!(fold_all(&strings(&["Fever", "COUGH", "fatigue", ""])), strings(&["fever", "cough", "fatigue", ""]));
    assert_eq!(fold_all(&strings(&["ÉTÉ", "Straße"])), strings(&["été", "straße"]));
    assert!(fold_all(&Vec::new()).is_empty());
}

#[test]
fn texts_are_found_exactly() {
    let pool = strings(&["fever", "cough"]);
    assert!(contains_text(&pool, &"cough".to_string()));
    assert!(!contains_text(&pool, &"Cough".to_string()));
    assert!(!contains_text(&Vec::new(), &"cough".to_string()));
    assert_eq!(count_present(&strings(&["cough", "rash", "fever", "cough"]), &pool), 3);
    assert_eq!(count_present(&strings(&["rash"]), &pool), 0);
    assert_eq!(count_present(&Vec::new(), &pool), 0);
    assert!(every_present(&strings(&["fever", "fever"]), &pool));
    assert!(!every_present(&strings(&["fever", "rash"]), &pool));
    assert!(every_present(&Vec::new(), &pool));
    assert!(every_present(&Vec::new(), &Vec::new()));
}
