use symptom_match::json::{parse, JsonValue};
use symptom_match::knowledge::SymptomQuery;
use symptom_match::loader::{
    decode, decode_options, decode_record, decode_sub_question, decode_sub_questions,
    decode_texts, find_member, load, load_text, LoadError,
};
use symptom_match::matcher::{diagnose, Strategy};

const DATA: &str = r#"[
  {
    "diagnosis": "Flu",
    "symptoms": ["fever", "cough", "fatigue"],
    "required_symptoms": ["fever"],
    "recommended_action": "rest",
    "note": 3.5
  },
  {
    "diagnosis": "Allergy",
    "symptoms": ["rash"],
    "required_symptoms": [],
    "sub_questions": {
      "rash": {
        "question": "Did it follow contact?",
        "options": { "yes": ["Contact Dermatitis"], "no": ["Hay Fever", "Eczema"] }
      }
    },
    "recommended_action": "see an allergist"
  },
  {
    "diagnosis": "Cold",
    "symptoms": [],
    "required_symptoms": [],
    "sub_questions": null,
    "recommended_action": "tea"
  }
]"#;

fn text(s: &str) -> JsonValue {
    JsonValue::Text(s.to_string())
}

fn list(items: &[&str]) -> JsonValue {
    JsonValue::List(items.iter().map(|s| text(s)).collect())
}

fn object(members: Vec<(&str, JsonValue)>) -> JsonValue {
    JsonValue::Object(members.into_iter().map(|(name, value)| (name.to_string(), value)).collect())
}

fn flu_members() -> Vec<(&'static str, JsonValue)> {
    vec![
        ("diagnosis", text("Flu")),
        ("symptoms", list(&["fever", "cough"])),
        ("required_symptoms", list(&["fever"])),
        ("recommended_action", text("rest")),
    ]
}

fn without(name: &str) -> JsonValue {
    object(flu_members().into_iter().filter(|(n, _)| *n != name).collect())
}

fn with(name: &'static str, value: JsonValue) -> JsonValue {
    let mut members = flu_members();
    members.push((name, value));
    object(members)
}

#[test]
fn loads_records_in_order() {
    let kb = load_text(DATA).unwrap();
    assert_eq!(kb.len(), 3);
    let records = kb.records();
    assert_eq!(records[0].name(), "Flu");
    assert_eq!(records[0].symptoms(), &["fever", "cough", "fatigue"]);
    assert_eq!(records[0].required_symptoms(), &["fever"]);
    assert_eq!(records[0].recommended_action(), "rest");
    assert!(!records[0].has_sub_questions());
    assert_eq!(records[1].name(), "Allergy");
    assert!(records[1].has_sub_questions());
    let sub_question = records[1].sub_question("rash").unwrap();
    assert_eq!(sub_question.question(), "Did it follow contact?");
    assert_eq!(sub_question.names_for("no").unwrap(), &["Hay Fever", "Eczema"]);
    assert!(sub_question.names_for("maybe").is_none());
    assert!(records[1].sub_question("fever").is_none());
    assert!(!records[2].has_sub_questions());
    assert!(records[2].symptoms().is_empty());
}

#[test]
fn loaded_knowledge_base_answers_queries() {
    let kb = load(Some(DATA)).unwrap();
    let scored = diagnose(
        &kb,
        &SymptomQuery::new(vec!["Fever".to_string(), "cough".to_string()], None),
        Strategy::Overlap,
    );
    assert_eq!(scored.len(), 1);
    assert_eq!(scored[0].diagnosis_name, "Flu");
    let branched = diagnose(
        &kb,
        &SymptomQuery::new(
            vec!["rash".to_string()],
            Some(vec![("rash".to_string(), "no".to_string())]),
        ),
        Strategy::Branching,
    );
    let names: Vec<&str> = branched.iter().map(|r| r.diagnosis_name.as_str()).collect();
    assert_eq!(names, vec!["Hay Fever", "Eczema"]);
    assert_eq!(branched[0].recommended_action, "see an allergist");
}

#[test]
fn unreadable_source_is_an_io_failure() {
    assert_eq!(load(None).err(), Some(LoadError::IoFailure));
}

#[test]
fn malformed_content_is_malformed_data() {
    assert_eq!(load_text("").err(), Some(LoadError::MalformedData));
    assert_eq!(load_text("[{\"diagnosis\": \"Flu\", ").err(), Some(LoadError::MalformedData));
    assert_eq!(load_text("not json").err(), Some(LoadError::MalformedData));
    assert_eq!(load_text("[] trailing").err(), Some(LoadError::MalformedData));
    assert_eq!(load(Some("{")).err(), Some(LoadError::MalformedData));
}

#[test]
fn documents_of_another_shape_are_malformed_data() {
    assert_eq!(load_text("{}").err(), Some(LoadError::MalformedData));
    assert_eq!(load_text("null").err(), Some(LoadError::MalformedData));
    assert_eq!(load_text("[1]").err(), Some(LoadError::MalformedData));
    assert_eq!(load_text("[[]]").err(), Some(LoadError::MalformedData));
    let one_bad = r#"[
      {"diagnosis": "A", "symptoms": [], "required_symptoms": [], "recommended_action": "x"},
      {"diagnosis": "B", "symptoms": [], "recommended_action": "y"}
    ]"#;
    assert_eq!(load_text(one_bad).err(), Some(LoadError::MalformedData));
}

#[test]
fn empty_array_is_an_empty_knowledge_base() {
    assert_eq!(load_text("[]").unwrap().len(), 0);
    assert_eq!(decode(&JsonValue::List(Vec::new())).unwrap().len(), 0);
}

#[test]
fn parse_reads_the_document() {
    let document = parse(r#"{"b": [true, null, "x", 12], "a": {}}"#).unwrap();
    let members = match &document {
        JsonValue::Object(members) => members,
        other => panic!("expected an object, found {:?}", other),
    };
    assert_eq!(members.len(), 2);
    let b = find_member(members, &"b".to_string()).unwrap();
    match b {
        JsonValue::List(items) => {
            assert_eq!(items.len(), 4);
            assert!(matches!(items[0], JsonValue::Bool(true)));
            assert!(items[1].is_null());
            assert_eq!(items[2].as_text().unwrap(), "x");
            assert!(matches!(&items[3], JsonValue::Number(n) if n == "12"));
        }
        other => panic!("expected an array, found {:?}", other),
    }
    assert!(find_member(members, &"a".to_string()).unwrap().as_object().unwrap().is_empty());
    assert!(find_member(members, &"c".to_string()).is_none());
    assert!(parse("[1, 2").is_none());
}

#[test]
fn record_needs_each_required_member() {
    assert!(decode_record(&object(flu_members())).is_some());
    for name in ["diagnosis", "symptoms", "required_symptoms", "recommended_action"] {
        assert!(decode_record(&without(name)).is_none(), "{}", name);
    }
    assert!(decode_record(&list(&["Flu"])).is_none());
    assert!(decode_record(&JsonValue::Null).is_none());
}

#[test]
fn record_members_have_their_types() {
    assert!(decode_record(&with("diagnosis", JsonValue::Number("1".to_string()))).is_none());
    assert!(decode_record(&with("symptoms", text("fever"))).is_none());
    assert!(decode_record(&with(
        "required_symptoms",
        JsonValue::List(vec![text("fever"), JsonValue::Bool(true)])
    ))
    .is_none());
    assert!(decode_record(&with("recommended_action", JsonValue::Null)).is_none());
    assert!(decode_record(&with("sub_questions", list(&[]))).is_none());
    assert!(decode_record(&with("sub_questions", JsonValue::Null)).is_some());
    assert!(decode_record(&with("sub_questions", object(Vec::new()))).unwrap().has_sub_questions());
    assert!(decode_record(&with("extra", JsonValue::Bool(false))).is_some());
}

#[test]
fn record_names_its_condition_and_action() {
    assert!(decode_record(&with("diagnosis", text(""))).is_none());
    assert!(decode_record(&with("recommended_action", text(""))).is_none());
    let data = r#"[{"diagnosis": "", "symptoms": [], "required_symptoms": [], "recommended_action": "x"}]"#;
    assert_eq!(load_text(data).err(), Some(LoadError::MalformedData));
}

#[test]
fn last_member_of_a_name_counts() {
    let record = decode_record(&with("diagnosis", text("Influenza"))).unwrap();
    assert_eq!(record.name(), "Influenza");
    let members = vec![("k".to_string(), text("1")), ("k".to_string(), text("2"))];
    assert_eq!(find_member(&members, &"k".to_string()).unwrap().as_text().unwrap(), "2");
}

#[test]
fn texts_are_arrays_of_strings() {
    assert_eq!(decode_texts(&list(&["a", "b"])).unwrap(), vec!["a", "b"]);
    assert!(decode_texts(&list(&[])).unwrap().is_empty());
    assert!(decode_texts(&text("a")).is_none());
    assert!(decode_texts(&JsonValue::List(vec![text("a"), JsonValue::Null])).is_none());
}

#[test]
fn sub_questions_have_a_question_and_options() {
    let good = object(vec![
        ("question", text("Which?")),
        ("options", object(vec![("yes", list(&["A", "B"])), ("no", list(&[]))])),
    ]);
    let sub_question = decode_sub_question(&good).unwrap();
    assert_eq!(sub_question.question(), "Which?");
    assert_eq!(sub_question.names_for("yes").unwrap(), &["A", "B"]);
    assert!(sub_question.names_for("no").unwrap().is_empty());
    assert!(decode_sub_question(&object(vec![("question", text("Which?"))])).is_none());
    assert!(decode_sub_question(&object(vec![("options", object(Vec::new()))])).is_none());
    assert!(decode_sub_question(&object(vec![
        ("question", JsonValue::Bool(true)),
        ("options", object(Vec::new())),
    ]))
    .is_none());
    assert!(decode_sub_question(&object(vec![
        ("question", text("Which?")),
        ("options", object(vec![("yes", text("A"))])),
    ]))
    .is_none());
    assert!(decode_options(&list(&[])).is_none());
    assert_eq!(
        decode_options(&object(vec![("yes", list(&["A"]))])).unwrap(),
        vec![("yes".to_string(), vec!["A".to_string()])]
    );
    let table = decode_sub_questions(&object(vec![("rash", good)])).unwrap();
    assert_eq!(table.len(), 1);
    assert_eq!(table[0].0, "rash");
    assert!(decode_sub_questions(&object(vec![("rash", JsonValue::Null)])).is_none());
    assert!(decode_sub_questions(&text("rash")).is_none());
}
