//! Loading: a knowledge base is read from a JSON document, an array of
//! record objects, or the load fails as a whole.

use crate::json::{item_views, member, member_views, parse, parsed_json, JsonModel, JsonValue, MemberModel};
use crate::knowledge::{
    all_wf, entries, record_views, Diagnosis, DiagnosisView, KnowledgeBase, SubQuestion,
    SubQuestionView,
};
use crate::text::views;
use vstd::prelude::*;

verus! {

/// Why a knowledge base could not be loaded.
#[derive(Clone, Copy, Debug, PartialEq, Eq)]
pub enum LoadError {
    /// The source could not be read.
    IoFailure,
    /// The content is no JSON document, or not one of the expected shape.
    MalformedData,
}

/// The strings of an array of strings; `None` for anything else.
pub open spec fn texts_of(v: JsonModel) -> Option<Seq<Seq<char>>> {
    match v {
        JsonModel::List(items) => if forall|i: int|
            0 <= i < items.len() ==> (#[trigger] items[i]) is Text {
            Some(Seq::new(items.len(), |i: int| items[i]->Text_0))
        } else {
            None
        },
        _ => None,
    }
}

/// The map that the members of an object stand for, each value read by
/// `meaning`: of two members with one name the later one stays.
pub open spec fn member_map<W>(members: Seq<MemberModel>, meaning: spec_fn(JsonModel) -> W) -> Map<
    Seq<char>,
    W,
>
    decreases members.len(),
{
    if members.len() == 0 {
        Map::empty()
    } else {
        member_map(members.drop_last(), meaning).insert(
            members.last().name,
            meaning(members.last().value),
        )
    }
}

/// The options of a follow-up question: an object whose every value is an
/// array of strings.
pub open spec fn options_of(v: JsonModel) -> Option<Map<Seq<char>, Seq<Seq<char>>>> {
    match v {
        JsonModel::Object(members) => if forall|i: int|
            0 <= i < members.len() ==> texts_of((#[trigger] members[i]).value) is Some {
            Some(member_map(members, |x: JsonModel| texts_of(x)->0))
        } else {
            None
        },
        _ => None,
    }
}

/// A follow-up question: an object with a string `question` and with
/// `options`.
pub open spec fn sub_question_of(v: JsonModel) -> Option<SubQuestionView> {
    match v {
        JsonModel::Object(members) => match (
            member(members, "question"@),
            member(members, "options"@),
        ) {
            (Some(JsonModel::Text(question)), Some(options)) => match options_of(options) {
                Some(table) => Some(SubQuestionView { question, options: table }),
                None => None,
            },
            _ => None,
        },
        _ => None,
    }
}

/// The follow-up questions of a record: an object whose every value is a
/// follow-up question.
pub open spec fn sub_questions_of(v: JsonModel) -> Option<Map<Seq<char>, SubQuestionView>> {
    match v {
        JsonModel::Object(members) => if forall|i: int|
            0 <= i < members.len() ==> sub_question_of((#[trigger] members[i]).value) is Some {
            Some(member_map(members, |x: JsonModel| sub_question_of(x)->0))
        } else {
            None
        },
        _ => None,
    }
}

/// What the member `sub_questions` of a record says: nothing when it is
/// missing or `null`, else the follow-up questions. The outer `None` stands
/// for a member of another shape.
pub open spec fn declared_sub_questions(members: Seq<MemberModel>) -> Option<
    Option<Map<Seq<char>, SubQuestionView>>,
> {
    match member(members, "sub_questions"@) {
        None => Some(None),
        Some(JsonModel::Null) => Some(None),
        Some(other) => match sub_questions_of(other) {
            Some(table) => Some(Some(table)),
            None => None,
        },
    }
}

/// A record: an object with the strings `diagnosis` and `recommended_action`,
/// neither empty, the arrays of strings `symptoms` and `required_symptoms`,
/// and, if it has them, `sub_questions`. Other members are passed over.
pub open spec fn record_of(v: JsonModel) -> Option<DiagnosisView> {
    match v {
        JsonModel::Object(members) => match (
            member(members, "diagnosis"@),
            member(members, "symptoms"@),
            member(members, "required_symptoms"@),
            declared_sub_questions(members),
            member(members, "recommended_action"@),
        ) {
            (
                Some(JsonModel::Text(name)),
                Some(symptoms),
                Some(required),
                Some(sub_questions),
                Some(JsonModel::Text(action)),
            ) => if texts_of(symptoms) is Some && texts_of(required) is Some && name.len() > 0
                && action.len() > 0 {
                Some(
                    DiagnosisView {
                        name,
                        symptoms: texts_of(symptoms)->0,
                        required_symptoms: texts_of(required)->0,
                        sub_questions,
                        recommended_action: action,
                    },
                )
            } else {
                None
            },
            _ => None,
        },
        _ => None,
    }
}

/// A knowledge base: an array of records, kept in its order.
pub open spec fn knowledge_of(v: JsonModel) -> Option<Seq<DiagnosisView>> {
    match v {
        JsonModel::List(items) => if forall|i: int|
            0 <= i < items.len() ==> record_of(#[trigger] items[i]) is Some {
            Some(Seq::new(items.len(), |i: int| record_of(items[i])->0))
        } else {
            None
        },
        _ => None,
    }
}

/// The value of the member of `members` called `name`: that of the last
/// member with this name.
pub fn find_member<'a>(members: &'a Vec<(String, JsonValue)>, name: &String) -> (found: Option<
    &'a JsonValue,
>)
    ensures
        match found {
            Some(value) => member(member_views(members@), name@) == Some(value@),
            None => member(member_views(members@), name@) is None,
        },
{
    let ghost all = member_views(members@);
    let mut k: usize = members.len();
    assert(all.take(k as int) =~= all);
    while k > 0
        invariant
            k <= members.len(),
            all == member_views(members@),
            member(all, name@) == member(all.take(k as int), name@),
        decreases k,
    {
        k -= 1;
        proof {
            let upto = all.take(k + 1);
            assert(upto.drop_last() =~= all.take(k as int));
            assert(upto.last() == all[k as int]);
        }
        if members[k].0 == *name {
            return Some(&members[k].1);
        }
    }
    None
}

/// The strings of an array of strings.
pub fn decode_texts(value: &JsonValue) -> (texts: Option<Vec<String>>)
    ensures
        match texts {
            Some(list) => texts_of(value@) == Some(views(list@)),
            None => texts_of(value@) is None,
        },
{
    let items = match value.as_list() {
        Some(items) => items,
        None => {
            return None;
        },
    };
    let ghost all = item_views(items@);
    let mut texts: Vec<String> = Vec::new();
    let mut i: usize = 0;
    while i < items.len()
        invariant
            i <= items.len(),
            all == item_views(items@),
            value@ == JsonModel::List(all),
            texts.len() == i,
            forall|k: int| 0 <= k < i ==> (#[trigger] all[k]) == JsonModel::Text(texts[k]@),
        decreases items.len() - i,
    {
        match items[i].as_text() {
            Some(text) => {
                texts.push(text.clone());
            },
            None => {
                assert(!(all[i as int] is Text));
                return None;
            },
        }
        i += 1;
    }
    assert(texts_of(value@)->0 =~= views(texts@));
    Some(texts)
}

/// A list of named entries and the members of an object stand for the same
/// map when they agree member by member.
proof fn lemma_entries_agree<V, W>(
    pairs: Seq<(String, V)>,
    content: spec_fn(V) -> W,
    members: Seq<MemberModel>,
    meaning: spec_fn(JsonModel) -> W,
)
    requires
        pairs.len() == members.len(),
        forall|i: int|
            0 <= i < pairs.len() ==> (#[trigger] pairs[i]).0@ == members[i].name && content(
                pairs[i].1,
            ) == meaning(members[i].value),
    ensures
        entries(pairs, content) == member_map(members, meaning),
    decreases pairs.len(),
{
    if pairs.len() > 0 {
        let rest = pairs.drop_last();
        assert forall|i: int| 0 <= i < rest.len() implies (#[trigger] rest[i]).0@
            == members.drop_last()[i].name && content(rest[i].1) == meaning(
            members.drop_last()[i].value,
        ) by {
            assert(rest[i] == pairs[i]);
        }
        lemma_entries_agree(rest, content, members.drop_last(), meaning);
        assert(pairs.last() == pairs[pairs.len() - 1]);
    }
}

/// The options of a follow-up question, as named lists in the order of the
/// object's members.
pub fn decode_options(value: &JsonValue) -> (options: Option<Vec<(String, Vec<String>)>>)
    ensures
        match options {
            Some(pairs) => options_of(value@) == Some(
                entries(pairs@, |names: Vec<String>| views(names@)),
            ),
            None => options_of(value@) is None,
        },
{
    let members = match value.as_object() {
        Some(members) => members,
        None => {
            return None;
        },
    };
    let ghost all = member_views(members@);
    let mut pairs: Vec<(String, Vec<String>)> = Vec::new();
    let mut i: usize = 0;
    while i < members.len()
        invariant
            i <= members.len(),
            all == member_views(members@),
            value@ == JsonModel::Object(all),
            pairs.len() == i,
            forall|k: int|
                0 <= k < i ==> (#[trigger] pairs[k]).0@ == all[k].name && texts_of(all[k].value)
                    == Some(views(pairs[k].1@)),
        decreases members.len() - i,
    {
        match decode_texts(&members[i].1) {
            Some(names) => {
                pairs.push((members[i].0.clone(), names));
            },
            None => {
                assert(texts_of(all[i as int].value) is None);
                return None;
            },
        }
        i += 1;
    }
    proof {
        assert forall|k: int| 0 <= k < all.len() implies texts_of((#[trigger] all[k]).value)
            is Some by {
            assert(pairs[k].0@ == all[k].name);
        }
        lemma_entries_agree(
            pairs@,
            |names: Vec<String>| views(names@),
            all,
            |x: JsonModel| texts_of(x)->0,
        );
    }
    Some(pairs)
}

/// A follow-up question.
pub fn decode_sub_question(value: &JsonValue) -> (decoded: Option<SubQuestion>)
    ensures
        match decoded {
            Some(sub_question) => sub_question_of(value@) == Some(sub_question@),
            None => sub_question_of(value@) is None,
        },
{
    let members = match value.as_object() {
        Some(members) => members,
        None => {
            return None;
        },
    };
    let question_name = "question".to_owned();
    let options_name = "options".to_owned();
    let question = match find_member(members, &question_name) {
        Some(found) => match found.as_text() {
            Some(text) => text,
            None => {
                return None;
            },
        },
        None => {
            return None;
        },
    };
    let options = match find_member(members, &options_name) {
        Some(found) => match decode_options(found) {
            Some(pairs) => pairs,
            None => {
                return None;
            },
        },
        None => {
            return None;
        },
    };
    Some(SubQuestion::new(question.clone(), options))
}

/// The follow-up questions of a record, as named questions in the order of
/// the object's members.
pub fn decode_sub_questions(value: &JsonValue) -> (decoded: Option<Vec<(String, SubQuestion)>>)
    ensures
        match decoded {
            Some(pairs) => sub_questions_of(value@) == Some(
                entries(pairs@, |sq: SubQuestion| sq@),
            ),
            None => sub_questions_of(value@) is None,
        },
{
    let members = match value.as_object() {
        Some(members) => members,
        None => {
            return None;
        },
    };
    let ghost all = member_views(members@);
    let mut pairs: Vec<(String, SubQuestion)> = Vec::new();
    let mut i: usize = 0;
    while i < members.len()
        invariant
            i <= members.len(),
            all == member_views(members@),
            value@ == JsonModel::Object(all),
            pairs.len() == i,
            forall|k: int|
                0 <= k < i ==> (#[trigger] pairs[k]).0@ == all[k].name && sub_question_of(
                    all[k].value,
                ) == Some(pairs[k].1@),
        decreases members.len() - i,
    {
        match decode_sub_question(&members[i].1) {
            Some(sub_question) => {
                pairs.push((members[i].0.clone(), sub_question));
            },
            None => {
                assert(sub_question_of(all[i as int].value) is None);
                return None;
            },
        }
        i += 1;
    }
    proof {
        assert forall|k: int| 0 <= k < all.len() implies sub_question_of(
            (#[trigger] all[k]).value,
        ) is Some by {
            assert(pairs[k].0@ == all[k].name);
        }
        lemma_entries_agree(
            pairs@,
            |sq: SubQuestion| sq@,
            all,
            |x: JsonModel| sub_question_of(x)->0,
        );
    }
    Some(pairs)
}

/// A record of the knowledge base.
pub fn decode_record(value: &JsonValue) -> (decoded: Option<Diagnosis>)
    ensures
        match decoded {
            Some(record) => record_of(value@) == Some(record@),
            None => record_of(value@) is None,
        },
{
    let members = match value.as_object() {
        Some(members) => members,
        None => {
            return None;
        },
    };
    let name = match find_member(members, &"diagnosis".to_owned()) {
        Some(found) => match found.as_text() {
            Some(text) => text,
            None => {
                return None;
            },
        },
        None => {
            return None;
        },
    };
    let symptoms = match find_member(members, &"symptoms".to_owned()) {
        Some(found) => match decode_texts(found) {
            Some(list) => list,
            None => {
                return None;
            },
        },
        None => {
            return None;
        },
    };
    let required = match find_member(members, &"required_symptoms".to_owned()) {
        Some(found) => match decode_texts(found) {
            Some(list) => list,
            None => {
                return None;
            },
        },
        None => {
            return None;
        },
    };
    let sub_questions = match find_member(members, &"sub_questions".to_owned()) {
        Some(found) => if found.is_null() {
            None
        } else {
            match decode_sub_questions(found) {
                Some(pairs) => Some(pairs),
                None => {
                    return None;
                },
            }
        },
        None => None,
    };
    let action = match find_member(members, &"recommended_action".to_owned()) {
        Some(found) => match found.as_text() {
            Some(text) => text,
            None => {
                return None;
            },
        },
        None => {
            return None;
        },
    };
    Diagnosis::new(name.clone(), symptoms, required, sub_questions, action.clone())
}

/// Reads a knowledge base from a JSON document: an array of records, kept in
/// its order. One record of another shape fails the whole load; nothing is
/// loaded in part.
pub fn decode(document: &JsonValue) -> (loaded: Result<KnowledgeBase, LoadError>)
    ensures
        match loaded {
            Ok(kb) => knowledge_of(document@) == Some(kb@) && all_wf(kb@),
            Err(error) => error == LoadError::MalformedData && knowledge_of(document@) is None,
        },
{
    let items = match document.as_list() {
        Some(items) => items,
        None => {
            return Err(LoadError::MalformedData);
        },
    };
    let ghost all = item_views(items@);
    let mut records: Vec<Diagnosis> = Vec::new();
    let mut i: usize = 0;
    while i < items.len()
        invariant
            i <= items.len(),
            all == item_views(items@),
            document@ == JsonModel::List(all),
            records.len() == i,
            forall|k: int| 0 <= k < i ==> record_of(#[trigger] all[k]) == Some(records[k]@),
        decreases items.len() - i,
    {
        match decode_record(&items[i]) {
            Some(record) => {
                records.push(record);
            },
            None => {
                assert(record_of(all[i as int]) is None);
                return Err(LoadError::MalformedData);
            },
        }
        i += 1;
    }
    assert(knowledge_of(document@)->0 =~= record_views(records@));
    Ok(KnowledgeBase::new(records))
}

/// Every record of a knowledge base that a document holds names its
/// condition and recommends an action.
pub proof fn lemma_loaded_records_wf(document: JsonModel)
    requires
        knowledge_of(document) is Some,
    ensures
        all_wf(knowledge_of(document)->0),
{
    let kb = knowledge_of(document)->0;
    assert forall|i: int| 0 <= i < kb.len() implies (#[trigger] kb[i]).wf() by {
        assert(record_of(document->List_0[i]) is Some);
    }
}

/// What loading makes of a text: the knowledge base that its JSON document
/// holds, or `MalformedData`.
pub open spec fn loaded_from(text: Seq<char>) -> Result<Seq<DiagnosisView>, LoadError> {
    match parsed_json(text) {
        Some(document) => match knowledge_of(document) {
            Some(kb) => Ok(kb),
            None => Err(LoadError::MalformedData),
        },
        None => Err(LoadError::MalformedData),
    }
}

/// Loads a knowledge base from the text of a JSON document. Fails with
/// `MalformedData` when the text is no JSON document or the document is not
/// an array of records.
pub fn load_text(text: &str) -> (loaded: Result<KnowledgeBase, LoadError>)
    ensures
        match loaded {
            Ok(kb) => loaded_from(text@) == Ok::<Seq<DiagnosisView>, LoadError>(kb@),
            Err(error) => loaded_from(text@) == Err::<Seq<DiagnosisView>, LoadError>(error),
        },
{
    match parse(text) {
        Some(document) => decode(&document),
        None => Err(LoadError::MalformedData),
    }
}

/// Loads a knowledge base from a source: `None` stands for a source that
/// could not be read, and fails with `IoFailure`; a source that was read is
/// loaded from its text.
pub fn load(source: Option<&str>) -> (loaded: Result<KnowledgeBase, LoadError>)
    ensures
        source is None ==> loaded == Err::<KnowledgeBase, LoadError>(LoadError::IoFailure),
        source matches Some(text) ==> match loaded {
            Ok(kb) => loaded_from(text@) == Ok::<Seq<DiagnosisView>, LoadError>(kb@),
            Err(error) => loaded_from(text@) == Err::<Seq<DiagnosisView>, LoadError>(error),
        },
{
    match source {
        Some(text) => load_text(text),
        None => Err(LoadError::IoFailure),
    }
}

} // verus!
