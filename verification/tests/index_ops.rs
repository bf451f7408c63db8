use mimir_core::error::Error;
use mimir_core::index::Index;
use mimir_core::value::{DataValue, Document};

fn doc(fields: Vec<(&str, DataValue)>) -> Document {
    Document {
        fields: fields.into_iter().map(|(n, v)| (n.to_string(), v)).collect(),
    }
}

fn dup_all(v: &[Document]) -> Vec<Document> {
    v.iter().map(|d| d.duplicate()).collect()
}

fn movie(id: &str, year: i64) -> Document {
    doc(vec![
        ("id", DataValue::Str(id.to_string())),
        ("year", DataValue::Int(year)),
    ])
}

#[test]
fn add_then_get_returns_each_input_record() {
    let mut index = Index::create();
    let batch = vec![movie("1", 2001), movie("2", 2020), movie("3", 1999)];
    index.add_documents(dup_all(&batch)).unwrap();
    for d in &batch {
        let id = match &d.fields[0].1 {
            DataValue::Str(s) => s.clone(),
            _ => unreachable!(),
        };
        let got = index.get_document(id).expect("document must be found");
        assert_eq!(&got, d);
    }
    assert_eq!(index.number_of_documents(), 3);
}

#[test]
fn add_replaces_record_with_same_identifier() {
    let mut index = Index::create();
    index.add_documents(vec![movie("1", 2001)]).unwrap();
    index.add_documents(vec![movie("1", 2002)]).unwrap();
    assert_eq!(index.number_of_documents(), 1);
    let got = index.get_document("1".to_string()).unwrap();
    assert_eq!(got.fields[1].1, DataValue::Int(2002));
}

#[test]
fn set_documents_replaces_everything_atomically() {
    let mut index = Index::create();
    index
        .add_documents(vec![movie("1", 2001), movie("2", 2020)])
        .unwrap();
    let replacement = vec![movie("7", 1980), movie("8", 1981), movie("9", 1982)];
    index.set_documents(dup_all(&replacement)).unwrap();
    let all = index.get_all_documents();
    assert_eq!(all.len(), 3);
    for d in &replacement {
        assert!(all.contains(d));
    }
    assert!(index.get_document("1".to_string()).is_none());
}

#[test]
fn set_documents_failure_leaves_old_state_visible() {
    let mut index = Index::create();
    index.add_documents(vec![movie("1", 2001)]).unwrap();
    // second record has no primary-key field: the whole batch is rejected
    let bad = vec![movie("2", 2020), doc(vec![("year", DataValue::Int(3))])];
    let err = index.set_documents(bad).unwrap_err();
    assert_eq!(err, Error::DocumentMissingPrimaryKey);
    assert_eq!(index.number_of_documents(), 1);
    assert!(index.get_document("1".to_string()).is_some());
}

#[test]
fn delete_unknown_identifier_changes_nothing() {
    let mut index = Index::create();
    index
        .add_documents(vec![movie("1", 2001), movie("2", 2020)])
        .unwrap();
    index
        .delete_documents(vec!["no-such-id".to_string()])
        .unwrap();
    assert_eq!(index.number_of_documents(), 2);
    assert!(index.get_document("1".to_string()).is_some());
    assert!(index.get_document("2".to_string()).is_some());
}

#[test]
fn delete_documents_removes_named_records_only() {
    let mut index = Index::create();
    index
        .add_documents(vec![movie("1", 2001), movie("2", 2020), movie("3", 1999)])
        .unwrap();
    index
        .delete_documents(vec!["1".to_string(), "3".to_string(), "ghost".to_string()])
        .unwrap();
    assert_eq!(index.number_of_documents(), 1);
    assert!(index.get_document("2".to_string()).is_some());
    assert!(index.get_document("1".to_string()).is_none());
}

#[test]
fn delete_all_documents_preserves_settings() {
    let mut index = Index::create();
    let mut s = index.get_settings();
    s.stop_words = vec!["the".to_string()];
    index.set_settings(s).unwrap();
    index.add_documents(vec![movie("1", 2001)]).unwrap();
    index.delete_all_documents().unwrap();
    assert_eq!(index.number_of_documents(), 0);
    assert_eq!(index.get_settings().stop_words, vec!["the".to_string()]);
}

#[test]
fn empty_batch_commits_without_a_primary_key() {
    let mut index = Index::create();
    index.add_documents(vec![]).unwrap();
    assert_eq!(index.number_of_documents(), 0);
}

#[test]
fn batch_without_inferable_primary_key_is_rejected() {
    let mut index = Index::create();
    let err = index
        .add_documents(vec![doc(vec![("year", DataValue::Int(3))])])
        .unwrap_err();
    assert_eq!(err, Error::NoPrimaryKeyCandidate);
    assert_eq!(index.number_of_documents(), 0);
}

#[test]
fn non_string_primary_key_value_is_rejected() {
    let mut index = Index::create();
    let err = index
        .add_documents(vec![doc(vec![("id", DataValue::Int(3))])])
        .unwrap_err();
    assert_eq!(err, Error::InvalidPrimaryKeyValue);
}

#[test]
fn missing_primary_key_field_is_rejected() {
    let mut index = Index::create();
    index.add_documents(vec![movie("1", 2001)]).unwrap();
    let err = index
        .add_documents(vec![doc(vec![("year", DataValue::Int(3))])])
        .unwrap_err();
    assert_eq!(err, Error::DocumentMissingPrimaryKey);
    assert_eq!(index.number_of_documents(), 1);
}

#[test]
fn get_document_miss_is_not_an_error() {
    let index = Index::create();
    assert!(index.get_document("1".to_string()).is_none());
}

#[test]
fn nested_values_round_trip_through_the_store() {
    let mut index = Index::create();
    let nested = doc(vec![
        ("id", DataValue::Str("n1".to_string())),
        (
            "tags",
            DataValue::Arr(vec![
                DataValue::Str("a".to_string()),
                DataValue::Bool(true),
                DataValue::Null,
            ]),
        ),
        (
            "meta",
            DataValue::Obj(vec![("depth".to_string(), DataValue::Int(2))]),
        ),
    ]);
    index.add_documents(vec![nested.duplicate()]).unwrap();
    let got = index.get_document("n1".to_string()).unwrap();
    assert_eq!(got, nested);
}
