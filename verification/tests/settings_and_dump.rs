use mimir_core::dump::{create_dump, import_dump};
use mimir_core::error::Error;
use mimir_core::index::Index;
use mimir_core::settings::{MimirIndexSettings, Synonyms};
use mimir_core::value::{DataValue, Document};

fn strs(v: &[&str]) -> Vec<String> {
    v.iter().map(|s| s.to_string()).collect()
}

fn full_settings() -> MimirIndexSettings {
    MimirIndexSettings {
        primary_key: Some("id".to_string()),
        searchable_fields: Some(strs(&["title", "overview"])),
        filterable_fields: strs(&["year", "genre"]),
        sortable_fields: strs(&["year"]),
        ranking_rules: strs(&["words", "typo", "proximity", "attribute", "sort", "exactness"]),
        stop_words: strs(&["the", "a"]),
        synonyms: vec![Synonyms {
            word: "film".to_string(),
            synonyms: strs(&["movie", "picture"]),
        }],
        typos_enabled: false,
        min_word_size_for_one_typo: 4,
        min_word_size_for_two_typos: 8,
        disallow_typos_on_words: strs(&["kubrick"]),
        disallow_typos_on_fields: strs(&["id"]),
    }
}

#[test]
fn set_then_get_returns_every_facet_sent() {
    let mut index = Index::create();
    let sent = full_settings();
    index.set_settings(full_settings()).unwrap();
    assert_eq!(index.get_settings(), sent);
}

#[test]
fn absent_facets_read_back_as_engine_defaults() {
    let mut index = Index::create();
    let mut s = full_settings();
    s.primary_key = None;
    s.searchable_fields = None;
    index.set_settings(s).unwrap();
    let got = index.get_settings();
    assert_eq!(got.primary_key, None);
    assert_eq!(got.searchable_fields, None);
}

#[test]
fn fresh_index_reports_engine_defaults() {
    let index = Index::create();
    let got = index.get_settings();
    assert_eq!(got.primary_key, None);
    assert_eq!(got.searchable_fields, None);
    assert_eq!(got.filterable_fields, Vec::<String>::new());
    assert_eq!(
        got.ranking_rules,
        strs(&["words", "typo", "proximity", "attribute", "sort", "exactness"])
    );
    assert!(got.typos_enabled);
    assert_eq!(got.min_word_size_for_one_typo, 5);
    assert_eq!(got.min_word_size_for_two_typos, 9);
}

#[test]
fn unknown_ranking_rule_name_is_a_hard_error() {
    let mut index = Index::create();
    let mut s = full_settings();
    s.ranking_rules = strs(&["words", "popularity"]);
    let err = index.set_settings(s).unwrap_err();
    assert_eq!(
        err,
        Error::UnknownRankingRule {
            name: "popularity".to_string()
        }
    );
    // nothing was applied
    assert!(index.get_settings().typos_enabled);
}

#[test]
fn primary_key_cannot_change_while_documents_exist() {
    let mut index = Index::create();
    index.set_settings(full_settings()).unwrap();
    index
        .add_documents(vec![Document {
            fields: vec![("id".to_string(), DataValue::Str("1".to_string()))],
        }])
        .unwrap();
    let mut s = full_settings();
    s.primary_key = Some("uid".to_string());
    assert_eq!(index.set_settings(s).unwrap_err(), Error::PrimaryKeyCannotChange);
    let mut same = full_settings();
    same.stop_words = strs(&["an"]);
    index.set_settings(same).unwrap();
    assert_eq!(index.get_settings().stop_words, strs(&["an"]));
}

fn movie(id: &str, year: i64) -> Document {
    Document {
        fields: vec![
            ("id".to_string(), DataValue::Str(id.to_string())),
            ("year".to_string(), DataValue::Int(year)),
        ],
    }
}

#[test]
fn dump_then_import_recreates_settings_and_documents() {
    let mut index = Index::create();
    let mut s = full_settings();
    s.stop_words = strs(&["der", "die", "das"]);
    index.set_settings(s).unwrap();
    index
        .add_documents(vec![movie("1", 2001), movie("2", 2020), movie("3", 1999)])
        .unwrap();

    let dump = create_dump(&index);
    let restored = import_dump(dump).unwrap();

    assert_eq!(restored.get_settings(), index.get_settings());
    let originals = index.get_all_documents();
    let copies = restored.get_all_documents();
    assert_eq!(copies.len(), originals.len());
    for d in &originals {
        assert!(copies.contains(d));
    }
}

#[test]
fn import_dump_starts_from_empty_not_from_add() {
    let dump = (
        full_settings(),
        vec![movie("9", 1990)],
    );
    let restored = import_dump(dump).unwrap();
    assert_eq!(restored.number_of_documents(), 1);
    assert!(restored.get_document("9".to_string()).is_some());
}

#[test]
fn import_dump_propagates_settings_errors() {
    let mut s = full_settings();
    s.ranking_rules = strs(&["velocity"]);
    let err = import_dump((s, vec![])).unwrap_err();
    assert_eq!(
        err,
        Error::UnknownRankingRule {
            name: "velocity".to_string()
        }
    );
}
