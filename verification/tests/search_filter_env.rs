use mimir_core::env::{negotiate_map_size, probe_size, MAP_SIZE_TRIES, MAX_OS_PAGE_SIZE};
use mimir_core::filter::{Condition, Filter, FilterCondition};
use mimir_core::index::Index;
use mimir_core::search::{
    merge_hit, parse_int, search_documents, sort_criteria_to_engine, EngineAscDesc,
    EngineMatchingStrategy, EngineTermsMatchingStrategy, MatchingStrategy, Query, SortBy,
    TermsMatchingStrategy,
};
use mimir_core::settings::MimirIndexSettings;
use mimir_core::value::{DataValue, Document};

fn movie(id: &str, year: i64) -> Document {
    Document {
        fields: vec![
            ("id".to_string(), DataValue::Str(id.to_string())),
            ("year".to_string(), DataValue::Int(year)),
        ],
    }
}

fn id_of(d: &Document) -> &str {
    match &d.fields[0].1 {
        DataValue::Str(s) => s,
        _ => panic!("movie documents key by a string id"),
    }
}

#[test]
fn filter_compilation_preserves_structure() {
    let f = Filter::And(vec![
        Filter::Or(vec![
            Filter::Equal {
                field: "genre".to_string(),
                value: "drama".to_string(),
            },
            Filter::Not(Box::new(Filter::IsNull {
                field: "year".to_string(),
            })),
        ]),
        Filter::Between {
            field: "year".to_string(),
            from: "1990".to_string(),
            to: "2010".to_string(),
        },
        Filter::InValues {
            field: "id".to_string(),
            values: vec!["1".to_string(), "2".to_string()],
        },
    ]);
    let compiled = f.compile();
    let expected = FilterCondition::And(vec![
        FilterCondition::Or(vec![
            FilterCondition::Condition {
                fid: "genre".to_string(),
                op: Condition::Equal("drama".to_string()),
            },
            FilterCondition::Not(Box::new(FilterCondition::Condition {
                fid: "year".to_string(),
                op: Condition::Null,
            })),
        ]),
        FilterCondition::Condition {
            fid: "year".to_string(),
            op: Condition::Between {
                from: "1990".to_string(),
                to: "2010".to_string(),
            },
        },
        FilterCondition::In {
            fid: "id".to_string(),
            els: vec!["1".to_string(), "2".to_string()],
        },
    ]);
    assert_eq!(compiled, expected);
}

#[test]
fn each_leaf_maps_to_its_own_condition() {
    let cases = vec![
        (
            Filter::GreaterThan { field: "f".to_string(), value: "1".to_string() },
            Condition::GreaterThan("1".to_string()),
        ),
        (
            Filter::GreaterThanOrEqual { field: "f".to_string(), value: "1".to_string() },
            Condition::GreaterThanOrEqual("1".to_string()),
        ),
        (
            Filter::NotEqual { field: "f".to_string(), value: "1".to_string() },
            Condition::NotEqual("1".to_string()),
        ),
        (
            Filter::LessThan { field: "f".to_string(), value: "1".to_string() },
            Condition::LowerThan("1".to_string()),
        ),
        (
            Filter::LessThanOrEqual { field: "f".to_string(), value: "1".to_string() },
            Condition::LowerThanOrEqual("1".to_string()),
        ),
        (Filter::Exists { field: "f".to_string() }, Condition::Exists),
        (Filter::IsEmpty { field: "f".to_string() }, Condition::Empty),
    ];
    for (filter, op) in cases {
        assert_eq!(
            filter.compile(),
            FilterCondition::Condition { fid: "f".to_string(), op }
        );
    }
}

#[test]
fn end_to_end_filtered_search_returns_only_matching_ids() {
    let mut index = Index::create();
    let mut settings = index.get_settings();
    settings.filterable_fields = vec!["year".to_string()];
    index.set_settings(settings).unwrap();
    index
        .add_documents(vec![movie("1", 2001), movie("2", 2020)])
        .unwrap();
    let hits = search_documents(
        &index,
        None,
        None,
        None,
        None,
        Some(Filter::GreaterThan {
            field: "year".to_string(),
            value: "2010".to_string(),
        }),
        None,
    );
    assert_eq!(hits.len(), 1);
    assert_eq!(id_of(&hits[0]), "2");
}

#[test]
fn direct_search_sorts_and_windows() {
    let mut index = Index::create();
    index
        .add_documents(vec![
            movie("a", 1999),
            movie("b", 2024),
            movie("c", 2005),
            movie("d", 1968),
        ])
        .unwrap();
    let sorted = search_documents(
        &index,
        None,
        None,
        None,
        Some(vec![SortBy::Asc("year".to_string())]),
        None,
        None,
    );
    let ids: Vec<&str> = sorted.iter().map(id_of).collect();
    assert_eq!(ids, vec!["d", "a", "c", "b"]);

    let descending = search_documents(
        &index,
        None,
        Some(2),
        Some(1),
        Some(vec![SortBy::Desc("year".to_string())]),
        None,
        None,
    );
    let ids: Vec<&str> = descending.iter().map(id_of).collect();
    assert_eq!(ids, vec!["c", "a"]);
}

#[test]
fn direct_search_without_criteria_keeps_storage_order() {
    let mut index = Index::create();
    index
        .add_documents(vec![movie("x", 3), movie("y", 1), movie("z", 2)])
        .unwrap();
    let all = search_documents(&index, None, None, None, None, None, None);
    let ids: Vec<&str> = all.iter().map(id_of).collect();
    assert_eq!(ids, vec!["x", "y", "z"]);
    let limited = search_documents(&index, None, Some(1), None, None, None, None);
    assert_eq!(limited.len(), 1);
}

fn empty_query() -> Query {
    Query {
        query: "pulp".to_string(),
        offset: None,
        limit: None,
        attributes_to_retrieve: None,
        attributes_to_crop: None,
        crop_length: None,
        attributes_to_highlight: None,
        show_matches_position: None,
        show_ranking_score: None,
        show_ranking_score_details: None,
        filter: None,
        sort: None,
        facets: None,
        highlight_pre_tag: None,
        highlight_post_tag: None,
        crop_marker: None,
        matching_strategy: None,
        attributes_to_search_on: None,
    }
}

#[test]
fn ranked_request_fills_in_every_default() {
    let r = empty_query().build_search_request();
    assert_eq!(r.q, Some("pulp".to_string()));
    assert_eq!(r.offset, 0);
    assert_eq!(r.limit, 10000);
    assert_eq!(r.crop_length, 10);
    assert_eq!(r.highlight_pre_tag, "<em>".to_string());
    assert_eq!(r.highlight_post_tag, "</em>".to_string());
    assert_eq!(r.crop_marker, "...".to_string());
    assert!(!r.show_matches_position);
    assert!(!r.show_ranking_score);
    assert!(!r.show_ranking_score_details);
    assert!(r.filter.is_none());
}

#[test]
fn ranked_request_parses_or_drops_the_filter_text() {
    let mut q = empty_query();
    q.filter = Some("{\"year\": 2001}".to_string());
    let r = q.build_search_request();
    assert!(r.filter.is_some());

    let mut q = empty_query();
    q.filter = Some("year > {".to_string());
    let r = q.build_search_request();
    assert!(r.filter.is_none());
}

#[test]
fn ranked_request_keeps_explicit_choices() {
    let mut q = empty_query();
    q.limit = Some(25);
    q.offset = Some(5);
    q.matching_strategy = Some(MatchingStrategy::All);
    q.highlight_pre_tag = Some("<b>".to_string());
    let r = q.build_search_request();
    assert_eq!(r.limit, 25);
    assert_eq!(r.offset, 5);
    assert_eq!(r.highlight_pre_tag, "<b>".to_string());
}

#[test]
fn merged_hit_carries_raw_and_formatted_renderings() {
    let raw = movie("1", 2001);
    let formatted = movie("<em>1</em>", 2001);
    let merged = merge_hit(raw, formatted);
    assert_eq!(merged.fields.len(), 2);
    assert_eq!(merged.fields[0].0, "document".to_string());
    assert_eq!(merged.fields[1].0, "formatted".to_string());
}

#[test]
fn integer_literals_parse_exactly() {
    assert_eq!(parse_int(&"2010".to_string()), Some(2010));
    assert_eq!(parse_int(&"-47".to_string()), Some(-47));
    assert_eq!(parse_int(&"0".to_string()), Some(0));
    assert_eq!(parse_int(&"9223372036854775807".to_string()), Some(i64::MAX));
    assert_eq!(parse_int(&"-9223372036854775808".to_string()), Some(i64::MIN));
    assert_eq!(parse_int(&"9223372036854775808".to_string()), None);
    assert_eq!(parse_int(&"".to_string()), None);
    assert_eq!(parse_int(&"-".to_string()), None);
    assert_eq!(parse_int(&"12a".to_string()), None);
}

#[test]
fn negotiation_succeeds_after_simulated_failures() {
    // two failed opens, then success: attempt 3 wins with a strictly
    // smaller, page-aligned reservation
    let r = negotiate_map_size(&vec![false, false, true]).unwrap();
    assert_eq!(r, probe_size(2));
    let s0 = probe_size(0);
    let s1 = probe_size(1);
    let s2 = probe_size(2);
    assert_eq!(s0, 1099511627776);
    assert_eq!(s1, 989560455168);
    assert_eq!(s2, 890604404736);
    assert!(s1 < s0 && s2 < s1);
    assert_eq!(s0 % MAX_OS_PAGE_SIZE, 0);
    assert_eq!(s1 % MAX_OS_PAGE_SIZE, 0);
    assert_eq!(s2 % MAX_OS_PAGE_SIZE, 0);
}

#[test]
fn negotiation_gives_up_after_the_retry_budget() {
    let failures = vec![false; (MAP_SIZE_TRIES + 1) as usize];
    assert_eq!(negotiate_map_size(&failures), None);
    assert_eq!(negotiate_map_size(&vec![]), None);
}

#[test]
fn first_successful_attempt_wins_immediately() {
    let r = negotiate_map_size(&vec![true]).unwrap();
    assert_eq!(r, probe_size(0));
}

#[test]
fn strategy_and_sort_criteria_translate_one_for_one() {
    assert_eq!(MatchingStrategy::Last.to_engine(), EngineMatchingStrategy::Last);
    assert_eq!(MatchingStrategy::All.to_engine(), EngineMatchingStrategy::All);
    assert_eq!(
        TermsMatchingStrategy::Last.to_engine(),
        EngineTermsMatchingStrategy::Last
    );
    assert_eq!(TermsMatchingStrategy::All.to_engine(), EngineTermsMatchingStrategy::All);
    let criteria = vec![
        SortBy::Asc("year".to_string()),
        SortBy::Desc("title".to_string()),
    ];
    assert_eq!(
        sort_criteria_to_engine(&criteria),
        vec![
            EngineAscDesc::Asc("year".to_string()),
            EngineAscDesc::Desc("title".to_string()),
        ]
    );
}
