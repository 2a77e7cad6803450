use wardrobe::command::model::{OperationFilter, OperationOptions, ReturnShape};
use wardrobe::command::results::{PaginationMetadata, ReadResult};
use wardrobe::database_execution::{full_record, prepare_new_record, strip_record_id};
use wardrobe::drawer::blocks::DataBlockIndexEntry;
use wardrobe::drawer::contents::RecordWrite;
use wardrobe::drawer::indexing::StoredRecords;
use wardrobe::drawer::Drawer;
use wardrobe::engine::outcomes::{
    collect_pointers, collect_records, count_existing_pointers, count_matching, filtered_deletes,
    sum_deletes,
};
use wardrobe::engine::plans::{
    decide_query_upsert, hydrates_records, plan_delete, plan_read, plan_upsert, shape_read, update_match,
    QueryUpsert, ReadPlan, UpsertPlan,
};
use wardrobe::engine::selection::{
    record_pointer, resolve_read_shape, OperationSelection, ReturnShapeResolution,
};
use wardrobe::engine::upsert::{merge_payload_into_record, upsert_record_target, UpsertContext};
use wardrobe::error::{Error, ErrorKind};
use wardrobe::pointer::parse_pointer;
use wardrobe::value::{parse_json, JsonValue};

fn json(text: &str) -> JsonValue {
    parse_json(text.as_bytes()).expect("text should be JSON")
}

#[test]
fn operation_selection_merges_drawers_queries_and_pointers() {
    let selection = OperationSelection::from_filter(&OperationFilter::many(vec![
        OperationFilter::drawer("@gem"),
        OperationFilter::pointer("ruby"),
        OperationFilter::query(json(r#"{"power": 42}"#)),
    ]))
    .expect("selection should merge");

    assert_eq!(selection.required_drawer("read").unwrap(), "gem");
    assert_eq!(selection.query, Some(json(r#"{"power": 42}"#)));
    assert_eq!(selection.resolved_pointers().unwrap(), vec!["@gem:ruby".to_string()]);

    let full_pointer = OperationSelection::from_filter(&OperationFilter::pointer("@tool:hammer"))
        .expect("full pointer should merge");
    assert_eq!(full_pointer.required_drawer("read").unwrap(), "tool");
    assert_eq!(full_pointer.resolved_pointers().unwrap(), vec!["@tool:hammer".to_string()]);

    let empty_query =
        OperationSelection::from_filter(&OperationFilter::query(json("{}"))).unwrap();
    assert!(empty_query.query.is_none());
    assert!(OperationSelection::from_filter(&OperationFilter::query(JsonValue::Null))
        .unwrap()
        .query
        .is_none());

    assert!(OperationSelection::from_filter(&OperationFilter::many(vec![
        OperationFilter::drawer("gem"),
        OperationFilter::drawer("tool"),
    ]))
    .is_err());
    assert!(OperationSelection::from_filter(&OperationFilter::many(vec![
        OperationFilter::query(json(r#"{"a": 1}"#)),
        OperationFilter::query(json(r#"{"b": 2}"#)),
    ]))
    .is_err());
    assert!(OperationSelection::default().required_drawer("read").is_err());
    assert!(OperationSelection::from_filter(&OperationFilter::pointer("ruby"))
        .unwrap()
        .resolved_pointers()
        .is_err());
}

#[test]
fn upsert_context_and_record_target_cover_pointer_and_error_paths() {
    let context = UpsertContext::from_filter(&OperationFilter::many(vec![
        OperationFilter::drawer("gem"),
        OperationFilter::query(json(r#"{"power": 42}"#)),
    ]))
    .expect("context should build");
    assert_eq!(context.drawer_name(), Some("gem"));
    assert_eq!(context.query, Some(json(r#"{"power": 42}"#)));

    assert!(UpsertContext::from_filter(&OperationFilter::many(vec![
        OperationFilter::pointer("@gem:ruby"),
        OperationFilter::pointer("@gem:sapphire"),
    ]))
    .is_err());

    let pointer_context =
        UpsertContext::from_filter(&OperationFilter::pointer("@gem:ruby")).unwrap();
    let (drawer, payload) = upsert_record_target(json(r#"{"power": 42}"#), &pointer_context)
        .expect("pointer target should inject id");
    assert_eq!(drawer, "gem");
    assert_eq!(payload.get_str("_id"), Some("ruby"));

    let drawer_context = UpsertContext::from_filter(&OperationFilter::drawer("gem")).unwrap();
    let no_filter_context = UpsertContext { drawer_name: None, pointer: None, query: None };
    let (drawer, payload) = upsert_record_target(json(r#"{"_id": "@tool"}"#), &no_filter_context)
        .expect("drawer-only id should provide drawer");
    assert_eq!(drawer, "tool");
    assert!(payload.get("_id").is_none());
    assert!(upsert_record_target(json(r#"{"_id": "@tool"}"#), &drawer_context).is_err());

    let (drawer, payload) =
        upsert_record_target(json(r#"{"_id": "@tool:hammer"}"#), &no_filter_context)
            .expect("full pointer id should provide drawer");
    assert_eq!(drawer, "tool");
    assert_eq!(payload.get_str("_id"), Some("@tool:hammer"));

    assert!(upsert_record_target(json(r#"["not", "object"]"#), &drawer_context).is_err());
    assert!(upsert_record_target(
        json(r#"{"_id": "@tool:hammer"}"#),
        &UpsertContext { drawer_name: Some("gem".to_string()), pointer: None, query: None },
    )
    .is_err());
    assert!(upsert_record_target(
        json(r#"{"power": 42}"#),
        &UpsertContext { drawer_name: None, pointer: None, query: None },
    )
    .is_err());
}

#[test]
fn read_shape_record_pointer_and_merge_helpers_cover_branches() {
    let pointer_selection =
        OperationSelection::from_filter(&OperationFilter::pointer("@gem:ruby")).unwrap();
    assert!(matches!(
        resolve_read_shape(None, &pointer_selection),
        ReturnShapeResolution::Record
    ));
    assert!(matches!(
        resolve_read_shape(Some(ReturnShape::Pointers), &pointer_selection),
        ReturnShapeResolution::Pointers
    ));
    assert!(matches!(
        resolve_read_shape(Some(ReturnShape::Exists), &pointer_selection),
        ReturnShapeResolution::Exists
    ));
    assert!(matches!(
        resolve_read_shape(Some(ReturnShape::Record), &pointer_selection),
        ReturnShapeResolution::Record
    ));

    let query_selection = OperationSelection::from_filter(&OperationFilter::many(vec![
        OperationFilter::drawer("gem"),
        OperationFilter::query(json(r#"{"power": 42}"#)),
    ]))
    .unwrap();
    assert!(matches!(
        resolve_read_shape(Some(ReturnShape::Default), &query_selection),
        ReturnShapeResolution::Records
    ));
    assert!(matches!(
        resolve_read_shape(Some(ReturnShape::Diagnostics), &query_selection),
        ReturnShapeResolution::Records
    ));
    assert!(matches!(
        resolve_read_shape(Some(ReturnShape::Records), &query_selection),
        ReturnShapeResolution::Records
    ));

    assert_eq!(
        record_pointer(&json(r#"{"_id": "@gem:lnk_ruby"}"#), None),
        Some("@gem:ruby".to_string())
    );
    assert_eq!(
        record_pointer(&json(r#"{"_id": "ruby"}"#), Some("gem")),
        Some("@gem:ruby".to_string())
    );
    assert_eq!(record_pointer(&json(r#"{"name": "ruby"}"#), Some("gem")), None);
    assert_eq!(record_pointer(&json(r#"{"_id": 7}"#), Some("gem")), None);

    let mut existing = json(r#"{"_id": "ruby", "power": 1, "keep": true}"#);
    merge_payload_into_record(&mut existing, &json(r#"{"_id": "ignored", "power": 99}"#))
        .expect("merge should succeed");
    assert_eq!(existing, json(r#"{"_id": "ruby", "power": 99, "keep": true}"#));
    assert!(merge_payload_into_record(&mut json("null"), &json("{}")).is_err());
    assert!(merge_payload_into_record(&mut existing, &json("null")).is_err());
}

#[test]
fn merge_keeps_the_rest_and_takes_the_payload() {
    let mut existing = json(r#"{"_id": "ruby", "power": 1, "keep": true}"#);
    merge_payload_into_record(&mut existing, &json(r#"{"power": 2, "new": null}"#)).unwrap();
    assert_eq!(existing.get("keep"), Some(&JsonValue::Bool(true)));
    assert_eq!(existing.get("power"), Some(&json("2")));
    assert_eq!(existing.get("new"), Some(&JsonValue::Null));
    assert_eq!(existing.get_str("_id"), Some("ruby"));
}

#[test]
fn deleting_needs_records_to_be_named() {
    let whole = OperationSelection::from_filter(&OperationFilter::drawer("gem")).unwrap();
    let refused = plan_delete(whole).expect_err("a whole drawer is not deleted");
    assert_eq!(refused.kind(), ErrorKind::InvalidInput);
    let nothing = OperationSelection::default();
    assert!(plan_delete(nothing).is_err());
}

#[test]
fn upserts_are_planned_by_drawer() {
    let gem = UpsertContext::from_filter(&OperationFilter::drawer("gem")).unwrap();
    match plan_upsert(json(r#"[{"_id": "a"}, {"_id": "b"}]"#), &gem) {
        Ok(UpsertPlan::Bulk { drawer_name, records }) => {
            assert_eq!(drawer_name, "gem");
            assert_eq!(records.len(), 2);
        }
        other => panic!("unexpected plan: {other:?}"),
    }
    let anywhere = UpsertContext { drawer_name: None, pointer: None, query: None };
    match plan_upsert(json(r#"[{"_id": "@gem:a"}, {"_id": "@tool:b"}]"#), &anywhere) {
        Ok(UpsertPlan::Grouped(groups)) => {
            assert_eq!(groups.len(), 2);
            assert_eq!(groups.get("gem").map(|records| records.len()), Some(1));
            assert_eq!(groups.get("tool").map(|records| records.len()), Some(1));
        }
        other => panic!("unexpected plan: {other:?}"),
    }
    match plan_upsert(json(r#"{"_id": "a"}"#), &gem) {
        Ok(UpsertPlan::Single { .. }) => {}
        other => panic!("unexpected plan: {other:?}"),
    }
}

#[test]
fn queries_that_find_several_records_need_leave() {
    let plain = OperationOptions::new();
    assert_eq!(decide_query_upsert(1, &plain), Ok(QueryUpsert::Update));
    assert_eq!(decide_query_upsert(2, &plain.clone().multi(true)), Ok(QueryUpsert::Update));
    assert_eq!(
        decide_query_upsert(2, &plain).unwrap_err().kind(),
        ErrorKind::InvalidInput
    );
    assert_eq!(
        decide_query_upsert(0, &plain.clone().create_if_missing(false)),
        Ok(QueryUpsert::Skip)
    );
    let (record, pointer) =
        update_match(json(r#"{"_id": "a", "n": 1}"#), &json(r#"{"n": 2}"#), "gem").unwrap();
    assert_eq!(record, json(r#"{"_id": "a", "n": 2}"#));
    assert_eq!(pointer, "@gem:a");
}

#[test]
fn reads_are_answered_in_the_form_asked_for() {
    let two = || vec![json(r#"{"_id": "a"}"#), json(r#"{"_id": "@gem:b"}"#)];
    assert_eq!(
        shape_read(two(), None, ReturnShapeResolution::Record, Some("gem")),
        Ok(ReadResult::Record(Some(json(r#"{"_id": "a"}"#))))
    );
    assert_eq!(
        shape_read(two(), None, ReturnShapeResolution::Pointers, Some("gem")),
        Ok(ReadResult::Pointers(vec!["@gem:a".to_string(), "@gem:b".to_string()]))
    );
    assert_eq!(
        shape_read(Vec::new(), None, ReturnShapeResolution::Exists, Some("gem")),
        Ok(ReadResult::Exists(false))
    );
    assert_eq!(
        shape_read(two(), None, ReturnShapeResolution::Records, None),
        Ok(ReadResult::Records(two()))
    );
    let page = || PaginationMetadata {
        next_cursor: None,
        has_more: false,
        page: Some(1),
        page_size: 2,
    };
    assert!(matches!(
        shape_read(two(), Some(page()), ReturnShapeResolution::Records, None),
        Ok(ReadResult::Page(_))
    ));
    let refused = shape_read(two(), Some(page()), ReturnShapeResolution::Exists, None)
        .expect_err("a page holds records");
    assert_eq!(
        refused.message,
        "cursor and page pagination require the records return shape"
    );
}

#[test]
fn records_are_filled_in_where_they_are_given_whole() {
    let drawer = OperationSelection::from_filter(&OperationFilter::drawer("gem")).unwrap();
    let pointer = OperationSelection::from_filter(&OperationFilter::pointer("@gem:a")).unwrap();
    let plain = OperationOptions::new();
    let bare = OperationOptions::new().hydrate(false);
    assert!(hydrates_records(&plain, &drawer, ReturnShapeResolution::Records));
    assert!(!hydrates_records(&plain, &drawer, ReturnShapeResolution::Pointers));
    assert!(!hydrates_records(&plain, &pointer, ReturnShapeResolution::Record));
    assert!(!hydrates_records(&bare, &drawer, ReturnShapeResolution::Records));
}

#[test]
fn a_record_goes_in_and_comes_out() {
    let payload = json(
        r#"{
            "_id": "field-service-kit",
            "name": "Field Service Toolkit",
            "category": "maintenance",
            "tags": ["portable", "repair"]
        }"#,
    );
    let context = UpsertContext::from_filter(&OperationFilter::drawer("tool")).unwrap();
    let (drawer_name, record) = match plan_upsert(payload.clone(), &context) {
        Ok(UpsertPlan::Single { drawer_name, record }) => (drawer_name, record),
        other => panic!("unexpected plan: {other:?}"),
    };
    let prepared = prepare_new_record(&drawer_name, record).expect("record should be prepared");
    assert_eq!(prepared.pointer, "@tool:field-service-kit");

    let mut drawer = Drawer::open("tool", "_id", Vec::new(), None, &Vec::new(), 0).drawer;
    let mut records = StoredRecords::new();
    let write = RecordWrite {
        record: full_record(&prepared.record_key, prepared.fields),
        offset: 0,
        block: DataBlockIndexEntry::live(b"toolkit", 64),
        file_len: 0,
        old_payload: None,
    };
    assert!(drawer.upsert_record(&mut records, write, None).is_ok());

    let selection =
        OperationSelection::from_filter(&OperationFilter::pointer(&prepared.pointer)).unwrap();
    let pointers = match plan_read(&selection) {
        Ok(ReadPlan::Pointers(pointers)) => pointers,
        other => panic!("unexpected plan: {other:?}"),
    };
    let (found_in, key) = parse_pointer(&pointers[0]).unwrap();
    assert_eq!(found_in, "tool");
    let found = drawer.find_by_primary_key(&records, &key).expect("the record is there");
    let shown = vec![strip_record_id(found.clone())];
    let shape = resolve_read_shape(None, &selection);
    assert_eq!(
        shape_read(shown, None, shape, selection.drawer_name.as_deref()),
        Ok(ReadResult::Record(Some(strip_record_id(payload))))
    );

    let linked = prepare_new_record("account", json(r#"{"_id": "@account:lnk_acme"}"#)).unwrap();
    assert_eq!(linked.pointer, "@account:acme");
}

fn failed<T>(message: &str) -> Result<T, Error> {
    Err(Error::new(ErrorKind::NotFound, message.to_string()))
}

fn message<T>(outcome: Result<T, Error>) -> Option<String> {
    outcome.err().map(|error| error.message)
}

#[test]
fn deletes_of_several_pointers_are_added_up() {
    let all = vec![Ok(true), Ok(false), Ok(true)];
    assert_eq!(sum_deletes(&all).map(|result| result.deleted), Ok(2));
    assert_eq!(sum_deletes(&Vec::new()).map(|result| result.deleted), Ok(0));
    let broken = vec![Ok(true), failed("first"), failed("second")];
    assert_eq!(message(sum_deletes(&broken)), Some("first".to_string()));
    assert_eq!(filtered_deletes(Ok(3)).map(|result| result.deleted), Ok(3));
    assert_eq!(message(filtered_deletes(failed("lost"))), Some("lost".to_string()));
}

#[test]
fn found_records_are_counted_and_collected() {
    let all = vec![Ok(Some(json("1"))), Ok(None), Ok(Some(json("2")))];
    assert_eq!(count_existing_pointers(&all), Ok(2));
    assert_eq!(collect_records(&all), Ok(vec![json("1"), json("2")]));
    let broken = vec![Ok(Some(json("1"))), failed("first"), failed("second")];
    assert_eq!(message(count_existing_pointers(&broken)), Some("first".to_string()));
    assert_eq!(message(collect_records(&broken)), Some("first".to_string()));
    assert_eq!(count_matching(&vec![true, false, true]), 2);
    assert_eq!(count_matching(&Vec::new()), 0);
}

#[test]
fn pointers_of_several_writes_are_put_together() {
    let all = vec![Ok(vec!["@gem:a".to_string(), "@gem:b".to_string()]), Ok(Vec::new())];
    assert_eq!(
        collect_pointers(&all),
        Ok(vec!["@gem:a".to_string(), "@gem:b".to_string()])
    );
    let broken = vec![Ok(Vec::new()), failed("first")];
    assert_eq!(message(collect_pointers(&broken)), Some("first".to_string()));
}
