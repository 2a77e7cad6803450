use wardrobe::command::model::{OperationFilter, OperationOptions, ReturnShape};
use wardrobe::command::requests::{
    AlterRequest, CompactMode, CompactRequest, CreateRequest, DropRequest, PermissionRequest,
    StatusRequest,
};
use wardrobe::command::result_expectations::{
    admin, backup, compact, count, create, delete, inspect, read, restored, status,
    unexpected_result, upsert,
};
use wardrobe::command::results::{
    encode_status_payload, BackupArchive, CommandResult, CreateResult, DeleteResult, InspectResult,
    PaginatedReadResult, PaginationMetadata, ReadResult, RestoreReport, StatusResult, UpsertResult,
};
use wardrobe::drawer::vacuum::VacuumReport;
use wardrobe::error::{Error, ErrorKind};
use wardrobe::storage::types::{
    OrderDirection, QueryModifiers, StorageInventory, StorageLocator,
};
use wardrobe::value::{parse_json, JsonValue};

fn json(text: &str) -> JsonValue {
    parse_json(text.as_bytes()).expect("text should be JSON")
}

#[test]
fn canonical_operation_filters_normalize_supported_inputs() {
    assert_eq!(OperationFilter::none(), OperationFilter::Empty);
    assert_eq!(OperationFilter::drawer("@gem"), OperationFilter::Drawer("gem".to_string()));
    assert_eq!(OperationFilter::pointer("@gem"), OperationFilter::Drawer("gem".to_string()));
    assert_eq!(
        OperationFilter::pointer("@gem:ruby"),
        OperationFilter::Pointer("@gem:ruby".to_string())
    );
    assert_eq!(OperationFilter::query(json("{}")), OperationFilter::Empty);
    assert_eq!(
        OperationFilter::query_in("gem", json(r#"{"color": "red"}"#)),
        OperationFilter::Many(vec![
            OperationFilter::Drawer("gem".to_string()),
            OperationFilter::Query(json(r#"{"color": "red"}"#)),
        ])
    );
    assert_eq!(OperationFilter::many(Vec::new()), OperationFilter::Empty);
    assert_eq!(OperationFilter::from(()), OperationFilter::Empty);
    assert_eq!(
        OperationFilter::from(Some(OperationFilter::drawer("gem"))),
        OperationFilter::Drawer("gem".to_string())
    );
    assert_eq!(
        OperationFilter::from("@gem:ruby"),
        OperationFilter::Pointer("@gem:ruby".to_string())
    );
    assert_eq!(
        OperationFilter::from("gem".to_string()),
        OperationFilter::Drawer("gem".to_string())
    );
    assert_eq!(
        OperationFilter::from(&"gem".to_string()),
        OperationFilter::Drawer("gem".to_string())
    );
    assert_eq!(OperationFilter::from(JsonValue::Null), OperationFilter::Empty);
    assert_eq!(
        OperationFilter::from(json(r#""@gem:ruby""#)),
        OperationFilter::Pointer("@gem:ruby".to_string())
    );
    assert_eq!(
        OperationFilter::from(json(r#"["gem", {"color": "red"}]"#)),
        OperationFilter::Many(vec![
            OperationFilter::Drawer("gem".to_string()),
            OperationFilter::Query(json(r#"{"color": "red"}"#)),
        ])
    );
    assert_eq!(
        OperationFilter::from(json(r#"{"_id": "@gem:ruby"}"#)),
        OperationFilter::Pointer("@gem:ruby".to_string())
    );
    assert_eq!(
        OperationFilter::from(json(r#"{"drawer": "@gem"}"#)),
        OperationFilter::Drawer("gem".to_string())
    );
    assert_eq!(
        OperationFilter::from(StorageLocator::Explicit {
            drawer: "@gem".to_string(),
            id: "lnk_ruby".to_string(),
        }),
        OperationFilter::Pointer("@gem:ruby".to_string())
    );
    assert_eq!(
        OperationFilter::from(("gem", "ruby")),
        OperationFilter::Pointer("@gem:ruby".to_string())
    );
    assert_eq!(
        OperationFilter::from(("gem".to_string(), "ruby".to_string())),
        OperationFilter::Pointer("@gem:ruby".to_string())
    );
}

#[test]
fn operation_options_parse_builders_and_validation_paths() {
    let options = OperationOptions::new()
        .multi(true)
        .atomic(false)
        .create_if_missing(false)
        .return_shape(ReturnShape::Pointers)
        .hydrate(false)
        .limit(10)
        .offset(2)
        .order_by("power")
        .order_direction(OrderDirection::Descending)
        .include_diagnostics(true);

    assert_eq!(options.multi, Some(true));
    assert_eq!(options.atomic_enabled(), false);
    assert_eq!(options.query_modifiers().expect("modifiers").limit, Some(10));

    let parsed = OperationOptions::from_json(&json(
        r#"{
            "multi": true,
            "atomic": false,
            "create_if_missing": true,
            "return_shape": "record",
            "hydrate": true,
            "limit": 3,
            "offset": 1,
            "order_by": "name",
            "order_direction": "asc",
            "include_diagnostics": false
        }"#,
    ))
    .expect("options parse");
    assert_eq!(parsed.return_shape, Some(ReturnShape::Record));
    assert_eq!(parsed.order_direction, Some(OrderDirection::Ascending));

    let from_modifiers = OperationOptions::from(QueryModifiers {
        limit: Some(1),
        offset: Some(0),
        order_by: Some("name".to_string()),
        order_direction: Some(OrderDirection::Ascending),
        ..QueryModifiers::default()
    });
    assert_eq!(from_modifiers.limit, Some(1));
    assert_eq!(OperationOptions::from(()), OperationOptions::default());
    assert_eq!(
        OperationOptions::from(Some(OperationOptions::new().multi(true))).multi,
        Some(true)
    );

    for invalid in [
        json("true"),
        json(r#"{"multi": "yes"}"#),
        json(r#"{"return_shape": "bag"}"#),
        json(r#"{"order_direction": "sideways"}"#),
        json(r#"{"limit": -1}"#),
        json(r#"{"unknown": true}"#),
    ] {
        assert!(OperationOptions::from_json(&invalid).is_err());
    }
}

#[test]
fn options_without_modifiers_ask_for_none() {
    assert!(OperationOptions::new().query_modifiers().is_none());
    assert!(OperationOptions::new().multi(true).query_modifiers().is_none());
    assert!(OperationOptions::new().atomic_enabled());
    let parsed = OperationOptions::from_json(&json("{}")).expect("options parse");
    assert_eq!(parsed, OperationOptions::default());
    let refused = OperationOptions::from_json(&json("null")).expect_err("null is no object");
    assert_eq!(refused.kind(), ErrorKind::InvalidInput);
    assert_eq!(refused.message, "operation options must be a JSON object");
}

#[test]
fn modifiers_come_back_out_of_options() {
    let modifiers = QueryModifiers {
        limit: Some(4),
        offset: Some(2),
        order_by: Some("power".to_string()),
        order_direction: Some(OrderDirection::Descending),
        cursor: Some("next".to_string()),
        page: Some(3),
        page_size: Some(9),
    };
    let back = OperationOptions::from(modifiers).query_modifiers().expect("modifiers");
    assert_eq!(back.limit, Some(4));
    assert_eq!(back.offset, Some(2));
    assert_eq!(back.order_by, Some("power".to_string()));
    assert_eq!(back.order_direction, Some(OrderDirection::Descending));
    assert_eq!(back.cursor, Some("next".to_string()));
    assert_eq!(back.page, Some(3));
    assert_eq!(back.page_size, Some(9));
}

#[test]
fn canonical_request_constructors_cover_all_variants() {
    assert_eq!(
        CompactRequest::drawer("gem"),
        CompactRequest::Drawer { drawer_name: "gem".to_string(), mode: CompactMode::Vacuum }
    );
    assert_eq!(
        CompactRequest::drawer_with_mode("gem", CompactMode::Migrate),
        CompactRequest::Drawer { drawer_name: "gem".to_string(), mode: CompactMode::Migrate }
    );
    assert_eq!(CompactRequest::from("gem"), CompactRequest::drawer("gem"));
    assert_eq!(CompactRequest::from("gem".to_string()), CompactRequest::drawer("gem"));

    assert_eq!(
        CreateRequest::database("wardrobe"),
        CreateRequest::Database { database_name: "wardrobe".to_string() }
    );
    assert_eq!(
        CreateRequest::schema("wardrobe", "bay"),
        CreateRequest::Schema {
            database_name: "wardrobe".to_string(),
            schema_name: "bay".to_string(),
        }
    );
    assert_eq!(
        CreateRequest::drawer("wardrobe", "bay", "drawer"),
        CreateRequest::Drawer {
            database_name: "wardrobe".to_string(),
            schema_name: "bay".to_string(),
            drawer_name: "drawer".to_string(),
        }
    );
    assert_eq!(
        CreateRequest::tenant_route("tenant", "wardrobe", "wardrobe/bay"),
        CreateRequest::TenantRoute {
            tenant_id: "tenant".to_string(),
            database_name: "wardrobe".to_string(),
            location: "wardrobe/bay".to_string(),
        }
    );
    assert_eq!(
        CreateRequest::user(json(r#"{"username": "alice"}"#)),
        CreateRequest::User { payload: json(r#"{"username": "alice"}"#) }
    );

    assert_eq!(
        AlterRequest::schema_rule("w/b/d", "add", "index", "field", json(r#"{"x": true}"#)),
        AlterRequest::SchemaRule {
            drawer_name: "w/b/d".to_string(),
            action: "add".to_string(),
            kind: "index".to_string(),
            field_name: "field".to_string(),
            payload: json(r#"{"x": true}"#),
        }
    );
    assert_eq!(
        AlterRequest::relationship("w/b/character", "item_map", "w/b/item"),
        AlterRequest::SchemaRule {
            drawer_name: "w/b/character".to_string(),
            action: "add".to_string(),
            kind: "relationship".to_string(),
            field_name: "item_map".to_string(),
            payload: json(r#"{"type": "M:1", "target_drawer": "w/b/item"}"#),
        }
    );

    assert_eq!(
        DropRequest::database("wardrobe"),
        DropRequest::Database { database_name: "wardrobe".to_string() }
    );
    assert_eq!(
        DropRequest::schema("wardrobe", "bay"),
        DropRequest::Schema {
            database_name: "wardrobe".to_string(),
            schema_name: "bay".to_string(),
        }
    );
    assert_eq!(
        DropRequest::drawer("wardrobe", "bay", "drawer"),
        DropRequest::Drawer {
            database_name: "wardrobe".to_string(),
            schema_name: "bay".to_string(),
            drawer_name: "drawer".to_string(),
        }
    );
    assert_eq!(
        DropRequest::schema_rule("w/b/d", "index", "field", json("{}")),
        DropRequest::SchemaRule {
            drawer_name: "w/b/d".to_string(),
            kind: "index".to_string(),
            field_name: "field".to_string(),
            payload: json("{}"),
        }
    );
    assert_eq!(
        DropRequest::user("alice"),
        DropRequest::User { username: "alice".to_string() }
    );
}

#[test]
fn canonical_results_permissions_and_status_helpers_round_trip() {
    let result = UpsertResult::Pointers(vec!["@gem:ruby".to_string()]);
    assert_eq!(result.pointers(), &["@gem:ruby".to_string()]);
    assert_eq!(*result, ["@gem:ruby".to_string()]);
    assert_eq!(result.clone(), vec!["@gem:ruby".to_string()]);
    assert_eq!(vec!["@gem:ruby".to_string()], result.clone());
    assert_eq!(result.into_pointers(), vec!["@gem:ruby".to_string()]);

    let deleted = DeleteResult { deleted: 2 };
    assert_eq!(deleted.to_string(), "2");
    assert_eq!(usize::from(deleted.clone()), 2);
    assert_eq!(deleted, 2);
    assert_eq!(2, deleted);

    assert_eq!(
        PermissionRequest::new("alice", "wardrobe:read").into_payload(),
        json(r#"{"username": "alice", "permission_scope": "wardrobe:read"}"#)
    );
    assert_eq!(
        PermissionRequest::with_scope("alice", "scoped", "w/b", "rud").into_payload(),
        json(
            r#"{
                "username": "alice",
                "permission_scope": "scoped",
                "scope": {"path": "w/b", "rights": "rud"}
            }"#
        )
    );

    assert_eq!(StatusRequest::tenants().into_request(), StatusRequest::Tenants);
    assert_eq!(StatusRequest::from(StatusRequest::tenants()), StatusRequest::Tenants);
    assert_eq!(StatusRequest::databases().into_request(), StatusRequest::Databases);
    assert_eq!(
        StatusRequest::schemas("wardrobe").into_request(),
        StatusRequest::Schemas { database_name: "wardrobe".to_string() }
    );
    assert_eq!(
        StatusRequest::drawers("wardrobe", "bay").into_request(),
        StatusRequest::Drawers {
            database_name: "wardrobe".to_string(),
            schema_name: "bay".to_string(),
        }
    );
    assert_eq!(
        StatusRequest::wal(Some("wardrobe")).into_request(),
        StatusRequest::Wal { database_name: Some("wardrobe".to_string()) }
    );
    assert_eq!(
        StatusRequest::wal(None).into_request(),
        StatusRequest::Wal { database_name: None }
    );
    assert_eq!(StatusRequest::storage().into_request(), StatusRequest::Storage);
    assert_eq!(
        StatusRequest::path("wardrobe/bay").into_request(),
        StatusRequest::Path { path: "wardrobe/bay".to_string() }
    );
    assert_eq!(StatusRequest::drawer_names().into_request(), StatusRequest::DrawerNames);
    assert_eq!(
        StatusRequest::cached_drawer_count().into_request(),
        StatusRequest::CachedDrawerCount
    );

    let databases = encode_status_payload(&StatusResult::Databases(vec![StorageInventory {
        name: "catalog".to_string(),
        record_count: 1,
        disk_size_bytes: 512,
        register_file_count: 3,
    }]));
    assert_eq!(
        CommandResult::Status(databases),
        CommandResult::Status(json(
            r#"[{
                "name": "catalog",
                "record_count": 1,
                "disk_size_bytes": 512,
                "register_file_count": 3
            }]"#
        ))
    );
    assert_eq!(
        CommandResult::Status(encode_status_payload(&StatusResult::Schemas(vec![
            "public".to_string()
        ]))),
        CommandResult::Status(json(r#"["public"]"#))
    );
}

fn archive() -> BackupArchive {
    BackupArchive {
        format: "wardrobe-archive/v1".to_string(),
        source_path: "catalog/public".to_string(),
        scope: "schema".to_string(),
        files: Vec::new(),
    }
}

fn restore_report() -> RestoreReport {
    RestoreReport {
        destination_path: "catalog/copy".to_string(),
        scope: "schema".to_string(),
        file_count: 0,
        byte_count: 0,
    }
}

fn inventory() -> StorageInventory {
    StorageInventory {
        name: "gem".to_string(),
        record_count: 0,
        disk_size_bytes: 0,
        register_file_count: 0,
    }
}

fn vacuum_report() -> VacuumReport {
    VacuumReport {
        records_rewritten: 1,
        data_bytes_before: 10,
        data_bytes_after: 7,
        index_bytes_before: 3,
        index_bytes_after: 2,
        bytes_reclaimed: 4,
    }
}

fn assert_invalid_data<T: std::fmt::Debug>(result: Result<T, Error>) {
    let error = result.expect_err("wrong command result should be rejected");
    assert_eq!(error.kind(), ErrorKind::InvalidData);
    assert!(error.message.contains("Wardrobe protocol returned an unexpected result"));
}

#[test]
fn unexpected_result_returns_invaliddata() {
    let result: Result<String, Error> = unexpected_result("pointer", CommandResult::Count(5));
    assert!(result.is_err());
    let error = result.err().unwrap();
    assert_eq!(error.kind(), ErrorKind::InvalidData);
    assert_eq!(
        error.message,
        "Wardrobe protocol returned an unexpected result; expected pointer, got Count(5)"
    );
}

#[test]
fn canonical_result_extractors_accept_matching_variants() {
    assert_eq!(
        upsert(CommandResult::Upsert(UpsertResult::Pointers(vec!["@gem:fire".to_string()])))
            .unwrap(),
        UpsertResult::Pointers(vec!["@gem:fire".to_string()])
    );
    assert_eq!(
        read(CommandResult::Read(ReadResult::Records(vec![json(r#"{"_id": "fire"}"#)]))).unwrap(),
        ReadResult::Records(vec![json(r#"{"_id": "fire"}"#)])
    );
    assert_eq!(
        delete(CommandResult::Delete(DeleteResult { deleted: 2 })).unwrap(),
        DeleteResult { deleted: 2 }
    );
    assert_eq!(compact(CommandResult::Compact(vacuum_report())).unwrap(), vacuum_report());
    assert_eq!(
        create(CommandResult::Create(CreateResult::StorageInventory(inventory()))).unwrap(),
        CreateResult::StorageInventory(inventory())
    );
    assert_eq!(status(CommandResult::Status(json("3"))).unwrap(), json("3"));
    assert_eq!(count(CommandResult::Count(4)).unwrap(), 4);
    assert_eq!(backup(CommandResult::Backup(archive())).unwrap(), archive());
    assert_eq!(restored(CommandResult::Restore(restore_report())).unwrap(), restore_report());
    assert_eq!(
        admin(CommandResult::Create(CreateResult::Admin(json(r#"{"created": true}"#)))).unwrap(),
        json(r#"{"created": true}"#)
    );
    assert_eq!(
        admin(CommandResult::Alter(json(r#"{"altered": true}"#))).unwrap(),
        json(r#"{"altered": true}"#)
    );
    assert_eq!(
        admin(CommandResult::Drop(json(r#"{"dropped": true}"#))).unwrap(),
        json(r#"{"dropped": true}"#)
    );
    assert_eq!(
        admin(CommandResult::Grant(json(r#"{"granted": true}"#))).unwrap(),
        json(r#"{"granted": true}"#)
    );
    assert_eq!(
        admin(CommandResult::Revoke(json(r#"{"revoked": true}"#))).unwrap(),
        json(r#"{"revoked": true}"#)
    );
}

#[test]
fn canonical_result_extractors_reject_wrong_variants() {
    assert_invalid_data(upsert(CommandResult::Count(0)));
    assert_invalid_data(read(CommandResult::Count(0)));
    assert_invalid_data(delete(CommandResult::Count(0)));
    assert_invalid_data(inspect(CommandResult::Count(0)));
    assert_invalid_data(compact(CommandResult::Count(0)));
    assert_invalid_data(create(CommandResult::Count(0)));
    assert_invalid_data(status(CommandResult::Count(0)));
    assert_invalid_data(count(CommandResult::Read(ReadResult::Exists(true))));
    assert_invalid_data(backup(CommandResult::Count(0)));
    assert_invalid_data(restored(CommandResult::Count(0)));
    assert_invalid_data(admin(CommandResult::Count(0)));
}

#[test]
fn unexpected_results_show_their_json() {
    let told = |result: CommandResult| {
        let error = count(result).expect_err("the result should be refused");
        error.message.rsplit("got ").next().unwrap_or_default().to_string()
    };
    assert_eq!(told(CommandResult::Alter(JsonValue::Null)), "Alter(Null)");
    assert_eq!(
        told(CommandResult::Status(json(r#"{"b": [1, -2, true], "a": "x\"y"}"#))),
        r#"Status(Object {"a": String("x\"y"), "b": Array [Number(1), Number(-2), Bool(true)]})"#
    );
    assert_eq!(
        told(CommandResult::Read(ReadResult::Records(vec![json("{}"), json("[]")]))),
        "Read(Records([Object {}, Array []]))"
    );
    assert_eq!(told(CommandResult::Read(ReadResult::Records(Vec::new()))), "Read(Records([]))");
    assert_eq!(
        told(CommandResult::Read(ReadResult::Record(Some(json("7"))))),
        "Read(Record(Some(Number(7))))"
    );
    assert_eq!(
        told(CommandResult::Inspect(InspectResult::Record(None))),
        "Inspect(Record(None))"
    );
    assert_eq!(
        told(CommandResult::Create(CreateResult::Admin(json("false")))),
        "Create(Admin(Bool(false)))"
    );
    let page = PaginatedReadResult {
        records: vec![json("1")],
        pagination: PaginationMetadata {
            next_cursor: None,
            has_more: false,
            page: Some(2),
            page_size: 10,
        },
    };
    assert_eq!(
        told(CommandResult::Read(ReadResult::Page(page))),
        "Read(Page(PaginatedReadResult { records: [Number(1)], pagination: PaginationMetadata { \
         next_cursor: None, has_more: false, page: Some(2), page_size: 10 } }))"
    );
    let upserted = CommandResult::Upsert(UpsertResult::Pointers(vec!["@gem:a".to_string()]));
    assert_eq!(told(upserted), r#"Upsert(Pointers(["@gem:a"]))"#);
}
