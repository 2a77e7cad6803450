use wardrobe::application_logging::ApplicationLogLevel;
use wardrobe::catalog::folder::{FileEntry, Folder};
use wardrobe::catalog::registry::CatalogRegistry;
use wardrobe::client::WardrobeClient;
use wardrobe::command::model::{OperationFilter, OperationOptions};
use wardrobe::command::requests::{
    AlterRequest, Command, CompactRequest, CreateRequest, DropRequest, PermissionRequest,
    StatusRequest,
};
use wardrobe::config::WardrobeConfig;
use wardrobe::connection::{ConnectionTarget, DriverKind};
use wardrobe::database::{drawer_names_on_disk, Database};
use wardrobe::database_execution::cabinets::{
    bulk_upsert_in_database_unlogged, count_in_database, find_by_id_in_database,
    upsert_in_database_unlogged, Cabinet, CountStart, RecordPlace,
};
use wardrobe::database_execution::maintenance::{
    find_all_in_database, manage_schema_in_database, migrate_drawer_in_database,
    records_for_filter_in_database, vacuum_drawer_in_database,
};
use wardrobe::database_execution::{
    full_record, prepare_batch, prepare_new_record, prepare_record, strip_record_id,
    virtual_relationship_children,
};
use wardrobe::drawer::blocks::DataBlockIndexEntry;
use wardrobe::drawer::indexing::StoredRecords;
use wardrobe::drawer::migration::{MigrationWrite, MigrationWrites};
use wardrobe::drawer::replay::{DrawerMetadata, IndexSlots};
use wardrobe::drawer::vacuum::LiveRecord;
use wardrobe::drawer::Drawer;
use wardrobe::engine::logging::{engine_log, error_log_fields};
use wardrobe::engine::open::WardrobeEngine;
use wardrobe::engine::outcomes::read_pointers;
use wardrobe::error::{Error, ErrorKind};
use wardrobe::fields::TextMap;
use wardrobe::offsets::OffsetMap;
use wardrobe::seed::{plan_seed, seed_database, seed_file_path};
use wardrobe::value::{parse_json, JsonValue};
use wardrobe::wal::DurabilityPolicy;

fn json(text: &str) -> JsonValue {
    parse_json(text.as_bytes()).expect("text should be JSON")
}

#[test]
fn drawers_are_cached_up_to_the_limit() {
    let mut database: Database<u32> =
        Database::initialize_with_cache_limit("/root", Some(2)).expect("database should open");
    database.load_drawer("a", 1, &Vec::new());
    database.load_drawer("b", 2, &Vec::new());
    assert!(database.use_drawer("a"));
    database.load_drawer("c", 3, &Vec::new());
    assert_eq!(database.cached_drawer_count(), 2);
    assert_eq!(database.get_drawer("a"), Some(&1));
    assert_eq!(database.get_drawer("b"), None);
    assert_eq!(database.get_drawer("c"), Some(&3));
    assert!(!database.use_drawer("b"));
}

#[test]
fn a_cached_drawer_is_not_loaded_anew() {
    let mut database: Database<u32> =
        Database::initialize_with_cache_limit("/root", Some(2)).expect("database should open");
    database.load_drawer("a", 1, &Vec::new());
    database.load_drawer("b", 2, &Vec::new());
    database.load_drawer("a", 9, &Vec::new());
    assert_eq!(database.get_drawer("a"), Some(&1));
    assert_eq!(database.get_drawer("b"), Some(&2));
    database.load_drawer("c", 3, &Vec::new());
    assert_eq!(database.get_drawer("a"), Some(&1));
    assert_eq!(database.get_drawer("b"), None);
}

#[test]
fn busy_drawers_stay_cached() {
    let mut database: Database<u32> =
        Database::initialize_with_cache_limit("/root", Some(1)).expect("database should open");
    database.load_drawer("a", 1, &Vec::new());
    database.load_drawer("b", 2, &vec!["a".to_string()]);
    assert_eq!(database.get_drawer("a"), Some(&1));
}

#[test]
fn closing_twice_is_closing_once() {
    let mut database: Database<u32> = Database::initialize("/root").expect("database should open");
    database.load_drawer("a", 1, &Vec::new());
    database.load_drawer("b", 2, &Vec::new());
    database.close_drawer("a");
    assert_eq!(database.cached_drawer_count(), 1);
    database.close_drawer("a");
    assert_eq!(database.cached_drawer_count(), 1);
    assert_eq!(database.get_drawer("a"), None);
}

#[test]
fn changed_drawers_are_handed_out_once() {
    let mut database: Database<u32> = Database::initialize("/root").expect("database should open");
    database.mark_drawer_mutated("b");
    database.mark_drawer_mutated("a");
    database.mark_drawer_mutated("b");
    assert_eq!(database.take_mutated_drawers(), vec!["a".to_string(), "b".to_string()]);
    assert!(database.take_mutated_drawers().is_empty());
}

#[test]
fn wal_activity_is_counted() {
    let mut database: Database<u32> = Database::initialize("/root").expect("database should open");
    database.record_wal_activity(100, 2);
    database.record_wal_activity(50, 1);
    assert_eq!(database.get_wal_counters(), (150, 3));
    database.record_wal_activity(u64::MAX, u64::MAX);
    assert_eq!(database.get_wal_counters(), (149, 2));
    database.reset_wal_counters();
    assert_eq!(database.get_wal_counters(), (0, 0));
    assert_eq!(database.wal_thresholds(), Database::<u32>::default_wal_thresholds());
}

#[test]
fn drawers_have_their_files() {
    let database: Database<u32> = Database::initialize("/root").expect("database should open");
    assert_eq!(database.storage_directory_path(), "/root");
    assert_eq!(database.drawer_data_file_path("gem"), "/root/gem.drw");
    assert_eq!(database.drawer_index_file_path("gem"), "/root/gem_index.drw");
    let file = |name: &str| FileEntry { name: name.to_string(), size: 0, bytes: Vec::new() };
    let folder = Folder {
        name: "root".to_string(),
        files: vec![file("gem.drw"), file("gem_index.drw"), file("gem_meta.drw"), file("x.txt")],
        folders: Vec::new(),
    };
    assert_eq!(drawer_names_on_disk(&folder), vec!["gem".to_string()]);
}

#[test]
fn given_keys_are_kept() {
    let record =
        prepare_record("gem", json(r#"{"_id": "@gem:lnk_ruby", "power": 1}"#), "made".to_string())
            .expect("record should be prepared");
    assert_eq!(record.record_key, "ruby");
    assert_eq!(record.pointer, "@gem:ruby");
    let made = prepare_record("gem", json(r#"{"power": 1}"#), "made".to_string()).unwrap();
    assert_eq!(made.record_key, "made");
    assert_eq!(made.pointer, "@gem:made");
    assert_eq!(
        prepare_record("gem", json("[]"), "made".to_string()).unwrap_err().message,
        "Payload root must be a JSON object"
    );
}

#[test]
fn made_keys_differ() {
    let a = prepare_new_record("gem", json("{}")).expect("record should be prepared");
    let b = prepare_new_record("gem", json("{}")).expect("record should be prepared");
    assert_eq!(a.record_key.len(), 32);
    assert!(a.record_key.chars().all(|c| c.is_ascii_digit() || ('a'..='f').contains(&c)));
    assert_eq!(a.record_key.as_bytes()[12], 0x34);
    assert_ne!(a.record_key, b.record_key);
}

#[test]
fn batches_are_prepared_in_order() {
    let batch = prepare_batch("gem", vec![json(r#"{"_id": "a"}"#), json(r#"{"_id": "b"}"#)])
        .expect("batch should be prepared");
    assert_eq!(batch.len(), 2);
    assert_eq!(batch[0].record_key, "a");
    assert_eq!(batch[1].pointer, "@gem:b");
    assert!(prepare_batch("gem", vec![json("7")]).is_err());
    let mut fields: TextMap<JsonValue> = TextMap::new();
    fields.insert("n".to_string(), json("1"));
    assert_eq!(full_record("a", fields), json(r#"{"_id": "a", "n": 1}"#));
    assert_eq!(strip_record_id(json(r#"{"_id": "a", "n": 1}"#)), json(r#"{"n": 1}"#));
}

#[test]
fn children_point_at_their_parent() {
    let records = vec![
        json(r#"{"_id": "a", "stone": "@gem:ruby"}"#),
        json(r#"{"_id": "b", "stone": "@gem:opal"}"#),
        json(r#"{"_id": "c"}"#),
    ];
    let children = virtual_relationship_children(records, "stone", "@gem:ruby");
    assert_eq!(children, vec![json(r#"{"_id": "a", "stone": "@gem:ruby"}"#)]);
}

#[test]
fn clients_ask_for_commands() {
    let client = WardrobeClient::open("./data").expect("client should open");
    assert_eq!(client.connection_target(), &ConnectionTarget::EmbeddedPath("./data".to_string()));
    assert_eq!(client.driver_kind(), DriverKind::Embedded);
    assert!(client.requires_embedded_engine());
    assert!(!client.uses_socket_transport());
    assert_eq!(
        client.upsert(
            json(r#"{"_id": "ruby", "power": 42}"#),
            OperationFilter::drawer("gem"),
            OperationOptions::default()
        ),
        Command::Upsert {
            payload: json(r#"{"_id": "ruby", "power": 42}"#),
            filter: OperationFilter::drawer("gem"),
            options: OperationOptions::default(),
        }
    );
    assert_eq!(
        client.create(CreateRequest::database("wardrobe")),
        Command::Create(CreateRequest::database("wardrobe"))
    );
    assert_eq!(
        client.status(StatusRequest::databases().into_request()),
        Command::Status(StatusRequest::Databases)
    );
    assert_eq!(
        client.compact(CompactRequest::drawer("gem")),
        Command::Compact(CompactRequest::drawer("gem"))
    );
    assert_eq!(
        client.alter(AlterRequest::schema_rule("gem", "add", "index", "power", json("{}"))),
        Command::Alter(AlterRequest::schema_rule("gem", "add", "index", "power", json("{}")))
    );
    assert_eq!(
        client.drop(DropRequest::user("alice")),
        Command::Drop(DropRequest::user("alice"))
    );
    assert_eq!(
        client.grant(PermissionRequest::new("alice", "armory:r")),
        Command::Grant(PermissionRequest::new("alice", "armory:r"))
    );
    assert_eq!(
        client.backup("db"),
        Command::Backup { source_path: "db".to_string() }
    );
    assert!(WardrobeClient::open("").is_err());
}

#[test]
fn valid_configurations_open() {
    let engine: WardrobeEngine<u32> =
        WardrobeEngine::open_with_config(WardrobeConfig::default(), CatalogRegistry::new())
            .expect("engine should open");
    assert_eq!(engine.root_directory, WardrobeConfig::default().data.directory);
    assert_eq!(
        engine.configured_wal_thresholds(),
        (
            WardrobeConfig::default().wal.checkpoint_size_bytes,
            WardrobeConfig::default().wal.checkpoint_ops
        )
    );
    let mut config = WardrobeConfig::default();
    config.cache.max_cached_drawers = Some(0);
    let refused: Result<WardrobeEngine<u32>, Error> =
        WardrobeEngine::open_with_config(config, CatalogRegistry::new());
    match refused {
        Err(error) => assert_eq!(error.kind(), ErrorKind::InvalidInput),
        Ok(_) => panic!("a cache without room should be refused"),
    }
}

#[test]
fn builders_set_what_is_configured() {
    let engine: WardrobeEngine<u32> = WardrobeEngine::<u32>::builder()
        .directory("/srv/wardrobe")
        .max_cached_drawers(5)
        .durability(DurabilityPolicy::Strict)
        .wal_checkpoint_thresholds(1000, 10)
        .open(CatalogRegistry::new())
        .expect("engine should open");
    assert_eq!(engine.root_directory, "/srv/wardrobe");
    assert_eq!(engine.configured_max_cached_drawers(), Some(5));
    assert_eq!(engine.configured_wal_thresholds(), (1000, 10));
    assert_eq!(engine.configured_durability_policy(), DurabilityPolicy::Strict);
}

#[test]
fn events_tell_what_went_wrong() {
    let error = Error::invalid_input("no drawer".to_string());
    let fields = error_log_fields(&error);
    assert!(fields.iter().any(|field| field.1.contains("no drawer")));
    let event = engine_log(ApplicationLogLevel::Warn, "read failed", fields);
    assert_eq!(event.level, ApplicationLogLevel::Warn);
    assert_eq!(event.message, "read failed");
}

#[test]
fn seeds_are_planned_by_drawer() {
    assert_eq!(seed_file_path("/work"), "/work/tests/common/test_seed.json");
    let plan = plan_seed(&json(r#"{"gem": [{"_id": "a"}, {"_id": "b"}], "tool": [{"_id": "c"}]}"#))
        .expect("seed should be planned");
    assert_eq!(plan.records.len(), 3);
    assert_eq!(plan.records[2], ("tool".to_string(), json(r#"{"_id": "c"}"#)));
    assert!(plan.failure.is_none());
    let broken = plan_seed(&json(r#"{"gem": 7}"#)).expect("the root is an object");
    assert!(broken.failure.is_some());
    assert!(plan_seed(&json("[]")).is_err());
    assert!(seed_database(b"{").is_err());
}

fn place(offset: u64) -> RecordPlace {
    RecordPlace {
        offset,
        block: DataBlockIndexEntry::live(b"payload", 64),
        file_len: offset,
        old_payload: None,
    }
}

fn found(drawers: &mut TextMap<Cabinet>, pointer: &str) -> Result<Option<JsonValue>, Error> {
    let none: MigrationWrites = OffsetMap::new();
    find_by_id_in_database(drawers, pointer, &none).map(|read| read.record)
}

#[test]
fn written_records_are_found_at_their_pointers() {
    let mut drawers: TextMap<Cabinet> = TextMap::new();
    let ruby = prepare_new_record("gem", json(r#"{"_id": "ruby", "power": 42}"#)).unwrap();
    let saw = prepare_new_record("tool", json(r#"{"_id": "@tool:lnk_saw"}"#)).unwrap();
    let (pointer, done) =
        upsert_in_database_unlogged(&mut drawers, "gem", ruby, place(0), None).unwrap();
    assert_eq!(pointer, "@gem:ruby");
    assert!(done.is_new);
    let (pointer, _) =
        upsert_in_database_unlogged(&mut drawers, "tool", saw, place(0), None).unwrap();
    assert_eq!(pointer, "@tool:saw");
    assert_eq!(
        found(&mut drawers, "@gem:ruby"),
        Ok(Some(json(r#"{"power": 42}"#)))
    );
    assert_eq!(found(&mut drawers, "@tool:saw"), Ok(Some(json("{}"))));
    assert_eq!(found(&mut drawers, "@gem:opal"), Ok(None));
    assert_eq!(found(&mut drawers, "@cup:tea"), Ok(None));
    let pointers =
        vec!["@tool:saw".to_string(), "@gem:opal".to_string(), "@gem:ruby".to_string()];
    let none: TextMap<MigrationWrites> = TextMap::new();
    let read = read_pointers(&mut drawers, &pointers, &none);
    assert_eq!(read.outcome, Ok(vec![json("{}"), json(r#"{"power": 42}"#)]));
    assert_eq!(read.reads.len(), 3);
    let broken = vec!["@tool:saw".to_string(), "ruby".to_string(), "@gem:ruby".to_string()];
    let read = read_pointers(&mut drawers, &broken, &none);
    assert!(read.outcome.is_err());
    assert_eq!(read.reads.len(), 1);
    assert_eq!(
        found(&mut drawers, "ruby").unwrap_err().message,
        "Invalid record pointer: ruby"
    );
}

#[test]
fn refused_batches_write_nothing() {
    let mut drawers: TextMap<Cabinet> = TextMap::new();
    let batch = vec![
        (prepare_new_record("gem", json(r#"{"_id": "a"}"#)).unwrap(), place(0)),
        (prepare_new_record("gem", json(r#"{"_id": "b"}"#)).unwrap(), place(64)),
    ];
    let done = bulk_upsert_in_database_unlogged(&mut drawers, "gem", batch, None);
    match done.outcome {
        Ok((pointers, _)) => {
            assert_eq!(pointers, vec!["@gem:a".to_string(), "@gem:b".to_string()])
        }
        Err(error) => panic!("the batch should be written: {error:?}"),
    }
    assert_eq!(done.effects.len(), 2);
    let batch = vec![(prepare_new_record("gem", json(r#"{"_id": "c"}"#)).unwrap(), place(128))];
    let problem = Some("$.power must be less than or equal to 9".to_string());
    let refused = bulk_upsert_in_database_unlogged(&mut drawers, "gem", batch, problem);
    match refused.outcome {
        Err(error) => {
            assert_eq!(error.kind(), ErrorKind::InvalidData);
            assert_eq!(error.message, "$.power must be less than or equal to 9");
        }
        Ok(_) => panic!("the batch should be refused"),
    }
    assert_eq!(found(&mut drawers, "@gem:c"), Ok(None));
    assert_eq!(found(&mut drawers, "@gem:a"), Ok(Some(json("{}"))));
}

#[test]
fn records_are_counted() {
    let mut drawers: TextMap<Cabinet> = TextMap::new();
    let slots = IndexSlots::new();
    let counted = |counting: Result<CountStart, Error>| counting.expect("the drawer is counted");
    assert_eq!(
        counted(count_in_database(&mut drawers, "gem", &slots, None).outcome),
        CountStart::Counted(0)
    );
    for (i, id) in ["a", "b", "c"].iter().enumerate() {
        let text = format!(r#"{{"_id": "{id}", "power": {}}}"#, i / 2);
        let record = prepare_new_record("gem", json(&text)).unwrap();
        upsert_in_database_unlogged(&mut drawers, "gem", record, place(64 * i as u64), None)
            .expect("the record is written");
    }
    assert_eq!(
        counted(count_in_database(&mut drawers, "gem", &slots, None).outcome),
        CountStart::Counted(3)
    );
    let filter = match json(r#"{"power": 0}"#) {
        JsonValue::Object(fields) => fields,
        _ => panic!("the filter is an object"),
    };
    assert_eq!(
        counted(count_in_database(&mut drawers, "gem", &slots, Some(&filter)).outcome),
        CountStart::Scan
    );
    let mut cabinet = drawers.remove("gem").expect("the drawer is open");
    cabinet
        .drawer
        .manage_schema_rule(
            &cabinet.records,
            &slots,
            "add",
            "index",
            "power",
            json(r#"{"type": "hash"}"#),
        )
        .expect("the index is added");
    drawers.insert("gem".to_string(), cabinet);
    let first = count_in_database(&mut drawers, "gem", &slots, Some(&filter));
    assert!(first.persist);
    assert_eq!(counted(first.outcome), CountStart::Scan);
    let second = count_in_database(&mut drawers, "gem", &slots, Some(&filter));
    assert!(!second.persist);
    assert_eq!(counted(second.outcome), CountStart::Counted(2));
    assert_eq!(
        counted(count_in_database(&mut drawers, "cup", &slots, Some(&filter)).outcome),
        CountStart::Counted(0)
    );
}

#[test]
fn drawers_are_looked_after() {
    let mut drawers: TextMap<Cabinet> = TextMap::new();
    let slots = IndexSlots::new();
    let none: MigrationWrites = OffsetMap::new();
    let (ruby, opal) = (r#"{"_id": "ruby", "power": 1}"#, r#"{"_id": "opal", "power": 2}"#);
    for (i, text) in [ruby, opal].iter().enumerate() {
        let record = prepare_new_record("gem", json(text)).unwrap();
        upsert_in_database_unlogged(&mut drawers, "gem", record, place(640 - 64 * i as u64), None)
            .expect("the record is written");
    }
    let every = find_all_in_database(&mut drawers, "gem", &none);
    assert_eq!(every.outcome, Ok(vec![json(opal), json(ruby)]));
    assert_eq!(find_all_in_database(&mut drawers, "cup", &none).outcome, Ok(Vec::new()));

    let live = vec![
        LiveRecord { record: json(opal), payload: b"opal".to_vec() },
        LiveRecord { record: json(ruby), payload: b"ruby".to_vec() },
    ];
    let plan = vacuum_drawer_in_database(&mut drawers, "gem", "gem", &live)
        .expect("the drawer is packed");
    assert_eq!(plan.data, b"opalruby".to_vec());
    assert_eq!(
        found(&mut drawers, "@gem:ruby"),
        Ok(Some(json(r#"{"power": 1}"#)))
    );
    let refused = vacuum_drawer_in_database(&mut drawers, "cup", "shop:cup", &live)
        .err()
        .expect("there is no such drawer");
    assert_eq!(refused.kind(), ErrorKind::NotFound);
    assert_eq!(refused.message, "Drawer 'cup' was not found");

    let run = migrate_drawer_in_database(&mut drawers, "gem", "gem", &none, &live);
    assert_eq!(run.reads.len(), 2);
    assert!(run.outcome.is_ok());
    let run = migrate_drawer_in_database(&mut drawers, "cup", "cup", &none, &live);
    assert_eq!(
        run.outcome.err().map(|error| error.message),
        Some("Drawer 'cup' was not found".to_string())
    );

    let rule = json(r#"{"type": "hash"}"#);
    let (answer, _) = manage_schema_in_database(
        &mut drawers, "gem", "gem", &slots, "add", "index", "power", rule,
    )
    .expect("the rule is added");
    assert!(matches!(answer, JsonValue::Object(_)));
    let refused = manage_schema_in_database(
        &mut drawers, "cup", "cup", &slots, "add", "index", "power", json("{}"),
    )
    .err()
    .expect("there is no such drawer");
    assert_eq!(refused.message, "Drawer 'cup' could not be loaded for schema management");

    let filter = match json(r#"{"power": 2}"#) {
        JsonValue::Object(fields) => fields,
        _ => panic!("the filter is an object"),
    };
    let scanned = records_for_filter_in_database(&mut drawers, "gem", &slots, &filter, &none);
    assert_eq!(scanned.outcome.map(|all| all.len()), Ok(2));
    let listed = records_for_filter_in_database(&mut drawers, "gem", &slots, &filter, &none);
    assert_eq!(listed.outcome, Ok(vec![json(opal)]));
    let absent = records_for_filter_in_database(&mut drawers, "cup", &slots, &filter, &none);
    assert_eq!(absent.outcome, Ok(Vec::new()));
}

#[test]
fn outdated_records_are_stored_anew_when_their_pointer_is_followed() {
    let metadata = DrawerMetadata { format_version: 0, ..DrawerMetadata::fresh() };
    let drawer = Drawer::open("gem", "_id", Vec::new(), Some(metadata), &Vec::new(), 0).drawer;
    let mut cabinet = Cabinet { drawer, records: StoredRecords::new() };
    let old = json(r#"{"_id": "lnk_ruby", "friend": "@gem:lnk_opal"}"#);
    let block = DataBlockIndexEntry::live(b"old", 64);
    cabinet.drawer.apply_upsert("ruby", None, &old, 0, block, None);
    cabinet.records.insert(0, old);
    let mut drawers: TextMap<Cabinet> = TextMap::new();
    drawers.insert("gem".to_string(), cabinet);
    let mut writes: MigrationWrites = OffsetMap::new();
    writes.insert(
        0,
        MigrationWrite {
            payload: b"new".to_vec(),
            offset: 64,
            size_class: 64,
            file_len: 64,
            old_payload: b"old".to_vec(),
        },
    );
    let read = find_by_id_in_database(&mut drawers, "@gem:ruby", &writes)
        .expect("the record should be read");
    assert_eq!(read.record, Some(json(r#"{"friend": "@gem:opal"}"#)));
    assert!(read.effects.is_some());
    assert_eq!(found(&mut drawers, "@gem:ruby"), Ok(read.record));
}
