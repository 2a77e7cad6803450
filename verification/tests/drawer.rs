use wardrobe::drawer::blocks::{crc32, read_field_number, DataBlockIndexEntry};
use wardrobe::drawer::contents::RecordWrite;
use wardrobe::drawer::index::{
    equality_filter_index_key, intersect_sorted_offsets, secondary_index_key, sorted_set,
};
use wardrobe::drawer::indexing::{entry_names, IndexChange, StoredRecords};
use wardrobe::drawer::legacy::{migrate_legacy_value, MigrationPlan};
use wardrobe::drawer::lifetime::DrawerSpace;
use wardrobe::drawer::migration::{MigrationWrite, MigrationWrites};
use wardrobe::drawer::records::DrawerEffects;
use wardrobe::drawer::relations::{
    pointer_matches_target_drawer, validate_many_to_many_field, validate_reference_field,
};
use wardrobe::drawer::replay::{DrawerMetadata, IndexSlot, IndexSlots};
use wardrobe::drawer::rules::{
    constraint_type, delete_rule_is_cascade, is_unique_constraint, normalize_schema_kind,
    validate_schema_field, RuleKind,
};
use wardrobe::drawer::schema::{validate_value_against_schema, value_matches_type};
use wardrobe::drawer::slots::{index_entry_value, recyclable_data_slots};
use wardrobe::drawer::space::SlotSpace;
use wardrobe::drawer::vacuum::{append_compact_payload, LiveRecord, VacuumReport};
use wardrobe::drawer::{offsets_index_value, Drawer};
use wardrobe::error::ErrorKind;
use wardrobe::fields::TextMap;
use wardrobe::offsets::OffsetMap;
use wardrobe::value::{parse_json, JsonValue, Number};

fn json(text: &str) -> JsonValue {
    parse_json(text.as_bytes()).expect("text should be JSON")
}

fn empty_drawer(unique: &[&str]) -> Drawer {
    let unique = unique.iter().map(|field| field.to_string()).collect();
    Drawer::open("gem", "_id", unique, None, &Vec::new(), 0).drawer
}

fn write(drawer: &mut Drawer, key: &str, old: Option<&JsonValue>, record: &JsonValue, offset: u64) {
    let block = DataBlockIndexEntry::live(b"payload", 64);
    let stale = old.and_then(|_| drawer.find_offset(key)).map(|at| (at, block));
    drawer.apply_upsert(key, old, record, offset, block, stale);
}

#[test]
fn checksums_are_those_of_crc32() {
    assert_eq!(crc32(b"123456789"), 0xcbf43926);
    assert_eq!(crc32(b""), 0);
}

#[test]
fn written_records_are_found() {
    let mut drawer = empty_drawer(&["name"]);
    assert_eq!(drawer.find_offset("ruby"), None);
    write(&mut drawer, "ruby", None, &json(r#"{"_id": "ruby", "name": "Ruby"}"#), 0);
    assert_eq!(drawer.find_offset("ruby"), Some(0));
    assert_eq!(drawer.record_count(), 1);
    write(&mut drawer, "opal", None, &json(r#"{"_id": "opal", "name": "Opal"}"#), 64);
    assert_eq!(drawer.find_offset("ruby"), Some(0));
    assert_eq!(drawer.find_offset("opal"), Some(64));
    assert_eq!(drawer.record_count(), 2);
    assert_eq!(drawer.sorted_live_primary_offsets(), vec![0, 64]);
}

#[test]
fn rewritten_records_move_and_are_counted_once() {
    let mut drawer = empty_drawer(&["name"]);
    let first = json(r#"{"_id": "ruby", "name": "Ruby"}"#);
    write(&mut drawer, "ruby", None, &first, 0);
    let block = DataBlockIndexEntry::live(b"payload", 64);
    let second = json(r#"{"_id": "ruby", "name": "Rubin"}"#);
    let effects =
        drawer.apply_upsert("ruby", Some(&first), &second, 64, block, Some((0, block)));
    assert_eq!(drawer.find_offset("ruby"), Some(64));
    assert_eq!(drawer.record_count(), 1);
    assert_eq!(effects.freed, Some((64, 0)));
    assert!(!drawer.unique_value_taken(&json(r#"{"name": "Ruby"}"#), None, "name"));
    assert!(drawer.unique_value_taken(&json(r#"{"name": "Rubin"}"#), None, "name"));
}

#[test]
fn deleted_records_are_not_found() {
    let mut drawer = empty_drawer(&["name"]);
    let record = json(r#"{"_id": "ruby", "name": "Ruby"}"#);
    write(&mut drawer, "ruby", None, &record, 0);
    let block = DataBlockIndexEntry::live(b"payload", 64);
    let effects = drawer.apply_delete("ruby", &record, 0, block);
    assert_eq!(drawer.find_offset("ruby"), None);
    assert_eq!(drawer.record_count(), 0);
    assert_eq!(effects.freed, Some((64, 0)));
    assert!(!drawer.unique_value_taken(&record, None, "name"));
}

#[test]
fn unique_values_are_held_once() {
    let mut drawer = empty_drawer(&["name"]);
    write(&mut drawer, "ruby", None, &json(r#"{"_id": "ruby", "name": "Ruby"}"#), 0);
    let rival = json(r#"{"_id": "rival", "name": "Ruby"}"#);
    assert!(drawer.check_unique(&rival, None).is_some());
    let refused = drawer.check_upsert(&Vec::new(), &rival);
    assert!(refused.problem.expect("the value is taken").contains("name"));
    let own = json(r#"{"_id": "ruby", "name": "Ruby", "power": 1}"#);
    assert!(drawer.check_upsert(&Vec::new(), &own).problem.is_none());
    let keyless = drawer.check_upsert(&Vec::new(), &json(r#"{"name": "x"}"#));
    assert_eq!(keyless.problem, Some("Missing primary key field: _id".to_string()));
}

#[test]
fn batches_are_checked_against_themselves() {
    let mut drawer = empty_drawer(&["name"]);
    write(&mut drawer, "ruby", None, &json(r#"{"_id": "ruby", "name": "Ruby"}"#), 0);
    let apart = vec![
        json(r#"{"_id": "a", "name": "A"}"#),
        json(r#"{"_id": "b", "name": "B"}"#),
    ];
    assert!(drawer.validate_bulk_upsert_records(&Vec::new(), &apart).problem.is_none());
    let alike = vec![
        json(r#"{"_id": "a", "name": "A"}"#),
        json(r#"{"_id": "b", "name": "A"}"#),
    ];
    assert!(drawer.validate_bulk_upsert_records(&Vec::new(), &alike).problem.is_some());
    let taken = vec![json(r#"{"_id": "c", "name": "Ruby"}"#)];
    assert!(drawer.validate_bulk_upsert_records(&Vec::new(), &taken).problem.is_some());
}

#[test]
fn index_entries_bring_the_records_back() {
    let mut drawer = empty_drawer(&["name"]);
    let block = DataBlockIndexEntry::live(b"payload", 64);
    let record = json(r#"{"_id": "ruby", "name": "Ruby"}"#);
    let effects = drawer.apply_upsert("ruby", None, &record, 128, block, None);
    let slots: Vec<IndexSlot> = effects
        .index_logs
        .iter()
        .enumerate()
        .map(|(i, log)| IndexSlot {
            offset: 64 * i as u64,
            is_dead: false,
            entry: Some(index_entry_value(log)),
        })
        .collect();
    let len = 64 * slots.len() as u64;
    let again = Drawer::open("gem", "_id", vec!["name".to_string()], None, &slots, len);
    assert_eq!(again.drawer.find_offset("ruby"), Some(128));
    assert_eq!(again.drawer.record_count(), 1);
    assert!(again.drawer.unique_value_taken(&record, None, "name"));
    assert!(again.tombstones.is_empty());
}

#[test]
fn later_entries_replace_earlier_ones() {
    let slot = |offset: u64, text: &str| IndexSlot {
        offset,
        is_dead: false,
        entry: Some(json(text)),
    };
    let slots = vec![
        slot(0, r#"{"f": "_id", "k": "ruby", "o": 10}"#),
        slot(64, r#"{"f": "_id", "k": "ruby", "o": 20}"#),
        IndexSlot { offset: 128, is_dead: true, entry: None },
    ];
    let opened = Drawer::open("gem", "_id", Vec::new(), None, &slots, 192);
    assert_eq!(opened.drawer.find_offset("ruby"), Some(20));
    assert!(opened.tombstones.contains(&(0, 64)));
    assert!(opened.free.contains(&(64, 128)));
}

#[test]
fn index_slots_are_replaced_and_buried() {
    let mut slots = IndexSlots::new();
    assert_eq!(slots.write_entry("_id", "ruby", 0, 64), None);
    assert_eq!(slots.replace("_id", "ruby", 64, 64), Some((0, 64)));
    assert_eq!(slots.tombstone_index_slot("_id", "ruby"), Some((64, 64)));
    assert_eq!(slots.tombstone_index_slot("_id", "ruby"), None);
    assert_eq!(entry_names(&slots).len(), 0);
}

#[test]
fn blocks_are_read_back_from_their_entries() {
    let mut drawer = empty_drawer(&[]);
    let block = DataBlockIndexEntry::live(b"payload", 64);
    let effects =
        drawer.apply_upsert("ruby", None, &json(r#"{"_id": "ruby"}"#), 128, block, None);
    let entry = index_entry_value(&effects.index_logs[0]);
    assert_eq!(DataBlockIndexEntry::from_index_entry(&entry), Some((128, block)));
    assert_eq!(block.payload_len, 7);
    assert_eq!(block.crc, crc32(b"payload"));
    assert_eq!(read_field_number(&json(r#"{"n": 5}"#), "n"), Some(5));
    assert_eq!(read_field_number(&json(r#"{"n": -5}"#), "n"), None);
}

#[test]
fn free_slots_are_listed_once() {
    let entries = vec![json(r#"{"f": "_id", "k": "ruby", "o": 64}"#)];
    let slots = vec![(0u64, true), (64u64, false), (128u64, true)];
    let free = recyclable_data_slots(&entries, &slots, 256);
    assert!(free.contains(&(64, 0)));
    assert!(free.contains(&(128, 128)));
    assert_eq!(free.iter().filter(|slot| slot.1 == 0).count(), 1);
    assert!(!free.iter().any(|slot| slot.1 == 64));
}

#[test]
fn keys_of_indexed_values() {
    assert_eq!(secondary_index_key(&json(r#""Ruby""#)), Some("Ruby".to_string()));
    assert_eq!(secondary_index_key(&json("[1]")), None);
    assert_eq!(equality_filter_index_key(&json(r#""Ruby""#)), Some("Ruby".to_string()));
    assert_eq!(intersect_sorted_offsets(vec![1, 3, 5], vec![3, 4, 5]), vec![3, 5]);
    assert_eq!(sorted_set(&vec![5, 1, 5, 3]), vec![1, 3, 5]);
    assert_eq!(offsets_index_value(&vec![7, 9]), json("[7, 9]"));
}

fn stored(records: &[(u64, &str)]) -> StoredRecords {
    let mut held: StoredRecords = OffsetMap::new();
    for (offset, record) in records {
        held.insert(*offset, json(record));
    }
    held
}

#[test]
fn added_indexes_answer_filters() {
    let mut drawer = empty_drawer(&[]);
    let ruby = r#"{"_id": "ruby", "color": "red"}"#;
    let opal = r#"{"_id": "opal", "color": "white"}"#;
    write(&mut drawer, "ruby", None, &json(ruby), 0);
    write(&mut drawer, "opal", None, &json(opal), 64);
    let records = stored(&[(0, ruby), (64, opal)]);
    let slots = IndexSlots::new();
    let (_, changes) = drawer
        .manage_schema_rule(&records, &slots, "add", "index", "color", json(r#"{"type": "hash"}"#))
        .expect("the index should be added");
    assert!(changes.is_empty());
    assert!(drawer.schema_has_index("color"));
    assert_eq!(drawer.query_index_fields(), vec!["color".to_string()]);
    assert!(drawer.index_can_satisfy_filter("color"));

    let mut filter: TextMap<JsonValue> = TextMap::new();
    filter.insert("color".to_string(), json(r#""red""#));
    let first = drawer.indexed_candidate_offsets(&records, &slots, &filter);
    assert!(matches!(first.outcome, Ok(None)));
    assert!(first.changes.iter().any(|change| matches!(change, IndexChange::Write(_))));
    assert!(drawer.query_index_is_materialized("color"));
    let second = drawer.indexed_candidate_offsets(&records, &slots, &filter);
    match second.outcome {
        Ok(Some(offsets)) => assert_eq!(offsets, vec![0]),
        other => panic!("unexpected lookup: {other:?}"),
    }
    assert!(second.changes.is_empty());
    let index = drawer.build_secondary_index(&records, "color", false).expect("index");
    assert_eq!(index.get("white"), Some(&vec![64]));

    let (_, _) = drawer
        .manage_schema_rule(&records, &slots, "remove", "index", "color", json("{}"))
        .expect("the index should be removed");
    assert!(!drawer.schema_has_index("color"));
}

#[test]
fn unique_rules_take_hold() {
    let mut drawer = empty_drawer(&[]);
    let ruby = r#"{"_id": "ruby", "color": "red"}"#;
    write(&mut drawer, "ruby", None, &json(ruby), 0);
    let records = stored(&[(0, ruby)]);
    let slots = IndexSlots::new();
    drawer
        .manage_schema_rule(
            &records,
            &slots,
            "add",
            "constraint",
            "color",
            json(r#"{"type": "unique"}"#),
        )
        .expect("the rule should be added");
    let rival = json(r#"{"_id": "rival", "color": "red"}"#);
    assert!(drawer.check_unique(&rival, None).is_some());

    write(&mut drawer, "b", None, &json(r#"{"_id": "b", "color": "red"}"#), 64);
    let twice = stored(&[(0, ruby), (64, r#"{"_id": "b", "color": "red"}"#)]);
    let refused = drawer
        .build_secondary_index(&twice, "color", true)
        .expect_err("the value is there twice");
    assert!(!refused.message.is_empty());
}

#[test]
fn schema_rules_are_named() {
    assert_eq!(normalize_schema_kind("INDEX"), Ok(RuleKind::Index));
    assert_eq!(RuleKind::CascadeDelete.as_str(), normalize_schema_kind("cascade_delete").unwrap().as_str());
    assert_eq!(normalize_schema_kind("wish").unwrap_err().kind(), ErrorKind::InvalidInput);
    assert!(validate_schema_field("").is_err());
    assert_eq!(validate_schema_field("color"), Ok(()));
    assert_eq!(constraint_type(&json(r#"{"type": "unique"}"#)), Ok("unique"));
    assert!(is_unique_constraint("unique"));
    assert!(delete_rule_is_cascade(&json(r#"{"action": "Cascade"}"#)));
}

#[test]
fn relationships_are_checked() {
    assert!(pointer_matches_target_drawer("gem", "gem"));
    assert!(!pointer_matches_target_drawer("tool", "gem"));
    let rule = json(r#"{"type": "M:1", "target_drawer": "gem"}"#);
    assert_eq!(validate_reference_field("stone", &json(r#""@gem:ruby""#), &rule), None);
    assert!(validate_reference_field("stone", &json(r#""@tool:saw""#), &rule).is_some());
    assert!(validate_reference_field("stone", &json("7"), &rule).is_some());
    assert_eq!(validate_many_to_many_field("stones", &json(r#"["@gem:ruby"]"#), &rule), None);
    assert!(validate_many_to_many_field("stones", &json(r#""@gem:ruby""#), &rule).is_some());
}

#[test]
fn schemas_are_checked() {
    assert!(value_matches_type(&json("7"), "integer"));
    assert!(!value_matches_type(&json(r#""7""#), "integer"));
    let schema = json(
        r#"{
            "type": "object",
            "required": ["name"],
            "properties": {
                "name": {"type": "string", "minLength": 2},
                "power": {"type": "number", "minimum": 1, "maximum": 9}
            }
        }"#,
    );
    let good = validate_value_against_schema(&json(r#"{"name": "Ruby", "power": 5}"#), &schema, "$");
    assert!(good.problem.is_none());
    assert_eq!(good.numeric.len(), 1);
    assert_eq!(good.numeric[0].value, Number::PosInt(5));
    assert_eq!(good.numeric[0].minimum, Some(Number::PosInt(1)));
    assert!(validate_value_against_schema(&json("{}"), &schema, "$").problem.is_some());
    assert!(validate_value_against_schema(&json(r#"{"name": "R"}"#), &schema, "$")
        .problem
        .is_some());
    assert!(validate_value_against_schema(&json(r#"{"name": 7}"#), &schema, "$")
        .problem
        .is_some());
}

#[test]
fn vacuumed_records_are_kept() {
    let mut drawer = empty_drawer(&["name"]);
    let ruby = || json(r#"{"_id": "ruby", "name": "Ruby"}"#);
    let opal = || json(r#"{"_id": "opal", "name": "Opal"}"#);
    write(&mut drawer, "ruby", None, &ruby(), 640);
    write(&mut drawer, "opal", None, &opal(), 1280);
    let live = vec![
        LiveRecord { record: ruby(), payload: b"ruby".to_vec() },
        LiveRecord { record: opal(), payload: b"opals".to_vec() },
    ];
    let plan = drawer.vacuum(&live).expect("the drawer should be packed");
    assert_eq!(drawer.record_count(), 2);
    assert_eq!(drawer.find_offset("ruby"), Some(0));
    let mut packed = Vec::new();
    append_compact_payload(&mut packed, &b"ruby".to_vec());
    assert_eq!(drawer.find_offset("opal"), Some(packed.len() as u64));
    append_compact_payload(&mut packed, &b"opals".to_vec());
    assert_eq!(plan.data, packed);
    let keyless = vec![LiveRecord { record: json("{}"), payload: Vec::new() }];
    assert!(drawer.vacuum(&keyless).is_err());
    assert_eq!(drawer.record_count(), 2);
}

#[test]
fn vacuum_reports_what_was_reclaimed() {
    let report = VacuumReport::new(2, 100, 40, 30, 20);
    assert_eq!(report.bytes_reclaimed, 70);
    let grown = VacuumReport::new(2, 10, 40, 30, 20);
    assert_eq!(grown.bytes_reclaimed, 0);
}

#[test]
fn old_links_are_migrated() {
    let (value, changed) = migrate_legacy_value(&json(r#"{"a": [1, null]}"#), None);
    assert!(!changed);
    assert_eq!(value, json(r#"{"a": [1, null]}"#));
    let drawer = empty_drawer(&[]);
    assert!(drawer.migrate_legacy_record_value(&json(r#"{"_id": "ruby"}"#)).is_none());
}

#[test]
fn migrated_records_are_found() {
    let mut drawer = empty_drawer(&[]);
    write(&mut drawer, "lnk_ruby", None, &json(r#"{"_id": "lnk_ruby"}"#), 0);
    let block = DataBlockIndexEntry::live(b"payload", 64);
    let (plan, old_key, new_key) = drawer
        .plan_migration(
            &json(r#"{"_id": "lnk_ruby"}"#),
            &json(r#"{"_id": "ruby"}"#),
            Some((0, block)),
            7,
        )
        .expect("the migration should be planned");
    assert_eq!(plan, MigrationPlan::InPlace { size_class: 64 });
    assert_eq!(new_key, "ruby");
    drawer.apply_migration(&old_key, &new_key, 0, 0, block, plan);
    assert_eq!(drawer.find_offset("ruby"), Some(0));
    assert_eq!(drawer.find_offset("lnk_ruby"), None);
}

fn record_write(text: &str, offset: u64) -> RecordWrite {
    RecordWrite {
        record: json(text),
        offset,
        block: DataBlockIndexEntry::live(text.as_bytes(), 64),
        file_len: offset,
        old_payload: None,
    }
}

#[test]
fn written_records_are_read_back() {
    let mut drawer = empty_drawer(&["name"]);
    let mut records: StoredRecords = OffsetMap::new();
    let ruby = r#"{"_id": "ruby", "name": "Ruby"}"#;
    let opal = r#"{"_id": "opal", "name": "Opal"}"#;
    let done = drawer
        .upsert_record(&mut records, record_write(ruby, 0), None)
        .expect("the record should be written");
    assert!(done.is_new);
    drawer
        .upsert_record(&mut records, record_write(opal, 64), None)
        .expect("the record should be written");
    assert_eq!(drawer.find_by_primary_key(&records, "ruby"), Some(&json(ruby)));
    assert_eq!(drawer.find_by_primary_key(&records, "opal"), Some(&json(opal)));
    assert_eq!(drawer.find_by_primary_key(&records, "jade"), None);
    assert_eq!(drawer.find_all_records(&records), vec![json(ruby), json(opal)]);

    let rubin = r#"{"_id": "ruby", "name": "Rubin"}"#;
    let again = drawer
        .upsert_record(&mut records, record_write(rubin, 128), None)
        .expect("the record should be replaced");
    assert!(!again.is_new);
    assert_eq!(again.effects.freed, Some((64, 0)));
    assert_eq!(drawer.find_by_primary_key(&records, "ruby"), Some(&json(rubin)));
    assert_eq!(drawer.find_all_records(&records), vec![json(opal), json(rubin)]);
}

#[test]
fn refused_records_change_nothing() {
    let mut drawer = empty_drawer(&["name"]);
    let mut records: StoredRecords = OffsetMap::new();
    let ruby = r#"{"_id": "ruby", "name": "Ruby"}"#;
    assert!(drawer.upsert_record(&mut records, record_write(ruby, 0), None).is_ok());
    let rival = record_write(r#"{"_id": "rival", "name": "Ruby"}"#, 64);
    match drawer.upsert_record(&mut records, rival, None) {
        Err(problem) => assert_eq!(
            problem,
            "Unique constraint violation: Field 'name' with value 'Ruby' already exists"
        ),
        Ok(_) => panic!("the value is taken"),
    }
    let high = record_write(r#"{"_id": "high"}"#, 64);
    let found = Some("$.power must be less than or equal to 9".to_string());
    match drawer.upsert_record(&mut records, high, found) {
        Err(problem) => assert_eq!(problem, "$.power must be less than or equal to 9"),
        Ok(_) => panic!("a comparison does not hold"),
    }
    assert_eq!(drawer.find_all_records(&records), vec![json(ruby)]);
    assert_eq!(drawer.record_count(), 1);
}

#[test]
fn deleted_records_are_not_read() {
    let mut drawer = empty_drawer(&["name"]);
    let mut records: StoredRecords = OffsetMap::new();
    let ruby = r#"{"_id": "ruby", "name": "Ruby"}"#;
    let opal = r#"{"_id": "opal", "name": "Opal"}"#;
    assert!(drawer.upsert_record(&mut records, record_write(ruby, 0), None).is_ok());
    assert!(drawer.upsert_record(&mut records, record_write(opal, 64), None).is_ok());
    let gone = drawer.delete_by_primary_key(&mut records, "ruby", 128, None);
    assert_eq!(gone.record, Some(json(ruby)));
    assert!(gone.effects.is_some());
    assert_eq!(drawer.find_by_primary_key(&records, "ruby"), None);
    assert_eq!(drawer.find_all_records(&records), vec![json(opal)]);
    assert_eq!(drawer.record_count(), 1);
    let nothing = drawer.delete_by_primary_key(&mut records, "ruby", 128, None);
    assert!(nothing.record.is_none());
    assert!(nothing.effects.is_none());
}

#[test]
fn accepted_batches_are_read_back() {
    let mut drawer = empty_drawer(&["name"]);
    let mut records: StoredRecords = OffsetMap::new();
    let a = r#"{"_id": "a", "name": "A"}"#;
    let b = r#"{"_id": "b", "name": "B"}"#;
    let done = drawer.upsert_records_atomic(
        &mut records,
        vec![record_write(a, 0), record_write(b, 64)],
        None,
    );
    assert_eq!(done.effects.len(), 2);
    assert!(matches!(done.outcome, Ok(Some(_))));
    assert_eq!(drawer.find_by_primary_key(&records, "a"), Some(&json(a)));
    assert_eq!(drawer.find_by_primary_key(&records, "b"), Some(&json(b)));

    let refused = drawer.upsert_records_atomic(
        &mut records,
        vec![
            record_write(r#"{"_id": "c", "name": "C"}"#, 128),
            record_write(r#"{"_id": "d", "name": "A"}"#, 192),
        ],
        None,
    );
    assert!(refused.effects.is_empty());
    assert!(refused.outcome.is_err());
    assert_eq!(drawer.find_by_primary_key(&records, "c"), None);
    assert_eq!(drawer.record_count(), 2);
}

fn outdated_drawer() -> Drawer {
    let metadata = DrawerMetadata { format_version: 0, ..DrawerMetadata::fresh() };
    Drawer::open("gem", "_id", Vec::new(), Some(metadata), &Vec::new(), 0).drawer
}

fn migration_write(payload: &[u8], offset: u64) -> MigrationWrite {
    MigrationWrite {
        payload: payload.to_vec(),
        offset,
        size_class: 128,
        file_len: 64,
        old_payload: b"old".to_vec(),
    }
}

#[test]
fn outdated_records_are_stored_anew_when_they_are_read() {
    let mut drawer = outdated_drawer();
    assert!(drawer.needs_format_migration());
    let old = r#"{"_id": "lnk_ruby", "friend": "@gem:lnk_opal"}"#;
    let new = r#"{"_id": "ruby", "friend": "@gem:opal"}"#;
    write(&mut drawer, "lnk_ruby", None, &json(old), 0);
    let mut records = stored(&[(0, old)]);
    let read = drawer
        .find_by_primary_key_with_migration(&mut records, "lnk_ruby", &migration_write(b"new", 64))
        .expect("the record should be read");
    assert_eq!(read.record, Some(json(new)));
    assert_eq!(read.freed, None);
    assert!(read.effects.expect("the record was stored anew").buries_entry);
    assert_eq!(drawer.find_by_primary_key(&records, "ruby"), Some(&json(new)));
    assert_eq!(drawer.find_by_primary_key(&records, "lnk_ruby"), None);
    assert!(!drawer.needs_format_migration());
}

#[test]
fn outdated_records_move_where_they_do_not_fit() {
    let mut drawer = outdated_drawer();
    let old = r#"{"_id": "lnk_ruby"}"#;
    write(&mut drawer, "lnk_ruby", None, &json(old), 0);
    let mut records = stored(&[(0, old)]);
    let read = drawer
        .find_by_primary_key_with_migration(&mut records, "lnk_ruby", &migration_write(&[7; 65], 64))
        .expect("the record should be read");
    assert_eq!(read.freed, Some((64, 0)));
    assert_eq!(drawer.find_offset("ruby"), Some(64));
    assert_eq!(drawer.find_by_primary_key(&records, "ruby"), Some(&json(r#"{"_id": "ruby"}"#)));
    let missing = drawer
        .find_by_primary_key_with_migration(&mut records, "opal", &migration_write(b"new", 64))
        .expect("nothing is there");
    assert!(missing.record.is_none());
}

/// An index file of slots of one size, kept as the effects of changes ask for.
struct IndexFile {
    file: Vec<IndexSlot>,
    slots: IndexSlots,
}

impl IndexFile {
    fn carry_out(&mut self, effects: &DrawerEffects) {
        let mut free: Vec<usize> =
            (0..self.file.len()).filter(|i| self.file[*i].is_dead).collect();
        let mut places = Vec::new();
        for _ in &effects.index_logs {
            let at = match free.pop() {
                Some(at) => at,
                None => {
                    let offset = 64 * self.file.len() as u64;
                    self.file.push(IndexSlot { offset, is_dead: true, entry: None });
                    self.file.len() - 1
                }
            };
            places.push((64 * at as u64, 64usize));
        }
        for (offset, _) in self.slots.note_effects("_id", effects, &places) {
            let slot = &mut self.file[(offset / 64) as usize];
            slot.is_dead = true;
            slot.entry = None;
        }
        for (log, (offset, _)) in effects.index_logs.iter().zip(&places) {
            let slot = &mut self.file[(offset / 64) as usize];
            slot.is_dead = false;
            slot.entry = Some(index_entry_value(log));
        }
    }

    fn reopen(&self) -> Drawer {
        let len = 64 * self.file.len() as u64;
        Drawer::open("gem", "_id", vec!["name".to_string()], None, &self.file, len).drawer
    }
}

#[test]
fn records_survive_reopening() {
    let mut drawer = empty_drawer(&["name"]);
    let mut records: StoredRecords = OffsetMap::new();
    let mut file = IndexFile { file: Vec::new(), slots: IndexSlots::new() };
    let ruby = r#"{"_id": "ruby", "name": "Ruby"}"#;
    let opal = r#"{"_id": "opal", "name": "Opal"}"#;
    let rubin = r#"{"_id": "ruby", "name": "Rubin"}"#;
    let jade = r#"{"_id": "jade", "name": "Ruby"}"#;
    for (text, offset) in [(ruby, 0), (opal, 64), (rubin, 128), (jade, 192)] {
        let done = drawer
            .upsert_record(&mut records, record_write(text, offset), None)
            .expect("the record should be written");
        file.carry_out(&done.effects);
    }
    let gone = drawer.delete_by_primary_key(&mut records, "opal", 256, None);
    let effects = gone.effects.expect("the record was there");
    assert_eq!(effects.buried.as_deref(), Some("opal"));
    file.carry_out(&effects);

    let again = file.reopen();
    assert_eq!(again.record_count(), drawer.record_count());
    assert_eq!(again.find_offset("opal"), None);
    for key in ["ruby", "opal", "jade"] {
        assert_eq!(
            again.find_by_primary_key(&records, key),
            drawer.find_by_primary_key(&records, key)
        );
    }
    assert!(!again.unique_value_taken(&json(r#"{"name": "Opal"}"#), None, "name"));
    assert!(again.unique_value_taken(&json(r#"{"name": "Rubin"}"#), None, "name"));

    let emerald = r#"{"_id": "emerald", "name": "Opal"}"#;
    let done = drawer
        .upsert_record(&mut records, record_write(emerald, 64), None)
        .expect("the record should be written");
    let before = file.file.len();
    file.carry_out(&done.effects);
    assert_eq!(file.file.len(), before);
    let again = file.reopen();
    assert_eq!(again.find_by_primary_key(&records, "emerald"), Some(&json(emerald)));
    assert_eq!(again.find_by_primary_key(&records, "opal"), None);
    assert_eq!(again.record_count(), 3);
}

#[test]
fn compacted_drawers_read_the_same_records() {
    let mut drawer = empty_drawer(&["name"]);
    let mut records: StoredRecords = OffsetMap::new();
    let ruby = r#"{"_id": "ruby", "name": "Ruby"}"#;
    let opal = r#"{"_id": "opal", "name": "Opal"}"#;
    for (text, offset) in [(ruby, 640), (opal, 64)] {
        drawer
            .upsert_record(&mut records, record_write(text, offset), None)
            .expect("the record should be written");
    }
    let live: Vec<LiveRecord> = drawer
        .find_all_records(&records)
        .into_iter()
        .map(|record| LiveRecord { record, payload: b"payload".to_vec() })
        .collect();
    let plan = drawer.vacuum(&live).expect("the drawer should be packed");
    let packed = stored(&[(0, opal), (7, ruby)]);
    let slots: Vec<IndexSlot> = plan
        .index_logs
        .iter()
        .enumerate()
        .map(|(i, log)| IndexSlot {
            offset: 64 * i as u64,
            is_dead: false,
            entry: Some(index_entry_value(log)),
        })
        .collect();
    let len = 64 * slots.len() as u64;
    let again = Drawer::open("gem", "_id", vec!["name".to_string()], None, &slots, len).drawer;
    assert_eq!(again.find_by_primary_key(&packed, "ruby"), Some(&json(ruby)));
    assert_eq!(again.record_count(), 2);
    assert!(again.unique_value_taken(&json(r#"{"name": "Opal"}"#), None, "name"));
    assert_eq!(drawer.find_by_primary_key(&packed, "ruby"), Some(&json(ruby)));
    assert_eq!(drawer.find_by_primary_key(&packed, "opal"), Some(&json(opal)));
    assert_eq!(drawer.find_by_primary_key(&packed, "jade"), None);
}

fn outdated_pair() -> (Drawer, StoredRecords) {
    let mut drawer = outdated_drawer();
    let (ruby, opal) = (r#"{"_id": "lnk_ruby"}"#, r#"{"_id": "lnk_opal"}"#);
    write(&mut drawer, "lnk_ruby", None, &json(ruby), 0);
    write(&mut drawer, "lnk_opal", None, &json(opal), 64);
    (drawer, stored(&[(0, ruby), (64, opal)]))
}

fn migration_writes(offsets: &[u64]) -> MigrationWrites {
    let mut writes: MigrationWrites = OffsetMap::new();
    for offset in offsets {
        writes.insert(*offset, migration_write(b"new", 256 + offset));
    }
    writes
}

#[test]
fn reading_all_records_stores_the_first_outdated_one_anew() {
    let (mut drawer, mut records) = outdated_pair();
    let writes = migration_writes(&[0, 64]);
    let read = drawer.find_all_records_with_migration(&mut records, &writes);
    assert_eq!(
        read.outcome,
        Ok(vec![json(r#"{"_id": "ruby"}"#), json(r#"{"_id": "lnk_opal"}"#)])
    );
    assert_eq!(read.reads.len(), 2);
    assert!(read.reads[0].effects.is_some());
    assert!(read.reads[1].effects.is_none());
    assert!(!drawer.needs_format_migration());
    let again = drawer.find_all_records_with_migration(&mut records, &OffsetMap::new());
    assert!(again.reads.is_empty());
    assert_eq!(again.outcome.map(|found| found.len()), Ok(2));
}

#[test]
fn migrated_drawers_are_packed() {
    let (mut drawer, mut records) = outdated_pair();
    let writes = migration_writes(&[0, 64]);
    let live = vec![
        LiveRecord { record: json(r#"{"_id": "ruby"}"#), payload: b"first".to_vec() },
        LiveRecord { record: json(r#"{"_id": "lnk_opal"}"#), payload: b"second".to_vec() },
    ];
    let run = drawer.migrate_all_records(&mut records, &writes, &live);
    let plan = run.outcome.expect("the drawer should be packed");
    assert_eq!(plan.data, b"firstsecond".to_vec());
    assert_eq!(plan.index_logs.len(), 2);
    assert_eq!(drawer.find_offset("ruby"), Some(0));
    assert_eq!(drawer.find_offset("lnk_opal"), Some(5));
    assert!(!drawer.needs_format_migration());
}

#[test]
fn a_failed_migration_packs_nothing() {
    let mut drawer = outdated_drawer();
    write(&mut drawer, "lnk_ruby", None, &json(r#"{"_id": "lnk_ruby"}"#), 0);
    let mut records = stored(&[(0, r#"{"friend": "@gem:lnk_opal"}"#)]);
    let live = Vec::new();
    let writes = migration_writes(&[0]);
    let run = drawer.migrate_all_records(&mut records, &writes, &live);
    let error = match run.outcome {
        Err(error) => error,
        Ok(_) => panic!("the record cannot be stored anew"),
    };
    assert_eq!(error.kind, ErrorKind::InvalidData);
    assert_eq!(
        error.message,
        "Cannot migrate legacy record without primary key field: _id"
    );
    assert!(run.reads.is_empty());
    assert_eq!(drawer.find_offset("lnk_ruby"), Some(0));
    assert!(drawer.needs_format_migration());

    let mut present = empty_drawer(&[]);
    let keyless = vec![LiveRecord { record: json("{}"), payload: b"x".to_vec() }];
    let run = present.migrate_all_records(&mut stored(&[]), &OffsetMap::new(), &keyless);
    assert_eq!(
        run.outcome.err().map(|error| error.message),
        Some("Missing primary key field: _id".to_string())
    );
}

#[test]
fn freed_slots_are_taken_before_the_end() {
    let mut space = SlotSpace::new(128);
    assert_eq!(space.next_slot(64), 128);
    assert_eq!(space.take(64), 128);
    assert_eq!(space.end, 192);
    space.give_back(Some((64, 0)));
    space.give_back(None);
    space.give_back(Some((64, 128)));
    assert_eq!(space.next_slot(64), 128);
    assert_eq!(space.next_slot(32), 192);
    assert_eq!(space.take_all(&vec![64, 32, 64, 64]), vec![(128, 64), (192, 32), (0, 64), (224, 64)]);
    assert_eq!(space, SlotSpace { free: Vec::new(), end: 288 });
    assert!(space.has_room(&vec![64, 64]));
    assert!(!SlotSpace::new(u64::MAX - 64).has_room(&vec![64, 1]));
}

/// The files of a drawer, with slots of one size.
struct SlotFiles {
    space: DrawerSpace,
    entries: Vec<IndexSlot>,
    rows: Vec<(u64, bool)>,
}

impl SlotFiles {
    fn carry_out(&mut self, effects: &DrawerEffects, written: Option<u64>) {
        let sizes = vec![64; effects.index_logs.len()];
        let done = self.space.carry_out("_id", effects, written.map(|_| 64), &sizes);
        for (offset, _) in done.stale {
            let slot = &mut self.entries[(offset / 64) as usize];
            slot.is_dead = true;
            slot.entry = None;
        }
        for (log, (offset, _)) in effects.index_logs.iter().zip(&done.places) {
            let slot = IndexSlot {
                offset: *offset,
                is_dead: false,
                entry: Some(index_entry_value(log)),
            };
            let at = (*offset / 64) as usize;
            if at < self.entries.len() {
                self.entries[at] = slot;
            } else {
                self.entries.push(slot);
            }
        }
        if let Some(offset) = written {
            let at = (offset / 64) as usize;
            if at < self.rows.len() {
                self.rows[at] = (offset, false);
            } else {
                self.rows.push((offset, false));
            }
        }
        if let Some((_, offset)) = effects.freed {
            self.rows[(offset / 64) as usize] = (offset, true);
        }
    }

    fn upsert(&mut self, drawer: &mut Drawer, records: &mut StoredRecords, text: &str) -> u64 {
        let offset = self.space.data.next_slot(64);
        let done = drawer
            .upsert_record(records, record_write(text, offset), None)
            .expect("the record should be written");
        self.carry_out(&done.effects, Some(offset));
        offset
    }

    fn reopen(&mut self) -> Drawer {
        let index_len = 64 * self.entries.len() as u64;
        let data_len = 64 * self.rows.len() as u64;
        let opened =
            Drawer::open("gem", "_id", vec!["name".to_string()], None, &self.entries, index_len);
        assert!(opened.tombstones.is_empty());
        let held: Vec<JsonValue> = self
            .entries
            .iter()
            .filter_map(|slot| slot.entry.as_ref().map(|entry| entry.clone()))
            .collect();
        self.space = DrawerSpace {
            slots: opened.slots,
            data: SlotSpace {
                free: recyclable_data_slots(&held, &self.rows, data_len),
                end: data_len,
            },
            index: SlotSpace { free: opened.free, end: index_len },
        };
        opened.drawer
    }
}

#[test]
fn records_survive_several_sessions() {
    let mut drawer = empty_drawer(&["name"]);
    let mut records: StoredRecords = OffsetMap::new();
    let mut files = SlotFiles {
        space: DrawerSpace {
            slots: IndexSlots::new(),
            data: SlotSpace::new(0),
            index: SlotSpace::new(0),
        },
        entries: Vec::new(),
        rows: Vec::new(),
    };
    let ruby = r#"{"_id": "ruby", "name": "Ruby"}"#;
    let opal = r#"{"_id": "opal", "name": "Opal"}"#;
    let rubin = r#"{"_id": "ruby", "name": "Rubin"}"#;
    let jade = r#"{"_id": "jade", "name": "Ruby"}"#;
    assert_eq!(files.upsert(&mut drawer, &mut records, ruby), 0);
    assert_eq!(files.upsert(&mut drawer, &mut records, opal), 64);
    assert_eq!(files.upsert(&mut drawer, &mut records, rubin), 128);
    assert_eq!(files.upsert(&mut drawer, &mut records, jade), 0);
    let gone = drawer.delete_by_primary_key(&mut records, "opal", 192, None);
    files.carry_out(&gone.effects.expect("the record was there"), None);

    let mut drawer = files.reopen();
    assert_eq!(drawer.record_count(), 2);
    assert_eq!(drawer.find_by_primary_key(&records, "opal"), None);
    assert_eq!(drawer.find_by_primary_key(&records, "ruby"), Some(&json(rubin)));
    assert_eq!(files.space.data.free, vec![(64, 64)]);
    assert_eq!(files.upsert(&mut drawer, &mut records, opal), 64);
    let gone = drawer.delete_by_primary_key(&mut records, "jade", 192, None);
    files.carry_out(&gone.effects.expect("the record was there"), None);

    let drawer = files.reopen();
    assert_eq!(drawer.record_count(), 2);
    assert_eq!(drawer.find_by_primary_key(&records, "jade"), None);
    assert_eq!(drawer.find_by_primary_key(&records, "ruby"), Some(&json(rubin)));
    assert_eq!(drawer.find_by_primary_key(&records, "opal"), Some(&json(opal)));
}

#[test]
fn records_are_found_by_the_values_of_indexed_fields() {
    let mut drawer = empty_drawer(&["name"]);
    let ruby = r#"{"_id": "ruby", "name": "Ruby", "color": "red"}"#;
    let opal = r#"{"_id": "opal", "name": "Opal", "color": "white"}"#;
    write(&mut drawer, "ruby", None, &json(ruby), 0);
    write(&mut drawer, "opal", None, &json(opal), 64);
    let mut records = stored(&[(0, ruby), (64, opal)]);
    let slots = IndexSlots::new();
    let none: MigrationWrites = OffsetMap::new();
    let found = drawer.find_by_secondary_key(&mut records, &slots, "name", "Opal", &none);
    assert_eq!(found.outcome, Ok(vec![json(opal)]));
    assert!(!found.persist);
    let missing = drawer.find_by_secondary_key(&mut records, &slots, "color", "red", &none);
    assert_eq!(missing.outcome, Ok(Vec::new()));
    drawer
        .manage_schema_rule(&records, &slots, "add", "index", "color", json(r#"{"type": "hash"}"#))
        .expect("the index should be added");
    let scanned = drawer.find_by_secondary_key(&mut records, &slots, "color", "red", &none);
    assert!(scanned.persist);
    assert_eq!(scanned.outcome, Ok(vec![json(ruby)]));
    let indexed = drawer.find_by_secondary_key(&mut records, &slots, "color", "red", &none);
    assert!(!indexed.persist);
    assert_eq!(indexed.outcome, Ok(vec![json(ruby)]));

    let mut filter: TextMap<JsonValue> = TextMap::new();
    let all = drawer.records_for_filter(&mut records, &slots, &filter, &none);
    assert_eq!(all.outcome, Ok(vec![json(ruby), json(opal)]));
    filter.insert("color".to_string(), json(r#""white""#));
    let some = drawer.records_for_filter(&mut records, &slots, &filter, &none);
    assert_eq!(some.outcome, Ok(vec![json(opal)]));
}

#[test]
fn outdated_records_are_stored_anew_when_they_are_found_by_a_value() {
    let metadata = DrawerMetadata { format_version: 0, ..DrawerMetadata::fresh() };
    let unique = vec!["name".to_string()];
    let mut drawer = Drawer::open("gem", "_id", unique, Some(metadata), &Vec::new(), 0).drawer;
    let old = r#"{"_id": "lnk_ruby", "name": "Ruby"}"#;
    write(&mut drawer, "lnk_ruby", None, &json(old), 0);
    let mut records = stored(&[(0, old)]);
    let found = drawer.find_by_secondary_key(
        &mut records,
        &IndexSlots::new(),
        "name",
        "Ruby",
        &migration_writes(&[0]),
    );
    assert_eq!(found.outcome, Ok(vec![json(r#"{"_id": "ruby", "name": "Ruby"}"#)]));
    assert_eq!(found.reads.len(), 1);
    assert_eq!(drawer.find_offset("ruby"), Some(0));
    assert!(!drawer.needs_format_migration());
}
