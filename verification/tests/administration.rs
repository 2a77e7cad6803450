use wardrobe::access_control::{
    manage_user, parse_permission_scope, permission_payload_scope, read_access_control_registry,
    user_payload_username,
};
use wardrobe::deletion::{
    primary_key_from_record_for_delete, DeleteAction, Deletion, InverseDeleteRule, RecordChange,
    StoredDrawer,
};
use wardrobe::drawer::replay::DrawerMetadata;
use wardrobe::drawer::Drawer;
use wardrobe::engine::outcomes::delete_pointers;
use wardrobe::error::ErrorKind;
use wardrobe::fields::TextMap;
use wardrobe::value::{parse_json, JsonValue};

fn json(text: &str) -> JsonValue {
    parse_json(text.as_bytes()).expect("text should be JSON")
}

#[test]
fn permission_scopes_are_normalized() {
    assert_eq!(parse_permission_scope("armory/bay:rd"), Ok("armory/bay:rd".to_string()));
    assert_eq!(
        parse_permission_scope("armory").unwrap_err().message,
        "permission scope must use <path>:<rights>"
    );
    assert_eq!(
        parse_permission_scope("armory:x").unwrap_err().message,
        "permission rights must contain only r, u, d, or i"
    );
    assert_eq!(
        parse_permission_scope("armory:rr").unwrap_err().message,
        "permission right 'r' cannot be repeated"
    );
    assert_eq!(
        permission_payload_scope(&json(r#"{"permission_scope": "armory:r"}"#)),
        Ok("armory:r".to_string())
    );
    assert_eq!(
        user_payload_username(&json(r#"{"username": "alice"}"#)),
        Ok("alice".to_string())
    );
    assert!(user_payload_username(&json("{}")).is_err());
}

#[test]
fn granted_permissions_are_held() {
    let start = read_access_control_registry(None).expect("no file is an empty registry");
    let (registry, _) =
        manage_user(start, "create_user", json(r#"{"username": "alice"}"#)).expect("created");
    let (registry, _) =
        manage_user(registry, "create_user", json(r#"{"username": "bob"}"#)).expect("created");
    let grant = || json(r#"{"username": "alice", "permission_scope": "armory:r"}"#);
    let (registry, _) =
        manage_user(registry, "grant_permission", grant()).expect("granted");
    let alice = registry.get("users").and_then(|users| users.get("alice")).expect("alice");
    let held = alice.get("permissions").and_then(|p| p.as_array()).expect("permissions");
    assert!(held.contains(&json(r#""armory:r""#)));
    let bob = registry.get("users").and_then(|users| users.get("bob")).expect("bob");
    assert!(!bob
        .get("permissions")
        .and_then(|p| p.as_array())
        .map(|all| all.contains(&json(r#""armory:r""#)))
        .unwrap_or(false));

    let (registry, _) = manage_user(registry, "revoke_permission", grant()).expect("revoked");
    let alice = registry.get("users").and_then(|users| users.get("alice")).expect("alice");
    let held = alice.get("permissions").and_then(|p| p.as_array()).expect("permissions");
    assert!(!held.contains(&json(r#""armory:r""#)));
}

#[test]
fn dropped_users_are_gone() {
    let registry = json(
        r#"{"users": {"alice": {"username": "alice"}, "bob": {"username": "bob"}}, "operations": []}"#,
    );
    let (registry, reply) = manage_user(registry, "drop_user", json(r#"{"username": "alice"}"#))
        .expect("the user should be dropped");
    assert_eq!(reply, json(r#"{"ok": true, "action": "drop_user", "username": "alice"}"#));
    let users = registry.get("users").expect("users");
    assert!(users.get("alice").is_none());
    assert!(users.get("bob").is_some());
    assert_eq!(registry.get("operations"), Some(&json("[]")));

    let granted = json(r#"{"username": "alice", "permission_scope": "armory:r"}"#);
    let (registry, _) = manage_user(registry, "grant_permission", granted).expect("granted");
    let (registry, _) =
        manage_user(registry, "DROP-USER", json(r#"{"user": " alice "}"#)).expect("dropped");
    assert!(registry.get("users").and_then(|users| users.get("alice")).is_none());

    let refused = manage_user(registry, "drop_user", json("{}")).unwrap_err();
    assert_eq!(refused.kind(), ErrorKind::InvalidInput);
    assert_eq!(refused.message, "user admin payload requires a non-empty username");
}

#[test]
fn kept_scopes_are_parsed_to_themselves() {
    let kept = parse_permission_scope(" armory/bay/gem : RdU ").expect("the scope is well-formed");
    assert_eq!(kept, "armory/bay/gem:rdu");
    assert_eq!(parse_permission_scope(&kept), Ok(kept.clone()));
}

#[test]
fn other_actions_on_users_are_noted() {
    let start = read_access_control_registry(None).unwrap();
    let (registry, reply) = manage_user(start, "Lock-User", json(r#"{"user": "alice"}"#))
        .expect("the action should be noted");
    assert_eq!(reply, json(r#"{"ok": true, "action": "Lock-User", "username": "alice"}"#));
    let noted = registry.get("operations").and_then(|all| all.as_array()).expect("operations");
    assert_eq!(
        noted[0],
        json(
            r#"{
                "action": "Lock-User",
                "username": "alice",
                "payload": {"user": "alice"}
            }"#
        )
    );
    assert_eq!(
        read_access_control_registry(Some(b"{")).unwrap_err().kind(),
        ErrorKind::InvalidData
    );
}

fn drawer(records: &[(&str, &str)], cascades: &[&str], rules: Vec<InverseDeleteRule>) -> StoredDrawer {
    let mut held: TextMap<JsonValue> = TextMap::new();
    for (key, record) in records {
        held.insert(key.to_string(), json(record));
    }
    StoredDrawer {
        drawer: Drawer::open("drawer", "_id", Vec::new(), None, &Vec::new(), 0).drawer,
        records: held,
        numeric_problems: TextMap::new(),
        cascade_fields: cascades.iter().map(|c| c.to_string()).collect(),
        rules,
    }
}

fn rule(action: DeleteAction) -> InverseDeleteRule {
    InverseDeleteRule {
        target_drawer: "ring".to_string(),
        mapped_by: "stone".to_string(),
        action,
    }
}

fn gems_and_rings(action: DeleteAction) -> Deletion {
    let mut drawers: TextMap<StoredDrawer> = TextMap::new();
    drawers.insert(
        "gem".to_string(),
        drawer(&[("ruby", r#"{"_id": "ruby"}"#)], &[], vec![rule(action)]),
    );
    drawers.insert(
        "ring".to_string(),
        drawer(
            &[
                ("one", r#"{"_id": "one", "stone": "@gem:ruby"}"#),
                ("two", r#"{"_id": "two", "stone": "@gem:opal"}"#),
            ],
            &[],
            Vec::new(),
        ),
    );
    Deletion::new(drawers)
}

fn record<'a>(deletion: &'a Deletion, drawer: &str, key: &str) -> Option<&'a JsonValue> {
    deletion.drawers.get(drawer).and_then(|held| held.records.get(key))
}

#[test]
fn deleted_records_are_gone() {
    let mut deletion = gems_and_rings(DeleteAction::Cascade);
    assert_eq!(deletion.delete_by_id_in_database_unlogged("@gem:ruby"), Ok(true));
    assert!(record(&deletion, "gem", "ruby").is_none());
    assert!(record(&deletion, "ring", "one").is_none());
    assert!(record(&deletion, "ring", "two").is_some());
    assert!(deletion.changes.contains(&RecordChange::Delete {
        drawer: "gem".to_string(),
        key: "ruby".to_string()
    }));
}

#[test]
fn restricted_records_stay() {
    let mut deletion = gems_and_rings(DeleteAction::Restrict);
    let refused = deletion
        .delete_by_id_in_database_unlogged("@gem:ruby")
        .expect_err("a ring refers to the gem");
    assert_eq!(refused.kind(), ErrorKind::InvalidInput);
    assert!(record(&deletion, "gem", "ruby").is_some());
    assert!(deletion.changes.is_empty());
}

#[test]
fn references_are_emptied_where_the_rule_says_so() {
    let mut deletion = gems_and_rings(DeleteAction::SetNull);
    assert_eq!(deletion.delete_by_id_in_database_unlogged("@gem:ruby"), Ok(true));
    let ring = record(&deletion, "ring", "one").expect("the ring stays");
    assert_eq!(ring.get("stone"), Some(&JsonValue::Null));
}

#[test]
fn missing_records_delete_nothing() {
    let mut deletion = gems_and_rings(DeleteAction::Cascade);
    assert_eq!(deletion.delete_by_id_in_database_unlogged("@gem:opal"), Ok(false));
    assert!(deletion.changes.is_empty());
    assert!(deletion.delete_by_id_in_database_unlogged("opal").is_err());
}

#[test]
fn filtered_records_are_deleted_one_by_one() {
    let mut deletion = gems_and_rings(DeleteAction::Cascade);
    let found = vec![
        json(r#"{"_id": "one", "stone": "@gem:ruby"}"#),
        json(r#"{"_id": "two", "stone": "@gem:opal"}"#),
    ];
    assert_eq!(deletion.delete_by_filter_in_database_unlogged("ring", &found), Ok(2));
    assert!(record(&deletion, "ring", "one").is_none());
    assert_eq!(
        primary_key_from_record_for_delete(&json(r#"{"_id": "@ring:lnk_one"}"#)),
        Ok("one".to_string())
    );
    assert_eq!(
        primary_key_from_record_for_delete(&json(r#"{"_id": "two"}"#)),
        Ok("two".to_string())
    );
    let refused = primary_key_from_record_for_delete(&json("{}")).unwrap_err();
    assert_eq!(refused.kind(), ErrorKind::InvalidData);
    assert_eq!(refused.message, "record is missing a string _id for delete");
}

#[test]
fn cascades_end_where_records_refer_to_each_other() {
    let mut drawers: TextMap<StoredDrawer> = TextMap::new();
    drawers.insert(
        "a".to_string(),
        drawer(&[("x", r#"{"_id": "x", "other": "@b:y"}"#)], &["other"], Vec::new()),
    );
    drawers.insert(
        "b".to_string(),
        drawer(&[("y", r#"{"_id": "y", "other": "@a:x"}"#)], &["other"], Vec::new()),
    );
    let mut deletion = Deletion::new(drawers);
    assert_eq!(deletion.delete_by_id_in_database_unlogged("@a:x"), Ok(true));
    assert!(record(&deletion, "a", "x").is_none());
    assert!(record(&deletion, "b", "y").is_none());
}

fn guarded_rings(schema: &str, unique: &[&str], numeric: &[(&str, &str)]) -> Deletion {
    let mut deletion = gems_and_rings(DeleteAction::SetNull);
    let metadata = DrawerMetadata { schema: Some(json(schema)), ..DrawerMetadata::fresh() };
    let unique = unique.iter().map(|field| field.to_string()).collect();
    let mut rings = drawer(
        &[
            ("one", r#"{"_id": "one", "stone": ["@gem:ruby", "@gem:opal"]}"#),
            ("three", r#"{"_id": "three", "stone": "@gem:ruby"}"#),
            ("two", r#"{"_id": "two", "stone": "@gem:opal"}"#),
        ],
        &[],
        Vec::new(),
    );
    rings.drawer = Drawer::open("ring", "_id", unique, Some(metadata), &Vec::new(), 0).drawer;
    for (key, problem) in numeric {
        rings.numeric_problems.insert(key.to_string(), problem.to_string());
    }
    deletion.drawers.insert("ring".to_string(), rings);
    deletion
}

#[test]
fn refused_references_keep_the_record() {
    let schema = r#"{"properties": {"stone": {"type": ["string", "array"]}}}"#;
    let mut deletion = guarded_rings(schema, &[], &[]);
    let refused = deletion
        .delete_by_id_in_database_unlogged("@gem:ruby")
        .expect_err("a ring may not be without a stone");
    assert_eq!(refused.kind(), ErrorKind::InvalidData);
    assert!(record(&deletion, "gem", "ruby").is_some());
    let three = record(&deletion, "ring", "three").expect("the ring stays");
    assert_eq!(three.get_str("stone"), Some("@gem:ruby"));
    let one = record(&deletion, "ring", "one").expect("the ring stays");
    assert_eq!(one.get("stone"), Some(&json(r#"["@gem:opal"]"#)));
    assert_eq!(deletion.changes.len(), 1);

    let mut deletion = guarded_rings("{}", &[], &[("one", "$.size must be less than 9")]);
    let refused = deletion.delete_by_id_in_database_unlogged("@gem:ruby").unwrap_err();
    assert_eq!(refused.message, "$.size must be less than 9");
    assert!(deletion.changes.is_empty());

    let mut deletion = guarded_rings("{}", &[], &[]);
    assert_eq!(deletion.delete_by_id_in_database_unlogged("@gem:ruby"), Ok(true));
    let three = record(&deletion, "ring", "three").expect("the ring stays");
    assert_eq!(three.get("stone"), Some(&JsonValue::Null));
    let one = record(&deletion, "ring", "one").expect("the ring stays");
    assert_eq!(one.get("stone"), Some(&json(r#"["@gem:opal"]"#)));
}

#[test]
fn writes_are_checked_among_the_records() {
    let deletion = guarded_rings("{}", &["stone"], &[]);
    let rings = deletion.drawers.get("ring").expect("rings");
    let rival = json(r#"{"_id": "four", "stone": "@gem:opal"}"#);
    assert_eq!(
        rings.drawer.check_write(&rings.records, None, &rival),
        Some("Unique constraint violation: Field 'stone' with value '@gem:opal' already exists"
            .to_string())
    );
    let own = json(r#"{"_id": "two", "stone": "@gem:opal"}"#);
    assert_eq!(rings.drawer.check_write(&rings.records, None, &own), None);
    assert_eq!(
        rings.drawer.check_write(&rings.records, None, &json("{}")),
        Some("Missing primary key field: _id".to_string())
    );
}

#[test]
fn several_pointers_are_deleted_up_to_the_first_failure() {
    let mut deletion = gems_and_rings(DeleteAction::SetNull);
    let pointers =
        vec!["@ring:two".to_string(), "@gem:opal".to_string(), "@gem:ruby".to_string()];
    let done = delete_pointers(&mut deletion, &pointers).expect("the records are deleted");
    assert_eq!(done.deleted, 2);
    assert!(record(&deletion, "gem", "ruby").is_none());

    let mut deletion = gems_and_rings(DeleteAction::Restrict);
    let pointers =
        vec!["@ring:two".to_string(), "@gem:ruby".to_string(), "@ring:one".to_string()];
    let refused = delete_pointers(&mut deletion, &pointers).expect_err("a ring refers to the gem");
    assert_eq!(refused.kind(), ErrorKind::InvalidInput);
    assert!(record(&deletion, "ring", "two").is_none());
    assert!(record(&deletion, "ring", "one").is_some());
}
