use wardrobe::catalog::backup::{
    backup_archive, clear_restore_target, collect_backup_archive_files, decoded_restore_files,
    drawer_files, ensure_path_is_under_root, restore_archive, restore_relative_path,
    structural_backup_target, validate_archive_relative_path, validate_archive_scope,
    validate_backup_archive_format, BackupScope, ClearAction,
};
use wardrobe::catalog::databases::{database_inventory_name, discover_databases, show_databases};
use wardrobe::catalog::diagnostics::{
    drawer_name_from_file_path, is_metadata_file, split_structural_path,
};
use wardrobe::catalog::discovery::{
    directory_has_database_layout, discover_schemas, discover_tenants, show_schemas, show_tenants,
};
use wardrobe::catalog::drawers::show_drawers;
use wardrobe::catalog::folder::{FileEntry, Folder};
use wardrobe::catalog::hex::{decode_hex, encode_hex, hex_value};
use wardrobe::catalog::inventory::{
    drawer_inventory, drawer_record_count_from_index, metadata_record_count, storage_inventory,
    Place,
};
use wardrobe::catalog::registry::{CatalogRegistry, CatalogTenantRoute};
use wardrobe::catalog::restored::{register_restored_catalog, CatalogCreation};
use wardrobe::catalog::validation::{
    catalog_location_path, database_path_from_name, validate_catalog_location,
    validate_database_name, validate_drawer_name, validate_schema_name,
    validate_storage_coordinate_component, validate_tenant_identifier,
};
use wardrobe::error::ErrorKind;
use wardrobe::value::{parse_json, JsonValue};

fn json(text: &str) -> JsonValue {
    parse_json(text.as_bytes()).expect("text should be JSON")
}

fn file(name: &str, bytes: &[u8]) -> FileEntry {
    FileEntry { name: name.to_string(), size: bytes.len() as u64, bytes: bytes.to_vec() }
}

fn folder(name: &str, files: Vec<FileEntry>, folders: Vec<Folder>) -> Folder {
    Folder { name: name.to_string(), files, folders }
}

fn gem_files() -> Vec<FileEntry> {
    vec![
        file("gem.drw", &[1, 2, 255]),
        file("gem_index.drw", &[9]),
        file("gem_meta.drw", br#"{"record_count": 4}"#),
    ]
}

#[test]
fn hex_is_read_back() {
    assert_eq!(encode_hex(&[0, 171, 255]), "00abff");
    assert_eq!(decode_hex("00abFF"), Ok(vec![0, 171, 255]));
    assert_eq!(decode_hex(&encode_hex(&[7, 8, 9])), Ok(vec![7, 8, 9]));
    assert_eq!(hex_value(0x66), Ok(15));
    assert_eq!(hex_value(0x67).unwrap_err().kind(), ErrorKind::InvalidData);
    let bytes = decode_hex("00abFF").expect("digits");
    assert_eq!(encode_hex(&bytes), "00abFF".to_ascii_lowercase());
    assert_eq!(2 * bytes.len(), "00abFF".len());
    assert!(decode_hex("abc").is_err());
    assert!(decode_hex("\u{e9}").is_err());
    assert!(decode_hex("zz").is_err());
}

#[test]
fn names_are_checked() {
    assert_eq!(validate_database_name("acme/db"), Ok(()));
    assert!(validate_database_name("../db").is_err());
    assert!(validate_database_name("").is_err());
    assert_eq!(validate_schema_name("public"), Ok(()));
    assert!(validate_schema_name("a/b").is_err());
    assert_eq!(validate_drawer_name("gem"), Ok(()));
    let refused = validate_drawer_name("gem_index").expect_err("the name belongs to an index");
    assert_eq!(refused.message, "Invalid drawer name: gem_index");
    assert!(validate_drawer_name("gem_meta").is_err());
    assert!(validate_tenant_identifier(".catalog").is_err());
    assert_eq!(validate_catalog_location("db/public"), Ok(()));
    assert!(validate_catalog_location("/db").is_err());
    assert_eq!(
        validate_storage_coordinate_component("tenant", "").unwrap_err().message,
        "Storage coordinate tenant cannot be empty"
    );
    assert!(validate_storage_coordinate_component("tenant", "a/b").is_err());
}

#[test]
fn names_lead_to_paths() {
    assert_eq!(catalog_location_path("/root", "db/public"), "/root/db/public");
    assert_eq!(database_path_from_name("/root", "acme/db"), Ok("/root/acme/db".to_string()));
    assert!(database_path_from_name("/root", "").is_err());
    assert!(database_path_from_name("/root", "../db").is_err());
    assert_eq!(database_inventory_name("/root", "/root/acme/db"), "acme/db");
}

#[test]
fn structural_paths_are_split() {
    assert_eq!(
        split_structural_path("db/public/gem", "path"),
        Ok(vec!["db".to_string(), "public".to_string(), "gem".to_string()])
    );
    assert_eq!(
        split_structural_path("db//gem", "path").unwrap_err().message,
        "Invalid path: db//gem"
    );
    assert_eq!(drawer_name_from_file_path("/root/db/gem.drw"), Some("gem".to_string()));
    assert_eq!(drawer_name_from_file_path("/root/db/gem_index.drw"), None);
    assert_eq!(drawer_name_from_file_path("/root/db/gem.txt"), None);
    assert!(is_metadata_file("/root/db/gem_meta.drw"));
    assert!(!is_metadata_file("/root/db/gem.drw"));
}

#[test]
fn backup_targets_name_their_place() {
    let target = structural_backup_target("/root", "db/public/gem", "backup path").unwrap();
    assert_eq!(target.scope, BackupScope::Drawer);
    assert_eq!(target.logical_path, "db/public/gem");
    assert_eq!(target.scope.as_str(), "drawer");
    assert_eq!(target.scope.expected_segments(), 3);
    let again = structural_backup_target("/root", &target.logical_path, "backup path").unwrap();
    assert_eq!(again.segments, target.segments);
    let bay = structural_backup_target("/root", "db/public", "backup path").unwrap();
    assert_eq!(bay.scope, BackupScope::Bay);
    assert_eq!(bay.storage_path, "/root/db/public");
    assert_eq!(
        structural_backup_target("/root", "a/b/c/d", "backup path").unwrap_err().message,
        "backup path must identify a wardrobe, bay, or drawer"
    );
    assert_eq!(BackupScope::from_segment_count(1, "path"), Ok(BackupScope::Wardrobe));
    assert!(BackupScope::from_segment_count(0, "path").is_err());
}

#[test]
fn backups_are_put_back() {
    let source = folder("public", gem_files(), Vec::new());
    let target = structural_backup_target("/root", "db/public/gem", "backup path").unwrap();
    let archive = backup_archive(target, Some(&source)).expect("backup should be made");
    assert_eq!(archive.format, "wardrobe-cli-backup-v1");
    assert_eq!(archive.scope, "drawer");
    assert_eq!(archive.files.len(), 3);
    assert_eq!(archive.files[0].bytes_hex, "0102ff");

    let plan = restore_archive("/root", "db/copy/stone", &archive).expect("restore is planned");
    assert_eq!(plan.report.file_count, 3);
    assert_eq!(plan.report.byte_count, 3 + 1 + br#"{"record_count": 4}"#.len());
    assert_eq!(plan.files[0], ("stone.drw".to_string(), vec![1, 2, 255]));
    assert_eq!(plan.files[1], ("stone_index.drw".to_string(), vec![9]));
    assert_eq!(plan.target.logical_path, "db/copy/stone");
}

#[test]
fn folders_are_backed_up_whole() {
    let source = folder("db", Vec::new(), vec![folder("public", gem_files(), Vec::new())]);
    let target = structural_backup_target("/root", "db", "backup path").unwrap();
    let files = collect_backup_archive_files(&target, Some(&source)).unwrap();
    let paths: Vec<&str> = files.iter().map(|f| f.path.as_str()).collect();
    assert_eq!(
        paths,
        vec!["public/gem.drw", "public/gem_index.drw", "public/gem_meta.drw"]
    );
    let missing = collect_backup_archive_files(&target, None).unwrap_err();
    assert_eq!(missing.kind(), ErrorKind::NotFound);
    let bare = folder("db", Vec::new(), Vec::new());
    assert_eq!(
        collect_backup_archive_files(&target, Some(&bare)).unwrap_err().message,
        "backup source path contains no files: db"
    );
    assert_eq!(
        drawer_files("gem"),
        vec!["gem.drw".to_string(), "gem_index.drw".to_string(), "gem_meta.drw".to_string()]
    );
}

#[test]
fn archives_are_checked_before_they_are_restored() {
    let source = folder("public", gem_files(), Vec::new());
    let target = structural_backup_target("/root", "db/public/gem", "backup path").unwrap();
    let mut archive = backup_archive(target, Some(&source)).unwrap();
    let gem = structural_backup_target("/root", "db/public/gem", "restore").unwrap();
    let bay = structural_backup_target("/root", "db/public", "restore").unwrap();

    assert_eq!(validate_backup_archive_format(&archive), Ok(()));
    assert_eq!(validate_archive_scope(&archive, &gem), Ok(()));
    assert!(validate_archive_scope(&archive, &bay).is_err());
    assert_eq!(restore_relative_path(&archive, &gem, "gem.drw"), Ok("gem.drw".to_string()));
    assert!(restore_relative_path(&archive, &gem, "tool.drw").is_err());
    assert!(restore_relative_path(&archive, &gem, "a/gem.drw").is_err());
    assert_eq!(decoded_restore_files(&archive, &gem).map(|f| f.len()), Ok(3));

    assert_eq!(validate_archive_relative_path("a/b"), Ok(()));
    assert_eq!(
        validate_archive_relative_path("/a").unwrap_err().message,
        "backup archive file paths must be relative"
    );
    assert_eq!(
        validate_archive_relative_path("a/../../b").unwrap_err().message,
        "backup archive file path escapes the restore target"
    );

    archive.files[0].bytes_hex = "xy".to_string();
    assert!(restore_archive("/root", "db/public/gem", &archive).is_err());
    archive.format = "other".to_string();
    assert_eq!(
        validate_backup_archive_format(&archive).unwrap_err().kind(),
        ErrorKind::InvalidData
    );
}

#[test]
fn restores_stay_under_the_root() {
    assert_eq!(ensure_path_is_under_root("/work", "root", "/work/root/db"), Ok(()));
    let refused = ensure_path_is_under_root("/work", "root", "/work/root/../db").unwrap_err();
    assert!(refused.message.starts_with("Refusing to restore outside the storage root: "));
    let bay = structural_backup_target("/root", "db/public", "restore").unwrap();
    assert_eq!(
        clear_restore_target("/", "/root", &bay),
        Ok(ClearAction::Directory("/root/db/public".to_string()))
    );
    let gem = structural_backup_target("/root", "db/public/gem", "restore").unwrap();
    match clear_restore_target("/", "/root", &gem) {
        Ok(ClearAction::Files(files)) => assert_eq!(files.len(), 3),
        other => panic!("unexpected action: {other:?}"),
    }
}

#[test]
fn restored_folders_are_registered() {
    let restored = folder("db", Vec::new(), vec![folder("public", gem_files(), Vec::new())]);
    let target = structural_backup_target("/root", "db", "restore").unwrap();
    let made = register_restored_catalog(&target, Some(&restored));
    assert!(made.contains(&CatalogCreation::Database("db".to_string())));
    assert!(made.contains(&CatalogCreation::Drawer(
        "db".to_string(),
        "public".to_string(),
        "gem".to_string()
    )));
}

#[test]
fn registered_drawers_are_found() {
    let mut registry = CatalogRegistry::new();
    assert!(registry.is_empty());
    registry.register_drawer("db", "public", "gem", "db/public");
    assert!(!registry.is_empty());
    assert!(registry.contains_drawer("db", "public", "gem"));
    assert!(!registry.contains_drawer("db", "public", "tool"));
    assert_eq!(registry.database_names(), vec!["db".to_string()]);
    assert_eq!(registry.schema_names("db"), vec!["public".to_string()]);
    assert_eq!(registry.drawer_entries("db", "public").len(), 1);
    registry.routes.push(CatalogTenantRoute {
        tenant_id: "acme".to_string(),
        database: "db".to_string(),
        location: "db".to_string(),
    });
    assert_eq!(registry.tenant_ids(), vec!["acme".to_string()]);
    assert!(registry.tenant_route("acme").is_some());
    assert!(registry.tenant_route("other").is_none());
}

#[test]
fn folders_are_searched_for_databases() {
    let database = || folder("db", Vec::new(), vec![folder("public", gem_files(), Vec::new())]);
    let root = folder("root", Vec::new(), vec![folder("acme", Vec::new(), vec![database()])]);
    assert!(directory_has_database_layout(&database()));
    assert_eq!(discover_tenants(Some(&root)), vec!["acme".to_string()]);
    assert_eq!(discover_schemas(Some(&database())), vec!["public".to_string()]);
    let registry = CatalogRegistry::new();
    assert_eq!(show_tenants(Some(&root), &registry), vec!["acme".to_string()]);
    assert_eq!(
        show_schemas("/root", Some(&database()), &registry, "db"),
        Ok(vec!["public".to_string()])
    );
    let flat = folder("root", Vec::new(), vec![database()]);
    let found = discover_databases("/root", Some(&flat)).expect("databases should be found");
    assert_eq!(found.len(), 1);
    assert_eq!(found[0].name, "db");
    assert_eq!(found[0].register_file_count, 3);
    assert_eq!(show_databases("/root", Some(&flat), &registry), Ok(found));
    let drawers = show_drawers("/root", Some(&database()), &registry, "db", "public")
        .expect("drawers should be found");
    assert_eq!(drawers.len(), 1);
    assert_eq!(drawers[0].name, "gem");
}

#[test]
fn inventories_count_what_is_there() {
    let public = folder("public", gem_files(), Vec::new());
    let counted =
        storage_inventory("public".to_string(), "/root/db/public", Place::Folder(&public)).unwrap();
    assert_eq!(counted.record_count, 4);
    assert_eq!(counted.register_file_count, 3);
    assert_eq!(counted.disk_size_bytes, 3 + 1 + br#"{"record_count": 4}"#.len() as u64);
    let none = storage_inventory("x".to_string(), "/root/x", Place::Nothing).unwrap();
    assert_eq!(none.record_count, 0);
    assert_eq!(metadata_record_count("m", b"{\"record_count\": 2}"), Ok(2));
    assert_eq!(metadata_record_count("m", b"{}"), Ok(0));
    let refused = metadata_record_count("m", b"{").unwrap_err();
    assert!(refused.message.starts_with("Failed to parse drawer metadata at m: "));
    let drawer = drawer_inventory("gem".to_string(), Some(&public), "gem", None).unwrap();
    assert_eq!(drawer.record_count, 4);
}

#[test]
fn index_entries_tell_the_count() {
    let entries = vec![
        json(r#"{"f": "_id", "k": "a", "o": 0}"#),
        json(r#"{"f": "_id", "k": "b", "o": 64}"#),
        json(r#"{"f": "name", "k": "x", "o": [0]}"#),
        json(r#"{"f": "_id", "k": "a", "o": []}"#),
    ];
    assert_eq!(drawer_record_count_from_index(&entries), Some(1));
}
