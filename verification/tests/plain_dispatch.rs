use wardrobe::catalog::registry::CatalogRegistry;
use wardrobe::command::dispatch::{
    after_log, first_step, BoundaryAction, BoundaryOutcome, BoundaryStep,
};
use wardrobe::command::flat::{Command, CommandResult};
use wardrobe::command::results::{
    BackupArchive, BackupArchiveFile, CheckReport, DrawerInspectionMetrics, RestoreReport,
    StatusResult, StorageDiagnosis,
};
use wardrobe::command_dispatch::{
    boundary_result, command_drawer_name, database_result, execute_command, execute_in_database,
    validate_command_against_registry, DatabaseAction, DatabaseOutcome,
};
use wardrobe::drawer::vacuum::VacuumReport;
use wardrobe::error::ErrorKind;
use wardrobe::storage::types::{
    QueryModifiers, StorageCoordinate, StorageInventory, StorageLocator, StorageScope,
    WalVerification,
};
use wardrobe::value::{parse_json, JsonValue};

fn json(text: &str) -> JsonValue {
    parse_json(text.as_bytes()).expect("text should be JSON")
}

struct FakeBoundary {
    calls: Vec<String>,
    wal_count: usize,
}

fn inventory(name: &str) -> StorageInventory {
    StorageInventory {
        name: name.to_string(),
        record_count: 0,
        disk_size_bytes: 0,
        register_file_count: 0,
    }
}

fn vacuum_report() -> VacuumReport {
    VacuumReport {
        records_rewritten: 1,
        data_bytes_before: 10,
        data_bytes_after: 7,
        index_bytes_before: 4,
        index_bytes_after: 3,
        bytes_reclaimed: 4,
    }
}

fn backup_archive() -> BackupArchive {
    BackupArchive {
        format: "wardrobe-backup-v1".to_string(),
        source_path: "source".to_string(),
        scope: "directory".to_string(),
        files: vec![BackupArchiveFile { path: "gem.drw".to_string(), bytes_hex: "00".to_string() }],
    }
}

fn dropped(name: &str) -> BoundaryOutcome<CommandResult> {
    BoundaryOutcome::Admin(json(&format!("{{\"dropped\": \"{name}\"}}")))
}

impl FakeBoundary {
    fn new() -> Self {
        FakeBoundary { calls: Vec::new(), wal_count: 0 }
    }

    fn perform(&mut self, action: BoundaryAction<Command>) -> BoundaryOutcome<CommandResult> {
        match action {
            BoundaryAction::ShowTenants => {
                BoundaryOutcome::Status(StatusResult::Tenants(vec!["tenant_a".to_string()]))
            }
            BoundaryAction::ShowDatabases => {
                BoundaryOutcome::Status(StatusResult::Databases(vec![inventory("db")]))
            }
            BoundaryAction::VerifyWal { .. } => {
                BoundaryOutcome::Status(StatusResult::Wal(WalVerification {
                    path: "wal".to_string(),
                    entry_count: 1,
                    last_sequence: Some(1),
                }))
            }
            BoundaryAction::ShowSchemas { .. } => {
                BoundaryOutcome::Status(StatusResult::Schemas(vec!["public".to_string()]))
            }
            BoundaryAction::ShowDrawers { .. } => {
                BoundaryOutcome::Status(StatusResult::Drawers(vec![inventory("gem")]))
            }
            BoundaryAction::CreateDatabase { database_name } => {
                BoundaryOutcome::Inventory(inventory(&database_name))
            }
            BoundaryAction::CreateSchema { schema_name, .. } => {
                BoundaryOutcome::Inventory(inventory(&schema_name))
            }
            BoundaryAction::CreateDrawer { database_name, schema_name, drawer_name } => {
                self.calls.push(format!(
                    "create_drawer:{database_name}/{schema_name}/{drawer_name}"
                ));
                BoundaryOutcome::Inventory(inventory(&drawer_name))
            }
            BoundaryAction::RegisterTenantRoute { database_name, .. } => {
                BoundaryOutcome::Inventory(inventory(&database_name))
            }
            BoundaryAction::DropDatabase { database_name } => dropped(&database_name),
            BoundaryAction::DropSchema { schema_name, .. } => dropped(&schema_name),
            BoundaryAction::DropDrawer { database_name, schema_name, drawer_name } => {
                self.calls.push(format!(
                    "drop_drawer:{database_name}/{schema_name}/{drawer_name}"
                ));
                dropped(&drawer_name)
            }
            BoundaryAction::InspectDrawer { drawer_name } => {
                BoundaryOutcome::Inspection(DrawerInspectionMetrics {
                    path: drawer_name,
                    data_bytes: 1,
                    index_bytes: 2,
                    meta_bytes: 3,
                    total_bytes: 6,
                    record_count: 1,
                    register_file_count: 3,
                    tombstone_fragmentation_percent: Some(0.0f64.to_bits()),
                })
            }
            BoundaryAction::CheckPath { path } => {
                BoundaryOutcome::Status(StatusResult::Check(CheckReport {
                    path,
                    kind: "drawer".to_string(),
                    entries: Vec::new(),
                }))
            }
            BoundaryAction::DiagnoseStorage => {
                BoundaryOutcome::Status(StatusResult::Storage(StorageDiagnosis {
                    storage_directory: "root".to_string(),
                    storage_bytes: 0,
                    data_bytes: 0,
                    index_bytes: 0,
                    metadata_bytes: 0,
                    logical_wal_bytes: 0,
                    transaction_wal_bytes: 0,
                    other_bytes: 0,
                    drawer_count: 1,
                    status: "ok".to_string(),
                    drawers: vec!["gem".to_string()],
                }))
            }
            BoundaryAction::ListDrawerNames => {
                BoundaryOutcome::Status(StatusResult::DrawerNames(vec!["gem".to_string()]))
            }
            BoundaryAction::CachedDrawerCount => {
                BoundaryOutcome::Status(StatusResult::CachedDrawerCount(1))
            }
            BoundaryAction::BackupArchive { .. } => BoundaryOutcome::Archive(backup_archive()),
            BoundaryAction::RestoreArchive { destination_path, .. } => {
                BoundaryOutcome::Restored(RestoreReport {
                    destination_path,
                    scope: "directory".to_string(),
                    file_count: 1,
                    byte_count: 1,
                })
            }
            BoundaryAction::ManageUser { action, payload } => {
                let username = payload.get_str("username").unwrap_or("unknown");
                self.calls.push(format!("manage_user:{action}:{username}"));
                BoundaryOutcome::Admin(json(r#"{"ok": true}"#))
            }
            BoundaryAction::ExecuteForTenant { tenant_id, database_name, schema_name, .. } => {
                self.calls.push(format!(
                    "execute_for_tenant:{tenant_id}/{database_name}/{schema_name}"
                ));
                BoundaryOutcome::Whole(CommandResult::Count(11))
            }
            BoundaryAction::Execute { .. } => BoundaryOutcome::Whole(CommandResult::Count(22)),
            BoundaryAction::ExecuteInScope { .. } => {
                BoundaryOutcome::Whole(CommandResult::Count(33))
            }
            BoundaryAction::ExecuteLocal { .. } => BoundaryOutcome::Whole(CommandResult::Count(44)),
        }
    }

    fn execute(&mut self, command: Command) -> CommandResult {
        let (append_wal, action) = execute_command(command);
        let action = match first_step(append_wal, action) {
            BoundaryStep::AppendWal { action } => {
                self.wal_count += 1;
                after_log(Ok(()), action).expect("a written log entry should let the command go on")
            }
            BoundaryStep::Perform { action } => action,
        };
        let outcome = self.perform(action);
        boundary_result(outcome).expect("the answer should fit the command")
    }
}

#[test]
fn command_dispatch_execute_command_routes_boundary_commands_and_wal_policy() {
    let mut engine = FakeBoundary::new();
    let archive = backup_archive();

    assert_eq!(
        engine.execute(Command::ShowTenants),
        CommandResult::Tenants(vec!["tenant_a".to_string()])
    );
    assert!(matches!(engine.execute(Command::ShowDatabases), CommandResult::Databases(_)));
    assert!(matches!(
        engine.execute(Command::VerifyWal { database_name: Some("db".to_string()) }),
        CommandResult::WalVerification(_)
    ));
    assert!(matches!(
        engine.execute(Command::ShowSchemas { database_name: "db".to_string() }),
        CommandResult::Schemas(_)
    ));
    assert!(matches!(
        engine.execute(Command::ShowDrawers {
            database_name: "db".to_string(),
            schema_name: "public".to_string(),
        }),
        CommandResult::Drawers(_)
    ));
    assert!(matches!(
        engine.execute(Command::DefineDatabase { database_name: "db".to_string() }),
        CommandResult::StorageInventory(_)
    ));
    assert!(matches!(
        engine.execute(Command::DefineSchema {
            database_name: "db".to_string(),
            schema_name: "public".to_string(),
        }),
        CommandResult::StorageInventory(_)
    ));
    assert!(matches!(
        engine.execute(Command::DefineDrawer {
            database_name: "db".to_string(),
            schema_name: "public".to_string(),
            drawer_name: "gem".to_string(),
        }),
        CommandResult::StorageInventory(_)
    ));
    assert!(matches!(
        engine.execute(Command::DefineTenantRoute {
            tenant_id: "tenant".to_string(),
            database_name: "db".to_string(),
            location: "tenant/db/public".to_string(),
        }),
        CommandResult::StorageInventory(_)
    ));
    assert!(matches!(
        engine.execute(Command::DropDatabase { database_name: "db".to_string() }),
        CommandResult::Admin(_)
    ));
    assert!(matches!(
        engine.execute(Command::DropSchema {
            database_name: "db".to_string(),
            schema_name: "public".to_string(),
        }),
        CommandResult::Admin(_)
    ));
    assert!(matches!(
        engine.execute(Command::DropDrawer {
            database_name: "db".to_string(),
            schema_name: "public".to_string(),
            drawer_name: "gem".to_string(),
        }),
        CommandResult::Admin(_)
    ));
    assert!(matches!(
        engine.execute(Command::Inspect { drawer_name: "gem".to_string() }),
        CommandResult::Inspection(_)
    ));
    assert!(matches!(
        engine.execute(Command::Check { path: "db/public/gem".to_string() }),
        CommandResult::Check(_)
    ));
    assert!(matches!(engine.execute(Command::Diagnose), CommandResult::Diagnosis(_)));
    assert!(matches!(engine.execute(Command::ListDrawers), CommandResult::DrawerNames(_)));
    assert!(matches!(
        engine.execute(Command::Backup { source_path: "source".to_string() }),
        CommandResult::Backup(_)
    ));
    assert!(matches!(
        engine.execute(Command::Restore {
            destination_path: "destination".to_string(),
            archive,
        }),
        CommandResult::Restored(_)
    ));
    assert!(matches!(
        engine.execute(Command::ManageUser {
            action: "grant_permission".to_string(),
            payload: json(r#"{"username": "alice"}"#),
        }),
        CommandResult::Admin(_)
    ));

    assert_eq!(engine.wal_count, 5);
    assert!(engine.calls.contains(&"create_drawer:db/public/gem".to_string()));
    assert!(engine.calls.contains(&"drop_drawer:db/public/gem".to_string()));
    assert!(engine.calls.contains(&"manage_user:grant_permission:alice".to_string()));
}

#[test]
fn command_dispatch_execute_command_routes_scoped_and_local_commands_with_wal() {
    let mut engine = FakeBoundary::new();

    assert_eq!(
        engine.execute(Command::ExecuteForTenant {
            tenant_id: "tenant".to_string(),
            database_name: "db".to_string(),
            schema_name: "public".to_string(),
            command: Box::new(Command::FindAll { drawer_name: "gem".to_string() }),
        }),
        CommandResult::Count(11)
    );
    assert_eq!(
        engine.execute(Command::Execute {
            coordinate: StorageCoordinate::new("tenant", "db", "public"),
            command: Box::new(Command::Count {
                drawer_name: "gem".to_string(),
                filter: None,
                modifiers: None,
            }),
        }),
        CommandResult::Count(22)
    );
    assert_eq!(
        engine.execute(Command::ExecuteInScope {
            scope: StorageScope::schema("db", "public"),
            command: Box::new(Command::DeleteByFilter {
                drawer_name: "gem".to_string(),
                filter: json("{}"),
            }),
        }),
        CommandResult::Count(33)
    );
    assert_eq!(
        engine.execute(Command::FindAll { drawer_name: "gem".to_string() }),
        CommandResult::Count(44)
    );

    assert_eq!(engine.wal_count, 4);
    assert!(engine.calls.contains(&"execute_for_tenant:tenant/db/public".to_string()));
}

struct FakeDatabase {
    namespace: Option<String>,
}

impl FakeDatabase {
    fn scope(&self) -> &str {
        match &self.namespace {
            Some(namespace) => namespace.as_str(),
            None => "root",
        }
    }

    fn perform(&self, action: DatabaseAction) -> DatabaseOutcome {
        match action {
            DatabaseAction::Upsert { drawer_name, .. } => {
                DatabaseOutcome::Pointer(format!("@{drawer_name}:single-{}", self.scope()))
            }
            DatabaseAction::BulkUpsert { drawer_name, records, atomic } => {
                DatabaseOutcome::Pointers(
                    (0..records.len())
                        .map(|i| format!("@{drawer_name}:bulk-{atomic}-{i}-{}", self.scope()))
                        .collect(),
                )
            }
            DatabaseAction::FindAll { drawer_name } => DatabaseOutcome::Records(vec![json(
                &format!("{{\"drawer\": \"{drawer_name}\", \"scope\": \"{}\"}}", self.scope()),
            )]),
            DatabaseAction::FindById { pointer } => {
                DatabaseOutcome::Record(Some(json(&format!("{{\"pointer\": \"{pointer}\"}}"))))
            }
            DatabaseAction::FindByFilter { modifiers, .. } => DatabaseOutcome::Records(vec![json(
                &format!("{{\"has_modifiers\": {}}}", modifiers.is_some()),
            )]),
            DatabaseAction::Count { filter, modifiers, .. } => DatabaseOutcome::Count(
                usize::from(filter.is_some()) + usize::from(modifiers.is_some()),
            ),
            DatabaseAction::DeleteById { locator } => {
                DatabaseOutcome::Deleted(matches!(locator, StorageLocator::Inline(_)))
            }
            DatabaseAction::DeleteByFilter { .. } => DatabaseOutcome::Count(3),
            DatabaseAction::ManageSchema { kind, .. } => {
                DatabaseOutcome::Admin(json(&format!("{{\"kind\": \"{kind}\"}}")))
            }
            DatabaseAction::Vacuum { .. } => DatabaseOutcome::Vacuumed(vacuum_report()),
            DatabaseAction::Migrate { .. } => DatabaseOutcome::Migrated(vacuum_report()),
        }
    }

    fn execute(&self, command: Command) -> CommandResult {
        let action = execute_in_database(command).expect("command should be carried out");
        database_result(self.perform(action))
    }
}

#[test]
fn command_dispatch_execute_in_database_covers_local_data_commands() {
    let scoped = FakeDatabase { namespace: Some("tenant/db/public".to_string()) };
    let root = FakeDatabase { namespace: None };

    assert_eq!(
        scoped.execute(Command::Upsert {
            drawer_name: "gem".to_string(),
            payload: json(r#"{"_id": "one"}"#),
        }),
        CommandResult::Pointer("@gem:single-tenant/db/public".to_string())
    );
    assert!(matches!(
        root.execute(Command::BulkUpsert {
            drawer_name: "gem".to_string(),
            records: vec![json(r#"{"_id": "one"}"#), json(r#"{"_id": "two"}"#)],
            atomic: true,
        }),
        CommandResult::Pointers(pointers) if pointers.len() == 2
    ));
    assert!(matches!(
        root.execute(Command::BulkUpsert {
            drawer_name: "gem".to_string(),
            records: vec![json(r#"{"_id": "one"}"#)],
            atomic: false,
        }),
        CommandResult::Pointers(pointers) if pointers[0].contains("false")
    ));
    assert!(matches!(
        scoped.execute(Command::FindAll { drawer_name: "gem".to_string() }),
        CommandResult::Records(records)
            if records[0].get_str("scope") == Some("tenant/db/public")
    ));
    assert!(matches!(
        root.execute(Command::FindById { pointer: "@gem:one".to_string() }),
        CommandResult::Record(Some(record)) if record.get_str("pointer") == Some("@gem:one")
    ));
    assert!(matches!(
        root.execute(Command::FindByFilter {
            drawer_name: "gem".to_string(),
            filter: json(r#"{"element": "Fire"}"#),
            modifiers: Some(QueryModifiers { limit: Some(1), ..QueryModifiers::default() }),
        }),
        CommandResult::Records(records)
            if records[0].get("has_modifiers") == Some(&JsonValue::Bool(true))
    ));
    assert_eq!(
        root.execute(Command::Count {
            drawer_name: "gem".to_string(),
            filter: Some(json(r#"{"element": "Fire"}"#)),
            modifiers: Some(QueryModifiers { limit: Some(1), ..QueryModifiers::default() }),
        }),
        CommandResult::Count(2)
    );
    assert_eq!(
        root.execute(Command::Delete { pointer: "@gem:one".to_string() }),
        CommandResult::Deleted(true)
    );
    assert_eq!(
        root.execute(Command::DeleteByFilter {
            drawer_name: "gem".to_string(),
            filter: json(r#"{"element": "Fire"}"#),
        }),
        CommandResult::Count(3)
    );
    assert!(matches!(
        root.execute(Command::ManageSchema {
            action: "add".to_string(),
            kind: "index".to_string(),
            drawer_name: "gem".to_string(),
            field_name: "element".to_string(),
            payload: json(r#"{"type": "hash"}"#),
        }),
        CommandResult::Admin(payload) if payload.get_str("kind") == Some("index")
    ));
    assert_eq!(
        root.execute(Command::Vacuum { drawer_name: "gem".to_string() }),
        CommandResult::Vacuumed(vacuum_report())
    );
    assert_eq!(
        root.execute(Command::Migrate { drawer_name: "gem".to_string() }),
        CommandResult::Migrated(vacuum_report())
    );
}

#[test]
fn command_dispatch_execute_in_database_rejects_boundary_only_commands() {
    let archive = backup_archive();
    let boundary_only_commands = vec![
        Command::ShowTenants,
        Command::ShowDatabases,
        Command::VerifyWal { database_name: None },
        Command::ShowSchemas { database_name: "db".to_string() },
        Command::ShowDrawers {
            database_name: "db".to_string(),
            schema_name: "public".to_string(),
        },
        Command::Inspect { drawer_name: "gem".to_string() },
        Command::Check { path: "db/public/gem".to_string() },
        Command::Diagnose,
        Command::ListDrawers,
        Command::Backup { source_path: "source".to_string() },
        Command::Restore { destination_path: "destination".to_string(), archive },
        Command::DefineDatabase { database_name: "db".to_string() },
        Command::DefineSchema {
            database_name: "db".to_string(),
            schema_name: "public".to_string(),
        },
        Command::DefineDrawer {
            database_name: "db".to_string(),
            schema_name: "public".to_string(),
            drawer_name: "gem".to_string(),
        },
        Command::DefineTenantRoute {
            tenant_id: "tenant".to_string(),
            database_name: "db".to_string(),
            location: "tenant/db/public".to_string(),
        },
        Command::DropDatabase { database_name: "db".to_string() },
        Command::DropSchema {
            database_name: "db".to_string(),
            schema_name: "public".to_string(),
        },
        Command::DropDrawer {
            database_name: "db".to_string(),
            schema_name: "public".to_string(),
            drawer_name: "gem".to_string(),
        },
        Command::ManageUser {
            action: "grant_permission".to_string(),
            payload: json(r#"{"username": "alice"}"#),
        },
        Command::ExecuteForTenant {
            tenant_id: "tenant".to_string(),
            database_name: "db".to_string(),
            schema_name: "public".to_string(),
            command: Box::new(Command::FindAll { drawer_name: "gem".to_string() }),
        },
        Command::Execute {
            coordinate: StorageCoordinate::new("tenant", "db", "public"),
            command: Box::new(Command::FindAll { drawer_name: "gem".to_string() }),
        },
        Command::ExecuteInScope {
            scope: StorageScope::database("db"),
            command: Box::new(Command::FindAll { drawer_name: "gem".to_string() }),
        },
    ];

    for command in boundary_only_commands {
        let error = execute_in_database(command).unwrap_err();
        assert_eq!(error.kind(), ErrorKind::InvalidInput);
    }
}

#[test]
fn command_dispatch_drawer_name_resolution_and_registry_validation_cover_nested_commands() {
    assert_eq!(
        command_drawer_name(&Command::FindById { pointer: "@gem:one".to_string() }),
        Some("gem".to_string())
    );
    assert_eq!(
        command_drawer_name(&Command::Delete { pointer: "not-a-pointer".to_string() }),
        None
    );
    assert_eq!(
        command_drawer_name(&Command::ExecuteInScope {
            scope: StorageScope::drawer("namespace"),
            command: Box::new(Command::Vacuum { drawer_name: "nested".to_string() }),
        }),
        Some("nested".to_string())
    );
    assert_eq!(
        command_drawer_name(&Command::DefineDatabase { database_name: "db".to_string() }),
        None
    );

    let empty_registry = CatalogRegistry::new();
    validate_command_against_registry(
        &empty_registry,
        "db",
        "public",
        &Command::FindAll { drawer_name: "anything".to_string() },
    )
    .expect("empty registry should not restrict commands");

    let mut registry = CatalogRegistry::new();
    registry.register_drawer("db", "public", "gem", "db/public");
    validate_command_against_registry(
        &registry,
        "db",
        "public",
        &Command::FindAll { drawer_name: "gem".to_string() },
    )
    .expect("registered drawer should pass");
    let refused = validate_command_against_registry(
        &registry,
        "db",
        "public",
        &Command::FindAll { drawer_name: "missing".to_string() },
    )
    .expect_err("unregistered drawer should fail");
    assert_eq!(refused.kind(), ErrorKind::NotFound);
    validate_command_against_registry(&registry, "db", "public", &Command::ShowTenants)
        .expect("commands without drawer names should pass");
}
