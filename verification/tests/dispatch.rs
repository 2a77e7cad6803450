use wardrobe::catalog::registry::CatalogRegistry;
use wardrobe::command::dispatch::{
    after_log, boundary_result, command_drawer_name, execute_command, execute_in_database, first_step,
    validate_command_against_registry, BoundaryAction, BoundaryOutcome, BoundaryStep, DatabaseAction,
};
use wardrobe::command::model::{OperationFilter, OperationOptions, ReturnShape};
use wardrobe::command::requests::{
    AlterRequest, Command, CompactMode, CompactRequest, CreateRequest, DropRequest,
    PermissionRequest, StatusRequest,
};
use wardrobe::command::results::{
    BackupArchive, BackupArchiveFile, CheckReport, CommandResult, CreateResult,
    DrawerInspectionMetrics, InspectResult, RestoreReport, StatusResult, StorageDiagnosis,
};
use wardrobe::engine::plans::{CountPlan, DeletePlan, ReadPlan};
use wardrobe::error::{Error, ErrorKind};
use wardrobe::storage::types::{
    QueryModifiers, StorageCoordinate, StorageInventory, StorageScope, WalVerification,
};
use wardrobe::value::{parse_json, JsonValue};

fn json(text: &str) -> JsonValue {
    parse_json(text.as_bytes()).expect("text should be JSON")
}

struct FakeBoundary {
    calls: Vec<String>,
    wal_count: usize,
}

fn inventory(name: &str) -> StorageInventory {
    StorageInventory {
        name: name.to_string(),
        record_count: 0,
        disk_size_bytes: 0,
        register_file_count: 0,
    }
}

fn backup_archive() -> BackupArchive {
    BackupArchive {
        format: "wardrobe-backup-v1".to_string(),
        source_path: "source".to_string(),
        scope: "directory".to_string(),
        files: vec![BackupArchiveFile { path: "gem.drw".to_string(), bytes_hex: "00".to_string() }],
    }
}

impl FakeBoundary {
    fn new() -> Self {
        FakeBoundary { calls: Vec::new(), wal_count: 0 }
    }

    fn record(&mut self, label: &str) {
        self.calls.push(label.to_string());
    }

    fn perform(&mut self, action: BoundaryAction<Command>) -> BoundaryOutcome<CommandResult> {
        match action {
            BoundaryAction::ShowTenants => {
                self.record("show_tenants");
                BoundaryOutcome::Status(StatusResult::Tenants(vec!["tenant_a".to_string()]))
            }
            BoundaryAction::ShowDatabases => {
                self.record("show_databases");
                BoundaryOutcome::Status(StatusResult::Databases(vec![inventory("db")]))
            }
            BoundaryAction::VerifyWal { database_name } => {
                let name = database_name.unwrap_or("all".to_string());
                self.record(&format!("verify_wal:{name}"));
                BoundaryOutcome::Status(StatusResult::Wal(WalVerification {
                    path: "wal".to_string(),
                    entry_count: 1,
                    last_sequence: Some(1),
                }))
            }
            BoundaryAction::ShowSchemas { database_name } => {
                self.record(&format!("show_schemas:{database_name}"));
                BoundaryOutcome::Status(StatusResult::Schemas(vec!["public".to_string()]))
            }
            BoundaryAction::ShowDrawers { database_name, schema_name } => {
                self.record(&format!("show_drawers:{database_name}/{schema_name}"));
                BoundaryOutcome::Status(StatusResult::Drawers(vec![inventory("gem")]))
            }
            BoundaryAction::CreateDatabase { database_name } => {
                self.record(&format!("create_database:{database_name}"));
                BoundaryOutcome::Inventory(inventory(&database_name))
            }
            BoundaryAction::CreateSchema { database_name, schema_name } => {
                self.record(&format!("create_schema:{database_name}/{schema_name}"));
                BoundaryOutcome::Inventory(inventory(&schema_name))
            }
            BoundaryAction::CreateDrawer { database_name, schema_name, drawer_name } => {
                self.record(&format!("create_drawer:{database_name}/{schema_name}/{drawer_name}"));
                BoundaryOutcome::Inventory(inventory(&drawer_name))
            }
            BoundaryAction::RegisterTenantRoute { tenant_id, database_name, location } => {
                self.record(&format!("tenant_route:{tenant_id}/{database_name}/{location}"));
                BoundaryOutcome::Inventory(inventory(&database_name))
            }
            BoundaryAction::DropDatabase { database_name } => {
                self.record(&format!("drop_database:{database_name}"));
                BoundaryOutcome::Admin(json(&format!("{{\"dropped\": \"{database_name}\"}}")))
            }
            BoundaryAction::DropSchema { database_name, schema_name } => {
                self.record(&format!("drop_schema:{database_name}/{schema_name}"));
                BoundaryOutcome::Admin(json(&format!("{{\"dropped\": \"{schema_name}\"}}")))
            }
            BoundaryAction::DropDrawer { database_name, schema_name, drawer_name } => {
                self.record(&format!("drop_drawer:{database_name}/{schema_name}/{drawer_name}"));
                BoundaryOutcome::Admin(json(&format!("{{\"dropped\": \"{drawer_name}\"}}")))
            }
            BoundaryAction::InspectDrawer { drawer_name } => {
                self.record(&format!("inspect:{drawer_name}"));
                BoundaryOutcome::Inspection(DrawerInspectionMetrics {
                    path: drawer_name,
                    data_bytes: 1,
                    index_bytes: 2,
                    meta_bytes: 3,
                    total_bytes: 6,
                    record_count: 1,
                    register_file_count: 3,
                    tombstone_fragmentation_percent: Some(0.0f64.to_bits()),
                })
            }
            BoundaryAction::CheckPath { path } => {
                self.record(&format!("check:{path}"));
                BoundaryOutcome::Status(StatusResult::Check(CheckReport {
                    path,
                    kind: "drawer".to_string(),
                    entries: Vec::new(),
                }))
            }
            BoundaryAction::DiagnoseStorage => {
                self.record("diagnose");
                BoundaryOutcome::Status(StatusResult::Storage(StorageDiagnosis {
                    storage_directory: "root".to_string(),
                    storage_bytes: 0,
                    data_bytes: 0,
                    index_bytes: 0,
                    metadata_bytes: 0,
                    logical_wal_bytes: 0,
                    transaction_wal_bytes: 0,
                    other_bytes: 0,
                    drawer_count: 1,
                    status: "ok".to_string(),
                    drawers: vec!["gem".to_string()],
                }))
            }
            BoundaryAction::ListDrawerNames => {
                self.record("list_drawers");
                BoundaryOutcome::Status(StatusResult::DrawerNames(vec!["gem".to_string()]))
            }
            BoundaryAction::CachedDrawerCount => {
                self.record("cached_drawer_count");
                BoundaryOutcome::Status(StatusResult::CachedDrawerCount(1))
            }
            BoundaryAction::BackupArchive { source_path } => {
                self.record(&format!("backup:{source_path}"));
                BoundaryOutcome::Archive(backup_archive())
            }
            BoundaryAction::RestoreArchive { destination_path, .. } => {
                self.record(&format!("restore:{destination_path}"));
                BoundaryOutcome::Restored(RestoreReport {
                    destination_path,
                    scope: "directory".to_string(),
                    file_count: 1,
                    byte_count: 1,
                })
            }
            BoundaryAction::ManageUser { action, payload } => {
                let username = payload.get_str("username").unwrap_or("unknown").to_string();
                self.record(&format!("manage_user:{action}:{username}"));
                BoundaryOutcome::Admin(json(&format!("{{\"ok\": true, \"action\": \"{action}\"}}")))
            }
            BoundaryAction::ExecuteForTenant { tenant_id, database_name, schema_name, .. } => {
                self.record(&format!(
                    "execute_for_tenant:{tenant_id}/{database_name}/{schema_name}"
                ));
                BoundaryOutcome::Whole(CommandResult::Count(11))
            }
            BoundaryAction::Execute { coordinate, .. } => {
                self.record(&format!(
                    "execute:{}/{}/{}",
                    coordinate.tenant_id,
                    coordinate.database,
                    coordinate.schema()
                ));
                BoundaryOutcome::Whole(CommandResult::Count(22))
            }
            BoundaryAction::ExecuteInScope { scope, .. } => {
                self.record(&format!("execute_in_scope:{scope:?}"));
                BoundaryOutcome::Whole(CommandResult::Count(33))
            }
            BoundaryAction::ExecuteLocal { command } => {
                self.record(&format!("execute_local:{:?}", command_drawer_name(&command)));
                BoundaryOutcome::Whole(CommandResult::Count(44))
            }
        }
    }

    fn execute(&mut self, command: Command) -> CommandResult {
        let plan = execute_command(command).expect("command should be planned");
        let action = match first_step(plan.append_wal, plan.action) {
            BoundaryStep::AppendWal { action } => {
                self.wal_count += 1;
                after_log(Ok(()), action).expect("a written log entry should let the command go on")
            }
            BoundaryStep::Perform { action } => action,
        };
        let outcome = self.perform(action);
        boundary_result(plan.kind, outcome).expect("the answer should fit the command")
    }
}

fn read_drawer(drawer_name: &str) -> Command {
    Command::Read {
        filter: OperationFilter::drawer(drawer_name),
        options: OperationOptions::default(),
    }
}

fn count_drawer(drawer_name: &str) -> Command {
    Command::Count {
        filter: OperationFilter::drawer(drawer_name),
        options: OperationOptions::default(),
    }
}

#[test]
fn dispatch_execute_command_routes_boundary_commands_and_wal_policy() {
    let mut engine = FakeBoundary::new();
    let archive = backup_archive();

    assert_eq!(
        engine.execute(Command::Status(StatusRequest::tenants().into_request())),
        CommandResult::Status(json(r#"["tenant_a"]"#))
    );
    assert_eq!(
        engine.execute(Command::Status(StatusRequest::databases().into_request())),
        CommandResult::Status(json(
            r#"[{
                "name": "db",
                "record_count": 0,
                "disk_size_bytes": 0,
                "register_file_count": 0
            }]"#
        ))
    );
    assert!(matches!(
        engine.execute(Command::Status(StatusRequest::wal(Some("db")).into_request())),
        CommandResult::Status(JsonValue::Object(_))
    ));
    assert_eq!(
        engine.execute(Command::Status(StatusRequest::schemas("db").into_request())),
        CommandResult::Status(json(r#"["public"]"#))
    );
    assert!(matches!(
        engine.execute(Command::Status(StatusRequest::drawers("db", "public").into_request())),
        CommandResult::Status(JsonValue::Array(_))
    ));
    assert!(matches!(
        engine.execute(Command::Create(CreateRequest::database("db"))),
        CommandResult::Create(CreateResult::StorageInventory(_))
    ));
    assert!(matches!(
        engine.execute(Command::Create(CreateRequest::schema("db", "public"))),
        CommandResult::Create(CreateResult::StorageInventory(_))
    ));
    assert!(matches!(
        engine.execute(Command::Create(CreateRequest::drawer("db", "public", "gem"))),
        CommandResult::Create(CreateResult::StorageInventory(_))
    ));
    assert!(matches!(
        engine.execute(Command::Create(CreateRequest::tenant_route(
            "tenant",
            "db",
            "tenant/db/public",
        ))),
        CommandResult::Create(CreateResult::StorageInventory(_))
    ));
    assert!(matches!(
        engine.execute(Command::Create(CreateRequest::user(json(r#"{"username": "alice"}"#)))),
        CommandResult::Create(CreateResult::Admin(_))
    ));
    assert!(matches!(
        engine.execute(Command::Drop(DropRequest::database("db"))),
        CommandResult::Drop(_)
    ));
    assert!(matches!(
        engine.execute(Command::Drop(DropRequest::schema("db", "public"))),
        CommandResult::Drop(_)
    ));
    assert!(matches!(
        engine.execute(Command::Drop(DropRequest::drawer("db", "public", "gem"))),
        CommandResult::Drop(_)
    ));
    assert!(matches!(
        engine.execute(Command::Drop(DropRequest::user("alice"))),
        CommandResult::Drop(_)
    ));
    assert!(matches!(
        engine.execute(Command::Inspect {
            filter: OperationFilter::drawer("gem"),
            options: OperationOptions::default(),
        }),
        CommandResult::Inspect(InspectResult::Drawer(_))
    ));
    assert!(matches!(
        engine.execute(Command::Status(StatusRequest::path("db/public/gem").into_request())),
        CommandResult::Status(JsonValue::Object(_))
    ));
    assert!(matches!(
        engine.execute(Command::Status(StatusRequest::storage().into_request())),
        CommandResult::Status(JsonValue::Object(_))
    ));
    assert!(matches!(
        engine.execute(Command::Status(StatusRequest::drawer_names().into_request())),
        CommandResult::Status(JsonValue::Array(_))
    ));
    assert_eq!(
        engine.execute(Command::Status(StatusRequest::cached_drawer_count().into_request())),
        CommandResult::Status(json("1"))
    );
    assert!(matches!(
        engine.execute(Command::Backup { source_path: "source".to_string() }),
        CommandResult::Backup(_)
    ));
    assert!(matches!(
        engine.execute(Command::Restore {
            destination_path: "destination".to_string(),
            archive,
        }),
        CommandResult::Restore(_)
    ));
    assert!(matches!(
        engine.execute(Command::Grant(PermissionRequest::new("alice", "db:rud"))),
        CommandResult::Grant(_)
    ));
    assert!(matches!(
        engine.execute(Command::Revoke(PermissionRequest::new("alice", "db:rud"))),
        CommandResult::Revoke(_)
    ));
    assert_eq!(
        engine.execute(Command::Alter(AlterRequest::schema_rule(
            "gem",
            "add",
            "index",
            "element",
            json("{}"),
        ))),
        CommandResult::Count(44)
    );

    assert_eq!(engine.wal_count, 1);
    assert!(engine.calls.contains(&"create_drawer:db/public/gem".to_string()));
    assert!(engine.calls.contains(&"drop_drawer:db/public/gem".to_string()));
    assert!(engine.calls.contains(&"manage_user:grant_permission:alice".to_string()));
}

#[test]
fn dispatch_execute_command_routes_scoped_and_local_commands_with_wal() {
    let mut engine = FakeBoundary::new();

    assert_eq!(
        engine.execute(Command::ExecuteForTenant {
            tenant_id: "tenant".to_string(),
            database_name: "db".to_string(),
            schema_name: "public".to_string(),
            command: Box::new(read_drawer("gem")),
        }),
        CommandResult::Count(11)
    );
    assert_eq!(
        engine.execute(Command::Execute {
            coordinate: StorageCoordinate::new("tenant", "db", "public"),
            command: Box::new(count_drawer("gem")),
        }),
        CommandResult::Count(22)
    );
    assert_eq!(
        engine.execute(Command::ExecuteInScope {
            scope: StorageScope::schema("db", "public"),
            command: Box::new(Command::Delete {
                filter: OperationFilter::query_in("gem", json("{}")),
                options: OperationOptions::default(),
            }),
        }),
        CommandResult::Count(33)
    );
    assert_eq!(engine.execute(read_drawer("gem")), CommandResult::Count(44));
    assert_eq!(
        engine.execute(Command::Upsert {
            payload: json(r#"{"_id": "one"}"#),
            filter: OperationFilter::drawer("gem"),
            options: OperationOptions::default(),
        }),
        CommandResult::Count(44)
    );

    assert_eq!(engine.wal_count, 1);
    assert!(engine.calls.contains(&"execute_for_tenant:tenant/db/public".to_string()));
}

#[test]
fn local_data_commands_are_planned() {
    match execute_in_database(Command::Upsert {
        payload: json(r#"{"_id": "one"}"#),
        filter: OperationFilter::drawer("gem"),
        options: OperationOptions::default(),
    }) {
        Ok(DatabaseAction::Upsert { payload, context, .. }) => {
            assert_eq!(payload, json(r#"{"_id": "one"}"#));
            assert_eq!(context.drawer_name(), Some("gem"));
        }
        other => panic!("unexpected plan: {other:?}"),
    }
    assert!(matches!(
        execute_in_database(read_drawer("gem")),
        Ok(DatabaseAction::Read { plan: ReadPlan::All { drawer_name }, .. }) if drawer_name == "gem"
    ));
    assert!(matches!(
        execute_in_database(Command::Read {
            filter: OperationFilter::pointer("@gem:one"),
            options: OperationOptions::new().return_shape(ReturnShape::Record),
        }),
        Ok(DatabaseAction::Read { plan: ReadPlan::Pointers(pointers), .. })
            if pointers == vec!["@gem:one".to_string()]
    ));
    match execute_in_database(Command::Read {
        filter: OperationFilter::query_in("gem", json(r#"{"element": "Fire"}"#)),
        options: OperationOptions::from(QueryModifiers {
            limit: Some(1),
            ..QueryModifiers::default()
        }),
    }) {
        Ok(DatabaseAction::Read { plan: ReadPlan::Query { drawer_name, query }, options, .. }) => {
            assert_eq!(drawer_name, "gem");
            assert_eq!(query, json(r#"{"element": "Fire"}"#));
            assert_eq!(options.query_modifiers().expect("modifiers").limit, Some(1));
        }
        other => panic!("unexpected plan: {other:?}"),
    }
    assert!(matches!(
        execute_in_database(Command::Count {
            filter: OperationFilter::query_in("gem", json(r#"{"element": "Fire"}"#)),
            options: OperationOptions::default(),
        }),
        Ok(DatabaseAction::Count { plan: CountPlan::Drawer { query: Some(_), .. }, .. })
    ));
    assert!(matches!(
        execute_in_database(Command::Delete {
            filter: OperationFilter::pointer("@gem:one"),
            options: OperationOptions::default(),
        }),
        Ok(DatabaseAction::Delete { plan: DeletePlan::Pointers(_) })
    ));
    assert!(matches!(
        execute_in_database(Command::Delete {
            filter: OperationFilter::query_in("gem", json(r#"{"element": "Fire"}"#)),
            options: OperationOptions::default(),
        }),
        Ok(DatabaseAction::Delete { plan: DeletePlan::Query { .. } })
    ));
    assert!(matches!(
        execute_in_database(Command::Alter(AlterRequest::schema_rule(
            "gem",
            "add",
            "index",
            "element",
            json(r#"{"type": "hash"}"#),
        ))),
        Ok(DatabaseAction::ManageSchema { kind, is_drop: false, .. }) if kind == "index"
    ));
    assert!(matches!(
        execute_in_database(Command::Compact(CompactRequest::drawer_with_mode(
            "gem",
            CompactMode::Migrate,
        ))),
        Ok(DatabaseAction::Compact { mode: CompactMode::Migrate, .. })
    ));
    let refused = execute_in_database(Command::Delete {
        filter: OperationFilter::drawer("gem"),
        options: OperationOptions::default(),
    })
    .expect_err("a whole drawer should not be deleted");
    assert_eq!(refused.kind(), ErrorKind::InvalidInput);
}

#[test]
fn dispatch_execute_in_database_rejects_boundary_only_commands() {
    let archive = backup_archive();
    let boundary_only_commands = vec![
        Command::Inspect {
            filter: OperationFilter::drawer("gem"),
            options: OperationOptions::default(),
        },
        Command::Backup { source_path: "source".to_string() },
        Command::Restore { destination_path: "destination".to_string(), archive },
        Command::Create(CreateRequest::database("db")),
        Command::Drop(DropRequest::database("db")),
        Command::Grant(PermissionRequest::new("alice", "db:r")),
        Command::Revoke(PermissionRequest::new("alice", "db:r")),
        Command::Status(StatusRequest::databases().into_request()),
        Command::ExecuteForTenant {
            tenant_id: "tenant".to_string(),
            database_name: "db".to_string(),
            schema_name: "public".to_string(),
            command: Box::new(read_drawer("gem")),
        },
        Command::Execute {
            coordinate: StorageCoordinate::new("tenant", "db", "public"),
            command: Box::new(read_drawer("gem")),
        },
        Command::ExecuteInScope {
            scope: StorageScope::database("db"),
            command: Box::new(read_drawer("gem")),
        },
    ];

    for command in boundary_only_commands {
        let error = execute_in_database(command).unwrap_err();
        assert_eq!(error.kind(), ErrorKind::InvalidInput);
    }
}

#[test]
fn dispatch_drawer_name_resolution_and_registry_validation_cover_nested_commands() {
    assert_eq!(
        command_drawer_name(&Command::Read {
            filter: OperationFilter::pointer("@gem:one"),
            options: OperationOptions::default(),
        }),
        Some("gem".to_string())
    );
    assert_eq!(
        command_drawer_name(&Command::Delete {
            filter: OperationFilter::pointer("not-a-pointer"),
            options: OperationOptions::default(),
        }),
        None
    );
    assert_eq!(
        command_drawer_name(&Command::ExecuteInScope {
            scope: StorageScope::drawer("namespace"),
            command: Box::new(Command::Compact(CompactRequest::drawer("nested"))),
        }),
        Some("nested".to_string())
    );
    assert_eq!(command_drawer_name(&Command::Create(CreateRequest::database("db"))), None);

    let empty_registry = CatalogRegistry::new();
    validate_command_against_registry(&empty_registry, "db", "public", &read_drawer("anything"))
        .expect("empty registry should not restrict commands");

    let mut registry = CatalogRegistry::new();
    registry.register_drawer("db", "public", "gem", "db/public");
    validate_command_against_registry(&registry, "db", "public", &read_drawer("gem"))
        .expect("registered drawer should pass");
    validate_command_against_registry(&registry, "db", "public", &read_drawer("missing"))
        .expect_err("unregistered drawer should fail");
    validate_command_against_registry(
        &registry,
        "db",
        "public",
        &Command::Status(StatusRequest::tenants().into_request()),
    )
    .expect("commands without drawer names should pass");
}

#[test]
fn a_command_whose_log_entry_fails_ends_with_that_error() {
    let plan = execute_command(Command::Upsert {
        payload: json(r#"{"name":"Ruby"}"#),
        filter: OperationFilter::drawer("gem"),
        options: OperationOptions::default(),
    })
    .expect("command should be planned");
    let action = match first_step(plan.append_wal, plan.action) {
        BoundaryStep::AppendWal { action } => action,
        BoundaryStep::Perform { .. } => panic!("an upsert should be logged first"),
    };
    let refused = after_log(Err(Error::new(ErrorKind::Other, "disk full".to_string())), action)
        .expect_err("a failed log entry should end the command");
    assert_eq!(refused.kind, ErrorKind::Other);
    assert_eq!(refused.message, "disk full");

    let read = execute_command(read_drawer("gem")).expect("command should be planned");
    assert!(matches!(
        first_step(read.append_wal, read.action),
        BoundaryStep::Perform { action: BoundaryAction::ExecuteLocal { .. } }
    ));
}
