//! How a plain command is carried out: at the boundary of the engine, or in a database.
use crate::catalog::registry::CatalogRegistry;
use crate::command::dispatch::{
    check_registered, registry_refusal, BoundaryAction, BoundaryOutcome,
};
use crate::command::flat::{Command, CommandResult};
use crate::command::results::StatusResult;
use crate::drawer::vacuum::VacuumReport;
use crate::error::{bad_input, Error, Failure};
use crate::pointer::{pointer_parts, try_parse_pointer};
use crate::storage::types::{QueryModifiers, StorageLocator};
use crate::text::{opt_text, owned};
use crate::value::JsonValue;
use vstd::prelude::*;

pub mod laws;

verus! {

/// Whether a command is logged at the boundary: all are but those that change the catalog, and
/// those that look at the storage as a whole or restore it.
pub open spec fn is_logged(command: Command) -> bool {
    match command {
        Command::DefineDatabase { .. } => false,
        Command::DefineSchema { .. } => false,
        Command::DefineDrawer { .. } => false,
        Command::DefineTenantRoute { .. } => false,
        Command::DropDatabase { .. } => false,
        Command::DropSchema { .. } => false,
        Command::DropDrawer { .. } => false,
        Command::ManageUser { .. } => false,
        Command::Inspect { .. } => false,
        Command::Check { .. } => false,
        Command::Diagnose => false,
        Command::ListDrawers => false,
        Command::Backup { .. } => false,
        Command::Restore { .. } => false,
        _ => true,
    }
}

/// What a command asks of the engine.
pub open spec fn boundary_action(command: Command) -> BoundaryAction<Command> {
    match command {
        Command::ShowTenants => BoundaryAction::ShowTenants,
        Command::ShowDatabases => BoundaryAction::ShowDatabases,
        Command::VerifyWal { database_name } => BoundaryAction::VerifyWal { database_name },
        Command::ShowSchemas { database_name } => BoundaryAction::ShowSchemas { database_name },
        Command::ShowDrawers { database_name, schema_name } => BoundaryAction::ShowDrawers {
            database_name,
            schema_name,
        },
        Command::DefineDatabase { database_name } => BoundaryAction::CreateDatabase {
            database_name,
        },
        Command::DefineSchema { database_name, schema_name } => BoundaryAction::CreateSchema {
            database_name,
            schema_name,
        },
        Command::DefineDrawer { database_name, schema_name, drawer_name } => {
            BoundaryAction::CreateDrawer { database_name, schema_name, drawer_name }
        },
        Command::DefineTenantRoute { tenant_id, database_name, location } => {
            BoundaryAction::RegisterTenantRoute { tenant_id, database_name, location }
        },
        Command::DropDatabase { database_name } => BoundaryAction::DropDatabase { database_name },
        Command::DropSchema { database_name, schema_name } => BoundaryAction::DropSchema {
            database_name,
            schema_name,
        },
        Command::DropDrawer { database_name, schema_name, drawer_name } => {
            BoundaryAction::DropDrawer { database_name, schema_name, drawer_name }
        },
        Command::Inspect { drawer_name } => BoundaryAction::InspectDrawer { drawer_name },
        Command::Check { path } => BoundaryAction::CheckPath { path },
        Command::Diagnose => BoundaryAction::DiagnoseStorage,
        Command::ListDrawers => BoundaryAction::ListDrawerNames,
        Command::Backup { source_path } => BoundaryAction::BackupArchive { source_path },
        Command::Restore { destination_path, archive } => BoundaryAction::RestoreArchive {
            destination_path,
            archive,
        },
        Command::ManageUser { action, payload } => BoundaryAction::ManageUser { action, payload },
        Command::ExecuteForTenant { tenant_id, database_name, schema_name, command: inner } => {
            BoundaryAction::ExecuteForTenant {
                tenant_id,
                database_name,
                schema_name,
                command: inner,
            }
        },
        Command::Execute { coordinate, command: inner } => BoundaryAction::Execute {
            coordinate,
            command: inner,
        },
        Command::ExecuteInScope { scope, command: inner } => BoundaryAction::ExecuteInScope {
            scope,
            command: inner,
        },
        _ => BoundaryAction::ExecuteLocal { command: Box::new(command) },
    }
}

fn should_append_boundary_wal(command: &Command) -> (r: bool)
    ensures
        r == is_logged(*command),
{
    match command {
        Command::DefineDatabase { .. } => false,
        Command::DefineSchema { .. } => false,
        Command::DefineDrawer { .. } => false,
        Command::DefineTenantRoute { .. } => false,
        Command::DropDatabase { .. } => false,
        Command::DropSchema { .. } => false,
        Command::DropDrawer { .. } => false,
        Command::ManageUser { .. } => false,
        Command::Inspect { .. } => false,
        Command::Check { .. } => false,
        Command::Diagnose => false,
        Command::ListDrawers => false,
        Command::Backup { .. } => false,
        Command::Restore { .. } => false,
        _ => true,
    }
}

/// How a command is carried out at the boundary of the engine: whether it is logged first, and
/// what the engine is asked to do.
pub fn execute_command(command: Command) -> (r: (bool, BoundaryAction<Command>))
    ensures
        r.0 == is_logged(command),
        r.1 == boundary_action(command),
{
    let append_wal = should_append_boundary_wal(&command);
    let action = match command {
        Command::ShowTenants => BoundaryAction::ShowTenants,
        Command::ShowDatabases => BoundaryAction::ShowDatabases,
        Command::VerifyWal { database_name } => BoundaryAction::VerifyWal { database_name },
        Command::ShowSchemas { database_name } => BoundaryAction::ShowSchemas { database_name },
        Command::ShowDrawers { database_name, schema_name } => BoundaryAction::ShowDrawers {
            database_name,
            schema_name,
        },
        Command::DefineDatabase { database_name } => BoundaryAction::CreateDatabase {
            database_name,
        },
        Command::DefineSchema { database_name, schema_name } => BoundaryAction::CreateSchema {
            database_name,
            schema_name,
        },
        Command::DefineDrawer { database_name, schema_name, drawer_name } => {
            BoundaryAction::CreateDrawer { database_name, schema_name, drawer_name }
        },
        Command::DefineTenantRoute { tenant_id, database_name, location } => {
            BoundaryAction::RegisterTenantRoute { tenant_id, database_name, location }
        },
        Command::DropDatabase { database_name } => BoundaryAction::DropDatabase { database_name },
        Command::DropSchema { database_name, schema_name } => BoundaryAction::DropSchema {
            database_name,
            schema_name,
        },
        Command::DropDrawer { database_name, schema_name, drawer_name } => {
            BoundaryAction::DropDrawer { database_name, schema_name, drawer_name }
        },
        Command::Inspect { drawer_name } => BoundaryAction::InspectDrawer { drawer_name },
        Command::Check { path } => BoundaryAction::CheckPath { path },
        Command::Diagnose => BoundaryAction::DiagnoseStorage,
        Command::ListDrawers => BoundaryAction::ListDrawerNames,
        Command::Backup { source_path } => BoundaryAction::BackupArchive { source_path },
        Command::Restore { destination_path, archive } => BoundaryAction::RestoreArchive {
            destination_path,
            archive,
        },
        Command::ManageUser { action, payload } => BoundaryAction::ManageUser { action, payload },
        Command::ExecuteForTenant { tenant_id, database_name, schema_name, command } => {
            BoundaryAction::ExecuteForTenant { tenant_id, database_name, schema_name, command }
        },
        Command::Execute { coordinate, command } => BoundaryAction::Execute {
            coordinate,
            command,
        },
        Command::ExecuteInScope { scope, command } => BoundaryAction::ExecuteInScope {
            scope,
            command,
        },
        other => BoundaryAction::ExecuteLocal { command: Box::new(other) },
    };
    (append_wal, action)
}

/// The result that an answer of the engine is made into.
pub open spec fn result_of(outcome: BoundaryOutcome<CommandResult>) -> Option<CommandResult> {
    match outcome {
        BoundaryOutcome::Status(StatusResult::Tenants(names)) => Some(
            CommandResult::Tenants(names),
        ),
        BoundaryOutcome::Status(StatusResult::Databases(all)) => Some(
            CommandResult::Databases(all),
        ),
        BoundaryOutcome::Status(StatusResult::Wal(wal)) => Some(
            CommandResult::WalVerification(wal),
        ),
        BoundaryOutcome::Status(StatusResult::Schemas(names)) => Some(
            CommandResult::Schemas(names),
        ),
        BoundaryOutcome::Status(StatusResult::Drawers(all)) => Some(CommandResult::Drawers(all)),
        BoundaryOutcome::Status(StatusResult::Check(report)) => Some(CommandResult::Check(report)),
        BoundaryOutcome::Status(StatusResult::Storage(diagnosis)) => Some(
            CommandResult::Diagnosis(diagnosis),
        ),
        BoundaryOutcome::Status(StatusResult::DrawerNames(names)) => Some(
            CommandResult::DrawerNames(names),
        ),
        BoundaryOutcome::Status(StatusResult::CachedDrawerCount(_)) => None,
        BoundaryOutcome::Inventory(inventory) => Some(CommandResult::StorageInventory(inventory)),
        BoundaryOutcome::Inspection(metrics) => Some(CommandResult::Inspection(metrics)),
        BoundaryOutcome::Archive(archive) => Some(CommandResult::Backup(archive)),
        BoundaryOutcome::Restored(report) => Some(CommandResult::Restored(report)),
        BoundaryOutcome::Admin(value) => Some(CommandResult::Admin(value)),
        BoundaryOutcome::Whole(whole) => Some(whole),
    }
}

/// The result that an answer of the engine is made into; none for an answer that no command
/// asks for.
pub fn boundary_result(outcome: BoundaryOutcome<CommandResult>) -> (r: Option<CommandResult>)
    ensures
        r == result_of(outcome),
{
    match outcome {
        BoundaryOutcome::Status(status) => match status {
            StatusResult::Tenants(names) => Some(CommandResult::Tenants(names)),
            StatusResult::Databases(all) => Some(CommandResult::Databases(all)),
            StatusResult::Wal(wal) => Some(CommandResult::WalVerification(wal)),
            StatusResult::Schemas(names) => Some(CommandResult::Schemas(names)),
            StatusResult::Drawers(all) => Some(CommandResult::Drawers(all)),
            StatusResult::Check(report) => Some(CommandResult::Check(report)),
            StatusResult::Storage(diagnosis) => Some(CommandResult::Diagnosis(diagnosis)),
            StatusResult::DrawerNames(names) => Some(CommandResult::DrawerNames(names)),
            StatusResult::CachedDrawerCount(_) => None,
        },
        BoundaryOutcome::Inventory(inventory) => Some(CommandResult::StorageInventory(inventory)),
        BoundaryOutcome::Inspection(metrics) => Some(CommandResult::Inspection(metrics)),
        BoundaryOutcome::Archive(archive) => Some(CommandResult::Backup(archive)),
        BoundaryOutcome::Restored(report) => Some(CommandResult::Restored(report)),
        BoundaryOutcome::Admin(value) => Some(CommandResult::Admin(value)),
        BoundaryOutcome::Whole(whole) => Some(whole),
    }
}

/// What is done in a database.
#[allow(inconsistent_fields)]
#[derive(Debug, PartialEq, Eq)]
pub enum DatabaseAction {
    Upsert { drawer_name: String, payload: JsonValue },
    BulkUpsert { drawer_name: String, records: Vec<JsonValue>, atomic: bool },
    FindAll { drawer_name: String },
    FindById { pointer: String },
    FindByFilter { drawer_name: String, filter: JsonValue, modifiers: Option<QueryModifiers> },
    Count { drawer_name: String, filter: Option<JsonValue>, modifiers: Option<QueryModifiers> },
    DeleteById { locator: StorageLocator },
    DeleteByFilter { drawer_name: String, filter: JsonValue },
    ManageSchema {
        drawer_name: String,
        action: String,
        kind: String,
        field_name: String,
        payload: JsonValue,
    },
    Vacuum { drawer_name: String },
    Migrate { drawer_name: String },
}

/// What a database answers.
#[derive(Debug, PartialEq, Eq)]
pub enum DatabaseOutcome {
    Pointer(String),
    Pointers(Vec<String>),
    Records(Vec<JsonValue>),
    Record(Option<JsonValue>),
    Count(usize),
    Deleted(bool),
    Vacuumed(VacuumReport),
    Migrated(VacuumReport),
    Admin(JsonValue),
}

/// What is done in a database for a command, or why nothing is.
pub open spec fn database_action(command: Command) -> Result<DatabaseAction, Failure> {
    match command {
        Command::ShowTenants => Err(
            bad_input("Tenant discovery is only available at the WardrobeEngine boundary"@),
        ),
        Command::ShowDatabases => Err(
            bad_input("Database discovery is only available at the WardrobeEngine boundary"@),
        ),
        Command::VerifyWal { .. } => Err(
            bad_input("WAL verification is only available at the WardrobeEngine boundary"@),
        ),
        Command::ShowSchemas { .. } => Err(
            bad_input("Schema discovery is only available at the WardrobeEngine boundary"@),
        ),
        Command::ShowDrawers { .. } => Err(
            bad_input("Drawer discovery is only available at the WardrobeEngine boundary"@),
        ),
        Command::Upsert { drawer_name, payload } => match payload {
            JsonValue::Array(records) => Ok(
                DatabaseAction::BulkUpsert { drawer_name, records, atomic: true },
            ),
            _ => Ok(DatabaseAction::Upsert { drawer_name, payload }),
        },
        Command::BulkUpsert { drawer_name, records, atomic } => Ok(
            DatabaseAction::BulkUpsert { drawer_name, records, atomic },
        ),
        Command::FindAll { drawer_name } => Ok(DatabaseAction::FindAll { drawer_name }),
        Command::FindById { pointer } => Ok(DatabaseAction::FindById { pointer }),
        Command::FindByFilter { drawer_name, filter, modifiers } => Ok(
            DatabaseAction::FindByFilter { drawer_name, filter, modifiers },
        ),
        Command::Count { drawer_name, filter, modifiers } => Ok(
            DatabaseAction::Count { drawer_name, filter, modifiers },
        ),
        Command::Delete { pointer } => Ok(
            DatabaseAction::DeleteById { locator: StorageLocator::Inline(pointer) },
        ),
        Command::DeleteByFilter { drawer_name, filter } => Ok(
            DatabaseAction::DeleteByFilter { drawer_name, filter },
        ),
        Command::ManageSchema { action, kind, drawer_name, field_name, payload } => Ok(
            DatabaseAction::ManageSchema { drawer_name, action, kind, field_name, payload },
        ),
        Command::Vacuum { drawer_name } => Ok(DatabaseAction::Vacuum { drawer_name }),
        Command::Migrate { drawer_name } => Ok(DatabaseAction::Migrate { drawer_name }),
        Command::Inspect { .. } => Err(diagnostics_only()),
        Command::Check { .. } => Err(diagnostics_only()),
        Command::Diagnose => Err(diagnostics_only()),
        Command::ListDrawers => Err(diagnostics_only()),
        Command::Backup { .. } => Err(diagnostics_only()),
        Command::Restore { .. } => Err(diagnostics_only()),
        _ => Err(catalog_only()),
    }
}

/// The failure of a command that looks at the storage as a whole or restores it.
pub open spec fn diagnostics_only() -> Failure {
    bad_input(
        "Storage diagnostics and recovery commands are only available at the WardrobeEngine boundary"@,
    )
}

/// The failure of a command that changes the catalog or is sent on.
pub open spec fn catalog_only() -> Failure {
    bad_input(
        "Catalog and scoped command routing is only available at the WardrobeEngine boundary"@,
    )
}

fn refused(message: &str) -> (r: Result<DatabaseAction, Error>)
    ensures
        r matches Err(e) && e@ == bad_input(message@),
{
    Err(Error::invalid_input(owned(message)))
}

/// What is done in a database for a command.
pub fn execute_in_database(command: Command) -> (r: Result<DatabaseAction, Error>)
    ensures
        match (database_action(command), r) {
            (Ok(a), Ok(b)) => a == b,
            (Err(f), Err(e)) => e@ == f,
            _ => false,
        },
{
    match command {
        Command::ShowTenants => refused(
            "Tenant discovery is only available at the WardrobeEngine boundary",
        ),
        Command::ShowDatabases => refused(
            "Database discovery is only available at the WardrobeEngine boundary",
        ),
        Command::VerifyWal { .. } => refused(
            "WAL verification is only available at the WardrobeEngine boundary",
        ),
        Command::ShowSchemas { .. } => refused(
            "Schema discovery is only available at the WardrobeEngine boundary",
        ),
        Command::ShowDrawers { .. } => refused(
            "Drawer discovery is only available at the WardrobeEngine boundary",
        ),
        Command::Upsert { drawer_name, payload } => match payload {
            JsonValue::Array(records) => Ok(
                DatabaseAction::BulkUpsert { drawer_name, records, atomic: true },
            ),
            other => Ok(DatabaseAction::Upsert { drawer_name, payload: other }),
        },
        Command::BulkUpsert { drawer_name, records, atomic } => Ok(
            DatabaseAction::BulkUpsert { drawer_name, records, atomic },
        ),
        Command::FindAll { drawer_name } => Ok(DatabaseAction::FindAll { drawer_name }),
        Command::FindById { pointer } => Ok(DatabaseAction::FindById { pointer }),
        Command::FindByFilter { drawer_name, filter, modifiers } => Ok(
            DatabaseAction::FindByFilter { drawer_name, filter, modifiers },
        ),
        Command::Count { drawer_name, filter, modifiers } => Ok(
            DatabaseAction::Count { drawer_name, filter, modifiers },
        ),
        Command::Delete { pointer } => Ok(
            DatabaseAction::DeleteById { locator: StorageLocator::Inline(pointer) },
        ),
        Command::DeleteByFilter { drawer_name, filter } => Ok(
            DatabaseAction::DeleteByFilter { drawer_name, filter },
        ),
        Command::ManageSchema { action, kind, drawer_name, field_name, payload } => Ok(
            DatabaseAction::ManageSchema { drawer_name, action, kind, field_name, payload },
        ),
        Command::Vacuum { drawer_name } => Ok(DatabaseAction::Vacuum { drawer_name }),
        Command::Migrate { drawer_name } => Ok(DatabaseAction::Migrate { drawer_name }),
        Command::Inspect { .. } | Command::Check { .. } | Command::Diagnose | Command::ListDrawers
        | Command::Backup { .. } | Command::Restore { .. } => refused(
            "Storage diagnostics and recovery commands are only available at the WardrobeEngine boundary",
        ),
        _ => refused(
            "Catalog and scoped command routing is only available at the WardrobeEngine boundary",
        ),
    }
}

/// The result that an answer of a database is made into.
pub open spec fn database_result_of(outcome: DatabaseOutcome) -> CommandResult {
    match outcome {
        DatabaseOutcome::Pointer(pointer) => CommandResult::Pointer(pointer),
        DatabaseOutcome::Pointers(pointers) => CommandResult::Pointers(pointers),
        DatabaseOutcome::Records(records) => CommandResult::Records(records),
        DatabaseOutcome::Record(record) => CommandResult::Record(record),
        DatabaseOutcome::Count(n) => CommandResult::Count(n),
        DatabaseOutcome::Deleted(deleted) => CommandResult::Deleted(deleted),
        DatabaseOutcome::Vacuumed(report) => CommandResult::Vacuumed(report),
        DatabaseOutcome::Migrated(report) => CommandResult::Migrated(report),
        DatabaseOutcome::Admin(value) => CommandResult::Admin(value),
    }
}

pub fn database_result(outcome: DatabaseOutcome) -> (r: CommandResult)
    ensures
        r == database_result_of(outcome),
{
    match outcome {
        DatabaseOutcome::Pointer(pointer) => CommandResult::Pointer(pointer),
        DatabaseOutcome::Pointers(pointers) => CommandResult::Pointers(pointers),
        DatabaseOutcome::Records(records) => CommandResult::Records(records),
        DatabaseOutcome::Record(record) => CommandResult::Record(record),
        DatabaseOutcome::Count(n) => CommandResult::Count(n),
        DatabaseOutcome::Deleted(deleted) => CommandResult::Deleted(deleted),
        DatabaseOutcome::Vacuumed(report) => CommandResult::Vacuumed(report),
        DatabaseOutcome::Migrated(report) => CommandResult::Migrated(report),
        DatabaseOutcome::Admin(value) => CommandResult::Admin(value),
    }
}

/// The drawer that a command is about, as far as it can be told beforehand.
pub open spec fn command_drawer(command: Command) -> Option<Seq<char>>
    decreases command,
{
    match command {
        Command::Upsert { drawer_name, payload } => Some(drawer_name@),
        Command::BulkUpsert { drawer_name, records, atomic } => Some(drawer_name@),
        Command::FindAll { drawer_name } => Some(drawer_name@),
        Command::FindByFilter { drawer_name, filter, modifiers } => Some(drawer_name@),
        Command::Count { drawer_name, filter, modifiers } => Some(drawer_name@),
        Command::DeleteByFilter { drawer_name, filter } => Some(drawer_name@),
        Command::ManageSchema { action, kind, drawer_name, field_name, payload } => Some(
            drawer_name@,
        ),
        Command::Vacuum { drawer_name } => Some(drawer_name@),
        Command::Migrate { drawer_name } => Some(drawer_name@),
        Command::FindById { pointer } => pointer_drawer(pointer@),
        Command::Delete { pointer } => pointer_drawer(pointer@),
        Command::Execute { coordinate, command: inner } => command_drawer(*inner),
        Command::ExecuteInScope { scope, command: inner } => command_drawer(*inner),
        _ => None,
    }
}

/// The drawer that a pointer names.
pub open spec fn pointer_drawer(pointer: Seq<char>) -> Option<Seq<char>> {
    match pointer_parts(pointer) {
        Some((drawer, _)) => Some(drawer),
        None => None,
    }
}

fn named_by_pointer(pointer: &str) -> (r: Option<String>)
    ensures
        opt_text(r) == pointer_drawer(pointer@),
{
    match try_parse_pointer(pointer) {
        Some((drawer, _)) => Some(drawer),
        None => None,
    }
}

pub fn command_drawer_name(command: &Command) -> (r: Option<String>)
    ensures
        opt_text(r) == command_drawer(*command),
    decreases command,
{
    match command {
        Command::Upsert { drawer_name, payload } => Some(drawer_name.clone()),
        Command::BulkUpsert { drawer_name, records, atomic } => Some(drawer_name.clone()),
        Command::FindAll { drawer_name } => Some(drawer_name.clone()),
        Command::FindByFilter { drawer_name, filter, modifiers } => Some(drawer_name.clone()),
        Command::Count { drawer_name, filter, modifiers } => Some(drawer_name.clone()),
        Command::DeleteByFilter { drawer_name, filter } => Some(drawer_name.clone()),
        Command::ManageSchema { action, kind, drawer_name, field_name, payload } => Some(
            drawer_name.clone(),
        ),
        Command::Vacuum { drawer_name } => Some(drawer_name.clone()),
        Command::Migrate { drawer_name } => Some(drawer_name.clone()),
        Command::FindById { pointer } => named_by_pointer(pointer.as_str()),
        Command::Delete { pointer } => named_by_pointer(pointer.as_str()),
        Command::Execute { coordinate, command: inner } => command_drawer_name(inner),
        Command::ExecuteInScope { scope, command: inner } => command_drawer_name(inner),
        _ => None,
    }
}

/// Checks the drawer of a command against the catalog.
pub fn validate_command_against_registry(
    registry: &CatalogRegistry,
    database: &str,
    schema: &str,
    command: &Command,
) -> (r: Result<(), Error>)
    ensures
        match (registry_refusal(*registry, database@, schema@, command_drawer(*command)), r) {
            (None, Ok(())) => true,
            (Some(f), Err(e)) => e@ == f,
            _ => false,
        },
{
    check_registered(registry, database, schema, command_drawer_name(command))
}

/// Every command is either carried out in a database or sent elsewhere by the engine: what the
/// engine hands on as it is, a database does not refuse.
pub proof fn law_local_commands_are_carried_out(command: Command)
    requires
        boundary_action(command) == (BoundaryAction::ExecuteLocal { command: Box::new(command) }),
    ensures
        database_action(command) is Ok,
        is_logged(command),
{
}

/// What the engine carries out itself, a database refuses.
pub proof fn law_boundary_commands_are_refused(command: Command)
    requires
        boundary_action(command) != (BoundaryAction::ExecuteLocal { command: Box::new(command) }),
    ensures
        database_action(command) is Err,
{
}

} // verus!
