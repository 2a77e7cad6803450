//! The plain commands: one for each thing that can be done.
use crate::command::results::{
    BackupArchive, CheckReport, DrawerInspectionMetrics, RestoreReport, StorageDiagnosis,
};
use crate::drawer::vacuum::VacuumReport;
use crate::storage::types::{
    QueryModifiers, StorageCoordinate, StorageInventory, StorageScope, WalVerification,
};
use crate::value::JsonValue;
use vstd::prelude::*;

verus! {

/// A plain command.
#[allow(inconsistent_fields)]
#[derive(Debug, PartialEq, Eq)]
pub enum Command {
    ShowTenants,
    ShowDatabases,
    VerifyWal { database_name: Option<String> },
    ShowSchemas { database_name: String },
    ShowDrawers { database_name: String, schema_name: String },
    Upsert { drawer_name: String, payload: JsonValue },
    BulkUpsert { drawer_name: String, records: Vec<JsonValue>, atomic: bool },
    FindAll { drawer_name: String },
    FindById { pointer: String },
    FindByFilter { drawer_name: String, filter: JsonValue, modifiers: Option<QueryModifiers> },
    Count { drawer_name: String, filter: Option<JsonValue>, modifiers: Option<QueryModifiers> },
    Delete { pointer: String },
    DeleteByFilter { drawer_name: String, filter: JsonValue },
    Vacuum { drawer_name: String },
    Migrate { drawer_name: String },
    Inspect { drawer_name: String },
    Check { path: String },
    Diagnose,
    ListDrawers,
    Backup { source_path: String },
    Restore { destination_path: String, archive: BackupArchive },
    DefineDatabase { database_name: String },
    DefineSchema { database_name: String, schema_name: String },
    DefineDrawer { database_name: String, schema_name: String, drawer_name: String },
    DefineTenantRoute { tenant_id: String, database_name: String, location: String },
    DropDatabase { database_name: String },
    DropSchema { database_name: String, schema_name: String },
    DropDrawer { database_name: String, schema_name: String, drawer_name: String },
    ManageSchema {
        action: String,
        kind: String,
        drawer_name: String,
        field_name: String,
        payload: JsonValue,
    },
    ManageUser { action: String, payload: JsonValue },
    ExecuteForTenant {
        tenant_id: String,
        database_name: String,
        schema_name: String,
        command: Box<Command>,
    },
    Execute { coordinate: StorageCoordinate, command: Box<Command> },
    ExecuteInScope { scope: StorageScope, command: Box<Command> },
}

/// The result of a plain command.
#[derive(Debug, PartialEq, Eq)]
pub enum CommandResult {
    StorageInventory(StorageInventory),
    Tenants(Vec<String>),
    Databases(Vec<StorageInventory>),
    WalVerification(WalVerification),
    Schemas(Vec<String>),
    Drawers(Vec<StorageInventory>),
    Pointer(String),
    Pointers(Vec<String>),
    Records(Vec<JsonValue>),
    Record(Option<JsonValue>),
    Count(usize),
    Deleted(bool),
    Vacuumed(VacuumReport),
    Migrated(VacuumReport),
    Inspection(DrawerInspectionMetrics),
    Check(CheckReport),
    Diagnosis(StorageDiagnosis),
    DrawerNames(Vec<String>),
    Backup(BackupArchive),
    Restored(RestoreReport),
    Admin(JsonValue),
}

} // verus!
