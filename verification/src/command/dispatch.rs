//! How a command is carried out: at the boundary of the engine, or in a database.
use crate::catalog::registry::{is_registered, CatalogRegistry};
use crate::command::model::{FilterModel, OperationFilter, OperationOptions};
use crate::command::requests::{
    permission_payload, AlterRequest, Command, CompactMode, CompactRequest, CreateRequest,
    DropRequest, StatusRequest,
};
use crate::command::results::{
    encode_status_payload, status_json, BackupArchive, CommandResult, CreateResult,
    DrawerInspectionMetrics, InspectResult, RestoreReport, StatusResult,
};
use crate::engine::plans::{
    count_plan, delete_plan, plan_count, plan_delete, plan_read, read_plan, CountPlan, DeletePlan,
    ReadPlan,
};
use crate::engine::selection::{no_drawer, selected, OperationSelection};
use crate::engine::upsert::{upsert_context, UpsertContext};
use crate::error::{bad_input, not_found, Error, Failure};
use crate::fields::TextMap;
use crate::pointer::{pointer_parts, try_parse_pointer};
use crate::storage::types::{StorageCoordinate, StorageInventory, StorageScope};
use crate::text::{concat2, concat5, opt_text, owned};
use crate::value::{group_value, jsons, Json, JsonValue};
use vstd::prelude::*;

verus! {

/// What the engine is asked to do at its boundary.
#[allow(inconsistent_fields)]
#[derive(Debug, PartialEq, Eq)]
pub enum BoundaryAction<C> {
    ShowTenants,
    ShowDatabases,
    VerifyWal { database_name: Option<String> },
    ShowSchemas { database_name: String },
    ShowDrawers { database_name: String, schema_name: String },
    CreateDatabase { database_name: String },
    CreateSchema { database_name: String, schema_name: String },
    CreateDrawer { database_name: String, schema_name: String, drawer_name: String },
    RegisterTenantRoute { tenant_id: String, database_name: String, location: String },
    DropDatabase { database_name: String },
    DropSchema { database_name: String, schema_name: String },
    DropDrawer { database_name: String, schema_name: String, drawer_name: String },
    InspectDrawer { drawer_name: String },
    CheckPath { path: String },
    DiagnoseStorage,
    ListDrawerNames,
    CachedDrawerCount,
    BackupArchive { source_path: String },
    RestoreArchive { destination_path: String, archive: BackupArchive },
    ManageUser { action: String, payload: JsonValue },
    ExecuteForTenant {
        tenant_id: String,
        database_name: String,
        schema_name: String,
        command: Box<C>,
    },
    Execute { coordinate: StorageCoordinate, command: Box<C> },
    ExecuteInScope { scope: StorageScope, command: Box<C> },
    ExecuteLocal { command: Box<C> },
}

/// What the engine answers at its boundary.
#[derive(Debug, PartialEq, Eq)]
pub enum BoundaryOutcome<R> {
    Status(StatusResult),
    Inventory(StorageInventory),
    Inspection(DrawerInspectionMetrics),
    Archive(BackupArchive),
    Restored(RestoreReport),
    Admin(JsonValue),
    Whole(R),
}

/// The result that an answer is made into.
#[derive(Debug, Clone, Copy, PartialEq, Eq, Structural)]
pub enum ResultKind {
    Create,
    Drop,
    Status,
    Inspect,
    Backup,
    Restore,
    Grant,
    Revoke,
    Whole,
}

/// How a command is carried out at the boundary: whether it is logged first, what the engine is
/// asked to do, and what its answer is made into.
#[derive(Debug, PartialEq, Eq)]
pub struct BoundaryPlan {
    pub append_wal: bool,
    pub action: BoundaryAction<Command>,
    pub kind: ResultKind,
}

/// What is done next for a command: its log entry is written, or the engine is asked to act.
#[derive(Debug, PartialEq, Eq)]
pub enum BoundaryStep<A> {
    AppendWal { action: A },
    Perform { action: A },
}

/// What is done first for a command: where it is logged, its log entry is written before the
/// engine acts.
pub fn first_step<A>(append_wal: bool, action: A) -> (r: BoundaryStep<A>)
    ensures
        r == if append_wal {
            BoundaryStep::AppendWal { action }
        } else {
            BoundaryStep::Perform { action }
        },
{
    if append_wal {
        BoundaryStep::AppendWal { action }
    } else {
        BoundaryStep::Perform { action }
    }
}

/// What is done once the log entry of a command was written. Where it could not be written, the
/// command ends with that error, and the engine does not act.
pub fn after_log<A>(logged: Result<(), Error>, action: A) -> (r: Result<A, Error>)
    ensures
        match logged {
            Ok(_) => r == Ok::<A, Error>(action),
            Err(e) => r == Err::<A, Error>(e),
        },
{
    match logged {
        Ok(()) => Ok(action),
        Err(e) => Err(e),
    }
}

/// Whether a command is logged at the boundary: the ones that change records or their rules.
pub open spec fn is_logged(command: Command) -> bool {
    match command {
        Command::Upsert { .. } => true,
        Command::Delete { .. } => true,
        Command::Compact(_) => true,
        Command::Alter(_) => true,
        Command::Drop(DropRequest::SchemaRule { .. }) => true,
        _ => false,
    }
}

pub fn should_append_boundary_wal(command: &Command) -> (r: bool)
    ensures
        r == is_logged(*command),
{
    match command {
        Command::Upsert { .. } => true,
        Command::Delete { .. } => true,
        Command::Compact(_) => true,
        Command::Alter(_) => true,
        Command::Drop(DropRequest::SchemaRule { .. }) => true,
        _ => false,
    }
}

/// The payload that names a user.
pub open spec fn user_payload(username: Seq<char>) -> Json {
    Json::Object(Map::<Seq<char>, Json>::empty().insert("username"@, Json::Text(username)))
}

/// Whether the action manages a user.
pub open spec fn manages_user<C>(
    action: BoundaryAction<C>,
    wanted: Seq<char>,
    payload: Json,
) -> bool {
    action matches BoundaryAction::ManageUser { action: a, payload: p } && a@ == wanted && p@
        == payload
}

/// What a create request asks of the engine.
pub open spec fn creates(request: CreateRequest, action: BoundaryAction<Command>) -> bool {
    match request {
        CreateRequest::Database { database_name } => action == (BoundaryAction::<Command>::CreateDatabase {
            database_name,
        }),
        CreateRequest::Schema { database_name, schema_name } => action == (
        BoundaryAction::<Command>::CreateSchema { database_name, schema_name }),
        CreateRequest::Drawer { database_name, schema_name, drawer_name } => action == (
        BoundaryAction::<Command>::CreateDrawer { database_name, schema_name, drawer_name }),
        CreateRequest::TenantRoute { tenant_id, database_name, location } => action == (
        BoundaryAction::<Command>::RegisterTenantRoute { tenant_id, database_name, location }),
        CreateRequest::User { payload } => manages_user(action, "add_user"@, payload@),
    }
}

/// What a drop request asks of the engine.
pub open spec fn drops(request: DropRequest, action: BoundaryAction<Command>) -> bool {
    match request {
        DropRequest::Database { database_name } => action == (BoundaryAction::<Command>::DropDatabase {
            database_name,
        }),
        DropRequest::Schema { database_name, schema_name } => action == (
        BoundaryAction::<Command>::DropSchema { database_name, schema_name }),
        DropRequest::Drawer { database_name, schema_name, drawer_name } => action == (
        BoundaryAction::<Command>::DropDrawer { database_name, schema_name, drawer_name }),
        DropRequest::User { username } => manages_user(
            action,
            "drop_user"@,
            user_payload(username@),
        ),
        DropRequest::SchemaRule { .. } => action == (BoundaryAction::<Command>::ExecuteLocal {
            command: Box::new(Command::Drop(request)),
        }),
    }
}

/// What a status request asks of the engine.
pub open spec fn status_action(request: StatusRequest) -> BoundaryAction<Command> {
    match request {
        StatusRequest::Tenants => BoundaryAction::ShowTenants,
        StatusRequest::Databases => BoundaryAction::ShowDatabases,
        StatusRequest::Schemas { database_name } => BoundaryAction::ShowSchemas { database_name },
        StatusRequest::Drawers { database_name, schema_name } => BoundaryAction::ShowDrawers {
            database_name,
            schema_name,
        },
        StatusRequest::Wal { database_name } => BoundaryAction::VerifyWal { database_name },
        StatusRequest::Storage => BoundaryAction::DiagnoseStorage,
        StatusRequest::Path { path } => BoundaryAction::CheckPath { path },
        StatusRequest::DrawerNames => BoundaryAction::ListDrawerNames,
        StatusRequest::CachedDrawerCount => BoundaryAction::CachedDrawerCount,
    }
}

/// The drawer that an inspection is about.
pub open spec fn inspected(filter: FilterModel) -> Result<Seq<char>, Failure> {
    match selected(filter) {
        Err(f) => Err(f),
        Ok(s) => match s.drawer {
            Some(drawer) => Ok(drawer),
            None => Err(no_drawer("inspect"@)),
        },
    }
}

/// Whether this is how the command is carried out at the boundary.
pub open spec fn is_boundary_plan(command: Command, plan: BoundaryPlan) -> bool {
    &&& plan.append_wal == is_logged(command)
    &&& match command {
        Command::Create(request) => plan.kind == ResultKind::Create && creates(
            request,
            plan.action,
        ),
        Command::Drop(request) => plan.kind == (if request is SchemaRule {
            ResultKind::Whole
        } else {
            ResultKind::Drop
        }) && drops(request, plan.action),
        Command::Status(request) => plan.kind == ResultKind::Status && plan.action
            == status_action(request),
        Command::Inspect { filter, options } => {
            &&& plan.kind == ResultKind::Inspect
            &&& plan.action matches BoundaryAction::InspectDrawer { drawer_name }
            &&& inspected(filter@) == Ok::<_, Failure>(drawer_name@)
        },
        Command::Backup { source_path } => plan.kind == ResultKind::Backup && plan.action == (
        BoundaryAction::<Command>::BackupArchive { source_path }),
        Command::Restore { destination_path, archive } => plan.kind == ResultKind::Restore
            && plan.action == (BoundaryAction::<Command>::RestoreArchive {
            destination_path,
            archive,
        }),
        Command::Grant(request) => plan.kind == ResultKind::Grant && manages_user(
            plan.action,
            "grant_permission"@,
            permission_payload(request),
        ),
        Command::Revoke(request) => plan.kind == ResultKind::Revoke && manages_user(
            plan.action,
            "revoke_permission"@,
            permission_payload(request),
        ),
        Command::ExecuteForTenant { tenant_id, database_name, schema_name, command: inner } =>
            plan.kind == ResultKind::Whole && plan.action == (BoundaryAction::ExecuteForTenant {
            tenant_id,
            database_name,
            schema_name,
            command: inner,
        }),
        Command::Execute { coordinate, command: inner } => plan.kind == ResultKind::Whole
            && plan.action == (BoundaryAction::Execute { coordinate, command: inner }),
        Command::ExecuteInScope { scope, command: inner } => plan.kind == ResultKind::Whole
            && plan.action == (BoundaryAction::ExecuteInScope { scope, command: inner }),
        _ => plan.kind == ResultKind::Whole && plan.action == (BoundaryAction::ExecuteLocal {
            command: Box::new(command),
        }),
    }
}

/// Why a command is not carried out at the boundary: an inspection without a drawer.
pub open spec fn boundary_refusal(command: Command) -> Option<Failure> {
    match command {
        Command::Inspect { filter, options } => match inspected(filter@) {
            Ok(_) => None,
            Err(f) => Some(f),
        },
        _ => None,
    }
}

fn plan_create(request: CreateRequest) -> (r: BoundaryAction<Command>)
    ensures
        creates(request, r),
{
    match request {
        CreateRequest::Database { database_name } => BoundaryAction::CreateDatabase {
            database_name,
        },
        CreateRequest::Schema { database_name, schema_name } => BoundaryAction::CreateSchema {
            database_name,
            schema_name,
        },
        CreateRequest::Drawer { database_name, schema_name, drawer_name } => {
            BoundaryAction::CreateDrawer { database_name, schema_name, drawer_name }
        },
        CreateRequest::TenantRoute { tenant_id, database_name, location } => {
            BoundaryAction::RegisterTenantRoute { tenant_id, database_name, location }
        },
        CreateRequest::User { payload } => BoundaryAction::ManageUser {
            action: owned("add_user"),
            payload,
        },
    }
}

fn plan_drop(request: DropRequest) -> (r: BoundaryAction<Command>)
    ensures
        drops(request, r),
{
    broadcast use group_value;

    match request {
        DropRequest::Database { database_name } => BoundaryAction::DropDatabase { database_name },
        DropRequest::Schema { database_name, schema_name } => BoundaryAction::DropSchema {
            database_name,
            schema_name,
        },
        DropRequest::Drawer { database_name, schema_name, drawer_name } => {
            BoundaryAction::DropDrawer { database_name, schema_name, drawer_name }
        },
        DropRequest::User { username } => {
            let mut fields: TextMap<JsonValue> = TextMap::new();
            fields.insert(owned("username"), JsonValue::text(username.as_str()));
            BoundaryAction::ManageUser {
                action: owned("drop_user"),
                payload: JsonValue::object(fields),
            }
        },
        other => BoundaryAction::ExecuteLocal { command: Box::new(Command::Drop(other)) },
    }
}

fn plan_status(request: StatusRequest) -> (r: BoundaryAction<Command>)
    ensures
        r == status_action(request),
{
    match request {
        StatusRequest::Tenants => BoundaryAction::ShowTenants,
        StatusRequest::Databases => BoundaryAction::ShowDatabases,
        StatusRequest::Schemas { database_name } => BoundaryAction::ShowSchemas { database_name },
        StatusRequest::Drawers { database_name, schema_name } => BoundaryAction::ShowDrawers {
            database_name,
            schema_name,
        },
        StatusRequest::Wal { database_name } => BoundaryAction::VerifyWal { database_name },
        StatusRequest::Storage => BoundaryAction::DiagnoseStorage,
        StatusRequest::Path { path } => BoundaryAction::CheckPath { path },
        StatusRequest::DrawerNames => BoundaryAction::ListDrawerNames,
        StatusRequest::CachedDrawerCount => BoundaryAction::CachedDrawerCount,
    }
}

/// How a command is carried out at the boundary of the engine.
pub fn execute_command(command: Command) -> (r: Result<BoundaryPlan, Error>)
    ensures
        match r {
            Ok(plan) => boundary_refusal(command) is None && is_boundary_plan(command, plan),
            Err(e) => boundary_refusal(command) == Some(e@),
        },
{
    let append_wal = should_append_boundary_wal(&command);
    let (action, kind) = match command {
        Command::Create(request) => (plan_create(request), ResultKind::Create),
        Command::Drop(request) => {
            let kind = match &request {
                DropRequest::SchemaRule { .. } => ResultKind::Whole,
                _ => ResultKind::Drop,
            };
            (plan_drop(request), kind)
        },
        Command::Status(request) => (plan_status(request), ResultKind::Status),
        Command::Inspect { filter, options } => {
            let selection = match OperationSelection::from_filter(&filter) {
                Ok(selection) => selection,
                Err(e) => {
                    return Err(e);
                },
            };
            match selection.required_drawer("inspect") {
                Ok(drawer_name) => (
                    BoundaryAction::InspectDrawer { drawer_name },
                    ResultKind::Inspect,
                ),
                Err(e) => {
                    return Err(e);
                },
            }
        },
        Command::Backup { source_path } => (
            BoundaryAction::BackupArchive { source_path },
            ResultKind::Backup,
        ),
        Command::Restore { destination_path, archive } => (
            BoundaryAction::RestoreArchive { destination_path, archive },
            ResultKind::Restore,
        ),
        Command::Grant(request) => (
            BoundaryAction::ManageUser {
                action: owned("grant_permission"),
                payload: request.into_payload(),
            },
            ResultKind::Grant,
        ),
        Command::Revoke(request) => (
            BoundaryAction::ManageUser {
                action: owned("revoke_permission"),
                payload: request.into_payload(),
            },
            ResultKind::Revoke,
        ),
        Command::ExecuteForTenant { tenant_id, database_name, schema_name, command } => (
            BoundaryAction::ExecuteForTenant { tenant_id, database_name, schema_name, command },
            ResultKind::Whole,
        ),
        Command::Execute { coordinate, command } => (
            BoundaryAction::Execute { coordinate, command },
            ResultKind::Whole,
        ),
        Command::ExecuteInScope { scope, command } => (
            BoundaryAction::ExecuteInScope { scope, command },
            ResultKind::Whole,
        ),
        other => (
            BoundaryAction::ExecuteLocal { command: Box::new(other) },
            ResultKind::Whole,
        ),
    };
    Ok(BoundaryPlan { append_wal, action, kind })
}

/// Whether the result is what an answer of the engine is made into.
pub open spec fn is_boundary_result(
    kind: ResultKind,
    outcome: BoundaryOutcome<CommandResult>,
    result: Option<CommandResult>,
) -> bool {
    match (kind, outcome) {
        (ResultKind::Create, BoundaryOutcome::Inventory(inventory)) => result == Some(
            CommandResult::Create(CreateResult::StorageInventory(inventory)),
        ),
        (ResultKind::Create, BoundaryOutcome::Admin(value)) => result == Some(
            CommandResult::Create(CreateResult::Admin(value)),
        ),
        (ResultKind::Drop, BoundaryOutcome::Admin(value)) => result == Some(
            CommandResult::Drop(value),
        ),
        (ResultKind::Grant, BoundaryOutcome::Admin(value)) => result == Some(
            CommandResult::Grant(value),
        ),
        (ResultKind::Revoke, BoundaryOutcome::Admin(value)) => result == Some(
            CommandResult::Revoke(value),
        ),
        (ResultKind::Status, BoundaryOutcome::Status(status)) => result matches Some(
            CommandResult::Status(value),
        ) && value@ == status_json(status),
        (ResultKind::Inspect, BoundaryOutcome::Inspection(metrics)) => result == Some(
            CommandResult::Inspect(InspectResult::Drawer(metrics)),
        ),
        (ResultKind::Backup, BoundaryOutcome::Archive(archive)) => result == Some(
            CommandResult::Backup(archive),
        ),
        (ResultKind::Restore, BoundaryOutcome::Restored(report)) => result == Some(
            CommandResult::Restore(report),
        ),
        (ResultKind::Whole, BoundaryOutcome::Whole(whole)) => result == Some(whole),
        _ => result is None,
    }
}

/// The result that an answer of the engine is made into; none where the answer does not belong
/// to the command.
pub fn boundary_result(kind: ResultKind, outcome: BoundaryOutcome<CommandResult>) -> (r: Option<
    CommandResult,
>)
    ensures
        is_boundary_result(kind, outcome, r),
{
    match (kind, outcome) {
        (ResultKind::Create, BoundaryOutcome::Inventory(inventory)) => Some(
            CommandResult::Create(CreateResult::StorageInventory(inventory)),
        ),
        (ResultKind::Create, BoundaryOutcome::Admin(value)) => Some(
            CommandResult::Create(CreateResult::Admin(value)),
        ),
        (ResultKind::Drop, BoundaryOutcome::Admin(value)) => Some(CommandResult::Drop(value)),
        (ResultKind::Grant, BoundaryOutcome::Admin(value)) => Some(CommandResult::Grant(value)),
        (ResultKind::Revoke, BoundaryOutcome::Admin(value)) => Some(CommandResult::Revoke(value)),
        (ResultKind::Status, BoundaryOutcome::Status(status)) => Some(
            CommandResult::Status(encode_status_payload(&status)),
        ),
        (ResultKind::Inspect, BoundaryOutcome::Inspection(metrics)) => Some(
            CommandResult::Inspect(InspectResult::Drawer(metrics)),
        ),
        (ResultKind::Backup, BoundaryOutcome::Archive(archive)) => Some(
            CommandResult::Backup(archive),
        ),
        (ResultKind::Restore, BoundaryOutcome::Restored(report)) => Some(
            CommandResult::Restore(report),
        ),
        (ResultKind::Whole, BoundaryOutcome::Whole(whole)) => Some(whole),
        _ => None,
    }
}

/// What is done in a database.
#[allow(inconsistent_fields)]
#[derive(Debug, PartialEq, Eq)]
pub enum DatabaseAction {
    Upsert { payload: JsonValue, context: UpsertContext, options: OperationOptions },
    Read { selection: OperationSelection, plan: ReadPlan, options: OperationOptions },
    Count { plan: CountPlan, options: OperationOptions },
    Delete { plan: DeletePlan },
    Compact { drawer_name: String, mode: CompactMode },
    /// The answer is that of a drop where the rule is dropped, else that of a change.
    ManageSchema {
        drawer_name: String,
        action: String,
        kind: String,
        field_name: String,
        payload: JsonValue,
        is_drop: bool,
    },
}

/// The failure of a command that belongs to the boundary.
pub open spec fn boundary_only() -> Failure {
    bad_input(
        "Catalog, status, diagnostics, recovery, and scoped command routing is only available at the WardrobeEngine boundary"@,
    )
}

/// Whether this is what is done in a database for a command, or why nothing is.
pub open spec fn is_database_plan(command: Command, r: Result<DatabaseAction, Error>) -> bool {
    match command {
        Command::Upsert { payload, filter, options } => match (upsert_context(filter@), r) {
            (
                Ok(c),
                Ok(DatabaseAction::Upsert { payload: p, context, options: o }),
            ) => p == payload && context@ == c && o == options,
            (Err(f), Err(e)) => e@ == f,
            _ => false,
        },
        Command::Read { filter, options } => match selected(filter@) {
            Err(f) => r matches Err(e) && e@ == f,
            Ok(s) => match (read_plan(s), r) {
                (
                    Ok(p),
                    Ok(DatabaseAction::Read { selection, plan, options: o }),
                ) => selection@ == s && plan@ == p && o == options,
                (Err(f), Err(e)) => e@ == f,
                _ => false,
            },
        },
        Command::Count { filter, options } => match selected(filter@) {
            Err(f) => r matches Err(e) && e@ == f,
            Ok(s) => match (count_plan(s), r) {
                (Ok(p), Ok(DatabaseAction::Count { plan, options: o })) => plan@ == p && o
                    == options,
                (Err(f), Err(e)) => e@ == f,
                _ => false,
            },
        },
        Command::Delete { filter, options } => match selected(filter@) {
            Err(f) => r matches Err(e) && e@ == f,
            Ok(s) => match (delete_plan(s), r) {
                (Ok(p), Ok(DatabaseAction::Delete { plan })) => plan@ == p,
                (Err(f), Err(e)) => e@ == f,
                _ => false,
            },
        },
        Command::Compact(CompactRequest::Drawer { drawer_name, mode }) => r == Ok::<_, Error>(
            DatabaseAction::Compact { drawer_name, mode },
        ),
        Command::Alter(
            AlterRequest::SchemaRule { drawer_name, action, kind, field_name, payload },
        ) => r == Ok::<_, Error>(
            DatabaseAction::ManageSchema {
                drawer_name,
                action,
                kind,
                field_name,
                payload,
                is_drop: false,
            },
        ),
        Command::Drop(DropRequest::SchemaRule { drawer_name, kind, field_name, payload }) => r matches Ok(
            DatabaseAction::ManageSchema {
                drawer_name: d,
                action: a,
                kind: k,
                field_name: f,
                payload: p,
                is_drop,
            },
        ) && d == drawer_name && a@ == "remove"@ && k == kind && f == field_name && p == payload
            && is_drop,
        _ => r matches Err(e) && e@ == boundary_only(),
    }
}

fn plan_read_command(filter: &OperationFilter, options: OperationOptions) -> (r: Result<
    DatabaseAction,
    Error,
>)
    ensures
        match selected(filter@) {
            Err(f) => r matches Err(e) && e@ == f,
            Ok(s) => match (read_plan(s), r) {
                (
                    Ok(p),
                    Ok(DatabaseAction::Read { selection, plan, options: o }),
                ) => selection@ == s && plan@ == p && o == options,
                (Err(f), Err(e)) => e@ == f,
                _ => false,
            },
        },
{
    match OperationSelection::from_filter(filter) {
        Ok(selection) => match plan_read(&selection) {
            Ok(plan) => Ok(DatabaseAction::Read { selection, plan, options }),
            Err(e) => Err(e),
        },
        Err(e) => Err(e),
    }
}

fn plan_count_command(filter: &OperationFilter, options: OperationOptions) -> (r: Result<
    DatabaseAction,
    Error,
>)
    ensures
        match selected(filter@) {
            Err(f) => r matches Err(e) && e@ == f,
            Ok(s) => match (count_plan(s), r) {
                (Ok(p), Ok(DatabaseAction::Count { plan, options: o })) => plan@ == p && o
                    == options,
                (Err(f), Err(e)) => e@ == f,
                _ => false,
            },
        },
{
    match OperationSelection::from_filter(filter) {
        Ok(selection) => match plan_count(selection) {
            Ok(plan) => Ok(DatabaseAction::Count { plan, options }),
            Err(e) => Err(e),
        },
        Err(e) => Err(e),
    }
}

fn plan_delete_command(filter: &OperationFilter) -> (r: Result<DatabaseAction, Error>)
    ensures
        match selected(filter@) {
            Err(f) => r matches Err(e) && e@ == f,
            Ok(s) => match (delete_plan(s), r) {
                (Ok(p), Ok(DatabaseAction::Delete { plan })) => plan@ == p,
                (Err(f), Err(e)) => e@ == f,
                _ => false,
            },
        },
{
    match OperationSelection::from_filter(filter) {
        Ok(selection) => match plan_delete(selection) {
            Ok(plan) => Ok(DatabaseAction::Delete { plan }),
            Err(e) => Err(e),
        },
        Err(e) => Err(e),
    }
}

/// What is done in a database for a command.
pub fn execute_in_database(command: Command) -> (r: Result<DatabaseAction, Error>)
    ensures
        is_database_plan(command, r),
{
    match command {
        Command::Upsert { payload, filter, options } => match UpsertContext::from_filter(&filter) {
            Ok(context) => Ok(DatabaseAction::Upsert { payload, context, options }),
            Err(e) => Err(e),
        },
        Command::Read { filter, options } => plan_read_command(&filter, options),
        Command::Count { filter, options } => plan_count_command(&filter, options),
        Command::Delete { filter, options } => plan_delete_command(&filter),
        Command::Compact(CompactRequest::Drawer { drawer_name, mode }) => Ok(
            DatabaseAction::Compact { drawer_name, mode },
        ),
        Command::Alter(
            AlterRequest::SchemaRule { drawer_name, action, kind, field_name, payload },
        ) => Ok(
            DatabaseAction::ManageSchema {
                drawer_name,
                action,
                kind,
                field_name,
                payload,
                is_drop: false,
            },
        ),
        Command::Drop(DropRequest::SchemaRule { drawer_name, kind, field_name, payload }) => Ok(
            DatabaseAction::ManageSchema {
                drawer_name,
                action: owned("remove"),
                kind,
                field_name,
                payload,
                is_drop: true,
            },
        ),
        _ => Err(
            Error::invalid_input(
                owned(
                    "Catalog, status, diagnostics, recovery, and scoped command routing is only available at the WardrobeEngine boundary",
                ),
            ),
        ),
    }
}

/// The drawer that the identifiers of a payload name: that of the object, or the first that an
/// item of the array names.
pub open spec fn payload_drawer(payload: Json) -> Option<Seq<char>>
    decreases payload, 0int,
{
    match payload {
        Json::Object(_) => match payload.get_text("_id"@) {
            Some(id) => match pointer_parts(id) {
                Some((drawer, _)) => Some(drawer),
                None => None,
            },
            None => None,
        },
        Json::Array(items) => first_payload_drawer(items, 0),
        _ => None,
    }
}

/// The first drawer that the items from the `i`-th on name.
pub open spec fn first_payload_drawer(items: Seq<Json>, i: int) -> Option<Seq<char>>
    decreases items, items.len() - i,
{
    if i < 0 || i >= items.len() {
        None
    } else {
        match payload_drawer(items[i]) {
            Some(drawer) => Some(drawer),
            None => first_payload_drawer(items, i + 1),
        }
    }
}

pub fn payload_pointer_drawer_name(payload: &JsonValue) -> (r: Option<String>)
    ensures
        opt_text(r) == payload_drawer(payload@),
    decreases payload,
{
    broadcast use group_value;

    match payload {
        JsonValue::Object(_) => match payload.get_str("_id") {
            Some(id) => match try_parse_pointer(id) {
                Some((drawer, _)) => Some(drawer),
                None => None,
            },
            None => None,
        },
        JsonValue::Array(items) => {
            let ghost all = jsons(items@);
            let mut i: usize = 0;
            while i < items.len()
                invariant
                    *payload == JsonValue::Array(*items),
                    payload@ == Json::Array(all),
                    all == jsons(items@),
                    i <= items@.len(),
                    first_payload_drawer(all, 0) == first_payload_drawer(all, i as int),
                decreases items@.len() - i,
            {
                assert(all[i as int] == items@[i as int]@);
                assert(decreases_to!(*payload => payload->Array_0));
                assert(decreases_to!(payload->Array_0 => payload->Array_0@));
                assert(decreases_to!(items@ => items@[i as int]));
                match payload_pointer_drawer_name(&items[i]) {
                    Some(drawer) => {
                        return Some(drawer);
                    },
                    None => {},
                }
                i += 1;
            }
            None
        },
        _ => None,
    }
}

/// The drawer that a filter selects, where it selects one.
pub open spec fn filter_drawer(filter: FilterModel) -> Option<Seq<char>> {
    match selected(filter) {
        Ok(s) => s.drawer,
        Err(_) => None,
    }
}

/// The drawer that an upsert goes into, as far as it can be told beforehand.
pub open spec fn upsert_drawer(payload: Json, filter: FilterModel) -> Option<Seq<char>> {
    let named = match upsert_context(filter) {
        Ok(c) => c.drawer,
        Err(_) => None,
    };
    match named {
        Some(drawer) => Some(drawer),
        None => payload_drawer(payload),
    }
}

/// The drawer that a command is about, as far as it can be told beforehand.
pub open spec fn command_drawer(command: Command) -> Option<Seq<char>>
    decreases command,
{
    match command {
        Command::Upsert { payload, filter, options } => upsert_drawer(payload@, filter@),
        Command::Read { filter, options } => filter_drawer(filter@),
        Command::Delete { filter, options } => filter_drawer(filter@),
        Command::Inspect { filter, options } => filter_drawer(filter@),
        Command::Count { filter, options } => filter_drawer(filter@),
        Command::Compact(CompactRequest::Drawer { drawer_name, mode }) => Some(drawer_name@),
        Command::Alter(
            AlterRequest::SchemaRule { drawer_name, action, kind, field_name, payload },
        ) => Some(drawer_name@),
        Command::Drop(DropRequest::SchemaRule { drawer_name, kind, field_name, payload }) => Some(
            drawer_name@,
        ),
        Command::Execute { coordinate, command: inner } => command_drawer(*inner),
        Command::ExecuteInScope { scope, command: inner } => command_drawer(*inner),
        _ => None,
    }
}

fn selection_drawer_name(filter: &OperationFilter) -> (r: Option<String>)
    ensures
        opt_text(r) == filter_drawer(filter@),
{
    match OperationSelection::from_filter(filter) {
        Ok(selection) => selection.drawer_name,
        Err(_) => None,
    }
}

fn upsert_command_drawer_name(payload: &JsonValue, filter: &OperationFilter) -> (r: Option<String>)
    ensures
        opt_text(r) == upsert_drawer(payload@, filter@),
{
    let named: Option<String> = match UpsertContext::from_filter(filter) {
        Ok(context) => context.drawer_name,
        Err(_) => None,
    };
    match named {
        Some(drawer) => Some(drawer),
        None => payload_pointer_drawer_name(payload),
    }
}

pub fn command_drawer_name(command: &Command) -> (r: Option<String>)
    ensures
        opt_text(r) == command_drawer(*command),
    decreases command,
{
    match command {
        Command::Upsert { payload, filter, options } => upsert_command_drawer_name(payload, filter),
        Command::Read { filter, options } => selection_drawer_name(filter),
        Command::Delete { filter, options } => selection_drawer_name(filter),
        Command::Inspect { filter, options } => selection_drawer_name(filter),
        Command::Count { filter, options } => selection_drawer_name(filter),
        Command::Compact(CompactRequest::Drawer { drawer_name, mode }) => Some(
            drawer_name.clone(),
        ),
        Command::Alter(
            AlterRequest::SchemaRule { drawer_name, action, kind, field_name, payload },
        ) => Some(drawer_name.clone()),
        Command::Drop(DropRequest::SchemaRule { drawer_name, kind, field_name, payload }) => Some(
            drawer_name.clone(),
        ),
        Command::Execute { coordinate, command: inner } => command_drawer_name(inner),
        Command::ExecuteInScope { scope, command: inner } => command_drawer_name(inner),
        _ => None,
    }
}

/// The failure of a drawer that is not registered.
pub open spec fn not_registered(drawer: Seq<char>, database: Seq<char>, schema: Seq<char>) -> Failure {
    not_found(
        "InvalidLocation: drawer '"@ + drawer + "' is not registered for database '"@ + database
            + "' schema '"@ + schema + "'"@,
    )
}

/// Why a drawer is refused by the catalog: it is not registered, though something is.
pub open spec fn registry_refusal(
    registry: CatalogRegistry,
    database: Seq<char>,
    schema: Seq<char>,
    drawer: Option<Seq<char>>,
) -> Option<Failure> {
    match drawer {
        Some(name) => if (registry.entries().len() > 0 || registry.routes@.len() > 0)
            && !is_registered(registry.entries(), database, schema, name) {
            Some(not_registered(name, database, schema))
        } else {
            None
        },
        None => None,
    }
}

/// Checks a drawer against the catalog.
pub fn check_registered(
    registry: &CatalogRegistry,
    database: &str,
    schema: &str,
    drawer: Option<String>,
) -> (r: Result<(), Error>)
    ensures
        match (registry_refusal(*registry, database@, schema@, opt_text(drawer)), r) {
            (None, Ok(())) => true,
            (Some(f), Err(e)) => e@ == f,
            _ => false,
        },
{
    if registry.is_empty() {
        return Ok(());
    }
    let name = match drawer {
        Some(name) => name,
        None => {
            return Ok(());
        },
    };
    if registry.contains_drawer(database, schema, name.as_str()) {
        return Ok(());
    }
    let front = concat5(
        "InvalidLocation: drawer '",
        name.as_str(),
        "' is not registered for database '",
        database,
        "' schema '",
    );
    let start = concat2(front.as_str(), schema);
    Err(Error::missing(concat2(start.as_str(), "'")))
}

/// Checks the drawer of a command against the catalog.
pub fn validate_command_against_registry(
    registry: &CatalogRegistry,
    database: &str,
    schema: &str,
    command: &Command,
) -> (r: Result<(), Error>)
    ensures
        match (registry_refusal(*registry, database@, schema@, command_drawer(*command)), r) {
            (None, Ok(())) => true,
            (Some(f), Err(e)) => e@ == f,
            _ => false,
        },
{
    check_registered(registry, database, schema, command_drawer_name(command))
}

/// What is logged at the boundary is carried out in a database, and nothing of it is refused
/// there for belonging to the boundary.
pub proof fn law_logged_commands_are_local(command: Command, plan: BoundaryPlan)
    requires
        is_logged(command),
        is_boundary_plan(command, plan),
    ensures
        plan.action == (BoundaryAction::ExecuteLocal { command: Box::new(command) }),
        plan.kind == ResultKind::Whole,
{
}

} // verus!
