//! What is done for a plain command, and what its answer is made into.
use crate::command::dispatch::{BoundaryAction, BoundaryOutcome};
use crate::command::flat::{Command, CommandResult};
use crate::command::results::StatusResult;
use crate::command_dispatch::{
    boundary_action, command_drawer, database_action, database_result_of, is_logged, result_of,
    DatabaseAction, DatabaseOutcome,
};
use crate::error::ErrorKind;
use crate::pointer::pointer_parts;
use crate::storage::types::StorageLocator;
use crate::value::JsonValue;
use vstd::prelude::*;

verus! {

/// Whether a command writes records or the rules of a drawer.
pub open spec fn changes_records(command: Command) -> bool {
    match command {
        Command::Upsert { .. } => true,
        Command::BulkUpsert { .. } => true,
        Command::Delete { .. } => true,
        Command::DeleteByFilter { .. } => true,
        Command::ManageSchema { .. } => true,
        Command::Vacuum { .. } => true,
        Command::Migrate { .. } => true,
        _ => false,
    }
}

/// Every command that writes records or rules is logged first; one that changes the catalog or
/// the users, takes or puts back a backup, or looks at the storage as a whole is not.
pub proof fn law_changes_of_records_are_logged(command: Command)
    ensures
        changes_records(command) ==> is_logged(command),
        command is DefineDatabase || command is DefineSchema || command is DefineDrawer
            || command is DefineTenantRoute || command is DropDatabase || command is DropSchema
            || command is DropDrawer || command is ManageUser || command is Inspect
            || command is Check || command is Diagnose || command is ListDrawers
            || command is Backup || command is Restore ==> !is_logged(command),
{
}

/// The engine is asked for what the command says, under the names that the command gives.
pub proof fn law_engine_is_asked_for_what_the_command_says(command: Command)
    ensures
        match command {
            Command::ShowTenants => boundary_action(command) is ShowTenants,
            Command::ShowDatabases => boundary_action(command) is ShowDatabases,
            Command::Diagnose => boundary_action(command) is DiagnoseStorage,
            Command::ListDrawers => boundary_action(command) is ListDrawerNames,
            Command::VerifyWal { database_name: d } => boundary_action(
                command,
            ) matches BoundaryAction::VerifyWal { database_name } && database_name == d,
            Command::ShowSchemas { database_name: d } => boundary_action(
                command,
            ) matches BoundaryAction::ShowSchemas { database_name } && database_name == d,
            Command::ShowDrawers { database_name: d, schema_name: s } => boundary_action(
                command,
            ) matches BoundaryAction::ShowDrawers { database_name, schema_name } && database_name
                == d && schema_name == s,
            Command::DefineDatabase { database_name: d } => boundary_action(
                command,
            ) matches BoundaryAction::CreateDatabase { database_name } && database_name == d,
            Command::DefineSchema { database_name: d, schema_name: s } => boundary_action(
                command,
            ) matches BoundaryAction::CreateSchema { database_name, schema_name } && database_name
                == d && schema_name == s,
            Command::DefineDrawer { database_name: d, schema_name: s, drawer_name: n } => {
                boundary_action(command) matches BoundaryAction::CreateDrawer {
                    database_name,
                    schema_name,
                    drawer_name,
                } && database_name == d && schema_name == s && drawer_name == n
            },
            Command::DefineTenantRoute { tenant_id: t, database_name: d, location: l } => {
                boundary_action(command) matches BoundaryAction::RegisterTenantRoute {
                    tenant_id,
                    database_name,
                    location,
                } && tenant_id == t && database_name == d && location == l
            },
            Command::DropDatabase { database_name: d } => boundary_action(
                command,
            ) matches BoundaryAction::DropDatabase { database_name } && database_name == d,
            Command::DropSchema { database_name: d, schema_name: s } => boundary_action(
                command,
            ) matches BoundaryAction::DropSchema { database_name, schema_name } && database_name
                == d && schema_name == s,
            Command::DropDrawer { database_name: d, schema_name: s, drawer_name: n } => {
                boundary_action(command) matches BoundaryAction::DropDrawer {
                    database_name,
                    schema_name,
                    drawer_name,
                } && database_name == d && schema_name == s && drawer_name == n
            },
            Command::Inspect { drawer_name: n } => boundary_action(
                command,
            ) matches BoundaryAction::InspectDrawer { drawer_name } && drawer_name == n,
            Command::Check { path: p } => boundary_action(
                command,
            ) matches BoundaryAction::CheckPath { path } && path == p,
            Command::Backup { source_path: p } => boundary_action(
                command,
            ) matches BoundaryAction::BackupArchive { source_path } && source_path == p,
            Command::Restore { destination_path: p, archive: a } => boundary_action(
                command,
            ) matches BoundaryAction::RestoreArchive { destination_path, archive }
                && destination_path == p && archive == a,
            Command::ManageUser { action: a, payload: p } => boundary_action(
                command,
            ) matches BoundaryAction::ManageUser { action, payload } && action == a && payload == p,
            Command::ExecuteForTenant {
                tenant_id: t,
                database_name: d,
                schema_name: s,
                command: inner,
            } => boundary_action(command) matches BoundaryAction::ExecuteForTenant {
                tenant_id,
                database_name,
                schema_name,
                command,
            } && tenant_id == t && database_name == d && schema_name == s && command == inner,
            Command::Execute { coordinate: c, command: inner } => boundary_action(
                command,
            ) matches BoundaryAction::Execute { coordinate, command } && coordinate == c && command
                == inner,
            Command::ExecuteInScope { scope: s, command: inner } => boundary_action(
                command,
            ) matches BoundaryAction::ExecuteInScope { scope, command } && scope == s && command
                == inner,
            _ => boundary_action(command) matches BoundaryAction::ExecuteLocal { command: inner }
                && *inner == command,
        },
{
}

/// A database does to records what the command says: it writes the payload, where it is a list all
/// of it or nothing, reads, counts and deletes where the command points, and changes the rule that
/// it names.
pub proof fn law_database_is_asked_for_what_the_command_says(command: Command)
    ensures
        match command {
            Command::Upsert { drawer_name: n, payload: p } => match database_action(command) {
                Ok(DatabaseAction::Upsert { drawer_name, payload }) => drawer_name == n && payload
                    == p && !(p is Array),
                Ok(DatabaseAction::BulkUpsert { drawer_name, records, atomic }) => drawer_name == n
                    && p == JsonValue::Array(records) && atomic,
                _ => false,
            },
            Command::BulkUpsert { drawer_name: n, records: r, atomic: a } => database_action(
                command,
            ) matches Ok(DatabaseAction::BulkUpsert { drawer_name, records, atomic }) && drawer_name
                == n && records == r && atomic == a,
            Command::FindAll { drawer_name: n } => database_action(command) matches Ok(
                DatabaseAction::FindAll { drawer_name },
            ) && drawer_name == n,
            Command::FindById { pointer: p } => database_action(command) matches Ok(
                DatabaseAction::FindById { pointer },
            ) && pointer == p,
            Command::FindByFilter { drawer_name: n, filter: f, modifiers: m } => database_action(
                command,
            ) matches Ok(DatabaseAction::FindByFilter { drawer_name, filter, modifiers })
                && drawer_name == n && filter == f && modifiers == m,
            Command::Count { drawer_name: n, filter: f, modifiers: m } => database_action(
                command,
            ) matches Ok(DatabaseAction::Count { drawer_name, filter, modifiers }) && drawer_name
                == n && filter == f && modifiers == m,
            Command::Delete { pointer: p } => database_action(command) matches Ok(
                DatabaseAction::DeleteById { locator: StorageLocator::Inline(pointer) },
            ) && pointer == p,
            Command::DeleteByFilter { drawer_name: n, filter: f } => database_action(
                command,
            ) matches Ok(DatabaseAction::DeleteByFilter { drawer_name, filter }) && drawer_name == n
                && filter == f,
            Command::ManageSchema {
                action: a,
                kind: k,
                drawer_name: n,
                field_name: f,
                payload: p,
            } => database_action(command) matches Ok(
                DatabaseAction::ManageSchema { drawer_name, action, kind, field_name, payload },
            ) && drawer_name == n && action == a && kind == k && field_name == f && payload == p,
            Command::Vacuum { drawer_name: n } => database_action(command) matches Ok(
                DatabaseAction::Vacuum { drawer_name },
            ) && drawer_name == n,
            Command::Migrate { drawer_name: n } => database_action(command) matches Ok(
                DatabaseAction::Migrate { drawer_name },
            ) && drawer_name == n,
            _ => database_action(command) matches Err(f) && f.kind == ErrorKind::InvalidInput,
        },
{
}

/// A result holds what the engine answered.
pub proof fn law_answers_are_kept(outcome: BoundaryOutcome<CommandResult>, found: DatabaseOutcome)
    ensures
        match outcome {
            BoundaryOutcome::Status(StatusResult::Tenants(x)) => result_of(outcome) matches Some(
                CommandResult::Tenants(y),
            ) && x == y,
            BoundaryOutcome::Status(StatusResult::Databases(x)) => result_of(outcome) matches Some(
                CommandResult::Databases(y),
            ) && x == y,
            BoundaryOutcome::Status(StatusResult::Wal(x)) => result_of(outcome) matches Some(
                CommandResult::WalVerification(y),
            ) && x == y,
            BoundaryOutcome::Status(StatusResult::Schemas(x)) => result_of(outcome) matches Some(
                CommandResult::Schemas(y),
            ) && x == y,
            BoundaryOutcome::Status(StatusResult::Drawers(x)) => result_of(outcome) matches Some(
                CommandResult::Drawers(y),
            ) && x == y,
            BoundaryOutcome::Status(StatusResult::Check(x)) => result_of(outcome) matches Some(
                CommandResult::Check(y),
            ) && x == y,
            BoundaryOutcome::Status(StatusResult::Storage(x)) => result_of(outcome) matches Some(
                CommandResult::Diagnosis(y),
            ) && x == y,
            BoundaryOutcome::Status(StatusResult::DrawerNames(x)) => result_of(
                outcome,
            ) matches Some(CommandResult::DrawerNames(y)) && x == y,
            BoundaryOutcome::Status(StatusResult::CachedDrawerCount(_)) => result_of(
                outcome,
            ) is None,
            BoundaryOutcome::Inventory(x) => result_of(outcome) matches Some(
                CommandResult::StorageInventory(y),
            ) && x == y,
            BoundaryOutcome::Inspection(x) => result_of(outcome) matches Some(
                CommandResult::Inspection(y),
            ) && x == y,
            BoundaryOutcome::Archive(x) => result_of(outcome) matches Some(
                CommandResult::Backup(y),
            ) && x == y,
            BoundaryOutcome::Restored(x) => result_of(outcome) matches Some(
                CommandResult::Restored(y),
            ) && x == y,
            BoundaryOutcome::Admin(x) => result_of(outcome) matches Some(CommandResult::Admin(y))
                && x == y,
            BoundaryOutcome::Whole(x) => result_of(outcome) == Some(x),
        },
        match found {
            DatabaseOutcome::Pointer(x) => database_result_of(
                found,
            ) matches CommandResult::Pointer(y) && x == y,
            DatabaseOutcome::Pointers(x) => database_result_of(
                found,
            ) matches CommandResult::Pointers(y) && x == y,
            DatabaseOutcome::Records(x) => database_result_of(
                found,
            ) matches CommandResult::Records(y) && x == y,
            DatabaseOutcome::Record(x) => database_result_of(
                found,
            ) matches CommandResult::Record(y) && x == y,
            DatabaseOutcome::Count(x) => database_result_of(found) matches CommandResult::Count(y)
                && x == y,
            DatabaseOutcome::Deleted(x) => database_result_of(
                found,
            ) matches CommandResult::Deleted(y) && x == y,
            DatabaseOutcome::Vacuumed(x) => database_result_of(
                found,
            ) matches CommandResult::Vacuumed(y) && x == y,
            DatabaseOutcome::Migrated(x) => database_result_of(
                found,
            ) matches CommandResult::Migrated(y) && x == y,
            DatabaseOutcome::Admin(x) => database_result_of(found) matches CommandResult::Admin(y)
                && x == y,
        },
{
}

/// The drawer for which a command is checked is the one in which the database acts: the one that
/// it is told, or that of the pointer.
pub proof fn law_checked_drawer_is_the_one_used(command: Command)
    ensures
        match database_action(command) {
            Ok(DatabaseAction::Upsert { drawer_name, .. }) => command_drawer(command) == Some(
                drawer_name@,
            ),
            Ok(DatabaseAction::BulkUpsert { drawer_name, .. }) => command_drawer(command) == Some(
                drawer_name@,
            ),
            Ok(DatabaseAction::FindAll { drawer_name }) => command_drawer(command) == Some(
                drawer_name@,
            ),
            Ok(DatabaseAction::FindByFilter { drawer_name, .. }) => command_drawer(command) == Some(
                drawer_name@,
            ),
            Ok(DatabaseAction::Count { drawer_name, .. }) => command_drawer(command) == Some(
                drawer_name@,
            ),
            Ok(DatabaseAction::DeleteByFilter { drawer_name, .. }) => command_drawer(command)
                == Some(drawer_name@),
            Ok(DatabaseAction::ManageSchema { drawer_name, .. }) => command_drawer(command) == Some(
                drawer_name@,
            ),
            Ok(DatabaseAction::Vacuum { drawer_name }) => command_drawer(command) == Some(
                drawer_name@,
            ),
            Ok(DatabaseAction::Migrate { drawer_name }) => command_drawer(command) == Some(
                drawer_name@,
            ),
            Ok(DatabaseAction::FindById { pointer }) => command_drawer(command) == match pointer_parts(
                pointer@,
            ) {
                Some((drawer, _)) => Some(drawer),
                None => None,
            },
            Ok(DatabaseAction::DeleteById { locator: StorageLocator::Inline(pointer) }) => {
                command_drawer(command) == match pointer_parts(pointer@) {
                    Some((drawer, _)) => Some(drawer),
                    None => None,
                }
            },
            _ => true,
        },
        match command {
            Command::Execute { command: inner, .. } => command_drawer(command) == command_drawer(
                *inner,
            ),
            Command::ExecuteInScope { command: inner, .. } => command_drawer(command)
                == command_drawer(*inner),
            _ => true,
        },
{
}

} // verus!
