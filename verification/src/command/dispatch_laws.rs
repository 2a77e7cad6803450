//! What the engine is asked to do for a command, what its answer is made into, and which drawer
//! a command is about.
use crate::access_control::laws::{entry_of, has_permission};
use crate::access_control::{payload_username, scope_parsed, user_managed};
use crate::command::dispatch::{
    boundary_refusal,
    command_drawer, first_payload_drawer, is_boundary_plan, is_boundary_result, is_database_plan,
    payload_drawer, BoundaryAction, BoundaryOutcome, BoundaryPlan, DatabaseAction,
};
use crate::command::requests::{
    relationship_payload,
    AlterRequest, Command, CompactRequest, CreateRequest, DropRequest, PermissionRequest,
    StatusRequest,
};
use crate::command::result_expectations::admin_payload;
use crate::command::results::{
    status_json, CheckReport, CommandResult, CreateResult, InspectResult, StatusResult,
};
use crate::engine::selection::selected;
use crate::error::{Error, ErrorKind, Failure};
use crate::pointer::pointer_parts;
use crate::storage::types::StorageInventory;
use crate::text::{opt_text, trimmed};
use crate::value::{Json, Number};
use vstd::prelude::*;

verus! {

/// Every command that changes records or the rules of a drawer is logged before it is carried
/// out, and no other command is.
pub proof fn law_changes_are_logged(command: Command, plan: BoundaryPlan)
    requires
        is_boundary_plan(command, plan),
    ensures
        plan.append_wal == match command {
            Command::Upsert { .. } => true,
            Command::Delete { .. } => true,
            Command::Compact(_) => true,
            Command::Alter(_) => true,
            Command::Drop(request) => request is SchemaRule,
            _ => false,
        },
{
}

/// Places are made, dropped, read and restored under the names that the command gives.
pub proof fn law_places_are_handed_on(command: Command, plan: BoundaryPlan)
    requires
        is_boundary_plan(command, plan),
    ensures
        match command {
            Command::Create(CreateRequest::Database { database_name: d }) => plan.action matches BoundaryAction::CreateDatabase {
                database_name,
            } && database_name == d,
            Command::Create(
                CreateRequest::Schema { database_name: d, schema_name: s },
            ) => plan.action matches BoundaryAction::CreateSchema { database_name, schema_name }
                && database_name == d && schema_name == s,
            Command::Create(
                CreateRequest::Drawer { database_name: d, schema_name: s, drawer_name: n },
            ) => plan.action matches BoundaryAction::CreateDrawer {
                database_name,
                schema_name,
                drawer_name,
            } && database_name == d && schema_name == s && drawer_name == n,
            Command::Create(
                CreateRequest::TenantRoute { tenant_id: t, database_name: d, location: l },
            ) => plan.action matches BoundaryAction::RegisterTenantRoute {
                tenant_id,
                database_name,
                location,
            } && tenant_id == t && database_name == d && location == l,
            Command::Drop(DropRequest::Database { database_name: d }) => plan.action matches BoundaryAction::DropDatabase {
                database_name,
            } && database_name == d,
            Command::Drop(
                DropRequest::Schema { database_name: d, schema_name: s },
            ) => plan.action matches BoundaryAction::DropSchema { database_name, schema_name }
                && database_name == d && schema_name == s,
            Command::Drop(
                DropRequest::Drawer { database_name: d, schema_name: s, drawer_name: n },
            ) => plan.action matches BoundaryAction::DropDrawer {
                database_name,
                schema_name,
                drawer_name,
            } && database_name == d && schema_name == s && drawer_name == n,
            Command::Backup { source_path: p } => plan.action matches BoundaryAction::BackupArchive {
                source_path,
            } && source_path == p,
            Command::Restore { destination_path: p, archive: a } => plan.action matches BoundaryAction::RestoreArchive {
                destination_path,
                archive,
            } && destination_path == p && archive == a,
            _ => true,
        },
{
}

/// What is asked of the state of the storage is what the engine is asked for.
pub proof fn law_status_is_asked_for(request: StatusRequest, plan: BoundaryPlan)
    requires
        is_boundary_plan(Command::Status(request), plan),
    ensures
        match request {
            StatusRequest::Tenants => plan.action is ShowTenants,
            StatusRequest::Databases => plan.action is ShowDatabases,
            StatusRequest::Schemas { database_name: d } => plan.action matches BoundaryAction::ShowSchemas {
                database_name,
            } && database_name == d,
            StatusRequest::Drawers { database_name: d, schema_name: s } => plan.action matches BoundaryAction::ShowDrawers {
                database_name,
                schema_name,
            } && database_name == d && schema_name == s,
            StatusRequest::Wal { database_name: d } => plan.action matches BoundaryAction::VerifyWal {
                database_name,
            } && database_name == d,
            StatusRequest::Storage => plan.action is DiagnoseStorage,
            StatusRequest::Path { path: p } => plan.action matches BoundaryAction::CheckPath {
                path,
            } && path == p,
            StatusRequest::DrawerNames => plan.action is ListDrawerNames,
            StatusRequest::CachedDrawerCount => plan.action is CachedDrawerCount,
        },
        !plan.append_wal,
{
}

/// A command that is carried out elsewhere is handed on whole, with the place it is for; every
/// command about records is carried out here, whole.
pub proof fn law_inner_commands_are_handed_on_whole(command: Command, plan: BoundaryPlan)
    requires
        is_boundary_plan(command, plan),
    ensures
        match command {
            Command::Execute { coordinate: c, command: inner } => plan.action matches BoundaryAction::Execute {
                coordinate,
                command,
            } && coordinate == c && command == inner,
            Command::ExecuteInScope { scope: s, command: inner } => plan.action matches BoundaryAction::ExecuteInScope {
                scope,
                command,
            } && scope == s && command == inner,
            Command::ExecuteForTenant {
                tenant_id: t,
                database_name: d,
                schema_name: s,
                command: inner,
            } => plan.action matches BoundaryAction::ExecuteForTenant {
                tenant_id,
                database_name,
                schema_name,
                command,
            } && tenant_id == t && database_name == d && schema_name == s && command == inner,
            Command::Upsert { .. } => runs_here(plan.action, command),
            Command::Read { .. } => runs_here(plan.action, command),
            Command::Count { .. } => runs_here(plan.action, command),
            Command::Delete { .. } => runs_here(plan.action, command),
            Command::Compact(_) => runs_here(plan.action, command),
            Command::Alter(_) => runs_here(plan.action, command),
            _ => true,
        },
{
}

/// Whether the engine is asked to carry a command out in its own database.
pub open spec fn runs_here(action: BoundaryAction<Command>, command: Command) -> bool {
    action matches BoundaryAction::ExecuteLocal { command: inner } && *inner == command
}

/// A permission that a command grants is held by its user once the engine did what it is asked
/// for, and one that a command revokes is not; no other permission changes.
pub proof fn law_permission_commands_reach_the_registry(
    request: PermissionRequest,
    granting: bool,
    plan: BoundaryPlan,
    registry: Json,
    user: Seq<char>,
    scope: Seq<char>,
)
    requires
        is_boundary_plan(
            if granting {
                Command::Grant(request)
            } else {
                Command::Revoke(request)
            },
            plan,
        ),
        trimmed(request.username@).len() > 0,
        scope_parsed(request.permission_scope@) is Ok,
    ensures
        plan.action matches BoundaryAction::ManageUser { action, payload } && (user_managed(
            registry,
            action@,
            payload@,
        ) matches Ok((after, _)) && has_permission(after, user, scope) == if user == trimmed(
            request.username@,
        ) && scope_parsed(request.permission_scope@) == Ok::<_, Failure>(scope) {
            granting
        } else {
            has_permission(registry, user, scope)
        }),
{
    let payload = crate::command::requests::permission_payload(request);
    reveal_strlit("username");
    reveal_strlit("permission_scope");
    reveal_strlit("scope");
    assert("username"@.len() == 8 && "permission_scope"@.len() == 16 && "scope"@.len() == 5);
    assert(payload.get("username"@) == Some(Json::Text(request.username@)));
    assert(payload.get("permission_scope"@) == Some(Json::Text(request.permission_scope@)));
    crate::access_control::laws::law_payload_names_the_user(payload);
    crate::access_control::laws::law_payload_spells_the_scope(payload);
    assert(payload_username(payload) == Ok::<_, Failure>(trimmed(request.username@)));
    crate::access_control::laws::law_permissions_follow_requests(
        registry,
        payload,
        granting,
        user,
        scope,
    );
}

/// A user that a command makes is known once the engine did what it is asked for, and one that a
/// command drops is not known and has no permission. No other user changes.
pub proof fn law_user_commands_reach_the_registry(
    payload: crate::value::JsonValue,
    username: String,
    created: BoundaryPlan,
    dropped: BoundaryPlan,
    registry: Json,
    user: Seq<char>,
    scope: Seq<char>,
)
    requires
        is_boundary_plan(Command::Create(CreateRequest::User { payload }), created),
        is_boundary_plan(Command::Drop(DropRequest::User { username }), dropped),
        trimmed(username@).len() > 0,
    ensures
        created.action matches BoundaryAction::ManageUser { action, payload: p } && (
        payload_username(payload@) matches Ok(name) ==> (user_managed(
            registry,
            action@,
            p@,
        ) matches Ok((after, _)) && (if user == name {
            entry_of(after, user) is Some
        } else {
            entry_of(after, user) == entry_of(registry, user)
        }))),
        dropped.action matches BoundaryAction::ManageUser { action, payload: p } && (user_managed(
            registry,
            action@,
            p@,
        ) matches Ok((after, _)) && (if user == trimmed(username@) {
            entry_of(after, user) is None && !has_permission(after, user, scope)
        } else {
            entry_of(after, user) == entry_of(registry, user)
        })),
{
    crate::access_control::laws::law_requests_are_understood_however_spelled(
        registry,
        "add_user"@,
        payload@,
        user,
    );
    crate::access_control::laws::law_users_follow_requests(registry, payload@, true, user, scope);
    let named = crate::command::dispatch::user_payload(username@);
    assert(named.get("username"@) == Some(Json::Text(username@)));
    crate::access_control::laws::law_payload_names_the_user(named);
    crate::access_control::laws::law_users_follow_requests(registry, named, false, user, scope);
}

/// The answer to a command is a result of the command's own kind that holds what the engine
/// answered; an answer of another kind is no result.
pub proof fn law_results_hold_the_answer(
    command: Command,
    plan: BoundaryPlan,
    outcome: BoundaryOutcome<CommandResult>,
    result: Option<CommandResult>,
)
    requires
        is_boundary_plan(command, plan),
        is_boundary_result(plan.kind, outcome, result),
    ensures
        match (command, outcome) {
            (Command::Create(_), BoundaryOutcome::Inventory(inventory)) => result matches Some(
                CommandResult::Create(CreateResult::StorageInventory(i)),
            ) && i == inventory,
            (Command::Create(_), BoundaryOutcome::Admin(value)) => result matches Some(
                CommandResult::Create(CreateResult::Admin(v)),
            ) && v == value,
            (Command::Create(_), _) => result is None,
            (Command::Drop(DropRequest::SchemaRule { .. }), BoundaryOutcome::Whole(whole)) => result
                == Some(whole),
            (Command::Drop(DropRequest::SchemaRule { .. }), _) => result is None,
            (Command::Drop(_), BoundaryOutcome::Admin(value)) => result matches Some(
                CommandResult::Drop(v),
            ) && v == value,
            (Command::Drop(_), _) => result is None,
            (Command::Grant(_), BoundaryOutcome::Admin(value)) => result matches Some(
                CommandResult::Grant(v),
            ) && v == value,
            (Command::Grant(_), _) => result is None,
            (Command::Revoke(_), BoundaryOutcome::Admin(value)) => result matches Some(
                CommandResult::Revoke(v),
            ) && v == value,
            (Command::Revoke(_), _) => result is None,
            (Command::Status(_), BoundaryOutcome::Status(_)) => result matches Some(
                CommandResult::Status(_),
            ),
            (Command::Status(_), _) => result is None,
            (Command::Inspect { .. }, BoundaryOutcome::Inspection(metrics)) => result matches Some(
                CommandResult::Inspect(InspectResult::Drawer(m)),
            ) && m == metrics,
            (Command::Inspect { .. }, _) => result is None,
            (Command::Backup { .. }, BoundaryOutcome::Archive(archive)) => result matches Some(
                CommandResult::Backup(a),
            ) && a == archive,
            (Command::Backup { .. }, _) => result is None,
            (Command::Restore { .. }, BoundaryOutcome::Restored(report)) => result matches Some(
                CommandResult::Restore(r),
            ) && r == report,
            (Command::Restore { .. }, _) => result is None,
            (_, BoundaryOutcome::Whole(whole)) => result == Some(whole),
            (_, _) => result is None,
        },
{
}

/// A number in JSON.
pub open spec fn number(n: int) -> Option<Json> {
    Some(Json::Number(Number::PosInt(n as u64)))
}

/// Whether an array holds texts, in order.
pub open spec fn lists_names(value: Json, names: Seq<String>) -> bool {
    value matches Json::Array(items) && items.len() == names.len() && forall|i: int|
        0 <= i < names.len() ==> #[trigger] items[i] == Json::Text(names[i]@)
}

/// Whether an array holds what was found of each place, in order.
pub open spec fn lists_places(value: Json, all: Seq<StorageInventory>) -> bool {
    value matches Json::Array(items) && items.len() == all.len() && forall|i: int|
        0 <= i < all.len() ==> (#[trigger] items[i]).get("name"@) == Some(Json::Text(all[i].name@))
            && items[i].get("record_count"@) == number(all[i].record_count as int) && items[i].get(
            "disk_size_bytes"@,
        ) == number(all[i].disk_size_bytes as int) && items[i].get("register_file_count"@)
            == number(all[i].register_file_count as int)
}

/// Whether an object holds what was found at a path.
pub open spec fn tells_check(value: Json, report: CheckReport) -> bool {
    &&& value.get("path"@) == Some(Json::Text(report.path@))
    &&& value.get("kind"@) == Some(Json::Text(report.kind@))
    &&& value.get("entries"@) matches Some(Json::Array(items)) && items.len()
        == report.entries@.len() && forall|i: int|
        0 <= i < items.len() ==> (#[trigger] items[i]).get("label"@) == Some(
            Json::Text(report.entries@[i].label@),
        ) && items[i].get("path"@) == Some(Json::Text(report.entries@[i].path@)) && items[i].get(
            "exists"@,
        ) == Some(Json::Bool(report.entries@[i].exists)) && items[i].get("bytes"@) == (
        match report.entries@[i].bytes {
            Some(n) => number(n as int),
            None => Some(Json::Null),
        })
}

proof fn lemma_status_words()
    ensures
        "name"@.len() == 4,
        "record_count"@.len() == 12,
        "disk_size_bytes"@.len() == 15,
        "register_file_count"@.len() == 19,
        "path"@.len() == 4,
        "kind"@.len() == 4,
        "path"@ != "kind"@,
        "entries"@.len() == 7,
        "label"@.len() == 5,
        "bytes"@.len() == 5,
        "label"@ != "bytes"@,
        "exists"@.len() == 6,
        "entry_count"@.len() == 11,
        "last_sequence"@.len() == 13,
        "storage_directory"@.len() == 17,
        "storage_bytes"@.len() == 13,
        "data_bytes"@.len() == 10,
        "index_bytes"@.len() == 11,
        "other_bytes"@.len() == 11,
        "index_bytes"@ != "other_bytes"@,
        "metadata_bytes"@.len() == 14,
        "logical_wal_bytes"@.len() == 17,
        "storage_directory"@ != "logical_wal_bytes"@,
        "transaction_wal_bytes"@.len() == 21,
        "drawer_count"@.len() == 12,
        "status"@.len() == 6,
        "drawers"@.len() == 7,
{
    reveal_strlit("name");
    reveal_strlit("record_count");
    reveal_strlit("disk_size_bytes");
    reveal_strlit("register_file_count");
    reveal_strlit("path");
    reveal_strlit("kind");
    reveal_strlit("entries");
    reveal_strlit("label");
    reveal_strlit("bytes");
    reveal_strlit("exists");
    reveal_strlit("entry_count");
    reveal_strlit("last_sequence");
    reveal_strlit("storage_directory");
    reveal_strlit("storage_bytes");
    reveal_strlit("data_bytes");
    reveal_strlit("index_bytes");
    reveal_strlit("other_bytes");
    reveal_strlit("metadata_bytes");
    reveal_strlit("logical_wal_bytes");
    reveal_strlit("transaction_wal_bytes");
    reveal_strlit("drawer_count");
    reveal_strlit("status");
    reveal_strlit("drawers");
    assert("path"@[0] == 'p' && "kind"@[0] == 'k');
    assert("label"@[0] == 'l' && "bytes"@[0] == 'b');
    assert("index_bytes"@[0] == 'i' && "other_bytes"@[0] == 'o');
    assert("storage_directory"@[0] == 's' && "logical_wal_bytes"@[0] == 'l');
}

/// What was found of the state of the storage is told in full: every name and every place in
/// order, every number under its own name.
pub proof fn law_status_is_told_in_full(status: StatusResult)
    ensures
        match status {
            StatusResult::Tenants(names) => lists_names(status_json(status), names@),
            StatusResult::Schemas(names) => lists_names(status_json(status), names@),
            StatusResult::DrawerNames(names) => lists_names(status_json(status), names@),
            StatusResult::Databases(all) => lists_places(status_json(status), all@),
            StatusResult::Drawers(all) => lists_places(status_json(status), all@),
            StatusResult::CachedDrawerCount(n) => Some(status_json(status)) == number(n as int),
            StatusResult::Wal(wal) => {
                let told = status_json(status);
                &&& told.get("path"@) == Some(Json::Text(wal.path@))
                &&& told.get("entry_count"@) == number(wal.entry_count as int)
                &&& told.get("last_sequence"@) == match wal.last_sequence {
                    Some(n) => number(n as int),
                    None => Some(Json::Null),
                }
            },
            StatusResult::Check(report) => tells_check(status_json(status), report),
            StatusResult::Storage(d) => {
                let told = status_json(status);
                &&& told.get("storage_directory"@) == Some(Json::Text(d.storage_directory@))
                &&& told.get("storage_bytes"@) == number(d.storage_bytes as int)
                &&& told.get("data_bytes"@) == number(d.data_bytes as int)
                &&& told.get("index_bytes"@) == number(d.index_bytes as int)
                &&& told.get("metadata_bytes"@) == number(d.metadata_bytes as int)
                &&& told.get("logical_wal_bytes"@) == number(d.logical_wal_bytes as int)
                &&& told.get("transaction_wal_bytes"@) == number(d.transaction_wal_bytes as int)
                &&& told.get("other_bytes"@) == number(d.other_bytes as int)
                &&& told.get("drawer_count"@) == number(d.drawer_count as int)
                &&& told.get("status"@) == Some(Json::Text(d.status@))
                &&& told.get("drawers"@) matches Some(names) && lists_names(names, d.drawers@)
            },
        },
{
    lemma_status_words();
}

proof fn lemma_first_named(items: Seq<Json>, i: int)
    requires
        0 <= i <= items.len(),
    ensures
        match first_payload_drawer(items, i) {
            Some(drawer) => exists|k: int|
                i <= k < items.len() && #[trigger] payload_drawer(items[k]) == Some(drawer)
                    && none_named(items, i, k),
            None => none_named(items, i, items.len() as int),
        },
    decreases items.len() - i,
{
    if i < items.len() {
        match payload_drawer(items[i]) {
            Some(drawer) => {
                assert(none_named(items, i, i));
            },
            None => {
                lemma_first_named(items, i + 1);
                match first_payload_drawer(items, i + 1) {
                    Some(drawer) => {
                        let k = choose|k: int|
                            i + 1 <= k < items.len() && #[trigger] payload_drawer(items[k]) == Some(
                                drawer,
                            ) && none_named(items, i + 1, k);
                        assert(none_named(items, i, k));
                        assert(payload_drawer(items[k]) == Some(drawer));
                    },
                    None => {},
                }
            },
        }
    }
}

/// Whether none of the items from the `i`-th up to the `k`-th names a drawer.
pub open spec fn none_named(items: Seq<Json>, i: int, k: int) -> bool {
    forall|j: int| i <= j < k ==> payload_drawer(#[trigger] items[j]) is None
}

/// A payload names the drawer of the pointer under its `_id`; a list of payloads names what the
/// first of them that names a drawer does.
pub proof fn law_payload_names_its_drawer(payload: Json)
    ensures
        match payload {
            Json::Object(_) => payload_drawer(payload) == match payload.get("_id"@) {
                Some(Json::Text(id)) => match pointer_parts(id) {
                    Some((drawer, _)) => Some(drawer),
                    None => None,
                },
                _ => None,
            },
            Json::Array(items) => match payload_drawer(payload) {
                Some(drawer) => exists|k: int|
                    0 <= k < items.len() && #[trigger] payload_drawer(items[k]) == Some(drawer)
                        && none_named(items, 0, k),
                None => none_named(items, 0, items.len() as int),
            },
            _ => payload_drawer(payload) is None,
        },
{
    match payload {
        Json::Array(items) => {
            lemma_first_named(items, 0);
        },
        _ => {},
    }
}

/// The drawer for which a command is checked is the one in which it is carried out: that of the
/// selection, of the upsert or else of its payload, or the one that the command names.
pub proof fn law_checked_drawer_is_the_one_used(
    command: Command,
    done: Result<DatabaseAction, Error>,
)
    requires
        is_database_plan(command, done),
    ensures
        done matches Ok(DatabaseAction::Read { selection, .. }) ==> command_drawer(command)
            == opt_text(selection.drawer_name),
        done matches Ok(DatabaseAction::Upsert { payload, context, .. }) ==> command_drawer(command)
            == match opt_text(context.drawer_name) {
            Some(drawer) => Some(drawer),
            None => payload_drawer(payload@),
        },
        done matches Ok(DatabaseAction::Compact { drawer_name, .. }) ==> command_drawer(command)
            == Some(drawer_name@),
        done matches Ok(DatabaseAction::ManageSchema { drawer_name, .. }) ==> command_drawer(command)
            == Some(drawer_name@),
        done matches Ok(DatabaseAction::Count { .. }) ==> (command matches Command::Count {
            filter,
            ..
        } && (selected(filter@) matches Ok(s) && command_drawer(command) == s.drawer)),
        done matches Ok(DatabaseAction::Delete { .. }) ==> (command matches Command::Delete {
            filter,
            ..
        } && (selected(filter@) matches Ok(s) && command_drawer(command) == s.drawer)),
{
}

/// A command for another place is about the drawer that the command inside it is about.
pub proof fn law_inner_command_names_the_drawer(command: Command)
    ensures
        match command {
            Command::Execute { command: inner, .. } => command_drawer(command) == command_drawer(
                *inner,
            ),
            Command::ExecuteInScope { command: inner, .. } => command_drawer(command)
                == command_drawer(*inner),
            _ => true,
        },
{
}

/// In a database records are written, read, counted and deleted, drawers are packed, and rules
/// are added, changed and dropped, as the command says; nothing else is.
pub proof fn law_database_does_what_the_command_says(
    command: Command,
    done: Result<DatabaseAction, Error>,
)
    requires
        is_database_plan(command, done),
    ensures
        match done {
            Ok(DatabaseAction::Upsert { payload: p, options: o, .. }) => command matches Command::Upsert {
                payload,
                options,
                ..
            } && p == payload && o == options,
            Ok(DatabaseAction::Read { options: o, .. }) => command matches Command::Read {
                options,
                ..
            } && o == options,
            Ok(DatabaseAction::Count { options: o, .. }) => command matches Command::Count {
                options,
                ..
            } && o == options,
            Ok(DatabaseAction::Delete { .. }) => command is Delete,
            Ok(DatabaseAction::Compact { drawer_name: d, mode: m }) => command matches Command::Compact(
                CompactRequest::Drawer { drawer_name, mode },
            ) && d == drawer_name && m == mode,
            Ok(
                DatabaseAction::ManageSchema {
                    drawer_name: d,
                    action: a,
                    kind: k,
                    field_name: f,
                    payload: p,
                    is_drop,
                },
            ) => if is_drop {
                command matches Command::Drop(
                    DropRequest::SchemaRule { drawer_name, kind, field_name, payload },
                ) && d == drawer_name && a@ == "remove"@ && k == kind && f == field_name && p
                    == payload
            } else {
                command matches Command::Alter(
                    AlterRequest::SchemaRule { drawer_name, action, kind, field_name, payload },
                ) && d == drawer_name && a == action && k == kind && f == field_name && p == payload
            },
            Err(e) => match command {
                Command::Compact(_) => false,
                Command::Alter(_) => false,
                Command::Drop(DropRequest::SchemaRule { .. }) => false,
                Command::Upsert { .. } => true,
                Command::Read { .. } => true,
                Command::Count { .. } => true,
                Command::Delete { .. } => true,
                _ => e@.kind == ErrorKind::InvalidInput,
            },
        },
{
}

/// The answer of a command that administers the database is the one that its result holds; a
/// result of any other kind has none.
pub proof fn law_admin_answers_are_taken(result: CommandResult)
    ensures
        match result {
            CommandResult::Create(CreateResult::Admin(value)) => admin_payload(result) == Some(value),
            CommandResult::Alter(value) => admin_payload(result) == Some(value),
            CommandResult::Drop(value) => admin_payload(result) == Some(value),
            CommandResult::Grant(value) => admin_payload(result) == Some(value),
            CommandResult::Revoke(value) => admin_payload(result) == Some(value),
            _ => admin_payload(result) is None,
        },
{
}

/// The engine refuses no command but an inspection that names no drawer.
pub proof fn law_only_lost_inspections_are_refused(command: Command)
    ensures
        boundary_refusal(command) matches Some(f) ==> (command matches Command::Inspect {
            filter,
            ..
        } && match selected(filter@) {
            Ok(s) => s.drawer is None && f.kind == ErrorKind::InvalidInput,
            Err(g) => f == g,
        }),
        command matches Command::Inspect { filter, .. } ==> (selected(filter@) matches Ok(s)
            && s.drawer is Some ==> boundary_refusal(command) is None),
{
}

/// A relationship that is asked for leads many records to one of the drawer that is named.
pub proof fn law_relationship_names_its_drawer(target_drawer: Seq<char>)
    ensures
        relationship_payload(target_drawer).get("type"@) == Some(Json::Text("M:1"@)),
        relationship_payload(target_drawer).get("target_drawer"@) == Some(Json::Text(target_drawer)),
{
    reveal_strlit("type");
    reveal_strlit("target_drawer");
    assert("type"@.len() == 4 && "target_drawer"@.len() == 13);
}

} // verus!
