//! What the commands ask for.
use crate::command::model::{OperationFilter, OperationOptions};
use crate::command::results::{BackupArchive, CheckReport, StorageDiagnosis};
use crate::fields::TextMap;
use crate::storage::types::{
    StorageCoordinate, StorageInventory, StorageScope, WalVerification,
};
use crate::text::{opt_str, opt_text, owned};
use crate::value::{group_value, Json, JsonValue};
use std::marker::PhantomData;
use vstd::prelude::*;
use vstd::std_specs::convert::FromSpecImpl;

verus! {

/// How a drawer is compacted.
#[derive(Debug, Clone, Copy, PartialEq, Eq, Structural)]
pub enum CompactMode {
    Vacuum,
    Migrate,
}

#[derive(Debug, PartialEq, Eq)]
pub enum CompactRequest {
    Drawer { drawer_name: String, mode: CompactMode },
}

impl CompactRequest {
    pub fn drawer(drawer_name: &str) -> (r: Self)
        ensures
            r matches CompactRequest::Drawer { drawer_name: n, mode } && n@ == drawer_name@ && mode
                == CompactMode::Vacuum,
    {
        CompactRequest::Drawer { drawer_name: owned(drawer_name), mode: CompactMode::Vacuum }
    }

    pub fn drawer_with_mode(drawer_name: &str, mode: CompactMode) -> (r: Self)
        ensures
            r matches CompactRequest::Drawer { drawer_name: n, mode: m } && n@ == drawer_name@ && m
                == mode,
    {
        CompactRequest::Drawer { drawer_name: owned(drawer_name), mode }
    }
}

impl FromSpecImpl<&str> for CompactRequest {
    open spec fn obeys_from_spec() -> bool {
        false
    }

    open spec fn from_spec(v: &str) -> Self {
        arbitrary()
    }
}

impl From<&str> for CompactRequest {
    fn from(drawer_name: &str) -> (r: Self)
        ensures
            r matches CompactRequest::Drawer { drawer_name: n, mode } && n@ == drawer_name@ && mode
                == CompactMode::Vacuum,
    {
        CompactRequest::drawer(drawer_name)
    }
}

impl FromSpecImpl<String> for CompactRequest {
    open spec fn obeys_from_spec() -> bool {
        false
    }

    open spec fn from_spec(v: String) -> Self {
        arbitrary()
    }
}

impl From<String> for CompactRequest {
    fn from(drawer_name: String) -> (r: Self)
        ensures
            r matches CompactRequest::Drawer { drawer_name: n, mode } && n@ == drawer_name@ && mode
                == CompactMode::Vacuum,
    {
        CompactRequest::Drawer { drawer_name, mode: CompactMode::Vacuum }
    }
}

#[derive(Debug, PartialEq, Eq)]
pub enum CreateRequest {
    Database { database_name: String },
    Schema { database_name: String, schema_name: String },
    Drawer { database_name: String, schema_name: String, drawer_name: String },
    TenantRoute { tenant_id: String, database_name: String, location: String },
    User { payload: JsonValue },
}

impl CreateRequest {
    pub fn database(database_name: &str) -> (r: Self)
        ensures
            r matches CreateRequest::Database { database_name: d } && d@ == database_name@,
    {
        CreateRequest::Database { database_name: owned(database_name) }
    }

    pub fn schema(database_name: &str, schema_name: &str) -> (r: Self)
        ensures
            r matches CreateRequest::Schema { database_name: d, schema_name: s } && d@
                == database_name@ && s@ == schema_name@,
    {
        CreateRequest::Schema {
            database_name: owned(database_name),
            schema_name: owned(schema_name),
        }
    }

    pub fn drawer(database_name: &str, schema_name: &str, drawer_name: &str) -> (r: Self)
        ensures
            r matches CreateRequest::Drawer { database_name: d, schema_name: s, drawer_name: w }
                && d@ == database_name@ && s@ == schema_name@ && w@ == drawer_name@,
    {
        CreateRequest::Drawer {
            database_name: owned(database_name),
            schema_name: owned(schema_name),
            drawer_name: owned(drawer_name),
        }
    }

    pub fn tenant_route(tenant_id: &str, database_name: &str, location: &str) -> (r: Self)
        ensures
            r matches CreateRequest::TenantRoute { tenant_id: t, database_name: d, location: l }
                && t@ == tenant_id@ && d@ == database_name@ && l@ == location@,
    {
        CreateRequest::TenantRoute {
            tenant_id: owned(tenant_id),
            database_name: owned(database_name),
            location: owned(location),
        }
    }

    pub fn user(payload: JsonValue) -> (r: Self)
        ensures
            r == (CreateRequest::User { payload }),
    {
        CreateRequest::User { payload }
    }
}

#[derive(Debug, PartialEq, Eq)]
pub enum AlterRequest {
    SchemaRule {
        drawer_name: String,
        action: String,
        kind: String,
        field_name: String,
        payload: JsonValue,
    },
}

/// The payload of a relationship to a drawer.
pub open spec fn relationship_payload(target_drawer: Seq<char>) -> Json {
    Json::Object(
        Map::<Seq<char>, Json>::empty().insert("type"@, Json::Text("M:1"@)).insert(
            "target_drawer"@,
            Json::Text(target_drawer),
        ),
    )
}

impl AlterRequest {
    pub fn schema_rule(
        drawer_name: &str,
        action: &str,
        kind: &str,
        field_name: &str,
        payload: JsonValue,
    ) -> (r: Self)
        ensures
            r matches AlterRequest::SchemaRule {
                drawer_name: d,
                action: a,
                kind: k,
                field_name: f,
                payload: p,
            } && d@ == drawer_name@ && a@ == action@ && k@ == kind@ && f@ == field_name@ && p
                == payload,
    {
        AlterRequest::SchemaRule {
            drawer_name: owned(drawer_name),
            action: owned(action),
            kind: owned(kind),
            field_name: owned(field_name),
            payload,
        }
    }

    /// The request that adds a relationship of many records to one.
    pub fn relationship(drawer_name: &str, field_name: &str, target_drawer: &str) -> (r: Self)
        ensures
            r matches AlterRequest::SchemaRule {
                drawer_name: d,
                action: a,
                kind: k,
                field_name: f,
                payload: p,
            } && d@ == drawer_name@ && a@ == "add"@ && k@ == "relationship"@ && f@ == field_name@
                && p@ == relationship_payload(target_drawer@),
    {
        broadcast use group_value;

        let mut fields: TextMap<JsonValue> = TextMap::new();
        fields.insert(owned("type"), JsonValue::text("M:1"));
        fields.insert(owned("target_drawer"), JsonValue::text(target_drawer));
        AlterRequest::schema_rule(
            drawer_name,
            "add",
            "relationship",
            field_name,
            JsonValue::object(fields),
        )
    }
}

#[derive(Debug, PartialEq, Eq)]
pub enum DropRequest {
    Database { database_name: String },
    Schema { database_name: String, schema_name: String },
    Drawer { database_name: String, schema_name: String, drawer_name: String },
    SchemaRule { drawer_name: String, kind: String, field_name: String, payload: JsonValue },
    User { username: String },
}

impl DropRequest {
    pub fn database(database_name: &str) -> (r: Self)
        ensures
            r matches DropRequest::Database { database_name: d } && d@ == database_name@,
    {
        DropRequest::Database { database_name: owned(database_name) }
    }

    pub fn schema(database_name: &str, schema_name: &str) -> (r: Self)
        ensures
            r matches DropRequest::Schema { database_name: d, schema_name: s } && d@
                == database_name@ && s@ == schema_name@,
    {
        DropRequest::Schema {
            database_name: owned(database_name),
            schema_name: owned(schema_name),
        }
    }

    pub fn drawer(database_name: &str, schema_name: &str, drawer_name: &str) -> (r: Self)
        ensures
            r matches DropRequest::Drawer { database_name: d, schema_name: s, drawer_name: w } && d@
                == database_name@ && s@ == schema_name@ && w@ == drawer_name@,
    {
        DropRequest::Drawer {
            database_name: owned(database_name),
            schema_name: owned(schema_name),
            drawer_name: owned(drawer_name),
        }
    }

    pub fn schema_rule(drawer_name: &str, kind: &str, field_name: &str, payload: JsonValue) -> (r:
        Self)
        ensures
            r matches DropRequest::SchemaRule { drawer_name: d, kind: k, field_name: f, payload: p }
                && d@ == drawer_name@ && k@ == kind@ && f@ == field_name@ && p == payload,
    {
        DropRequest::SchemaRule {
            drawer_name: owned(drawer_name),
            kind: owned(kind),
            field_name: owned(field_name),
            payload,
        }
    }

    pub fn user(username: &str) -> (r: Self)
        ensures
            r matches DropRequest::User { username: u } && u@ == username@,
    {
        DropRequest::User { username: owned(username) }
    }
}

/// A path, and what may be done under it.
#[derive(Debug, PartialEq, Eq)]
pub struct PermissionScopeDescriptor {
    pub path: String,
    pub rights: String,
}

/// A permission that is granted or revoked.
#[derive(Debug, PartialEq, Eq)]
pub struct PermissionRequest {
    pub username: String,
    pub permission_scope: String,
    pub scope: Option<PermissionScopeDescriptor>,
}

/// The payload of a permission request.
pub open spec fn permission_payload(request: PermissionRequest) -> Json {
    let plain = Map::<Seq<char>, Json>::empty().insert(
        "username"@,
        Json::Text(request.username@),
    ).insert("permission_scope"@, Json::Text(request.permission_scope@));
    match request.scope {
        None => Json::Object(plain),
        Some(scope) => Json::Object(
            plain.insert(
                "scope"@,
                Json::Object(
                    Map::<Seq<char>, Json>::empty().insert("path"@, Json::Text(scope.path@)).insert(
                        "rights"@,
                        Json::Text(scope.rights@),
                    ),
                ),
            ),
        ),
    }
}

impl PermissionRequest {
    pub fn new(username: &str, permission_scope: &str) -> (r: Self)
        ensures
            r.username@ == username@,
            r.permission_scope@ == permission_scope@,
            r.scope is None,
    {
        PermissionRequest {
            username: owned(username),
            permission_scope: owned(permission_scope),
            scope: None,
        }
    }

    pub fn with_scope(username: &str, permission_scope: &str, path: &str, rights: &str) -> (r: Self)
        ensures
            r.username@ == username@,
            r.permission_scope@ == permission_scope@,
            r.scope matches Some(scope) && scope.path@ == path@ && scope.rights@ == rights@,
    {
        PermissionRequest {
            username: owned(username),
            permission_scope: owned(permission_scope),
            scope: Some(PermissionScopeDescriptor { path: owned(path), rights: owned(rights) }),
        }
    }

    pub fn into_payload(self) -> (r: JsonValue)
        ensures
            r@ == permission_payload(self),
    {
        broadcast use group_value;

        let mut payload: TextMap<JsonValue> = TextMap::new();
        payload.insert(owned("username"), JsonValue::text(self.username.as_str()));
        payload.insert(
            owned("permission_scope"),
            JsonValue::text(self.permission_scope.as_str()),
        );
        match &self.scope {
            Some(scope) => {
                let mut fields: TextMap<JsonValue> = TextMap::new();
                fields.insert(owned("path"), JsonValue::text(scope.path.as_str()));
                fields.insert(owned("rights"), JsonValue::text(scope.rights.as_str()));
                payload.insert(owned("scope"), JsonValue::object(fields));
            },
            None => {},
        }
        JsonValue::object(payload)
    }
}

/// What is asked of the state of the storage.
#[allow(inconsistent_fields)]
#[derive(Debug, PartialEq, Eq)]
pub enum StatusRequest {
    Tenants,
    Databases,
    Schemas { database_name: String },
    Drawers { database_name: String, schema_name: String },
    Wal { database_name: Option<String> },
    Storage,
    Path { path: String },
    DrawerNames,
    CachedDrawerCount,
}

impl StatusRequest {
    pub fn tenants() -> (r: TypedStatusRequest<Vec<String>>)
        ensures
            r.request == StatusRequest::Tenants,
    {
        TypedStatusRequest::new(StatusRequest::Tenants)
    }

    pub fn databases() -> (r: TypedStatusRequest<Vec<StorageInventory>>)
        ensures
            r.request == StatusRequest::Databases,
    {
        TypedStatusRequest::new(StatusRequest::Databases)
    }

    pub fn schemas(database_name: &str) -> (r: TypedStatusRequest<Vec<String>>)
        ensures
            r.request matches StatusRequest::Schemas { database_name: d } && d@ == database_name@,
    {
        TypedStatusRequest::new(StatusRequest::Schemas { database_name: owned(database_name) })
    }

    pub fn drawers(database_name: &str, schema_name: &str) -> (r: TypedStatusRequest<
        Vec<StorageInventory>,
    >)
        ensures
            r.request matches StatusRequest::Drawers { database_name: d, schema_name: s } && d@
                == database_name@ && s@ == schema_name@,
    {
        TypedStatusRequest::new(
            StatusRequest::Drawers {
                database_name: owned(database_name),
                schema_name: owned(schema_name),
            },
        )
    }

    pub fn wal(database_name: Option<&str>) -> (r: TypedStatusRequest<WalVerification>)
        ensures
            r.request matches StatusRequest::Wal { database_name: d } && opt_text(d) == opt_str(
                database_name,
            ),
    {
        TypedStatusRequest::new(
            StatusRequest::Wal {
                database_name: match database_name {
                    Some(name) => Some(owned(name)),
                    None => None,
                },
            },
        )
    }

    pub fn storage() -> (r: TypedStatusRequest<StorageDiagnosis>)
        ensures
            r.request == StatusRequest::Storage,
    {
        TypedStatusRequest::new(StatusRequest::Storage)
    }

    pub fn path(path: &str) -> (r: TypedStatusRequest<CheckReport>)
        ensures
            r.request matches StatusRequest::Path { path: p } && p@ == path@,
    {
        TypedStatusRequest::new(StatusRequest::Path { path: owned(path) })
    }

    pub fn drawer_names() -> (r: TypedStatusRequest<Vec<String>>)
        ensures
            r.request == StatusRequest::DrawerNames,
    {
        TypedStatusRequest::new(StatusRequest::DrawerNames)
    }

    pub fn cached_drawer_count() -> (r: TypedStatusRequest<usize>)
        ensures
            r.request == StatusRequest::CachedDrawerCount,
    {
        TypedStatusRequest::new(StatusRequest::CachedDrawerCount)
    }
}

/// A status request, with the type of what it is answered with.
#[derive(Debug, PartialEq)]
pub struct TypedStatusRequest<T> {
    pub request: StatusRequest,
    pub output: PhantomData<T>,
}

impl<T> TypedStatusRequest<T> {
    pub fn new(request: StatusRequest) -> (r: Self)
        ensures
            r.request == request,
    {
        TypedStatusRequest { request, output: PhantomData }
    }

    pub fn into_request(self) -> (r: StatusRequest)
        ensures
            r == self.request,
    {
        self.request
    }
}

impl<T> FromSpecImpl<TypedStatusRequest<T>> for StatusRequest {
    open spec fn obeys_from_spec() -> bool {
        true
    }

    open spec fn from_spec(v: TypedStatusRequest<T>) -> StatusRequest {
        v.request
    }
}

impl<T> From<TypedStatusRequest<T>> for StatusRequest {
    fn from(request: TypedStatusRequest<T>) -> (r: StatusRequest) {
        request.into_request()
    }
}

/// A command.
#[derive(Debug, PartialEq, Eq)]
pub enum Command {
    Upsert { payload: JsonValue, filter: OperationFilter, options: OperationOptions },
    Read { filter: OperationFilter, options: OperationOptions },
    Delete { filter: OperationFilter, options: OperationOptions },
    Inspect { filter: OperationFilter, options: OperationOptions },
    Count { filter: OperationFilter, options: OperationOptions },
    Compact(CompactRequest),
    Create(CreateRequest),
    Alter(AlterRequest),
    Drop(DropRequest),
    Backup { source_path: String },
    Restore { destination_path: String, archive: BackupArchive },
    Grant(PermissionRequest),
    Revoke(PermissionRequest),
    Status(StatusRequest),
    ExecuteForTenant {
        tenant_id: String,
        database_name: String,
        schema_name: String,
        command: Box<Command>,
    },
    Execute { coordinate: StorageCoordinate, command: Box<Command> },
    ExecuteInScope { scope: StorageScope, command: Box<Command> },
}

} // verus!
