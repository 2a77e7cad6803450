//! Which database a command is carried out in, and what refuses it before.
use crate::catalog::registry::{CatalogRegistry, CatalogTenantRoute};
use crate::catalog::validation::{
    catalog_location_path, database_check, database_path_from_name, database_place, token_check,
    validate_database_name, validate_schema_name, validate_tenant_identifier,
};
use crate::command::dispatch::{command_drawer, registry_refusal, validate_command_against_registry};
use crate::command::requests::Command;
use crate::error::{not_found, text_outcome, Error, Failure};
use crate::paths::{join_path, path_joined};
use crate::routing::{
    catalog_database, coordinate_catalog_database, coordinate_database_path, coordinate_place,
    schema_place, schema_scope_path, scope_names_check, validate_scope,
};
use crate::storage::types::{StorageCoordinate, StorageScope};
use crate::text::{concat3, concat5, opt_text, owned, same};
use vstd::prelude::*;

verus! {

/// The first route of a tenant from position `i` on.
pub open spec fn route_from(routes: Seq<CatalogTenantRoute>, tenant: Seq<char>, i: int) -> Option<
    CatalogTenantRoute,
>
    decreases routes.len() - i,
{
    if i < 0 || i >= routes.len() {
        None
    } else if routes[i].tenant_id@ == tenant {
        Some(routes[i])
    } else {
        route_from(routes, tenant, i + 1)
    }
}

proof fn lemma_route_at(routes: Seq<CatalogTenantRoute>, tenant: Seq<char>, i: int, at: int)
    requires
        0 <= i <= at < routes.len(),
        routes[at].tenant_id@ == tenant,
        forall|j: int| i <= j < at ==> (#[trigger] routes[j]).tenant_id@ != tenant,
    ensures
        route_from(routes, tenant, i) == Some(routes[at]),
    decreases at - i,
{
    if i < at {
        assert(routes[i].tenant_id@ != tenant);
        lemma_route_at(routes, tenant, i + 1, at);
    }
}

proof fn lemma_no_route(routes: Seq<CatalogTenantRoute>, tenant: Seq<char>, i: int)
    requires
        0 <= i <= routes.len(),
        forall|j: int| 0 <= j < routes.len() ==> (#[trigger] routes[j]).tenant_id@ != tenant,
    ensures
        route_from(routes, tenant, i) is None,
    decreases routes.len() - i,
{
    if i < routes.len() {
        assert(routes[i].tenant_id@ != tenant);
        lemma_no_route(routes, tenant, i + 1);
    }
}

/// The directory that a command of a tenant is carried out in, or why it is refused: the names
/// have to be valid, the tenant has to be routed to the database, and the drawer of the command
/// has to be registered.
pub open spec fn tenant_routed(
    root: Seq<char>,
    registry: CatalogRegistry,
    tenant: Seq<char>,
    database: Seq<char>,
    schema: Seq<char>,
    drawer: Option<Seq<char>>,
) -> Result<Seq<char>, Failure> {
    match (
        token_check(tenant, "tenant"@),
        database_check(database),
        token_check(schema, "schema"@),
    ) {
        (Err(f), _, _) => Err(f),
        (Ok(()), Err(f), _) => Err(f),
        (Ok(()), Ok(()), Err(f)) => Err(f),
        (Ok(()), Ok(()), Ok(())) => match route_from(registry.routes@, tenant, 0) {
            None => Err(not_found("Tenant '"@ + tenant + "' is not registered in the catalog"@)),
            Some(route) => if route.database@ != database {
                Err(
                    not_found(
                        "Tenant '"@ + tenant + "' is not routed to database '"@ + database + "'"@,
                    ),
                )
            } else {
                match registry_refusal(registry, database, schema, drawer) {
                    Some(f) => Err(f),
                    None => Ok(path_joined(path_joined(root, route.location@), schema)),
                }
            },
        },
    }
}

/// The directory that a command of a tenant is carried out in.
pub fn execute_for_tenant(
    root_directory: &str,
    registry: &CatalogRegistry,
    tenant_id: &str,
    database_name: &str,
    schema_name: &str,
    command: &Command,
) -> (r: Result<String, Error>)
    ensures
        text_outcome(r) == tenant_routed(
            root_directory@,
            *registry,
            tenant_id@,
            database_name@,
            schema_name@,
            command_drawer(*command),
        ),
{
    match validate_tenant_identifier(tenant_id) {
        Ok(()) => {},
        Err(e) => {
            return Err(e);
        },
    }
    match validate_database_name(database_name) {
        Ok(()) => {},
        Err(e) => {
            return Err(e);
        },
    }
    match validate_schema_name(schema_name) {
        Ok(()) => {},
        Err(e) => {
            return Err(e);
        },
    }
    let route = match registry.tenant_route(tenant_id) {
        Some(route) => {
            proof {
                let i = choose|i: int|
                    0 <= i < registry.routes@.len() && #[trigger] registry.routes@[i] == *route
                        && route.tenant_id@ == tenant_id@ && forall|j: int|
                        0 <= j < i ==> (#[trigger] registry.routes@[j]).tenant_id@ != tenant_id@;
                lemma_route_at(registry.routes@, tenant_id@, 0, i);
            }
            route
        },
        None => {
            proof {
                lemma_no_route(registry.routes@, tenant_id@, 0);
            }
            return Err(
                Error::missing(
                    concat3("Tenant '", tenant_id, "' is not registered in the catalog"),
                ),
            );
        },
    };
    if !same(route.database.as_str(), database_name) {
        return Err(
            Error::missing(
                concat5("Tenant '", tenant_id, "' is not routed to database '", database_name, "'"),
            ),
        );
    }
    match validate_command_against_registry(registry, database_name, schema_name, command) {
        Ok(()) => {},
        Err(e) => {
            return Err(e);
        },
    }
    let location = catalog_location_path(root_directory, route.location.as_str());
    Ok(join_path(location.as_str(), schema_name))
}

/// The directory that a command at a coordinate is carried out in, or why it is refused.
pub open spec fn coordinate_routed(
    root: Seq<char>,
    registry: CatalogRegistry,
    coordinate: StorageCoordinate,
    drawer: Option<Seq<char>>,
) -> Result<Seq<char>, Failure> {
    match registry_refusal(registry, catalog_database(coordinate), coordinate.schema@, drawer) {
        Some(f) => Err(f),
        None => coordinate_place(root, coordinate),
    }
}

/// The directory that a command at a coordinate is carried out in.
pub fn execute(
    root_directory: &str,
    registry: &CatalogRegistry,
    coordinate: &StorageCoordinate,
    command: &Command,
) -> (r: Result<String, Error>)
    ensures
        text_outcome(r) == coordinate_routed(
            root_directory@,
            *registry,
            *coordinate,
            command_drawer(*command),
        ),
{
    let database = coordinate_catalog_database(coordinate);
    match validate_command_against_registry(
        registry,
        database.as_str(),
        coordinate.schema(),
        command,
    ) {
        Ok(()) => {},
        Err(e) => {
            return Err(e);
        },
    }
    coordinate_database_path(root_directory, coordinate)
}

/// Where a command is carried out: the directory of the database, the schema that is noted in
/// its log, and the namespace of its drawers.
#[derive(Debug, PartialEq, Eq)]
pub struct ScopeRoute {
    pub path: String,
    pub log_schema: Option<String>,
    pub namespace: Option<String>,
}

/// The model of a route.
pub struct ScopeRouteModel {
    pub path: Seq<char>,
    pub log_schema: Option<Seq<char>>,
    pub namespace: Option<Seq<char>>,
}

impl View for ScopeRoute {
    type V = ScopeRouteModel;

    open spec fn view(&self) -> ScopeRouteModel {
        ScopeRouteModel {
            path: self.path@,
            log_schema: opt_text(self.log_schema),
            namespace: opt_text(self.namespace),
        }
    }
}

/// Where a command in a scope is carried out, or why it is refused.
pub open spec fn scope_routed(
    root: Seq<char>,
    registry: CatalogRegistry,
    scope: StorageScope,
    drawer: Option<Seq<char>>,
) -> Result<ScopeRouteModel, Failure> {
    match scope_names_check(scope) {
        Err(f) => Err(f),
        Ok(()) => match scope {
            StorageScope::Tenant { tenant_id, database, schema } => match tenant_routed(
                root,
                registry,
                tenant_id@,
                database@,
                schema@,
                drawer,
            ) {
                Err(f) => Err(f),
                Ok(path) => Ok(
                    ScopeRouteModel { path, log_schema: Some(schema@), namespace: None },
                ),
            },
            StorageScope::Database { database } => match database_place(root, database@) {
                Err(f) => Err(f),
                Ok(path) => Ok(ScopeRouteModel { path, log_schema: None, namespace: None }),
            },
            StorageScope::Schema { database, schema } => match registry_refusal(
                registry,
                database@,
                schema@,
                drawer,
            ) {
                Some(f) => Err(f),
                None => match schema_place(root, database@, schema@) {
                    Err(f) => Err(f),
                    Ok(path) => Ok(
                        ScopeRouteModel { path, log_schema: Some(schema@), namespace: None },
                    ),
                },
            },
            StorageScope::Drawer { namespace } => Ok(
                ScopeRouteModel {
                    path: root,
                    log_schema: Some(namespace@),
                    namespace: Some(namespace@),
                },
            ),
        },
    }
}

/// Where a command in a scope is carried out.
pub fn execute_in_scope(
    root_directory: &str,
    registry: &CatalogRegistry,
    scope: &StorageScope,
    command: &Command,
) -> (r: Result<ScopeRoute, Error>)
    ensures
        match (
            scope_routed(root_directory@, *registry, *scope, command_drawer(*command)),
            r,
        ) {
            (Ok(m), Ok(route)) => route@ == m,
            (Err(f), Err(e)) => e@ == f,
            _ => false,
        },
{
    match validate_scope(scope) {
        Ok(()) => {},
        Err(e) => {
            return Err(e);
        },
    }
    match scope {
        StorageScope::Tenant { tenant_id, database, schema } => match execute_for_tenant(
            root_directory,
            registry,
            tenant_id.as_str(),
            database.as_str(),
            schema.as_str(),
            command,
        ) {
            Ok(path) => Ok(
                ScopeRoute { path, log_schema: Some(owned(schema.as_str())), namespace: None },
            ),
            Err(e) => Err(e),
        },
        StorageScope::Database { database } => match database_path_from_name(
            root_directory,
            database.as_str(),
        ) {
            Ok(path) => Ok(ScopeRoute { path, log_schema: None, namespace: None }),
            Err(e) => Err(e),
        },
        StorageScope::Schema { database, schema } => {
            match validate_command_against_registry(
                registry,
                database.as_str(),
                schema.as_str(),
                command,
            ) {
                Ok(()) => {},
                Err(e) => {
                    return Err(e);
                },
            }
            match schema_scope_path(root_directory, database.as_str(), schema.as_str()) {
                Ok(path) => Ok(
                    ScopeRoute { path, log_schema: Some(owned(schema.as_str())), namespace: None },
                ),
                Err(e) => Err(e),
            }
        },
        StorageScope::Drawer { namespace } => Ok(
            ScopeRoute {
                path: owned(root_directory),
                log_schema: Some(owned(namespace.as_str())),
                namespace: Some(owned(namespace.as_str())),
            },
        ),
    }
}

/// A tenant reaches only the database that it is routed to.
pub proof fn law_tenant_reaches_its_own_database(
    root: Seq<char>,
    registry: CatalogRegistry,
    tenant: Seq<char>,
    database: Seq<char>,
    schema: Seq<char>,
    drawer: Option<Seq<char>>,
)
    ensures
        tenant_routed(root, registry, tenant, database, schema, drawer) is Ok ==> (route_from(
            registry.routes@,
            tenant,
            0,
        ) matches Some(route) && route.database@ == database),
{
}

} // verus!
