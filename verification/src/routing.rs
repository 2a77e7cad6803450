//! Where commands go: the directories of tenants, databases and schemas, and the names that
//! drawers have there.
pub mod laws;

use crate::catalog::validation::{
    coordinate_check, database_check, database_path_from_name, database_place, token_check,
    validate_catalog_token, validate_database_name, validate_schema_name,
    validate_storage_coordinate_component,
};
use crate::error::{outcome, text_outcome, Error, Failure};
use crate::paths::{join_path, path_joined};
use crate::storage::types::{StorageCoordinate, StorageScope};
use crate::text::{concat3, opt_str, owned};
use vstd::prelude::*;

verus! {

/// The name under which a drawer is stored in a namespace.
pub open spec fn scoped_name(drawer: Seq<char>, namespace: Option<Seq<char>>) -> Seq<char> {
    match namespace {
        Some(ns) => ns + "_"@ + drawer,
        None => drawer,
    }
}

pub fn scoped_drawer_name(drawer_name: &str, namespace: Option<&str>) -> (r: String)
    ensures
        r@ == scoped_name(drawer_name@, opt_str(namespace)),
{
    match namespace {
        Some(ns) => concat3(ns, "_", drawer_name),
        None => owned(drawer_name),
    }
}

/// The name under which the database of a coordinate is in the catalog.
pub open spec fn catalog_database(coordinate: StorageCoordinate) -> Seq<char> {
    coordinate.tenant_id@ + "/"@ + coordinate.database@
}

pub fn coordinate_catalog_database(coordinate: &StorageCoordinate) -> (r: String)
    ensures
        r@ == catalog_database(*coordinate),
{
    concat3(coordinate.tenant_id.as_str(), "/", coordinate.database.as_str())
}

/// The directory of a coordinate, or why it has none.
pub open spec fn coordinate_place(root: Seq<char>, coordinate: StorageCoordinate) -> Result<
    Seq<char>,
    Failure,
> {
    match (
        coordinate_check("tenant"@, coordinate.tenant_id@),
        coordinate_check("database"@, coordinate.database@),
        coordinate_check("schema"@, coordinate.schema@),
    ) {
        (Err(f), _, _) => Err(f),
        (Ok(()), Err(f), _) => Err(f),
        (Ok(()), Ok(()), Err(f)) => Err(f),
        (Ok(()), Ok(()), Ok(())) => Ok(
            path_joined(
                path_joined(path_joined(root, coordinate.tenant_id@), coordinate.database@),
                coordinate.schema@,
            ),
        ),
    }
}

pub fn coordinate_database_path(root_directory: &str, coordinate: &StorageCoordinate) -> (r: Result<
    String,
    Error,
>)
    ensures
        text_outcome(r) == coordinate_place(root_directory@, *coordinate),
{
    match validate_storage_coordinate_component("tenant", coordinate.tenant_id.as_str()) {
        Ok(()) => {},
        Err(e) => {
            return Err(e);
        },
    }
    match validate_storage_coordinate_component("database", coordinate.database.as_str()) {
        Ok(()) => {},
        Err(e) => {
            return Err(e);
        },
    }
    match validate_storage_coordinate_component("schema", coordinate.schema.as_str()) {
        Ok(()) => {},
        Err(e) => {
            return Err(e);
        },
    }
    let tenant = join_path(root_directory, coordinate.tenant_id.as_str());
    let database = join_path(tenant.as_str(), coordinate.database.as_str());
    Ok(join_path(database.as_str(), coordinate.schema.as_str()))
}

/// The directory of a schema of a database, or why it has none.
pub open spec fn schema_place(root: Seq<char>, database: Seq<char>, schema: Seq<char>) -> Result<
    Seq<char>,
    Failure,
> {
    match database_place(root, database) {
        Err(f) => Err(f),
        Ok(path) => Ok(path_joined(path, schema)),
    }
}

pub fn schema_scope_path(root_directory: &str, database: &str, schema: &str) -> (r: Result<
    String,
    Error,
>)
    ensures
        text_outcome(r) == schema_place(root_directory@, database@, schema@),
{
    match database_path_from_name(root_directory, database) {
        Ok(path) => Ok(join_path(path.as_str(), schema)),
        Err(e) => Err(e),
    }
}

/// What is said of the names in a scope.
pub open spec fn scope_names_check(scope: StorageScope) -> Result<(), Failure> {
    match scope {
        StorageScope::Tenant { .. } => Ok(()),
        StorageScope::Database { database } => database_check(database@),
        StorageScope::Schema { database, schema } => match database_check(database@) {
            Err(f) => Err(f),
            Ok(()) => token_check(schema@, "schema"@),
        },
        StorageScope::Drawer { namespace } => token_check(namespace@, "namespace"@),
    }
}

/// Checks the names in a scope. Those of a tenant are checked when its route is looked up.
pub fn validate_scope(scope: &StorageScope) -> (r: Result<(), Error>)
    ensures
        outcome(r) == scope_names_check(*scope),
{
    match scope {
        StorageScope::Tenant { .. } => Ok(()),
        StorageScope::Database { database } => validate_database_name(database.as_str()),
        StorageScope::Schema { database, schema } => match validate_database_name(
            database.as_str(),
        ) {
            Ok(()) => validate_schema_name(schema.as_str()),
            Err(e) => Err(e),
        },
        StorageScope::Drawer { namespace } => validate_catalog_token(
            namespace.as_str(),
            "namespace",
        ),
    }
}

} // verus!
