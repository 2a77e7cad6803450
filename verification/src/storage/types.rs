//! Where data is kept: coordinates, scopes and locators, and what is counted there.
use crate::text::owned;
use vstd::prelude::*;

verus! {

/// What is kept under a name.
#[derive(Debug, PartialEq, Eq)]
pub struct StorageInventory {
    pub name: String,
    pub record_count: usize,
    pub disk_size_bytes: u64,
    pub register_file_count: usize,
}

/// A record: by its pointer, or by its drawer and its key.
#[derive(Debug, PartialEq, Eq)]
pub enum StorageLocator {
    Inline(String),
    Explicit { drawer: String, id: String },
}

/// A schema of a database of a tenant.
#[derive(Debug, PartialEq, Eq)]
pub struct StorageCoordinate {
    pub tenant_id: String,
    pub database: String,
    pub schema: String,
}

impl StorageCoordinate {
    pub fn new(tenant_id: &str, database: &str, schema: &str) -> (r: Self)
        ensures
            r.tenant_id@ == tenant_id@,
            r.database@ == database@,
            r.schema@ == schema@,
    {
        StorageCoordinate {
            tenant_id: owned(tenant_id),
            database: owned(database),
            schema: owned(schema),
        }
    }

    pub fn schema(&self) -> (r: &str)
        ensures
            r@ == self.schema@,
    {
        self.schema.as_str()
    }
}

/// The part of the storage that a command is about.
#[derive(Debug, PartialEq, Eq)]
pub enum StorageScope {
    Tenant { tenant_id: String, database: String, schema: String },
    Database { database: String },
    Schema { database: String, schema: String },
    Drawer { namespace: String },
}

impl StorageScope {
    pub fn database(database: &str) -> (r: Self)
        ensures
            r matches StorageScope::Database { database: d } && d@ == database@,
    {
        StorageScope::Database { database: owned(database) }
    }

    pub fn schema(database: &str, schema: &str) -> (r: Self)
        ensures
            r matches StorageScope::Schema { database: d, schema: s } && d@ == database@ && s@
                == schema@,
    {
        StorageScope::Schema { database: owned(database), schema: owned(schema) }
    }

    pub fn drawer(namespace: &str) -> (r: Self)
        ensures
            r matches StorageScope::Drawer { namespace: n } && n@ == namespace@,
    {
        StorageScope::Drawer { namespace: owned(namespace) }
    }
}

/// What was found in a write-ahead log.
#[derive(Debug, PartialEq, Eq)]
pub struct WalVerification {
    pub path: String,
    pub entry_count: usize,
    pub last_sequence: Option<u64>,
}

/// The order in which records are given.
#[derive(Debug, Clone, Copy, PartialEq, Eq, Structural)]
pub enum OrderDirection {
    Ascending,
    Descending,
}

/// Which of the records that a query finds are given, and in what order.
#[derive(Debug, PartialEq, Eq)]
pub struct QueryModifiers {
    pub limit: Option<usize>,
    pub offset: Option<usize>,
    pub order_by: Option<String>,
    pub order_direction: Option<OrderDirection>,
    pub cursor: Option<String>,
    pub page: Option<usize>,
    pub page_size: Option<usize>,
}

impl Default for QueryModifiers {
    fn default() -> (r: Self)
        ensures
            r == (QueryModifiers {
                limit: None,
                offset: None,
                order_by: None,
                order_direction: None,
                cursor: None,
                page: None,
                page_size: None,
            }),
    {
        QueryModifiers {
            limit: None,
            offset: None,
            order_by: None,
            order_direction: None,
            cursor: None,
            page: None,
            page_size: None,
        }
    }
}

} // verus!
