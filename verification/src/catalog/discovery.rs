//! Which tenants, databases, schemas and drawers there are, by the catalog or by the files.
use crate::catalog::diagnostics::{drawer_name_from_file_path, drawer_of_file};
use crate::catalog::folder::Folder;
use crate::catalog::registry::{database_set, schema_set, tenant_set, CatalogRegistry};
use crate::catalog::validation::{database_path_from_name, database_place};
use crate::error::Error;
use crate::fields::{key_order, TextMap};
use crate::paths::opt_name;
use crate::text::{cut_last, cut_once, owned, rsplit_once, split_once, texts};
use vstd::prelude::*;

verus! {

/// Whether a directory holds the records of a drawer.
pub open spec fn has_drawers(folder: Folder) -> bool {
    exists|i: int|
        0 <= i < folder.files@.len() && drawer_of_file((#[trigger] folder.files@[i]).name@) is Some
}

pub fn directory_has_drawer_files(folder: &Folder) -> (r: bool)
    ensures
        r == has_drawers(*folder),
{
    let mut i: usize = 0;
    while i < folder.files.len()
        invariant
            i <= folder.files.len(),
            forall|j: int|
                0 <= j < i ==> drawer_of_file((#[trigger] folder.files@[j]).name@) is None,
        decreases folder.files.len() - i,
    {
        if drawer_name_from_file_path(folder.files[i].name.as_str()).is_some() {
            assert(drawer_of_file(folder.files@[i as int].name@) is Some);
            return true;
        }
        i = i + 1;
    }
    false
}

/// Whether a directory holds a database: drawers, or a directory with drawers.
pub open spec fn has_layout(folder: Folder) -> bool {
    has_drawers(folder) || exists|i: int|
        0 <= i < folder.folders@.len() && has_drawers(#[trigger] folder.folders@[i])
}

pub fn directory_has_database_layout(folder: &Folder) -> (r: bool)
    ensures
        r == has_layout(*folder),
{
    if directory_has_drawer_files(folder) {
        return true;
    }
    let mut i: usize = 0;
    while i < folder.folders.len()
        invariant
            i <= folder.folders.len(),
            forall|j: int| 0 <= j < i ==> !has_drawers(#[trigger] folder.folders@[j]),
        decreases folder.folders.len() - i,
    {
        if directory_has_drawer_files(&folder.folders[i]) {
            return true;
        }
        i = i + 1;
    }
    false
}

/// The tenant that the name of a drawer starts with.
pub open spec fn prefix_tenant(file: Seq<char>) -> Option<Seq<char>> {
    match drawer_of_file(file) {
        None => None,
        Some(drawer) => match cut_last(drawer, '_') {
            Some((tenant, rest)) => if tenant.len() > 0 && rest.len() > 0 {
                Some(tenant)
            } else {
                None
            },
            None => None,
        },
    }
}

/// Whether the name of a drawer in the directory starts with the tenant.
pub open spec fn names_tenant(folder: Folder, tenant: Seq<char>) -> bool {
    exists|i: int|
        0 <= i < folder.files@.len() && prefix_tenant((#[trigger] folder.files@[i]).name@) == Some(
            tenant,
        )
}

fn tenant_of_file(file: &str) -> (r: Option<String>)
    ensures
        opt_name(r) == prefix_tenant(file@),
{
    match drawer_name_from_file_path(file) {
        None => None,
        Some(drawer) => match rsplit_once(drawer.as_str(), '_') {
            Some((tenant, rest)) => if !tenant.as_str().is_empty() && !rest.as_str().is_empty() {
                Some(tenant)
            } else {
                None
            },
            None => None,
        },
    }
}

fn collect_drawer_prefix_tenants(folder: &Folder, tenants: &mut TextMap<()>)
    ensures
        forall|t: Seq<char>| #[trigger]
            final(tenants)@.dom().contains(t) <==> old(tenants)@.dom().contains(t) || names_tenant(
                *folder,
                t,
            ),
{
    let ghost start = tenants@.dom();
    let mut i: usize = 0;
    while i < folder.files.len()
        invariant
            i <= folder.files.len(),
            start == old(tenants)@.dom(),
            forall|t: Seq<char>| #[trigger]
                tenants@.dom().contains(t) <==> start.contains(t) || exists|j: int|
                    0 <= j < i && prefix_tenant((#[trigger] folder.files@[j]).name@) == Some(t),
        decreases folder.files.len() - i,
    {
        let ghost before = tenants@.dom();
        match tenant_of_file(folder.files[i].name.as_str()) {
            Some(tenant) => {
                let ghost t = tenant@;
                tenants.insert(tenant, ());
                assert(tenants@.dom() =~= before.insert(t));
                assert(prefix_tenant(folder.files@[i as int].name@) == Some(t));
            },
            None => {
                assert(prefix_tenant(folder.files@[i as int].name@) is None);
            },
        }
        i = i + 1;
    }
}

/// Whether a directory with drawers belongs to the tenant of its own name, or to one that the
/// name of a drawer in it starts with.
pub open spec fn own_tenant(folder: Folder, tenant: Seq<char>) -> bool {
    has_drawers(folder) && (tenant == folder.name@ || names_tenant(folder, tenant))
}

/// Whether a directory in the second one below the first belongs to the tenant, which is also
/// the one that the first is named after.
pub open spec fn third_tenant(top: Folder, second: Folder, tenant: Seq<char>) -> bool {
    exists|k: int|
        0 <= k < second.folders@.len() && has_drawers(#[trigger] second.folders@[k]) && (tenant
            == top.name@ || names_tenant(second.folders@[k], tenant))
}

/// Whether something in a directory below the root belongs to the tenant.
pub open spec fn top_tenant(top: Folder, tenant: Seq<char>) -> bool {
    own_tenant(top, tenant) || exists|j: int|
        0 <= j < top.folders@.len() && (own_tenant(#[trigger] top.folders@[j], tenant)
            || third_tenant(top, top.folders@[j], tenant))
}

/// The tenants that the files below the root belong to.
pub open spec fn tenants_found(root: Folder) -> Set<Seq<char>> {
    Set::new(
        |t: Seq<char>|
            names_tenant(root, t) || exists|i: int|
                0 <= i < root.folders@.len() && top_tenant(#[trigger] root.folders@[i], t),
    )
}

fn collect_own(folder: &Folder, tenants: &mut TextMap<()>)
    ensures
        forall|t: Seq<char>| #[trigger]
            final(tenants)@.dom().contains(t) <==> old(tenants)@.dom().contains(t) || own_tenant(
                *folder,
                t,
            ),
{
    if directory_has_drawer_files(folder) {
        let ghost before = tenants@.dom();
        tenants.insert(owned(folder.name.as_str()), ());
        assert(tenants@.dom() =~= before.insert(folder.name@));
        collect_drawer_prefix_tenants(folder, tenants);
    }
}

fn collect_third(top: &Folder, second: &Folder, tenants: &mut TextMap<()>)
    ensures
        forall|t: Seq<char>| #[trigger]
            final(tenants)@.dom().contains(t) <==> old(tenants)@.dom().contains(t) || third_tenant(
                *top,
                *second,
                t,
            ),
{
    let ghost start = tenants@.dom();
    let mut i: usize = 0;
    while i < second.folders.len()
        invariant
            i <= second.folders.len(),
            start == old(tenants)@.dom(),
            forall|t: Seq<char>| #[trigger]
                tenants@.dom().contains(t) <==> start.contains(t) || exists|k: int|
                    0 <= k < i && has_drawers(#[trigger] second.folders@[k]) && (t == top.name@
                        || names_tenant(second.folders@[k], t)),
        decreases second.folders.len() - i,
    {
        let third = &second.folders[i];
        if directory_has_drawer_files(third) {
            let ghost before = tenants@.dom();
            tenants.insert(owned(top.name.as_str()), ());
            assert(tenants@.dom() =~= before.insert(top.name@));
            collect_drawer_prefix_tenants(third, tenants);
            assert(has_drawers(second.folders@[i as int]));
        } else {
            assert(!has_drawers(second.folders@[i as int]));
        }
        i = i + 1;
    }
}

fn collect_top(top: &Folder, tenants: &mut TextMap<()>)
    ensures
        forall|t: Seq<char>| #[trigger]
            final(tenants)@.dom().contains(t) <==> old(tenants)@.dom().contains(t) || top_tenant(
                *top,
                t,
            ),
{
    let ghost start = tenants@.dom();
    collect_own(top, tenants);
    let mut i: usize = 0;
    while i < top.folders.len()
        invariant
            i <= top.folders.len(),
            start == old(tenants)@.dom(),
            forall|t: Seq<char>| #[trigger]
                tenants@.dom().contains(t) <==> start.contains(t) || own_tenant(*top, t)
                    || exists|j: int|
                    0 <= j < i && (own_tenant(#[trigger] top.folders@[j], t) || third_tenant(
                        *top,
                        top.folders@[j],
                        t,
                    )),
        decreases top.folders.len() - i,
    {
        collect_own(&top.folders[i], tenants);
        collect_third(top, &top.folders[i], tenants);
        i = i + 1;
    }
}

/// The tenants that the files below the root belong to, in ascending order.
pub fn discover_tenants(root: Option<&Folder>) -> (r: Vec<String>)
    ensures
        texts(r@) == match root {
            Some(folder) => key_order(tenants_found(*folder)),
            None => Seq::empty(),
        },
{
    let folder = match root {
        Some(folder) => folder,
        None => {
            let none: Vec<String> = Vec::new();
            assert(texts(none@) =~= Seq::empty());
            return none;
        },
    };
    let mut tenants: TextMap<()> = TextMap::new();
    collect_drawer_prefix_tenants(folder, &mut tenants);
    let mut i: usize = 0;
    while i < folder.folders.len()
        invariant
            i <= folder.folders.len(),
            forall|t: Seq<char>| #[trigger]
                tenants@.dom().contains(t) <==> names_tenant(*folder, t) || exists|j: int|
                    0 <= j < i && top_tenant(#[trigger] folder.folders@[j], t),
        decreases folder.folders.len() - i,
    {
        collect_top(&folder.folders[i], &mut tenants);
        i = i + 1;
    }
    assert(tenants@.dom() =~= tenants_found(*folder));
    tenants.key_texts()
}

/// Whether a database in the catalog belongs to the tenant: to the one that its name starts
/// with, before a slash. Where there are no routes, another database is a tenant by itself.
pub open spec fn names_database_tenant(name: Seq<char>, routes: bool, tenant: Seq<char>) -> bool {
    match cut_once(name, '/') {
        Some((before, _)) => tenant == before,
        None => !routes && tenant == name,
    }
}

/// Whether there are routes in the catalog.
pub open spec fn has_routes(registry: CatalogRegistry) -> bool {
    registry.routes@.len() > 0
}

/// The tenants in the catalog.
pub open spec fn tenants_registered(registry: CatalogRegistry) -> Set<Seq<char>> {
    Set::new(
        |t: Seq<char>|
            tenant_set(registry.routes@).contains(t) || exists|d: Seq<char>|
                database_set(registry.entries()).contains(d) && #[trigger] names_database_tenant(
                    d,
                    has_routes(registry),
                    t,
                ),
    )
}

/// Whether nothing is in the catalog.
pub open spec fn nothing_registered(registry: CatalogRegistry) -> bool {
    registry.entries().len() == 0 && registry.routes@.len() == 0
}

/// The tenants in the catalog. Where nothing is in the catalog, those of the files.
pub fn show_tenants(root: Option<&Folder>, registry: &CatalogRegistry) -> (r: Vec<String>)
    ensures
        texts(r@) == if !nothing_registered(*registry) {
            key_order(tenants_registered(*registry))
        } else {
            match root {
                Some(folder) => key_order(tenants_found(*folder)),
                None => Seq::empty(),
            }
        },
{
    if registry.is_empty() {
        return discover_tenants(root);
    }
    let routes = registry.routes.len() > 0;
    let explicit = registry.tenant_ids();
    let ghost listed = texts(explicit@);
    let mut tenants: TextMap<()> = TextMap::new();
    let mut i: usize = 0;
    while i < explicit.len()
        invariant
            i <= explicit.len(),
            listed == texts(explicit@),
            forall|t: Seq<char>| #[trigger]
                tenants@.dom().contains(t) <==> exists|j: int|
                    0 <= j < i && #[trigger] listed[j] == t,
        decreases explicit.len() - i,
    {
        let ghost before = tenants@.dom();
        assert(listed[i as int] == explicit@[i as int]@);
        tenants.insert(owned(explicit[i].as_str()), ());
        assert(tenants@.dom() =~= before.insert(listed[i as int]));
        i = i + 1;
    }
    let ghost own = tenant_set(registry.routes@);
    assert forall|t: Seq<char>| #[trigger] tenants@.dom().contains(t) <==> own.contains(t) by {
        assert(own.contains(t) <==> listed.contains(t));
    }
    let names = registry.database_names();
    let ghost databases = texts(names@);
    let mut j: usize = 0;
    while j < names.len()
        invariant
            j <= names.len(),
            databases == texts(names@),
            routes == has_routes(*registry),
            forall|t: Seq<char>| #[trigger]
                tenants@.dom().contains(t) <==> own.contains(t) || exists|k: int|
                    0 <= k < j && names_database_tenant(#[trigger] databases[k], routes, t),
        decreases names.len() - j,
    {
        let ghost before = tenants@.dom();
        let name = names[j].as_str();
        assert(databases[j as int] == name@);
        match split_once(name, '/') {
            Some((tenant, _)) => {
                let ghost t = tenant@;
                tenants.insert(tenant, ());
                assert(tenants@.dom() =~= before.insert(t));
                assert(names_database_tenant(databases[j as int], routes, t));
            },
            None => {
                if !routes {
                    tenants.insert(owned(name), ());
                    assert(tenants@.dom() =~= before.insert(name@));
                    assert(names_database_tenant(databases[j as int], routes, name@));
                }
            },
        }
        j = j + 1;
    }
    proof {
        let wanted = tenants_registered(*registry);
        assert forall|t: Seq<char>| tenants@.dom().contains(t) <==> wanted.contains(t) by {
            if tenants@.dom().contains(t) && !own.contains(t) {
                let k = choose|k: int|
                    0 <= k < databases.len() && names_database_tenant(
                        #[trigger] databases[k],
                        routes,
                        t,
                    );
                assert(databases.contains(databases[k]));
                assert(database_set(registry.entries()).contains(databases[k]));
                assert(names_database_tenant(databases[k], has_routes(*registry), t));
            }
            if wanted.contains(t) && !own.contains(t) {
                let d = choose|d: Seq<char>|
                    database_set(registry.entries()).contains(d) && #[trigger] names_database_tenant(
                        d,
                        has_routes(*registry),
                        t,
                    );
                assert(databases.contains(d));
                let k = choose|k: int| 0 <= k < databases.len() && databases[k] == d;
                assert(names_database_tenant(databases[k], routes, t));
            }
        }
        assert(tenants@.dom() =~= wanted);
    }
    tenants.key_texts()
}

/// The schema that the name of a drawer starts with, before a dot.
pub open spec fn prefix_schema(file: Seq<char>) -> Option<Seq<char>> {
    match drawer_of_file(file) {
        None => None,
        Some(drawer) => match cut_once(drawer, '.') {
            Some((schema, rest)) => if schema.len() > 0 && rest.len() > 0 {
                Some(schema)
            } else {
                None
            },
            None => None,
        },
    }
}

fn schema_of_file(file: &str) -> (r: Option<String>)
    ensures
        opt_name(r) == prefix_schema(file@),
{
    match drawer_name_from_file_path(file) {
        None => None,
        Some(drawer) => match split_once(drawer.as_str(), '.') {
            Some((schema, rest)) => if !schema.as_str().is_empty() && !rest.as_str().is_empty() {
                Some(schema)
            } else {
                None
            },
            None => None,
        },
    }
}

/// The schemas in the directory of a database: the directories with drawers, and what the names
/// of drawers start with.
pub open spec fn schemas_found(database: Folder) -> Set<Seq<char>> {
    Set::new(
        |s: Seq<char>|
            (exists|i: int|
                0 <= i < database.folders@.len() && has_drawers(#[trigger] database.folders@[i])
                    && database.folders@[i].name@ == s) || (exists|j: int|
                0 <= j < database.files@.len() && prefix_schema(
                    (#[trigger] database.files@[j]).name@,
                ) == Some(s)),
    )
}

/// The schemas in the directory of a database, in ascending order.
pub fn discover_schemas(database: Option<&Folder>) -> (r: Vec<String>)
    ensures
        texts(r@) == match database {
            Some(folder) => key_order(schemas_found(*folder)),
            None => Seq::empty(),
        },
{
    let folder = match database {
        Some(folder) => folder,
        None => {
            let none: Vec<String> = Vec::new();
            assert(texts(none@) =~= Seq::empty());
            return none;
        },
    };
    let mut schemas: TextMap<()> = TextMap::new();
    let mut i: usize = 0;
    while i < folder.folders.len()
        invariant
            i <= folder.folders.len(),
            forall|s: Seq<char>| #[trigger]
                schemas@.dom().contains(s) <==> exists|k: int|
                    0 <= k < i && has_drawers(#[trigger] folder.folders@[k])
                        && folder.folders@[k].name@ == s,
        decreases folder.folders.len() - i,
    {
        let ghost before = schemas@.dom();
        if directory_has_drawer_files(&folder.folders[i]) {
            schemas.insert(owned(folder.folders[i].name.as_str()), ());
            assert(schemas@.dom() =~= before.insert(folder.folders@[i as int].name@));
            assert(has_drawers(folder.folders@[i as int]));
        }
        i = i + 1;
    }
    let ghost nested = schemas@.dom();
    let mut j: usize = 0;
    while j < folder.files.len()
        invariant
            j <= folder.files.len(),
            forall|s: Seq<char>| #[trigger]
                schemas@.dom().contains(s) <==> nested.contains(s) || exists|k: int|
                    0 <= k < j && prefix_schema((#[trigger] folder.files@[k]).name@) == Some(s),
        decreases folder.files.len() - j,
    {
        let ghost before = schemas@.dom();
        match schema_of_file(folder.files[j].name.as_str()) {
            Some(schema) => {
                let ghost s = schema@;
                schemas.insert(schema, ());
                assert(schemas@.dom() =~= before.insert(s));
                assert(prefix_schema(folder.files@[j as int].name@) == Some(s));
            },
            None => {
                assert(prefix_schema(folder.files@[j as int].name@) is None);
            },
        }
        j = j + 1;
    }
    assert(schemas@.dom() =~= schemas_found(*folder));
    schemas.key_texts()
}

/// The schemas of a database in the catalog. Where nothing is in the catalog, those of the files:
/// the name then has to be one that a database can have.
pub fn show_schemas(
    root_directory: &str,
    database: Option<&Folder>,
    registry: &CatalogRegistry,
    database_name: &str,
) -> (r: Result<Vec<String>, Error>)
    ensures
        if !nothing_registered(*registry) {
            r matches Ok(names) && texts(names@) == key_order(
                schema_set(registry.entries(), database_name@),
            )
        } else {
            match (database_place(root_directory@, database_name@), r) {
                (Err(f), Err(e)) => e@ == f,
                (Ok(_), Ok(names)) => texts(names@) == match database {
                    Some(folder) => key_order(schemas_found(*folder)),
                    None => Seq::empty(),
                },
                _ => false,
            }
        },
{
    if !registry.is_empty() {
        return Ok(registry.schema_names(database_name));
    }
    match database_path_from_name(root_directory, database_name) {
        Ok(_) => Ok(discover_schemas(database)),
        Err(e) => Err(e),
    }
}

} // verus!
