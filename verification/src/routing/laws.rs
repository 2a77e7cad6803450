//! Where commands go: which names are accepted, and which directories they lead to.
use crate::boundary_execution::{coordinate_routed, route_from, scope_routed, tenant_routed};
use crate::catalog::registry::{is_registered, CatalogRegistry, CatalogTenantRoute};
use crate::catalog::validation::{
    coordinate_check, database_check, database_place, location_check, reserved_segment, token_check,
};
use crate::command::dispatch::registry_refusal;
use crate::error::ErrorKind;
use crate::paths::{path_joined, path_parts, piece_parts};
use crate::routing::{catalog_database, coordinate_place, scoped_name};
use crate::storage::types::{StorageCoordinate, StorageScope};
use crate::text::{ends_with, split_parts, starts_with, trimmed};
use vstd::prelude::*;

verus! {

/// Whether a text can be one part of a path: it is not empty and none of the words that are kept
/// back.
pub open spec fn is_free_segment(s: Seq<char>) -> bool {
    s.len() > 0 && s != "."@ && s != ".."@ && s != ".catalog"@
}

/// Whether a text can be the name of a tenant, a schema, a drawer or a namespace: one part, that
/// does not end like the files of a drawer do.
pub open spec fn is_free_name(raw: Seq<char>) -> bool {
    let s = trimmed(raw);
    &&& is_free_segment(s)
    &&& !s.contains('/')
    &&& !s.contains('\\')
    &&& !exists|front: Seq<char>| #[trigger] (front + "_index"@) == s
    &&& !exists|front: Seq<char>| #[trigger] (front + "_meta"@) == s
}

/// Whether a text can be the name of a database or a location: parts with slashes between, each
/// of which is free.
pub open spec fn is_free_path(raw: Seq<char>) -> bool {
    let s = trimmed(raw);
    &&& !s.contains('\\')
    &&& forall|i: int|
        0 <= i < split_parts(s, '/').len() ==> is_free_segment(#[trigger] split_parts(s, '/')[i])
}

proof fn lemma_ends(s: Seq<char>, end: Seq<char>)
    ensures
        ends_with(s, end) <==> exists|front: Seq<char>| #[trigger] (front + end) == s,
{
    if ends_with(s, end) {
        let front = s.subrange(0, s.len() - end.len());
        assert(front + end =~= s) by {
            assert(s.subrange(s.len() - end.len(), s.len() as int) == end);
        }
    }
    if exists|front: Seq<char>| #[trigger] (front + end) == s {
        let front = choose|front: Seq<char>| #[trigger] (front + end) == s;
        assert(s.subrange(s.len() - end.len(), s.len() as int) =~= end);
    }
}

proof fn lemma_first_piece(s: Seq<char>)
    requires
        starts_with(s, "/"@),
    ensures
        split_parts(s, '/').len() > 0,
        split_parts(s, '/')[0].len() == 0,
{
    reveal_strlit("/");
    assert(s.subrange(0, 1) == "/"@);
    assert(s[0] == s.subrange(0, 1)[0]);
    crate::text::lemma_first_index(s, '/', 0);
    crate::text::laws::lemma_split_pieces(s, '/', 0);
}

/// Which names are accepted: of tenants, schemas, drawers and namespaces those of one part, of
/// databases and locations those of several parts. Any other is refused.
pub proof fn law_names_are_checked(raw: Seq<char>, label: Seq<char>)
    ensures
        token_check(raw, label) is Ok <==> is_free_name(raw),
        database_check(raw) is Ok <==> is_free_path(raw),
        location_check(raw) is Ok <==> is_free_path(raw),
        token_check(raw, label) matches Err(f) ==> f.kind == ErrorKind::InvalidInput,
        database_check(raw) matches Err(f) ==> f.kind == ErrorKind::InvalidInput,
        location_check(raw) matches Err(f) ==> f.kind == ErrorKind::InvalidInput,
{
    let s = trimmed(raw);
    lemma_ends(s, "_index"@);
    lemma_ends(s, "_meta"@);
    crate::text::laws::lemma_split_pieces(s, '/', 0);
    let parts = split_parts(s, '/');
    if starts_with(s, "/"@) {
        lemma_first_piece(s);
        assert(!is_free_segment(parts[0]));
    }
    if starts_with(s, "\\"@) {
        reveal_strlit("\\");
        assert(s.subrange(0, 1) == "\\"@);
        assert(s[0] == s.subrange(0, 1)[0]);
        assert(s.contains('\\'));
    }
    if s.len() == 0 {
        crate::text::lemma_first_index(s, '/', 0);
        assert(parts.len() > 0 && parts[0].len() == 0);
        assert(!is_free_segment(parts[0]));
    }
    if crate::catalog::validation::any_reserved(parts) {
        let i = choose|i: int| 0 <= i < parts.len() && reserved_segment(#[trigger] parts[i]);
        assert(!is_free_segment(parts[i]));
    } else {
        assert forall|i: int| 0 <= i < parts.len() implies is_free_segment(#[trigger] parts[i]) by {
            assert(!reserved_segment(parts[i]));
        }
    }
}

/// The name of a drawer in a namespace is the namespace and the drawer with an underscore
/// between; without a namespace it is that of the drawer.
pub proof fn law_drawers_are_named_in_their_namespace(
    drawer: Seq<char>,
    other: Seq<char>,
    namespace: Seq<char>,
)
    ensures
        scoped_name(drawer, None) == drawer,
        scoped_name(drawer, Some(namespace)) == namespace + "_"@ + drawer,
        scoped_name(drawer, Some(namespace)) == scoped_name(other, Some(namespace)) ==> drawer
            == other,
{
    if scoped_name(drawer, Some(namespace)) == scoped_name(other, Some(namespace)) {
        let front = namespace + "_"@;
        assert((front + drawer).skip(front.len() as int) =~= drawer);
        assert((front + other).skip(front.len() as int) =~= other);
    }
}

/// Whether a tenant is routed to a database: the first of its routes leads there.
pub open spec fn is_routed_by(
    routes: Seq<CatalogTenantRoute>,
    tenant: Seq<char>,
    i: int,
) -> bool {
    &&& 0 <= i < routes.len()
    &&& routes[i].tenant_id@ == tenant
    &&& forall|j: int| 0 <= j < i ==> (#[trigger] routes[j]).tenant_id@ != tenant
}

proof fn lemma_route(routes: Seq<CatalogTenantRoute>, tenant: Seq<char>, i: int)
    requires
        0 <= i <= routes.len(),
        forall|j: int| 0 <= j < i ==> (#[trigger] routes[j]).tenant_id@ != tenant,
    ensures
        match route_from(routes, tenant, i) {
            Some(route) => exists|at: int| #[trigger]
                is_routed_by(routes, tenant, at) && routes[at] == route,
            None => forall|j: int| 0 <= j < routes.len() ==> (#[trigger] routes[j]).tenant_id@
                != tenant,
        },
    decreases routes.len() - i,
{
    if i < routes.len() {
        if routes[i].tenant_id@ == tenant {
            assert(is_routed_by(routes, tenant, i));
        } else {
            lemma_route(routes, tenant, i + 1);
        }
    }
}

/// Whether a drawer may be used: nothing is registered at all, or it is.
pub open spec fn may_use(
    registry: CatalogRegistry,
    database: Seq<char>,
    schema: Seq<char>,
    drawer: Option<Seq<char>>,
) -> bool {
    drawer matches Some(name) ==> (registry.entries().len() == 0 && registry.routes@.len() == 0) || (
    exists|i: int|
        0 <= i < registry.entries().len() && (#[trigger] registry.entries()[i]).database == database
            && registry.entries()[i].schema == schema && registry.entries()[i].drawer == name)
}

/// A command is refused for its drawer where the catalog knows of something, but not of it.
pub proof fn law_unknown_drawers_are_refused(
    registry: CatalogRegistry,
    database: Seq<char>,
    schema: Seq<char>,
    drawer: Option<Seq<char>>,
)
    ensures
        registry_refusal(registry, database, schema, drawer) is None <==> may_use(
            registry,
            database,
            schema,
            drawer,
        ),
        registry_refusal(registry, database, schema, drawer) matches Some(f) ==> f.kind
            == ErrorKind::NotFound,
{
    match drawer {
        Some(name) => {
            let all = registry.entries();
            if is_registered(all, database, schema, name) {
                let i = choose|i: int|
                    0 <= i < all.len() && crate::catalog::registry::is_about(
                        #[trigger] all[i],
                        database,
                        schema,
                        name,
                    );
                assert(all[i].database == database);
            }
            if exists|i: int|
                0 <= i < all.len() && (#[trigger] all[i]).database == database && all[i].schema
                    == schema && all[i].drawer == name {
                let i = choose|i: int|
                    0 <= i < all.len() && (#[trigger] all[i]).database == database && all[i].schema
                        == schema && all[i].drawer == name;
                assert(crate::catalog::registry::is_about(all[i], database, schema, name));
            }
        },
        None => {},
    }
}

/// A command of a tenant is carried out exactly where its names are accepted, the first route of
/// the tenant leads to the database, and the drawer may be used. It is carried out in the
/// directory of the schema below the location of the route.
pub proof fn law_tenant_goes_along_its_route(
    root: Seq<char>,
    registry: CatalogRegistry,
    tenant: Seq<char>,
    database: Seq<char>,
    schema: Seq<char>,
    drawer: Option<Seq<char>>,
    at: int,
)
    ensures
        tenant_routed(root, registry, tenant, database, schema, drawer) is Ok <==> (is_free_name(
            tenant,
        ) && is_free_path(database) && is_free_name(schema) && may_use(
            registry,
            database,
            schema,
            drawer,
        ) && exists|i: int| #[trigger]
            is_routed_by(registry.routes@, tenant, i) && registry.routes@[i].database@ == database),
        is_routed_by(registry.routes@, tenant, at) ==> (tenant_routed(
            root,
            registry,
            tenant,
            database,
            schema,
            drawer,
        ) matches Ok(path) ==> path == path_joined(
            path_joined(root, registry.routes@[at].location@),
            schema,
        )),
        tenant_routed(root, registry, tenant, database, schema, drawer) matches Err(f) ==> f.kind
            == ErrorKind::InvalidInput || f.kind == ErrorKind::NotFound,
{
    let routes = registry.routes@;
    law_names_are_checked(tenant, "tenant"@);
    law_names_are_checked(database, ""@);
    law_names_are_checked(schema, "schema"@);
    law_unknown_drawers_are_refused(registry, database, schema, drawer);
    lemma_route(routes, tenant, 0);
    match route_from(routes, tenant, 0) {
        Some(route) => {
            let i = choose|i: int| #[trigger] is_routed_by(routes, tenant, i) && routes[i] == route;
            assert forall|j: int| #[trigger] is_routed_by(routes, tenant, j) implies j == i by {
                if j < i {
                    assert(routes[j].tenant_id@ != tenant);
                } else if i < j {
                    assert(routes[i].tenant_id@ != tenant);
                }
            }
        },
        None => {},
    }
}

/// The place of a coordinate is the directory of its schema in that of its database in that of
/// its tenant.
pub proof fn law_coordinate_leads_to_its_place(
    root: Seq<char>,
    registry: CatalogRegistry,
    coordinate: StorageCoordinate,
    drawer: Option<Seq<char>>,
)
    ensures
        catalog_database(coordinate) == coordinate.tenant_id@ + "/"@ + coordinate.database@,
        coordinate_place(root, coordinate) is Ok <==> coordinate_check(
            "tenant"@,
            coordinate.tenant_id@,
        ) is Ok && coordinate_check("database"@, coordinate.database@) is Ok && coordinate_check(
            "schema"@,
            coordinate.schema@,
        ) is Ok,
        coordinate_place(root, coordinate) matches Ok(path) ==> path == path_joined(
            path_joined(path_joined(root, coordinate.tenant_id@), coordinate.database@),
            coordinate.schema@,
        ),
        coordinate_routed(root, registry, coordinate, drawer) is Ok <==> coordinate_place(
            root,
            coordinate,
        ) is Ok && may_use(
            registry,
            coordinate.tenant_id@ + "/"@ + coordinate.database@,
            coordinate.schema@,
            drawer,
        ),
        coordinate_routed(root, registry, coordinate, drawer) matches Ok(path) ==> coordinate_place(
            root,
            coordinate,
        ) == Ok::<Seq<char>, crate::error::Failure>(path),
{
    law_unknown_drawers_are_refused(
        registry,
        catalog_database(coordinate),
        coordinate.schema@,
        drawer,
    );
}

/// Whether a text stands for one directory or file, and not for the one it is in or for the one
/// above.
pub open spec fn is_one_name(value: Seq<char>) -> bool {
    trimmed(value).len() > 0 && !value.contains('/') && value != "."@ && value != ".."@
}

/// A part of a coordinate that is one name is accepted, and one that leads somewhere else is
/// not: none, the same directory, the one above, or a path from the root.
pub proof fn law_coordinate_parts_are_names(label: Seq<char>, value: Seq<char>)
    ensures
        is_one_name(value) ==> coordinate_check(label, value) is Ok,
        trimmed(value).len() == 0 || value == "."@ || value == ".."@ || starts_with(value, "/"@)
            ==> coordinate_check(label, value) is Err,
        coordinate_check(label, value) matches Err(f) ==> f.kind == ErrorKind::InvalidInput,
{
    reveal_strlit(".");
    reveal_strlit("..");
    reveal_strlit("/");
    crate::text::lemma_first_index(value, '/', 0);
    crate::text::laws::lemma_split_pieces(value, '/', 0);
    reveal_with_fuel(piece_parts, 3);
    if !value.contains('/') {
        let j = crate::text::first_index(value, '/', 0);
        if j < value.len() {
            assert(value[j] == '/');
        }
        assert(split_parts(value, '/') =~= seq![value]) by {
            assert(value.subrange(0, value.len() as int) =~= value);
        }
        if starts_with(value, "/"@) {
            assert(value.subrange(0, 1) == "/"@);
            assert(value[0] == value.subrange(0, 1)[0]);
            assert(value.contains('/'));
        }
        if is_one_name(value) {
            if value.len() == 0 {
                crate::text::laws::law_trim_twice(value);
                assert(trimmed(value).len() == 0);
            }
        }
    }
    if value == "."@ || value == ".."@ {
        assert(!value.contains('/'));
    }
    if starts_with(value, "/"@) {
        assert(path_parts(value)[0] is RootDir);
    }
}

/// A command in a scope goes where the scope says: to the database of a tenant, to a database, to
/// a schema of it, or to the drawers of a namespace, which stand beside the others.
pub proof fn law_scope_leads_to_its_place(
    root: Seq<char>,
    registry: CatalogRegistry,
    scope: StorageScope,
    drawer: Option<Seq<char>>,
)
    ensures
        scope_routed(root, registry, scope, drawer) matches Ok(route) ==> match scope {
            StorageScope::Tenant { tenant_id, database, schema } => tenant_routed(
                root,
                registry,
                tenant_id@,
                database@,
                schema@,
                drawer,
            ) == Ok::<Seq<char>, crate::error::Failure>(route.path) && route.log_schema == Some(
                schema@,
            ) && route.namespace is None,
            StorageScope::Database { database } => is_free_path(database@) && database_place(
                root,
                database@,
            ) == Ok::<Seq<char>, crate::error::Failure>(route.path) && route.log_schema is None
                && route.namespace is None,
            StorageScope::Schema { database, schema } => is_free_path(database@) && is_free_name(
                schema@,
            ) && may_use(registry, database@, schema@, drawer) && (database_place(
                root,
                database@,
            ) matches Ok(path) && route.path == path_joined(path, schema@)) && route.log_schema
                == Some(schema@) && route.namespace is None,
            StorageScope::Drawer { namespace } => is_free_name(namespace@) && route.path == root
                && route.log_schema == Some(namespace@) && route.namespace == Some(namespace@),
        },
        (scope matches StorageScope::Drawer { namespace } ==> is_free_name(namespace@)
            ==> scope_routed(root, registry, scope, drawer) is Ok),
{
    match scope {
        StorageScope::Tenant { tenant_id, database, schema } => {},
        StorageScope::Database { database } => {
            law_names_are_checked(database@, ""@);
        },
        StorageScope::Schema { database, schema } => {
            law_names_are_checked(database@, ""@);
            law_names_are_checked(schema@, "schema"@);
            law_unknown_drawers_are_refused(registry, database@, schema@, drawer);
        },
        StorageScope::Drawer { namespace } => {
            law_names_are_checked(namespace@, "namespace"@);
        },
    }
}

} // verus!
