//! What is registered in the catalog.
use crate::fields::{key_order, lists, TextMap};
use crate::text::{owned, same, texts};
use vstd::prelude::*;

verus! {

/// A drawer that is registered, and where it is kept.
#[derive(Debug, PartialEq, Eq)]
pub struct CatalogEntry {
    pub database: String,
    pub schema: String,
    pub drawer: String,
    pub location: String,
}

/// The model of an entry.
pub struct EntryModel {
    pub database: Seq<char>,
    pub schema: Seq<char>,
    pub drawer: Seq<char>,
    pub location: Seq<char>,
}

impl View for CatalogEntry {
    type V = EntryModel;

    open spec fn view(&self) -> EntryModel {
        EntryModel {
            database: self.database@,
            schema: self.schema@,
            drawer: self.drawer@,
            location: self.location@,
        }
    }
}

/// The models of a sequence of entries.
pub open spec fn entry_models(entries: Seq<CatalogEntry>) -> Seq<EntryModel> {
    Seq::new(entries.len(), |i: int| entries[i]@)
}

/// Where the data of a tenant is kept.
#[derive(Debug, PartialEq, Eq)]
pub struct CatalogTenantRoute {
    pub tenant_id: String,
    pub database: String,
    pub location: String,
}

/// The catalog in memory: the drawers in the order of their registration, and the tenants.
#[derive(Debug, PartialEq, Eq)]
pub struct CatalogRegistry {
    pub drawers: Vec<CatalogEntry>,
    pub routes: Vec<CatalogTenantRoute>,
}

/// Whether an entry is about the drawer.
pub open spec fn is_about(
    entry: EntryModel,
    database: Seq<char>,
    schema: Seq<char>,
    drawer: Seq<char>,
) -> bool {
    entry.database == database && entry.schema == schema && entry.drawer == drawer
}

/// Whether the drawer is registered.
pub open spec fn is_registered(
    entries: Seq<EntryModel>,
    database: Seq<char>,
    schema: Seq<char>,
    drawer: Seq<char>,
) -> bool {
    exists|i: int|
        0 <= i < entries.len() && is_about(#[trigger] entries[i], database, schema, drawer)
}

impl CatalogRegistry {
    pub open spec fn entries(self) -> Seq<EntryModel> {
        entry_models(self.drawers@)
    }

    pub fn new() -> (r: Self)
        ensures
            r.entries() == Seq::<EntryModel>::empty(),
            r.routes@.len() == 0,
    {
        let r = CatalogRegistry { drawers: Vec::new(), routes: Vec::new() };
        assert(r.entries() =~= Seq::empty());
        r
    }

    /// Whether nothing is registered.
    pub fn is_empty(&self) -> (r: bool)
        ensures
            r == (self.entries().len() == 0 && self.routes@.len() == 0),
    {
        self.drawers.len() == 0 && self.routes.len() == 0
    }

    /// Registers a drawer.
    pub fn register_drawer(&mut self, database: &str, schema: &str, drawer: &str, location: &str)
        ensures
            final(self).entries() == old(self).entries().push(
                EntryModel {
                    database: database@,
                    schema: schema@,
                    drawer: drawer@,
                    location: location@,
                },
            ),
            final(self).routes == old(self).routes,
    {
        let ghost before = self.drawers@;
        self.drawers.push(
            CatalogEntry {
                database: owned(database),
                schema: owned(schema),
                drawer: owned(drawer),
                location: owned(location),
            },
        );
        assert(self.entries() =~= entry_models(before).push(
            EntryModel {
                database: database@,
                schema: schema@,
                drawer: drawer@,
                location: location@,
            },
        ));
    }

    pub fn contains_drawer(&self, database: &str, schema: &str, drawer: &str) -> (r: bool)
        ensures
            r == is_registered(self.entries(), database@, schema@, drawer@),
    {
        let ghost all = self.entries();
        let mut i: usize = 0;
        while i < self.drawers.len()
            invariant
                all == self.entries(),
                i <= self.drawers@.len(),
                forall|k: int|
                    0 <= k < i ==> !is_about(#[trigger] all[k], database@, schema@, drawer@),
            decreases self.drawers@.len() - i,
        {
            let entry = &self.drawers[i];
            assert(all[i as int] == entry@);
            if same(entry.database.as_str(), database) && same(entry.schema.as_str(), schema)
                && same(entry.drawer.as_str(), drawer) {
                assert(is_about(all[i as int], database@, schema@, drawer@));
                return true;
            }
            i += 1;
        }
        false
    }

    /// Where the data of a tenant is kept: by the first route of the tenant.
    pub fn tenant_route(&self, tenant_id: &str) -> (r: Option<&CatalogTenantRoute>)
        ensures
            match r {
                Some(route) => exists|i: int|
                    0 <= i < self.routes@.len() && #[trigger] self.routes@[i] == *route
                        && route.tenant_id@ == tenant_id@ && forall|j: int|
                        0 <= j < i ==> (#[trigger] self.routes@[j]).tenant_id@ != tenant_id@,
                None => forall|j: int|
                    0 <= j < self.routes@.len() ==> (#[trigger] self.routes@[j]).tenant_id@
                        != tenant_id@,
            },
    {
        let mut i: usize = 0;
        while i < self.routes.len()
            invariant
                i <= self.routes@.len(),
                forall|j: int|
                    0 <= j < i ==> (#[trigger] self.routes@[j]).tenant_id@ != tenant_id@,
            decreases self.routes@.len() - i,
        {
            if same(self.routes[i].tenant_id.as_str(), tenant_id) {
                assert(self.routes@[i as int] == self.routes@[i as int]);
                return Some(&self.routes[i]);
            }
            i += 1;
        }
        None
    }
}

/// A drawer that was registered is found, and so is every drawer that was found before.
pub proof fn law_registered_drawer_is_found(
    before: Seq<EntryModel>,
    entry: EntryModel,
    database: Seq<char>,
    schema: Seq<char>,
    drawer: Seq<char>,
)
    ensures
        is_registered(before.push(entry), database, schema, drawer) <==> is_registered(
            before,
            database,
            schema,
            drawer,
        ) || is_about(entry, database, schema, drawer),
{
    let after = before.push(entry);
    if is_registered(before, database, schema, drawer) {
        let i = choose|i: int|
            0 <= i < before.len() && is_about(#[trigger] before[i], database, schema, drawer);
        assert(is_about(after[i], database, schema, drawer));
    }
    assert(after[before.len() as int] == entry);
    if is_registered(after, database, schema, drawer) && !is_about(entry, database, schema, drawer) {
        let i = choose|i: int|
            0 <= i < after.len() && is_about(#[trigger] after[i], database, schema, drawer);
        assert(is_about(before[i], database, schema, drawer));
    }
}

/// The tenants that have a route.
pub open spec fn tenant_set(routes: Seq<CatalogTenantRoute>) -> Set<Seq<char>> {
    Set::new(
        |t: Seq<char>|
            exists|i: int| 0 <= i < routes.len() && (#[trigger] routes[i]).tenant_id@ == t,
    )
}

/// The databases in which a drawer is registered.
pub open spec fn database_set(entries: Seq<EntryModel>) -> Set<Seq<char>> {
    Set::new(
        |d: Seq<char>| exists|i: int| 0 <= i < entries.len() && (#[trigger] entries[i]).database == d,
    )
}

/// The schemas of a database in which a drawer is registered.
pub open spec fn schema_set(entries: Seq<EntryModel>, database: Seq<char>) -> Set<Seq<char>> {
    Set::new(
        |s: Seq<char>|
            exists|i: int|
                0 <= i < entries.len() && (#[trigger] entries[i]).database == database
                    && entries[i].schema == s,
    )
}

/// Those of the first `n` entries that are about a schema.
pub open spec fn entries_in(
    entries: Seq<EntryModel>,
    database: Seq<char>,
    schema: Seq<char>,
    n: int,
) -> Seq<EntryModel>
    decreases n,
{
    if n <= 0 {
        Seq::empty()
    } else if entries[n - 1].database == database && entries[n - 1].schema == schema {
        entries_in(entries, database, schema, n - 1).push(entries[n - 1])
    } else {
        entries_in(entries, database, schema, n - 1)
    }
}

impl CatalogRegistry {
    /// The tenants that have a route, in ascending order.
    pub fn tenant_ids(&self) -> (r: Vec<String>)
        ensures
            texts(r@) == key_order(tenant_set(self.routes@)),
            lists(texts(r@), tenant_set(self.routes@)),
    {
        let mut names: TextMap<()> = TextMap::new();
        let mut i: usize = 0;
        while i < self.routes.len()
            invariant
                i <= self.routes.len(),
                forall|t: Seq<char>| #[trigger]
                    names@.dom().contains(t) <==> exists|j: int|
                        0 <= j < i && (#[trigger] self.routes@[j]).tenant_id@ == t,
            decreases self.routes.len() - i,
        {
            let ghost before = names@.dom();
            names.insert(owned(self.routes[i].tenant_id.as_str()), ());
            assert(names@.dom() =~= before.insert(self.routes@[i as int].tenant_id@));
            i = i + 1;
        }
        assert(names@.dom() =~= tenant_set(self.routes@));
        names.key_texts()
    }

    /// The databases in which a drawer is registered, in ascending order.
    pub fn database_names(&self) -> (r: Vec<String>)
        ensures
            texts(r@) == key_order(database_set(self.entries())),
            lists(texts(r@), database_set(self.entries())),
    {
        let ghost all = self.entries();
        let mut names: TextMap<()> = TextMap::new();
        let mut i: usize = 0;
        while i < self.drawers.len()
            invariant
                i <= self.drawers.len(),
                all == self.entries(),
                forall|d: Seq<char>| #[trigger]
                    names@.dom().contains(d) <==> exists|j: int|
                        0 <= j < i && (#[trigger] all[j]).database == d,
            decreases self.drawers.len() - i,
        {
            let ghost before = names@.dom();
            assert(all[i as int] == self.drawers@[i as int]@);
            names.insert(owned(self.drawers[i].database.as_str()), ());
            assert(names@.dom() =~= before.insert(all[i as int].database));
            i = i + 1;
        }
        assert(names@.dom() =~= database_set(all));
        names.key_texts()
    }

    /// The schemas of a database in which a drawer is registered, in ascending order.
    pub fn schema_names(&self, database: &str) -> (r: Vec<String>)
        ensures
            texts(r@) == key_order(schema_set(self.entries(), database@)),
            lists(texts(r@), schema_set(self.entries(), database@)),
    {
        let ghost all = self.entries();
        let mut names: TextMap<()> = TextMap::new();
        let mut i: usize = 0;
        while i < self.drawers.len()
            invariant
                i <= self.drawers.len(),
                all == self.entries(),
                forall|s: Seq<char>| #[trigger]
                    names@.dom().contains(s) <==> exists|j: int|
                        0 <= j < i && (#[trigger] all[j]).database == database@ && all[j].schema
                            == s,
            decreases self.drawers.len() - i,
        {
            let ghost before = names@.dom();
            assert(all[i as int] == self.drawers@[i as int]@);
            if same(self.drawers[i].database.as_str(), database) {
                names.insert(owned(self.drawers[i].schema.as_str()), ());
                assert(names@.dom() =~= before.insert(all[i as int].schema));
            }
            i = i + 1;
        }
        assert(names@.dom() =~= schema_set(all, database@));
        names.key_texts()
    }

    /// The drawers that are registered in a schema, in the order of their registration.
    pub fn drawer_entries(&self, database: &str, schema: &str) -> (r: Vec<CatalogEntry>)
        ensures
            entry_models(r@) == entries_in(
                self.entries(),
                database@,
                schema@,
                self.entries().len() as int,
            ),
    {
        let ghost all = self.entries();
        let mut found: Vec<CatalogEntry> = Vec::new();
        let mut i: usize = 0;
        assert(entry_models(found@) =~= entries_in(all, database@, schema@, 0));
        while i < self.drawers.len()
            invariant
                i <= self.drawers.len(),
                all == self.entries(),
                entry_models(found@) == entries_in(all, database@, schema@, i as int),
            decreases self.drawers.len() - i,
        {
            let entry = &self.drawers[i];
            assert(all[i as int] == entry@);
            if same(entry.database.as_str(), database) && same(entry.schema.as_str(), schema) {
                let ghost before = entry_models(found@);
                found.push(
                    CatalogEntry {
                        database: owned(entry.database.as_str()),
                        schema: owned(entry.schema.as_str()),
                        drawer: owned(entry.drawer.as_str()),
                        location: owned(entry.location.as_str()),
                    },
                );
                assert(entry_models(found@) =~= before.push(entry@));
            }
            i = i + 1;
        }
        found
    }
}

} // verus!
