//! Which databases and tenants are found below a root, and in the catalog.
use crate::catalog::backup::file_named;
use crate::catalog::databases::{
    databases_found, folder_named, found_from, inventory_name, names_among, place_below,
    second_databases, top_databases, InventoryModel,
};
use crate::catalog::discovery::{
    has_drawers, has_layout, prefix_tenant, tenants_found, tenants_registered,
};
use crate::catalog::folder::{FileEntry, Folder};
use crate::catalog::inventory::{place_counted, Place};
use crate::catalog::registry::CatalogRegistry;
use crate::fields::key_order;
use crate::paths::laws::{is_name, law_joined_name_is_one_step_further};
use crate::paths::{path_joined, path_parts, PartModel};
use crate::text::{cut_once, ends_with, joined};
use vstd::prelude::*;

verus! {

/// Whether a path can be that of a directory, as it is written.
pub open spec fn is_base(path: Seq<char>) -> bool {
    path.len() > 0 && !ends_with(path, "/"@)
}

proof fn lemma_joined_base(base: Seq<char>, name: Seq<char>)
    requires
        is_base(base),
        is_name(name),
    ensures
        is_base(path_joined(base, name)),
{
    reveal_strlit("/");
    let all = path_joined(base, name);
    assert(name.contains(name[0]) && name.contains(name.last()));
    if crate::paths::is_rooted(name) {
        assert(name.subrange(0, 1)[0] == name[0]);
    }
    assert(all == base + "/"@ + name);
    if ends_with(all, "/"@) {
        assert(all.subrange(all.len() - 1, all.len() as int)[0] == all.last());
        assert(all.last() == name.last());
    }
}

/// A database in a directory below the root is listed under the name of the directory, and one
/// two directories below under both names, with a slash between them.
pub proof fn law_databases_are_listed_by_their_place(
    root: Seq<char>,
    name: Seq<char>,
    inner: Seq<char>,
)
    requires
        is_base(root),
        is_name(name),
        is_name(inner),
    ensures
        inventory_name(root, path_joined(root, name)) == name,
        inventory_name(root, path_joined(path_joined(root, name), inner)) == name + "/"@ + inner,
{
    reveal_with_fuel(names_among, 3);
    reveal_with_fuel(joined, 3);
    law_joined_name_is_one_step_further(root, name);
    lemma_joined_base(root, name);
    let base = path_parts(root);
    let one = path_parts(path_joined(root, name));
    assert(one.take(base.len() as int) =~= base);
    let rest = one.skip(base.len() as int);
    assert(rest =~= seq![PartModel::Normal(name)]);
    assert(rest[0] == PartModel::Normal(name));
    let names = names_among(rest, 1);
    assert(names =~= seq![name]);
    assert(joined(seq![name], "/"@) =~= name);
    law_joined_name_is_one_step_further(path_joined(root, name), inner);
    let two = path_parts(path_joined(path_joined(root, name), inner));
    assert(two =~= base.push(PartModel::Normal(name)).push(PartModel::Normal(inner)));
    assert(two.take(base.len() as int) =~= base);
    let more = two.skip(base.len() as int);
    assert(more =~= seq![PartModel::Normal(name), PartModel::Normal(inner)]);
    assert(more[0] == PartModel::Normal(name) && more[1] == PartModel::Normal(inner));
    let both = names_among(more, 2);
    assert(names_among(more, 1) =~= seq![name]);
    assert(both =~= seq![name, inner]);
    assert(seq![name, inner].drop_last() =~= seq![name]);
    assert(joined(both, "/"@) =~= name + "/"@ + inner);
}

proof fn lemma_second(
    root: Seq<char>,
    path: Seq<char>,
    folders: Seq<Folder>,
    n: int,
    found: Map<Seq<char>, (Seq<char>, Folder)>,
    name: Seq<char>,
)
    requires
        0 <= n <= folders.len(),
    ensures
        second_databases(root, path, folders, n, found).dom().contains(name) <==> found.dom().contains(
            name,
        ) || exists|j: int|
            0 <= j < n && has_layout(#[trigger] folders[j]) && inventory_name(
                root,
                path_joined(path, folders[j].name@),
            ) == name,
    decreases n,
{
    if n > 0 {
        lemma_second(root, path, folders, n - 1, found, name);
        let last = folders[n - 1];
        if has_layout(last) && inventory_name(root, path_joined(path, last.name@)) == name {
            assert(has_layout(folders[n - 1]));
        }
    }
}

/// Whether a directory below the root makes a database of a name: itself, or where it is none, a
/// directory in it.
pub open spec fn makes_database(root: Seq<char>, folder: Folder, name: Seq<char>) -> bool {
    if has_layout(folder) {
        inventory_name(root, path_joined(root, folder.name@)) == name
    } else {
        exists|j: int|
            0 <= j < folder.folders@.len() && has_layout(#[trigger] folder.folders@[j])
                && inventory_name(
                root,
                path_joined(path_joined(root, folder.name@), folder.folders@[j].name@),
            ) == name
    }
}

proof fn lemma_top(
    root: Seq<char>,
    folders: Seq<Folder>,
    n: int,
    found: Map<Seq<char>, (Seq<char>, Folder)>,
    name: Seq<char>,
)
    requires
        0 <= n <= folders.len(),
    ensures
        top_databases(root, folders, n, found).dom().contains(name) <==> found.dom().contains(name)
            || exists|i: int| 0 <= i < n && makes_database(root, #[trigger] folders[i], name),
    decreases n,
{
    if n > 0 {
        lemma_top(root, folders, n - 1, found, name);
        let last = folders[n - 1];
        let before = top_databases(root, folders, n - 1, found);
        if !has_layout(last) {
            lemma_second(
                root,
                path_joined(root, last.name@),
                last.folders@,
                last.folders@.len() as int,
                before,
                name,
            );
        }
        assert(top_databases(root, folders, n, found).dom().contains(name)
            <==> before.dom().contains(name) || makes_database(root, folders[n - 1], name));
        if exists|i: int| 0 <= i < n && makes_database(root, #[trigger] folders[i], name) {
            let i = choose|i: int| 0 <= i < n && makes_database(root, #[trigger] folders[i], name);
            if i < n - 1 {
                assert(makes_database(root, folders[i], name));
            }
        }
    }
}

/// Every directory with drawers is found as a database, the root itself among them, and nothing
/// else is.
pub proof fn law_every_database_is_found(root: Seq<char>, folder: Folder, name: Seq<char>)
    ensures
        databases_found(root, folder).dom().contains(name) <==> (has_drawers(folder) && name
            == inventory_name(root, root)) || exists|i: int|
            0 <= i < folder.folders@.len() && makes_database(
                root,
                #[trigger] folder.folders@[i],
                name,
            ),
{
    let own: Map<Seq<char>, (Seq<char>, Folder)> = if has_drawers(folder) {
        Map::empty().insert(inventory_name(root, root), (root, folder))
    } else {
        Map::empty()
    };
    lemma_top(root, folder.folders@, folder.folders@.len() as int, own, name);
}

/// The databases that were found are all listed, in the order of their names, each with what is
/// counted in its own directory.
pub proof fn law_every_database_is_listed(
    found: Map<Seq<char>, (Seq<char>, Folder)>,
    i: int,
    done: Seq<InventoryModel>,
)
    requires
        0 <= i <= key_order(found.dom()).len(),
        done.len() == i,
    ensures
        found_from(found, i, done) matches Ok(all) ==> all.len() == key_order(found.dom()).len()
            && (forall|j: int| 0 <= j < i ==> #[trigger] all[j] == done[j]) && (forall|j: int|
            i <= j < all.len() ==> (#[trigger] all[j]).name == key_order(found.dom())[j]
                && place_counted(
                found[key_order(found.dom())[j]].0,
                Place::Folder(&found[key_order(found.dom())[j]].1),
            ) == Ok::<_, crate::error::Failure>(all[j].tally)),
    decreases key_order(found.dom()).len() - i,
{
    let names = key_order(found.dom());
    if i < names.len() {
        let (path, folder) = found[names[i]];
        match place_counted(path, Place::Folder(&folder)) {
            Ok(tally) => {
                let more = done.push(InventoryModel { name: names[i], tally });
                law_every_database_is_listed(found, i + 1, more);
                match found_from(found, i + 1, more) {
                    Ok(all) => {
                        assert(all[i] == more[i]);
                        assert forall|j: int| 0 <= j < i implies #[trigger] all[j] == done[j] by {
                            assert(all[j] == more[j]);
                        }
                    },
                    Err(_) => {},
                }
            },
            Err(_) => {},
        }
    }
}

/// Whether a data file in a directory is that of a tenant, by what its drawer's name starts with.
pub open spec fn has_file_of(files: Seq<FileEntry>, tenant: Seq<char>) -> bool {
    exists|i: int|
        0 <= i < files.len() && prefix_tenant((#[trigger] files[i]).name@) == Some(tenant)
}

/// The tenants whose data files are found: those of the files at the root, and of each directory
/// with drawers one, two or three below it the tenant of the topmost such directory and those of
/// its files.
pub proof fn law_every_tenant_is_found(root: Folder, i: int, j: int, k: int, tenant: Seq<char>)
    ensures
        has_file_of(root.files@, tenant) ==> tenants_found(root).contains(tenant),
        0 <= i < root.folders@.len() ==> ({
            let top = root.folders@[i];
            &&& has_drawers(top) && (top.name@ == tenant || has_file_of(top.files@, tenant))
                ==> tenants_found(root).contains(tenant)
            &&& 0 <= j < top.folders@.len() ==> ({
                let second = top.folders@[j];
                &&& has_drawers(second) && (second.name@ == tenant || has_file_of(
                    second.files@,
                    tenant,
                )) ==> tenants_found(root).contains(tenant)
                &&& 0 <= k < second.folders@.len() && has_drawers(second.folders@[k]) && (top.name@
                    == tenant || has_file_of(second.folders@[k].files@, tenant)) ==> tenants_found(
                    root,
                ).contains(tenant)
            })
        }),
        root.files@.len() == 0 && root.folders@.len() == 0 ==> !tenants_found(root).contains(tenant),
{
    if 0 <= i < root.folders@.len() {
        let top = root.folders@[i];
        if 0 <= j < top.folders@.len() {
            let second = top.folders@[j];
            if crate::catalog::discovery::own_tenant(second, tenant)
                || crate::catalog::discovery::third_tenant(top, second, tenant) {
                assert(crate::catalog::discovery::top_tenant(top, tenant));
            }
        }
    }
}

/// The tenants in the catalog are those with a route, and those before the slash in the name of a
/// database; where there are no routes, a database without a slash is a tenant by itself.
pub proof fn law_every_registered_tenant_is_found(
    registry: CatalogRegistry,
    i: int,
    other: Seq<char>,
)
    ensures
        0 <= i < registry.routes@.len() ==> tenants_registered(registry).contains(
            registry.routes@[i].tenant_id@,
        ),
        0 <= i < registry.entries().len() ==> match cut_once(registry.entries()[i].database, '/') {
            Some((tenant, _)) => tenants_registered(registry).contains(tenant),
            None => registry.routes@.len() == 0 ==> tenants_registered(registry).contains(
                registry.entries()[i].database,
            ),
        },
        registry.routes@.len() == 0 && registry.entries().len() == 0 ==> !tenants_registered(
            registry,
        ).contains(other),
{
    if 0 <= i < registry.routes@.len() {
        let one = registry.routes@[i];
        assert(crate::catalog::registry::tenant_set(registry.routes@).contains(one.tenant_id@));
    }
    if 0 <= i < registry.entries().len() {
        let d = registry.entries()[i].database;
        assert(crate::catalog::registry::database_set(registry.entries()).contains(d));
        match cut_once(d, '/') {
            Some((tenant, _)) => {
                assert(crate::catalog::discovery::names_database_tenant(
                    d,
                    crate::catalog::discovery::has_routes(registry),
                    tenant,
                ));
            },
            None => {
                if registry.routes@.len() == 0 {
                    assert(crate::catalog::discovery::names_database_tenant(d, false, d));
                }
            },
        }
    }
}

/// What is at a path is found name by name: the first directory of the name is entered; where
/// there is none, a file of the name is found if it is the last name, and else nothing is.
pub proof fn law_place_is_found_name_by_name(
    folder: Folder,
    names: Seq<Seq<char>>,
    i: int,
    k: int,
)
    requires
        0 <= i < names.len(),
        0 <= k <= folder.folders@.len(),
        k < folder.folders@.len() ==> folder.folders@[k].name@ == names[i],
        forall|j: int| 0 <= j < k ==> (#[trigger] folder.folders@[j]).name@ != names[i],
    ensures
        k < folder.folders@.len() ==> place_below(folder, names, i) == place_below(
            folder.folders@[k],
            names,
            i + 1,
        ),
        k == folder.folders@.len() ==> match place_below(folder, names, i) {
            Place::File(file) => i == names.len() - 1 && file.name@ == names[i]
                && folder.files@.contains(*file),
            Place::Nothing => i < names.len() - 1 || forall|j: int|
                0 <= j < folder.files@.len() ==> (#[trigger] folder.files@[j]).name@ != names[i],
            Place::Folder(_) => false,
        },
        place_below(folder, names, names.len() as int) == Place::<'static>::Folder(&folder),
{
    lemma_first_folder(folder.folders@, names[i], 0, k);
    lemma_first_file(folder.files@, names[i], 0);
}

proof fn lemma_first_folder(folders: Seq<Folder>, name: Seq<char>, i: int, k: int)
    requires
        0 <= i <= k <= folders.len(),
        k < folders.len() ==> folders[k].name@ == name,
        forall|j: int| i <= j < k ==> (#[trigger] folders[j]).name@ != name,
    ensures
        folder_named(folders, name, i) == if k < folders.len() {
            Some(k)
        } else {
            None
        },
    decreases k - i,
{
    if i < k {
        assert(folders[i].name@ != name);
        lemma_first_folder(folders, name, i + 1, k);
    }
}

proof fn lemma_first_file(files: Seq<FileEntry>, name: Seq<char>, i: int)
    requires
        0 <= i <= files.len(),
    ensures
        match file_named(files, name, i) {
            Some(file) => file.name@ == name && files.contains(file),
            None => forall|j: int| i <= j < files.len() ==> (#[trigger] files[j]).name@ != name,
        },
    decreases files.len() - i,
{
    if i < files.len() {
        lemma_first_file(files, name, i + 1);
        assert(files.contains(files[i]));
    }
}

} // verus!
