//! The databases and drawers that there are, and what is kept in them.
use crate::catalog::backup::{file_named, find_file};
use crate::catalog::discovery::{
    directory_has_database_layout, directory_has_drawer_files, has_drawers, has_layout,
    nothing_registered,
};
use crate::catalog::folder::Folder;
use crate::catalog::inventory::{place_counted, storage_inventory, Place, Tally};
use crate::catalog::registry::{database_set, CatalogRegistry};
use crate::catalog::validation::{database_path_from_name, database_place};
use crate::error::{Error, Failure};
use crate::fields::{key_order, TextMap};
use crate::paths::{
    components, file_name, has_base, join_path, last_name, part_models, parts_start_with,
    path_joined, path_parts, PartModel, PathPart,
};
use crate::storage::types::StorageInventory;
use crate::text::{join, joined, owned, same, texts};
use vstd::prelude::*;

verus! {

/// The name of a database and what is counted in it.
pub struct InventoryModel {
    pub name: Seq<char>,
    pub tally: Tally,
}

impl View for StorageInventory {
    type V = InventoryModel;

    open spec fn view(&self) -> InventoryModel {
        InventoryModel {
            name: self.name@,
            tally: Tally {
                records: self.record_count as int,
                bytes: self.disk_size_bytes as int,
                files: self.register_file_count as int,
            },
        }
    }
}

pub open spec fn inventories(items: Seq<StorageInventory>) -> Seq<InventoryModel> {
    items.map_values(|i: StorageInventory| i@)
}

/// Whether these are the inventories, or the failure.
pub open spec fn is_inventory_list(
    r: Result<Vec<StorageInventory>, Error>,
    wanted: Result<Seq<InventoryModel>, Failure>,
) -> bool {
    match (wanted, r) {
        (Ok(a), Ok(b)) => inventories(b@) == a,
        (Err(f), Err(e)) => e@ == f,
        _ => false,
    }
}

/// The first of the directories from position `i` on that has the name.
pub open spec fn folder_named(folders: Seq<Folder>, name: Seq<char>, i: int) -> Option<int>
    decreases folders.len() - i,
{
    if i < 0 || i >= folders.len() {
        None
    } else if folders[i].name@ == name {
        Some(i)
    } else {
        folder_named(folders, name, i + 1)
    }
}

pub fn find_folder(folders: &Vec<Folder>, name: &str) -> (r: Option<usize>)
    ensures
        match (folder_named(folders@, name@, 0), r) {
            (Some(a), Some(b)) => a == b && b < folders@.len(),
            (None, None) => true,
            _ => false,
        },
{
    let mut i: usize = 0;
    while i < folders.len()
        invariant
            i <= folders.len(),
            folder_named(folders@, name@, 0) == folder_named(folders@, name@, i as int),
        decreases folders.len() - i,
    {
        if same(folders[i].name.as_str(), name) {
            return Some(i);
        }
        i = i + 1;
    }
    None
}

/// What is at the end of the names from position `i` on, below a directory.
pub open spec fn place_below(folder: Folder, names: Seq<Seq<char>>, i: int) -> Place<'static>
    decreases names.len() - i,
{
    if i < 0 || i >= names.len() {
        Place::Folder(&folder)
    } else {
        match folder_named(folder.folders@, names[i], 0) {
            Some(k) => place_below(folder.folders@[k], names, i + 1),
            None => match file_named(folder.files@, names[i], 0) {
                Some(file) => if i == names.len() - 1 {
                    Place::File(&file)
                } else {
                    Place::Nothing
                },
                None => Place::Nothing,
            },
        }
    }
}

/// The names among the parts of a path.
pub open spec fn names_among(parts: Seq<PartModel>, n: int) -> Seq<Seq<char>>
    decreases n,
{
    if n <= 0 {
        Seq::empty()
    } else {
        match parts[n - 1] {
            PartModel::Normal(name) => names_among(parts, n - 1).push(name),
            _ => names_among(parts, n - 1),
        }
    }
}

fn part_names(parts: &Vec<PathPart>, from: usize) -> (r: Vec<String>)
    requires
        from <= parts@.len(),
    ensures
        texts(r@) == names_among(part_models(parts@).skip(from as int), parts@.len() - from),
{
    let ghost models = part_models(parts@).skip(from as int);
    let mut names: Vec<String> = Vec::new();
    let mut i: usize = from;
    assert(texts(names@) =~= names_among(models, 0));
    while i < parts.len()
        invariant
            from <= i <= parts.len(),
            models == part_models(parts@).skip(from as int),
            texts(names@) == names_among(models, i - from),
        decreases parts.len() - i,
    {
        let ghost before = texts(names@);
        assert(models[i - from] == parts@[i as int]@);
        match &parts[i] {
            PathPart::Normal(name) => {
                names.push(owned(name.as_str()));
                assert(texts(names@) =~= before.push(name@));
            },
            _ => {},
        }
        i = i + 1;
    }
    names
}

/// The name under which a database is listed: its path below the root, or the name of the root.
pub open spec fn inventory_name(root: Seq<char>, path: Seq<char>) -> Seq<char> {
    let base = path_parts(root);
    let parts = path_parts(path);
    if parts_start_with(parts, base) && parts.len() > base.len() {
        joined(
            names_among(parts.skip(base.len() as int), parts.len() - base.len()),
            "/"@,
        )
    } else {
        match last_name(root) {
            Some(name) => name,
            None => "."@,
        }
    }
}

pub fn database_inventory_name(root_directory: &str, database_path: &str) -> (r: String)
    ensures
        r@ == inventory_name(root_directory@, database_path@),
{
    let base = components(root_directory);
    let parts = components(database_path);
    assert(base@.len() == part_models(base@).len() && parts@.len() == part_models(parts@).len());
    if has_base(&parts, &base) && parts.len() > base.len() {
        let names = part_names(&parts, base.len());
        return join(&names, "/");
    }
    match file_name(root_directory) {
        Some(name) => name,
        None => owned("."),
    }
}

/// The databases below a directory under the root, from the first `n` directories in it.
pub open spec fn second_databases(
    root: Seq<char>,
    path: Seq<char>,
    folders: Seq<Folder>,
    n: int,
    found: Map<Seq<char>, (Seq<char>, Folder)>,
) -> Map<Seq<char>, (Seq<char>, Folder)>
    decreases n,
{
    if n <= 0 {
        found
    } else {
        let before = second_databases(root, path, folders, n - 1, found);
        let folder = folders[n - 1];
        let place = path_joined(path, folder.name@);
        if has_layout(folder) {
            before.insert(inventory_name(root, place), (place, folder))
        } else {
            before
        }
    }
}

/// The databases below the root, from the first `n` directories in it. A directory that is no
/// database itself may hold databases.
pub open spec fn top_databases(
    root: Seq<char>,
    folders: Seq<Folder>,
    n: int,
    found: Map<Seq<char>, (Seq<char>, Folder)>,
) -> Map<Seq<char>, (Seq<char>, Folder)>
    decreases n,
{
    if n <= 0 {
        found
    } else {
        let before = top_databases(root, folders, n - 1, found);
        let folder = folders[n - 1];
        let place = path_joined(root, folder.name@);
        if has_layout(folder) {
            before.insert(inventory_name(root, place), (place, folder))
        } else {
            second_databases(
                root,
                place,
                folder.folders@,
                folder.folders@.len() as int,
                before,
            )
        }
    }
}

/// The databases that the files at the root and below hold, by their names.
pub open spec fn databases_found(root: Seq<char>, folder: Folder) -> Map<
    Seq<char>,
    (Seq<char>, Folder),
> {
    let own = if has_drawers(folder) {
        Map::empty().insert(inventory_name(root, root), (root, folder))
    } else {
        Map::empty()
    };
    top_databases(root, folder.folders@, folder.folders@.len() as int, own)
}

/// The inventories of the databases from position `i` on, behind `done`.
pub open spec fn found_from(
    found: Map<Seq<char>, (Seq<char>, Folder)>,
    i: int,
    done: Seq<InventoryModel>,
) -> Result<Seq<InventoryModel>, Failure>
    decreases key_order(found.dom()).len() - i,
{
    let names = key_order(found.dom());
    if i < 0 || i >= names.len() {
        Ok(done)
    } else {
        let (path, folder) = found[names[i]];
        match place_counted(path, Place::Folder(&folder)) {
            Err(f) => Err(f),
            Ok(tally) => found_from(
                found,
                i + 1,
                done.push(InventoryModel { name: names[i], tally }),
            ),
        }
    }
}

/// The databases that the files at the root and below hold, with what is kept in them.
pub open spec fn discovered(root: Seq<char>, folder: Option<&Folder>) -> Result<
    Seq<InventoryModel>,
    Failure,
> {
    match folder {
        None => Ok(Seq::empty()),
        Some(folder) => found_from(databases_found(root, *folder), 0, Seq::empty()),
    }
}

/// A directory that holds a database, and its path.
struct FoundDatabase<'a> {
    path: String,
    folder: &'a Folder,
}

spec fn found_model(found: Map<Seq<char>, FoundDatabase>) -> Map<Seq<char>, (Seq<char>, Folder)> {
    Map::new(
        |k: Seq<char>| found.dom().contains(k),
        |k: Seq<char>| (found[k].path@, *found[k].folder),
    )
}

fn note_database<'a>(
    root_directory: &str,
    path: String,
    folder: &'a Folder,
    found: &mut TextMap<FoundDatabase<'a>>,
)
    ensures
        found_model(final(found)@) == found_model(old(found)@).insert(
            inventory_name(root_directory@, path@),
            (path@, *folder),
        ),
{
    let name = database_inventory_name(root_directory, path.as_str());
    let ghost before = found@;
    let ghost key = name@;
    let ghost place = path@;
    found.insert(name, FoundDatabase { path, folder });
    assert(found_model(found@) =~= found_model(before).insert(key, (place, *folder)));
}

fn collect_second<'a>(
    root_directory: &str,
    path: &str,
    folders: &'a Vec<Folder>,
    found: &mut TextMap<FoundDatabase<'a>>,
)
    ensures
        found_model(final(found)@) == second_databases(
            root_directory@,
            path@,
            folders@,
            folders@.len() as int,
            found_model(old(found)@),
        ),
{
    let ghost start = found_model(found@);
    let mut i: usize = 0;
    while i < folders.len()
        invariant
            i <= folders.len(),
            start == found_model(old(found)@),
            found_model(found@) == second_databases(
                root_directory@,
                path@,
                folders@,
                i as int,
                start,
            ),
        decreases folders.len() - i,
    {
        let folder = &folders[i];
        if directory_has_database_layout(folder) {
            let place = join_path(path, folder.name.as_str());
            note_database(root_directory, place, folder, found);
        }
        i = i + 1;
    }
}

fn collect_databases<'a>(root_directory: &str, folder: &'a Folder) -> (r: TextMap<
    FoundDatabase<'a>,
>)
    ensures
        found_model(r@) == databases_found(root_directory@, *folder),
{
    let mut found: TextMap<FoundDatabase<'a>> = TextMap::new();
    assert(found_model(found@) =~= Map::empty());
    if directory_has_drawer_files(folder) {
        note_database(root_directory, owned(root_directory), folder, &mut found);
    }
    let ghost own = found_model(found@);
    let mut i: usize = 0;
    while i < folder.folders.len()
        invariant
            i <= folder.folders.len(),
            found_model(found@) == top_databases(
                root_directory@,
                folder.folders@,
                i as int,
                own,
            ),
        decreases folder.folders.len() - i,
    {
        let top = &folder.folders[i];
        let place = join_path(root_directory, top.name.as_str());
        if directory_has_database_layout(top) {
            note_database(root_directory, place, top, &mut found);
        } else {
            collect_second(root_directory, place.as_str(), &top.folders, &mut found);
        }
        i = i + 1;
    }
    found
}

/// The databases that the files at the root and below hold, with what is kept in them, in
/// ascending order of their names.
pub fn discover_databases(root_directory: &str, root: Option<&Folder>) -> (r: Result<
    Vec<StorageInventory>,
    Error,
>)
    ensures
        is_inventory_list(r, discovered(root_directory@, root)),
{
    let mut out: Vec<StorageInventory> = Vec::new();
    assert(inventories(out@) =~= Seq::empty());
    let folder = match root {
        Some(folder) => folder,
        None => {
            return Ok(out);
        },
    };
    let found = collect_databases(root_directory, folder);
    let ghost all = databases_found(root_directory@, *folder);
    let ghost wanted = found_from(all, 0, Seq::empty());
    let n: usize = found.len();
    assert(found@.dom() =~= all.dom());
    let mut i: usize = 0;
    while i < n
        invariant
            i <= n,
            root == Some(folder),
            all == found_model(found@),
            all == databases_found(root_directory@, *folder),
            found@.dom() == all.dom(),
            n == found.keys().len(),
            wanted == found_from(all, 0, Seq::empty()),
            wanted == found_from(all, i as int, inventories(out@)),
        decreases n - i,
    {
        let name = owned(found.key_at(i).as_str());
        let entry = found.value_at(i);
        let ghost key = name@;
        let ghost before = inventories(out@);
        assert(all[key] == (entry.path@, *entry.folder));
        match storage_inventory(name, entry.path.as_str(), Place::Folder(entry.folder)) {
            Ok(inventory) => {
                let ghost m = inventory@;
                out.push(inventory);
                assert(inventories(out@) =~= before.push(m));
            },
            Err(e) => {
                return Err(e);
            },
        }
        i = i + 1;
    }
    Ok(out)
}

/// What is at a database's path, below the root.
pub open spec fn database_at(root: Option<&Folder>, name: Seq<char>) -> Place<'static> {
    match root {
        None => Place::Nothing,
        Some(folder) => {
            let parts = path_parts(name);
            place_below(*folder, names_among(parts, parts.len() as int), 0)
        },
    }
}

fn find_database<'a>(root: Option<&'a Folder>, name: &str) -> (r: Place<'a>)
    ensures
        r == database_at(root, name@),
{
    let start = match root {
        Some(folder) => folder,
        None => {
            return Place::Nothing;
        },
    };
    let parts = components(name);
    let names = part_names(&parts, 0);
    let ghost listed = texts(names@);
    assert(part_models(parts@).skip(0) =~= part_models(parts@));
    assert(part_models(parts@).len() == parts@.len());
    let mut at = start;
    let mut i: usize = 0;
    while i < names.len()
        invariant
            i <= names.len(),
            listed == texts(names@),
            place_below(*start, listed, 0) == place_below(*at, listed, i as int),
            database_at(root, name@) == place_below(*start, listed, 0),
        decreases names.len() - i,
    {
        assert(listed[i as int] == names@[i as int]@);
        match find_folder(&at.folders, names[i].as_str()) {
            Some(k) => {
                at = &at.folders[k];
            },
            None => {
                return match find_file(&at.files, names[i].as_str()) {
                    Some(file) => if i == names.len() - 1 {
                        Place::File(file)
                    } else {
                        Place::Nothing
                    },
                    None => Place::Nothing,
                };
            },
        }
        i = i + 1;
    }
    Place::Folder(at)
}

/// The inventories of the databases from position `i` on, behind `done`.
pub open spec fn registered_from(
    root: Seq<char>,
    folder: Option<&Folder>,
    names: Seq<Seq<char>>,
    i: int,
    done: Seq<InventoryModel>,
) -> Result<Seq<InventoryModel>, Failure>
    decreases names.len() - i,
{
    if i < 0 || i >= names.len() {
        Ok(done)
    } else {
        match database_place(root, names[i]) {
            Err(f) => Err(f),
            Ok(path) => match place_counted(path, database_at(folder, names[i])) {
                Err(f) => Err(f),
                Ok(tally) => registered_from(
                    root,
                    folder,
                    names,
                    i + 1,
                    done.push(InventoryModel { name: names[i], tally }),
                ),
            },
        }
    }
}

/// The databases in the catalog with what is kept in them. Where nothing is in the catalog, those
/// of the files.
pub fn show_databases(
    root_directory: &str,
    root: Option<&Folder>,
    registry: &CatalogRegistry,
) -> (r: Result<Vec<StorageInventory>, Error>)
    ensures
        is_inventory_list(
            r,
            if nothing_registered(*registry) {
                discovered(root_directory@, root)
            } else {
                registered_from(
                    root_directory@,
                    root,
                    key_order(database_set(registry.entries())),
                    0,
                    Seq::empty(),
                )
            },
        ),
{
    if registry.is_empty() {
        return discover_databases(root_directory, root);
    }
    let names = registry.database_names();
    let ghost listed = texts(names@);
    let ghost wanted = registered_from(root_directory@, root, listed, 0, Seq::empty());
    let mut out: Vec<StorageInventory> = Vec::new();
    assert(inventories(out@) =~= Seq::empty());
    let mut i: usize = 0;
    while i < names.len()
        invariant
            i <= names.len(),
            listed == texts(names@),
            listed == key_order(database_set(registry.entries())),
            !nothing_registered(*registry),
            wanted == registered_from(root_directory@, root, listed, 0, Seq::empty()),
            wanted == registered_from(
                root_directory@,
                root,
                listed,
                i as int,
                inventories(out@),
            ),
        decreases names.len() - i,
    {
        let name = names[i].as_str();
        assert(listed[i as int] == name@);
        let path = match database_path_from_name(root_directory, name) {
            Ok(path) => path,
            Err(e) => {
                return Err(e);
            },
        };
        let place = find_database(root, name);
        let ghost before = inventories(out@);
        match storage_inventory(owned(name), path.as_str(), place) {
            Ok(inventory) => {
                let ghost m = inventory@;
                out.push(inventory);
                assert(inventories(out@) =~= before.push(m));
            },
            Err(e) => {
                return Err(e);
            },
        }
        i = i + 1;
    }
    Ok(out)
}

} // verus!
