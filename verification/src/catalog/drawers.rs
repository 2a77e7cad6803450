//! Where the files of drawers are.
use crate::catalog::databases::{find_folder, folder_named};
use crate::catalog::diagnostics::{drawer_name_from_file_path, drawer_of_file};
use crate::catalog::discovery::nothing_registered;
use crate::catalog::folder::{FileEntry, Folder};
use crate::catalog::registry::{
    entries_in, entry_models, CatalogEntry, CatalogRegistry, EntryModel,
};
use crate::catalog::validation::{
    coordinate_check, database_path_from_name, database_place,
    validate_storage_coordinate_component,
};
use crate::error::{Error, Failure};
use crate::fields::{key_order, TextMap};
use crate::paths::{
    components, cut_name, file_name, join_path, last_name, name_cut, part_models, parts_text,
    path_joined, path_of, path_parts,
};
use crate::text::{cut_once, owned, same, split_once};
use vstd::prelude::*;

verus! {

/// A drawer: its name, the directory that its files are in, and the name that they have there.
#[derive(Debug, PartialEq, Eq)]
pub struct DrawerPlace {
    pub name: String,
    pub directory: String,
    pub physical_drawer_name: String,
}

/// The model of where a drawer is.
pub struct DrawerPlaceModel {
    pub name: Seq<char>,
    pub directory: Seq<char>,
    pub physical: Seq<char>,
}

impl View for DrawerPlace {
    type V = DrawerPlaceModel;

    open spec fn view(&self) -> DrawerPlaceModel {
        DrawerPlaceModel {
            name: self.name@,
            directory: self.directory@,
            physical: self.physical_drawer_name@,
        }
    }
}

pub open spec fn drawer_places(places: Seq<DrawerPlace>) -> Seq<DrawerPlaceModel> {
    places.map_values(|p: DrawerPlace| p@)
}

/// Where the files of a drawer in the catalog are: at its location, which may name its data file.
pub open spec fn entry_place(entry: EntryModel) -> DrawerPlaceModel {
    let name = last_name(entry.location);
    let parts = path_parts(entry.location);
    if name is Some && name_cut(name->0).1 == Some("drw"@) {
        DrawerPlaceModel {
            name: entry.drawer,
            directory: parts_text(parts.drop_last()),
            physical: name_cut(name->0).0,
        }
    } else {
        DrawerPlaceModel { name: entry.drawer, directory: entry.location, physical: entry.drawer }
    }
}

pub fn catalog_drawer_inventory(entry: &CatalogEntry) -> (r: DrawerPlace)
    ensures
        r@ == entry_place(entry@),
{
    match file_name(entry.location.as_str()) {
        Some(name) => {
            let (stem, extension) = cut_name(name.as_str());
            let is_file = match &extension {
                Some(e) => same(e.as_str(), "drw"),
                None => false,
            };
            if is_file {
                let mut parts = components(entry.location.as_str());
                let ghost before = part_models(parts@);
                assert(before.len() == parts@.len());
                let _ = parts.pop();
                assert(part_models(parts@) =~= before.drop_last());
                return DrawerPlace {
                    name: owned(entry.drawer.as_str()),
                    directory: path_of(&parts),
                    physical_drawer_name: stem,
                };
            }
        },
        None => {},
    }
    DrawerPlace {
        name: owned(entry.drawer.as_str()),
        directory: owned(entry.location.as_str()),
        physical_drawer_name: owned(entry.drawer.as_str()),
    }
}

/// The name of the drawer that a file holds. In a directory of several schemas, it is what
/// stands behind the schema and a dot in the name of the file.
pub open spec fn logical_name(file: Seq<char>, flat_schema: Option<Seq<char>>) -> Option<Seq<char>> {
    match drawer_of_file(file) {
        None => None,
        Some(physical) => match flat_schema {
            None => Some(physical),
            Some(schema) => match cut_once(physical, '.') {
                None => None,
                Some((prefix, drawer)) => if prefix != schema || drawer.len() == 0 {
                    None
                } else {
                    Some(drawer)
                },
            },
        },
    }
}

/// The drawers that the first `n` files hold, by their names.
pub open spec fn drawers_among(
    directory: Seq<char>,
    files: Seq<FileEntry>,
    flat_schema: Option<Seq<char>>,
    n: int,
    found: Map<Seq<char>, (Seq<char>, Seq<char>)>,
) -> Map<Seq<char>, (Seq<char>, Seq<char>)>
    decreases n,
{
    if n <= 0 {
        found
    } else {
        let before = drawers_among(directory, files, flat_schema, n - 1, found);
        let file = files[n - 1].name@;
        match logical_name(file, flat_schema) {
            Some(name) => before.insert(name, (directory, drawer_of_file(file)->0)),
            None => before,
        }
    }
}

/// The drawers of a schema of a database whose directory holds `database`, by their names. A
/// drawer in the directory of several schemas goes before one in the schema's own.
pub open spec fn drawers_found(path: Seq<char>, database: Option<&Folder>, schema: Seq<char>) -> Map<
    Seq<char>,
    (Seq<char>, Seq<char>),
> {
    match database {
        None => Map::empty(),
        Some(folder) => {
            let nested = match folder_named(folder.folders@, schema, 0) {
                Some(k) => drawers_among(
                    path_joined(path, schema),
                    folder.folders@[k].files@,
                    None,
                    folder.folders@[k].files@.len() as int,
                    Map::empty(),
                ),
                None => Map::empty(),
            };
            drawers_among(path, folder.files@, Some(schema), folder.files@.len() as int, nested)
        },
    }
}

/// The drawers in ascending order of their names.
pub open spec fn in_name_order(found: Map<Seq<char>, (Seq<char>, Seq<char>)>) -> Seq<
    DrawerPlaceModel,
> {
    key_order(found.dom()).map_values(
        |name: Seq<char>|
            DrawerPlaceModel { name, directory: found[name].0, physical: found[name].1 },
    )
}

spec fn pair_model(found: Map<Seq<char>, (String, String)>) -> Map<
    Seq<char>,
    (Seq<char>, Seq<char>),
> {
    Map::new(
        |k: Seq<char>| found.dom().contains(k),
        |k: Seq<char>| (found[k].0@, found[k].1@),
    )
}

fn collect_drawers_in_directory(
    directory: &str,
    files: &Vec<FileEntry>,
    flat_schema_name: Option<&str>,
    found: &mut TextMap<(String, String)>,
)
    ensures
        pair_model(final(found)@) == drawers_among(
            directory@,
            files@,
            crate::text::opt_str(flat_schema_name),
            files@.len() as int,
            pair_model(old(found)@),
        ),
{
    let ghost flat = crate::text::opt_str(flat_schema_name);
    let ghost start = pair_model(found@);
    let mut i: usize = 0;
    while i < files.len()
        invariant
            i <= files.len(),
            flat == crate::text::opt_str(flat_schema_name),
            start == pair_model(old(found)@),
            pair_model(found@) == drawers_among(directory@, files@, flat, i as int, start),
        decreases files.len() - i,
    {
        match drawer_name_from_file_path(files[i].name.as_str()) {
            Some(physical) => {
                let name: Option<String> = match flat_schema_name {
                    None => Some(owned(physical.as_str())),
                    Some(schema) => match split_once(physical.as_str(), '.') {
                        None => None,
                        Some((prefix, drawer)) => if !same(prefix.as_str(), schema)
                            || drawer.as_str().is_empty() {
                            None
                        } else {
                            Some(drawer)
                        },
                    },
                };
                assert(crate::paths::opt_name(name) == logical_name(files@[i as int].name@, flat));
                match name {
                    Some(name) => {
                        let ghost before = found@;
                        let ghost key = name@;
                        let ghost p = physical@;
                        found.insert(name, (owned(directory), physical));
                        assert(pair_model(found@) =~= pair_model(before).insert(
                            key,
                            (directory@, p),
                        ));
                    },
                    None => {},
                }
            },
            None => {},
        }
        i = i + 1;
    }
}

/// Whether these are the drawers, or the failure.
pub open spec fn is_drawer_list(
    r: Result<Vec<DrawerPlace>, Error>,
    wanted: Result<Seq<DrawerPlaceModel>, Failure>,
) -> bool {
    match (wanted, r) {
        (Ok(a), Ok(b)) => drawer_places(b@) == a,
        (Err(f), Err(e)) => e@ == f,
        _ => false,
    }
}

/// The drawers of a schema in the files of a database, or why it is refused.
pub open spec fn drawers_discovered(
    path: Seq<char>,
    database: Option<&Folder>,
    schema: Seq<char>,
) -> Result<Seq<DrawerPlaceModel>, Failure> {
    match coordinate_check("schema"@, schema) {
        Err(f) => Err(f),
        Ok(()) => Ok(in_name_order(drawers_found(path, database, schema))),
    }
}

/// Where the drawers of a schema are, in ascending order of their names.
pub fn discover_drawers(database_path: &str, database: Option<&Folder>, schema_name: &str) -> (r:
    Result<Vec<DrawerPlace>, Error>)
    ensures
        is_drawer_list(r, drawers_discovered(database_path@, database, schema_name@)),
{
    match validate_storage_coordinate_component("schema", schema_name) {
        Ok(()) => {},
        Err(e) => {
            return Err(e);
        },
    }
    let mut found: TextMap<(String, String)> = TextMap::new();
    assert(pair_model(found@) =~= Map::empty());
    match database {
        Some(folder) => {
            match find_folder(&folder.folders, schema_name) {
                Some(k) => {
                    let nested = join_path(database_path, schema_name);
                    collect_drawers_in_directory(
                        nested.as_str(),
                        &folder.folders[k].files,
                        None,
                        &mut found,
                    );
                },
                None => {},
            }
            collect_drawers_in_directory(
                database_path,
                &folder.files,
                Some(schema_name),
                &mut found,
            );
        },
        None => {},
    }
    let ghost all = drawers_found(database_path@, database, schema_name@);
    let ghost wanted = in_name_order(all);
    assert(pair_model(found@) == all);
    assert(found@.dom() =~= all.dom());
    let n: usize = found.len();
    let mut out: Vec<DrawerPlace> = Vec::new();
    let mut i: usize = 0;
    assert(drawer_places(out@) =~= wanted.take(0));
    while i < n
        invariant
            i <= n,
            all == pair_model(found@),
            found@.dom() == all.dom(),
            n == found.keys().len(),
            wanted == in_name_order(all),
            wanted.len() == n,
            drawer_places(out@) == wanted.take(i as int),
        decreases n - i,
    {
        let ghost before = drawer_places(out@);
        let name = owned(found.key_at(i).as_str());
        let place = found.value_at(i);
        let drawer = DrawerPlace {
            name,
            directory: owned(place.0.as_str()),
            physical_drawer_name: owned(place.1.as_str()),
        };
        let ghost m = drawer@;
        assert(m == wanted[i as int]);
        out.push(drawer);
        assert(drawer_places(out@) =~= before.push(m));
        assert(wanted.take(i + 1) =~= wanted.take(i as int).push(m));
        i = i + 1;
    }
    assert(wanted.take(n as int) =~= wanted);
    Ok(out)
}

/// The places of the drawers in the catalog.
pub open spec fn entry_places(entries: Seq<EntryModel>) -> Seq<DrawerPlaceModel> {
    entries.map_values(|e: EntryModel| entry_place(e))
}

/// Where the drawers of a schema are: those in the catalog, or, where nothing is in the catalog,
/// those of the files.
pub fn show_drawers(
    root_directory: &str,
    database: Option<&Folder>,
    registry: &CatalogRegistry,
    database_name: &str,
    schema_name: &str,
) -> (r: Result<Vec<DrawerPlace>, Error>)
    ensures
        is_drawer_list(
            r,
            if !nothing_registered(*registry) {
                Ok(
                    entry_places(
                        entries_in(
                            registry.entries(),
                            database_name@,
                            schema_name@,
                            registry.entries().len() as int,
                        ),
                    ),
                )
            } else {
                match database_place(root_directory@, database_name@) {
                    Err(f) => Err(f),
                    Ok(path) => drawers_discovered(path, database, schema_name@),
                }
            },
        ),
{
    if registry.is_empty() {
        return match database_path_from_name(root_directory, database_name) {
            Ok(path) => discover_drawers(path.as_str(), database, schema_name),
            Err(e) => Err(e),
        };
    }
    let entries = registry.drawer_entries(database_name, schema_name);
    let ghost models = entry_models(entries@);
    let ghost wanted = entry_places(models);
    let mut out: Vec<DrawerPlace> = Vec::new();
    let mut i: usize = 0;
    assert(drawer_places(out@) =~= wanted.take(0));
    while i < entries.len()
        invariant
            i <= entries.len(),
            models == entry_models(entries@),
            wanted == entry_places(models),
            drawer_places(out@) == wanted.take(i as int),
        decreases entries.len() - i,
    {
        let ghost before = drawer_places(out@);
        assert(models[i as int] == entries@[i as int]@);
        let place = catalog_drawer_inventory(&entries[i]);
        let ghost m = place@;
        out.push(place);
        assert(drawer_places(out@) =~= before.push(m));
        assert(wanted.take(i + 1) =~= wanted.take(i as int).push(wanted[i as int]));
        i = i + 1;
    }
    assert(wanted.take(entries.len() as int) =~= wanted);
    Ok(out)
}

} // verus!
