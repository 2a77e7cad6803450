//! What is cleared before files are put back, and how the places of databases and drawers are
//! listed.
use crate::catalog::backup::{
    clearing, format_check, renamed, root_check, scope_check, BackupScope, ClearModel, TargetModel,
};
use crate::catalog::databases::{database_at, discovered, registered_from, InventoryModel};
use crate::catalog::diagnostics::structural_parts;
use crate::catalog::drawers::{drawers_discovered, drawers_found, entry_place, entry_places};
use crate::catalog::folder::Folder;
use crate::catalog::inventory::{
    drawer_counted, folder_counted, index_count, place_counted, sizes, Place, Tally,
};
use crate::catalog::registry::{database_set, schema_set, EntryModel};
use crate::catalog::validation::database_place;
use crate::error::{ErrorKind, Failure};
use crate::fields::key_order;
use crate::paths::laws::{is_name, law_joined_name_is_one_step_further};
use crate::paths::{lexical_parts, name_cut, path_joined, PartModel};
use crate::text::{cut_last, ends_with};
use crate::value::{jsons, JsonValue};
use vstd::prelude::*;

verus! {

/// Whether a path lies below another, or is it: its first parts are those of the other.
pub open spec fn lies_below(parts: Seq<PartModel>, base: Seq<PartModel>) -> bool {
    base.len() <= parts.len() && forall|i: int| 0 <= i < base.len() ==> #[trigger] parts[i] == base[i]
}

/// A path is let through just where it lies below the root once its detours are taken.
pub proof fn law_paths_stay_below_the_root(current: Seq<char>, root: Seq<char>, target: Seq<char>)
    ensures
        root_check(current, root, target) is Ok <==> lies_below(
            lexical_parts(current, target),
            lexical_parts(current, root),
        ),
        root_check(current, root, target) matches Err(f) ==> f.kind == ErrorKind::PermissionDenied,
{
    let parts = lexical_parts(current, target);
    let base = lexical_parts(current, root);
    if lies_below(parts, base) {
        assert(parts.take(base.len() as int) =~= base);
    }
    if base.len() <= parts.len() && parts.take(base.len() as int) == base {
        assert forall|i: int| 0 <= i < base.len() implies #[trigger] parts[i] == base[i] by {
            assert(parts.take(base.len() as int)[i] == parts[i]);
        }
    }
}

/// Before files are put back, what was at their place is cleared and nothing else: the directory,
/// or of a drawer its three files. Nothing outside the root is.
pub proof fn law_only_the_target_is_cleared(
    current: Seq<char>,
    root: Seq<char>,
    target: TargetModel,
)
    ensures
        match clearing(current, root, target) {
            Ok(ClearModel::Directory(path)) => !(target.scope is Drawer) && path
                == target.storage_path,
            Ok(ClearModel::Files(paths)) => target.scope is Drawer && target.segments.len() > 2
                && paths == seq![
                path_joined(target.storage_path, target.segments[2] + ".drw"@),
                path_joined(target.storage_path, target.segments[2] + "_index.drw"@),
                path_joined(target.storage_path, target.segments[2] + "_meta.drw"@),
            ],
            Err(f) => f.kind == ErrorKind::InvalidInput && target.scope is Drawer
                && target.segments.len() <= 2 || f.kind == ErrorKind::PermissionDenied
                && !lies_below(
                lexical_parts(current, target.storage_path),
                lexical_parts(current, root),
            ),
        },
        clearing(current, root, target) is Ok ==> lies_below(
            lexical_parts(current, target.storage_path),
            lexical_parts(current, root),
        ),
{
    law_paths_stay_below_the_root(current, root, target.storage_path);
    match clearing(current, root, target) {
        Ok(ClearModel::Files(paths)) => {
            assert(paths =~= seq![
                path_joined(target.storage_path, target.segments[2] + ".drw"@),
                path_joined(target.storage_path, target.segments[2] + "_index.drw"@),
                path_joined(target.storage_path, target.segments[2] + "_meta.drw"@),
            ]);
        },
        _ => {},
    }
}

/// The databases in the catalog are all listed, in order, each with what is counted at its place.
pub proof fn law_every_registered_database_is_listed(
    root: Seq<char>,
    folder: Option<&Folder>,
    names: Seq<Seq<char>>,
    i: int,
    done: Seq<InventoryModel>,
)
    requires
        0 <= i <= names.len(),
        done.len() == i,
    ensures
        registered_from(root, folder, names, i, done) matches Ok(all) ==> all.len() == names.len()
            && (forall|j: int| 0 <= j < i ==> #[trigger] all[j] == done[j]) && (forall|j: int|
            i <= j < all.len() ==> (#[trigger] all[j]).name == names[j] && (database_place(
                root,
                names[j],
            ) matches Ok(path) && place_counted(path, database_at(folder, names[j])) == Ok::<
                _,
                Failure,
            >(all[j].tally))),
    decreases names.len() - i,
{
    if i < names.len() {
        match database_place(root, names[i]) {
            Ok(path) => match place_counted(path, database_at(folder, names[i])) {
                Ok(tally) => {
                    let more = done.push(InventoryModel { name: names[i], tally });
                    law_every_registered_database_is_listed(root, folder, names, i + 1, more);
                    match registered_from(root, folder, names, i + 1, more) {
                        Ok(all) => {
                            assert(all[i] == more[i]);
                            assert forall|j: int| 0 <= j < i implies #[trigger] all[j] == done[j] by {
                                assert(all[j] == more[j]);
                            }
                        },
                        Err(_) => {},
                    }
                },
                Err(_) => {},
            },
            Err(_) => {},
        }
    }
}

/// Where there is no directory there are no databases.
pub proof fn law_no_directory_holds_no_databases(root: Seq<char>)
    ensures
        discovered(root, None) matches Ok(all) && all.len() == 0,
{
}

/// The drawers of a schema are listed in the order of their names, each with the directory and
/// the name of its files.
pub proof fn law_drawers_are_listed_by_name(
    path: Seq<char>,
    database: Option<&Folder>,
    schema: Seq<char>,
    i: int,
)
    ensures
        drawers_discovered(path, database, schema) matches Ok(all) ==> ({
            let found = drawers_found(path, database, schema);
            &&& all.len() == key_order(found.dom()).len()
            &&& 0 <= i < all.len() ==> all[i].name == key_order(found.dom())[i]
                && all[i].directory == found[all[i].name].0 && all[i].physical
                == found[all[i].name].1
        }),
{
}

/// A drawer in the catalog is listed under its own name. Where its location names a data file, its
/// files have the name of that file, else they are in the location under the drawer's name.
pub proof fn law_registered_drawer_is_at_its_location(
    entry: EntryModel,
    base: Seq<char>,
    stem: Seq<char>,
)
    requires
        base.len() > 0,
        !ends_with(base, "/"@),
        stem.len() > 0,
        is_name(stem + ".drw"@),
    ensures
        entry_place(entry).name == entry.drawer,
        entry.location == path_joined(base, stem + ".drw"@) ==> entry_place(entry).physical == stem,
        entry.location == base && (crate::paths::last_name(base) matches Some(name) ==> cut_last(
            name,
            '.',
        ) is None) ==> entry_place(entry).directory == base && entry_place(entry).physical
            == entry.drawer,
{
    reveal_strlit(".drw");
    reveal_strlit("drw");
    let name = stem + ".drw"@;
    law_joined_name_is_one_step_further(base, name);
    assert(name =~= stem + seq!['.'] + "drw"@);
    assert(!"drw"@.contains('.'));
    crate::text::lemma_last_index(name, '.', name.len() as int);
    let j = crate::text::last_index(name, '.', name.len() as int);
    assert(name[stem.len() as int] == '.');
    if j > stem.len() {
        assert(name[j] == "drw"@[j - stem.len() - 1]);
    }
    assert(name.subrange(0, j) =~= stem);
    assert(name.subrange(j + 1, name.len() as int) =~= "drw"@);
    assert(name_cut(name) == (stem, Some("drw"@)));
}

/// The places of the drawers in the catalog are listed one for each entry, in order.
pub proof fn law_every_registered_drawer_is_listed(entries: Seq<EntryModel>, i: int)
    requires
        0 <= i < entries.len(),
    ensures
        entry_places(entries).len() == entries.len(),
        entry_places(entries)[i] == entry_place(entries[i]),
{
}

/// A drawer is counted by its own files: their sizes together, and how many there are. Its records
/// are those that its index counts, where it counts any; without a directory there is nothing.
pub proof fn law_drawer_is_counted_by_its_files(
    folder: Folder,
    drawer: Seq<char>,
    index: Option<&Vec<JsonValue>>,
)
    ensures
        drawer_counted(None, drawer, index) matches Ok(none) && none.records == 0 && none.bytes == 0
            && none.files == 0,
        drawer_counted(Some(&folder), drawer, index) matches Ok(tally) ==> ({
            let names = seq![drawer + ".drw"@, drawer + "_index.drw"@, drawer + "_meta.drw"@];
            &&& tally.bytes == sizes(folder.files@, names, 3).0
            &&& tally.files == sizes(folder.files@, names, 3).1
            &&& index matches Some(entries) ==> (index_count(jsons(entries@)) matches Some(n)
                ==> tally.records == n)
        }),
{
}

/// The databases and the schemas of the catalog are those of its entries.
pub proof fn law_catalog_names_its_places(entries: Seq<EntryModel>, i: int, name: Seq<char>)
    ensures
        0 <= i < entries.len() ==> database_set(entries).contains(entries[i].database)
            && schema_set(entries, entries[i].database).contains(entries[i].schema),
        database_set(entries).contains(name) ==> exists|j: int|
            0 <= j < entries.len() && (#[trigger] entries[j]).database == name,
        0 <= i < entries.len() && schema_set(entries, entries[i].database).contains(name)
            ==> exists|j: int|
            0 <= j < entries.len() && (#[trigger] entries[j]).database == entries[i].database
                && entries[j].schema == name,
{
}

/// An archive is put back only where its format is known, what it holds is of the kind of the
/// target, and its source path is as deep as such a place: a wardrobe one name, a bay two, and a
/// drawer three.
pub proof fn law_only_fitting_archives_are_put_back(
    format: Seq<char>,
    source_path: Seq<char>,
    scope: Seq<char>,
    target: TargetModel,
)
    ensures
        format_check(format) is Ok <==> format == "wardrobe-cli-backup-v1"@,
        format_check(format) matches Err(f) ==> f.kind == ErrorKind::InvalidData,
        scope_check(source_path, scope, target) is Ok <==> (scope == match target.scope {
            BackupScope::Wardrobe => "wardrobe"@,
            BackupScope::Bay => "bay"@,
            BackupScope::Drawer => "drawer"@,
        }) && (structural_parts(source_path, "backup archive source path"@) matches Ok(parts)
            && parts.len() == match target.scope {
            BackupScope::Wardrobe => 1int,
            BackupScope::Bay => 2int,
            BackupScope::Drawer => 3int,
        }),
{
    reveal_strlit("wardrobe");
    reveal_strlit("bay");
    reveal_strlit("drawer");
    assert("wardrobe"@.len() == 8 && "bay"@.len() == 3 && "drawer"@.len() == 6);
}

/// The files of a drawer are put back under the name of the drawer that they are put back as, each
/// as the file that it was; other files do not belong to a drawer.
pub proof fn law_drawer_files_take_the_new_name(
    source: Seq<char>,
    destination: Seq<char>,
    name: Seq<char>,
)
    ensures
        renamed(source, destination, source + ".drw"@) == Some(destination + ".drw"@),
        renamed(source, destination, source + "_index.drw"@) == Some(destination + "_index.drw"@),
        renamed(source, destination, source + "_meta.drw"@) == Some(destination + "_meta.drw"@),
        renamed(source, destination, name) is Some ==> name == source + ".drw"@ || name == source
            + "_index.drw"@ || name == source + "_meta.drw"@,
{
    reveal_strlit(".drw");
    reveal_strlit("_index.drw");
    reveal_strlit("_meta.drw");
    assert((source + ".drw"@).len() == source.len() + 4);
    assert((source + "_index.drw"@).len() == source.len() + 10);
    assert((source + "_meta.drw"@).len() == source.len() + 9);
}

/// What is at a place is counted from nothing: a directory with all that is in it, a file alone,
/// and where there is nothing, nothing.
pub proof fn law_places_are_counted_from_nothing(path: Seq<char>, place: Place)
    ensures
        ({
            let none = Tally { records: 0, bytes: 0, files: 0 };
            match place {
                Place::Folder(folder) => place_counted(path, place) == folder_counted(
                    none,
                    path,
                    *folder,
                ),
                Place::File(file) => place_counted(path, place) matches Ok(tally) ==> tally.files
                    == 1 && tally.bytes == file.size,
                Place::Nothing => place_counted(path, place) == Ok::<_, Failure>(none),
            }
        }),
{
}

} // verus!
