//! What the catalog learns of files that were put back.
use crate::catalog::backup::{third, BackupScope, StructuralBackupTarget, TargetModel};
use crate::catalog::diagnostics::{drawer_name_from_file_path, drawer_of_file};
use crate::catalog::folder::{FileEntry, Folder};
use crate::fields::{key_order, TextMap};
use crate::text::{owned, texts};
use vstd::prelude::*;

verus! {

/// The drawers whose records the files hold.
pub open spec fn drawer_set(files: Seq<FileEntry>) -> Set<Seq<char>> {
    Set::new(
        |d: Seq<char>|
            exists|i: int|
                0 <= i < files.len() && drawer_of_file((#[trigger] files[i]).name@) == Some(d),
    )
}

/// The drawers in a directory, in ascending order.
pub open spec fn drawer_names(folder: Folder) -> Seq<Seq<char>> {
    key_order(drawer_set(folder.files@))
}

fn drawers_in(files: &Vec<FileEntry>) -> (r: TextMap<()>)
    ensures
        r@.dom() == drawer_set(files@),
{
    let mut names: TextMap<()> = TextMap::new();
    let mut i: usize = 0;
    while i < files.len()
        invariant
            i <= files.len(),
            forall|d: Seq<char>| #[trigger]
                names@.dom().contains(d) <==> exists|j: int|
                    0 <= j < i && drawer_of_file((#[trigger] files@[j]).name@) == Some(d),
        decreases files.len() - i,
    {
        let ghost before = names@.dom();
        match drawer_name_from_file_path(files[i].name.as_str()) {
            Some(drawer) => {
                let ghost d = drawer@;
                names.insert(drawer, ());
                assert(names@.dom() =~= before.insert(d));
                assert(drawer_of_file(files@[i as int].name@) == Some(d));
            },
            None => {
                assert(drawer_of_file(files@[i as int].name@) is None);
            },
        }
        i = i + 1;
    }
    assert(names@.dom() =~= drawer_set(files@));
    names
}

/// The drawers in a directory, in ascending order.
pub fn restored_drawer_names(bay: Option<&Folder>) -> (r: Vec<String>)
    ensures
        texts(r@) == match bay {
            Some(folder) => drawer_names(*folder),
            None => Seq::empty(),
        },
{
    match bay {
        Some(folder) => {
            let names = drawers_in(&folder.files);
            names.key_texts()
        },
        None => {
            let names: Vec<String> = Vec::new();
            assert(texts(names@) =~= Seq::empty());
            names
        },
    }
}

/// The positions of the first `n` directories by their names.
pub open spec fn folder_places(folders: Seq<Folder>, n: int) -> Map<Seq<char>, usize>
    decreases n,
{
    if n <= 0 {
        Map::empty()
    } else {
        folder_places(folders, n - 1).insert(folders[n - 1].name@, (n - 1) as usize)
    }
}

proof fn lemma_places(folders: Seq<Folder>, n: int, name: Seq<char>)
    requires
        0 <= n <= folders.len() <= usize::MAX,
        folder_places(folders, n).dom().contains(name),
    ensures
        folder_places(folders, n)[name] < n,
    decreases n,
{
    if n > 0 && name != folders[n - 1].name@ {
        lemma_places(folders, n - 1, name);
    }
}

/// The directories of a wardrobe, in ascending order of their names.
pub open spec fn bay_names(folder: Folder) -> Seq<Seq<char>> {
    key_order(folder_places(folder.folders@, folder.folders@.len() as int).dom())
}

/// The directory of a bay.
pub open spec fn bay_folder(folder: Folder, bay: Seq<char>) -> Folder {
    folder.folders@[folder_places(folder.folders@, folder.folders@.len() as int)[bay] as int]
}

fn folder_map(folders: &Vec<Folder>) -> (r: TextMap<usize>)
    ensures
        r@ == folder_places(folders@, folders@.len() as int),
{
    let mut places: TextMap<usize> = TextMap::new();
    let mut i: usize = 0;
    while i < folders.len()
        invariant
            i <= folders.len(),
            places@ == folder_places(folders@, i as int),
        decreases folders.len() - i,
    {
        places.insert(owned(folders[i].name.as_str()), i);
        i = i + 1;
    }
    places
}

/// The bays in the directory of a wardrobe, in ascending order.
pub fn restored_bay_names(wardrobe: Option<&Folder>) -> (r: Vec<String>)
    ensures
        texts(r@) == match wardrobe {
            Some(folder) => bay_names(*folder),
            None => Seq::empty(),
        },
{
    match wardrobe {
        Some(folder) => {
            let places = folder_map(&folder.folders);
            places.key_texts()
        },
        None => {
            let names: Vec<String> = Vec::new();
            assert(texts(names@) =~= Seq::empty());
            names
        },
    }
}

/// A database, schema or drawer that is entered in the catalog.
#[derive(Debug, PartialEq, Eq)]
pub enum CatalogCreation {
    Database(String),
    Schema(String, String),
    Drawer(String, String, String),
}

/// The model of what is entered.
pub enum CreationModel {
    Database(Seq<char>),
    Schema(Seq<char>, Seq<char>),
    Drawer(Seq<char>, Seq<char>, Seq<char>),
}

impl View for CatalogCreation {
    type V = CreationModel;

    open spec fn view(&self) -> CreationModel {
        match self {
            CatalogCreation::Database(w) => CreationModel::Database(w@),
            CatalogCreation::Schema(w, b) => CreationModel::Schema(w@, b@),
            CatalogCreation::Drawer(w, b, d) => CreationModel::Drawer(w@, b@, d@),
        }
    }
}

pub open spec fn creations(entries: Seq<CatalogCreation>) -> Seq<CreationModel> {
    entries.map_values(|c: CatalogCreation| c@)
}

/// What is entered of a bay: the bay, then its drawers.
pub open spec fn bay_creations(
    wardrobe: Seq<char>,
    bay: Seq<char>,
    drawers: Seq<Seq<char>>,
) -> Seq<CreationModel> {
    seq![CreationModel::Schema(wardrobe, bay)] + drawers.map_values(
        |d: Seq<char>| CreationModel::Drawer(wardrobe, bay, d),
    )
}

/// What is entered of the first `n` bays of a wardrobe.
pub open spec fn bays_creations(wardrobe: Seq<char>, folder: Folder, n: int) -> Seq<CreationModel>
    decreases n,
{
    if n <= 0 {
        Seq::empty()
    } else {
        let bay = bay_names(folder)[n - 1];
        bays_creations(wardrobe, folder, n - 1) + bay_creations(
            wardrobe,
            bay,
            drawer_names(bay_folder(folder, bay)),
        )
    }
}

/// The drawers in the directory, if there is one.
pub open spec fn opt_drawer_names(folder: Option<&Folder>) -> Seq<Seq<char>> {
    match folder {
        Some(folder) => drawer_names(*folder),
        None => Seq::empty(),
    }
}

/// What is entered once files were put back at the target, whose directory then holds `folder`.
pub open spec fn restored_entries(target: TargetModel, folder: Option<&Folder>) -> Seq<
    CreationModel,
> {
    if target.segments.len() == 0 {
        Seq::empty()
    } else {
        let wardrobe = target.segments[0];
        let head = seq![CreationModel::Database(wardrobe)];
        match target.scope {
            BackupScope::Wardrobe => match folder {
                Some(folder) => head + bays_creations(
                    wardrobe,
                    *folder,
                    bay_names(*folder).len() as int,
                ),
                None => head,
            },
            BackupScope::Bay => if target.segments.len() > 1 {
                head + bay_creations(wardrobe, target.segments[1], opt_drawer_names(folder))
            } else {
                head
            },
            BackupScope::Drawer => match third(target.segments) {
                Some(drawer) => head + bay_creations(wardrobe, target.segments[1], seq![drawer]),
                None => head,
            },
        }
    }
}

fn enter_bay(
    wardrobe: &str,
    bay: &str,
    drawers: &Vec<String>,
    entries: &mut Vec<CatalogCreation>,
)
    ensures
        creations(final(entries)@) == creations(old(entries)@) + bay_creations(
            wardrobe@,
            bay@,
            texts(drawers@),
        ),
{
    let ghost start = creations(entries@);
    let ghost wanted = bay_creations(wardrobe@, bay@, texts(drawers@));
    entries.push(CatalogCreation::Schema(owned(wardrobe), owned(bay)));
    let mut i: usize = 0;
    assert(creations(entries@) =~= start + wanted.take(1));
    while i < drawers.len()
        invariant
            i <= drawers.len(),
            wanted == bay_creations(wardrobe@, bay@, texts(drawers@)),
            wanted.len() == drawers@.len() + 1,
            creations(entries@) == start + wanted.take(i + 1),
        decreases drawers.len() - i,
    {
        let ghost before = creations(entries@);
        let entry = CatalogCreation::Drawer(
            owned(wardrobe),
            owned(bay),
            owned(drawers[i].as_str()),
        );
        let ghost added = entry@;
        entries.push(entry);
        assert(creations(entries@) =~= before.push(added));
        assert(wanted[i + 1] == added) by {
            assert(texts(drawers@)[i as int] == drawers@[i as int]@);
        }
        assert(wanted.take(i + 2) =~= wanted.take(i + 1).push(added));
        i = i + 1;
    }
    assert(wanted.take(drawers.len() + 1) =~= wanted);
}

fn enter_bays(wardrobe: &str, folder: &Folder, entries: &mut Vec<CatalogCreation>)
    ensures
        creations(final(entries)@) == creations(old(entries)@) + bays_creations(
            wardrobe@,
            *folder,
            bay_names(*folder).len() as int,
        ),
{
    let ghost start = creations(entries@);
    let places = folder_map(&folder.folders);
    let n: usize = places.len();
    let count: usize = folder.folders.len();
    let mut i: usize = 0;
    assert(creations(entries@) =~= start + bays_creations(wardrobe@, *folder, 0));
    while i < n
        invariant
            i <= n,
            count == folder.folders@.len(),
            places@ == folder_places(folder.folders@, folder.folders@.len() as int),
            n == places.keys().len(),
            places.keys() == bay_names(*folder),
            creations(entries@) == start + bays_creations(wardrobe@, *folder, i as int),
        decreases n - i,
    {
        let bay = places.key_at(i).as_str();
        let at: usize = *places.value_at(i);
        proof {
            lemma_places(folder.folders@, folder.folders@.len() as int, bay@);
        }
        let drawers = restored_drawer_names(Some(&folder.folders[at]));
        let ghost before = creations(entries@);
        enter_bay(wardrobe, bay, &drawers, entries);
        assert(creations(entries@) =~= start + bays_creations(wardrobe@, *folder, i + 1));
        i = i + 1;
    }
}

/// What is entered in the catalog once files were put back at the target, whose directory then
/// holds `folder`.
pub fn register_restored_catalog(target: &StructuralBackupTarget, folder: Option<&Folder>) -> (r: Vec<
    CatalogCreation,
>)
    ensures
        creations(r@) == restored_entries(target@, folder),
{
    let mut entries: Vec<CatalogCreation> = Vec::new();
    if target.segments.len() == 0 {
        assert(creations(entries@) =~= Seq::empty());
        return entries;
    }
    let ghost names = texts(target.segments@);
    assert(names[0] == target.segments@[0]@);
    let wardrobe = target.segments[0].as_str();
    entries.push(CatalogCreation::Database(owned(wardrobe)));
    assert(creations(entries@) =~= seq![CreationModel::Database(wardrobe@)]);
    match target.scope {
        BackupScope::Wardrobe => {
            match folder {
                Some(folder) => {
                    enter_bays(wardrobe, folder, &mut entries);
                },
                None => {},
            }
        },
        BackupScope::Bay => {
            if target.segments.len() > 1 {
                assert(names[1] == target.segments@[1]@);
                let drawers = restored_drawer_names(folder);
                enter_bay(wardrobe, target.segments[1].as_str(), &drawers, &mut entries);
            }
        },
        BackupScope::Drawer => {
            if target.segments.len() > 2 {
                assert(names[1] == target.segments@[1]@);
                assert(names[2] == target.segments@[2]@);
                let mut drawers: Vec<String> = Vec::new();
                drawers.push(owned(target.segments[2].as_str()));
                assert(texts(drawers@) =~= seq![names[2]]);
                enter_bay(wardrobe, target.segments[1].as_str(), &drawers, &mut entries);
            }
        },
    }
    entries
}

} // verus!
