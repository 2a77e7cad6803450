//! What the catalog learns of files that were put back.
use crate::catalog::backup::TargetModel;
use crate::catalog::diagnostics::drawer_of_file;
use crate::catalog::folder::Folder;
use crate::catalog::restored::{
    bay_creations, bay_folder, bay_names, bays_creations, drawer_names, drawer_set, folder_places,
    restored_entries, CreationModel,
};
use crate::fields::lemma_key_order_len;
use vstd::prelude::*;

verus! {

/// Whether a directory holds the records of a drawer.
pub open spec fn holds_drawer(folder: Folder, drawer: Seq<char>) -> bool {
    exists|i: int|
        0 <= i < folder.files@.len() && drawer_of_file((#[trigger] folder.files@[i]).name@) == Some(
            drawer,
        )
}

/// The first `n` drawers that the files hold are finitely many.
proof fn lemma_drawers_finite(folder: Folder, n: int)
    requires
        0 <= n <= folder.files@.len(),
    ensures
        Set::new(
            |d: Seq<char>|
                exists|i: int|
                    0 <= i < n && drawer_of_file((#[trigger] folder.files@[i]).name@) == Some(d),
        ).finite(),
    decreases n,
{
    let all = Set::new(
        |d: Seq<char>|
            exists|i: int|
                0 <= i < n && drawer_of_file((#[trigger] folder.files@[i]).name@) == Some(d),
    );
    if n > 0 {
        lemma_drawers_finite(folder, n - 1);
        let fewer = Set::new(
            |d: Seq<char>|
                exists|i: int|
                    0 <= i < n - 1 && drawer_of_file((#[trigger] folder.files@[i]).name@) == Some(d),
        );
        match drawer_of_file(folder.files@[n - 1].name@) {
            Some(d) => {
                assert(all =~= fewer.insert(d));
            },
            None => {
                assert(all =~= fewer);
            },
        }
    } else {
        assert(all =~= Set::empty());
    }
}

proof fn lemma_drawer_names(folder: Folder, drawer: Seq<char>)
    ensures
        drawer_names(folder).contains(drawer) <==> holds_drawer(folder, drawer),
{
    lemma_drawers_finite(folder, folder.files@.len() as int);
    let set = drawer_set(folder.files@);
    assert(set =~= Set::new(
        |d: Seq<char>|
            exists|i: int|
                0 <= i < folder.files@.len() && drawer_of_file(
                    (#[trigger] folder.files@[i]).name@,
                ) == Some(d),
    ));
    lemma_key_order_len(set);
    let names = drawer_names(folder);
    if names.contains(drawer) {
        let i = choose|i: int| 0 <= i < names.len() && names[i] == drawer;
        assert(set.contains(names[i]));
    }
    if holds_drawer(folder, drawer) {
        assert(set.contains(drawer));
    }
}

proof fn lemma_bay_entries(
    wardrobe: Seq<char>,
    bay: Seq<char>,
    drawers: Seq<Seq<char>>,
    one: CreationModel,
)
    ensures
        bay_creations(wardrobe, bay, drawers).contains(one) <==> match one {
            CreationModel::Database(_) => false,
            CreationModel::Schema(w, b) => w == wardrobe && b == bay,
            CreationModel::Drawer(w, b, d) => w == wardrobe && b == bay && drawers.contains(d),
        },
{
    let all = bay_creations(wardrobe, bay, drawers);
    let rest = drawers.map_values(|d: Seq<char>| CreationModel::Drawer(wardrobe, bay, d));
    assert(all[0] == CreationModel::Schema(wardrobe, bay));
    if all.contains(one) {
        let i = choose|i: int| 0 <= i < all.len() && all[i] == one;
        if i > 0 {
            assert(all[i] == rest[i - 1]);
            assert(drawers.contains(drawers[i - 1]));
        }
    }
    match one {
        CreationModel::Drawer(w, b, d) => {
            if w == wardrobe && b == bay && drawers.contains(d) {
                let i = choose|i: int| 0 <= i < drawers.len() && drawers[i] == d;
                assert(all[i + 1] == rest[i]);
                assert(all[i + 1] == one);
            }
        },
        _ => {},
    }
}

/// Of a directory that was put back as a schema, the schema is entered, and each drawer that the
/// directory holds, and nothing else.
pub proof fn law_restored_schema_is_entered(
    target: TargetModel,
    folder: Folder,
    one: CreationModel,
)
    requires
        target.scope is Bay,
        target.segments.len() > 1,
    ensures
        restored_entries(target, Some(&folder)).contains(one) <==> match one {
            CreationModel::Database(w) => w == target.segments[0],
            CreationModel::Schema(w, b) => w == target.segments[0] && b == target.segments[1],
            CreationModel::Drawer(w, b, d) => w == target.segments[0] && b == target.segments[1]
                && holds_drawer(folder, d),
        },
{
    let wardrobe = target.segments[0];
    let part = bay_creations(wardrobe, target.segments[1], drawer_names(folder));
    lemma_bay_entries(wardrobe, target.segments[1], drawer_names(folder), one);
    match one {
        CreationModel::Drawer(_, _, d) => {
            lemma_drawer_names(folder, d);
        },
        _ => {},
    }
    lemma_behind_database(wardrobe, part, one);
}

/// Of a drawer that was put back, the drawer is entered, with its schema and its database, and
/// nothing else.
pub proof fn law_restored_drawer_is_entered(
    target: TargetModel,
    folder: Folder,
    one: CreationModel,
)
    requires
        target.scope is Drawer,
        target.segments.len() > 2,
    ensures
        restored_entries(target, Some(&folder)).contains(one) <==> match one {
            CreationModel::Database(w) => w == target.segments[0],
            CreationModel::Schema(w, b) => w == target.segments[0] && b == target.segments[1],
            CreationModel::Drawer(w, b, d) => w == target.segments[0] && b == target.segments[1]
                && d == target.segments[2],
        },
{
    let wardrobe = target.segments[0];
    let drawers = seq![target.segments[2]];
    let part = bay_creations(wardrobe, target.segments[1], drawers);
    lemma_bay_entries(wardrobe, target.segments[1], drawers, one);
    assert(drawers[0] == target.segments[2]);
    lemma_behind_database(wardrobe, part, one);
}

proof fn lemma_behind_database(wardrobe: Seq<char>, part: Seq<CreationModel>, one: CreationModel)
    ensures
        (seq![CreationModel::Database(wardrobe)] + part).contains(one) <==> part.contains(one)
            || one == CreationModel::Database(wardrobe),
{
    let all = seq![CreationModel::Database(wardrobe)] + part;
    assert(all[0] == CreationModel::Database(wardrobe));
    if part.contains(one) {
        let i = choose|i: int| 0 <= i < part.len() && part[i] == one;
        assert(all[i + 1] == one);
    }
    if all.contains(one) {
        let i = choose|i: int| 0 <= i < all.len() && all[i] == one;
        if i > 0 {
            assert(part[i - 1] == one);
        }
    }
}

proof fn lemma_bays(wardrobe: Seq<char>, folder: Folder, n: int, one: CreationModel)
    requires
        0 <= n <= bay_names(folder).len(),
    ensures
        bays_creations(wardrobe, folder, n).contains(one) <==> exists|j: int|
            0 <= j < n && is_of_bay(wardrobe, folder, #[trigger] bay_names(folder)[j], one),
    decreases n,
{
    let all = bays_creations(wardrobe, folder, n);
    if n > 0 {
        lemma_bays(wardrobe, folder, n - 1, one);
        let before = bays_creations(wardrobe, folder, n - 1);
        let bay = bay_names(folder)[n - 1];
        let part = bay_creations(wardrobe, bay, drawer_names(bay_folder(folder, bay)));
        lemma_bay_entries(wardrobe, bay, drawer_names(bay_folder(folder, bay)), one);
        match one {
            CreationModel::Drawer(_, _, d) => {
                lemma_drawer_names(bay_folder(folder, bay), d);
            },
            _ => {},
        }
        assert(part.contains(one) <==> is_of_bay(wardrobe, folder, bay, one));
        if before.contains(one) {
            let i = choose|i: int| 0 <= i < before.len() && before[i] == one;
            assert(all[i] == one);
        }
        if part.contains(one) {
            let i = choose|i: int| 0 <= i < part.len() && part[i] == one;
            assert(all[before.len() + i] == one);
        }
        if all.contains(one) {
            let i = choose|i: int| 0 <= i < all.len() && all[i] == one;
            if i < before.len() {
                assert(before[i] == one);
            } else {
                assert(part[i - before.len()] == one);
            }
        }
    }
}

/// Whether an entry is that of a bay or of a drawer in it.
pub open spec fn is_of_bay(
    wardrobe: Seq<char>,
    folder: Folder,
    bay: Seq<char>,
    one: CreationModel,
) -> bool {
    match one {
        CreationModel::Database(_) => false,
        CreationModel::Schema(w, b) => w == wardrobe && b == bay,
        CreationModel::Drawer(w, b, d) => w == wardrobe && b == bay && holds_drawer(
            bay_folder(folder, bay),
            d,
        ),
    }
}

proof fn lemma_places(folders: Seq<Folder>, n: int, name: Seq<char>)
    requires
        0 <= n <= folders.len() <= usize::MAX,
    ensures
        folder_places(folders, n).dom().finite(),
        folder_places(folders, n).dom().contains(name) <==> exists|i: int|
            0 <= i < n && (#[trigger] folders[i]).name@ == name,
        folder_places(folders, n).dom().contains(name) ==> folder_places(folders, n)[name] < n
            && folders[folder_places(folders, n)[name] as int].name@ == name,
    decreases n,
{
    if n > 0 {
        lemma_places(folders, n - 1, name);
        assert(folder_places(folders, n).dom() =~= folder_places(folders, n - 1).dom().insert(
            folders[n - 1].name@,
        ));
        if exists|i: int| 0 <= i < n && (#[trigger] folders[i]).name@ == name {
            let i = choose|i: int| 0 <= i < n && (#[trigger] folders[i]).name@ == name;
            if i == n - 1 {
                assert(folder_places(folders, n).dom().contains(name));
            } else {
                assert(folders[i].name@ == name);
            }
        }
        if folder_places(folders, n).dom().contains(name) {
            if name == folders[n - 1].name@ {
                assert(folders[n - 1].name@ == name);
            }
        }
    }
}

/// Of a directory that was put back as a database, the database is entered, each directory in it
/// as a schema, and each drawer that such a directory holds in that schema; nothing else is.
pub proof fn law_restored_database_is_entered(
    target: TargetModel,
    folder: Folder,
    one: CreationModel,
)
    requires
        target.scope is Wardrobe,
        target.segments.len() > 0,
        folder.folders@.len() <= usize::MAX,
    ensures
        restored_entries(target, Some(&folder)).contains(one) <==> match one {
            CreationModel::Database(w) => w == target.segments[0],
            CreationModel::Schema(w, b) => w == target.segments[0] && exists|i: int|
                0 <= i < folder.folders@.len() && (#[trigger] folder.folders@[i]).name@ == b,
            CreationModel::Drawer(w, b, d) => w == target.segments[0] && (exists|i: int|
                0 <= i < folder.folders@.len() && (#[trigger] folder.folders@[i]).name@ == b)
                && bay_folder(folder, b).name@ == b && holds_drawer(bay_folder(folder, b), d),
        },
{
    let wardrobe = target.segments[0];
    let names = bay_names(folder);
    let n = names.len() as int;
    let part = bays_creations(wardrobe, folder, n);
    lemma_bays(wardrobe, folder, n, one);
    lemma_behind_database(wardrobe, part, one);
    let places = folder_places(folder.folders@, folder.folders@.len() as int);
    let bay = match one {
        CreationModel::Schema(_, b) => b,
        CreationModel::Drawer(_, b, _) => b,
        CreationModel::Database(w) => w,
    };
    lemma_places(folder.folders@, folder.folders@.len() as int, bay);
    lemma_key_order_len(places.dom());
    assert(names.contains(bay) <==> places.dom().contains(bay)) by {
        if names.contains(bay) {
            let j = choose|j: int| 0 <= j < names.len() && names[j] == bay;
            assert(places.dom().contains(names[j]));
        }
    }
    if names.contains(bay) {
        let j = choose|j: int| 0 <= j < names.len() && names[j] == bay;
        assert(is_of_bay(wardrobe, folder, names[j], one) <==> is_of_bay(
            wardrobe,
            folder,
            bay,
            one,
        ));
    }
    if part.contains(one) {
        let j = choose|j: int| 0 <= j < n && is_of_bay(wardrobe, folder, #[trigger] names[j], one);
        assert(names[j] == bay);
    }
}

} // verus!
