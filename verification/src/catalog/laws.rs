//! What taking files out and putting them back gives.
use crate::catalog::backup::{
    archived, below, decoded_from, drawer_file_names, file_named, folder_walk, folders_walk,
    is_archive_of, is_collection, picked, relative_check, restore_named, restored_path, scope_named,
    target_named, third, ArchiveFileModel, ArchiveModel, BackupScope, TargetModel,
};
use crate::catalog::diagnostics::{bad_segment, structural_parts};
use crate::catalog::folder::{FileEntry, Folder};
use crate::catalog::hex::{hex_text, law_hex_round_trip};
use crate::error::Failure;
use crate::paths::{is_rooted, last_name, path_parts, piece_parts, PartModel};
use crate::text::laws::{
    law_split_then_join, law_trim_twice, lemma_split_append, lemma_split_pieces, lemma_split_plain,
};
use crate::text::{split_parts, trimmed};
use vstd::prelude::*;

verus! {

/// Whether a text can be the name of a file or a directory.
pub open spec fn plain_name(name: Seq<char>) -> bool {
    name.len() > 0 && !name.contains('/') && name != "."@ && name != ".."@
}

/// Whether the files and directories below have names that files and directories can have.
pub open spec fn plain_folder(folder: Folder) -> bool
    decreases folder, 0int,
{
    &&& forall|i: int| 0 <= i < folder.files@.len() ==> plain_name((#[trigger] folder.files@[i]).name@)
    &&& plain_folders(folder.folders@, folder.folders@.len() as int)
}

pub open spec fn plain_folders(folders: Seq<Folder>, n: int) -> bool
    decreases folders, n,
{
    if n <= 0 || n > folders.len() {
        true
    } else {
        plain_folders(folders, n - 1) && plain_name(folders[n - 1].name@) && plain_folder(
            folders[n - 1],
        )
    }
}

/// Whether a path is made of names alone.
pub open spec fn plain_relative(path: Seq<char>) -> bool {
    &&& path.len() > 0
    &&& !is_rooted(path)
    &&& forall|i: int| 0 <= i < path_parts(path).len() ==> (#[trigger] path_parts(path)[i]) is Normal
}

/// Whether a text is that of some bytes.
pub open spec fn is_hex(text: Seq<char>) -> bool {
    exists|bytes: Seq<u8>| hex_text(bytes) == text
}

/// Whether a file of an archive can be put back.
pub open spec fn good_file(file: ArchiveFileModel) -> bool {
    plain_relative(file.path) && is_hex(file.bytes_hex)
}

proof fn lemma_slash()
    ensures
        "/"@ == seq!['/'],
{
    reveal_strlit("/");
    assert("/"@ =~= seq!['/']);
}

proof fn lemma_not_rooted(path: Seq<char>)
    requires
        path.len() > 0,
        path[0] != '/',
    ensures
        !is_rooted(path),
{
    lemma_slash();
    if is_rooted(path) {
        assert(path.subrange(0, 1)[0] == path[0]);
        assert(false);
    }
}

/// A name is a path of one part.
proof fn lemma_name_parts(name: Seq<char>)
    requires
        plain_name(name),
    ensures
        path_parts(name) == seq![PartModel::Normal(name)],
        plain_relative(name),
        last_name(name) == Some(name),
{
    assert(name.contains(name[0]));
    lemma_not_rooted(name);
    lemma_split_plain(name, '/');
    reveal_with_fuel(piece_parts, 2);
    assert(piece_parts(seq![name], 1) =~= seq![PartModel::Normal(name)]);
}

proof fn lemma_piece_parts_prefix(pieces: Seq<Seq<char>>, more: Seq<char>, n: int)
    requires
        0 <= n <= pieces.len(),
    ensures
        piece_parts(pieces.push(more), n) == piece_parts(pieces, n),
    decreases n,
{
    if n > 0 {
        lemma_piece_parts_prefix(pieces, more, n - 1);
    }
}

/// A name below a path of names is a path of names.
proof fn lemma_below_plain(prefix: Seq<char>, name: Seq<char>)
    requires
        prefix.len() == 0 || plain_relative(prefix),
        plain_name(name),
    ensures
        plain_relative(below(prefix, name)),
{
    if prefix.len() == 0 {
        lemma_name_parts(name);
    } else {
        lemma_slash();
        let path = below(prefix, name);
        let pieces = split_parts(prefix, '/');
        lemma_split_append(prefix, '/', name);
        lemma_split_pieces(prefix, '/', 0);
        lemma_piece_parts_prefix(pieces, name, pieces.len() as int);
        if prefix[0] == '/' {
            assert(prefix.subrange(0, 1) =~= seq!['/']);
            assert(is_rooted(prefix));
        }
        assert(path[0] == prefix[0]);
        lemma_not_rooted(path);
        assert(path_parts(path) =~= path_parts(prefix).push(PartModel::Normal(name)));
    }
}

proof fn lemma_walk_good(prefix: Seq<char>, folder: Folder)
    requires
        prefix.len() == 0 || plain_relative(prefix),
        plain_folder(folder),
    ensures
        forall|i: int| 0 <= i < folder_walk(prefix, folder).len() ==> good_file(
            #[trigger] folder_walk(prefix, folder)[i],
        ),
    decreases folder, 0int,
{
    let own = folder.files@.map_values(|f: FileEntry| archived(prefix, f));
    let n = folder.folders@.len() as int;
    lemma_folders_good(prefix, folder.folders@, n);
    let walk = folder_walk(prefix, folder);
    assert(walk == own + folders_walk(prefix, folder.folders@, n));
    assert forall|i: int| 0 <= i < walk.len() implies good_file(#[trigger] walk[i]) by {
        if i < own.len() {
            assert(plain_name(folder.files@[i].name@));
            lemma_below_plain(prefix, folder.files@[i].name@);
            assert(walk[i] == archived(prefix, folder.files@[i]));
            assert(hex_text(folder.files@[i].bytes@) == walk[i].bytes_hex);
        } else {
            assert(walk[i] == folders_walk(prefix, folder.folders@, n)[i - own.len()]);
        }
    }
}

proof fn lemma_folders_good(prefix: Seq<char>, folders: Seq<Folder>, n: int)
    requires
        prefix.len() == 0 || plain_relative(prefix),
        0 <= n <= folders.len(),
        plain_folders(folders, n),
    ensures
        forall|i: int| 0 <= i < folders_walk(prefix, folders, n).len() ==> good_file(
            #[trigger] folders_walk(prefix, folders, n)[i],
        ),
    decreases folders, n,
{
    if n > 0 {
        lemma_folders_good(prefix, folders, n - 1);
        let child = folders[n - 1];
        lemma_below_plain(prefix, child.name@);
        lemma_walk_good(below(prefix, child.name@), child);
        let before = folders_walk(prefix, folders, n - 1);
        let last = folder_walk(below(prefix, child.name@), child);
        let walk = folders_walk(prefix, folders, n);
        assert(walk == before + last);
        assert forall|i: int| 0 <= i < walk.len() implies good_file(#[trigger] walk[i]) by {
            if i < before.len() {
                assert(walk[i] == before[i]);
            } else {
                assert(walk[i] == last[i - before.len()]);
            }
        }
    }
}

/// The path by which a target is named names it again.
pub proof fn law_logical_path_names_the_target(root: Seq<char>, raw: Seq<char>, label: Seq<char>)
    ensures
        target_named(root, raw, label) matches Ok(target) ==> target_named(
            root,
            target.logical_path,
            label,
        ) == Ok::<TargetModel, Failure>(target),
{
    lemma_slash();
    law_split_then_join(trimmed(raw), '/');
    law_trim_twice(raw);
}

/// Whether these files are those of the archive: the same paths and the same bytes.
pub open spec fn are_the_files(
    put: Seq<(Seq<char>, Seq<u8>)>,
    files: Seq<ArchiveFileModel>,
) -> bool {
    &&& put.len() == files.len()
    &&& forall|k: int|
        0 <= k < put.len() ==> (#[trigger] put[k]).0 == files[k].path && hex_text(put[k].1)
            == files[k].bytes_hex
}

proof fn lemma_decoded(
    source_path: Seq<char>,
    target: TargetModel,
    files: Seq<ArchiveFileModel>,
    i: int,
    done: Seq<(Seq<char>, Seq<u8>)>,
)
    requires
        0 <= i <= files.len(),
        forall|k: int|
            0 <= k < files.len() ==> is_hex((#[trigger] files[k]).bytes_hex) && restored_path(
                source_path,
                target,
                files[k].path,
            ) == Ok::<Seq<char>, Failure>(files[k].path),
        are_the_files(done, files.take(i)),
    ensures
        decoded_from(source_path, target, files, i, done) matches Ok(put) && are_the_files(
            put,
            files,
        ),
    decreases files.len() - i,
{
    if i < files.len() {
        let f = files[i];
        let bytes = choose|bytes: Seq<u8>| hex_text(bytes) == f.bytes_hex;
        law_hex_round_trip(bytes);
        let more = done.push((f.path, bytes));
        assert(are_the_files(more, files.take(i + 1))) by {
            assert forall|k: int| 0 <= k < more.len() implies (#[trigger] more[k]).0
                == files.take(i + 1)[k].path && hex_text(more[k].1) == files.take(
                i + 1,
            )[k].bytes_hex by {
                if k < i {
                    assert(more[k] == done[k]);
                    assert(files.take(i)[k] == files[k]);
                }
            }
        }
        lemma_decoded(source_path, target, files, i + 1, more);
    } else {
        assert(files.take(i) =~= files);
    }
}

proof fn lemma_file_named(files: Seq<FileEntry>, name: Seq<char>, i: int)
    ensures
        file_named(files, name, i) matches Some(file) ==> file.name@ == name,
    decreases files.len() - i,
{
    if 0 <= i < files.len() && files[i].name@ != name {
        lemma_file_named(files, name, i + 1);
    }
}

proof fn lemma_picked(files: Seq<FileEntry>, names: Seq<Seq<char>>, n: int)
    requires
        0 <= n <= names.len(),
    ensures
        forall|k: int|
            0 <= k < picked(files, names, n).len() ==> names.contains(
                (#[trigger] picked(files, names, n)[k]).path,
            ) && is_hex(picked(files, names, n)[k].bytes_hex),
    decreases n,
{
    if n > 0 {
        lemma_picked(files, names, n - 1);
        lemma_file_named(files, names[n - 1], 0);
        match file_named(files, names[n - 1], 0) {
            Some(file) => {
                let added = archived(Seq::empty(), file);
                assert(added.path == names[n - 1]);
                assert(hex_text(file.bytes@) == added.bytes_hex);
                let before = picked(files, names, n - 1);
                assert(picked(files, names, n) == before.push(added));
                assert forall|k: int| 0 <= k < before.push(added).len() implies names.contains(
                    (#[trigger] before.push(added)[k]).path,
                ) && is_hex(before.push(added)[k].bytes_hex) by {
                    if k < before.len() {
                        assert(before.push(added)[k] == before[k]);
                    }
                }
            },
            None => {
                assert(picked(files, names, n) == picked(files, names, n - 1));
            },
        }
    }
}

/// The files of a drawer are put back under the names that they have.
proof fn lemma_drawer_file_stays(
    source_path: Seq<char>,
    target: TargetModel,
    drawer: Seq<char>,
    path: Seq<char>,
)
    requires
        target.scope == BackupScope::Drawer,
        third(target.segments) == Some(drawer),
        structural_parts(source_path, "backup archive source path"@) matches Ok(parts)
            && parts.len() > 0 && parts.last() == drawer,
        drawer.len() > 0,
        !drawer.contains('/'),
        drawer_file_names(drawer).contains(path),
    ensures
        restored_path(source_path, target, path) == Ok::<Seq<char>, Failure>(path),
{
    reveal_strlit(".drw");
    reveal_strlit("_index.drw");
    reveal_strlit("_meta.drw");
    reveal_strlit(".");
    reveal_strlit("..");
    let names = drawer_file_names(drawer);
    let k = choose|k: int| 0 <= k < names.len() && names[k] == path;
    assert(path == names[k]);
    assert forall|j: int| 0 <= j < path.len() implies path[j] != '/' by {
        if j < drawer.len() {
            assert(path[j] == drawer[j]);
            assert(drawer.contains(drawer[j]));
        } else if k == 0 {
            assert(path[j] == ".drw"@[j - drawer.len()]);
        } else if k == 1 {
            assert(path[j] == "_index.drw"@[j - drawer.len()]);
        } else {
            assert(path[j] == "_meta.drw"@[j - drawer.len()]);
        }
    }
    lemma_name_parts(path);
    assert(relative_check(path) is Ok);
}

/// The archive of a wardrobe, a bay or a drawer, put back at the path that it was taken from, is
/// accepted, and the files that are written have the paths and the bytes of those that were taken.
pub proof fn law_backup_is_put_back(
    root: Seq<char>,
    raw: Seq<char>,
    label: Seq<char>,
    target: TargetModel,
    source: Option<&Folder>,
    archive: ArchiveModel,
)
    requires
        target_named(root, raw, label) == Ok::<TargetModel, Failure>(target),
        source matches Some(folder) ==> plain_folder(*folder),
        is_collection(target, source, Ok::<Seq<ArchiveFileModel>, Failure>(archive.files)),
        is_archive_of(archive, target, archive.files),
    ensures
        restore_named(root, raw, archive) matches Ok(plan) && plan.0 == target && are_the_files(
            plan.1,
            archive.files,
        ),
{
    let files = archive.files;
    let parts = split_parts(trimmed(raw), '/');
    law_logical_path_names_the_target(root, raw, "backup archive source path"@);
    lemma_split_pieces(trimmed(raw), '/', 0);
    reveal_strlit("wardrobe");
    reveal_strlit("bay");
    reveal_strlit("drawer");
    assert("wardrobe"@.len() == 8 && "bay"@.len() == 3 && "drawer"@.len() == 6);
    assert(scope_named(archive.scope) == Some(target.scope));
    assert(structural_parts(archive.source_path, "backup archive source path"@) == Ok::<
        Seq<Seq<char>>,
        Failure,
    >(parts));
    assert forall|k: int| 0 <= k < files.len() implies is_hex((#[trigger] files[k]).bytes_hex)
        && restored_path(archive.source_path, target, files[k].path) == Ok::<Seq<char>, Failure>(
        files[k].path,
    ) by {
        if target.scope == BackupScope::Drawer {
            let drawer = target.segments[2];
            assert(!bad_segment(parts[2]));
            if drawer.len() == 0 {
                assert(trimmed(drawer) =~= drawer);
            }
            lemma_picked(source->0.files@, drawer_file_names(drawer), 3);
            lemma_drawer_file_stays(archive.source_path, target, drawer, files[k].path);
        } else {
            let walk = folder_walk(Seq::empty(), *source->0);
            lemma_walk_good(Seq::empty(), *source->0);
            assert(files.contains(files[k]));
            vstd::seq_lib::to_multiset_contains(files, files[k]);
            vstd::seq_lib::to_multiset_contains(walk, files[k]);
            assert(walk.contains(files[k]));
            assert(good_file(files[k]));
        }
    }
    assert(are_the_files(Seq::empty(), files.take(0)));
    lemma_decoded(archive.source_path, target, files, 0, Seq::empty());
}

} // verus!
