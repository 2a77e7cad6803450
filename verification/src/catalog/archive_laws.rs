//! What an archive holds, and where its files are put back.
use crate::catalog::backup::{
    archived, decoded_from, drawer_file_names, file_named, folder_walk, folders_walk, is_collection,
    is_report, picked, restore_named, restored_path, target_named, total_bytes, ArchiveFileModel,
    ArchiveModel, BackupScope, TargetModel,
};
use crate::catalog::diagnostics::bad_segment;
use crate::catalog::folder::{FileEntry, Folder};
use crate::catalog::hex::{hex_decoded, hex_text};
use crate::command::results::RestoreReport;
use crate::error::{ErrorKind, Failure};
use crate::paths::{path_joined, path_parts, piece_parts};
use crate::text::{joined, split_parts, starts_with, trimmed};
use vstd::prelude::*;

verus! {

/// The path of a name in a directory.
pub open spec fn path_in(prefix: Seq<char>, name: Seq<char>) -> Seq<char> {
    if prefix.len() == 0 {
        name
    } else {
        prefix + "/"@ + name
    }
}

/// Whether a directory, or one below it, holds a file at a path with these bytes.
pub open spec fn holds_file(
    folder: Folder,
    prefix: Seq<char>,
    path: Seq<char>,
    bytes: Seq<u8>,
) -> bool
    decreases folder,
{
    ||| exists|i: int|
        0 <= i < folder.files@.len() && path_in(
            prefix,
            (#[trigger] folder.files@[i]).name@,
        ) == path && folder.files@[i].bytes@ == bytes
    ||| exists|i: int|
        0 <= i < folder.folders@.len() && holds_file(
            #[trigger] folder.folders@[i],
            path_in(prefix, folder.folders@[i].name@),
            path,
            bytes,
        )
}

proof fn lemma_walk_holds(
    folder: Folder,
    prefix: Seq<char>,
    path: Seq<char>,
    bytes: Seq<u8>,
)
    requires
        holds_file(folder, prefix, path, bytes),
    ensures
        folder_walk(prefix, folder).contains(
            ArchiveFileModel { path, bytes_hex: hex_text(bytes) },
        ),
    decreases folder,
{
    let one = ArchiveFileModel { path, bytes_hex: hex_text(bytes) };
    let own = folder.files@.map_values(|f: FileEntry| archived(prefix, f));
    let n = folder.folders@.len() as int;
    let rest = folders_walk(prefix, folder.folders@, n);
    let walk = folder_walk(prefix, folder);
    assert(walk == own + rest);
    if exists|i: int|
        0 <= i < folder.files@.len() && path_in(prefix, (#[trigger] folder.files@[i]).name@) == path
            && folder.files@[i].bytes@ == bytes {
        let i = choose|i: int|
            0 <= i < folder.files@.len() && path_in(
                prefix,
                (#[trigger] folder.files@[i]).name@,
            ) == path && folder.files@[i].bytes@ == bytes;
        assert(own[i] == one);
        assert(walk[i] == one);
    } else {
        let i = choose|i: int|
            0 <= i < folder.folders@.len() && holds_file(
                #[trigger] folder.folders@[i],
                path_in(prefix, folder.folders@[i].name@),
                path,
                bytes,
            );
        let inner = folder.folders@[i];
        assert(decreases_to!(folder => folder.folders));
        assert(decreases_to!(folder.folders => folder.folders@));
        assert(decreases_to!(folder.folders@ => folder.folders@[i]));
        lemma_walk_holds(inner, path_in(prefix, inner.name@), path, bytes);
        lemma_folders_hold(prefix, folder.folders@, n, i, one);
        let j = choose|j: int| 0 <= j < rest.len() && rest[j] == one;
        assert(walk[own.len() + j] == one);
    }
}

proof fn lemma_folders_hold(
    prefix: Seq<char>,
    folders: Seq<Folder>,
    n: int,
    i: int,
    one: ArchiveFileModel,
)
    requires
        0 <= i < n <= folders.len(),
        folder_walk(path_in(prefix, folders[i].name@), folders[i]).contains(one),
    ensures
        folders_walk(prefix, folders, n).contains(one),
    decreases n,
{
    let all = folders_walk(prefix, folders, n);
    let before = folders_walk(prefix, folders, n - 1);
    let last = folder_walk(path_in(prefix, folders[n - 1].name@), folders[n - 1]);
    assert(all == before + last);
    if i == n - 1 {
        let j = choose|j: int| 0 <= j < last.len() && last[j] == one;
        assert(all[before.len() + j] == one);
    } else {
        lemma_folders_hold(prefix, folders, n - 1, i, one);
        let j = choose|j: int| 0 <= j < before.len() && before[j] == one;
        assert(all[j] == one);
    }
}

proof fn lemma_walk_from(folder: Folder, prefix: Seq<char>, one: ArchiveFileModel)
    requires
        folder_walk(prefix, folder).contains(one),
    ensures
        exists|bytes: Seq<u8>| #[trigger]
            hex_text(bytes) == one.bytes_hex && holds_file(folder, prefix, one.path, bytes),
    decreases folder, 0int,
{
    let own = folder.files@.map_values(|f: FileEntry| archived(prefix, f));
    let n = folder.folders@.len() as int;
    let rest = folders_walk(prefix, folder.folders@, n);
    let walk = folder_walk(prefix, folder);
    assert(walk == own + rest);
    let j = choose|j: int| 0 <= j < walk.len() && walk[j] == one;
    if j < own.len() {
        assert(own[j] == one);
        assert(hex_text(folder.files@[j].bytes@) == one.bytes_hex);
        assert(path_in(prefix, folder.files@[j].name@) == one.path);
    } else {
        assert(rest[j - own.len()] == one);
        assert(rest.contains(one));
        assert(decreases_to!(folder => folder.folders));
        assert(decreases_to!(folder.folders => folder.folders@));
        lemma_folders_from(prefix, folder.folders@, n, one);
        let (i, bytes) = choose|i: int, bytes: Seq<u8>|
            #![trigger folder.folders@[i], hex_text(bytes)]
            0 <= i < n && hex_text(bytes) == one.bytes_hex && holds_file(
                folder.folders@[i],
                path_in(prefix, folder.folders@[i].name@),
                one.path,
                bytes,
            );
        assert(holds_file(folder, prefix, one.path, bytes));
    }
}

proof fn lemma_folders_from(
    prefix: Seq<char>,
    folders: Seq<Folder>,
    n: int,
    one: ArchiveFileModel,
)
    requires
        0 <= n <= folders.len(),
        folders_walk(prefix, folders, n).contains(one),
    ensures
        exists|i: int, bytes: Seq<u8>|
            #![trigger folders[i], hex_text(bytes)]
            0 <= i < n && hex_text(bytes) == one.bytes_hex && holds_file(
                folders[i],
                path_in(prefix, folders[i].name@),
                one.path,
                bytes,
            ),
    decreases folders, n,
{
    let all = folders_walk(prefix, folders, n);
    let j = choose|j: int| 0 <= j < all.len() && all[j] == one;
    if n > 0 {
        let before = folders_walk(prefix, folders, n - 1);
        let last = folder_walk(path_in(prefix, folders[n - 1].name@), folders[n - 1]);
        assert(all == before + last);
        if j < before.len() {
            assert(before[j] == one);
            lemma_folders_from(prefix, folders, n - 1, one);
        } else {
            assert(last[j - before.len()] == one);
            assert(last.contains(one));
            assert(decreases_to!(folders => folders[n - 1]));
            lemma_walk_from(folders[n - 1], path_in(prefix, folders[n - 1].name@), one);
        }
    }
}

/// The archive of a wardrobe or a bay holds every file of its directory and of those below it, at
/// its path and with its bytes, and no other. Without files there is no archive.
pub proof fn law_archive_holds_every_file(
    target: TargetModel,
    folder: Folder,
    files: Seq<ArchiveFileModel>,
)
    requires
        target.scope != BackupScope::Drawer,
        is_collection(target, Some(&folder), Ok::<Seq<ArchiveFileModel>, Failure>(files)),
    ensures
        files.len() > 0,
        forall|path: Seq<char>, bytes: Seq<u8>| #[trigger]
            holds_file(folder, Seq::empty(), path, bytes) ==> files.contains(
                ArchiveFileModel { path, bytes_hex: hex_text(bytes) },
            ),
        forall|i: int|
            0 <= i < files.len() ==> exists|bytes: Seq<u8>| #[trigger]
                hex_text(bytes) == (#[trigger] files[i]).bytes_hex && holds_file(
                    folder,
                    Seq::empty(),
                    files[i].path,
                    bytes,
                ),
{
    broadcast use vstd::seq_lib::group_to_multiset_ensures;

    let walk = folder_walk(Seq::empty(), folder);
    assert(files.to_multiset().len() == walk.to_multiset().len());
    assert forall|path: Seq<char>, bytes: Seq<u8>| #[trigger]
        holds_file(folder, Seq::empty(), path, bytes) implies files.contains(
        ArchiveFileModel { path, bytes_hex: hex_text(bytes) },
    ) by {
        lemma_walk_holds(folder, Seq::empty(), path, bytes);
        let one = ArchiveFileModel { path, bytes_hex: hex_text(bytes) };
        assert(walk.to_multiset().count(one) > 0);
        assert(files.to_multiset().count(one) > 0);
    }
    assert forall|i: int| 0 <= i < files.len() implies exists|bytes: Seq<u8>| #[trigger]
        hex_text(bytes) == (#[trigger] files[i]).bytes_hex && holds_file(
            folder,
            Seq::empty(),
            files[i].path,
            bytes,
        ) by {
        assert(files.contains(files[i]));
        assert(files.to_multiset().count(files[i]) > 0);
        assert(walk.to_multiset().count(files[i]) > 0);
        lemma_walk_from(folder, Seq::empty(), files[i]);
    }
}

proof fn lemma_file_named(files: Seq<FileEntry>, name: Seq<char>, i: int)
    requires
        0 <= i <= files.len(),
    ensures
        match file_named(files, name, i) {
            Some(file) => exists|j: int|
                i <= j < files.len() && (#[trigger] files[j]) == file && file.name@ == name,
            None => forall|j: int| i <= j < files.len() ==> (#[trigger] files[j]).name@ != name,
        },
    decreases files.len() - i,
{
    if i < files.len() && files[i].name@ != name {
        lemma_file_named(files, name, i + 1);
    }
}

/// The archive of a drawer holds its data, its index and its metadata, of those that there are,
/// and nothing else.
pub proof fn law_drawer_archive_holds_its_files(
    target: TargetModel,
    folder: Folder,
    files: Seq<ArchiveFileModel>,
    drawer: Seq<char>,
    j: int,
)
    requires
        target.scope == BackupScope::Drawer,
        target.segments.len() > 2 && target.segments[2] == drawer,
        is_collection(target, Some(&folder), Ok::<Seq<ArchiveFileModel>, Failure>(files)),
        0 <= j < folder.files@.len(),
        forall|i: int|
            0 <= i < folder.files@.len() && i != j ==> (#[trigger] folder.files@[i]).name@
                != folder.files@[j].name@,
    ensures
        ({
            let file = folder.files@[j];
            let own = file.name@ == drawer + ".drw"@ || file.name@ == drawer + "_index.drw"@
                || file.name@ == drawer + "_meta.drw"@;
            own <==> files.contains(
                ArchiveFileModel { path: file.name@, bytes_hex: hex_text(file.bytes@) },
            )
        }),
        files.len() <= 3,
{
    let names = drawer_file_names(drawer);
    let file = folder.files@[j];
    let one = ArchiveFileModel { path: file.name@, bytes_hex: hex_text(file.bytes@) };
    reveal_with_fuel(picked, 4);
    lemma_file_named(folder.files@, names[0], 0);
    lemma_file_named(folder.files@, names[1], 0);
    lemma_file_named(folder.files@, names[2], 0);
    let a = picked(folder.files@, names, 1);
    let b = picked(folder.files@, names, 2);
    let c = picked(folder.files@, names, 3);
    assert(files == c);
    if file.name@ == names[0] {
        assert(file_named(folder.files@, names[0], 0) == Some(file));
        assert(a[0] == one);
        assert(b[0] == one);
        assert(c[0] == one);
    } else if file.name@ == names[1] {
        assert(file_named(folder.files@, names[1], 0) == Some(file));
        assert(b.last() == one);
        assert(c[b.len() - 1] == one);
    } else if file.name@ == names[2] {
        assert(file_named(folder.files@, names[2], 0) == Some(file));
        assert(c.last() == one);
    }
    if files.contains(one) {
        let k = choose|k: int| 0 <= k < files.len() && files[k] == one;
        assert(one.path == names[0] || one.path == names[1] || one.path == names[2]);
    }
}

/// Whether a path leads below where it starts from: it does not start at the root, and no part of
/// it leads up.
pub open spec fn leads_below(path: Seq<char>) -> bool {
    &&& !starts_with(path, "/"@)
    &&& forall|i: int|
        0 <= i < split_parts(path, '/').len() ==> #[trigger] split_parts(path, '/')[i] != ".."@
}

proof fn lemma_up_is_seen(pieces: Seq<Seq<char>>, n: int, i: int)
    requires
        0 <= i < n <= pieces.len(),
        pieces[i] == ".."@,
    ensures
        exists|k: int|
            0 <= k < piece_parts(pieces, n).len() && (#[trigger] piece_parts(pieces, n)[k])
                is ParentDir,
    decreases n,
{
    reveal_strlit(".");
    reveal_strlit("..");
    assert("."@.len() == 1 && ".."@.len() == 2);
    let all = piece_parts(pieces, n);
    if i == n - 1 {
        assert(all.last() is ParentDir);
        assert(all[all.len() - 1] is ParentDir);
    } else {
        lemma_up_is_seen(pieces, n - 1, i);
        let before = piece_parts(pieces, n - 1);
        let k = choose|k: int| 0 <= k < before.len() && (#[trigger] before[k]) is ParentDir;
        assert(all[k] is ParentDir);
    }
}

proof fn lemma_restored_below(source_path: Seq<char>, target: TargetModel, path: Seq<char>)
    ensures
        restored_path(source_path, target, path) is Ok ==> leads_below(path),
{
    if restored_path(source_path, target, path) is Ok {
        let pieces = split_parts(path, '/');
        assert forall|i: int| 0 <= i < pieces.len() implies #[trigger] pieces[i] != ".."@ by {
            if pieces[i] == ".."@ {
                lemma_up_is_seen(pieces, pieces.len() as int, i);
                let all = piece_parts(pieces, pieces.len() as int);
                let k = choose|k: int| 0 <= k < all.len() && (#[trigger] all[k]) is ParentDir;
                assert(path_parts(path)[k] is ParentDir);
            }
        }
    }
}

proof fn lemma_decoded(
    source_path: Seq<char>,
    target: TargetModel,
    files: Seq<ArchiveFileModel>,
    i: int,
    done: Seq<(Seq<char>, Seq<u8>)>,
)
    requires
        0 <= i <= files.len(),
        done.len() == i,
        forall|k: int|
            0 <= k < i ==> leads_below((#[trigger] files[k]).path) && restored_path(
                source_path,
                target,
                files[k].path,
            ) == Ok::<Seq<char>, Failure>(done[k].0) && hex_decoded(files[k].bytes_hex) == Ok::<
                Seq<u8>,
                Failure,
            >(done[k].1),
    ensures
        decoded_from(source_path, target, files, i, done) matches Ok(put) ==> put.len()
            == files.len() && forall|k: int|
            0 <= k < files.len() ==> leads_below((#[trigger] files[k]).path) && restored_path(
                source_path,
                target,
                files[k].path,
            ) == Ok::<Seq<char>, Failure>(put[k].0) && hex_decoded(files[k].bytes_hex) == Ok::<
                Seq<u8>,
                Failure,
            >(put[k].1),
    decreases files.len() - i,
{
    if i < files.len() {
        lemma_restored_below(source_path, target, files[i].path);
        match (
            restored_path(source_path, target, files[i].path),
            hex_decoded(files[i].bytes_hex),
        ) {
            (Ok(path), Ok(bytes)) => {
                lemma_decoded(source_path, target, files, i + 1, done.push((path, bytes)));
            },
            _ => {},
        }
    }
}

/// An archive is put back only where it is one of this format and of the scope of the place, and
/// none of its paths leads out of the place. Each file is put back with its bytes, below the place
/// at its own path; the files of a drawer take the name of the drawer there.
pub proof fn law_restore_stays_inside(
    root: Seq<char>,
    destination: Seq<char>,
    archive: ArchiveModel,
)
    ensures
        restore_named(root, destination, archive) matches Ok((target, put)) ==> {
            &&& archive.format == "wardrobe-cli-backup-v1"@
            &&& target.scope == BackupScope::Wardrobe <==> archive.scope == "wardrobe"@
            &&& target.scope == BackupScope::Bay <==> archive.scope == "bay"@
            &&& target.scope == BackupScope::Drawer <==> archive.scope == "drawer"@
            &&& put.len() == archive.files.len()
            &&& forall|k: int|
                0 <= k < put.len() ==> leads_below((#[trigger] archive.files[k]).path)
                    && hex_decoded(archive.files[k].bytes_hex) == Ok::<Seq<u8>, Failure>(put[k].1)
                    && (target.scope != BackupScope::Drawer ==> put[k].0 == archive.files[k].path)
            &&& target.scope == BackupScope::Drawer ==> target.segments.len() == 3 && forall|k: int|
                0 <= k < put.len() ==> (#[trigger] put[k]).0 == target.segments[2] + ".drw"@
                    || put[k].0 == target.segments[2] + "_index.drw"@ || put[k].0
                    == target.segments[2] + "_meta.drw"@
        },
{
    reveal_strlit("wardrobe");
    reveal_strlit("bay");
    reveal_strlit("drawer");
    assert("wardrobe"@.len() == 8 && "bay"@.len() == 3 && "drawer"@.len() == 6);
    match restore_named(root, destination, archive) {
        Ok((target, put)) => {
            lemma_decoded(archive.source_path, target, archive.files, 0, Seq::empty());
            if target.scope == BackupScope::Drawer {
                assert forall|k: int| 0 <= k < put.len() implies (#[trigger] put[k]).0
                    == target.segments[2] + ".drw"@ || put[k].0 == target.segments[2]
                    + "_index.drw"@ || put[k].0 == target.segments[2] + "_meta.drw"@ by {
                    assert(leads_below(archive.files[k].path));
                }
            } else {
                assert forall|k: int| 0 <= k < put.len() implies leads_below(
                    (#[trigger] archive.files[k]).path,
                ) && hex_decoded(archive.files[k].bytes_hex) == Ok::<Seq<u8>, Failure>(put[k].1)
                    && put[k].0 == archive.files[k].path by {}
            }
        },
        Err(_) => {},
    }
}

/// A path of one, two or three parts names a wardrobe, a bay or a drawer; its files are in the
/// directory of the wardrobe, or else in that of the bay. Any other path is refused.
pub proof fn law_path_names_its_place(root: Seq<char>, raw: Seq<char>, label: Seq<char>)
    ensures
        ({
            let parts = split_parts(trimmed(raw), '/');
            match target_named(root, raw, label) {
                Ok(target) => {
                    &&& target.segments == parts
                    &&& target.logical_path == joined(parts, "/"@)
                    &&& 1 <= parts.len() <= 3
                    &&& target.scope == if parts.len() == 1 {
                        BackupScope::Wardrobe
                    } else if parts.len() == 2 {
                        BackupScope::Bay
                    } else {
                        BackupScope::Drawer
                    }
                    &&& target.storage_path == if parts.len() == 1 {
                        path_joined(root, parts[0])
                    } else {
                        path_joined(path_joined(root, parts[0]), parts[1])
                    }
                    &&& forall|i: int|
                        0 <= i < parts.len() ==> trimmed(#[trigger] parts[i]).len() > 0 && trimmed(
                            parts[i],
                        ) != "."@ && trimmed(parts[i]) != ".."@ && !parts[i].contains('\\')
                },
                Err(f) => f.kind == ErrorKind::InvalidInput,
            }
        }),
{
    reveal_with_fuel(crate::catalog::backup::path_through, 3);
    let parts = split_parts(trimmed(raw), '/');
    match target_named(root, raw, label) {
        Ok(target) => {
            assert forall|i: int| 0 <= i < parts.len() implies trimmed(#[trigger] parts[i]).len() > 0
                && trimmed(parts[i]) != "."@ && trimmed(parts[i]) != ".."@ && !parts[i].contains(
                '\\',
            ) by {
                assert(!bad_segment(parts[i]));
            }
        },
        Err(_) => {},
    }
}

/// The report of a restore counts the files and their bytes.
pub proof fn law_report_counts_the_files(
    report: RestoreReport,
    target: TargetModel,
    files: Seq<(Seq<char>, Seq<u8>)>,
    one: (Seq<char>, Seq<u8>),
)
    requires
        is_report(report, target, files),
    ensures
        report.file_count == files.len(),
        report.destination_path@ == target.logical_path,
        files.len() == 0 ==> report.byte_count == 0,
        total_bytes(files.push(one), files.len() as int + 1) == report.byte_count + one.1.len(),
{
    lemma_total_same(files, files.push(one), files.len() as int);
}

proof fn lemma_total_same(a: Seq<(Seq<char>, Seq<u8>)>, b: Seq<(Seq<char>, Seq<u8>)>, n: int)
    requires
        n <= a.len(),
        n <= b.len(),
        forall|i: int| 0 <= i < n ==> a[i] == b[i],
    ensures
        total_bytes(a, n) == total_bytes(b, n),
    decreases n,
{
    if n > 0 {
        lemma_total_same(a, b, n - 1);
    }
}

} // verus!
