//! Archives: the files of a wardrobe, a bay or a drawer, taken out and put back.
use crate::catalog::diagnostics::{split_structural_path, structural_parts};
use crate::catalog::folder::{FileEntry, Folder};
use crate::catalog::hex::{decode_hex, encode_hex, hex_decoded, hex_text};
use crate::command::results::{BackupArchive, BackupArchiveFile, RestoreReport};
use crate::error::{
    bad_data, bad_input, failure, not_found, outcome, text_outcome, Error, ErrorKind, Failure,
};
use crate::paths::{
    absolute_lexical_path, components, file_name, has_base, is_absolute, is_rooted, join_path,
    last_name, lexical_parts, part_models, parts_start_with, parts_text, path_joined, path_of,
    path_parts, PartModel, PathPart,
};
use crate::text::{
    comes_before, concat2, concat3, concat4, join, joined, owned, same, text_before, texts,
};
use vstd::prelude::*;

verus! {

/// What an archive holds.
#[derive(Debug, Clone, Copy, PartialEq, Eq, Structural)]
pub enum BackupScope {
    Wardrobe,
    Bay,
    Drawer,
}

impl BackupScope {
    pub open spec fn name(self) -> Seq<char> {
        match self {
            BackupScope::Wardrobe => "wardrobe"@,
            BackupScope::Bay => "bay"@,
            BackupScope::Drawer => "drawer"@,
        }
    }

    pub open spec fn depth(self) -> int {
        match self {
            BackupScope::Wardrobe => 1,
            BackupScope::Bay => 2,
            BackupScope::Drawer => 3,
        }
    }

    pub fn from_segment_count(segment_count: usize, label: &str) -> (r: Result<Self, Error>)
        ensures
            match (scope_of(segment_count as int, label@), r) {
                (Ok(a), Ok(b)) => a == b,
                (Err(f), Err(e)) => e@ == f,
                _ => false,
            },
    {
        match segment_count {
            1 => Ok(BackupScope::Wardrobe),
            2 => Ok(BackupScope::Bay),
            3 => Ok(BackupScope::Drawer),
            _ => Err(
                Error::invalid_input(concat2(label, " must identify a wardrobe, bay, or drawer")),
            ),
        }
    }

    pub fn as_str(self) -> (r: &'static str)
        ensures
            r@ == self.name(),
    {
        match self {
            BackupScope::Wardrobe => "wardrobe",
            BackupScope::Bay => "bay",
            BackupScope::Drawer => "drawer",
        }
    }

    pub fn expected_segments(self) -> (r: usize)
        ensures
            r == self.depth(),
    {
        match self {
            BackupScope::Wardrobe => 1,
            BackupScope::Bay => 2,
            BackupScope::Drawer => 3,
        }
    }
}

/// What a path of so many parts names.
pub open spec fn scope_of(count: int, label: Seq<char>) -> Result<BackupScope, Failure> {
    if count == 1 {
        Ok(BackupScope::Wardrobe)
    } else if count == 2 {
        Ok(BackupScope::Bay)
    } else if count == 3 {
        Ok(BackupScope::Drawer)
    } else {
        Err(bad_input(label + " must identify a wardrobe, bay, or drawer"@))
    }
}

/// The format of archives.
pub open spec fn archive_format() -> Seq<char> {
    "wardrobe-cli-backup-v1"@
}

/// A wardrobe, a bay or a drawer, and the directory that its files are in.
#[derive(Debug)]
pub struct StructuralBackupTarget {
    pub scope: BackupScope,
    pub segments: Vec<String>,
    pub logical_path: String,
    pub storage_path: String,
}

/// The model of a target.
#[verifier::ext_equal]
pub struct TargetModel {
    pub scope: BackupScope,
    pub segments: Seq<Seq<char>>,
    pub logical_path: Seq<char>,
    pub storage_path: Seq<char>,
}

impl View for StructuralBackupTarget {
    type V = TargetModel;

    open spec fn view(&self) -> TargetModel {
        TargetModel {
            scope: self.scope,
            segments: texts(self.segments@),
            logical_path: self.logical_path@,
            storage_path: self.storage_path@,
        }
    }
}

/// The directory behind the first `n` names.
pub open spec fn path_through(root: Seq<char>, names: Seq<Seq<char>>, n: int) -> Seq<char>
    decreases n,
{
    if n <= 0 {
        root
    } else {
        path_joined(path_through(root, names, n - 1), names[n - 1])
    }
}

/// What a structural path names. The files of a drawer are in the directory of its bay.
pub open spec fn target_named(root: Seq<char>, raw: Seq<char>, label: Seq<char>) -> Result<
    TargetModel,
    Failure,
> {
    match structural_parts(raw, label) {
        Err(f) => Err(f),
        Ok(segments) => match scope_of(segments.len() as int, label) {
            Err(f) => Err(f),
            Ok(scope) => Ok(
                TargetModel {
                    scope,
                    segments,
                    logical_path: joined(segments, "/"@),
                    storage_path: path_through(
                        root,
                        segments,
                        if scope == BackupScope::Wardrobe {
                            1
                        } else {
                            2
                        },
                    ),
                },
            ),
        },
    }
}

pub fn structural_backup_target(root_directory: &str, raw_path: &str, label: &str) -> (r: Result<
    StructuralBackupTarget,
    Error,
>)
    ensures
        match (target_named(root_directory@, raw_path@, label@), r) {
            (Ok(m), Ok(target)) => target@ == m,
            (Err(f), Err(e)) => e@ == f,
            _ => false,
        },
{
    let segments = match split_structural_path(raw_path, label) {
        Ok(segments) => segments,
        Err(e) => {
            return Err(e);
        },
    };
    let ghost names = texts(segments@);
    let scope = match BackupScope::from_segment_count(segments.len(), label) {
        Ok(scope) => scope,
        Err(e) => {
            return Err(e);
        },
    };
    assert(names[0] == segments@[0]@);
    let wardrobe = join_path(root_directory, segments[0].as_str());
    assert(wardrobe@ == path_through(root_directory@, names, 1)) by {
        reveal_with_fuel(path_through, 2);
    }
    let storage_path = match scope {
        BackupScope::Wardrobe => wardrobe,
        _ => {
            assert(names[1] == segments@[1]@);
            join_path(wardrobe.as_str(), segments[1].as_str())
        },
    };
    let logical_path = join(&segments, "/");
    Ok(StructuralBackupTarget { scope, segments, logical_path, storage_path })
}

/// The model of a file of an archive.
#[verifier::ext_equal]
pub struct ArchiveFileModel {
    pub path: Seq<char>,
    pub bytes_hex: Seq<char>,
}

impl View for BackupArchiveFile {
    type V = ArchiveFileModel;

    open spec fn view(&self) -> ArchiveFileModel {
        ArchiveFileModel { path: self.path@, bytes_hex: self.bytes_hex@ }
    }
}

pub open spec fn archive_files(files: Seq<BackupArchiveFile>) -> Seq<ArchiveFileModel> {
    files.map_values(|f: BackupArchiveFile| f@)
}

/// The path of a name below a directory.
pub open spec fn below(prefix: Seq<char>, name: Seq<char>) -> Seq<char> {
    if prefix.len() == 0 {
        name
    } else {
        prefix + "/"@ + name
    }
}

/// A file, as an archive holds it.
pub open spec fn archived(prefix: Seq<char>, file: FileEntry) -> ArchiveFileModel {
    ArchiveFileModel { path: below(prefix, file.name@), bytes_hex: hex_text(file.bytes@) }
}

/// The files of a directory and of those below it.
pub open spec fn folder_walk(prefix: Seq<char>, folder: Folder) -> Seq<ArchiveFileModel>
    decreases folder, 0int,
{
    folder.files@.map_values(|f: FileEntry| archived(prefix, f)) + folders_walk(
        prefix,
        folder.folders@,
        folder.folders@.len() as int,
    )
}

/// The files of the first `n` directories.
pub open spec fn folders_walk(prefix: Seq<char>, folders: Seq<Folder>, n: int) -> Seq<
    ArchiveFileModel,
>
    decreases folders, n,
{
    if n <= 0 || n > folders.len() {
        Seq::empty()
    } else {
        folders_walk(prefix, folders, n - 1) + folder_walk(
            below(prefix, folders[n - 1].name@),
            folders[n - 1],
        )
    }
}

fn path_below(prefix: &str, name: &str) -> (r: String)
    ensures
        r@ == below(prefix@, name@),
{
    if prefix.is_empty() {
        owned(name)
    } else {
        concat3(prefix, "/", name)
    }
}

fn collect_directory_archive_files(
    prefix: &str,
    folder: &Folder,
    files: &mut Vec<BackupArchiveFile>,
)
    ensures
        archive_files(final(files)@) == archive_files(old(files)@) + folder_walk(prefix@, *folder),
    decreases *folder,
{
    let ghost start = archive_files(files@);
    let ghost own = folder.files@.map_values(|f: FileEntry| archived(prefix@, f));
    let mut i: usize = 0;
    assert(start + own.take(0) =~= start);
    while i < folder.files.len()
        invariant
            i <= folder.files.len(),
            own == folder.files@.map_values(|f: FileEntry| archived(prefix@, f)),
            archive_files(files@) == start + own.take(i as int),
        decreases folder.files.len() - i,
    {
        let file = &folder.files[i];
        let ghost before = files@;
        let entry = BackupArchiveFile {
            path: path_below(prefix, file.name.as_str()),
            bytes_hex: encode_hex(file.bytes.as_slice()),
        };
        let ghost added = entry@;
        files.push(entry);
        proof {
            assert(archive_files(files@) =~= archive_files(before).push(added));
            assert(own.take(i + 1) =~= own.take(i as int).push(own[i as int]));
        }
        i = i + 1;
    }
    assert(own.take(own.len() as int) =~= own);
    let ghost middle = start + own;
    let mut j: usize = 0;
    assert(middle + folders_walk(prefix@, folder.folders@, 0) =~= middle);
    while j < folder.folders.len()
        invariant
            j <= folder.folders.len(),
            archive_files(files@) == middle + folders_walk(prefix@, folder.folders@, j as int),
        decreases folder.folders.len() - j,
    {
        let child = &folder.folders[j];
        let path = path_below(prefix, child.name.as_str());
        proof {
            assert(decreases_to!(*folder => folder.folders));
            assert(decreases_to!(folder.folders => folder.folders@));
            assert(decreases_to!(folder.folders@ => folder.folders@[j as int]));
        }
        collect_directory_archive_files(path.as_str(), child, files);
        j = j + 1;
    }
    assert(archive_files(files@) =~= start + folder_walk(prefix@, *folder));
}

/// Whether the files stand in the order of their paths.
pub open spec fn in_path_order(files: Seq<ArchiveFileModel>) -> bool {
    forall|i: int, j: int|
        0 <= i < j < files.len() ==> !text_before(
            (#[trigger] files[j]).path,
            (#[trigger] files[i]).path,
        )
}

proof fn lemma_inserted_multiset(s: Seq<ArchiveFileModel>, at: int, f: ArchiveFileModel)
    requires
        0 <= at <= s.len(),
    ensures
        s.insert(at, f).to_multiset() == s.to_multiset().insert(f),
{
    broadcast use vstd::seq_lib::group_to_multiset_ensures;

    let t = s.insert(at, f);
    assert(t[at] == f);
    assert(t.remove(at) =~= s);
    assert(t.contains(f));
    assert(t.to_multiset().remove(f) == s.to_multiset());
    assert(t.to_multiset() =~= s.to_multiset().insert(f));
}

/// Puts a file behind those whose paths do not come after its own.
fn insert_file(files: &mut Vec<BackupArchiveFile>, file: BackupArchiveFile)
    requires
        in_path_order(archive_files(old(files)@)),
    ensures
        in_path_order(archive_files(final(files)@)),
        archive_files(final(files)@).to_multiset() == archive_files(
            old(files)@,
        ).to_multiset().insert(file@),
{
    let ghost before = archive_files(files@);
    let mut at: usize = 0;
    while at < files.len() && !comes_before(file.path.as_str(), files[at].path.as_str())
        invariant
            at <= files.len(),
            before == archive_files(files@),
            forall|k: int| 0 <= k < at ==> !text_before(file.path@, (#[trigger] before[k]).path),
        decreases files.len() - at,
    {
        assert(before[at as int].path == files@[at as int].path@);
        at = at + 1;
    }
    let ghost f = file@;
    proof {
        if at < files.len() {
            assert(before[at as int].path == files@[at as int].path@);
            assert forall|k: int| at <= k < before.len() implies !text_before(
                (#[trigger] before[k]).path,
                f.path,
            ) by {
                if text_before(before[k].path, f.path) {
                    crate::text::lemma_before_transitive(
                        before[k].path,
                        f.path,
                        before[at as int].path,
                    );
                    if k == at {
                        crate::text::lemma_before_irreflexive(before[k].path);
                    }
                }
            }
        }
        lemma_inserted_multiset(before, at as int, f);
    }
    files.insert(at, file);
    proof {
        let after = archive_files(files@);
        assert(after =~= before.insert(at as int, f));
        assert forall|i: int, j: int| 0 <= i < j < after.len() implies !text_before(
            (#[trigger] after[j]).path,
            (#[trigger] after[i]).path,
        ) by {
            if j < at {
                assert(after[i] == before[i] && after[j] == before[j]);
            } else if i > at {
                assert(after[i] == before[i - 1] && after[j] == before[j - 1]);
            } else if i == at {
                assert(after[j] == before[j - 1]);
            } else if j == at {
                assert(after[i] == before[i]);
            } else {
                assert(after[i] == before[i] && after[j] == before[j - 1]);
            }
        }
    }
}

fn sort_files(files: Vec<BackupArchiveFile>) -> (r: Vec<BackupArchiveFile>)
    ensures
        in_path_order(archive_files(r@)),
        archive_files(r@).to_multiset() == archive_files(files@).to_multiset(),
        r@.len() == files@.len(),
{
    broadcast use vstd::seq_lib::group_to_multiset_ensures;

    let ghost all = archive_files(files@);
    let mut rest = files;
    let mut sorted: Vec<BackupArchiveFile> = Vec::new();
    proof {
        assert(archive_files(sorted@) =~= Seq::empty());
        assert(archive_files(sorted@).to_multiset().add(archive_files(rest@).to_multiset())
            =~= all.to_multiset());
    }
    while rest.len() > 0
        invariant
            in_path_order(archive_files(sorted@)),
            archive_files(sorted@).to_multiset().add(archive_files(rest@).to_multiset())
                == all.to_multiset(),
        decreases rest.len(),
    {
        let ghost before = archive_files(rest@);
        let ghost placed = archive_files(sorted@);
        let file = rest.remove(0);
        let ghost f = file@;
        proof {
            assert(f == before[0]);
            assert(archive_files(rest@) =~= before.remove(0));
            vstd::seq_lib::to_multiset_remove(before, 0);
            assert(before.contains(f));
            before.to_multiset_ensures();
            assert(before.to_multiset().count(f) > 0);
        }
        insert_file(&mut sorted, file);
        proof {
            assert(archive_files(sorted@).to_multiset().add(archive_files(rest@).to_multiset())
                =~= placed.to_multiset().add(before.to_multiset()));
        }
    }
    proof {
        assert(archive_files(rest@) =~= Seq::empty());
        assert(archive_files(sorted@).to_multiset() =~= all.to_multiset());
        assert(archive_files(sorted@).to_multiset().len() == sorted@.len());
        assert(all.to_multiset().len() == all.len());
    }
    sorted
}

/// The names of the files of a drawer.
pub open spec fn drawer_file_names(drawer: Seq<char>) -> Seq<Seq<char>> {
    seq![drawer + ".drw"@, drawer + "_index.drw"@, drawer + "_meta.drw"@]
}

pub fn drawer_files(drawer: &str) -> (r: Vec<String>)
    ensures
        texts(r@) == drawer_file_names(drawer@),
{
    let mut names: Vec<String> = Vec::new();
    names.push(concat2(drawer, ".drw"));
    names.push(concat2(drawer, "_index.drw"));
    names.push(concat2(drawer, "_meta.drw"));
    assert(texts(names@) =~= drawer_file_names(drawer@));
    names
}

/// The first of the files from position `i` on that has the name.
pub open spec fn file_named(files: Seq<FileEntry>, name: Seq<char>, i: int) -> Option<FileEntry>
    decreases files.len() - i,
{
    if i < 0 || i >= files.len() {
        None
    } else if files[i].name@ == name {
        Some(files[i])
    } else {
        file_named(files, name, i + 1)
    }
}

/// Those of the first `n` names that there is a file of.
pub open spec fn picked(files: Seq<FileEntry>, names: Seq<Seq<char>>, n: int) -> Seq<
    ArchiveFileModel,
>
    decreases n,
{
    if n <= 0 {
        Seq::empty()
    } else {
        match file_named(files, names[n - 1], 0) {
            Some(file) => picked(files, names, n - 1).push(archived(Seq::empty(), file)),
            None => picked(files, names, n - 1),
        }
    }
}

pub fn find_file<'a>(files: &'a Vec<FileEntry>, name: &str) -> (r: Option<&'a FileEntry>)
    ensures
        match (file_named(files@, name@, 0), r) {
            (Some(a), Some(b)) => a == *b,
            (None, None) => true,
            _ => false,
        },
{
    let mut i: usize = 0;
    while i < files.len()
        invariant
            i <= files.len(),
            file_named(files@, name@, 0) == file_named(files@, name@, i as int),
        decreases files.len() - i,
    {
        if same(files[i].name.as_str(), name) {
            return Some(&files[i]);
        }
        i = i + 1;
    }
    None
}

fn pick_files(files: &Vec<FileEntry>, names: &Vec<String>) -> (r: Vec<BackupArchiveFile>)
    ensures
        archive_files(r@) == picked(files@, texts(names@), names@.len() as int),
{
    let ghost wanted = texts(names@);
    let mut out: Vec<BackupArchiveFile> = Vec::new();
    assert(archive_files(out@) =~= picked(files@, wanted, 0));
    let mut i: usize = 0;
    while i < names.len()
        invariant
            i <= names.len(),
            wanted == texts(names@),
            archive_files(out@) == picked(files@, wanted, i as int),
        decreases names.len() - i,
    {
        let ghost before = archive_files(out@);
        assert(wanted[i as int] == names@[i as int]@);
        match find_file(files, names[i].as_str()) {
            Some(file) => {
                let entry = BackupArchiveFile {
                    path: owned(file.name.as_str()),
                    bytes_hex: encode_hex(file.bytes.as_slice()),
                };
                let ghost added = entry@;
                out.push(entry);
                assert(archive_files(out@) =~= before.push(added));
            },
            None => {},
        }
        i = i + 1;
    }
    out
}

/// The third name of a path, which is that of the drawer.
pub open spec fn third(segments: Seq<Seq<char>>) -> Option<Seq<char>> {
    if segments.len() > 2 {
        Some(segments[2])
    } else {
        None
    }
}

/// Whether these are the files that are taken of the directory at the target.
pub open spec fn is_collection(
    target: TargetModel,
    source: Option<&Folder>,
    r: Result<Seq<ArchiveFileModel>, Failure>,
) -> bool {
    if target.scope == BackupScope::Drawer {
        match third(target.segments) {
            None => r == Err::<Seq<ArchiveFileModel>, Failure>(
                bad_input("drawer backup requires a drawer path"@),
            ),
            Some(drawer) => {
                let files = match source {
                    Some(folder) => picked(folder.files@, drawer_file_names(drawer), 3),
                    None => Seq::empty(),
                };
                if files.len() == 0 {
                    r == Err::<Seq<ArchiveFileModel>, Failure>(
                        not_found(
                            "drawer backup source contains no drawer files: "@
                                + target.logical_path,
                        ),
                    )
                } else {
                    r == Ok::<Seq<ArchiveFileModel>, Failure>(files)
                }
            },
        }
    } else {
        match source {
            None => r == Err::<Seq<ArchiveFileModel>, Failure>(
                not_found("backup source path does not exist: "@ + target.logical_path),
            ),
            Some(folder) => {
                let walk = folder_walk(Seq::empty(), *folder);
                if walk.len() == 0 {
                    r == Err::<Seq<ArchiveFileModel>, Failure>(
                        not_found("backup source path contains no files: "@ + target.logical_path),
                    )
                } else {
                    match r {
                        Ok(files) => in_path_order(files) && files.to_multiset()
                            == walk.to_multiset(),
                        Err(_) => false,
                    }
                }
            },
        }
    }
}

/// The files of an archive, or the failure.
pub open spec fn files_outcome(r: Result<Vec<BackupArchiveFile>, Error>) -> Result<
    Seq<ArchiveFileModel>,
    Failure,
> {
    match r {
        Ok(files) => Ok(archive_files(files@)),
        Err(e) => Err(e@),
    }
}

/// The files at the target, whose directory holds `source`. Of a wardrobe or a bay these are all
/// files, in the order of their paths; of a drawer these are its own.
pub fn collect_backup_archive_files(target: &StructuralBackupTarget, source: Option<&Folder>) -> (r:
    Result<Vec<BackupArchiveFile>, Error>)
    ensures
        is_collection(target@, source, files_outcome(r)),
{
    match target.scope {
        BackupScope::Drawer => {
            if target.segments.len() <= 2 {
                return Err(Error::invalid_input(owned("drawer backup requires a drawer path")));
            }
            assert(third(target@.segments) == Some(target.segments@[2]@));
            let names = drawer_files(target.segments[2].as_str());
            assert(names@.len() == texts(names@).len());
            let files = match source {
                Some(folder) => pick_files(&folder.files, &names),
                None => Vec::new(),
            };
            assert(source is None ==> archive_files(files@) =~= Seq::empty());
            if files.len() == 0 {
                return Err(
                    Error::missing(
                        concat2(
                            "drawer backup source contains no drawer files: ",
                            target.logical_path.as_str(),
                        ),
                    ),
                );
            }
            Ok(files)
        },
        _ => {
            let folder = match source {
                Some(folder) => folder,
                None => {
                    return Err(
                        Error::missing(
                            concat2(
                                "backup source path does not exist: ",
                                target.logical_path.as_str(),
                            ),
                        ),
                    );
                },
            };
            let mut files: Vec<BackupArchiveFile> = Vec::new();
            let ghost none = archive_files(files@);
            collect_directory_archive_files("", folder, &mut files);
            proof {
                reveal_strlit("");
                assert(""@ =~= Seq::<char>::empty());
                assert(none =~= Seq::empty());
                assert(archive_files(files@) =~= folder_walk(Seq::empty(), *folder));
            }
            if files.len() == 0 {
                return Err(
                    Error::missing(
                        concat2(
                            "backup source path contains no files: ",
                            target.logical_path.as_str(),
                        ),
                    ),
                );
            }
            Ok(sort_files(files))
        },
    }
}

/// The model of an archive.
#[verifier::ext_equal]
pub struct ArchiveModel {
    pub format: Seq<char>,
    pub source_path: Seq<char>,
    pub scope: Seq<char>,
    pub files: Seq<ArchiveFileModel>,
}

impl View for BackupArchive {
    type V = ArchiveModel;

    open spec fn view(&self) -> ArchiveModel {
        ArchiveModel {
            format: self.format@,
            source_path: self.source_path@,
            scope: self.scope@,
            files: archive_files(self.files@),
        }
    }
}

/// Whether this is the archive of the files.
pub open spec fn is_archive_of(
    archive: ArchiveModel,
    target: TargetModel,
    files: Seq<ArchiveFileModel>,
) -> bool {
    &&& archive.format == archive_format()
    &&& archive.source_path == target.logical_path
    &&& archive.scope == target.scope.name()
    &&& archive.files == files
}

/// The archive of the files at the target, whose directory holds `source`.
pub fn backup_archive(target: StructuralBackupTarget, source: Option<&Folder>) -> (r: Result<
    BackupArchive,
    Error,
>)
    ensures
        match r {
            Ok(archive) => is_collection(
                target@,
                source,
                Ok::<Seq<ArchiveFileModel>, Failure>(archive@.files),
            ) && is_archive_of(archive@, target@, archive@.files),
            Err(e) => is_collection(target@, source, Err::<Seq<ArchiveFileModel>, Failure>(e@)),
        },
{
    match collect_backup_archive_files(&target, source) {
        Ok(files) => Ok(
            BackupArchive {
                format: owned("wardrobe-cli-backup-v1"),
                source_path: target.logical_path,
                scope: owned(target.scope.as_str()),
                files,
            },
        ),
        Err(e) => Err(e),
    }
}

/// What is said of the format of an archive.
pub open spec fn format_check(format: Seq<char>) -> Result<(), Failure> {
    if format == archive_format() {
        Ok(())
    } else {
        Err(
            bad_data(
                "Invalid backup archive format: expected wardrobe-cli-backup-v1, found "@ + format,
            ),
        )
    }
}

pub fn validate_backup_archive_format(archive: &BackupArchive) -> (r: Result<(), Error>)
    ensures
        outcome(r) == format_check(archive@.format),
{
    if !same(archive.format.as_str(), "wardrobe-cli-backup-v1") {
        return Err(
            Error::invalid_data(
                concat2(
                    "Invalid backup archive format: expected wardrobe-cli-backup-v1, found ",
                    archive.format.as_str(),
                ),
            ),
        );
    }
    Ok(())
}

/// The scope of a name.
pub open spec fn scope_named(name: Seq<char>) -> Option<BackupScope> {
    if name == "wardrobe"@ {
        Some(BackupScope::Wardrobe)
    } else if name == "bay"@ {
        Some(BackupScope::Bay)
    } else if name == "drawer"@ {
        Some(BackupScope::Drawer)
    } else {
        None
    }
}

/// Whether an archive of this source and scope can be put back at the target.
pub open spec fn scope_check(
    source_path: Seq<char>,
    scope: Seq<char>,
    target: TargetModel,
) -> Result<(), Failure> {
    match scope_named(scope) {
        None => Err(bad_data("Invalid backup archive scope: "@ + scope)),
        Some(archive_scope) => if archive_scope != target.scope {
            Err(
                bad_input(
                    "restore destination '"@ + target.logical_path + "' is a "@
                        + target.scope.name() + ", but archive contains a "@ + scope + " backup"@,
                ),
            )
        } else {
            match structural_parts(source_path, "backup archive source path"@) {
                Err(f) => Err(f),
                Ok(parts) => if parts.len() != target.scope.depth() {
                    Err(bad_data("restore destination path does not match archive scope"@))
                } else {
                    Ok(())
                },
            }
        },
    }
}

pub fn validate_archive_scope(archive: &BackupArchive, target: &StructuralBackupTarget) -> (r:
    Result<(), Error>)
    ensures
        outcome(r) == scope_check(archive@.source_path, archive@.scope, target@),
{
    let name = archive.scope.as_str();
    let archive_scope = if same(name, "wardrobe") {
        BackupScope::Wardrobe
    } else if same(name, "bay") {
        BackupScope::Bay
    } else if same(name, "drawer") {
        BackupScope::Drawer
    } else {
        return Err(Error::invalid_data(concat2("Invalid backup archive scope: ", name)));
    };
    if archive_scope != target.scope {
        let place = concat4(
            "restore destination '",
            target.logical_path.as_str(),
            "' is a ",
            target.scope.as_str(),
        );
        return Err(
            Error::invalid_input(
                concat4(place.as_str(), ", but archive contains a ", name, " backup"),
            ),
        );
    }
    match split_structural_path(archive.source_path.as_str(), "backup archive source path") {
        Ok(segments) => {
            assert(segments@.len() == texts(segments@).len());
            if segments.len() != target.scope.expected_segments() {
                return Err(
                    Error::invalid_data(
                        owned("restore destination path does not match archive scope"),
                    ),
                );
            }
            Ok(())
        },
        Err(e) => Err(e),
    }
}

/// Whether a path leads out of where it starts.
pub open spec fn leads_out(parts: Seq<PartModel>) -> bool {
    exists|i: int|
        0 <= i < parts.len() && ((#[trigger] parts[i]) is ParentDir || parts[i] is RootDir)
}

/// What is said of the path of a file of an archive.
pub open spec fn relative_check(path: Seq<char>) -> Result<(), Failure> {
    if is_rooted(path) {
        Err(bad_data("backup archive file paths must be relative"@))
    } else if leads_out(path_parts(path)) {
        Err(bad_data("backup archive file path escapes the restore target"@))
    } else {
        Ok(())
    }
}

pub fn validate_archive_relative_path(path: &str) -> (r: Result<(), Error>)
    ensures
        outcome(r) == relative_check(path@),
{
    if is_absolute(path) {
        return Err(
            Error::invalid_data(owned("backup archive file paths must be relative")),
        );
    }
    let parts = components(path);
    let ghost models = path_parts(path@);
    let mut i: usize = 0;
    while i < parts.len()
        invariant
            i <= parts.len(),
            models == part_models(parts@),
            models == path_parts(path@),
            !is_rooted(path@),
            forall|j: int|
                0 <= j < i ==> !((#[trigger] models[j]) is ParentDir || models[j] is RootDir),
        decreases parts.len() - i,
    {
        assert(models[i as int] == parts@[i as int]@);
        let out = match &parts[i] {
            PathPart::ParentDir => true,
            PathPart::RootDir => true,
            _ => false,
        };
        if out {
            assert(models[i as int] is ParentDir || models[i as int] is RootDir);
            return Err(
                Error::invalid_data(owned("backup archive file path escapes the restore target")),
            );
        }
        i = i + 1;
    }
    Ok(())
}

/// The name under which a drawer's file is put back: that of the new drawer.
pub open spec fn renamed(source: Seq<char>, destination: Seq<char>, name: Seq<char>) -> Option<
    Seq<char>,
> {
    if name == source + ".drw"@ {
        Some(destination + ".drw"@)
    } else if name == source + "_index.drw"@ {
        Some(destination + "_index.drw"@)
    } else if name == source + "_meta.drw"@ {
        Some(destination + "_meta.drw"@)
    } else {
        None
    }
}

/// Where a file of an archive is put back, below the directory of the target.
pub open spec fn restored_path(
    source_path: Seq<char>,
    target: TargetModel,
    path: Seq<char>,
) -> Result<Seq<char>, Failure> {
    match relative_check(path) {
        Err(f) => Err(f),
        Ok(()) => if target.scope != BackupScope::Drawer {
            Ok(path)
        } else {
            match structural_parts(source_path, "backup archive source path"@) {
                Err(f) => Err(f),
                Ok(parts) => if parts.len() == 0 {
                    Err(bad_data("drawer archive source path does not include a drawer"@))
                } else {
                    drawer_file_path(parts.last(), third(target.segments), path)
                },
            }
        },
    }
}

/// Where a file of a drawer is put back.
pub open spec fn drawer_file_path(
    source: Seq<char>,
    destination: Option<Seq<char>>,
    path: Seq<char>,
) -> Result<Seq<char>, Failure> {
    match destination {
        None => Err(bad_input("drawer restore requires a destination drawer path"@)),
        Some(drawer) => if path_parts(path).len() != 1 {
            Err(bad_data("drawer backup archive cannot contain nested file paths"@))
        } else {
            match last_name(path) {
                None => Err(bad_data("drawer backup archive contains an invalid file path"@)),
                Some(name) => match renamed(source, drawer, name) {
                    Some(new_name) => Ok(new_name),
                    None => Err(bad_data("Unexpected drawer backup file: "@ + name)),
                },
            }
        },
    }
}

fn restore_drawer_file(source: &str, segments: &Vec<String>, archive_path: &str) -> (r: Result<
    String,
    Error,
>)
    ensures
        text_outcome(r) == drawer_file_path(source@, third(texts(segments@)), archive_path@),
{
    if segments.len() <= 2 {
        return Err(
            Error::invalid_input(owned("drawer restore requires a destination drawer path")),
        );
    }
    assert(third(texts(segments@)) == Some(segments@[2]@));
    let destination = segments[2].as_str();
    let parts = components(archive_path);
    assert(parts@.len() == part_models(parts@).len());
    if parts.len() != 1 {
        return Err(
            Error::invalid_data(owned("drawer backup archive cannot contain nested file paths")),
        );
    }
    let name = match file_name(archive_path) {
        Some(name) => name,
        None => {
            return Err(
                Error::invalid_data(owned("drawer backup archive contains an invalid file path")),
            );
        },
    };
    let data_name = concat2(source, ".drw");
    let index_name = concat2(source, "_index.drw");
    let meta_name = concat2(source, "_meta.drw");
    if same(name.as_str(), data_name.as_str()) {
        Ok(concat2(destination, ".drw"))
    } else if same(name.as_str(), index_name.as_str()) {
        Ok(concat2(destination, "_index.drw"))
    } else if same(name.as_str(), meta_name.as_str()) {
        Ok(concat2(destination, "_meta.drw"))
    } else {
        Err(Error::invalid_data(concat2("Unexpected drawer backup file: ", name.as_str())))
    }
}

pub fn restore_relative_path(
    archive: &BackupArchive,
    target: &StructuralBackupTarget,
    archive_path: &str,
) -> (r: Result<String, Error>)
    ensures
        text_outcome(r) == restored_path(archive@.source_path, target@, archive_path@),
{
    match validate_archive_relative_path(archive_path) {
        Ok(()) => {},
        Err(e) => {
            return Err(e);
        },
    }
    match target.scope {
        BackupScope::Drawer => {},
        _ => {
            return Ok(owned(archive_path));
        },
    }
    let parts = match split_structural_path(
        archive.source_path.as_str(),
        "backup archive source path",
    ) {
        Ok(parts) => parts,
        Err(e) => {
            return Err(e);
        },
    };
    if parts.len() == 0 {
        return Err(
            Error::invalid_data(owned("drawer archive source path does not include a drawer")),
        );
    }
    assert(texts(parts@).last() == parts@.last()@);
    restore_drawer_file(parts[parts.len() - 1].as_str(), &target.segments, archive_path)
}

/// The files that are put back, from file `i` of an archive on, behind `done`.
pub open spec fn decoded_from(
    source_path: Seq<char>,
    target: TargetModel,
    files: Seq<ArchiveFileModel>,
    i: int,
    done: Seq<(Seq<char>, Seq<u8>)>,
) -> Result<Seq<(Seq<char>, Seq<u8>)>, Failure>
    decreases files.len() - i,
{
    if i < 0 || i >= files.len() {
        Ok(done)
    } else {
        match restored_path(source_path, target, files[i].path) {
            Err(f) => Err(f),
            Ok(path) => match hex_decoded(files[i].bytes_hex) {
                Err(f) => Err(f),
                Ok(bytes) => decoded_from(
                    source_path,
                    target,
                    files,
                    i + 1,
                    done.push((path, bytes)),
                ),
            },
        }
    }
}

/// The files that an archive puts back.
pub open spec fn decoded_files(archive: ArchiveModel, target: TargetModel) -> Result<
    Seq<(Seq<char>, Seq<u8>)>,
    Failure,
> {
    decoded_from(archive.source_path, target, archive.files, 0, Seq::empty())
}

/// The model of files: paths and bytes.
pub open spec fn file_models(files: Seq<(String, Vec<u8>)>) -> Seq<(Seq<char>, Seq<u8>)> {
    files.map_values(|f: (String, Vec<u8>)| (f.0@, f.1@))
}

pub fn decoded_restore_files(archive: &BackupArchive, target: &StructuralBackupTarget) -> (r:
    Result<Vec<(String, Vec<u8>)>, Error>)
    ensures
        match (decoded_files(archive@, target@), r) {
            (Ok(a), Ok(b)) => file_models(b@) == a,
            (Err(f), Err(e)) => e@ == f,
            _ => false,
        },
{
    let ghost wanted = decoded_files(archive@, target@);
    let mut files: Vec<(String, Vec<u8>)> = Vec::new();
    assert(file_models(files@) =~= Seq::empty());
    let mut i: usize = 0;
    while i < archive.files.len()
        invariant
            i <= archive.files.len(),
            wanted == decoded_files(archive@, target@),
            wanted == decoded_from(
                archive@.source_path,
                target@,
                archive@.files,
                i as int,
                file_models(files@),
            ),
        decreases archive.files.len() - i,
    {
        let file = &archive.files[i];
        assert(archive@.files[i as int] == file@);
        let ghost before = file_models(files@);
        let path = match restore_relative_path(archive, target, file.path.as_str()) {
            Ok(path) => path,
            Err(e) => {
                return Err(e);
            },
        };
        let bytes = match decode_hex(file.bytes_hex.as_str()) {
            Ok(bytes) => bytes,
            Err(e) => {
                return Err(e);
            },
        };
        let ghost added = (path@, bytes@);
        files.push((path, bytes));
        assert(file_models(files@) =~= before.push(added));
        i = i + 1;
    }
    Ok(files)
}

/// How many bytes the first `n` files hold.
pub open spec fn total_bytes(files: Seq<(Seq<char>, Seq<u8>)>, n: int) -> int
    decreases n,
{
    if n <= 0 {
        0
    } else {
        total_bytes(files, n - 1) + files[n - 1].1.len()
    }
}

proof fn lemma_total_grows(files: Seq<(Seq<char>, Seq<u8>)>, n: int, m: int)
    requires
        0 <= n <= m <= files.len(),
    ensures
        0 <= total_bytes(files, n) <= total_bytes(files, m),
    decreases m,
{
    if n < m {
        lemma_total_grows(files, n, m - 1);
    } else if n > 0 {
        lemma_total_grows(files, n - 1, n - 1);
    }
}

fn count_bytes(files: &Vec<(String, Vec<u8>)>) -> (r: usize)
    requires
        total_bytes(file_models(files@), files@.len() as int) <= usize::MAX,
    ensures
        r == total_bytes(file_models(files@), files@.len() as int),
{
    let ghost models = file_models(files@);
    let mut total: usize = 0;
    let mut i: usize = 0;
    while i < files.len()
        invariant
            i <= files.len(),
            models == file_models(files@),
            total_bytes(models, files@.len() as int) <= usize::MAX,
            total == total_bytes(models, i as int),
        decreases files.len() - i,
    {
        proof {
            assert(models[i as int].1 == files@[i as int].1@);
            lemma_total_grows(models, i + 1, models.len() as int);
        }
        total = total + files[i].1.len();
        i = i + 1;
    }
    total
}

/// What a restore does: the files it writes below the target, and what it reports.
pub struct RestorePlan {
    pub target: StructuralBackupTarget,
    pub files: Vec<(String, Vec<u8>)>,
    pub report: RestoreReport,
}

/// What a restore does, or why it is refused.
pub open spec fn restore_named(root: Seq<char>, destination: Seq<char>, archive: ArchiveModel) -> Result<
    (TargetModel, Seq<(Seq<char>, Seq<u8>)>),
    Failure,
> {
    match format_check(archive.format) {
        Err(f) => Err(f),
        Ok(()) => match target_named(root, destination, "restore destination path"@) {
            Err(f) => Err(f),
            Ok(target) => match scope_check(archive.source_path, archive.scope, target) {
                Err(f) => Err(f),
                Ok(()) => match decoded_files(archive, target) {
                    Err(f) => Err(f),
                    Ok(files) => Ok((target, files)),
                },
            },
        },
    }
}

/// Whether the report is that of the files at the target.
pub open spec fn is_report(
    report: RestoreReport,
    target: TargetModel,
    files: Seq<(Seq<char>, Seq<u8>)>,
) -> bool {
    &&& report.destination_path@ == target.logical_path
    &&& report.scope@ == target.scope.name()
    &&& report.file_count == files.len()
    &&& report.byte_count == total_bytes(files, files.len() as int)
}

/// What it takes to put an archive back at a path. Its files have to fit in memory together.
pub fn restore_archive(root_directory: &str, destination_path: &str, archive: &BackupArchive) -> (r:
    Result<RestorePlan, Error>)
    requires
        restore_named(root_directory@, destination_path@, archive@) matches Ok(plan)
            ==> total_bytes(plan.1, plan.1.len() as int) <= usize::MAX,
    ensures
        match (restore_named(root_directory@, destination_path@, archive@), r) {
            (Ok((target, files)), Ok(plan)) => plan.target@ == target && file_models(plan.files@)
                == files && is_report(plan.report, target, files),
            (Err(f), Err(e)) => e@ == f,
            _ => false,
        },
{
    match validate_backup_archive_format(archive) {
        Ok(()) => {},
        Err(e) => {
            return Err(e);
        },
    }
    let target = match structural_backup_target(
        root_directory,
        destination_path,
        "restore destination path",
    ) {
        Ok(target) => target,
        Err(e) => {
            return Err(e);
        },
    };
    match validate_archive_scope(archive, &target) {
        Ok(()) => {},
        Err(e) => {
            return Err(e);
        },
    }
    let files = match decoded_restore_files(archive, &target) {
        Ok(files) => files,
        Err(e) => {
            return Err(e);
        },
    };
    assert(file_models(files@).len() == files@.len());
    let report = RestoreReport {
        destination_path: owned(target.logical_path.as_str()),
        scope: owned(target.scope.as_str()),
        file_count: files.len(),
        byte_count: count_bytes(&files),
    };
    Ok(RestorePlan { target, files, report })
}

/// What is said of a path that should be below the root.
pub open spec fn root_check(current: Seq<char>, root: Seq<char>, target: Seq<char>) -> Result<
    (),
    Failure,
> {
    if parts_start_with(lexical_parts(current, target), lexical_parts(current, root)) {
        Ok(())
    } else {
        Err(
            failure(
                ErrorKind::PermissionDenied,
                "Refusing to restore outside the storage root: "@ + parts_text(
                    lexical_parts(current, target),
                ),
            ),
        )
    }
}

pub fn ensure_path_is_under_root(current_directory: &str, root_directory: &str, target: &str) -> (r:
    Result<(), Error>)
    ensures
        outcome(r) == root_check(current_directory@, root_directory@, target@),
{
    let root = absolute_lexical_path(current_directory, root_directory);
    let place = absolute_lexical_path(current_directory, target);
    if !has_base(&place, &root) {
        let shown = path_of(&place);
        return Err(
            Error::new(
                ErrorKind::PermissionDenied,
                concat2("Refusing to restore outside the storage root: ", shown.as_str()),
            ),
        );
    }
    Ok(())
}

/// What is removed before files are put back.
#[derive(Debug, PartialEq, Eq)]
pub enum ClearAction {
    Directory(String),
    Files(Vec<String>),
}

/// The model of what is removed.
#[verifier::ext_equal]
pub enum ClearModel {
    Directory(Seq<char>),
    Files(Seq<Seq<char>>),
}

impl View for ClearAction {
    type V = ClearModel;

    open spec fn view(&self) -> ClearModel {
        match self {
            ClearAction::Directory(path) => ClearModel::Directory(path@),
            ClearAction::Files(paths) => ClearModel::Files(texts(paths@)),
        }
    }
}

/// What is removed before files are put back at the target, or why that is refused.
pub open spec fn clearing(current: Seq<char>, root: Seq<char>, target: TargetModel) -> Result<
    ClearModel,
    Failure,
> {
    if target.scope == BackupScope::Drawer && third(target.segments) is None {
        Err(bad_input("drawer restore requires a drawer path"@))
    } else {
        match root_check(current, root, target.storage_path) {
            Err(f) => Err(f),
            Ok(()) => Ok(
                if target.scope == BackupScope::Drawer {
                    ClearModel::Files(
                        drawer_file_names(third(target.segments)->0).map_values(
                            |name: Seq<char>| path_joined(target.storage_path, name),
                        ),
                    )
                } else {
                    ClearModel::Directory(target.storage_path)
                },
            ),
        }
    }
}

pub fn clear_restore_target(
    current_directory: &str,
    root_directory: &str,
    target: &StructuralBackupTarget,
) -> (r: Result<ClearAction, Error>)
    ensures
        match (clearing(current_directory@, root_directory@, target@), r) {
            (Ok(m), Ok(action)) => action@ == m,
            (Err(f), Err(e)) => e@ == f,
            _ => false,
        },
{
    let of_drawer = match target.scope {
        BackupScope::Drawer => true,
        _ => false,
    };
    if of_drawer && target.segments.len() <= 2 {
        return Err(Error::invalid_input(owned("drawer restore requires a drawer path")));
    }
    match ensure_path_is_under_root(
        current_directory,
        root_directory,
        target.storage_path.as_str(),
    ) {
        Ok(()) => {},
        Err(e) => {
            return Err(e);
        },
    }
    if !of_drawer {
        return Ok(ClearAction::Directory(owned(target.storage_path.as_str())));
    }
    assert(third(target@.segments) == Some(target.segments@[2]@));
    let names = drawer_files(target.segments[2].as_str());
    let ghost wanted = drawer_file_names(target.segments@[2]@);
    let ghost paths = wanted.map_values(
        |name: Seq<char>| path_joined(target@.storage_path, name),
    );
    let mut files: Vec<String> = Vec::new();
    let mut i: usize = 0;
    assert(texts(files@) =~= paths.take(0));
    while i < names.len()
        invariant
            i <= names.len(),
            texts(names@) == wanted,
            paths == wanted.map_values(
                |name: Seq<char>| path_joined(target@.storage_path, name),
            ),
            texts(files@) == paths.take(i as int),
        decreases names.len() - i,
    {
        let ghost before = texts(files@);
        assert(wanted[i as int] == names@[i as int]@);
        files.push(join_path(target.storage_path.as_str(), names[i].as_str()));
        assert(texts(files@) =~= before.push(paths[i as int]));
        assert(paths.take(i + 1) =~= paths.take(i as int).push(paths[i as int]));
        i = i + 1;
    }
    assert(paths.take(names.len() as int) =~= paths);
    Ok(ClearAction::Files(files))
}

} // verus!
