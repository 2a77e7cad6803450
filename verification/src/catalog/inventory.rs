//! What is kept in databases and drawers: how many records, files and bytes.
use crate::catalog::backup::{drawer_file_names, drawer_files, file_named, find_file};
use crate::catalog::diagnostics::{is_meta_name, is_metadata_file};
use crate::catalog::folder::{FileEntry, Folder};
use crate::error::{bad_data, failure, Error, ErrorKind, Failure};
use crate::fields::{key_order, TextMap};
use crate::paths::{join_path, path_joined};
use crate::storage::types::StorageInventory;
use crate::text::{concat2, concat4, owned, same, texts};
use crate::value::{jsons, parse_json, parsed_json, Json, JsonValue};
use vstd::prelude::*;

verus! {

/// What was counted.
pub struct Tally {
    pub records: int,
    pub bytes: int,
    pub files: int,
}

/// The failure of counts that do not fit in the numbers of the machine.
pub open spec fn too_much() -> Failure {
    failure(ErrorKind::Other, "storage inventory counts are too large"@)
}

/// Whether counts fit in the numbers of the machine.
pub open spec fn fits(tally: Tally) -> bool {
    tally.records <= usize::MAX && tally.bytes <= u64::MAX && tally.files <= usize::MAX
}

/// The number of records that the metadata of a drawer states.
pub open spec fn stated_count(metadata: Json) -> int {
    match metadata.get("record_count"@) {
        Some(v) => match v.unsigned() {
            Some(n) => ((n as u64) as usize) as int,
            None => 0,
        },
        None => 0,
    }
}

/// The number of records that the metadata file of a drawer states, or why it states none.
pub open spec fn metadata_count(path: Seq<char>, bytes: Seq<u8>) -> Result<int, Failure> {
    match parsed_json(bytes) {
        Err(message) => Err(
            bad_data("Failed to parse drawer metadata at "@ + path + ": "@ + message),
        ),
        Ok(metadata) => Ok(stated_count(metadata)),
    }
}

/// The number of records that metadata states.
pub fn stated_record_count(metadata: &JsonValue) -> (r: usize)
    ensures
        r == stated_count(metadata@),
{
    match metadata.get("record_count") {
        Some(v) => match v.as_u64() {
            Some(n) => {
                #[verifier::truncate]
                (n as usize)
            },
            None => 0,
        },
        None => 0,
    }
}

pub fn metadata_record_count(path: &str, contents: &[u8]) -> (r: Result<usize, Error>)
    ensures
        match (metadata_count(path@, contents@), r) {
            (Ok(n), Ok(count)) => count == n,
            (Err(f), Err(e)) => e@ == f,
            _ => false,
        },
{
    match parse_json(contents) {
        Ok(metadata) => Ok(stated_record_count(&metadata)),
        Err(message) => Err(
            Error::invalid_data(
                concat4("Failed to parse drawer metadata at ", path, ": ", message.as_str()),
            ),
        ),
    }
}

/// The counts with one file more.
pub open spec fn file_counted(tally: Tally, path: Seq<char>, file: FileEntry) -> Result<
    Tally,
    Failure,
> {
    let records = if is_meta_name(path) {
        metadata_count(path, file.bytes@)
    } else {
        Ok(0int)
    };
    match records {
        Err(f) => Err(f),
        Ok(n) => {
            let sum = Tally {
                records: tally.records + n,
                bytes: tally.bytes + file.size,
                files: tally.files + 1,
            };
            if fits(sum) {
                Ok(sum)
            } else {
                Err(too_much())
            }
        },
    }
}

/// The counts with the first `n` files more.
pub open spec fn files_counted(tally: Tally, path: Seq<char>, files: Seq<FileEntry>, n: int) -> Result<
    Tally,
    Failure,
>
    decreases n,
{
    if n <= 0 {
        Ok(tally)
    } else {
        match files_counted(tally, path, files, n - 1) {
            Err(f) => Err(f),
            Ok(sum) => file_counted(sum, path_joined(path, files[n - 1].name@), files[n - 1]),
        }
    }
}

/// The counts with what is in a directory and in those below it.
pub open spec fn folder_counted(tally: Tally, path: Seq<char>, folder: Folder) -> Result<
    Tally,
    Failure,
>
    decreases folder, 0int,
{
    match files_counted(tally, path, folder.files@, folder.files@.len() as int) {
        Err(f) => Err(f),
        Ok(sum) => folders_counted(sum, path, folder.folders@, folder.folders@.len() as int),
    }
}

/// The counts with what is in the first `n` directories.
pub open spec fn folders_counted(tally: Tally, path: Seq<char>, folders: Seq<Folder>, n: int) -> Result<
    Tally,
    Failure,
>
    decreases folders, n,
{
    if n <= 0 || n > folders.len() {
        Ok(tally)
    } else {
        match folders_counted(tally, path, folders, n - 1) {
            Err(f) => Err(f),
            Ok(sum) => folder_counted(
                sum,
                path_joined(path, folders[n - 1].name@),
                folders[n - 1],
            ),
        }
    }
}

/// Counts of records, bytes and files.
struct Counts {
    records: usize,
    bytes: u64,
    files: usize,
}

impl Counts {
    spec fn tally(self) -> Tally {
        Tally { records: self.records as int, bytes: self.bytes as int, files: self.files as int }
    }
}

fn count_file(counts: Counts, path: &str, file: &FileEntry) -> (r: Result<Counts, Error>)
    ensures
        match (file_counted(counts.tally(), path@, *file), r) {
            (Ok(t), Ok(sum)) => sum.tally() == t,
            (Err(f), Err(e)) => e@ == f,
            _ => false,
        },
{
    let records: usize = if is_metadata_file(path) {
        match metadata_record_count(path, file.bytes.as_slice()) {
            Ok(n) => n,
            Err(e) => {
                return Err(e);
            },
        }
    } else {
        0
    };
    if records > usize::MAX - counts.records || file.size > u64::MAX - counts.bytes
        || counts.files == usize::MAX {
        return Err(
            Error::new(ErrorKind::Other, owned("storage inventory counts are too large")),
        );
    }
    Ok(
        Counts {
            records: counts.records + records,
            bytes: counts.bytes + file.size,
            files: counts.files + 1,
        },
    )
}

fn accumulate_storage_inventory(counts: Counts, path: &str, folder: &Folder) -> (r: Result<
    Counts,
    Error,
>)
    ensures
        match (folder_counted(counts.tally(), path@, *folder), r) {
            (Ok(t), Ok(sum)) => sum.tally() == t,
            (Err(f), Err(e)) => e@ == f,
            _ => false,
        },
    decreases *folder,
{
    let ghost start = counts.tally();
    let ghost files = folder.files@;
    let ghost folders = folder.folders@;
    let mut sum = counts;
    let mut i: usize = 0;
    while i < folder.files.len()
        invariant
            i <= folder.files.len(),
            files == folder.files@,
            folders == folder.folders@,
            start == counts.tally(),
            files_counted(start, path@, files, i as int) == Ok::<Tally, Failure>(sum.tally()),
        decreases folder.files.len() - i,
    {
        let file = &folder.files[i];
        let place = join_path(path, file.name.as_str());
        match count_file(sum, place.as_str(), file) {
            Ok(more) => {
                sum = more;
            },
            Err(e) => {
                proof {
                    assert(files_counted(start, path@, files, i + 1) == Err::<Tally, Failure>(e@));
                    lemma_files_stop(start, path@, files, i + 1, files.len() as int);
                }
                return Err(e);
            },
        }
        i = i + 1;
    }
    let ghost middle = sum.tally();
    let mut j: usize = 0;
    while j < folder.folders.len()
        invariant
            j <= folder.folders.len(),
            files == folder.files@,
            folders == folder.folders@,
            start == counts.tally(),
            files_counted(start, path@, files, files.len() as int) == Ok::<Tally, Failure>(middle),
            folders_counted(middle, path@, folders, j as int) == Ok::<Tally, Failure>(sum.tally()),
        decreases folder.folders.len() - j,
    {
        let child = &folder.folders[j];
        let place = join_path(path, child.name.as_str());
        proof {
            assert(decreases_to!(*folder => folder.folders));
            assert(decreases_to!(folder.folders => folder.folders@));
            assert(decreases_to!(folder.folders@ => folder.folders@[j as int]));
        }
        match accumulate_storage_inventory(sum, place.as_str(), child) {
            Ok(more) => {
                sum = more;
            },
            Err(e) => {
                proof {
                    assert(folders_counted(middle, path@, folders, j + 1) == Err::<Tally, Failure>(
                        e@,
                    ));
                    lemma_folders_stop(middle, path@, folders, j + 1, folders.len() as int);
                }
                return Err(e);
            },
        }
        j = j + 1;
    }
    Ok(sum)
}

proof fn lemma_files_stop(tally: Tally, path: Seq<char>, files: Seq<FileEntry>, n: int, m: int)
    requires
        0 <= n <= m <= files.len(),
        files_counted(tally, path, files, n) is Err,
    ensures
        files_counted(tally, path, files, m) == files_counted(tally, path, files, n),
    decreases m,
{
    if n < m {
        lemma_files_stop(tally, path, files, n, m - 1);
    }
}

proof fn lemma_folders_stop(tally: Tally, path: Seq<char>, folders: Seq<Folder>, n: int, m: int)
    requires
        0 <= n <= m <= folders.len(),
        folders_counted(tally, path, folders, n) is Err,
    ensures
        folders_counted(tally, path, folders, m) == folders_counted(tally, path, folders, n),
    decreases m,
{
    if n < m {
        lemma_folders_stop(tally, path, folders, n, m - 1);
    }
}

/// What a name stands for on disk.
pub enum Place<'a> {
    Folder(&'a Folder),
    File(&'a FileEntry),
    Nothing,
}

/// The counts of what is at a path.
pub open spec fn place_counted(path: Seq<char>, place: Place) -> Result<Tally, Failure> {
    let none = Tally { records: 0, bytes: 0, files: 0 };
    match place {
        Place::Folder(folder) => folder_counted(none, path, *folder),
        Place::File(file) => file_counted(none, path, *file),
        Place::Nothing => Ok(none),
    }
}

/// Whether the inventory states the counts.
pub open spec fn states(inventory: StorageInventory, name: Seq<char>, tally: Tally) -> bool {
    &&& inventory.name@ == name
    &&& inventory.record_count == tally.records
    &&& inventory.disk_size_bytes == tally.bytes
    &&& inventory.register_file_count == tally.files
}

/// What is kept at a path, under a name.
pub fn storage_inventory(name: String, path: &str, place: Place) -> (r: Result<
    StorageInventory,
    Error,
>)
    ensures
        match (place_counted(path@, place), r) {
            (Ok(tally), Ok(inventory)) => states(inventory, name@, tally),
            (Err(f), Err(e)) => e@ == f,
            _ => false,
        },
{
    let none = Counts { records: 0, bytes: 0, files: 0 };
    let counted = match place {
        Place::Folder(folder) => accumulate_storage_inventory(none, path, folder),
        Place::File(file) => count_file(none, path, file),
        Place::Nothing => Ok(none),
    };
    match counted {
        Ok(counts) => Ok(
            StorageInventory {
                name,
                record_count: counts.records,
                disk_size_bytes: counts.bytes,
                register_file_count: counts.files,
            },
        ),
        Err(e) => Err(e),
    }
}

/// The keys of the records that the first `n` entries of an index leave alive.
pub open spec fn live_keys(entries: Seq<Json>, n: int) -> Set<Seq<char>>
    decreases n,
{
    if n <= 0 {
        Set::empty()
    } else {
        let before = live_keys(entries, n - 1);
        let entry = entries[n - 1];
        match primary_key_of(entry) {
            None => before,
            Some(key) => if is_deletion(entry) {
                before.remove(key)
            } else if entry.get("o"@) matches Some(o) && o.unsigned() is Some {
                before.insert(key)
            } else {
                before
            },
        }
    }
}

/// The primary key that an entry of an index is about.
pub open spec fn primary_key_of(entry: Json) -> Option<Seq<char>> {
    if entry.get_text("f"@) == Some("_id"@) {
        entry.get_text("k"@)
    } else {
        None
    }
}

/// Whether an entry of an index says that a record is gone: its status is zero, or it names no
/// offset.
pub open spec fn is_deletion(entry: Json) -> bool {
    ||| entry.get("status"@) matches Some(s) && s.unsigned() == Some(0int)
    ||| entry.get("o"@) matches Some(Json::Array(offsets)) && offsets.len() == 0
}

/// Whether an entry of an index is about a primary key.
pub open spec fn has_primary(entries: Seq<Json>) -> bool {
    exists|i: int| 0 <= i < entries.len() && primary_key_of(#[trigger] entries[i]) is Some
}

/// How many records an index leaves alive, where it is about primary keys.
pub open spec fn index_count(entries: Seq<Json>) -> Option<int> {
    if has_primary(entries) {
        Some(key_order(live_keys(entries, entries.len() as int)).len() as int)
    } else {
        None
    }
}

fn entry_key(entry: &JsonValue) -> (r: Option<&str>)
    ensures
        crate::text::opt_str(r) == primary_key_of(entry@),
{
    match entry.get_str("f") {
        Some(field) => if same(field, "_id") {
            entry.get_str("k")
        } else {
            None
        },
        None => None,
    }
}

fn entry_is_deletion(entry: &JsonValue) -> (r: bool)
    ensures
        r == is_deletion(entry@),
{
    let gone = match entry.get("status") {
        Some(s) => match s.as_u64() {
            Some(n) => n == 0,
            None => false,
        },
        None => false,
    };
    if gone {
        return true;
    }
    match entry.get("o") {
        Some(o) => match o.as_array() {
            Some(offsets) => offsets.len() == 0,
            None => false,
        },
        None => false,
    }
}

/// How many records an index leaves alive, where it is about primary keys.
pub fn drawer_record_count_from_index(entries: &Vec<JsonValue>) -> (r: Option<usize>)
    ensures
        match (index_count(jsons(entries@)), r) {
            (Some(n), Some(count)) => count == n,
            (None, None) => true,
            _ => false,
        },
{
    let ghost all = jsons(entries@);
    let mut live: TextMap<()> = TextMap::new();
    assert(live@.dom() =~= live_keys(all, 0));
    let mut saw = false;
    let mut i: usize = 0;
    while i < entries.len()
        invariant
            i <= entries.len(),
            all == jsons(entries@),
            live@.dom() == live_keys(all, i as int),
            saw == exists|j: int| 0 <= j < i && primary_key_of(#[trigger] all[j]) is Some,
        decreases entries.len() - i,
    {
        let entry = &entries[i];
        assert(all[i as int] == entry@);
        match entry_key(entry) {
            Some(key) => {
                assert(primary_key_of(all[i as int]) is Some);
                saw = true;
                let at = match entry.get("o") {
                    Some(o) => o.as_u64().is_some(),
                    None => false,
                };
                let ghost before = live@.dom();
                if entry_is_deletion(entry) {
                    let _ = live.remove(key);
                    assert(live@.dom() =~= before.remove(key@));
                } else if at {
                    live.insert(owned(key), ());
                    assert(live@.dom() =~= before.insert(key@));
                }
            },
            None => {
                assert(primary_key_of(all[i as int]) is None);
            },
        }
        i = i + 1;
    }
    if saw {
        Some(live.len())
    } else {
        None
    }
}

/// The sizes of the files of the first `n` names, and how many there are.
pub open spec fn sizes(files: Seq<FileEntry>, names: Seq<Seq<char>>, n: int) -> (int, int)
    decreases n,
{
    if n <= 0 {
        (0, 0)
    } else {
        let before = sizes(files, names, n - 1);
        match file_named(files, names[n - 1], 0) {
            Some(file) => (before.0 + file.size, before.1 + 1),
            None => before,
        }
    }
}

/// How many records a drawer holds: what its index says, else what its metadata states.
pub open spec fn drawer_records(
    files: Seq<FileEntry>,
    drawer: Seq<char>,
    index: Option<&Vec<JsonValue>>,
) -> int {
    let counted = match index {
        Some(entries) => index_count(jsons(entries@)),
        None => None,
    };
    match counted {
        Some(n) => n,
        None => match file_named(files, drawer + "_meta.drw"@, 0) {
            None => 0,
            Some(file) => match parsed_json(file.bytes@) {
                Ok(metadata) => stated_count(metadata),
                Err(_) => 0,
            },
        },
    }
}

/// The counts of a drawer. Where there is no directory, there is nothing.
pub open spec fn drawer_counted(
    folder: Option<&Folder>,
    drawer: Seq<char>,
    index: Option<&Vec<JsonValue>>,
) -> Result<Tally, Failure> {
    match folder {
        None => Ok(Tally { records: 0, bytes: 0, files: 0 }),
        Some(folder) => {
            let (bytes, files) = sizes(folder.files@, drawer_file_names(drawer), 3);
            if bytes > u64::MAX {
                Err(too_much())
            } else {
                Ok(Tally { records: drawer_records(folder.files@, drawer, index), bytes, files })
            }
        },
    }
}

proof fn lemma_sizes_grow(files: Seq<FileEntry>, names: Seq<Seq<char>>, n: int, m: int)
    requires
        0 <= n <= m,
    ensures
        0 <= sizes(files, names, n).0 <= sizes(files, names, m).0,
        0 <= sizes(files, names, n).1 <= n,
    decreases m,
{
    if n < m {
        lemma_sizes_grow(files, names, n, m - 1);
    } else if n > 0 {
        lemma_sizes_grow(files, names, n - 1, n - 1);
    }
}

/// What is kept of a drawer, whose files are in the directory and whose index holds the entries.
pub fn drawer_inventory(
    name: String,
    directory: Option<&Folder>,
    physical_drawer_name: &str,
    index: Option<&Vec<JsonValue>>,
) -> (r: Result<StorageInventory, Error>)
    ensures
        match (drawer_counted(directory, physical_drawer_name@, index), r) {
            (Ok(tally), Ok(inventory)) => states(inventory, name@, tally),
            (Err(f), Err(e)) => e@ == f,
            _ => false,
        },
{
    let folder = match directory {
        Some(folder) => folder,
        None => {
            return Ok(
                StorageInventory {
                    name,
                    record_count: 0,
                    disk_size_bytes: 0,
                    register_file_count: 0,
                },
            );
        },
    };
    let names = drawer_files(physical_drawer_name);
    let ghost wanted = drawer_file_names(physical_drawer_name@);
    let mut disk_size_bytes: u64 = 0;
    let mut register_file_count: usize = 0;
    let mut i: usize = 0;
    assert(names@.len() == texts(names@).len());
    while i < names.len()
        invariant
            i <= names.len(),
            names.len() == 3,
            texts(names@) == wanted,
            disk_size_bytes == sizes(folder.files@, wanted, i as int).0,
            register_file_count == sizes(folder.files@, wanted, i as int).1,
            directory == Some(folder),
            wanted == drawer_file_names(physical_drawer_name@),
        decreases names.len() - i,
    {
        assert(wanted[i as int] == names@[i as int]@);
        proof {
            lemma_sizes_grow(folder.files@, wanted, i as int, 3);
            lemma_sizes_grow(folder.files@, wanted, i + 1, 3);
        }
        match find_file(&folder.files, names[i].as_str()) {
            Some(file) => {
                if file.size > u64::MAX - disk_size_bytes {
                    return Err(
                        Error::new(
                            ErrorKind::Other,
                            owned("storage inventory counts are too large"),
                        ),
                    );
                }
                disk_size_bytes = disk_size_bytes + file.size;
                register_file_count = register_file_count + 1;
            },
            None => {},
        }
        i = i + 1;
    }
    let counted: Option<usize> = match index {
        Some(entries) => drawer_record_count_from_index(entries),
        None => None,
    };
    let record_count: usize = match counted {
        Some(n) => n,
        None => {
            let meta = concat2(physical_drawer_name, "_meta.drw");
            match find_file(&folder.files, meta.as_str()) {
                Some(file) => match parse_json(file.bytes.as_slice()) {
                    Ok(metadata) => stated_record_count(&metadata),
                    Err(_) => 0,
                },
                None => 0,
            }
        },
    };
    Ok(StorageInventory { name, record_count, disk_size_bytes, register_file_count })
}

} // verus!
