//! What the catalog finds in the files of the storage.
use crate::catalog::diagnostics::{drawer_of_file, is_meta_name};
use crate::catalog::discovery::{
    has_drawers, has_layout, prefix_schema, prefix_tenant, schemas_found,
};
use crate::catalog::drawers::{drawers_among, drawers_found, logical_name};
use crate::catalog::databases::folder_named;
use crate::catalog::folder::{FileEntry, Folder};
use crate::catalog::inventory::{
    files_counted, folder_counted, folders_counted, stated_count, Tally,
};
use crate::error::Failure;
use crate::paths::{last_name, path_joined, piece_parts};
use crate::text::{
    cut_last, cut_once, ends_with, first_index, last_index, lemma_first_index, lemma_last_index,
    split_parts, starts_with,
};
use crate::value::parsed_json;
use vstd::prelude::*;

verus! {

/// Whether a text is the name of one file or directory.
pub open spec fn is_entry_name(name: Seq<char>) -> bool {
    name.len() > 0 && !name.contains('/') && name != "."@ && name != ".."@
}

proof fn lemma_last_name(name: Seq<char>)
    requires
        is_entry_name(name),
    ensures
        last_name(name) == Some(name),
{
    reveal_strlit("/");
    lemma_first_index(name, '/', 0);
    crate::text::laws::lemma_split_pieces(name, '/', 0);
    reveal_with_fuel(piece_parts, 3);
    let j = first_index(name, '/', 0);
    if j < name.len() {
        assert(name[j] == '/');
    }
    assert(split_parts(name, '/') =~= seq![name]) by {
        assert(name.subrange(0, name.len() as int) =~= name);
    }
    if starts_with(name, "/"@) {
        assert(name.subrange(0, 1) == "/"@);
        assert(name[0] == name.subrange(0, 1)[0]);
    }
}

proof fn lemma_cut_last_exact(a: Seq<char>, c: char, b: Seq<char>)
    requires
        !b.contains(c),
    ensures
        cut_last(a + seq![c] + b, c) == Some((a, b)),
{
    let s = a + seq![c] + b;
    lemma_last_index(s, c, s.len() as int);
    let j = last_index(s, c, s.len() as int);
    assert(s[a.len() as int] == c);
    if j > a.len() {
        assert(b[j - a.len() - 1] == s[j]);
        assert(b.contains(c));
    }
    assert(j == a.len());
    assert(s.subrange(0, j) =~= a);
    assert(s.subrange(j + 1, s.len() as int) =~= b);
}

/// A file holds the records of a drawer exactly where its name is that of the drawer with the
/// ending of data files. The index and the metadata of a drawer, and the catalog, end alike and
/// hold none.
pub proof fn law_data_files_name_their_drawer(name: Seq<char>, drawer: Seq<char>)
    requires
        is_entry_name(name),
    ensures
        drawer_of_file(name) == Some(drawer) <==> name == drawer + ".drw"@ && drawer.len() > 0
            && drawer != ".catalog"@ && !ends_with(drawer, "_index"@) && !ends_with(
            drawer,
            "_meta"@,
        ),
        is_meta_name(name) <==> exists|front: Seq<char>| #[trigger]
            (front + "_meta"@) + ".drw"@ == name,
{
    reveal_strlit(".drw");
    reveal_strlit("drw");
    reveal_strlit("_meta");
    lemma_last_name(name);
    assert(".drw"@ =~= seq!['.'] + "drw"@);
    assert(!"drw"@.contains('.'));
    if name == drawer + ".drw"@ {
        assert(name =~= drawer + seq!['.'] + "drw"@);
        lemma_cut_last_exact(drawer, '.', "drw"@);
    }
    lemma_last_index(name, '.', name.len() as int);
    match cut_last(name, '.') {
        Some((stem, extension)) => {
            let j = last_index(name, '.', name.len() as int);
            assert(name =~= stem + seq!['.'] + extension);
            if extension == "drw"@ {
                assert(name =~= stem + ".drw"@);
                if name == drawer + ".drw"@ {
                    assert(stem =~= drawer);
                }
                if ends_with(stem, "_meta"@) {
                    let front = stem.subrange(0, stem.len() - 5);
                    assert(stem.subrange(stem.len() - 5, stem.len() as int) == "_meta"@);
                    assert(front + "_meta"@ =~= stem);
                    assert((front + "_meta"@) + ".drw"@ == name);
                }
            }
        },
        None => {},
    }
    if exists|front: Seq<char>| #[trigger] (front + "_meta"@) + ".drw"@ == name {
        let front = choose|front: Seq<char>| #[trigger] (front + "_meta"@) + ".drw"@ == name;
        let stem = front + "_meta"@;
        assert(name =~= stem + seq!['.'] + "drw"@);
        lemma_cut_last_exact(stem, '.', "drw"@);
        assert(stem.subrange(stem.len() - 5, stem.len() as int) =~= "_meta"@);
    }
}

proof fn lemma_cut_once_exact(s: Seq<char>, c: char, a: Seq<char>, b: Seq<char>)
    ensures
        cut_once(s, c) == Some((a, b)) <==> s == a + seq![c] + b && !a.contains(c),
{
    lemma_first_index(s, c, 0);
    let j = first_index(s, c, 0);
    if cut_once(s, c) == Some((a, b)) {
        assert(s =~= a + seq![c] + b);
        if a.contains(c) {
            let k = choose|k: int| 0 <= k < a.len() && a[k] == c;
            assert(s[k] == c);
        }
    }
    if s == a + seq![c] + b && !a.contains(c) {
        assert(s[a.len() as int] == c);
        if j < a.len() {
            assert(a[j] == s[j]);
            assert(a.contains(c));
        }
        assert(j == a.len());
        assert(s.subrange(0, j) =~= a);
        assert(s.subrange(j + 1, s.len() as int) =~= b);
    }
}

/// A data file in the directory of a database belongs to the schema before the first dot of its
/// drawer's name, and one in the directory of several tenants to the tenant before the last
/// underscore.
pub proof fn law_data_files_name_schema_and_tenant(
    file: Seq<char>,
    first: Seq<char>,
    rest: Seq<char>,
)
    requires
        rest.len() > 0,
        first.len() > 0,
    ensures
        drawer_of_file(file) == Some(first + seq!['.'] + rest) && !first.contains('.')
            ==> prefix_schema(file) == Some(first) && logical_name(file, Some(first)) == Some(rest),
        prefix_schema(file) == Some(first) ==> (drawer_of_file(file) matches Some(drawer)
            && exists|more: Seq<char>|
            more.len() > 0 && drawer == #[trigger] (first + seq!['.'] + more)),
        logical_name(file, Some(first)) == Some(rest) <==> drawer_of_file(file) == Some(
            first + seq!['.'] + rest,
        ) && !first.contains('.'),
        logical_name(file, None) == drawer_of_file(file),
        drawer_of_file(file) == Some(first + seq!['_'] + rest) && !rest.contains('_')
            ==> prefix_tenant(file) == Some(first),
        drawer_of_file(file) is None ==> prefix_tenant(file) is None && prefix_schema(file) is None,
{
    match drawer_of_file(file) {
        Some(drawer) => {
            lemma_cut_once_exact(drawer, '.', first, rest);
            match cut_once(drawer, '.') {
                Some((a, b)) => {
                    lemma_cut_once_exact(drawer, '.', a, b);
                    assert(drawer == a + seq!['.'] + b);
                },
                None => {},
            }
            if drawer == first + seq!['_'] + rest && !rest.contains('_') {
                lemma_cut_last_exact(first, '_', rest);
            }
        },
        None => {},
    }
}

/// Whether a directory holds the data file of a drawer.
pub open spec fn holds_drawer(files: Seq<FileEntry>, drawer: Seq<char>) -> bool {
    exists|i: int|
        0 <= i < files.len() && drawer_of_file((#[trigger] files[i]).name@) == Some(drawer)
}

proof fn lemma_drawers_among(
    directory: Seq<char>,
    files: Seq<FileEntry>,
    flat: Option<Seq<char>>,
    n: int,
    found: Map<Seq<char>, (Seq<char>, Seq<char>)>,
    name: Seq<char>,
)
    requires
        0 <= n <= files.len(),
    ensures
        drawers_among(directory, files, flat, n, found).dom().contains(name) <==> found.dom().contains(
            name,
        ) || exists|i: int|
            0 <= i < n && logical_name((#[trigger] files[i]).name@, flat) == Some(name),
        drawers_among(directory, files, flat, n, found).dom().contains(name) ==> drawers_among(
            directory,
            files,
            flat,
            n,
            found,
        )[name] == (if exists|i: int|
            0 <= i < n && logical_name((#[trigger] files[i]).name@, flat) == Some(name) {
            (directory, drawers_among(directory, files, flat, n, found)[name].1)
        } else {
            found[name]
        }),
    decreases n,
{
    if n > 0 {
        lemma_drawers_among(directory, files, flat, n - 1, found, name);
        assert(logical_name(files[n - 1].name@, flat) == Some(name) || logical_name(
            files[n - 1].name@,
            flat,
        ) != Some(name));
    }
}

/// The drawers of a schema are those whose data files are in the directory of the schema, and
/// those in the directory of the database whose names start with the schema and a dot.
pub proof fn law_every_drawer_is_found(
    path: Seq<char>,
    folder: Folder,
    schema: Seq<char>,
    drawer: Seq<char>,
    at: int,
)
    requires
        schema.len() > 0,
        drawer.len() > 0,
        0 <= at <= folder.folders@.len(),
        at < folder.folders@.len() ==> folder.folders@[at].name@ == schema,
        forall|i: int| 0 <= i < at ==> (#[trigger] folder.folders@[i]).name@ != schema,
    ensures
        drawers_found(path, Some(&folder), schema).dom().contains(drawer) <==> (at
            < folder.folders@.len() && holds_drawer(folder.folders@[at].files@, drawer)) || (
        !schema.contains('.') && holds_drawer(folder.files@, schema + seq!['.'] + drawer)),
        drawers_found(path, None, schema).dom() =~= Set::<Seq<char>>::empty(),
{
    lemma_folder_named(folder.folders@, schema, 0, at);
    let own = folder.files@;
    let nested = match folder_named(folder.folders@, schema, 0) {
        Some(k) => drawers_among(
            path_joined(path, schema),
            folder.folders@[k].files@,
            None,
            folder.folders@[k].files@.len() as int,
            Map::empty(),
        ),
        None => Map::empty(),
    };
    lemma_drawers_among(path, own, Some(schema), own.len() as int, nested, drawer);
    assert forall|i: int| 0 <= i < own.len() implies (logical_name(
        (#[trigger] own[i]).name@,
        Some(schema),
    ) == Some(drawer) <==> drawer_of_file(own[i].name@) == Some(schema + seq!['.'] + drawer)
        && !schema.contains('.')) by {
        law_data_files_name_schema_and_tenant(own[i].name@, schema, drawer);
    }
    if at < folder.folders@.len() {
        let files = folder.folders@[at].files@;
        lemma_drawers_among(
            path_joined(path, schema),
            files,
            None,
            files.len() as int,
            Map::empty(),
            drawer,
        );
        assert forall|i: int| 0 <= i < files.len() implies logical_name(
            (#[trigger] files[i]).name@,
            None,
        ) == drawer_of_file(files[i].name@) by {}
    }
}

proof fn lemma_folder_named(folders: Seq<Folder>, name: Seq<char>, i: int, at: int)
    requires
        0 <= i <= at <= folders.len(),
        at < folders.len() ==> folders[at].name@ == name,
        forall|j: int| i <= j < at ==> (#[trigger] folders[j]).name@ != name,
    ensures
        folder_named(folders, name, i) == if at < folders.len() {
            Some(at)
        } else {
            None
        },
    decreases at - i,
{
    if i < at {
        lemma_folder_named(folders, name, i + 1, at);
    }
}

/// The schemas of a database are the directories in it that hold drawers, and what stands before
/// the dot in the names of the drawers in its own directory.
pub proof fn law_every_schema_is_found(
    database: Folder,
    schema: Seq<char>,
    i: int,
    rest: Seq<char>,
)
    ensures
        0 <= i < database.folders@.len() && database.folders@[i].name@ == schema && (exists|
            d: Seq<char>,
        | #[trigger] holds_drawer(database.folders@[i].files@, d)) ==> schemas_found(
            database,
        ).contains(schema),
        schema.len() > 0 && rest.len() > 0 && !schema.contains('.') && holds_drawer(
            database.files@,
            schema + seq!['.'] + rest,
        ) ==> schemas_found(database).contains(schema),
        (forall|d: Seq<char>| !(#[trigger] holds_drawer(database.files@, d))) && (forall|
            k: int,
            d: Seq<char>,
        |
            0 <= k < database.folders@.len() ==> !(#[trigger] holds_drawer(
                database.folders@[k].files@,
                d,
            ))) ==> !schemas_found(database).contains(schema),
{
    if 0 <= i < database.folders@.len() {
        let folder = database.folders@[i];
        if exists|d: Seq<char>| #[trigger] holds_drawer(folder.files@, d) {
            let d = choose|d: Seq<char>| #[trigger] holds_drawer(folder.files@, d);
            let j = choose|j: int|
                0 <= j < folder.files@.len() && drawer_of_file(
                    (#[trigger] folder.files@[j]).name@,
                ) == Some(d);
            assert(drawer_of_file(folder.files@[j].name@) is Some);
            assert(has_drawers(database.folders@[i]));
        }
    }
    if schema.len() > 0 && rest.len() > 0 && !schema.contains('.') && holds_drawer(
        database.files@,
        schema + seq!['.'] + rest,
    ) {
        let j = choose|j: int|
            0 <= j < database.files@.len() && drawer_of_file(
                (#[trigger] database.files@[j]).name@,
            ) == Some(schema + seq!['.'] + rest);
        law_data_files_name_schema_and_tenant(database.files@[j].name@, schema, rest);
    }
    if (forall|d: Seq<char>| !(#[trigger] holds_drawer(database.files@, d))) && (forall|
        k: int,
        d: Seq<char>,
    |
        0 <= k < database.folders@.len() ==> !(#[trigger] holds_drawer(
            database.folders@[k].files@,
            d,
        ))) {
        if exists|k: int|
            0 <= k < database.folders@.len() && has_drawers(#[trigger] database.folders@[k])
                && database.folders@[k].name@ == schema {
            let k = choose|k: int|
                0 <= k < database.folders@.len() && has_drawers(#[trigger] database.folders@[k])
                    && database.folders@[k].name@ == schema;
            let files = database.folders@[k].files@;
            let j = choose|j: int|
                0 <= j < files.len() && drawer_of_file((#[trigger] files[j]).name@) is Some;
            assert(holds_drawer(files, drawer_of_file(files[j].name@)->0));
        }
        if exists|j: int|
            0 <= j < database.files@.len() && prefix_schema((#[trigger] database.files@[j]).name@)
                == Some(schema) {
            let j = choose|j: int|
                0 <= j < database.files@.len() && prefix_schema(
                    (#[trigger] database.files@[j]).name@,
                ) == Some(schema);
            let d = drawer_of_file(database.files@[j].name@)->0;
            assert(holds_drawer(database.files@, d));
        }
    }
}

/// A directory is that of a database where it, or one directly in it, holds a drawer.
pub proof fn law_database_directories_hold_drawers(folder: Folder)
    ensures
        has_layout(folder) <==> (exists|d: Seq<char>| #[trigger] holds_drawer(folder.files@, d))
            || exists|i: int, d: Seq<char>|
            0 <= i < folder.folders@.len() && #[trigger] holds_drawer(folder.folders@[i].files@, d),
{
    if has_drawers(folder) {
        let j = choose|j: int|
            0 <= j < folder.files@.len() && drawer_of_file((#[trigger] folder.files@[j]).name@)
                is Some;
        assert(holds_drawer(folder.files@, drawer_of_file(folder.files@[j].name@)->0));
    }
    if exists|d: Seq<char>| #[trigger] holds_drawer(folder.files@, d) {
        let d = choose|d: Seq<char>| #[trigger] holds_drawer(folder.files@, d);
        let j = choose|j: int|
            0 <= j < folder.files@.len() && drawer_of_file((#[trigger] folder.files@[j]).name@)
                == Some(d);
        assert(drawer_of_file(folder.files@[j].name@) is Some);
    }
    if exists|i: int| 0 <= i < folder.folders@.len() && has_drawers(#[trigger] folder.folders@[i]) {
        let i = choose|i: int|
            0 <= i < folder.folders@.len() && has_drawers(#[trigger] folder.folders@[i]);
        let files = folder.folders@[i].files@;
        let j = choose|j: int|
            0 <= j < files.len() && drawer_of_file((#[trigger] files[j]).name@) is Some;
        assert(holds_drawer(files, drawer_of_file(files[j].name@)->0));
    }
    if exists|i: int, d: Seq<char>|
        0 <= i < folder.folders@.len() && #[trigger] holds_drawer(folder.folders@[i].files@, d) {
        let (i, d) = choose|i: int, d: Seq<char>|
            0 <= i < folder.folders@.len() && #[trigger] holds_drawer(folder.folders@[i].files@, d);
        let files = folder.folders@[i].files@;
        let j = choose|j: int|
            0 <= j < files.len() && drawer_of_file((#[trigger] files[j]).name@) == Some(d);
        assert(drawer_of_file(files[j].name@) is Some);
        assert(has_drawers(folder.folders@[i]));
    }
}

/// The bytes of some files together.
pub open spec fn bytes_of(files: Seq<FileEntry>) -> int {
    files.fold_left(0int, |sum: int, file: FileEntry| sum + file.size)
}

proof fn lemma_bytes_push(files: Seq<FileEntry>, n: int)
    requires
        0 < n <= files.len(),
    ensures
        bytes_of(files.take(n)) == bytes_of(files.take(n - 1)) + files[n - 1].size,
{
    let f = |sum: int, file: FileEntry| sum + file.size;
    assert(files.take(n).drop_last() =~= files.take(n - 1));
    assert(files.take(n).last() == files[n - 1]);
}

/// What a directory is counted as: every file in it counts, and so does every byte; the records
/// are those that the metadata files state.
pub proof fn law_every_file_is_counted(tally: Tally, path: Seq<char>, files: Seq<FileEntry>, n: int)
    requires
        0 <= n <= files.len(),
    ensures
        files_counted(tally, path, files, n) matches Ok(sum) ==> sum.files == tally.files + n
            && sum.bytes == tally.bytes + bytes_of(files.take(n)),
        n > 0 ==> (files_counted(tally, path, files, n) matches Ok(sum) ==> (files_counted(
            tally,
            path,
            files,
            n - 1,
        ) matches Ok(before) && sum.records == before.records + if is_meta_name(
            path_joined(path, files[n - 1].name@),
        ) {
            stated_count(parsed_json(files[n - 1].bytes@)->Ok_0)
        } else {
            0
        })),
    decreases n,
{
    if n > 0 {
        law_every_file_is_counted(tally, path, files, n - 1);
        lemma_bytes_push(files, n);
    } else {
        assert(files.take(0) =~= Seq::empty());
    }
}

/// The records that metadata states are those of its count; none where there is no count.
pub proof fn law_metadata_states_the_count(metadata: crate::value::Json, n: u64)
    ensures
        metadata.get("record_count"@) == Some(
            crate::value::Json::Number(crate::value::Number::PosInt(n)),
        ) && n <= usize::MAX ==> stated_count(metadata) == n,
        metadata.get("record_count"@) is None ==> stated_count(metadata) == 0,
{
}

/// What is in the directories of a directory counts as well, however deep, with what is in its
/// own files.
pub proof fn law_directories_are_counted(tally: Tally, path: Seq<char>, folder: Folder)
    ensures
        folder_counted(tally, path, folder) matches Ok(sum) ==> {
            let own = files_counted(tally, path, folder.files@, folder.files@.len() as int);
            &&& own is Ok
            &&& sum.files >= tally.files + folder.files@.len()
            &&& sum.bytes >= tally.bytes + bytes_of(folder.files@)
            &&& folder.folders@.len() == 0 ==> sum == own->Ok_0 && sum.files == tally.files
                + folder.files@.len() && sum.bytes == tally.bytes + bytes_of(folder.files@)
            &&& folder.folders@.len() == 1 ==> folder_counted(
                own->Ok_0,
                path_joined(path, folder.folders@[0].name@),
                folder.folders@[0],
            ) == Ok::<Tally, Failure>(sum)
        },
    decreases folder, 0int,
{
    law_every_file_is_counted(tally, path, folder.files@, folder.files@.len() as int);
    assert(folder.files@.take(folder.files@.len() as int) =~= folder.files@);
    let own = files_counted(tally, path, folder.files@, folder.files@.len() as int);
    let n = folder.folders@.len() as int;
    reveal_with_fuel(folders_counted, 2);
    if own is Ok {
        assert(decreases_to!(folder => folder.folders));
        assert(decreases_to!(folder.folders => folder.folders@));
        lemma_folders_grow(own->Ok_0, path, folder.folders@, n);
    }
}

proof fn lemma_folders_grow(tally: Tally, path: Seq<char>, folders: Seq<Folder>, n: int)
    requires
        0 <= n <= folders.len(),
    ensures
        folders_counted(tally, path, folders, n) matches Ok(sum) ==> sum.files >= tally.files
            && sum.bytes >= tally.bytes,
    decreases folders, n,
{
    if n > 0 {
        lemma_folders_grow(tally, path, folders, n - 1);
        match folders_counted(tally, path, folders, n - 1) {
            Ok(sum) => {
                assert(decreases_to!(folders => folders[n - 1]));
                let inner = path_joined(path, folders[n - 1].name@);
                law_directories_are_counted(sum, inner, folders[n - 1]);
                lemma_bytes_positive(folders[n - 1].files@);
            },
            Err(_) => {},
        }
    }
}

proof fn lemma_bytes_positive(files: Seq<FileEntry>)
    ensures
        bytes_of(files) >= 0,
    decreases files.len(),
{
    if files.len() > 0 {
        lemma_bytes_positive(files.drop_last());
        lemma_bytes_push(files, files.len() as int);
        assert(files.take(files.len() as int) =~= files);
        assert(files.take(files.len() - 1) =~= files.drop_last());
    }
}

} // verus!
