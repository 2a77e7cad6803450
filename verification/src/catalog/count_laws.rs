//! How the records and files of a drawer are counted.
use crate::catalog::backup::file_named;
use crate::catalog::folder::FileEntry;
use crate::catalog::inventory::{index_count, is_deletion, live_keys, primary_key_of, sizes};
use crate::fields::lemma_key_order_len;
use crate::value::Json;
use vstd::prelude::*;

verus! {

/// Whether an entry says that the record with a key is there.
pub open spec fn says_alive(entry: Json, key: Seq<char>) -> bool {
    primary_key_of(entry) == Some(key) && !is_deletion(entry) && (entry.get("o"@) matches Some(o)
        && o.unsigned() is Some)
}

/// Whether an entry says that the record with a key is gone.
pub open spec fn says_gone(entry: Json, key: Seq<char>) -> bool {
    primary_key_of(entry) == Some(key) && is_deletion(entry)
}

/// Whether no entry from the `j`-th up to the `n`-th says that the record with a key is gone.
pub open spec fn not_gone(entries: Seq<Json>, key: Seq<char>, j: int, n: int) -> bool {
    forall|k: int| j <= k < n ==> !says_gone(#[trigger] entries[k], key)
}

/// A record is alive where an entry of the index says that it is there and no later one says that
/// it is gone.
pub proof fn law_last_word_counts(entries: Seq<Json>, n: int, key: Seq<char>)
    requires
        0 <= n <= entries.len(),
    ensures
        live_keys(entries, n).contains(key) <==> exists|j: int|
            0 <= j < n && says_alive(#[trigger] entries[j], key) && not_gone(entries, key, j, n),
        live_keys(entries, n).finite(),
    decreases n,
{
    if n > 0 {
        law_last_word_counts(entries, n - 1, key);
        let last = entries[n - 1];
        if says_alive(last, key) {
            assert(not_gone(entries, key, n - 1, n));
        } else if live_keys(entries, n - 1).contains(key) && !says_gone(last, key) {
            let j = choose|j: int|
                0 <= j < n - 1 && says_alive(#[trigger] entries[j], key) && not_gone(
                    entries,
                    key,
                    j,
                    n - 1,
                );
            assert(not_gone(entries, key, j, n));
            assert(says_alive(entries[j], key));
        }
        if exists|j: int|
            0 <= j < n && says_alive(#[trigger] entries[j], key) && not_gone(entries, key, j, n) {
            let j = choose|j: int|
                0 <= j < n && says_alive(#[trigger] entries[j], key) && not_gone(entries, key, j, n);
            assert(!says_gone(entries[n - 1], key));
            if j < n - 1 {
                assert(not_gone(entries, key, j, n - 1));
                assert(says_alive(entries[j], key));
            }
        }
    }
}

/// The records of an index are counted once each, where the index is about primary keys at all.
pub proof fn law_live_records_are_counted(entries: Seq<Json>, key: Seq<char>)
    ensures
        match index_count(entries) {
            Some(n) => n == live_keys(entries, entries.len() as int).len(),
            None => forall|i: int|
                0 <= i < entries.len() ==> primary_key_of(#[trigger] entries[i]) is None,
        },
{
    law_last_word_counts(entries, entries.len() as int, key);
    lemma_key_order_len(live_keys(entries, entries.len() as int));
}

/// Every file of a drawer that is there adds its size and itself to the counts.
pub proof fn law_files_of_a_drawer_add_up(files: Seq<FileEntry>, names: Seq<Seq<char>>, n: int)
    requires
        0 < n <= names.len(),
    ensures
        match file_named(files, names[n - 1], 0) {
            Some(file) => sizes(files, names, n).0 == sizes(files, names, n - 1).0 + file.size
                && sizes(files, names, n).1 == sizes(files, names, n - 1).1 + 1,
            None => sizes(files, names, n) == sizes(files, names, n - 1),
        },
        sizes(files, names, 0) == (0int, 0int),
{
}

} // verus!
