//! What comes of an operation on several records: the outcomes of its parts, put together. The
//! first part that fails is what the operation fails with.
use crate::command::results::DeleteResult;
use crate::database_execution::cabinets::{
    cabinets, find_by_id_in_database, is_pointer_reading, read_at_pointer,
    without_key, Cabinet, CabinetModel,
};
use crate::deletion::{flag_outcome, pointers_of, removed, Deletion, DeletionModel};
use crate::drawer::migration::{
    can_store, Migrated, MigratedModel, MigrationReads, MigrationWrite, MigrationWrites,
};
use crate::drawer::replay::is_outdated;
use crate::error::{Error, Failure};
use crate::fields::TextMap;
use crate::pointer::{parse_pointer, pointer_parts};
use crate::text::{copy_strings, owned, texts};
use crate::value::{jsons, opt_value, Json, JsonValue};
use vstd::prelude::*;

verus! {

/// A copy of an error.
fn copy_error(e: &Error) -> (r: Error)
    ensures
        r@ == e@,
{
    Error::new(e.kind, owned(e.message.as_str()))
}

/// How many of the deletes from position `i` on found a record, besides `found` before them.
pub open spec fn deletes_from(outcomes: Seq<Result<bool, Error>>, i: int, found: nat) -> Result<
    nat,
    Failure,
>
    decreases outcomes.len() - i,
{
    if i < 0 || i >= outcomes.len() {
        Ok(found)
    } else {
        match flag_outcome(outcomes[i]) {
            Err(f) => Err(f),
            Ok(deleted) => deletes_from(
                outcomes,
                i + 1,
                if deleted {
                    found + 1
                } else {
                    found
                },
            ),
        }
    }
}

/// The result of deleting the records at several pointers, one after another.
pub fn sum_deletes(outcomes: &Vec<Result<bool, Error>>) -> (r: Result<DeleteResult, Error>)
    ensures
        match (deletes_from(outcomes@, 0, 0), r) {
            (Ok(n), Ok(result)) => result.deleted == n,
            (Err(f), Err(e)) => e@ == f,
            _ => false,
        },
{
    let mut deleted: usize = 0;
    let mut i: usize = 0;
    while i < outcomes.len()
        invariant
            deleted <= i <= outcomes@.len(),
            deletes_from(outcomes@, 0, 0) == deletes_from(outcomes@, i as int, deleted as nat),
        decreases outcomes@.len() - i,
    {
        match &outcomes[i] {
            Ok(found) => {
                if *found {
                    deleted = deleted + 1;
                }
            },
            Err(e) => {
                return Err(copy_error(e));
            },
        }
        i = i + 1;
    }
    Ok(DeleteResult { deleted })
}

/// The result of deleting the records that a query finds.
pub fn filtered_deletes(outcome: Result<usize, Error>) -> (r: Result<DeleteResult, Error>)
    ensures
        match outcome {
            Ok(n) => r == Ok::<DeleteResult, Error>(DeleteResult { deleted: n }),
            Err(e) => r == Err::<DeleteResult, Error>(e),
        },
{
    match outcome {
        Ok(deleted) => Ok(DeleteResult { deleted }),
        Err(e) => Err(e),
    }
}

/// What is found at a pointer.
pub open spec fn found_outcome(r: Result<Option<JsonValue>, Error>) -> Result<Option<Json>, Failure> {
    match r {
        Ok(record) => Ok(opt_value(record)),
        Err(e) => Err(e@),
    }
}

/// The records that are found from position `i` on, behind those before.
pub open spec fn found_from(
    outcomes: Seq<Result<Option<JsonValue>, Error>>,
    i: int,
    found: Seq<Json>,
) -> Result<Seq<Json>, Failure>
    decreases outcomes.len() - i,
{
    if i < 0 || i >= outcomes.len() {
        Ok(found)
    } else {
        match found_outcome(outcomes[i]) {
            Err(f) => Err(f),
            Ok(Some(record)) => found_from(outcomes, i + 1, found.push(record)),
            Ok(None) => found_from(outcomes, i + 1, found),
        }
    }
}

/// The records that were found at several pointers.
pub fn collect_records(outcomes: &Vec<Result<Option<JsonValue>, Error>>) -> (r: Result<
    Vec<JsonValue>,
    Error,
>)
    ensures
        match (found_from(outcomes@, 0, Seq::empty()), r) {
            (Ok(all), Ok(records)) => jsons(records@) == all,
            (Err(f), Err(e)) => e@ == f,
            _ => false,
        },
{
    let mut records: Vec<JsonValue> = Vec::new();
    let mut i: usize = 0;
    assert(jsons(records@) =~= Seq::empty());
    while i < outcomes.len()
        invariant
            i <= outcomes@.len(),
            found_from(outcomes@, 0, Seq::empty()) == found_from(
                outcomes@,
                i as int,
                jsons(records@),
            ),
        decreases outcomes@.len() - i,
    {
        match &outcomes[i] {
            Ok(Some(record)) => {
                let ghost before = jsons(records@);
                records.push(record.clone());
                assert(jsons(records@) =~= before.push(record@));
            },
            Ok(None) => {},
            Err(e) => {
                return Err(copy_error(e));
            },
        }
        i = i + 1;
    }
    Ok(records)
}

/// How many records were found at several pointers.
pub fn count_existing_pointers(outcomes: &Vec<Result<Option<JsonValue>, Error>>) -> (r: Result<
    usize,
    Error,
>)
    ensures
        match (found_from(outcomes@, 0, Seq::empty()), r) {
            (Ok(all), Ok(n)) => n == all.len(),
            (Err(f), Err(e)) => e@ == f,
            _ => false,
        },
{
    let mut count: usize = 0;
    let ghost mut found: Seq<Json> = Seq::empty();
    let mut i: usize = 0;
    while i < outcomes.len()
        invariant
            count == found.len(),
            count <= i <= outcomes@.len(),
            found_from(outcomes@, 0, Seq::empty()) == found_from(outcomes@, i as int, found),
        decreases outcomes@.len() - i,
    {
        match &outcomes[i] {
            Ok(Some(record)) => {
                proof {
                    found = found.push(record@);
                }
                count = count + 1;
            },
            Ok(None) => {},
            Err(e) => {
                return Err(copy_error(e));
            },
        }
        i = i + 1;
    }
    Ok(count)
}

/// The pointers that the writes from position `i` on gave, behind those before.
pub open spec fn pointers_from(
    outcomes: Seq<Result<Vec<String>, Error>>,
    i: int,
    found: Seq<Seq<char>>,
) -> Result<Seq<Seq<char>>, Failure>
    decreases outcomes.len() - i,
{
    if i < 0 || i >= outcomes.len() {
        Ok(found)
    } else {
        match outcomes[i] {
            Err(e) => Err(e@),
            Ok(pointers) => pointers_from(outcomes, i + 1, found + texts(pointers@)),
        }
    }
}

/// The pointers to the records that several writes gave.
pub fn collect_pointers(outcomes: &Vec<Result<Vec<String>, Error>>) -> (r: Result<
    Vec<String>,
    Error,
>)
    ensures
        match (pointers_from(outcomes@, 0, Seq::empty()), r) {
            (Ok(all), Ok(pointers)) => texts(pointers@) == all,
            (Err(f), Err(e)) => e@ == f,
            _ => false,
        },
{
    let mut all: Vec<String> = Vec::new();
    let mut i: usize = 0;
    assert(texts(all@) =~= Seq::empty());
    while i < outcomes.len()
        invariant
            i <= outcomes@.len(),
            pointers_from(outcomes@, 0, Seq::empty()) == pointers_from(
                outcomes@,
                i as int,
                texts(all@),
            ),
        decreases outcomes@.len() - i,
    {
        match &outcomes[i] {
            Ok(pointers) => {
                let ghost before = all@;
                let mut more = copy_strings(pointers);
                let ghost added = more@;
                all.append(&mut more);
                assert(all@ =~= before + added);
                assert(texts(all@) =~= texts(before) + texts(added));
            },
            Err(e) => {
                return Err(copy_error(e));
            },
        }
        i = i + 1;
    }
    Ok(all)
}

/// How many of the first `n` records match.
pub open spec fn matching(matches: Seq<bool>, n: int) -> nat
    decreases n,
{
    if n <= 0 {
        0
    } else if matches[n - 1] {
        matching(matches, n - 1) + 1
    } else {
        matching(matches, n - 1)
    }
}

/// How many of the records of a drawer a filter finds, where each was held against it.
pub fn count_matching(matches: &Vec<bool>) -> (r: usize)
    ensures
        r == matching(matches@, matches@.len() as int),
{
    let mut count: usize = 0;
    let mut i: usize = 0;
    while i < matches.len()
        invariant
            count <= i <= matches@.len(),
            count == matching(matches@, i as int),
        decreases matches@.len() - i,
    {
        if matches[i] {
            count = count + 1;
        }
        i = i + 1;
    }
    count
}

/// Deleting the records at the pointers from position `i` on, one after another, up to the first
/// that fails: what is left, and how many there were, besides `found` before them.
pub open spec fn deleted_from(
    state: DeletionModel,
    pointers: Seq<Seq<char>>,
    i: int,
    found: nat,
) -> (DeletionModel, Result<nat, Failure>)
    decreases pointers.len() - i,
{
    if i < 0 || i >= pointers.len() {
        (state, Ok(found))
    } else {
        let outcome = removed(state, pointers[i], Set::empty(), pointers_of(state.store));
        match outcome.result {
            Err(f) => (outcome.state, Err(f)),
            Ok(deleted) => deleted_from(
                outcome.state,
                pointers,
                i + 1,
                if deleted {
                    found + 1
                } else {
                    found
                },
            ),
        }
    }
}

/// Deletes the records at several pointers, one after another, and what hangs on them. The first
/// that fails ends it, and what was deleted until then stays so.
pub fn delete_pointers(deletion: &mut Deletion, pointers: &Vec<String>) -> (r: Result<
    DeleteResult,
    Error,
>)
    ensures
        ({
            let (state, counted) = deleted_from(old(deletion)@, texts(pointers@), 0, 0);
            &&& final(deletion)@ == state
            &&& match (counted, r) {
                (Ok(n), Ok(result)) => result.deleted == n,
                (Err(f), Err(e)) => e@ == f,
                _ => false,
            }
        }),
{
    let ghost names = texts(pointers@);
    let mut deleted: usize = 0;
    let mut i: usize = 0;
    while i < pointers.len()
        invariant
            names == texts(pointers@),
            deleted <= i <= pointers@.len(),
            deleted_from(old(deletion)@, names, 0, 0) == deleted_from(
                deletion@,
                names,
                i as int,
                deleted as nat,
            ),
        decreases pointers@.len() - i,
    {
        assert(names[i as int] == pointers@[i as int]@);
        match deletion.delete_by_id_in_database_unlogged(pointers[i].as_str()) {
            Ok(found) => {
                if found {
                    deleted = deleted + 1;
                }
            },
            Err(e) => {
                return Err(e);
            },
        }
        i = i + 1;
    }
    Ok(DeleteResult { deleted })
}

/// What reading the records at several pointers leaves and gives: the drawers then, each reading,
/// the records, and why the last reading failed.
#[verifier::ext_equal]
pub struct PointersRead {
    pub drawers: Map<Seq<char>, CabinetModel>,
    pub reads: Seq<Option<MigratedModel>>,
    pub found: Seq<Json>,
    pub failure: Option<Failure>,
}

/// Where the records of the drawer that a pointer names can go if they are stored anew.
pub open spec fn writes_for(
    writes: Map<Seq<char>, MigrationWrites>,
    pointer: Seq<char>,
) -> Map<u64, MigrationWrite> {
    match pointer_parts(pointer) {
        Some((name, _)) => if writes.dom().contains(name) {
            writes[name]@
        } else {
            Map::empty()
        },
        None => Map::empty(),
    }
}

/// Whether it is known of each record of each drawer where it can go if it is stored anew.
pub open spec fn all_can_store(
    drawers: Map<Seq<char>, Cabinet>,
    writes: Map<Seq<char>, MigrationWrites>,
) -> bool {
    forall|name: Seq<char>| #[trigger]
        drawers.dom().contains(name) && is_outdated(drawers[name].drawer@.format_version)
            ==> writes.dom().contains(name) && can_store(
            drawers[name].drawer@,
            drawers[name].records,
            writes[name],
        )
}

/// Reading the records at the first `n` pointers, one after another, up to the first that fails.
pub open spec fn read_at_pointers(
    all: Map<Seq<char>, CabinetModel>,
    pointers: Seq<Seq<char>>,
    writes: Map<Seq<char>, MigrationWrites>,
    n: int,
) -> PointersRead
    decreases n,
{
    if n <= 0 {
        PointersRead { drawers: all, reads: Seq::empty(), found: Seq::empty(), failure: None }
    } else {
        let before = read_at_pointers(all, pointers, writes, n - 1);
        if before.failure is Some {
            before
        } else {
            let (after, read) = read_at_pointer(
                before.drawers,
                pointers[n - 1],
                writes_for(writes, pointers[n - 1]),
            );
            match read {
                Err(f) => PointersRead { failure: Some(f), ..before },
                Ok(model) => PointersRead {
                    drawers: after,
                    reads: before.reads.push(model),
                    found: match model {
                        Some(model) => match without_key(model).record {
                            Some(record) => before.found.push(record),
                            None => before.found,
                        },
                        None => before.found,
                    },
                    failure: None,
                },
            }
        }
    }
}

proof fn lemma_failure_ends(
    all: Map<Seq<char>, CabinetModel>,
    pointers: Seq<Seq<char>>,
    writes: Map<Seq<char>, MigrationWrites>,
    i: int,
    n: int,
)
    requires
        i <= n,
        read_at_pointers(all, pointers, writes, i).failure is Some,
    ensures
        read_at_pointers(all, pointers, writes, n) == read_at_pointers(all, pointers, writes, i),
    decreases n - i,
{
    if i < n {
        lemma_failure_ends(all, pointers, writes, i, n - 1);
    }
}

/// Whether these are the readings at several pointers.
pub open spec fn are_pointer_readings(wanted: Seq<Option<MigratedModel>>, reads: Seq<Migrated>) -> bool {
    &&& wanted.len() == reads.len()
    &&& forall|i: int| 0 <= i < reads.len() ==> is_pointer_reading(wanted[i], #[trigger] reads[i])
}

/// The records at several pointers, in their order; a pointer to no record is passed over. What
/// was read at each comes with them, up to the first that failed.
pub fn read_pointers(
    drawers: &mut TextMap<Cabinet>,
    pointers: &Vec<String>,
    writes: &TextMap<MigrationWrites>,
) -> (r: MigrationReads)
    requires
        all_can_store(old(drawers)@, writes@),
    ensures
        ({
            let wanted = read_at_pointers(
                cabinets(*old(drawers)),
                texts(pointers@),
                writes@,
                pointers@.len() as int,
            );
            &&& cabinets(*final(drawers)) == wanted.drawers
            &&& are_pointer_readings(wanted.reads, r.reads@)
            &&& match (wanted.failure, r.outcome) {
                (None, Ok(records)) => jsons(records@) == wanted.found,
                (Some(f), Err(e)) => e@ == f,
                _ => false,
            }
        }),
{
    let ghost all = cabinets(*drawers);
    let ghost names = texts(pointers@);
    let mut reads: Vec<Migrated> = Vec::new();
    let mut records: Vec<JsonValue> = Vec::new();
    let none = MigrationWrites::new();
    let mut i: usize = 0;
    assert(jsons(records@) =~= Seq::empty());
    while i < pointers.len()
        invariant
            none@ == Map::<u64, MigrationWrite>::empty(),
            all == cabinets(*old(drawers)),
            names == texts(pointers@),
            i <= pointers@.len(),
            all_can_store(drawers@, writes@),
            ({
                let so_far = read_at_pointers(all, names, writes@, i as int);
                &&& cabinets(*drawers) == so_far.drawers
                &&& are_pointer_readings(so_far.reads, reads@)
                &&& jsons(records@) == so_far.found
                &&& so_far.failure is None
            }),
        decreases pointers@.len() - i,
    {
        assert(names[i as int] == pointers@[i as int]@);
        let ghost before = drawers@;
        let ghost held = cabinets(*drawers);
        let own: &MigrationWrites = match parse_pointer(pointers[i].as_str()) {
            Ok((name, _)) => match writes.get(name.as_str()) {
                Some(own) => own,
                None => &none,
            },
            Err(_) => &none,
        };
        assert(own@ == writes_for(writes@, names[i as int]));
        let found = find_by_id_in_database(drawers, pointers[i].as_str(), own);
        assert forall|name: Seq<char>| #[trigger]
            drawers@.dom().contains(name) && is_outdated(
                drawers@[name].drawer@.format_version,
            ) implies writes@.dom().contains(name) && can_store(
            drawers@[name].drawer@,
            drawers@[name].records,
            writes@[name],
        ) by {
            assert(before.dom().contains(name));
            assert(held[name].drawer == before[name].drawer@);
            assert(cabinets(*drawers)[name].drawer == drawers@[name].drawer@);
            assert(is_outdated(before[name].drawer@.format_version));
        }
        match found {
            Ok(read) => {
                match &read.record {
                    Some(record) => {
                        let ghost before = jsons(records@);
                        records.push(record.clone());
                        assert(jsons(records@) =~= before.push(record@));
                    },
                    None => {},
                }
                reads.push(read);
            },
            Err(e) => {
                proof {
                    lemma_failure_ends(all, names, writes@, i + 1, pointers@.len() as int);
                }
                return MigrationReads { reads, outcome: Err(e) };
            },
        }
        i = i + 1;
    }
    MigrationReads { reads, outcome: Ok(records) }
}

} // verus!
