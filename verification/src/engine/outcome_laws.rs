//! What comes of operations on several records, by what comes of their parts.
use crate::database_execution::cabinets::{cabinets, found_at, CabinetModel};
use crate::deletion::cascades::{is_left_of, lemma_left_of_both, lemma_removed_left};
use crate::deletion::{has_record, pointers_of, removed, DeletionModel};
use crate::drawer::migration::MigrationWrites;
use crate::drawer::replay::is_outdated;
use crate::engine::outcomes::{
    deleted_from, deletes_from, found_from, matching, pointers_from, read_at_pointers, writes_for,
};
use crate::error::{Error, ErrorKind, Failure};
use crate::pointer::pointer_parts;
use crate::text::texts;
use crate::value::{Json, JsonValue};
use vstd::prelude::*;

verus! {

proof fn lemma_deletes_push(all: Seq<Result<bool, Error>>, one: Result<bool, Error>, i: int, n: nat)
    requires
        0 <= i <= all.len(),
    ensures
        deletes_from(all.push(one), i, n) == match (deletes_from(all, i, n), one) {
            (Ok(m), Ok(deleted)) => Ok::<nat, Failure>(
                if deleted {
                    m + 1
                } else {
                    m
                },
            ),
            (Ok(_), Err(e)) => Err::<nat, Failure>(e@),
            (Err(f), _) => Err::<nat, Failure>(f),
        },
    decreases all.len() - i,
{
    let more = all.push(one);
    if i < all.len() {
        assert(more[i] == all[i]);
        match all[i] {
            Ok(deleted) => {
                lemma_deletes_push(
                    all,
                    one,
                    i + 1,
                    if deleted {
                        n + 1
                    } else {
                        n
                    },
                );
            },
            Err(_) => {},
        }
    } else {
        assert(more[i] == one);
        reveal_with_fuel(deletes_from, 2);
    }
}

/// The deletes of several records come to none where there are none; one more adds one where it
/// deleted a record; the first that fails is what all of them fail with.
pub proof fn law_deletes_add_up(all: Seq<Result<bool, Error>>, one: Result<bool, Error>)
    ensures
        deletes_from(Seq::empty(), 0, 0) == Ok::<nat, Failure>(0),
        deletes_from(all.push(one), 0, 0) == match (deletes_from(all, 0, 0), one) {
            (Ok(m), Ok(deleted)) => Ok::<nat, Failure>(
                if deleted {
                    m + 1
                } else {
                    m
                },
            ),
            (Ok(_), Err(e)) => Err::<nat, Failure>(e@),
            (Err(f), _) => Err::<nat, Failure>(f),
        },
{
    lemma_deletes_push(all, one, 0, 0);
}

proof fn lemma_found_push(
    all: Seq<Result<Option<JsonValue>, Error>>,
    one: Result<Option<JsonValue>, Error>,
    i: int,
    found: Seq<Json>,
)
    requires
        0 <= i <= all.len(),
    ensures
        found_from(all.push(one), i, found) == match (found_from(all, i, found), one) {
            (Ok(records), Ok(Some(record))) => Ok::<Seq<Json>, Failure>(records.push(record@)),
            (Ok(records), Ok(None)) => Ok::<Seq<Json>, Failure>(records),
            (Ok(_), Err(e)) => Err::<Seq<Json>, Failure>(e@),
            (Err(f), _) => Err::<Seq<Json>, Failure>(f),
        },
    decreases all.len() - i,
{
    let more = all.push(one);
    if i < all.len() {
        assert(more[i] == all[i]);
        match all[i] {
            Ok(Some(record)) => {
                lemma_found_push(all, one, i + 1, found.push(record@));
            },
            Ok(None) => {
                lemma_found_push(all, one, i + 1, found);
            },
            Err(_) => {},
        }
    } else {
        assert(more[i] == one);
        reveal_with_fuel(found_from, 2);
    }
}

/// The records that are found at several pointers are those that are found at each, in their
/// order; the first lookup that fails is what all of them fail with.
pub proof fn law_found_records_are_listed(
    all: Seq<Result<Option<JsonValue>, Error>>,
    one: Result<Option<JsonValue>, Error>,
)
    ensures
        found_from(Seq::empty(), 0, Seq::empty()) == Ok::<Seq<Json>, Failure>(Seq::empty()),
        found_from(all.push(one), 0, Seq::empty()) == match (
            found_from(all, 0, Seq::empty()),
            one,
        ) {
            (Ok(records), Ok(Some(record))) => Ok::<Seq<Json>, Failure>(records.push(record@)),
            (Ok(records), Ok(None)) => Ok::<Seq<Json>, Failure>(records),
            (Ok(_), Err(e)) => Err::<Seq<Json>, Failure>(e@),
            (Err(f), _) => Err::<Seq<Json>, Failure>(f),
        },
{
    lemma_found_push(all, one, 0, Seq::empty());
}

proof fn lemma_pointers_push(
    all: Seq<Result<Vec<String>, Error>>,
    one: Result<Vec<String>, Error>,
    i: int,
    found: Seq<Seq<char>>,
)
    requires
        0 <= i <= all.len(),
    ensures
        pointers_from(all.push(one), i, found) == match (pointers_from(all, i, found), one) {
            (Ok(pointers), Ok(more)) => Ok::<Seq<Seq<char>>, Failure>(pointers + texts(more@)),
            (Ok(_), Err(e)) => Err::<Seq<Seq<char>>, Failure>(e@),
            (Err(f), _) => Err::<Seq<Seq<char>>, Failure>(f),
        },
    decreases all.len() - i,
{
    let more = all.push(one);
    if i < all.len() {
        assert(more[i] == all[i]);
        match all[i] {
            Ok(pointers) => {
                lemma_pointers_push(all, one, i + 1, found + texts(pointers@));
            },
            Err(_) => {},
        }
    } else {
        assert(more[i] == one);
        reveal_with_fuel(pointers_from, 2);
    }
}

/// The pointers of several writes are those of each, in their order; the first write that fails
/// is what all of them fail with.
pub proof fn law_pointers_of_writes_are_listed(
    all: Seq<Result<Vec<String>, Error>>,
    one: Result<Vec<String>, Error>,
)
    ensures
        pointers_from(Seq::empty(), 0, Seq::empty()) == Ok::<Seq<Seq<char>>, Failure>(Seq::empty()),
        pointers_from(all.push(one), 0, Seq::empty()) == match (
            pointers_from(all, 0, Seq::empty()),
            one,
        ) {
            (Ok(pointers), Ok(more)) => Ok::<Seq<Seq<char>>, Failure>(pointers + texts(more@)),
            (Ok(_), Err(e)) => Err::<Seq<Seq<char>>, Failure>(e@),
            (Err(f), _) => Err::<Seq<Seq<char>>, Failure>(f),
        },
{
    lemma_pointers_push(all, one, 0, Seq::empty());
}

proof fn lemma_matching_same(a: Seq<bool>, b: Seq<bool>, n: int)
    requires
        n <= a.len(),
        n <= b.len(),
        forall|i: int| 0 <= i < n ==> a[i] == b[i],
    ensures
        matching(a, n) == matching(b, n),
    decreases n,
{
    if n > 0 {
        lemma_matching_same(a, b, n - 1);
    }
}

/// A count of what matches is none where there is nothing, and one more for each that matches.
pub proof fn law_matches_are_counted(all: Seq<bool>, one: bool)
    ensures
        matching(Seq::empty(), 0) == 0,
        matching(all.push(one), all.len() as int + 1) == matching(all, all.len() as int) + if one {
            1nat
        } else {
            0nat
        },
{
    lemma_matching_same(all, all.push(one), all.len() as int);
}

proof fn lemma_deleted_push(
    state: DeletionModel,
    all: Seq<Seq<char>>,
    one: Seq<char>,
    i: int,
    n: nat,
)
    requires
        0 <= i <= all.len(),
    ensures
        deleted_from(state, all.push(one), i, n) == match deleted_from(state, all, i, n) {
            (now, Ok(m)) => {
                let last = removed(now, one, Set::empty(), pointers_of(now.store));
                (
                    last.state,
                    match last.result {
                        Ok(deleted) => Ok::<nat, Failure>(
                            if deleted {
                                m + 1
                            } else {
                                m
                            },
                        ),
                        Err(f) => Err::<nat, Failure>(f),
                    },
                )
            },
            (now, Err(f)) => (now, Err::<nat, Failure>(f)),
        },
    decreases all.len() - i,
{
    let more = all.push(one);
    if i < all.len() {
        assert(more[i] == all[i]);
        let first = removed(state, all[i], Set::empty(), pointers_of(state.store));
        match first.result {
            Ok(deleted) => {
                lemma_deleted_push(
                    first.state,
                    all,
                    one,
                    i + 1,
                    if deleted {
                        n + 1
                    } else {
                        n
                    },
                );
            },
            Err(_) => {},
        }
    } else {
        assert(more[i] == one);
        reveal_with_fuel(deleted_from, 2);
    }
}

/// The records at several pointers are deleted one after another: one pointer more is one
/// deletion more, and counts where it deleted a record; after a failure nothing more is deleted.
pub proof fn law_pointers_are_deleted_in_order(
    state: DeletionModel,
    all: Seq<Seq<char>>,
    one: Seq<char>,
)
    ensures
        deleted_from(state, Seq::empty(), 0, 0) == (state, Ok::<nat, Failure>(0)),
        deleted_from(state, all.push(one), 0, 0) == match deleted_from(state, all, 0, 0) {
            (now, Ok(m)) => {
                let last = removed(now, one, Set::empty(), pointers_of(now.store));
                (
                    last.state,
                    match last.result {
                        Ok(deleted) => Ok::<nat, Failure>(
                            if deleted {
                                m + 1
                            } else {
                                m
                            },
                        ),
                        Err(f) => Err::<nat, Failure>(f),
                    },
                )
            },
            (now, Err(f)) => (now, Err::<nat, Failure>(f)),
        },
{
    lemma_deleted_push(state, all, one, 0, 0);
}

proof fn lemma_deleted_gone(
    state: DeletionModel,
    all: Seq<Seq<char>>,
    i: int,
    n: nat,
    j: int,
)
    requires
        0 <= i <= all.len(),
    ensures
        is_left_of(deleted_from(state, all, i, n).0.store, state.store),
        deleted_from(state, all, i, n).1 is Ok && i <= j < all.len() ==> (pointer_parts(
            all[j],
        ) matches Some((d, k)) && !has_record(deleted_from(state, all, i, n).0.store, d, k)),
    decreases all.len() - i,
{
    if i < all.len() {
        let first = removed(state, all[i], Set::empty(), pointers_of(state.store));
        lemma_removed_left(state, all[i], Set::empty(), pointers_of(state.store));
        match first.result {
            Ok(deleted) => {
                let m = if deleted {
                    n + 1
                } else {
                    n
                };
                lemma_deleted_gone(first.state, all, i + 1, m, j);
                lemma_left_of_both(
                    state.store,
                    first.state.store,
                    deleted_from(first.state, all, i + 1, m).0.store,
                );
            },
            Err(_) => {},
        }
    }
}

/// Once the records at several pointers were deleted without a failure, none of them is left.
pub proof fn law_every_pointer_is_deleted(state: DeletionModel, all: Seq<Seq<char>>, j: int)
    requires
        0 <= j < all.len(),
        deleted_from(state, all, 0, 0).1 is Ok,
    ensures
        pointer_parts(all[j]) matches Some((d, k)) && !has_record(
            deleted_from(state, all, 0, 0).0.store,
            d,
            k,
        ),
{
    lemma_deleted_gone(state, all, 0, 0, j);
}

/// What is found at a pointer is the record with its key in its drawer, with all its fields but
/// the key; nothing is found where there is no such drawer or record.
pub proof fn law_pointer_finds_its_record(all: Map<Seq<char>, CabinetModel>, pointer: Seq<char>)
    ensures
        match (pointer_parts(pointer), found_at(all, pointer)) {
            (None, Err(f)) => f.kind == ErrorKind::InvalidInput,
            (Some((d, k)), Ok(found)) => {
                let there = all.dom().contains(d) && all[d].drawer.primary.dom().contains(k)
                    && all[d].records.dom().contains(all[d].drawer.primary[k]);
                &&& found is Some <==> there
                &&& there ==> {
                    let record = all[d].records[all[d].drawer.primary[k]];
                    &&& found->0.get("_id"@) is None
                    &&& forall|f: Seq<char>|
                        f != "_id"@ ==> #[trigger] found->0.get(f) == record.get(f)
                    &&& !(record is Object) ==> found->0 == record
                }
            },
            _ => false,
        },
{
}

/// In drawers of the present format, the records at several pointers are what is found at each,
/// in their order, and nothing changes.
pub proof fn law_every_pointer_is_read(
    all: Map<Seq<char>, CabinetModel>,
    pointers: Seq<Seq<char>>,
    writes: Map<Seq<char>, MigrationWrites>,
    n: int,
)
    requires
        0 < n <= pointers.len(),
        forall|d: Seq<char>| #[trigger]
            all.dom().contains(d) ==> !is_outdated(all[d].drawer.format_version),
    ensures
        ({
            let before = read_at_pointers(all, pointers, writes, n - 1);
            let now = read_at_pointers(all, pointers, writes, n);
            &&& now.drawers == all
            &&& before.failure is Some ==> now == before
            &&& before.failure is None ==> match found_at(all, pointers[n - 1]) {
                Ok(Some(record)) => now.failure is None && now.found == before.found.push(record),
                Ok(None) => now.failure is None && now.found == before.found,
                Err(f) => now.failure == Some(f) && now.found == before.found,
            }
            &&& n == 1 ==> before.found.len() == 0 && before.failure is None
        }),
    decreases n,
{
    if n > 1 {
        law_every_pointer_is_read(all, pointers, writes, n - 1);
    }
    crate::database_execution::cabinets::law_present_record_is_only_read(
        all,
        pointers[n - 1],
        writes_for(writes, pointers[n - 1]),
    );
}

/// A record that has to be stored anew goes where there is room in its own drawer.
pub proof fn law_records_are_stored_anew_in_their_drawer(
    writes: Map<Seq<char>, MigrationWrites>,
    pointer: Seq<char>,
)
    ensures
        match pointer_parts(pointer) {
            Some((name, _)) => writes.dom().contains(name) ==> writes_for(writes, pointer)
                == writes[name]@,
            None => true,
        },
{
}

} // verus!
