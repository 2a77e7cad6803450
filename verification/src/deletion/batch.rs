//! What comes of deleting the records that a filter found.
use crate::deletion::cascades::{
    is_left_of, lemma_left_of_both, lemma_side_effects_left,
};
use crate::deletion::{
    all_effects, batch_removed, delete_key, delete_keys, has_record, keys_taken, pointers_of,
    pointers_to, side_effects, DeletionModel, DrawerState,
};
use crate::error::ErrorKind;
use crate::pointer::pointer_parts;
use crate::value::Json;
use vstd::prelude::*;

verus! {

/// Whether a record has a key: a text, or the key in a pointer.
pub open spec fn has_key(record: Json, key: Seq<char>) -> bool {
    record.get_text("_id"@) matches Some(id) && if id.len() > 0 && id[0] == '@' {
        pointer_parts(id) matches Some((_, k)) && k == key
    } else {
        id == key
    }
}

/// Whether a record has no key.
pub open spec fn is_keyless(record: Json) -> bool {
    forall|key: Seq<char>| !(#[trigger] has_key(record, key))
}

proof fn lemma_delete_key(record: Json)
    ensures
        match delete_key(record) {
            Ok(key) => has_key(record, key),
            Err(f) => (f.kind == ErrorKind::InvalidData || f.kind == ErrorKind::InvalidInput)
                && is_keyless(record),
        },
{
    reveal_strlit("@");
    match record.get_text("_id"@) {
        Some(id) => {
            if crate::text::starts_with(id, "@"@) {
                assert(id.subrange(0, 1) == "@"@);
                assert(id[0] == id.subrange(0, 1)[0]);
            } else if id.len() > 0 && id[0] == '@' {
                assert(id.subrange(0, 1) =~= "@"@);
            }
        },
        None => {},
    }
}

proof fn lemma_delete_keys(records: Seq<Json>, i: int, done: Seq<Seq<char>>)
    requires
        0 <= i <= records.len(),
        done.len() == i,
        forall|j: int| 0 <= j < i ==> has_key(records[j], #[trigger] done[j]),
    ensures
        match delete_keys(records, i, done) {
            Ok(keys) => keys.len() == records.len() && forall|j: int|
                0 <= j < records.len() ==> has_key(records[j], #[trigger] keys[j]),
            Err(_) => exists|j: int|
                0 <= j < records.len() && is_keyless(#[trigger] records[j]),
        },
    decreases records.len() - i,
{
    if i < records.len() {
        lemma_delete_key(records[i]);
        match delete_key(records[i]) {
            Ok(key) => {
                lemma_delete_keys(records, i + 1, done.push(key));
            },
            Err(_) => {},
        }
    }
}

proof fn lemma_all_effects_left(
    state: DeletionModel,
    records: Seq<Json>,
    pointers: Seq<Seq<char>>,
    drawer: DrawerState,
    i: int,
    bound: Set<Seq<char>>,
)
    ensures
        is_left_of(
            all_effects(state, records, pointers, drawer, i, bound).state.store,
            state.store,
        ),
    decreases records.len() - i,
{
    if 0 <= i < records.len() {
        let none = Set::<Seq<char>>::empty();
        let one = side_effects(
            state,
            pointers[i],
            records[i],
            drawer.cascades,
            drawer.rules,
            none,
            pointers.to_set(),
            bound,
        );
        lemma_side_effects_left(
            state,
            pointers[i],
            records[i],
            drawer.cascades,
            drawer.rules,
            none,
            pointers.to_set(),
            bound,
        );
        if one.result is Ok {
            lemma_all_effects_left(one.state, records, pointers, drawer, i + 1, bound);
            lemma_left_of_both(
                state.store,
                one.state.store,
                all_effects(one.state, records, pointers, drawer, i + 1, bound).state.store,
            );
        }
    }
}

proof fn lemma_keys_taken(
    state: DeletionModel,
    drawer: Seq<char>,
    keys: Seq<Seq<char>>,
    n: int,
)
    requires
        0 <= n <= keys.len(),
        state.store.dom().contains(drawer),
        state.store[drawer].records.dom().finite(),
    ensures
        ({
            let (after, count) = keys_taken(state, drawer, keys, n);
            &&& is_left_of(after.store, state.store)
            &&& after.store.dom() == state.store.dom()
            &&& forall|d: Seq<char>| #[trigger]
                state.store.dom().contains(d) && d != drawer ==> after.store[d] == state.store[d]
            &&& forall|i: int| 0 <= i < n ==> !has_record(after.store, drawer, #[trigger] keys[i])
            &&& forall|k: Seq<char>|
                has_record(state.store, drawer, k) && !(#[trigger] keys.take(n).contains(k))
                    ==> has_record(after.store, drawer, k) && after.store[drawer].records[k]
                    == state.store[drawer].records[k]
            &&& after.store[drawer].records.dom().finite()
            &&& state.store[drawer].records.dom().len() == after.store[drawer].records.dom().len()
                + count
            &&& after.changes.len() == state.changes.len() + count
        }),
    decreases n,
{
    if n > 0 {
        lemma_keys_taken(state, drawer, keys, n - 1);
        let before = keys_taken(state, drawer, keys, n - 1).0;
        let after = keys_taken(state, drawer, keys, n).0;
        let fewer = keys.take(n - 1);
        let more = keys.take(n);
        assert(more =~= fewer.push(keys[n - 1]));
        assert(more[n - 1] == keys[n - 1]);
        assert forall|k: Seq<char>| fewer.contains(k) implies more.contains(k) by {
            let i = choose|i: int| 0 <= i < fewer.len() && fewer[i] == k;
            assert(more[i] == k);
        }
        assert(more.contains(keys[n - 1]));
        if has_record(before.store, drawer, keys[n - 1]) {
            assert(after.store.dom() =~= before.store.dom());
            assert(is_left_of(after.store, before.store));
            lemma_left_of_both(state.store, before.store, after.store);
            assert(after.store[drawer].records.dom() =~= before.store[drawer].records.dom().remove(
                keys[n - 1],
            ));
        }
    }
}

/// Once the records that a filter found were deleted without a failure, none of them is left in
/// the drawer, and the count is at most as many as were found. A record without a key is refused
/// before anything changes.
pub proof fn law_filtered_records_are_gone(
    state: DeletionModel,
    drawer: Seq<char>,
    records: Seq<Json>,
    j: int,
    key: Seq<char>,
)
    requires
        state.store.dom().contains(drawer) ==> state.store[drawer].records.dom().finite(),
    ensures
        ({
            let (after, counted) = batch_removed(state, drawer, records);
            &&& is_left_of(after.store, state.store)
            &&& counted is Ok && 0 <= j < records.len() && has_key(records[j], key) ==> !has_record(
                after.store,
                drawer,
                key,
            )
            &&& state.store.dom().contains(drawer) && 0 <= j < records.len() && is_keyless(
                records[j],
            ) ==> counted is Err && after == state
            &&& !state.store.dom().contains(drawer) || records.len() == 0 ==> counted == Ok::<
                int,
                crate::error::Failure,
            >(0) && after == state
        }),
{
    if state.store.dom().contains(drawer) && records.len() > 0 {
        lemma_delete_keys(records, 0, Seq::empty());
        match delete_keys(records, 0, Seq::empty()) {
            Ok(keys) => {
                let pointers = pointers_to(drawer, keys);
                let bound = pointers_of(state.store).union(pointers.to_set());
                let here = state.store[drawer];
                let effects = all_effects(state, records, pointers, here, 0, bound);
                lemma_all_effects_left(state, records, pointers, here, 0, bound);
                if effects.result is Ok {
                    let middle = effects.state.store;
                    assert(middle.dom().contains(drawer));
                    let a = middle[drawer].records.dom();
                    let b = here.records.dom();
                    assert forall|k: Seq<char>| a.contains(k) implies b.contains(k) by {
                        assert(has_record(middle, drawer, k));
                        assert(has_record(state.store, drawer, k));
                    }
                    vstd::set_lib::lemma_set_subset_finite(b, a);
                    lemma_keys_taken(effects.state, drawer, keys, keys.len() as int);
                    lemma_left_of_both(
                        state.store,
                        middle,
                        batch_removed(state, drawer, records).0.store,
                    );
                    if 0 <= j < records.len() && has_key(records[j], key) {
                        assert(has_key(records[j], keys[j]));
                        assert(keys[j] == key);
                    }
                }
            },
            Err(_) => {},
        }
    }
}

proof fn lemma_no_effects(
    state: DeletionModel,
    records: Seq<Json>,
    pointers: Seq<Seq<char>>,
    drawer: DrawerState,
    i: int,
    bound: Set<Seq<char>>,
)
    requires
        drawer.rules.len() == 0,
        drawer.cascades.len() == 0,
    ensures
        all_effects(state, records, pointers, drawer, i, bound).state == state,
        all_effects(state, records, pointers, drawer, i, bound).result is Ok,
    decreases records.len() - i,
{
    if 0 <= i < records.len() {
        let none = Set::<Seq<char>>::empty();
        let one = side_effects(
            state,
            pointers[i],
            records[i],
            drawer.cascades,
            drawer.rules,
            none,
            pointers.to_set(),
            bound,
        );
        assert(one.state == state && one.result is Ok);
        lemma_no_effects(state, records, pointers, drawer, i + 1, bound);
    }
}

/// In a drawer without rules, exactly the records that a filter found are deleted, and the count
/// is by how many records the drawer has become smaller.
pub proof fn law_filtered_records_are_counted(
    state: DeletionModel,
    drawer: Seq<char>,
    records: Seq<Json>,
    key: Seq<char>,
)
    requires
        state.store.dom().contains(drawer),
        state.store[drawer].records.dom().finite(),
        state.store[drawer].rules.len() == 0,
        state.store[drawer].cascades.len() == 0,
        batch_removed(state, drawer, records).1 is Ok,
        has_record(state.store, drawer, key),
    ensures
        ({
            let (after, counted) = batch_removed(state, drawer, records);
            &&& has_record(after.store, drawer, key) <==> !exists|j: int|
                0 <= j < records.len() && has_key(#[trigger] records[j], key)
            &&& has_record(after.store, drawer, key) ==> after.store[drawer].records[key]
                == state.store[drawer].records[key]
            &&& counted->Ok_0 == state.store[drawer].records.dom().len()
                - after.store[drawer].records.dom().len()
        }),
{
    if records.len() > 0 {
        lemma_delete_keys(records, 0, Seq::empty());
        let keys = delete_keys(records, 0, Seq::empty())->Ok_0;
        let pointers = pointers_to(drawer, keys);
        let bound = pointers_of(state.store).union(pointers.to_set());
        let here = state.store[drawer];
        lemma_no_effects(state, records, pointers, here, 0, bound);
        let n = keys.len() as int;
        lemma_keys_taken(state, drawer, keys, n);
        assert(keys.take(n) =~= keys);
        if keys.contains(key) {
            let j = choose|j: int| 0 <= j < keys.len() && keys[j] == key;
            assert(has_key(records[j], keys[j]));
            assert(has_key(records[j], key));
        } else {
            assert(!keys.take(n).contains(key));
            assert forall|j: int| 0 <= j < records.len() implies !has_key(
                #[trigger] records[j],
                key,
            ) by {
                assert(has_key(records[j], keys[j]));
                assert(keys.contains(keys[j]));
            }
        }
    }
}

} // verus!
