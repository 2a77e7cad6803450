//! What holds of every deletion.
use crate::deletion::{
    all_removed, cascade_children, child_keys, child_problem, field_pointers, has_record,
    lemma_path_grows, pointers_of, references_taken, removed, restriction, side_effects, unlinked,
    unlinked_all, with_record, without_record, ChangeModel, DeleteAction, DeletionModel,
    DrawerState, Outcome, RuleModel,
};
use crate::pointer::pointer_parts;
use crate::value::Json;
use vstd::prelude::*;

verus! {

/// The store after a change.
pub open spec fn changed_store(store: Map<Seq<char>, DrawerState>, change: ChangeModel) -> Map<
    Seq<char>,
    DrawerState,
> {
    match change {
        ChangeModel::Delete { drawer, key } => without_record(store, drawer, key),
        ChangeModel::Upsert { drawer, key, record } => with_record(store, drawer, key, record),
    }
}

/// The store after the changes from position `from` up to `to`.
pub open spec fn replayed(
    store: Map<Seq<char>, DrawerState>,
    changes: Seq<ChangeModel>,
    from: int,
    to: int,
) -> Map<Seq<char>, DrawerState>
    decreases to - from,
{
    if to <= from {
        store
    } else {
        changed_store(replayed(store, changes, from, to - 1), changes[to - 1])
    }
}

/// Whether one state comes of another: no record is new, the changes before are still noted, and
/// what was noted since makes the one store out of the other.
pub open spec fn comes_of(after: DeletionModel, before: DeletionModel) -> bool {
    &&& before.changes.len() <= after.changes.len()
    &&& after.changes.take(before.changes.len() as int) == before.changes
    &&& replayed(
        before.store,
        after.changes,
        before.changes.len() as int,
        after.changes.len() as int,
    ) == after.store
    &&& forall|d: Seq<char>, k: Seq<char>| #[trigger]
        has_record(after.store, d, k) ==> has_record(before.store, d, k)
    &&& after.store.dom() == before.store.dom()
}

proof fn lemma_replayed_same(
    store: Map<Seq<char>, DrawerState>,
    a: Seq<ChangeModel>,
    b: Seq<ChangeModel>,
    from: int,
    to: int,
)
    requires
        0 <= from,
        to <= a.len(),
        to <= b.len(),
        forall|i: int| from <= i < to ==> a[i] == b[i],
    ensures
        replayed(store, a, from, to) == replayed(store, b, from, to),
    decreases to - from,
{
    if from < to {
        lemma_replayed_same(store, a, b, from, to - 1);
    }
}

proof fn lemma_replayed_on(
    store: Map<Seq<char>, DrawerState>,
    changes: Seq<ChangeModel>,
    from: int,
    middle: int,
    to: int,
)
    requires
        from <= middle <= to,
    ensures
        replayed(replayed(store, changes, from, middle), changes, middle, to) == replayed(
            store,
            changes,
            from,
            to,
        ),
    decreases to - middle,
{
    if middle < to {
        lemma_replayed_on(store, changes, from, middle, to - 1);
    }
}

proof fn lemma_comes_of_itself(state: DeletionModel)
    ensures
        comes_of(state, state),
{
    assert(state.changes.take(state.changes.len() as int) =~= state.changes);
}

proof fn lemma_comes_of_step(before: DeletionModel, after: DeletionModel, change: ChangeModel)
    requires
        after.changes == before.changes.push(change),
        after.store == changed_store(before.store, change),
        match change {
            ChangeModel::Delete { drawer, key } => has_record(before.store, drawer, key),
            ChangeModel::Upsert { drawer, key, record } => has_record(before.store, drawer, key),
        },
    ensures
        comes_of(after, before),
{
    let n = before.changes.len() as int;
    assert(after.changes.take(n) =~= before.changes);
    assert(after.changes[n] == change);
    assert(replayed(before.store, after.changes, n, n) == before.store);
    assert(replayed(before.store, after.changes, n, n + 1) == after.store);
    assert(after.store.dom() =~= before.store.dom());
}

proof fn lemma_comes_of_both(first: DeletionModel, second: DeletionModel, third: DeletionModel)
    requires
        comes_of(second, first),
        comes_of(third, second),
    ensures
        comes_of(third, first),
{
    let a = first.changes.len() as int;
    let b = second.changes.len() as int;
    let c = third.changes.len() as int;
    assert forall|i: int| 0 <= i < b implies third.changes[i] == second.changes[i] by {
        assert(third.changes.take(b)[i] == third.changes[i]);
    }
    assert(third.changes.take(a) =~= first.changes) by {
        assert forall|i: int| 0 <= i < a implies third.changes.take(a)[i] == first.changes[i] by {
            assert(second.changes.take(a)[i] == second.changes[i]);
        }
    }
    lemma_replayed_same(first.store, second.changes, third.changes, a, b);
    lemma_replayed_on(first.store, third.changes, a, b, c);
}

pub proof fn lemma_unlinked_all(
    state: DeletionModel,
    drawer: Seq<char>,
    field: Seq<char>,
    pointer: Seq<char>,
    keys: Seq<Seq<char>>,
    n: int,
)
    ensures
        comes_of(unlinked_all(state, drawer, field, pointer, keys, n).state, state),
    decreases n,
{
    if n <= 0 {
        lemma_comes_of_itself(state);
    } else {
        lemma_unlinked_all(state, drawer, field, pointer, keys, n - 1);
        let first = unlinked_all(state, drawer, field, pointer, keys, n - 1);
        let before = first.state;
        let after = unlinked_all(state, drawer, field, pointer, keys, n).state;
        let key = keys[n - 1];
        let record = unlinked(before.store[drawer].records[key], field, pointer);
        if first.result is Ok && has_record(before.store, drawer, key) && child_problem(
            before.store[drawer],
            key,
            record,
        ) is None {
            lemma_comes_of_step(before, after, ChangeModel::Upsert { drawer, key, record });
            lemma_comes_of_both(state, before, after);
        }
    }
}

proof fn lemma_references_taken(
    state: DeletionModel,
    pointer: Seq<char>,
    rules: Seq<RuleModel>,
    n: int,
)
    ensures
        comes_of(references_taken(state, pointer, rules, n).state, state),
    decreases n,
{
    if n <= 0 {
        lemma_comes_of_itself(state);
    } else {
        lemma_references_taken(state, pointer, rules, n - 1);
        let first = references_taken(state, pointer, rules, n - 1);
        let before = first.state;
        let rule = rules[n - 1];
        if first.result is Ok && rule.action == DeleteAction::SetNull {
            let keys = child_keys(before.store, rule, pointer);
            let count = keys.len() as int;
            lemma_unlinked_all(before, rule.target, rule.field, pointer, keys, count);
            lemma_comes_of_both(
                state,
                before,
                unlinked_all(before, rule.target, rule.field, pointer, keys, count).state,
            );
        }
    }
}

proof fn lemma_removed(
    state: DeletionModel,
    pointer: Seq<char>,
    path: Set<Seq<char>>,
    bound: Set<Seq<char>>,
)
    ensures
        comes_of(removed(state, pointer, path, bound).state, state),
    decreases bound.difference(path).len(), 3int, 0int,
{
    lemma_comes_of_itself(state);
    if !path.contains(pointer) {
        match pointer_parts(pointer) {
            Some((drawer, key)) => {
                if has_record(state.store, drawer, key) {
                    let here = state.store[drawer];
                    lemma_side_effects(
                        state,
                        pointer,
                        here.records[key],
                        here.cascades,
                        here.rules,
                        path,
                        Set::empty(),
                        bound,
                    );
                    let effects = side_effects(
                        state,
                        pointer,
                        here.records[key],
                        here.cascades,
                        here.rules,
                        path,
                        Set::empty(),
                        bound,
                    );
                    if effects.result is Ok && has_record(effects.state.store, drawer, key) {
                        let after = DeletionModel {
                            store: without_record(effects.state.store, drawer, key),
                            changes: effects.state.changes.push(
                                ChangeModel::Delete { drawer, key },
                            ),
                        };
                        lemma_comes_of_step(
                            effects.state,
                            after,
                            ChangeModel::Delete { drawer, key },
                        );
                        lemma_comes_of_both(state, effects.state, after);
                    }
                }
            },
            None => {},
        }
    }
}

proof fn lemma_side_effects(
    state: DeletionModel,
    pointer: Seq<char>,
    record: Json,
    fields: Seq<Seq<char>>,
    rules: Seq<RuleModel>,
    path: Set<Seq<char>>,
    skip: Set<Seq<char>>,
    bound: Set<Seq<char>>,
)
    ensures
        comes_of(
            side_effects(state, pointer, record, fields, rules, path, skip, bound).state,
            state,
        ),
    decreases bound.difference(path).len(), 2int, 0int,
{
    lemma_comes_of_itself(state);
    if !path.contains(pointer) && bound.contains(pointer) && bound.finite() && restriction(
        state.store,
        pointer,
        rules,
        0,
    ) is None {
        lemma_path_grows(bound, path, pointer);
        let inner = path.insert(pointer);
        let children = cascade_children(state.store, pointer, rules, rules.len() as int);
        lemma_all_removed(state, children, 0, inner, skip, bound);
        let first = all_removed(state, children, 0, inner, skip, bound);
        if first.result is Ok {
            let others = field_pointers(record, fields, fields.len() as int);
            lemma_all_removed(first.state, others, 0, inner, skip, bound);
            let second = all_removed(first.state, others, 0, inner, skip, bound);
            lemma_comes_of_both(state, first.state, second.state);
            if second.result is Ok {
                let n = rules.len() as int;
                lemma_references_taken(second.state, pointer, rules, n);
                lemma_comes_of_both(
                    state,
                    second.state,
                    references_taken(second.state, pointer, rules, n).state,
                );
            }
        }
    }
}

pub proof fn lemma_all_removed(
    state: DeletionModel,
    pointers: Seq<Seq<char>>,
    i: int,
    path: Set<Seq<char>>,
    skip: Set<Seq<char>>,
    bound: Set<Seq<char>>,
)
    ensures
        comes_of(all_removed(state, pointers, i, path, skip, bound).state, state),
    decreases bound.difference(path).len(), 4int, pointers.len() - i,
{
    lemma_comes_of_itself(state);
    if 0 <= i < pointers.len() {
        if skip.contains(pointers[i]) {
            lemma_all_removed(state, pointers, i + 1, path, skip, bound);
        } else {
            lemma_removed(state, pointers[i], path, bound);
            let one = removed(state, pointers[i], path, bound);
            if one.result is Ok {
                lemma_all_removed(one.state, pointers, i + 1, path, skip, bound);
                lemma_comes_of_both(
                    state,
                    one.state,
                    all_removed(one.state, pointers, i + 1, path, skip, bound).state,
                );
            }
        }
    }
}

/// A deletion makes no record appear, and the changes that it notes down, made to the records
/// that there were, give the records that there are then, also where it fails on the way.
pub proof fn law_changes_tell_the_deletion(
    state: DeletionModel,
    pointer: Seq<char>,
    bound: Set<Seq<char>>,
)
    ensures
        comes_of(removed(state, pointer, Set::empty(), bound).state, state),
{
    lemma_removed(state, pointer, Set::empty(), bound);
}

/// A record whose deletion did not fail is not there any more.
pub proof fn law_deleted_record_is_gone(state: DeletionModel, pointer: Seq<char>)
    ensures
        ({
            let done = removed(state, pointer, Set::empty(), pointers_of(state.store));
            done.result is Ok ==> (pointer_parts(pointer) matches Some((drawer, key))
                && !has_record(done.state.store, drawer, key))
        }),
{
}

/// A record that a rule keeps from being deleted stays, and so does everything else.
pub proof fn law_restricted_record_stays(state: DeletionModel, pointer: Seq<char>)
    requires
        pointer_parts(pointer) matches Some((drawer, key)) && has_record(state.store, drawer, key)
            && restriction(state.store, pointer, state.store[drawer].rules, 0) is Some,
        pointers_of(state.store).finite(),
    ensures
        ({
            let done = removed(state, pointer, Set::empty(), pointers_of(state.store));
            done.result is Err && done.state == state
        }),
{
    assert(pointers_of(state.store).contains(pointer));
}

/// A pointer to a record that there is not deletes nothing.
pub proof fn law_missing_record_deletes_nothing(state: DeletionModel, pointer: Seq<char>)
    requires
        pointer_parts(pointer) matches Some((drawer, key)) && state.store.dom().contains(drawer)
            && !has_record(state.store, drawer, key),
    ensures
        removed(state, pointer, Set::empty(), pointers_of(state.store)) == (Outcome {
            state,
            result: Ok(false),
        }),
{
}

} // verus!
