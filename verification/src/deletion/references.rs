//! What is left of the references to a record that was deleted.
use crate::deletion::laws::{comes_of, lemma_all_removed};
use crate::deletion::{
    all_removed, cascade_children, child_keys, field_pointers, has_record, pointers_of,
    record_refers, references_taken, referring, refers, removed, unlinked, unlinked_all,
    unlinked_one, DeleteAction, DeletionModel, DrawerState, RuleModel,
};
use crate::fields::{key_order, lemma_key_order_len};
use crate::pointer::pointer_parts;
use crate::value::{without_text, Json};
use vstd::prelude::*;

verus! {

/// Whether no record that a rule is about refers to a record.
pub open spec fn unreferred(
    store: Map<Seq<char>, DrawerState>,
    rule: RuleModel,
    pointer: Seq<char>,
) -> bool {
    forall|k: Seq<char>| #[trigger]
        has_record(store, rule.target, k) ==> !record_refers(
            store[rule.target].records[k],
            rule.field,
            pointer,
        )
}

/// Whether the records that are left refer to a record at most where they did before.
spec fn refers_no_more(
    before: Map<Seq<char>, DrawerState>,
    after: Map<Seq<char>, DrawerState>,
    pointer: Seq<char>,
) -> bool {
    forall|d: Seq<char>, k: Seq<char>, f: Seq<char>|
        has_record(after, d, k) && #[trigger] record_refers(after[d].records[k], f, pointer)
            ==> has_record(before, d, k) && record_refers(before[d].records[k], f, pointer)
}

proof fn lemma_without_text(items: Seq<Json>, text: Seq<char>, n: int, i: int)
    requires
        0 <= n <= items.len(),
        0 <= i < without_text(items, text, n).len(),
    ensures
        without_text(items, text, n)[i] != Json::Text(text),
    decreases n,
{
    if n > 0 {
        let before = without_text(items, text, n - 1);
        if i < before.len() {
            lemma_without_text(items, text, n - 1, i);
        }
    }
}

/// A record that lost a reference does not refer any more, and its other fields are as before.
proof fn lemma_unlinked(record: Json, field: Seq<char>, pointer: Seq<char>, other: Seq<char>)
    ensures
        !record_refers(unlinked(record, field, pointer), field, pointer),
        other != field ==> record_refers(unlinked(record, field, pointer), other, pointer)
            == record_refers(record, other, pointer),
{
    let after = unlinked(record, field, pointer);
    match record.get(field) {
        Some(Json::Array(items)) => {
            let n = items.len() as int;
            let rest = without_text(items, pointer, n);
            if refers(Json::Array(rest), pointer) {
                let i = choose|i: int| 0 <= i < rest.len() && (#[trigger] rest[i]) == Json::Text(pointer);
                lemma_without_text(items, pointer, n, i);
            }
            assert(after.get(field) == Some(Json::Array(rest)));
        },
        Some(_) => {
            assert(after.get(field) == Some(Json::Null));
        },
        None => {
            assert(after == record);
        },
    }
}

proof fn lemma_unlinked_all(
    state: DeletionModel,
    drawer: Seq<char>,
    field: Seq<char>,
    pointer: Seq<char>,
    keys: Seq<Seq<char>>,
    n: int,
)
    requires
        0 <= n <= keys.len(),
    ensures
        refers_no_more(
            state.store,
            unlinked_all(state, drawer, field, pointer, keys, n).state.store,
            pointer,
        ),
        unlinked_all(state, drawer, field, pointer, keys, n).result is Ok ==> forall|i: int|
            0 <= i < n && has_record(
                unlinked_all(state, drawer, field, pointer, keys, n).state.store,
                drawer,
                keys[i],
            ) ==> !record_refers(
                unlinked_all(state, drawer, field, pointer, keys, n).state.store[drawer].records[
                #[trigger] keys[i]],
                field,
                pointer,
            ),
    decreases n,
{
    if n > 0 {
        lemma_unlinked_all(state, drawer, field, pointer, keys, n - 1);
        let first = unlinked_all(state, drawer, field, pointer, keys, n - 1);
        if first.result is Ok {
            let before = first.state.store;
            let key = keys[n - 1];
            let after = unlinked_one(first.state, drawer, field, pointer, key).state.store;
            assert(refers_no_more(before, after, pointer)) by {
                assert forall|d: Seq<char>, k: Seq<char>, f: Seq<char>|
                    has_record(after, d, k) && #[trigger] record_refers(
                        after[d].records[k],
                        f,
                        pointer,
                    ) implies has_record(before, d, k) && record_refers(
                    before[d].records[k],
                    f,
                    pointer,
                ) by {
                    if d == drawer && k == key && has_record(before, drawer, key) {
                        lemma_unlinked(before[drawer].records[key], field, pointer, f);
                    }
                }
            }
            if has_record(before, drawer, key) {
                lemma_unlinked(before[drawer].records[key], field, pointer, field);
            }
        }
    }
}

/// The records that refer to a record are all listed.
proof fn lemma_referring(
    records: Map<Seq<char>, Json>,
    field: Seq<char>,
    pointer: Seq<char>,
    keys: Seq<Seq<char>>,
    n: int,
    i: int,
)
    requires
        0 <= i < n <= keys.len(),
        record_refers(records[keys[i]], field, pointer),
    ensures
        referring(records, field, pointer, keys, n).contains(keys[i]),
    decreases n,
{
    let all = referring(records, field, pointer, keys, n);
    if i == n - 1 {
        assert(all.last() == keys[i]);
    } else {
        lemma_referring(records, field, pointer, keys, n - 1, i);
        let before = referring(records, field, pointer, keys, n - 1);
        let j = choose|j: int| 0 <= j < before.len() && before[j] == keys[i];
        assert(all[j] == keys[i]);
    }
}

/// Whether every drawer has finitely many records.
pub open spec fn all_finite(store: Map<Seq<char>, DrawerState>) -> bool {
    forall|d: Seq<char>| #[trigger]
        store.dom().contains(d) ==> store[d].records.dom().finite()
}

proof fn lemma_rule_done(state: DeletionModel, rule: RuleModel, pointer: Seq<char>)
    requires
        all_finite(state.store),
    ensures
        ({
            let keys = child_keys(state.store, rule, pointer);
            let done = unlinked_all(
                state,
                rule.target,
                rule.field,
                pointer,
                keys,
                keys.len() as int,
            );
            &&& refers_no_more(state.store, done.state.store, pointer)
            &&& done.result is Ok ==> unreferred(done.state.store, rule, pointer)
        }),
{
    let keys = child_keys(state.store, rule, pointer);
    let n = keys.len() as int;
    let done = unlinked_all(state, rule.target, rule.field, pointer, keys, n);
    lemma_unlinked_all(state, rule.target, rule.field, pointer, keys, n);
    if done.result is Ok {
        let after = done.state.store;
        assert forall|k: Seq<char>| #[trigger] has_record(after, rule.target, k) implies !record_refers(
            after[rule.target].records[k],
            rule.field,
            pointer,
        ) by {
            if record_refers(after[rule.target].records[k], rule.field, pointer) {
                assert(has_record(state.store, rule.target, k));
                let records = state.store[rule.target].records;
                let order = key_order(records.dom());
                lemma_key_order_len(records.dom());
                assert(order.contains(k));
                let i = choose|i: int| 0 <= i < order.len() && order[i] == k;
                lemma_referring(records, rule.field, pointer, order, order.len() as int, i);
                let j = choose|j: int| 0 <= j < keys.len() && keys[j] == k;
                assert(keys[j] == k);
            }
        }
    }
}

proof fn lemma_references_taken(
    state: DeletionModel,
    pointer: Seq<char>,
    rules: Seq<RuleModel>,
    n: int,
)
    requires
        all_finite(state.store),
        0 <= n <= rules.len(),
    ensures
        ({
            let done = references_taken(state, pointer, rules, n);
            &&& all_finite(done.state.store)
            &&& done.result is Ok ==> forall|i: int|
                0 <= i < n && (#[trigger] rules[i]).action == DeleteAction::SetNull ==> unreferred(
                    done.state.store,
                    rules[i],
                    pointer,
                )
        }),
    decreases n,
{
    if n > 0 {
        lemma_references_taken(state, pointer, rules, n - 1);
        let first = references_taken(state, pointer, rules, n - 1);
        let rule = rules[n - 1];
        if first.result is Ok && rule.action == DeleteAction::SetNull {
            lemma_rule_done(first.state, rule, pointer);
            let keys = child_keys(first.state.store, rule, pointer);
            let count = keys.len() as int;
            crate::deletion::laws::lemma_unlinked_all(
                first.state,
                rule.target,
                rule.field,
                pointer,
                keys,
                count,
            );
            let done = unlinked_all(first.state, rule.target, rule.field, pointer, keys, count);
            lemma_stays_finite(first.state, done.state);
            if done.result is Ok {
                assert forall|i: int|
                    0 <= i < n && (#[trigger] rules[i]).action
                        == DeleteAction::SetNull implies unreferred(
                    done.state.store,
                    rules[i],
                    pointer,
                ) by {
                    if i < n - 1 {
                        assert(unreferred(first.state.store, rules[i], pointer));
                    }
                }
            }
        }
    }
}

proof fn lemma_stays_finite(before: DeletionModel, after: DeletionModel)
    requires
        all_finite(before.store),
        comes_of(after, before),
    ensures
        all_finite(after.store),
{
    assert forall|d: Seq<char>| #[trigger] after.store.dom().contains(d) implies after.store[d].records.dom().finite() by {
        assert(before.store.dom().contains(d));
        let a = after.store[d].records.dom();
        let b = before.store[d].records.dom();
        assert forall|k: Seq<char>| a.contains(k) implies b.contains(k) by {
            assert(has_record(after.store, d, k));
            assert(has_record(before.store, d, k));
        }
        vstd::set_lib::lemma_set_subset_finite(b, a);
    }
}

/// Where the rules say so, no record refers any more to a record that was deleted.
pub proof fn law_no_reference_is_left(state: DeletionModel, pointer: Seq<char>, i: int)
    requires
        all_finite(state.store),
        pointers_of(state.store).finite(),
        pointer_parts(pointer) matches Some((drawer, key)) && has_record(state.store, drawer, key)
            && 0 <= i < state.store[drawer].rules.len() && state.store[drawer].rules[i].action
            == DeleteAction::SetNull,
    ensures
        ({
            let done = removed(state, pointer, Set::empty(), pointers_of(state.store));
            done.result is Ok ==> unreferred(
                done.state.store,
                state.store[(pointer_parts(pointer)->0).0].rules[i],
                pointer,
            )
        }),
{
    let (drawer, key) = pointer_parts(pointer)->0;
    let bound = pointers_of(state.store);
    let here = state.store[drawer];
    let rules = here.rules;
    let record = here.records[key];
    let inner = Set::<Seq<char>>::empty().insert(pointer);
    let none = Set::<Seq<char>>::empty();
    let done = removed(state, pointer, none, bound);
    assert(bound.contains(pointer));
    if done.result is Ok {
        let children = cascade_children(state.store, pointer, rules, rules.len() as int);
        let first = all_removed(state, children, 0, inner, none, bound);
        lemma_all_removed(state, children, 0, inner, none, bound);
        lemma_stays_finite(state, first.state);
        let others = field_pointers(record, here.cascades, here.cascades.len() as int);
        let second = all_removed(first.state, others, 0, inner, none, bound);
        lemma_all_removed(first.state, others, 0, inner, none, bound);
        lemma_stays_finite(first.state, second.state);
        let third = references_taken(second.state, pointer, rules, rules.len() as int);
        lemma_references_taken(second.state, pointer, rules, rules.len() as int);
        assert(third.result is Ok);
        assert(unreferred(third.state.store, rules[i], pointer));
        assert forall|k: Seq<char>| #[trigger]
            has_record(done.state.store, rules[i].target, k) implies has_record(
            third.state.store,
            rules[i].target,
            k,
        ) by {}
    }
}

} // verus!
