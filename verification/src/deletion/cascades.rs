//! What goes with a record that is deleted, and what stays.
use crate::deletion::references::all_finite;
use crate::deletion::{
    all_removed, cascade_children, child_keys, field_pointers, has_record, lemma_path_grows,
    pointers_among, pointers_in, pointers_of, pointers_to, record_refers, references_taken,
    referring, removed, restriction, side_effects, unlinked, unlinked_all, unlinked_one,
    DeleteAction, DeletionModel, DrawerState, RuleModel,
};
use crate::fields::{key_order, lemma_key_order_len};
use crate::pointer::{pointer_parts, pointer_text};
use crate::value::{without_text, Json};
use vstd::prelude::*;

verus! {

/// Whether a store is what is left of another: the drawers and their rules are the same, no
/// record is new, and no record refers to another where it did not before.
pub open spec fn is_left_of(
    after: Map<Seq<char>, DrawerState>,
    before: Map<Seq<char>, DrawerState>,
) -> bool {
    &&& after.dom() == before.dom()
    &&& forall|d: Seq<char>| #[trigger]
        before.dom().contains(d) ==> after[d].rules == before[d].rules && after[d].cascades
            == before[d].cascades
    &&& forall|d: Seq<char>, k: Seq<char>| #[trigger]
        has_record(after, d, k) ==> has_record(before, d, k)
    &&& forall|d: Seq<char>, k: Seq<char>, f: Seq<char>, p: Seq<char>|
        has_record(after, d, k) && #[trigger] record_refers(after[d].records[k], f, p)
            ==> record_refers(before[d].records[k], f, p)
}

pub proof fn lemma_left_of_both(
    first: Map<Seq<char>, DrawerState>,
    second: Map<Seq<char>, DrawerState>,
    third: Map<Seq<char>, DrawerState>,
)
    requires
        is_left_of(second, first),
        is_left_of(third, second),
    ensures
        is_left_of(third, first),
{
    assert forall|d: Seq<char>, k: Seq<char>, f: Seq<char>, p: Seq<char>|
        has_record(third, d, k) && #[trigger] record_refers(
            third[d].records[k],
            f,
            p,
        ) implies record_refers(first[d].records[k], f, p) by {
        assert(has_record(second, d, k));
        assert(record_refers(second[d].records[k], f, p));
    }
}

pub proof fn lemma_without_text_from(items: Seq<Json>, text: Seq<char>, n: int, i: int)
    requires
        0 <= n <= items.len(),
        0 <= i < without_text(items, text, n).len(),
    ensures
        items.contains(without_text(items, text, n)[i]),
    decreases n,
{
    if n > 0 {
        let before = without_text(items, text, n - 1);
        if i < before.len() {
            lemma_without_text_from(items, text, n - 1, i);
        } else {
            assert(items[n - 1] == without_text(items, text, n)[i]);
        }
    }
}

/// A record that lost a reference refers to nothing that it did not refer to before.
proof fn lemma_unlinked_refers(
    record: Json,
    field: Seq<char>,
    pointer: Seq<char>,
    f: Seq<char>,
    p: Seq<char>,
)
    requires
        record_refers(unlinked(record, field, pointer), f, p),
    ensures
        record_refers(record, f, p),
{
    let after = unlinked(record, field, pointer);
    match record.get(field) {
        Some(Json::Array(items)) => {
            let n = items.len() as int;
            let rest = without_text(items, pointer, n);
            if f == field {
                assert(after.get(f) == Some(Json::Array(rest)));
                let i = choose|i: int| 0 <= i < rest.len() && (#[trigger] rest[i]) == Json::Text(p);
                lemma_without_text_from(items, pointer, n, i);
                let j = choose|j: int| 0 <= j < items.len() && items[j] == rest[i];
                assert(items[j] == Json::Text(p));
            } else {
                assert(after.get(f) == record.get(f));
            }
        },
        Some(_) => {
            if f == field {
                assert(after.get(f) == Some(Json::Null));
            } else {
                assert(after.get(f) == record.get(f));
            }
        },
        None => {
            assert(after == record);
        },
    }
}

proof fn lemma_unlinked_one_left(
    state: DeletionModel,
    drawer: Seq<char>,
    field: Seq<char>,
    pointer: Seq<char>,
    key: Seq<char>,
)
    ensures
        is_left_of(unlinked_one(state, drawer, field, pointer, key).state.store, state.store),
{
    let before = state.store;
    let after = unlinked_one(state, drawer, field, pointer, key).state.store;
    assert(after.dom() =~= before.dom());
    assert forall|d: Seq<char>, k: Seq<char>, f: Seq<char>, p: Seq<char>|
        has_record(after, d, k) && #[trigger] record_refers(
            after[d].records[k],
            f,
            p,
        ) implies record_refers(before[d].records[k], f, p) by {
        if d == drawer && k == key && after != before {
            lemma_unlinked_refers(before[drawer].records[key], field, pointer, f, p);
        }
    }
}

pub proof fn lemma_unlinked_all_left(
    state: DeletionModel,
    drawer: Seq<char>,
    field: Seq<char>,
    pointer: Seq<char>,
    keys: Seq<Seq<char>>,
    n: int,
)
    ensures
        is_left_of(
            unlinked_all(state, drawer, field, pointer, keys, n).state.store,
            state.store,
        ),
    decreases n,
{
    if n > 0 {
        lemma_unlinked_all_left(state, drawer, field, pointer, keys, n - 1);
        let before = unlinked_all(state, drawer, field, pointer, keys, n - 1);
        if before.result is Ok {
            lemma_unlinked_one_left(before.state, drawer, field, pointer, keys[n - 1]);
            lemma_left_of_both(
                state.store,
                before.state.store,
                unlinked_one(before.state, drawer, field, pointer, keys[n - 1]).state.store,
            );
        }
    }
}

pub proof fn lemma_references_taken_left(
    state: DeletionModel,
    pointer: Seq<char>,
    rules: Seq<RuleModel>,
    n: int,
)
    ensures
        is_left_of(references_taken(state, pointer, rules, n).state.store, state.store),
    decreases n,
{
    if n > 0 {
        lemma_references_taken_left(state, pointer, rules, n - 1);
        let before = references_taken(state, pointer, rules, n - 1);
        let rule = rules[n - 1];
        if before.result is Ok && rule.action == DeleteAction::SetNull {
            let keys = child_keys(before.state.store, rule, pointer);
            let count = keys.len() as int;
            lemma_unlinked_all_left(
                before.state,
                rule.target,
                rule.field,
                pointer,
                keys,
                count,
            );
            lemma_left_of_both(
                state.store,
                before.state.store,
                unlinked_all(
                    before.state,
                    rule.target,
                    rule.field,
                    pointer,
                    keys,
                    count,
                ).state.store,
            );
        }
    }
}

pub proof fn lemma_removed_left(
    state: DeletionModel,
    pointer: Seq<char>,
    path: Set<Seq<char>>,
    bound: Set<Seq<char>>,
)
    ensures
        is_left_of(removed(state, pointer, path, bound).state.store, state.store),
    decreases bound.difference(path).len(), 3int, 0int,
{
    if !path.contains(pointer) {
        match pointer_parts(pointer) {
            Some((drawer, key)) => {
                if has_record(state.store, drawer, key) {
                    let here = state.store[drawer];
                    let none = Set::<Seq<char>>::empty();
                    let record = here.records[key];
                    lemma_side_effects_left(
                        state,
                        pointer,
                        record,
                        here.cascades,
                        here.rules,
                        path,
                        none,
                        bound,
                    );
                    let effects = side_effects(
                        state,
                        pointer,
                        record,
                        here.cascades,
                        here.rules,
                        path,
                        none,
                        bound,
                    );
                    let after = removed(state, pointer, path, bound).state.store;
                    if effects.result is Ok && has_record(effects.state.store, drawer, key) {
                        assert(after.dom() =~= effects.state.store.dom());
                        assert(is_left_of(after, effects.state.store));
                        lemma_left_of_both(state.store, effects.state.store, after);
                    }
                }
            },
            None => {},
        }
    }
}

pub proof fn lemma_side_effects_left(
    state: DeletionModel,
    pointer: Seq<char>,
    record: Json,
    fields: Seq<Seq<char>>,
    rules: Seq<RuleModel>,
    path: Set<Seq<char>>,
    skip: Set<Seq<char>>,
    bound: Set<Seq<char>>,
)
    ensures
        is_left_of(
            side_effects(
                state,
                pointer,
                record,
                fields,
                rules,
                path,
                skip,
                bound,
            ).state.store,
            state.store,
        ),
    decreases bound.difference(path).len(), 2int, 0int,
{
    if !path.contains(pointer) && bound.contains(pointer) && bound.finite() && restriction(
        state.store,
        pointer,
        rules,
        0,
    ) is None {
        lemma_path_grows(bound, path, pointer);
        let inner = path.insert(pointer);
        let children = cascade_children(state.store, pointer, rules, rules.len() as int);
        lemma_all_removed_left(state, children, 0, inner, skip, bound);
        let first = all_removed(state, children, 0, inner, skip, bound);
        if first.result is Ok {
            let others = field_pointers(record, fields, fields.len() as int);
            lemma_all_removed_left(first.state, others, 0, inner, skip, bound);
            let second = all_removed(first.state, others, 0, inner, skip, bound);
            lemma_left_of_both(state.store, first.state.store, second.state.store);
            if second.result is Ok {
                let n = rules.len() as int;
                lemma_references_taken_left(second.state, pointer, rules, n);
                lemma_left_of_both(
                    state.store,
                    second.state.store,
                    references_taken(second.state, pointer, rules, n).state.store,
                );
            }
        }
    }
}

pub proof fn lemma_all_removed_left(
    state: DeletionModel,
    pointers: Seq<Seq<char>>,
    i: int,
    path: Set<Seq<char>>,
    skip: Set<Seq<char>>,
    bound: Set<Seq<char>>,
)
    ensures
        is_left_of(all_removed(state, pointers, i, path, skip, bound).state.store, state.store),
    decreases bound.difference(path).len(), 4int, pointers.len() - i,
{
    if 0 <= i < pointers.len() {
        if skip.contains(pointers[i]) {
            lemma_all_removed_left(state, pointers, i + 1, path, skip, bound);
        } else {
            lemma_removed_left(state, pointers[i], path, bound);
            let one = removed(state, pointers[i], path, bound);
            if one.result is Ok {
                lemma_all_removed_left(one.state, pointers, i + 1, path, skip, bound);
                lemma_left_of_both(
                    state.store,
                    one.state.store,
                    all_removed(one.state, pointers, i + 1, path, skip, bound).state.store,
                );
            }
        }
    }
}

/// The records that a list of pointers names are gone once all of them were deleted, but for those
/// that are being deleted already and those to skip.
pub proof fn lemma_all_gone(
    state: DeletionModel,
    pointers: Seq<Seq<char>>,
    i: int,
    path: Set<Seq<char>>,
    skip: Set<Seq<char>>,
    bound: Set<Seq<char>>,
    j: int,
)
    requires
        0 <= i <= j < pointers.len(),
        all_removed(state, pointers, i, path, skip, bound).result is Ok,
        !skip.contains(pointers[j]),
        !path.contains(pointers[j]),
    ensures
        pointer_parts(pointers[j]) matches Some((drawer, key)) && !has_record(
            all_removed(state, pointers, i, path, skip, bound).state.store,
            drawer,
            key,
        ),
    decreases pointers.len() - i,
{
    if skip.contains(pointers[i]) {
        lemma_all_gone(state, pointers, i + 1, path, skip, bound, j);
    } else {
        let one = removed(state, pointers[i], path, bound);
        if i == j {
            lemma_all_removed_left(one.state, pointers, i + 1, path, skip, bound);
        } else {
            lemma_all_gone(one.state, pointers, i + 1, path, skip, bound, j);
        }
    }
}

/// The records that refer to a record by a rule are all listed, and no others.
pub proof fn lemma_child_keys(
    store: Map<Seq<char>, DrawerState>,
    rule: RuleModel,
    pointer: Seq<char>,
    key: Seq<char>,
)
    requires
        all_finite(store),
    ensures
        child_keys(store, rule, pointer).contains(key) <==> has_record(store, rule.target, key)
            && record_refers(store[rule.target].records[key], rule.field, pointer),
{
    if store.dom().contains(rule.target) {
        let records = store[rule.target].records;
        let keys = key_order(records.dom());
        lemma_key_order_len(records.dom());
        assert(keys.take(keys.len() as int) =~= keys);
        lemma_referring_exact(records, rule.field, pointer, keys, keys.len() as int, key);
    }
}

proof fn lemma_referring_exact(
    records: Map<Seq<char>, Json>,
    field: Seq<char>,
    pointer: Seq<char>,
    keys: Seq<Seq<char>>,
    n: int,
    key: Seq<char>,
)
    requires
        0 <= n <= keys.len(),
    ensures
        referring(records, field, pointer, keys, n).contains(key) <==> keys.take(n).contains(key)
            && record_refers(records[key], field, pointer),
    decreases n,
{
    let all = referring(records, field, pointer, keys, n);
    if n > 0 {
        let before = referring(records, field, pointer, keys, n - 1);
        lemma_referring_exact(records, field, pointer, keys, n - 1, key);
        let fewer = keys.take(n - 1);
        let more = keys.take(n);
        assert(more =~= fewer.push(keys[n - 1]));
        if more.contains(key) && key != keys[n - 1] {
            let i = choose|i: int| 0 <= i < more.len() && more[i] == key;
            assert(fewer[i] == key);
        }
        if fewer.contains(key) {
            let i = choose|i: int| 0 <= i < fewer.len() && fewer[i] == key;
            assert(more[i] == key);
        }
        assert(more[n - 1] == keys[n - 1]);
        if before.contains(key) {
            let i = choose|i: int| 0 <= i < before.len() && before[i] == key;
            assert(all[i] == key);
        }
        if all.contains(key) {
            let i = choose|i: int| 0 <= i < all.len() && all[i] == key;
            if i < before.len() {
                assert(before[i] == key);
            }
        }
        if record_refers(records[keys[n - 1]], field, pointer) {
            assert(all.last() == keys[n - 1]);
        }
    }
}

pub proof fn lemma_cascade_children(
    store: Map<Seq<char>, DrawerState>,
    pointer: Seq<char>,
    rules: Seq<RuleModel>,
    n: int,
    i: int,
    key: Seq<char>,
)
    requires
        all_finite(store),
        0 <= i < n <= rules.len(),
        rules[i].action == DeleteAction::Cascade,
        has_record(store, rules[i].target, key),
        record_refers(store[rules[i].target].records[key], rules[i].field, pointer),
    ensures
        cascade_children(store, pointer, rules, n).contains(pointer_text(rules[i].target, key)),
    decreases n,
{
    let all = cascade_children(store, pointer, rules, n);
    let before = cascade_children(store, pointer, rules, n - 1);
    let wanted = pointer_text(rules[i].target, key);
    if i == n - 1 {
        let keys = child_keys(store, rules[i], pointer);
        lemma_child_keys(store, rules[i], pointer, key);
        let j = choose|j: int| 0 <= j < keys.len() && keys[j] == key;
        assert(pointers_to(rules[i].target, keys)[j] == wanted);
        assert(all[before.len() + j] == wanted);
    } else {
        lemma_cascade_children(store, pointer, rules, n - 1, i, key);
        let j = choose|j: int| 0 <= j < before.len() && before[j] == wanted;
        assert(all[j] == wanted);
    }
}

proof fn lemma_pointers_among(items: Seq<Json>, n: int, i: int)
    requires
        0 <= i < n <= items.len(),
        items[i] matches Json::Text(s) && pointer_parts(s) is Some,
    ensures
        pointers_among(items, n).contains(items[i]->Text_0),
    decreases n,
{
    let all = pointers_among(items, n);
    if i == n - 1 {
        assert(all.last() == items[i]->Text_0);
    } else {
        lemma_pointers_among(items, n - 1, i);
        let before = pointers_among(items, n - 1);
        let j = choose|j: int| 0 <= j < before.len() && before[j] == items[i]->Text_0;
        assert(all[j] == items[i]->Text_0);
    }
}

pub proof fn lemma_field_pointers(
    record: Json,
    fields: Seq<Seq<char>>,
    n: int,
    i: int,
    pointer: Seq<char>,
)
    requires
        0 <= i < n <= fields.len(),
        record_refers(record, fields[i], pointer),
        pointer_parts(pointer) is Some,
    ensures
        field_pointers(record, fields, n).contains(pointer),
    decreases n,
{
    let all = field_pointers(record, fields, n);
    let before = field_pointers(record, fields, n - 1);
    if i == n - 1 {
        let value = record.get(fields[i])->0;
        match value {
            Json::Text(s) => {
                lemma_pointers_among(seq![value], 1, 0);
            },
            Json::Array(items) => {
                let k = choose|k: int|
                    0 <= k < items.len() && (#[trigger] items[k]) == Json::Text(pointer);
                lemma_pointers_among(items, items.len() as int, k);
            },
            _ => {},
        }
        let found = pointers_in(value);
        let j = choose|j: int| 0 <= j < found.len() && found[j] == pointer;
        assert(all[before.len() + j] == pointer);
    } else {
        lemma_field_pointers(record, fields, n - 1, i, pointer);
        let j = choose|j: int| 0 <= j < before.len() && before[j] == pointer;
        assert(all[j] == pointer);
    }
}

/// Once a record was deleted, no record that a cascade rule of its drawer is about, and that a
/// pointer can name, still refers to it by the field of that rule.
pub proof fn law_cascade_rule_leaves_no_child(
    state: DeletionModel,
    pointer: Seq<char>,
    i: int,
    child: Seq<char>,
)
    requires
        all_finite(state.store),
        pointers_of(state.store).finite(),
        removed(state, pointer, Set::empty(), pointers_of(state.store)).result is Ok,
        pointer_parts(pointer) matches Some((drawer, key)) && has_record(state.store, drawer, key)
            && 0 <= i < state.store[drawer].rules.len() && state.store[drawer].rules[i].action
            == DeleteAction::Cascade && pointer_parts(
            pointer_text(state.store[drawer].rules[i].target, child),
        ) == Some((state.store[drawer].rules[i].target, child)),
    ensures
        ({
            let after = removed(
                state,
                pointer,
                Set::empty(),
                pointers_of(state.store),
            ).state.store;
            let rule = state.store[(pointer_parts(pointer)->0).0].rules[i];
            has_record(after, rule.target, child) ==> !record_refers(
                after[rule.target].records[child],
                rule.field,
                pointer,
            )
        }),
{
    let (drawer, key) = pointer_parts(pointer)->0;
    let bound = pointers_of(state.store);
    let here = state.store[drawer];
    let rules = here.rules;
    let rule = rules[i];
    let n = rules.len() as int;
    let none = Set::<Seq<char>>::empty();
    let inner = none.insert(pointer);
    let done = removed(state, pointer, none, bound);
    let after = done.state.store;
    assert(bound.contains(pointer));
    lemma_removed_left(state, pointer, none, bound);
    if has_record(after, rule.target, child) && record_refers(
        after[rule.target].records[child],
        rule.field,
        pointer,
    ) {
        lemma_cascade_children(state.store, pointer, rules, n, i, child);
        let children = cascade_children(state.store, pointer, rules, n);
        let named = pointer_text(rule.target, child);
        let j = choose|j: int| 0 <= j < children.len() && children[j] == named;
        let first = all_removed(state, children, 0, inner, none, bound);
        let others = field_pointers(here.records[key], here.cascades, here.cascades.len() as int);
        let second = all_removed(first.state, others, 0, inner, none, bound);
        let third = references_taken(second.state, pointer, rules, n);
        lemma_all_removed_left(first.state, others, 0, inner, none, bound);
        lemma_references_taken_left(second.state, pointer, rules, n);
        assert(third.result is Ok);
        if named != pointer {
            lemma_all_gone(state, children, 0, inner, none, bound, j);
            assert(!has_record(first.state.store, rule.target, child));
            assert(!has_record(third.state.store, rule.target, child));
        }
    }
}

/// Once a record was deleted, no record is left that a cascade field of it pointed to.
pub proof fn law_cascade_field_leaves_no_record(
    state: DeletionModel,
    pointer: Seq<char>,
    i: int,
    other: Seq<char>,
)
    requires
        pointers_of(state.store).finite(),
        removed(state, pointer, Set::empty(), pointers_of(state.store)).result is Ok,
        pointer_parts(other) is Some,
        pointer_parts(pointer) matches Some((drawer, key)) && has_record(state.store, drawer, key)
            && 0 <= i < state.store[drawer].cascades.len() && record_refers(
            state.store[drawer].records[key],
            state.store[drawer].cascades[i],
            other,
        ),
    ensures
        ({
            let after = removed(
                state,
                pointer,
                Set::empty(),
                pointers_of(state.store),
            ).state.store;
            pointer_parts(other) matches Some((drawer, key)) && !has_record(after, drawer, key)
        }),
{
    let (drawer, key) = pointer_parts(pointer)->0;
    let bound = pointers_of(state.store);
    let here = state.store[drawer];
    let rules = here.rules;
    let n = rules.len() as int;
    let none = Set::<Seq<char>>::empty();
    let inner = none.insert(pointer);
    assert(bound.contains(pointer));
    let children = cascade_children(state.store, pointer, rules, n);
    let first = all_removed(state, children, 0, inner, none, bound);
    let count = here.cascades.len() as int;
    let others = field_pointers(here.records[key], here.cascades, count);
    lemma_field_pointers(here.records[key], here.cascades, count, i, other);
    let j = choose|j: int| 0 <= j < others.len() && others[j] == other;
    let second = all_removed(first.state, others, 0, inner, none, bound);
    let third = references_taken(second.state, pointer, rules, n);
    lemma_references_taken_left(second.state, pointer, rules, n);
    assert(third.result is Ok);
    let (d, k) = pointer_parts(other)->0;
    if other != pointer {
        lemma_all_gone(first.state, others, 0, inner, none, bound, j);
        assert(!has_record(second.state.store, d, k));
        assert(!has_record(third.state.store, d, k));
    }
}

/// Whether a record goes with another: it refers to that one by a cascade rule of that one's
/// drawer, or a cascade field of that one points to it.
pub open spec fn goes_with(
    store: Map<Seq<char>, DrawerState>,
    pointer: Seq<char>,
    other: Seq<char>,
) -> bool {
    pointer_parts(pointer) matches Some((drawer, key)) && has_record(store, drawer, key) && ((exists|
        i: int,
        child: Seq<char>,
    | #[trigger]
        is_child(store, drawer, i, pointer, child) && other == pointer_text(
            store[drawer].rules[i].target,
            child,
        )) || (exists|i: int|
        0 <= i < store[drawer].cascades.len() && record_refers(
            store[drawer].records[key],
            #[trigger] store[drawer].cascades[i],
            other,
        )))
}

/// Whether a record refers to a pointer by a cascade rule of a drawer.
pub open spec fn is_child(
    store: Map<Seq<char>, DrawerState>,
    drawer: Seq<char>,
    i: int,
    pointer: Seq<char>,
    child: Seq<char>,
) -> bool {
    &&& 0 <= i < store[drawer].rules.len()
    &&& store[drawer].rules[i].action == DeleteAction::Cascade
    &&& has_record(store, store[drawer].rules[i].target, child)
    &&& record_refers(
        store[store[drawer].rules[i].target].records[child],
        store[drawer].rules[i].field,
        pointer,
    )
}

/// Whether a record hangs on another over `n` steps.
pub open spec fn hangs_on(
    store: Map<Seq<char>, DrawerState>,
    root: Seq<char>,
    pointer: Seq<char>,
    n: nat,
) -> bool
    decreases n,
{
    if n == 0 {
        pointer == root
    } else {
        exists|middle: Seq<char>|
            hangs_on(store, root, middle, (n - 1) as nat) && #[trigger] goes_with(
                store,
                middle,
                pointer,
            )
    }
}

/// Whether a record hangs on another, over however many steps.
pub open spec fn hangs_somehow(
    store: Map<Seq<char>, DrawerState>,
    root: Seq<char>,
    pointer: Seq<char>,
) -> bool {
    exists|n: nat| #[trigger] hangs_on(store, root, pointer, n)
}

/// Whether every record that went hangs on another.
pub open spec fn only_hanging_went(
    base: Map<Seq<char>, DrawerState>,
    root: Seq<char>,
    before: Map<Seq<char>, DrawerState>,
    after: Map<Seq<char>, DrawerState>,
) -> bool {
    forall|d: Seq<char>, k: Seq<char>| #[trigger]
        has_record(before, d, k) && !has_record(after, d, k) ==> exists|p: Seq<char>| #[trigger]
            hangs_somehow(base, root, p) && pointer_parts(p) == Some((d, k))
}

proof fn lemma_hangs_on(
    base: Map<Seq<char>, DrawerState>,
    root: Seq<char>,
    middle: Seq<char>,
    pointer: Seq<char>,
)
    requires
        hangs_somehow(base, root, middle),
        goes_with(base, middle, pointer),
    ensures
        hangs_somehow(base, root, pointer),
{
    let n = choose|n: nat| #[trigger] hangs_on(base, root, middle, n);
    let more: nat = n + 1;
    assert(hangs_on(base, root, middle, (more - 1) as nat));
    assert(hangs_on(base, root, pointer, more));
}

pub proof fn lemma_cascade_children_from(
    store: Map<Seq<char>, DrawerState>,
    drawer: Seq<char>,
    pointer: Seq<char>,
    n: int,
    other: Seq<char>,
)
    requires
        all_finite(store),
        0 <= n <= store[drawer].rules.len(),
        cascade_children(store, pointer, store[drawer].rules, n).contains(other),
    ensures
        exists|i: int, child: Seq<char>| #[trigger]
            is_child(store, drawer, i, pointer, child) && other == pointer_text(
                store[drawer].rules[i].target,
                child,
            ),
    decreases n,
{
    let rules = store[drawer].rules;
    let all = cascade_children(store, pointer, rules, n);
    let j = choose|j: int| 0 <= j < all.len() && all[j] == other;
    if n > 0 {
        let before = cascade_children(store, pointer, rules, n - 1);
        if j < before.len() {
            assert(before[j] == other);
            lemma_cascade_children_from(store, drawer, pointer, n - 1, other);
        } else {
            let keys = child_keys(store, rules[n - 1], pointer);
            let child = keys[j - before.len()];
            assert(keys.contains(child));
            lemma_child_keys(store, rules[n - 1], pointer, child);
            assert(pointers_to(rules[n - 1].target, keys)[j - before.len()] == other);
            assert(is_child(store, drawer, n - 1, pointer, child));
        }
    }
}

proof fn lemma_pointers_among_from(items: Seq<Json>, n: int, pointer: Seq<char>)
    requires
        0 <= n <= items.len(),
        pointers_among(items, n).contains(pointer),
    ensures
        exists|i: int| 0 <= i < n && (#[trigger] items[i]) == Json::Text(pointer),
        pointer_parts(pointer) is Some,
    decreases n,
{
    let all = pointers_among(items, n);
    let j = choose|j: int| 0 <= j < all.len() && all[j] == pointer;
    if n > 0 {
        let before = pointers_among(items, n - 1);
        if j < before.len() {
            assert(before[j] == pointer);
            lemma_pointers_among_from(items, n - 1, pointer);
        } else {
            assert(items[n - 1] == Json::Text(pointer));
        }
    }
}

pub proof fn lemma_field_pointers_from(
    record: Json,
    fields: Seq<Seq<char>>,
    n: int,
    pointer: Seq<char>,
)
    requires
        0 <= n <= fields.len(),
        field_pointers(record, fields, n).contains(pointer),
    ensures
        exists|i: int| 0 <= i < n && record_refers(record, #[trigger] fields[i], pointer),
        pointer_parts(pointer) is Some,
    decreases n,
{
    let all = field_pointers(record, fields, n);
    let j = choose|j: int| 0 <= j < all.len() && all[j] == pointer;
    if n > 0 {
        let before = field_pointers(record, fields, n - 1);
        if j < before.len() {
            assert(before[j] == pointer);
            lemma_field_pointers_from(record, fields, n - 1, pointer);
        } else {
            let value = record.get(fields[n - 1])->0;
            let found = pointers_in(value);
            assert(found[j - before.len()] == pointer);
            assert(found.contains(pointer));
            match value {
                Json::Text(_) => {
                    lemma_pointers_among_from(seq![value], 1, pointer);
                },
                Json::Array(items) => {
                    lemma_pointers_among_from(items, items.len() as int, pointer);
                },
                _ => {},
            }
            assert(record_refers(record, fields[n - 1], pointer));
        }
    }
}

proof fn lemma_went_both(
    base: Map<Seq<char>, DrawerState>,
    root: Seq<char>,
    first: Map<Seq<char>, DrawerState>,
    second: Map<Seq<char>, DrawerState>,
    third: Map<Seq<char>, DrawerState>,
)
    requires
        only_hanging_went(base, root, first, second),
        only_hanging_went(base, root, second, third),
    ensures
        only_hanging_went(base, root, first, third),
{
    assert forall|d: Seq<char>, k: Seq<char>| #[trigger]
        has_record(first, d, k) && !has_record(third, d, k) implies exists|p: Seq<char>| #[trigger]
        hangs_somehow(base, root, p) && pointer_parts(p) == Some((d, k)) by {
        if has_record(second, d, k) {
        }
    }
}

/// To take references away takes no record away.
proof fn lemma_unlinked_all_records(
    state: DeletionModel,
    drawer: Seq<char>,
    field: Seq<char>,
    pointer: Seq<char>,
    keys: Seq<Seq<char>>,
    n: int,
)
    ensures
        forall|d: Seq<char>, k: Seq<char>| #[trigger]
            has_record(state.store, d, k) ==> has_record(
                unlinked_all(state, drawer, field, pointer, keys, n).state.store,
                d,
                k,
            ),
    decreases n,
{
    if n > 0 {
        lemma_unlinked_all_records(state, drawer, field, pointer, keys, n - 1);
    }
}

pub proof fn lemma_references_taken_records(
    state: DeletionModel,
    pointer: Seq<char>,
    rules: Seq<RuleModel>,
    n: int,
)
    ensures
        forall|d: Seq<char>, k: Seq<char>| #[trigger]
            has_record(state.store, d, k) ==> has_record(
                references_taken(state, pointer, rules, n).state.store,
                d,
                k,
            ),
    decreases n,
{
    if n > 0 {
        lemma_references_taken_records(state, pointer, rules, n - 1);
        let before = references_taken(state, pointer, rules, n - 1);
        let rule = rules[n - 1];
        if before.result is Ok && rule.action == DeleteAction::SetNull {
            let keys = child_keys(before.state.store, rule, pointer);
            lemma_unlinked_all_records(
                before.state,
                rule.target,
                rule.field,
                pointer,
                keys,
                keys.len() as int,
            );
        }
    }
}

pub proof fn lemma_left_finite(
    after: Map<Seq<char>, DrawerState>,
    before: Map<Seq<char>, DrawerState>,
)
    requires
        all_finite(before),
        is_left_of(after, before),
    ensures
        all_finite(after),
{
    assert forall|d: Seq<char>| #[trigger] after.dom().contains(d) implies after[d].records.dom().finite() by {
        assert(before.dom().contains(d));
        let a = after[d].records.dom();
        let b = before[d].records.dom();
        assert forall|k: Seq<char>| a.contains(k) implies b.contains(k) by {
            assert(has_record(after, d, k));
            assert(has_record(before, d, k));
        }
        vstd::set_lib::lemma_set_subset_finite(b, a);
    }
}

/// What goes with a record in what is left of a store went with it before.
proof fn lemma_goes_with_left(
    base: Map<Seq<char>, DrawerState>,
    store: Map<Seq<char>, DrawerState>,
    pointer: Seq<char>,
    other: Seq<char>,
)
    requires
        is_left_of(store, base),
        goes_with(store, pointer, other),
    ensures
        goes_with(base, pointer, other),
{
    let (drawer, key) = pointer_parts(pointer)->0;
    assert(has_record(store, drawer, key));
    assert(has_record(base, drawer, key));
    assert(base.dom().contains(drawer));
    if exists|i: int, child: Seq<char>| #[trigger]
        is_child(store, drawer, i, pointer, child) && other == pointer_text(
            store[drawer].rules[i].target,
            child,
        ) {
        let (i, child) = choose|i: int, child: Seq<char>| #[trigger]
            is_child(store, drawer, i, pointer, child) && other == pointer_text(
                store[drawer].rules[i].target,
                child,
            );
        let target = store[drawer].rules[i].target;
        assert(has_record(store, target, child));
        assert(is_child(base, drawer, i, pointer, child));
    } else {
        let i = choose|i: int|
            0 <= i < store[drawer].cascades.len() && record_refers(
                store[drawer].records[key],
                #[trigger] store[drawer].cascades[i],
                other,
            );
        assert(record_refers(base[drawer].records[key], base[drawer].cascades[i], other));
    }
}

proof fn lemma_removed_went(
    base: Map<Seq<char>, DrawerState>,
    root: Seq<char>,
    state: DeletionModel,
    pointer: Seq<char>,
    path: Set<Seq<char>>,
    bound: Set<Seq<char>>,
)
    requires
        all_finite(state.store),
        is_left_of(state.store, base),
        hangs_somehow(base, root, pointer),
    ensures
        only_hanging_went(
            base,
            root,
            state.store,
            removed(state, pointer, path, bound).state.store,
        ),
    decreases bound.difference(path).len(), 3int, 0int,
{
    if !path.contains(pointer) {
        match pointer_parts(pointer) {
            Some((drawer, key)) => {
                if has_record(state.store, drawer, key) {
                    let here = state.store[drawer];
                    let none = Set::<Seq<char>>::empty();
                    let record = here.records[key];
                    lemma_side_effects_went(base, root, state, pointer, path, bound);
                    let effects = side_effects(
                        state,
                        pointer,
                        record,
                        here.cascades,
                        here.rules,
                        path,
                        none,
                        bound,
                    );
                    let after = removed(state, pointer, path, bound).state.store;
                    assert forall|d: Seq<char>, k: Seq<char>| #[trigger]
                        has_record(state.store, d, k) && !has_record(after, d, k) implies exists|
                        p: Seq<char>,
                    | #[trigger] hangs_somehow(base, root, p) && pointer_parts(p) == Some((d, k)) by {
                        if d == drawer && k == key {
                            assert(hangs_somehow(base, root, pointer));
                        } else {
                            assert(!has_record(effects.state.store, d, k));
                        }
                    }
                }
            },
            None => {},
        }
    }
}

proof fn lemma_side_effects_went(
    base: Map<Seq<char>, DrawerState>,
    root: Seq<char>,
    state: DeletionModel,
    pointer: Seq<char>,
    path: Set<Seq<char>>,
    bound: Set<Seq<char>>,
)
    requires
        all_finite(state.store),
        is_left_of(state.store, base),
        hangs_somehow(base, root, pointer),
        pointer_parts(pointer) matches Some((drawer, key)) && has_record(state.store, drawer, key),
    ensures
        ({
            let (drawer, key) = pointer_parts(pointer)->0;
            let here = state.store[drawer];
            only_hanging_went(
                base,
                root,
                state.store,
                side_effects(
                    state,
                    pointer,
                    here.records[key],
                    here.cascades,
                    here.rules,
                    path,
                    Set::empty(),
                    bound,
                ).state.store,
            )
        }),
    decreases bound.difference(path).len(), 2int, 0int,
{
    let (drawer, key) = pointer_parts(pointer)->0;
    let here = state.store[drawer];
    let rules = here.rules;
    let fields = here.cascades;
    let record = here.records[key];
    let skip = Set::<Seq<char>>::empty();
    if !path.contains(pointer) && bound.contains(pointer) && bound.finite() && restriction(
        state.store,
        pointer,
        rules,
        0,
    ) is None {
        lemma_path_grows(bound, path, pointer);
        let inner = path.insert(pointer);
        let n = rules.len() as int;
        let children = cascade_children(state.store, pointer, rules, n);
        assert forall|j: int| 0 <= j < children.len() implies hangs_somehow(
            base,
            root,
            #[trigger] children[j],
        ) by {
            assert(children.contains(children[j]));
            lemma_cascade_children_from(state.store, drawer, pointer, n, children[j]);
            assert(goes_with(state.store, pointer, children[j]));
            lemma_goes_with_left(base, state.store, pointer, children[j]);
            lemma_hangs_on(base, root, pointer, children[j]);
        }
        lemma_all_removed_went(base, root, state, children, 0, inner, skip, bound);
        lemma_all_removed_left(state, children, 0, inner, skip, bound);
        let first = all_removed(state, children, 0, inner, skip, bound);
        if first.result is Ok {
            let count = fields.len() as int;
            let others = field_pointers(record, fields, count);
            lemma_left_of_both(base, state.store, first.state.store);
            lemma_left_finite(first.state.store, state.store);
            assert forall|j: int| 0 <= j < others.len() implies hangs_somehow(
                base,
                root,
                #[trigger] others[j],
            ) by {
                assert(others.contains(others[j]));
                lemma_field_pointers_from(record, fields, count, others[j]);
                assert(goes_with(state.store, pointer, others[j]));
                lemma_goes_with_left(base, state.store, pointer, others[j]);
                lemma_hangs_on(base, root, pointer, others[j]);
            }
            lemma_all_removed_went(base, root, first.state, others, 0, inner, skip, bound);
            let second = all_removed(first.state, others, 0, inner, skip, bound);
            lemma_went_both(
                base,
                root,
                state.store,
                first.state.store,
                second.state.store,
            );
            if second.result is Ok {
                lemma_references_taken_records(second.state, pointer, rules, n);
                lemma_went_both(
                    base,
                    root,
                    state.store,
                    second.state.store,
                    references_taken(second.state, pointer, rules, n).state.store,
                );
            }
        }
    }
}

proof fn lemma_all_removed_went(
    base: Map<Seq<char>, DrawerState>,
    root: Seq<char>,
    state: DeletionModel,
    pointers: Seq<Seq<char>>,
    i: int,
    path: Set<Seq<char>>,
    skip: Set<Seq<char>>,
    bound: Set<Seq<char>>,
)
    requires
        all_finite(state.store),
        is_left_of(state.store, base),
        forall|j: int|
            0 <= j < pointers.len() ==> hangs_somehow(base, root, #[trigger] pointers[j]),
    ensures
        only_hanging_went(
            base,
            root,
            state.store,
            all_removed(state, pointers, i, path, skip, bound).state.store,
        ),
    decreases bound.difference(path).len(), 4int, pointers.len() - i,
{
    if 0 <= i < pointers.len() {
        if skip.contains(pointers[i]) {
            lemma_all_removed_went(base, root, state, pointers, i + 1, path, skip, bound);
        } else {
            lemma_removed_went(base, root, state, pointers[i], path, bound);
            lemma_removed_left(state, pointers[i], path, bound);
            let one = removed(state, pointers[i], path, bound);
            if one.result is Ok {
                lemma_left_of_both(base, state.store, one.state.store);
                lemma_left_finite(one.state.store, state.store);
                lemma_all_removed_went(base, root, one.state, pointers, i + 1, path, skip, bound);
                lemma_went_both(
                    base,
                    root,
                    state.store,
                    one.state.store,
                    all_removed(one.state, pointers, i + 1, path, skip, bound).state.store,
                );
            }
        }
    }
}

/// A deletion takes away the record and what hangs on it, over however many steps, and no other
/// record, also where it fails on the way.
pub proof fn law_only_what_hangs_on_it_goes(
    state: DeletionModel,
    pointer: Seq<char>,
    drawer: Seq<char>,
    key: Seq<char>,
)
    requires
        all_finite(state.store),
        has_record(state.store, drawer, key),
        !has_record(
            removed(state, pointer, Set::empty(), pointers_of(state.store)).state.store,
            drawer,
            key,
        ),
    ensures
        exists|p: Seq<char>| #[trigger]
            hangs_somehow(state.store, pointer, p) && pointer_parts(p) == Some((drawer, key)),
{
    assert(hangs_on(state.store, pointer, pointer, 0));
    lemma_removed_went(
        state.store,
        pointer,
        state,
        pointer,
        Set::empty(),
        pointers_of(state.store),
    );
}

} // verus!
