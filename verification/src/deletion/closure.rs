//! That a deletion goes all the way, and that what it leaves is as it was but for the references
//! to what is gone.
use crate::deletion::cascades::{
    is_child, is_left_of, lemma_all_gone, lemma_all_removed_left, lemma_cascade_children,
    lemma_cascade_children_from, lemma_child_keys, lemma_field_pointers, lemma_field_pointers_from,
    lemma_left_finite, lemma_left_of_both, lemma_references_taken_left,
    lemma_references_taken_records, lemma_removed_left, lemma_without_text_from,
};
use crate::deletion::references::all_finite;
use crate::deletion::{
    all_removed, cascade_children, child_keys, field_pointers, has_record, lemma_path_grows,
    pointers_of, record_refers, references_taken, refers, removed, restriction, side_effects,
    unlinked, unlinked_all, unlinked_one, ChangeModel, DeleteAction, DeletionModel, DrawerState,
    RuleModel,
};
use crate::error::ErrorKind;
use crate::pointer::{pointer_parts, pointer_text};
use crate::value::{without_text, Json};
use vstd::prelude::*;

verus! {

/// The pointers to records that are gone, and those of a path.
pub open spec fn lost_pointers(
    before: Map<Seq<char>, DrawerState>,
    after: Map<Seq<char>, DrawerState>,
    path: Set<Seq<char>>,
) -> Set<Seq<char>> {
    Set::new(
        |p: Seq<char>|
            path.contains(p) || (pointer_parts(p) matches Some((d, k)) && has_record(before, d, k)
                && !has_record(after, d, k)),
    )
}

/// Whether a value is another one without references that are lost: it is the same, or a
/// reference became null, or references were taken out of a list.
pub open spec fn is_value_but(before: Json, after: Json, lost: Set<Seq<char>>) -> bool {
    ||| after == before
    ||| before matches Json::Text(p) && lost.contains(p) && after is Null
    ||| before matches Json::Array(items) && after matches Json::Array(rest) && {
        &&& rest.len() <= items.len()
        &&& forall|i: int| 0 <= i < rest.len() ==> items.contains(#[trigger] rest[i])
        &&& forall|i: int|
            0 <= i < items.len() ==> rest.contains(#[trigger] items[i]) || (
            items[i] matches Json::Text(p) && lost.contains(p))
    }
}

/// Whether a record is another one without references that are lost, with the same fields.
pub open spec fn is_record_but(before: Json, after: Json, lost: Set<Seq<char>>) -> bool {
    ||| after == before
    ||| before matches Json::Object(old_fields) && after matches Json::Object(new_fields) && {
        &&& new_fields.dom() == old_fields.dom()
        &&& forall|f: Seq<char>| #[trigger]
            old_fields.dom().contains(f) ==> is_value_but(old_fields[f], new_fields[f], lost)
    }
}

/// Whether the records that are left are as they were but for references that are lost.
pub open spec fn are_kept_but(
    before: Map<Seq<char>, DrawerState>,
    after: Map<Seq<char>, DrawerState>,
    lost: Set<Seq<char>>,
) -> bool {
    forall|d: Seq<char>, k: Seq<char>| #[trigger]
        has_record(after, d, k) ==> is_record_but(
            before[d].records[k],
            after[d].records[k],
            lost,
        )
}

proof fn lemma_value_more(before: Json, after: Json, lost: Set<Seq<char>>, more: Set<Seq<char>>)
    requires
        is_value_but(before, after, lost),
        lost.subset_of(more),
    ensures
        is_value_but(before, after, more),
{
}

proof fn lemma_value_both(first: Json, second: Json, third: Json, lost: Set<Seq<char>>)
    requires
        is_value_but(first, second, lost),
        is_value_but(second, third, lost),
    ensures
        is_value_but(first, third, lost),
{
    match (first, second, third) {
        (Json::Array(a), Json::Array(b), Json::Array(c)) => {
            if second != first && third != second {
                assert forall|i: int| 0 <= i < c.len() implies a.contains(#[trigger] c[i]) by {
                    assert(b.contains(c[i]));
                    let j = choose|j: int| 0 <= j < b.len() && b[j] == c[i];
                    assert(a.contains(b[j]));
                }
                assert forall|i: int| 0 <= i < a.len() implies c.contains(#[trigger] a[i]) || (
                a[i] matches Json::Text(p) && lost.contains(p)) by {
                    if b.contains(a[i]) {
                        let j = choose|j: int| 0 <= j < b.len() && b[j] == a[i];
                        assert(c.contains(b[j]) || (b[j] matches Json::Text(p) && lost.contains(p)));
                    }
                }
            }
        },
        _ => {},
    }
}

proof fn lemma_record_both(first: Json, second: Json, third: Json, lost: Set<Seq<char>>)
    requires
        is_record_but(first, second, lost),
        is_record_but(second, third, lost),
    ensures
        is_record_but(first, third, lost),
{
    match (first, second, third) {
        (Json::Object(a), Json::Object(b), Json::Object(c)) => {
            if second != first && third != second {
                assert forall|f: Seq<char>| #[trigger] a.dom().contains(f) implies is_value_but(
                    a[f],
                    c[f],
                    lost,
                ) by {
                    assert(b.dom().contains(f));
                    lemma_value_both(a[f], b[f], c[f], lost);
                }
            }
        },
        _ => {},
    }
}

proof fn lemma_record_more(before: Json, after: Json, lost: Set<Seq<char>>, more: Set<Seq<char>>)
    requires
        is_record_but(before, after, lost),
        lost.subset_of(more),
    ensures
        is_record_but(before, after, more),
{
    match (before, after) {
        (Json::Object(a), Json::Object(b)) => {
            if before != after {
                assert forall|f: Seq<char>| #[trigger] a.dom().contains(f) implies is_value_but(
                    a[f],
                    b[f],
                    more,
                ) by {
                    lemma_value_more(a[f], b[f], lost, more);
                }
            }
        },
        _ => {},
    }
}

proof fn lemma_kept_both(
    first: Map<Seq<char>, DrawerState>,
    second: Map<Seq<char>, DrawerState>,
    third: Map<Seq<char>, DrawerState>,
    path: Set<Seq<char>>,
)
    requires
        is_left_of(second, first),
        is_left_of(third, second),
        are_kept_but(first, second, lost_pointers(first, second, path)),
        are_kept_but(second, third, lost_pointers(second, third, path)),
    ensures
        are_kept_but(first, third, lost_pointers(first, third, path)),
{
    let all = lost_pointers(first, third, path);
    assert forall|d: Seq<char>, k: Seq<char>| #[trigger] has_record(third, d, k) implies is_record_but(
        first[d].records[k],
        third[d].records[k],
        all,
    ) by {
        assert(has_record(second, d, k));
        assert forall|p: Seq<char>| lost_pointers(first, second, path).contains(p) implies all.contains(
            p,
        ) by {
            match pointer_parts(p) {
                Some((e, l)) => {
                    if has_record(third, e, l) {
                        assert(has_record(second, e, l));
                    }
                },
                None => {},
            }
        }
        assert forall|p: Seq<char>| lost_pointers(second, third, path).contains(p) implies all.contains(
            p,
        ) by {
            match pointer_parts(p) {
                Some((e, l)) => {
                    if has_record(second, e, l) {
                        assert(has_record(first, e, l));
                    }
                },
                None => {},
            }
        }
        lemma_record_more(
            first[d].records[k],
            second[d].records[k],
            lost_pointers(first, second, path),
            all,
        );
        lemma_record_more(
            second[d].records[k],
            third[d].records[k],
            lost_pointers(second, third, path),
            all,
        );
        lemma_record_both(
            first[d].records[k],
            second[d].records[k],
            third[d].records[k],
            all,
        );
    }
}

proof fn lemma_without_text_keeps(items: Seq<Json>, text: Seq<char>, n: int, i: int)
    requires
        0 <= i < n <= items.len(),
        items[i] != Json::Text(text),
    ensures
        without_text(items, text, n).contains(items[i]),
        without_text(items, text, n).len() <= n,
    decreases n,
{
    lemma_without_text_len(items, text, n);
    let all = without_text(items, text, n);
    let before = without_text(items, text, n - 1);
    if i == n - 1 {
        assert(all.last() == items[i]);
    } else {
        lemma_without_text_keeps(items, text, n - 1, i);
        let j = choose|j: int| 0 <= j < before.len() && before[j] == items[i];
        assert(all[j] == items[i]);
    }
}

proof fn lemma_without_text_len(items: Seq<Json>, text: Seq<char>, n: int)
    requires
        0 <= n <= items.len(),
    ensures
        without_text(items, text, n).len() <= n,
    decreases n,
{
    if n > 0 {
        lemma_without_text_len(items, text, n - 1);
    }
}

/// A record that refers to another by a field loses nothing but that reference.
proof fn lemma_unlinked_kept(record: Json, field: Seq<char>, pointer: Seq<char>)
    requires
        record.get(field) matches Some(v) && (v is Array || v is Null || v == Json::Text(pointer)),
    ensures
        is_record_but(record, unlinked(record, field, pointer), Set::empty().insert(pointer)),
{
    let lost = Set::<Seq<char>>::empty().insert(pointer);
    let value = record.get(field)->0;
    match value {
        Json::Array(items) => {
            let n = items.len() as int;
            let rest = without_text(items, pointer, n);
            lemma_without_text_len(items, pointer, n);
            assert forall|i: int| 0 <= i < rest.len() implies items.contains(#[trigger] rest[i]) by {
                lemma_without_text_from(items, pointer, n, i);
            }
            assert forall|i: int| 0 <= i < items.len() implies rest.contains(#[trigger] items[i]) || (
            items[i] matches Json::Text(p) && lost.contains(p)) by {
                if items[i] != Json::Text(pointer) {
                    lemma_without_text_keeps(items, pointer, n, i);
                }
            }
            assert(is_value_but(value, Json::Array(rest), lost));
        },
        _ => {},
    }
    match (record, unlinked(record, field, pointer)) {
        (Json::Object(a), Json::Object(b)) => {
            assert(b.dom() =~= a.dom());
        },
        _ => {},
    }
}

proof fn lemma_unlinked_all_kept(
    state: DeletionModel,
    drawer: Seq<char>,
    field: Seq<char>,
    pointer: Seq<char>,
    keys: Seq<Seq<char>>,
    n: int,
)
    requires
        0 <= n <= keys.len(),
        forall|i: int|
            0 <= i < keys.len() ==> has_record(state.store, drawer, #[trigger] keys[i])
                && record_refers(state.store[drawer].records[keys[i]], field, pointer),
    ensures
        are_kept_but(
            state.store,
            unlinked_all(state, drawer, field, pointer, keys, n).state.store,
            Set::empty().insert(pointer),
        ),
    decreases n,
{
    let lost = Set::<Seq<char>>::empty().insert(pointer);
    if n > 0 {
        lemma_unlinked_all_kept(state, drawer, field, pointer, keys, n - 1);
        let first = unlinked_all(state, drawer, field, pointer, keys, n - 1);
        if first.result is Ok {
            let before = first.state.store;
            let key = keys[n - 1];
            let after = unlinked_one(first.state, drawer, field, pointer, key).state.store;
            assert forall|d: Seq<char>, k: Seq<char>| #[trigger] has_record(
                after,
                d,
                k,
            ) implies is_record_but(state.store[d].records[k], after[d].records[k], lost) by {
                assert(has_record(before, d, k));
                if d == drawer && k == key && after != before {
                    let old = state.store[drawer].records[key];
                    let now = before[drawer].records[key];
                    assert(record_refers(old, field, pointer));
                    assert(is_record_but(old, now, lost));
                    assert(now.get(field) matches Some(v) && (v is Array || v is Null || v
                        == Json::Text(pointer))) by {
                        match (old, now) {
                            (Json::Object(a), Json::Object(b)) => {
                                assert(a.dom().contains(field));
                                assert(is_value_but(a[field], b[field], lost));
                            },
                            _ => {},
                        }
                    }
                    lemma_unlinked_kept(now, field, pointer);
                    lemma_record_both(old, now, unlinked(now, field, pointer), lost);
                }
            }
        }
    }
}

proof fn lemma_references_taken_kept(
    state: DeletionModel,
    pointer: Seq<char>,
    rules: Seq<RuleModel>,
    n: int,
)
    requires
        all_finite(state.store),
    ensures
        are_kept_but(
            state.store,
            references_taken(state, pointer, rules, n).state.store,
            Set::empty().insert(pointer),
        ),
    decreases n,
{
    let lost = Set::<Seq<char>>::empty().insert(pointer);
    if n > 0 {
        lemma_references_taken_kept(state, pointer, rules, n - 1);
        lemma_references_taken_left(state, pointer, rules, n - 1);
        let first = references_taken(state, pointer, rules, n - 1);
        let rule = rules[n - 1];
        lemma_left_finite(first.state.store, state.store);
        if first.result is Ok && rule.action == DeleteAction::SetNull {
            let before = first.state.store;
            let keys = child_keys(before, rule, pointer);
            let count = keys.len() as int;
            assert forall|i: int| 0 <= i < keys.len() implies has_record(
                before,
                rule.target,
                #[trigger] keys[i],
            ) && record_refers(before[rule.target].records[keys[i]], rule.field, pointer) by {
                assert(keys.contains(keys[i]));
                lemma_child_keys(before, rule, pointer, keys[i]);
            }
            lemma_unlinked_all_kept(
                first.state,
                rule.target,
                rule.field,
                pointer,
                keys,
                count,
            );
            lemma_references_taken_left(state, pointer, rules, n);
            let after = references_taken(state, pointer, rules, n).state.store;
            crate::deletion::cascades::lemma_unlinked_all_left(
                first.state,
                rule.target,
                rule.field,
                pointer,
                keys,
                count,
            );
            assert forall|d: Seq<char>, k: Seq<char>| #[trigger] has_record(
                after,
                d,
                k,
            ) implies is_record_but(state.store[d].records[k], after[d].records[k], lost) by {
                assert(has_record(before, d, k));
                lemma_record_both(
                    state.store[d].records[k],
                    before[d].records[k],
                    after[d].records[k],
                    lost,
                );
            }
        }
    }
}

proof fn lemma_kept_more(
    before: Map<Seq<char>, DrawerState>,
    after: Map<Seq<char>, DrawerState>,
    lost: Set<Seq<char>>,
    more: Set<Seq<char>>,
)
    requires
        are_kept_but(before, after, lost),
        lost.subset_of(more),
    ensures
        are_kept_but(before, after, more),
{
    assert forall|d: Seq<char>, k: Seq<char>| #[trigger] has_record(after, d, k) implies is_record_but(
        before[d].records[k],
        after[d].records[k],
        more,
    ) by {
        lemma_record_more(before[d].records[k], after[d].records[k], lost, more);
    }
}

proof fn lemma_removed_kept(
    state: DeletionModel,
    pointer: Seq<char>,
    path: Set<Seq<char>>,
    bound: Set<Seq<char>>,
)
    requires
        all_finite(state.store),
        removed(state, pointer, path, bound).result is Ok,
    ensures
        are_kept_but(
            state.store,
            removed(state, pointer, path, bound).state.store,
            lost_pointers(
                state.store,
                removed(state, pointer, path, bound).state.store,
                path,
            ),
        ),
    decreases bound.difference(path).len(), 3int, 0int,
{
    if !path.contains(pointer) {
        match pointer_parts(pointer) {
            Some((drawer, key)) => {
                if has_record(state.store, drawer, key) {
                    let here = state.store[drawer];
                    let none = Set::<Seq<char>>::empty();
                    let record = here.records[key];
                    lemma_side_effects_kept(
                        state,
                        pointer,
                        record,
                        here.cascades,
                        here.rules,
                        path,
                        none,
                        bound,
                    );
                    let effects = side_effects(
                        state,
                        pointer,
                        record,
                        here.cascades,
                        here.rules,
                        path,
                        none,
                        bound,
                    );
                    let middle = effects.state.store;
                    let after = removed(state, pointer, path, bound).state.store;
                    let lost = lost_pointers(state.store, middle, path.insert(pointer));
                    let all = lost_pointers(state.store, after, path);
                    assert forall|p: Seq<char>| lost.contains(p) implies all.contains(p) by {
                        match pointer_parts(p) {
                            Some((e, l)) => {
                                if has_record(after, e, l) {
                                    assert(has_record(middle, e, l));
                                }
                            },
                            None => {},
                        }
                    }
                    lemma_kept_more(state.store, middle, lost, all);
                    assert forall|d: Seq<char>, k: Seq<char>| #[trigger] has_record(
                        after,
                        d,
                        k,
                    ) implies is_record_but(
                        state.store[d].records[k],
                        after[d].records[k],
                        all,
                    ) by {
                        assert(has_record(middle, d, k));
                    }
                }
            },
            None => {},
        }
    }
}

proof fn lemma_side_effects_kept(
    state: DeletionModel,
    pointer: Seq<char>,
    record: Json,
    fields: Seq<Seq<char>>,
    rules: Seq<RuleModel>,
    path: Set<Seq<char>>,
    skip: Set<Seq<char>>,
    bound: Set<Seq<char>>,
)
    requires
        all_finite(state.store),
        side_effects(state, pointer, record, fields, rules, path, skip, bound).result is Ok,
    ensures
        ({
            let after = side_effects(
                state,
                pointer,
                record,
                fields,
                rules,
                path,
                skip,
                bound,
            ).state.store;
            are_kept_but(
                state.store,
                after,
                lost_pointers(state.store, after, path.insert(pointer)),
            )
        }),
    decreases bound.difference(path).len(), 2int, 0int,
{
    if !path.contains(pointer) && bound.contains(pointer) && bound.finite() {
        lemma_path_grows(bound, path, pointer);
        let inner = path.insert(pointer);
        let n = rules.len() as int;
        let children = cascade_children(state.store, pointer, rules, n);
        let first = all_removed(state, children, 0, inner, skip, bound);
        lemma_all_removed_kept(state, children, 0, inner, skip, bound);
        lemma_all_removed_left(state, children, 0, inner, skip, bound);
        lemma_left_finite(first.state.store, state.store);
        let others = field_pointers(record, fields, fields.len() as int);
        let second = all_removed(first.state, others, 0, inner, skip, bound);
        lemma_all_removed_kept(first.state, others, 0, inner, skip, bound);
        lemma_all_removed_left(first.state, others, 0, inner, skip, bound);
        lemma_left_finite(second.state.store, first.state.store);
        lemma_kept_both(state.store, first.state.store, second.state.store, inner);
        lemma_left_of_both(state.store, first.state.store, second.state.store);
        let third = references_taken(second.state, pointer, rules, n);
        lemma_references_taken_left(second.state, pointer, rules, n);
        lemma_references_taken_kept(second.state, pointer, rules, n);
        let one = Set::<Seq<char>>::empty().insert(pointer);
        let more = lost_pointers(second.state.store, third.state.store, inner);
        assert(one.subset_of(more));
        lemma_kept_more(second.state.store, third.state.store, one, more);
        lemma_kept_both(state.store, second.state.store, third.state.store, inner);
    }
}

proof fn lemma_all_removed_kept(
    state: DeletionModel,
    pointers: Seq<Seq<char>>,
    i: int,
    path: Set<Seq<char>>,
    skip: Set<Seq<char>>,
    bound: Set<Seq<char>>,
)
    requires
        all_finite(state.store),
        all_removed(state, pointers, i, path, skip, bound).result is Ok,
    ensures
        ({
            let after = all_removed(state, pointers, i, path, skip, bound).state.store;
            are_kept_but(state.store, after, lost_pointers(state.store, after, path))
        }),
    decreases bound.difference(path).len(), 4int, pointers.len() - i,
{
    if 0 <= i < pointers.len() {
        if skip.contains(pointers[i]) {
            lemma_all_removed_kept(state, pointers, i + 1, path, skip, bound);
        } else {
            let one = removed(state, pointers[i], path, bound);
            lemma_removed_kept(state, pointers[i], path, bound);
            lemma_removed_left(state, pointers[i], path, bound);
            lemma_left_finite(one.state.store, state.store);
            lemma_all_removed_kept(one.state, pointers, i + 1, path, skip, bound);
            lemma_all_removed_left(one.state, pointers, i + 1, path, skip, bound);
            lemma_kept_both(
                state.store,
                one.state.store,
                all_removed(one.state, pointers, i + 1, path, skip, bound).state.store,
                path,
            );
        }
    }
}

/// Where a deletion does not fail, every record that it leaves has the fields that it had, and
/// what stands in them is as it was, but for references to records that are gone: a single one
/// became null, and one in a list was taken out of it.
pub proof fn law_what_stays_is_kept(
    state: DeletionModel,
    pointer: Seq<char>,
    drawer: Seq<char>,
    key: Seq<char>,
)
    requires
        all_finite(state.store),
        removed(state, pointer, Set::empty(), pointers_of(state.store)).result is Ok,
        has_record(
            removed(state, pointer, Set::empty(), pointers_of(state.store)).state.store,
            drawer,
            key,
        ),
    ensures
        ({
            let after = removed(
                state,
                pointer,
                Set::empty(),
                pointers_of(state.store),
            ).state.store;
            &&& has_record(state.store, drawer, key)
            &&& is_record_but(
                state.store[drawer].records[key],
                after[drawer].records[key],
                lost_pointers(state.store, after, Set::empty()),
            )
        }),
{
    lemma_removed_kept(state, pointer, Set::empty(), pointers_of(state.store));
    lemma_removed_left(state, pointer, Set::empty(), pointers_of(state.store));
}

/// Whether pointers name the records of a store as they should: every record is named by the
/// pointer to its drawer and key, and cascade fields spell pointers in that way.
pub open spec fn is_plain(store: Map<Seq<char>, DrawerState>) -> bool {
    &&& forall|d: Seq<char>, k: Seq<char>| #[trigger]
        has_record(store, d, k) ==> pointer_parts(pointer_text(d, k)) == Some((d, k))
    &&& forall|d: Seq<char>, k: Seq<char>, f: Seq<char>, p: Seq<char>|
        has_record(store, d, k) && store[d].cascades.contains(f) && #[trigger] record_refers(
            store[d].records[k],
            f,
            p,
        ) ==> is_spelled_out(p)
}

/// Whether a text that names a record is the pointer to its drawer and key.
pub open spec fn is_spelled_out(pointer: Seq<char>) -> bool {
    pointer_parts(pointer) matches Some((d, k)) ==> pointer == pointer_text(d, k)
}

/// Whether a record was there and is gone.
pub open spec fn went(
    before: Map<Seq<char>, DrawerState>,
    after: Map<Seq<char>, DrawerState>,
    drawer: Seq<char>,
    key: Seq<char>,
) -> bool {
    has_record(before, drawer, key) && !has_record(after, drawer, key)
}

/// Whether everything that hangs on the records that are gone is gone as well, but for what is on
/// the path.
pub open spec fn all_went_with(
    before: Map<Seq<char>, DrawerState>,
    after: Map<Seq<char>, DrawerState>,
    path: Set<Seq<char>>,
) -> bool {
    &&& forall|d: Seq<char>, k: Seq<char>, i: int, child: Seq<char>|
        #![trigger has_record(before, d, k), is_child(after, d, i, pointer_text(d, k), child)]
        went(before, after, d, k) && is_child(after, d, i, pointer_text(d, k), child)
            ==> path.contains(pointer_text(after[d].rules[i].target, child))
    &&& forall|d: Seq<char>, k: Seq<char>, f: Seq<char>, p: Seq<char>|
        went(before, after, d, k) && before[d].cascades.contains(f) && #[trigger] record_refers(
            before[d].records[k],
            f,
            p,
        ) && (pointer_parts(p) matches Some((e, l)) && has_record(after, e, l)) ==> path.contains(p)
}

proof fn lemma_child_before(
    before: Map<Seq<char>, DrawerState>,
    after: Map<Seq<char>, DrawerState>,
    drawer: Seq<char>,
    i: int,
    pointer: Seq<char>,
    child: Seq<char>,
)
    requires
        is_left_of(after, before),
        before.dom().contains(drawer),
        is_child(after, drawer, i, pointer, child),
    ensures
        is_child(before, drawer, i, pointer, child),
        before[drawer].rules == after[drawer].rules,
{
    let target = after[drawer].rules[i].target;
    assert(has_record(after, target, child));
}

proof fn lemma_reference_lost(
    before: Json,
    after: Json,
    lost: Set<Seq<char>>,
    f: Seq<char>,
    p: Seq<char>,
)
    requires
        is_record_but(before, after, lost),
        record_refers(before, f, p),
        !record_refers(after, f, p),
    ensures
        lost.contains(p),
{
    match (before, after) {
        (Json::Object(a), Json::Object(b)) => {
            assert(a.dom().contains(f));
            assert(is_value_but(a[f], b[f], lost));
            match (a[f], b[f]) {
                (Json::Array(items), Json::Array(rest)) => {
                    let i = choose|i: int|
                        0 <= i < items.len() && (#[trigger] items[i]) == Json::Text(p);
                    if rest.contains(items[i]) {
                        let j = choose|j: int| 0 <= j < rest.len() && rest[j] == items[i];
                        assert(rest[j] == Json::Text(p));
                        assert(refers(b[f], p));
                    }
                },
                _ => {},
            }
        },
        _ => {},
    }
}

proof fn lemma_all_went_both(
    first: Map<Seq<char>, DrawerState>,
    second: Map<Seq<char>, DrawerState>,
    third: Map<Seq<char>, DrawerState>,
    path: Set<Seq<char>>,
)
    requires
        is_left_of(second, first),
        is_left_of(third, second),
        are_kept_but(first, second, lost_pointers(first, second, path)),
        all_went_with(first, second, path),
        all_went_with(second, third, path),
    ensures
        all_went_with(first, third, path),
{
    assert forall|d: Seq<char>, k: Seq<char>, i: int, child: Seq<char>|
        #![trigger has_record(first, d, k), is_child(third, d, i, pointer_text(d, k), child)]
        went(first, third, d, k) && is_child(
            third,
            d,
            i,
            pointer_text(d, k),
            child,
        ) implies path.contains(pointer_text(third[d].rules[i].target, child)) by {
        assert(second.dom().contains(d));
        lemma_child_before(second, third, d, i, pointer_text(d, k), child);
        if has_record(second, d, k) {
            assert(went(second, third, d, k));
        } else {
            assert(went(first, second, d, k));
            assert(is_child(second, d, i, pointer_text(d, k), child));
        }
    }
    assert forall|d: Seq<char>, k: Seq<char>, f: Seq<char>, p: Seq<char>|
        went(first, third, d, k) && first[d].cascades.contains(f) && #[trigger] record_refers(
            first[d].records[k],
            f,
            p,
        ) && (pointer_parts(p) matches Some((e, l)) && has_record(
            third,
            e,
            l,
        )) implies path.contains(p) by {
        let (e, l) = pointer_parts(p)->0;
        assert(has_record(second, e, l));
        if has_record(second, d, k) {
            assert(went(second, third, d, k));
            assert(first.dom().contains(d));
            if !record_refers(second[d].records[k], f, p) {
                lemma_reference_lost(
                    first[d].records[k],
                    second[d].records[k],
                    lost_pointers(first, second, path),
                    f,
                    p,
                );
            }
        } else {
            assert(went(first, second, d, k));
        }
    }
}

proof fn lemma_left_plain(
    after: Map<Seq<char>, DrawerState>,
    before: Map<Seq<char>, DrawerState>,
)
    requires
        is_left_of(after, before),
        is_plain(before),
    ensures
        is_plain(after),
        pointers_of(after).subset_of(pointers_of(before)),
{
    assert forall|d: Seq<char>, k: Seq<char>, f: Seq<char>, p: Seq<char>|
        has_record(after, d, k) && after[d].cascades.contains(f) && #[trigger] record_refers(
            after[d].records[k],
            f,
            p,
        ) implies is_spelled_out(p) by {
        assert(has_record(before, d, k));
        assert(before.dom().contains(d));
        assert(record_refers(before[d].records[k], f, p));
    }
    assert forall|p: Seq<char>| pointers_of(after).contains(p) implies pointers_of(before).contains(
        p,
    ) by {
        let (d, k) = pointer_parts(p)->0;
        assert(has_record(after, d, k));
    }
}

proof fn lemma_removed_went(
    state: DeletionModel,
    pointer: Seq<char>,
    path: Set<Seq<char>>,
    bound: Set<Seq<char>>,
)
    requires
        all_finite(state.store),
        is_plain(state.store),
        is_spelled_out(pointer),
        bound.finite(),
        pointers_of(state.store).subset_of(bound),
        removed(state, pointer, path, bound).result is Ok,
    ensures
        all_went_with(
            state.store,
            removed(state, pointer, path, bound).state.store,
            path,
        ),
    decreases bound.difference(path).len(), 3int, 0int,
{
    if !path.contains(pointer) {
        match pointer_parts(pointer) {
            Some((drawer, key)) => {
                if has_record(state.store, drawer, key) {
                    lemma_record_went(state, pointer, path, bound);
                }
            },
            None => {},
        }
    }
}

proof fn lemma_record_went(
    state: DeletionModel,
    pointer: Seq<char>,
    path: Set<Seq<char>>,
    bound: Set<Seq<char>>,
)
    requires
        all_finite(state.store),
        is_plain(state.store),
        is_spelled_out(pointer),
        bound.finite(),
        pointers_of(state.store).subset_of(bound),
        removed(state, pointer, path, bound).result is Ok,
        !path.contains(pointer),
        pointer_parts(pointer) matches Some((drawer, key)) && has_record(state.store, drawer, key),
    ensures
        all_went_with(
            state.store,
            removed(state, pointer, path, bound).state.store,
            path,
        ),
    decreases bound.difference(path).len(), 2int, 0int,
{
    let (drawer, key) = pointer_parts(pointer)->0;
    let here = state.store[drawer];
    let rules = here.rules;
    let fields = here.cascades;
    let record = here.records[key];
    let n = rules.len() as int;
    let count = fields.len() as int;
    let skip = Set::<Seq<char>>::empty();
    let inner = path.insert(pointer);
    assert(pointers_of(state.store).contains(pointer));
    assert(bound.contains(pointer));
    lemma_path_grows(bound, path, pointer);
    let effects = side_effects(state, pointer, record, fields, rules, path, skip, bound);
    assert(effects.result is Ok);
    let children = cascade_children(state.store, pointer, rules, n);
    let first = all_removed(state, children, 0, inner, skip, bound);
    let others = field_pointers(record, fields, count);
    let second = all_removed(first.state, others, 0, inner, skip, bound);
    let third = references_taken(second.state, pointer, rules, n);
    assert(effects == third);
    assert(first.result is Ok && second.result is Ok);
    assert forall|j: int| 0 <= j < children.len() implies is_spelled_out(#[trigger] children[j]) by {
        assert(children.contains(children[j]));
        lemma_cascade_children_from(state.store, drawer, pointer, n, children[j]);
        let (i, child) = choose|i: int, child: Seq<char>| #[trigger]
            is_child(state.store, drawer, i, pointer, child) && children[j] == pointer_text(
                state.store[drawer].rules[i].target,
                child,
            );
        assert(has_record(state.store, state.store[drawer].rules[i].target, child));
    }
    assert forall|j: int| 0 <= j < others.len() implies is_spelled_out(#[trigger] others[j]) by {
        assert(others.contains(others[j]));
        lemma_field_pointers_from(record, fields, count, others[j]);
        let i = choose|i: int|
            0 <= i < count && record_refers(record, #[trigger] fields[i], others[j]);
        assert(fields.contains(fields[i]));
    }
    lemma_all_removed_left(state, children, 0, inner, skip, bound);
    lemma_all_removed_went(state, children, 0, inner, skip, bound);
    lemma_all_removed_kept(state, children, 0, inner, skip, bound);
    lemma_left_finite(first.state.store, state.store);
    lemma_left_plain(first.state.store, state.store);
    lemma_all_removed_left(first.state, others, 0, inner, skip, bound);
    lemma_all_removed_went(first.state, others, 0, inner, skip, bound);
    lemma_all_removed_kept(first.state, others, 0, inner, skip, bound);
    lemma_left_finite(second.state.store, first.state.store);
    lemma_left_of_both(state.store, first.state.store, second.state.store);
    lemma_all_went_both(state.store, first.state.store, second.state.store, inner);
    lemma_kept_both(state.store, first.state.store, second.state.store, inner);
    lemma_references_taken_left(second.state, pointer, rules, n);
    lemma_references_taken_records(second.state, pointer, rules, n);
    assert(all_went_with(second.state.store, third.state.store, inner));
    lemma_all_went_both(state.store, second.state.store, third.state.store, inner);
    lemma_left_of_both(state.store, second.state.store, third.state.store);
    let middle = third.state.store;
    let after = removed(state, pointer, path, bound).state.store;
    assert(pointer == pointer_text(drawer, key));
    assert(!has_record(after, drawer, key));
    assert forall|d: Seq<char>, k: Seq<char>| has_record(after, d, k) implies has_record(
        middle,
        d,
        k,
    ) && after[d].records[k] == middle[d].records[k] by {}
    assert(forall|d: Seq<char>| #[trigger]
        middle.dom().contains(d) ==> after.dom().contains(d) && after[d].rules == middle[d].rules);
    assert forall|d: Seq<char>, k: Seq<char>, i: int, child: Seq<char>|
        #![trigger has_record(state.store, d, k), is_child(after, d, i, pointer_text(d, k), child)]
        went(state.store, after, d, k) && is_child(
            after,
            d,
            i,
            pointer_text(d, k),
            child,
        ) implies path.contains(pointer_text(after[d].rules[i].target, child)) by {
        assert(state.store.dom().contains(d));
        assert(middle.dom().contains(d));
        let target = after[d].rules[i].target;
        assert(has_record(after, target, child));
        assert(is_child(middle, d, i, pointer_text(d, k), child));
        let named = pointer_text(target, child);
        assert(has_record(middle, target, child));
        assert(has_record(state.store, target, child));
        assert(pointer_parts(named) == Some((target, child)));
        assert(named != pointer);
        if has_record(middle, d, k) {
            assert(d == drawer && k == key);
            lemma_child_before(state.store, middle, d, i, pointer, child);
            lemma_cascade_children(state.store, pointer, rules, n, i, child);
            let j = choose|j: int| 0 <= j < children.len() && children[j] == named;
            if !path.contains(named) {
                lemma_all_gone(state, children, 0, inner, skip, bound, j);
                assert(!has_record(second.state.store, target, child));
            }
        } else {
            assert(went(state.store, middle, d, k));
            assert(inner.contains(named));
        }
    }
    assert forall|d: Seq<char>, k: Seq<char>, f: Seq<char>, p: Seq<char>|
        went(state.store, after, d, k) && state.store[d].cascades.contains(f)
            && #[trigger] record_refers(state.store[d].records[k], f, p) && (
        pointer_parts(p) matches Some((e, l)) && has_record(
            after,
            e,
            l,
        )) implies path.contains(p) by {
        let (e, l) = pointer_parts(p)->0;
        assert(p != pointer);
        assert(has_record(middle, e, l));
        if has_record(middle, d, k) {
            assert(d == drawer && k == key);
            let i = choose|i: int| 0 <= i < fields.len() && fields[i] == f;
            lemma_field_pointers(record, fields, count, i, p);
            let j = choose|j: int| 0 <= j < others.len() && others[j] == p;
            if !path.contains(p) {
                lemma_all_gone(first.state, others, 0, inner, skip, bound, j);
            }
        } else {
            assert(went(state.store, middle, d, k));
            assert(inner.contains(p));
        }
    }
}

proof fn lemma_all_removed_went(
    state: DeletionModel,
    pointers: Seq<Seq<char>>,
    i: int,
    path: Set<Seq<char>>,
    skip: Set<Seq<char>>,
    bound: Set<Seq<char>>,
)
    requires
        all_finite(state.store),
        is_plain(state.store),
        forall|j: int| 0 <= j < pointers.len() ==> is_spelled_out(#[trigger] pointers[j]),
        bound.finite(),
        pointers_of(state.store).subset_of(bound),
        all_removed(state, pointers, i, path, skip, bound).result is Ok,
    ensures
        all_went_with(
            state.store,
            all_removed(state, pointers, i, path, skip, bound).state.store,
            path,
        ),
    decreases bound.difference(path).len(), 4int, pointers.len() - i,
{
    if 0 <= i < pointers.len() {
        if skip.contains(pointers[i]) {
            lemma_all_removed_went(state, pointers, i + 1, path, skip, bound);
        } else {
            let one = removed(state, pointers[i], path, bound);
            lemma_removed_went(state, pointers[i], path, bound);
            lemma_removed_left(state, pointers[i], path, bound);
            lemma_removed_kept(state, pointers[i], path, bound);
            lemma_left_finite(one.state.store, state.store);
            lemma_left_plain(one.state.store, state.store);
            lemma_all_removed_went(one.state, pointers, i + 1, path, skip, bound);
            lemma_all_removed_left(one.state, pointers, i + 1, path, skip, bound);
            lemma_all_went_both(
                state.store,
                one.state.store,
                all_removed(one.state, pointers, i + 1, path, skip, bound).state.store,
                path,
            );
        }
    }
}

/// A deletion that does not fail goes all the way: for every record that is gone, what referred to
/// it by a cascade rule of its drawer is gone or refers to it no more, and what its cascade fields
/// pointed to is gone.
pub proof fn law_deletion_goes_all_the_way(
    state: DeletionModel,
    pointer: Seq<char>,
    drawer: Seq<char>,
    key: Seq<char>,
)
    requires
        all_finite(state.store),
        pointers_of(state.store).finite(),
        is_plain(state.store),
        is_spelled_out(pointer),
        removed(state, pointer, Set::empty(), pointers_of(state.store)).result is Ok,
        went(
            state.store,
            removed(state, pointer, Set::empty(), pointers_of(state.store)).state.store,
            drawer,
            key,
        ),
    ensures
        ({
            let after = removed(
                state,
                pointer,
                Set::empty(),
                pointers_of(state.store),
            ).state.store;
            let here = state.store[drawer];
            &&& forall|i: int, child: Seq<char>|
                #![trigger here.rules[i], after[here.rules[i].target].records[child]]
                0 <= i < here.rules.len() && here.rules[i].action == DeleteAction::Cascade
                    && has_record(after, here.rules[i].target, child) ==> !record_refers(
                    after[here.rules[i].target].records[child],
                    here.rules[i].field,
                    pointer_text(drawer, key),
                )
            &&& forall|f: Seq<char>, p: Seq<char>|
                here.cascades.contains(f) && #[trigger] record_refers(here.records[key], f, p)
                    ==> (pointer_parts(p) matches Some((e, l)) ==> !has_record(after, e, l))
        }),
{
    let bound = pointers_of(state.store);
    let after = removed(state, pointer, Set::empty(), bound).state.store;
    let here = state.store[drawer];
    lemma_removed_went(state, pointer, Set::empty(), bound);
    lemma_removed_left(state, pointer, Set::empty(), bound);
    assert(state.store.dom().contains(drawer));
    assert forall|i: int, child: Seq<char>|
        #![trigger here.rules[i], after[here.rules[i].target].records[child]]
        0 <= i < here.rules.len() && here.rules[i].action == DeleteAction::Cascade && has_record(
            after,
            here.rules[i].target,
            child,
        ) implies !record_refers(
        after[here.rules[i].target].records[child],
        here.rules[i].field,
        pointer_text(drawer, key),
    ) by {
        assert(has_record(state.store, drawer, key));
        if record_refers(
            after[here.rules[i].target].records[child],
            here.rules[i].field,
            pointer_text(drawer, key),
        ) {
            assert(is_child(after, drawer, i, pointer_text(drawer, key), child));
        }
    }
}

proof fn lemma_restricted(
    store: Map<Seq<char>, DrawerState>,
    pointer: Seq<char>,
    rules: Seq<RuleModel>,
    i: int,
)
    requires
        all_finite(store),
        0 <= i <= rules.len(),
    ensures
        restriction(store, pointer, rules, i) matches Some(f) ==> f.kind == ErrorKind::InvalidInput,
        restriction(store, pointer, rules, i) is Some <==> exists|j: int, child: Seq<char>|
            #![trigger rules[j], store[rules[j].target].records[child]]
            i <= j < rules.len() && rules[j].action == DeleteAction::Restrict && has_record(
                store,
                rules[j].target,
                child,
            ) && record_refers(
                store[rules[j].target].records[child],
                rules[j].field,
                pointer,
            ),
    decreases rules.len() - i,
{
    if i < rules.len() {
        lemma_restricted(store, pointer, rules, i + 1);
        let rule = rules[i];
        let keys = child_keys(store, rule, pointer);
        if rule.action == DeleteAction::Restrict {
            if keys.len() > 0 {
                assert(keys.contains(keys[0]));
                lemma_child_keys(store, rule, pointer, keys[0]);
                assert(store[rules[i].target].records[keys[0]] == store[rules[i].target].records[
                keys[0]]);
            } else {
                assert forall|child: Seq<char>|
                    has_record(store, rule.target, child) implies !record_refers(
                    #[trigger] store[rule.target].records[child],
                    rule.field,
                    pointer,
                ) by {
                    lemma_child_keys(store, rule, pointer, child);
                }
            }
        }
    }
}

/// A record that another one refers to by the field of a restricting rule is not deleted: the
/// deletion is refused, and nothing changes.
pub proof fn law_referred_record_is_not_deleted(
    state: DeletionModel,
    pointer: Seq<char>,
    i: int,
    child: Seq<char>,
)
    requires
        all_finite(state.store),
        pointers_of(state.store).finite(),
        pointer_parts(pointer) matches Some((drawer, key)) && has_record(state.store, drawer, key)
            && 0 <= i < state.store[drawer].rules.len() && state.store[drawer].rules[i].action
            == DeleteAction::Restrict && has_record(
            state.store,
            state.store[drawer].rules[i].target,
            child,
        ) && record_refers(
            state.store[state.store[drawer].rules[i].target].records[child],
            state.store[drawer].rules[i].field,
            pointer,
        ),
    ensures
        ({
            let done = removed(state, pointer, Set::empty(), pointers_of(state.store));
            &&& done.state == state
            &&& done.result matches Err(f) && f.kind == ErrorKind::InvalidInput
        }),
{
    let (drawer, key) = pointer_parts(pointer)->0;
    let rules = state.store[drawer].rules;
    lemma_restricted(state.store, pointer, rules, 0);
    assert(state.store[rules[i].target].records[child] == state.store[rules[i].target].records[child]);
    assert(pointers_of(state.store).contains(pointer));
}

/// A record on which nothing hangs is deleted, it alone, and the deletion is noted: no record
/// refers to it by a rule of its drawer, and its cascade fields point to nothing.
pub proof fn law_lone_record_is_deleted(state: DeletionModel, pointer: Seq<char>)
    requires
        all_finite(state.store),
        pointers_of(state.store).finite(),
        pointer_parts(pointer) matches Some((drawer, key)) && has_record(state.store, drawer, key)
            && (forall|i: int, child: Seq<char>|
            #![trigger state.store[drawer].rules[i], state.store[state.store[drawer].rules[i].target].records[child]]
            0 <= i < state.store[drawer].rules.len() && has_record(
                state.store,
                state.store[drawer].rules[i].target,
                child,
            ) ==> !record_refers(
                state.store[state.store[drawer].rules[i].target].records[child],
                state.store[drawer].rules[i].field,
                pointer,
            )) && (forall|f: Seq<char>, p: Seq<char>|
            state.store[drawer].cascades.contains(f) && #[trigger] record_refers(
                state.store[drawer].records[key],
                f,
                p,
            ) ==> pointer_parts(p) is None),
    ensures
        ({
            let (drawer, key) = pointer_parts(pointer)->0;
            let done = removed(state, pointer, Set::empty(), pointers_of(state.store));
            &&& done.result == Ok::<bool, crate::error::Failure>(true)
            &&& done.state.store == state.store.insert(
                drawer,
                DrawerState {
                    records: state.store[drawer].records.remove(key),
                    ..state.store[drawer]
                },
            )
            &&& done.state.changes == state.changes.push(ChangeModel::Delete { drawer, key })
        }),
{
    let (drawer, key) = pointer_parts(pointer)->0;
    let here = state.store[drawer];
    let rules = here.rules;
    let n = rules.len() as int;
    let bound = pointers_of(state.store);
    let none = Set::<Seq<char>>::empty();
    assert(bound.contains(pointer));
    lemma_restricted(state.store, pointer, rules, 0);
    assert(restriction(state.store, pointer, rules, 0) is None);
    let children = cascade_children(state.store, pointer, rules, n);
    if children.len() > 0 {
        assert(children.contains(children[0]));
        lemma_cascade_children_from(state.store, drawer, pointer, n, children[0]);
        let (i, child) = choose|i: int, child: Seq<char>| #[trigger]
            is_child(state.store, drawer, i, pointer, child) && children[0] == pointer_text(
                state.store[drawer].rules[i].target,
                child,
            );
        assert(state.store[state.store[drawer].rules[i].target].records[child]
            == state.store[state.store[drawer].rules[i].target].records[child]);
    }
    let count = here.cascades.len() as int;
    let others = field_pointers(here.records[key], here.cascades, count);
    if others.len() > 0 {
        assert(others.contains(others[0]));
        lemma_field_pointers_from(here.records[key], here.cascades, count, others[0]);
        let i = choose|i: int|
            0 <= i < count && record_refers(
                here.records[key],
                #[trigger] here.cascades[i],
                others[0],
            );
        assert(here.cascades.contains(here.cascades[i]));
    }
    lemma_nothing_taken(state, pointer, drawer, n);
}

proof fn lemma_nothing_taken(state: DeletionModel, pointer: Seq<char>, drawer: Seq<char>, n: int)
    requires
        all_finite(state.store),
        0 <= n <= state.store[drawer].rules.len(),
        forall|i: int, child: Seq<char>|
            #![trigger state.store[drawer].rules[i], state.store[state.store[drawer].rules[i].target].records[child]]
            0 <= i < state.store[drawer].rules.len() && has_record(
                state.store,
                state.store[drawer].rules[i].target,
                child,
            ) ==> !record_refers(
                state.store[state.store[drawer].rules[i].target].records[child],
                state.store[drawer].rules[i].field,
                pointer,
            ),
    ensures
        references_taken(state, pointer, state.store[drawer].rules, n).state == state,
        references_taken(state, pointer, state.store[drawer].rules, n).result is Ok,
    decreases n,
{
    if n > 0 {
        lemma_nothing_taken(state, pointer, drawer, n - 1);
        let rule = state.store[drawer].rules[n - 1];
        let keys = child_keys(state.store, rule, pointer);
        if keys.len() > 0 {
            assert(keys.contains(keys[0]));
            lemma_child_keys(state.store, rule, pointer, keys[0]);
            assert(state.store[state.store[drawer].rules[n - 1].target].records[keys[0]]
                == state.store[rule.target].records[keys[0]]);
        }
    }
}

/// What a deletion says of itself: that it deleted the record is the last that was noted; where
/// the record was there and the deletion did not fail, its deletion was noted in any case.
pub proof fn law_deletion_tells_whether_it_deleted(state: DeletionModel, pointer: Seq<char>)
    ensures
        ({
            let done = removed(state, pointer, Set::empty(), pointers_of(state.store));
            &&& done.result == Ok::<bool, crate::error::Failure>(true) ==> (pointer_parts(
                pointer,
            ) matches Some((drawer, key)) && has_record(state.store, drawer, key)
                && done.state.changes.len() > 0 && done.state.changes.last()
                == (ChangeModel::Delete { drawer, key }))
            &&& pointer_parts(pointer) is None ==> (done.result matches Err(f) && f.kind
                == ErrorKind::InvalidInput && done.state == state)
            &&& pointer_parts(pointer) matches Some((drawer, key)) ==> {
                &&& !state.store.dom().contains(drawer) ==> (done.result matches Err(f) && f.kind
                    == ErrorKind::NotFound && done.state == state)
                &&& state.store.dom().contains(drawer) && !has_record(state.store, drawer, key)
                    ==> done.result == Ok::<bool, crate::error::Failure>(false) && done.state
                    == state
            }
        }),
{
}

} // verus!
