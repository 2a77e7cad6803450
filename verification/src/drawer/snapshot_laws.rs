//! How the index file is brought in line with an index, and along which fields deletes run.
use crate::drawer::indexing::{
    burials, index_writes, named_after, snapshot, stale_values, ChangeModel,
};
use crate::drawer::replay::slot_key;
use crate::drawer::rules::{cascade_fields, flagged, with_cascades};
use crate::drawer::DrawerModel;
use crate::fields::{key_order, lemma_key_order_len};
use crate::text::after_prefix;
use crate::value::{Json, Number};
use vstd::prelude::*;

verus! {

proof fn lemma_stale(
    names: Seq<Seq<char>>,
    field: Seq<char>,
    index: Set<Seq<char>>,
    n: int,
    value: Seq<char>,
)
    requires
        0 <= n <= names.len(),
    ensures
        stale_values(names, field, index, n).contains(value) <==> !index.contains(value)
            && names.take(n).contains(slot_key(field, value)),
    decreases n,
{
    let more = names.take(n);
    let all = stale_values(names, field, index, n);
    let name = slot_key(field, value);
    if n > 0 {
        lemma_stale(names, field, index, n - 1, value);
        let before = stale_values(names, field, index, n - 1);
        let fewer = names.take(n - 1);
        let last = names[n - 1];
        assert(more =~= fewer.push(last));
        assert(more[n - 1] == last);
        if more.contains(name) {
            let i = choose|i: int| 0 <= i < more.len() && more[i] == name;
            if i < n - 1 {
                assert(fewer[i] == name);
            }
        }
        if fewer.contains(name) {
            let i = choose|i: int| 0 <= i < fewer.len() && fewer[i] == name;
            assert(more[i] == name);
        }
        lemma_slot_name(field, value, last);
        if before.contains(value) {
            let i = choose|i: int| 0 <= i < before.len() && before[i] == value;
            assert(all[i] == value);
        }
        if all.contains(value) {
            let i = choose|i: int| 0 <= i < all.len() && all[i] == value;
            if i < before.len() {
                assert(before[i] == value);
            }
        }
        if all.len() > before.len() {
            assert(all.last() == after_prefix(last, field + ":"@)->0);
        }
    }
}

proof fn lemma_slot_name(field: Seq<char>, value: Seq<char>, name: Seq<char>)
    ensures
        after_prefix(name, field + ":"@) == Some(value) <==> name == slot_key(field, value),
{
    let front = field + ":"@;
    let whole = slot_key(field, value);
    assert(whole =~= front + value);
    assert(whole.subrange(0, front.len() as int) =~= front);
    assert(whole.subrange(front.len() as int, whole.len() as int) =~= value);
    match after_prefix(name, front) {
        Some(rest) => {
            assert(name =~= front + rest);
        },
        None => {},
    }
}

proof fn lemma_named_after_burials(
    names: Set<Seq<char>>,
    field: Seq<char>,
    values: Seq<Seq<char>>,
    made: Seq<ChangeModel>,
    n: int,
    name: Seq<char>,
)
    requires
        0 <= n <= values.len() <= made.len(),
        forall|i: int| 0 <= i < values.len() ==> #[trigger] made[i] == (ChangeModel::Bury {
            field,
            key: values[i],
        }),
    ensures
        named_after(names, made, n).contains(name) <==> names.contains(name) && !exists|i: int|
            0 <= i < n && slot_key(field, #[trigger] values[i]) == name,
    decreases n,
{
    if n > 0 {
        lemma_named_after_burials(names, field, values, made, n - 1, name);
        assert(made[n - 1] == (ChangeModel::Bury { field, key: values[n - 1] }));
        if exists|i: int| 0 <= i < n && slot_key(field, #[trigger] values[i]) == name {
            let i = choose|i: int| 0 <= i < n && slot_key(field, #[trigger] values[i]) == name;
            if i < n - 1 {
                assert(slot_key(field, values[i]) == name);
            }
        }
    }
}

proof fn lemma_named_after_writes(
    names: Set<Seq<char>>,
    field: Seq<char>,
    values: Seq<Seq<char>>,
    made: Seq<ChangeModel>,
    from: int,
    n: int,
    name: Seq<char>,
)
    requires
        0 <= from <= n <= made.len(),
        made.len() == from + values.len(),
        forall|i: int| 0 <= i < values.len() ==> ((#[trigger] made[from + i]) matches ChangeModel::Write(
            log,
        ) && log.field == field && log.key == values[i]),
    ensures
        named_after(names, made, n).contains(name) <==> named_after(names, made, from).contains(name)
            || exists|i: int| 0 <= i < n - from && slot_key(field, #[trigger] values[i]) == name,
    decreases n,
{
    if n > from {
        lemma_named_after_writes(names, field, values, made, from, n - 1, name);
        let k = n - 1 - from;
        assert(made[from + k] matches ChangeModel::Write(log) && log.field == field && log.key
            == values[k]);
        if exists|i: int| 0 <= i < n - from && slot_key(field, #[trigger] values[i]) == name {
            let i = choose|i: int| 0 <= i < n - from && slot_key(field, #[trigger] values[i]) == name;
            if i < k {
                assert(slot_key(field, values[i]) == name);
            }
        }
        if slot_key(field, values[k]) == name {
            assert(exists|i: int|
                0 <= i < n - from && slot_key(field, #[trigger] values[i]) == name);
        }
    }
}

/// Once an index was written down, the index file has an entry for a value of the field just
/// where the index has one, and every entry of another field that it had.
pub proof fn law_index_file_is_brought_in_line(
    names: Set<Seq<char>>,
    field: Seq<char>,
    index: Map<Seq<char>, Seq<u64>>,
    name: Seq<char>,
)
    requires
        names.finite(),
        index.dom().finite(),
    ensures
        ({
            let made = snapshot(names, field, index);
            let after = named_after(names, made, made.len() as int);
            match after_prefix(name, field + ":"@) {
                Some(value) => after.contains(name) <==> index.dom().contains(value),
                None => after.contains(name) <==> names.contains(name),
            }
        }),
{
    let known = key_order(names);
    lemma_key_order_len(names);
    let n = known.len() as int;
    let stale = stale_values(known, field, index.dom(), n);
    let values = key_order(index.dom());
    lemma_key_order_len(index.dom());
    let made = snapshot(names, field, index);
    let from = stale.len() as int;
    assert(made =~= burials(field, stale) + index_writes(field, index));
    assert forall|i: int| 0 <= i < stale.len() implies #[trigger] made[i] == (ChangeModel::Bury {
        field,
        key: stale[i],
    }) by {
        assert(made[i] == burials(field, stale)[i]);
    }
    assert forall|i: int| 0 <= i < values.len() implies ((
    #[trigger] made[from + i]) matches ChangeModel::Write(log) && log.field == field && log.key
        == values[i]) by {
        assert(made[from + i] == index_writes(field, index)[i]);
    }
    lemma_named_after_burials(names, field, stale, made, from, name);
    lemma_named_after_writes(names, field, values, made, from, made.len() as int, name);
    match after_prefix(name, field + ":"@) {
        Some(value) => {
            lemma_slot_name(field, value, name);
            lemma_stale(known, field, index.dom(), n, value);
            assert(known.take(n) =~= known);
            if names.contains(name) {
                assert(known.contains(name));
            }
            if stale.contains(value) {
                let i = choose|i: int| 0 <= i < stale.len() && stale[i] == value;
                assert(slot_key(field, stale[i]) == name);
            }
            if exists|i: int| 0 <= i < from && slot_key(field, #[trigger] stale[i]) == name {
                let i = choose|i: int| 0 <= i < from && slot_key(field, #[trigger] stale[i]) == name;
                lemma_slot_name(field, stale[i], name);
                assert(stale.contains(value));
            }
            if index.dom().contains(value) {
                assert(values.contains(value));
                let i = choose|i: int| 0 <= i < values.len() && values[i] == value;
                assert(slot_key(field, values[i]) == name);
            }
            if exists|i: int|
                0 <= i < values.len() && slot_key(field, #[trigger] values[i]) == name {
                let i = choose|i: int|
                    0 <= i < values.len() && slot_key(field, #[trigger] values[i]) == name;
                lemma_slot_name(field, values[i], name);
                assert(index.dom().contains(values[i]));
            }
        },
        None => {
            assert forall|i: int| 0 <= i < stale.len() implies slot_key(
                field,
                #[trigger] stale[i],
            ) != name by {
                lemma_slot_name(field, stale[i], name);
            }
            assert forall|i: int| 0 <= i < values.len() implies slot_key(
                field,
                #[trigger] values[i],
            ) != name by {
                lemma_slot_name(field, values[i], name);
            }
        },
    }
}

/// Each entry of an index that is written down tells the offsets that the index has.
pub proof fn law_written_index_tells_its_offsets(
    field: Seq<char>,
    index: Map<Seq<char>, Seq<u64>>,
    i: int,
    j: int,
)
    requires
        0 <= i < index_writes(field, index).len(),
    ensures
        index_writes(field, index)[i] matches ChangeModel::Write(log) && log.field == field
            && log.key == key_order(index.dom())[i] && log.block is None && (
        log.offset matches Json::Array(items) && items.len() == index[log.key].len() && (0 <= j
            < items.len() ==> items[j] == Json::Number(Number::PosInt(index[log.key][j])))),
{
}

/// Whether the rule of a field says that deletes run along it.
pub open spec fn says_cascade(rule: Json) -> bool {
    rule == Json::Text("Cascade"@) || rule.get("action"@) == Some(Json::Text("Cascade"@))
}

proof fn lemma_flagged(flags: Map<Seq<char>, bool>, n: int, field: Seq<char>)
    requires
        0 <= n <= key_order(flags.dom()).len(),
    ensures
        flagged(flags, n).contains(field) <==> key_order(flags.dom()).take(n).contains(field)
            && flags[field],
    decreases n,
{
    let order = key_order(flags.dom());
    let more = order.take(n);
    let all = flagged(flags, n);
    if n > 0 {
        lemma_flagged(flags, n - 1, field);
        let before = flagged(flags, n - 1);
        let fewer = order.take(n - 1);
        assert(more =~= fewer.push(order[n - 1]));
        assert(more[n - 1] == order[n - 1]);
        if more.contains(field) {
            let i = choose|i: int| 0 <= i < more.len() && more[i] == field;
            if i < n - 1 {
                assert(fewer[i] == field);
            }
        }
        if fewer.contains(field) {
            let i = choose|i: int| 0 <= i < fewer.len() && fewer[i] == field;
            assert(more[i] == field);
        }
        if before.contains(field) {
            let i = choose|i: int| 0 <= i < before.len() && before[i] == field;
            assert(all[i] == field);
        }
        if all.contains(field) {
            let i = choose|i: int| 0 <= i < all.len() && all[i] == field;
            if i < before.len() {
                assert(before[i] == field);
            }
        }
        if flags[order[n - 1]] {
            assert(all.last() == order[n - 1]);
        }
    }
}

proof fn lemma_with_cascades(
    fields: Seq<Seq<char>>,
    rules: Map<Seq<char>, Json>,
    n: int,
    field: Seq<char>,
)
    requires
        0 <= n <= key_order(rules.dom()).len(),
    ensures
        with_cascades(fields, rules, n).contains(field) <==> fields.contains(field) || key_order(
            rules.dom(),
        ).take(n).contains(field) && says_cascade(rules[field]),
    decreases n,
{
    let order = key_order(rules.dom());
    let more = order.take(n);
    let all = with_cascades(fields, rules, n);
    if n > 0 {
        lemma_with_cascades(fields, rules, n - 1, field);
        let before = with_cascades(fields, rules, n - 1);
        let fewer = order.take(n - 1);
        assert(more =~= fewer.push(order[n - 1]));
        assert(more[n - 1] == order[n - 1]);
        if more.contains(field) {
            let i = choose|i: int| 0 <= i < more.len() && more[i] == field;
            if i < n - 1 {
                assert(fewer[i] == field);
            }
        }
        if fewer.contains(field) {
            let i = choose|i: int| 0 <= i < fewer.len() && fewer[i] == field;
            assert(more[i] == field);
        }
        if before.contains(field) {
            let i = choose|i: int| 0 <= i < before.len() && before[i] == field;
            assert(all[i] == field);
        }
        if all.contains(field) {
            let i = choose|i: int| 0 <= i < all.len() && all[i] == field;
            if i < before.len() {
                assert(before[i] == field);
            }
        }
        if all.len() > before.len() {
            assert(all.last() == order[n - 1]);
        }
    }
}

/// Deletes run along just those fields that are flagged for it, or whose delete rule says so.
pub proof fn law_deletes_run_along_their_fields(m: DrawerModel, field: Seq<char>)
    requires
        m.cascade.dom().finite(),
        m.delete_rules.dom().finite(),
    ensures
        cascade_fields(m).contains(field) <==> (m.cascade.dom().contains(field) && m.cascade[field])
            || (m.delete_rules.dom().contains(field) && says_cascade(m.delete_rules[field])),
{
    let flags = key_order(m.cascade.dom());
    let rules = key_order(m.delete_rules.dom());
    lemma_key_order_len(m.cascade.dom());
    lemma_key_order_len(m.delete_rules.dom());
    lemma_flagged(m.cascade, flags.len() as int, field);
    lemma_with_cascades(
        flagged(m.cascade, flags.len() as int),
        m.delete_rules,
        rules.len() as int,
        field,
    );
    assert(flags.take(flags.len() as int) =~= flags);
    assert(rules.take(rules.len() as int) =~= rules);
    if flags.contains(field) {
        let i = choose|i: int| 0 <= i < flags.len() && flags[i] == field;
        assert(m.cascade.dom().contains(flags[i]));
    }
    if rules.contains(field) {
        let i = choose|i: int| 0 <= i < rules.len() && rules[i] == field;
        assert(m.delete_rules.dom().contains(rules[i]));
    }
}

} // verus!
