//! What the rules of a drawer do once they are added, and that they are gone once they are
//! removed.
use crate::drawer::acceptance::is_listed;
use crate::drawer::index::{field_at, offsets_at};
use crate::drawer::indexing::{
    built_index, indexed_from, is_materialized, record_indexed, with_query_index,
};
use crate::drawer::legacy::{migrated, migrated_items, migrated_text};
use crate::drawer::rules::{
    asks_required, asks_unique, constraint_named, extension_entry, is_primary_key_rule, items_of, kind_named, less_name,
    less_text, rule_answer, rule_managed, with_extension, with_required, without_extension,
    without_required, RuleKind,
};
use crate::drawer::lookup::{has_under, is_live_at, is_true_index, law_built_index_is_true};
use crate::drawer::{extension_fields, DrawerModel};
use crate::error::ErrorKind;
use crate::fields::key_order;
use crate::pointer::{clean_token, pointer_parts, pointer_text};
use crate::text::{ascii_lower, trimmed};
use crate::value::Json;
use vstd::prelude::*;

verus! {

proof fn lemma_words()
    ensures
        ascii_lower("add"@) == "add"@,
        ascii_lower("remove"@) == "remove"@,
        "add"@ != "remove"@,
        kind_named("relationship"@) == Some(RuleKind::Relationship),
        kind_named("cascade-delete"@) == Some(RuleKind::CascadeDelete),
        kind_named("constraint"@) == Some(RuleKind::Constraint),
        kind_named("index"@) == Some(RuleKind::Index),
        kind_named("key"@) == Some(RuleKind::Key),
        kind_named("trigger"@) == Some(RuleKind::Trigger),
        asks_unique("unique"@),
        !asks_required("unique"@),
        asks_required("required"@),
        !asks_unique("required"@),
{
    reveal_strlit("add");
    reveal_strlit("remove");
    assert("add"@.len() == 3 && "remove"@.len() == 6);
    assert(ascii_lower("add"@) =~= "add"@);
    assert(ascii_lower("remove"@) =~= "remove"@);
    reveal_strlit("relationship");
    reveal_strlit("relationships");
    reveal_strlit("cascade-delete");
    reveal_strlit("cascade_delete");
    reveal_strlit("cascade");
    reveal_strlit("delete-rule");
    reveal_strlit("delete-rules");
    reveal_strlit("constraint");
    reveal_strlit("constraints");
    reveal_strlit("index");
    reveal_strlit("indexes");
    reveal_strlit("key");
    reveal_strlit("keys");
    reveal_strlit("trigger");
    reveal_strlit("triggers");
    assert(ascii_lower("relationship"@) =~= "relationship"@);
    assert(ascii_lower("cascade-delete"@) =~= "cascade-delete"@);
    assert(ascii_lower("constraint"@) =~= "constraint"@);
    assert(ascii_lower("index"@) =~= "index"@);
    assert(ascii_lower("key"@) =~= "key"@);
    assert(ascii_lower("trigger"@) =~= "trigger"@);
    assert("index"@.len() == 5 && "indexes"@.len() == 7 && "key"@.len() == 3 && "keys"@.len() == 4);
    assert("constraint"@.len() == 10 && "constraints"@.len() == 11 && "trigger"@.len() == 7);
    assert("triggers"@.len() == 8 && "relationship"@.len() == 12 && "relationships"@.len() == 13);
    assert("cascade-delete"@.len() == 14);
    assert("indexes"@[0] == 'i' && "trigger"@[0] == 't');
    reveal_strlit("unique");
    reveal_strlit("required");
    reveal_strlit("non-null");
    reveal_strlit("non_null");
    reveal_strlit("nonnull");
    assert(ascii_lower("unique"@) =~= "unique"@);
    assert(ascii_lower("required"@) =~= "required"@);
    assert("unique"@.len() == 6 && "required"@.len() == 8 && "nonnull"@.len() == 7);
    assert("non-null"@.len() == 8 && "non_null"@.len() == 8);
}

/// A relationship rule that is added is the rule of its field, and one that is removed is not;
/// the rules of other fields stay, and so do the records.
pub proof fn law_relationship_rules_take_hold(
    m: DrawerModel,
    records: Map<u64, Json>,
    names: Set<Seq<char>>,
    field: Seq<char>,
    payload: Json,
)
    requires
        trimmed(field).len() > 0,
    ensures
        rule_managed(
            m,
            records,
            names,
            "add"@,
            "relationship"@,
            field,
            payload,
        ) matches Ok((after, _)) && after.relationships == m.relationships.insert(field, payload)
            && after.primary == m.primary && after.unique == m.unique && after.schema == m.schema,
        rule_managed(
            m,
            records,
            names,
            "remove"@,
            "relationship"@,
            field,
            payload,
        ) matches Ok((after, _)) && after.relationships == m.relationships.remove(field)
            && after.primary == m.primary && after.unique == m.unique && after.schema == m.schema,
{
    lemma_words();
}

/// A field that is to delete along does so once its rule was added, and no longer once it was
/// removed; the rules of other fields stay.
pub proof fn law_cascade_rules_take_hold(
    m: DrawerModel,
    records: Map<u64, Json>,
    names: Set<Seq<char>>,
    field: Seq<char>,
    payload: Json,
    other: Seq<char>,
)
    requires
        trimmed(field).len() > 0,
    ensures
        rule_managed(
            m,
            records,
            names,
            "add"@,
            "cascade-delete"@,
            field,
            payload,
        ) matches Ok((after, _)) && after.cascade.dom().contains(field) && after.cascade[field]
            && after.delete_rules.dom().contains(field) && after.delete_rules[field].get("action"@)
            == Some(Json::Text("Cascade"@)) && (other != field ==> (after.cascade.dom().contains(
            other,
        ) <==> m.cascade.dom().contains(other)) && (after.delete_rules.dom().contains(other)
            <==> m.delete_rules.dom().contains(other))),
        rule_managed(
            m,
            records,
            names,
            "remove"@,
            "cascade-delete"@,
            field,
            payload,
        ) matches Ok((after, _)) && !after.cascade.dom().contains(field)
            && !after.delete_rules.dom().contains(field) && (other != field ==> (
        after.cascade.dom().contains(other) <==> m.cascade.dom().contains(other)) && (
        after.delete_rules.dom().contains(other) <==> m.delete_rules.dom().contains(other))),
{
    lemma_words();
}

/// Whether a schema requires a field.
pub open spec fn requires_field(schema: Option<Json>, field: Seq<char>) -> bool {
    schema matches Some(s) && (s.get("required"@) matches Some(Json::Array(names))
        && names.contains(Json::Text(field)))
}

proof fn lemma_less_text(items: Seq<Json>, text: Seq<char>, n: int, other: Seq<char>)
    requires
        0 <= n <= items.len(),
    ensures
        less_text(items, text, n).contains(Json::Text(other)) <==> items.take(n).contains(
            Json::Text(other),
        ) && other != text,
    decreases n,
{
    let all = less_text(items, text, n);
    let one = Json::Text(other);
    if n > 0 {
        lemma_less_text(items, text, n - 1, other);
        let before = less_text(items, text, n - 1);
        let fewer = items.take(n - 1);
        let more = items.take(n);
        assert(more =~= fewer.push(items[n - 1]));
        assert(more[n - 1] == items[n - 1]);
        if more.contains(one) {
            let i = choose|i: int| 0 <= i < more.len() && more[i] == one;
            if i < n - 1 {
                assert(fewer[i] == one);
            }
        }
        if fewer.contains(one) {
            let i = choose|i: int| 0 <= i < fewer.len() && fewer[i] == one;
            assert(more[i] == one);
        }
        if before.contains(one) {
            let i = choose|i: int| 0 <= i < before.len() && before[i] == one;
            assert(all[i] == one);
        }
        if all.contains(one) {
            let i = choose|i: int| 0 <= i < all.len() && all[i] == one;
            if i < before.len() {
                assert(before[i] == one);
            }
        }
        if items[n - 1] != Json::Text(text) {
            assert(all.last() == items[n - 1]);
        }
    }
}

proof fn lemma_with_required(schema: Option<Json>, field: Seq<char>, other: Seq<char>)
    ensures
        requires_field(Some(with_required(schema, field)), other) <==> requires_field(schema, other)
            || other == field,
{
    let items = match schema {
        Some(s) => items_of(s.get("required"@)),
        None => Seq::empty(),
    };
    let after = with_required(schema, field)->Object_0["required"@]->Array_0;
    if items.contains(Json::Text(other)) {
        let i = choose|i: int| 0 <= i < items.len() && items[i] == Json::Text(other);
        assert(after[i] == Json::Text(other));
    }
    if !items.contains(Json::Text(field)) {
        assert(after.last() == Json::Text(field));
    }
    if after.contains(Json::Text(other)) {
        let i = choose|i: int| 0 <= i < after.len() && after[i] == Json::Text(other);
        if i < items.len() {
            assert(items[i] == Json::Text(other));
        }
    }
    match schema {
        Some(Json::Object(fields)) => {},
        _ => {},
    }
}

proof fn lemma_extension_keeps_required(
    schema: Option<Json>,
    bucket: Seq<char>,
    field: Seq<char>,
    payload: Json,
    other: Seq<char>,
)
    ensures
        requires_field(
            Some(crate::drawer::rules::with_extension(schema, bucket, field, payload)),
            other,
        ) <==> requires_field(schema, other),
        requires_field(crate::drawer::rules::without_extension(schema, bucket, field), other)
            <==> requires_field(schema, other),
{
    reveal_strlit("required");
    reveal_strlit("x-wardrobe-cli");
    assert("required"@.len() == 8 && "x-wardrobe-cli"@.len() == 14);
}

/// A field for which a value is asked for is required by the schema from then on, and no longer
/// once the constraint was removed; what was asked of other fields stays.
pub proof fn law_required_fields_take_hold(
    m: DrawerModel,
    records: Map<u64, Json>,
    names: Set<Seq<char>>,
    field: Seq<char>,
    payload: Json,
    other: Seq<char>,
)
    requires
        trimmed(field).len() > 0,
        payload.get_text("constraint"@) == Some("required"@),
    ensures
        rule_managed(
            m,
            records,
            names,
            "add"@,
            "constraint"@,
            field,
            payload,
        ) matches Ok((after, _)) && (requires_field(after.schema, other) <==> requires_field(
            m.schema,
            other,
        ) || other == field) && after.unique == m.unique,
        rule_managed(
            m,
            records,
            names,
            "remove"@,
            "constraint"@,
            field,
            payload,
        ) matches Ok((after, _)) && (requires_field(after.schema, other) <==> requires_field(
            m.schema,
            other,
        ) && other != field) && after.unique == m.unique,
{
    lemma_words();
    assert(constraint_named(payload) == Some("required"@));
    lemma_with_required(m.schema, field, other);
    lemma_extension_keeps_required(
        Some(with_required(m.schema, field)),
        "constraints"@,
        field,
        payload,
        other,
    );
    let left = without_required(m.schema, field);
    lemma_extension_keeps_required(left, "constraints"@, field, payload, other);
    match m.schema {
        Some(Json::Object(fields)) => match Json::Object(fields).get("required"@) {
            Some(Json::Array(items)) => {
                lemma_less_text(items, field, items.len() as int, other);
                assert(items.take(items.len() as int) =~= items);
            },
            _ => {},
        },
        _ => {},
    }
}

proof fn lemma_less_name(names: Seq<Seq<char>>, name: Seq<char>, n: int, other: Seq<char>)
    requires
        0 <= n <= names.len(),
    ensures
        less_name(names, name, n).contains(other) <==> names.take(n).contains(other) && other
            != name,
    decreases n,
{
    let all = less_name(names, name, n);
    if n > 0 {
        lemma_less_name(names, name, n - 1, other);
        let before = less_name(names, name, n - 1);
        let fewer = names.take(n - 1);
        let more = names.take(n);
        assert(more =~= fewer.push(names[n - 1]));
        assert(more[n - 1] == names[n - 1]);
        if more.contains(other) {
            let i = choose|i: int| 0 <= i < more.len() && more[i] == other;
            if i < n - 1 {
                assert(fewer[i] == other);
            }
        }
        if fewer.contains(other) {
            let i = choose|i: int| 0 <= i < fewer.len() && fewer[i] == other;
            assert(more[i] == other);
        }
        if before.contains(other) {
            let i = choose|i: int| 0 <= i < before.len() && before[i] == other;
            assert(all[i] == other);
        }
        if all.contains(other) {
            let i = choose|i: int| 0 <= i < all.len() && all[i] == other;
            if i < before.len() {
                assert(before[i] == other);
            }
        }
        if names[n - 1] != name {
            assert(all.last() == names[n - 1]);
        }
    }
}

/// A field whose values are to be unique is so once the constraint was added, where no value of
/// it is held twice; it is not once the constraint was removed. Other fields stay as they were.
pub proof fn law_unique_fields_take_hold(
    m: DrawerModel,
    records: Map<u64, Json>,
    names: Set<Seq<char>>,
    field: Seq<char>,
    payload: Json,
    other: Seq<char>,
)
    requires
        trimmed(field).len() > 0,
        payload.get_text("constraint"@) == Some("unique"@),
    ensures
        match rule_managed(m, records, names, "add"@, "constraint"@, field, payload) {
            Ok((after, _)) => (after.unique.contains(other) <==> m.unique.contains(other) || other
                == field) && (!m.unique.contains(field) ==> forall|value: Seq<char>|
                after.secondary[field].dom().contains(value) ==> (
                #[trigger] after.secondary[field][value]).len() == 1),
            Err(f) => f.kind == ErrorKind::InvalidData && !m.unique.contains(field),
        },
        rule_managed(
            m,
            records,
            names,
            "remove"@,
            "constraint"@,
            field,
            payload,
        ) matches Ok((after, _)) && (after.unique.contains(other) <==> m.unique.contains(other)
            && other != field),
{
    lemma_words();
    assert(constraint_named(payload) == Some("unique"@));
    crate::drawer::rules::law_unique_rule_takes_hold(m, records, names, field);
    lemma_less_name(m.unique, field, m.unique.len() as int, other);
    assert(m.unique.take(m.unique.len() as int) =~= m.unique);
    lemma_built_once(m, records, field, Map::empty(), 0);
}

proof fn lemma_built_once(
    m: DrawerModel,
    records: Map<u64, Json>,
    field: Seq<char>,
    index: Map<Seq<char>, Seq<u64>>,
    i: int,
)
    requires
        forall|value: Seq<char>|
            index.dom().contains(value) ==> (#[trigger] index[value]).len() == 1,
    ensures
        match indexed_from(m, records, field, true, index, i) {
            Ok(done) => forall|value: Seq<char>|
                done.dom().contains(value) ==> (#[trigger] done[value]).len() == 1,
            Err(f) => f.kind == ErrorKind::InvalidData,
        },
    decreases key_order(m.primary.dom()).len() - i,
{
    let keys = key_order(m.primary.dom());
    if i < keys.len() {
        match record_indexed(m, records, field, true, index, keys[i]) {
            Ok(more) => {
                lemma_built_once(m, records, field, more, i + 1);
            },
            Err(_) => {},
        }
    }
}

/// A rule of an unnamed field, of an unknown kind or with an unknown action is refused. The primary
/// key cannot be changed. The answer repeats what was asked for.
pub proof fn law_bad_rules_are_refused(
    m: DrawerModel,
    records: Map<u64, Json>,
    names: Set<Seq<char>>,
    action: Seq<char>,
    kind: Seq<char>,
    field: Seq<char>,
    payload: Json,
)
    ensures
        trimmed(field).len() == 0 || kind_named(kind) is None || (ascii_lower(action) != "add"@
            && ascii_lower(action) != "remove"@ && ascii_lower(action) != "rebuild"@) ==> (
        rule_managed(m, records, names, action, kind, field, payload) matches Err(f) && f.kind
            == ErrorKind::InvalidInput),
        rule_managed(m, records, names, action, kind, field, payload) matches Ok((after, _))
            ==> after.primary_key == m.primary_key && after.primary == m.primary && after.name
            == m.name && after.record_count == m.record_count && after.blocks == m.blocks,
        ({
            let answer = rule_answer(m.name, action, kind, field, payload);
            &&& answer.get("drawer"@) == Some(Json::Text(m.name))
            &&& answer.get("field"@) == Some(Json::Text(field))
            &&& answer.get("payload"@) == Some(payload)
            &&& answer.get("action"@) == Some(Json::Text(ascii_lower(action)))
        }),
{
    reveal_strlit("drawer");
    reveal_strlit("action");
    reveal_strlit("type");
    reveal_strlit("field");
    reveal_strlit("payload");
    assert("drawer"@.len() == 6 && "action"@.len() == 6 && "type"@.len() == 4);
    assert("field"@.len() == 5 && "payload"@.len() == 7);
    assert("drawer"@[0] == 'd' && "action"@[0] == 'a');
}

/// A text in the present format: the key of a record without what earlier keys had before them,
/// and a pointer with such a key. Any other text stays.
pub proof fn law_texts_are_brought_up_to_date(s: Seq<char>, key: Option<Seq<char>>)
    ensures
        key == Some("_id"@) ==> migrated_text(s, key) == clean_token(s),
        key != Some("_id"@) ==> migrated_text(s, key) == match pointer_parts(s) {
            Some((drawer, k)) => pointer_text(drawer, k),
            None => s,
        },
{
}

/// A record in the present format has the fields that it had, each in the present format; what is
/// no text and holds none stays as it is; of a list at most the first outdated item changes.
pub proof fn law_values_are_brought_up_to_date(value: Json, key: Option<Seq<char>>)
    ensures
        match value {
            Json::Object(fields) => fields.dom().finite() ==> (migrated(
                value,
                key,
            ) matches Json::Object(after) && after.dom() == fields.dom() && forall|f: Seq<char>|
             #[trigger]
                fields.dom().contains(f) ==> after[f] == migrated(fields[f], Some(f))),
            Json::Text(s) => migrated(value, key) == Json::Text(migrated_text(s, key)),
            Json::Array(items) => migrated(value, key) matches Json::Array(after) && after.len()
                == items.len() && forall|i: int, j: int|
                0 <= i < items.len() && 0 <= j < items.len() && #[trigger] after[i] != items[i]
                    && #[trigger] after[j] != items[j] ==> i == j,
            _ => migrated(value, key) == value,
        },
{
    match value {
        Json::Object(fields) => {
            if fields.dom().finite() {
                assert(migrated(value, key)->Object_0.dom() =~= fields.dom());
            }
        },
        Json::Array(items) => {
            lemma_one_item(items, 0);
        },
        _ => {},
    }
}

proof fn lemma_one_item(items: Seq<Json>, i: int)
    requires
        0 <= i <= items.len(),
    ensures
        migrated_items(items, i).len() == items.len(),
        migrated_items(items, i) == items || exists|k: int|
            i <= k < items.len() && #[trigger] migrated(items[k], None) != items[k]
                && migrated_items(items, i) == items.update(k, migrated(items[k], None)) && (forall|
                j: int,
            |
                i <= j < k ==> #[trigger] migrated(items[j], None) == items[j]),
        migrated_items(items, i) == items ==> forall|j: int|
            i <= j < items.len() ==> #[trigger] migrated(items[j], None) == items[j],
    decreases items.len() - i,
{
    if i < items.len() {
        if migrated(items[i], None) != items[i] {
            assert(migrated_items(items, i) == items.update(i, migrated(items[i], None)));
            assert(items.update(i, migrated(items[i], None))[i] != items[i]);
        } else {
            lemma_one_item(items, i + 1);
        }
    }
}

/// Of a list, the first item that is out of date is brought up to date, and where there is none
/// the list stays as it is.
pub proof fn law_first_outdated_item_is_brought_up_to_date(items: Seq<Json>, k: int)
    requires
        0 <= k < items.len(),
        migrated(items[k], None) != items[k],
        forall|j: int| 0 <= j < k ==> #[trigger] migrated(items[j], None) == items[j],
    ensures
        migrated(Json::Array(items), None) == Json::Array(
            items.update(k, migrated(items[k], None)),
        ),
{
    lemma_one_item(items, 0);
    let after = migrated_items(items, 0);
    if after == items {
        assert(migrated(items[k], None) == items[k]);
    } else {
        let i = choose|i: int|
            0 <= i < items.len() && #[trigger] migrated(items[i], None) != items[i] && after
                == items.update(i, migrated(items[i], None)) && (forall|j: int|
                0 <= j < i ==> #[trigger] migrated(items[j], None) == items[j]);
        if i < k {
            assert(migrated(items[i], None) == items[i]);
        } else if k < i {
            assert(migrated(items[k], None) == items[k]);
        }
    }
}

/// An index that is declared is noted in the schema, and what there was of it is not relied on: it
/// is built anew when it is first asked for. One that is removed is noted no more, nor kept. The
/// index of a unique field stays in use.
pub proof fn law_declared_index_is_built_anew(
    m: DrawerModel,
    records: Map<u64, Json>,
    names: Set<Seq<char>>,
    field: Seq<char>,
    payload: Json,
)
    requires
        trimmed(field).len() > 0,
    ensures
        rule_managed(m, records, names, "add"@, "index"@, field, payload) matches Ok((after, _))
            && extension_entry(after.schema, "indexes"@, field) == Some(payload)
            && !is_materialized(after, field) && !after.validated.contains(field) && (if m.unique.contains(
            field,
        ) {
            after.secondary == m.secondary
        } else {
            !after.secondary.dom().contains(field)
        }) && after.unique == m.unique,
        rule_managed(m, records, names, "remove"@, "index"@, field, payload) matches Ok((after, _))
            && extension_entry(after.schema, "indexes"@, field) is None && (if m.unique.contains(
            field,
        ) {
            after.secondary == m.secondary
        } else {
            !after.secondary.dom().contains(field) && !is_materialized(after, field)
        }) && after.unique == m.unique,
{
    lemma_words();
    let with = with_extension(m.schema, "indexes"@, field, payload);
    assert(extension_entry(Some(with), "indexes"@, field) == Some(payload));
    let without = without_extension(m.schema, "indexes"@, field);
    assert(extension_entry(without, "indexes"@, field) is None);
}

/// The index of a field that was built for lookups is in use from then on, as it was built; the
/// indexes of other fields stay.
pub proof fn law_built_query_index_is_used(
    m: DrawerModel,
    field: Seq<char>,
    index: Map<Seq<char>, Seq<u64>>,
    other: Seq<char>,
)
    ensures
        ({
            let after = with_query_index(m, field, index);
            &&& is_materialized(after, field)
            &&& after.validated.contains(field)
            &&& after.secondary[field] == index
            &&& other != field ==> (is_materialized(after, other) <==> is_materialized(m, other)) && (
            after.validated.contains(other) <==> m.validated.contains(other)) && field_at(
                after.secondary,
                other,
            ) == field_at(m.secondary, other)
        }),
{
}

/// An index that is rebuilt lists the live records by their values, and is relied on. Only the
/// index of a unique field, or one that is declared, can be rebuilt, and no other kind of rule.
pub proof fn law_rebuilt_index_is_true(
    m: DrawerModel,
    records: Map<u64, Json>,
    names: Set<Seq<char>>,
    field: Seq<char>,
    payload: Json,
)
    requires
        trimmed(field).len() > 0,
        m.primary.dom().finite(),
    ensures
        match rule_managed(m, records, names, "rebuild"@, "index"@, field, payload) {
            Ok((after, _)) => is_true_index(after, records, field) && after.validated.contains(field)
                && after.primary == m.primary && after.unique == m.unique && (m.unique.contains(
                field,
            ) || extension_fields(m.schema, "indexes"@).contains(field)),
            Err(f) => if m.unique.contains(field) {
                f.kind == ErrorKind::InvalidData
            } else {
                f.kind == ErrorKind::NotFound && !extension_fields(
                    m.schema,
                    "indexes"@,
                ).contains(field)
            },
        },
        rule_managed(m, records, names, "rebuild"@, "relationship"@, field, payload) is Err,
        rule_managed(m, records, names, "rebuild"@, "constraint"@, field, payload) is Err,
{
    lemma_words();
    reveal_strlit("rebuild");
    reveal_strlit("add");
    reveal_strlit("remove");
    assert(ascii_lower("rebuild"@) =~= "rebuild"@);
    assert("rebuild"@.len() == 7);
    let unique = m.unique.contains(field);
    law_built_index_is_true(m, records, field, unique);
    lemma_built_kind(m, records, field, unique);
    match rule_managed(m, records, names, "rebuild"@, "index"@, field, payload) {
        Ok((after, _)) => {
            let index = built_index(m, records, field, unique)->Ok_0;
            assert(after.secondary[field] == index);
            assert forall|text: Seq<char>, o: u64| #[trigger]
                is_listed(after, field, text, o) <==> is_live_at(after, records, o) && has_under(
                    records[o],
                    field,
                    text,
                ) by {
                assert(is_listed(after, field, text, o) <==> offsets_at(index, text).contains(o));
                assert(is_live_at(after, records, o) == is_live_at(m, records, o));
            }
        },
        Err(_) => {},
    }
}

proof fn lemma_built_kind(
    m: DrawerModel,
    records: Map<u64, Json>,
    field: Seq<char>,
    unique: bool,
)
    ensures
        unique ==> (built_index(m, records, field, unique) matches Err(f) ==> f.kind
            == ErrorKind::InvalidData),
{
    if unique {
        lemma_built_once(m, records, field, Map::empty(), 0);
    }
}

/// A key makes its field unique, unless it is the primary one: that is fixed, so it can be named
/// again but not be changed.
pub proof fn law_keys_are_unique(
    m: DrawerModel,
    records: Map<u64, Json>,
    names: Set<Seq<char>>,
    field: Seq<char>,
    payload: Json,
    other: Seq<char>,
)
    requires
        trimmed(field).len() > 0,
    ensures
        is_primary_key_rule(payload) ==> match rule_managed(
            m,
            records,
            names,
            "add"@,
            "key"@,
            field,
            payload,
        ) {
            Ok((after, _)) => field == m.primary_key && after.unique == m.unique
                && after.primary_key == m.primary_key,
            Err(_) => field != m.primary_key,
        },
        !is_primary_key_rule(payload) ==> match rule_managed(
            m,
            records,
            names,
            "add"@,
            "key"@,
            field,
            payload,
        ) {
            Ok((after, _)) => after.unique.contains(other) <==> m.unique.contains(other) || other
                == field,
            Err(f) => f.kind == ErrorKind::InvalidData && !m.unique.contains(field),
        },
        !is_primary_key_rule(payload) ==> (rule_managed(
            m,
            records,
            names,
            "remove"@,
            "key"@,
            field,
            payload,
        ) matches Ok((after, _)) && (after.unique.contains(other) <==> m.unique.contains(other)
            && other != field)),
{
    lemma_words();
    crate::drawer::rules::law_unique_rule_takes_hold(m, records, names, field);
    lemma_less_name(m.unique, field, m.unique.len() as int, other);
    assert(m.unique.take(m.unique.len() as int) =~= m.unique);
    lemma_built_once(m, records, field, Map::empty(), 0);
    let more = m.unique.push(field);
    assert(more[m.unique.len() as int] == field);
    if m.unique.contains(other) {
        let i = choose|i: int| 0 <= i < m.unique.len() && m.unique[i] == other;
        assert(more[i] == other);
    }
    if more.contains(other) {
        let i = choose|i: int| 0 <= i < more.len() && more[i] == other;
        if i < m.unique.len() {
            assert(m.unique[i] == other);
        }
    }
}

} // verus!
