//! What a record has to satisfy to be written, and that nothing else is asked of it.
use crate::drawer::index::{field_at, offsets_at};
use crate::drawer::records::{offset_of, taken_by_other, unique_problem};
use crate::drawer::relations::{
    is_target, items_problem, named_drawer, pointer_taken, relationship_problem, rule_problem,
    target_problem, upsert_check,
};
use crate::drawer::schema::{
    extra_field, fields_check, is_allowed_as, missing_field, shape_check, value_check, NumericModel,
};
use crate::drawer::DrawerModel;
use crate::fields::{key_order, lemma_key_order_len};
use crate::text::{after_prefix, first_index, lemma_first_index, less_prefix, starts_with};
use crate::value::{json_same, Json, Number};
use vstd::prelude::*;

verus! {

/// Whether a pointer consists of a drawer and a key, with a mark before the one and a colon
/// between the two.
pub open spec fn consists_of(pointer: Seq<char>, drawer: Seq<char>, key: Seq<char>) -> bool {
    &&& pointer == "@"@ + drawer + ":"@ + key
    &&& drawer.len() > 0
    &&& !drawer.contains(':')
    &&& key.len() > 0
    &&& !key.contains(':')
    &&& key != "lnk_"@
}

/// Whether a drawer is the target, alone or behind a namespace and an underscore.
pub open spec fn is_drawer_of(drawer: Seq<char>, target: Seq<char>) -> bool {
    drawer == target || exists|space: Seq<char>| drawer == #[trigger] (space + "_"@) + target
}

/// Whether a pointer names a record of the target; of any drawer, where there is no target.
pub open spec fn points_into(pointer: Seq<char>, target: Option<Seq<char>>) -> bool {
    exists|drawer: Seq<char>, key: Seq<char>| #[trigger]
        consists_of(pointer, drawer, key) && (target matches Some(t) ==> is_drawer_of(drawer, t))
}

/// Whether a value is the pointer to a record of the target.
pub open spec fn is_pointer_into(value: Json, target: Option<Seq<char>>) -> bool {
    value matches Json::Text(pointer) && points_into(pointer, target)
}

/// Whether a record keeps the relationship rule of a field: one to one is a pointer that no
/// record with another key holds, many to one is a pointer, and many to many is a list of
/// pointers. A record without the field keeps any rule.
pub open spec fn keeps_rule(
    primary_key: Seq<char>,
    existing: Seq<Json>,
    record: Json,
    key: Seq<char>,
    field: Seq<char>,
    rule: Json,
) -> bool {
    let target = rule.get_text("target_drawer"@);
    match record.get(field) {
        None => true,
        Some(value) => {
            &&& rule.get_text("type"@) == Some("1:1"@) ==> is_pointer_into(value, target)
                && forall|j: int|
                0 <= j < existing.len() && (#[trigger] existing[j]).get(field) == Some(value)
                    ==> existing[j].get_text(primary_key) == Some(key)
            &&& rule.get_text("type"@) == Some("M:1"@) ==> is_pointer_into(value, target)
            &&& rule.get_text("type"@) == Some("M:M"@) ==> (value matches Json::Array(items)
                && forall|i: int|
                0 <= i < items.len() ==> is_pointer_into(#[trigger] items[i], target))
        },
    }
}

proof fn lemma_consists(pointer: Seq<char>, drawer: Seq<char>, key: Seq<char>)
    requires
        consists_of(pointer, drawer, key),
    ensures
        named_drawer(pointer) == Some(drawer),
{
    reveal_strlit("@");
    reveal_strlit(":");
    reveal_strlit("lnk_");
    assert(pointer.subrange(0, 1) =~= "@"@);
    let rest = pointer.subrange(1, pointer.len() as int);
    assert(rest =~= drawer + ":"@ + key);
    lemma_first_index(rest, ':', 0);
    let j = first_index(rest, ':', 0);
    let n = drawer.len() as int;
    assert(rest[n] == ':');
    assert forall|k: int| 0 <= k < n implies rest[k] != ':' by {
        assert(rest[k] == drawer[k]);
        assert(drawer.contains(drawer[k]));
    }
    assert(j == n);
    assert(rest.subrange(0, n) =~= drawer);
    assert(rest.subrange(n + 1, rest.len() as int) =~= key);
    let bare = less_prefix(key, "lnk_"@);
    if starts_with(key, "lnk_"@) {
        assert(bare == key.subrange(4, key.len() as int));
        assert(key.subrange(0, 4) == "lnk_"@);
        if bare.len() == 0 {
            assert(key =~= key.subrange(0, 4));
        }
        if bare.contains(':') {
            let k = choose|k: int| 0 <= k < bare.len() && bare[k] == ':';
            assert(key[k + 4] == ':');
        }
    }
}

proof fn lemma_named(pointer: Seq<char>)
    requires
        named_drawer(pointer) is Some,
    ensures
        exists|key: Seq<char>| #[trigger] consists_of(pointer, named_drawer(pointer)->0, key),
{
    reveal_strlit("@");
    reveal_strlit(":");
    reveal_strlit("lnk_");
    let rest = pointer.subrange(1, pointer.len() as int);
    lemma_first_index(rest, ':', 0);
    let j = first_index(rest, ':', 0);
    let drawer = rest.subrange(0, j);
    let key = rest.subrange(j + 1, rest.len() as int);
    assert(pointer.subrange(0, 1) == "@"@);
    assert(pointer[0] == pointer.subrange(0, 1)[0]);
    assert(pointer =~= "@"@ + drawer + ":"@ + key);
    if drawer.contains(':') {
        let k = choose|k: int| 0 <= k < drawer.len() && drawer[k] == ':';
        assert(rest[k] == ':');
    }
    let bare = less_prefix(key, "lnk_"@);
    if key.contains(':') {
        let k = choose|k: int| 0 <= k < key.len() && key[k] == ':';
        if starts_with(key, "lnk_"@) {
            assert(key.subrange(0, 4) == "lnk_"@);
            if k < 4 {
                assert(key.subrange(0, 4)[k] == ':');
                assert("lnk_"@[k] == ':');
            }
            assert(bare[k - 4] == ':');
        } else {
            assert(bare == key);
        }
        assert(false);
    }
    if key == "lnk_"@ {
        assert(key.subrange(0, 4) =~= "lnk_"@);
        assert(bare.len() == 0);
    }
    assert(consists_of(pointer, drawer, key));
    assert("@"@.len() == 1);
    assert(after_prefix(pointer, "@"@) == Some(rest));
    assert(named_drawer(pointer) == Some(drawer));
    assert(consists_of(pointer, named_drawer(pointer)->0, key));
}

proof fn lemma_target(drawer: Seq<char>, target: Seq<char>)
    ensures
        is_target(drawer, target) <==> is_drawer_of(drawer, target),
{
    reveal_strlit("_");
    let at = drawer.len() - target.len();
    if is_target(drawer, target) && drawer != target {
        let space = drawer.subrange(0, at - 1);
        assert(drawer.subrange(at, drawer.len() as int) == target);
        assert(drawer =~= (space + "_"@) + target);
    }
    if is_drawer_of(drawer, target) && drawer != target {
        let space = choose|space: Seq<char>| drawer == #[trigger] (space + "_"@) + target;
        assert(at == space.len() + 1);
        assert(drawer.subrange(at, at + target.len()) =~= target);
        assert(drawer[at - 1] == '_');
    }
}

proof fn lemma_points_into(field: Seq<char>, pointer: Seq<char>, rule: Json)
    ensures
        target_problem(field, pointer, rule) is None <==> points_into(
            pointer,
            rule.get_text("target_drawer"@),
        ),
{
    let target = rule.get_text("target_drawer"@);
    if target_problem(field, pointer, rule) is None {
        lemma_named(pointer);
        let drawer = named_drawer(pointer)->0;
        let key = choose|key: Seq<char>| #[trigger] consists_of(pointer, drawer, key);
        match target {
            Some(t) => {
                lemma_target(drawer, t);
            },
            None => {},
        }
        assert(consists_of(pointer, drawer, key));
    }
    if points_into(pointer, target) {
        let (drawer, key) = choose|drawer: Seq<char>, key: Seq<char>| #[trigger]
            consists_of(pointer, drawer, key) && (target matches Some(t) ==> is_drawer_of(
                drawer,
                t,
            ));
        lemma_consists(pointer, drawer, key);
        match target {
            Some(t) => {
                lemma_target(drawer, t);
            },
            None => {},
        }
    }
}

proof fn lemma_items(field: Seq<char>, items: Seq<Json>, rule: Json, i: int)
    requires
        0 <= i <= items.len(),
    ensures
        items_problem(field, items, rule, i) is None <==> forall|j: int|
            i <= j < items.len() ==> is_pointer_into(
                #[trigger] items[j],
                rule.get_text("target_drawer"@),
            ),
    decreases items.len() - i,
{
    if i < items.len() {
        lemma_items(field, items, rule, i + 1);
        match items[i] {
            Json::Text(pointer) => {
                lemma_points_into(field, pointer, rule);
            },
            _ => {},
        }
        assert(is_pointer_into(items[i], rule.get_text("target_drawer"@)) <==> items[i] is Text
            && target_problem(field, items[i]->Text_0, rule) is None);
    }
}

proof fn lemma_rule(
    m: DrawerModel,
    existing: Seq<Json>,
    record: Json,
    key: Seq<char>,
    field: Seq<char>,
    rule: Json,
)
    ensures
        rule_problem(m, existing, record, key, field, rule) is None <==> keeps_rule(
            m.primary_key,
            existing,
            record,
            key,
            field,
            rule,
        ),
{
    reveal_strlit("1:1");
    reveal_strlit("M:1");
    reveal_strlit("M:M");
    assert("1:1"@[0] == '1' && "M:1"@[0] == 'M' && "M:M"@[0] == 'M');
    assert("M:1"@[2] == '1' && "M:M"@[2] == 'M');
    match record.get(field) {
        Some(Json::Text(pointer)) => {
            lemma_points_into(field, pointer, rule);
            let value = Json::Text(pointer);
            if pointer_taken(existing, m.primary_key, key, field, pointer) {
                let j = choose|j: int|
                    0 <= j < existing.len() && (#[trigger] existing[j]).get_text(m.primary_key)
                        != Some(key) && existing[j].get_text(field) == Some(pointer);
                assert(existing[j].get(field) == Some(value));
            } else {
                assert forall|j: int|
                    0 <= j < existing.len() && (#[trigger] existing[j]).get(field) == Some(
                        value,
                    ) implies existing[j].get_text(m.primary_key) == Some(key) by {
                    assert(existing[j].get_text(field) == Some(pointer));
                }
            }
        },
        Some(Json::Array(items)) => {
            lemma_items(field, items, rule, 0);
        },
        _ => {},
    }
}

proof fn lemma_relationships(
    m: DrawerModel,
    existing: Seq<Json>,
    record: Json,
    key: Seq<char>,
    i: int,
)
    requires
        0 <= i <= key_order(m.relationships.dom()).len(),
    ensures
        relationship_problem(m, existing, record, key, i) is None <==> forall|j: int|
            i <= j < key_order(m.relationships.dom()).len() ==> keeps_rule(
                m.primary_key,
                existing,
                record,
                key,
                #[trigger] key_order(m.relationships.dom())[j],
                m.relationships[key_order(m.relationships.dom())[j]],
            ),
    decreases key_order(m.relationships.dom()).len() - i,
{
    let fields = key_order(m.relationships.dom());
    if i < fields.len() {
        lemma_rule(m, existing, record, key, fields[i], m.relationships[fields[i]]);
        lemma_relationships(m, existing, record, key, i + 1);
    }
}

/// Whether a record keeps every relationship rule of a drawer.
pub open spec fn keeps_rules(
    m: DrawerModel,
    existing: Seq<Json>,
    record: Json,
    key: Seq<char>,
) -> bool {
    forall|field: Seq<char>| #[trigger]
        m.relationships.dom().contains(field) ==> keeps_rule(
            m.primary_key,
            existing,
            record,
            key,
            field,
            m.relationships[field],
        )
}

/// The relationship rules find nothing wrong with a record exactly where it keeps each of them.
/// In particular a pointer of a one to one rule is held by no record with another key, and one
/// that no other record holds is not refused for it.
pub proof fn law_relationships_are_kept(
    m: DrawerModel,
    existing: Seq<Json>,
    record: Json,
    key: Seq<char>,
)
    requires
        m.relationships.dom().finite(),
    ensures
        relationship_problem(m, existing, record, key, 0) is None <==> keeps_rules(
            m,
            existing,
            record,
            key,
        ),
{
    let fields = key_order(m.relationships.dom());
    lemma_key_order_len(m.relationships.dom());
    lemma_relationships(m, existing, record, key, 0);
    assert forall|field: Seq<char>| #[trigger]
        m.relationships.dom().contains(field) && relationship_problem(
            m,
            existing,
            record,
            key,
            0,
        ) is None implies keeps_rule(
        m.primary_key,
        existing,
        record,
        key,
        field,
        m.relationships[field],
    ) by {
        assert(fields.contains(field));
        let j = choose|j: int| 0 <= j < fields.len() && fields[j] == field;
        assert(fields[j] == field);
    }
    if keeps_rules(m, existing, record, key) {
        assert forall|j: int| 0 <= j < fields.len() implies keeps_rule(
            m.primary_key,
            existing,
            record,
            key,
            #[trigger] fields[j],
            m.relationships[fields[j]],
        ) by {
            assert(fields.contains(fields[j]));
            assert(m.relationships.dom().contains(fields[j]));
        }
    }
}

/// Whether a value is of the type that a word names.
pub open spec fn has_type(value: Json, name: Seq<char>) -> bool {
    ||| name == "array"@ && value is Array
    ||| name == "boolean"@ && value is Bool
    ||| name == "integer"@ && (value matches Json::Number(n) && !(n is Float))
    ||| name == "null"@ && value is Null
    ||| name == "number"@ && value is Number
    ||| name == "object"@ && value is Object
    ||| name == "string"@ && value is Text
}

/// Whether a value meets what a schema says of it by itself: it is one of the listed values, it is
/// of the type or of one of the types, it has every required field, and its length is within the
/// bounds.
pub open spec fn meets(value: Json, schema: Json) -> bool {
    &&& schema.get("enum"@) matches Some(Json::Array(allowed)) ==> exists|i: int|
        0 <= i < allowed.len() && json_same(#[trigger] allowed[i], value)
    &&& schema.get("type"@) matches Some(Json::Text(name)) ==> has_type(value, name)
    &&& schema.get("type"@) matches Some(Json::Array(names)) ==> exists|i: int|
        0 <= i < names.len() && (#[trigger] names[i] matches Json::Text(name) && has_type(
            value,
            name,
        ))
    &&& value matches Json::Object(fields) ==> schema.get("required"@) matches Some(
        Json::Array(names),
    ) ==> forall|i: int|
        0 <= i < names.len() ==> (#[trigger] names[i] matches Json::Text(name)
            ==> fields.dom().contains(name))
    &&& value matches Json::Text(s) ==> {
        &&& schema.get("minLength"@) matches Some(Json::Number(Number::PosInt(n))) ==> s.len()
            >= n as usize
        &&& schema.get("maxLength"@) matches Some(Json::Number(Number::PosInt(n))) ==> s.len()
            <= n as usize
    }
    &&& value matches Json::Object(fields) ==> schema.get("properties"@) matches Some(
        Json::Object(properties),
    ) ==> schema.get("additionalProperties"@) == Some(Json::Bool(false)) ==> forall|k: Seq<char>|
     #[trigger]
        fields.dom().contains(k) ==> properties.dom().contains(k)
}

/// Whether a value conforms to a schema: it meets what the schema says of it by itself, and each
/// of its fields conforms to what the schema says of that field.
pub open spec fn conforms(value: Json, schema: Json) -> bool
    decreases schema,
{
    match schema {
        Json::Object(rules) => {
            &&& meets(value, schema)
            &&& value matches Json::Object(fields) ==> {
                if rules.dom().finite() && rules.dom().contains("properties"@) {
                    match rules["properties"@] {
                        Json::Object(properties) => properties.dom().finite() ==> forall|
                            k: Seq<char>,
                        | #[trigger]
                            properties.dom().contains(k) && fields.dom().contains(k) ==> conforms(
                                fields[k],
                                properties[k],
                            ),
                        _ => true,
                    }
                } else {
                    true
                }
            }
        },
        _ => true,
    }
}

/// Whether every object in a value has finitely many fields.
pub open spec fn all_finite(value: Json) -> bool
    decreases value,
{
    match value {
        Json::Array(items) => forall|i: int|
            0 <= i < items.len() ==> all_finite(#[trigger] items[i]),
        Json::Object(fields) => fields.dom().finite() && forall|k: Seq<char>| #[trigger]
            fields.dom().contains(k) ==> all_finite(fields[k]),
        _ => true,
    }
}

proof fn lemma_missing(fields: Map<Seq<char>, Json>, required: Seq<Json>, path: Seq<char>, i: int)
    requires
        0 <= i <= required.len(),
    ensures
        missing_field(fields, required, path, i) is None <==> forall|j: int|
            i <= j < required.len() ==> (#[trigger] required[j] matches Json::Text(name)
                ==> fields.dom().contains(name)),
    decreases required.len() - i,
{
    if i < required.len() {
        lemma_missing(fields, required, path, i + 1);
        assert(required[i] is Text || !(required[i] is Text));
    }
}

proof fn lemma_extra(
    keys: Seq<Seq<char>>,
    properties: Map<Seq<char>, Json>,
    path: Seq<char>,
    i: int,
)
    requires
        0 <= i <= keys.len(),
    ensures
        extra_field(keys, properties, path, i) is None <==> forall|j: int|
            i <= j < keys.len() ==> properties.dom().contains(#[trigger] keys[j]),
    decreases keys.len() - i,
{
    if i < keys.len() {
        lemma_extra(keys, properties, path, i + 1);
        assert(properties.dom().contains(keys[i]) || !properties.dom().contains(keys[i]));
    }
}

proof fn lemma_type(value: Json, name: Seq<char>)
    ensures
        crate::drawer::schema::is_of_type(value, name) <==> has_type(value, name),
{
    reveal_strlit("array");
    reveal_strlit("boolean");
    reveal_strlit("integer");
    reveal_strlit("null");
    reveal_strlit("number");
    reveal_strlit("object");
    reveal_strlit("string");
    assert("array"@.len() == 5 && "boolean"@.len() == 7 && "integer"@.len() == 7);
    assert("null"@.len() == 4 && "number"@.len() == 6 && "object"@.len() == 6);
    assert("string"@.len() == 6);
    assert("boolean"@[0] == 'b' && "integer"@[0] == 'i');
    assert("number"@[0] == 'n' && "object"@[0] == 'o' && "string"@[0] == 's');
}

proof fn lemma_shape(value: Json, schema: Json, path: Seq<char>)
    requires
        schema is Object,
    ensures
        (shape_check(value, schema, path).problem is None
            && crate::drawer::schema::length_problem(value, schema, path) is None
            && (value matches Json::Object(fields) ==> schema.get("properties"@) matches Some(
            Json::Object(properties),
        ) ==> schema.get("additionalProperties"@) == Some(Json::Bool(false)) ==> forall|k: Seq<char>|
         #[trigger]
            fields.dom().contains(k) ==> properties.dom().contains(k))) <==> meets(value, schema),
{
    match schema.get("enum"@) {
        Some(Json::Array(allowed)) => {
            if exists|i: int| is_allowed_as(value, allowed, i) {
                let i = choose|i: int| is_allowed_as(value, allowed, i);
                assert(json_same(allowed[i], value));
            }
            if exists|i: int| 0 <= i < allowed.len() && json_same(#[trigger] allowed[i], value) {
                let i = choose|i: int|
                    0 <= i < allowed.len() && json_same(#[trigger] allowed[i], value);
                assert(is_allowed_as(value, allowed, i));
            }
        },
        _ => {},
    }
    match schema.get("type"@) {
        Some(Json::Text(name)) => {
            lemma_type(value, name);
        },
        Some(Json::Array(names)) => {
            assert forall|i: int| 0 <= i < names.len() implies match #[trigger] names[i] {
                Json::Text(name) => crate::drawer::schema::is_of_type(value, name) == has_type(
                    value,
                    name,
                ),
                _ => true,
            } by {
                match names[i] {
                    Json::Text(name) => {
                        lemma_type(value, name);
                    },
                    _ => {},
                }
            }
            if crate::drawer::schema::is_of_some_type(value, names) {
                let i = choose|i: int|
                    0 <= i < names.len() && match #[trigger] names[i] {
                        Json::Text(name) => crate::drawer::schema::is_of_type(value, name),
                        _ => false,
                    };
                assert(names[i] is Text && has_type(value, names[i]->Text_0));
            }
            if exists|i: int|
                0 <= i < names.len() && (#[trigger] names[i] matches Json::Text(name) && has_type(
                    value,
                    name,
                )) {
                let i = choose|i: int|
                    0 <= i < names.len() && (#[trigger] names[i] matches Json::Text(name)
                        && has_type(value, name));
                assert(crate::drawer::schema::is_of_type(value, names[i]->Text_0));
            }
        },
        _ => {},
    }
    match (value, schema.get("required"@)) {
        (Json::Object(fields), Some(Json::Array(names))) => {
            lemma_missing(fields, names, path, 0);
        },
        _ => {},
    }
}

proof fn lemma_fields(
    fields: Map<Seq<char>, Json>,
    properties: Map<Seq<char>, Json>,
    path: Seq<char>,
    i: int,
)
    requires
        0 <= i <= key_order(properties.dom()).len(),
        all_finite(Json::Object(properties)),
        all_finite(Json::Object(fields)),
    ensures
        fields_check(fields, properties, path, i).problem is None <==> forall|j: int|
            i <= j < key_order(properties.dom()).len() && fields.dom().contains(
                #[trigger] key_order(properties.dom())[j],
            ) ==> conforms(
                fields[key_order(properties.dom())[j]],
                properties[key_order(properties.dom())[j]],
            ),
    decreases Json::Object(properties), key_order(properties.dom()).len() - i,
{
    let keys = key_order(properties.dom());
    lemma_key_order_len(properties.dom());
    if i < keys.len() {
        assert(keys.contains(keys[i]));
        assert(properties.dom().contains(keys[i]));
        if fields.dom().contains(keys[i]) {
            let whole = Json::Object(properties);
            assert(decreases_to!(whole => whole->Object_0));
            assert(decreases_to!(properties => properties[keys[i]]));
            law_schema_is_met(fields[keys[i]], properties[keys[i]], path + "."@ + keys[i]);
        }
        lemma_fields(fields, properties, path, i + 1);
    }
}

/// The check of a value against a schema finds no problem exactly where the value conforms to the
/// schema: it is one of the values that are listed, it is of the type that is named, and so on,
/// and its fields conform to theirs.
pub proof fn law_schema_is_met(value: Json, schema: Json, path: Seq<char>)
    requires
        all_finite(value),
        all_finite(schema),
    ensures
        value_check(value, schema, path).problem is None <==> conforms(value, schema),
    decreases schema, 0int,
{
    match schema {
        Json::Object(rules) => {
            lemma_shape(value, schema, path);
            match (value, schema.get("properties"@)) {
                (Json::Object(fields), Some(Json::Object(properties))) => {
                    assert(decreases_to!(schema => schema->Object_0));
                    assert(decreases_to!(rules => rules["properties"@]));
                    assert(all_finite(rules["properties"@]));
                    lemma_fields(fields, properties, path, 0);
                    let keys = key_order(properties.dom());
                    lemma_key_order_len(properties.dom());
                    let own = key_order(fields.dom());
                    lemma_key_order_len(fields.dom());
                    lemma_extra(own, properties, path, 0);
                    assert((forall|k: Seq<char>| #[trigger]
                        fields.dom().contains(k) ==> properties.dom().contains(k)) <==> (forall|
                        j: int,
                    |
                        0 <= j < own.len() ==> properties.dom().contains(#[trigger] own[j]))) by {
                        assert forall|j: int| 0 <= j < own.len() implies fields.dom().contains(
                            #[trigger] own[j],
                        ) by {
                            assert(own.contains(own[j]));
                        }
                        assert forall|k: Seq<char>| #[trigger] fields.dom().contains(k) implies exists|
                            j: int,
                        |
                            0 <= j < own.len() && #[trigger] own[j] == k by {
                            assert(own.contains(k));
                        }
                    }
                    assert((forall|k: Seq<char>| #[trigger]
                        properties.dom().contains(k) && fields.dom().contains(k) ==> conforms(
                            fields[k],
                            properties[k],
                        )) <==> (forall|j: int|
                        0 <= j < keys.len() && fields.dom().contains(#[trigger] keys[j])
                            ==> conforms(fields[keys[j]], properties[keys[j]]))) by {
                        assert forall|j: int| 0 <= j < keys.len() implies properties.dom().contains(
                            #[trigger] keys[j],
                        ) by {
                            assert(keys.contains(keys[j]));
                        }
                        assert forall|k: Seq<char>| #[trigger] properties.dom().contains(
                            k,
                        ) implies exists|j: int| 0 <= j < keys.len() && #[trigger] keys[j] == k by {
                            assert(keys.contains(k));
                        }
                    }
                },
                _ => {},
            }
        },
        _ => {},
    }
}

/// Whether no other record of a drawer is listed under the text that a record has in a unique
/// field. The record with the same key may be.
pub open spec fn is_unique_in(m: DrawerModel, record: Json, key: Seq<char>, field: Seq<char>) -> bool {
    match record.get_text(field) {
        Some(value) => forall|o: u64| #[trigger]
            is_listed(m, field, value, o) ==> m.primary.dom().contains(key) && m.primary[key] == o,
        None => true,
    }
}

/// Whether the index of a field lists the record at an offset under a value.
pub open spec fn is_listed(m: DrawerModel, field: Seq<char>, value: Seq<char>, offset: u64) -> bool {
    m.secondary.dom().contains(field) && m.secondary[field].dom().contains(value)
        && m.secondary[field][value].contains(offset)
}

proof fn lemma_unique(m: DrawerModel, record: Json, key: Seq<char>, i: int)
    requires
        0 <= i <= m.unique.len(),
    ensures
        unique_problem(m, record, offset_of(m, key), i) is None <==> forall|j: int|
            i <= j < m.unique.len() ==> is_unique_in(m, record, key, #[trigger] m.unique[j]),
    decreases m.unique.len() - i,
{
    if i < m.unique.len() {
        lemma_unique(m, record, key, i + 1);
        let field = m.unique[i];
        let own = offset_of(m, key);
        match record.get_text(field) {
            Some(value) => {
                let offsets = offsets_at(field_at(m.secondary, field), value);
                if taken_by_other(m, record, own, field) {
                    let k = choose|k: int|
                        0 <= k < offsets.len() && Some(#[trigger] offsets[k]) != own;
                    assert(is_listed(m, field, value, offsets[k]));
                } else {
                    assert forall|o: u64| #[trigger]
                        is_listed(m, field, value, o) implies m.primary.dom().contains(key)
                        && m.primary[key] == o by {
                        let k = choose|k: int| 0 <= k < offsets.len() && offsets[k] == o;
                        assert(Some(offsets[k]) == own);
                    }
                }
            },
            None => {},
        }
    }
}

/// A record passes the checks before a write exactly where it has a key, conforms to the schema
/// of the drawer, keeps its relationship rules, and no other record has its unique values. The
/// comparisons of numbers are left to whoever makes them.
pub proof fn law_record_is_accepted(m: DrawerModel, existing: Seq<Json>, record: Json)
    requires
        m.relationships.dom().finite(),
        all_finite(record),
        m.schema matches Some(schema) ==> all_finite(schema),
    ensures
        upsert_check(m, existing, record).problem is None <==> (record.get_text(
            m.primary_key,
        ) matches Some(key) && (m.schema matches Some(schema) ==> conforms(record, schema))
            && keeps_rules(m, existing, record, key) && forall|i: int|
            0 <= i < m.unique.len() ==> is_unique_in(m, record, key, #[trigger] m.unique[i])),
{
    match record.get_text(m.primary_key) {
        Some(key) => {
            match m.schema {
                Some(schema) => {
                    law_schema_is_met(record, schema, "$"@);
                },
                None => {},
            }
            law_relationships_are_kept(m, existing, record, key);
            lemma_unique(m, record, key, 0);
        },
        None => {},
    }
}

/// The comparisons of numbers that a schema asks for of a value: its own, and those of its fields.
pub open spec fn is_asked(value: Json, schema: Json, path: Seq<char>, c: NumericModel) -> bool
    decreases schema,
{
    ||| value matches Json::Number(n) && c.value == n && c.path == path && c.minimum
        == number_under(schema, "minimum"@) && c.maximum == number_under(schema, "maximum"@) && (
    c.minimum is Some || c.maximum is Some)
    ||| match schema {
        Json::Object(rules) => value matches Json::Object(fields) && rules.dom().finite()
            && rules.dom().contains("properties"@) && match rules["properties"@] {
            Json::Object(properties) => properties.dom().finite() && exists|k: Seq<char>|
             #[trigger]
                properties.dom().contains(k) && fields.dom().contains(k) && is_asked(
                    fields[k],
                    properties[k],
                    path + "."@ + k,
                    c,
                ),
            _ => false,
        },
        _ => false,
    }
}

/// The number under a key of a schema.
pub open spec fn number_under(schema: Json, key: Seq<char>) -> Option<Number> {
    match schema.get(key) {
        Some(Json::Number(n)) => Some(n),
        _ => None,
    }
}

proof fn lemma_fields_asked(
    fields: Map<Seq<char>, Json>,
    properties: Map<Seq<char>, Json>,
    path: Seq<char>,
    i: int,
    c: NumericModel,
)
    requires
        0 <= i <= key_order(properties.dom()).len(),
        all_finite(Json::Object(properties)),
        fields_check(fields, properties, path, i).problem is None,
    ensures
        fields_check(fields, properties, path, i).numeric.contains(c) <==> exists|j: int|
            i <= j < key_order(properties.dom()).len() && fields.dom().contains(
                #[trigger] key_order(properties.dom())[j],
            ) && is_asked(
                fields[key_order(properties.dom())[j]],
                properties[key_order(properties.dom())[j]],
                path + "."@ + key_order(properties.dom())[j],
                c,
            ),
    decreases Json::Object(properties), key_order(properties.dom()).len() - i,
{
    let keys = key_order(properties.dom());
    lemma_key_order_len(properties.dom());
    if i < keys.len() {
        assert(keys.contains(keys[i]));
        assert(properties.dom().contains(keys[i]));
        if fields.dom().contains(keys[i]) {
            let whole = Json::Object(properties);
            assert(decreases_to!(whole => whole->Object_0));
            assert(decreases_to!(properties => properties[keys[i]]));
            let first = value_check(fields[keys[i]], properties[keys[i]], path + "."@ + keys[i]);
            let rest = fields_check(fields, properties, path, i + 1);
            assert(fields_check(fields, properties, path, i) == crate::drawer::schema::both(
                first,
                rest,
            ));
            assert(first.problem is None && rest.problem is None);
            law_bounds_are_compared(
                fields[keys[i]],
                properties[keys[i]],
                path + "."@ + keys[i],
                c,
            );
            lemma_fields_asked(fields, properties, path, i + 1, c);
            lemma_both_contains(first.numeric, rest.numeric, c);
        } else {
            lemma_fields_asked(fields, properties, path, i + 1, c);
        }
    }
}

proof fn lemma_both_contains(a: Seq<NumericModel>, b: Seq<NumericModel>, c: NumericModel)
    ensures
        (a + b).contains(c) <==> a.contains(c) || b.contains(c),
{
    if a.contains(c) {
        let i = choose|i: int| 0 <= i < a.len() && a[i] == c;
        assert((a + b)[i] == c);
    }
    if b.contains(c) {
        let i = choose|i: int| 0 <= i < b.len() && b[i] == c;
        assert((a + b)[a.len() + i] == c);
    }
    if (a + b).contains(c) {
        let i = choose|i: int| 0 <= i < (a + b).len() && (a + b)[i] == c;
        if i >= a.len() {
            assert(b[i - a.len()] == c);
        }
    }
}

/// Where the check of a value finds no problem, it asks for the comparisons of every number with
/// its bounds, and for no others.
pub proof fn law_bounds_are_compared(value: Json, schema: Json, path: Seq<char>, c: NumericModel)
    requires
        all_finite(schema),
        value_check(value, schema, path).problem is None,
    ensures
        value_check(value, schema, path).numeric.contains(c) <==> is_asked(value, schema, path, c),
    decreases schema, 0int,
{
    match schema {
        Json::Object(rules) => {
            let whole = value_check(value, schema, path);
            let bounds = crate::drawer::schema::comparisons(value, schema, path);
            let shape = shape_check(value, schema, path);
            assert(shape.numeric =~= Seq::<NumericModel>::empty());
            if bounds.len() > 0 {
                assert(bounds[0] == bounds[0]);
            }
            match (value, schema.get("properties"@)) {
                (Json::Object(fields), Some(Json::Object(properties))) => {
                    assert(decreases_to!(schema => schema->Object_0));
                    assert(decreases_to!(rules => rules["properties"@]));
                    assert(all_finite(rules["properties"@]));
                    let inner = fields_check(fields, properties, path, 0);
                    assert(whole.numeric =~= inner.numeric);
                    lemma_fields_asked(fields, properties, path, 0, c);
                    let keys = key_order(properties.dom());
                    lemma_key_order_len(properties.dom());
                    if is_asked(value, schema, path, c) {
                        let k = choose|k: Seq<char>| #[trigger]
                            properties.dom().contains(k) && fields.dom().contains(k) && is_asked(
                                fields[k],
                                properties[k],
                                path + "."@ + k,
                                c,
                            );
                        assert(keys.contains(k));
                        let j = choose|j: int| 0 <= j < keys.len() && keys[j] == k;
                        assert(keys[j] == k);
                    }
                    if inner.numeric.contains(c) {
                        let j = choose|j: int|
                            0 <= j < keys.len() && fields.dom().contains(#[trigger] keys[j])
                                && is_asked(
                                fields[keys[j]],
                                properties[keys[j]],
                                path + "."@ + keys[j],
                                c,
                            );
                        assert(keys.contains(keys[j]));
                        assert(properties.dom().contains(keys[j]));
                    }
                },
                _ => {
                    assert(whole.numeric =~= bounds);
                    if is_asked(value, schema, path, c) {
                        assert(bounds.len() == 1);
                        assert(bounds[0] == c);
                    }
                    if bounds.contains(c) {
                        assert(bounds[0] == c);
                        assert(value is Number);
                    }
                },
            }
        },
        _ => {},
    }
}

} // verus!
