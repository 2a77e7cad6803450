//! The rules of a drawer: indexes, keys, constraints, triggers, relationships and cascades.
use crate::drawer::index::{field_at, field_model, group_index, FieldIndex};
use crate::drawer::indexing::{
    built_index, burials, changes, entry_names, snapshot, stored, with_query_index,
    write_secondary_index_snapshot, ChangeModel, EntryNames, IndexChange, StoredRecords,
};
use crate::drawer::replay::IndexSlots;
use crate::drawer::{extension_fields, Drawer, DrawerModel};
use crate::error::{bad_input, not_found, Error, Failure};
use crate::fields::{key_order, TextMap};
use crate::text::{
    ascii_lower, concat2, concat3, concat5, holds, is_blank, owned, same, texts, to_lower, trimmed,
};
use crate::value::{group_value, json_fields, jsons, opt_value, Json, JsonValue};
use vstd::prelude::*;

verus! {

/// What a rule is about.
#[derive(Debug, Clone, Copy, PartialEq, Eq, Structural)]
pub enum RuleKind {
    Index,
    Key,
    Constraint,
    Trigger,
    Relationship,
    CascadeDelete,
}

impl RuleKind {
    pub open spec fn name(self) -> Seq<char> {
        match self {
            RuleKind::Index => "index"@,
            RuleKind::Key => "key"@,
            RuleKind::Constraint => "constraint"@,
            RuleKind::Trigger => "trigger"@,
            RuleKind::Relationship => "relationship"@,
            RuleKind::CascadeDelete => "cascade-delete"@,
        }
    }

    pub fn as_str(self) -> (r: &'static str)
        ensures
            r@ == self.name(),
    {
        match self {
            RuleKind::Index => "index",
            RuleKind::Key => "key",
            RuleKind::Constraint => "constraint",
            RuleKind::Trigger => "trigger",
            RuleKind::Relationship => "relationship",
            RuleKind::CascadeDelete => "cascade-delete",
        }
    }
}

/// The kind that a word names, in any case, in the singular or the plural.
pub open spec fn kind_named(word: Seq<char>) -> Option<RuleKind> {
    let w = ascii_lower(word);
    if w == "index"@ || w == "indexes"@ {
        Some(RuleKind::Index)
    } else if w == "key"@ || w == "keys"@ {
        Some(RuleKind::Key)
    } else if w == "constraint"@ || w == "constraints"@ {
        Some(RuleKind::Constraint)
    } else if w == "trigger"@ || w == "triggers"@ {
        Some(RuleKind::Trigger)
    } else if w == "relationship"@ || w == "relationships"@ {
        Some(RuleKind::Relationship)
    } else if w == "cascade-delete"@ || w == "cascade_delete"@ || w == "cascade"@ || w
        == "delete-rule"@ || w == "delete-rules"@ {
        Some(RuleKind::CascadeDelete)
    } else {
        None
    }
}

/// The failure of a word that names no kind of rule.
pub open spec fn unknown_kind(word: Seq<char>) -> Failure {
    bad_input("Unknown schema type: "@ + word)
}

pub fn normalize_schema_kind(kind: &str) -> (r: Result<RuleKind, Error>)
    ensures
        match r {
            Ok(k) => kind_named(kind@) == Some(k),
            Err(e) => kind_named(kind@) is None && e@ == unknown_kind(kind@),
        },
{
    let lower = to_lower(kind);
    let w = lower.as_str();
    if same(w, "index") || same(w, "indexes") {
        Ok(RuleKind::Index)
    } else if same(w, "key") || same(w, "keys") {
        Ok(RuleKind::Key)
    } else if same(w, "constraint") || same(w, "constraints") {
        Ok(RuleKind::Constraint)
    } else if same(w, "trigger") || same(w, "triggers") {
        Ok(RuleKind::Trigger)
    } else if same(w, "relationship") || same(w, "relationships") {
        Ok(RuleKind::Relationship)
    } else if same(w, "cascade-delete") || same(w, "cascade_delete") || same(w, "cascade") || same(
        w,
        "delete-rule",
    ) || same(w, "delete-rules") {
        Ok(RuleKind::CascadeDelete)
    } else {
        Err(Error::invalid_input(concat2("Unknown schema type: ", kind)))
    }
}

/// The failure of a rule for no field.
pub open spec fn no_field() -> Failure {
    bad_input("schema command target field cannot be empty"@)
}

pub fn validate_schema_field(field_name: &str) -> (r: Result<(), Error>)
    ensures
        match r {
            Ok(()) => trimmed(field_name@).len() > 0,
            Err(e) => trimmed(field_name@).len() == 0 && e@ == no_field(),
        },
{
    if is_blank(field_name) {
        Err(Error::invalid_input(owned("schema command target field cannot be empty")))
    } else {
        Ok(())
    }
}

/// The constraint that a payload names: under `constraint`, else under `constraint_type`, else
/// under `type`.
pub open spec fn constraint_named(payload: Json) -> Option<Seq<char>> {
    let value = if payload.get("constraint"@) is Some {
        payload.get("constraint"@)
    } else if payload.get("constraint_type"@) is Some {
        payload.get("constraint_type"@)
    } else {
        payload.get("type"@)
    };
    match value {
        Some(v) => v.text(),
        None => None,
    }
}

/// The failure of a constraint that is not named.
pub open spec fn no_constraint() -> Failure {
    bad_input("constraint command requires a constraint type"@)
}

pub fn constraint_type(payload: &JsonValue) -> (r: Result<&str, Error>)
    ensures
        match r {
            Ok(s) => constraint_named(payload@) == Some(s@),
            Err(e) => constraint_named(payload@) is None && e@ == no_constraint(),
        },
{
    let value = match payload.get("constraint") {
        Some(v) => Some(v),
        None => match payload.get("constraint_type") {
            Some(v) => Some(v),
            None => payload.get("type"),
        },
    };
    let text = match value {
        Some(v) => v.as_str(),
        None => None,
    };
    match text {
        Some(s) => Ok(s),
        None => Err(
            Error::invalid_input(owned("constraint command requires a constraint type")),
        ),
    }
}

/// Whether a constraint asks for unique values.
pub open spec fn asks_unique(constraint: Seq<char>) -> bool {
    ascii_lower(constraint) == "unique"@
}

/// Whether a constraint asks for a value in every record.
pub open spec fn asks_required(constraint: Seq<char>) -> bool {
    let c = ascii_lower(constraint);
    c == "non-null"@ || c == "non_null"@ || c == "nonnull"@ || c == "required"@
}

pub fn is_unique_constraint(constraint: &str) -> (r: bool)
    ensures
        r == asks_unique(constraint@),
{
    let lower = to_lower(constraint);
    same(lower.as_str(), "unique")
}

pub fn is_required_constraint(constraint: &str) -> (r: bool)
    ensures
        r == asks_required(constraint@),
{
    let lower = to_lower(constraint);
    let c = lower.as_str();
    same(c, "non-null") || same(c, "non_null") || same(c, "nonnull") || same(c, "required")
}

/// The fields of an object; none where the value is no object.
pub open spec fn fields_of(value: Option<Json>) -> Map<Seq<char>, Json> {
    match value {
        Some(Json::Object(fields)) => fields,
        _ => Map::empty(),
    }
}

/// The items of an array; none where the value is no array.
pub open spec fn items_of(value: Option<Json>) -> Seq<Json> {
    match value {
        Some(Json::Array(items)) => items,
        _ => Seq::empty(),
    }
}

/// The schema once a field is required.
pub open spec fn with_required(schema: Option<Json>, field: Seq<char>) -> Json {
    let fields = fields_of(schema);
    let items = items_of(Json::Object(fields).get("required"@));
    Json::Object(
        fields.insert(
            "required"@,
            Json::Array(
                if items.contains(Json::Text(field)) {
                    items
                } else {
                    items.push(Json::Text(field))
                },
            ),
        ),
    )
}

/// The first `n` items without those that are the text.
pub open spec fn less_text(items: Seq<Json>, text: Seq<char>, n: int) -> Seq<Json>
    decreases n,
{
    if n <= 0 {
        Seq::empty()
    } else if items[n - 1] == Json::Text(text) {
        less_text(items, text, n - 1)
    } else {
        less_text(items, text, n - 1).push(items[n - 1])
    }
}

/// The schema once a field is no longer required.
pub open spec fn without_required(schema: Option<Json>, field: Seq<char>) -> Option<Json> {
    match schema {
        Some(Json::Object(fields)) => match Json::Object(fields).get("required"@) {
            Some(Json::Array(items)) => Some(
                Json::Object(
                    fields.insert(
                        "required"@,
                        Json::Array(less_text(items, field, items.len() as int)),
                    ),
                ),
            ),
            _ => schema,
        },
        _ => schema,
    }
}

/// The schema once a section of its extension has an entry for a field.
pub open spec fn with_extension(
    schema: Option<Json>,
    bucket: Seq<char>,
    field: Seq<char>,
    payload: Json,
) -> Json {
    let fields = fields_of(schema);
    let extension = fields_of(Json::Object(fields).get("x-wardrobe-cli"@));
    let section = fields_of(Json::Object(extension).get(bucket));
    Json::Object(
        fields.insert(
            "x-wardrobe-cli"@,
            Json::Object(extension.insert(bucket, Json::Object(section.insert(field, payload)))),
        ),
    )
}

/// The schema once a section of its extension has no entry for a field.
pub open spec fn without_extension(
    schema: Option<Json>,
    bucket: Seq<char>,
    field: Seq<char>,
) -> Option<Json> {
    match extension_section(schema, bucket) {
        Some(section) => {
            let fields = fields_of(schema);
            let extension = fields_of(Json::Object(fields).get("x-wardrobe-cli"@));
            Some(
                Json::Object(
                    fields.insert(
                        "x-wardrobe-cli"@,
                        Json::Object(extension.insert(bucket, Json::Object(section.remove(field)))),
                    ),
                ),
            )
        },
        None => schema,
    }
}

/// The entries of a section of the schema's extension.
pub open spec fn extension_section(schema: Option<Json>, bucket: Seq<char>) -> Option<
    Map<Seq<char>, Json>,
> {
    match schema {
        Some(s) => match s.get("x-wardrobe-cli"@) {
            Some(extension) => match extension.get(bucket) {
                Some(Json::Object(section)) => Some(section),
                _ => None,
            },
            None => None,
        },
        None => None,
    }
}

/// The entry for a field in a section of the schema's extension.
pub open spec fn extension_entry(
    schema: Option<Json>,
    bucket: Seq<char>,
    field: Seq<char>,
) -> Option<Json> {
    match extension_section(schema, bucket) {
        Some(section) => Json::Object(section).get(field),
        None => None,
    }
}

/// What a rule recorded in the schema is read back, and the entries of other fields and the
/// other sections stay.
pub proof fn law_extension_is_recorded(
    schema: Option<Json>,
    bucket: Seq<char>,
    field: Seq<char>,
    payload: Json,
    other_bucket: Seq<char>,
    other_field: Seq<char>,
)
    ensures
        ({
            let after = Some(with_extension(schema, bucket, field, payload));
            &&& extension_entry(after, bucket, field) == Some(payload)
            &&& other_bucket != bucket || other_field != field ==> extension_entry(
                after,
                other_bucket,
                other_field,
            ) == extension_entry(schema, other_bucket, other_field)
        }),
{
}

/// A rule that is taken out of the schema is gone, and no other is.
pub proof fn law_extension_is_removed(
    schema: Option<Json>,
    bucket: Seq<char>,
    field: Seq<char>,
    other_bucket: Seq<char>,
    other_field: Seq<char>,
)
    ensures
        ({
            let after = without_extension(schema, bucket, field);
            &&& extension_entry(after, bucket, field) is None
            &&& other_bucket != bucket || other_field != field ==> extension_entry(
                after,
                other_bucket,
                other_field,
            ) == extension_entry(schema, other_bucket, other_field)
        }),
{
}

fn into_fields(value: Option<JsonValue>) -> (r: TextMap<JsonValue>)
    ensures
        json_fields(r) == fields_of(opt_value(value)),
{
    broadcast use group_value;

    match value {
        Some(JsonValue::Object(fields)) => fields,
        _ => TextMap::new(),
    }
}

fn into_items(value: Option<JsonValue>) -> (r: Vec<JsonValue>)
    ensures
        jsons(r@) == items_of(opt_value(value)),
{
    broadcast use group_value;

    match value {
        Some(JsonValue::Array(items)) => items,
        _ => {
            let r: Vec<JsonValue> = Vec::new();
            assert(jsons(r@) =~= Seq::empty());
            r
        },
    }
}

fn is_text(value: &JsonValue, text: &str) -> (r: bool)
    ensures
        r == (value@ == Json::Text(text@)),
{
    match value.as_str() {
        Some(s) => same(s, text),
        None => false,
    }
}

fn require_field(schema: Option<JsonValue>, field: &str) -> (r: JsonValue)
    ensures
        r@ == with_required(opt_value(schema), field@),
{
    broadcast use group_value;

    let mut fields = into_fields(schema);
    let ghost all = json_fields(fields);
    let ghost given = fields;
    let taken = fields.remove("required");
    assert(opt_value(taken) == Json::Object(all).get("required"@));
    let mut items = into_items(taken);
    let ghost listed = jsons(items@);
    let mut found = false;
    let mut i: usize = 0;
    while i < items.len()
        invariant
            listed == jsons(items@),
            i <= items@.len(),
            found == listed.subrange(0, i as int).contains(Json::Text(field@)),
        decreases items@.len() - i,
    {
        let ghost before = listed.subrange(0, i as int);
        let ghost now = listed.subrange(0, i + 1);
        assert(listed[i as int] == items@[i as int]@);
        assert(now =~= before.push(listed[i as int]));
        let here = is_text(&items[i], field);
        proof {
            if before.contains(Json::Text(field@)) {
                let k = choose|k: int| 0 <= k < before.len() && before[k] == Json::Text(field@);
                assert(now[k] == Json::Text(field@));
            }
            if here {
                assert(now[i as int] == Json::Text(field@));
            }
            if now.contains(Json::Text(field@)) && !here {
                let k = choose|k: int| 0 <= k < now.len() && now[k] == Json::Text(field@);
                assert(before[k] == Json::Text(field@));
            }
        }
        found = found || here;
        i += 1;
    }
    assert(listed.subrange(0, i as int) =~= listed);
    if !found {
        items.push(JsonValue::text(field));
        assert(jsons(items@) =~= listed.push(Json::Text(field@)));
    }
    fields.insert(owned("required"), JsonValue::array(items));
    let r = JsonValue::object(fields);
    assert(json_fields(fields) =~= with_required(opt_value(schema), field@)->Object_0);
    r
}

fn unrequire_field(schema: Option<JsonValue>, field: &str) -> (r: Option<JsonValue>)
    ensures
        opt_value(r) == without_required(opt_value(schema), field@),
{
    broadcast use group_value;

    match schema {
        Some(JsonValue::Object(given)) => {
            let mut fields = given;
            let ghost all = json_fields(fields);
            match fields.remove("required") {
                Some(JsonValue::Array(items)) => {
                    let ghost listed = jsons(items@);
                    assert(Json::Object(all).get("required"@) == Some(Json::Array(listed)));
                    let mut kept: Vec<JsonValue> = Vec::new();
                    let mut i: usize = 0;
                    assert(jsons(kept@) =~= Seq::empty());
                    while i < items.len()
                        invariant
                            listed == jsons(items@),
                            i <= items@.len(),
                            jsons(kept@) == less_text(listed, field@, i as int),
                        decreases items@.len() - i,
                    {
                        let ghost before = kept@;
                        assert(listed[i as int] == items@[i as int]@);
                        if !is_text(&items[i], field) {
                            let copy = items[i].clone();
                            kept.push(copy);
                            assert(jsons(kept@) =~= jsons(before).push(listed[i as int]));
                        }
                        i += 1;
                    }
                    fields.insert(owned("required"), JsonValue::array(kept));
                    let r = JsonValue::object(fields);
                    assert(json_fields(fields) =~= without_required(
                        opt_value(schema),
                        field@,
                    )->0->Object_0);
                    Some(r)
                },
                Some(other) => {
                    let ghost value = other@;
                    assert(Json::Object(all).get("required"@) == Some(value));
                    fields.insert(owned("required"), other);
                    assert(json_fields(fields) =~= all);
                    Some(JsonValue::Object(fields))
                },
                None => {
                    assert(json_fields(fields) =~= all);
                    Some(JsonValue::Object(fields))
                },
            }
        },
        other => other,
    }
}

fn record_extension(
    schema: Option<JsonValue>,
    bucket: &str,
    field: &str,
    payload: JsonValue,
) -> (r: JsonValue)
    ensures
        r@ == with_extension(opt_value(schema), bucket@, field@, payload@),
{
    broadcast use group_value;

    let mut fields = into_fields(schema);
    let ghost all = json_fields(fields);
    let taken = fields.remove("x-wardrobe-cli");
    assert(opt_value(taken) == Json::Object(all).get("x-wardrobe-cli"@));
    let mut extension = into_fields(taken);
    let ghost sections = json_fields(extension);
    let taken_section = extension.remove(bucket);
    assert(opt_value(taken_section) == Json::Object(sections).get(bucket@));
    let mut section = into_fields(taken_section);
    section.insert(owned(field), payload);
    extension.insert(owned(bucket), JsonValue::object(section));
    let ghost wanted = with_extension(opt_value(schema), bucket@, field@, payload@);
    assert(json_fields(extension) =~= wanted.get("x-wardrobe-cli"@)->0->Object_0);
    fields.insert(owned("x-wardrobe-cli"), JsonValue::object(extension));
    assert(json_fields(fields) =~= wanted->Object_0);
    JsonValue::object(fields)
}

fn remove_extension(schema: Option<JsonValue>, bucket: &str, field: &str) -> (r: Option<JsonValue>)
    ensures
        opt_value(r) == without_extension(opt_value(schema), bucket@, field@),
{
    broadcast use group_value;

    let found = match &schema {
        Some(s) => match s.get("x-wardrobe-cli") {
            Some(extension) => match extension.get(bucket) {
                Some(section) => section.is_object(),
                None => false,
            },
            None => false,
        },
        None => false,
    };
    assert(found == (extension_section(opt_value(schema), bucket@) is Some));
    if !found {
        return schema;
    }
    let mut fields = into_fields(schema);
    let ghost all = json_fields(fields);
    let taken = fields.remove("x-wardrobe-cli");
    assert(opt_value(taken) == Json::Object(all).get("x-wardrobe-cli"@));
    let mut extension = into_fields(taken);
    let ghost sections = json_fields(extension);
    let taken_section = extension.remove(bucket);
    assert(opt_value(taken_section) == Json::Object(sections).get(bucket@));
    let mut section = into_fields(taken_section);
    section.remove(field);
    extension.insert(owned(bucket), JsonValue::object(section));
    let ghost wanted = without_extension(opt_value(schema), bucket@, field@)->0;
    assert(json_fields(extension) =~= wanted.get("x-wardrobe-cli"@)->0->Object_0);
    fields.insert(owned("x-wardrobe-cli"), JsonValue::object(extension));
    assert(json_fields(fields) =~= wanted->Object_0);
    Some(JsonValue::object(fields))
}

/// A drawer and the changes to its index file.
pub type Ruled = (DrawerModel, Seq<ChangeModel>);

/// The names of the fields, less one.
pub open spec fn less_name(names: Seq<Seq<char>>, name: Seq<char>, n: int) -> Seq<Seq<char>>
    decreases n,
{
    if n <= 0 {
        Seq::empty()
    } else if names[n - 1] == name {
        less_name(names, name, n - 1)
    } else {
        less_name(names, name, n - 1).push(names[n - 1])
    }
}

/// The drawer once a field is unique: its index is built and written, unless it was unique
/// before.
pub open spec fn with_unique(
    m: DrawerModel,
    records: Map<u64, Json>,
    names: Set<Seq<char>>,
    field: Seq<char>,
) -> Result<Ruled, Failure> {
    if m.unique.contains(field) {
        Ok((m, Seq::empty()))
    } else {
        match built_index(m, records, field, true) {
            Ok(index) => Ok(
                (
                    DrawerModel {
                        unique: m.unique.push(field),
                        secondary: m.secondary.insert(field, index),
                        validated: m.validated.insert(field),
                        ..m
                    },
                    snapshot(names, field, index),
                ),
            ),
            Err(f) => Err(f),
        }
    }
}

/// The drawer without the index of a field, whose entries are buried.
pub open spec fn index_dropped(m: DrawerModel, field: Seq<char>) -> Ruled {
    (
        DrawerModel {
            materialized: m.materialized.remove(field),
            validated: m.validated.remove(field),
            secondary: m.secondary.remove(field),
            ..m
        },
        burials(field, key_order(field_at(m.secondary, field).dom())),
    )
}

/// The drawer once a field is no longer unique. Where the schema declares an index of it, the
/// index stays as its query index.
pub open spec fn without_unique(m: DrawerModel, field: Seq<char>) -> Ruled {
    let left = DrawerModel { unique: less_name(m.unique, field, m.unique.len() as int), ..m };
    if extension_fields(m.schema, "indexes"@).contains(field) {
        (
            DrawerModel { materialized: m.materialized.insert(field, m.generation), ..left },
            Seq::empty(),
        )
    } else {
        index_dropped(left, field)
    }
}

/// The drawer once an index of a field was declared: what there was of it is forgotten.
pub open spec fn index_declared(m: DrawerModel, field: Seq<char>, payload: Json) -> DrawerModel {
    DrawerModel {
        secondary: if m.unique.contains(field) {
            m.secondary
        } else {
            m.secondary.remove(field)
        },
        materialized: m.materialized.remove(field),
        validated: m.validated.remove(field),
        schema: Some(with_extension(m.schema, "indexes"@, field, payload)),
        ..m
    }
}

/// The drawer with an entry in a section of its schema's extension.
pub open spec fn noted(
    m: DrawerModel,
    bucket: Seq<char>,
    field: Seq<char>,
    payload: Json,
) -> DrawerModel {
    DrawerModel { schema: Some(with_extension(m.schema, bucket, field, payload)), ..m }
}

/// The drawer without an entry in a section of its schema's extension.
pub open spec fn unnoted(m: DrawerModel, bucket: Seq<char>, field: Seq<char>) -> DrawerModel {
    DrawerModel { schema: without_extension(m.schema, bucket, field), ..m }
}

/// Whether the payload of a key rule is about the primary key.
pub open spec fn is_primary_key_rule(payload: Json) -> bool {
    match payload.get_text("key_type"@) {
        Some(key_type) => ascii_lower(key_type) == "primary"@,
        None => ascii_lower("secondary"@) == "primary"@,
    }
}

/// The failure of a rule that would change the primary key.
pub open spec fn fixed_primary_key(primary_key: Seq<char>, field: Seq<char>) -> Failure {
    bad_input(
        "primary key is fixed to '"@ + primary_key + "' and cannot be changed to '"@ + field
            + "'"@,
    )
}

/// The rule of a field that deletes along.
pub open spec fn cascade_rule() -> Json {
    Json::Object(Map::<Seq<char>, Json>::empty().insert("action"@, Json::Text("Cascade"@)))
}

/// The drawer once a rule was added.
pub open spec fn rule_added(
    m: DrawerModel,
    records: Map<u64, Json>,
    names: Set<Seq<char>>,
    kind: RuleKind,
    field: Seq<char>,
    payload: Json,
) -> Result<Ruled, Failure> {
    match kind {
        RuleKind::Index => Ok((index_declared(m, field, payload), Seq::empty())),
        RuleKind::Key => if is_primary_key_rule(payload) {
            if field != m.primary_key {
                Err(fixed_primary_key(m.primary_key, field))
            } else {
                Ok((noted(m, "keys"@, field, payload), Seq::empty()))
            }
        } else {
            match with_unique(m, records, names, field) {
                Ok((after, made)) => Ok((noted(after, "keys"@, field, payload), made)),
                Err(f) => Err(f),
            }
        },
        RuleKind::Constraint => match constraint_named(payload) {
            None => Err(no_constraint()),
            Some(constraint) => {
                let unique = if asks_unique(constraint) {
                    with_unique(m, records, names, field)
                } else {
                    Ok((m, Seq::empty()))
                };
                match unique {
                    Ok((after, made)) => {
                        let required = if asks_required(constraint) {
                            DrawerModel {
                                schema: Some(with_required(after.schema, field)),
                                ..after
                            }
                        } else {
                            after
                        };
                        Ok((noted(required, "constraints"@, field, payload), made))
                    },
                    Err(f) => Err(f),
                }
            },
        },
        RuleKind::Trigger => Ok((noted(m, "triggers"@, field, payload), Seq::empty())),
        RuleKind::Relationship => Ok(
            (
                DrawerModel { relationships: m.relationships.insert(field, payload), ..m },
                Seq::empty(),
            ),
        ),
        RuleKind::CascadeDelete => Ok(
            (
                DrawerModel {
                    cascade: m.cascade.insert(field, true),
                    delete_rules: m.delete_rules.insert(field, cascade_rule()),
                    ..m
                },
                Seq::empty(),
            ),
        ),
    }
}

/// The drawer once a rule was removed.
pub open spec fn rule_removed(
    m: DrawerModel,
    kind: RuleKind,
    field: Seq<char>,
    payload: Json,
) -> Ruled {
    match kind {
        RuleKind::Index => {
            let after = unnoted(m, "indexes"@, field);
            if m.unique.contains(field) {
                (after, Seq::empty())
            } else {
                index_dropped(after, field)
            }
        },
        RuleKind::Key => {
            let (after, made) = if is_primary_key_rule(payload) {
                (m, Seq::empty())
            } else {
                without_unique(m, field)
            };
            (unnoted(after, "keys"@, field), made)
        },
        RuleKind::Constraint => {
            let (clears, unrequires) = match constraint_named(payload) {
                Some(constraint) => (asks_unique(constraint), asks_required(constraint)),
                None => (true, true),
            };
            let (after, made) = if clears {
                without_unique(m, field)
            } else {
                (m, Seq::empty())
            };
            let left = if unrequires {
                DrawerModel { schema: without_required(after.schema, field), ..after }
            } else {
                after
            };
            (unnoted(left, "constraints"@, field), made)
        },
        RuleKind::Trigger => (unnoted(m, "triggers"@, field), Seq::empty()),
        RuleKind::Relationship => (
            DrawerModel { relationships: m.relationships.remove(field), ..m },
            Seq::empty(),
        ),
        RuleKind::CascadeDelete => (
            DrawerModel {
                cascade: m.cascade.remove(field),
                delete_rules: m.delete_rules.remove(field),
                ..m
            },
            Seq::empty(),
        ),
    }
}

/// The drawer once the index of a field was built anew.
pub open spec fn rule_rebuilt(
    m: DrawerModel,
    records: Map<u64, Json>,
    names: Set<Seq<char>>,
    kind: RuleKind,
    field: Seq<char>,
) -> Result<Ruled, Failure> {
    if kind != RuleKind::Index {
        Err(bad_input("Cannot rebuild schema type: "@ + kind.name()))
    } else if m.unique.contains(field) {
        match built_index(m, records, field, true) {
            Ok(index) => Ok(
                (
                    DrawerModel {
                        secondary: m.secondary.insert(field, index),
                        validated: m.validated.insert(field),
                        ..m
                    },
                    snapshot(names, field, index),
                ),
            ),
            Err(f) => Err(f),
        }
    } else if !extension_fields(m.schema, "indexes"@).contains(field) {
        Err(not_found("Index '"@ + field + "' is not declared"@))
    } else {
        let index = built_index(m, records, field, false)->Ok_0;
        Ok((with_query_index(m, field, index), snapshot(names, field, index)))
    }
}

/// What a schema command does to a drawer, or why it is refused. The metadata is written then.
pub open spec fn rule_managed(
    m: DrawerModel,
    records: Map<u64, Json>,
    names: Set<Seq<char>>,
    action: Seq<char>,
    kind: Seq<char>,
    field: Seq<char>,
    payload: Json,
) -> Result<Ruled, Failure> {
    if trimmed(field).len() == 0 {
        Err(no_field())
    } else {
        match kind_named(kind) {
            None => Err(unknown_kind(kind)),
            Some(k) => {
                let a = ascii_lower(action);
                let managed = if a == "add"@ {
                    rule_added(m, records, names, k, field, payload)
                } else if a == "remove"@ {
                    Ok(rule_removed(m, k, field, payload))
                } else if a == "rebuild"@ {
                    rule_rebuilt(m, records, names, k, field)
                } else {
                    Err(bad_input("Unknown schema action: "@ + action))
                };
                match managed {
                    Ok((after, made)) => Ok((DrawerModel { metadata_dirty: false, ..after }, made)),
                    Err(f) => Err(f),
                }
            },
        }
    }
}

/// The answer to a schema command.
pub open spec fn rule_answer(
    name: Seq<char>,
    action: Seq<char>,
    kind: Seq<char>,
    field: Seq<char>,
    payload: Json,
) -> Json {
    Json::Object(
        Map::<Seq<char>, Json>::empty().insert("drawer"@, Json::Text(name)).insert(
            "action"@,
            Json::Text(ascii_lower(action)),
        ).insert("type"@, Json::Text(kind_named(kind)->0.name())).insert(
            "field"@,
            Json::Text(field),
        ).insert("payload"@, payload),
    )
}

/// The names without one.
fn drop_name(names: &Vec<String>, name: &str) -> (r: Vec<String>)
    ensures
        texts(r@) == less_name(texts(names@), name@, names@.len() as int),
{
    let ghost all = texts(names@);
    let mut out: Vec<String> = Vec::new();
    let mut i: usize = 0;
    assert(texts(out@) =~= Seq::empty());
    while i < names.len()
        invariant
            all == texts(names@),
            i <= names@.len(),
            texts(out@) == less_name(all, name@, i as int),
        decreases names@.len() - i,
    {
        let ghost before = out@;
        assert(all[i as int] == names@[i as int]@);
        if !same(names[i].as_str(), name) {
            out.push(names[i].clone());
            assert(texts(out@) =~= texts(before).push(all[i as int]));
        }
        i += 1;
    }
    out
}

/// Adds the burials of all entries of the index of a field.
fn bury_index(index: &FieldIndex, field: &str, out: &mut Vec<IndexChange>)
    ensures
        changes(final(out)@) == changes(old(out)@) + burials(
            field@,
            key_order(field_model(*index).dom()),
        ),
{
    let ghost start = changes(out@);
    let ghost keys = index.keys();
    assert(field_model(*index).dom() =~= index@.dom());
    let ghost all = burials(field@, keys);
    let n: usize = index.len();
    let mut i: usize = 0;
    assert(start + all.subrange(0, 0) =~= start);
    while i < n
        invariant
            keys == index.keys(),
            n == keys.len(),
            all == burials(field@, keys),
            i <= n,
            changes(out@) == start + all.subrange(0, i as int),
        decreases n - i,
    {
        let ghost before = out@;
        out.push(IndexChange::Bury { field: owned(field), key: index.key_at(i).clone() });
        i += 1;
        proof {
            assert(changes(out@) =~= changes(before).push(all[i - 1]));
            assert(start + all.subrange(0, i as int) =~= (start + all.subrange(0, i - 1)).push(
                all[i - 1],
            ));
        }
    }
    assert(all.subrange(0, i as int) =~= all);
}

impl Drawer {
    fn add_unique_constraint(
        &mut self,
        records: &StoredRecords,
        names: &EntryNames,
        field_name: &str,
        out: &mut Vec<IndexChange>,
    ) -> (r: Result<(), Error>)
        ensures
            match (with_unique(old(self)@, stored(*records), names@.dom(), field_name@), r) {
                (Ok((after, made)), Ok(())) => final(self)@ == after && changes(final(out)@)
                    == changes(old(out)@) + made,
                (Err(f), Err(e)) => e@ == f && final(self)@ == old(self)@,
                _ => false,
            },
    {
        broadcast use group_index;

        let ghost m = self@;
        if holds(&self.unique_constraints, field_name) {
            assert(changes(out@) + Seq::empty() =~= changes(out@));
            return Ok(());
        }
        match self.build_secondary_index(records, field_name, true) {
            Ok(index) => {
                write_secondary_index_snapshot(names, field_name, &index, out);
                self.unique_constraints.push(owned(field_name));
                self.secondary_memory_index.insert(owned(field_name), index);
                self.validated_secondary_indexes.insert(owned(field_name), ());
                proof {
                    let after = with_unique(m, stored(*records), names@.dom(), field_name@)->Ok_0.0;
                    assert(self@.unique =~= after.unique);
                    assert(self@ =~= after);
                }
                Ok(())
            },
            Err(e) => Err(e),
        }
    }

    fn add_secondary_index(&mut self, field_name: &str)
        ensures
            final(self)@ == (DrawerModel {
                secondary: if old(self)@.unique.contains(field_name@) {
                    old(self)@.secondary
                } else {
                    old(self)@.secondary.remove(field_name@)
                },
                materialized: old(self)@.materialized.remove(field_name@),
                validated: old(self)@.validated.remove(field_name@),
                ..old(self)@
            }),
    {
        broadcast use group_index;

        let ghost m = self@;
        if !holds(&self.unique_constraints, field_name) {
            self.secondary_memory_index.remove(field_name);
        }
        self.materialized_secondary_indexes.remove(field_name);
        self.validated_secondary_indexes.remove(field_name);
        assert(self@.validated =~= m.validated.remove(field_name@));
    }

    fn clear_secondary_index_entries(&mut self, field_name: &str, out: &mut Vec<IndexChange>)
        ensures
            final(self)@ == index_dropped(old(self)@, field_name@).0,
            changes(final(out)@) == changes(old(out)@) + index_dropped(old(self)@, field_name@).1,
    {
        broadcast use group_index;

        let ghost m = self@;
        self.materialized_secondary_indexes.remove(field_name);
        self.validated_secondary_indexes.remove(field_name);
        match self.secondary_memory_index.remove(field_name) {
            Some(index) => {
                bury_index(&index, field_name, out);
            },
            None => {
                let index: FieldIndex = TextMap::new();
                proof {
                    assert(field_at(m.secondary, field_name@) =~= Map::empty());
                    assert(field_model(index) =~= Map::empty());
                }
                bury_index(&index, field_name, out);
            },
        }
        assert(self@ =~= index_dropped(m, field_name@).0);
    }

    fn clear_unique_constraint(&mut self, field_name: &str, out: &mut Vec<IndexChange>)
        ensures
            final(self)@ == without_unique(old(self)@, field_name@).0,
            changes(final(out)@) == changes(old(out)@) + without_unique(old(self)@, field_name@).1,
    {
        let ghost m = self@;
        let left = drop_name(&self.unique_constraints, field_name);
        self.unique_constraints = left;
        if self.schema_has_index(field_name) {
            self.materialized_secondary_indexes.insert(
                owned(field_name),
                self.secondary_index_generation,
            );
            proof {
                assert(self@ =~= without_unique(m, field_name@).0);
                assert(changes(out@) + Seq::empty() =~= changes(out@));
            }
        } else {
            self.clear_secondary_index_entries(field_name, out);
        }
    }

    fn remove_query_index(&mut self, field_name: &str, out: &mut Vec<IndexChange>)
        ensures
            ({
                let (after, made) = if old(self)@.unique.contains(field_name@) {
                    (old(self)@, Seq::empty())
                } else {
                    index_dropped(old(self)@, field_name@)
                };
                final(self)@ == after && changes(final(out)@) == changes(old(out)@) + made
            }),
    {
        if holds(&self.unique_constraints, field_name) {
            assert(changes(out@) + Seq::empty() =~= changes(out@));
            return;
        }
        self.clear_secondary_index_entries(field_name, out);
    }

    fn add_required_field(&mut self, field_name: &str)
        ensures
            final(self)@ == (DrawerModel {
                schema: Some(with_required(old(self)@.schema, field_name@)),
                ..old(self)@
            }),
    {
        let schema = self.schema.take();
        self.schema = Some(require_field(schema, field_name));
    }

    fn remove_required_field(&mut self, field_name: &str)
        ensures
            final(self)@ == (DrawerModel {
                schema: without_required(old(self)@.schema, field_name@),
                ..old(self)@
            }),
    {
        let schema = self.schema.take();
        self.schema = unrequire_field(schema, field_name);
    }

    fn record_schema_extension(&mut self, bucket: &str, field_name: &str, payload: JsonValue)
        ensures
            final(self)@ == noted(old(self)@, bucket@, field_name@, payload@),
    {
        let schema = self.schema.take();
        self.schema = Some(record_extension(schema, bucket, field_name, payload));
    }

    fn remove_schema_extension(&mut self, bucket: &str, field_name: &str)
        ensures
            final(self)@ == unnoted(old(self)@, bucket@, field_name@),
    {
        let schema = self.schema.take();
        self.schema = remove_extension(schema, bucket, field_name);
    }

    /// Adds a rule. The changes to the index file are those that were given and the new ones.
    pub fn add_schema_rule(
        &mut self,
        records: &StoredRecords,
        names: &EntryNames,
        kind: RuleKind,
        field_name: &str,
        payload: JsonValue,
        out: &mut Vec<IndexChange>,
    ) -> (r: Result<(), Error>)
        ensures
            match (
                rule_added(
                    old(self)@,
                    stored(*records),
                    names@.dom(),
                    kind,
                    field_name@,
                    payload@,
                ),
                r,
            ) {
                (Ok((after, made)), Ok(())) => final(self)@ == after && changes(final(out)@)
                    == changes(old(out)@) + made,
                (Err(f), Err(e)) => e@ == f && final(self)@ == old(self)@,
                _ => false,
            },
    {
        broadcast use group_value;

        let ghost m = self@;
        let ghost start = changes(out@);
        assert(start + Seq::empty() =~= start);
        match kind {
            RuleKind::Index => {
                self.add_secondary_index(field_name);
                self.record_schema_extension("indexes", field_name, payload);
                Ok(())
            },
            RuleKind::Key => {
                let key_type = to_lower(
                    match payload.get_str("key_type") {
                        Some(key_type) => key_type,
                        None => "secondary",
                    },
                );
                if same(key_type.as_str(), "primary") {
                    if !same(field_name, self.primary_key.as_str()) {
                        return Err(
                            Error::invalid_input(
                                concat5(
                                    "primary key is fixed to '",
                                    self.primary_key.as_str(),
                                    "' and cannot be changed to '",
                                    field_name,
                                    "'",
                                ),
                            ),
                        );
                    }
                } else {
                    match self.add_unique_constraint(records, names, field_name, out) {
                        Ok(()) => {},
                        Err(e) => {
                            return Err(e);
                        },
                    }
                }
                self.record_schema_extension("keys", field_name, payload);
                Ok(())
            },
            RuleKind::Constraint => {
                let (unique, required) = match constraint_type(&payload) {
                    Ok(constraint) => (
                        is_unique_constraint(constraint),
                        is_required_constraint(constraint),
                    ),
                    Err(e) => {
                        return Err(e);
                    },
                };
                if unique {
                    match self.add_unique_constraint(records, names, field_name, out) {
                        Ok(()) => {},
                        Err(e) => {
                            return Err(e);
                        },
                    }
                }
                if required {
                    self.add_required_field(field_name);
                }
                self.record_schema_extension("constraints", field_name, payload);
                Ok(())
            },
            RuleKind::Trigger => {
                self.record_schema_extension("triggers", field_name, payload);
                Ok(())
            },
            RuleKind::Relationship => {
                self.relationship_constraints.insert(owned(field_name), payload);
                Ok(())
            },
            RuleKind::CascadeDelete => {
                self.cascade_delete_rules.insert(owned(field_name), true);
                let mut rule: TextMap<JsonValue> = TextMap::new();
                rule.insert(owned("action"), JsonValue::text("Cascade"));
                self.delete_rules.insert(owned(field_name), JsonValue::object(rule));
                Ok(())
            },
        }
    }

    /// Removes a rule. The changes to the index file are those that were given and the new ones.
    pub fn remove_schema_rule(
        &mut self,
        kind: RuleKind,
        field_name: &str,
        payload: &JsonValue,
        out: &mut Vec<IndexChange>,
    )
        ensures
            final(self)@ == rule_removed(old(self)@, kind, field_name@, payload@).0,
            changes(final(out)@) == changes(old(out)@) + rule_removed(
                old(self)@,
                kind,
                field_name@,
                payload@,
            ).1,
    {
        broadcast use group_value;

        let ghost start = changes(out@);
        assert(start + Seq::empty() =~= start);
        match kind {
            RuleKind::Index => {
                self.remove_schema_extension("indexes", field_name);
                self.remove_query_index(field_name, out);
            },
            RuleKind::Key => {
                let key_type = to_lower(
                    match payload.get_str("key_type") {
                        Some(key_type) => key_type,
                        None => "secondary",
                    },
                );
                if !same(key_type.as_str(), "primary") {
                    self.clear_unique_constraint(field_name, out);
                }
                self.remove_schema_extension("keys", field_name);
            },
            RuleKind::Constraint => {
                let (unique, required) = match constraint_type(payload) {
                    Ok(constraint) => (
                        is_unique_constraint(constraint),
                        is_required_constraint(constraint),
                    ),
                    Err(_) => (true, true),
                };
                if unique {
                    self.clear_unique_constraint(field_name, out);
                }
                if required {
                    self.remove_required_field(field_name);
                }
                self.remove_schema_extension("constraints", field_name);
            },
            RuleKind::Trigger => {
                self.remove_schema_extension("triggers", field_name);
            },
            RuleKind::Relationship => {
                self.relationship_constraints.remove(field_name);
            },
            RuleKind::CascadeDelete => {
                self.cascade_delete_rules.remove(field_name);
                self.delete_rules.remove(field_name);
            },
        }
    }

    /// Builds the index of a field anew. The changes to the index file are those that were given
    /// and the new ones.
    pub fn rebuild_schema_rule(
        &mut self,
        records: &StoredRecords,
        names: &EntryNames,
        kind: RuleKind,
        field_name: &str,
        out: &mut Vec<IndexChange>,
    ) -> (r: Result<(), Error>)
        ensures
            match (
                rule_rebuilt(old(self)@, stored(*records), names@.dom(), kind, field_name@),
                r,
            ) {
                (Ok((after, made)), Ok(())) => final(self)@ == after && changes(final(out)@)
                    == changes(old(out)@) + made,
                (Err(f), Err(e)) => e@ == f && final(self)@ == old(self)@,
                _ => false,
            },
    {
        broadcast use group_index;

        let ghost m = self@;
        match kind {
            RuleKind::Index => {
                if holds(&self.unique_constraints, field_name) {
                    match self.build_secondary_index(records, field_name, true) {
                        Ok(index) => {
                            write_secondary_index_snapshot(names, field_name, &index, out);
                            self.secondary_memory_index.insert(owned(field_name), index);
                            self.validated_secondary_indexes.insert(owned(field_name), ());
                            assert(self@.validated =~= m.validated.insert(field_name@));
                            Ok(())
                        },
                        Err(e) => Err(e),
                    }
                } else if !self.schema_has_index(field_name) {
                    Err(Error::missing(concat3("Index '", field_name, "' is not declared")))
                } else {
                    self.materialize_query_index(records, names, field_name, out);
                    Ok(())
                }
            },
            _ => Err(
                Error::invalid_input(concat2("Cannot rebuild schema type: ", kind.as_str())),
            ),
        }
    }

    /// Carries out a schema command: adds, removes or rebuilds a rule. Gives the answer and the
    /// changes to the index file; the metadata has to be written then. A command that is refused
    /// changes nothing.
    pub fn manage_schema_rule(
        &mut self,
        records: &StoredRecords,
        slots: &IndexSlots,
        action: &str,
        kind: &str,
        field_name: &str,
        payload: JsonValue,
    ) -> (r: Result<(JsonValue, Vec<IndexChange>), Error>)
        ensures
            match (
                rule_managed(
                    old(self)@,
                    stored(*records),
                    slots@.dom(),
                    action@,
                    kind@,
                    field_name@,
                    payload@,
                ),
                r,
            ) {
                (Ok((after, made)), Ok((answer, all))) => {
                    &&& final(self)@ == after
                    &&& changes(all@) == made
                    &&& answer@ == rule_answer(
                        old(self)@.name,
                        action@,
                        kind@,
                        field_name@,
                        payload@,
                    )
                },
                (Err(f), Err(e)) => e@ == f && final(self)@ == old(self)@,
                _ => false,
            },
    {
        broadcast use group_value;

        let ghost m = self@;
        match validate_schema_field(field_name) {
            Ok(()) => {},
            Err(e) => {
                return Err(e);
            },
        }
        let normalized_action = to_lower(action);
        let normalized_kind = match normalize_schema_kind(kind) {
            Ok(k) => k,
            Err(e) => {
                return Err(e);
            },
        };
        let names = entry_names(slots);
        let mut made: Vec<IndexChange> = Vec::new();
        assert(forall|s: Seq<ChangeModel>| changes(made@) + s =~= s);
        let a = normalized_action.as_str();
        let done = if same(a, "add") {
            let copy = payload.clone();
            self.add_schema_rule(records, &names, normalized_kind, field_name, copy, &mut made)
        } else if same(a, "remove") {
            self.remove_schema_rule(normalized_kind, field_name, &payload, &mut made);
            Ok(())
        } else if same(a, "rebuild") {
            self.rebuild_schema_rule(records, &names, normalized_kind, field_name, &mut made)
        } else {
            Err(Error::invalid_input(concat2("Unknown schema action: ", action)))
        };
        match done {
            Ok(()) => {},
            Err(e) => {
                return Err(e);
            },
        }
        assert(self@.name == m.name);
        self.metadata_dirty = false;
        let mut answer: TextMap<JsonValue> = TextMap::new();
        answer.insert(owned("drawer"), JsonValue::text(self.name.as_str()));
        answer.insert(owned("action"), JsonValue::text(normalized_action.as_str()));
        answer.insert(owned("type"), JsonValue::text(normalized_kind.as_str()));
        answer.insert(owned("field"), JsonValue::text(field_name));
        answer.insert(owned("payload"), payload);
        Ok((JsonValue::object(answer), made))
    }
}

/// Whether a delete rule deletes along.
pub open spec fn is_cascade(rule: Json) -> bool {
    rule == Json::Text("Cascade"@) || rule.get_text("action"@) == Some("Cascade"@)
}

pub fn delete_rule_is_cascade(rule: &JsonValue) -> (r: bool)
    ensures
        r == is_cascade(rule@),
{
    if is_text(rule, "Cascade") {
        return true;
    }
    match rule.get_str("action") {
        Some(action) => same(action, "Cascade"),
        None => false,
    }
}

/// The fields among the first `n` that are flagged.
pub open spec fn flagged(flags: Map<Seq<char>, bool>, n: int) -> Seq<Seq<char>>
    decreases n,
{
    if n <= 0 {
        Seq::empty()
    } else {
        let before = flagged(flags, n - 1);
        let field = key_order(flags.dom())[n - 1];
        if flags[field] {
            before.push(field)
        } else {
            before
        }
    }
}

/// The fields, with those among the first `n` delete rules that delete along and are not listed.
pub open spec fn with_cascades(
    fields: Seq<Seq<char>>,
    rules: Map<Seq<char>, Json>,
    n: int,
) -> Seq<Seq<char>>
    decreases n,
{
    if n <= 0 {
        fields
    } else {
        let before = with_cascades(fields, rules, n - 1);
        let field = key_order(rules.dom())[n - 1];
        if is_cascade(rules[field]) && !before.contains(field) {
            before.push(field)
        } else {
            before
        }
    }
}

/// The fields along which deletes run: those that are flagged, then those whose delete rule says
/// so.
pub open spec fn cascade_fields(m: DrawerModel) -> Seq<Seq<char>> {
    with_cascades(
        flagged(m.cascade, key_order(m.cascade.dom()).len() as int),
        m.delete_rules,
        key_order(m.delete_rules.dom()).len() as int,
    )
}

impl Drawer {
    pub fn cascade_delete_fields(&self) -> (r: Vec<String>)
        ensures
            texts(r@) == cascade_fields(self@),
    {
        let mut fields: Vec<String> = Vec::new();
        assert(texts(fields@) =~= Seq::empty());
        let n: usize = self.cascade_delete_rules.len();
        let mut i: usize = 0;
        while i < n
            invariant
                n == self.cascade_delete_rules.keys().len(),
                i <= n,
                texts(fields@) == flagged(self@.cascade, i as int),
            decreases n - i,
        {
            let ghost before = fields@;
            if *self.cascade_delete_rules.value_at(i) {
                fields.push(self.cascade_delete_rules.key_at(i).clone());
                assert(texts(fields@) =~= texts(before).push(
                    self.cascade_delete_rules.keys()[i as int],
                ));
            }
            i += 1;
        }
        let ghost start = texts(fields@);
        let ghost rules = self@.delete_rules;
        assert(rules.dom() =~= self.delete_rules@.dom());
        let count: usize = self.delete_rules.len();
        let mut j: usize = 0;
        while j < count
            invariant
                rules == json_fields(self.delete_rules),
                rules.dom() == self.delete_rules@.dom(),
                count == self.delete_rules.keys().len(),
                j <= count,
                texts(fields@) == with_cascades(start, rules, j as int),
            decreases count - j,
        {
            let ghost before = fields@;
            let field = self.delete_rules.key_at(j);
            if delete_rule_is_cascade(self.delete_rules.value_at(j)) && !holds(
                &fields,
                field.as_str(),
            ) {
                fields.push(field.clone());
                assert(texts(fields@) =~= texts(before).push(field@));
            }
            j += 1;
        }
        fields
    }

    /// Registers the relationship of a field, unless it has one; says whether the metadata has
    /// to be written.
    pub fn register_relationship_constraint(&mut self, field_name: &str, rule: JsonValue) -> (r:
        bool)
        ensures
            r == !old(self)@.relationships.dom().contains(field_name@),
            final(self)@ == (if r {
                DrawerModel {
                    relationships: old(self)@.relationships.insert(field_name@, rule@),
                    metadata_dirty: false,
                    ..old(self)@
                }
            } else {
                old(self)@
            }),
    {
        broadcast use group_value;

        if self.relationship_constraints.contains_key(field_name) {
            return false;
        }
        self.relationship_constraints.insert(owned(field_name), rule);
        self.metadata_dirty = false;
        true
    }
}

/// A rule for a unique field that was accepted makes the field unique, and the index of the
/// field is the one built from the records.
pub proof fn law_unique_rule_takes_hold(
    m: DrawerModel,
    records: Map<u64, Json>,
    names: Set<Seq<char>>,
    field: Seq<char>,
)
    ensures
        with_unique(m, records, names, field) matches Ok((after, _)) ==> {
            &&& after.unique.contains(field)
            &&& !m.unique.contains(field) ==> built_index(m, records, field, true) == Ok::<
                _,
                Failure,
            >(after.secondary[field])
            &&& forall|other: Seq<char>|
                other != field ==> (#[trigger] after.unique.contains(other)
                    <==> m.unique.contains(other))
        },
{
    match with_unique(m, records, names, field) {
        Ok((after, _)) => {
            if !m.unique.contains(field) {
                assert(after.unique[m.unique.len() as int] == field);
                assert forall|other: Seq<char>| other != field implies (
                #[trigger] after.unique.contains(other) <==> m.unique.contains(other)) by {
                    if m.unique.contains(other) {
                        let k = choose|k: int| 0 <= k < m.unique.len() && m.unique[k] == other;
                        assert(after.unique[k] == other);
                    }
                    if after.unique.contains(other) {
                        let k = choose|k: int|
                            0 <= k < after.unique.len() && after.unique[k] == other;
                        assert(m.unique[k] == other);
                    }
                }
            }
        },
        Err(_) => {},
    }
}

} // verus!
