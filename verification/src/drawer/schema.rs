//! Checking records against the schema of their drawer.
use crate::drawer::{Drawer, DrawerModel};
use crate::fields::{key_order, lemma_values_smaller, TextMap};
use crate::text::{
    concat2, concat3, concat4, decimal, decimal_text, opt_text, owned, same, to_chars,
};
use crate::value::{group_value, json_fields, json_same, jsons, same_value, Json, JsonValue, Number};
use vstd::prelude::*;

verus! {

/// A comparison of numbers that a schema asks for. It is made in double precision, by whoever
/// can.
#[derive(Debug)]
pub struct NumericCheck {
    pub path: String,
    pub value: Number,
    pub minimum: Option<Number>,
    pub maximum: Option<Number>,
}

/// The model of a comparison.
pub struct NumericModel {
    pub path: Seq<char>,
    pub value: Number,
    pub minimum: Option<Number>,
    pub maximum: Option<Number>,
}

impl View for NumericCheck {
    type V = NumericModel;

    open spec fn view(&self) -> NumericModel {
        NumericModel {
            path: self.path@,
            value: self.value,
            minimum: self.minimum,
            maximum: self.maximum,
        }
    }
}

/// What a check found: the comparisons that come before the first problem, and that problem. A
/// value is valid where every comparison holds and there is no problem; else the first
/// comparison that does not hold is what is wrong with it, or where all hold, the problem.
pub struct Checked {
    pub numeric: Vec<NumericCheck>,
    pub problem: Option<String>,
}

/// The model of what a check found.
#[verifier::ext_equal]
pub struct CheckedModel {
    pub numeric: Seq<NumericModel>,
    pub problem: Option<Seq<char>>,
}

/// The models of a sequence of comparisons.
pub open spec fn numerics(checks: Seq<NumericCheck>) -> Seq<NumericModel> {
    Seq::new(checks.len(), |i: int| checks[i]@)
}

impl View for Checked {
    type V = CheckedModel;

    open spec fn view(&self) -> CheckedModel {
        CheckedModel { numeric: numerics(self.numeric@), problem: opt_text(self.problem) }
    }
}

/// Nothing to compare and nothing wrong.
pub open spec fn fine() -> CheckedModel {
    CheckedModel { numeric: Seq::empty(), problem: None }
}

/// Nothing to compare, and a problem where there is one.
pub open spec fn found(problem: Option<Seq<char>>) -> CheckedModel {
    CheckedModel { numeric: Seq::empty(), problem }
}

/// One check after another; a problem ends it.
pub open spec fn both(first: CheckedModel, second: CheckedModel) -> CheckedModel {
    if first.problem is Some {
        first
    } else {
        CheckedModel { numeric: first.numeric + second.numeric, problem: second.problem }
    }
}

/// Whether a value is of the named type.
pub open spec fn is_of_type(value: Json, name: Seq<char>) -> bool {
    if name == "array"@ {
        value is Array
    } else if name == "boolean"@ {
        value is Bool
    } else if name == "integer"@ {
        value.signed() is Some || value.unsigned() is Some
    } else if name == "null"@ {
        value is Null
    } else if name == "number"@ {
        value is Number
    } else if name == "object"@ {
        value is Object
    } else if name == "string"@ {
        value is Text
    } else {
        false
    }
}

/// Whether a value is of a type that the list names.
pub open spec fn is_of_some_type(value: Json, names: Seq<Json>) -> bool {
    exists|i: int|
        0 <= i < names.len() && match #[trigger] names[i] {
            Json::Text(name) => is_of_type(value, name),
            _ => false,
        }
}

pub open spec fn type_problem(value: Json, rule: Json, path: Seq<char>) -> Option<Seq<char>> {
    match rule {
        Json::Text(name) => if is_of_type(value, name) {
            None
        } else {
            Some(path + " must be of type "@ + name)
        },
        Json::Array(names) => if is_of_some_type(value, names) {
            None
        } else {
            Some(path + " must match one of the declared schema types"@)
        },
        _ => None,
    }
}

/// The first field, from position `i` of the list on, that is required and missing.
pub open spec fn missing_field(
    fields: Map<Seq<char>, Json>,
    required: Seq<Json>,
    path: Seq<char>,
    i: int,
) -> Option<Seq<char>>
    decreases required.len() - i,
{
    if i >= required.len() {
        None
    } else {
        match required[i] {
            Json::Text(name) => if fields.dom().contains(name) {
                missing_field(fields, required, path, i + 1)
            } else {
                Some(path + "."@ + name + " is required by schema"@)
            },
            _ => missing_field(fields, required, path, i + 1),
        }
    }
}

pub open spec fn required_problem(value: Json, required: Json, path: Seq<char>) -> Option<Seq<char>> {
    match (value, required) {
        (Json::Object(fields), Json::Array(names)) => missing_field(fields, names, path, 0),
        _ => None,
    }
}

/// The first field, from position `i` of the keys on, that the properties do not name.
pub open spec fn extra_field(
    keys: Seq<Seq<char>>,
    properties: Map<Seq<char>, Json>,
    path: Seq<char>,
    i: int,
) -> Option<Seq<char>>
    decreases keys.len() - i,
{
    if i >= keys.len() {
        None
    } else if properties.dom().contains(keys[i]) {
        extra_field(keys, properties, path, i + 1)
    } else {
        Some(path + "."@ + keys[i] + " is not allowed by schema"@)
    }
}

/// Whether a value is the one at position `i` of a list.
pub open spec fn is_allowed_as(value: Json, allowed: Seq<Json>, i: int) -> bool {
    0 <= i < allowed.len() && json_same(allowed[i], value)
}

pub open spec fn enum_problem(value: Json, schema: Json, path: Seq<char>) -> Option<Seq<char>> {
    match schema.get("enum"@) {
        Some(Json::Array(allowed)) => if exists|i: int| is_allowed_as(value, allowed, i) {
            None
        } else {
            Some(path + " must match one of the declared enum values"@)
        },
        _ => None,
    }
}

/// The bound that a schema sets under a key, as an unsigned integer.
pub open spec fn length_bound(schema: Json, key: Seq<char>) -> Option<u64> {
    match schema.get(key) {
        Some(Json::Number(Number::PosInt(n))) => Some(n),
        _ => None,
    }
}

pub open spec fn length_problem(value: Json, schema: Json, path: Seq<char>) -> Option<Seq<char>> {
    match value {
        Json::Text(s) => match length_bound(schema, "minLength"@) {
            Some(n) if s.len() < n as usize => Some(
                path + " must have at least "@ + decimal(n as nat) + " characters"@,
            ),
            _ => match length_bound(schema, "maxLength"@) {
                Some(n) if s.len() > n as usize => Some(
                    path + " must have at most "@ + decimal(n as nat) + " characters"@,
                ),
                _ => None,
            },
        },
        _ => None,
    }
}

/// The bound that a schema sets under a key, as a number.
pub open spec fn number_bound(schema: Json, key: Seq<char>) -> Option<Number> {
    match schema.get(key) {
        Some(Json::Number(n)) => Some(n),
        _ => None,
    }
}

/// The comparison that a schema asks for: none, unless the value is a number and the schema sets
/// a bound.
pub open spec fn comparisons(value: Json, schema: Json, path: Seq<char>) -> Seq<NumericModel> {
    let minimum = number_bound(schema, "minimum"@);
    let maximum = number_bound(schema, "maximum"@);
    match value {
        Json::Number(n) => if minimum is Some || maximum is Some {
            seq![NumericModel { path, value: n, minimum, maximum }]
        } else {
            Seq::empty()
        },
        _ => Seq::empty(),
    }
}

/// The checks on a value before those on its fields.
pub open spec fn shape_check(value: Json, schema: Json, path: Seq<char>) -> CheckedModel {
    let typed = match schema.get("type"@) {
        Some(rule) => type_problem(value, rule, path),
        None => None,
    };
    let complete = match schema.get("required"@) {
        Some(required) => required_problem(value, required, path),
        None => None,
    };
    both(both(found(enum_problem(value, schema, path)), found(typed)), found(complete))
}

/// The checks on a value after those on its fields.
pub open spec fn bounds_check(value: Json, schema: Json, path: Seq<char>) -> CheckedModel {
    both(
        found(length_problem(value, schema, path)),
        CheckedModel { numeric: comparisons(value, schema, path), problem: None },
    )
}

/// The check of the fields of a value against the properties from position `i` on.
pub open spec fn fields_check(
    fields: Map<Seq<char>, Json>,
    properties: Map<Seq<char>, Json>,
    path: Seq<char>,
    i: int,
) -> CheckedModel
    decreases Json::Object(properties), key_order(properties.dom()).len() - i,
{
    let keys = key_order(properties.dom());
    if i < 0 || i >= keys.len() || !properties.dom().finite() || !properties.dom().contains(keys[i]) {
        fine()
    } else if fields.dom().contains(keys[i]) {
        proof {
            let whole = Json::Object(properties);
            assert(decreases_to!(whole => whole->Object_0));
            assert(decreases_to!(properties => properties[keys[i]]));
        }
        both(
            value_check(fields[keys[i]], properties[keys[i]], path + "."@ + keys[i]),
            fields_check(fields, properties, path, i + 1),
        )
    } else {
        fields_check(fields, properties, path, i + 1)
    }
}

/// The check of a value against a schema. A schema that is no object asks for nothing.
pub open spec fn value_check(value: Json, schema: Json, path: Seq<char>) -> CheckedModel
    decreases schema, 0int,
{
    match schema {
        Json::Object(rules) => if !rules.dom().finite() {
            fine()
        } else {
            let inner = match (value, schema.get("properties"@)) {
                (Json::Object(fields), Some(Json::Object(properties))) => both(
                    fields_check(fields, properties, path, 0),
                    found(
                        match schema.get("additionalProperties"@) {
                            Some(Json::Bool(false)) => extra_field(
                                key_order(fields.dom()),
                                properties,
                                path,
                                0,
                            ),
                            _ => None,
                        },
                    ),
                ),
                _ => fine(),
            };
            both(
                both(shape_check(value, schema, path), inner),
                bounds_check(value, schema, path),
            )
        },
        _ => fine(),
    }
}

proof fn lemma_fine(checked: CheckedModel)
    ensures
        both(checked, fine()) == checked,
        both(fine(), checked) == checked,
{
    assert(both(checked, fine()) =~= checked);
    assert(both(fine(), checked) =~= checked);
}

proof fn lemma_both_assoc(a: CheckedModel, b: CheckedModel, c: CheckedModel)
    ensures
        both(both(a, b), c) == both(a, both(b, c)),
{
    assert(both(both(a, b), c) =~= both(a, both(b, c)));
}

impl Checked {
    pub fn fine() -> (r: Self)
        ensures
            r@ == fine(),
    {
        let r = Checked { numeric: Vec::new(), problem: None };
        assert(r@ =~= fine());
        r
    }

    /// Adds what a later check found.
    pub fn add(&mut self, other: Checked)
        ensures
            final(self)@ == both(old(self)@, other@),
    {
        if self.problem.is_none() {
            let mut more = other.numeric;
            let ghost front = self.numeric@;
            let ghost back = more@;
            self.numeric.append(&mut more);
            self.problem = other.problem;
            assert(numerics(self.numeric@) =~= numerics(front) + numerics(back));
        }
        assert(self@ =~= both(old(self)@, other@));
    }

    /// Adds a problem where there is one.
    pub fn add_problem(&mut self, problem: Option<String>)
        ensures
            final(self)@ == both(old(self)@, found(opt_text(problem))),
    {
        let other = Checked { numeric: Vec::new(), problem };
        assert(other@ =~= found(opt_text(problem)));
        self.add(other);
    }
}

pub fn value_matches_type(value: &JsonValue, wanted: &str) -> (r: bool)
    ensures
        r == is_of_type(value@, wanted@),
{
    if same(wanted, "array") {
        matches!(value, JsonValue::Array(_))
    } else if same(wanted, "boolean") {
        matches!(value, JsonValue::Bool(_))
    } else if same(wanted, "integer") {
        value.as_i64().is_some() || value.as_u64().is_some()
    } else if same(wanted, "null") {
        matches!(value, JsonValue::Null)
    } else if same(wanted, "number") {
        matches!(value, JsonValue::Number(_))
    } else if same(wanted, "object") {
        matches!(value, JsonValue::Object(_))
    } else if same(wanted, "string") {
        matches!(value, JsonValue::String(_))
    } else {
        false
    }
}

pub fn validate_type_rule(value: &JsonValue, type_rule: &JsonValue, path: &str) -> (r: Option<String>)
    ensures
        opt_text(r) == type_problem(value@, type_rule@, path@),
{
    broadcast use group_value;

    match type_rule {
        JsonValue::String(name) => {
            if value_matches_type(value, name.as_str()) {
                None
            } else {
                Some(concat3(path, " must be of type ", name.as_str()))
            }
        },
        JsonValue::Array(names) => {
            let ghost all = jsons(names@);
            let mut i: usize = 0;
            while i < names.len()
                invariant
                    all == jsons(names@),
                    type_rule@ == Json::Array(all),
                    i <= names@.len(),
                    forall|j: int|
                        0 <= j < i ==> !(match #[trigger] all[j] {
                            Json::Text(name) => is_of_type(value@, name),
                            _ => false,
                        }),
                decreases names@.len() - i,
            {
                assert(all[i as int] == names@[i as int]@);
                match &names[i] {
                    JsonValue::String(name) => {
                        if value_matches_type(value, name.as_str()) {
                            return None;
                        }
                    },
                    _ => {},
                }
                i += 1;
            }
            Some(concat2(path, " must match one of the declared schema types"))
        },
        _ => None,
    }
}

pub fn validate_required_fields(value: &JsonValue, required: &JsonValue, path: &str) -> (r: Option<
    String,
>)
    ensures
        opt_text(r) == required_problem(value@, required@, path@),
{
    broadcast use group_value;

    match (value, required) {
        (JsonValue::Object(fields), JsonValue::Array(names)) => {
            let ghost all = jsons(names@);
            let ghost map = json_fields(*fields);
            let mut i: usize = 0;
            while i < names.len()
                invariant
                    all == jsons(names@),
                    map == json_fields(*fields),
                    i <= names@.len(),
                    required_problem(value@, required@, path@) == missing_field(
                        map,
                        all,
                        path@,
                        i as int,
                    ),
                decreases names@.len() - i,
            {
                assert(all[i as int] == names@[i as int]@);
                match &names[i] {
                    JsonValue::String(name) => {
                        if !fields.contains_key(name.as_str()) {
                            return Some(concat4(path, ".", name.as_str(), " is required by schema"));
                        }
                    },
                    _ => {},
                }
                i += 1;
            }
            None
        },
        _ => None,
    }
}

fn validate_enum(value: &JsonValue, schema: &JsonValue, path: &str) -> (r: Option<String>)
    ensures
        opt_text(r) == enum_problem(value@, schema@, path@),
{
    broadcast use group_value;

    match schema.get("enum") {
        Some(JsonValue::Array(allowed)) => {
            let ghost all = jsons(allowed@);
            let mut i: usize = 0;
            while i < allowed.len()
                invariant
                    all == jsons(allowed@),
                    schema@.get("enum"@) == Some(Json::Array(all)),
                    i <= allowed@.len(),
                    forall|j: int| 0 <= j < i ==> !is_allowed_as(value@, all, j),
                decreases allowed@.len() - i,
            {
                assert(all[i as int] == allowed@[i as int]@);
                if same_value(&allowed[i], value) {
                    assert(is_allowed_as(value@, schema@.get("enum"@)->0->Array_0, i as int));
                    return None;
                }
                i += 1;
            }
            Some(concat2(path, " must match one of the declared enum values"))
        },
        _ => None,
    }
}

fn read_length_bound(schema: &JsonValue, key: &str) -> (r: Option<u64>)
    ensures
        r == length_bound(schema@, key@),
{
    match schema.get(key) {
        Some(bound) => bound.as_u64(),
        None => None,
    }
}

pub fn validate_string_bounds(value: &JsonValue, schema: &JsonValue, path: &str) -> (r: Option<String>)
    ensures
        opt_text(r) == length_problem(value@, schema@, path@),
{
    match value {
        JsonValue::String(s) => {
            let chars = to_chars(s.as_str());
            let length: usize = chars.len();
            match read_length_bound(schema, "minLength") {
                Some(n) => {
                    if length < n as usize {
                        let bound = decimal_text(n);
                        return Some(
                            concat4(path, " must have at least ", bound.as_str(), " characters"),
                        );
                    }
                },
                None => {},
            }
            match read_length_bound(schema, "maxLength") {
                Some(n) => {
                    if length > n as usize {
                        let bound = decimal_text(n);
                        return Some(
                            concat4(path, " must have at most ", bound.as_str(), " characters"),
                        );
                    }
                },
                None => {},
            }
            None
        },
        _ => None,
    }
}

fn read_number_bound(schema: &JsonValue, key: &str) -> (r: Option<Number>)
    ensures
        r == number_bound(schema@, key@),
{
    match schema.get(key) {
        Some(JsonValue::Number(n)) => Some(*n),
        _ => None,
    }
}

/// The comparison that a schema asks for.
pub fn numeric_bounds(value: &JsonValue, schema: &JsonValue, path: &str) -> (r: Vec<NumericCheck>)
    ensures
        numerics(r@) == comparisons(value@, schema@, path@),
{
    let mut out: Vec<NumericCheck> = Vec::new();
    match value {
        JsonValue::Number(n) => {
            let minimum = read_number_bound(schema, "minimum");
            let maximum = read_number_bound(schema, "maximum");
            if minimum.is_some() || maximum.is_some() {
                out.push(NumericCheck { path: owned(path), value: *n, minimum, maximum });
            }
        },
        _ => {},
    }
    assert(numerics(out@) =~= comparisons(value@, schema@, path@));
    out
}

fn check_extra_fields(
    fields: &TextMap<JsonValue>,
    properties: &TextMap<JsonValue>,
    path: &str,
) -> (r: Option<String>)
    ensures
        opt_text(r) == extra_field(
            key_order(json_fields(*fields).dom()),
            json_fields(*properties),
            path@,
            0,
        ),
{
    let ghost keys = fields.keys();
    let ghost map = json_fields(*properties);
    let n: usize = fields.len();
    assert(json_fields(*fields).dom() =~= fields@.dom());
    let mut i: usize = 0;
    while i < n
        invariant
            keys == fields.keys(),
            map == json_fields(*properties),
            n == keys.len(),
            i <= n,
            extra_field(keys, map, path@, 0) == extra_field(keys, map, path@, i as int),
            key_order(json_fields(*fields).dom()) == keys,
        decreases n - i,
    {
        let key = fields.key_at(i);
        if !properties.contains_key(key.as_str()) {
            return Some(concat4(path, ".", key.as_str(), " is not allowed by schema"));
        }
        i += 1;
    }
    None
}

fn check_shape(value: &JsonValue, schema: &JsonValue, path: &str) -> (r: Checked)
    ensures
        r@ == shape_check(value@, schema@, path@),
{
    let mut r = Checked::fine();
    let enumerated = validate_enum(value, schema, path);
    proof {
        lemma_fine(found(opt_text(enumerated)));
    }
    r.add_problem(enumerated);
    let typed = match schema.get("type") {
        Some(rule) => validate_type_rule(value, rule, path),
        None => None,
    };
    r.add_problem(typed);
    let complete = match schema.get("required") {
        Some(required) => validate_required_fields(value, required, path),
        None => None,
    };
    r.add_problem(complete);
    r
}

fn check_bounds(value: &JsonValue, schema: &JsonValue, path: &str) -> (r: Checked)
    ensures
        r@ == bounds_check(value@, schema@, path@),
{
    let mut r = Checked::fine();
    let length = validate_string_bounds(value, schema, path);
    proof {
        lemma_fine(found(opt_text(length)));
    }
    r.add_problem(length);
    let numeric = Checked { numeric: numeric_bounds(value, schema, path), problem: None };
    r.add(numeric);
    r
}

pub fn validate_value_against_schema(value: &JsonValue, schema: &JsonValue, path: &str) -> (r: Checked)
    ensures
        r@ == value_check(value@, schema@, path@),
    decreases schema,
{
    broadcast use group_value;

    let rules = match schema {
        JsonValue::Object(rules) => rules,
        _ => {
            return Checked::fine();
        },
    };
    let _size: usize = rules.len();
    assert(json_fields(*rules).dom() =~= rules@.dom());
    let mut r = check_shape(value, schema, path);
    let mut inner = Checked::fine();
    match (value, schema.get("properties")) {
        (JsonValue::Object(fields), Some(held)) => {
            match held {
                JsonValue::Object(properties) => {
                    let ghost map = json_fields(*fields);
                    let ghost rule_map = json_fields(*properties);
                    let ghost keys = properties.keys();
                    let n: usize = properties.len();
                    assert(rule_map.dom() =~= properties@.dom());
                    let mut i: usize = 0;
                    proof {
                        lemma_fine(fields_check(map, rule_map, path@, 0));
                    }
                    while i < n
                        invariant
                            map == json_fields(*fields),
                            rule_map == json_fields(*properties),
                            rule_map.dom() == properties@.dom(),
                            rule_map.dom().finite(),
                            keys == properties.keys(),
                            n == keys.len(),
                            i <= n,
                            *held == JsonValue::Object(*properties),
                            decreases_to!(*schema => *held),
                            fields_check(map, rule_map, path@, 0) == both(
                                inner@,
                                fields_check(map, rule_map, path@, i as int),
                            ),
                        decreases n - i,
                    {
                        let key = properties.key_at(i);
                        match fields.get(key.as_str()) {
                            Some(field_value) => {
                                let field_path = concat3(path, ".", key.as_str());
                                proof {
                                    assert(decreases_to!(*held => held->Object_0));
                                    lemma_values_smaller(*properties);
                                }
                                let field_schema = properties.value_at(i);
                                assert(map[key@] == field_value@);
                                assert(rule_map[key@] == field_schema@);
                                let found = validate_value_against_schema(
                                    field_value,
                                    field_schema,
                                    field_path.as_str(),
                                );
                                proof {
                                    lemma_both_assoc(
                                        inner@,
                                        found@,
                                        fields_check(map, rule_map, path@, i + 1),
                                    );
                                }
                                inner.add(found);
                            },
                            None => {},
                        }
                        i += 1;
                    }
                    proof {
                        lemma_fine(inner@);
                    }
                    let closed = match schema.get("additionalProperties") {
                        Some(rule) => match rule.as_bool() {
                            Some(allowed) => !allowed,
                            None => false,
                        },
                        None => false,
                    };
                    let extra = if closed {
                        check_extra_fields(fields, properties, path)
                    } else {
                        None
                    };
                    inner.add_problem(extra);
                },
                _ => {},
            }
        },
        _ => {},
    }
    r.add(inner);
    r.add(check_bounds(value, schema, path));
    r
}

/// The check of a record against the schema of its drawer.
pub open spec fn record_check(m: DrawerModel, record: Json) -> CheckedModel {
    match m.schema {
        Some(schema) => value_check(record, schema, "$"@),
        None => fine(),
    }
}

impl Drawer {
    pub fn validate_schema(&self, record: &JsonValue) -> (r: Checked)
        ensures
            r@ == record_check(self@, record@),
    {
        match &self.schema {
            Some(schema) => validate_value_against_schema(record, schema, "$"),
            None => Checked::fine(),
        }
    }
}

} // verus!
