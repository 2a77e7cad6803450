//! Relationship constraints: what the pointers of a record may point to.
use crate::drawer::records::{offset_of, unique_problem};
use crate::drawer::schema::{both, found, record_check, Checked, CheckedModel};
use crate::drawer::{Drawer, DrawerModel};
use crate::fields::key_order;
use crate::text::{
    after_prefix, concat2, concat3, concat5, cut_once, drop_prefix, ends_with, has_char, has_suffix,
    less_prefix, opt_text, same, same_opt, split_once, strip_prefix, to_chars,
};
use crate::value::{group_value, jsons, Json, JsonValue};
use vstd::prelude::*;

verus! {

/// The drawer that a pointer in a record names. Unlike elsewhere, a key that is nothing but the
/// mark `lnk_` counts as empty here.
pub open spec fn named_drawer(pointer: Seq<char>) -> Option<Seq<char>> {
    match after_prefix(pointer, "@"@) {
        Some(rest) => match cut_once(rest, ':') {
            Some((drawer, marked)) => {
                let key = less_prefix(marked, "lnk_"@);
                if drawer.len() == 0 || key.len() == 0 || key.contains(':') {
                    None
                } else {
                    Some(drawer)
                }
            },
            None => None,
        },
        None => None,
    }
}

/// Whether a drawer is the target, or the target within a namespace: its name ends with an
/// underscore and the name of the target.
pub open spec fn is_target(drawer: Seq<char>, target: Seq<char>) -> bool {
    drawer == target || ends_with(drawer, target) && drawer.len() > target.len() && drawer[drawer.len()
        - target.len() - 1] == '_'
}

pub open spec fn target_problem(
    field: Seq<char>,
    pointer: Seq<char>,
    rule: Json,
) -> Option<Seq<char>> {
    match named_drawer(pointer) {
        None => Some(
            "Relationship constraint violation: Field '"@ + field + "' contains malformed pointer '"@
                + pointer + "'"@,
        ),
        Some(drawer) => match rule.get_text("target_drawer"@) {
            Some(target) => if is_target(drawer, target) {
                None
            } else {
                Some(
                    "Relationship constraint violation: Field '"@ + field
                        + "' expected target drawer '"@ + target + "' but found '"@ + (drawer
                        + "'"@),
                )
            },
            None => None,
        },
    }
}

pub open spec fn reference_problem(field: Seq<char>, value: Json, rule: Json) -> Option<Seq<char>> {
    match value {
        Json::Text(pointer) => target_problem(field, pointer, rule),
        _ => Some(
            "Relationship constraint violation: Field '"@ + field + "' must be a pointer string"@,
        ),
    }
}

/// The first item, from position `i` of an array on, that is no pointer to the target.
pub open spec fn items_problem(
    field: Seq<char>,
    items: Seq<Json>,
    rule: Json,
    i: int,
) -> Option<Seq<char>>
    decreases items.len() - i,
{
    if i >= items.len() {
        None
    } else {
        match items[i] {
            Json::Text(pointer) => match target_problem(field, pointer, rule) {
                Some(problem) => Some(problem),
                None => items_problem(field, items, rule, i + 1),
            },
            _ => Some(
                "M:M relationship constraint violation: Field '"@ + field
                    + "' must contain only pointer strings"@,
            ),
        }
    }
}

pub open spec fn many_problem(field: Seq<char>, value: Json, rule: Json) -> Option<Seq<char>> {
    match value {
        Json::Array(items) => items_problem(field, items, rule, 0),
        _ => Some(
            "M:M relationship constraint violation: Field '"@ + field
                + "' must be an array of pointer strings"@,
        ),
    }
}

/// Whether another record, one with another primary key, holds the pointer in the field.
pub open spec fn pointer_taken(
    existing: Seq<Json>,
    primary_key: Seq<char>,
    key: Seq<char>,
    field: Seq<char>,
    pointer: Seq<char>,
) -> bool {
    exists|i: int|
        0 <= i < existing.len() && (#[trigger] existing[i]).get_text(primary_key) != Some(key)
            && existing[i].get_text(field) == Some(pointer)
}

/// The problem with one field under its rule.
pub open spec fn rule_problem(
    m: DrawerModel,
    existing: Seq<Json>,
    record: Json,
    key: Seq<char>,
    field: Seq<char>,
    rule: Json,
) -> Option<Seq<char>> {
    match (rule.get_text("type"@), record.get(field)) {
        (Some(kind), Some(value)) => if kind == "1:1"@ {
            match reference_problem(field, value, rule) {
                Some(problem) => Some(problem),
                None => if pointer_taken(existing, m.primary_key, key, field, value->Text_0) {
                    Some(
                        "1:1 relationship constraint violation: Field '"@ + field + "' with value '"@
                            + value->Text_0 + "' already exists"@,
                    )
                } else {
                    None
                },
            }
        } else if kind == "M:1"@ {
            reference_problem(field, value, rule)
        } else if kind == "M:M"@ {
            many_problem(field, value, rule)
        } else {
            None
        },
        _ => None,
    }
}

/// The problem with the first field, from position `i` of the rules on, that breaks its rule.
pub open spec fn relationship_problem(
    m: DrawerModel,
    existing: Seq<Json>,
    record: Json,
    key: Seq<char>,
    i: int,
) -> Option<Seq<char>>
    decreases key_order(m.relationships.dom()).len() - i,
{
    let fields = key_order(m.relationships.dom());
    if i >= fields.len() {
        None
    } else {
        match rule_problem(m, existing, record, key, fields[i], m.relationships[fields[i]]) {
            Some(problem) => Some(problem),
            None => relationship_problem(m, existing, record, key, i + 1),
        }
    }
}

fn pointer_drawer_name(pointer: &str) -> (r: Option<String>)
    ensures
        opt_text(r) == named_drawer(pointer@),
{
    match strip_prefix(pointer, "@") {
        Some(rest) => match split_once(rest.as_str(), ':') {
            Some((drawer, marked)) => {
                let key = drop_prefix(marked.as_str(), "lnk_");
                if drawer.as_str().is_empty() || key.as_str().is_empty() || has_char(key.as_str(), ':') {
                    None
                } else {
                    Some(drawer)
                }
            },
            None => None,
        },
        None => None,
    }
}

pub fn pointer_matches_target_drawer(pointer_drawer: &str, target_drawer: &str) -> (r: bool)
    ensures
        r == is_target(pointer_drawer@, target_drawer@),
{
    if same(pointer_drawer, target_drawer) {
        return true;
    }
    if !has_suffix(pointer_drawer, target_drawer) {
        return false;
    }
    let drawer = to_chars(pointer_drawer);
    let target = to_chars(target_drawer);
    if drawer.len() <= target.len() {
        return false;
    }
    drawer[drawer.len() - target.len() - 1] == '_'
}

pub fn validate_pointer_target(field_name: &str, pointer: &str, rule: &JsonValue) -> (r: Option<String>)
    ensures
        opt_text(r) == target_problem(field_name@, pointer@, rule@),
{
    match pointer_drawer_name(pointer) {
        None => Some(
            concat5(
                "Relationship constraint violation: Field '",
                field_name,
                "' contains malformed pointer '",
                pointer,
                "'",
            ),
        ),
        Some(drawer) => match rule.get_str("target_drawer") {
            Some(target) => {
                if pointer_matches_target_drawer(drawer.as_str(), target) {
                    None
                } else {
                    let end = concat2(drawer.as_str(), "'");
                    let start = concat5(
                        "Relationship constraint violation: Field '",
                        field_name,
                        "' expected target drawer '",
                        target,
                        "' but found '",
                    );
                    Some(concat2(start.as_str(), end.as_str()))
                }
            },
            None => None,
        },
    }
}

pub fn validate_reference_field(field_name: &str, value: &JsonValue, rule: &JsonValue) -> (r: Option<
    String,
>)
    ensures
        opt_text(r) == reference_problem(field_name@, value@, rule@),
{
    match value {
        JsonValue::String(pointer) => validate_pointer_target(field_name, pointer.as_str(), rule),
        _ => Some(
            concat3(
                "Relationship constraint violation: Field '",
                field_name,
                "' must be a pointer string",
            ),
        ),
    }
}

pub fn validate_many_to_many_field(field_name: &str, value: &JsonValue, rule: &JsonValue) -> (r: Option<
    String,
>)
    ensures
        opt_text(r) == many_problem(field_name@, value@, rule@),
{
    broadcast use group_value;

    match value {
        JsonValue::Array(items) => {
            let ghost all = jsons(items@);
            let mut i: usize = 0;
            while i < items.len()
                invariant
                    all == jsons(items@),
                    i <= items@.len(),
                    many_problem(field_name@, value@, rule@) == items_problem(
                        field_name@,
                        all,
                        rule@,
                        i as int,
                    ),
                decreases items@.len() - i,
            {
                assert(all[i as int] == items@[i as int]@);
                match &items[i] {
                    JsonValue::String(pointer) => {
                        match validate_pointer_target(field_name, pointer.as_str(), rule) {
                            Some(problem) => {
                                return Some(problem);
                            },
                            None => {},
                        }
                    },
                    _ => {
                        return Some(
                            concat3(
                                "M:M relationship constraint violation: Field '",
                                field_name,
                                "' must contain only pointer strings",
                            ),
                        );
                    },
                }
                i += 1;
            }
            None
        },
        _ => Some(
            concat3(
                "M:M relationship constraint violation: Field '",
                field_name,
                "' must be an array of pointer strings",
            ),
        ),
    }
}

fn other_record_holds(
    existing: &Vec<JsonValue>,
    primary_key: &str,
    key: &str,
    field: &str,
    pointer: &str,
) -> (r: bool)
    ensures
        r == pointer_taken(jsons(existing@), primary_key@, key@, field@, pointer@),
{
    let ghost all = jsons(existing@);
    let mut i: usize = 0;
    while i < existing.len()
        invariant
            all == jsons(existing@),
            i <= existing@.len(),
            forall|j: int|
                0 <= j < i ==> !((#[trigger] all[j]).get_text(primary_key@) != Some(key@)
                    && all[j].get_text(field@) == Some(pointer@)),
        decreases existing@.len() - i,
    {
        assert(all[i as int] == existing@[i as int]@);
        let own = existing[i].get_str(primary_key);
        let held = existing[i].get_str(field);
        if !same_opt(own, Some(key)) && same_opt(held, Some(pointer)) {
            return true;
        }
        i += 1;
    }
    false
}

impl Drawer {
    fn check_rule(
        &self,
        existing: &Vec<JsonValue>,
        record: &JsonValue,
        key: &str,
        field: &str,
        rule: &JsonValue,
    ) -> (r: Option<String>)
        ensures
            opt_text(r) == rule_problem(
                self@,
                jsons(existing@),
                record@,
                key@,
                field@,
                rule@,
            ),
    {
        match (rule.get_str("type"), record.get(field)) {
            (Some(kind), Some(value)) => {
                if same(kind, "1:1") {
                    match validate_reference_field(field, value, rule) {
                        Some(problem) => Some(problem),
                        None => match value {
                            JsonValue::String(pointer) => {
                                if other_record_holds(
                                    existing,
                                    self.primary_key.as_str(),
                                    key,
                                    field,
                                    pointer.as_str(),
                                ) {
                                    Some(
                                        concat5(
                                            "1:1 relationship constraint violation: Field '",
                                            field,
                                            "' with value '",
                                            pointer.as_str(),
                                            "' already exists",
                                        ),
                                    )
                                } else {
                                    None
                                }
                            },
                            _ => None,
                        },
                    }
                } else if same(kind, "M:1") {
                    validate_reference_field(field, value, rule)
                } else if same(kind, "M:M") {
                    validate_many_to_many_field(field, value, rule)
                } else {
                    None
                }
            },
            _ => None,
        }
    }

    /// The first field of a record that breaks its relationship rule, given the records that
    /// are there.
    pub fn validate_relationship_constraints(
        &self,
        existing: &Vec<JsonValue>,
        record: &JsonValue,
        key: &str,
    ) -> (r: Option<String>)
        ensures
            opt_text(r) == relationship_problem(self@, jsons(existing@), record@, key@, 0),
    {
        let n: usize = self.relationship_constraints.len();
        let ghost fields = self.relationship_constraints.keys();
        assert(self@.relationships.dom() =~= self.relationship_constraints@.dom());
        let mut i: usize = 0;
        while i < n
            invariant
                fields == self.relationship_constraints.keys(),
                fields == key_order(self@.relationships.dom()),
                n == fields.len(),
                i <= n,
                relationship_problem(self@, jsons(existing@), record@, key@, 0)
                    == relationship_problem(self@, jsons(existing@), record@, key@, i as int),
            decreases n - i,
        {
            let field = self.relationship_constraints.key_at(i);
            let rule = self.relationship_constraints.value_at(i);
            assert(self@.relationships[field@] == rule@);
            match self.check_rule(existing, record, key, field.as_str(), rule) {
                Some(problem) => {
                    return Some(problem);
                },
                None => {},
            }
            i += 1;
        }
        None
    }
}

/// The message for a record without a primary key.
pub open spec fn missing_key(primary_key: Seq<char>) -> Seq<char> {
    "Missing primary key field: "@ + primary_key
}

/// Everything that is checked before a record is written: its primary key, the schema, the
/// relationships, and the unique fields.
pub open spec fn upsert_check(m: DrawerModel, existing: Seq<Json>, record: Json) -> CheckedModel {
    match record.get_text(m.primary_key) {
        None => found(Some(missing_key(m.primary_key))),
        Some(key) => both(
            both(
                record_check(m, record),
                found(relationship_problem(m, existing, record, key, 0)),
            ),
            found(unique_problem(m, record, offset_of(m, key), 0)),
        ),
    }
}

impl Drawer {
    /// Checks a record before it is written, given the records that are there.
    pub fn check_upsert(&self, existing: &Vec<JsonValue>, record: &JsonValue) -> (r: Checked)
        ensures
            r@ == upsert_check(self@, jsons(existing@), record@),
    {
        match record.get_str(self.primary_key.as_str()) {
            None => {
                let r = Checked {
                    numeric: Vec::new(),
                    problem: Some(
                        concat2("Missing primary key field: ", self.primary_key.as_str()),
                    ),
                };
                assert(r@ =~= found(Some(missing_key(self@.primary_key))));
                r
            },
            Some(key) => {
                let mut r = self.validate_schema(record);
                let related = self.validate_relationship_constraints(existing, record, key);
                r.add_problem(related);
                let own = self.find_offset(key);
                let unique = self.check_unique(record, own);
                r.add_problem(unique);
                r
            },
        }
    }
}

} // verus!
