//! The check of a record that is written while others are deleted.
use crate::drawer::contents::first_problem;
use crate::drawer::index::{field_at, offsets_at, record_index_key, record_key};
use crate::drawer::records::{held_by_other, not_unique, offset_of, taken_by_other, unique_problem};
use crate::drawer::relations::{missing_key, relationship_problem, upsert_check};
use crate::drawer::schema::{both, found, record_check, CheckedModel};
use crate::drawer::{Drawer, DrawerModel};
use crate::fields::{key_order, TextMap};
use crate::text::{concat2, concat5, opt_text, owned, same};
use crate::value::{group_value, json_fields, jsons, Json, JsonValue};
use vstd::prelude::*;

verus! {

/// Whether a record other than the one with the key `own` has the value in the field.
pub open spec fn held_elsewhere(
    records: Map<Seq<char>, Json>,
    own: Seq<char>,
    field: Seq<char>,
    value: Seq<char>,
) -> bool {
    exists|k: Seq<char>|
        k != own && #[trigger] records.dom().contains(k) && record_key(records[k], field) == Some(
            value,
        )
}

/// The message for the first unique field, from the one at `i` on, whose value another record
/// has.
pub open spec fn value_problem(
    m: DrawerModel,
    records: Map<Seq<char>, Json>,
    own: Seq<char>,
    record: Json,
    i: int,
) -> Option<Seq<char>>
    decreases m.unique.len() - i,
{
    if i >= m.unique.len() {
        None
    } else {
        match record.get_text(m.unique[i]) {
            Some(value) => if held_elsewhere(records, own, m.unique[i], value) {
                Some(not_unique(m.unique[i], value))
            } else {
                value_problem(m, records, own, record, i + 1)
            },
            None => value_problem(m, records, own, record, i + 1),
        }
    }
}

/// The records, in the order of their keys.
pub open spec fn listed_records(records: Map<Seq<char>, Json>) -> Seq<Json> {
    let keys = key_order(records.dom());
    Seq::new(keys.len(), |i: int| records[keys[i]])
}

/// Everything that is checked before a record is written among others: its primary key, the
/// schema, the relationships, and the unique fields.
pub open spec fn write_check(m: DrawerModel, records: Map<Seq<char>, Json>, record: Json) -> CheckedModel {
    match record.get_text(m.primary_key) {
        None => found(Some(missing_key(m.primary_key))),
        Some(own) => both(
            both(
                record_check(m, record),
                found(relationship_problem(m, listed_records(records), record, own, 0)),
            ),
            found(value_problem(m, records, own, record, 0)),
        ),
    }
}

/// What is wrong with a record that is written among others, where the comparisons of numbers
/// that its check asks for find `numeric`.
pub open spec fn write_problem(
    m: DrawerModel,
    records: Map<Seq<char>, Json>,
    numeric: Option<Seq<char>>,
    record: Json,
) -> Option<Seq<char>> {
    first_problem(numeric, write_check(m, records, record))
}

fn list_records(records: &TextMap<JsonValue>) -> (r: Vec<JsonValue>)
    ensures
        jsons(r@) == listed_records(json_fields(*records)),
{
    broadcast use group_value;

    let ghost all = json_fields(*records);
    let ghost keys = records.keys();
    assert(all.dom() =~= records@.dom());
    let mut out: Vec<JsonValue> = Vec::new();
    let n: usize = records.len();
    let mut i: usize = 0;
    assert(jsons(out@) =~= listed_records(all).take(0));
    while i < n
        invariant
            i <= n,
            all == json_fields(*records),
            keys == records.keys(),
            keys == key_order(all.dom()),
            n == keys.len(),
            jsons(out@) == listed_records(all).take(i as int),
        decreases n - i,
    {
        let ghost before = jsons(out@);
        let record = records.value_at(i).clone();
        assert(all[keys[i as int]] == record@);
        let ghost r = record@;
        out.push(record);
        assert(jsons(out@) =~= before.push(r));
        assert(listed_records(all).take(i + 1) =~= listed_records(all).take(i as int).push(r));
        i += 1;
    }
    assert(listed_records(all).take(i as int) =~= listed_records(all));
    out
}

fn other_has(records: &TextMap<JsonValue>, own: &str, field: &str, value: &str) -> (r: bool)
    ensures
        r == held_elsewhere(json_fields(*records), own@, field@, value@),
{
    broadcast use group_value;

    let ghost all = json_fields(*records);
    let ghost keys = records.keys();
    assert(all.dom() =~= records@.dom());
    let n: usize = records.len();
    let mut i: usize = 0;
    while i < n
        invariant
            i <= n,
            all == json_fields(*records),
            keys == records.keys(),
            n == keys.len(),
            forall|k: Seq<char>| #[trigger] all.dom().contains(k) <==> keys.contains(k),
            forall|j: int|
                0 <= j < i ==> #[trigger] keys[j] == own@ || record_key(all[keys[j]], field@)
                    != Some(value@),
        decreases n - i,
    {
        let key = records.key_at(i);
        let record = records.value_at(i);
        assert(all[keys[i as int]] == record@);
        if !same(key.as_str(), own) {
            let held = record_index_key(record, field);
            match held {
                Some(held) => {
                    if same(held.as_str(), value) {
                        assert(keys.contains(keys[i as int]));
                        assert(all.dom().contains(keys[i as int]));
                        return true;
                    }
                },
                None => {},
            }
        }
        i += 1;
    }
    assert(!held_elsewhere(all, own@, field@, value@)) by {
        if held_elsewhere(all, own@, field@, value@) {
            let k = choose|k: Seq<char>|
                k != own@ && #[trigger] all.dom().contains(k) && record_key(all[k], field@) == Some(
                    value@,
                );
            assert(keys.contains(k));
            let j = choose|j: int| 0 <= j < keys.len() && keys[j] == k;
            assert(keys[j] == k);
        }
    }
    false
}

impl Drawer {
    fn check_values(&self, records: &TextMap<JsonValue>, own: &str, record: &JsonValue) -> (r: Option<
        String,
    >)
        ensures
            opt_text(r) == value_problem(self@, json_fields(*records), own@, record@, 0),
    {
        let ghost all = json_fields(*records);
        let mut i: usize = 0;
        while i < self.unique_constraints.len()
            invariant
                i <= self.unique_constraints@.len(),
                all == json_fields(*records),
                value_problem(self@, all, own@, record@, 0) == value_problem(
                    self@,
                    all,
                    own@,
                    record@,
                    i as int,
                ),
            decreases self.unique_constraints@.len() - i,
        {
            let field = self.unique_constraints[i].as_str();
            assert(self@.unique[i as int] == field@);
            match record.get_str(field) {
                Some(value) => {
                    if other_has(records, own, field, value) {
                        return Some(
                            concat5(
                                "Unique constraint violation: Field '",
                                field,
                                "' with value '",
                                value,
                                "' already exists",
                            ),
                        );
                    }
                },
                None => {},
            }
            i += 1;
        }
        None
    }

    /// Checks a record that is to be written among others.
    pub fn check_write(
        &self,
        records: &TextMap<JsonValue>,
        numeric_problem: Option<&String>,
        record: &JsonValue,
    ) -> (r: Option<String>)
        ensures
            opt_text(r) == write_problem(
                self@,
                json_fields(*records),
                match numeric_problem {
                    Some(s) => Some(s@),
                    None => None,
                },
                record@,
            ),
    {
        match numeric_problem {
            Some(problem) => {
                return Some(owned(problem.as_str()));
            },
            None => {},
        }
        match record.get_str(self.primary_key.as_str()) {
            None => Some(concat2("Missing primary key field: ", self.primary_key.as_str())),
            Some(own) => {
                let mut checked = self.validate_schema(record);
                let existing = list_records(records);
                let related = self.validate_relationship_constraints(&existing, record, own);
                checked.add_problem(related);
                let unique = self.check_values(records, own, record);
                checked.add_problem(unique);
                checked.problem
            },
        }
    }
}

/// Whether the indexes of a drawer are those of the records: each record has an offset of its
/// own, and the index of a unique field lists, for each value, where the records stand that have
/// it.
pub open spec fn indexes_records(m: DrawerModel, records: Map<Seq<char>, Json>) -> bool {
    &&& m.primary.dom() == records.dom()
    &&& forall|a: Seq<char>, b: Seq<char>|
        #![trigger m.primary[a], m.primary[b]]
        m.primary.dom().contains(a) && m.primary.dom().contains(b) && m.primary[a] == m.primary[b]
            ==> a == b
    &&& forall|f: Seq<char>, v: Seq<char>, o: u64|
        m.unique.contains(f) ==> (#[trigger] offsets_at(field_at(m.secondary, f), v).contains(o)
            <==> exists|k: Seq<char>| #[trigger]
            records.dom().contains(k) && m.primary[k] == o && record_key(records[k], f) == Some(v))
}

/// Where the indexes of a drawer are those of the records, the check of a record among the
/// records finds what the check by the indexes finds.
pub proof fn law_checks_agree(m: DrawerModel, records: Map<Seq<char>, Json>, record: Json)
    requires
        indexes_records(m, records),
    ensures
        write_check(m, records, record) == upsert_check(m, listed_records(records), record),
{
    match record.get_text(m.primary_key) {
        Some(own) => lemma_problems_agree(m, records, own, record, 0),
        None => {},
    }
}

proof fn lemma_problems_agree(
    m: DrawerModel,
    records: Map<Seq<char>, Json>,
    own: Seq<char>,
    record: Json,
    i: int,
)
    requires
        indexes_records(m, records),
        0 <= i,
    ensures
        value_problem(m, records, own, record, i) == unique_problem(
            m,
            record,
            offset_of(m, own),
            i,
        ),
    decreases m.unique.len() - i,
{
    if i < m.unique.len() {
        lemma_problems_agree(m, records, own, record, i + 1);
        let field = m.unique[i];
        assert(m.unique.contains(field));
        match record.get_text(field) {
            Some(value) => {
                let offsets = offsets_at(field_at(m.secondary, field), value);
                let at = offset_of(m, own);
                if held_elsewhere(records, own, field, value) {
                    let k = choose|k: Seq<char>|
                        k != own && #[trigger] records.dom().contains(k) && record_key(
                            records[k],
                            field,
                        ) == Some(value);
                    let o = m.primary[k];
                    assert(records.dom().contains(k) && m.primary[k] == o);
                    assert(offsets.contains(o));
                    let j = choose|j: int| 0 <= j < offsets.len() && offsets[j] == o;
                    assert(m.primary.dom().contains(k));
                    if m.primary.dom().contains(own) {
                        assert(m.primary[own] != m.primary[k]);
                    }
                    assert(Some(offsets[j]) != at);
                    assert(held_by_other(offsets, at));
                }
                if held_by_other(offsets, at) {
                    let j = choose|j: int| 0 <= j < offsets.len() && Some(#[trigger] offsets[j]) != at;
                    assert(offsets.contains(offsets[j]));
                    let k = choose|k: Seq<char>| #[trigger]
                        records.dom().contains(k) && m.primary[k] == offsets[j] && record_key(
                            records[k],
                            field,
                        ) == Some(value);
                    assert(records.dom().contains(k));
                    if k == own {
                        assert(m.primary.dom().contains(own));
                    }
                    assert(held_elsewhere(records, own, field, value));
                }
                assert(taken_by_other(m, record, at, field) == held_by_other(offsets, at));
            },
            None => {},
        }
    }
}

} // verus!
