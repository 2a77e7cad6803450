//! Checking a batch of records before any of them is written.
use crate::drawer::records::{not_unique, offset_of, taken_by_other};
use crate::drawer::relations::{missing_key, relationship_problem, upsert_check};
use crate::drawer::schema::{
    both, fine, found, numerics, record_check, Checked, CheckedModel, NumericModel,
};
use crate::drawer::{Drawer, DrawerModel};
use crate::fields::TextMap;
use crate::text::{concat2, concat3, concat5, opt_text, owned, same};
use crate::value::{jsons, Json, JsonValue};
use vstd::prelude::*;

verus! {

/// The name under which a batch remembers the value of a unique field.
pub open spec fn batch_name(field: Seq<char>, value: Seq<char>) -> Seq<char> {
    field + "\u{1f}"@ + value
}

/// What a batch remembers of the unique fields of a record, from the `i`-th on, or the message
/// for the first value that another record holds, in the drawer or in the batch.
pub open spec fn batch_values_from(
    m: DrawerModel,
    record: Json,
    key: Seq<char>,
    seen: Map<Seq<char>, Seq<char>>,
    i: int,
) -> Result<Map<Seq<char>, Seq<char>>, Seq<char>>
    decreases m.unique.len() - i,
{
    if i >= m.unique.len() {
        Ok(seen)
    } else {
        let field = m.unique[i];
        match record.get_text(field) {
            None => batch_values_from(m, record, key, seen, i + 1),
            Some(value) => {
                let name = batch_name(field, value);
                if taken_by_other(m, record, offset_of(m, key), field) {
                    Err(not_unique(field, value))
                } else if seen.dom().contains(name) && seen[name] != key {
                    Err(not_unique(field, value))
                } else {
                    batch_values_from(m, record, key, seen.insert(name, key), i + 1)
                }
            },
        }
    }
}

/// What is checked of a record by itself: the schema and the relationships.
pub open spec fn own_check(
    m: DrawerModel,
    existing: Seq<Json>,
    record: Json,
    key: Seq<char>,
) -> CheckedModel {
    both(record_check(m, record), found(relationship_problem(m, existing, record, key, 0)))
}

/// What checking the records of a batch from the `j`-th on finds.
pub open spec fn batch_check_from(
    m: DrawerModel,
    existing: Seq<Json>,
    records: Seq<Json>,
    seen: Map<Seq<char>, Seq<char>>,
    j: int,
) -> CheckedModel
    decreases records.len() - j,
{
    if j >= records.len() {
        fine()
    } else {
        match records[j].get_text(m.primary_key) {
            None => found(Some(missing_key(m.primary_key))),
            Some(key) => both(
                own_check(m, existing, records[j], key),
                match batch_values_from(m, records[j], key, seen, 0) {
                    Err(message) => found(Some(message)),
                    Ok(more) => batch_check_from(m, existing, records, more, j + 1),
                },
            ),
        }
    }
}

/// What checking a batch of records finds.
pub open spec fn batch_check(m: DrawerModel, existing: Seq<Json>, records: Seq<Json>) -> CheckedModel {
    batch_check_from(m, existing, records, Map::empty(), 0)
}

/// The check with comparisons before it.
spec fn after_comparisons(numeric: Seq<NumericModel>, check: CheckedModel) -> CheckedModel {
    CheckedModel { numeric: numeric + check.numeric, problem: check.problem }
}

/// The model of what a batch remembers.
pub open spec fn seen_model(seen: TextMap<String>) -> Map<Seq<char>, Seq<char>> {
    Map::new(|k: Seq<char>| seen@.dom().contains(k), |k: Seq<char>| seen@[k]@)
}

impl Drawer {
    /// Remembers the unique fields of a record of a batch.
    fn note_batch_values(
        &self,
        record: &JsonValue,
        key: &str,
        seen: &mut TextMap<String>,
    ) -> (r: Option<String>)
        ensures
            match batch_values_from(self@, record@, key@, seen_model(*old(seen)), 0) {
                Ok(more) => r is None && seen_model(*final(seen)) == more,
                Err(message) => opt_text(r) == Some(message),
            },
    {
        let ghost m = self@;
        let ghost start = seen_model(*seen);
        let own = self.find_offset(key);
        let mut i: usize = 0;
        while i < self.unique_constraints.len()
            invariant
                m == self@,
                start == seen_model(*old(seen)),
                own == offset_of(m, key@),
                i <= self.unique_constraints@.len(),
                batch_values_from(m, record@, key@, start, 0) == batch_values_from(
                    m,
                    record@,
                    key@,
                    seen_model(*seen),
                    i as int,
                ),
            decreases self.unique_constraints@.len() - i,
        {
            let field = self.unique_constraints[i].as_str();
            assert(m.unique[i as int] == field@);
            match record.get_str(field) {
                None => {},
                Some(value) => {
                    let name = concat3(field, "\u{1f}", value);
                    let clashes = match seen.get(name.as_str()) {
                        Some(other) => !same(other.as_str(), key),
                        None => false,
                    };
                    if self.unique_value_taken(record, own, field) || clashes {
                        return Some(
                            concat5(
                                "Unique constraint violation: Field '",
                                field,
                                "' with value '",
                                value,
                                "' already exists",
                            ),
                        );
                    }
                    let ghost before = seen_model(*seen);
                    let ghost named = name@;
                    seen.insert(name, owned(key));
                    assert(seen_model(*seen) =~= before.insert(named, key@));
                },
            }
            i += 1;
        }
        None
    }

    /// Checks the records of a batch before any of them is written, given the records that are
    /// there.
    pub fn validate_bulk_upsert_records(
        &self,
        existing: &Vec<JsonValue>,
        records: &Vec<JsonValue>,
    ) -> (r: Checked)
        ensures
            r@ == batch_check(self@, jsons(existing@), jsons(records@)),
    {
        let ghost m = self@;
        let ghost there = jsons(existing@);
        let ghost all = jsons(records@);
        let mut seen: TextMap<String> = TextMap::new();
        let mut out = Checked { numeric: Vec::new(), problem: None };
        assert(seen_model(seen) =~= Map::empty());
        assert(after_comparisons(numerics(out.numeric@), batch_check(m, there, all)) =~= batch_check(
            m,
            there,
            all,
        ));
        let mut j: usize = 0;
        while j < records.len()
            invariant
                m == self@,
                there == jsons(existing@),
                all == jsons(records@),
                j <= records@.len(),
                out.problem is None,
                batch_check(m, there, all) == after_comparisons(
                    numerics(out.numeric@),
                    batch_check_from(m, there, all, seen_model(seen), j as int),
                ),
            decreases records@.len() - j,
        {
            let record = &records[j];
            assert(all[j as int] == record@);
            let ghost before = out@;
            let ghost remembered = seen_model(seen);
            let key = match record.get_str(self.primary_key.as_str()) {
                Some(key) => key,
                None => {
                    out.add_problem(
                        Some(concat2("Missing primary key field: ", self.primary_key.as_str())),
                    );
                    assert(out@ =~= batch_check(m, there, all));
                    return out;
                },
            };
            let mut own = self.validate_schema(record);
            let related = self.validate_relationship_constraints(existing, record, key);
            own.add_problem(related);
            out.add(own);
            proof {
                assert(out@ == both(before, own_check(m, there, record@, key@)));
            }
            if out.problem.is_some() {
                assert(out@ =~= batch_check(m, there, all));
                return out;
            }
            let clash = self.note_batch_values(record, key, &mut seen);
            let ghost rest = match batch_values_from(m, record@, key@, remembered, 0) {
                Err(message) => found(Some(message)),
                Ok(more) => batch_check_from(m, there, all, more, j + 1),
            };
            proof {
                assert(batch_check_from(m, there, all, remembered, j as int) == both(
                    own_check(m, there, record@, key@),
                    rest,
                ));
                assert(after_comparisons(numerics(out.numeric@), rest) =~= after_comparisons(
                    before.numeric,
                    both(own_check(m, there, record@, key@), rest),
                ));
            }
            if clash.is_some() {
                out.add_problem(clash);
                assert(out@ =~= batch_check(m, there, all));
                return out;
            }
            j += 1;
        }
        assert(out@ =~= batch_check(m, there, all));
        out
    }
}

/// What the unique fields of a record add to what a batch remembers: each value under the key of
/// the record, and nothing that was there is changed.
proof fn lemma_batch_values(
    m: DrawerModel,
    record: Json,
    key: Seq<char>,
    seen: Map<Seq<char>, Seq<char>>,
    i: int,
)
    requires
        0 <= i <= m.unique.len(),
        batch_values_from(m, record, key, seen, i) is Ok,
    ensures
        ({
            let more = batch_values_from(m, record, key, seen, i)->Ok_0;
            &&& forall|name: Seq<char>| #[trigger]
                seen.dom().contains(name) ==> more.dom().contains(name) && more[name] == seen[name]
            &&& forall|f: int|
                i <= f < m.unique.len() && record.get_text(#[trigger] m.unique[f]) is Some ==> {
                    let name = batch_name(m.unique[f], record.get_text(m.unique[f])->0);
                    &&& more.dom().contains(name)
                    &&& more[name] == key
                    &&& seen.dom().contains(name) ==> seen[name] == key
                    &&& !taken_by_other(m, record, offset_of(m, key), m.unique[f])
                }
        }),
    decreases m.unique.len() - i,
{
    if i < m.unique.len() {
        let field = m.unique[i];
        match record.get_text(field) {
            None => {
                lemma_batch_values(m, record, key, seen, i + 1);
            },
            Some(value) => {
                let name = batch_name(field, value);
                let next = seen.insert(name, key);
                lemma_batch_values(m, record, key, next, i + 1);
                let more = batch_values_from(m, record, key, next, i + 1)->Ok_0;
                assert forall|other: Seq<char>| #[trigger]
                    seen.dom().contains(other) implies more.dom().contains(other) && more[other]
                    == seen[other] by {
                    assert(next.dom().contains(other));
                }
                assert(next.dom().contains(name));
                assert forall|f: int|
                    i <= f < m.unique.len() && record.get_text(#[trigger] m.unique[f]) is Some implies ({
                    let name = batch_name(m.unique[f], record.get_text(m.unique[f])->0);
                    &&& more.dom().contains(name)
                    &&& more[name] == key
                    &&& seen.dom().contains(name) ==> seen[name] == key
                    &&& !taken_by_other(m, record, offset_of(m, key), m.unique[f])
                }) by {
                    if f > i {
                        let there = batch_name(m.unique[f], record.get_text(m.unique[f])->0);
                        if seen.dom().contains(there) {
                            assert(next.dom().contains(there));
                        }
                    }
                }
            },
        }
    }
}

/// A value that a batch remembers is remembered to the end, and no record of another key has it.
proof fn lemma_remembered(
    m: DrawerModel,
    existing: Seq<Json>,
    records: Seq<Json>,
    seen: Map<Seq<char>, Seq<char>>,
    j: int,
    b: int,
    f: int,
)
    requires
        0 <= j <= b < records.len(),
        0 <= f < m.unique.len(),
        batch_check_from(m, existing, records, seen, j).problem is None,
        records[b].get_text(m.unique[f]) is Some,
        seen.dom().contains(batch_name(m.unique[f], records[b].get_text(m.unique[f])->0)),
    ensures
        records[b].get_text(m.primary_key) == Some(
            seen[batch_name(m.unique[f], records[b].get_text(m.unique[f])->0)],
        ),
    decreases b - j,
{
    let name = batch_name(m.unique[f], records[b].get_text(m.unique[f])->0);
    let key = records[j].get_text(m.primary_key)->0;
    let more = batch_values_from(m, records[j], key, seen, 0)->Ok_0;
    lemma_batch_values(m, records[j], key, seen, 0);
    if j < b {
        assert(more.dom().contains(name));
        lemma_remembered(m, existing, records, more, j + 1, b, f);
    } else {
        assert(records[b].get_text(m.unique[f]) is Some);
    }
}

/// Where a batch has no problem, the records of it that share the value of a unique field share
/// their key.
pub proof fn law_accepted_batch_is_unique(
    m: DrawerModel,
    existing: Seq<Json>,
    records: Seq<Json>,
    a: int,
    b: int,
    f: int,
)
    requires
        batch_check(m, existing, records).problem is None,
        0 <= a < b < records.len(),
        0 <= f < m.unique.len(),
        records[a].get_text(m.unique[f]) is Some,
        records[a].get_text(m.unique[f]) == records[b].get_text(m.unique[f]),
    ensures
        records[a].get_text(m.primary_key) is Some,
        records[a].get_text(m.primary_key) == records[b].get_text(m.primary_key),
{
    lemma_pair(m, existing, records, Map::empty(), 0, a, b, f);
}

proof fn lemma_pair(
    m: DrawerModel,
    existing: Seq<Json>,
    records: Seq<Json>,
    seen: Map<Seq<char>, Seq<char>>,
    j: int,
    a: int,
    b: int,
    f: int,
)
    requires
        batch_check_from(m, existing, records, seen, j).problem is None,
        0 <= j <= a < b < records.len(),
        0 <= f < m.unique.len(),
        records[a].get_text(m.unique[f]) is Some,
        records[a].get_text(m.unique[f]) == records[b].get_text(m.unique[f]),
    ensures
        records[a].get_text(m.primary_key) is Some,
        records[a].get_text(m.primary_key) == records[b].get_text(m.primary_key),
    decreases a - j,
{
    let key = records[j].get_text(m.primary_key)->0;
    let more = batch_values_from(m, records[j], key, seen, 0)->Ok_0;
    lemma_batch_values(m, records[j], key, seen, 0);
    if j < a {
        lemma_pair(m, existing, records, more, j + 1, a, b, f);
    } else {
        assert(records[a].get_text(m.unique[f]) is Some);
        lemma_remembered(m, existing, records, more, j + 1, b, f);
    }
}

/// Where a batch has no problem, each record of it could have been written alone.
pub proof fn law_accepted_batch_is_accepted_singly(
    m: DrawerModel,
    existing: Seq<Json>,
    records: Seq<Json>,
    j: int,
)
    requires
        batch_check(m, existing, records).problem is None,
        0 <= j < records.len(),
    ensures
        upsert_check(m, existing, records[j]).problem is None,
{
    lemma_single(m, existing, records, Map::empty(), 0, j);
}

proof fn lemma_single(
    m: DrawerModel,
    existing: Seq<Json>,
    records: Seq<Json>,
    seen: Map<Seq<char>, Seq<char>>,
    i: int,
    j: int,
)
    requires
        batch_check_from(m, existing, records, seen, i).problem is None,
        0 <= i <= j < records.len(),
    ensures
        upsert_check(m, existing, records[j]).problem is None,
    decreases j - i,
{
    let key = records[i].get_text(m.primary_key)->0;
    let more = batch_values_from(m, records[i], key, seen, 0)->Ok_0;
    if i < j {
        lemma_single(m, existing, records, more, i + 1, j);
    } else {
        lemma_batch_values(m, records[j], key, seen, 0);
        lemma_not_taken(m, records[j], offset_of(m, key), 0);
    }
}

proof fn lemma_not_taken(m: DrawerModel, record: Json, own: Option<u64>, i: int)
    requires
        0 <= i <= m.unique.len(),
        forall|f: int|
            i <= f < m.unique.len() && record.get_text(#[trigger] m.unique[f]) is Some
                ==> !taken_by_other(m, record, own, m.unique[f]),
    ensures
        crate::drawer::records::unique_problem(m, record, own, i) is None,
    decreases m.unique.len() - i,
{
    if i < m.unique.len() {
        assert(record.get_text(m.unique[i]) is Some ==> !taken_by_other(
            m,
            record,
            own,
            m.unique[i],
        ));
        lemma_not_taken(m, record, own, i + 1);
    }
}

} // verus!
