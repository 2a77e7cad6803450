//! Deleting records together with what hangs on them.
pub mod batch;
pub mod cascades;
pub mod checks;
pub mod closure;
pub mod laws;
pub mod references;

use crate::deletion::checks::write_problem;
use crate::drawer::{Drawer, DrawerModel};
use crate::error::{bad_data, bad_input, failure, not_found, Error, ErrorKind, Failure};
use crate::fields::{key_order, lemma_finite, TextMap};
use crate::pointer::{
    format_pointer, no_pointer, parse_pointer, pointer_parts, pointer_text, try_parse_pointer,
};
use crate::text::{
    after_prefix, concat3, concat5, copy_strings, cut_once, less_prefix, opt_text, owned, same,
    texts,
};
use crate::value::{
    drop_text, group_value, is_text, json_fields, jsons, without_text, Json, JsonValue,
};
use vstd::prelude::*;

verus! {

/// What becomes of the records that refer to a record that is deleted: they keep it from being
/// deleted, they are deleted too, or they lose the reference.
#[derive(Debug, Clone, Copy, PartialEq, Eq, Structural)]
pub enum DeleteAction {
    Restrict,
    Cascade,
    SetNull,
}

/// A rule for the records of another drawer that refer to a record in one of their fields.
#[derive(Debug, PartialEq, Eq)]
pub struct InverseDeleteRule {
    pub target_drawer: String,
    pub mapped_by: String,
    pub action: DeleteAction,
}

/// The model of a rule.
pub struct RuleModel {
    pub target: Seq<char>,
    pub field: Seq<char>,
    pub action: DeleteAction,
}

impl View for InverseDeleteRule {
    type V = RuleModel;

    open spec fn view(&self) -> RuleModel {
        RuleModel { target: self.target_drawer@, field: self.mapped_by@, action: self.action }
    }
}

pub open spec fn rule_models(rules: Seq<InverseDeleteRule>) -> Seq<RuleModel> {
    rules.map_values(|r: InverseDeleteRule| r@)
}

/// A drawer, its records by their keys, as they are read once those that are out of date were
/// stored anew, the fields whose records are deleted with a record, and the rules for records that
/// refer to one.
pub struct StoredDrawer {
    pub drawer: Drawer,
    pub records: TextMap<JsonValue>,
    /// What the comparisons of numbers that the schema asks for find wrong with a record, by its
    /// key.
    pub numeric_problems: TextMap<String>,
    pub cascade_fields: Vec<String>,
    pub rules: Vec<InverseDeleteRule>,
}

/// The model of a drawer.
pub struct DrawerState {
    pub drawer: DrawerModel,
    pub records: Map<Seq<char>, Json>,
    pub numeric: Map<Seq<char>, Seq<char>>,
    pub cascades: Seq<Seq<char>>,
    pub rules: Seq<RuleModel>,
}

/// The texts of a map by their keys.
pub open spec fn text_values(map: TextMap<String>) -> Map<Seq<char>, Seq<char>> {
    Map::new(|k: Seq<char>| map@.dom().contains(k), |k: Seq<char>| map@[k]@)
}

impl View for StoredDrawer {
    type V = DrawerState;

    open spec fn view(&self) -> DrawerState {
        DrawerState {
            drawer: self.drawer@,
            records: json_fields(self.records),
            numeric: text_values(self.numeric_problems),
            cascades: texts(self.cascade_fields@),
            rules: rule_models(self.rules@),
        }
    }
}

/// A change of a stored record.
#[derive(Debug, PartialEq, Eq)]
pub enum RecordChange {
    Delete { drawer: String, key: String },
    Upsert { drawer: String, key: String, record: JsonValue },
}

/// The model of a change.
pub enum ChangeModel {
    Delete { drawer: Seq<char>, key: Seq<char> },
    Upsert { drawer: Seq<char>, key: Seq<char>, record: Json },
}

impl View for RecordChange {
    type V = ChangeModel;

    open spec fn view(&self) -> ChangeModel {
        match self {
            RecordChange::Delete { drawer, key } => ChangeModel::Delete {
                drawer: drawer@,
                key: key@,
            },
            RecordChange::Upsert { drawer, key, record } => ChangeModel::Upsert {
                drawer: drawer@,
                key: key@,
                record: record@,
            },
        }
    }
}

pub open spec fn change_models(changes: Seq<RecordChange>) -> Seq<ChangeModel> {
    changes.map_values(|c: RecordChange| c@)
}

/// The records of the drawers while some are deleted, and the changes that were made to them.
pub struct Deletion {
    pub drawers: TextMap<StoredDrawer>,
    pub changes: Vec<RecordChange>,
}

/// The model of a deletion.
#[verifier::ext_equal]
pub struct DeletionModel {
    pub store: Map<Seq<char>, DrawerState>,
    pub changes: Seq<ChangeModel>,
}

pub open spec fn store_model(drawers: TextMap<StoredDrawer>) -> Map<Seq<char>, DrawerState> {
    Map::new(|d: Seq<char>| drawers@.dom().contains(d), |d: Seq<char>| drawers@[d]@)
}

impl View for Deletion {
    type V = DeletionModel;

    open spec fn view(&self) -> DeletionModel {
        DeletionModel {
            store: store_model(self.drawers),
            changes: change_models(self.changes@),
        }
    }
}

/// Whether there is the record.
pub open spec fn has_record(
    store: Map<Seq<char>, DrawerState>,
    drawer: Seq<char>,
    key: Seq<char>,
) -> bool {
    store.dom().contains(drawer) && store[drawer].records.dom().contains(key)
}

/// The pointers that name a record that there is.
pub open spec fn pointers_of(store: Map<Seq<char>, DrawerState>) -> Set<Seq<char>> {
    Set::new(
        |p: Seq<char>| pointer_parts(p) matches Some((drawer, key)) && has_record(store, drawer, key),
    )
}

/// Whether a value refers to the record: it is the pointer, or holds it.
pub open spec fn refers(value: Json, pointer: Seq<char>) -> bool {
    match value {
        Json::Text(s) => s == pointer,
        Json::Array(items) => exists|i: int|
            0 <= i < items.len() && (#[trigger] items[i]) == Json::Text(pointer),
        _ => false,
    }
}

/// Whether a record refers to another in a field.
pub open spec fn record_refers(record: Json, field: Seq<char>, pointer: Seq<char>) -> bool {
    record.get(field) matches Some(v) && refers(v, pointer)
}

/// Those of the first `n` keys whose records refer to the record.
pub open spec fn referring(
    records: Map<Seq<char>, Json>,
    field: Seq<char>,
    pointer: Seq<char>,
    keys: Seq<Seq<char>>,
    n: int,
) -> Seq<Seq<char>>
    decreases n,
{
    if n <= 0 {
        Seq::empty()
    } else if record_refers(records[keys[n - 1]], field, pointer) {
        referring(records, field, pointer, keys, n - 1).push(keys[n - 1])
    } else {
        referring(records, field, pointer, keys, n - 1)
    }
}

/// The keys of the records that a rule is about, in ascending order.
pub open spec fn child_keys(
    store: Map<Seq<char>, DrawerState>,
    rule: RuleModel,
    pointer: Seq<char>,
) -> Seq<Seq<char>> {
    if store.dom().contains(rule.target) {
        let records = store[rule.target].records;
        let keys = key_order(records.dom());
        referring(records, rule.field, pointer, keys, keys.len() as int)
    } else {
        Seq::empty()
    }
}

/// The failure of deleting a record that is still referred to.
pub open spec fn still_referred(pointer: Seq<char>, rule: RuleModel) -> Failure {
    bad_input(
        "Cannot delete '"@ + pointer + "': records of drawer '"@ + rule.target + "' refer to it in '"@
            + rule.field + "'"@,
    )
}

/// Why a record cannot be deleted, by the rules from position `i` on.
pub open spec fn restriction(
    store: Map<Seq<char>, DrawerState>,
    pointer: Seq<char>,
    rules: Seq<RuleModel>,
    i: int,
) -> Option<Failure>
    decreases rules.len() - i,
{
    if i < 0 || i >= rules.len() {
        None
    } else if rules[i].action == DeleteAction::Restrict && child_keys(
        store,
        rules[i],
        pointer,
    ).len() > 0 {
        Some(still_referred(pointer, rules[i]))
    } else {
        restriction(store, pointer, rules, i + 1)
    }
}

/// The pointers to the records of a drawer with the keys.
pub open spec fn pointers_to(drawer: Seq<char>, keys: Seq<Seq<char>>) -> Seq<Seq<char>> {
    keys.map_values(|k: Seq<char>| pointer_text(drawer, k))
}

/// The records that are deleted with a record by the first `n` rules.
pub open spec fn cascade_children(
    store: Map<Seq<char>, DrawerState>,
    pointer: Seq<char>,
    rules: Seq<RuleModel>,
    n: int,
) -> Seq<Seq<char>>
    decreases n,
{
    if n <= 0 {
        Seq::empty()
    } else if rules[n - 1].action == DeleteAction::Cascade {
        cascade_children(store, pointer, rules, n - 1) + pointers_to(
            rules[n - 1].target,
            child_keys(store, rules[n - 1], pointer),
        )
    } else {
        cascade_children(store, pointer, rules, n - 1)
    }
}

/// The pointers among the first `n` items.
pub open spec fn pointers_among(items: Seq<Json>, n: int) -> Seq<Seq<char>>
    decreases n,
{
    if n <= 0 {
        Seq::empty()
    } else if items[n - 1] matches Json::Text(s) && pointer_parts(s) is Some {
        pointers_among(items, n - 1).push(items[n - 1]->Text_0)
    } else {
        pointers_among(items, n - 1)
    }
}

/// The pointers that a value is or holds.
pub open spec fn pointers_in(value: Json) -> Seq<Seq<char>> {
    match value {
        Json::Text(_) => pointers_among(seq![value], 1),
        Json::Array(items) => pointers_among(items, items.len() as int),
        _ => Seq::empty(),
    }
}

/// The pointers in the first `n` fields of a record.
pub open spec fn field_pointers(record: Json, fields: Seq<Seq<char>>, n: int) -> Seq<Seq<char>>
    decreases n,
{
    if n <= 0 {
        Seq::empty()
    } else {
        match record.get(fields[n - 1]) {
            Some(v) => field_pointers(record, fields, n - 1) + pointers_in(v),
            None => field_pointers(record, fields, n - 1),
        }
    }
}

/// A value without the reference.
pub open spec fn unreferring(value: Json, pointer: Seq<char>) -> Json {
    match value {
        Json::Array(items) => Json::Array(without_text(items, pointer, items.len() as int)),
        _ => Json::Null,
    }
}

/// A record without the reference in the field.
pub open spec fn unlinked(record: Json, field: Seq<char>, pointer: Seq<char>) -> Json {
    match record {
        Json::Object(fields) => if fields.dom().contains(field) {
            Json::Object(fields.insert(field, unreferring(fields[field], pointer)))
        } else {
            record
        },
        _ => record,
    }
}

/// The store with another record in place of one.
pub open spec fn with_record(
    store: Map<Seq<char>, DrawerState>,
    drawer: Seq<char>,
    key: Seq<char>,
    record: Json,
) -> Map<Seq<char>, DrawerState> {
    store.insert(
        drawer,
        DrawerState { records: store[drawer].records.insert(key, record), ..store[drawer] },
    )
}

/// The store without a record.
pub open spec fn without_record(
    store: Map<Seq<char>, DrawerState>,
    drawer: Seq<char>,
    key: Seq<char>,
) -> Map<Seq<char>, DrawerState> {
    store.insert(
        drawer,
        DrawerState { records: store[drawer].records.remove(key), ..store[drawer] },
    )
}

/// What comes of a step of a deletion. What was changed before a failure stays changed.
#[verifier::ext_equal]
pub struct Outcome {
    pub state: DeletionModel,
    pub result: Result<bool, Failure>,
}

/// What is wrong with a record of a drawer that lost a reference.
pub open spec fn child_problem(here: DrawerState, key: Seq<char>, record: Json) -> Option<Seq<char>> {
    write_problem(
        here.drawer,
        here.records,
        if here.numeric.dom().contains(key) {
            Some(here.numeric[key])
        } else {
            None
        },
        record,
    )
}

/// What comes of taking the reference from the record with a key. A record that may not be
/// without it is refused.
pub open spec fn unlinked_one(
    state: DeletionModel,
    drawer: Seq<char>,
    field: Seq<char>,
    pointer: Seq<char>,
    key: Seq<char>,
) -> Outcome {
    if has_record(state.store, drawer, key) {
        let record = unlinked(state.store[drawer].records[key], field, pointer);
        match child_problem(state.store[drawer], key, record) {
            Some(problem) => Outcome { state, result: Err(bad_data(problem)) },
            None => Outcome {
                state: DeletionModel {
                    store: with_record(state.store, drawer, key, record),
                    changes: state.changes.push(ChangeModel::Upsert { drawer, key, record }),
                },
                result: Ok(true),
            },
        }
    } else {
        Outcome { state, result: Ok(true) }
    }
}

/// What comes of taking the reference from the records of the first `n` keys. The first that is
/// refused ends it; those before it stay changed.
pub open spec fn unlinked_all(
    state: DeletionModel,
    drawer: Seq<char>,
    field: Seq<char>,
    pointer: Seq<char>,
    keys: Seq<Seq<char>>,
    n: int,
) -> Outcome
    decreases n,
{
    if n <= 0 {
        Outcome { state, result: Ok(true) }
    } else {
        let before = unlinked_all(state, drawer, field, pointer, keys, n - 1);
        match before.result {
            Err(f) => before,
            Ok(_) => unlinked_one(before.state, drawer, field, pointer, keys[n - 1]),
        }
    }
}

/// What comes of the first `n` rules taking references away.
pub open spec fn references_taken(
    state: DeletionModel,
    pointer: Seq<char>,
    rules: Seq<RuleModel>,
    n: int,
) -> Outcome
    decreases n,
{
    if n <= 0 {
        Outcome { state, result: Ok(true) }
    } else {
        let before = references_taken(state, pointer, rules, n - 1);
        let rule = rules[n - 1];
        match before.result {
            Err(f) => before,
            Ok(_) => if rule.action == DeleteAction::SetNull {
                let keys = child_keys(before.state.store, rule, pointer);
                unlinked_all(
                    before.state,
                    rule.target,
                    rule.field,
                    pointer,
                    keys,
                    keys.len() as int,
                )
            } else {
                before
            },
        }
    }
}

/// The failure of deleting a record of a drawer that there is not.
pub open spec fn no_drawer(drawer: Seq<char>) -> Failure {
    not_found("Drawer '"@ + drawer + "' could not be loaded for delete"@)
}

pub proof fn lemma_path_grows(bound: Set<Seq<char>>, path: Set<Seq<char>>, pointer: Seq<char>)
    requires
        bound.finite(),
        bound.contains(pointer),
        !path.contains(pointer),
    ensures
        bound.difference(path.insert(pointer)).len() < bound.difference(path).len(),
{
    let rest = bound.difference(path);
    vstd::set_lib::lemma_set_subset_finite(bound, rest);
    assert(rest.contains(pointer));
    assert(bound.difference(path.insert(pointer)) =~= rest.remove(pointer));
}

/// What comes of deleting the record that a pointer names, where `path` are the records whose
/// deletion this one is part of, and `bound` are the pointers that named a record at the start.
pub open spec fn removed(
    state: DeletionModel,
    pointer: Seq<char>,
    path: Set<Seq<char>>,
    bound: Set<Seq<char>>,
) -> Outcome
    decreases bound.difference(path).len(), 3int, 0int,
{
    if path.contains(pointer) {
        Outcome { state, result: Ok(false) }
    } else {
        match pointer_parts(pointer) {
            None => Outcome { state, result: Err(no_pointer(pointer)) },
            Some((drawer, key)) => if !state.store.dom().contains(drawer) {
                Outcome { state, result: Err(no_drawer(drawer)) }
            } else if !state.store[drawer].records.dom().contains(key) {
                Outcome { state, result: Ok(false) }
            } else {
                let here = state.store[drawer];
                let effects = side_effects(
                    state,
                    pointer,
                    here.records[key],
                    here.cascades,
                    here.rules,
                    path,
                    Set::empty(),
                    bound,
                );
                match effects.result {
                    Err(f) => effects,
                    Ok(_) => if !effects.state.store.dom().contains(drawer) {
                        Outcome { state: effects.state, result: Err(no_drawer(drawer)) }
                    } else if effects.state.store[drawer].records.dom().contains(key) {
                        Outcome {
                            state: DeletionModel {
                                store: without_record(effects.state.store, drawer, key),
                                changes: effects.state.changes.push(
                                    ChangeModel::Delete { drawer, key },
                                ),
                            },
                            result: Ok(true),
                        }
                    } else {
                        Outcome { state: effects.state, result: Ok(false) }
                    },
                }
            },
        }
    }
}

/// What comes of what the rules ask for before a record is deleted: nothing may keep it; then the
/// records go that refer to it, then those that it refers to; others lose their references.
pub open spec fn side_effects(
    state: DeletionModel,
    pointer: Seq<char>,
    record: Json,
    fields: Seq<Seq<char>>,
    rules: Seq<RuleModel>,
    path: Set<Seq<char>>,
    skip: Set<Seq<char>>,
    bound: Set<Seq<char>>,
) -> Outcome
    decreases bound.difference(path).len(), 2int, 0int,
{
    if path.contains(pointer) || !bound.contains(pointer) || !bound.finite() {
        Outcome { state, result: Ok(true) }
    } else {
        match restriction(state.store, pointer, rules, 0) {
            Some(f) => Outcome { state, result: Err(f) },
            None => {
                proof {
                    lemma_path_grows(bound, path, pointer);
                }
                let inner = path.insert(pointer);
                let children = cascade_children(state.store, pointer, rules, rules.len() as int);
                let first = all_removed(state, children, 0, inner, skip, bound);
                match first.result {
                    Err(f) => first,
                    Ok(_) => {
                        let others = field_pointers(record, fields, fields.len() as int);
                        let second = all_removed(first.state, others, 0, inner, skip, bound);
                        match second.result {
                            Err(f) => second,
                            Ok(_) => references_taken(
                                second.state,
                                pointer,
                                rules,
                                rules.len() as int,
                            ),
                        }
                    },
                }
            },
        }
    }
}

/// What comes of deleting the records that the pointers from position `i` on name, but for those
/// to skip.
pub open spec fn all_removed(
    state: DeletionModel,
    pointers: Seq<Seq<char>>,
    i: int,
    path: Set<Seq<char>>,
    skip: Set<Seq<char>>,
    bound: Set<Seq<char>>,
) -> Outcome
    decreases bound.difference(path).len(), 4int, pointers.len() - i,
{
    if i < 0 || i >= pointers.len() {
        Outcome { state, result: Ok(true) }
    } else if skip.contains(pointers[i]) {
        all_removed(state, pointers, i + 1, path, skip, bound)
    } else {
        let one = removed(state, pointers[i], path, bound);
        match one.result {
            Err(f) => one,
            Ok(_) => all_removed(one.state, pointers, i + 1, path, skip, bound),
        }
    }
}

fn value_contains_pointer(value: &JsonValue, pointer: &str) -> (r: bool)
    ensures
        r == refers(value@, pointer@),
{
    broadcast use group_value;

    match value {
        JsonValue::String(s) => same(s.as_str(), pointer),
        JsonValue::Array(items) => {
            let ghost models = jsons(items@);
            let mut i: usize = 0;
            while i < items.len()
                invariant
                    i <= items.len(),
                    models == jsons(items@),
                    value@ == Json::Array(models),
                    forall|j: int| 0 <= j < i ==> (#[trigger] models[j]) != Json::Text(pointer@),
                decreases items.len() - i,
            {
                assert(models[i as int] == items@[i as int]@);
                if is_text(&items[i], pointer) {
                    return true;
                }
                i = i + 1;
            }
            false
        },
        _ => false,
    }
}

fn refers_in_field(record: &JsonValue, field: &str, pointer: &str) -> (r: bool)
    ensures
        r == record_refers(record@, field@, pointer@),
{
    match record.get(field) {
        Some(v) => value_contains_pointer(v, pointer),
        None => false,
    }
}

impl Deletion {
    fn records_matching_parent_pointer(&self, rule: &InverseDeleteRule, pointer: &str) -> (r: Vec<
        String,
    >)
        ensures
            texts(r@) == child_keys(self@.store, rule@, pointer@),
    {
        broadcast use group_value;

        let mut found: Vec<String> = Vec::new();
        assert(texts(found@) =~= Seq::empty());
        let drawer = match self.drawers.get(rule.target_drawer.as_str()) {
            Some(drawer) => drawer,
            None => {
                return found;
            },
        };
        let ghost records = json_fields(drawer.records);
        let ghost keys = key_order(records.dom());
        assert(records.dom() =~= drawer.records@.dom());
        assert(self@.store[rule.target_drawer@].records == records);
        let n: usize = drawer.records.len();
        let mut i: usize = 0;
        while i < n
            invariant
                i <= n,
                records == json_fields(drawer.records),
                keys == drawer.records.keys(),
                n == keys.len(),
                texts(found@) == referring(records, rule@.field, pointer@, keys, i as int),
            decreases n - i,
        {
            let key = drawer.records.key_at(i);
            let record = drawer.records.value_at(i);
            assert(records[keys[i as int]] == record@);
            if refers_in_field(record, rule.mapped_by.as_str(), pointer) {
                let ghost before = texts(found@);
                found.push(owned(key.as_str()));
                assert(texts(found@) =~= before.push(keys[i as int]));
            }
            i = i + 1;
        }
        found
    }

    fn evaluate_restrict_delete_rules(&self, pointer: &str, rules: &Vec<InverseDeleteRule>) -> (r:
        Result<(), Error>)
        ensures
            match (restriction(self@.store, pointer@, rule_models(rules@), 0), r) {
                (None, Ok(())) => true,
                (Some(f), Err(e)) => e@ == f,
                _ => false,
            },
    {
        let ghost models = rule_models(rules@);
        let mut i: usize = 0;
        while i < rules.len()
            invariant
                i <= rules.len(),
                models == rule_models(rules@),
                restriction(self@.store, pointer@, models, 0) == restriction(
                    self@.store,
                    pointer@,
                    models,
                    i as int,
                ),
            decreases rules.len() - i,
        {
            let rule = &rules[i];
            assert(models[i as int] == rule@);
            match rule.action {
                DeleteAction::Restrict => {
                    let children = self.records_matching_parent_pointer(rule, pointer);
                    assert(texts(children@).len() == children@.len());
                    if children.len() > 0 {
                        let head = concat5(
                            "Cannot delete '",
                            pointer,
                            "': records of drawer '",
                            rule.target_drawer.as_str(),
                            "' refer to it in '",
                        );
                        return Err(
                            Error::invalid_input(
                                concat3(head.as_str(), rule.mapped_by.as_str(), "'"),
                            ),
                        );
                    }
                },
                _ => {},
            }
            i = i + 1;
        }
        Ok(())
    }

    fn collect_inverse_delete_rule_pointers(
        &self,
        pointer: &str,
        rules: &Vec<InverseDeleteRule>,
    ) -> (r: Vec<String>)
        ensures
            texts(r@) == cascade_children(
                self@.store,
                pointer@,
                rule_models(rules@),
                rules@.len() as int,
            ),
    {
        let ghost models = rule_models(rules@);
        let ghost store = self@.store;
        let mut found: Vec<String> = Vec::new();
        let mut i: usize = 0;
        assert(texts(found@) =~= Seq::empty());
        while i < rules.len()
            invariant
                i <= rules.len(),
                models == rule_models(rules@),
                store == self@.store,
                texts(found@) == cascade_children(store, pointer@, models, i as int),
            decreases rules.len() - i,
        {
            let rule = &rules[i];
            assert(models[i as int] == rule@);
            match rule.action {
                DeleteAction::Cascade => {
                    let keys = self.records_matching_parent_pointer(rule, pointer);
                    push_pointers(rule.target_drawer.as_str(), &keys, &mut found);
                },
                _ => {},
            }
            i = i + 1;
        }
        found
    }
}

fn push_pointers(drawer: &str, keys: &Vec<String>, found: &mut Vec<String>)
    ensures
        texts(final(found)@) == texts(old(found)@) + pointers_to(drawer@, texts(keys@)),
{
    let ghost start = texts(found@);
    let ghost wanted = pointers_to(drawer@, texts(keys@));
    let mut i: usize = 0;
    assert(texts(found@) =~= start + wanted.take(0));
    while i < keys.len()
        invariant
            i <= keys.len(),
            wanted == pointers_to(drawer@, texts(keys@)),
            texts(found@) == start + wanted.take(i as int),
        decreases keys.len() - i,
    {
        let ghost before = texts(found@);
        assert(texts(keys@)[i as int] == keys@[i as int]@);
        found.push(format_pointer(drawer, keys[i].as_str()));
        assert(texts(found@) =~= before.push(wanted[i as int]));
        assert(wanted.take(i + 1) =~= wanted.take(i as int).push(wanted[i as int]));
        i = i + 1;
    }
    assert(wanted.take(keys.len() as int) =~= wanted);
}

fn push_pointers_among(items: &Vec<JsonValue>, found: &mut Vec<String>)
    ensures
        texts(final(found)@) == texts(old(found)@) + pointers_among(
            jsons(items@),
            items@.len() as int,
        ),
{
    let ghost start = texts(found@);
    let ghost models = jsons(items@);
    let mut i: usize = 0;
    assert(texts(found@) =~= start + pointers_among(models, 0));
    while i < items.len()
        invariant
            i <= items.len(),
            models == jsons(items@),
            texts(found@) == start + pointers_among(models, i as int),
        decreases items.len() - i,
    {
        let ghost before = texts(found@);
        assert(models[i as int] == items@[i as int]@);
        match items[i].as_str() {
            Some(s) => {
                if try_parse_pointer(s).is_some() {
                    found.push(owned(s));
                    assert(texts(found@) =~= before.push(s@));
                    assert(before.push(s@) =~= start + pointers_among(models, i as int).push(s@));
                }
            },
            None => {},
        }
        i = i + 1;
    }
}

fn push_pointers_in(value: &JsonValue, found: &mut Vec<String>)
    ensures
        texts(final(found)@) == texts(old(found)@) + pointers_in(value@),
{
    broadcast use group_value;

    match value {
        JsonValue::Array(items) => {
            push_pointers_among(items, found);
            assert(jsons(items@).len() == items@.len());
        },
        JsonValue::String(s) => {
            let ghost start = texts(found@);
            proof {
                reveal_with_fuel(pointers_among, 2);
                assert(seq![value@][0] == Json::Text(s@));
            }
            if try_parse_pointer(s.as_str()).is_some() {
                found.push(owned(s.as_str()));
                assert(texts(found@) =~= start.push(s@));
                assert(pointers_in(value@) =~= seq![s@]);
            } else {
                assert(pointers_in(value@) =~= Seq::empty());
            }
            assert(texts(found@) =~= start + pointers_in(value@));
        },
        _ => {
            assert(texts(found@) =~= texts(found@) + Seq::<Seq<char>>::empty());
        },
    }
}

fn collect_cascade_pointers(record: &JsonValue, cascade_fields: &Vec<String>) -> (r: Vec<String>)
    ensures
        texts(r@) == field_pointers(
            record@,
            texts(cascade_fields@),
            cascade_fields@.len() as int,
        ),
{
    let ghost names = texts(cascade_fields@);
    let mut found: Vec<String> = Vec::new();
    let mut i: usize = 0;
    assert(texts(found@) =~= Seq::empty());
    while i < cascade_fields.len()
        invariant
            i <= cascade_fields.len(),
            names == texts(cascade_fields@),
            texts(found@) == field_pointers(record@, names, i as int),
        decreases cascade_fields.len() - i,
    {
        assert(names[i as int] == cascade_fields@[i as int]@);
        match record.get(cascade_fields[i].as_str()) {
            Some(v) => {
                push_pointers_in(v, &mut found);
            },
            None => {},
        }
        i = i + 1;
    }
    found
}

fn unlink(record: JsonValue, field: &str, pointer: &str) -> (r: JsonValue)
    ensures
        r@ == unlinked(record@, field@, pointer@),
{
    broadcast use group_value;

    match record {
        JsonValue::Object(fields) => {
            let mut fields = fields;
            let ghost before = json_fields(fields);
            match fields.remove(field) {
                Some(value) => {
                    let ghost v = value@;
                    let changed = match value {
                        JsonValue::Array(items) => {
                            assert(jsons(items@).len() == items@.len());
                            JsonValue::array(drop_text(items, pointer))
                        },
                        _ => JsonValue::Null,
                    };
                    let ghost c = changed@;
                    assert(c == unreferring(v, pointer@));
                    fields.insert(owned(field), changed);
                    assert(json_fields(fields) =~= before.insert(field@, c));
                },
                None => {
                    assert(json_fields(fields) =~= before);
                },
            }
            JsonValue::object(fields)
        },
        other => other,
    }
}

impl Deletion {
    /// Takes the reference from a record, if it is there and may be without it.
    fn unlink_record(&mut self, drawer: &str, field: &str, pointer: &str, key: &str) -> (r: Result<
        bool,
        Error,
    >)
        ensures
            is_outcome(
                final(self)@,
                flag_outcome(r),
                unlinked_one(old(self)@, drawer@, field@, pointer@, key@),
            ),
    {
        broadcast use group_value;

        let ghost before = self@;
        let (changed, problem) = match self.drawers.get(drawer) {
            None => {
                return Ok(true);
            },
            Some(stored) => match stored.records.get(key) {
                None => {
                    assert(!has_record(before.store, drawer@, key@));
                    return Ok(true);
                },
                Some(record) => {
                    assert(before.store[drawer@].records[key@] == record@);
                    let changed = unlink(record.clone(), field, pointer);
                    let numeric = stored.numeric_problems.get(key);
                    let problem = stored.drawer.check_write(&stored.records, numeric, &changed);
                    assert(opt_text(problem) == child_problem(
                        before.store[drawer@],
                        key@,
                        changed@,
                    ));
                    (changed, problem)
                },
            },
        };
        assert(has_record(before.store, drawer@, key@));
        match problem {
            Some(problem) => {
                return Err(Error::invalid_data(problem));
            },
            None => {},
        }
        let ghost c = changed@;
        match self.drawers.remove(drawer) {
            Some(stored) => {
                let mut stored = stored;
                let ghost old_stored = stored@;
                assert(old_stored == before.store[drawer@]);
                stored.records.insert(owned(key), changed.clone());
                assert(stored@.records =~= old_stored.records.insert(key@, c));
                let change = RecordChange::Upsert {
                    drawer: owned(drawer),
                    key: owned(key),
                    record: changed,
                };
                let ghost ch = change@;
                self.changes.push(change);
                assert(change_models(self.changes@) =~= before.changes.push(ch));
                self.drawers.insert(owned(drawer), stored);
                assert(self@.store =~= with_record(before.store, drawer@, key@, c));
            },
            None => {},
        }
        Ok(true)
    }

    /// Takes a record out, if it is there.
    fn take_record(&mut self, drawer: &str, key: &str) -> (r: bool)
        requires
            old(self)@.store.dom().contains(drawer@),
        ensures
            r == has_record(old(self)@.store, drawer@, key@),
            final(self)@ == if has_record(old(self)@.store, drawer@, key@) {
                DeletionModel {
                    store: without_record(old(self)@.store, drawer@, key@),
                    changes: old(self)@.changes.push(
                        ChangeModel::Delete { drawer: drawer@, key: key@ },
                    ),
                }
            } else {
                old(self)@
            },
    {
        broadcast use group_value;

        let ghost before = self@;
        match self.drawers.remove(drawer) {
            Some(stored) => {
                let mut stored = stored;
                let ghost old_stored = stored@;
                assert(old_stored == before.store[drawer@]);
                let taken = stored.records.remove(key).is_some();
                assert(stored@.records =~= old_stored.records.remove(key@));
                self.drawers.insert(owned(drawer), stored);
                if taken {
                    let change = RecordChange::Delete { drawer: owned(drawer), key: owned(key) };
                    let ghost ch = change@;
                    self.changes.push(change);
                    assert(change_models(self.changes@) =~= before.changes.push(ch));
                    assert(self@.store =~= without_record(before.store, drawer@, key@));
                } else {
                    assert(old_stored.records.remove(key@) =~= old_stored.records);
                    assert(self@.store =~= before.store);
                }
                taken
            },
            None => false,
        }
    }

    /// Takes the reference from records of a drawer, up to the first that is refused.
    fn unlink_records(&mut self, drawer: &str, field: &str, pointer: &str, keys: &Vec<String>) -> (r:
        Result<bool, Error>)
        ensures
            is_outcome(
                final(self)@,
                flag_outcome(r),
                unlinked_all(
                    old(self)@,
                    drawer@,
                    field@,
                    pointer@,
                    texts(keys@),
                    keys@.len() as int,
                ),
            ),
    {
        let ghost names = texts(keys@);
        let ghost start = self@;
        let mut j: usize = 0;
        while j < keys.len()
            invariant
                j <= keys.len(),
                names == texts(keys@),
                start == old(self)@,
                unlinked_all(start, drawer@, field@, pointer@, names, j as int) == (Outcome {
                    state: self@,
                    result: Ok(true),
                }),
            decreases keys.len() - j,
        {
            assert(names[j as int] == keys@[j as int]@);
            match self.unlink_record(drawer, field, pointer, keys[j].as_str()) {
                Ok(_) => {},
                Err(e) => {
                    proof {
                        lemma_unlinked_ended(
                            start,
                            drawer@,
                            field@,
                            pointer@,
                            names,
                            j + 1,
                            keys@.len() as int,
                        );
                    }
                    return Err(e);
                },
            }
            j = j + 1;
        }
        Ok(true)
    }

    fn apply_set_null_delete_rules(&mut self, pointer: &str, rules: &Vec<InverseDeleteRule>) -> (r:
        Result<bool, Error>)
        ensures
            is_outcome(
                final(self)@,
                flag_outcome(r),
                references_taken(
                    old(self)@,
                    pointer@,
                    rule_models(rules@),
                    rules@.len() as int,
                ),
            ),
    {
        let ghost start = self@;
        let ghost models = rule_models(rules@);
        let mut i: usize = 0;
        while i < rules.len()
            invariant
                i <= rules.len(),
                models == rule_models(rules@),
                start == old(self)@,
                references_taken(start, pointer@, models, i as int) == (Outcome {
                    state: self@,
                    result: Ok(true),
                }),
            decreases rules.len() - i,
        {
            let rule = &rules[i];
            assert(models[i as int] == rule@);
            match rule.action {
                DeleteAction::SetNull => {
                    let keys = self.records_matching_parent_pointer(rule, pointer);
                    assert(texts(keys@).len() == keys@.len());
                    match self.unlink_records(
                        rule.target_drawer.as_str(),
                        rule.mapped_by.as_str(),
                        pointer,
                        &keys,
                    ) {
                        Ok(_) => {},
                        Err(e) => {
                            proof {
                                lemma_references_ended(
                                    start,
                                    pointer@,
                                    models,
                                    i + 1,
                                    rules@.len() as int,
                                );
                            }
                            return Err(e);
                        },
                    }
                },
                _ => {},
            }
            i = i + 1;
        }
        Ok(true)
    }
}

/// A record that is refused ends the taking of references.
proof fn lemma_unlinked_ended(
    state: DeletionModel,
    drawer: Seq<char>,
    field: Seq<char>,
    pointer: Seq<char>,
    keys: Seq<Seq<char>>,
    n: int,
    total: int,
)
    requires
        n <= total,
        unlinked_all(state, drawer, field, pointer, keys, n).result is Err,
    ensures
        unlinked_all(state, drawer, field, pointer, keys, total) == unlinked_all(
            state,
            drawer,
            field,
            pointer,
            keys,
            n,
        ),
    decreases total - n,
{
    if n < total {
        lemma_unlinked_ended(state, drawer, field, pointer, keys, n, total - 1);
    }
}

/// A rule under which a record is refused ends the taking of references.
proof fn lemma_references_ended(
    state: DeletionModel,
    pointer: Seq<char>,
    rules: Seq<RuleModel>,
    n: int,
    total: int,
)
    requires
        n <= total,
        references_taken(state, pointer, rules, n).result is Err,
    ensures
        references_taken(state, pointer, rules, total) == references_taken(
            state,
            pointer,
            rules,
            n,
        ),
    decreases total - n,
{
    if n < total {
        lemma_references_ended(state, pointer, rules, n, total - 1);
    }
}

fn copy_rules(rules: &Vec<InverseDeleteRule>) -> (r: Vec<InverseDeleteRule>)
    ensures
        rule_models(r@) == rule_models(rules@),
{
    let mut out: Vec<InverseDeleteRule> = Vec::new();
    let mut i: usize = 0;
    assert(rule_models(out@) =~= rule_models(rules@).take(0));
    while i < rules.len()
        invariant
            i <= rules.len(),
            rule_models(out@) == rule_models(rules@).take(i as int),
        decreases rules.len() - i,
    {
        let ghost before = rule_models(out@);
        let rule = InverseDeleteRule {
            target_drawer: owned(rules[i].target_drawer.as_str()),
            mapped_by: owned(rules[i].mapped_by.as_str()),
            action: rules[i].action,
        };
        let ghost m = rule@;
        out.push(rule);
        assert(rule_models(out@) =~= before.push(m));
        assert(rule_models(rules@).take(i + 1) =~= rule_models(rules@).take(i as int).push(m));
        i = i + 1;
    }
    assert(rule_models(rules@).take(rules.len() as int) =~= rule_models(rules@));
    out
}

/// Whether this is what came of a step.
pub open spec fn is_outcome(
    state: DeletionModel,
    result: Result<bool, Failure>,
    wanted: Outcome,
) -> bool {
    state == wanted.state && result == wanted.result
}

/// The result of a step, or the failure.
pub open spec fn flag_outcome(r: Result<bool, Error>) -> Result<bool, Failure> {
    match r {
        Ok(b) => Ok(b),
        Err(e) => Err(e@),
    }
}

/// To take a record out, or to change one, adds no pointers.
proof fn lemma_unlinked_all_keeps(
    state: DeletionModel,
    drawer: Seq<char>,
    field: Seq<char>,
    pointer: Seq<char>,
    keys: Seq<Seq<char>>,
    n: int,
)
    ensures
        pointers_of(unlinked_all(state, drawer, field, pointer, keys, n).state.store)
            =~= pointers_of(state.store),
    decreases n,
{
    if n > 0 {
        lemma_unlinked_all_keeps(state, drawer, field, pointer, keys, n - 1);
        let before = unlinked_all(state, drawer, field, pointer, keys, n - 1).state;
        let after = unlinked_all(state, drawer, field, pointer, keys, n).state;
        if has_record(before.store, drawer, keys[n - 1]) {
            assert forall|d: Seq<char>, k: Seq<char>| has_record(after.store, d, k) == has_record(
                before.store,
                d,
                k,
            ) by {}
            assert(pointers_of(after.store) =~= pointers_of(before.store));
        }
    }
}

proof fn lemma_references_taken_keeps(
    state: DeletionModel,
    pointer: Seq<char>,
    rules: Seq<RuleModel>,
    n: int,
)
    ensures
        pointers_of(references_taken(state, pointer, rules, n).state.store) =~= pointers_of(
            state.store,
        ),
    decreases n,
{
    if n > 0 {
        lemma_references_taken_keeps(state, pointer, rules, n - 1);
        let before = references_taken(state, pointer, rules, n - 1).state;
        let rule = rules[n - 1];
        let keys = child_keys(before.store, rule, pointer);
        lemma_unlinked_all_keeps(
            before,
            rule.target,
            rule.field,
            pointer,
            keys,
            keys.len() as int,
        );
    }
}

proof fn lemma_without_record_shrinks(
    store: Map<Seq<char>, DrawerState>,
    drawer: Seq<char>,
    key: Seq<char>,
)
    requires
        store.dom().contains(drawer),
    ensures
        pointers_of(without_record(store, drawer, key)).subset_of(pointers_of(store)),
{
    let after = without_record(store, drawer, key);
    assert forall|d: Seq<char>, k: Seq<char>| has_record(after, d, k) implies has_record(
        store,
        d,
        k,
    ) by {}
}

impl Deletion {
    fn delete_by_id_inner(
        &mut self,
        pointer: &str,
        path: &mut TextMap<()>,
        Ghost(bound): Ghost<Set<Seq<char>>>,
    ) -> (r: Result<bool, Error>)
        requires
            bound.finite(),
            pointers_of(old(self)@.store).subset_of(bound),
        ensures
            is_outcome(
                final(self)@,
                flag_outcome(r),
                removed(old(self)@, pointer@, old(path)@.dom(), bound),
            ),
            pointers_of(final(self)@.store).subset_of(bound),
            final(path)@.dom() == old(path)@.dom(),
        decreases bound.difference(old(path)@.dom()).len(), 3int, 0int,
    {
        if path.contains_key(pointer) {
            return Ok(false);
        }
        let (drawer, key) = match parse_pointer(pointer) {
            Ok(parts) => parts,
            Err(e) => {
                return Err(e);
            },
        };
        let (record, fields, rules) = match self.drawers.get(drawer.as_str()) {
            None => {
                return Err(
                    Error::missing(
                        concat3("Drawer '", drawer.as_str(), "' could not be loaded for delete"),
                    ),
                );
            },
            Some(stored) => match stored.records.get(key.as_str()) {
                None => {
                    assert(!self@.store[drawer@].records.dom().contains(key@));
                    return Ok(false);
                },
                Some(record) => {
                    assert(self@.store[drawer@].records[key@] == record@);
                    (record.clone(), copy_strings(&stored.cascade_fields), copy_rules(&stored.rules))
                },
            },
        };
        assert(has_record(self@.store, drawer@, key@));
        let skip: TextMap<()> = TextMap::new();
        assert(skip@.dom() =~= Set::empty());
        match self.apply_delete_rule_side_effects(
            pointer,
            &record,
            &fields,
            &rules,
            path,
            &skip,
            Ghost(bound),
        ) {
            Ok(_) => {},
            Err(e) => {
                return Err(e);
            },
        }
        if !self.drawers.contains_key(drawer.as_str()) {
            return Err(
                Error::missing(
                    concat3("Drawer '", drawer.as_str(), "' could not be loaded for delete"),
                ),
            );
        }
        proof {
            lemma_without_record_shrinks(self@.store, drawer@, key@);
        }
        let deleted = self.take_record(drawer.as_str(), key.as_str());
        Ok(deleted)
    }

    fn apply_delete_rule_side_effects(
        &mut self,
        pointer: &str,
        record: &JsonValue,
        cascade_fields: &Vec<String>,
        rules: &Vec<InverseDeleteRule>,
        path: &mut TextMap<()>,
        skip: &TextMap<()>,
        Ghost(bound): Ghost<Set<Seq<char>>>,
    ) -> (r: Result<bool, Error>)
        requires
            bound.finite(),
            bound.contains(pointer@),
            pointers_of(old(self)@.store).subset_of(bound),
        ensures
            is_outcome(
                final(self)@,
                flag_outcome(r),
                side_effects(
                    old(self)@,
                    pointer@,
                    record@,
                    texts(cascade_fields@),
                    rule_models(rules@),
                    old(path)@.dom(),
                    skip@.dom(),
                    bound,
                ),
            ),
            pointers_of(final(self)@.store).subset_of(bound),
            final(path)@.dom() == old(path)@.dom(),
        decreases bound.difference(old(path)@.dom()).len(), 2int, 0int,
    {
        if path.contains_key(pointer) {
            return Ok(true);
        }
        match self.evaluate_restrict_delete_rules(pointer, rules) {
            Ok(()) => {},
            Err(e) => {
                return Err(e);
            },
        }
        let ghost outer = path@.dom();
        path.insert(owned(pointer), ());
        proof {
            assert(path@.dom() =~= outer.insert(pointer@));
            lemma_path_grows(bound, outer, pointer@);
        }
        let children = self.collect_inverse_delete_rule_pointers(pointer, rules);
        let others = collect_cascade_pointers(record, cascade_fields);
        assert(rule_models(rules@).len() == rules@.len());
        assert(texts(cascade_fields@).len() == cascade_fields@.len());
        let first = self.delete_all(&children, path, skip, Ghost(bound));
        let result = match first {
            Ok(_) => match self.delete_all(&others, path, skip, Ghost(bound)) {
                Ok(_) => {
                    proof {
                        lemma_references_taken_keeps(
                            self@,
                            pointer@,
                            rule_models(rules@),
                            rules@.len() as int,
                        );
                    }
                    self.apply_set_null_delete_rules(pointer, rules)
                },
                Err(e) => Err(e),
            },
            Err(e) => Err(e),
        };
        let _ = path.remove(pointer);
        assert(path@.dom() =~= outer);
        result
    }

    fn delete_all(
        &mut self,
        pointers: &Vec<String>,
        path: &mut TextMap<()>,
        skip: &TextMap<()>,
        Ghost(bound): Ghost<Set<Seq<char>>>,
    ) -> (r: Result<bool, Error>)
        requires
            bound.finite(),
            pointers_of(old(self)@.store).subset_of(bound),
        ensures
            is_outcome(
                final(self)@,
                flag_outcome(r),
                all_removed(
                    old(self)@,
                    texts(pointers@),
                    0,
                    old(path)@.dom(),
                    skip@.dom(),
                    bound,
                ),
            ),
            pointers_of(final(self)@.store).subset_of(bound),
            final(path)@.dom() == old(path)@.dom(),
        decreases bound.difference(old(path)@.dom()).len(), 4int, 0int,
    {
        let ghost names = texts(pointers@);
        let ghost wanted = all_removed(self@, names, 0, path@.dom(), skip@.dom(), bound);
        let mut i: usize = 0;
        while i < pointers.len()
            invariant
                i <= pointers.len(),
                names == texts(pointers@),
                bound.finite(),
                pointers_of(self@.store).subset_of(bound),
                path@.dom() == old(path)@.dom(),
                wanted == all_removed(
                    old(self)@,
                    names,
                    0,
                    old(path)@.dom(),
                    skip@.dom(),
                    bound,
                ),
                wanted == all_removed(self@, names, i as int, path@.dom(), skip@.dom(), bound),
            decreases pointers.len() - i,
        {
            let pointer = pointers[i].as_str();
            assert(names[i as int] == pointer@);
            if !skip.contains_key(pointer) {
                match self.delete_by_id_inner(pointer, path, Ghost(bound)) {
                    Ok(_) => {},
                    Err(e) => {
                        return Err(e);
                    },
                }
            }
            i = i + 1;
        }
        Ok(true)
    }
}

/// The pointers to the records of a drawer with the keys, in both ways that a key is written.
spec fn spellings(drawer: Seq<char>, keys: Set<Seq<char>>) -> Set<Seq<char>> {
    keys.map(|k: Seq<char>| "@"@ + drawer + ":"@ + k) + keys.map(
        |k: Seq<char>| "@"@ + drawer + ":"@ + ("lnk_"@ + k),
    )
}

proof fn lemma_spelling(pointer: Seq<char>)
    ensures
        pointer_parts(pointer) matches Some((drawer, key)) ==> pointer == "@"@ + drawer + ":"@ + key
            || pointer == "@"@ + drawer + ":"@ + ("lnk_"@ + key),
{
    reveal_strlit("@");
    reveal_strlit(":");
    match after_prefix(pointer, "@"@) {
        Some(rest) => {
            assert(pointer =~= "@"@ + rest);
            match cut_once(rest, ':') {
                Some((drawer, key)) => {
                    crate::text::lemma_first_index(rest, ':', 0);
                    assert(rest =~= drawer + ":"@ + key);
                    assert(pointer =~= "@"@ + drawer + ":"@ + key);
                    if less_prefix(key, "lnk_"@) != key {
                        assert(key =~= "lnk_"@ + less_prefix(key, "lnk_"@));
                    }
                },
                None => {},
            }
        },
        None => {},
    }
}

/// There are finitely many pointers to the records of a store.
proof fn lemma_pointers_finite(store: Map<Seq<char>, DrawerState>)
    requires
        store.dom().finite(),
        forall|d: Seq<char>| store.dom().contains(d) ==> (#[trigger] store[d]).records.dom().finite(),
    ensures
        pointers_of(store).finite(),
{
    let f = |d: Seq<char>| spellings(d, store[d].records.dom());
    let sets = store.dom().map(f);
    store.dom().lemma_map_finite(f);
    assert forall|s: Set<Seq<char>>| sets.contains(s) implies #[trigger] s.finite() by {
        let d = choose|d: Seq<char>| store.dom().contains(d) && f(d) == s;
        let keys = store[d].records.dom();
        keys.lemma_map_finite(|k: Seq<char>| "@"@ + d + ":"@ + k);
        keys.lemma_map_finite(|k: Seq<char>| "@"@ + d + ":"@ + ("lnk_"@ + k));
    }
    sets.lemma_flatten_finite();
    let all = sets.flatten();
    assert forall|p: Seq<char>| pointers_of(store).contains(p) implies all.contains(p) by {
        lemma_spelling(p);
        let (d, k) = pointer_parts(p)->0;
        let keys = store[d].records.dom();
        let plain = |k: Seq<char>| "@"@ + d + ":"@ + k;
        let linked = |k: Seq<char>| "@"@ + d + ":"@ + ("lnk_"@ + k);
        assert(keys.contains(k));
        assert(keys.map(plain).contains(plain(k)));
        assert(keys.map(linked).contains(linked(k)));
        assert(spellings(d, keys).contains(p));
        assert(sets.contains(f(d)));
        assert(f(d).contains(p));
    }
    vstd::set_lib::lemma_set_subset_finite(all, pointers_of(store));
}

impl Deletion {
    /// The records of the drawers before anything is deleted.
    pub fn new(drawers: TextMap<StoredDrawer>) -> (r: Self)
        ensures
            r@.store == store_model(drawers),
            r@.changes == Seq::<ChangeModel>::empty(),
    {
        let r = Deletion { drawers, changes: Vec::new() };
        assert(r@.changes =~= Seq::<ChangeModel>::empty());
        r
    }

    proof fn lemma_bound(self)
        ensures
            pointers_of(self@.store).finite(),
    {
        lemma_finite(self.drawers);
        assert(self@.store.dom() =~= self.drawers@.dom());
        assert forall|d: Seq<char>| self@.store.dom().contains(d) implies (
        #[trigger] self@.store[d]).records.dom().finite() by {
            lemma_finite(self.drawers@[d].records);
            assert(self@.store[d].records.dom() =~= self.drawers@[d].records@.dom());
        }
        lemma_pointers_finite(self@.store);
    }

    /// Deletes the record that a pointer names, and what hangs on it. The result is whether there
    /// was such a record.
    pub fn delete_by_id_in_database_unlogged(&mut self, pointer: &str) -> (r: Result<bool, Error>)
        ensures
            is_outcome(
                final(self)@,
                flag_outcome(r),
                removed(
                    old(self)@,
                    pointer@,
                    Set::empty(),
                    pointers_of(old(self)@.store),
                ),
            ),
    {
        let ghost bound = pointers_of(self@.store);
        proof {
            self.lemma_bound();
        }
        let mut path: TextMap<()> = TextMap::new();
        assert(path@.dom() =~= Set::empty());
        self.delete_by_id_inner(pointer, &mut path, Ghost(bound))
    }
}

/// The failure of deleting a record without a key.
pub open spec fn no_key() -> Failure {
    failure(ErrorKind::InvalidData, "record is missing a string _id for delete"@)
}

/// The key of a record that is to be deleted.
pub open spec fn delete_key(record: Json) -> Result<Seq<char>, Failure> {
    match record.get_text("_id"@) {
        None => Err(no_key()),
        Some(id) => if crate::text::starts_with(id, "@"@) {
            match pointer_parts(id) {
                Some((_, key)) => Ok(key),
                None => Err(no_pointer(id)),
            }
        } else {
            Ok(id)
        },
    }
}

pub fn primary_key_from_record_for_delete(record: &JsonValue) -> (r: Result<String, Error>)
    ensures
        crate::error::text_outcome(r) == delete_key(record@),
{
    match record.get_str("_id") {
        None => Err(
            Error::invalid_data(owned("record is missing a string _id for delete")),
        ),
        Some(id) => if crate::text::has_prefix(id, "@") {
            match parse_pointer(id) {
                Ok((_, key)) => Ok(key),
                Err(e) => Err(e),
            }
        } else {
            Ok(owned(id))
        },
    }
}

/// The keys of the records from position `i` on, behind `done`.
pub open spec fn delete_keys(records: Seq<Json>, i: int, done: Seq<Seq<char>>) -> Result<
    Seq<Seq<char>>,
    Failure,
>
    decreases records.len() - i,
{
    if i < 0 || i >= records.len() {
        Ok(done)
    } else {
        match delete_key(records[i]) {
            Err(f) => Err(f),
            Ok(key) => delete_keys(records, i + 1, done.push(key)),
        }
    }
}

/// What comes of what the rules ask for before the records from position `i` on are deleted.
pub open spec fn all_effects(
    state: DeletionModel,
    records: Seq<Json>,
    pointers: Seq<Seq<char>>,
    drawer: DrawerState,
    i: int,
    bound: Set<Seq<char>>,
) -> Outcome
    decreases records.len() - i,
{
    if i < 0 || i >= records.len() {
        Outcome { state, result: Ok(true) }
    } else {
        let one = side_effects(
            state,
            pointers[i],
            records[i],
            drawer.cascades,
            drawer.rules,
            Set::empty(),
            pointers.to_set(),
            bound,
        );
        match one.result {
            Err(f) => one,
            Ok(_) => all_effects(one.state, records, pointers, drawer, i + 1, bound),
        }
    }
}

/// What there is once the records of the first `n` keys were taken out, and how many there were.
pub open spec fn keys_taken(
    state: DeletionModel,
    drawer: Seq<char>,
    keys: Seq<Seq<char>>,
    n: int,
) -> (DeletionModel, int)
    decreases n,
{
    if n <= 0 {
        (state, 0)
    } else {
        let before = keys_taken(state, drawer, keys, n - 1);
        if has_record(before.0.store, drawer, keys[n - 1]) {
            (
                DeletionModel {
                    store: without_record(before.0.store, drawer, keys[n - 1]),
                    changes: before.0.changes.push(
                        ChangeModel::Delete { drawer, key: keys[n - 1] },
                    ),
                },
                before.1 + 1,
            )
        } else {
            before
        }
    }
}

/// What comes of deleting records of a drawer: first what the rules ask for, where the records
/// themselves do not go with others, then the records go.
pub open spec fn batch_removed(state: DeletionModel, drawer: Seq<char>, records: Seq<Json>) -> (
    DeletionModel,
    Result<int, Failure>,
) {
    if !state.store.dom().contains(drawer) || records.len() == 0 {
        (state, Ok(0))
    } else {
        match delete_keys(records, 0, Seq::empty()) {
            Err(f) => (state, Err(f)),
            Ok(keys) => {
                let pointers = pointers_to(drawer, keys);
                let bound = pointers_of(state.store).union(pointers.to_set());
                let effects = all_effects(
                    state,
                    records,
                    pointers,
                    state.store[drawer],
                    0,
                    bound,
                );
                match effects.result {
                    Err(f) => (effects.state, Err(f)),
                    Ok(_) => if !effects.state.store.dom().contains(drawer) {
                        (effects.state, Ok(0))
                    } else {
                        let done = keys_taken(effects.state, drawer, keys, keys.len() as int);
                        (done.0, Ok(done.1))
                    },
                }
            },
        }
    }
}

proof fn lemma_delete_keys_len(records: Seq<Json>, i: int, done: Seq<Seq<char>>)
    requires
        0 <= i <= records.len(),
    ensures
        delete_keys(records, i, done) matches Ok(keys) ==> keys.len() == done.len() + records.len()
            - i,
    decreases records.len() - i,
{
    if i < records.len() {
        match delete_key(records[i]) {
            Ok(key) => lemma_delete_keys_len(records, i + 1, done.push(key)),
            Err(_) => {},
        }
    }
}

fn collect_keys(records: &Vec<JsonValue>) -> (r: Result<Vec<String>, Error>)
    ensures
        match (delete_keys(jsons(records@), 0, Seq::empty()), r) {
            (Ok(keys), Ok(names)) => texts(names@) == keys && names@.len() == records@.len(),
            (Err(f), Err(e)) => e@ == f,
            _ => false,
        },
{
    let ghost models = jsons(records@);
    let ghost wanted = delete_keys(models, 0, Seq::empty());
    proof {
        lemma_delete_keys_len(models, 0, Seq::empty());
    }
    let mut keys: Vec<String> = Vec::new();
    assert(texts(keys@) =~= Seq::empty());
    let mut i: usize = 0;
    while i < records.len()
        invariant
            i <= records.len(),
            models == jsons(records@),
            wanted == delete_keys(models, 0, Seq::empty()),
            wanted == delete_keys(models, i as int, texts(keys@)),
        decreases records.len() - i,
    {
        assert(models[i as int] == records@[i as int]@);
        let ghost before = texts(keys@);
        match primary_key_from_record_for_delete(&records[i]) {
            Ok(key) => {
                let ghost k = key@;
                keys.push(key);
                assert(texts(keys@) =~= before.push(k));
            },
            Err(e) => {
                return Err(e);
            },
        }
        i = i + 1;
    }
    assert(texts(keys@).len() == keys@.len());
    Ok(keys)
}

/// The count of a batch, or the failure.
pub open spec fn count_outcome(r: Result<usize, Error>) -> Result<int, Failure> {
    match r {
        Ok(n) => Ok(n as int),
        Err(e) => Err(e@),
    }
}

impl Deletion {
    /// Deletes records of a drawer, and what hangs on them. The result is how many of them there
    /// were.
    pub fn delete_by_filter_in_database_unlogged(
        &mut self,
        drawer_name: &str,
        records: &Vec<JsonValue>,
    ) -> (r: Result<usize, Error>)
        ensures
            final(self)@ == batch_removed(old(self)@, drawer_name@, jsons(records@)).0,
            count_outcome(r) == batch_removed(old(self)@, drawer_name@, jsons(records@)).1,
    {
        let ghost models = jsons(records@);
        let ghost start = self@;
        let (fields, rules) = match self.drawers.get(drawer_name) {
            None => {
                return Ok(0);
            },
            Some(stored) => (copy_strings(&stored.cascade_fields), copy_rules(&stored.rules)),
        };
        assert(models.len() == records@.len());
        if records.len() == 0 {
            return Ok(0);
        }
        let keys = match collect_keys(records) {
            Ok(keys) => keys,
            Err(e) => {
                return Err(e);
            },
        };
        let mut pointers: Vec<String> = Vec::new();
        assert(texts(pointers@) =~= Seq::empty());
        push_pointers(drawer_name, &keys, &mut pointers);
        let ghost names = pointers_to(drawer_name@, texts(keys@));
        assert(texts(pointers@) =~= names);
        let mut skip: TextMap<()> = TextMap::new();
        let mut k: usize = 0;
        assert(skip@.dom() =~= names.take(0).to_set());
        while k < pointers.len()
            invariant
                k <= pointers.len(),
                texts(pointers@) == names,
                skip@.dom() == names.take(k as int).to_set(),
            decreases pointers.len() - k,
        {
            let ghost before = skip@.dom();
            assert(names[k as int] == pointers@[k as int]@);
            skip.insert(owned(pointers[k].as_str()), ());
            assert(skip@.dom() =~= before.insert(names[k as int]));
            proof {
                let a = names.take(k as int);
                let b = names.take(k + 1);
                assert(b =~= a.push(names[k as int]));
                assert(b.to_set() =~= a.to_set().insert(names[k as int])) by {
                    assert forall|p: Seq<char>| b.contains(p) <==> (a.contains(p) || p
                        == names[k as int]) by {
                        if a.contains(p) {
                            let i = choose|i: int| 0 <= i < a.len() && a[i] == p;
                            assert(b[i] == p);
                        }
                        assert(b[k as int] == names[k as int]);
                        if b.contains(p) && p != names[k as int] {
                            let i = choose|i: int| 0 <= i < b.len() && b[i] == p;
                            assert(a[i] == p);
                        }
                    }
                }
            }
            k = k + 1;
        }
        assert(names.take(pointers.len() as int) =~= names);
        let ghost bound = pointers_of(start.store).union(names.to_set());
        proof {
            self.lemma_bound();
            vstd::seq_lib::seq_to_set_is_finite(names);
        }
        let ghost here = start.store[drawer_name@];
        let ghost wanted = all_effects(start, models, names, here, 0, bound);
        let mut path: TextMap<()> = TextMap::new();
        assert(path@.dom() =~= Set::empty());
        let mut i: usize = 0;
        while i < records.len()
            invariant
                i <= records.len(),
                models == jsons(records@),
                records@.len() == pointers@.len(),
                texts(pointers@) == names,
                skip@.dom() == names.to_set(),
                path@.dom() == Set::<Seq<char>>::empty(),
                bound.finite(),
                bound == pointers_of(start.store).union(names.to_set()),
                pointers_of(self@.store).subset_of(bound),
                here.cascades == texts(fields@),
                here.rules == rule_models(rules@),
                batch_removed(old(self)@, drawer_name@, models).0 == wanted.state || wanted.result
                    is Ok,
                wanted.result matches Err(f) ==> batch_removed(
                    old(self)@,
                    drawer_name@,
                    models,
                ).1 == Err::<int, Failure>(f),
                wanted == all_effects(self@, models, names, here, i as int, bound),
            decreases records.len() - i,
        {
            let pointer = pointers[i].as_str();
            assert(models[i as int] == records@[i as int]@);
            assert(names[i as int] == pointer@);
            assert(names.contains(pointer@));
            match self.apply_delete_rule_side_effects(
                pointer,
                &records[i],
                &fields,
                &rules,
                &mut path,
                &skip,
                Ghost(bound),
            ) {
                Ok(_) => {},
                Err(e) => {
                    return Err(e);
                },
            }
            i = i + 1;
        }
        if !self.drawers.contains_key(drawer_name) {
            return Ok(0);
        }
        let ghost middle = self@;
        let ghost listed = texts(keys@);
        let mut count: usize = 0;
        let mut j: usize = 0;
        while j < keys.len()
            invariant
                j <= keys.len(),
                listed == texts(keys@),
                count <= j,
                self@.store.dom().contains(drawer_name@),
                (self@, count as int) == keys_taken(middle, drawer_name@, listed, j as int),
            decreases keys.len() - j,
        {
            assert(listed[j as int] == keys@[j as int]@);
            if self.take_record(drawer_name, keys[j].as_str()) {
                count = count + 1;
            }
            j = j + 1;
        }
        Ok(count)
    }
}

} // verus!
