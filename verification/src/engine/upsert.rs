//! Where the records of an upsert go.
use crate::command::model::{FilterModel, OperationFilter};
use crate::engine::selection::{resolved, selected, OperationSelection};
use crate::error::{bad_data, bad_input, Error, Failure};
use crate::fields::{lists, TextMap};
use crate::pointer::{
    is_drawer_only, names_drawer_only, no_pointer, parse_pointer, pointer_parts, try_parse_pointer,
};
use crate::text::{concat5, copy_opt, opt_str, opt_text, owned, same, texts, trim_start_char, without_leading};
use crate::value::{group_value, json_fields, opt_value, Json, JsonValue};
use vstd::prelude::*;

verus! {

/// What an upsert is about: at most one record.
#[derive(Debug, PartialEq, Eq)]
pub struct UpsertContext {
    pub drawer_name: Option<String>,
    pub pointer: Option<String>,
    pub query: Option<JsonValue>,
}

/// The model of an upsert context.
pub struct ContextModel {
    pub drawer: Option<Seq<char>>,
    pub pointer: Option<Seq<char>>,
    pub query: Option<Json>,
}

impl View for UpsertContext {
    type V = ContextModel;

    open spec fn view(&self) -> ContextModel {
        ContextModel {
            drawer: opt_text(self.drawer_name),
            pointer: opt_text(self.pointer),
            query: opt_value(self.query),
        }
    }
}

/// The failure of an upsert about several records.
pub open spec fn many_pointers() -> Failure {
    bad_input("upsert accepts at most one pointer filter"@)
}

/// What an upsert with a filter is about.
pub open spec fn upsert_context(filter: FilterModel) -> Result<ContextModel, Failure> {
    match selected(filter) {
        Err(f) => Err(f),
        Ok(s) => if s.pointers.len() > 1 {
            Err(many_pointers())
        } else {
            match resolved(s) {
                Err(f) => Err(f),
                Ok(pointers) => Ok(
                    ContextModel {
                        drawer: s.drawer,
                        pointer: if pointers.len() > 0 {
                            Some(pointers[0])
                        } else {
                            None
                        },
                        query: s.query,
                    },
                ),
            }
        },
    }
}

impl UpsertContext {
    pub fn from_filter(filter: &OperationFilter) -> (r: Result<Self, Error>)
        ensures
            match (upsert_context(filter@), r) {
                (Ok(c), Ok(context)) => context@ == c,
                (Err(f), Err(e)) => e@ == f,
                _ => false,
            },
    {
        let selection = match OperationSelection::from_filter(filter) {
            Ok(selection) => selection,
            Err(e) => {
                return Err(e);
            },
        };
        if selection.pointers.len() > 1 {
            return Err(
                Error::invalid_input(owned("upsert accepts at most one pointer filter")),
            );
        }
        let pointers = match selection.resolved_pointers() {
            Ok(pointers) => pointers,
            Err(e) => {
                return Err(e);
            },
        };
        let pointer: Option<String> = if pointers.len() > 0 {
            assert(texts(pointers@)[0] == pointers@[0]@);
            Some(pointers[0].clone())
        } else {
            None
        };
        Ok(
            UpsertContext {
                drawer_name: selection.drawer_name,
                pointer,
                query: selection.query,
            },
        )
    }

    pub fn drawer_name(&self) -> (r: Option<&str>)
        ensures
            opt_str(r) == self@.drawer,
    {
        match &self.drawer_name {
            Some(name) => Some(name.as_str()),
            None => None,
        }
    }
}

/// The failure of a record that is to go into two drawers.
pub open spec fn two_targets(a: Seq<char>, b: Seq<char>) -> Failure {
    bad_input("conflicting drawer targets '"@ + a + "' and '"@ + b + "'"@)
}

/// The drawer, once another name for it was given.
pub open spec fn drawer_merged(target: Option<Seq<char>>, name: Seq<char>) -> Result<
    Option<Seq<char>>,
    Failure,
> {
    let bare = without_leading(name, '@');
    match target {
        Some(existing) => if existing != bare {
            Err(two_targets(existing, bare))
        } else {
            Ok(target)
        },
        None => Ok(Some(bare)),
    }
}

pub fn merge_drawer_name(target: &mut Option<String>, drawer_name: &str) -> (r: Result<(), Error>)
    ensures
        match (drawer_merged(opt_text(*old(target)), drawer_name@), r) {
            (Ok(t), Ok(())) => opt_text(*final(target)) == t,
            (Err(f), Err(e)) => e@ == f && *final(target) == *old(target),
            _ => false,
        },
{
    let bare = trim_start_char(drawer_name, '@');
    match &*target {
        Some(existing) => {
            if !same(existing.as_str(), bare.as_str()) {
                return Err(
                    Error::invalid_input(
                        concat5(
                            "conflicting drawer targets '",
                            existing.as_str(),
                            "' and '",
                            bare.as_str(),
                            "'",
                        ),
                    ),
                );
            }
        },
        None => {
            *target = Some(bare);
        },
    }
    Ok(())
}

/// The failure of a payload that is no object.
pub open spec fn no_object() -> Failure {
    bad_input("upsert payload entries must be JSON objects"@)
}

/// The failure of a record whose drawer is not known.
pub open spec fn no_target() -> Failure {
    bad_input("upsert requires a drawer filter, drawer-only _id, or full pointer _id"@)
}

/// The drawer and the fields of a record, once the pointer of the context was heard. A record
/// without an identifier gets the key of the pointer.
pub open spec fn pointer_heard(c: ContextModel, fields: Map<Seq<char>, Json>) -> Result<
    (Option<Seq<char>>, Map<Seq<char>, Json>),
    Failure,
> {
    match c.pointer {
        None => Ok((c.drawer, fields)),
        Some(pointer) => match pointer_parts(pointer) {
            None => Err(no_pointer(pointer)),
            Some((drawer, key)) => match drawer_merged(c.drawer, drawer) {
                Err(f) => Err(f),
                Ok(target) => Ok(
                    (
                        target,
                        if fields.dom().contains("_id"@) {
                            fields
                        } else {
                            fields.insert("_id"@, Json::Text(key))
                        },
                    ),
                ),
            },
        },
    }
}

/// The drawer and the fields of a record, once its identifier was heard. One that names a drawer
/// only is taken out.
pub open spec fn id_heard(target: Option<Seq<char>>, fields: Map<Seq<char>, Json>) -> Result<
    (Option<Seq<char>>, Map<Seq<char>, Json>),
    Failure,
> {
    match Json::Object(fields).get_text("_id"@) {
        None => Ok((target, fields)),
        Some(id) => if names_drawer_only(id) {
            match drawer_merged(target, without_leading(id, '@')) {
                Ok(t) => Ok((t, fields.remove("_id"@))),
                Err(f) => Err(f),
            }
        } else {
            match pointer_parts(id) {
                Some((drawer, _)) => match drawer_merged(target, drawer) {
                    Ok(t) => Ok((t, fields)),
                    Err(f) => Err(f),
                },
                None => Ok((target, fields)),
            }
        },
    }
}

/// The drawer that a record goes into, and the record as it goes there.
pub open spec fn record_target(payload: Json, c: ContextModel) -> Result<(Seq<char>, Json), Failure> {
    match payload {
        Json::Object(fields) => match pointer_heard(c, fields) {
            Err(f) => Err(f),
            Ok((target, given)) => match id_heard(target, given) {
                Err(f) => Err(f),
                Ok((Some(drawer), kept)) => Ok((drawer, Json::Object(kept))),
                Ok((None, _)) => Err(no_target()),
            },
        },
        _ => Err(no_object()),
    }
}

pub fn upsert_record_target(payload: JsonValue, context: &UpsertContext) -> (r: Result<
    (String, JsonValue),
    Error,
>)
    ensures
        match (record_target(payload@, context@), r) {
            (Ok((drawer, record)), Ok((name, value))) => name@ == drawer && value@ == record,
            (Err(f), Err(e)) => e@ == f,
            _ => false,
        },
{
    broadcast use group_value;

    let mut fields = match payload {
        JsonValue::Object(fields) => fields,
        _ => {
            return Err(
                Error::invalid_input(owned("upsert payload entries must be JSON objects")),
            );
        },
    };
    let ghost start = json_fields(fields);
    let mut drawer_name = copy_opt(&context.drawer_name);
    match &context.pointer {
        Some(pointer) => {
            let (drawer, key) = match parse_pointer(pointer.as_str()) {
                Ok(parts) => parts,
                Err(e) => {
                    return Err(e);
                },
            };
            match merge_drawer_name(&mut drawer_name, drawer.as_str()) {
                Ok(()) => {},
                Err(e) => {
                    return Err(e);
                },
            }
            if !fields.contains_key("_id") {
                fields.insert(owned("_id"), JsonValue::String(key));
            }
        },
        None => {},
    }
    let ghost given = json_fields(fields);
    assert(pointer_heard(context@, start) == Ok::<_, Failure>((opt_text(drawer_name), given)));
    let id: Option<String> = match fields.get("_id") {
        Some(value) => match value.as_str() {
            Some(id) => Some(owned(id)),
            None => None,
        },
        None => None,
    };
    assert(opt_text(id) == Json::Object(given).get_text("_id"@));
    match id {
        Some(id) => {
            if is_drawer_only(id.as_str()) {
                let bare = trim_start_char(id.as_str(), '@');
                match merge_drawer_name(&mut drawer_name, bare.as_str()) {
                    Ok(()) => {},
                    Err(e) => {
                        return Err(e);
                    },
                }
                fields.remove("_id");
            } else {
                match try_parse_pointer(id.as_str()) {
                    Some((drawer, _)) => {
                        match merge_drawer_name(&mut drawer_name, drawer.as_str()) {
                            Ok(()) => {},
                            Err(e) => {
                                return Err(e);
                            },
                        }
                    },
                    None => {},
                }
            }
        },
        None => {},
    }
    match drawer_name {
        Some(drawer) => Ok((drawer, JsonValue::object(fields))),
        None => Err(
            Error::invalid_input(
                owned("upsert requires a drawer filter, drawer-only _id, or full pointer _id"),
            ),
        ),
    }
}

/// The fields of a record once those of a payload were put over them; the identifier stays.
pub open spec fn fields_over(
    existing: Map<Seq<char>, Json>,
    payload: Map<Seq<char>, Json>,
) -> Map<Seq<char>, Json> {
    Map::new(
        |k: Seq<char>| existing.dom().contains(k) || payload.dom().contains(k) && k != "_id"@,
        |k: Seq<char>|
            if payload.dom().contains(k) && k != "_id"@ {
                payload[k]
            } else {
                existing[k]
            },
    )
}

/// The record once a payload was put over it.
pub open spec fn record_over(existing: Json, payload: Json) -> Result<Json, Failure> {
    match (existing, payload) {
        (Json::Object(old_fields), Json::Object(new_fields)) => Ok(
            Json::Object(fields_over(old_fields, new_fields)),
        ),
        (Json::Object(_), _) => Err(bad_input("query upsert payload must be a JSON object"@)),
        _ => Err(bad_data("matched upsert record was not a JSON object"@)),
    }
}

/// Puts a payload over a record. A record that cannot take it stays as it is.
pub fn merge_payload_into_record(existing_record: &mut JsonValue, payload: &JsonValue) -> (r: Result<
    (),
    Error,
>)
    ensures
        match (record_over(old(existing_record)@, payload@), r) {
            (Ok(record), Ok(())) => final(existing_record)@ == record,
            (Err(f), Err(e)) => e@ == f && final(existing_record)@ == old(existing_record)@,
            _ => false,
        },
{
    broadcast use group_value;

    if !existing_record.is_object() {
        return Err(
            Error::invalid_data(owned("matched upsert record was not a JSON object")),
        );
    }
    let new_fields = match payload {
        JsonValue::Object(fields) => fields,
        _ => {
            return Err(
                Error::invalid_input(owned("query upsert payload must be a JSON object")),
            );
        },
    };
    let ghost before = existing_record@;
    let mut taken = JsonValue::Null;
    std::mem::swap(&mut taken, existing_record);
    let mut fields = match taken {
        JsonValue::Object(fields) => fields,
        _ => TextMap::new(),
    };
    let ghost over = json_fields(*new_fields);
    let ghost under = json_fields(fields);
    let ghost keys = new_fields.keys();
    assert(before == Json::Object(under));
    assert(over.dom() =~= new_fields@.dom());
    let n: usize = new_fields.len();
    let mut i: usize = 0;
    while i < n
        invariant
            over == json_fields(*new_fields),
            over.dom() == new_fields@.dom(),
            keys == new_fields.keys(),
            lists(keys, new_fields@.dom()),
            n == keys.len(),
            i <= n,
            forall|k: Seq<char>| #[trigger]
                json_fields(fields).dom().contains(k) ==> under.dom().contains(k)
                    || over.dom().contains(k) && k != "_id"@,
            forall|k: Seq<char>| #[trigger]
                under.dom().contains(k) ==> json_fields(fields).dom().contains(k),
            forall|k: Seq<char>| #[trigger]
                json_fields(fields).dom().contains(k) ==> json_fields(fields)[k] == under[k]
                    || json_fields(fields)[k] == over[k],
            forall|k: Seq<char>|
                #![trigger json_fields(fields)[k]]
                json_fields(fields).dom().contains(k) && (!over.dom().contains(k) || k == "_id"@)
                    ==> json_fields(fields)[k] == under[k],
            forall|j: int|
                0 <= j < i && #[trigger] keys[j] != "_id"@ ==> json_fields(fields).dom().contains(
                    keys[j],
                ) && json_fields(fields)[keys[j]] == over[keys[j]],
        decreases n - i,
    {
        let key = new_fields.key_at(i);
        let ghost now = json_fields(fields);
        if !same(key.as_str(), "_id") {
            let value = new_fields.value_at(i).clone();
            let ghost model = value@;
            fields.insert(key.clone(), value);
            assert(json_fields(fields) =~= now.insert(key@, model));
            assert(model == over[key@]);
        }
        i += 1;
    }
    proof {
        assert forall|k: Seq<char>| over.dom().contains(k) && k != "_id"@ implies json_fields(
            fields,
        ).dom().contains(k) && json_fields(fields)[k] == over[k] by {
            assert(keys.contains(k));
        }
        assert(json_fields(fields) =~= fields_over(under, over));
    }
    *existing_record = JsonValue::object(fields);
    Ok(())
}

/// What stays of a record that a payload is put over: its identifier, and the fields that the
/// payload does not have.
pub proof fn law_merge_keeps_the_rest(existing: Json, payload: Json, key: Seq<char>)
    requires
        record_over(existing, payload) is Ok,
        key == "_id"@ || payload.get(key) is None,
    ensures
        record_over(existing, payload)->Ok_0.get(key) == existing.get(key),
{
}

/// What a payload puts over a record is read back.
pub proof fn law_merge_takes_the_payload(existing: Json, payload: Json, key: Seq<char>)
    requires
        record_over(existing, payload) is Ok,
        key != "_id"@,
        payload.get(key) is Some,
    ensures
        record_over(existing, payload)->Ok_0.get(key) == payload.get(key),
{
}

} // verus!
