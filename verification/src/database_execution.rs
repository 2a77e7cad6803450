//! Records on their way into and out of a database.
use crate::error::{bad_input, Error, Failure};
use crate::fields::TextMap;
use crate::pointer::{clean_primary_key_token, clean_token, format_pointer, pointer_text};
use crate::text::{owned, same};
use crate::value::{group_value, json_fields, jsons, Json, JsonValue};
use vstd::prelude::*;

pub mod cabinets;
pub mod laws;
pub mod maintenance;

verus! {

/// Whether a text can be a key that was made: 32 hexadecimal digits, with the version and the
/// variant of a random identifier in their places.
pub open spec fn is_made_key(key: Seq<char>) -> bool {
    &&& key.len() == 32
    &&& forall|i: int|
        0 <= i < 32 ==> '0' <= #[trigger] key[i] <= '9' || 'a' <= key[i] <= 'f'
    &&& key[12] == '4'
    &&& key[16] == '8' || key[16] == '9' || key[16] == 'a' || key[16] == 'b'
}

/// `uuid::Uuid::new_v4` makes a random identifier, and `Uuid::simple` shows it as 32 hexadecimal
/// digits in lower case, without hyphens. Its version is 4, and its variant takes the two upper
/// bits of another digit. Which of these identifiers it is depends on chance.
#[verifier::external_body]
fn new_record_key() -> (r: String)
    ensures
        is_made_key(r@),
{
    uuid::Uuid::new_v4().simple().to_string()
}

/// A record that is to be written: its key, the pointer to it, and its fields.
#[derive(Debug, PartialEq, Eq)]
pub struct PreparedRecord {
    pub record_key: String,
    pub pointer: String,
    pub fields: TextMap<JsonValue>,
}

/// The model of a prepared record.
pub struct PreparedModel {
    pub key: Seq<char>,
    pub pointer: Seq<char>,
    pub fields: Map<Seq<char>, Json>,
}

impl View for PreparedRecord {
    type V = PreparedModel;

    open spec fn view(&self) -> PreparedModel {
        PreparedModel {
            key: self.record_key@,
            pointer: self.pointer@,
            fields: json_fields(self.fields),
        }
    }
}

/// The failure of a payload that is no object.
pub open spec fn not_an_object() -> Failure {
    bad_input("Payload root must be a JSON object"@)
}

/// The key of a record: that of its `_id`, or else the one that was made for it.
pub open spec fn record_key(payload: Json, made: Seq<char>) -> Seq<char> {
    match payload.get_text("_id"@) {
        Some(id) => clean_token(id),
        None => made,
    }
}

/// A record of a drawer, as it is prepared.
pub open spec fn prepared(drawer: Seq<char>, payload: Json, made: Seq<char>) -> Result<
    PreparedModel,
    Failure,
> {
    match payload {
        Json::Object(fields) => Ok(
            PreparedModel {
                key: record_key(payload, made),
                pointer: pointer_text(drawer, record_key(payload, made)),
                fields,
            },
        ),
        _ => Err(not_an_object()),
    }
}

/// Prepares a record of a drawer. Where it has no `_id`, its key is the one that was made.
pub fn prepare_record(physical_drawer_name: &str, payload: JsonValue, made_key: String) -> (r: Result<
    PreparedRecord,
    Error,
>)
    ensures
        match (prepared(physical_drawer_name@, payload@, made_key@), r) {
            (Ok(m), Ok(record)) => record@ == m,
            (Err(f), Err(e)) => e@ == f,
            _ => false,
        },
{
    broadcast use group_value;

    let key: Option<String> = match payload.get_str("_id") {
        Some(id) => Some(clean_primary_key_token(id)),
        None => None,
    };
    match payload {
        JsonValue::Object(fields) => {
            let record_key = match key {
                Some(key) => key,
                None => made_key,
            };
            let pointer = format_pointer(physical_drawer_name, record_key.as_str());
            Ok(PreparedRecord { record_key, pointer, fields })
        },
        _ => Err(Error::invalid_input(owned("Payload root must be a JSON object"))),
    }
}

/// Prepares a record of a drawer, with a new key where it has no `_id`.
pub fn prepare_new_record(physical_drawer_name: &str, payload: JsonValue) -> (r: Result<
    PreparedRecord,
    Error,
>)
    ensures
        match r {
            Ok(record) => exists|made: Seq<char>| #[trigger]
                is_made_key(made) && prepared(physical_drawer_name@, payload@, made) == Ok::<
                    PreparedModel,
                    Failure,
                >(record@),
            Err(e) => !(payload@ is Object) && e@ == not_an_object(),
        },
        payload@ is Object ==> r is Ok,
{
    let made_key = new_record_key();
    let ghost made = made_key@;
    assert(is_made_key(made));
    prepare_record(physical_drawer_name, payload, made_key)
}

/// Whether a record is prepared as it should be, with some key that was made.
pub open spec fn is_prepared(drawer: Seq<char>, payload: Json, record: PreparedModel) -> bool {
    exists|made: Seq<char>| #[trigger]
        is_made_key(made) && prepared(drawer, payload, made) == Ok::<PreparedModel, Failure>(
            record,
        )
}

/// Prepares the records of a batch, each with a new key where it has no `_id`. All of them have to
/// be objects.
pub fn prepare_batch(physical_drawer_name: &str, records: Vec<JsonValue>) -> (r: Result<
    Vec<PreparedRecord>,
    Error,
>)
    ensures
        match r {
            Ok(batch) => batch@.len() == records@.len() && forall|i: int|
                0 <= i < batch@.len() ==> is_prepared(
                    physical_drawer_name@,
                    records@[i]@,
                    (#[trigger] batch@[i])@,
                ),
            Err(e) => e@ == not_an_object(),
        },
        r is Ok <==> forall|i: int| 0 <= i < records@.len() ==> (#[trigger] records@[i])@ is Object,
{
    let mut batch: Vec<PreparedRecord> = Vec::new();
    let mut i: usize = 0;
    while i < records.len()
        invariant
            i <= records.len(),
            batch@.len() == i,
            forall|j: int|
                0 <= j < i ==> is_prepared(
                    physical_drawer_name@,
                    records@[j]@,
                    (#[trigger] batch@[j])@,
                ),
            forall|j: int| 0 <= j < i ==> (#[trigger] records@[j])@ is Object,
        decreases records.len() - i,
    {
        match prepare_new_record(physical_drawer_name, records[i].clone()) {
            Ok(record) => {
                assert(records@[i as int]@ is Object);
                batch.push(record);
            },
            Err(e) => {
                assert(!(records@[i as int]@ is Object));
                return Err(e);
            },
        }
        i = i + 1;
    }
    Ok(batch)
}

/// The record that is written: the fields, once nested records were taken out of them, with the
/// key under `_id`.
pub fn full_record(record_key: &str, fields: TextMap<JsonValue>) -> (r: JsonValue)
    ensures
        r@ == Json::Object(json_fields(fields).insert("_id"@, Json::Text(record_key@))),
{
    broadcast use group_value;

    let mut full = fields;
    full.insert(owned("_id"), JsonValue::text(record_key));
    JsonValue::object(full)
}

/// Those of the first `n` records whose field is the pointer.
pub open spec fn children_among(
    records: Seq<Json>,
    mapped_by: Seq<char>,
    parent: Seq<char>,
    n: int,
) -> Seq<Json>
    decreases n,
{
    if n <= 0 {
        Seq::empty()
    } else if records[n - 1].get_text(mapped_by) == Some(parent) {
        children_among(records, mapped_by, parent, n - 1).push(records[n - 1])
    } else {
        children_among(records, mapped_by, parent, n - 1)
    }
}

/// The records that belong to a parent: those whose field is the pointer to it.
pub fn virtual_relationship_children(
    records: Vec<JsonValue>,
    mapped_by: &str,
    parent_pointer: &str,
) -> (r: Vec<JsonValue>)
    ensures
        jsons(r@) == children_among(
            jsons(records@),
            mapped_by@,
            parent_pointer@,
            records@.len() as int,
        ),
{
    let ghost models = jsons(records@);
    let mut kept: Vec<JsonValue> = Vec::new();
    let mut i: usize = 0;
    assert(jsons(kept@) =~= children_among(models, mapped_by@, parent_pointer@, 0));
    while i < records.len()
        invariant
            i <= records.len(),
            models == jsons(records@),
            jsons(kept@) == children_among(models, mapped_by@, parent_pointer@, i as int),
        decreases records.len() - i,
    {
        assert(models[i as int] == records@[i as int]@);
        let belongs = match records[i].get_str(mapped_by) {
            Some(s) => same(s, parent_pointer),
            None => false,
        };
        if belongs {
            let ghost before = jsons(kept@);
            let copy = records[i].clone();
            let ghost c = copy@;
            kept.push(copy);
            assert(jsons(kept@) =~= before.push(c));
        }
        i = i + 1;
    }
    kept
}

/// A record that was asked for by its pointer, without its key.
pub open spec fn without_id(record: Json) -> Json {
    match record {
        Json::Object(fields) => Json::Object(fields.remove("_id"@)),
        other => other,
    }
}

pub fn strip_record_id(record: JsonValue) -> (r: JsonValue)
    ensures
        r@ == without_id(record@),
{
    broadcast use group_value;

    match record {
        JsonValue::Object(fields) => {
            let mut fields = fields;
            let _ = fields.remove("_id");
            JsonValue::object(fields)
        },
        other => other,
    }
}

/// A record that has an `_id` keeps its key, whatever key was made.
pub proof fn law_given_key_is_kept(
    drawer: Seq<char>,
    payload: Json,
    made: Seq<char>,
    other: Seq<char>,
)
    requires
        payload.get_text("_id"@) is Some,
    ensures
        prepared(drawer, payload, made) == prepared(drawer, payload, other),
{
}

} // verus!
