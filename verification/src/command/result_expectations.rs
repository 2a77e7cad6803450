//! Taking the result that a command must have out of the one it has.
use crate::command::results::{
    BackupArchive, CommandResult, CreateResult, DeleteResult, InspectResult, PaginationMetadata,
    ReadResult, RestoreReport, UpsertResult,
};
use crate::drawer::vacuum::VacuumReport;
use crate::error::{bad_data, Error, Failure};
use crate::storage::json_text::{is_integral, value_document};
use crate::text::{concat3, concat4, concat5, owned};
use crate::value::{held, Json, JsonValue};
use serde_json::Value;
use vstd::prelude::*;

verus! {

/// The failure of a command that has another result than it must have.
pub open spec fn unexpected(expected: Seq<char>, actual: CommandResult) -> Failure {
    bad_data(
        "Wardrobe protocol returned an unexpected result; expected "@ + expected + ", got "@
            + shown(actual),
    )
}

/// How `{:?}` shows a `serde_json::Value` to people.
pub uninterp spec fn document_shown(value: Json) -> Seq<char>;

/// `format!` with `{:?}` shows a `serde_json::Value` to people. The text depends on what the
/// value holds alone; how it reads is not said.
#[verifier::external_body]
fn shown_document(document: &Value) -> (r: String)
    ensures
        r@ == document_shown(held(*document)),
{
    format!("{:?}", document)
}

/// How `{:?}` shows a value to people as this library holds it.
pub uninterp spec fn value_shown(value: JsonValue) -> Seq<char>;

/// `format!` with `{:?}` shows a value to people as this library holds it, with the bits of its
/// double-precision numbers. The text depends on the value alone; how it reads is not said.
#[verifier::external_body]
fn shown_value(value: &JsonValue) -> (r: String)
    ensures
        r@ == value_shown(*value),
{
    format!("{:?}", value)
}

/// How `{:?}` shows a result to people that holds no JSON values.
pub uninterp spec fn plain_shown(result: CommandResult) -> Seq<char>;

/// `format!` with `{:?}` shows a result to people. The text depends on the result alone; how it
/// reads is not said.
#[verifier::external_body]
fn shown_plain(actual: &CommandResult) -> (r: String)
    ensures
        r@ == plain_shown(*actual),
{
    format!("{:?}", actual)
}

/// How `{:?}` shows to people where a page stands.
pub uninterp spec fn pagination_shown(pagination: PaginationMetadata) -> Seq<char>;

/// `format!` with `{:?}` shows to people where a page stands. The text depends on that alone; how
/// it reads is not said.
#[verifier::external_body]
fn shown_pagination(pagination: &PaginationMetadata) -> (r: String)
    ensures
        r@ == pagination_shown(*pagination),
{
    format!("{:?}", pagination)
}

/// How a JSON value is shown: as `serde_json` shows it. One with double-precision numbers is
/// shown as this library holds it.
pub open spec fn json_shown(value: JsonValue) -> Seq<char> {
    if value.integral() {
        document_shown(value@)
    } else {
        value_shown(value)
    }
}

fn show_json(value: &JsonValue) -> (r: String)
    ensures
        r@ == json_shown(*value),
{
    if is_integral(value) {
        shown_document(&value_document(value))
    } else {
        shown_value(value)
    }
}

/// How the first `n` values of a list are shown: with a comma and a space between them.
pub open spec fn items_shown(values: Seq<JsonValue>, n: int) -> Seq<char>
    decreases n,
{
    if n <= 0 {
        Seq::empty()
    } else if n == 1 {
        json_shown(values[0])
    } else {
        items_shown(values, n - 1) + ", "@ + json_shown(values[n - 1])
    }
}

/// How a list of values is shown: in square brackets.
pub open spec fn list_shown(values: Seq<JsonValue>) -> Seq<char> {
    "["@ + items_shown(values, values.len() as int) + "]"@
}

fn show_list(values: &Vec<JsonValue>) -> (r: String)
    ensures
        r@ == list_shown(values@),
{
    let mut items: String = owned("");
    let mut i: usize = 0;
    proof {
        reveal_strlit("");
        assert(items@ =~= Seq::empty());
    }
    while i < values.len()
        invariant
            i <= values@.len(),
            items@ == items_shown(values@, i as int),
        decreases values@.len() - i,
    {
        let text = show_json(&values[i]);
        if i == 0 {
            items = text;
        } else {
            items = concat3(items.as_str(), ", ", text.as_str());
        }
        i = i + 1;
    }
    concat3("[", items.as_str(), "]")
}

/// How a value that may be absent is shown.
pub open spec fn option_shown(value: Option<JsonValue>) -> Seq<char> {
    match value {
        Some(value) => "Some("@ + json_shown(value) + ")"@,
        None => "None"@,
    }
}

fn show_option(value: &Option<JsonValue>) -> (r: String)
    ensures
        r@ == option_shown(*value),
{
    match value {
        Some(value) => {
            let text = show_json(value);
            concat3("Some(", text.as_str(), ")")
        },
        None => owned("None"),
    }
}

/// How a result is shown to people: its variants and fields by their names, and its JSON values
/// as they are shown by themselves.
pub open spec fn shown(result: CommandResult) -> Seq<char> {
    match result {
        CommandResult::Read(ReadResult::Records(records)) => "Read(Records("@ + list_shown(records@)
            + "))"@,
        CommandResult::Read(ReadResult::Record(record)) => "Read(Record("@ + option_shown(record)
            + "))"@,
        CommandResult::Read(ReadResult::Page(page)) =>
            "Read(Page(PaginatedReadResult { records: "@ + list_shown(page.records@)
            + ", pagination: "@ + pagination_shown(page.pagination) + " }))"@,
        CommandResult::Inspect(InspectResult::Record(record)) => "Inspect(Record("@ + option_shown(
            record,
        ) + "))"@,
        CommandResult::Inspect(InspectResult::Query(records)) => "Inspect(Query("@ + list_shown(
            records@,
        ) + "))"@,
        CommandResult::Create(CreateResult::Admin(value)) => "Create(Admin("@ + json_shown(value)
            + "))"@,
        CommandResult::Alter(value) => "Alter("@ + json_shown(value) + ")"@,
        CommandResult::Drop(value) => "Drop("@ + json_shown(value) + ")"@,
        CommandResult::Grant(value) => "Grant("@ + json_shown(value) + ")"@,
        CommandResult::Revoke(value) => "Revoke("@ + json_shown(value) + ")"@,
        CommandResult::Status(value) => "Status("@ + json_shown(value) + ")"@,
        _ => plain_shown(result),
    }
}

fn show_result(result: &CommandResult) -> (r: String)
    ensures
        r@ == shown(*result),
{
    match result {
        CommandResult::Read(ReadResult::Records(records)) => concat3(
            "Read(Records(",
            show_list(records).as_str(),
            "))",
        ),
        CommandResult::Read(ReadResult::Record(record)) => concat3(
            "Read(Record(",
            show_option(record).as_str(),
            "))",
        ),
        CommandResult::Read(ReadResult::Page(page)) => concat5(
            "Read(Page(PaginatedReadResult { records: ",
            show_list(&page.records).as_str(),
            ", pagination: ",
            shown_pagination(&page.pagination).as_str(),
            " }))",
        ),
        CommandResult::Inspect(InspectResult::Record(record)) => concat3(
            "Inspect(Record(",
            show_option(record).as_str(),
            "))",
        ),
        CommandResult::Inspect(InspectResult::Query(records)) => concat3(
            "Inspect(Query(",
            show_list(records).as_str(),
            "))",
        ),
        CommandResult::Create(CreateResult::Admin(value)) => concat3(
            "Create(Admin(",
            show_json(value).as_str(),
            "))",
        ),
        CommandResult::Alter(value) => concat3("Alter(", show_json(value).as_str(), ")"),
        CommandResult::Drop(value) => concat3("Drop(", show_json(value).as_str(), ")"),
        CommandResult::Grant(value) => concat3("Grant(", show_json(value).as_str(), ")"),
        CommandResult::Revoke(value) => concat3("Revoke(", show_json(value).as_str(), ")"),
        CommandResult::Status(value) => concat3("Status(", show_json(value).as_str(), ")"),
        _ => shown_plain(result),
    }
}

/// The failure of a command that has another result than it must have.
pub fn unexpected_result<T>(expected: &str, actual: CommandResult) -> (r: Result<T, Error>)
    ensures
        r matches Err(e) && e@ == unexpected(expected@, actual),
{
    let text = show_result(&actual);
    let e = Error::invalid_data(
        concat4(
            "Wardrobe protocol returned an unexpected result; expected ",
            expected,
            ", got ",
            text.as_str(),
        ),
    );
    Err(e)
}

pub fn upsert(result: CommandResult) -> (r: Result<UpsertResult, Error>)
    ensures
        match (result, r) {
            (CommandResult::Upsert(held), Ok(taken)) => taken == held,
            (CommandResult::Upsert(_), Err(_)) => false,
            (_, Ok(_)) => false,
            (_, Err(e)) => e@ == unexpected("upsert result"@, result),
        },
{
    match result {
        CommandResult::Upsert(held) => Ok(held),
        other => unexpected_result("upsert result", other),
    }
}

pub fn read(result: CommandResult) -> (r: Result<ReadResult, Error>)
    ensures
        match (result, r) {
            (CommandResult::Read(held), Ok(taken)) => taken == held,
            (CommandResult::Read(_), Err(_)) => false,
            (_, Ok(_)) => false,
            (_, Err(e)) => e@ == unexpected("read result"@, result),
        },
{
    match result {
        CommandResult::Read(held) => Ok(held),
        other => unexpected_result("read result", other),
    }
}

pub fn delete(result: CommandResult) -> (r: Result<DeleteResult, Error>)
    ensures
        match (result, r) {
            (CommandResult::Delete(held), Ok(taken)) => taken == held,
            (CommandResult::Delete(_), Err(_)) => false,
            (_, Ok(_)) => false,
            (_, Err(e)) => e@ == unexpected("delete result"@, result),
        },
{
    match result {
        CommandResult::Delete(held) => Ok(held),
        other => unexpected_result("delete result", other),
    }
}

pub fn inspect(result: CommandResult) -> (r: Result<InspectResult, Error>)
    ensures
        match (result, r) {
            (CommandResult::Inspect(held), Ok(taken)) => taken == held,
            (CommandResult::Inspect(_), Err(_)) => false,
            (_, Ok(_)) => false,
            (_, Err(e)) => e@ == unexpected("inspect result"@, result),
        },
{
    match result {
        CommandResult::Inspect(held) => Ok(held),
        other => unexpected_result("inspect result", other),
    }
}

pub fn compact(result: CommandResult) -> (r: Result<VacuumReport, Error>)
    ensures
        match (result, r) {
            (CommandResult::Compact(held), Ok(taken)) => taken == held,
            (CommandResult::Compact(_), Err(_)) => false,
            (_, Ok(_)) => false,
            (_, Err(e)) => e@ == unexpected("compact result"@, result),
        },
{
    match result {
        CommandResult::Compact(held) => Ok(held),
        other => unexpected_result("compact result", other),
    }
}

pub fn create(result: CommandResult) -> (r: Result<CreateResult, Error>)
    ensures
        match (result, r) {
            (CommandResult::Create(held), Ok(taken)) => taken == held,
            (CommandResult::Create(_), Err(_)) => false,
            (_, Ok(_)) => false,
            (_, Err(e)) => e@ == unexpected("create result"@, result),
        },
{
    match result {
        CommandResult::Create(held) => Ok(held),
        other => unexpected_result("create result", other),
    }
}

pub fn status(result: CommandResult) -> (r: Result<JsonValue, Error>)
    ensures
        match (result, r) {
            (CommandResult::Status(held), Ok(taken)) => taken == held,
            (CommandResult::Status(_), Err(_)) => false,
            (_, Ok(_)) => false,
            (_, Err(e)) => e@ == unexpected("status result"@, result),
        },
{
    match result {
        CommandResult::Status(held) => Ok(held),
        other => unexpected_result("status result", other),
    }
}

pub fn count(result: CommandResult) -> (r: Result<usize, Error>)
    ensures
        match (result, r) {
            (CommandResult::Count(held), Ok(taken)) => taken == held,
            (CommandResult::Count(_), Err(_)) => false,
            (_, Ok(_)) => false,
            (_, Err(e)) => e@ == unexpected("count"@, result),
        },
{
    match result {
        CommandResult::Count(held) => Ok(held),
        other => unexpected_result("count", other),
    }
}

pub fn backup(result: CommandResult) -> (r: Result<BackupArchive, Error>)
    ensures
        match (result, r) {
            (CommandResult::Backup(held), Ok(taken)) => taken == held,
            (CommandResult::Backup(_), Err(_)) => false,
            (_, Ok(_)) => false,
            (_, Err(e)) => e@ == unexpected("backup archive"@, result),
        },
{
    match result {
        CommandResult::Backup(held) => Ok(held),
        other => unexpected_result("backup archive", other),
    }
}

pub fn restored(result: CommandResult) -> (r: Result<RestoreReport, Error>)
    ensures
        match (result, r) {
            (CommandResult::Restore(held), Ok(taken)) => taken == held,
            (CommandResult::Restore(_), Err(_)) => false,
            (_, Ok(_)) => false,
            (_, Err(e)) => e@ == unexpected("restore report"@, result),
        },
{
    match result {
        CommandResult::Restore(held) => Ok(held),
        other => unexpected_result("restore report", other),
    }
}

/// The answer to a command that administers the database.
pub open spec fn admin_payload(result: CommandResult) -> Option<JsonValue> {
    match result {
        CommandResult::Create(CreateResult::Admin(payload)) => Some(payload),
        CommandResult::Alter(payload) => Some(payload),
        CommandResult::Drop(payload) => Some(payload),
        CommandResult::Grant(payload) => Some(payload),
        CommandResult::Revoke(payload) => Some(payload),
        _ => None,
    }
}

pub fn admin(result: CommandResult) -> (r: Result<JsonValue, Error>)
    ensures
        match (admin_payload(result), r) {
            (Some(payload), Ok(taken)) => taken == payload,
            (None, Err(e)) => e@ == unexpected("admin response"@, result),
            _ => false,
        },
{
    match result {
        CommandResult::Create(CreateResult::Admin(payload)) => Ok(payload),
        CommandResult::Alter(payload) => Ok(payload),
        CommandResult::Drop(payload) => Ok(payload),
        CommandResult::Grant(payload) => Ok(payload),
        CommandResult::Revoke(payload) => Ok(payload),
        other => unexpected_result("admin response", other),
    }
}

} // verus!
