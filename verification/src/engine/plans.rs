//! How the operations on records are carried out: what is read or written, and how the answer
//! is put together.
use crate::command::model::OperationOptions;
use crate::command::results::{PaginatedReadResult, PaginationMetadata, ReadResult};
use crate::engine::selection::{
    no_drawer, pointer_of_record, record_pointer, resolved, OperationSelection,
    ReturnShapeResolution, SelectionModel,
};
use crate::engine::upsert::{
    merge_payload_into_record, record_over, record_target, upsert_record_target, ContextModel,
    UpsertContext,
};
use crate::error::{bad_data, bad_input, Error, Failure};
use crate::fields::TextMap;
use crate::text::{opt_str, owned, texts};
use crate::value::{group_value, jsons, opt_value, Json, JsonValue};
use vstd::prelude::*;

verus! {

/// How an upsert is carried out.
#[derive(Debug, PartialEq, Eq)]
pub enum UpsertPlan {
    /// The records that a query finds are updated.
    ByQuery { drawer_name: String, query: JsonValue },
    /// The records go into one drawer as a batch.
    Bulk { drawer_name: String, records: Vec<JsonValue> },
    /// The records go into their drawers, a batch for each.
    Grouped(TextMap<Vec<JsonValue>>),
    /// One record goes into a drawer.
    Single { drawer_name: String, record: JsonValue },
}

/// The model of an upsert plan.
#[verifier::ext_equal]
pub enum UpsertPlanModel {
    ByQuery { drawer: Seq<char>, query: Json },
    Bulk { drawer: Seq<char>, records: Seq<Json> },
    Grouped(Map<Seq<char>, Seq<Json>>),
    Single { drawer: Seq<char>, record: Json },
}

/// The model of records by drawer.
pub open spec fn groups_model(groups: TextMap<Vec<JsonValue>>) -> Map<Seq<char>, Seq<Json>> {
    Map::new(|k: Seq<char>| groups@.dom().contains(k), |k: Seq<char>| jsons(groups@[k]@))
}

impl View for UpsertPlan {
    type V = UpsertPlanModel;

    open spec fn view(&self) -> UpsertPlanModel {
        match self {
            UpsertPlan::ByQuery { drawer_name, query } => UpsertPlanModel::ByQuery {
                drawer: drawer_name@,
                query: query@,
            },
            UpsertPlan::Bulk { drawer_name, records } => UpsertPlanModel::Bulk {
                drawer: drawer_name@,
                records: jsons(records@),
            },
            UpsertPlan::Grouped(groups) => UpsertPlanModel::Grouped(groups_model(*groups)),
            UpsertPlan::Single { drawer_name, record } => UpsertPlanModel::Single {
                drawer: drawer_name@,
                record: record@,
            },
        }
    }
}

/// The records of a drawer; none where there are none.
pub open spec fn group_at(groups: Map<Seq<char>, Seq<Json>>, drawer: Seq<char>) -> Seq<Json> {
    if groups.dom().contains(drawer) {
        groups[drawer]
    } else {
        Seq::empty()
    }
}

/// The records by drawer, once those from the `i`-th on were put to them.
pub open spec fn grouped_from(
    c: ContextModel,
    records: Seq<Json>,
    groups: Map<Seq<char>, Seq<Json>>,
    i: int,
) -> Result<Map<Seq<char>, Seq<Json>>, Failure>
    decreases records.len() - i,
{
    if i < 0 || i >= records.len() {
        Ok(groups)
    } else {
        match record_target(records[i], c) {
            Err(f) => Err(f),
            Ok((drawer, record)) => grouped_from(
                c,
                records,
                groups.insert(drawer, group_at(groups, drawer).push(record)),
                i + 1,
            ),
        }
    }
}

/// The failure of a query upsert without a drawer.
pub open spec fn query_without_drawer() -> Failure {
    bad_input("query upsert requires a drawer filter"@)
}

/// How an upsert is carried out.
pub open spec fn upsert_plan(payload: Json, c: ContextModel) -> Result<UpsertPlanModel, Failure> {
    match c.query {
        Some(query) => match c.drawer {
            Some(drawer) => Ok(UpsertPlanModel::ByQuery { drawer, query }),
            None => Err(query_without_drawer()),
        },
        None => match payload {
            Json::Array(records) => if c.pointer is None && c.drawer is Some {
                Ok(UpsertPlanModel::Bulk { drawer: c.drawer->0, records })
            } else {
                match grouped_from(c, records, Map::empty(), 0) {
                    Ok(groups) => Ok(UpsertPlanModel::Grouped(groups)),
                    Err(f) => Err(f),
                }
            },
            _ => match record_target(payload, c) {
                Ok((drawer, record)) => Ok(UpsertPlanModel::Single { drawer, record }),
                Err(f) => Err(f),
            },
        },
    }
}

fn group_records(records: &Vec<JsonValue>, context: &UpsertContext) -> (r: Result<
    TextMap<Vec<JsonValue>>,
    Error,
>)
    ensures
        match (grouped_from(context@, jsons(records@), Map::empty(), 0), r) {
            (Ok(groups), Ok(map)) => groups_model(map) == groups,
            (Err(f), Err(e)) => e@ == f,
            _ => false,
        },
{
    let ghost c = context@;
    let ghost all = jsons(records@);
    let mut groups: TextMap<Vec<JsonValue>> = TextMap::new();
    assert(groups_model(groups) =~= Map::empty());
    let mut i: usize = 0;
    while i < records.len()
        invariant
            c == context@,
            all == jsons(records@),
            i <= records@.len(),
            grouped_from(c, all, Map::empty(), 0) == grouped_from(
                c,
                all,
                groups_model(groups),
                i as int,
            ),
        decreases records@.len() - i,
    {
        assert(all[i as int] == records@[i as int]@);
        let ghost before = groups_model(groups);
        let copy = records[i].clone();
        match upsert_record_target(copy, context) {
            Ok((drawer, record)) => {
                let ghost name = drawer@;
                let ghost model = record@;
                let mut batch: Vec<JsonValue> = match groups.remove(drawer.as_str()) {
                    Some(batch) => batch,
                    None => Vec::new(),
                };
                let ghost there = batch@;
                assert(jsons(there) =~= group_at(before, name));
                batch.push(record);
                assert(jsons(batch@) =~= jsons(there).push(model));
                groups.insert(drawer, batch);
                assert(groups_model(groups) =~= before.insert(
                    name,
                    group_at(before, name).push(model),
                ));
            },
            Err(e) => {
                return Err(e);
            },
        }
        i += 1;
    }
    Ok(groups)
}

/// How an upsert is carried out. Records of several drawers are put together by drawer; the
/// drawers stand in the order of their names.
pub fn plan_upsert(payload: JsonValue, context: &UpsertContext) -> (r: Result<UpsertPlan, Error>)
    ensures
        match (upsert_plan(payload@, context@), r) {
            (Ok(p), Ok(plan)) => plan@ == p,
            (Err(f), Err(e)) => e@ == f,
            _ => false,
        },
{
    broadcast use group_value;

    match &context.query {
        Some(query) => {
            return match context.drawer_name() {
                Some(drawer) => Ok(
                    UpsertPlan::ByQuery { drawer_name: owned(drawer), query: query.clone() },
                ),
                None => Err(Error::invalid_input(owned("query upsert requires a drawer filter"))),
            };
        },
        None => {},
    }
    match payload {
        JsonValue::Array(records) => {
            if context.pointer.is_none() {
                match context.drawer_name() {
                    Some(drawer) => {
                        return Ok(UpsertPlan::Bulk { drawer_name: owned(drawer), records });
                    },
                    None => {},
                }
            }
            match group_records(&records, context) {
                Ok(groups) => Ok(UpsertPlan::Grouped(groups)),
                Err(e) => Err(e),
            }
        },
        other => match upsert_record_target(other, context) {
            Ok((drawer_name, record)) => Ok(UpsertPlan::Single { drawer_name, record }),
            Err(e) => Err(e),
        },
    }
}

/// What a query upsert does, once the query was asked.
#[derive(Debug, Clone, Copy, PartialEq, Eq, Structural)]
pub enum QueryUpsert {
    /// Nothing was found, and nothing is created.
    Skip,
    /// Nothing was found, and the payload is written to the drawer.
    Create,
    /// What was found is updated.
    Update,
}

/// The failure of a query upsert that finds several records and may update one.
pub open spec fn many_matches() -> Failure {
    bad_input("query upsert matched multiple records; set multi=true to update all matches"@)
}

/// What a query upsert does that finds `matched` records.
pub open spec fn query_upsert(matched: nat, options: OperationOptions) -> Result<
    QueryUpsert,
    Failure,
> {
    if matched == 0 {
        if options.create_if_missing == Some(false) {
            Ok(QueryUpsert::Skip)
        } else {
            Ok(QueryUpsert::Create)
        }
    } else if matched > 1 && options.multi != Some(true) {
        Err(many_matches())
    } else {
        Ok(QueryUpsert::Update)
    }
}

pub fn decide_query_upsert(matched: usize, options: &OperationOptions) -> (r: Result<
    QueryUpsert,
    Error,
>)
    ensures
        match (query_upsert(matched as nat, *options), r) {
            (Ok(a), Ok(b)) => a == b,
            (Err(f), Err(e)) => e@ == f,
            _ => false,
        },
{
    if matched == 0 {
        let creates = match options.create_if_missing {
            Some(create) => create,
            None => true,
        };
        if creates {
            Ok(QueryUpsert::Create)
        } else {
            Ok(QueryUpsert::Skip)
        }
    } else {
        let multi = match options.multi {
            Some(multi) => multi,
            None => false,
        };
        if matched > 1 && !multi {
            Err(
                Error::invalid_input(
                    owned(
                        "query upsert matched multiple records; set multi=true to update all matches",
                    ),
                ),
            )
        } else {
            Ok(QueryUpsert::Update)
        }
    }
}

/// The record that a query upsert writes in place of one it found, and its pointer.
pub open spec fn query_update(existing: Json, payload: Json, drawer: Seq<char>) -> Result<
    (Json, Seq<char>),
    Failure,
> {
    match record_over(existing, payload) {
        Err(f) => Err(f),
        Ok(record) => match pointer_of_record(record, Some(drawer)) {
            Some(pointer) => Ok((record, pointer)),
            None => Err(bad_data("query upsert match did not include an _id field"@)),
        },
    }
}

pub fn update_match(existing: JsonValue, payload: &JsonValue, drawer_name: &str) -> (r: Result<
    (JsonValue, String),
    Error,
>)
    ensures
        match (query_update(existing@, payload@, drawer_name@), r) {
            (Ok((record, pointer)), Ok((value, text))) => value@ == record && text@ == pointer,
            (Err(f), Err(e)) => e@ == f,
            _ => false,
        },
{
    let mut record = existing;
    match merge_payload_into_record(&mut record, payload) {
        Ok(()) => {},
        Err(e) => {
            return Err(e);
        },
    }
    match record_pointer(&record, Some(drawer_name)) {
        Some(pointer) => Ok((record, pointer)),
        None => Err(
            Error::invalid_data(owned("query upsert match did not include an _id field")),
        ),
    }
}

/// What a read reads.
#[derive(Debug, PartialEq, Eq)]
pub enum ReadPlan {
    /// The records at pointers.
    Pointers(Vec<String>),
    /// The records that a query finds.
    Query { drawer_name: String, query: JsonValue },
    /// Every record of a drawer.
    All { drawer_name: String },
}

/// The model of a read plan.
pub enum ReadPlanModel {
    Pointers(Seq<Seq<char>>),
    Query { drawer: Seq<char>, query: Json },
    All { drawer: Seq<char> },
}

impl View for ReadPlan {
    type V = ReadPlanModel;

    open spec fn view(&self) -> ReadPlanModel {
        match self {
            ReadPlan::Pointers(pointers) => ReadPlanModel::Pointers(texts(pointers@)),
            ReadPlan::Query { drawer_name, query } => ReadPlanModel::Query {
                drawer: drawer_name@,
                query: query@,
            },
            ReadPlan::All { drawer_name } => ReadPlanModel::All { drawer: drawer_name@ },
        }
    }
}

/// What a read reads.
pub open spec fn read_plan(s: SelectionModel) -> Result<ReadPlanModel, Failure> {
    if s.pointers.len() > 0 {
        match resolved(s) {
            Ok(pointers) => Ok(ReadPlanModel::Pointers(pointers)),
            Err(f) => Err(f),
        }
    } else {
        match (s.drawer, s.query) {
            (None, _) => Err(no_drawer("read"@)),
            (Some(drawer), Some(query)) => Ok(ReadPlanModel::Query { drawer, query }),
            (Some(drawer), None) => Ok(ReadPlanModel::All { drawer }),
        }
    }
}

pub fn plan_read(selection: &OperationSelection) -> (r: Result<ReadPlan, Error>)
    ensures
        match (read_plan(selection@), r) {
            (Ok(p), Ok(plan)) => plan@ == p,
            (Err(f), Err(e)) => e@ == f,
            _ => false,
        },
{
    if selection.pointers.len() > 0 {
        return match selection.resolved_pointers() {
            Ok(pointers) => Ok(ReadPlan::Pointers(pointers)),
            Err(e) => Err(e),
        };
    }
    let drawer_name = match selection.required_drawer("read") {
        Ok(name) => name,
        Err(e) => {
            return Err(e);
        },
    };
    match &selection.query {
        Some(query) => Ok(ReadPlan::Query { drawer_name, query: query.clone() }),
        None => Ok(ReadPlan::All { drawer_name }),
    }
}

/// What a count counts.
#[derive(Debug, PartialEq, Eq)]
pub enum CountPlan {
    /// The records at pointers.
    Pointers(Vec<String>),
    /// The records of a drawer, or those that a query finds in it.
    Drawer { drawer_name: String, query: Option<JsonValue> },
}

/// The model of a count plan.
pub enum CountPlanModel {
    Pointers(Seq<Seq<char>>),
    Drawer { drawer: Seq<char>, query: Option<Json> },
}

impl View for CountPlan {
    type V = CountPlanModel;

    open spec fn view(&self) -> CountPlanModel {
        match self {
            CountPlan::Pointers(pointers) => CountPlanModel::Pointers(texts(pointers@)),
            CountPlan::Drawer { drawer_name, query } => CountPlanModel::Drawer {
                drawer: drawer_name@,
                query: opt_value(*query),
            },
        }
    }
}

/// What a count counts.
pub open spec fn count_plan(s: SelectionModel) -> Result<CountPlanModel, Failure> {
    if s.pointers.len() > 0 {
        match resolved(s) {
            Ok(pointers) => Ok(CountPlanModel::Pointers(pointers)),
            Err(f) => Err(f),
        }
    } else {
        match s.drawer {
            None => Err(no_drawer("count"@)),
            Some(drawer) => Ok(CountPlanModel::Drawer { drawer, query: s.query }),
        }
    }
}

pub fn plan_count(selection: OperationSelection) -> (r: Result<CountPlan, Error>)
    ensures
        match (count_plan(selection@), r) {
            (Ok(p), Ok(plan)) => plan@ == p,
            (Err(f), Err(e)) => e@ == f,
            _ => false,
        },
{
    if selection.pointers.len() > 0 {
        return match selection.resolved_pointers() {
            Ok(pointers) => Ok(CountPlan::Pointers(pointers)),
            Err(e) => Err(e),
        };
    }
    match selection.required_drawer("count") {
        Ok(drawer_name) => Ok(CountPlan::Drawer { drawer_name, query: selection.query }),
        Err(e) => Err(e),
    }
}

/// What a delete deletes.
#[derive(Debug, PartialEq, Eq)]
pub enum DeletePlan {
    /// The records at pointers.
    Pointers(Vec<String>),
    /// The records that a query finds.
    Query { drawer_name: String, query: JsonValue },
}

/// The model of a delete plan.
pub enum DeletePlanModel {
    Pointers(Seq<Seq<char>>),
    Query { drawer: Seq<char>, query: Json },
}

impl View for DeletePlan {
    type V = DeletePlanModel;

    open spec fn view(&self) -> DeletePlanModel {
        match self {
            DeletePlan::Pointers(pointers) => DeletePlanModel::Pointers(texts(pointers@)),
            DeletePlan::Query { drawer_name, query } => DeletePlanModel::Query {
                drawer: drawer_name@,
                query: query@,
            },
        }
    }
}

/// The failure of a delete that names no records.
pub open spec fn deletes_nothing() -> Failure {
    bad_input("delete requires a record pointer or a drawer query filter"@)
}

/// What a delete deletes.
pub open spec fn delete_plan(s: SelectionModel) -> Result<DeletePlanModel, Failure> {
    if s.pointers.len() > 0 {
        match resolved(s) {
            Ok(pointers) => Ok(DeletePlanModel::Pointers(pointers)),
            Err(f) => Err(f),
        }
    } else {
        match (s.drawer, s.query) {
            (None, _) => Err(no_drawer("delete-by-filter"@)),
            (Some(_), None) => Err(deletes_nothing()),
            (Some(drawer), Some(query)) => Ok(DeletePlanModel::Query { drawer, query }),
        }
    }
}

pub fn plan_delete(selection: OperationSelection) -> (r: Result<DeletePlan, Error>)
    ensures
        match (delete_plan(selection@), r) {
            (Ok(p), Ok(plan)) => plan@ == p,
            (Err(f), Err(e)) => e@ == f,
            _ => false,
        },
{
    if selection.pointers.len() > 0 {
        return match selection.resolved_pointers() {
            Ok(pointers) => Ok(DeletePlan::Pointers(pointers)),
            Err(e) => Err(e),
        };
    }
    let drawer_name = match selection.required_drawer("delete-by-filter") {
        Ok(name) => name,
        Err(e) => {
            return Err(e);
        },
    };
    match selection.query {
        Some(query) => Ok(DeletePlan::Query { drawer_name, query }),
        None => Err(
            Error::invalid_input(
                owned("delete requires a record pointer or a drawer query filter"),
            ),
        ),
    }
}

/// A selection of nothing deletes nothing: without a pointer and a query a delete is refused.
pub proof fn law_delete_needs_records(s: SelectionModel)
    requires
        s.pointers.len() == 0,
        s.query is None,
    ensures
        delete_plan(s) is Err,
{
}

/// Whether the records of a read are filled in with those they point to.
pub open spec fn fills_in(hydrate: bool, s: SelectionModel, shape: ReturnShapeResolution) -> bool {
    &&& hydrate
    &&& s.pointers.len() == 0
    &&& shape == ReturnShapeResolution::Record || shape == ReturnShapeResolution::Records
}

pub fn hydrates_records(
    options: &OperationOptions,
    selection: &OperationSelection,
    shape: ReturnShapeResolution,
) -> (r: bool)
    ensures
        r == fills_in(options.hydrate != Some(false), selection@, shape),
{
    let hydrate = match options.hydrate {
        Some(hydrate) => hydrate,
        None => true,
    };
    let whole = match shape {
        ReturnShapeResolution::Record => true,
        ReturnShapeResolution::Records => true,
        _ => false,
    };
    hydrate && selection.pointers.len() == 0 && whole
}

/// The pointers of the first `n` records; those without one are left out.
pub open spec fn record_pointers(records: Seq<Json>, drawer: Option<Seq<char>>, n: int) -> Seq<
    Seq<char>,
>
    decreases n,
{
    if n <= 0 {
        Seq::empty()
    } else {
        let before = record_pointers(records, drawer, n - 1);
        match pointer_of_record(records[n - 1], drawer) {
            Some(pointer) => before.push(pointer),
            None => before,
        }
    }
}

/// The failure of pages of something else than records.
pub open spec fn pages_of_records() -> Failure {
    bad_input("cursor and page pagination require the records return shape"@)
}

/// Whether a read is answered with these records, these pages, and this shape.
pub open spec fn answers(
    result: ReadResult,
    records: Seq<JsonValue>,
    pagination: Option<PaginationMetadata>,
    shape: ReturnShapeResolution,
    drawer: Option<Seq<char>>,
) -> bool {
    match shape {
        ReturnShapeResolution::Record => result matches ReadResult::Record(record) && record == (
        if records.len() > 0 {
            Some(records[0])
        } else {
            None
        }),
        ReturnShapeResolution::Records => match pagination {
            Some(p) => result matches ReadResult::Page(page) && page.records@ == records
                && page.pagination == p,
            None => result matches ReadResult::Records(all) && all@ == records,
        },
        ReturnShapeResolution::Pointers => result matches ReadResult::Pointers(pointers) && texts(
            pointers@,
        ) == record_pointers(jsons(records), drawer, records.len() as int),
        ReturnShapeResolution::Exists => result matches ReadResult::Exists(exists) && exists == (
        records.len() > 0),
    }
}

/// The answer to a read. Pages are given of records only.
pub fn shape_read(
    records: Vec<JsonValue>,
    pagination: Option<PaginationMetadata>,
    shape: ReturnShapeResolution,
    drawer_name: Option<&str>,
) -> (r: Result<ReadResult, Error>)
    ensures
        match r {
            Ok(result) => (pagination is None || shape == ReturnShapeResolution::Records)
                && answers(result, records@, pagination, shape, opt_str(drawer_name)),
            Err(e) => pagination is Some && shape != ReturnShapeResolution::Records && e@
                == pages_of_records(),
        },
{
    let listed = match shape {
        ReturnShapeResolution::Records => true,
        _ => false,
    };
    if pagination.is_some() && !listed {
        return Err(
            Error::invalid_input(
                owned("cursor and page pagination require the records return shape"),
            ),
        );
    }
    match shape {
        ReturnShapeResolution::Record => {
            let mut all = records;
            if all.len() > 0 {
                let first = all.remove(0);
                Ok(ReadResult::Record(Some(first)))
            } else {
                Ok(ReadResult::Record(None))
            }
        },
        ReturnShapeResolution::Records => match pagination {
            Some(pagination) => Ok(
                ReadResult::Page(PaginatedReadResult { records, pagination }),
            ),
            None => Ok(ReadResult::Records(records)),
        },
        ReturnShapeResolution::Pointers => {
            let ghost all = jsons(records@);
            let ghost drawer = opt_str(drawer_name);
            let mut pointers: Vec<String> = Vec::new();
            let mut i: usize = 0;
            assert(texts(pointers@) =~= Seq::empty());
            while i < records.len()
                invariant
                    all == jsons(records@),
                    drawer == opt_str(drawer_name),
                    i <= records@.len(),
                    texts(pointers@) == record_pointers(all, drawer, i as int),
                decreases records@.len() - i,
            {
                let ghost before = pointers@;
                assert(all[i as int] == records@[i as int]@);
                match record_pointer(&records[i], drawer_name) {
                    Some(pointer) => {
                        let ghost text = pointer@;
                        pointers.push(pointer);
                        assert(texts(pointers@) =~= texts(before).push(text));
                    },
                    None => {},
                }
                i += 1;
            }
            Ok(ReadResult::Pointers(pointers))
        },
        ReturnShapeResolution::Exists => Ok(ReadResult::Exists(records.len() > 0)),
    }
}

} // verus!
