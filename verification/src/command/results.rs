//! What the commands are answered with.
use crate::drawer::vacuum::VacuumReport;
use crate::fields::TextMap;
use crate::storage::types::{StorageInventory, WalVerification};
use crate::text::{decimal, decimal_text, owned, same, texts};
use crate::value::{group_value, jsons, Json, JsonValue, Number};
use vstd::prelude::*;
use vstd::std_specs::cmp::PartialEqSpecImpl;
use vstd::std_specs::convert::FromSpecImpl;

verus! {

/// What was found in a drawer. The share of tombstones is given by the bits of a
/// double-precision number.
#[derive(Debug, PartialEq, Eq)]
pub struct DrawerInspectionMetrics {
    pub path: String,
    pub data_bytes: u64,
    pub index_bytes: u64,
    pub meta_bytes: u64,
    pub total_bytes: u64,
    pub record_count: usize,
    pub register_file_count: usize,
    pub tombstone_fragmentation_percent: Option<u64>,
}

#[derive(Debug, PartialEq, Eq)]
pub struct CheckEntry {
    pub label: String,
    pub path: String,
    pub exists: bool,
    pub bytes: Option<u64>,
}

/// What was found at a path.
#[derive(Debug, PartialEq, Eq)]
pub struct CheckReport {
    pub path: String,
    pub kind: String,
    pub entries: Vec<CheckEntry>,
}

/// What was found in the whole storage.
#[derive(Debug, PartialEq, Eq)]
pub struct StorageDiagnosis {
    pub storage_directory: String,
    pub storage_bytes: u64,
    pub data_bytes: u64,
    pub index_bytes: u64,
    pub metadata_bytes: u64,
    pub logical_wal_bytes: u64,
    pub transaction_wal_bytes: u64,
    pub other_bytes: u64,
    pub drawer_count: usize,
    pub status: String,
    pub drawers: Vec<String>,
}

#[derive(Debug, PartialEq, Eq)]
pub struct BackupArchiveFile {
    pub path: String,
    pub bytes_hex: String,
}

/// The files of a part of the storage.
#[derive(Debug, PartialEq, Eq)]
pub struct BackupArchive {
    pub format: String,
    pub source_path: String,
    pub scope: String,
    pub files: Vec<BackupArchiveFile>,
}

#[derive(Debug, PartialEq, Eq)]
pub struct RestoreReport {
    pub destination_path: String,
    pub scope: String,
    pub file_count: usize,
    pub byte_count: usize,
}

/// The records that were written.
#[derive(Debug, PartialEq, Eq)]
pub enum UpsertResult {
    Pointers(Vec<String>),
}

impl UpsertResult {
    pub fn pointers(&self) -> (r: &[String])
        ensures
            *self matches UpsertResult::Pointers(pointers) && r@ == pointers@,
    {
        match self {
            UpsertResult::Pointers(pointers) => pointers.as_slice(),
        }
    }

    pub fn into_pointers(self) -> (r: Vec<String>)
        ensures
            self == UpsertResult::Pointers(r),
    {
        match self {
            UpsertResult::Pointers(pointers) => pointers,
        }
    }
}

impl std::ops::Deref for UpsertResult {
    type Target = [String];

    fn deref(&self) -> (r: &[String])
        ensures
            *self matches UpsertResult::Pointers(pointers) && r@ == pointers@,
    {
        self.pointers()
    }
}

impl Clone for UpsertResult {
    fn clone(&self) -> (r: Self)
        ensures
            texts(r->Pointers_0@) == texts(self->Pointers_0@),
    {
        match self {
            UpsertResult::Pointers(pointers) => UpsertResult::Pointers(
                crate::text::copy_strings(pointers),
            ),
        }
    }
}

/// How many records were deleted.
#[derive(Debug, Clone, Copy, PartialEq, Eq, Structural)]
pub struct DeleteResult {
    pub deleted: usize,
}

impl DeleteResult {
    pub fn to_string(&self) -> (r: String)
        ensures
            r@ == decimal(self.deleted as nat),
    {
        decimal_text(self.deleted as u64)
    }
}

impl FromSpecImpl<DeleteResult> for usize {
    open spec fn obeys_from_spec() -> bool {
        true
    }

    open spec fn from_spec(v: DeleteResult) -> usize {
        v.deleted
    }
}

impl From<DeleteResult> for usize {
    fn from(result: DeleteResult) -> (r: usize) {
        result.deleted
    }
}

impl PartialEqSpecImpl<usize> for DeleteResult {
    open spec fn obeys_eq_spec() -> bool {
        true
    }

    open spec fn eq_spec(&self, other: &usize) -> bool {
        self.deleted == *other
    }
}

impl PartialEq<usize> for DeleteResult {
    fn eq(&self, other: &usize) -> (r: bool) {
        self.deleted == *other
    }
}

impl PartialEqSpecImpl<DeleteResult> for usize {
    open spec fn obeys_eq_spec() -> bool {
        true
    }

    open spec fn eq_spec(&self, other: &DeleteResult) -> bool {
        *self == other.deleted
    }
}

impl PartialEq<DeleteResult> for usize {
    fn eq(&self, other: &DeleteResult) -> (r: bool) {
        *self == other.deleted
    }
}

/// Whether two lists of texts are the same.
fn same_texts(a: &Vec<String>, b: &Vec<String>) -> (r: bool)
    ensures
        r == (texts(a@) == texts(b@)),
{
    if a.len() != b.len() {
        assert(texts(a@).len() != texts(b@).len());
        return false;
    }
    let mut i: usize = 0;
    while i < a.len()
        invariant
            a@.len() == b@.len(),
            i <= a@.len(),
            forall|k: int| 0 <= k < i ==> (#[trigger] a@[k])@ == b@[k]@,
        decreases a@.len() - i,
    {
        if !same(a[i].as_str(), b[i].as_str()) {
            assert(texts(a@)[i as int] != texts(b@)[i as int]);
            return false;
        }
        i += 1;
    }
    assert(texts(a@) =~= texts(b@));
    true
}

impl PartialEqSpecImpl<Vec<String>> for UpsertResult {
    open spec fn obeys_eq_spec() -> bool {
        true
    }

    open spec fn eq_spec(&self, other: &Vec<String>) -> bool {
        texts(self->Pointers_0@) == texts(other@)
    }
}

impl PartialEq<Vec<String>> for UpsertResult {
    fn eq(&self, other: &Vec<String>) -> (r: bool) {
        match self {
            UpsertResult::Pointers(pointers) => same_texts(pointers, other),
        }
    }
}

impl PartialEqSpecImpl<UpsertResult> for Vec<String> {
    open spec fn obeys_eq_spec() -> bool {
        true
    }

    open spec fn eq_spec(&self, other: &UpsertResult) -> bool {
        texts(self@) == texts(other->Pointers_0@)
    }
}

impl PartialEq<UpsertResult> for Vec<String> {
    fn eq(&self, other: &UpsertResult) -> (r: bool) {
        match other {
            UpsertResult::Pointers(pointers) => same_texts(self, pointers),
        }
    }
}

#[derive(Debug, PartialEq, Eq)]
pub enum InspectResult {
    Drawer(DrawerInspectionMetrics),
    Record(Option<JsonValue>),
    Query(Vec<JsonValue>),
    Storage(StorageDiagnosis),
    Path(CheckReport),
}

/// Where a page stands among the records.
#[derive(Debug, PartialEq, Eq)]
pub struct PaginationMetadata {
    pub next_cursor: Option<String>,
    pub has_more: bool,
    pub page: Option<usize>,
    pub page_size: usize,
}

#[derive(Debug, PartialEq, Eq)]
pub struct PaginatedReadResult {
    pub records: Vec<JsonValue>,
    pub pagination: PaginationMetadata,
}

#[derive(Debug, PartialEq, Eq)]
pub enum ReadResult {
    Records(Vec<JsonValue>),
    Page(PaginatedReadResult),
    Record(Option<JsonValue>),
    Pointers(Vec<String>),
    Exists(bool),
}

#[derive(Debug, PartialEq, Eq)]
pub enum CreateResult {
    StorageInventory(StorageInventory),
    Admin(JsonValue),
}

/// What was found of the state of the storage.
#[derive(Debug, PartialEq, Eq)]
pub enum StatusResult {
    Tenants(Vec<String>),
    Databases(Vec<StorageInventory>),
    Schemas(Vec<String>),
    Drawers(Vec<StorageInventory>),
    Wal(WalVerification),
    Storage(StorageDiagnosis),
    Check(CheckReport),
    DrawerNames(Vec<String>),
    CachedDrawerCount(usize),
}

/// The result of a command.
#[derive(Debug, PartialEq, Eq)]
pub enum CommandResult {
    Upsert(UpsertResult),
    Read(ReadResult),
    Delete(DeleteResult),
    Inspect(InspectResult),
    Count(usize),
    Compact(VacuumReport),
    Create(CreateResult),
    Alter(JsonValue),
    Drop(JsonValue),
    Backup(BackupArchive),
    Restore(RestoreReport),
    Grant(JsonValue),
    Revoke(JsonValue),
    Status(JsonValue),
}

/// The JSON number of a count.
pub open spec fn count_json(n: int) -> Json {
    Json::Number(Number::PosInt(n as u64))
}

/// The JSON value of a number that may be missing.
pub open spec fn opt_count_json(n: Option<u64>) -> Json {
    match n {
        Some(n) => count_json(n as int),
        None => Json::Null,
    }
}

/// The JSON array of texts.
pub open spec fn texts_json(values: Seq<Seq<char>>) -> Json {
    Json::Array(Seq::new(values.len(), |i: int| Json::Text(values[i])))
}

pub open spec fn inventory_json(inventory: StorageInventory) -> Json {
    Json::Object(
        Map::<Seq<char>, Json>::empty().insert("name"@, Json::Text(inventory.name@)).insert(
            "record_count"@,
            count_json(inventory.record_count as int),
        ).insert("disk_size_bytes"@, count_json(inventory.disk_size_bytes as int)).insert(
            "register_file_count"@,
            count_json(inventory.register_file_count as int),
        ),
    )
}

pub open spec fn inventories_json(all: Seq<StorageInventory>) -> Json {
    Json::Array(Seq::new(all.len(), |i: int| inventory_json(all[i])))
}

pub open spec fn wal_json(wal: WalVerification) -> Json {
    Json::Object(
        Map::<Seq<char>, Json>::empty().insert("path"@, Json::Text(wal.path@)).insert(
            "entry_count"@,
            count_json(wal.entry_count as int),
        ).insert("last_sequence"@, opt_count_json(wal.last_sequence)),
    )
}

pub open spec fn check_entry_json(entry: CheckEntry) -> Json {
    Json::Object(
        Map::<Seq<char>, Json>::empty().insert("label"@, Json::Text(entry.label@)).insert(
            "path"@,
            Json::Text(entry.path@),
        ).insert("exists"@, Json::Bool(entry.exists)).insert("bytes"@, opt_count_json(entry.bytes)),
    )
}

pub open spec fn check_json(report: CheckReport) -> Json {
    Json::Object(
        Map::<Seq<char>, Json>::empty().insert("path"@, Json::Text(report.path@)).insert(
            "kind"@,
            Json::Text(report.kind@),
        ).insert(
            "entries"@,
            Json::Array(
                Seq::new(
                    report.entries@.len(),
                    |i: int| check_entry_json(report.entries@[i]),
                ),
            ),
        ),
    )
}

pub open spec fn diagnosis_json(d: StorageDiagnosis) -> Json {
    Json::Object(
        Map::<Seq<char>, Json>::empty().insert(
            "storage_directory"@,
            Json::Text(d.storage_directory@),
        ).insert("storage_bytes"@, count_json(d.storage_bytes as int)).insert(
            "data_bytes"@,
            count_json(d.data_bytes as int),
        ).insert("index_bytes"@, count_json(d.index_bytes as int)).insert(
            "metadata_bytes"@,
            count_json(d.metadata_bytes as int),
        ).insert("logical_wal_bytes"@, count_json(d.logical_wal_bytes as int)).insert(
            "transaction_wal_bytes"@,
            count_json(d.transaction_wal_bytes as int),
        ).insert("other_bytes"@, count_json(d.other_bytes as int)).insert(
            "drawer_count"@,
            count_json(d.drawer_count as int),
        ).insert("status"@, Json::Text(d.status@)).insert("drawers"@, texts_json(texts(d.drawers@))),
    )
}

/// The payload with which a status request is answered.
pub open spec fn status_json(status: StatusResult) -> Json {
    match status {
        StatusResult::Tenants(names) => texts_json(texts(names@)),
        StatusResult::Databases(all) => inventories_json(all@),
        StatusResult::Schemas(names) => texts_json(texts(names@)),
        StatusResult::Drawers(all) => inventories_json(all@),
        StatusResult::Wal(wal) => wal_json(wal),
        StatusResult::Storage(diagnosis) => diagnosis_json(diagnosis),
        StatusResult::Check(report) => check_json(report),
        StatusResult::DrawerNames(names) => texts_json(texts(names@)),
        StatusResult::CachedDrawerCount(n) => count_json(n as int),
    }
}

fn count_value(n: u64) -> (r: JsonValue)
    ensures
        r@ == count_json(n as int),
{
    JsonValue::unsigned(n)
}

fn opt_count_value(n: Option<u64>) -> (r: JsonValue)
    ensures
        r@ == opt_count_json(n),
{
    match n {
        Some(n) => count_value(n),
        None => JsonValue::Null,
    }
}

fn texts_value(values: &Vec<String>) -> (r: JsonValue)
    ensures
        r@ == texts_json(texts(values@)),
{
    let mut items: Vec<JsonValue> = Vec::new();
    let mut i: usize = 0;
    while i < values.len()
        invariant
            i <= values@.len(),
            items@.len() == i,
            forall|k: int| 0 <= k < i ==> (#[trigger] items@[k])@ == Json::Text(values@[k]@),
        decreases values@.len() - i,
    {
        items.push(JsonValue::text(values[i].as_str()));
        i += 1;
    }
    assert(jsons(items@) =~= texts_json(texts(values@))->Array_0);
    JsonValue::array(items)
}

fn inventory_value(inventory: &StorageInventory) -> (r: JsonValue)
    ensures
        r@ == inventory_json(*inventory),
{
    broadcast use group_value;

    let mut fields: TextMap<JsonValue> = TextMap::new();
    fields.insert(owned("name"), JsonValue::text(inventory.name.as_str()));
    fields.insert(owned("record_count"), count_value(inventory.record_count as u64));
    fields.insert(owned("disk_size_bytes"), count_value(inventory.disk_size_bytes));
    fields.insert(owned("register_file_count"), count_value(inventory.register_file_count as u64));
    JsonValue::object(fields)
}

fn inventories_value(all: &Vec<StorageInventory>) -> (r: JsonValue)
    ensures
        r@ == inventories_json(all@),
{
    let mut items: Vec<JsonValue> = Vec::new();
    let mut i: usize = 0;
    while i < all.len()
        invariant
            i <= all@.len(),
            items@.len() == i,
            forall|k: int| 0 <= k < i ==> (#[trigger] items@[k])@ == inventory_json(all@[k]),
        decreases all@.len() - i,
    {
        items.push(inventory_value(&all[i]));
        i += 1;
    }
    assert(jsons(items@) =~= inventories_json(all@)->Array_0);
    JsonValue::array(items)
}

fn wal_value(wal: &WalVerification) -> (r: JsonValue)
    ensures
        r@ == wal_json(*wal),
{
    broadcast use group_value;

    let mut fields: TextMap<JsonValue> = TextMap::new();
    fields.insert(owned("path"), JsonValue::text(wal.path.as_str()));
    fields.insert(owned("entry_count"), count_value(wal.entry_count as u64));
    fields.insert(owned("last_sequence"), opt_count_value(wal.last_sequence));
    JsonValue::object(fields)
}

fn check_entry_value(entry: &CheckEntry) -> (r: JsonValue)
    ensures
        r@ == check_entry_json(*entry),
{
    broadcast use group_value;

    let mut fields: TextMap<JsonValue> = TextMap::new();
    fields.insert(owned("label"), JsonValue::text(entry.label.as_str()));
    fields.insert(owned("path"), JsonValue::text(entry.path.as_str()));
    fields.insert(owned("exists"), JsonValue::Bool(entry.exists));
    fields.insert(owned("bytes"), opt_count_value(entry.bytes));
    JsonValue::object(fields)
}

fn check_value(report: &CheckReport) -> (r: JsonValue)
    ensures
        r@ == check_json(*report),
{
    broadcast use group_value;

    let mut items: Vec<JsonValue> = Vec::new();
    let mut i: usize = 0;
    while i < report.entries.len()
        invariant
            i <= report.entries@.len(),
            items@.len() == i,
            forall|k: int|
                0 <= k < i ==> (#[trigger] items@[k])@ == check_entry_json(report.entries@[k]),
        decreases report.entries@.len() - i,
    {
        items.push(check_entry_value(&report.entries[i]));
        i += 1;
    }
    assert(jsons(items@) =~= Seq::new(
        report.entries@.len(),
        |i: int| check_entry_json(report.entries@[i]),
    ));
    let mut fields: TextMap<JsonValue> = TextMap::new();
    fields.insert(owned("path"), JsonValue::text(report.path.as_str()));
    fields.insert(owned("kind"), JsonValue::text(report.kind.as_str()));
    fields.insert(owned("entries"), JsonValue::array(items));
    JsonValue::object(fields)
}

fn diagnosis_value(d: &StorageDiagnosis) -> (r: JsonValue)
    ensures
        r@ == diagnosis_json(*d),
{
    broadcast use group_value;

    let mut fields: TextMap<JsonValue> = TextMap::new();
    fields.insert(owned("storage_directory"), JsonValue::text(d.storage_directory.as_str()));
    fields.insert(owned("storage_bytes"), count_value(d.storage_bytes));
    fields.insert(owned("data_bytes"), count_value(d.data_bytes));
    fields.insert(owned("index_bytes"), count_value(d.index_bytes));
    fields.insert(owned("metadata_bytes"), count_value(d.metadata_bytes));
    fields.insert(owned("logical_wal_bytes"), count_value(d.logical_wal_bytes));
    fields.insert(owned("transaction_wal_bytes"), count_value(d.transaction_wal_bytes));
    fields.insert(owned("other_bytes"), count_value(d.other_bytes));
    fields.insert(owned("drawer_count"), count_value(d.drawer_count as u64));
    fields.insert(owned("status"), JsonValue::text(d.status.as_str()));
    fields.insert(owned("drawers"), texts_value(&d.drawers));
    JsonValue::object(fields)
}

/// The payload with which a status request is answered.
pub fn encode_status_payload(status: &StatusResult) -> (r: JsonValue)
    ensures
        r@ == status_json(*status),
{
    match status {
        StatusResult::Tenants(names) => texts_value(names),
        StatusResult::Databases(all) => inventories_value(all),
        StatusResult::Schemas(names) => texts_value(names),
        StatusResult::Drawers(all) => inventories_value(all),
        StatusResult::Wal(wal) => wal_value(wal),
        StatusResult::Storage(diagnosis) => diagnosis_value(diagnosis),
        StatusResult::Check(report) => check_value(report),
        StatusResult::DrawerNames(names) => texts_value(names),
        StatusResult::CachedDrawerCount(n) => count_value(*n as u64),
    }
}

} // verus!
