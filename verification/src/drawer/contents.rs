//! The records of a drawer: reading them, and the whole of writing and deleting them. What
//! stands in the data file is given by its records and their offsets.
use crate::drawer::blocks::DataBlockIndexEntry;
use crate::drawer::bulk::batch_check;
use crate::drawer::indexing::{stored, StoredRecords};
use crate::drawer::records::{
    freed_block, is_historical_block, is_next_live, is_slot_size, offset_of, opt_bytes, placed,
    removed, upsert_logs, vacate_logs, DrawerEffects,
};
use crate::drawer::relations::upsert_check;
use crate::drawer::replay::DrawerMetadata;
use crate::drawer::schema::CheckedModel;
use crate::drawer::vacuum::metadata_of;
use crate::drawer::{drops_index, invalidated, logs, Drawer, DrawerModel, LogModel};
use crate::offsets::{lemma_offset_order, offset_order};
use crate::text::{concat2, opt_text, owned};
use crate::value::{jsons, opt_json, opt_value, Json, JsonValue};
use vstd::prelude::*;

verus! {

/// The record that a drawer has under a key.
pub open spec fn record_of(m: DrawerModel, records: Map<u64, Json>, key: Seq<char>) -> Option<Json> {
    match offset_of(m, key) {
        Some(offset) => if records.dom().contains(offset) {
            Some(records[offset])
        } else {
            None
        },
        None => None,
    }
}

/// The offsets of the live records.
pub open spec fn live_set(m: DrawerModel) -> Set<u64> {
    Set::new(|o: u64| exists|k: Seq<char>| #[trigger] offset_of(m, k) == Some(o))
}

/// The records at the first `n` offsets; an offset without a record is passed over.
pub open spec fn records_at(records: Map<u64, Json>, offsets: Seq<u64>, n: int) -> Seq<Json>
    decreases n,
{
    if n <= 0 {
        Seq::empty()
    } else {
        let before = records_at(records, offsets, n - 1);
        if records.dom().contains(offsets[n - 1]) {
            before.push(records[offsets[n - 1]])
        } else {
            before
        }
    }
}

/// The live records, in the order of their offsets.
pub open spec fn live_records(m: DrawerModel, records: Map<u64, Json>) -> Seq<Json> {
    let offsets = offset_order(live_set(m));
    records_at(records, offsets, offsets.len() as int)
}

/// The records at some offsets; an offset without a record is passed over.
pub fn read_records_at_offsets(records: &StoredRecords, offsets: &Vec<u64>) -> (r: Vec<JsonValue>)
    ensures
        jsons(r@) == records_at(stored(*records), offsets@, offsets@.len() as int),
{
    let mut out: Vec<JsonValue> = Vec::new();
    let mut i: usize = 0;
    assert(jsons(out@) =~= Seq::empty());
    while i < offsets.len()
        invariant
            i <= offsets@.len(),
            jsons(out@) == records_at(stored(*records), offsets@, i as int),
        decreases offsets@.len() - i,
    {
        let ghost before = jsons(out@);
        match records.get(offsets[i]) {
            Some(record) => {
                out.push(record.clone());
                assert(jsons(out@) =~= before.push(stored(*records)[offsets@[i as int]]));
            },
            None => {},
        }
        i += 1;
    }
    out
}

/// A record to write, and where its bytes go.
pub struct RecordWrite {
    pub record: JsonValue,
    /// Where the record is written, and the block that it takes there.
    pub offset: u64,
    pub block: DataBlockIndexEntry,
    /// The length of the data file.
    pub file_len: u64,
    /// The bytes of the record that is replaced, where there is one.
    pub old_payload: Option<Vec<u8>>,
}

/// The model of a record to write.
pub struct WriteModel {
    pub record: Json,
    pub offset: u64,
    pub block: DataBlockIndexEntry,
    pub file_len: u64,
    pub old_payload: Option<Seq<u8>>,
}

impl View for RecordWrite {
    type V = WriteModel;

    open spec fn view(&self) -> WriteModel {
        WriteModel {
            record: self.record@,
            offset: self.offset,
            block: self.block,
            file_len: self.file_len,
            old_payload: match self.old_payload {
                Some(bytes) => Some(bytes@),
                None => None,
            },
        }
    }
}

/// The models of records to write.
pub open spec fn write_models(writes: Seq<RecordWrite>) -> Seq<WriteModel> {
    Seq::new(writes.len(), |i: int| writes[i]@)
}

/// What has to be done on disk for a change of a drawer.
pub struct EffectsModel {
    pub buried: Option<Seq<char>>,
    pub logs: Seq<LogModel>,
    pub freed: Option<(usize, u64)>,
    pub persist: bool,
}

impl View for DrawerEffects {
    type V = EffectsModel;

    open spec fn view(&self) -> EffectsModel {
        EffectsModel {
            buried: opt_text(self.buried),
            logs: logs(self.index_logs@),
            freed: self.freed,
            persist: self.persist,
        }
    }
}

/// The block of the record at an offset, known or estimated.
pub open spec fn historical_block(
    m: DrawerModel,
    offset: u64,
    file_len: u64,
    payload: Option<Seq<u8>>,
) -> Option<(u64, DataBlockIndexEntry)> {
    choose|r: Option<(u64, DataBlockIndexEntry)>|
        is_historical_block(m, offset, file_len, payload, r)
}

proof fn lemma_slot_size_unique(m: DrawerModel, offset: u64, file_len: u64, a: int, b: int)
    requires
        is_slot_size(m, offset, file_len, a),
        is_slot_size(m, offset, file_len, b),
    ensures
        a == b,
{
    assert forall|x: u64, y: u64| #[trigger]
        is_next_live(m, offset, x) && #[trigger] is_next_live(m, offset, y) implies x == y by {
        let kx = choose|k: Seq<char>| #[trigger] offset_of(m, k) == Some(x);
        let ky = choose|k: Seq<char>| #[trigger] offset_of(m, k) == Some(y);
        assert(offset_of(m, kx) == Some(x));
        assert(offset_of(m, ky) == Some(y));
    }
}

/// There is only one block that a record is taken to have.
pub proof fn lemma_historical_unique(
    m: DrawerModel,
    offset: u64,
    file_len: u64,
    payload: Option<Seq<u8>>,
    r: Option<(u64, DataBlockIndexEntry)>,
)
    requires
        is_historical_block(m, offset, file_len, payload, r),
    ensures
        historical_block(m, offset, file_len, payload) == r,
{
    let other = historical_block(m, offset, file_len, payload);
    if !m.blocks.dom().contains(offset) && offset < file_len {
        assert forall|a: u64, b: u64| #[trigger]
            is_slot_size(m, offset, file_len, a as int) && #[trigger] is_slot_size(
                m,
                offset,
                file_len,
                b as int,
            ) implies a == b by {
            lemma_slot_size_unique(m, offset, file_len, a as int, b as int);
        }
    }
}

/// The block of the record that is written over, where there is one.
pub open spec fn stale_block(m: DrawerModel, key: Seq<char>, w: WriteModel) -> Option<
    (u64, DataBlockIndexEntry),
> {
    match offset_of(m, key) {
        Some(offset) => historical_block(m, offset, w.file_len, w.old_payload),
        None => None,
    }
}

/// A drawer and its records once a record was written under its key.
pub open spec fn written(
    m: DrawerModel,
    records: Map<u64, Json>,
    key: Seq<char>,
    w: WriteModel,
) -> (DrawerModel, Map<u64, Json>) {
    let stale = stale_block(m, key, w);
    let after = placed(m, key, record_of(m, records, key), w.record, w.offset, w.block, stale);
    let filled = records.insert(w.offset, w.record);
    (
        invalidated(after),
        match freed_block(stale, w.offset) {
            Some((_, old)) => filled.remove(old),
            None => filled,
        },
    )
}

/// What has to be done on disk once a record was written under its key.
pub open spec fn write_effects(
    m: DrawerModel,
    records: Map<u64, Json>,
    key: Seq<char>,
    w: WriteModel,
) -> EffectsModel {
    let stale = stale_block(m, key, w);
    let old = record_of(m, records, key);
    EffectsModel {
        buried: None,
        logs: upsert_logs(m, key, old, w.record, w.offset, w.block),
        freed: freed_block(stale, w.offset),
        persist: drops_index(placed(m, key, old, w.record, w.offset, w.block, stale)),
    }
}

/// What is wrong with a record: a comparison of numbers that does not hold, or the problem that
/// comes after the comparisons.
pub open spec fn first_problem(numeric: Option<Seq<char>>, check: CheckedModel) -> Option<Seq<char>> {
    match numeric {
        Some(problem) => Some(problem),
        None => check.problem,
    }
}

/// A record that was written.
pub struct Upserted {
    pub is_new: bool,
    pub effects: DrawerEffects,
}

impl Drawer {
    pub fn find_by_primary_key<'a>(&self, records: &'a StoredRecords, key: &str) -> (r: Option<
        &'a JsonValue,
    >)
        ensures
            opt_json(r) == record_of(self@, stored(*records), key@),
    {
        match self.find_offset(key) {
            Some(offset) => records.get(offset),
            None => None,
        }
    }

    /// The live records, in the order of their offsets.
    pub fn find_all_records(&self, records: &StoredRecords) -> (r: Vec<JsonValue>)
        ensures
            jsons(r@) == live_records(self@, stored(*records)),
    {
        let offsets = self.sorted_live_primary_offsets();
        proof {
            assert forall|o: u64| #[trigger] live_set(self@).contains(o) <==> offsets@.contains(o) by {
                if offsets@.contains(o) {
                    assert(exists|k: Seq<char>| #[trigger] offset_of(self@, k) == Some(o));
                }
            }
            lemma_offset_order(offsets@, live_set(self@));
        }
        read_records_at_offsets(records, &offsets)
    }

    /// Writes a record that passed its checks.
    fn place_record(&mut self, records: &mut StoredRecords, key: &str, write: RecordWrite) -> (r:
        Upserted)
        requires
            old(self)@.record_count < usize::MAX,
        ensures
            ({
                let m = old(self)@;
                let held = stored(*old(records));
                &&& final(self)@ == written(m, held, key@, write@).0
                &&& stored(*final(records)) == written(m, held, key@, write@).1
                &&& r.effects@ == write_effects(m, held, key@, write@)
                &&& r.is_new == (offset_of(m, key@) is None)
            }),
    {
        let ghost m = self@;
        let ghost held = stored(*records);
        let old_offset = self.find_offset(key);
        let stale: Option<(u64, DataBlockIndexEntry)> = match old_offset {
            Some(offset) => {
                let payload: Option<&[u8]> = match &write.old_payload {
                    Some(bytes) => Some(bytes.as_slice()),
                    None => None,
                };
                assert(opt_bytes(payload) == write@.old_payload);
                let found = self.historical_block_entry(offset, write.file_len, payload);
                proof {
                    lemma_historical_unique(
                        m,
                        offset,
                        write.file_len,
                        write@.old_payload,
                        found,
                    );
                }
                found
            },
            None => None,
        };
        assert(stale == stale_block(m, key@, write@));
        let old_record: Option<&JsonValue> = match old_offset {
            Some(offset) => records.get(offset),
            None => None,
        };
        assert(opt_json(old_record) == record_of(m, held, key@));
        let effects = self.apply_upsert(
            key,
            old_record,
            &write.record,
            write.offset,
            write.block,
            stale,
        );
        records.insert(write.offset, write.record);
        match &effects.freed {
            Some((_, old)) => {
                records.remove(*old);
            },
            None => {},
        }
        assert(stored(*records) =~= written(m, held, key@, write@).1);
        Upserted { is_new: old_offset.is_none(), effects }
    }

    /// Writes a record unless it is refused. The comparisons of numbers that the check of the
    /// record asks for are made before, and what they find is given.
    pub fn upsert_record(
        &mut self,
        records: &mut StoredRecords,
        write: RecordWrite,
        numeric_problem: Option<String>,
    ) -> (r: Result<Upserted, String>)
        requires
            old(self)@.record_count < usize::MAX,
        ensures
            ({
                let m = old(self)@;
                let held = stored(*old(records));
                let check = upsert_check(m, live_records(m, held), write@.record);
                match (first_problem(opt_text(numeric_problem), check), r) {
                    (Some(problem), Err(message)) => {
                        &&& message@ == problem
                        &&& final(self)@ == m
                        &&& stored(*final(records)) == held
                    },
                    (None, Ok(done)) => {
                        let key = write@.record.get_text(m.primary_key)->0;
                        &&& write@.record.get_text(m.primary_key) is Some
                        &&& final(self)@ == written(m, held, key, write@).0
                        &&& stored(*final(records)) == written(m, held, key, write@).1
                        &&& done.effects@ == write_effects(m, held, key, write@)
                        &&& done.is_new == (offset_of(m, key) is None)
                    },
                    _ => false,
                }
            }),
    {
        match numeric_problem {
            Some(problem) => {
                return Err(problem);
            },
            None => {},
        }
        let existing = self.find_all_records(&*records);
        let checked = self.check_upsert(&existing, &write.record);
        match checked.problem {
            Some(problem) => {
                return Err(problem);
            },
            None => {},
        }
        let key: String = match write.record.get_str(self.primary_key.as_str()) {
            Some(key) => owned(key),
            None => {
                return Err(concat2("Missing primary key field: ", self.primary_key.as_str()));
            },
        };
        Ok(self.place_record(records, key.as_str(), write))
    }
}

/// A drawer and its records once the record with the key was deleted, and the record. A record
/// that cannot be read, or that has no block, is only forgotten.
pub open spec fn deleted(
    m: DrawerModel,
    records: Map<u64, Json>,
    key: Seq<char>,
    file_len: u64,
    payload: Option<Seq<u8>>,
) -> (DrawerModel, Map<u64, Json>) {
    let forgotten = DrawerModel { primary: m.primary.remove(key), ..m };
    match (offset_of(m, key), record_of(m, records, key)) {
        (Some(offset), Some(record)) => match historical_block(m, offset, file_len, payload) {
            Some(_) => (invalidated(removed(m, key, record, offset)), records.remove(offset)),
            None => (forgotten, records),
        },
        _ => (forgotten, records),
    }
}

/// What has to be done on disk once the record with the key was deleted; nothing where it is
/// only forgotten.
pub open spec fn delete_effects(
    m: DrawerModel,
    records: Map<u64, Json>,
    key: Seq<char>,
    file_len: u64,
    payload: Option<Seq<u8>>,
) -> Option<EffectsModel> {
    match (offset_of(m, key), record_of(m, records, key)) {
        (Some(offset), Some(record)) => match historical_block(m, offset, file_len, payload) {
            Some((_, block)) => Some(
                EffectsModel {
                    buried: Some(key),
                    logs: vacate_logs(m, record, offset, m.unique.len() as int),
                    freed: Some((block.size_class, offset)),
                    persist: drops_index(removed(m, key, record, offset)),
                },
            ),
            None => None,
        },
        _ => None,
    }
}

/// What was deleted: the record, where it could be read, and what has to be done on disk.
pub struct Removed {
    pub record: Option<JsonValue>,
    pub effects: Option<DrawerEffects>,
}

pub open spec fn opt_effects(effects: Option<DrawerEffects>) -> Option<EffectsModel> {
    match effects {
        Some(e) => Some(e@),
        None => None,
    }
}

impl Drawer {
    /// Deletes the record with a key. The length of the data file and the bytes of the record
    /// are given.
    pub fn delete_by_primary_key(
        &mut self,
        records: &mut StoredRecords,
        key: &str,
        file_len: u64,
        payload: Option<&[u8]>,
    ) -> (r: Removed)
        ensures
            ({
                let m = old(self)@;
                let held = stored(*old(records));
                let after = deleted(m, held, key@, file_len, opt_bytes(payload));
                &&& final(self)@ == after.0
                &&& stored(*final(records)) == after.1
                &&& opt_value(r.record) == record_of(m, held, key@)
                &&& opt_effects(r.effects) == delete_effects(
                    m,
                    held,
                    key@,
                    file_len,
                    opt_bytes(payload),
                )
            }),
    {
        let ghost m = self@;
        let ghost held = stored(*records);
        let offset: u64 = match self.find_offset(key) {
            Some(offset) => offset,
            None => {
                assert(m.primary.remove(key@) =~= m.primary);
                return Removed { record: None, effects: None };
            },
        };
        let record: JsonValue = match records.get(offset) {
            Some(record) => record.clone(),
            None => {
                self.forget_key(key);
                return Removed { record: None, effects: None };
            },
        };
        let found = self.historical_block_entry(offset, file_len, payload);
        proof {
            lemma_historical_unique(m, offset, file_len, opt_bytes(payload), found);
        }
        match found {
            Some((_, block)) => {
                let effects = self.apply_delete(key, &record, offset, block);
                records.remove(offset);
                assert(stored(*records) =~= held.remove(offset));
                Removed { record: Some(record), effects: Some(effects) }
            },
            None => {
                self.forget_key(key);
                Removed { record: Some(record), effects: None }
            },
        }
    }
}

/// A drawer, its records and what has to be done on disk, while a batch is written; and the
/// problem that ended it.
#[verifier::ext_equal]
pub struct BatchModel {
    pub drawer: DrawerModel,
    pub records: Map<u64, Json>,
    pub effects: Seq<EffectsModel>,
    pub problem: Option<Seq<char>>,
}

/// The batch once the records from the `i`-th on were written, each after a check of its own.
pub open spec fn batch_from(b: BatchModel, writes: Seq<WriteModel>, i: int) -> BatchModel
    decreases writes.len() - i,
{
    if i >= writes.len() {
        b
    } else {
        let w = writes[i];
        match upsert_check(b.drawer, live_records(b.drawer, b.records), w.record).problem {
            Some(problem) => BatchModel { problem: Some(problem), ..b },
            None => {
                let key = w.record.get_text(b.drawer.primary_key)->0;
                let after = written(b.drawer, b.records, key, w);
                batch_from(
                    BatchModel {
                        drawer: after.0,
                        records: after.1,
                        effects: b.effects.push(write_effects(b.drawer, b.records, key, w)),
                        problem: None,
                    },
                    writes,
                    i + 1,
                )
            },
        }
    }
}

/// The records of some writes.
pub open spec fn batch_records(writes: Seq<WriteModel>) -> Seq<Json> {
    Seq::new(writes.len(), |i: int| writes[i].record)
}

/// A batch that was checked as a whole and then written record by record.
pub open spec fn batch_written(
    m: DrawerModel,
    records: Map<u64, Json>,
    writes: Seq<WriteModel>,
    numeric: Option<Seq<char>>,
) -> BatchModel {
    let start = BatchModel { drawer: m, records, effects: Seq::empty(), problem: None };
    let check = batch_check(m, live_records(m, records), batch_records(writes));
    match first_problem(numeric, check) {
        Some(problem) => BatchModel { problem: Some(problem), ..start },
        None => batch_from(start, writes, 0),
    }
}

/// A batch of records that was written, as far as it was: what has to be done on disk for each,
/// and, where all were written, the metadata that has to be written; else what is wrong.
pub struct BatchUpserted {
    pub effects: Vec<DrawerEffects>,
    pub outcome: Result<Option<DrawerMetadata>, String>,
}

pub open spec fn effects_models(effects: Seq<DrawerEffects>) -> Seq<EffectsModel> {
    Seq::new(effects.len(), |i: int| effects[i]@)
}

fn written_records(writes: &Vec<RecordWrite>) -> (r: Vec<JsonValue>)
    ensures
        jsons(r@) == batch_records(write_models(writes@)),
{
    let mut out: Vec<JsonValue> = Vec::new();
    let mut i: usize = 0;
    while i < writes.len()
        invariant
            i <= writes@.len(),
            out@.len() == i,
            forall|k: int| 0 <= k < i ==> (#[trigger] out@[k])@ == writes@[k].record@,
        decreases writes@.len() - i,
    {
        out.push(writes[i].record.clone());
        i += 1;
    }
    assert(jsons(out@) =~= batch_records(write_models(writes@)));
    out
}

impl Drawer {
    /// Writes a batch of records, none of them where the batch is refused as a whole. The
    /// comparisons of numbers that the check of the batch asks for are made before, and what
    /// they find is given.
    pub fn upsert_records_atomic(
        &mut self,
        records: &mut StoredRecords,
        writes: Vec<RecordWrite>,
        numeric_problem: Option<String>,
    ) -> (r: BatchUpserted)
        requires
            old(self)@.record_count + writes@.len() <= usize::MAX,
        ensures
            ({
                let m = old(self)@;
                let held = stored(*old(records));
                let done = batch_written(
                    m,
                    held,
                    write_models(writes@),
                    opt_text(numeric_problem),
                );
                &&& stored(*final(records)) == done.records
                &&& effects_models(r.effects@) == done.effects
                &&& match (done.problem, r.outcome) {
                    (Some(problem), Err(message)) => message@ == problem && final(self)@
                        == done.drawer,
                    (None, Ok(metadata)) => {
                        &&& final(self)@ == (DrawerModel { metadata_dirty: false, ..done.drawer })
                        &&& match metadata {
                            Some(given) => done.drawer.metadata_dirty && given@ == metadata_of(
                                done.drawer,
                            ),
                            None => !done.drawer.metadata_dirty,
                        }
                    },
                    _ => false,
                }
            }),
    {
        let ghost m = self@;
        let ghost held = stored(*records);
        let ghost models = write_models(writes@);
        let mut effects: Vec<DrawerEffects> = Vec::new();
        assert(effects_models(effects@) =~= Seq::<EffectsModel>::empty());
        match numeric_problem {
            Some(problem) => {
                return BatchUpserted { effects, outcome: Err(problem) };
            },
            None => {},
        }
        let existing = self.find_all_records(&*records);
        let wanted = written_records(&writes);
        let checked = self.validate_bulk_upsert_records(&existing, &wanted);
        match checked.problem {
            Some(problem) => {
                return BatchUpserted { effects, outcome: Err(problem) };
            },
            None => {},
        }
        let ghost done = batch_from(
            BatchModel { drawer: m, records: held, effects: Seq::empty(), problem: None },
            models,
            0,
        );
        let total: usize = writes.len();
        let mut rest = writes;
        let ghost mut at: int = 0;
        while rest.len() > 0
            invariant
                m == old(self)@,
                held == stored(*old(records)),
                models == write_models(writes@),
                done == batch_written(m, held, models, opt_text(numeric_problem)),
                total == models.len(),
                0 <= at <= total,
                rest@.len() == total - at,
                write_models(rest@) == models.subrange(at, total as int),
                self@.record_count + rest@.len() <= usize::MAX,
                done == batch_from(
                    BatchModel {
                        drawer: self@,
                        records: stored(*records),
                        effects: effects_models(effects@),
                        problem: None,
                    },
                    models,
                    at,
                ),
            decreases rest@.len(),
        {
            let ghost before = effects_models(effects@);
            let ghost left = rest@;
            let write = rest.remove(0);
            assert(write@ == models[at]) by {
                assert(write_models(left)[0] == models.subrange(at, total as int)[0]);
            }
            match self.upsert_record(records, write, None) {
                Ok(upserted) => {
                    effects.push(upserted.effects);
                    proof {
                        assert(effects_models(effects@) =~= before.push(
                            effects_models(effects@).last(),
                        ));
                        assert(write_models(rest@) =~= models.subrange(at + 1, total as int)) by {
                            assert forall|k: int| 0 <= k < rest@.len() implies rest@[k]@
                                == models[at + 1 + k] by {
                                assert(rest@[k] == left[k + 1]);
                                assert(write_models(left)[k + 1] == models.subrange(
                                    at,
                                    total as int,
                                )[k + 1]);
                            }
                        }
                        at = at + 1;
                    }
                },
                Err(problem) => {
                    return BatchUpserted { effects, outcome: Err(problem) };
                },
            }
        }
        let metadata = self.flush_metadata_if_dirty();
        BatchUpserted { effects, outcome: Ok(metadata) }
    }
}

} // verus!
