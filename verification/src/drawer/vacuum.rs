//! Compaction: the live records are written one behind the other, and the indexes with them.
use crate::drawer::blocks::{live_block, DataBlockIndexEntry};
use crate::drawer::index::{
    field_at, field_model, group_index, index_model, offsets_at, offsets_for, record_index_key,
    record_key, take_field, FieldIndex,
};
use crate::drawer::records::{value_log, value_logs};
use crate::drawer::replay::{DrawerMetadata, MetadataModel};
use crate::drawer::{
    logs, next_generation, offset_json, offsets_index_value, DRAWER_METADATA_FORMAT_VERSION, Drawer,
    DrawerModel, IndexLog, LogModel,
};
use crate::error::{bad_data, Error, Failure};
use crate::fields::{key_order, lists, TextMap};
use crate::offsets::OffsetMap;
use crate::text::{concat2, copy_strings, owned, texts};
use crate::value::{copy_fields, Json, JsonValue};
use vstd::prelude::*;

verus! {

/// A live record with the bytes that it is stored as.
pub struct LiveRecord {
    pub record: JsonValue,
    pub payload: Vec<u8>,
}

/// The model of a live record.
pub struct LiveModel {
    pub record: Json,
    pub payload: Seq<u8>,
}

impl View for LiveRecord {
    type V = LiveModel;

    open spec fn view(&self) -> LiveModel {
        LiveModel { record: self.record@, payload: self.payload@ }
    }
}

/// The models of a sequence of live records.
pub open spec fn live_models(live: Seq<LiveRecord>) -> Seq<LiveModel> {
    Seq::new(live.len(), |i: int| live[i]@)
}

/// The bytes of the first `n` records, one behind the other.
pub open spec fn packed(live: Seq<LiveModel>, n: int) -> Seq<u8>
    decreases n,
{
    if n <= 0 {
        Seq::empty()
    } else {
        packed(live, n - 1) + live[n - 1].payload
    }
}

/// Where the record at `i` stands once the records are packed.
pub open spec fn packed_offset(live: Seq<LiveModel>, i: int) -> u64 {
    packed(live, i).len() as u64
}

/// The index of a field once `offset` is added to the entry of a value.
pub open spec fn value_added(
    index: Map<Seq<char>, Seq<u64>>,
    value: Seq<char>,
    offset: u64,
) -> Map<Seq<char>, Seq<u64>> {
    index.insert(value, offsets_at(index, value).push(offset))
}

/// The indexes once a record at `offset` is added to those of the first `n` unique fields.
pub open spec fn record_added(
    secondary: Map<Seq<char>, Map<Seq<char>, Seq<u64>>>,
    unique: Seq<Seq<char>>,
    record: Json,
    offset: u64,
    n: int,
) -> Map<Seq<char>, Map<Seq<char>, Seq<u64>>>
    decreases n,
{
    if n <= 0 {
        secondary
    } else {
        let before = record_added(secondary, unique, record, offset, n - 1);
        let field = unique[n - 1];
        match record_key(record, field) {
            Some(value) => before.insert(
                field,
                value_added(field_at(before, field), value, offset),
            ),
            None => before,
        }
    }
}

/// What has been packed so far.
pub struct Packing {
    pub data: Vec<u8>,
    pub primary: TextMap<u64>,
    pub secondary: TextMap<FieldIndex>,
    pub blocks: OffsetMap<DataBlockIndexEntry>,
    pub index_logs: Vec<IndexLog>,
}

#[verifier::ext_equal]
pub struct PackingModel {
    pub data: Seq<u8>,
    pub primary: Map<Seq<char>, u64>,
    pub secondary: Map<Seq<char>, Map<Seq<char>, Seq<u64>>>,
    pub blocks: Map<u64, DataBlockIndexEntry>,
    pub index_logs: Seq<LogModel>,
}

impl View for Packing {
    type V = PackingModel;

    open spec fn view(&self) -> PackingModel {
        PackingModel {
            data: self.data@,
            primary: self.primary@,
            secondary: index_model(self.secondary),
            blocks: self.blocks@,
            index_logs: logs(self.index_logs@),
        }
    }
}

/// The state before the first record is packed: an empty index for each unique field.
pub open spec fn packing_start(unique: Seq<Seq<char>>) -> PackingModel {
    PackingModel {
        data: Seq::empty(),
        primary: Map::empty(),
        secondary: Map::new(|f: Seq<char>| unique.contains(f), |f: Seq<char>| Map::empty()),
        blocks: Map::empty(),
        index_logs: Seq::empty(),
    }
}

/// The state once one more record, with the given key, is packed.
pub open spec fn packed_one(
    p: PackingModel,
    primary_key: Seq<char>,
    unique: Seq<Seq<char>>,
    key: Seq<char>,
    live: LiveModel,
) -> PackingModel {
    let offset = p.data.len() as u64;
    let block = live_block(live.payload, live.payload.len() as usize);
    PackingModel {
        data: p.data + live.payload,
        primary: p.primary.insert(key, offset),
        secondary: record_added(
            p.secondary,
            unique,
            live.record,
            offset,
            unique.len() as int,
        ),
        blocks: p.blocks.insert(offset, block),
        index_logs: p.index_logs.push(
            LogModel { field: primary_key, key, offset: offset_json(offset), block: Some(block) },
        ),
    }
}

/// The state once the first `n` records are packed.
pub open spec fn packing(
    primary_key: Seq<char>,
    unique: Seq<Seq<char>>,
    live: Seq<LiveModel>,
    n: int,
) -> PackingModel
    decreases n,
{
    if n <= 0 {
        packing_start(unique)
    } else {
        packed_one(
            packing(primary_key, unique, live, n - 1),
            primary_key,
            unique,
            live[n - 1].record.get_text(primary_key)->0,
            live[n - 1],
        )
    }
}

/// Whether every record has a text for its primary key.
pub open spec fn all_keyed(primary_key: Seq<char>, live: Seq<LiveModel>) -> bool {
    forall|i: int|
        0 <= i < live.len() ==> (#[trigger] live[i]).record.get_text(primary_key) is Some
}

/// The entries of the index file for the first `n` fields of the secondary index, by field and
/// then by value, both in ascending order.
pub open spec fn secondary_logs(
    secondary: Map<Seq<char>, Map<Seq<char>, Seq<u64>>>,
    n: int,
) -> Seq<LogModel>
    decreases n,
{
    if n <= 0 {
        Seq::empty()
    } else {
        let field = key_order(secondary.dom())[n - 1];
        secondary_logs(secondary, n - 1) + value_logs(
            secondary,
            field,
            key_order(secondary[field].dom()),
        )
    }
}

/// The drawer once its records are packed. Query indexes are dropped, and the metadata has been
/// written.
pub open spec fn vacuumed(m: DrawerModel, p: PackingModel) -> DrawerModel {
    let stale = !(m.materialized.dom() =~= Set::<Seq<char>>::empty());
    DrawerModel {
        primary: p.primary,
        secondary: p.secondary,
        blocks: p.blocks,
        record_count: key_order(p.primary.dom()).len() as usize,
        generation: if stale {
            next_generation(m.generation)
        } else {
            m.generation
        },
        materialized: if stale {
            Map::empty()
        } else {
            m.materialized
        },
        validated: if stale {
            Set::empty()
        } else {
            m.validated
        },
        metadata_dirty: false,
        ..m
    }
}

/// The failure of a record without a primary key.
pub open spec fn no_primary_key(primary_key: Seq<char>) -> Failure {
    bad_data("Missing primary key field: "@ + primary_key)
}

/// What a compaction writes: the data file, and the entries of the index file in order.
pub struct VacuumPlan {
    pub data: Vec<u8>,
    pub index_logs: Vec<IndexLog>,
}

/// What a compaction did.
#[derive(Debug, Clone, Copy, PartialEq, Eq)]
pub struct VacuumReport {
    pub records_rewritten: usize,
    pub data_bytes_before: u64,
    pub data_bytes_after: u64,
    pub index_bytes_before: u64,
    pub index_bytes_after: u64,
    pub bytes_reclaimed: u64,
}

/// The sum, or the greatest number where it does not fit.
pub open spec fn capped_sum(a: u64, b: u64) -> int {
    if a + b > u64::MAX {
        u64::MAX as int
    } else {
        a + b
    }
}

impl VacuumReport {
    pub fn new(
        records_rewritten: usize,
        data_bytes_before: u64,
        data_bytes_after: u64,
        index_bytes_before: u64,
        index_bytes_after: u64,
    ) -> (r: Self)
        ensures
            r.records_rewritten == records_rewritten,
            r.data_bytes_before == data_bytes_before,
            r.data_bytes_after == data_bytes_after,
            r.index_bytes_before == index_bytes_before,
            r.index_bytes_after == index_bytes_after,
            ({
                let before = capped_sum(data_bytes_before, index_bytes_before);
                let after = capped_sum(data_bytes_after, index_bytes_after);
                r.bytes_reclaimed == (if before > after {
                    before - after
                } else {
                    0
                })
            }),
    {
        let total_before: u64 = data_bytes_before.saturating_add(index_bytes_before);
        let total_after: u64 = data_bytes_after.saturating_add(index_bytes_after);
        VacuumReport {
            records_rewritten,
            data_bytes_before,
            data_bytes_after,
            index_bytes_before,
            index_bytes_after,
            bytes_reclaimed: total_before.saturating_sub(total_after),
        }
    }
}

/// Appends bytes and gives the offset at which they start.
pub fn append_compact_payload(target: &mut Vec<u8>, payload: &Vec<u8>) -> (r: u64)
    ensures
        final(target)@ == old(target)@ + payload@,
        r == old(target)@.len() as u64,
{
    let starting_offset: u64 = target.len() as u64;
    let ghost before = target@;
    let mut i: usize = 0;
    assert(before + payload@.subrange(0, 0) =~= before);
    while i < payload.len()
        invariant
            i <= payload@.len(),
            target@ == before + payload@.subrange(0, i as int),
        decreases payload@.len() - i,
    {
        target.push(payload[i]);
        i += 1;
        assert(payload@.subrange(0, i as int) =~= payload@.subrange(0, i - 1).push(payload@[i - 1]));
        assert((before + payload@.subrange(0, i - 1)).push(payload@[i - 1]) =~= before
            + payload@.subrange(0, i - 1).push(payload@[i - 1]));
    }
    assert(payload@.subrange(0, i as int) =~= payload@);
    starting_offset
}

impl Packing {
    fn start(unique: &Vec<String>) -> (r: Self)
        ensures
            r@ == packing_start(texts(unique@)),
    {
        broadcast use group_index;

        let mut secondary: TextMap<FieldIndex> = TextMap::new();
        let ghost all = texts(unique@);
        let mut i: usize = 0;
        while i < unique.len()
            invariant
                all == texts(unique@),
                i <= unique@.len(),
                forall|f: Seq<char>| #[trigger]
                    secondary@.dom().contains(f) ==> all.contains(f) && field_model(secondary@[f])
                        =~= Map::empty(),
                forall|j: int| 0 <= j < i ==> secondary@.dom().contains(#[trigger] all[j]),
            decreases unique@.len() - i,
        {
            let index: FieldIndex = TextMap::new();
            assert(field_model(index) =~= Map::empty());
            assert(all[i as int] == unique@[i as int]@);
            secondary.insert(unique[i].clone(), index);
            i += 1;
        }
        let r = Packing {
            data: Vec::new(),
            primary: TextMap::new(),
            secondary,
            blocks: OffsetMap::new(),
            index_logs: Vec::new(),
        };
        proof {
            assert(r@.secondary =~= packing_start(all).secondary);
            assert(r@ =~= packing_start(all));
        }
        r
    }

    fn add_record(&mut self, unique: &Vec<String>, record: &JsonValue, offset: u64)
        ensures
            final(self)@ == (PackingModel {
                secondary: record_added(
                    old(self)@.secondary,
                    texts(unique@),
                    record@,
                    offset,
                    unique@.len() as int,
                ),
                ..old(self)@
            }),
    {
        broadcast use group_index;

        let ghost p = self@;
        let mut i: usize = 0;
        while i < unique.len()
            invariant
                i <= unique@.len(),
                self@ == (PackingModel {
                    secondary: record_added(
                        p.secondary,
                        texts(unique@),
                        record@,
                        offset,
                        i as int,
                    ),
                    ..p
                }),
            decreases unique@.len() - i,
        {
            let field = unique[i].as_str();
            let ghost before = self@.secondary;
            assert(texts(unique@)[i as int] == field@);
            match record_index_key(record, field) {
                Some(value) => {
                    let mut index = take_field(&mut self.secondary, field);
                    let ghost was = field_model(index);
                    let mut offsets = offsets_for(&index, value.as_str());
                    offsets.push(offset);
                    let ghost v = value@;
                    index.insert(value, offsets);
                    assert(field_model(index) =~= value_added(was, v, offset));
                    self.secondary.insert(owned(field), index);
                    assert(before.remove(field@).insert(field@, value_added(was, v, offset))
                        =~= before.insert(field@, value_added(was, v, offset)));
                },
                None => {},
            }
            i += 1;
        }
    }

    fn pack(&mut self, primary_key: &str, unique: &Vec<String>, key: &str, live: &LiveRecord)
        ensures
            final(self)@ == packed_one(
                old(self)@,
                primary_key@,
                texts(unique@),
                key@,
                live@,
            ),
    {
        let offset: u64 = append_compact_payload(&mut self.data, &live.payload);
        let block = DataBlockIndexEntry::live(live.payload.as_slice(), live.payload.len());
        let entry = IndexLog {
            field: owned(primary_key),
            key: owned(key),
            offset: JsonValue::unsigned(offset),
            block: Some(block),
        };
        let ghost entry_model = entry@;
        let ghost logged = self.index_logs@;
        self.index_logs.push(entry);
        assert(logs(self.index_logs@) =~= logs(logged).push(entry_model));
        self.primary.insert(owned(key), offset);
        self.blocks.insert(offset, block);
        self.add_record(unique, &live.record, offset);
        assert(self@ =~= packed_one(old(self)@, primary_key@, texts(unique@), key@, live@));
    }

    fn log_secondary(&mut self)
        ensures
            final(self)@ == (PackingModel {
                index_logs: old(self)@.index_logs + secondary_logs(
                    old(self)@.secondary,
                    key_order(old(self)@.secondary.dom()).len() as int,
                ),
                ..old(self)@
            }),
    {
        let ghost p = self@;
        let ghost fields = key_order(p.secondary.dom());
        let n: usize = self.secondary.len();
        assert(p.secondary.dom() =~= self.secondary@.dom());
        assert(p.index_logs + Seq::<LogModel>::empty() =~= p.index_logs);
        let mut i: usize = 0;
        while i < n
            invariant
                fields == self.secondary.keys(),
                fields == key_order(p.secondary.dom()),
                n == fields.len(),
                i <= n,
                p.secondary == index_model(self.secondary),
                self@ == (PackingModel {
                    index_logs: p.index_logs + secondary_logs(p.secondary, i as int),
                    ..p
                }),
            decreases n - i,
        {
            let field = self.secondary.key_at(i).clone();
            let index = self.secondary.value_at(i);
            let ghost values = index.keys();
            let k: usize = index.len();
            assert(p.secondary[field@] == field_model(*index));
            assert(field_model(*index).dom() =~= index@.dom());
            let ghost begun = logs(self.index_logs@);
            let mut added: Vec<IndexLog> = Vec::new();
            let mut j: usize = 0;
            while j < k
                invariant
                    values == index.keys(),
                    k == values.len(),
                    j <= k,
                    p.secondary.dom().contains(field@),
                    p.secondary[field@] == field_model(*index),
                    logs(added@) == value_logs(p.secondary, field@, values).subrange(0, j as int),
                decreases k - j,
            {
                let value = index.key_at(j);
                let ghost before = added@;
                let entry = IndexLog {
                    field: field.clone(),
                    key: value.clone(),
                    offset: offsets_index_value(index.value_at(j)),
                    block: None,
                };
                let ghost model = entry@;
                added.push(entry);
                j += 1;
                proof {
                    assert(model == value_log(p.secondary, field@, values[j - 1]));
                    assert(logs(added@) =~= logs(before).push(model));
                    assert(value_logs(p.secondary, field@, values).subrange(0, j as int)
                        =~= value_logs(p.secondary, field@, values).subrange(0, j - 1).push(model));
                }
            }
            assert(logs(added@) =~= value_logs(p.secondary, field@, values));
            let ghost more = logs(added@);
            let ghost front = self.index_logs@;
            let ghost back = added@;
            self.index_logs.append(&mut added);
            proof {
                assert(self.index_logs@ =~= front + back);
                assert(logs(front + back) =~= logs(front) + logs(back));
                assert(p.index_logs + secondary_logs(p.secondary, i as int) + more
                    =~= p.index_logs + (secondary_logs(p.secondary, i as int) + more));
            }
            i += 1;
        }
    }
}

/// Whether this is what came of packing the live records. Where one has no text for its primary
/// key, nothing changes.
pub open spec fn is_vacuumed(
    m: DrawerModel,
    live: Seq<LiveModel>,
    after: DrawerModel,
    r: Result<VacuumPlan, Error>,
) -> bool {
    let done = packing(m.primary_key, m.unique, live, live.len() as int);
    match r {
        Ok(plan) => {
            &&& all_keyed(m.primary_key, live)
            &&& after == vacuumed(m, done)
            &&& plan.data@ == done.data
            &&& logs(plan.index_logs@) == done.index_logs + secondary_logs(
                done.secondary,
                key_order(done.secondary.dom()).len() as int,
            )
        },
        Err(e) => {
            &&& !all_keyed(m.primary_key, live)
            &&& after == m
            &&& e@ == no_primary_key(m.primary_key)
        },
    }
}

impl Drawer {
    /// Packs the live records, given in the order of their offsets.
    pub fn vacuum(&mut self, live: &Vec<LiveRecord>) -> (r: Result<VacuumPlan, Error>)
        ensures
            is_vacuumed(old(self)@, live_models(live@), final(self)@, r),
    {
        let ghost m = self@;
        let ghost all = live_models(live@);
        let mut p = Packing::start(&self.unique_constraints);
        let mut i: usize = 0;
        while i < live.len()
            invariant
                self@ == m,
                all == live_models(live@),
                i <= live@.len(),
                p@ == packing(m.primary_key, m.unique, all, i as int),
                forall|j: int|
                    0 <= j < i ==> (#[trigger] all[j]).record.get_text(m.primary_key) is Some,
            decreases live@.len() - i,
        {
            assert(all[i as int] == live@[i as int]@);
            match live[i].record.get_str(self.primary_key.as_str()) {
                Some(key) => {
                    p.pack(self.primary_key.as_str(), &self.unique_constraints, key, &live[i]);
                },
                None => {
                    assert(all[i as int].record.get_text(m.primary_key) is None);
                    return Err(
                        Error::invalid_data(
                            concat2("Missing primary key field: ", self.primary_key.as_str()),
                        ),
                    );
                },
            }
            i += 1;
        }
        let ghost done = p@;
        p.log_secondary();
        let Packing { data, primary, secondary, blocks, index_logs } = p;
        self.primary_memory_index = primary;
        self.secondary_memory_index = secondary;
        self.data_block_index = blocks;
        self.record_count = self.primary_memory_index.len();
        if !self.materialized_secondary_indexes.is_empty() {
            if self.secondary_index_generation < u64::MAX {
                self.secondary_index_generation = self.secondary_index_generation + 1;
            }
            self.materialized_secondary_indexes = TextMap::new();
            self.validated_secondary_indexes = TextMap::new();
        }
        self.metadata_dirty = false;
        assert(self@ =~= vacuumed(m, done));
        Ok(VacuumPlan { data, index_logs })
    }
}

pub proof fn lemma_packing_data(
    primary_key: Seq<char>,
    unique: Seq<Seq<char>>,
    live: Seq<LiveModel>,
    n: int,
)
    requires
        0 <= n <= live.len(),
    ensures
        packing(primary_key, unique, live, n).data == packed(live, n),
    decreases n,
{
    if n > 0 {
        lemma_packing_data(primary_key, unique, live, n - 1);
    }
}

pub proof fn lemma_packed_prefix(live: Seq<LiveModel>, i: int, n: int)
    requires
        0 <= i < n <= live.len(),
    ensures
        packed(live, i).len() + live[i].payload.len() <= packed(live, n).len(),
        packed(live, n).subrange(
            packed(live, i).len() as int,
            (packed(live, i).len() + live[i].payload.len()) as int,
        ) == live[i].payload,
    decreases n,
{
    if i == n - 1 {
        assert(packed(live, n).subrange(
            packed(live, i).len() as int,
            (packed(live, i).len() + live[i].payload.len()) as int,
        ) =~= live[i].payload);
    } else {
        lemma_packed_prefix(live, i, n - 1);
        assert(packed(live, n).subrange(
            packed(live, i).len() as int,
            (packed(live, i).len() + live[i].payload.len()) as int,
        ) =~= packed(live, n - 1).subrange(
            packed(live, i).len() as int,
            (packed(live, i).len() + live[i].payload.len()) as int,
        ));
    }
}

pub proof fn lemma_packed_primary(
    primary_key: Seq<char>,
    unique: Seq<Seq<char>>,
    live: Seq<LiveModel>,
    i: int,
    n: int,
)
    requires
        0 <= i < n <= live.len(),
        all_keyed(primary_key, live),
        forall|a: int, b: int|
            0 <= a < b < live.len() ==> (#[trigger] live[a]).record.get_text(primary_key) != (
            #[trigger] live[b]).record.get_text(primary_key),
    ensures
        ({
            let primary = packing(primary_key, unique, live, n).primary;
            let key = live[i].record.get_text(primary_key)->0;
            primary.dom().contains(key) && primary[key] == packed_offset(live, i)
        }),
    decreases n,
{
    if i == n - 1 {
        lemma_packing_data(primary_key, unique, live, n - 1);
    } else {
        lemma_packed_primary(primary_key, unique, live, i, n - 1);
        assert(live[i].record.get_text(primary_key) != live[n - 1].record.get_text(primary_key));
        assert(live[i].record.get_text(primary_key) is Some);
        assert(live[n - 1].record.get_text(primary_key) is Some);
    }
}

/// After a compaction the bytes of each record stand in the data file at the offset that the
/// primary index has for its key.
pub proof fn law_vacuum_keeps_records(m: DrawerModel, live: Seq<LiveModel>, i: int)
    requires
        all_keyed(m.primary_key, live),
        forall|a: int, b: int|
            0 <= a < b < live.len() ==> (#[trigger] live[a]).record.get_text(m.primary_key) != (
            #[trigger] live[b]).record.get_text(m.primary_key),
        packed(live, live.len() as int).len() <= u64::MAX,
        0 <= i < live.len(),
    ensures
        ({
            let done = packing(m.primary_key, m.unique, live, live.len() as int);
            let after = vacuumed(m, done);
            let key = live[i].record.get_text(m.primary_key)->0;
            let offset = after.primary[key] as int;
            &&& after.primary.dom().contains(key)
            &&& offset + live[i].payload.len() <= done.data.len()
            &&& done.data.subrange(offset, offset + live[i].payload.len()) == live[i].payload
        }),
{
    let n = live.len() as int;
    lemma_packing_data(m.primary_key, m.unique, live, n);
    lemma_packed_prefix(live, i, n);
    lemma_packed_primary(m.primary_key, m.unique, live, i, n);
}

/// The metadata of a drawer as it is written.
pub open spec fn metadata_of(m: DrawerModel) -> MetadataModel {
    MetadataModel {
        format_version: DRAWER_METADATA_FORMAT_VERSION,
        primary_key: m.primary_key,
        record_count: m.record_count,
        unique: m.unique,
        relationships: m.relationships,
        delete_rules: m.delete_rules,
        cascade: m.cascade,
        schema: m.schema,
        generation: m.generation,
        materialized: m.materialized,
    }
}

fn copy_flags(flags: &TextMap<bool>) -> (r: TextMap<bool>)
    ensures
        r@ == flags@,
{
    let mut out: TextMap<bool> = TextMap::new();
    let n: usize = flags.len();
    let mut i: usize = 0;
    while i < n
        invariant
            n == flags.keys().len(),
            lists(flags.keys(), flags@.dom()),
            i <= n,
            forall|k: Seq<char>| #[trigger]
                out@.dom().contains(k) ==> flags@.dom().contains(k) && out@[k] == flags@[k],
            forall|j: int| 0 <= j < i ==> out@.dom().contains(#[trigger] flags.keys()[j]),
        decreases n - i,
    {
        out.insert(flags.key_at(i).clone(), *flags.value_at(i));
        i += 1;
    }
    proof {
        assert forall|k: Seq<char>| flags@.dom().contains(k) implies out@.dom().contains(k) by {
            assert(flags.keys().contains(k));
        }
        assert(out@ =~= flags@);
    }
    out
}

fn copy_generations(generations: &TextMap<u64>) -> (r: TextMap<u64>)
    ensures
        r@ == generations@,
{
    let mut out: TextMap<u64> = TextMap::new();
    let n: usize = generations.len();
    let mut i: usize = 0;
    while i < n
        invariant
            n == generations.keys().len(),
            lists(generations.keys(), generations@.dom()),
            i <= n,
            forall|k: Seq<char>| #[trigger]
                out@.dom().contains(k) ==> generations@.dom().contains(k) && out@[k]
                    == generations@[k],
            forall|j: int| 0 <= j < i ==> out@.dom().contains(#[trigger] generations.keys()[j]),
        decreases n - i,
    {
        out.insert(generations.key_at(i).clone(), *generations.value_at(i));
        i += 1;
    }
    proof {
        assert forall|k: Seq<char>| generations@.dom().contains(k) implies out@.dom().contains(k) by {
            assert(generations.keys().contains(k));
        }
        assert(out@ =~= generations@);
    }
    out
}

impl Drawer {
    /// The metadata to write for the drawer.
    pub fn metadata(&self) -> (r: DrawerMetadata)
        ensures
            r@ == metadata_of(self@),
    {
        let r = DrawerMetadata {
            format_version: DRAWER_METADATA_FORMAT_VERSION,
            primary_key: self.primary_key.clone(),
            record_count: self.record_count,
            unique_constraints: copy_strings(&self.unique_constraints),
            relationship_constraints: copy_fields(&self.relationship_constraints),
            delete_rules: copy_fields(&self.delete_rules),
            cascade_delete_rules: copy_flags(&self.cascade_delete_rules),
            schema: match &self.schema {
                Some(s) => Some(s.clone()),
                None => None,
            },
            secondary_index_generation: self.secondary_index_generation,
            materialized_secondary_indexes: copy_generations(&self.materialized_secondary_indexes),
        };
        assert(r@ =~= metadata_of(self@));
        r
    }

    /// The metadata to write where it has changed; it then counts as written.
    pub fn flush_metadata_if_dirty(&mut self) -> (r: Option<DrawerMetadata>)
        ensures
            final(self)@ == (DrawerModel { metadata_dirty: false, ..old(self)@ }),
            match r {
                Some(written) => old(self)@.metadata_dirty && written@ == metadata_of(old(self)@),
                None => !old(self)@.metadata_dirty,
            },
    {
        if self.metadata_dirty {
            let written = self.metadata();
            self.metadata_dirty = false;
            Some(written)
        } else {
            None
        }
    }

    pub fn relationship_constraints(&self) -> (r: TextMap<JsonValue>)
        ensures
            crate::value::json_fields(r) == self@.relationships,
    {
        copy_fields(&self.relationship_constraints)
    }

    pub fn delete_rules(&self) -> (r: TextMap<JsonValue>)
        ensures
            crate::value::json_fields(r) == self@.delete_rules,
    {
        copy_fields(&self.delete_rules)
    }
}

} // verus!
