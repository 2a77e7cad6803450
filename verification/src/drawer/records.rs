//! Records coming into a drawer and leaving it: how the indexes follow.
use crate::drawer::blocks::{crc32, checksum, DataBlockIndexEntry, DATA_BLOCK_STATUS_LIVE};
use crate::drawer::index::{
    field_at, field_model, group_index, index_model, leave_value, offsets_at, offsets_for,
    record_index_key, record_key, sorted_set, strictly_ascending, take_field, take_value,
    value_left, value_taken, FieldIndex,
};
use crate::drawer::{
    drops_index, invalidated, logs, offset_json, offsets_index_value, offsets_json, Drawer,
    DrawerModel, IndexLog, LogModel,
};
use crate::fields::{lists, TextMap};
use crate::offsets::{lists_offsets, offset_order};
use crate::text::{comes_before, concat5, copy_strings, opt_text, owned, same, text_before, texts};
use crate::value::{opt_json, Json, JsonValue};
use vstd::prelude::*;

verus! {

/// The offset of the record with the key.
pub open spec fn offset_of(m: DrawerModel, key: Seq<char>) -> Option<u64> {
    if m.primary.dom().contains(key) {
        Some(m.primary[key])
    } else {
        None
    }
}

/// The index of one field once the record at `old_offset`, which held `previous`, stands at
/// `offset` and holds `current`.
pub open spec fn reindexed(
    index: Map<Seq<char>, Seq<u64>>,
    previous: Option<Seq<char>>,
    current: Option<Seq<char>>,
    old_offset: Option<u64>,
    offset: u64,
) -> Map<Seq<char>, Seq<u64>> {
    let left = match (previous, old_offset) {
        (Some(value), Some(o)) => value_left(index, value, o),
        _ => index,
    };
    match current {
        Some(value) => value_taken(left, value, offset),
        None => left,
    }
}

/// The value by which an earlier version of a record is indexed.
pub open spec fn previous_key(old_record: Option<Json>, field: Seq<char>) -> Option<Seq<char>> {
    match old_record {
        Some(record) => record_key(record, field),
        None => None,
    }
}

/// The secondary index once the first `n` unique fields follow a record.
pub open spec fn followed(
    m: DrawerModel,
    old_record: Option<Json>,
    record: Json,
    old_offset: Option<u64>,
    offset: u64,
    n: int,
) -> Map<Seq<char>, Map<Seq<char>, Seq<u64>>>
    decreases n,
{
    if n <= 0 {
        m.secondary
    } else {
        let before = followed(m, old_record, record, old_offset, offset, n - 1);
        let field = m.unique[n - 1];
        before.insert(
            field,
            reindexed(
                field_at(before, field),
                previous_key(old_record, field),
                record_key(record, field),
                old_offset,
                offset,
            ),
        )
    }
}

/// The values whose entries change in the index file, in ascending order.
pub open spec fn changed_values(
    previous: Option<Seq<char>>,
    current: Option<Seq<char>>,
) -> Seq<Seq<char>> {
    match (previous, current) {
        (Some(p), Some(c)) => if p == c {
            seq![p]
        } else if text_before(p, c) {
            seq![p, c]
        } else {
            seq![c, p]
        },
        (Some(p), None) => seq![p],
        (None, Some(c)) => seq![c],
        (None, None) => Seq::empty(),
    }
}

/// The entry of the index file for a value of a field.
pub open spec fn value_log(
    secondary: Map<Seq<char>, Map<Seq<char>, Seq<u64>>>,
    field: Seq<char>,
    value: Seq<char>,
) -> LogModel {
    LogModel {
        field,
        key: value,
        offset: offsets_json(offsets_at(field_at(secondary, field), value)),
        block: None,
    }
}

/// The entries of the index file for some values of a field.
pub open spec fn value_logs(
    secondary: Map<Seq<char>, Map<Seq<char>, Seq<u64>>>,
    field: Seq<char>,
    values: Seq<Seq<char>>,
) -> Seq<LogModel> {
    Seq::new(values.len(), |i: int| value_log(secondary, field, values[i]))
}

/// The previous value of a field counts where there was a previous version.
pub open spec fn left_value(
    old_record: Option<Json>,
    old_offset: Option<u64>,
    field: Seq<char>,
) -> Option<Seq<char>> {
    if old_offset is Some {
        previous_key(old_record, field)
    } else {
        None
    }
}

/// The entries of the index file for the first `n` unique fields.
pub open spec fn follow_logs(
    m: DrawerModel,
    old_record: Option<Json>,
    record: Json,
    old_offset: Option<u64>,
    offset: u64,
    n: int,
) -> Seq<LogModel>
    decreases n,
{
    if n <= 0 {
        Seq::empty()
    } else {
        let field = m.unique[n - 1];
        follow_logs(m, old_record, record, old_offset, offset, n - 1) + value_logs(
            followed(m, old_record, record, old_offset, offset, n),
            field,
            changed_values(
                left_value(old_record, old_offset, field),
                record_key(record, field),
            ),
        )
    }
}

/// The block that an upsert frees: the stale one, unless the record was written over it.
pub open spec fn freed_block(
    stale: Option<(u64, DataBlockIndexEntry)>,
    offset: u64,
) -> Option<(usize, u64)> {
    match stale {
        Some((old, block)) => if old != offset {
            Some((block.size_class, old))
        } else {
            None
        },
        None => None,
    }
}

/// The drawer once `record`, with the given key, stands at `offset`, before query indexes are
/// dropped.
pub open spec fn placed(
    m: DrawerModel,
    key: Seq<char>,
    old_record: Option<Json>,
    record: Json,
    offset: u64,
    block: DataBlockIndexEntry,
    stale: Option<(u64, DataBlockIndexEntry)>,
) -> DrawerModel {
    let old_offset = offset_of(m, key);
    let blocks = m.blocks.insert(offset, block);
    DrawerModel {
        primary: m.primary.insert(key, offset),
        secondary: followed(m, old_record, record, old_offset, offset, m.unique.len() as int),
        blocks: match freed_block(stale, offset) {
            Some((_, old)) => blocks.remove(old),
            None => blocks,
        },
        record_count: if old_offset is None {
            (m.record_count + 1) as usize
        } else {
            m.record_count
        },
        metadata_dirty: m.metadata_dirty || old_offset is None,
        ..m
    }
}

/// The entries of the index file that an upsert writes: that of the primary key first.
pub open spec fn upsert_logs(
    m: DrawerModel,
    key: Seq<char>,
    old_record: Option<Json>,
    record: Json,
    offset: u64,
    block: DataBlockIndexEntry,
) -> Seq<LogModel> {
    seq![
        LogModel { field: m.primary_key, key, offset: offset_json(offset), block: Some(block) },
    ] + follow_logs(m, old_record, record, offset_of(m, key), offset, m.unique.len() as int)
}

/// What has to be done on disk for a change of a drawer.
pub struct DrawerEffects {
    /// The key whose entry, under the field of the primary key, has to be overwritten with a
    /// tombstone in the index file before entries are written.
    pub buried: Option<String>,
    /// The entries to write to the index file, in order.
    pub index_logs: Vec<IndexLog>,
    /// The block of the data file to overwrite with a tombstone and to recycle: its size and
    /// its offset.
    pub freed: Option<(usize, u64)>,
    /// Whether the metadata has to be written.
    pub persist: bool,
}

fn push_value_log(
    out: &mut Vec<IndexLog>,
    secondary: &TextMap<FieldIndex>,
    field: &str,
    value: &str,
)
    ensures
        logs(final(out)@) == logs(old(out)@).push(
            value_log(index_model(*secondary), field@, value@),
        ),
{
    let offsets: Vec<u64> = match secondary.get(field) {
        Some(index) => offsets_for(index, value),
        None => Vec::new(),
    };
    assert(offsets@ =~= offsets_at(field_at(index_model(*secondary), field@), value@));
    let entry = IndexLog {
        field: owned(field),
        key: owned(value),
        offset: offsets_index_value(&offsets),
        block: None,
    };
    out.push(entry);
    assert(logs(out@) =~= logs(old(out)@).push(
        value_log(index_model(*secondary), field@, value@),
    ));
}

fn push_value_logs(
    out: &mut Vec<IndexLog>,
    secondary: &TextMap<FieldIndex>,
    field: &str,
    previous: &Option<String>,
    current: &Option<String>,
)
    ensures
        logs(final(out)@) == logs(old(out)@) + value_logs(
            index_model(*secondary),
            field@,
            changed_values(opt_text(*previous), opt_text(*current)),
        ),
{
    let ghost index = index_model(*secondary);
    let ghost start = logs(out@);
    let ghost values = changed_values(opt_text(*previous), opt_text(*current));
    match (previous, current) {
        (Some(p), Some(c)) => {
            if same(p.as_str(), c.as_str()) {
                push_value_log(out, secondary, field, p.as_str());
            } else if comes_before(p.as_str(), c.as_str()) {
                push_value_log(out, secondary, field, p.as_str());
                push_value_log(out, secondary, field, c.as_str());
            } else {
                push_value_log(out, secondary, field, c.as_str());
                push_value_log(out, secondary, field, p.as_str());
            }
        },
        (Some(p), None) => {
            push_value_log(out, secondary, field, p.as_str());
        },
        (None, Some(c)) => {
            push_value_log(out, secondary, field, c.as_str());
        },
        (None, None) => {},
    }
    assert(logs(out@) =~= start + value_logs(index, field@, values));
}

impl Drawer {
    pub fn find_offset(&self, key: &str) -> (r: Option<u64>)
        ensures
            r == offset_of(self@, key@),
    {
        match self.primary_memory_index.get(key) {
            Some(offset) => Some(*offset),
            None => None,
        }
    }

    /// Lets the first unique fields follow a record.
    fn follow_record(
        &mut self,
        old_record: Option<&JsonValue>,
        record: &JsonValue,
        old_offset: Option<u64>,
        offset: u64,
        index_logs: &mut Vec<IndexLog>,
    )
        ensures
            final(self)@ == (DrawerModel {
                secondary: followed(
                    old(self)@,
                    opt_json(old_record),
                    record@,
                    old_offset,
                    offset,
                    old(self)@.unique.len() as int,
                ),
                ..old(self)@
            }),
            logs(final(index_logs)@) == logs(old(index_logs)@) + follow_logs(
                old(self)@,
                opt_json(old_record),
                record@,
                old_offset,
                offset,
                old(self)@.unique.len() as int,
            ),
    {
        broadcast use group_index;

        let ghost m = self@;
        let ghost before = logs(index_logs@);
        let fields = copy_strings(&self.unique_constraints);
        let mut i: usize = 0;
        assert(before + Seq::<LogModel>::empty() =~= before);
        while i < fields.len()
            invariant
                i <= fields@.len(),
                texts(fields@) == m.unique,
                self@ == (DrawerModel {
                    secondary: followed(
                        m,
                        opt_json(old_record),
                        record@,
                        old_offset,
                        offset,
                        i as int,
                    ),
                    ..m
                }),
                logs(index_logs@) == before + follow_logs(
                    m,
                    opt_json(old_record),
                    record@,
                    old_offset,
                    offset,
                    i as int,
                ),
            decreases fields@.len() - i,
        {
            let field = fields[i].as_str();
            let ghost start = self@.secondary;
            assert(m.unique[i as int] == field@);
            let previous: Option<String> = match (old_record, old_offset) {
                (Some(old), Some(_)) => record_index_key(old, field),
                _ => None,
            };
            let current = record_index_key(record, field);
            let mut index = take_field(&mut self.secondary_memory_index, field);
            match (&previous, old_offset) {
                (Some(value), Some(stale)) => {
                    leave_value(&mut index, value.as_str(), stale);
                },
                _ => {},
            }
            match &current {
                Some(value) => {
                    take_value(&mut index, value.as_str(), offset);
                },
                None => {},
            }
            let ghost updated = field_model(index);
            proof {
                assert(updated == reindexed(
                    field_at(start, field@),
                    previous_key(opt_json(old_record), field@),
                    record_key(record@, field@),
                    old_offset,
                    offset,
                ));
            }
            self.secondary_memory_index.insert(owned(field), index);
            proof {
                assert(start.remove(field@).insert(field@, updated) =~= start.insert(
                    field@,
                    updated,
                ));
                assert(self@.secondary == followed(
                    m,
                    opt_json(old_record),
                    record@,
                    old_offset,
                    offset,
                    i + 1,
                ));
            }
            let ghost logged = logs(index_logs@);
            push_value_logs(index_logs, &self.secondary_memory_index, field, &previous, &current);
            proof {
                let added = value_logs(
                    self@.secondary,
                    field@,
                    changed_values(opt_text(previous), opt_text(current)),
                );
                assert(logs(index_logs@) == logged + added);
                assert(logged + added =~= before + (follow_logs(
                    m,
                    opt_json(old_record),
                    record@,
                    old_offset,
                    offset,
                    i as int,
                ) + added));
            }
            i += 1;
        }
    }

    /// Takes in a record that was written at `offset`.
    pub fn apply_upsert(
        &mut self,
        key: &str,
        old_record: Option<&JsonValue>,
        record: &JsonValue,
        offset: u64,
        block: DataBlockIndexEntry,
        stale: Option<(u64, DataBlockIndexEntry)>,
    ) -> (r: DrawerEffects)
        requires
            old(self)@.record_count < usize::MAX,
        ensures
            ({
                let m = old(self)@;
                let after = placed(m, key@, opt_json(old_record), record@, offset, block, stale);
                &&& final(self)@ == invalidated(after)
                &&& logs(r.index_logs@) == upsert_logs(
                    m,
                    key@,
                    opt_json(old_record),
                    record@,
                    offset,
                    block,
                )
                &&& r.buried is None
                &&& r.freed == freed_block(stale, offset)
                &&& r.persist == drops_index(after)
            }),
    {
        let ghost m = self@;
        let old_offset = self.find_offset(key);
        let mut index_logs: Vec<IndexLog> = Vec::new();
        let first = IndexLog {
            field: self.primary_key.clone(),
            key: owned(key),
            offset: JsonValue::unsigned(offset),
            block: Some(block),
        };
        index_logs.push(first);
        assert(logs(index_logs@) =~= seq![
            LogModel {
                field: m.primary_key,
                key: key@,
                offset: offset_json(offset),
                block: Some(block),
            },
        ]);
        self.follow_record(old_record, record, old_offset, offset, &mut index_logs);
        self.primary_memory_index.insert(owned(key), offset);
        self.data_block_index.insert(offset, block);
        let freed: Option<(usize, u64)> = match stale {
            Some((stale_offset, old_block)) => {
                if stale_offset != offset {
                    self.data_block_index.remove(stale_offset);
                    Some((old_block.size_class, stale_offset))
                } else {
                    None
                }
            },
            None => None,
        };
        if old_offset.is_none() {
            self.record_count = self.record_count + 1;
            self.metadata_dirty = true;
        }
        assert(self@ =~= placed(m, key@, opt_json(old_record), record@, offset, block, stale));
        let persist = self.invalidate_materialized_query_indexes();
        DrawerEffects { buried: None, index_logs, freed, persist }
    }
}

/// The secondary index once the first `n` unique fields no longer hold a deleted record.
pub open spec fn vacated(
    m: DrawerModel,
    record: Json,
    offset: u64,
    n: int,
) -> Map<Seq<char>, Map<Seq<char>, Seq<u64>>>
    decreases n,
{
    if n <= 0 {
        m.secondary
    } else {
        let before = vacated(m, record, offset, n - 1);
        let field = m.unique[n - 1];
        match record_key(record, field) {
            Some(value) => if before.dom().contains(field) {
                before.insert(field, value_left(before[field], value, offset))
            } else {
                before
            },
            None => before,
        }
    }
}

/// The entries of the index file that a delete writes for the first `n` unique fields.
pub open spec fn vacate_logs(m: DrawerModel, record: Json, offset: u64, n: int) -> Seq<LogModel>
    decreases n,
{
    if n <= 0 {
        Seq::empty()
    } else {
        let field = m.unique[n - 1];
        let before = vacate_logs(m, record, offset, n - 1);
        match record_key(record, field) {
            Some(value) => before.push(
                value_log(vacated(m, record, offset, n), field, value),
            ),
            None => before,
        }
    }
}

/// The drawer once the record with the key, which stood at `offset`, is gone, before query
/// indexes are dropped.
pub open spec fn removed(m: DrawerModel, key: Seq<char>, record: Json, offset: u64) -> DrawerModel {
    DrawerModel {
        primary: m.primary.remove(key),
        secondary: vacated(m, record, offset, m.unique.len() as int),
        blocks: m.blocks.remove(offset),
        record_count: if m.record_count == 0 {
            0
        } else {
            (m.record_count - 1) as usize
        },
        metadata_dirty: true,
        ..m
    }
}

impl Drawer {
    /// Forgets a key whose record cannot be read or has no block.
    pub fn forget_key(&mut self, key: &str)
        ensures
            final(self)@ == (DrawerModel { primary: old(self)@.primary.remove(key@), ..old(self)@ }),
    {
        self.primary_memory_index.remove(key);
        assert(self@ =~= (DrawerModel { primary: old(self)@.primary.remove(key@), ..old(self)@ }));
    }

    fn vacate_record(
        &mut self,
        record: &JsonValue,
        offset: u64,
        index_logs: &mut Vec<IndexLog>,
    )
        requires
            logs(old(index_logs)@) == Seq::<LogModel>::empty(),
        ensures
            final(self)@ == (DrawerModel {
                secondary: vacated(
                    old(self)@,
                    record@,
                    offset,
                    old(self)@.unique.len() as int,
                ),
                ..old(self)@
            }),
            logs(final(index_logs)@) == vacate_logs(
                old(self)@,
                record@,
                offset,
                old(self)@.unique.len() as int,
            ),
    {
        broadcast use group_index;

        let ghost m = self@;
        let fields = copy_strings(&self.unique_constraints);
        let mut i: usize = 0;
        while i < fields.len()
            invariant
                i <= fields@.len(),
                texts(fields@) == m.unique,
                self@ == (DrawerModel {
                    secondary: vacated(m, record@, offset, i as int),
                    ..m
                }),
                logs(index_logs@) == vacate_logs(m, record@, offset, i as int),
            decreases fields@.len() - i,
        {
            let field = fields[i].as_str();
            let ghost start = self@.secondary;
            assert(m.unique[i as int] == field@);
            match record_index_key(record, field) {
                Some(value) => {
                    if self.secondary_memory_index.contains_key(field) {
                        let mut index = take_field(&mut self.secondary_memory_index, field);
                        leave_value(&mut index, value.as_str(), offset);
                        let ghost updated = field_model(index);
                        self.secondary_memory_index.insert(owned(field), index);
                        proof {
                            assert(start.remove(field@).insert(field@, updated) =~= start.insert(
                                field@,
                                updated,
                            ));
                        }
                    }
                    assert(self@.secondary == vacated(m, record@, offset, i + 1));
                    push_value_log(
                        index_logs,
                        &self.secondary_memory_index,
                        field,
                        value.as_str(),
                    );
                },
                None => {},
            }
            i += 1;
        }
    }

    /// Lets go of a record that stood at `offset` in a block of the given size.
    pub fn apply_delete(
        &mut self,
        key: &str,
        record: &JsonValue,
        offset: u64,
        block: DataBlockIndexEntry,
    ) -> (r: DrawerEffects)
        ensures
            ({
                let m = old(self)@;
                let after = removed(m, key@, record@, offset);
                &&& final(self)@ == invalidated(after)
                &&& logs(r.index_logs@) == vacate_logs(m, record@, offset, m.unique.len() as int)
                &&& opt_text(r.buried) == Some(key@)
                &&& r.freed == Some((block.size_class, offset))
                &&& r.persist == drops_index(after)
            }),
    {
        let ghost m = self@;
        let mut index_logs: Vec<IndexLog> = Vec::new();
        assert(logs(index_logs@) =~= Seq::<LogModel>::empty());
        self.vacate_record(record, offset, &mut index_logs);
        self.primary_memory_index.remove(key);
        self.data_block_index.remove(offset);
        if self.record_count > 0 {
            self.record_count = self.record_count - 1;
        }
        self.metadata_dirty = true;
        assert(self@ =~= removed(m, key@, record@, offset));
        let persist = self.invalidate_materialized_query_indexes();
        DrawerEffects {
            buried: Some(owned(key)),
            index_logs,
            freed: Some((block.size_class, offset)),
            persist,
        }
    }
}

/// Whether an offset other than `own` stands in the list.
pub open spec fn held_by_other(offsets: Seq<u64>, own: Option<u64>) -> bool {
    exists|i: int| 0 <= i < offsets.len() && Some(#[trigger] offsets[i]) != own
}

/// Whether another record holds the text that `record` has in a unique field.
pub open spec fn taken_by_other(
    m: DrawerModel,
    record: Json,
    own: Option<u64>,
    field: Seq<char>,
) -> bool {
    match record.get_text(field) {
        Some(value) => held_by_other(offsets_at(field_at(m.secondary, field), value), own),
        None => false,
    }
}

/// The message for a unique field whose value another record holds.
pub open spec fn not_unique(field: Seq<char>, value: Seq<char>) -> Seq<char> {
    "Unique constraint violation: Field '"@ + field + "' with value '"@ + value + "' already exists"@
}

/// The message for the first unique field, from the one at `i` on, whose value another record
/// holds.
pub open spec fn unique_problem(m: DrawerModel, record: Json, own: Option<u64>, i: int) -> Option<
    Seq<char>,
>
    decreases m.unique.len() - i,
{
    if i >= m.unique.len() {
        None
    } else if taken_by_other(m, record, own, m.unique[i]) {
        Some(not_unique(m.unique[i], record.get_text(m.unique[i])->0))
    } else {
        unique_problem(m, record, own, i + 1)
    }
}

fn other_holds(offsets: &Vec<u64>, own: Option<u64>) -> (r: bool)
    ensures
        r == held_by_other(offsets@, own),
{
    let mut i: usize = 0;
    while i < offsets.len()
        invariant
            i <= offsets@.len(),
            forall|k: int| 0 <= k < i ==> Some(offsets@[k]) == own,
        decreases offsets@.len() - i,
    {
        let differs = match own {
            Some(o) => offsets[i] != o,
            None => true,
        };
        if differs {
            assert(Some(offsets@[i as int]) != own);
            return true;
        }
        i += 1;
    }
    false
}

impl Drawer {
    /// Whether another record holds the text that `record` has in a unique field.
    pub fn unique_value_taken(&self, record: &JsonValue, own: Option<u64>, field: &str) -> (r: bool)
        ensures
            r == taken_by_other(self@, record@, own, field@),
    {
        match record.get_str(field) {
            Some(value) => {
                let offsets: Vec<u64> = match self.secondary_memory_index.get(field) {
                    Some(index) => offsets_for(index, value),
                    None => Vec::new(),
                };
                assert(offsets@ =~= offsets_at(field_at(self@.secondary, field@), value@));
                other_holds(&offsets, own)
            },
            None => false,
        }
    }

    /// The first unique field of `record` whose value another record holds.
    pub fn check_unique(&self, record: &JsonValue, own: Option<u64>) -> (r: Option<String>)
        ensures
            opt_text(r) == unique_problem(self@, record@, own, 0),
    {
        let mut i: usize = 0;
        while i < self.unique_constraints.len()
            invariant
                i <= self.unique_constraints@.len(),
                unique_problem(self@, record@, own, 0) == unique_problem(
                    self@,
                    record@,
                    own,
                    i as int,
                ),
            decreases self.unique_constraints@.len() - i,
        {
            let field = self.unique_constraints[i].as_str();
            assert(self@.unique[i as int] == field@);
            if self.unique_value_taken(record, own, field) {
                match record.get_str(field) {
                    Some(value) => {
                        return Some(
                            concat5(
                                "Unique constraint violation: Field '",
                                field,
                                "' with value '",
                                value,
                                "' already exists",
                            ),
                        );
                    },
                    None => {},
                }
            }
            i += 1;
        }
        None
    }
}

/// Whether one key, and no other, has the record at `offset`.
pub open spec fn lone(m: DrawerModel, offset: u64) -> bool {
    exists|k: Seq<char>| #[trigger] only_key(m, offset, k)
}

pub open spec fn only_key(m: DrawerModel, offset: u64, key: Seq<char>) -> bool {
    &&& offset_of(m, key) == Some(offset)
    &&& forall|k: Seq<char>| #[trigger] offset_of(m, k) == Some(offset) ==> k == key
}

/// Whether `next` is the first live record behind `offset`.
pub open spec fn is_next_live(m: DrawerModel, offset: u64, next: u64) -> bool {
    &&& next > offset
    &&& exists|k: Seq<char>| #[trigger] offset_of(m, k) == Some(next)
    &&& forall|k: Seq<char>|
        match #[trigger] offset_of(m, k) {
            Some(o) => o > offset ==> next <= o,
            None => true,
        }
}

/// The size of the slot at `stale`: up to the first live record behind it where there is one
/// within the file, else up to the end of the file. A slot that two keys share is taken to reach
/// to the end of the file.
pub open spec fn is_slot_size(m: DrawerModel, stale: u64, file_len: u64, size: int) -> bool {
    if lone(m, stale) && exists|next: u64| #[trigger] is_next_live(m, stale, next) && next <= file_len {
        exists|next: u64| #[trigger] is_next_live(m, stale, next) && size == next - stale
    } else {
        size == file_len - stale
    }
}

impl Drawer {
    pub fn estimate_data_slot_size(&self, stale_offset: u64, current_file_len: u64) -> (r: u64)
        requires
            stale_offset <= current_file_len,
        ensures
            is_slot_size(self@, stale_offset, current_file_len, r as int),
    {
        let ghost m = self@;
        let n: usize = self.primary_memory_index.len();
        let ghost keys = self.primary_memory_index.keys();
        let mut first: Option<usize> = None;
        let mut more = false;
        let mut next: Option<u64> = None;
        let mut i: usize = 0;
        while i < n
            invariant
                m == self@,
                keys == self.primary_memory_index.keys(),
                n == keys.len(),
                lists(keys, m.primary.dom()),
                i <= n,
                match first {
                    Some(f) => f < i && m.primary[keys[f as int]] == stale_offset,
                    None => !more && forall|j: int|
                        0 <= j < i ==> m.primary[#[trigger] keys[j]] != stale_offset,
                },
                more ==> exists|j: int|
                    0 <= j < i && first != Some(j as usize) && m.primary[#[trigger] keys[j]]
                        == stale_offset,
                !more ==> forall|j: int|
                    0 <= j < i && m.primary[#[trigger] keys[j]] == stale_offset ==> first == Some(
                        j as usize,
                    ),
                match next {
                    Some(o) => o > stale_offset && (exists|j: int|
                        0 <= j < i && m.primary[#[trigger] keys[j]] == o) && forall|j: int|
                        0 <= j < i && m.primary[#[trigger] keys[j]] > stale_offset ==> o
                            <= m.primary[keys[j]],
                    None => forall|j: int|
                        0 <= j < i ==> m.primary[#[trigger] keys[j]] <= stale_offset,
                },
            decreases n - i,
        {
            let o: u64 = *self.primary_memory_index.value_at(i);
            if o == stale_offset {
                if first.is_none() {
                    first = Some(i);
                } else {
                    more = true;
                }
            } else if o > stale_offset {
                match next {
                    Some(p) => {
                        if o < p {
                            next = Some(o);
                        }
                    },
                    None => {
                        next = Some(o);
                    },
                }
            }
            i += 1;
        }
        proof {
            lemma_slot_facts(m, keys, stale_offset, first, more, next);
        }
        if first.is_some() && !more {
            if let Some(o) = next {
                if o <= current_file_len {
                    return o - stale_offset;
                }
            }
        }
        current_file_len - stale_offset
    }
}

proof fn lemma_slot_facts(
    m: DrawerModel,
    keys: Seq<Seq<char>>,
    stale: u64,
    first: Option<usize>,
    more: bool,
    next: Option<u64>,
)
    requires
        lists(keys, m.primary.dom()),
        match first {
            Some(f) => f < keys.len() && m.primary[keys[f as int]] == stale,
            None => !more && forall|j: int|
                0 <= j < keys.len() ==> m.primary[#[trigger] keys[j]] != stale,
        },
        more ==> exists|j: int|
            0 <= j < keys.len() && first != Some(j as usize) && m.primary[#[trigger] keys[j]] == stale,
        !more ==> forall|j: int|
            0 <= j < keys.len() && m.primary[#[trigger] keys[j]] == stale ==> first == Some(
                j as usize,
            ),
        keys.len() <= usize::MAX,
        match next {
            Some(o) => o > stale && (exists|j: int|
                0 <= j < keys.len() && m.primary[#[trigger] keys[j]] == o) && forall|j: int|
                0 <= j < keys.len() && m.primary[#[trigger] keys[j]] > stale ==> o
                    <= m.primary[keys[j]],
            None => forall|j: int| 0 <= j < keys.len() ==> m.primary[#[trigger] keys[j]] <= stale,
        },
    ensures
        (first is Some && !more) == lone(m, stale),
        match next {
            Some(o) => is_next_live(m, stale, o) && forall|p: u64| #[trigger]
                is_next_live(m, stale, p) ==> p == o,
            None => forall|p: u64| !is_next_live(m, stale, p),
        },
{
    assert forall|j: int| 0 <= j < keys.len() implies offset_of(m, #[trigger] keys[j]) == Some(
        m.primary[keys[j]],
    ) by {
        assert(keys.contains(keys[j]));
    }
    assert forall|k: Seq<char>| #[trigger] offset_of(m, k) is Some implies exists|j: int|
        0 <= j < keys.len() && #[trigger] keys[j] == k by {
        assert(m.primary.dom().contains(k));
        assert(keys.contains(k));
    }
    if first is Some {
        let f = first->0 as int;
        if !more {
            assert(only_key(m, stale, keys[f]));
        } else {
            let j = choose|j: int|
                0 <= j < keys.len() && first != Some(j as usize) && m.primary[#[trigger] keys[j]]
                    == stale;
            assert(keys[j] != keys[f]) by {
                crate::text::lemma_before_irreflexive(keys[j]);
            }
            assert forall|k: Seq<char>| !#[trigger] only_key(m, stale, k) by {
                assert(offset_of(m, keys[j]) == Some(stale));
                assert(offset_of(m, keys[f]) == Some(stale));
            }
        }
    } else {
        assert forall|k: Seq<char>| !#[trigger] only_key(m, stale, k) by {}
    }
    if next is Some {
        let o = next->0;
        let j = choose|j: int| 0 <= j < keys.len() && m.primary[#[trigger] keys[j]] == o;
        assert(offset_of(m, keys[j]) == Some(o));
        assert(is_next_live(m, stale, o));
        assert forall|p: u64| #[trigger] is_next_live(m, stale, p) implies p == o by {
            let k = choose|k: Seq<char>| #[trigger] offset_of(m, k) == Some(p);
            assert(p <= o);
            assert(o <= p);
        }
    }
}

/// The block at `stale`: the one that the index knows; else, where the offset lies within the
/// file, a live one of the estimated size, with the length and the checksum of the payload where
/// there is one.
pub open spec fn is_historical_block(
    m: DrawerModel,
    stale: u64,
    file_len: u64,
    payload: Option<Seq<u8>>,
    r: Option<(u64, DataBlockIndexEntry)>,
) -> bool {
    if m.blocks.dom().contains(stale) {
        r == Some((stale, m.blocks[stale]))
    } else if stale >= file_len {
        r is None
    } else {
        exists|size: u64|
            {
                &&& #[trigger] is_slot_size(m, stale, file_len, size as int)
                &&& r == Some(
                    (
                        stale,
                        DataBlockIndexEntry {
                            payload_len: match payload {
                                Some(bytes) => bytes.len() as usize,
                                None => size as usize,
                            },
                            size_class: size as usize,
                            crc: match payload {
                                Some(bytes) => checksum(bytes),
                                None => 0,
                            },
                            status: DATA_BLOCK_STATUS_LIVE,
                        },
                    ),
                )
            }
    }
}

/// The view of an optional slice of bytes.
pub open spec fn opt_bytes(bytes: Option<&[u8]>) -> Option<Seq<u8>> {
    match bytes {
        Some(b) => Some(b@),
        None => None,
    }
}

/// The sum of the sizes of the first `n` blocks.
pub open spec fn block_bytes(blocks: Map<u64, DataBlockIndexEntry>, n: int) -> int
    decreases n,
{
    if n <= 0 {
        0
    } else {
        block_bytes(blocks, n - 1) + blocks[offset_order(blocks.dom())[n - 1]].size_class
    }
}

/// The bytes of the data file that live blocks take.
pub open spec fn live_bytes(m: DrawerModel) -> int {
    block_bytes(m.blocks, offset_order(m.blocks.dom()).len() as int)
}

/// Whether it pays to read the live records one by one: more than 64 KiB of the data file are
/// dead, and more than half as many as are live.
pub open spec fn mostly_dead(m: DrawerModel, total_bytes: u64) -> bool {
    let live = live_bytes(m);
    let dead = total_bytes - live;
    &&& !(m.primary.dom() =~= Set::<Seq<char>>::empty())
    &&& live > 0
    &&& dead > 65_536
    &&& dead > live / 2
}

proof fn lemma_block_bytes(blocks: Map<u64, DataBlockIndexEntry>, n: int, all: int)
    requires
        0 <= n <= all,
    ensures
        0 <= block_bytes(blocks, n) <= block_bytes(blocks, all),
    decreases all,
{
    if n < all {
        lemma_block_bytes(blocks, n, all - 1);
    } else if n > 0 {
        lemma_block_bytes(blocks, n - 1, n - 1);
    }
}

impl Drawer {
    pub fn historical_block_entry(
        &self,
        stale_offset: u64,
        current_file_len: u64,
        old_payload: Option<&[u8]>,
    ) -> (r: Option<(u64, DataBlockIndexEntry)>)
        ensures
            is_historical_block(
                self@,
                stale_offset,
                current_file_len,
                opt_bytes(old_payload),
                r,
            ),
    {
        match self.data_block_index.get(stale_offset) {
            Some(block) => {
                return Some((stale_offset, *block));
            },
            None => {},
        }
        if stale_offset >= current_file_len {
            return None;
        }
        let size: u64 = self.estimate_data_slot_size(stale_offset, current_file_len);
        let size_class: usize = size as usize;
        let (payload_len, crc): (usize, u32) = match old_payload {
            Some(bytes) => (bytes.len(), crc32(bytes)),
            None => (size_class, 0),
        };
        Some(
            (
                stale_offset,
                DataBlockIndexEntry { payload_len, size_class, crc, status: DATA_BLOCK_STATUS_LIVE },
            ),
        )
    }

    pub fn record_count(&self) -> (r: usize)
        ensures
            r == self@.record_count,
    {
        self.record_count
    }

    fn live_offsets(&self) -> (r: Vec<u64>)
        ensures
            r@ == Seq::new(
                self.primary_memory_index.keys().len(),
                |i: int| self@.primary[self.primary_memory_index.keys()[i]],
            ),
            lists(self.primary_memory_index.keys(), self@.primary.dom()),
    {
        let n: usize = self.primary_memory_index.len();
        let ghost keys = self.primary_memory_index.keys();
        let ghost all = Seq::new(keys.len(), |i: int| self@.primary[keys[i]]);
        let mut out: Vec<u64> = Vec::new();
        let mut i: usize = 0;
        while i < n
            invariant
                keys == self.primary_memory_index.keys(),
                n == keys.len(),
                i <= n,
                all == Seq::new(keys.len(), |i: int| self@.primary[keys[i]]),
                out@ == all.subrange(0, i as int),
            decreases n - i,
        {
            out.push(*self.primary_memory_index.value_at(i));
            i += 1;
            assert(all.subrange(0, i as int) =~= all.subrange(0, i - 1).push(all[i - 1]));
        }
        assert(out@ =~= all);
        out
    }

    /// The offsets of the live records in ascending order, each once.
    pub fn sorted_live_primary_offsets(&self) -> (r: Vec<u64>)
        ensures
            strictly_ascending(r@),
            forall|o: u64| #[trigger]
                r@.contains(o) <==> exists|k: Seq<char>| #[trigger] offset_of(self@, k) == Some(o),
    {
        let offsets = self.live_offsets();
        let r = sorted_set(&offsets);
        proof {
            let keys = self.primary_memory_index.keys();
            assert forall|o: u64| #[trigger] r@.contains(o) <==> exists|k: Seq<char>| #[trigger]
                offset_of(self@, k) == Some(o) by {
                if r@.contains(o) {
                    assert(offsets@.contains(o));
                    let i = choose|i: int| 0 <= i < offsets@.len() && offsets@[i] == o;
                    assert(keys.contains(keys[i]));
                    assert(self@.primary.dom().contains(keys[i]));
                    assert(offset_of(self@, keys[i]) == Some(o));
                }
                if exists|k: Seq<char>| #[trigger] offset_of(self@, k) == Some(o) {
                    let k = choose|k: Seq<char>| #[trigger] offset_of(self@, k) == Some(o);
                    assert(self@.primary.dom().contains(k));
                    assert(keys.contains(k));
                    let i = choose|i: int| 0 <= i < keys.len() && keys[i] == k;
                    assert(offsets@[i] == o);
                    assert(offsets@.contains(o));
                }
            }
        }
        r
    }

    /// Whether to read the live records one by one rather than the whole data file.
    pub fn should_read_by_primary_offsets(&self, total_bytes: u64) -> (r: bool)
        requires
            live_bytes(self@) <= u64::MAX,
        ensures
            r == mostly_dead(self@, total_bytes),
    {
        if self.primary_memory_index.is_empty() {
            return false;
        }
        let offsets = self.data_block_index.offset_list();
        let ghost blocks = self@.blocks;
        let mut live: u64 = 0;
        let mut i: usize = 0;
        while i < offsets.len()
            invariant
                blocks == self@.blocks,
                offsets@ == self.data_block_index.offsets(),
                lists_offsets(offsets@, blocks.dom()),
                i <= offsets@.len(),
                live == block_bytes(blocks, i as int),
                live_bytes(self@) <= u64::MAX,
            decreases offsets@.len() - i,
        {
            assert(offsets@.contains(offsets@[i as int]));
            match self.data_block_index.get(offsets[i]) {
                Some(block) => {
                    proof {
                        lemma_block_bytes(blocks, i + 1, offsets@.len() as int);
                    }
                    live = live + block.size_class as u64;
                },
                None => {},
            }
            i += 1;
        }
        if live == 0 {
            return false;
        }
        let dead: u64 = if total_bytes >= live {
            total_bytes - live
        } else {
            0
        };
        dead > 65_536 && dead > live / 2
    }
}

} // verus!
