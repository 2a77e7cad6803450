//! What a drawer that is opened again knows of the records that were written to it and deleted
//! from it.
use crate::drawer::blocks::{DataBlockIndexEntry, DATA_BLOCK_STATUS_LIVE};
use crate::drawer::contents::{
    delete_effects, deleted, record_of, stale_block, write_effects, written, WriteModel,
};
use crate::drawer::index::{field_at, offsets_at, record_key, value_left};
use crate::drawer::index_file::{
    cleared, effects_done, entries_written, entry_buried, entry_written, keeps_field,
    law_index_file_is_read_back, lemma_entry_buried, lemma_entry_written, no_empty_lists,
    places_free, plain_fields, slots_hold, tells, IndexFile,
};
use crate::drawer::laws::{count_agrees, law_delete_keeps_count, law_upsert_keeps_count};
use crate::drawer::records::{
    changed_values, follow_logs, followed, left_value, offset_of, placed, previous_key, reindexed,
    removed, upsert_logs, vacate_logs, vacated, value_log, value_logs,
};
use crate::drawer::replay::{
    chosen_unique, opened, replay_start, replayed, MetadataModel, SlotModel,
};
use crate::drawer::{invalidated, DrawerModel, LogModel};
use crate::value::Json;
use vstd::prelude::*;

verus! {

/// The drawer with another index of its fields.
pub open spec fn indexed(m: DrawerModel, secondary: Map<Seq<char>, Map<Seq<char>, Seq<u64>>>) -> DrawerModel {
    DrawerModel { secondary, ..m }
}

/// The index of a field with the records of one value.
pub open spec fn listed(
    index: Map<Seq<char>, Seq<u64>>,
    value: Seq<char>,
    offsets: Seq<u64>,
) -> Map<Seq<char>, Seq<u64>> {
    if offsets.len() == 0 {
        index.remove(value)
    } else {
        index.insert(value, offsets)
    }
}

/// What a file tells of a drawer does not depend on anything but its records and its unique
/// fields.
pub proof fn lemma_same_told(file: IndexFile, m1: DrawerModel, m2: DrawerModel)
    requires
        tells(file, m1),
        m1.primary_key == m2.primary_key,
        m1.unique == m2.unique,
        m1.primary == m2.primary,
        forall|f: Seq<char>| #[trigger]
            m1.unique.contains(f) ==> field_at(m1.secondary, f) == field_at(m2.secondary, f),
    ensures
        tells(file, m2),
{
    assert forall|f: Seq<char>, v: Seq<char>|
        m2.unique.contains(f) && #[trigger] field_at(
            m2.secondary,
            f,
        ).dom().contains(v) implies field_at(m1.secondary, f).dom().contains(v) by {
        assert(m1.unique.contains(f));
    }
}

proof fn lemma_invalidated_told(file: IndexFile, m: DrawerModel)
    requires
        tells(file, m),
    ensures
        tells(file, invalidated(m)),
{
    lemma_same_told(file, m, invalidated(m));
}

/// Writing the entry of one value turns what the file tells of a field.
pub proof fn lemma_value_written(
    file: IndexFile,
    m: DrawerModel,
    after: Map<Seq<char>, Map<Seq<char>, Seq<u64>>>,
    field: Seq<char>,
    value: Seq<char>,
    place: (u64, usize),
)
    requires
        tells(file, m),
        plain_fields(m),
        m.unique.contains(field),
        !file.entries.dom().contains(place.0),
    ensures
        tells(
            entry_written(file, value_log(after, field, value), place),
            indexed(
                m,
                m.secondary.insert(
                    field,
                    listed(
                        field_at(m.secondary, field),
                        value,
                        offsets_at(field_at(after, field), value),
                    ),
                ),
            ),
        ),
{
    let offsets = offsets_at(field_at(after, field), value);
    let index = listed(field_at(m.secondary, field), value, offsets);
    let m2 = indexed(m, m.secondary.insert(field, index));
    let log = value_log(after, field, value);
    assert(field_at(m2.secondary, field) == index);
    assert(offsets_at(index, value) =~= offsets);
    assert forall|f: Seq<char>, v: Seq<char>|
        m2.unique.contains(f) && #[trigger] field_at(
            m2.secondary,
            f,
        ).dom().contains(v) implies field_at(m2.secondary, f)[v].len() > 0 by {
        if f != field {
            assert(field_at(m2.secondary, f) == field_at(m.secondary, f));
        }
        if !(f == field && v == value) {
            assert(field_at(m.secondary, f).dom().contains(v));
        }
    }
    assert forall|f: Seq<char>, v: Seq<char>|
        m.unique.contains(f) && !(f == field && v == value) implies (#[trigger] field_at(
        m2.secondary,
        f,
    ).dom().contains(v) <==> field_at(m.secondary, f).dom().contains(v)) && (field_at(
        m.secondary,
        f,
    ).dom().contains(v) ==> field_at(m2.secondary, f)[v] == field_at(m.secondary, f)[v]) by {
        if f != field {
            assert(field_at(m2.secondary, f) == field_at(m.secondary, f));
        }
    }
    assert(keeps_field(m.primary_key, m.unique, log.field));
    lemma_entry_written(file, m, m2, log, place);
}

/// Writing the entries of the values that changed turns what the file tells of a field.
proof fn lemma_values_written(
    file: IndexFile,
    logs: Seq<LogModel>,
    places: Seq<(u64, usize)>,
    k: int,
    m: DrawerModel,
    after: Map<Seq<char>, Map<Seq<char>, Seq<u64>>>,
    field: Seq<char>,
    values: Seq<Seq<char>>,
)
    requires
        places_free(file, logs, places),
        0 <= k,
        k + values.len() <= logs.len(),
        values.len() <= 2,
        values.len() == 2 ==> values[0] != values[1],
        tells(entries_written(file, logs, places, k), m),
        plain_fields(m),
        m.unique.contains(field),
        forall|j: int|
            0 <= j < values.len() ==> #[trigger] logs[k + j] == value_log(after, field, values[j]),
        after == m.secondary.insert(field, field_at(after, field)),
        forall|v: Seq<char>| #[trigger]
            field_at(after, field).dom().contains(v) && values.contains(v) ==> offsets_at(
                field_at(after, field),
                v,
            ).len() > 0,
        forall|v: Seq<char>|
            !values.contains(v) ==> (#[trigger] field_at(after, field).dom().contains(v)
                <==> field_at(m.secondary, field).dom().contains(v)) && (field_at(
                m.secondary,
                field,
            ).dom().contains(v) ==> field_at(after, field)[v] == field_at(m.secondary, field)[v]),
    ensures
        tells(entries_written(file, logs, places, k + values.len()), indexed(m, after)),
{
    let a = field_at(m.secondary, field);
    let b = field_at(after, field);
    if values.len() == 0 {
        assert forall|v: Seq<char>| a.dom().contains(v) <==> b.dom().contains(v) by {
            assert(!values.contains(v));
        }
        assert(a =~= b);
        assert forall|f: Seq<char>| #[trigger] m.unique.contains(f) implies field_at(m.secondary, f)
            == field_at(after, f) by {}
        lemma_same_told(entries_written(file, logs, places, k), m, indexed(m, after));
    } else {
        let v0 = values[0];
        let f0 = entries_written(file, logs, places, k);
        assert(logs[k + 0] == value_log(after, field, v0));
        assert(!f0.entries.dom().contains(places[k].0));
        lemma_value_written(f0, m, after, field, v0, places[k]);
        let c1 = listed(a, v0, offsets_at(b, v0));
        let m1 = indexed(m, m.secondary.insert(field, c1));
        let f1 = entries_written(file, logs, places, k + 1);
        assert(f1 == entry_written(f0, logs[k], places[k]));
        assert(tells(f1, m1));
        assert(values.contains(v0));
        if values.len() == 1 {
            assert(c1 =~= b) by {
                assert forall|v: Seq<char>| c1.dom().contains(v) <==> b.dom().contains(v) by {
                    assert(values.contains(v) <==> v == v0);
                }
                assert forall|v: Seq<char>| c1.dom().contains(v) implies c1[v] == b[v] by {
                    assert(values.contains(v) <==> v == v0);
                    assert(b.dom().contains(v));
                }
            }
        } else {
            let v1 = values[1];
            assert(logs[k + 1] == value_log(after, field, v1));
            assert(!f1.entries.dom().contains(places[k + 1].0));
            lemma_value_written(f1, m1, after, field, v1, places[k + 1]);
            assert(field_at(m1.secondary, field) == c1);
            let c2 = listed(c1, v1, offsets_at(b, v1));
            let f2 = entries_written(file, logs, places, k + 2);
            assert(f2 == entry_written(f1, logs[k + 1], places[k + 1]));
            assert(values.contains(v1));
            assert(c2 =~= b) by {
                assert forall|v: Seq<char>| c2.dom().contains(v) <==> b.dom().contains(v) by {
                    assert(values.contains(v) <==> v == v0 || v == v1);
                }
                assert forall|v: Seq<char>| c2.dom().contains(v) implies c2[v] == b[v] by {
                    assert(values.contains(v) <==> v == v0 || v == v1);
                    assert(b.dom().contains(v));
                }
            }
            assert(m1.secondary.insert(field, c2) =~= after);
        }
    }
}

/// The entry of the primary key tells where the record stands.
pub proof fn lemma_key_written(
    file: IndexFile,
    m: DrawerModel,
    key: Seq<char>,
    log: LogModel,
    offset: u64,
    place: (u64, usize),
)
    requires
        tells(file, m),
        plain_fields(m),
        log.field == m.primary_key,
        log.key == key,
        log.offset == crate::drawer::offset_json(offset),
        log.block is Some,
        log.block->0.status == DATA_BLOCK_STATUS_LIVE,
        !file.entries.dom().contains(place.0),
    ensures
        tells(
            entry_written(file, log, place),
            (DrawerModel { primary: m.primary.insert(key, offset), ..m }),
        ),
{
    let m2 = DrawerModel { primary: m.primary.insert(key, offset), ..m };
    assert(no_empty_lists(m2)) by {
        assert forall|f: Seq<char>, v: Seq<char>|
            m2.unique.contains(f) && #[trigger] field_at(
                m2.secondary,
                f,
            ).dom().contains(v) implies field_at(m2.secondary, f)[v].len() > 0 by {
            assert(field_at(m.secondary, f).dom().contains(v));
        }
    }
    assert(keeps_field(m.primary_key, m.unique, log.field));
    lemma_entry_written(file, m, m2, log, place);
}

#[verifier::spinoff_prover]
proof fn lemma_follow(
    file: IndexFile,
    places: Seq<(u64, usize)>,
    m: DrawerModel,
    key: Seq<char>,
    old_record: Option<Json>,
    record: Json,
    offset: u64,
    block: DataBlockIndexEntry,
    n: int,
)
    requires
        tells(file, m),
        plain_fields(m),
        0 <= n <= m.unique.len(),
        block.status == DATA_BLOCK_STATUS_LIVE,
        places_free(file, upsert_logs(m, key, old_record, record, offset, block), places),
    ensures
        ({
            let old_offset = offset_of(m, key);
            let count = 1 + follow_logs(m, old_record, record, old_offset, offset, n).len() as int;
            tells(
                entries_written(
                    file,
                    upsert_logs(m, key, old_record, record, offset, block),
                    places,
                    count,
                ),
                (DrawerModel {
                    primary: m.primary.insert(key, offset),
                    secondary: followed(m, old_record, record, old_offset, offset, n),
                    ..m
                }),
            )
        }),
    decreases n,
{
    let old_offset = offset_of(m, key);
    let all = upsert_logs(m, key, old_record, record, offset, block);
    if n == 0 {
        reveal_with_fuel(entries_written, 2);
        assert(!entries_written(file, all, places, 0).entries.dom().contains(places[0].0));
        lemma_key_written(file, m, key, all[0], offset, places[0]);
    } else {
        lemma_follow(file, places, m, key, old_record, record, offset, block, n - 1);
        let field = m.unique[n - 1];
        assert(m.unique.contains(field));
        let before = followed(m, old_record, record, old_offset, offset, n - 1);
        let after = followed(m, old_record, record, old_offset, offset, n);
        let now = DrawerModel { primary: m.primary.insert(key, offset), secondary: before, ..m };
        let earlier = follow_logs(m, old_record, record, old_offset, offset, n - 1);
        let previous = left_value(old_record, old_offset, field);
        let current = record_key(record, field);
        let values = changed_values(previous, current);
        let k = 1 + earlier.len() as int;
        lemma_step_entries(m, key, old_record, record, offset, block, n);
        lemma_step_index(before, field, old_record, record, old_offset, offset);
        assert(field_at(after, field) == reindexed(
            field_at(before, field),
            previous_key(old_record, field),
            current,
            old_offset,
            offset,
        ));
        assert forall|v: Seq<char>| !values.contains(v) implies (#[trigger] field_at(
            after,
            field,
        ).dom().contains(v) <==> field_at(now.secondary, field).dom().contains(v)) && (field_at(
            now.secondary,
            field,
        ).dom().contains(v) ==> field_at(after, field)[v] == field_at(now.secondary, field)[v]) by {
            assert(now.secondary == before);
        }
        lemma_values_written(file, all, places, k, now, after, field, values);
    }
}

/// The entries of a field stand behind those of the fields before it.
proof fn lemma_step_entries(
    m: DrawerModel,
    key: Seq<char>,
    old_record: Option<Json>,
    record: Json,
    offset: u64,
    block: DataBlockIndexEntry,
    n: int,
)
    requires
        0 < n <= m.unique.len(),
    ensures
        ({
            let old_offset = offset_of(m, key);
            let field = m.unique[n - 1];
            let after = followed(m, old_record, record, old_offset, offset, n);
            let values = changed_values(
                left_value(old_record, old_offset, field),
                record_key(record, field),
            );
            let all = upsert_logs(m, key, old_record, record, offset, block);
            let k = 1 + follow_logs(m, old_record, record, old_offset, offset, n - 1).len() as int;
            &&& k + values.len() == 1 + follow_logs(
                m,
                old_record,
                record,
                old_offset,
                offset,
                n,
            ).len()
            &&& k + values.len() <= all.len()
            &&& values.len() <= 2
            &&& values.len() == 2 ==> values[0] != values[1]
            &&& forall|j: int|
                0 <= j < values.len() ==> #[trigger] all[k + j] == value_log(
                    after,
                    field,
                    values[j],
                )
        }),
{
    let old_offset = offset_of(m, key);
    let field = m.unique[n - 1];
    let after = followed(m, old_record, record, old_offset, offset, n);
    let values = changed_values(
        left_value(old_record, old_offset, field),
        record_key(record, field),
    );
    let earlier = follow_logs(m, old_record, record, old_offset, offset, n - 1);
    let now = follow_logs(m, old_record, record, old_offset, offset, n);
    let total = m.unique.len() as int;
    let rest = follow_logs(m, old_record, record, old_offset, offset, total);
    let all = upsert_logs(m, key, old_record, record, offset, block);
    let k = 1 + earlier.len() as int;
    lemma_logs_prefix(m, old_record, record, old_offset, offset, n, total);
    assert(now == earlier + value_logs(after, field, values));
    assert(all.len() == 1 + rest.len());
    assert forall|j: int| 0 <= j < values.len() implies #[trigger] all[k + j] == value_log(
        after,
        field,
        values[j],
    ) by {
        let at = earlier.len() + j;
        assert(now[at] == value_log(after, field, values[j]));
        assert(rest[at] == now[at]);
        assert(all[k + j] == rest[at]);
    }
}

/// The index of a field changes only at the values that the record left or took, and no value has
/// an empty list.
proof fn lemma_reindexed(
    index: Map<Seq<char>, Seq<u64>>,
    previous: Option<Seq<char>>,
    current: Option<Seq<char>>,
    old_offset: Option<u64>,
    offset: u64,
    value: Seq<char>,
)
    ensures
        ({
            let after = reindexed(index, previous, current, old_offset, offset);
            let left = if old_offset is Some {
                previous
            } else {
                None
            };
            if left == Some(value) || current == Some(value) {
                after.dom().contains(value) <==> offsets_at(after, value).len() > 0
            } else {
                (after.dom().contains(value) <==> index.dom().contains(value)) && (
                index.dom().contains(value) ==> after[value] == index[value])
            }
        }),
{
    let after = reindexed(index, previous, current, old_offset, offset);
    match (previous, old_offset) {
        (Some(p), Some(o)) => {
            let left = value_left(index, p, o);
            match current {
                Some(c) => {
                    let offsets = offsets_at(left, c);
                    if !offsets.contains(offset) {
                        assert(offsets.push(offset).len() > 0);
                    } else {
                        assert(offsets.len() > 0);
                    }
                },
                None => {},
            }
        },
        _ => {
            match current {
                Some(c) => {
                    let offsets = offsets_at(index, c);
                    if !offsets.contains(offset) {
                        assert(offsets.push(offset).len() > 0);
                    } else {
                        assert(offsets.len() > 0);
                    }
                },
                None => {},
            }
        },
    }
}

/// The index of a field changes only at the values whose entries are written.
proof fn lemma_step_index(
    before: Map<Seq<char>, Map<Seq<char>, Seq<u64>>>,
    field: Seq<char>,
    old_record: Option<Json>,
    record: Json,
    old_offset: Option<u64>,
    offset: u64,
)
    ensures
        ({
            let current = record_key(record, field);
            let previous = previous_key(old_record, field);
            let values = changed_values(left_value(old_record, old_offset, field), current);
            let a = field_at(before, field);
            let b = reindexed(a, previous, current, old_offset, offset);
            &&& forall|v: Seq<char>| #[trigger]
                b.dom().contains(v) && values.contains(v) ==> offsets_at(b, v).len() > 0
            &&& forall|v: Seq<char>|
                !values.contains(v) ==> (#[trigger] b.dom().contains(v) <==> a.dom().contains(v))
                    && (a.dom().contains(v) ==> b[v] == a[v])
        }),
{
    let current = record_key(record, field);
    let previous = previous_key(old_record, field);
    let left = left_value(old_record, old_offset, field);
    let values = changed_values(left, current);
    let a = field_at(before, field);
    let b = reindexed(a, previous, current, old_offset, offset);
    assert forall|v: Seq<char>| #[trigger] b.dom().contains(v) && values.contains(v) implies offsets_at(
        b,
        v,
    ).len() > 0 by {
        lemma_reindexed(a, previous, current, old_offset, offset, v);
        lemma_changed_only(left, current, v);
    }
    assert forall|v: Seq<char>| !values.contains(v) implies (#[trigger] b.dom().contains(v)
        <==> a.dom().contains(v)) && (a.dom().contains(v) ==> b[v] == a[v]) by {
        lemma_reindexed(a, previous, current, old_offset, offset, v);
        if left == Some(v) || current == Some(v) {
            lemma_changed_holds(left, current, v);
        }
    }
}

proof fn lemma_changed_only(
    previous: Option<Seq<char>>,
    current: Option<Seq<char>>,
    value: Seq<char>,
)
    requires
        changed_values(previous, current).contains(value),
    ensures
        previous == Some(value) || current == Some(value),
{
}

proof fn lemma_changed_holds(
    previous: Option<Seq<char>>,
    current: Option<Seq<char>>,
    value: Seq<char>,
)
    requires
        previous == Some(value) || current == Some(value),
    ensures
        changed_values(previous, current).contains(value),
{
    let values = changed_values(previous, current);
    match (previous, current) {
        (Some(p), Some(c)) => {
            if p == c {
                assert(values[0] == value);
            } else {
                assert(values[0] == value || values[1] == value);
            }
        },
        _ => {
            assert(values[0] == value);
        },
    }
}

/// The entries of the first fields stand before those of the others.
proof fn lemma_logs_prefix(
    m: DrawerModel,
    old_record: Option<Json>,
    record: Json,
    old_offset: Option<u64>,
    offset: u64,
    n: int,
    total: int,
)
    requires
        0 <= n <= total,
    ensures
        ({
            let some = follow_logs(m, old_record, record, old_offset, offset, n);
            let all = follow_logs(m, old_record, record, old_offset, offset, total);
            some.len() <= all.len() && forall|i: int|
                0 <= i < some.len() ==> #[trigger] all[i] == some[i]
        }),
    decreases total - n,
{
    if n < total {
        lemma_logs_prefix(m, old_record, record, old_offset, offset, n + 1, total);
        let some = follow_logs(m, old_record, record, old_offset, offset, n);
        let next = follow_logs(m, old_record, record, old_offset, offset, n + 1);
        let all = follow_logs(m, old_record, record, old_offset, offset, total);
        assert forall|i: int| 0 <= i < some.len() implies #[trigger] all[i] == some[i] by {
            assert(next[i] == some[i]);
        }
    }
}

/// Writing a record keeps the index file telling what the drawer knows, wherever the entries
/// that the write adds are put: behind the others or over tombstones.
pub proof fn law_written_record_is_told(
    file: IndexFile,
    places: Seq<(u64, usize)>,
    m: DrawerModel,
    key: Seq<char>,
    old_record: Option<Json>,
    record: Json,
    offset: u64,
    block: DataBlockIndexEntry,
    stale: Option<(u64, DataBlockIndexEntry)>,
)
    requires
        tells(file, m),
        plain_fields(m),
        block.status == DATA_BLOCK_STATUS_LIVE,
        places_free(file, upsert_logs(m, key, old_record, record, offset, block), places),
    ensures
        ({
            let logs = upsert_logs(m, key, old_record, record, offset, block);
            tells(
                entries_written(file, logs, places, logs.len() as int),
                invalidated(placed(m, key, old_record, record, offset, block, stale)),
            )
        }),
{
    let n = m.unique.len() as int;
    let logs = upsert_logs(m, key, old_record, record, offset, block);
    let after = placed(m, key, old_record, record, offset, block, stale);
    lemma_follow(file, places, m, key, old_record, record, offset, block, n);
    let written = entries_written(file, logs, places, logs.len() as int);
    let now = DrawerModel {
        primary: m.primary.insert(key, offset),
        secondary: followed(m, old_record, record, offset_of(m, key), offset, n),
        ..m
    };
    assert(tells(written, now));
    lemma_same_told(written, now, after);
    lemma_invalidated_told(written, after);
}

/// The index of a field changes only at the value that a deleted record held.
proof fn lemma_left(index: Map<Seq<char>, Seq<u64>>, value: Seq<char>, offset: u64)
    ensures
        ({
            let after = value_left(index, value, offset);
            &&& after.dom().contains(value) ==> after[value].len() > 0
            &&& forall|v: Seq<char>|
                v != value ==> (#[trigger] after.dom().contains(v) <==> index.dom().contains(v)) && (
                index.dom().contains(v) ==> after[v] == index[v])
        }),
{
}

/// The entries of the first fields stand before those of the others.
proof fn lemma_vacate_prefix(m: DrawerModel, record: Json, offset: u64, n: int, total: int)
    requires
        0 <= n <= total,
    ensures
        ({
            let some = vacate_logs(m, record, offset, n);
            let all = vacate_logs(m, record, offset, total);
            some.len() <= all.len() && forall|i: int|
                0 <= i < some.len() ==> #[trigger] all[i] == some[i]
        }),
    decreases total - n,
{
    if n < total {
        lemma_vacate_prefix(m, record, offset, n + 1, total);
        let some = vacate_logs(m, record, offset, n);
        let next = vacate_logs(m, record, offset, n + 1);
        let all = vacate_logs(m, record, offset, total);
        assert forall|i: int| 0 <= i < some.len() implies #[trigger] all[i] == some[i] by {
            assert(next[i] == some[i]);
        }
    }
}

proof fn lemma_vacate(
    file: IndexFile,
    places: Seq<(u64, usize)>,
    m: DrawerModel,
    gone: DrawerModel,
    record: Json,
    offset: u64,
    n: int,
)
    requires
        tells(file, gone),
        plain_fields(gone),
        gone == (DrawerModel { primary: gone.primary, ..m }),
        0 <= n <= m.unique.len(),
        places_free(file, vacate_logs(m, record, offset, m.unique.len() as int), places),
    ensures
        tells(
            entries_written(
                file,
                vacate_logs(m, record, offset, m.unique.len() as int),
                places,
                vacate_logs(m, record, offset, n).len() as int,
            ),
            indexed(gone, vacated(m, record, offset, n)),
        ),
    decreases n,
{
    let total = m.unique.len() as int;
    let all = vacate_logs(m, record, offset, total);
    if n == 0 {
        assert(indexed(gone, m.secondary) == gone);
    } else {
        lemma_vacate(file, places, m, gone, record, offset, n - 1);
        lemma_vacate_prefix(m, record, offset, n, total);
        let field = m.unique[n - 1];
        assert(m.unique.contains(field));
        let before = vacated(m, record, offset, n - 1);
        let after = vacated(m, record, offset, n);
        let earlier = vacate_logs(m, record, offset, n - 1);
        let now = vacate_logs(m, record, offset, n);
        match record_key(record, field) {
            Some(value) => {
                let k = earlier.len() as int;
                assert(now[k] == value_log(after, field, value));
                assert(all[k] == now[k]);
                let values = seq![value];
                assert(values[0] == value);
                let a = field_at(before, field);
                let b = field_at(after, field);
                lemma_left(a, value, offset);
                if before.dom().contains(field) {
                    assert(b == value_left(a, value, offset));
                    assert(after =~= before.insert(field, b));
                    assert forall|v: Seq<char>| #[trigger]
                        b.dom().contains(v) && values.contains(v) implies offsets_at(b, v).len()
                        > 0 by {
                        assert(v == value);
                    }
                    assert forall|v: Seq<char>| !values.contains(v) implies (
                    #[trigger] b.dom().contains(v) <==> a.dom().contains(v)) && (a.dom().contains(v)
                        ==> b[v] == a[v]) by {
                        assert(values.contains(value));
                    }
                    assert forall|j: int| 0 <= j < values.len() implies #[trigger] all[k + j]
                        == value_log(after, field, values[j]) by {}
                    lemma_values_written(
                        file,
                        all,
                        places,
                        k,
                        indexed(gone, before),
                        after,
                        field,
                        values,
                    );
                    assert(indexed(indexed(gone, before), after) == indexed(gone, after));
                } else {
                    let f0 = entries_written(file, all, places, k);
                    assert(!f0.entries.dom().contains(places[k].0));
                    lemma_value_written(f0, indexed(gone, before), after, field, value, places[k]);
                    let empty = listed(a, value, offsets_at(b, value));
                    assert(empty =~= a);
                    let filled = indexed(
                        indexed(gone, before),
                        before.insert(field, empty),
                    );
                    assert(entries_written(file, all, places, k + 1) == entry_written(
                        f0,
                        all[k],
                        places[k],
                    ));
                    lemma_same_told(
                        entries_written(file, all, places, k + 1),
                        filled,
                        indexed(gone, after),
                    );
                }
            },
            None => {},
        }
    }
}

/// Deleting a record keeps the index file telling what the drawer knows: the entry of its key is
/// buried, and the entries of its unique values are put behind the others or over tombstones.
pub proof fn law_deleted_record_is_no_longer_told(
    file: IndexFile,
    places: Seq<(u64, usize)>,
    m: DrawerModel,
    key: Seq<char>,
    record: Json,
    offset: u64,
)
    requires
        tells(file, m),
        plain_fields(m),
        places_free(
            entry_buried(file, m.primary_key, key),
            vacate_logs(m, record, offset, m.unique.len() as int),
            places,
        ),
    ensures
        ({
            let logs = vacate_logs(m, record, offset, m.unique.len() as int);
            tells(
                entries_written(
                    entry_buried(file, m.primary_key, key),
                    logs,
                    places,
                    logs.len() as int,
                ),
                invalidated(removed(m, key, record, offset)),
            )
        }),
{
    let n = m.unique.len() as int;
    let buried = entry_buried(file, m.primary_key, key);
    let gone = DrawerModel { primary: m.primary.remove(key), ..m };
    lemma_entry_buried(file, m, key);
    lemma_vacate(buried, places, m, gone, record, offset, n);
    let logs = vacate_logs(m, record, offset, n);
    let after = removed(m, key, record, offset);
    let now = entries_written(buried, logs, places, logs.len() as int);
    lemma_same_told(now, indexed(gone, vacated(m, record, offset, n)), after);
    lemma_invalidated_told(now, after);
}

/// A change of a drawer, and the slots of the index file to which its entries go.
pub enum DrawerChange {
    Write { key: Seq<char>, write: WriteModel, places: Seq<(u64, usize)> },
    Delete {
        key: Seq<char>,
        file_len: u64,
        payload: Option<Seq<u8>>,
        places: Seq<(u64, usize)>,
    },
}

/// A drawer in use: what it knows, the records of its data file, and its index file.
pub struct DrawerState {
    pub drawer: DrawerModel,
    pub records: Map<u64, Json>,
    pub file: IndexFile,
}

/// The state once a change was made.
pub open spec fn changed(s: DrawerState, change: DrawerChange) -> DrawerState {
    let m = s.drawer;
    match change {
        DrawerChange::Write { key, write, places } => DrawerState {
            drawer: written(m, s.records, key, write).0,
            records: written(m, s.records, key, write).1,
            file: effects_done(
                s.file,
                m.primary_key,
                write_effects(m, s.records, key, write),
                places,
            ),
        },
        DrawerChange::Delete { key, file_len, payload, places } => DrawerState {
            drawer: deleted(m, s.records, key, file_len, payload).0,
            records: deleted(m, s.records, key, file_len, payload).1,
            file: match delete_effects(m, s.records, key, file_len, payload) {
                Some(effects) => effects_done(s.file, m.primary_key, effects, places),
                None => s.file,
            },
        },
    }
}

/// Whether a change is one that reaches the index file: the block of a record that is written is
/// live, a record that is deleted can be read and has a block, and entries go to slots that hold
/// none.
pub open spec fn reaches_file(s: DrawerState, change: DrawerChange) -> bool {
    let m = s.drawer;
    match change {
        DrawerChange::Write { key, write, places } => {
            &&& m.record_count < usize::MAX
            &&& write.block.status == DATA_BLOCK_STATUS_LIVE
            &&& places_free(s.file, write_effects(m, s.records, key, write).logs, places)
        },
        DrawerChange::Delete { key, file_len, payload, places } => match delete_effects(
            m,
            s.records,
            key,
            file_len,
            payload,
        ) {
            Some(effects) => places_free(
                cleared(s.file, m.primary_key, effects),
                effects.logs,
                places,
            ),
            None => offset_of(m, key) is None,
        },
    }
}

/// Whether the index file tells what the drawer knows, and the count is that of the records.
pub open spec fn is_sound(s: DrawerState) -> bool {
    &&& tells(s.file, s.drawer)
    &&& plain_fields(s.drawer)
    &&& count_agrees(s.drawer)
}

/// A change keeps the index file telling what the drawer knows.
pub proof fn law_change_is_told(s: DrawerState, change: DrawerChange)
    requires
        is_sound(s),
        reaches_file(s, change),
    ensures
        is_sound(changed(s, change)),
        changed(s, change).drawer.primary_key == s.drawer.primary_key,
        changed(s, change).drawer.unique == s.drawer.unique,
{
    let m = s.drawer;
    match change {
        DrawerChange::Write { key, write, places } => {
            let stale = stale_block(m, key, write);
            let old = record_of(m, s.records, key);
            law_written_record_is_told(
                s.file,
                places,
                m,
                key,
                old,
                write.record,
                write.offset,
                write.block,
                stale,
            );
            law_upsert_keeps_count(m, key, old, write.record, write.offset, write.block, stale);
        },
        DrawerChange::Delete { key, file_len, payload, places } => {
            match (offset_of(m, key), record_of(m, s.records, key)) {
                (Some(offset), Some(record)) => {
                    law_deleted_record_is_no_longer_told(
                        s.file,
                        places,
                        m,
                        key,
                        record,
                        offset,
                    );
                    law_delete_keeps_count(m, key, record, offset);
                },
                _ => {
                    assert(m.primary.remove(key) =~= m.primary);
                },
            }
        },
    }
}

/// The drawer that is opened from metadata and the slots of an index file of the present format.
pub open spec fn opened_from(
    name: Seq<char>,
    primary_key: Seq<char>,
    asked: Seq<Seq<char>>,
    known: MetadataModel,
    slots: Seq<SlotModel>,
    file_len: u64,
) -> DrawerModel {
    opened(
        name,
        primary_key,
        asked,
        known,
        replayed(
            replay_start(chosen_unique(asked, known), known),
            slots,
            file_len,
            primary_key,
            false,
            slots.len() as int,
        ),
    )
}

/// Whether two drawers hold the same records, as far as the records of a data file go.
pub open spec fn same_records(a: DrawerModel, b: DrawerModel, records: Map<u64, Json>) -> bool {
    &&& a.record_count == b.record_count
    &&& a.primary == b.primary
    &&& forall|k: Seq<char>| #[trigger] record_of(a, records, k) == record_of(b, records, k)
    &&& forall|f: Seq<char>| #[trigger]
        a.unique.contains(f) ==> field_at(a.secondary, f) == field_at(b.secondary, f)
}

/// A drawer whose index file tells what it knows holds the same records when it is opened again,
/// in whatever order the slots of the file stand, and the file tells what it knows then.
pub proof fn law_reopened_drawer_holds_the_records(
    s: DrawerState,
    name: Seq<char>,
    asked: Seq<Seq<char>>,
    known: MetadataModel,
    slots: Seq<SlotModel>,
    file_len: u64,
)
    requires
        is_sound(s),
        slots_hold(slots, s.file),
        chosen_unique(asked, known) == s.drawer.unique,
    ensures
        ({
            let pk = s.drawer.primary_key;
            let start = replay_start(chosen_unique(asked, known), known);
            let read = replayed(start, slots, file_len, pk, false, slots.len() as int);
            let again = opened_from(name, pk, asked, known, slots, file_len);
            &&& same_records(again, s.drawer, s.records)
            &&& is_sound(
                DrawerState {
                    drawer: again,
                    records: s.records,
                    file: IndexFile { entries: s.file.entries, slots: read.slots },
                },
            )
        }),
{
    let m = s.drawer;
    let unique = chosen_unique(asked, known);
    let start = replay_start(unique, known);
    let read = replayed(start, slots, file_len, m.primary_key, false, slots.len() as int);
    let again = opened_from(name, m.primary_key, asked, known, slots, file_len);
    assert forall|f: Seq<char>| #[trigger] m.unique.contains(f) implies start.secondary.dom().contains(
        f,
    ) && start.secondary[f] == Map::<Seq<char>, Seq<u64>>::empty() by {}
    law_index_file_is_read_back(start, slots, file_len, s.file, m);
    crate::fields::lemma_key_order_len(m.primary.dom());
    lemma_same_told(IndexFile { entries: s.file.entries, slots: read.slots }, m, again);
}

} // verus!
