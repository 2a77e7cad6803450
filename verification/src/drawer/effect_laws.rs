//! What is told to the files of a drawer when it changes, and what its indexes hold once its
//! records are packed.
use crate::drawer::acceptance::is_listed;
use crate::drawer::blocks::DataBlockIndexEntry;
use crate::drawer::contents::{
    delete_effects, deleted, historical_block, live_records, record_of, write_effects, written, WriteModel,
};
use crate::drawer::index::{field_at, offsets_at, record_key};
use crate::drawer::legacy::{buries_entry, migrated, migration_logs};
use crate::drawer::lookup::{
    has_under, is_live_at, is_true_index, law_values_are_found_under_their_text,
};
use crate::drawer::indexing::with_value;
use crate::drawer::migration::{read_at, scanned_for, stored_anew, MigrationWrite, SecondaryFound};
use crate::drawer::packing::packed_records;
use crate::drawer::records::{
    follow_logs, followed, left_value, offset_of, placed, removed, vacate_logs, vacated, value_log,
};
use crate::drawer::replay::is_outdated;
use crate::drawer::vacuum::{
    all_keyed, capped_sum, is_vacuumed, lemma_packed_prefix, lemma_packed_primary, lemma_packing_data, packed, packed_offset,
    packing, record_added, vacuumed, LiveModel, VacuumPlan,
};
use crate::drawer::{offsets_json, query_fields, DrawerModel, LogModel};
use crate::error::{Error, ErrorKind};
use crate::value::{jsons, Json, Number};
use vstd::prelude::*;

verus! {

/// The entry for a value of a field tells the offsets that the index of the field has for it.
pub open spec fn tells(
    one: LogModel,
    secondary: Map<Seq<char>, Map<Seq<char>, Seq<u64>>>,
    field: Seq<char>,
    value: Seq<char>,
) -> bool {
    &&& one.field == field
    &&& one.key == value
    &&& one.block is None
    &&& one.offset matches Json::Array(items) && items.len() == offsets_at(
        field_at(secondary, field),
        value,
    ).len() && forall|i: int|
        0 <= i < items.len() ==> #[trigger] items[i] == Json::Number(
            Number::PosInt(offsets_at(field_at(secondary, field), value)[i]),
        )
}

/// Whether the entries tell of a value of a field.
pub open spec fn told(
    entries: Seq<LogModel>,
    secondary: Map<Seq<char>, Map<Seq<char>, Seq<u64>>>,
    field: Seq<char>,
    value: Seq<char>,
) -> bool {
    exists|i: int|
        0 <= i < entries.len() && tells(#[trigger] entries[i], secondary, field, value)
}

proof fn lemma_followed_later(
    m: DrawerModel,
    old_record: Option<Json>,
    record: Json,
    old_offset: Option<u64>,
    offset: u64,
    i: int,
    n: int,
)
    requires
        0 <= i < n <= m.unique.len(),
        m.unique.no_duplicates(),
    ensures
        field_at(followed(m, old_record, record, old_offset, offset, n), m.unique[i]) == field_at(
            followed(m, old_record, record, old_offset, offset, i + 1),
            m.unique[i],
        ),
    decreases n,
{
    if i + 1 < n {
        lemma_followed_later(m, old_record, record, old_offset, offset, i, n - 1);
        assert(m.unique[n - 1] != m.unique[i]);
    }
}

proof fn lemma_follow_told(
    m: DrawerModel,
    old_record: Option<Json>,
    record: Json,
    old_offset: Option<u64>,
    offset: u64,
    i: int,
    n: int,
    value: Seq<char>,
)
    requires
        0 <= i < n <= m.unique.len(),
        m.unique.no_duplicates(),
        left_value(old_record, old_offset, m.unique[i]) == Some(value) || record_key(
            record,
            m.unique[i],
        ) == Some(value),
    ensures
        told(
            follow_logs(m, old_record, record, old_offset, offset, n),
            followed(m, old_record, record, old_offset, offset, m.unique.len() as int),
            m.unique[i],
            value,
        ),
    decreases n,
{
    let all = follow_logs(m, old_record, record, old_offset, offset, n);
    let before = follow_logs(m, old_record, record, old_offset, offset, n - 1);
    let last = followed(m, old_record, record, old_offset, offset, m.unique.len() as int);
    let field = m.unique[i];
    if i < n - 1 {
        lemma_follow_told(m, old_record, record, old_offset, offset, i, n - 1, value);
        let k = choose|k: int| 0 <= k < before.len() && tells(#[trigger] before[k], last, field, value);
        assert(all[k] == before[k]);
    } else {
        let values = crate::drawer::records::changed_values(
            left_value(old_record, old_offset, field),
            record_key(record, field),
        );
        assert(values.contains(value)) by {
            if values.len() > 0 && values[0] == value {
            } else {
                assert(values[1] == value);
            }
        }
        let k = choose|k: int| 0 <= k < values.len() && values[k] == value;
        let now = followed(m, old_record, record, old_offset, offset, n);
        lemma_followed_later(
            m,
            old_record,
            record,
            old_offset,
            offset,
            i,
            m.unique.len() as int,
        );
        assert(all[before.len() + k] == value_log(now, field, value));
        assert(tells(all[before.len() + k], last, field, value));
    }
}

/// When a record is written, its new place is told first; the place of its earlier version is
/// freed where it is another one, and nothing is buried.
pub proof fn law_write_tells_the_new_place(
    m: DrawerModel,
    records: Map<u64, Json>,
    key: Seq<char>,
    w: WriteModel,
)
    requires
        offset_of(m, key) matches Some(offset) ==> m.blocks.dom().contains(offset),
    ensures
        ({
            let done = write_effects(m, records, key, w);
            &&& done.logs.len() > 0
            &&& done.logs[0].field == m.primary_key
            &&& done.logs[0].key == key
            &&& done.logs[0].offset == Json::Number(Number::PosInt(w.offset))
            &&& done.logs[0].block == Some(w.block)
            &&& done.buried is None
            &&& done.freed == match offset_of(m, key) {
                Some(offset) => if offset != w.offset {
                    Some((m.blocks[offset].size_class, offset))
                } else {
                    None
                },
                None => None,
            }
        }),
{
    match offset_of(m, key) {
        Some(offset) => {
            lemma_known_block(m, offset, w.file_len, w.old_payload);
        },
        None => {},
    }
}

proof fn lemma_known_block(
    m: DrawerModel,
    offset: u64,
    file_len: u64,
    payload: Option<Seq<u8>>,
)
    requires
        m.blocks.dom().contains(offset),
    ensures
        historical_block(m, offset, file_len, payload) == Some((offset, m.blocks[offset])),
{
    assert(crate::drawer::records::is_historical_block(
        m,
        offset,
        file_len,
        payload,
        Some((offset, m.blocks[offset])),
    ));
}

/// When a record is written, the index file is told of each value of a unique field that the
/// record takes or leaves: which records have it from then on.
pub proof fn law_write_tells_every_unique_value(
    m: DrawerModel,
    records: Map<u64, Json>,
    key: Seq<char>,
    w: WriteModel,
    i: int,
    value: Seq<char>,
)
    requires
        m.unique.no_duplicates(),
        0 <= i < m.unique.len(),
        record_key(w.record, m.unique[i]) == Some(value) || (record_of(
            m,
            records,
            key,
        ) matches Some(old) && record_key(old, m.unique[i]) == Some(value)),
    ensures
        told(
            write_effects(m, records, key, w).logs,
            written(m, records, key, w).0.secondary,
            m.unique[i],
            value,
        ),
{
    let old = record_of(m, records, key);
    let n = m.unique.len() as int;
    let field = m.unique[i];
    lemma_follow_told(m, old, w.record, offset_of(m, key), w.offset, i, n, value);
    let part = follow_logs(m, old, w.record, offset_of(m, key), w.offset, n);
    let last = followed(m, old, w.record, offset_of(m, key), w.offset, n);
    let all = write_effects(m, records, key, w).logs;
    let k = choose|k: int| 0 <= k < part.len() && tells(#[trigger] part[k], last, field, value);
    assert(all[k + 1] == part[k]);
    let unpruned = placed(
        m,
        key,
        old,
        w.record,
        w.offset,
        w.block,
        crate::drawer::contents::stale_block(m, key, w),
    );
    assert(m.unique.contains(field));
    assert(!query_fields(unpruned).contains(field));
    let after = written(m, records, key, w).0.secondary;
    assert(field_at(after, field) == field_at(last, field));
    assert(tells(all[k + 1], after, field, value));
}

proof fn lemma_vacated_later(m: DrawerModel, record: Json, offset: u64, i: int, n: int)
    requires
        0 <= i < n <= m.unique.len(),
        m.unique.no_duplicates(),
    ensures
        field_at(vacated(m, record, offset, n), m.unique[i]) == field_at(
            vacated(m, record, offset, i + 1),
            m.unique[i],
        ),
    decreases n,
{
    if i + 1 < n {
        lemma_vacated_later(m, record, offset, i, n - 1);
        assert(m.unique[n - 1] != m.unique[i]);
    }
}

proof fn lemma_vacate_told(
    m: DrawerModel,
    record: Json,
    offset: u64,
    i: int,
    n: int,
    value: Seq<char>,
)
    requires
        0 <= i < n <= m.unique.len(),
        m.unique.no_duplicates(),
        record_key(record, m.unique[i]) == Some(value),
    ensures
        told(
            vacate_logs(m, record, offset, n),
            vacated(m, record, offset, m.unique.len() as int),
            m.unique[i],
            value,
        ),
    decreases n,
{
    let all = vacate_logs(m, record, offset, n);
    let before = vacate_logs(m, record, offset, n - 1);
    let last = vacated(m, record, offset, m.unique.len() as int);
    let field = m.unique[i];
    if i < n - 1 {
        lemma_vacate_told(m, record, offset, i, n - 1, value);
        let k = choose|k: int| 0 <= k < before.len() && tells(#[trigger] before[k], last, field, value);
        assert(all[k] == before[k]);
    } else {
        lemma_vacated_later(m, record, offset, i, m.unique.len() as int);
        assert(all[before.len() as int] == value_log(vacated(m, record, offset, n), field, value));
        assert(tells(all[before.len() as int], last, field, value));
    }
}

/// When a record is deleted, its entry is buried and its block is freed, and the index file is
/// told of each value of a unique field that it leaves: which records still have it.
pub proof fn law_delete_tells_what_is_left(
    m: DrawerModel,
    records: Map<u64, Json>,
    key: Seq<char>,
    file_len: u64,
    payload: Option<Seq<u8>>,
    offset: u64,
    record: Json,
    i: int,
    value: Seq<char>,
)
    requires
        m.unique.no_duplicates(),
        offset_of(m, key) == Some(offset),
        record_of(m, records, key) == Some(record),
        m.blocks.dom().contains(offset),
        0 <= i < m.unique.len(),
        record_key(record, m.unique[i]) == Some(value),
    ensures
        delete_effects(m, records, key, file_len, payload) matches Some(done) && done.buried
            == Some(key) && done.freed == Some((m.blocks[offset].size_class, offset)) && told(
            done.logs,
            deleted(m, records, key, file_len, payload).0.secondary,
            m.unique[i],
            value,
        ),
{
    lemma_known_block(m, offset, file_len, payload);
    let n = m.unique.len() as int;
    let field = m.unique[i];
    lemma_vacate_told(m, record, offset, i, n, value);
    let all = vacate_logs(m, record, offset, n);
    let last = vacated(m, record, offset, n);
    let k = choose|k: int| 0 <= k < all.len() && tells(#[trigger] all[k], last, field, value);
    assert(m.unique.contains(field));
    assert(!query_fields(removed(m, key, record, offset)).contains(field));
    let after = deleted(m, records, key, file_len, payload).0.secondary;
    assert(field_at(after, field) == field_at(last, field));
    assert(tells(all[k], after, field, value));
}

/// A record is read in the present format, whatever the format in which it is stored.
pub proof fn law_record_is_read_in_the_present_format(
    m: DrawerModel,
    records: Map<u64, Json>,
    offset: u64,
    w: MigrationWrite,
)
    ensures
        read_at(m, records, offset, w) matches Ok(read) ==> read.record == if records.dom().contains(
            offset,
        ) {
            Some(
                if is_outdated(m.format_version) {
                    migrated(records[offset], Some(m.primary_key))
                } else {
                    records[offset]
                },
            )
        } else {
            None
        },
        !is_outdated(m.format_version) ==> (read_at(m, records, offset, w) matches Ok(read)
            && read.drawer == m && read.records == records && read.freed is None
            && read.effects is None),
{
}

proof fn lemma_added(
    secondary: Map<Seq<char>, Map<Seq<char>, Seq<u64>>>,
    unique: Seq<Seq<char>>,
    record: Json,
    offset: u64,
    n: int,
    field: Seq<char>,
    v: Seq<char>,
    o: u64,
)
    requires
        0 <= n <= unique.len(),
    ensures
        offsets_at(field_at(record_added(secondary, unique, record, offset, n), field), v).contains(
            o,
        ) <==> offsets_at(field_at(secondary, field), v).contains(o) || unique.take(n).contains(
            field,
        ) && record_key(record, field) == Some(v) && o == offset,
    decreases n,
{
    let more = unique.take(n);
    if n > 0 {
        lemma_added(secondary, unique, record, offset, n - 1, field, v, o);
        let before = record_added(secondary, unique, record, offset, n - 1);
        let fewer = unique.take(n - 1);
        let last = unique[n - 1];
        assert(more =~= fewer.push(last));
        assert(more[n - 1] == last);
        if fewer.contains(field) {
            let i = choose|i: int| 0 <= i < fewer.len() && fewer[i] == field;
            assert(more[i] == field);
        }
        if more.contains(field) {
            let i = choose|i: int| 0 <= i < more.len() && more[i] == field;
            if i < n - 1 {
                assert(fewer[i] == field);
            }
        }
        match record_key(record, last) {
            Some(value) => {
                let had = offsets_at(field_at(before, last), value);
                let has = had.push(offset);
                assert(has[had.len() as int] == offset);
                if had.contains(o) {
                    let i = choose|i: int| 0 <= i < had.len() && had[i] == o;
                    assert(has[i] == o);
                }
                if has.contains(o) {
                    let i = choose|i: int| 0 <= i < has.len() && has[i] == o;
                    if i < had.len() {
                        assert(had[i] == o);
                    }
                }
            },
            None => {},
        }
    }
}

/// Whether one of the first `n` records that are packed stands at an offset and has a value.
spec fn packs_value(live: Seq<LiveModel>, field: Seq<char>, v: Seq<char>, o: u64, n: int) -> bool {
    exists|i: int|
        0 <= i < n && #[trigger] packed_offset(live, i) == o && record_key(live[i].record, field)
            == Some(v)
}

proof fn lemma_packing_lists(
    primary_key: Seq<char>,
    unique: Seq<Seq<char>>,
    live: Seq<LiveModel>,
    n: int,
    field: Seq<char>,
    v: Seq<char>,
    o: u64,
)
    requires
        0 <= n <= live.len(),
        unique.contains(field),
    ensures
        offsets_at(
            field_at(packing(primary_key, unique, live, n).secondary, field),
            v,
        ).contains(o) <==> packs_value(live, field, v, o, n),
    decreases n,
{
    if n > 0 {
        lemma_packing_lists(primary_key, unique, live, n - 1, field, v, o);
        lemma_packing_data(primary_key, unique, live, n - 1);
        let before = packing(primary_key, unique, live, n - 1);
        let offset = before.data.len() as u64;
        assert(offset == packed_offset(live, n - 1));
        assert(unique.take(unique.len() as int) =~= unique);
        lemma_added(
            before.secondary,
            unique,
            live[n - 1].record,
            offset,
            unique.len() as int,
            field,
            v,
            o,
        );
        if packs_value(live, field, v, o, n - 1) {
            let i = choose|i: int|
                0 <= i < n - 1 && #[trigger] packed_offset(live, i) == o && record_key(
                    live[i].record,
                    field,
                ) == Some(v);
            assert(packed_offset(live, i) == o);
        }
    } else {
        assert(packing(primary_key, unique, live, n).secondary[field] =~= Map::empty());
    }
}

/// Once the records are packed, the index of each unique field lists under each text the records
/// that have it there, at their new offsets, and no others.
pub proof fn law_packed_indexes_are_true(m: DrawerModel, live: Seq<LiveModel>, field: Seq<char>)
    requires
        m.unique.contains(field),
        all_keyed(m.primary_key, live),
        forall|a: int, b: int|
            0 <= a < b < live.len() ==> (#[trigger] live[a]).record.get_text(m.primary_key) != (
            #[trigger] live[b]).record.get_text(m.primary_key),
        forall|i: int| 0 <= i < live.len() ==> (#[trigger] live[i]).payload.len() > 0,
        packed(live, live.len() as int).len() <= u64::MAX,
    ensures
        is_true_index(
            vacuumed(m, packing(m.primary_key, m.unique, live, live.len() as int)),
            packed_records(live),
            field,
        ),
{
    let n = live.len() as int;
    let after = vacuumed(m, packing(m.primary_key, m.unique, live, n));
    let records = packed_records(live);
    assert forall|text: Seq<char>, o: u64| #[trigger]
        is_listed(after, field, text, o) <==> is_live_at(after, records, o) && has_under(
            records[o],
            field,
            text,
        ) by {
        lemma_packing_lists(m.primary_key, m.unique, live, n, field, text, o);
        assert(is_listed(after, field, text, o) <==> packs_value(live, field, text, o, n));
        if records.dom().contains(o) {
            let i = choose|i: int| 0 <= i < live.len() && #[trigger] packed_offset(live, i) == o;
            assert(records[o] == live[i].record);
            lemma_packed_primary(m.primary_key, m.unique, live, i, n);
            assert(live[i].record.get_text(m.primary_key) is Some);
            assert(is_live_at(after, records, o));
            if records[o].get(field) is Some {
                law_values_are_found_under_their_text(records[o].get(field)->0, text);
            }
            if packs_value(live, field, text, o, n) {
                let j = choose|j: int|
                    0 <= j < n && #[trigger] packed_offset(live, j) == o && record_key(
                        live[j].record,
                        field,
                    ) == Some(text);
                lemma_apart(live, i, j);
            }
        } else if packs_value(live, field, text, o, n) {
            let j = choose|j: int|
                0 <= j < n && #[trigger] packed_offset(live, j) == o && record_key(
                    live[j].record,
                    field,
                ) == Some(text);
            assert(records.dom().contains(o));
        }
    }
}

proof fn lemma_apart(live: Seq<LiveModel>, i: int, j: int)
    requires
        0 <= i < live.len(),
        0 <= j < live.len(),
        packed_offset(live, i) == packed_offset(live, j),
        forall|k: int| 0 <= k < live.len() ==> (#[trigger] live[k]).payload.len() > 0,
        packed(live, live.len() as int).len() <= u64::MAX,
    ensures
        i == j,
{
    let n = live.len() as int;
    lemma_packed_prefix(live, i, n);
    lemma_packed_prefix(live, j, n);
    assert(live[i].payload.len() > 0 && live[j].payload.len() > 0);
    if i < j {
        lemma_packed_prefix(live, i, j);
    } else if j < i {
        lemma_packed_prefix(live, j, i);
    }
}

/// Once the records are packed, the drawer counts just the records there are, relies on no query
/// index, and keeps its rules.
pub proof fn law_packed_drawer_keeps_its_rules(m: DrawerModel, live: Seq<LiveModel>, field: Seq<char>)
    ensures
        ({
            let after = vacuumed(m, packing(m.primary_key, m.unique, live, live.len() as int));
            &&& after.unique == m.unique
            &&& after.schema == m.schema
            &&& after.relationships == m.relationships
            &&& after.cascade == m.cascade
            &&& after.delete_rules == m.delete_rules
            &&& after.primary_key == m.primary_key
            &&& after.name == m.name
            &&& !after.materialized.dom().contains(field)
        }),
{
}

/// Records are packed where each has a key: the data file is then their bytes, one record behind
/// the other. Where one has none, nothing changes.
pub proof fn law_packing_writes_every_record(
    m: DrawerModel,
    live: Seq<LiveModel>,
    after: DrawerModel,
    r: Result<VacuumPlan, Error>,
    i: int,
)
    requires
        is_vacuumed(m, live, after, r),
        0 <= i < live.len(),
    ensures
        r is Ok <==> forall|k: int|
            0 <= k < live.len() ==> (#[trigger] live[k]).record.get_text(m.primary_key) is Some,
        r matches Err(e) ==> after == m && e@.kind == ErrorKind::InvalidData,
        r matches Ok(plan) ==> ({
            let from = packed(live, i).len() as int;
            &&& from + live[i].payload.len() <= plan.data@.len()
            &&& plan.data@.subrange(from, from + live[i].payload.len()) == live[i].payload
            &&& plan.data@.len() == packed(live, live.len() as int).len()
        }),
{
    lemma_packing_data(m.primary_key, m.unique, live, live.len() as int);
    lemma_packed_prefix(live, i, live.len() as int);
}

/// Two sizes together are their sum, or where that is too much, the greatest size.
pub proof fn law_sizes_are_capped(a: u64, b: u64)
    ensures
        capped_sum(a, b) <= u64::MAX,
        a + b <= u64::MAX ==> capped_sum(a, b) == a + b,
        a + b > u64::MAX ==> capped_sum(a, b) == u64::MAX,
{
}

/// Looking at every record of a drawer in the present format for a value finds the live records
/// that have it, and changes nothing.
pub proof fn law_scanned_drawer_is_only_read(
    m: DrawerModel,
    held: Map<u64, Json>,
    writes: Map<u64, MigrationWrite>,
    field: Seq<char>,
    key: Seq<char>,
    after: (DrawerModel, Map<u64, Json>),
    r: SecondaryFound,
    one: Json,
)
    requires
        !is_outdated(m.format_version),
        scanned_for(m, held, writes, field, key, after, r),
    ensures
        after == (m, held),
        r.outcome matches Ok(found) && (jsons(found@).contains(one) <==> live_records(
            m,
            held,
        ).contains(one) && has_under(one, field, key)),
{
    let all = live_records(m, held);
    lemma_with_value(all, field, key, all.len() as int, one);
    assert(all.take(all.len() as int) =~= all);
}

proof fn lemma_with_value(
    records: Seq<Json>,
    field: Seq<char>,
    key: Seq<char>,
    n: int,
    one: Json,
)
    requires
        0 <= n <= records.len(),
    ensures
        with_value(records, field, key, n).contains(one) <==> records.take(n).contains(one)
            && has_under(one, field, key),
    decreases n,
{
    let more = records.take(n);
    let all = with_value(records, field, key, n);
    if n > 0 {
        lemma_with_value(records, field, key, n - 1, one);
        let before = with_value(records, field, key, n - 1);
        let fewer = records.take(n - 1);
        let last = records[n - 1];
        assert(more =~= fewer.push(last));
        assert(more[n - 1] == last);
        crate::drawer::lookup::law_scan_finds_the_records(records, field, key, n);
        if more.contains(one) {
            let i = choose|i: int| 0 <= i < more.len() && more[i] == one;
            if i < n - 1 {
                assert(fewer[i] == one);
            }
        }
        if fewer.contains(one) {
            let i = choose|i: int| 0 <= i < fewer.len() && fewer[i] == one;
            assert(more[i] == one);
        }
        if before.contains(one) {
            let i = choose|i: int| 0 <= i < before.len() && before[i] == one;
            assert(all[i] == one);
        }
        if all.contains(one) {
            let i = choose|i: int| 0 <= i < all.len() && all[i] == one;
            if i < before.len() {
                assert(before[i] == one);
            }
        }
        if has_under(last, field, key) {
            assert(all.last() == last);
        }
    }
}

/// A record that was brought into the present format is told at its place under its new key; an
/// old key that is another one is buried, or told to be gone.
pub proof fn law_migrated_record_is_told(
    m: DrawerModel,
    old_key: Seq<char>,
    new_key: Seq<char>,
    resolved: u64,
    block: DataBlockIndexEntry,
)
    ensures
        ({
            let told = migration_logs(m, old_key, new_key, resolved, block);
            &&& told.len() > 0
            &&& told.last().field == m.primary_key
            &&& told.last().key == new_key
            &&& told.last().offset == Json::Number(Number::PosInt(resolved))
            &&& told.last().block == Some(block)
            &&& old_key != new_key && !buries_entry(old_key, new_key) ==> told[0].field
                == m.primary_key && told[0].key == old_key && told[0].offset == Json::Array(
                Seq::empty(),
            )
            &&& buries_entry(old_key, new_key) ==> old_key != new_key && told.len() == 1
        }),
{
    assert(offsets_json(Seq::empty())->Array_0 =~= Seq::<Json>::empty());
}

/// A record that is stored anew stays where it is if it fits there; else it goes to the new place,
/// and its old one is freed and holds it no more.
pub proof fn law_stored_anew_where_it_fits(
    m: DrawerModel,
    records: Map<u64, Json>,
    offset: u64,
    old_key: Seq<char>,
    new_key: Seq<char>,
    new_record: Json,
    old_size: usize,
    w: MigrationWrite,
)
    requires
        w.offset != offset,
    ensures
        ({
            let after = stored_anew(m, records, offset, old_key, new_key, new_record, old_size, w);
            if w.payload@.len() <= old_size {
                &&& after.freed is None
                &&& offset_of(after.drawer, new_key) == Some(offset)
                &&& after.records[offset] == new_record
            } else {
                &&& after.freed == Some((old_size, offset))
                &&& offset_of(after.drawer, new_key) == Some(w.offset)
                &&& after.records[w.offset] == new_record
                &&& !after.records.dom().contains(offset)
                &&& !after.drawer.blocks.dom().contains(offset)
            }
        }),
{
}

/// A record that is new, and one that goes, leave the metadata to be written.
pub proof fn law_changed_counts_are_to_be_written(
    m: DrawerModel,
    key: Seq<char>,
    old_record: Option<Json>,
    record: Json,
    offset: u64,
    block: DataBlockIndexEntry,
    stale: Option<(u64, DataBlockIndexEntry)>,
)
    ensures
        offset_of(m, key) is None || m.metadata_dirty ==> placed(
            m,
            key,
            old_record,
            record,
            offset,
            block,
            stale,
        ).metadata_dirty,
        removed(m, key, record, offset).metadata_dirty,
{
}

} // verus!
