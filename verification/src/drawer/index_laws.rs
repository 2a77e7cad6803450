//! How the indexes of a drawer keep in step with its records.
use crate::drawer::contents::{deleted, record_of, written, WriteModel};
use crate::drawer::index::{field_at, offsets_at, record_key, value_left, value_taken, without};
use crate::drawer::acceptance::is_listed;
use crate::drawer::indexing::is_materialized;
use crate::drawer::lookup::{
    has_under, is_live_at, is_true_index, law_values_are_found_under_their_text,
};
use crate::drawer::reading::{apart, free_for, lemma_block_at_offset};
use crate::drawer::records::{
    followed, offset_of, placed, previous_key, reindexed, removed, vacated,
};
use crate::drawer::{query_fields, DrawerModel};
use crate::value::Json;
use vstd::prelude::*;

verus! {

proof fn lemma_without(offsets: Seq<u64>, gone: u64, o: u64)
    ensures
        without(offsets, gone).contains(o) <==> offsets.contains(o) && o != gone,
    decreases offsets.len(),
{
    if offsets.len() > 0 {
        let fewer = offsets.drop_last();
        lemma_without(fewer, gone, o);
        let left = without(fewer, gone);
        let all = without(offsets, gone);
        if offsets.contains(o) {
            let i = choose|i: int| 0 <= i < offsets.len() && offsets[i] == o;
            if i < fewer.len() {
                assert(fewer[i] == o);
            }
        }
        if fewer.contains(o) {
            let i = choose|i: int| 0 <= i < fewer.len() && fewer[i] == o;
            assert(offsets[i] == o);
        }
        assert(offsets[offsets.len() - 1] == offsets.last());
        if offsets.last() != gone {
            assert(all.last() == offsets.last());
            if left.contains(o) {
                let i = choose|i: int| 0 <= i < left.len() && left[i] == o;
                assert(all[i] == o);
            }
            if all.contains(o) {
                let i = choose|i: int| 0 <= i < all.len() && all[i] == o;
                if i < left.len() {
                    assert(left[i] == o);
                }
            }
        }
    }
}

proof fn lemma_value_left(
    index: Map<Seq<char>, Seq<u64>>,
    value: Seq<char>,
    offset: u64,
    v: Seq<char>,
    o: u64,
)
    ensures
        offsets_at(value_left(index, value, offset), v).contains(o) <==> offsets_at(
            index,
            v,
        ).contains(o) && !(v == value && o == offset),
{
    if index.dom().contains(value) {
        lemma_without(index[value], offset, o);
        if without(index[value], offset).len() == 0 {
            assert(!without(index[value], offset).contains(o));
        }
    }
}

proof fn lemma_value_taken(
    index: Map<Seq<char>, Seq<u64>>,
    value: Seq<char>,
    offset: u64,
    v: Seq<char>,
    o: u64,
)
    ensures
        offsets_at(value_taken(index, value, offset), v).contains(o) <==> offsets_at(
            index,
            v,
        ).contains(o) || (v == value && o == offset),
{
    let before = offsets_at(index, value);
    let more = before.push(offset);
    assert(more[before.len() as int] == offset);
    if before.contains(o) {
        let i = choose|i: int| 0 <= i < before.len() && before[i] == o;
        assert(more[i] == o);
    }
    if more.contains(o) {
        let i = choose|i: int| 0 <= i < more.len() && more[i] == o;
        if i < before.len() {
            assert(before[i] == o);
        }
    }
}

/// Whether an offset is listed under a value once a record moved from one place and value to
/// another.
spec fn is_moved(
    before: bool,
    previous: Option<Seq<char>>,
    current: Option<Seq<char>>,
    old_offset: Option<u64>,
    offset: u64,
    v: Seq<char>,
    o: u64,
) -> bool {
    before && !(previous == Some(v) && old_offset == Some(o)) || current == Some(v) && o == offset
}

proof fn lemma_reindexed(
    index: Map<Seq<char>, Seq<u64>>,
    previous: Option<Seq<char>>,
    current: Option<Seq<char>>,
    old_offset: Option<u64>,
    offset: u64,
    v: Seq<char>,
    o: u64,
)
    ensures
        offsets_at(reindexed(index, previous, current, old_offset, offset), v).contains(o)
            <==> is_moved(
            offsets_at(index, v).contains(o),
            previous,
            current,
            old_offset,
            offset,
            v,
            o,
        ),
{
    let left = match (previous, old_offset) {
        (Some(value), Some(at)) => {
            lemma_value_left(index, value, at, v, o);
            value_left(index, value, at)
        },
        _ => index,
    };
    match current {
        Some(value) => {
            lemma_value_taken(left, value, offset, v, o);
        },
        None => {},
    }
}

proof fn lemma_followed(
    m: DrawerModel,
    old_record: Option<Json>,
    record: Json,
    old_offset: Option<u64>,
    offset: u64,
    n: int,
    field: Seq<char>,
    v: Seq<char>,
    o: u64,
)
    requires
        0 <= n <= m.unique.len(),
    ensures
        offsets_at(
            field_at(followed(m, old_record, record, old_offset, offset, n), field),
            v,
        ).contains(o) <==> if m.unique.take(n).contains(field) {
            is_moved(
                offsets_at(field_at(m.secondary, field), v).contains(o),
                previous_key(old_record, field),
                record_key(record, field),
                old_offset,
                offset,
                v,
                o,
            )
        } else {
            offsets_at(field_at(m.secondary, field), v).contains(o)
        },
    decreases n,
{
    let more = m.unique.take(n);
    if n > 0 {
        lemma_followed(m, old_record, record, old_offset, offset, n - 1, field, v, o);
        let before = followed(m, old_record, record, old_offset, offset, n - 1);
        let fewer = m.unique.take(n - 1);
        let last = m.unique[n - 1];
        assert(more =~= fewer.push(last));
        assert(more[n - 1] == last);
        if fewer.contains(field) {
            let i = choose|i: int| 0 <= i < fewer.len() && fewer[i] == field;
            assert(more[i] == field);
        }
        if more.contains(field) {
            let i = choose|i: int| 0 <= i < more.len() && more[i] == field;
            if i < n - 1 {
                assert(fewer[i] == field);
            }
        }
        lemma_reindexed(
            field_at(before, last),
            previous_key(old_record, last),
            record_key(record, last),
            old_offset,
            offset,
            v,
            o,
        );
    }
}

proof fn lemma_vacated(
    m: DrawerModel,
    record: Json,
    offset: u64,
    n: int,
    field: Seq<char>,
    v: Seq<char>,
    o: u64,
)
    requires
        0 <= n <= m.unique.len(),
    ensures
        offsets_at(field_at(vacated(m, record, offset, n), field), v).contains(o) <==> offsets_at(
            field_at(m.secondary, field),
            v,
        ).contains(o) && !(m.unique.take(n).contains(field) && record_key(record, field) == Some(v)
            && o == offset),
    decreases n,
{
    let more = m.unique.take(n);
    if n > 0 {
        lemma_vacated(m, record, offset, n - 1, field, v, o);
        let before = vacated(m, record, offset, n - 1);
        let fewer = m.unique.take(n - 1);
        let last = m.unique[n - 1];
        assert(more =~= fewer.push(last));
        assert(more[n - 1] == last);
        if fewer.contains(field) {
            let i = choose|i: int| 0 <= i < fewer.len() && fewer[i] == field;
            assert(more[i] == field);
        }
        if more.contains(field) {
            let i = choose|i: int| 0 <= i < more.len() && more[i] == field;
            if i < n - 1 {
                assert(fewer[i] == field);
            }
        }
        match record_key(record, last) {
            Some(value) => {
                lemma_value_left(field_at(before, last), value, offset, v, o);
            },
            None => {},
        }
    }
}

/// The index of a unique field stays true when a record is written: under each text it lists the
/// live records that have it, the new version among them and the earlier one not.
pub proof fn law_unique_index_follows_writes(
    m: DrawerModel,
    records: Map<u64, Json>,
    key: Seq<char>,
    w: WriteModel,
    field: Seq<char>,
)
    requires
        m.unique.contains(field),
        apart(m),
        free_for(m, key, w.offset),
        w.record.get_text(m.primary_key) == Some(key),
        is_true_index(m, records, field),
    ensures
        is_true_index(written(m, records, key, w).0, written(m, records, key, w).1, field),
{
    let (after, now) = written(m, records, key, w);
    let old_offset = offset_of(m, key);
    let old_record = record_of(m, records, key);
    match old_offset {
        Some(offset) => {
            lemma_block_at_offset(m, offset, w.file_len, w.old_payload);
        },
        None => {},
    }
    let n = m.unique.len() as int;
    assert(m.unique.take(n) =~= m.unique);
    assert(after.primary == m.primary.insert(key, w.offset));
    let unpruned = placed(
        m,
        key,
        old_record,
        w.record,
        w.offset,
        w.block,
        crate::drawer::contents::stale_block(m, key, w),
    );
    assert(!query_fields(unpruned).contains(field));
    assert forall|text: Seq<char>, o: u64| #[trigger]
        is_listed(after, field, text, o) <==> is_live_at(after, now, o) && has_under(
            now[o],
            field,
            text,
        ) by {
        lemma_followed(m, old_record, w.record, old_offset, w.offset, n, field, text, o);
        assert(is_listed(after, field, text, o) <==> offsets_at(
            field_at(after.secondary, field),
            text,
        ).contains(o));
        assert(is_listed(m, field, text, o) <==> offsets_at(
            field_at(m.secondary, field),
            text,
        ).contains(o));
        if w.record.get(field) is Some {
            law_values_are_found_under_their_text(w.record.get(field)->0, text);
        }
        if old_record is Some && old_record->0.get(field) is Some {
            law_values_are_found_under_their_text(old_record->0.get(field)->0, text);
        }
        if o == w.offset {
            assert(now[o] == w.record);
            assert(is_live_at(after, now, o));
            if is_listed(m, field, text, o) {
                let k = records[o].get_text(m.primary_key)->0;
                assert(offset_of(m, k) == Some(o));
                assert(k == key);
            }
        } else if old_offset == Some(o) {
            if is_live_at(after, now, o) {
                let k = now[o].get_text(m.primary_key)->0;
                assert(k != key);
                assert(offset_of(m, k) == Some(o));
                assert(offset_of(m, key) == Some(o));
            }
            if is_listed(m, field, text, o) {
                assert(old_record == Some(records[o]));
            }
        } else {
            assert(now.dom().contains(o) <==> records.dom().contains(o));
            if is_live_at(m, records, o) {
                let k = records[o].get_text(m.primary_key)->0;
                assert(k != key);
                assert(is_live_at(after, now, o));
            }
            if is_live_at(after, now, o) {
                let k = now[o].get_text(m.primary_key)->0;
                assert(k != key);
                assert(is_live_at(m, records, o));
            }
        }
    }
}

/// The index of a unique field stays true when a record is deleted: it no longer lists the record,
/// and the others as before.
pub proof fn law_unique_index_follows_deletes(
    m: DrawerModel,
    records: Map<u64, Json>,
    key: Seq<char>,
    file_len: u64,
    payload: Option<Seq<u8>>,
    field: Seq<char>,
)
    requires
        m.unique.contains(field),
        apart(m),
        offset_of(m, key) matches Some(offset) ==> m.blocks.dom().contains(offset),
        is_true_index(m, records, field),
    ensures
        is_true_index(
            deleted(m, records, key, file_len, payload).0,
            deleted(m, records, key, file_len, payload).1,
            field,
        ),
{
    let (after, now) = deleted(m, records, key, file_len, payload);
    let n = m.unique.len() as int;
    assert(m.unique.take(n) =~= m.unique);
    assert(after.primary == m.primary.remove(key));
    match (offset_of(m, key), record_of(m, records, key)) {
        (Some(offset), Some(record)) => {
            assert(crate::drawer::records::is_historical_block(
                m,
                offset,
                file_len,
                payload,
                Some((offset, m.blocks[offset])),
            ));
            let block = crate::drawer::contents::historical_block(m, offset, file_len, payload);
            assert(block is Some);
            assert(!query_fields(removed(m, key, record, offset)).contains(field));
            assert forall|text: Seq<char>, o: u64| #[trigger]
                is_listed(after, field, text, o) <==> is_live_at(after, now, o) && has_under(
                    now[o],
                    field,
                    text,
                ) by {
                lemma_vacated(m, record, offset, n, field, text, o);
                assert(is_listed(after, field, text, o) <==> offsets_at(
                    field_at(after.secondary, field),
                    text,
                ).contains(o));
                assert(is_listed(m, field, text, o) <==> offsets_at(
                    field_at(m.secondary, field),
                    text,
                ).contains(o));
                if record.get(field) is Some {
                    law_values_are_found_under_their_text(record.get(field)->0, text);
                }
                if o != offset {
                    if is_live_at(m, records, o) {
                        let k = records[o].get_text(m.primary_key)->0;
                        assert(k != key);
                    }
                    assert(is_live_at(after, now, o) <==> is_live_at(m, records, o));
                }
            }
        },
        _ => {
            assert forall|text: Seq<char>, o: u64| #[trigger]
                is_listed(after, field, text, o) <==> is_live_at(after, now, o) && has_under(
                    now[o],
                    field,
                    text,
                ) by {
                assert(is_listed(m, field, text, o) <==> is_listed(after, field, text, o));
                if is_live_at(m, records, o) {
                    let k = records[o].get_text(m.primary_key)->0;
                    assert(k != key) by {
                        if k == key {
                            assert(record_of(m, records, key) == Some(records[o]));
                        }
                    }
                }
                assert(is_live_at(after, now, o) <==> is_live_at(m, records, o));
            }
        },
    }
}

/// The index of a field that is only looked up is not relied on once a record was written: it is
/// built anew.
pub proof fn law_query_indexes_are_dropped_by_writes(
    m: DrawerModel,
    records: Map<u64, Json>,
    key: Seq<char>,
    w: WriteModel,
    field: Seq<char>,
)
    requires
        query_fields(m).contains(field),
    ensures
        !is_materialized(written(m, records, key, w).0, field),
{
    let unpruned = placed(
        m,
        key,
        record_of(m, records, key),
        w.record,
        w.offset,
        w.block,
        crate::drawer::contents::stale_block(m, key, w),
    );
    assert(query_fields(unpruned).contains(field));
}

} // verus!
