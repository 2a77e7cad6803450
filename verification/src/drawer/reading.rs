//! What is read of a drawer after it was written.
use crate::drawer::contents::{
    batch_from, batch_written, deleted, historical_block, live_records, live_set, record_of,
    records_at, written, BatchModel, WriteModel,
};
use crate::drawer::records::{is_historical_block, is_next_live, is_slot_size, lone, offset_of};
use crate::drawer::DrawerModel;
use crate::offsets::{lemma_offset_order, lists_offsets, offset_order};
use crate::value::Json;
use vstd::prelude::*;

verus! {

/// Whether no two keys share an offset.
pub open spec fn apart(m: DrawerModel) -> bool {
    forall|a: Seq<char>, b: Seq<char>|
        a != b && offset_of(m, a) is Some ==> #[trigger] offset_of(m, a) != #[trigger] offset_of(
            m,
            b,
        )
}

/// Whether the offset is that of no other key.
pub open spec fn free_for(m: DrawerModel, key: Seq<char>, offset: u64) -> bool {
    forall|k: Seq<char>| k != key ==> #[trigger] offset_of(m, k) != Some(offset)
}

/// The block that a record is taken to have stands at the offset of the record.
pub proof fn lemma_block_at_offset(
    m: DrawerModel,
    offset: u64,
    file_len: u64,
    payload: Option<Seq<u8>>,
)
    ensures
        match historical_block(m, offset, file_len, payload) {
            Some((at, _)) => at == offset,
            None => true,
        },
{
    if m.blocks.dom().contains(offset) {
        assert(is_historical_block(m, offset, file_len, payload, Some((offset, m.blocks[offset]))));
    } else if offset >= file_len {
        assert(is_historical_block(m, offset, file_len, payload, None));
    } else {
        let size: u64 = if lone(m, offset) && exists|next: u64| #[trigger]
            is_next_live(m, offset, next) && next <= file_len {
            let next = choose|next: u64| #[trigger]
                is_next_live(m, offset, next) && next <= file_len;
            (next - offset) as u64
        } else {
            (file_len - offset) as u64
        };
        assert(is_slot_size(m, offset, file_len, size as int));
        let block = crate::drawer::blocks::DataBlockIndexEntry {
            payload_len: match payload {
                Some(bytes) => bytes.len() as usize,
                None => size as usize,
            },
            size_class: size as usize,
            crc: match payload {
                Some(bytes) => crate::drawer::blocks::checksum(bytes),
                None => 0,
            },
            status: crate::drawer::blocks::DATA_BLOCK_STATUS_LIVE,
        };
        assert(is_historical_block(m, offset, file_len, payload, Some((offset, block))));
    }
}

/// A record that was written is read back under its key, every other record is read as before,
/// and the records still stand apart. It goes where no other record stands.
pub proof fn law_written_record_is_read(
    m: DrawerModel,
    records: Map<u64, Json>,
    key: Seq<char>,
    w: WriteModel,
)
    requires
        apart(m),
        free_for(m, key, w.offset),
    ensures
        ({
            let after = written(m, records, key, w);
            &&& record_of(after.0, after.1, key) == Some(w.record)
            &&& forall|k: Seq<char>|
                k != key ==> #[trigger] record_of(after.0, after.1, k) == record_of(m, records, k)
            &&& apart(after.0)
        }),
{
    let after = written(m, records, key, w);
    match offset_of(m, key) {
        Some(offset) => {
            lemma_block_at_offset(m, offset, w.file_len, w.old_payload);
        },
        None => {},
    }
    assert(after.0.primary == m.primary.insert(key, w.offset));
    assert forall|k: Seq<char>| k != key implies #[trigger] record_of(after.0, after.1, k)
        == record_of(m, records, k) by {
        assert(offset_of(after.0, k) == offset_of(m, k));
        assert(offset_of(m, k) is Some ==> offset_of(m, k) != offset_of(m, key));
    }
    assert forall|a: Seq<char>, b: Seq<char>| a != b && offset_of(after.0, a) is Some implies
        #[trigger] offset_of(after.0, a) != #[trigger] offset_of(after.0, b) by {
        if a != key {
            assert(offset_of(after.0, a) == offset_of(m, a));
        }
        if b != key {
            assert(offset_of(after.0, b) == offset_of(m, b));
        }
    }
}

/// A record that was deleted is not read under its key, every other record is read as before,
/// and the records still stand apart.
pub proof fn law_deleted_record_is_not_read(
    m: DrawerModel,
    records: Map<u64, Json>,
    key: Seq<char>,
    file_len: u64,
    payload: Option<Seq<u8>>,
)
    requires
        apart(m),
    ensures
        ({
            let after = deleted(m, records, key, file_len, payload);
            &&& record_of(after.0, after.1, key) is None
            &&& forall|k: Seq<char>|
                k != key ==> #[trigger] record_of(after.0, after.1, k) == record_of(m, records, k)
            &&& apart(after.0)
        }),
{
    let after = deleted(m, records, key, file_len, payload);
    assert(after.0.primary == m.primary.remove(key));
    assert forall|k: Seq<char>| k != key implies #[trigger] record_of(after.0, after.1, k)
        == record_of(m, records, k) by {
        assert(offset_of(after.0, k) == offset_of(m, k));
        assert(offset_of(m, k) is Some ==> offset_of(m, k) != offset_of(m, key));
    }
    assert forall|a: Seq<char>, b: Seq<char>| a != b && offset_of(after.0, a) is Some implies
        #[trigger] offset_of(after.0, a) != #[trigger] offset_of(after.0, b) by {
        assert(a != key);
        assert(offset_of(after.0, a) == offset_of(m, a));
        if b != key {
            assert(offset_of(after.0, b) == offset_of(m, b));
        }
    }
}

/// An ascending list with one more offset.
spec fn with_offset(list: Seq<u64>, offset: u64) -> Seq<u64>
    decreases list.len(),
{
    if list.len() == 0 || list.last() < offset {
        list.push(offset)
    } else {
        with_offset(list.drop_last(), offset).push(list.last())
    }
}

proof fn lemma_with_offset(list: Seq<u64>, offset: u64)
    requires
        forall|i: int, j: int| 0 <= i < j < list.len() ==> list[i] < list[j],
        !list.contains(offset),
    ensures
        forall|i: int, j: int|
            0 <= i < j < with_offset(list, offset).len() ==> with_offset(list, offset)[i]
                < with_offset(list, offset)[j],
        forall|k: u64| #[trigger]
            with_offset(list, offset).contains(k) <==> (k == offset || list.contains(k)),
    decreases list.len(),
{
    let out = with_offset(list, offset);
    if list.len() == 0 || list.last() < offset {
        assert forall|k: u64| #[trigger] out.contains(k) <==> (k == offset || list.contains(k)) by {
            if list.contains(k) {
                let i = choose|i: int| 0 <= i < list.len() && list[i] == k;
                assert(out[i] == k);
            }
            assert(out[list.len() as int] == offset);
        }
        assert forall|i: int, j: int| 0 <= i < j < out.len() implies out[i] < out[j] by {
            if j == list.len() {
                assert(list[i] <= list.last());
            }
        }
    } else {
        let rest = list.drop_last();
        assert(list.contains(list.last()));
        assert forall|k: u64| rest.contains(k) implies list.contains(k) by {
            let i = choose|i: int| 0 <= i < rest.len() && rest[i] == k;
            assert(list[i] == k);
        }
        lemma_with_offset(rest, offset);
        let inner = with_offset(rest, offset);
        assert forall|k: u64| #[trigger] out.contains(k) <==> (k == offset || list.contains(k)) by {
            if out.contains(k) {
                let i = choose|i: int| 0 <= i < out.len() && out[i] == k;
                if i < inner.len() {
                    assert(inner[i] == k);
                    assert(inner.contains(k));
                }
            }
            if k == offset || list.contains(k) {
                if k == list.last() {
                    assert(out[inner.len() as int] == k);
                } else {
                    if list.contains(k) {
                        let i = choose|i: int| 0 <= i < list.len() && list[i] == k;
                        assert(rest[i] == k);
                    }
                    assert(inner.contains(k));
                    let i = choose|i: int| 0 <= i < inner.len() && inner[i] == k;
                    assert(out[i] == k);
                }
            }
        }
        assert forall|i: int, j: int| 0 <= i < j < out.len() implies out[i] < out[j] by {
            if j == inner.len() {
                assert(inner.contains(inner[i]));
                if inner[i] != offset {
                    let p = choose|p: int| 0 <= p < rest.len() && rest[p] == inner[i];
                    assert(list[p] < list.last());
                }
            }
        }
    }
}

/// Every finite set of offsets is listed in ascending order.
proof fn lemma_offsets_listed(dom: Set<u64>)
    requires
        dom.finite(),
    ensures
        lists_offsets(offset_order(dom), dom),
    decreases dom.len(),
{
    if dom.len() == 0 {
        assert(dom =~= Set::empty());
        assert(lists_offsets(Seq::empty(), dom));
        lemma_offset_order(Seq::empty(), dom);
    } else {
        let a = dom.choose();
        let rest = dom.remove(a);
        lemma_offsets_listed(rest);
        let list = offset_order(rest);
        assert(!list.contains(a)) by {
            if list.contains(a) {
                assert(rest.contains(a));
            }
        }
        lemma_with_offset(list, a);
        assert(lists_offsets(with_offset(list, a), dom));
        lemma_offset_order(with_offset(list, a), dom);
    }
}

proof fn lemma_live_set_finite(m: DrawerModel)
    requires
        m.primary.dom().finite(),
    ensures
        live_set(m).finite(),
{
    let image = m.primary.dom().map(|k: Seq<char>| m.primary[k]);
    m.primary.dom().lemma_map_finite(|k: Seq<char>| m.primary[k]);
    assert forall|o: u64| #[trigger] live_set(m).contains(o) implies image.contains(o) by {
        let k = choose|k: Seq<char>| #[trigger] offset_of(m, k) == Some(o);
        assert(m.primary.dom().contains(k));
    }
    vstd::set_lib::lemma_set_subset_finite(image, live_set(m));
}

/// The offsets of the live records can be listed in ascending order.
pub proof fn lemma_live_offsets(m: DrawerModel)
    requires
        m.primary.dom().finite(),
    ensures
        lists_offsets(offset_order(live_set(m)), live_set(m)),
{
    lemma_live_set_finite(m);
    lemma_offsets_listed(live_set(m));
}

pub proof fn lemma_records_at(records: Map<u64, Json>, offsets: Seq<u64>, n: int, r: Json)
    requires
        0 <= n <= offsets.len(),
    ensures
        records_at(records, offsets, n).contains(r) <==> exists|i: int|
            0 <= i < n && records.dom().contains(#[trigger] offsets[i]) && records[offsets[i]] == r,
    decreases n,
{
    if n > 0 {
        lemma_records_at(records, offsets, n - 1, r);
        let before = records_at(records, offsets, n - 1);
        let all = records_at(records, offsets, n);
        if records.dom().contains(offsets[n - 1]) {
            assert(all.last() == records[offsets[n - 1]]);
            if before.contains(r) {
                let i = choose|i: int| 0 <= i < before.len() && before[i] == r;
                assert(all[i] == r);
            }
            if all.contains(r) {
                let i = choose|i: int| 0 <= i < all.len() && all[i] == r;
                if i < before.len() {
                    assert(before[i] == r);
                }
            }
            if records[offsets[n - 1]] == r {
                assert(all[before.len() as int] == r);
            }
        }
    }
}

/// All the records of a drawer are those that are read under its keys.
pub proof fn law_all_records_are_read_by_key(m: DrawerModel, records: Map<u64, Json>, r: Json)
    requires
        m.primary.dom().finite(),
    ensures
        live_records(m, records).contains(r) <==> exists|k: Seq<char>| #[trigger]
            record_of(m, records, k) == Some(r),
{
    lemma_live_set_finite(m);
    lemma_offsets_listed(live_set(m));
    let offsets = offset_order(live_set(m));
    lemma_records_at(records, offsets, offsets.len() as int, r);
    if live_records(m, records).contains(r) {
        let i = choose|i: int|
            0 <= i < offsets.len() && records.dom().contains(#[trigger] offsets[i])
                && records[offsets[i]] == r;
        assert(offsets.contains(offsets[i]));
        assert(live_set(m).contains(offsets[i]));
        let k = choose|k: Seq<char>| #[trigger] offset_of(m, k) == Some(offsets[i]);
        assert(record_of(m, records, k) == Some(r));
    }
    if exists|k: Seq<char>| #[trigger] record_of(m, records, k) == Some(r) {
        let k = choose|k: Seq<char>| #[trigger] record_of(m, records, k) == Some(r);
        let o = offset_of(m, k)->0;
        assert(live_set(m).contains(o));
        assert(offsets.contains(o));
        let i = choose|i: int| 0 <= i < offsets.len() && offsets[i] == o;
        assert(records.dom().contains(offsets[i]));
    }
}

/// The key of the record of a write.
pub open spec fn write_key(m: DrawerModel, w: WriteModel) -> Option<Seq<char>> {
    w.record.get_text(m.primary_key)
}

/// Whether the records of a batch, from the `i`-th on, have keys of their own and go where no
/// record stands and none of the others goes.
pub open spec fn spread(m: DrawerModel, writes: Seq<WriteModel>, i: int) -> bool {
    &&& forall|j: int|
        i <= j < writes.len() ==> !live_set(m).contains((#[trigger] writes[j]).offset)
    &&& forall|j: int, k: int|
        i <= j < k < writes.len() ==> (#[trigger] writes[j]).offset != (#[trigger] writes[k]).offset
            && write_key(m, writes[j]) != write_key(m, writes[k])
}

proof fn lemma_batch_is_read(b: BatchModel, writes: Seq<WriteModel>, i: int)
    requires
        0 <= i <= writes.len(),
        apart(b.drawer),
        spread(b.drawer, writes, i),
        batch_from(b, writes, i).problem is None,
    ensures
        ({
            let done = batch_from(b, writes, i);
            &&& done.drawer.primary_key == b.drawer.primary_key
            &&& apart(done.drawer)
            &&& forall|j: int|
                i <= j < writes.len() ==> write_key(b.drawer, #[trigger] writes[j]) is Some
                    && record_of(done.drawer, done.records, write_key(b.drawer, writes[j])->0)
                    == Some(writes[j].record)
            &&& forall|k: Seq<char>|
                (forall|j: int|
                    i <= j < writes.len() ==> write_key(b.drawer, #[trigger] writes[j]) != Some(k))
                    ==> #[trigger] record_of(done.drawer, done.records, k) == record_of(
                    b.drawer,
                    b.records,
                    k,
                )
        }),
    decreases writes.len() - i,
{
    if i < writes.len() {
        let w = writes[i];
        let m = b.drawer;
        assert(crate::drawer::relations::upsert_check(
            m,
            live_records(m, b.records),
            w.record,
        ).problem is None);
        assert(write_key(m, w) is Some);
        let key = write_key(m, w)->0;
        let after = written(m, b.records, key, w);
        assert(free_for(m, key, w.offset)) by {
            assert forall|k: Seq<char>| k != key implies #[trigger] offset_of(m, k) != Some(
                w.offset,
            ) by {
                if offset_of(m, k) == Some(w.offset) {
                    assert(live_set(m).contains(writes[i].offset));
                }
            }
        }
        law_written_record_is_read(m, b.records, key, w);
        let next = BatchModel {
            drawer: after.0,
            records: after.1,
            effects: b.effects.push(
                crate::drawer::contents::write_effects(m, b.records, key, w),
            ),
            problem: None,
        };
        assert(after.0.primary_key == m.primary_key);
        assert(after.0.primary == m.primary.insert(key, w.offset));
        assert(spread(after.0, writes, i + 1)) by {
            assert forall|j: int| i + 1 <= j < writes.len() implies !live_set(after.0).contains(
                (#[trigger] writes[j]).offset,
            ) by {
                assert(writes[i].offset != writes[j].offset);
                if live_set(after.0).contains(writes[j].offset) {
                    let k = choose|k: Seq<char>| #[trigger]
                        offset_of(after.0, k) == Some(writes[j].offset);
                    assert(k != key);
                    assert(offset_of(m, k) == Some(writes[j].offset));
                    assert(live_set(m).contains(writes[j].offset));
                }
            }
            assert forall|j: int, k: int| i + 1 <= j < k < writes.len() implies (
            #[trigger] writes[j]).offset != (#[trigger] writes[k]).offset && write_key(
                after.0,
                writes[j],
            ) != write_key(after.0, writes[k]) by {
                assert(write_key(m, writes[j]) != write_key(m, writes[k]));
            }
        }
        lemma_batch_is_read(next, writes, i + 1);
        let done = batch_from(b, writes, i);
        assert(done == batch_from(next, writes, i + 1));
        assert forall|j: int| i <= j < writes.len() implies write_key(m, #[trigger] writes[j])
            is Some && record_of(done.drawer, done.records, write_key(m, writes[j])->0) == Some(
            writes[j].record,
        ) by {
            if j == i {
                assert forall|l: int| i + 1 <= l < writes.len() implies write_key(
                    after.0,
                    #[trigger] writes[l],
                ) != Some(key) by {
                    assert(write_key(m, writes[i]) != write_key(m, writes[l]));
                }
                assert(record_of(done.drawer, done.records, key) == record_of(
                    after.0,
                    after.1,
                    key,
                ));
            } else {
                assert(write_key(after.0, writes[j]) == write_key(m, writes[j]));
            }
        }
        assert forall|k: Seq<char>|
            (forall|j: int|
                i <= j < writes.len() ==> write_key(m, #[trigger] writes[j]) != Some(
                    k,
                )) implies #[trigger] record_of(done.drawer, done.records, k) == record_of(
            m,
            b.records,
            k,
        ) by {
            assert(write_key(m, writes[i]) != Some(k));
            assert forall|j: int| i + 1 <= j < writes.len() implies write_key(
                after.0,
                #[trigger] writes[j],
            ) != Some(k) by {
                assert(write_key(m, writes[j]) != Some(k));
            }
            assert(record_of(after.0, after.1, k) == record_of(m, b.records, k));
        }
    }
}

/// The records of a batch that was accepted are all read back under their keys, and every other
/// record is read as before. They have keys of their own, and go where no record stands.
pub proof fn law_accepted_batch_is_read(
    m: DrawerModel,
    records: Map<u64, Json>,
    writes: Seq<WriteModel>,
    numeric: Option<Seq<char>>,
)
    requires
        apart(m),
        spread(m, writes, 0),
        batch_written(m, records, writes, numeric).problem is None,
    ensures
        ({
            let done = batch_written(m, records, writes, numeric);
            &&& forall|j: int|
                0 <= j < writes.len() ==> write_key(m, #[trigger] writes[j]) is Some && record_of(
                    done.drawer,
                    done.records,
                    write_key(m, writes[j])->0,
                ) == Some(writes[j].record)
            &&& forall|k: Seq<char>|
                (forall|j: int|
                    0 <= j < writes.len() ==> write_key(m, #[trigger] writes[j]) != Some(k))
                    ==> #[trigger] record_of(done.drawer, done.records, k) == record_of(
                    m,
                    records,
                    k,
                )
        }),
{
    let start = BatchModel { drawer: m, records, effects: Seq::empty(), problem: None };
    lemma_batch_is_read(start, writes, 0);
}

} // verus!
