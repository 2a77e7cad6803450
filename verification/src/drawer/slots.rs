//! Entries of the index file, and the slots of the data file that can be used again.
use crate::drawer::blocks::{
    entry_block, DataBlockIndexEntry, DATA_BLOCK_STATUS_DEAD,
};
use crate::drawer::{offset_json, IndexLog, LogModel};
use crate::fields::TextMap;
use crate::offsets::{lists_offsets, offset_order, OffsetMap};
use crate::value::{group_value, jsons, Json, JsonValue, Number};
use vstd::prelude::*;

verus! {

/// The JSON number of an unsigned integer.
pub open spec fn number_json(n: int) -> Json {
    Json::Number(Number::PosInt(n as u64))
}

/// The entry of the index file: field, key and offset, and the block where there is one.
pub open spec fn entry_json(log: LogModel) -> Json {
    let plain = Map::<Seq<char>, Json>::empty().insert("f"@, Json::Text(log.field)).insert(
        "k"@,
        Json::Text(log.key),
    ).insert("o"@, log.offset);
    match log.block {
        None => Json::Object(plain),
        Some(block) => Json::Object(
            plain.insert("len"@, number_json(block.payload_len as int)).insert(
                "class"@,
                number_json(block.size_class as int),
            ).insert("crc"@, number_json(block.crc as int)).insert(
                "status"@,
                number_json(block.status as int),
            ),
        ),
    }
}

/// The entry to write to the index file.
pub fn index_entry_value(log: &IndexLog) -> (r: JsonValue)
    ensures
        r@ == entry_json(log@),
{
    broadcast use group_value;

    let mut fields: TextMap<JsonValue> = TextMap::new();
    fields.insert(crate::text::owned("f"), JsonValue::text(log.field.as_str()));
    fields.insert(crate::text::owned("k"), JsonValue::text(log.key.as_str()));
    fields.insert(crate::text::owned("o"), log.offset.clone());
    match log.block {
        Some(block) => {
            fields.insert(
                crate::text::owned("len"),
                JsonValue::unsigned(block.payload_len as u64),
            );
            fields.insert(
                crate::text::owned("class"),
                JsonValue::unsigned(block.size_class as u64),
            );
            fields.insert(crate::text::owned("crc"), JsonValue::unsigned(block.crc as u64));
            fields.insert(crate::text::owned("status"), JsonValue::unsigned(block.status as u64));
        },
        None => {},
    }
    JsonValue::object(fields)
}

pub proof fn lemma_entry_keys_differ()
    ensures
        "f"@ != "k"@,
        "f"@ != "o"@,
        "f"@ != "len"@,
        "f"@ != "class"@,
        "f"@ != "crc"@,
        "f"@ != "status"@,
        "k"@ != "o"@,
        "k"@ != "len"@,
        "k"@ != "class"@,
        "k"@ != "crc"@,
        "k"@ != "status"@,
        "o"@ != "len"@,
        "o"@ != "class"@,
        "o"@ != "crc"@,
        "o"@ != "status"@,
        "len"@ != "class"@,
        "len"@ != "crc"@,
        "len"@ != "status"@,
        "class"@ != "crc"@,
        "class"@ != "status"@,
        "crc"@ != "status"@,
{
    reveal_strlit("f");
    reveal_strlit("k");
    reveal_strlit("o");
    reveal_strlit("len");
    reveal_strlit("class");
    reveal_strlit("crc");
    reveal_strlit("status");
    assert("f"@[0] == 'f' && "k"@[0] == 'k' && "o"@[0] == 'o');
    assert("len"@.len() == 3 && "class"@.len() == 5 && "status"@.len() == 6);
    assert("len"@[0] == 'l' && "crc"@[0] == 'c');
}

/// What was written to the index file is read back: the field, the key, the offset and the
/// block.
pub proof fn law_index_entry_round_trip(
    field: Seq<char>,
    key: Seq<char>,
    offset: u64,
    block: DataBlockIndexEntry,
)
    ensures
        ({
            let entry = entry_json(
                LogModel { field, key, offset: offset_json(offset), block: Some(block) },
            );
            &&& entry.get_text("f"@) == Some(field)
            &&& entry.get_text("k"@) == Some(key)
            &&& entry.get("o"@) == Some(offset_json(offset))
            &&& entry_block(entry) == Some((offset, block))
        }),
{
    lemma_entry_keys_differ();
    let entry = entry_json(LogModel { field, key, offset: offset_json(offset), block: Some(block) });
    assert(entry.get("f"@) == Some(Json::Text(field)));
    assert(entry.get("k"@) == Some(Json::Text(key)));
    assert(entry.get("o"@) == Some(offset_json(offset)));
    assert(entry.get("len"@) == Some(number_json(block.payload_len as int)));
    assert(entry.get("class"@) == Some(number_json(block.size_class as int)));
    assert(entry.get("crc"@) == Some(number_json(block.crc as int)));
    assert(entry.get("status"@) == Some(number_json(block.status as int)));
}

/// The last that the first `n` entries say of each block.
pub open spec fn journal(entries: Seq<Json>, n: int) -> Map<u64, DataBlockIndexEntry>
    decreases n,
{
    if n <= 0 {
        Map::empty()
    } else {
        let before = journal(entries, n - 1);
        match entry_block(entries[n - 1]) {
            Some((offset, block)) => before.insert(offset, block),
            None => before,
        }
    }
}

/// The dead blocks among the first `n` of a journal, in the order of their offsets.
pub open spec fn dead_blocks(blocks: Map<u64, DataBlockIndexEntry>, n: int) -> Seq<(usize, u64)>
    decreases n,
{
    if n <= 0 {
        Seq::empty()
    } else {
        let before = dead_blocks(blocks, n - 1);
        let offset = offset_order(blocks.dom())[n - 1];
        if blocks[offset].status == DATA_BLOCK_STATUS_DEAD {
            before.push((blocks[offset].size_class, offset))
        } else {
            before
        }
    }
}

/// The end of the `i`-th slot of the data file: where the next one starts, or the end of the
/// file.
pub open spec fn slot_end(slots: Seq<(u64, bool)>, file_len: u64, i: int) -> u64 {
    if i + 1 < slots.len() {
        slots[i + 1].0
    } else {
        file_len
    }
}

/// Whether the slots follow one another and end with the file.
pub open spec fn slots_in_order(slots: Seq<(u64, bool)>, file_len: u64) -> bool {
    forall|i: int| 0 <= i < slots.len() ==> (#[trigger] slots[i]).0 <= slot_end(slots, file_len, i)
}

/// The free slots once the first `n` slots of the data file were looked at: a tombstone is a
/// free slot, unless it is listed already.
pub open spec fn with_tombstones(
    free: Seq<(usize, u64)>,
    slots: Seq<(u64, bool)>,
    file_len: u64,
    n: int,
) -> Seq<(usize, u64)>
    decreases n,
{
    if n <= 0 {
        free
    } else {
        let before = with_tombstones(free, slots, file_len, n - 1);
        let (offset, is_dead) = slots[n - 1];
        let slot = ((slot_end(slots, file_len, n - 1) - offset) as usize, offset);
        if is_dead && !before.contains(slot) {
            before.push(slot)
        } else {
            before
        }
    }
}

/// The slots of the data file that can be used again: size and offset.
pub open spec fn free_slots(
    entries: Seq<Json>,
    slots: Seq<(u64, bool)>,
    file_len: u64,
) -> Seq<(usize, u64)> {
    let blocks = journal(entries, entries.len() as int);
    with_tombstones(
        dead_blocks(blocks, offset_order(blocks.dom()).len() as int),
        slots,
        file_len,
        slots.len() as int,
    )
}

fn has_slot(free: &Vec<(usize, u64)>, slot: (usize, u64)) -> (r: bool)
    ensures
        r == free@.contains(slot),
{
    let mut i: usize = 0;
    while i < free.len()
        invariant
            i <= free@.len(),
            forall|k: int| 0 <= k < i ==> free@[k] != slot,
        decreases free@.len() - i,
    {
        if free[i].0 == slot.0 && free[i].1 == slot.1 {
            assert(free@[i as int] == slot);
            return true;
        }
        i += 1;
    }
    false
}

/// The slots of the data file that can be used again, from the live entries of the index file,
/// and from the slots of the data file with their offset and whether each is a tombstone.
pub fn recyclable_data_slots(
    entries: &Vec<JsonValue>,
    slots: &Vec<(u64, bool)>,
    file_len: u64,
) -> (r: Vec<(usize, u64)>)
    requires
        slots_in_order(slots@, file_len),
    ensures
        r@ == free_slots(jsons(entries@), slots@, file_len),
{
    let ghost all = jsons(entries@);
    let mut blocks: OffsetMap<DataBlockIndexEntry> = OffsetMap::new();
    let mut i: usize = 0;
    while i < entries.len()
        invariant
            all == jsons(entries@),
            i <= entries@.len(),
            blocks@ == journal(all, i as int),
        decreases entries@.len() - i,
    {
        assert(all[i as int] == entries@[i as int]@);
        match DataBlockIndexEntry::from_index_entry(&entries[i]) {
            Some((offset, block)) => {
                blocks.insert(offset, block);
            },
            None => {},
        }
        i += 1;
    }
    let mut free: Vec<(usize, u64)> = Vec::new();
    let offsets = blocks.offset_list();
    let mut j: usize = 0;
    while j < offsets.len()
        invariant
            offsets@ == blocks.offsets(),
            lists_offsets(blocks.offsets(), blocks@.dom()),
            j <= offsets@.len(),
            free@ == dead_blocks(blocks@, j as int),
        decreases offsets@.len() - j,
    {
        let offset: u64 = offsets[j];
        assert(offsets@.contains(offset));
        match blocks.get(offset) {
            Some(block) => {
                if block.status == DATA_BLOCK_STATUS_DEAD {
                    free.push((block.size_class, offset));
                }
            },
            None => {},
        }
        j += 1;
    }
    let ghost listed = free@;
    let mut k: usize = 0;
    while k < slots.len()
        invariant
            slots_in_order(slots@, file_len),
            k <= slots@.len(),
            free@ == with_tombstones(listed, slots@, file_len, k as int),
        decreases slots@.len() - k,
    {
        let (offset, is_dead) = slots[k];
        let end: u64 = if k + 1 < slots.len() {
            slots[k + 1].0
        } else {
            file_len
        };
        assert(slots@[k as int].0 <= slot_end(slots@, file_len, k as int));
        if is_dead {
            let slot: (usize, u64) = ((end - offset) as usize, offset);
            if !has_slot(&free, slot) {
                free.push(slot);
            }
        }
        k += 1;
    }
    free
}

/// No slot is listed twice.
pub proof fn law_free_slots_are_listed_once(
    entries: Seq<Json>,
    slots: Seq<(u64, bool)>,
    file_len: u64,
)
    requires
        crate::offsets::lists_offsets(
            offset_order(journal(entries, entries.len() as int).dom()),
            journal(entries, entries.len() as int).dom(),
        ),
    ensures
        free_slots(entries, slots, file_len).no_duplicates(),
{
    let blocks = journal(entries, entries.len() as int);
    let n = offset_order(blocks.dom()).len() as int;
    lemma_dead_blocks_once(blocks, n);
    lemma_tombstones_once(dead_blocks(blocks, n), slots, file_len, slots.len() as int);
}

proof fn lemma_dead_blocks_once(blocks: Map<u64, DataBlockIndexEntry>, n: int)
    requires
        crate::offsets::lists_offsets(offset_order(blocks.dom()), blocks.dom()),
        0 <= n <= offset_order(blocks.dom()).len(),
    ensures
        dead_blocks(blocks, n).no_duplicates(),
        forall|i: int|
            0 <= i < dead_blocks(blocks, n).len() ==> exists|j: int|
                0 <= j < n && offset_order(blocks.dom())[j] == (#[trigger] dead_blocks(
                    blocks,
                    n,
                )[i]).1,
    decreases n,
{
    if n > 0 {
        lemma_dead_blocks_once(blocks, n - 1);
        let before = dead_blocks(blocks, n - 1);
        let now = dead_blocks(blocks, n);
        let order = offset_order(blocks.dom());
        assert forall|i: int| 0 <= i < now.len() implies exists|j: int|
            0 <= j < n && order[j] == (#[trigger] now[i]).1 by {
            if i < before.len() {
                assert(now[i] == before[i]);
                let j = choose|j: int| 0 <= j < n - 1 && order[j] == before[i].1;
                assert(0 <= j < n && order[j] == now[i].1);
            } else {
                assert(order[n - 1] == now[i].1);
            }
        }
        if now != before {
            assert forall|i: int, j: int| 0 <= i < now.len() && 0 <= j < now.len() && i
                != j implies now[i] != now[j] by {
                if i < before.len() && j < before.len() {
                    assert(before[i] != before[j]);
                } else {
                    let low = if i < before.len() {
                        i
                    } else {
                        j
                    };
                    let p = choose|p: int| 0 <= p < n - 1 && order[p] == before[low].1;
                    assert(order[p] < order[n - 1]);
                }
            }
        }
    }
}

proof fn lemma_tombstones_once(
    free: Seq<(usize, u64)>,
    slots: Seq<(u64, bool)>,
    file_len: u64,
    n: int,
)
    requires
        free.no_duplicates(),
        0 <= n <= slots.len(),
    ensures
        with_tombstones(free, slots, file_len, n).no_duplicates(),
    decreases n,
{
    if n > 0 {
        lemma_tombstones_once(free, slots, file_len, n - 1);
        let before = with_tombstones(free, slots, file_len, n - 1);
        let now = with_tombstones(free, slots, file_len, n);
        if now != before {
            assert forall|i: int, j: int| 0 <= i < now.len() && 0 <= j < now.len() && i
                != j implies now[i] != now[j] by {
                if i < before.len() && j < before.len() {
                    assert(before[i] != before[j]);
                } else if i < before.len() {
                    assert(before.contains(before[i]));
                } else {
                    assert(before.contains(before[j]));
                }
            }
        }
    }
}

} // verus!
