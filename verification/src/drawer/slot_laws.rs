//! Which slots of the data file can be used again, and when it pays to read around them.
use crate::drawer::blocks::{DataBlockIndexEntry, DATA_BLOCK_STATUS_DEAD};
use crate::drawer::records::{live_bytes, mostly_dead};
use crate::drawer::slots::{dead_blocks, free_slots, journal, slot_end, with_tombstones};
use crate::drawer::DrawerModel;
use crate::offsets::{lemma_offsets_listed, offset_order};
use crate::value::Json;
use vstd::prelude::*;

verus! {

/// Whether the index has a block down as dead, by its size and its offset.
pub open spec fn is_dead_block(
    blocks: Map<u64, DataBlockIndexEntry>,
    slot: (usize, u64),
) -> bool {
    blocks.dom().contains(slot.1) && blocks[slot.1].status == DATA_BLOCK_STATUS_DEAD
        && blocks[slot.1].size_class == slot.0
}

/// Whether the data file has a tombstone in a slot.
pub open spec fn is_tombstone(
    slots: Seq<(u64, bool)>,
    file_len: u64,
    slot: (usize, u64),
    n: int,
) -> bool {
    exists|i: int|
        0 <= i < n && (#[trigger] slots[i]).1 && slots[i].0 == slot.1 && slot.0 == (slot_end(
            slots,
            file_len,
            i,
        ) - slots[i].0) as usize
}

proof fn lemma_with_tombstones(
    free: Seq<(usize, u64)>,
    slots: Seq<(u64, bool)>,
    file_len: u64,
    n: int,
    slot: (usize, u64),
)
    requires
        0 <= n <= slots.len(),
    ensures
        with_tombstones(free, slots, file_len, n).contains(slot) <==> free.contains(slot)
            || is_tombstone(slots, file_len, slot, n),
    decreases n,
{
    if n > 0 {
        lemma_with_tombstones(free, slots, file_len, n - 1, slot);
        let before = with_tombstones(free, slots, file_len, n - 1);
        let all = with_tombstones(free, slots, file_len, n);
        let (offset, is_dead) = slots[n - 1];
        let last = ((slot_end(slots, file_len, n - 1) - offset) as usize, offset);
        if is_tombstone(slots, file_len, slot, n - 1) {
            let i = choose|i: int|
                0 <= i < n - 1 && (#[trigger] slots[i]).1 && slots[i].0 == slot.1 && slot.0 == (
                slot_end(slots, file_len, i) - slots[i].0) as usize;
            assert(slots[i].1);
        }
        if before.contains(slot) {
            let i = choose|i: int| 0 <= i < before.len() && before[i] == slot;
            assert(all[i] == slot);
        }
        if all.contains(slot) {
            let i = choose|i: int| 0 <= i < all.len() && all[i] == slot;
            if i < before.len() {
                assert(before[i] == slot);
            } else {
                assert(slots[n - 1].1);
            }
        }
        if is_dead && slot == last {
            if !before.contains(last) {
                assert(all.last() == last);
            }
            assert(slots[n - 1].1);
        }
    }
}

proof fn lemma_dead_blocks(blocks: Map<u64, DataBlockIndexEntry>, n: int, slot: (usize, u64))
    requires
        0 <= n <= offset_order(blocks.dom()).len(),
    ensures
        dead_blocks(blocks, n).contains(slot) <==> offset_order(blocks.dom()).take(n).contains(
            slot.1,
        ) && blocks[slot.1].status == DATA_BLOCK_STATUS_DEAD && blocks[slot.1].size_class == slot.0,
    decreases n,
{
    let order = offset_order(blocks.dom());
    let more = order.take(n);
    if n > 0 {
        lemma_dead_blocks(blocks, n - 1, slot);
        let before = dead_blocks(blocks, n - 1);
        let all = dead_blocks(blocks, n);
        let fewer = order.take(n - 1);
        assert(more =~= fewer.push(order[n - 1]));
        assert(more[n - 1] == order[n - 1]);
        if more.contains(slot.1) {
            let i = choose|i: int| 0 <= i < more.len() && more[i] == slot.1;
            if i < n - 1 {
                assert(fewer[i] == slot.1);
            }
        }
        if fewer.contains(slot.1) {
            let i = choose|i: int| 0 <= i < fewer.len() && fewer[i] == slot.1;
            assert(more[i] == slot.1);
        }
        if before.contains(slot) {
            let i = choose|i: int| 0 <= i < before.len() && before[i] == slot;
            assert(all[i] == slot);
        }
        if all.contains(slot) {
            let i = choose|i: int| 0 <= i < all.len() && all[i] == slot;
            if i < before.len() {
                assert(before[i] == slot);
            }
        }
        if blocks[order[n - 1]].status == DATA_BLOCK_STATUS_DEAD {
            assert(all.last() == (blocks[order[n - 1]].size_class, order[n - 1]));
        }
    }
}

proof fn lemma_journal_finite(entries: Seq<Json>, n: int)
    ensures
        journal(entries, n).dom().finite(),
    decreases n,
{
    if n > 0 {
        lemma_journal_finite(entries, n - 1);
    }
}

/// The slots that can be used again are just the blocks that the index has down as dead, and the
/// tombstones in the data file.
pub proof fn law_dead_slots_are_free(
    entries: Seq<Json>,
    slots: Seq<(u64, bool)>,
    file_len: u64,
    slot: (usize, u64),
)
    ensures
        free_slots(entries, slots, file_len).contains(slot) <==> is_dead_block(
            journal(entries, entries.len() as int),
            slot,
        ) || is_tombstone(slots, file_len, slot, slots.len() as int),
{
    let blocks = journal(entries, entries.len() as int);
    lemma_journal_finite(entries, entries.len() as int);
    lemma_offsets_listed(blocks.dom());
    let order = offset_order(blocks.dom());
    let n = order.len() as int;
    lemma_dead_blocks(blocks, n, slot);
    assert(order.take(n) =~= order);
    if blocks.dom().contains(slot.1) {
        assert(order.contains(slot.1));
    }
    if order.contains(slot.1) {
        let i = choose|i: int| 0 <= i < order.len() && order[i] == slot.1;
        assert(blocks.dom().contains(order[i]));
    }
    lemma_with_tombstones(
        dead_blocks(blocks, n),
        slots,
        file_len,
        slots.len() as int,
        slot,
    );
}

/// Records are read one by one only where there are some, and only where the dead bytes are more
/// than 64 KiB and more than half as many as the live ones; the more of a file is dead, the more
/// so.
pub proof fn law_mostly_dead_files_are_read_record_by_record(
    m: DrawerModel,
    total_bytes: u64,
    more_bytes: u64,
)
    requires
        total_bytes <= more_bytes,
    ensures
        mostly_dead(m, total_bytes) ==> mostly_dead(m, more_bytes),
        mostly_dead(m, total_bytes) ==> total_bytes - live_bytes(m) > 64 * 1024 && 2 * (total_bytes
            - live_bytes(m)) > live_bytes(m) && live_bytes(m) > 0,
        (forall|k: Seq<char>| !m.primary.dom().contains(k)) ==> !mostly_dead(m, total_bytes),
        (exists|k: Seq<char>| m.primary.dom().contains(k)) && live_bytes(m) > 0 && total_bytes
            - live_bytes(m) > 64 * 1024 && total_bytes - live_bytes(m) > live_bytes(m)
            ==> mostly_dead(m, total_bytes),
{
    if forall|k: Seq<char>| !m.primary.dom().contains(k) {
        assert(m.primary.dom() =~= Set::<Seq<char>>::empty());
    }
}

} // verus!
