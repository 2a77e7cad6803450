//! A drawer over several sessions: records are written and deleted, and the drawer is opened again
//! from its files in between.
use crate::drawer::blocks::{entry_block, DataBlockIndexEntry, DATA_BLOCK_STATUS_LIVE};
use crate::drawer::contents::{live_set, record_of};
use crate::drawer::index_file::{
    entries_written, is_true, keeps_field, lemma_slot_key, plain_fields, slots_hold, tells, IndexFile,
};
use crate::drawer::lifetime::{
    edited, fresh_files, in_order, is_possible, kept_by, law_edit_keeps_order,
    law_fresh_drawer_is_in_order, lemma_places_free, read_in, DrawerEdit, DrawerFiles,
};
use crate::drawer::packing::{
    empty_file, law_compacted_drawer_is_told, law_vacuum_keeps_every_record, packed_records,
    packs_live_records,
};
use crate::drawer::records::offset_of;
use crate::drawer::reopening::{
    law_reopened_drawer_holds_the_records, opened_from, DrawerState,
};
use crate::drawer::replay::{
    chosen_unique, replay_start, replayed, slot_end, slot_key, MetadataModel, ReplayModel,
    SlotModel,
};
use crate::drawer::slots::{
    dead_blocks, entry_json, free_slots, journal, law_index_entry_round_trip, lemma_entry_keys_differ,
    with_tombstones,
};
use crate::drawer::space::{empty_space, is_space, places_taken, total_size, SpaceModel};
use crate::drawer::vacuum::{
    all_keyed, lemma_packed_prefix, lemma_packing_data, packed, packed_offset, packing,
    secondary_logs, vacuumed, LiveModel,
};
use crate::drawer::{DrawerModel, LogModel};
use crate::fields::key_order;
use crate::offsets::{lemma_offsets_listed, offset_order};
use crate::value::Json;
use vstd::prelude::*;

verus! {

/// What the files of a drawer hold when it is opened: its metadata, the slots of its index file,
/// the slots of its data file with whether each is a tombstone, and the lengths of both.
pub struct FilesRead {
    pub known: MetadataModel,
    pub slots: Seq<SlotModel>,
    pub index_len: u64,
    pub rows: Seq<(u64, bool)>,
    pub data_len: u64,
}

/// The entries that the first `n` slots of an index file hold.
pub open spec fn entries_held(slots: Seq<SlotModel>, n: int) -> Seq<Json>
    decreases n,
{
    if n <= 0 {
        Seq::empty()
    } else {
        let before = entries_held(slots, n - 1);
        match slots[n - 1].entry {
            Some(entry) => if slots[n - 1].is_dead {
                before
            } else {
                before.push(entry)
            },
            None => before,
        }
    }
}

/// What was rebuilt from the slots of an index file of the present format.
pub open spec fn read_back(
    primary_key: Seq<char>,
    asked: Seq<Seq<char>>,
    read: FilesRead,
) -> ReplayModel {
    replayed(
        replay_start(chosen_unique(asked, read.known), read.known),
        read.slots,
        read.index_len,
        primary_key,
        false,
        read.slots.len() as int,
    )
}

/// A drawer that was opened again from its files: tombstones are slots that can be used again.
pub open spec fn reopened(
    f: DrawerFiles,
    name: Seq<char>,
    asked: Seq<Seq<char>>,
    read: FilesRead,
) -> DrawerFiles {
    let primary_key = f.state.drawer.primary_key;
    let replay = read_back(primary_key, asked, read);
    DrawerFiles {
        state: DrawerState {
            drawer: opened_from(name, primary_key, asked, read.known, read.slots, read.index_len),
            records: f.state.records,
            file: IndexFile { entries: f.state.file.entries, slots: replay.slots },
        },
        data: SpaceModel {
            free: free_slots(
                entries_held(read.slots, read.slots.len() as int),
                read.rows,
                read.data_len,
            ),
            end: read.data_len,
        },
        index: SpaceModel { free: replay.free, end: read.index_len },
    }
}

/// Whether this is what the files of a drawer hold: its entries and its records stand in slots,
/// each in one of its own, and the metadata names the unique fields of the drawer.
pub open spec fn holds_drawer(f: DrawerFiles, asked: Seq<Seq<char>>, read: FilesRead) -> bool {
    &&& slots_hold(read.slots, f.state.file)
    &&& forall|i: int, j: int|
        0 <= i < j < read.slots.len() ==> (#[trigger] read.slots[i]).offset < (
        #[trigger] read.slots[j]).offset
    &&& forall|i: int|
        0 <= i < read.slots.len() ==> (#[trigger] read.slots[i]).offset < read.index_len
    &&& forall|i: int, j: int|
        0 <= i < j < read.rows.len() ==> (#[trigger] read.rows[i]).0 < (#[trigger] read.rows[j]).0
    &&& forall|i: int| 0 <= i < read.rows.len() ==> (#[trigger] read.rows[i]).0 < read.data_len
    &&& forall|o: u64| #[trigger]
        live_set(f.state.drawer).contains(o) ==> read.rows.contains((o, false))
    &&& chosen_unique(asked, read.known) == f.state.drawer.unique
}

/// The block that a true entry describes.
proof fn lemma_true_block(m: DrawerModel, log: LogModel)
    requires
        is_true(log, m),
        !m.unique.contains(m.primary_key),
    ensures
        log.field == m.primary_key ==> (entry_block(entry_json(log)) matches Some((offset, block))
            && offset == m.primary[log.key] && block.status == DATA_BLOCK_STATUS_LIVE),
        log.field != m.primary_key ==> entry_block(entry_json(log)) is None,
{
    lemma_entry_keys_differ();
    if log.field == m.primary_key {
        law_index_entry_round_trip(log.field, log.key, m.primary[log.key], log.block->0);
    } else {
        assert(entry_json(log).get("len"@) is None);
    }
}

/// Whether every block of a journal is live.
spec fn all_live(blocks: Map<u64, DataBlockIndexEntry>) -> bool {
    forall|o: u64| #[trigger]
        blocks.dom().contains(o) ==> blocks[o].status == DATA_BLOCK_STATUS_LIVE
}

/// What the first `n` slots leave in the journal and among the slots that can be used again.
proof fn lemma_read_so_far(
    f: DrawerFiles,
    start: ReplayModel,
    read: FilesRead,
    n: int,
)
    requires
        tells(f.state.file, f.state.drawer),
        plain_fields(f.state.drawer),
        slots_hold(read.slots, f.state.file),
        start.journal == Map::<u64, DataBlockIndexEntry>::empty(),
        start.free == Seq::<(usize, u64)>::empty(),
        0 <= n <= read.slots.len(),
        forall|i: int, j: int|
            0 <= i < j < read.slots.len() ==> (#[trigger] read.slots[i]).offset < (
            #[trigger] read.slots[j]).offset,
    ensures
        ({
            let m = f.state.drawer;
            let r = replayed(start, read.slots, read.index_len, m.primary_key, false, n);
            &&& all_live(r.journal)
            &&& r.journal == journal(entries_held(read.slots, n), entries_held(read.slots, n).len() as int)
            &&& forall|i: int|
                0 <= i < n && !(#[trigger] read.slots[i]).is_dead ==> {
                    let log = f.state.file.entries[read.slots[i].offset];
                    log.field == m.primary_key ==> r.journal.dom().contains(m.primary[log.key])
                }
            &&& forall|i: int|
                0 <= i < r.free.len() ==> is_tombstone_of(read.slots, (#[trigger] r.free[i]).1, n)
            &&& forall|i: int, j: int|
                0 <= i < j < r.free.len() ==> (#[trigger] r.free[i]).1 < (#[trigger] r.free[j]).1
        }),
    decreases n,
{
    if n > 0 {
        let m = f.state.drawer;
        lemma_read_so_far(f, start, read, n - 1);
        let before = replayed(start, read.slots, read.index_len, m.primary_key, false, n - 1);
        let after = replayed(start, read.slots, read.index_len, m.primary_key, false, n);
        let slot = read.slots[n - 1];
        let held = entries_held(read.slots, n - 1);
        if slot.is_dead {
            let size = (slot_end(read.slots, n - 1, read.index_len) - slot.offset) as usize;
            assert(after.free == before.free.push((size, slot.offset)));
            assert forall|i: int| 0 <= i < after.free.len() implies is_tombstone_of(
                read.slots,
                (#[trigger] after.free[i]).1,
                n,
            ) by {
                if i < before.free.len() {
                    assert(is_tombstone_of(read.slots, before.free[i].1, n - 1));
                } else {
                    assert(read.slots[n - 1].offset == after.free[i].1);
                }
            }
            assert forall|i: int, j: int| 0 <= i < j < after.free.len() implies (
            #[trigger] after.free[i]).1 < (#[trigger] after.free[j]).1 by {
                assert(is_tombstone_of(read.slots, before.free[i].1, n - 1));
            }
        } else {
            let log = f.state.file.entries[slot.offset];
            assert(f.state.file.entries.dom().contains(slot.offset));
            lemma_true_block(m, log);
            assert(slot.entry == Some(entry_json(log)));
            let now = entries_held(read.slots, n);
            assert(now == held.push(entry_json(log)));
            assert(now.drop_last() =~= held);
            lemma_journal_so_far(held, now);
            assert forall|i: int| 0 <= i < after.free.len() implies is_tombstone_of(
                read.slots,
                (#[trigger] after.free[i]).1,
                n,
            ) by {
                assert(is_tombstone_of(read.slots, before.free[i].1, n - 1));
            }
        }
    }
}

proof fn lemma_journal_so_far(before: Seq<Json>, now: Seq<Json>)
    requires
        now.len() == before.len() + 1,
        before == now.drop_last(),
    ensures
        journal(now, before.len() as int) == journal(before, before.len() as int),
{
    lemma_same_journal(before, now, before.len() as int);
}

proof fn lemma_same_journal(a: Seq<Json>, b: Seq<Json>, n: int)
    requires
        n <= a.len(),
        n <= b.len(),
        forall|i: int| 0 <= i < n ==> a[i] == b[i],
    ensures
        journal(a, n) == journal(b, n),
    decreases n,
{
    if n > 0 {
        lemma_same_journal(a, b, n - 1);
    }
}

/// Whether one of the first `n` slots is a tombstone at an offset.
pub open spec fn is_tombstone_of(slots: Seq<SlotModel>, offset: u64, n: int) -> bool {
    exists|i: int| 0 <= i < n && (#[trigger] slots[i]).is_dead && slots[i].offset == offset
}

proof fn lemma_no_dead_blocks(blocks: Map<u64, DataBlockIndexEntry>, n: int)
    requires
        all_live(blocks),
        blocks.dom().finite(),
        n <= offset_order(blocks.dom()).len(),
    ensures
        dead_blocks(blocks, n) == Seq::<(usize, u64)>::empty(),
    decreases n,
{
    if n > 0 {
        lemma_no_dead_blocks(blocks, n - 1);
        lemma_offsets_listed(blocks.dom());
        let offsets = offset_order(blocks.dom());
        assert(offsets.contains(offsets[n - 1]));
        assert(blocks.dom().contains(offsets[n - 1]));
    }
}

/// The tombstones among the first `n` slots of a data file.
proof fn lemma_tombstones(rows: Seq<(u64, bool)>, data_len: u64, n: int)
    requires
        0 <= n <= rows.len(),
        forall|i: int, j: int|
            0 <= i < j < rows.len() ==> (#[trigger] rows[i]).0 < (#[trigger] rows[j]).0,
    ensures
        ({
            let free = with_tombstones(Seq::empty(), rows, data_len, n);
            &&& forall|i: int|
                0 <= i < free.len() ==> is_dead_row(rows, (#[trigger] free[i]).1, n)
            &&& forall|i: int, j: int|
                0 <= i < j < free.len() ==> (#[trigger] free[i]).1 < (#[trigger] free[j]).1
        }),
    decreases n,
{
    if n > 0 {
        lemma_tombstones(rows, data_len, n - 1);
        let before = with_tombstones(Seq::empty(), rows, data_len, n - 1);
        let free = with_tombstones(Seq::empty(), rows, data_len, n);
        assert forall|i: int| 0 <= i < free.len() implies is_dead_row(
            rows,
            (#[trigger] free[i]).1,
            n,
        ) by {
            if i < before.len() {
                assert(is_dead_row(rows, before[i].1, n - 1));
            } else {
                assert(rows[n - 1].0 == free[i].1);
            }
        }
        assert forall|i: int, j: int| 0 <= i < j < free.len() implies (#[trigger] free[i]).1 < (
        #[trigger] free[j]).1 by {
            assert(is_dead_row(rows, before[i].1, n - 1));
            if j < before.len() {
                assert(before[i].1 < before[j].1);
            }
        }
    }
}

/// Whether one of the first `n` slots of a data file is a tombstone at an offset.
pub open spec fn is_dead_row(rows: Seq<(u64, bool)>, offset: u64, n: int) -> bool {
    exists|i: int| 0 <= i < n && (#[trigger] rows[i]).1 && rows[i].0 == offset
}

/// A drawer that is in order is in order when it is opened again, and reads the same records.
pub proof fn law_reopened_drawer_is_in_order(
    f: DrawerFiles,
    name: Seq<char>,
    asked: Seq<Seq<char>>,
    read: FilesRead,
)
    requires
        in_order(f),
        holds_drawer(f, asked, read),
    ensures
        in_order(reopened(f, name, asked, read)),
        forall|k: Seq<char>| #[trigger]
            read_in(reopened(f, name, asked, read), k) == read_in(f, k),
        reopened(f, name, asked, read).state.drawer.primary_key == f.state.drawer.primary_key,
        reopened(f, name, asked, read).state.drawer.unique == f.state.drawer.unique,
{
    let m = f.state.drawer;
    let after = reopened(f, name, asked, read);
    let again = after.state.drawer;
    let replay = read_back(m.primary_key, asked, read);
    let start = replay_start(chosen_unique(asked, read.known), read.known);
    let n = read.slots.len() as int;
    law_reopened_drawer_holds_the_records(f.state, name, asked, read.known, read.slots, read.index_len);
    lemma_read_so_far(f, start, read, n);
    assert(again.primary == m.primary);
    assert forall|k: Seq<char>| #[trigger] again.primary.dom().contains(k) implies again.blocks.dom().contains(
        again.primary[k],
    ) by {
        let slot = slot_key(m.primary_key, k);
        assert(f.state.file.slots.dom().contains(slot));
        let o = f.state.file.slots[slot].0;
        assert(f.state.file.entries.dom().contains(o));
        let log = f.state.file.entries[o];
        assert(keeps_field(m.primary_key, m.unique, m.primary_key));
        lemma_slot_key(log.field, log.key, m.primary_key, k);
        let i = choose|i: int|
            0 <= i < read.slots.len() && !(#[trigger] read.slots[i]).is_dead
                && read.slots[i].offset == o;
        assert(!read.slots[i].is_dead);
        assert(replay.journal.dom().contains(m.primary[k]));
    }
    assert forall|k: Seq<char>| #[trigger] offset_of(again, k) == offset_of(m, k) by {}
    assert forall|o: u64| #[trigger] live_set(again).contains(o) == live_set(m).contains(o) by {
        if live_set(again).contains(o) {
            let k = choose|k: Seq<char>| #[trigger] offset_of(again, k) == Some(o);
            assert(offset_of(m, k) == Some(o));
        }
        if live_set(m).contains(o) {
            let k = choose|k: Seq<char>| #[trigger] offset_of(m, k) == Some(o);
            assert(offset_of(again, k) == Some(o));
        }
    }
    assert(live_set(again) =~= live_set(m));
    // The index file.
    assert forall|i: int| 0 <= i < after.index.free.len() implies (
    #[trigger] after.index.free[i]).1 < after.index.end
        && !after.state.file.entries.dom().contains(after.index.free[i].1) by {
        let o = after.index.free[i].1;
        assert(is_tombstone_of(read.slots, o, n));
        let a = choose|a: int|
            0 <= a < n && (#[trigger] read.slots[a]).is_dead && read.slots[a].offset == o;
        assert(read.slots[a].offset < read.index_len);
        if f.state.file.entries.dom().contains(o) {
            let b = choose|b: int|
                0 <= b < read.slots.len() && !(#[trigger] read.slots[b]).is_dead
                    && read.slots[b].offset == o;
            assert(!read.slots[b].is_dead);
            assert(a != b);
        }
    }
    assert forall|o: u64| #[trigger] after.state.file.entries.dom().contains(o) implies o
        < after.index.end by {
        let b = choose|b: int|
            0 <= b < read.slots.len() && !(#[trigger] read.slots[b]).is_dead
                && read.slots[b].offset == o;
        assert(read.slots[b].offset < read.index_len);
    }
    assert(is_space(after.index, after.state.file.entries.dom()));
    // The data file.
    let held = entries_held(read.slots, n);
    let blocks = journal(held, held.len() as int);
    lemma_journal_finite(held, held.len() as int);
    lemma_no_dead_blocks(blocks, offset_order(blocks.dom()).len() as int);
    lemma_tombstones(read.rows, read.data_len, read.rows.len() as int);
    assert forall|i: int| 0 <= i < after.data.free.len() implies (
    #[trigger] after.data.free[i]).1 < after.data.end && !live_set(again).contains(
        after.data.free[i].1,
    ) by {
        let o = after.data.free[i].1;
        assert(is_dead_row(read.rows, o, read.rows.len() as int));
        let a = choose|a: int|
            0 <= a < read.rows.len() && (#[trigger] read.rows[a]).1 && read.rows[a].0 == o;
        assert(read.rows[a].0 < read.data_len);
        if live_set(m).contains(o) {
            let b = choose|b: int| 0 <= b < read.rows.len() && read.rows[b] == (o, false);
            assert(read.rows[b].0 == o && !read.rows[b].1);
            assert(a != b);
        }
    }
    assert forall|o: u64| #[trigger] live_set(again).contains(o) implies o < after.data.end by {
        assert(live_set(m).contains(o));
        let b = choose|b: int| 0 <= b < read.rows.len() && read.rows[b] == (o, false);
        assert(read.rows[b].0 < read.data_len);
    }
    assert(is_space(after.data, live_set(again)));
}

proof fn lemma_journal_finite(entries: Seq<Json>, n: int)
    ensures
        journal(entries, n).dom().finite(),
    decreases n,
{
    if n > 0 {
        lemma_journal_finite(entries, n - 1);
    }
}

/// The entries of an index file that is written anew when the live records are packed.
pub open spec fn packed_logs(m: DrawerModel, live: Seq<LiveModel>) -> Seq<LogModel> {
    let done = packing(m.primary_key, m.unique, live, live.len() as int);
    done.index_logs + secondary_logs(done.secondary, key_order(done.secondary.dom()).len() as int)
}

/// A drawer whose live records were packed, with the sizes of the slots for the entries of the
/// index file: both files are written anew.
pub open spec fn compacted(f: DrawerFiles, live: Seq<LiveModel>, sizes: Seq<usize>) -> DrawerFiles {
    let m = f.state.drawer;
    let n = live.len() as int;
    let logs = packed_logs(m, live);
    let (index, places) = places_taken(empty_space(), sizes, sizes.len() as int);
    DrawerFiles {
        state: DrawerState {
            drawer: vacuumed(m, packing(m.primary_key, m.unique, live, n)),
            records: packed_records(live),
            file: entries_written(empty_file(), logs, places, logs.len() as int),
        },
        data: SpaceModel { free: Seq::empty(), end: packed(live, n).len() as u64 },
        index,
    }
}

/// Whether the live records can be packed: they are those of the drawer, in the order of their
/// offsets, none is stored as no bytes, slots have a size, and no file is too long.
pub open spec fn can_compact(f: DrawerFiles, live: Seq<LiveModel>, sizes: Seq<usize>) -> bool {
    &&& packs_live_records(f.state.drawer, f.state.records, live)
    &&& forall|i: int| 0 <= i < live.len() ==> (#[trigger] live[i]).payload.len() > 0
    &&& packed(live, live.len() as int).len() <= u64::MAX
    &&& live.len() <= usize::MAX
    &&& sizes.len() == packed_logs(f.state.drawer, live).len()
    &&& forall|i: int| 0 <= i < sizes.len() ==> #[trigger] sizes[i] > 0
    &&& total_size(sizes, sizes.len() as int) <= u64::MAX
}

/// Each key of a packed drawer is that of a record, stands where the record was packed, and has a
/// block there.
proof fn lemma_packed_from(m: DrawerModel, live: Seq<LiveModel>, n: int, key: Seq<char>)
    requires
        0 <= n <= live.len(),
        all_keyed(m.primary_key, live),
        packing(m.primary_key, m.unique, live, n).primary.dom().contains(key),
    ensures
        ({
            let done = packing(m.primary_key, m.unique, live, n);
            &&& done.blocks.dom().contains(done.primary[key])
            &&& exists|i: int|
                0 <= i < n && #[trigger] packed_offset(live, i) == done.primary[key]
                    && live[i].record.get_text(m.primary_key) == Some(key)
        }),
    decreases n,
{
    if n > 0 {
        let own = live[n - 1].record.get_text(m.primary_key);
        assert(own is Some);
        lemma_packing_data(m.primary_key, m.unique, live, n - 1);
        if own == Some(key) {
            assert(packed_offset(live, n - 1) == packing(
                m.primary_key,
                m.unique,
                live,
                n,
            ).primary[key]);
        } else {
            lemma_packed_from(m, live, n - 1, key);
        }
    }
}

/// Packing keeps a drawer in order, and every record is read as before.
pub proof fn law_compacted_drawer_is_in_order(
    f: DrawerFiles,
    live: Seq<LiveModel>,
    sizes: Seq<usize>,
)
    requires
        in_order(f),
        can_compact(f, live, sizes),
    ensures
        in_order(compacted(f, live, sizes)),
        forall|k: Seq<char>| #[trigger] read_in(compacted(f, live, sizes), k) == read_in(f, k),
{
    let m = f.state.drawer;
    let n = live.len() as int;
    let after = compacted(f, live, sizes);
    let now = after.state.drawer;
    let done = packing(m.primary_key, m.unique, live, n);
    assert forall|k: Seq<char>| #[trigger] read_in(after, k) == read_in(f, k) by {
        law_vacuum_keeps_every_record(m, f.state.records, live, k);
    }
    law_vacuum_keeps_every_record(m, f.state.records, live, Seq::empty());
    lemma_places_free(empty_file(), empty_space(), Set::empty(), packed_logs(m, live), sizes);
    law_compacted_drawer_is_told(
        m,
        live,
        places_taken(empty_space(), sizes, sizes.len() as int).1,
    );
    assert forall|k: Seq<char>| #[trigger]
        now.primary.dom().contains(k) implies after.state.records.dom().contains(now.primary[k])
        && now.blocks.dom().contains(now.primary[k]) by {
        lemma_packed_from(m, live, n, k);
    }
    assert forall|a: Seq<char>, b: Seq<char>|
        a != b && offset_of(now, a) is Some implies #[trigger] offset_of(now, a)
        != #[trigger] offset_of(now, b) by {
        if now.primary.dom().contains(b) {
            lemma_packed_from(m, live, n, a);
            lemma_packed_from(m, live, n, b);
            let i = choose|i: int|
                0 <= i < n && #[trigger] packed_offset(live, i) == done.primary[a]
                    && live[i].record.get_text(m.primary_key) == Some(a);
            let j = choose|j: int|
                0 <= j < n && #[trigger] packed_offset(live, j) == done.primary[b]
                    && live[j].record.get_text(m.primary_key) == Some(b);
            assert(i != j);
            lemma_packed_prefix(live, i, n);
            lemma_packed_prefix(live, j, n);
            if i < j {
                lemma_packed_prefix(live, i, j);
            } else {
                lemma_packed_prefix(live, j, i);
            }
        }
    }
    assert forall|k: Seq<char>|
        (#[trigger] record_of(now, after.state.records, k)) is Some implies record_of(
        now,
        after.state.records,
        k,
    )->0.get_text(now.primary_key) == Some(k) by {
        assert(read_in(after, k) == read_in(f, k));
    }
    assert forall|o: u64| #[trigger] live_set(now).contains(o) implies o < after.data.end by {
        let k = choose|k: Seq<char>| #[trigger] offset_of(now, k) == Some(o);
        lemma_packed_from(m, live, n, k);
        let i = choose|i: int|
            0 <= i < n && #[trigger] packed_offset(live, i) == done.primary[k]
                && live[i].record.get_text(m.primary_key) == Some(k);
        lemma_packed_prefix(live, i, n);
    }
}

/// What happens to a drawer: a record is written or deleted, the live records are packed, or the
/// drawer is opened again.
pub enum DrawerEvent {
    Edit(DrawerEdit),
    Compact { live: Seq<LiveModel>, sizes: Seq<usize> },
    Reopen(FilesRead),
}

/// The drawer and its files after an event.
pub open spec fn happened(
    f: DrawerFiles,
    name: Seq<char>,
    asked: Seq<Seq<char>>,
    event: DrawerEvent,
) -> DrawerFiles {
    match event {
        DrawerEvent::Edit(edit) => edited(f, edit),
        DrawerEvent::Compact { live, sizes } => compacted(f, live, sizes),
        DrawerEvent::Reopen(read) => reopened(f, name, asked, read),
    }
}

/// Whether an event can happen: an edit that can be made, live records that can be packed, or an
/// opening from what the files hold.
pub open spec fn can_happen(f: DrawerFiles, asked: Seq<Seq<char>>, event: DrawerEvent) -> bool {
    match event {
        DrawerEvent::Edit(edit) => is_possible(f, edit),
        DrawerEvent::Compact { live, sizes } => can_compact(f, live, sizes),
        DrawerEvent::Reopen(read) => holds_drawer(f, asked, read),
    }
}

/// The drawer and its files after the first `n` events.
pub open spec fn all_happened(
    f: DrawerFiles,
    name: Seq<char>,
    asked: Seq<Seq<char>>,
    events: Seq<DrawerEvent>,
    n: int,
) -> DrawerFiles
    decreases n,
{
    if n <= 0 {
        f
    } else {
        happened(all_happened(f, name, asked, events, n - 1), name, asked, events[n - 1])
    }
}

/// Whether all events can happen, one after another.
pub open spec fn all_can_happen(
    f: DrawerFiles,
    name: Seq<char>,
    asked: Seq<Seq<char>>,
    events: Seq<DrawerEvent>,
) -> bool {
    forall|i: int|
        0 <= i < events.len() ==> can_happen(
            all_happened(f, name, asked, events, i),
            asked,
            #[trigger] events[i],
        )
}

/// The record with a key after the first `n` events: the one that was written last under it,
/// unless that was deleted since.
pub open spec fn kept(events: Seq<DrawerEvent>, key: Seq<char>, n: int) -> Option<Json>
    decreases n,
{
    if n <= 0 {
        None
    } else {
        match events[n - 1] {
            DrawerEvent::Edit(edit) => kept_by(edit, key, kept(events, key, n - 1)),
            _ => kept(events, key, n - 1),
        }
    }
}

/// A drawer that was opened on empty files holds at any time the records that were written last
/// under their keys and not deleted since, however often it was packed or opened again in between:
/// none that was deleted comes back, and none that was written over. The fields that the index file
/// keeps have to be told apart there.
pub proof fn law_records_survive_reopening(
    name: Seq<char>,
    primary_key: Seq<char>,
    asked: Seq<Seq<char>>,
    known: MetadataModel,
    events: Seq<DrawerEvent>,
    n: int,
)
    requires
        plain_fields(opened_from(name, primary_key, asked, known, Seq::empty(), 0)),
        all_can_happen(fresh_files(name, primary_key, asked, known), name, asked, events),
        0 <= n <= events.len(),
    ensures
        ({
            let f = all_happened(
                fresh_files(name, primary_key, asked, known),
                name,
                asked,
                events,
                n,
            );
            &&& in_order(f)
            &&& forall|k: Seq<char>| #[trigger] read_in(f, k) == kept(events, k, n)
        }),
    decreases n,
{
    let fresh = fresh_files(name, primary_key, asked, known);
    if n == 0 {
        law_fresh_drawer_is_in_order(name, primary_key, asked, known);
    } else {
        law_records_survive_reopening(name, primary_key, asked, known, events, n - 1);
        let before = all_happened(fresh, name, asked, events, n - 1);
        assert(can_happen(before, asked, events[n - 1]));
        match events[n - 1] {
            DrawerEvent::Edit(edit) => {
                law_edit_keeps_order(before, edit);
            },
            DrawerEvent::Compact { live, sizes } => {
                law_compacted_drawer_is_in_order(before, live, sizes);
            },
            DrawerEvent::Reopen(read) => {
                law_reopened_drawer_is_in_order(before, name, asked, read);
            },
        }
        let after = all_happened(fresh, name, asked, events, n);
        assert forall|k: Seq<char>| #[trigger] read_in(after, k) == kept(events, k, n) by {
            assert(read_in(before, k) == kept(events, k, n - 1));
        }
    }
}

} // verus!
