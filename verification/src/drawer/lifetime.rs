//! A drawer in use: every write and every delete goes through the slots of its files.
use crate::drawer::blocks::live_block;
use crate::drawer::contents::{
    delete_effects, historical_block, lemma_historical_unique, live_set, record_of, write_effects,
    EffectsModel, WriteModel,
};
use crate::drawer::index::field_at;
use crate::drawer::index_file::{
    buried_slots, cleared, effects_done, entries_written, index_file, places_free, plain_fields,
    stale_slots, tells, IndexFile,
};
use crate::drawer::packing::keys_agree;
use crate::drawer::reading::apart;
use crate::drawer::records::{offset_of, DrawerEffects};
use crate::drawer::reopening::{
    changed, is_sound, law_change_is_told, opened_from, reaches_file, DrawerChange, DrawerState,
};
use crate::drawer::replay::{chosen_unique, IndexSlots, MetadataModel};
use crate::drawer::space::{
    empty_space, given_back, is_space, law_freed_slot_can_be_used, law_taken_slot_is_unused,
    law_taken_slots_are_unused, lemma_fewer_used, next_slot, places_taken, slot_set, taken,
    total_size, SlotSpace, SpaceModel,
};
use crate::drawer::LogModel;
use crate::fields::lemma_key_order_len;
use crate::value::Json;
use vstd::prelude::*;

verus! {

/// What is known of the files of an open drawer: where each entry of the index file stands, and
/// the space of both files.
pub struct DrawerSpace {
    pub slots: IndexSlots,
    pub data: SlotSpace,
    pub index: SlotSpace,
}

/// Where the entries of a change go, and which slots of the index file have to be overwritten
/// with tombstones, in order.
pub struct EntryPlaces {
    pub places: Vec<(u64, usize)>,
    pub stale: Vec<(u64, usize)>,
}

impl DrawerSpace {
    /// Takes the slots for what a change of the drawer asks for, and gives back the one that it
    /// frees: that of the record, of the given size where one is written, and those of the entries
    /// of the index file, of the given sizes.
    pub fn carry_out(
        &mut self,
        primary_key: &str,
        effects: &DrawerEffects,
        written: Option<usize>,
        sizes: &Vec<usize>,
    ) -> (r: EntryPlaces)
        requires
            sizes@.len() == effects.index_logs@.len(),
            written matches Some(size) ==> old(self).data@.end + size <= u64::MAX,
            old(self).index@.end + total_size(sizes@, sizes@.len() as int) <= u64::MAX,
        ensures
            final(self).data@ == given_back(
                match written {
                    Some(size) => taken(old(self).data@, size),
                    None => old(self).data@,
                },
                effects.freed,
            ),
            (final(self).index@, r.places@) == places_taken(
                old(self).index@,
                sizes@,
                sizes@.len() as int,
            ),
            forall|entries: Map<u64, LogModel>|
                ({
                    let file = #[trigger] index_file(entries, old(self).slots@);
                    &&& final(self).slots@ == effects_done(
                        file,
                        primary_key@,
                        effects@,
                        r.places@,
                    ).slots
                    &&& r.stale@ == buried_slots(file, primary_key@, effects@) + stale_slots(
                        cleared(file, primary_key@, effects@),
                        effects@.logs,
                        r.places@,
                        r.places@.len() as int,
                    )
                }),
    {
        match written {
            Some(size) => {
                self.data.take(size);
            },
            None => {},
        }
        self.data.give_back(effects.freed);
        let places = self.index.take_all(sizes);
        let stale = self.slots.note_effects(primary_key, effects, &places);
        EntryPlaces { places, stale }
    }
}

/// What is done to a drawer: a record is written with its bytes, in a slot of a size, or the
/// record with a key is deleted. With it go the bytes of the record that was there before, and
/// the sizes of the slots for the entries that the index file gets.
pub enum DrawerEdit {
    Write {
        key: Seq<char>,
        record: Json,
        payload: Seq<u8>,
        size: usize,
        old_payload: Option<Seq<u8>>,
        sizes: Seq<usize>,
    },
    Delete { key: Seq<char>, old_payload: Option<Seq<u8>>, sizes: Seq<usize> },
}

/// A drawer in use, and the space of its two files.
pub struct DrawerFiles {
    pub state: DrawerState,
    pub data: SpaceModel,
    pub index: SpaceModel,
}

/// The record that is written, in the slot that it goes to.
pub open spec fn write_placed(
    f: DrawerFiles,
    record: Json,
    payload: Seq<u8>,
    size: usize,
    old_payload: Option<Seq<u8>>,
) -> WriteModel {
    WriteModel {
        record,
        offset: next_slot(f.data, size),
        block: live_block(payload, size),
        file_len: f.data.end,
        old_payload,
    }
}

/// What an edit asks for on disk; nothing where there is no record to delete.
pub open spec fn edit_effects(f: DrawerFiles, edit: DrawerEdit) -> Option<EffectsModel> {
    let s = f.state;
    match edit {
        DrawerEdit::Write { key, record, payload, size, old_payload, sizes } => Some(
            write_effects(
                s.drawer,
                s.records,
                key,
                write_placed(f, record, payload, size, old_payload),
            ),
        ),
        DrawerEdit::Delete { key, old_payload, sizes } => delete_effects(
            s.drawer,
            s.records,
            key,
            f.data.end,
            old_payload,
        ),
    }
}

/// The sizes of the slots for the entries that the index file gets.
pub open spec fn entry_sizes(edit: DrawerEdit) -> Seq<usize> {
    match edit {
        DrawerEdit::Write { key, record, payload, size, old_payload, sizes } => sizes,
        DrawerEdit::Delete { key, old_payload, sizes } => sizes,
    }
}

/// The slots for the entries that the index file gets, and its space then.
pub open spec fn entry_places(f: DrawerFiles, edit: DrawerEdit) -> (SpaceModel, Seq<(u64, usize)>) {
    let sizes = entry_sizes(edit);
    places_taken(f.index, sizes, sizes.len() as int)
}

/// The change that an edit makes.
pub open spec fn edit_change(f: DrawerFiles, edit: DrawerEdit) -> DrawerChange {
    let places = entry_places(f, edit).1;
    match edit {
        DrawerEdit::Write { key, record, payload, size, old_payload, sizes } => DrawerChange::Write {
            key,
            write: write_placed(f, record, payload, size, old_payload),
            places,
        },
        DrawerEdit::Delete { key, old_payload, sizes } => DrawerChange::Delete {
            key,
            file_len: f.data.end,
            payload: old_payload,
            places,
        },
    }
}

/// The drawer and its files once an edit was made: the record and the entries take their slots,
/// and the slot of the record that was there before is given back.
pub open spec fn edited(f: DrawerFiles, edit: DrawerEdit) -> DrawerFiles {
    match edit_effects(f, edit) {
        None => DrawerFiles { state: changed(f.state, edit_change(f, edit)), ..f },
        Some(effects) => DrawerFiles {
            state: changed(f.state, edit_change(f, edit)),
            data: given_back(
                match edit {
                    DrawerEdit::Write { key, record, payload, size, old_payload, sizes } => taken(
                        f.data,
                        size,
                    ),
                    DrawerEdit::Delete { key, old_payload, sizes } => f.data,
                },
                effects.freed,
            ),
            index: entry_places(f, edit).0,
        },
    }
}

/// Whether an edit can be made: a record is written under its own key, slots have a size, there is one for each entry, and no count and
/// no file grows past the largest number.
pub open spec fn is_possible(f: DrawerFiles, edit: DrawerEdit) -> bool {
    let sizes = entry_sizes(edit);
    &&& edit_effects(f, edit) matches Some(effects) ==> sizes.len() == effects.logs.len()
    &&& forall|i: int| 0 <= i < sizes.len() ==> #[trigger] sizes[i] > 0
    &&& f.index.end + total_size(sizes, sizes.len() as int) <= u64::MAX
    &&& match edit {
        DrawerEdit::Write { key, record, payload, size, old_payload, sizes } => {
            &&& record.get_text(f.state.drawer.primary_key) == Some(key)
            &&& size > 0
            &&& f.data.end + size <= u64::MAX
            &&& f.state.drawer.record_count < usize::MAX
        },
        DrawerEdit::Delete { key, old_payload, sizes } => true,
    }
}

/// Whether every live record can be read and has a block.
pub open spec fn all_readable(s: DrawerState) -> bool {
    forall|k: Seq<char>| #[trigger]
        s.drawer.primary.dom().contains(k) ==> s.records.dom().contains(s.drawer.primary[k])
            && s.drawer.blocks.dom().contains(s.drawer.primary[k])
}

/// What holds of a drawer in use: its index file tells what it knows, every live record can be
/// read and has the key under which it is read, no two stand in one slot, and no slot that is in use is taken for one that is not.
pub open spec fn in_order(f: DrawerFiles) -> bool {
    &&& is_sound(f.state)
    &&& all_readable(f.state)
    &&& apart(f.state.drawer)
    &&& keys_agree(f.state.drawer, f.state.records)
    &&& is_space(f.data, live_set(f.state.drawer))
    &&& is_space(f.index, f.state.file.entries.dom())
}

/// The record that is read under a key.
pub open spec fn read_in(f: DrawerFiles, key: Seq<char>) -> Option<Json> {
    record_of(f.state.drawer, f.state.records, key)
}

/// The record with a key once an edit was made, where there was `before` ahead of it.
pub open spec fn kept_by(edit: DrawerEdit, k: Seq<char>, before: Option<Json>) -> Option<Json> {
    match edit {
        DrawerEdit::Write { key, record, payload, size, old_payload, sizes } => if k == key {
            Some(record)
        } else {
            before
        },
        DrawerEdit::Delete { key, old_payload, sizes } => if k == key {
            None
        } else {
            before
        },
    }
}

/// Slots that are in use nowhere else are free for the entries.
pub proof fn lemma_places_free(
    file: IndexFile,
    index: SpaceModel,
    used: Set<u64>,
    logs: Seq<LogModel>,
    sizes: Seq<usize>,
)
    requires
        is_space(index, used),
        file.entries.dom().subset_of(used),
        sizes.len() == logs.len(),
        forall|i: int| 0 <= i < sizes.len() ==> #[trigger] sizes[i] > 0,
        index.end + total_size(sizes, sizes.len() as int) <= u64::MAX,
    ensures
        ({
            let (after, places) = places_taken(index, sizes, sizes.len() as int);
            &&& places_free(file, logs, places)
            &&& is_space(
                after,
                entries_written(file, logs, places, logs.len() as int).entries.dom(),
            )
        }),
{
    let n = sizes.len() as int;
    let (after, places) = places_taken(index, sizes, n);
    law_taken_slots_are_unused(index, used, sizes, n);
    assert forall|i: int| 0 <= i < places.len() implies !entries_written(
        file,
        logs,
        places,
        i,
    ).entries.dom().contains((#[trigger] places[i]).0) by {
        lemma_entries_among(file, logs, places, i);
    }
    lemma_entries_among(file, logs, places, n);
    assert(places.take(n) =~= places);
    lemma_fewer_used(
        after,
        used + slot_set(places),
        entries_written(file, logs, places, n).entries.dom(),
    );
}

/// Entries stand in the slots in which they stood, and in those to which they were written.
proof fn lemma_entries_among(
    file: IndexFile,
    logs: Seq<LogModel>,
    places: Seq<(u64, usize)>,
    n: int,
)
    requires
        0 <= n <= places.len(),
    ensures
        entries_written(file, logs, places, n).entries.dom().subset_of(
            file.entries.dom() + slot_set(places.take(n)),
        ),
    decreases n,
{
    if n > 0 {
        lemma_entries_among(file, logs, places, n - 1);
        let before = entries_written(file, logs, places, n - 1);
        let now = entries_written(file, logs, places, n);
        assert forall|o: u64| #[trigger] now.entries.dom().contains(o) implies (file.entries.dom()
            + slot_set(places.take(n))).contains(o) by {
            if o == places[n - 1].0 {
                assert(places.take(n)[n - 1].0 == o);
            } else {
                assert(before.entries.dom().contains(o));
                if slot_set(places.take(n - 1)).contains(o) {
                    let i = choose|i: int|
                        0 <= i < n - 1 && (#[trigger] places.take(n - 1)[i]).0 == o;
                    assert(places.take(n)[i].0 == o);
                }
            }
        }
    }
}

/// The block of a record that has one.
proof fn lemma_block_known(s: DrawerState, key: Seq<char>, file_len: u64, payload: Option<Seq<u8>>)
    requires
        all_readable(s),
        s.drawer.primary.dom().contains(key),
    ensures
        ({
            let offset = s.drawer.primary[key];
            historical_block(s.drawer, offset, file_len, payload) == Some(
                (offset, s.drawer.blocks[offset]),
            )
        }),
{
    let offset = s.drawer.primary[key];
    lemma_historical_unique(
        s.drawer,
        offset,
        file_len,
        payload,
        Some((offset, s.drawer.blocks[offset])),
    );
}

proof fn lemma_write_in_order(f: DrawerFiles, edit: DrawerEdit)
    requires
        in_order(f),
        is_possible(f, edit),
        edit is Write,
    ensures
        reaches_file(f.state, edit_change(f, edit)),
        in_order(edited(f, edit)),
        forall|k: Seq<char>| #[trigger]
            read_in(edited(f, edit), k) == kept_by(edit, k, read_in(f, k)),
{
    let s = f.state;
    let m = s.drawer;
    match edit {
        DrawerEdit::Write { key, record, payload, size, old_payload, sizes } => {
            let w = write_placed(f, record, payload, size, old_payload);
            let effects = write_effects(m, s.records, key, w);
            let live = live_set(m);
            lemma_places_free(s.file, f.index, s.file.entries.dom(), effects.logs, sizes);
            law_change_is_told(s, edit_change(f, edit));
            law_taken_slot_is_unused(f.data, live, size);
            let after = edited(f, edit);
            let now = after.state.drawer;
            assert(now.primary == m.primary.insert(key, w.offset));
            assert forall|k: Seq<char>| m.primary.dom().contains(k) implies live.contains(
                #[trigger] m.primary[k],
            ) by {
                assert(offset_of(m, k) == Some(m.primary[k]));
            }
            if m.primary.dom().contains(key) {
                lemma_block_known(s, key, w.file_len, w.old_payload);
                let old = m.primary[key];
                assert(effects.freed == Some((m.blocks[old].size_class, old)));
                law_freed_slot_can_be_used(
                    taken(f.data, size),
                    live.insert(w.offset),
                    m.blocks[old].size_class,
                    old,
                );
                assert(live_set(now).subset_of(live.insert(w.offset).remove(old))) by {
                    assert forall|o: u64| #[trigger] live_set(now).contains(o) implies live.insert(
                        w.offset,
                    ).remove(old).contains(o) by {
                        let k = choose|k: Seq<char>| #[trigger] offset_of(now, k) == Some(o);
                        if k != key {
                            assert(offset_of(m, k) == Some(o));
                            assert(offset_of(m, key) == Some(old));
                        }
                    }
                }
                lemma_fewer_used(after.data, live.insert(w.offset).remove(old), live_set(now));
            } else {
                assert(effects.freed is None);
                assert(live_set(now).subset_of(live.insert(w.offset))) by {
                    assert forall|o: u64| #[trigger] live_set(now).contains(o) implies live.insert(
                        w.offset,
                    ).contains(o) by {
                        let k = choose|k: Seq<char>| #[trigger] offset_of(now, k) == Some(o);
                        if k != key {
                            assert(offset_of(m, k) == Some(o));
                        }
                    }
                }
                lemma_fewer_used(after.data, live.insert(w.offset), live_set(now));
            }
            assert forall|k: Seq<char>| #[trigger]
                now.primary.dom().contains(k) implies after.state.records.dom().contains(
                now.primary[k],
            ) && now.blocks.dom().contains(now.primary[k]) by {
                if k != key {
                    assert(m.primary.dom().contains(k));
                    assert(offset_of(m, k) == Some(m.primary[k]));
                    assert(offset_of(m, k) != offset_of(m, key));
                }
            }
            assert forall|a: Seq<char>, b: Seq<char>|
                a != b && offset_of(now, a) is Some implies #[trigger] offset_of(now, a)
                != #[trigger] offset_of(now, b) by {
                if a != key {
                    assert(offset_of(m, a) == offset_of(now, a));
                    assert(live.contains(m.primary[a]));
                }
                if b != key {
                    assert(offset_of(m, b) == offset_of(now, b));
                    if m.primary.dom().contains(b) {
                        assert(live.contains(m.primary[b]));
                    }
                }
            }
            assert forall|k: Seq<char>| #[trigger] read_in(after, k) == kept_by(
                edit,
                k,
                read_in(f, k),
            ) by {
                if k != key {
                    assert(offset_of(now, k) == offset_of(m, k));
                    assert(offset_of(m, k) is Some ==> offset_of(m, k) != offset_of(m, key));
                }
            }
            assert forall|k: Seq<char>|
                (#[trigger] record_of(now, after.state.records, k)) is Some implies record_of(
                now,
                after.state.records,
                k,
            )->0.get_text(now.primary_key) == Some(k) by {
                assert(read_in(after, k) == kept_by(edit, k, read_in(f, k)));
                assert(record_of(m, s.records, k) is Some ==> record_of(
                    m,
                    s.records,
                    k,
                )->0.get_text(m.primary_key) == Some(k));
            }
        },
        _ => {},
    }
}

proof fn lemma_delete_in_order(f: DrawerFiles, edit: DrawerEdit)
    requires
        in_order(f),
        is_possible(f, edit),
        edit is Delete,
    ensures
        reaches_file(f.state, edit_change(f, edit)),
        in_order(edited(f, edit)),
        forall|k: Seq<char>| #[trigger]
            read_in(edited(f, edit), k) == kept_by(edit, k, read_in(f, k)),
{
    let s = f.state;
    let m = s.drawer;
    match edit {
        DrawerEdit::Delete { key, old_payload, sizes } => {
            let after = edited(f, edit);
            let now = after.state.drawer;
            let live = live_set(m);
            if m.primary.dom().contains(key) {
                let old = m.primary[key];
                lemma_block_known(s, key, f.data.end, old_payload);
                assert(offset_of(m, key) == Some(old));
                let effects = edit_effects(f, edit)->0;
                let file = cleared(s.file, m.primary_key, effects);
                assert(file.entries.dom().subset_of(s.file.entries.dom()));
                lemma_places_free(file, f.index, s.file.entries.dom(), effects.logs, sizes);
                law_change_is_told(s, edit_change(f, edit));
                assert(now.primary == m.primary.remove(key));
                assert(live.contains(old));
                law_freed_slot_can_be_used(f.data, live, m.blocks[old].size_class, old);
                assert forall|k: Seq<char>| k != key implies #[trigger] offset_of(now, k)
                    == offset_of(m, k) by {}
                assert(live_set(now).subset_of(live.remove(old))) by {
                    assert forall|o: u64| #[trigger] live_set(now).contains(o) implies live.remove(
                        old,
                    ).contains(o) by {
                        let k = choose|k: Seq<char>| #[trigger] offset_of(now, k) == Some(o);
                        assert(k != key);
                        assert(offset_of(m, k) == Some(o));
                    }
                }
                lemma_fewer_used(after.data, live.remove(old), live_set(now));
                assert forall|k: Seq<char>| #[trigger]
                    now.primary.dom().contains(k) implies after.state.records.dom().contains(
                    now.primary[k],
                ) && now.blocks.dom().contains(now.primary[k]) by {
                    assert(m.primary.dom().contains(k));
                    assert(offset_of(m, k) == Some(m.primary[k]));
                    assert(offset_of(m, k) != offset_of(m, key));
                }
                assert forall|a: Seq<char>, b: Seq<char>|
                    a != b && offset_of(now, a) is Some implies #[trigger] offset_of(now, a)
                    != #[trigger] offset_of(now, b) by {
                    assert(offset_of(m, a) == offset_of(now, a));
                    if b != key {
                        assert(offset_of(m, b) == offset_of(now, b));
                    }
                }
                assert forall|k: Seq<char>| #[trigger] read_in(after, k) == kept_by(
                    edit,
                    k,
                    read_in(f, k),
                ) by {
                    if k != key {
                        assert(offset_of(now, k) == offset_of(m, k));
                        assert(offset_of(m, k) is Some ==> offset_of(m, k) != offset_of(m, key));
                    }
                }
                assert forall|k: Seq<char>|
                    (#[trigger] record_of(now, after.state.records, k)) is Some implies record_of(
                    now,
                    after.state.records,
                    k,
                )->0.get_text(now.primary_key) == Some(k) by {
                    assert(read_in(after, k) == kept_by(edit, k, read_in(f, k)));
                    assert(record_of(m, s.records, k) is Some ==> record_of(
                        m,
                        s.records,
                        k,
                    )->0.get_text(m.primary_key) == Some(k));
                }
            } else {
                assert(offset_of(m, key) is None);
                law_change_is_told(s, edit_change(f, edit));
                assert(m.primary.remove(key) =~= m.primary);
                assert(now =~= m);
                assert(after.state.records == s.records);
                assert(after.state.file == s.file);
            }
        },
        _ => {},
    }
}

/// An edit keeps a drawer in order, and is one that reaches the index file. A record that was
/// written is read back, one that was deleted is not, and every other record is read as before.
pub proof fn law_edit_keeps_order(f: DrawerFiles, edit: DrawerEdit)
    requires
        in_order(f),
        is_possible(f, edit),
    ensures
        reaches_file(f.state, edit_change(f, edit)),
        in_order(edited(f, edit)),
        forall|k: Seq<char>| #[trigger]
            read_in(edited(f, edit), k) == kept_by(edit, k, read_in(f, k)),
        edited(f, edit).state.drawer.primary_key == f.state.drawer.primary_key,
        edited(f, edit).state.drawer.unique == f.state.drawer.unique,
{
    match edit {
        DrawerEdit::Write { key, record, payload, size, old_payload, sizes } => {
            lemma_write_in_order(f, edit);
        },
        DrawerEdit::Delete { key, old_payload, sizes } => {
            lemma_delete_in_order(f, edit);
        },
    }
    law_change_is_told(f.state, edit_change(f, edit));
}

/// A drawer that was opened on empty files.
pub open spec fn fresh_files(
    name: Seq<char>,
    primary_key: Seq<char>,
    asked: Seq<Seq<char>>,
    known: MetadataModel,
) -> DrawerFiles {
    DrawerFiles {
        state: DrawerState {
            drawer: opened_from(name, primary_key, asked, known, Seq::empty(), 0),
            records: Map::empty(),
            file: IndexFile { entries: Map::empty(), slots: Map::empty() },
        },
        data: empty_space(),
        index: empty_space(),
    }
}

/// A drawer on empty files is in order.
pub proof fn law_fresh_drawer_is_in_order(
    name: Seq<char>,
    primary_key: Seq<char>,
    asked: Seq<Seq<char>>,
    known: MetadataModel,
)
    requires
        plain_fields(opened_from(name, primary_key, asked, known, Seq::empty(), 0)),
    ensures
        in_order(fresh_files(name, primary_key, asked, known)),
{
    let f = fresh_files(name, primary_key, asked, known);
    let first = f.state.drawer;
    let unique = chosen_unique(asked, known);
    assert(first.primary == Map::<Seq<char>, u64>::empty());
    lemma_key_order_len(first.primary.dom());
    assert forall|name: Seq<char>| #[trigger] first.unique.contains(name) implies field_at(
        first.secondary,
        name,
    ) == Map::<Seq<char>, Seq<u64>>::empty() by {
        assert(unique.contains(name));
    }
    assert(tells(f.state.file, first));
    assert forall|o: u64| !(#[trigger] live_set(first).contains(o)) by {
        if live_set(first).contains(o) {
            let k = choose|k: Seq<char>| #[trigger] offset_of(first, k) == Some(o);
            assert(first.primary.dom().contains(k));
        }
    }
}

} // verus!
