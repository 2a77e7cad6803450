//! The index file while a drawer is in use: which entries it holds, and where each stands.
use crate::drawer::blocks::DATA_BLOCK_STATUS_LIVE;
use crate::drawer::contents::EffectsModel;
use crate::drawer::index::{field_at, offsets_at};
use crate::drawer::records::{value_log, DrawerEffects};
use crate::drawer::replay::{
    array_offsets, replayed, slot_end, slot_key, slot_of, slot_told, IndexSlots, ReplayModel, SlotModel,
};
use crate::drawer::slots::{entry_json, lemma_entry_keys_differ, number_json};
use crate::drawer::{logs, offset_json, DrawerModel, LogModel};
use crate::text::starts_with;
use crate::value::Json;
use vstd::prelude::*;

verus! {

/// An index file: the entries by the offsets of their slots, and the slot in which the entry of
/// each field and value stands. The other slots hold tombstones.
#[verifier::ext_equal]
pub struct IndexFile {
    pub entries: Map<u64, LogModel>,
    pub slots: Map<Seq<char>, (u64, usize)>,
}

/// The entries without the one in a slot, which is overwritten with a tombstone.
pub open spec fn entries_without(
    entries: Map<u64, LogModel>,
    slot: Option<(u64, usize)>,
) -> Map<u64, LogModel> {
    match slot {
        Some((offset, _)) => entries.remove(offset),
        None => entries,
    }
}

/// The file once an entry was written to a slot: the slot in which the entry of the field and
/// the value stood before is overwritten with a tombstone.
pub open spec fn entry_written(file: IndexFile, log: LogModel, place: (u64, usize)) -> IndexFile {
    IndexFile {
        entries: entries_without(
            file.entries,
            slot_of(file.slots, log.field, log.key),
        ).insert(place.0, log),
        slots: file.slots.insert(slot_key(log.field, log.key), place),
    }
}

/// The file once the entry of a field and a value was overwritten with a tombstone.
pub open spec fn entry_buried(file: IndexFile, field: Seq<char>, key: Seq<char>) -> IndexFile {
    IndexFile {
        entries: entries_without(file.entries, slot_of(file.slots, field, key)),
        slots: file.slots.remove(slot_key(field, key)),
    }
}

/// The file once the first `n` entries were written, each to its slot.
pub open spec fn entries_written(
    file: IndexFile,
    logs: Seq<LogModel>,
    places: Seq<(u64, usize)>,
    n: int,
) -> IndexFile
    decreases n,
{
    if n <= 0 {
        file
    } else {
        entry_written(entries_written(file, logs, places, n - 1), logs[n - 1], places[n - 1])
    }
}

/// Whether each entry is written to a slot that holds no entry: one behind the end of the file,
/// or one that holds a tombstone.
pub open spec fn places_free(
    file: IndexFile,
    logs: Seq<LogModel>,
    places: Seq<(u64, usize)>,
) -> bool {
    &&& places.len() == logs.len()
    &&& forall|i: int|
        0 <= i < places.len() ==> !entries_written(file, logs, places, i).entries.dom().contains(
            (#[trigger] places[i]).0,
        )
}

/// The slots that have to be overwritten with tombstones while the first `n` entries are written.
pub open spec fn stale_slots(
    file: IndexFile,
    logs: Seq<LogModel>,
    places: Seq<(u64, usize)>,
    n: int,
) -> Seq<(u64, usize)>
    decreases n,
{
    if n <= 0 {
        Seq::empty()
    } else {
        let before = stale_slots(file, logs, places, n - 1);
        match slot_of(
            entries_written(file, logs, places, n - 1).slots,
            logs[n - 1].field,
            logs[n - 1].key,
        ) {
            Some(slot) => if slot.0 != places[n - 1].0 {
                before.push(slot)
            } else {
                before
            },
            None => before,
        }
    }
}

/// The index file before the entries of a change are written.
pub open spec fn cleared(file: IndexFile, primary_key: Seq<char>, effects: EffectsModel) -> IndexFile {
    match effects.buried {
        Some(key) => entry_buried(file, primary_key, key),
        None => file,
    }
}

/// The slot of the entry that a change buries.
pub open spec fn buried_slots(
    file: IndexFile,
    primary_key: Seq<char>,
    effects: EffectsModel,
) -> Seq<(u64, usize)> {
    match effects.buried {
        Some(key) => match slot_of(file.slots, primary_key, key) {
            Some(slot) => seq![slot],
            None => Seq::empty(),
        },
        None => Seq::empty(),
    }
}

/// The index file once what a change asks for was done.
pub open spec fn effects_done(
    file: IndexFile,
    primary_key: Seq<char>,
    effects: EffectsModel,
    places: Seq<(u64, usize)>,
) -> IndexFile {
    entries_written(
        cleared(file, primary_key, effects),
        effects.logs,
        places,
        effects.logs.len() as int,
    )
}

impl IndexSlots {
    /// Notes what a change of a drawer does to the index file, with the slots to which its entries
    /// are written, and gives the slots that have to be overwritten with tombstones, in order.
    pub fn note_effects(
        &mut self,
        primary_key: &str,
        effects: &DrawerEffects,
        places: &Vec<(u64, usize)>,
    ) -> (r: Vec<(u64, usize)>)
        requires
            places@.len() == effects.index_logs@.len(),
        ensures
            forall|entries: Map<u64, LogModel>|
                ({
                    let file = #[trigger] index_file(entries, old(self)@);
                    &&& final(self)@ == effects_done(file, primary_key@, effects@, places@).slots
                    &&& r@ == buried_slots(file, primary_key@, effects@) + stale_slots(
                        cleared(file, primary_key@, effects@),
                        effects@.logs,
                        places@,
                        places@.len() as int,
                    )
                }),
    {
        let ghost before = self@;
        let mut stale: Vec<(u64, usize)> = Vec::new();
        match &effects.buried {
            Some(key) => match self.tombstone_index_slot(primary_key, key.as_str()) {
                Some(slot) => {
                    stale.push(slot);
                },
                None => {},
            },
            None => {},
        }
        let ghost first = stale@;
        assert forall|entries: Map<u64, LogModel>| ({
            let file = #[trigger] index_file(entries, before);
            &&& self@ == cleared(file, primary_key@, effects@).slots
            &&& first == buried_slots(file, primary_key@, effects@)
        }) by {
            assert(first =~= buried_slots(index_file(entries, before), primary_key@, effects@));
        }
        let ghost all = logs(effects.index_logs@);
        let mut i: usize = 0;
        while i < effects.index_logs.len()
            invariant
                i <= effects.index_logs@.len(),
                places@.len() == effects.index_logs@.len(),
                all == logs(effects.index_logs@),
                forall|entries: Map<u64, LogModel>|
                    ({
                        let file = cleared(
                            #[trigger] index_file(entries, before),
                            primary_key@,
                            effects@,
                        );
                        &&& self@ == entries_written(file, all, places@, i as int).slots
                        &&& stale@ == first + stale_slots(file, all, places@, i as int)
                    }),
            decreases effects.index_logs@.len() - i,
        {
            let log = &effects.index_logs[i];
            assert(all[i as int] == log@);
            let (offset, size) = places[i];
            let ghost seen = stale@;
            let ghost now = self@;
            match self.write_entry(log.field.as_str(), log.key.as_str(), offset, size) {
                Some(slot) => {
                    stale.push(slot);
                },
                None => {},
            }
            i += 1;
            assert forall|entries: Map<u64, LogModel>| ({
                let file = cleared(#[trigger] index_file(entries, before), primary_key@, effects@);
                &&& self@ == entries_written(file, all, places@, i as int).slots
                &&& stale@ == first + stale_slots(file, all, places@, i as int)
            }) by {
                let file = cleared(index_file(entries, before), primary_key@, effects@);
                assert(now == entries_written(file, all, places@, i - 1).slots);
                assert(seen == first + stale_slots(file, all, places@, i - 1));
                assert(stale@ =~= first + stale_slots(file, all, places@, i as int));
            }
        }
        stale
    }
}

/// The index file with the entries and the slots.
pub open spec fn index_file(
    entries: Map<u64, LogModel>,
    slots: Map<Seq<char>, (u64, usize)>,
) -> IndexFile {
    IndexFile { entries, slots }
}

/// Whether an entry says what a drawer knows: where the record with a key stands, or which
/// records hold a value of a unique field. Of other fields it may say anything.
pub open spec fn is_true(log: LogModel, m: DrawerModel) -> bool {
    if log.field == m.primary_key {
        &&& m.primary.dom().contains(log.key)
        &&& log.offset == offset_json(m.primary[log.key])
        &&& log.block is Some
        &&& log.block->0.status == DATA_BLOCK_STATUS_LIVE
    } else if m.unique.contains(log.field) {
        log == value_log(m.secondary, log.field, log.key)
    } else {
        log.block is None
    }
}

/// Whether a drawer keeps a field in the index file: the primary key, and the unique fields.
pub open spec fn keeps_field(
    primary_key: Seq<char>,
    unique: Seq<Seq<char>>,
    field: Seq<char>,
) -> bool {
    field == primary_key || unique.contains(field)
}

/// Whether two fields are told apart in the index file, whatever values stand behind them:
/// neither is the other with a colon and more behind it.
pub open spec fn told_apart(f: Seq<char>, g: Seq<char>) -> bool {
    !starts_with(f, g + ":"@) && !starts_with(g, f + ":"@)
}

/// Whether a field is told apart from those that a drawer keeps.
pub open spec fn apart_from_kept(
    primary_key: Seq<char>,
    unique: Seq<Seq<char>>,
    field: Seq<char>,
) -> bool {
    forall|f: Seq<char>| #[trigger]
        keeps_field(primary_key, unique, f) ==> told_apart(field, f)
}

/// Whether the fields that a drawer keeps in the index file are told apart, and the primary key
/// is no unique field as well.
pub open spec fn plain_fields(m: DrawerModel) -> bool {
    &&& !m.unique.contains(m.primary_key)
    &&& forall|f: Seq<char>| #[trigger]
        keeps_field(m.primary_key, m.unique, f) ==> apart_from_kept(m.primary_key, m.unique, f)
}

/// Whether no value of a unique field has an empty list of records.
pub open spec fn no_empty_lists(m: DrawerModel) -> bool {
    forall|f: Seq<char>, v: Seq<char>|
        m.unique.contains(f) && #[trigger] field_at(m.secondary, f).dom().contains(v) ==> field_at(
            m.secondary,
            f,
        )[v].len() > 0
}

/// Whether an index file tells what a drawer knows: all its entries are true, each stands where
/// it is looked for, and none is missing.
pub open spec fn tells(file: IndexFile, m: DrawerModel) -> bool {
    &&& no_empty_lists(m)
    &&& forall|o: u64| #[trigger]
        file.entries.dom().contains(o) ==> {
            let log = file.entries[o];
            &&& is_true(log, m)
            &&& apart_from_kept(m.primary_key, m.unique, log.field)
            &&& file.slots.dom().contains(slot_key(log.field, log.key))
            &&& file.slots[slot_key(log.field, log.key)].0 == o
        }
    &&& forall|name: Seq<char>| #[trigger]
        file.slots.dom().contains(name) ==> file.entries.dom().contains(file.slots[name].0)
            && slot_key(
            file.entries[file.slots[name].0].field,
            file.entries[file.slots[name].0].key,
        ) == name
    &&& forall|k: Seq<char>| #[trigger]
        m.primary.dom().contains(k) ==> file.slots.dom().contains(slot_key(m.primary_key, k))
    &&& forall|f: Seq<char>, v: Seq<char>|
        m.unique.contains(f) && #[trigger] field_at(m.secondary, f).dom().contains(v)
            ==> file.slots.dom().contains(slot_key(f, v))
}

/// Fields that are told apart, with values behind them, are the same only with the same values.
pub proof fn lemma_slot_key(f: Seq<char>, k: Seq<char>, g: Seq<char>, l: Seq<char>)
    requires
        slot_key(f, k) == slot_key(g, l),
        told_apart(f, g),
    ensures
        f == g,
        k == l,
{
    reveal_strlit(":");
    let a = slot_key(f, k);
    let b = slot_key(g, l);
    if f.len() < g.len() {
        assert(g.subrange(0, (f.len() + 1) as int) =~= f + ":"@) by {
            assert forall|i: int| 0 <= i <= f.len() implies g[i] == (f + ":"@)[i] by {
                assert(b[i] == g[i] && a[i] == (f + ":"@)[i]);
            }
        }
        assert(starts_with(g, f + ":"@));
    }
    if g.len() < f.len() {
        assert(f.subrange(0, (g.len() + 1) as int) =~= g + ":"@) by {
            assert forall|i: int| 0 <= i <= g.len() implies f[i] == (g + ":"@)[i] by {
                assert(a[i] == f[i] && b[i] == (g + ":"@)[i]);
            }
        }
        assert(starts_with(f, g + ":"@));
    }
    assert(f =~= a.subrange(0, f.len() as int));
    assert(g =~= b.subrange(0, g.len() as int));
    assert(k =~= a.subrange((f.len() + 1) as int, a.len() as int));
    assert(l =~= b.subrange((g.len() + 1) as int, b.len() as int));
}

/// Whether two drawers know the same but for one entry of the index file.
pub open spec fn same_but(m1: DrawerModel, m2: DrawerModel, field: Seq<char>, key: Seq<char>) -> bool {
    &&& m1.primary_key == m2.primary_key
    &&& m1.unique == m2.unique
    &&& forall|k: Seq<char>|
        !(field == m1.primary_key && k == key) ==> (#[trigger] m2.primary.dom().contains(k)
            <==> m1.primary.dom().contains(k)) && (m1.primary.dom().contains(k) ==> m2.primary[k]
            == m1.primary[k])
    &&& forall|f: Seq<char>, v: Seq<char>|
        m1.unique.contains(f) && !(f == field && v == key) ==> (#[trigger] field_at(
            m2.secondary,
            f,
        ).dom().contains(v) <==> field_at(m1.secondary, f).dom().contains(v)) && (field_at(
            m1.secondary,
            f,
        ).dom().contains(v) ==> field_at(m2.secondary, f)[v] == field_at(m1.secondary, f)[v])
}

proof fn lemma_stays_true(m1: DrawerModel, m2: DrawerModel, field: Seq<char>, key: Seq<char>, log: LogModel)
    requires
        same_but(m1, m2, field, key),
        is_true(log, m1),
        log.field != field || log.key != key,
    ensures
        is_true(log, m2),
{
    if log.field == m1.primary_key {
        assert(m2.primary.dom().contains(log.key) <==> m1.primary.dom().contains(log.key));
    } else if m1.unique.contains(log.field) {
        assert(field_at(m2.secondary, log.field).dom().contains(log.key) <==> field_at(
            m1.secondary,
            log.field,
        ).dom().contains(log.key));
        assert(offsets_at(field_at(m2.secondary, log.field), log.key) == offsets_at(
            field_at(m1.secondary, log.field),
            log.key,
        ));
    }
}

/// Writing a true entry keeps the file telling what the drawer knows.
pub proof fn lemma_entry_written(
    file: IndexFile,
    m1: DrawerModel,
    m2: DrawerModel,
    log: LogModel,
    place: (u64, usize),
)
    requires
        tells(file, m1),
        no_empty_lists(m2),
        same_but(m1, m2, log.field, log.key),
        is_true(log, m2),
        apart_from_kept(m1.primary_key, m1.unique, log.field),
        plain_fields(m1),
        !file.entries.dom().contains(place.0),
    ensures
        tells(entry_written(file, log, place), m2),
{
    let after = entry_written(file, log, place);
    let own = slot_key(log.field, log.key);
    assert forall|o: u64| #[trigger] after.entries.dom().contains(o) implies {
        let l = after.entries[o];
        &&& is_true(l, m2)
        &&& apart_from_kept(m2.primary_key, m2.unique, l.field)
        &&& after.slots.dom().contains(slot_key(l.field, l.key))
        &&& after.slots[slot_key(l.field, l.key)].0 == o
    } by {
        if o != place.0 {
            assert(file.entries.dom().contains(o));
            let l = file.entries[o];
            if slot_key(l.field, l.key) == own {
                assert(false);
            }
            lemma_stays_true(m1, m2, log.field, log.key, l);
        }
    }
    assert forall|name: Seq<char>| #[trigger] after.slots.dom().contains(name) implies after.entries.dom().contains(
        after.slots[name].0,
    ) && slot_key(
        after.entries[after.slots[name].0].field,
        after.entries[after.slots[name].0].key,
    ) == name by {
        if name != own {
            assert(file.slots.dom().contains(name));
            assert(file.entries.dom().contains(file.slots[name].0));
            if file.slots.dom().contains(own) {
                assert(file.entries.dom().contains(file.slots[own].0));
                assert(file.slots[own].0 != file.slots[name].0);
            }
        }
    }
    assert forall|k: Seq<char>| #[trigger] m2.primary.dom().contains(k) implies after.slots.dom().contains(
        slot_key(m2.primary_key, k),
    ) by {
        if !(log.field == m1.primary_key && k == log.key) {
            assert(m1.primary.dom().contains(k));
        }
    }
    assert forall|f: Seq<char>, v: Seq<char>|
        m2.unique.contains(f) && #[trigger] field_at(
            m2.secondary,
            f,
        ).dom().contains(v) implies after.slots.dom().contains(slot_key(f, v)) by {
        if !(f == log.field && v == log.key) {
            assert(field_at(m1.secondary, f).dom().contains(v));
        }
    }
}

/// Burying the entry of a key keeps the file telling what the drawer knows without the key.
pub proof fn lemma_entry_buried(file: IndexFile, m: DrawerModel, key: Seq<char>)
    requires
        tells(file, m),
        plain_fields(m),
    ensures
        tells(
            entry_buried(file, m.primary_key, key),
            (DrawerModel { primary: m.primary.remove(key), ..m }),
        ),
{
    let m2 = DrawerModel { primary: m.primary.remove(key), ..m };
    let after = entry_buried(file, m.primary_key, key);
    let own = slot_key(m.primary_key, key);
    assert forall|o: u64| #[trigger] after.entries.dom().contains(o) implies {
        let l = after.entries[o];
        &&& is_true(l, m2)
        &&& apart_from_kept(m2.primary_key, m2.unique, l.field)
        &&& after.slots.dom().contains(slot_key(l.field, l.key))
        &&& after.slots[slot_key(l.field, l.key)].0 == o
    } by {
        assert(file.entries.dom().contains(o));
        let l = file.entries[o];
        if slot_key(l.field, l.key) == own {
            assert(false);
        }
    }
    assert forall|name: Seq<char>| #[trigger] after.slots.dom().contains(name) implies after.entries.dom().contains(
        after.slots[name].0,
    ) && slot_key(
        after.entries[after.slots[name].0].field,
        after.entries[after.slots[name].0].key,
    ) == name by {
        assert(file.slots.dom().contains(name));
        if file.slots.dom().contains(own) {
            assert(file.entries.dom().contains(file.slots[own].0));
            assert(file.slots[own].0 != file.slots[name].0);
        }
    }
    assert forall|k: Seq<char>| #[trigger] m2.primary.dom().contains(k) implies after.slots.dom().contains(
        slot_key(m2.primary_key, k),
    ) by {
        assert(m.primary.dom().contains(k));
        assert(keeps_field(m.primary_key, m.unique, m.primary_key));
        if slot_key(m.primary_key, k) == own {
            lemma_slot_key(m.primary_key, k, m.primary_key, key);
        }
    }
    assert forall|f: Seq<char>, v: Seq<char>|
        m2.unique.contains(f) && #[trigger] field_at(
            m2.secondary,
            f,
        ).dom().contains(v) implies after.slots.dom().contains(slot_key(f, v)) by {
        assert(field_at(m.secondary, f).dom().contains(v));
        assert(keeps_field(m.primary_key, m.unique, f));
        assert(keeps_field(m.primary_key, m.unique, m.primary_key));
        if slot_key(f, v) == own {
            lemma_slot_key(f, v, m.primary_key, key);
        }
    }
}

/// Whether the slots of a file, read one behind the other, are those of the index file: each
/// entry stands in a slot of its own, and every slot that holds no tombstone holds an entry.
pub open spec fn slots_hold(slots: Seq<SlotModel>, file: IndexFile) -> bool {
    &&& forall|i: int|
        0 <= i < slots.len() && !(#[trigger] slots[i]).is_dead ==> file.entries.dom().contains(
            slots[i].offset,
        ) && slots[i].entry == Some(entry_json(file.entries[slots[i].offset]))
    &&& forall|o: u64| #[trigger]
        file.entries.dom().contains(o) ==> exists|i: int|
            0 <= i < slots.len() && !(#[trigger] slots[i]).is_dead && slots[i].offset == o
}

pub proof fn lemma_array_offsets(offsets: Seq<u64>)
    ensures
        array_offsets(Seq::new(offsets.len(), |i: int| offset_json(offsets[i]))) == offsets,
    decreases offsets.len(),
{
    let items = Seq::new(offsets.len(), |i: int| offset_json(offsets[i]));
    if offsets.len() > 0 {
        let rest = offsets.drop_last();
        lemma_array_offsets(rest);
        assert(items.drop_last() =~= Seq::new(rest.len(), |i: int| offset_json(rest[i])));
        assert(rest.push(offsets.last()) =~= offsets);
    }
}

/// What reading a true entry says.
proof fn lemma_entry_told(r: ReplayModel, slot: SlotModel, size: usize, m: DrawerModel, log: LogModel)
    requires
        !slot.is_dead,
        slot.entry == Some(entry_json(log)),
        is_true(log, m),
        no_empty_lists(m),
        plain_fields(m),
        forall|f: Seq<char>| #[trigger] m.unique.contains(f) ==> r.secondary.dom().contains(f),
    ensures
        ({
            let after = slot_told(r, slot, size, m.primary_key, false);
            &&& after.slots == r.slots.insert(slot_key(log.field, log.key), (slot.offset, size))
            &&& after.primary == if log.field == m.primary_key {
                r.primary.insert(log.key, m.primary[log.key])
            } else {
                r.primary
            }
            &&& forall|f: Seq<char>| #[trigger]
                m.unique.contains(f) ==> after.secondary.dom().contains(f) && after.secondary[f]
                    == if f != log.field {
                    r.secondary[f]
                } else if field_at(m.secondary, f).dom().contains(log.key) {
                    r.secondary[f].insert(log.key, field_at(m.secondary, f)[log.key])
                } else {
                    r.secondary[f].remove(log.key)
                }
        }),
{
    lemma_entry_keys_differ();
    let entry = entry_json(log);
    assert(entry.get("f"@) == Some(Json::Text(log.field)));
    assert(entry.get("k"@) == Some(Json::Text(log.key)));
    assert(entry.get("o"@) == Some(log.offset));
    if log.field == m.primary_key {
        assert(entry.get("status"@) == Some(number_json(log.block->0.status as int)));
    } else {
        assert(entry.get("status"@) is None);
        if m.unique.contains(log.field) {
            let offsets = offsets_at(field_at(m.secondary, log.field), log.key);
            lemma_array_offsets(offsets);
            assert(field_at(m.secondary, log.field).dom().contains(log.key) <==> offsets.len() > 0);
        }
    }
}

/// What is known once the first `n` slots were read.
pub open spec fn told_so_far(
    r: ReplayModel,
    slots: Seq<SlotModel>,
    file: IndexFile,
    m: DrawerModel,
    n: int,
) -> bool {
    &&& forall|k: Seq<char>| #[trigger]
        r.primary.dom().contains(k) ==> m.primary.dom().contains(k) && r.primary[k] == m.primary[k]
    &&& forall|f: Seq<char>| #[trigger] m.unique.contains(f) ==> r.secondary.dom().contains(f)
    &&& forall|f: Seq<char>, v: Seq<char>|
        m.unique.contains(f) && #[trigger] r.secondary[f].dom().contains(v) ==> field_at(
            m.secondary,
            f,
        ).dom().contains(v) && r.secondary[f][v] == field_at(m.secondary, f)[v]
    &&& forall|name: Seq<char>| #[trigger]
        r.slots.dom().contains(name) ==> file.slots.dom().contains(name) && file.slots[name].0
            == r.slots[name].0
    &&& forall|i: int|
        0 <= i < n && !(#[trigger] slots[i]).is_dead ==> {
            let log = file.entries[slots[i].offset];
            &&& r.slots.dom().contains(slot_key(log.field, log.key))
            &&& log.field == m.primary_key ==> r.primary.dom().contains(log.key)
            &&& m.unique.contains(log.field) && field_at(m.secondary, log.field).dom().contains(
                log.key,
            ) ==> r.secondary[log.field].dom().contains(log.key)
        }
}

#[verifier::spinoff_prover]
proof fn lemma_told_so_far(
    start: ReplayModel,
    slots: Seq<SlotModel>,
    file_len: u64,
    file: IndexFile,
    m: DrawerModel,
    n: int,
)
    requires
        tells(file, m),
        plain_fields(m),
        slots_hold(slots, file),
        told_so_far(start, slots, file, m, 0),
        0 <= n <= slots.len(),
    ensures
        told_so_far(
            replayed(start, slots, file_len, m.primary_key, false, n),
            slots,
            file,
            m,
            n,
        ),
    decreases n,
{
    if n > 0 {
        lemma_told_so_far(start, slots, file_len, file, m, n - 1);
        let before = replayed(start, slots, file_len, m.primary_key, false, n - 1);
        let after = replayed(start, slots, file_len, m.primary_key, false, n);
        let slot = slots[n - 1];
        let size = (slot_end(slots, n - 1, file_len) - slot.offset) as usize;
        assert(after == slot_told(before, slot, size, m.primary_key, false));
        if !slot.is_dead {
            let log = file.entries[slot.offset];
            assert(file.entries.dom().contains(slot.offset));
            lemma_entry_told(before, slot, size, m, log);
            assert forall|i: int| 0 <= i < n && !(#[trigger] slots[i]).is_dead implies {
                let l = file.entries[slots[i].offset];
                &&& after.slots.dom().contains(slot_key(l.field, l.key))
                &&& l.field == m.primary_key ==> after.primary.dom().contains(l.key)
                &&& m.unique.contains(l.field) && field_at(m.secondary, l.field).dom().contains(
                    l.key,
                ) ==> after.secondary[l.field].dom().contains(l.key)
            } by {
                let l = file.entries[slots[i].offset];
                if i < n - 1 {
                    assert(before.slots.dom().contains(slot_key(l.field, l.key)));
                }
            }
            assert forall|f: Seq<char>, v: Seq<char>|
                m.unique.contains(f) && #[trigger] after.secondary[f].dom().contains(
                    v,
                ) implies field_at(m.secondary, f).dom().contains(v) && after.secondary[f][v]
                == field_at(m.secondary, f)[v] by {
                if !(f == log.field && v == log.key) {
                    assert(before.secondary[f].dom().contains(v));
                }
            }
        }
    }
}

/// Whether what was read of the index file is what a drawer knows: where its records stand, and
/// which of them hold which values of its unique fields.
pub open spec fn agrees(r: ReplayModel, m: DrawerModel) -> bool {
    &&& r.primary == m.primary
    &&& forall|f: Seq<char>| #[trigger]
        m.unique.contains(f) ==> r.secondary.dom().contains(f) && r.secondary[f] == field_at(
            m.secondary,
            f,
        )
}

/// The slots of an index file that tells what a drawer knows tell it whatever their order, and
/// they tell where each entry stands.
pub proof fn law_index_file_is_read_back(
    start: ReplayModel,
    slots: Seq<SlotModel>,
    file_len: u64,
    file: IndexFile,
    m: DrawerModel,
)
    requires
        tells(file, m),
        plain_fields(m),
        slots_hold(slots, file),
        start.primary == Map::<Seq<char>, u64>::empty(),
        start.slots == Map::<Seq<char>, (u64, usize)>::empty(),
        forall|f: Seq<char>| #[trigger]
            m.unique.contains(f) ==> start.secondary.dom().contains(f) && start.secondary[f]
                == Map::<Seq<char>, Seq<u64>>::empty(),
    ensures
        ({
            let r = replayed(start, slots, file_len, m.primary_key, false, slots.len() as int);
            &&& agrees(r, m)
            &&& tells(IndexFile { entries: file.entries, slots: r.slots }, m)
        }),
{
    let n = slots.len() as int;
    let r = replayed(start, slots, file_len, m.primary_key, false, n);
    lemma_told_so_far(start, slots, file_len, file, m, n);
    assert forall|k: Seq<char>| m.primary.dom().contains(k) implies r.primary.dom().contains(k) by {
        let name = slot_key(m.primary_key, k);
        assert(file.slots.dom().contains(name));
        let o = file.slots[name].0;
        assert(file.entries.dom().contains(o));
        assert(keeps_field(m.primary_key, m.unique, m.primary_key));
        lemma_slot_key(file.entries[o].field, file.entries[o].key, m.primary_key, k);
        let i = choose|i: int| 0 <= i < slots.len() && !(#[trigger] slots[i]).is_dead && slots[i].offset == o;
        assert(!slots[i].is_dead);
    }
    assert(r.primary =~= m.primary);
    assert forall|f: Seq<char>| #[trigger] m.unique.contains(f) implies r.secondary.dom().contains(f)
        && r.secondary[f] == field_at(m.secondary, f) by {
        let index = field_at(m.secondary, f);
        assert forall|v: Seq<char>| index.dom().contains(v) implies r.secondary[f].dom().contains(v) by {
            let name = slot_key(f, v);
            assert(file.slots.dom().contains(name));
            let o = file.slots[name].0;
            assert(file.entries.dom().contains(o));
            assert(keeps_field(m.primary_key, m.unique, f));
            lemma_slot_key(file.entries[o].field, file.entries[o].key, f, v);
            let i = choose|i: int|
                0 <= i < slots.len() && !(#[trigger] slots[i]).is_dead && slots[i].offset == o;
            assert(!slots[i].is_dead);
        }
        assert(r.secondary[f] =~= index);
    }
    assert forall|name: Seq<char>| file.slots.dom().contains(name) implies r.slots.dom().contains(name) by {
        let o = file.slots[name].0;
        assert(file.entries.dom().contains(o));
        let i = choose|i: int| 0 <= i < slots.len() && !(#[trigger] slots[i]).is_dead && slots[i].offset == o;
        assert(!slots[i].is_dead);
    }
}

} // verus!
