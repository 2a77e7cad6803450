//! Opening a drawer: the indexes are rebuilt from the entries of the index file.
use crate::drawer::blocks::{
    entry_block, read_field_number, field_number, DataBlockIndexEntry, DATA_BLOCK_STATUS_DEAD,
};
use crate::drawer::index::{field_model, group_index, index_model, FieldIndex};
use crate::drawer::{
    extension_fields, schema_extension_fields, Drawer, DrawerModel, DRAWER_METADATA_FORMAT_VERSION,
};
use crate::fields::{key_order, TextMap};
use crate::offsets::{lists_offsets, OffsetMap};
use crate::pointer::{clean_primary_key_token, clean_token};
use crate::text::{concat3, copy_strings, owned, same, texts};
use crate::value::{group_value, json_fields, jsons, opt_value, Json, JsonValue, Number};
use vstd::prelude::*;

verus! {

/// The key of an entry in the index file: the field and the value, with a colon between them.
pub open spec fn slot_key(field: Seq<char>, key: Seq<char>) -> Seq<char> {
    field + ":"@ + key
}

/// Where the entries stand in the index file: offset and size by field and value.
pub struct IndexSlots {
    pub slots: TextMap<(u64, usize)>,
}

impl View for IndexSlots {
    type V = Map<Seq<char>, (u64, usize)>;

    open spec fn view(&self) -> Map<Seq<char>, (u64, usize)> {
        self.slots@
    }
}

/// The slot of an entry.
pub open spec fn slot_of(
    slots: Map<Seq<char>, (u64, usize)>,
    field: Seq<char>,
    key: Seq<char>,
) -> Option<(u64, usize)> {
    if slots.dom().contains(slot_key(field, key)) {
        Some(slots[slot_key(field, key)])
    } else {
        None
    }
}

impl IndexSlots {
    pub fn new() -> (r: Self)
        ensures
            r@ == Map::<Seq<char>, (u64, usize)>::empty(),
    {
        IndexSlots { slots: TextMap::new() }
    }

    fn slot(&self, field: &str, key: &str) -> (r: Option<(u64, usize)>)
        ensures
            r == slot_of(self@, field@, key@),
    {
        let name = concat3(field, ":", key);
        match self.slots.get(name.as_str()) {
            Some(slot) => Some(*slot),
            None => None,
        }
    }

    /// Notes that the entry now stands at `offset`, and gives the slot it stood in before.
    pub fn replace(&mut self, field: &str, key: &str, offset: u64, size: usize) -> (r: Option<
        (u64, usize),
    >)
        ensures
            r == slot_of(old(self)@, field@, key@),
            final(self)@ == old(self)@.insert(slot_key(field@, key@), (offset, size)),
    {
        let before = self.slot(field, key);
        self.slots.insert(concat3(field, ":", key), (offset, size));
        before
    }

    /// Notes that the entry was written to `offset`, and gives the slot that has to be
    /// overwritten with a tombstone: the one it stood in before, unless it was reused.
    pub fn write_entry(&mut self, field: &str, key: &str, offset: u64, size: usize) -> (r: Option<
        (u64, usize),
    >)
        ensures
            final(self)@ == old(self)@.insert(slot_key(field@, key@), (offset, size)),
            r == (match slot_of(old(self)@, field@, key@) {
                Some(slot) => if slot.0 != offset {
                    Some(slot)
                } else {
                    None
                },
                None => None,
            }),
    {
        match self.replace(field, key, offset, size) {
            Some((old_offset, old_size)) => {
                if old_offset != offset {
                    Some((old_offset, old_size))
                } else {
                    None
                }
            },
            None => None,
        }
    }

    /// Takes the entry out, and gives the slot that has to be overwritten with a tombstone.
    pub fn tombstone_index_slot(&mut self, field: &str, key: &str) -> (r: Option<(u64, usize)>)
        ensures
            r == slot_of(old(self)@, field@, key@),
            final(self)@ == old(self)@.remove(slot_key(field@, key@)),
    {
        let name = concat3(field, ":", key);
        self.slots.remove(name.as_str())
    }
}

/// A slot of the index file: its offset, whether it holds a tombstone, and the entry it holds.
pub struct IndexSlot {
    pub offset: u64,
    pub is_dead: bool,
    pub entry: Option<JsonValue>,
}

/// The model of a slot of the index file.
pub struct SlotModel {
    pub offset: u64,
    pub is_dead: bool,
    pub entry: Option<Json>,
}

impl View for IndexSlot {
    type V = SlotModel;

    open spec fn view(&self) -> SlotModel {
        SlotModel { offset: self.offset, is_dead: self.is_dead, entry: opt_value(self.entry) }
    }
}

/// What has been rebuilt from the slots so far.
pub struct Replay {
    pub primary: TextMap<u64>,
    pub secondary: TextMap<FieldIndex>,
    pub slots: IndexSlots,
    pub journal: OffsetMap<DataBlockIndexEntry>,
    /// The slots to overwrite with tombstones, in order.
    pub tombstones: Vec<(u64, usize)>,
    /// The slots to recycle, in order: size and offset.
    pub free: Vec<(usize, u64)>,
}

#[verifier::ext_equal]
pub struct ReplayModel {
    pub primary: Map<Seq<char>, u64>,
    pub secondary: Map<Seq<char>, Map<Seq<char>, Seq<u64>>>,
    pub slots: Map<Seq<char>, (u64, usize)>,
    pub journal: Map<u64, DataBlockIndexEntry>,
    pub tombstones: Seq<(u64, usize)>,
    pub free: Seq<(usize, u64)>,
}

impl View for Replay {
    type V = ReplayModel;

    open spec fn view(&self) -> ReplayModel {
        ReplayModel {
            primary: self.primary@,
            secondary: index_model(self.secondary),
            slots: self.slots@,
            journal: self.journal@,
            tombstones: self.tombstones@,
            free: self.free@,
        }
    }
}

/// The offsets among the items of an array.
pub open spec fn array_offsets(items: Seq<Json>) -> Seq<u64>
    decreases items.len(),
{
    if items.len() == 0 {
        Seq::empty()
    } else {
        let before = array_offsets(items.drop_last());
        match items.last() {
            Json::Number(Number::PosInt(n)) => before.push(n),
            _ => before,
        }
    }
}

/// What an entry says of the primary index: a number is the offset of the record with the key,
/// an empty array says that it is gone.
pub open spec fn primary_told(
    primary: Map<Seq<char>, u64>,
    key: Seq<char>,
    told: Json,
    migrate: bool,
) -> Map<Seq<char>, u64> {
    match told {
        Json::Number(Number::PosInt(offset)) => primary.insert(
            if migrate {
                clean_token(key)
            } else {
                key
            },
            offset,
        ),
        Json::Array(items) => if items.len() == 0 {
            primary.remove(key).remove(clean_token(key))
        } else {
            primary
        },
        _ => primary,
    }
}

/// What an entry says of the index of a field.
pub open spec fn field_told(
    index: Map<Seq<char>, Seq<u64>>,
    key: Seq<char>,
    told: Json,
) -> Map<Seq<char>, Seq<u64>> {
    match told {
        Json::Number(Number::PosInt(offset)) => index.insert(key, seq![offset]),
        Json::Array(items) => if items.len() == 0 {
            index.remove(key)
        } else {
            index.insert(key, array_offsets(items))
        },
        _ => index,
    }
}

/// The state once an entry of a dead block was read: the record at its offset is gone.
pub open spec fn dead_told(
    r: ReplayModel,
    slot: SlotModel,
    size: usize,
    entry: Json,
    primary_key: Seq<char>,
) -> ReplayModel {
    ReplayModel {
        primary: match (
            entry.get_text("f"@),
            entry.get_text("k"@),
            field_number(entry, "o"@),
        ) {
            (Some(field), Some(key), Some(offset)) => if field == primary_key
                && r.primary.dom().contains(key) && r.primary[key] == offset {
                r.primary.remove(key)
            } else {
                r.primary
            },
            _ => r.primary,
        },
        tombstones: r.tombstones.push((slot.offset, size)),
        ..r
    }
}

/// The state once an entry of a live block, or of no block, was read.
pub open spec fn live_told(
    r: ReplayModel,
    slot: SlotModel,
    size: usize,
    entry: Json,
    primary_key: Seq<char>,
    migrate: bool,
) -> ReplayModel {
    match (entry.get_text("f"@), entry.get_text("k"@), entry.get("o"@)) {
        (Some(field), Some(key), Some(told)) => ReplayModel {
            slots: r.slots.insert(slot_key(field, key), (slot.offset, size)),
            tombstones: match slot_of(r.slots, field, key) {
                Some(stale) => r.tombstones.push(stale),
                None => r.tombstones,
            },
            primary: if field == primary_key {
                primary_told(r.primary, key, told, migrate)
            } else {
                r.primary
            },
            secondary: if field != primary_key && r.secondary.dom().contains(field) {
                r.secondary.insert(field, field_told(r.secondary[field], key, told))
            } else {
                r.secondary
            },
            ..r
        },
        _ => r,
    }
}

/// The state once an entry was read.
pub open spec fn entry_told(
    r: ReplayModel,
    slot: SlotModel,
    size: usize,
    entry: Json,
    primary_key: Seq<char>,
    migrate: bool,
) -> ReplayModel {
    let noted = ReplayModel {
        journal: match entry_block(entry) {
            Some((offset, block)) => r.journal.insert(offset, block),
            None => r.journal,
        },
        ..r
    };
    if field_number(entry, "status"@) == Some(DATA_BLOCK_STATUS_DEAD as u64) {
        dead_told(noted, slot, size, entry, primary_key)
    } else {
        live_told(noted, slot, size, entry, primary_key, migrate)
    }
}

/// The state once a slot was read: a tombstone leaves its slot free.
pub open spec fn slot_told(
    r: ReplayModel,
    slot: SlotModel,
    size: usize,
    primary_key: Seq<char>,
    migrate: bool,
) -> ReplayModel {
    if slot.is_dead {
        ReplayModel { free: r.free.push((size, slot.offset)), ..r }
    } else {
        match slot.entry {
            Some(entry) => entry_told(r, slot, size, entry, primary_key, migrate),
            None => r,
        }
    }
}

/// The models of a sequence of slots.
pub open spec fn slot_models(slots: Seq<IndexSlot>) -> Seq<SlotModel> {
    Seq::new(slots.len(), |i: int| slots[i]@)
}

/// The offset at which the slot at `i` ends.
pub open spec fn slot_end(slots: Seq<SlotModel>, i: int, file_len: u64) -> u64 {
    if i + 1 < slots.len() {
        slots[i + 1].offset
    } else {
        file_len
    }
}

/// Whether the slots stand one behind the other within the file.
pub open spec fn in_order(slots: Seq<SlotModel>, file_len: u64) -> bool {
    forall|i: int| 0 <= i < slots.len() ==> (#[trigger] slots[i]).offset <= slot_end(slots, i, file_len)
}

/// The state once the first `n` slots were read.
pub open spec fn replayed(
    start: ReplayModel,
    slots: Seq<SlotModel>,
    file_len: u64,
    primary_key: Seq<char>,
    migrate: bool,
    n: int,
) -> ReplayModel
    decreases n,
{
    if n <= 0 {
        start
    } else {
        slot_told(
            replayed(start, slots, file_len, primary_key, migrate, n - 1),
            slots[n - 1],
            (slot_end(slots, n - 1, file_len) - slots[n - 1].offset) as usize,
            primary_key,
            migrate,
        )
    }
}

fn read_offsets(items: &Vec<JsonValue>) -> (r: Vec<u64>)
    ensures
        r@ == array_offsets(jsons(items@)),
{
    let mut out: Vec<u64> = Vec::new();
    let mut i: usize = 0;
    let ghost all = jsons(items@);
    assert(all.subrange(0, 0) =~= Seq::<Json>::empty());
    while i < items.len()
        invariant
            all == jsons(items@),
            i <= items@.len(),
            out@ == array_offsets(all.subrange(0, i as int)),
        decreases items@.len() - i,
    {
        match items[i].as_u64() {
            Some(n) => {
                out.push(n);
            },
            None => {},
        }
        i += 1;
        assert(all.subrange(0, i as int).drop_last() =~= all.subrange(0, i - 1));
        assert(all.subrange(0, i as int).last() == all[i - 1]);
    }
    assert(all.subrange(0, i as int) =~= all);
    out
}

impl Replay {
    fn tell_primary(&mut self, key: &str, told: &JsonValue, migrate: bool)
        ensures
            final(self)@ == (ReplayModel {
                primary: primary_told(old(self)@.primary, key@, told@, migrate),
                ..old(self)@
            }),
    {
        broadcast use group_value;

        match told {
            JsonValue::Number(Number::PosInt(offset)) => {
                let name = if migrate {
                    clean_primary_key_token(key)
                } else {
                    owned(key)
                };
                self.primary.insert(name, *offset);
            },
            JsonValue::Array(items) => {
                if items.len() == 0 {
                    self.primary.remove(key);
                    let clean = clean_primary_key_token(key);
                    self.primary.remove(clean.as_str());
                }
            },
            _ => {},
        }
        assert(self@ =~= (ReplayModel {
            primary: primary_told(old(self)@.primary, key@, told@, migrate),
            ..old(self)@
        }));
    }

    fn tell_field(&mut self, field: &str, key: &str, told: &JsonValue)
        requires
            old(self)@.secondary.dom().contains(field@),
        ensures
            final(self)@ == (ReplayModel {
                secondary: old(self)@.secondary.insert(
                    field@,
                    field_told(old(self)@.secondary[field@], key@, told@),
                ),
                ..old(self)@
            }),
    {
        broadcast use {group_value, group_index};

        let ghost before = self@.secondary;
        let mut index = crate::drawer::index::take_field(&mut self.secondary, field);
        match told {
            JsonValue::Number(Number::PosInt(offset)) => {
                let mut offsets: Vec<u64> = Vec::new();
                offsets.push(*offset);
                assert(offsets@ =~= seq![*offset]);
                index.insert(owned(key), offsets);
            },
            JsonValue::Array(items) => {
                if items.len() == 0 {
                    index.remove(key);
                } else {
                    index.insert(owned(key), read_offsets(items));
                }
            },
            _ => {},
        }
        let ghost updated = field_model(index);
        assert(updated =~= field_told(before[field@], key@, told@));
        self.secondary.insert(owned(field), index);
        assert(before.remove(field@).insert(field@, updated) =~= before.insert(field@, updated));
        assert(self@ =~= (ReplayModel {
            secondary: before.insert(field@, field_told(before[field@], key@, told@)),
            ..old(self)@
        }));
    }

    fn tell_dead(
        &mut self,
        slot: &IndexSlot,
        size: usize,
        entry: &JsonValue,
        primary_key: &str,
    )
        ensures
            final(self)@ == dead_told(old(self)@, slot@, size, entry@, primary_key@),
    {
        match (entry.get_str("f"), entry.get_str("k"), read_field_number(entry, "o")) {
            (Some(field), Some(key), Some(offset)) => {
                if same(field, primary_key) {
                    let held = match self.primary.get(key) {
                        Some(o) => *o == offset,
                        None => false,
                    };
                    if held {
                        self.primary.remove(key);
                    }
                }
            },
            _ => {},
        }
        self.tombstones.push((slot.offset, size));
        assert(self@ =~= dead_told(old(self)@, slot@, size, entry@, primary_key@));
    }

    fn tell_live(
        &mut self,
        slot: &IndexSlot,
        size: usize,
        entry: &JsonValue,
        primary_key: &str,
        migrate: bool,
    )
        ensures
            final(self)@ == live_told(old(self)@, slot@, size, entry@, primary_key@, migrate),
    {
        match (entry.get_str("f"), entry.get_str("k"), entry.get("o")) {
            (Some(field), Some(key), Some(told)) => {
                match self.slots.replace(field, key, slot.offset, size) {
                    Some(stale) => {
                        self.tombstones.push(stale);
                    },
                    None => {},
                }
                if same(field, primary_key) {
                    self.tell_primary(key, told, migrate);
                } else if self.secondary.contains_key(field) {
                    self.tell_field(field, key, told);
                }
            },
            _ => {},
        }
        assert(self@ =~= live_told(old(self)@, slot@, size, entry@, primary_key@, migrate));
    }

    fn tell_slot(&mut self, slot: &IndexSlot, size: usize, primary_key: &str, migrate: bool)
        ensures
            final(self)@ == slot_told(old(self)@, slot@, size, primary_key@, migrate),
    {
        if slot.is_dead {
            self.free.push((size, slot.offset));
            return;
        }
        match &slot.entry {
            Some(entry) => {
                match DataBlockIndexEntry::from_index_entry(entry) {
                    Some((offset, block)) => {
                        self.journal.insert(offset, block);
                    },
                    None => {},
                }
                let status = read_field_number(entry, "status");
                let is_dead = match status {
                    Some(n) => n == 0,
                    None => false,
                };
                if is_dead {
                    self.tell_dead(slot, size, entry, primary_key);
                } else {
                    self.tell_live(slot, size, entry, primary_key, migrate);
                }
            },
            None => {},
        }
    }
}

/// Reads the slots of the index file in order.
fn replay_slots(
    start: Replay,
    slots: &Vec<IndexSlot>,
    file_len: u64,
    primary_key: &str,
    migrate: bool,
) -> (r: Replay)
    requires
        in_order(slot_models(slots@), file_len),
    ensures
        r@ == replayed(
            start@,
            slot_models(slots@),
            file_len,
            primary_key@,
            migrate,
            slots@.len() as int,
        ),
{
    let ghost models = slot_models(slots@);
    let ghost begin = start@;
    let mut r = start;
    let mut i: usize = 0;
    while i < slots.len()
        invariant
            models == slot_models(slots@),
            in_order(models, file_len),
            i <= slots@.len(),
            r@ == replayed(begin, models, file_len, primary_key@, migrate, i as int),
        decreases slots@.len() - i,
    {
        assert(models[i as int] == slots@[i as int]@);
        let next: u64 = if i + 1 < slots.len() {
            assert(models[i + 1] == slots@[i + 1]@);
            slots[i + 1].offset
        } else {
            file_len
        };
        assert(next == slot_end(models, i as int, file_len));
        let size: usize = (next - slots[i].offset) as usize;
        r.tell_slot(&slots[i], size, primary_key, migrate);
        i += 1;
    }
    r
}

/// What is kept of a drawer beside its records and its index.
pub struct DrawerMetadata {
    pub format_version: u8,
    pub primary_key: String,
    pub record_count: usize,
    pub unique_constraints: Vec<String>,
    pub relationship_constraints: TextMap<JsonValue>,
    pub delete_rules: TextMap<JsonValue>,
    pub cascade_delete_rules: TextMap<bool>,
    pub schema: Option<JsonValue>,
    pub secondary_index_generation: u64,
    pub materialized_secondary_indexes: TextMap<u64>,
}

/// The model of the metadata.
#[verifier::ext_equal]
pub struct MetadataModel {
    pub format_version: u8,
    pub primary_key: Seq<char>,
    pub record_count: usize,
    pub unique: Seq<Seq<char>>,
    pub relationships: Map<Seq<char>, Json>,
    pub delete_rules: Map<Seq<char>, Json>,
    pub cascade: Map<Seq<char>, bool>,
    pub schema: Option<Json>,
    pub generation: u64,
    pub materialized: Map<Seq<char>, u64>,
}

impl View for DrawerMetadata {
    type V = MetadataModel;

    open spec fn view(&self) -> MetadataModel {
        MetadataModel {
            format_version: self.format_version,
            primary_key: self.primary_key@,
            record_count: self.record_count,
            unique: texts(self.unique_constraints@),
            relationships: json_fields(self.relationship_constraints),
            delete_rules: json_fields(self.delete_rules),
            cascade: self.cascade_delete_rules@,
            schema: opt_value(self.schema),
            generation: self.secondary_index_generation,
            materialized: self.materialized_secondary_indexes@,
        }
    }
}

/// The metadata of a drawer that has none yet.
pub open spec fn fresh_metadata() -> MetadataModel {
    MetadataModel {
        format_version: DRAWER_METADATA_FORMAT_VERSION,
        primary_key: Seq::empty(),
        record_count: 0,
        unique: Seq::empty(),
        relationships: Map::empty(),
        delete_rules: Map::empty(),
        cascade: Map::empty(),
        schema: None,
        generation: 0,
        materialized: Map::empty(),
    }
}

/// The metadata to open a drawer with.
pub open spec fn known_metadata(metadata: Option<DrawerMetadata>) -> MetadataModel {
    match metadata {
        Some(m) => m@,
        None => fresh_metadata(),
    }
}

/// Whether records of the drawer are in an earlier format.
pub open spec fn is_outdated(version: u8) -> bool {
    version < DRAWER_METADATA_FORMAT_VERSION
}

/// The indexes to start from: an empty one for each unique field, and for each field that the
/// schema declares as an index and that was written at the present generation.
pub open spec fn empty_indexes(unique: Seq<Seq<char>>, known: MetadataModel) -> Map<
    Seq<char>,
    Map<Seq<char>, Seq<u64>>,
> {
    Map::new(
        |f: Seq<char>|
            unique.contains(f) || extension_fields(known.schema, "indexes"@).contains(f)
                && known.materialized.dom().contains(f) && known.materialized[f]
                == known.generation,
        |f: Seq<char>| Map::empty(),
    )
}

/// The state before the first slot is read.
pub open spec fn replay_start(unique: Seq<Seq<char>>, known: MetadataModel) -> ReplayModel {
    ReplayModel {
        primary: Map::empty(),
        secondary: empty_indexes(unique, known),
        slots: Map::empty(),
        journal: Map::empty(),
        tombstones: Seq::empty(),
        free: Seq::empty(),
    }
}

/// The blocks of the journal that are not dead.
pub open spec fn surviving(journal: Map<u64, DataBlockIndexEntry>) -> Map<u64, DataBlockIndexEntry> {
    Map::new(
        |o: u64| journal.dom().contains(o) && journal[o].status != DATA_BLOCK_STATUS_DEAD,
        |o: u64| journal[o],
    )
}

/// The unique fields of a drawer: those asked for, or where none are, those of the metadata.
pub open spec fn chosen_unique(asked: Seq<Seq<char>>, known: MetadataModel) -> Seq<Seq<char>> {
    if asked.len() == 0 {
        known.unique
    } else {
        asked
    }
}

/// The drawer that is opened from the metadata and the slots of the index file.
pub open spec fn opened(
    name: Seq<char>,
    primary_key: Seq<char>,
    asked: Seq<Seq<char>>,
    known: MetadataModel,
    replay: ReplayModel,
) -> DrawerModel {
    DrawerModel {
        name,
        primary_key,
        unique: chosen_unique(asked, known),
        primary: replay.primary,
        secondary: replay.secondary,
        validated: Set::empty(),
        materialized: known.materialized,
        generation: known.generation,
        blocks: surviving(replay.journal),
        relationships: known.relationships,
        delete_rules: known.delete_rules,
        cascade: known.cascade,
        schema: known.schema,
        record_count: key_order(replay.primary.dom()).len() as usize,
        metadata_dirty: false,
        format_version: known.format_version,
    }
}

/// A drawer that was opened, and what has to be done on disk for it.
pub struct OpenedDrawer {
    pub drawer: Drawer,
    pub slots: IndexSlots,
    pub tombstones: Vec<(u64, usize)>,
    pub free: Vec<(usize, u64)>,
    pub persist: bool,
}

fn start_indexes(
    unique: &Vec<String>,
    schema: &Option<JsonValue>,
    materialized: &TextMap<u64>,
    generation: u64,
    Ghost(known): Ghost<MetadataModel>,
) -> (r: TextMap<FieldIndex>)
    requires
        known.schema == opt_value(*schema),
        known.materialized == materialized@,
        known.generation == generation,
    ensures
        index_model(r) == empty_indexes(texts(unique@), known),
{
    broadcast use group_index;

    let mut out: TextMap<FieldIndex> = TextMap::new();
    let mut i: usize = 0;
    while i < unique.len()
        invariant
            i <= unique@.len(),
            forall|f: Seq<char>| #[trigger]
                out@.dom().contains(f) <==> texts(unique@).subrange(0, i as int).contains(f),
            forall|f: Seq<char>| #[trigger]
                out@.dom().contains(f) ==> field_model(out@[f]) =~= Map::empty(),
        decreases unique@.len() - i,
    {
        let index: FieldIndex = TextMap::new();
        assert(field_model(index) =~= Map::empty());
        out.insert(unique[i].clone(), index);
        i += 1;
        proof {
            lemma_prefix_contains(texts(unique@), i as int);
        }
    }
    assert(texts(unique@).subrange(0, i as int) =~= texts(unique@));
    let fields = schema_extension_fields(schema, "indexes");
    let ghost declared = texts(fields@);
    let mut j: usize = 0;
    while j < fields.len()
        invariant
            j <= fields@.len(),
            declared == texts(fields@),
            forall|f: Seq<char>| #[trigger]
                out@.dom().contains(f) <==> texts(unique@).contains(f) || declared.subrange(
                    0,
                    j as int,
                ).contains(f) && materialized@.dom().contains(f) && materialized@[f] == generation,
            forall|f: Seq<char>| #[trigger]
                out@.dom().contains(f) ==> field_model(out@[f]) =~= Map::empty(),
        decreases fields@.len() - j,
    {
        let current = match materialized.get(fields[j].as_str()) {
            Some(g) => *g == generation,
            None => false,
        };
        proof {
            lemma_prefix_contains(declared, j + 1);
        }
        if current {
            let index: FieldIndex = TextMap::new();
            assert(field_model(index) =~= Map::empty());
            out.insert(fields[j].clone(), index);
        }
        j += 1;
    }
    assert(declared.subrange(0, j as int) =~= declared);
    assert(index_model(out) =~= empty_indexes(texts(unique@), known));
    out
}

proof fn lemma_prefix_contains(all: Seq<Seq<char>>, n: int)
    requires
        0 < n <= all.len(),
    ensures
        forall|f: Seq<char>| #[trigger]
            all.subrange(0, n).contains(f) <==> all.subrange(0, n - 1).contains(f) || f == all[n - 1],
{
    let longer = all.subrange(0, n);
    let shorter = all.subrange(0, n - 1);
    assert forall|f: Seq<char>| #[trigger] longer.contains(f) <==> shorter.contains(f) || f == all[n
        - 1] by {
        if shorter.contains(f) {
            let k = choose|k: int| 0 <= k < shorter.len() && shorter[k] == f;
            assert(longer[k] == f);
        }
        if longer.contains(f) && f != all[n - 1] {
            let k = choose|k: int| 0 <= k < longer.len() && longer[k] == f;
            assert(shorter[k] == f);
        }
        assert(longer[n - 1] == all[n - 1]);
    }
}

fn surviving_blocks(journal: &OffsetMap<DataBlockIndexEntry>) -> (r: OffsetMap<DataBlockIndexEntry>)
    ensures
        r@ == surviving(journal@),
{
    let mut out: OffsetMap<DataBlockIndexEntry> = OffsetMap::new();
    let offsets = journal.offset_list();
    let ghost all = offsets@;
    let mut i: usize = 0;
    while i < offsets.len()
        invariant
            all == offsets@,
            lists_offsets(all, journal@.dom()),
            i <= all.len(),
            forall|o: u64| #[trigger]
                out@.dom().contains(o) ==> surviving(journal@).dom().contains(o) && out@[o]
                    == journal@[o],
            forall|j: int|
                0 <= j < i && journal@[#[trigger] all[j]].status != DATA_BLOCK_STATUS_DEAD
                    ==> out@.dom().contains(all[j]),
        decreases all.len() - i,
    {
        let offset: u64 = offsets[i];
        assert(all.contains(offset));
        match journal.get(offset) {
            Some(block) => {
                if block.status != DATA_BLOCK_STATUS_DEAD {
                    out.insert(offset, *block);
                }
            },
            None => {},
        }
        i += 1;
    }
    proof {
        assert forall|o: u64| surviving(journal@).dom().contains(o) implies out@.dom().contains(o) by {
            assert(all.contains(o));
        }
        assert(out@ =~= surviving(journal@));
    }
    out
}

impl DrawerMetadata {
    pub fn fresh() -> (r: Self)
        ensures
            r@ == fresh_metadata(),
    {
        broadcast use group_value;

        let r = DrawerMetadata {
            format_version: DRAWER_METADATA_FORMAT_VERSION,
            primary_key: String::new(),
            record_count: 0,
            unique_constraints: Vec::new(),
            relationship_constraints: TextMap::new(),
            delete_rules: TextMap::new(),
            cascade_delete_rules: TextMap::new(),
            schema: None,
            secondary_index_generation: 0,
            materialized_secondary_indexes: TextMap::new(),
        };
        assert(r@ =~= fresh_metadata());
        r
    }
}

impl Drawer {
    /// Opens a drawer from its metadata and the slots of its index file.
    pub fn open(
        name: &str,
        primary_key: &str,
        unique_constraints: Vec<String>,
        metadata: Option<DrawerMetadata>,
        slots: &Vec<IndexSlot>,
        index_file_len: u64,
    ) -> (r: OpenedDrawer)
        requires
            in_order(slot_models(slots@), index_file_len),
        ensures
            ({
                let known = known_metadata(metadata);
                let unique = chosen_unique(texts(unique_constraints@), known);
                let replay = replayed(
                    replay_start(unique, known),
                    slot_models(slots@),
                    index_file_len,
                    primary_key@,
                    is_outdated(known.format_version),
                    slots@.len() as int,
                );
                &&& r.drawer@ == opened(
                    name@,
                    primary_key@,
                    texts(unique_constraints@),
                    known,
                    replay,
                )
                &&& r.slots@ == replay.slots
                &&& r.tombstones@ == replay.tombstones
                &&& r.free@ == replay.free
                &&& r.persist == !is_outdated(known.format_version)
            }),
    {
        let known = match metadata {
            Some(m) => m,
            None => DrawerMetadata::fresh(),
        };
        let migrate = known.format_version < DRAWER_METADATA_FORMAT_VERSION;
        let unique = if unique_constraints.len() == 0 {
            copy_strings(&known.unique_constraints)
        } else {
            unique_constraints
        };
        let secondary = start_indexes(
            &unique,
            &known.schema,
            &known.materialized_secondary_indexes,
            known.secondary_index_generation,
            Ghost(known@),
        );
        let start = Replay {
            primary: TextMap::new(),
            secondary,
            slots: IndexSlots::new(),
            journal: OffsetMap::new(),
            tombstones: Vec::new(),
            free: Vec::new(),
        };
        assert(start@ =~= replay_start(texts(unique@), known@));
        let replay = replay_slots(start, slots, index_file_len, primary_key, migrate);
        let record_count: usize = replay.primary.len();
        let blocks = surviving_blocks(&replay.journal);
        let ghost told = replay@;
        let drawer = Drawer {
            name: owned(name),
            primary_key: owned(primary_key),
            unique_constraints: unique,
            primary_memory_index: replay.primary,
            secondary_memory_index: replay.secondary,
            validated_secondary_indexes: TextMap::new(),
            materialized_secondary_indexes: known.materialized_secondary_indexes,
            secondary_index_generation: known.secondary_index_generation,
            data_block_index: blocks,
            relationship_constraints: known.relationship_constraints,
            delete_rules: known.delete_rules,
            cascade_delete_rules: known.cascade_delete_rules,
            schema: known.schema,
            record_count,
            metadata_dirty: false,
            metadata_format_version: known.format_version,
        };
        assert(drawer@ =~= opened(
            name@,
            primary_key@,
            texts(unique_constraints@),
            known@,
            told,
        ));
        OpenedDrawer {
            drawer,
            slots: replay.slots,
            tombstones: replay.tombstones,
            free: replay.free,
            persist: !migrate,
        }
    }
}

} // verus!
