//! What a drawer that is opened takes from its files.
use crate::drawer::index::{field_at, offsets_at};
use crate::drawer::records::value_log;
use crate::drawer::replay::{
    array_offsets, dead_told, field_told, live_told, opened, primary_told, MetadataModel,
    ReplayModel, SlotModel,
};
use crate::drawer::vacuum::metadata_of;
use crate::drawer::{offset_json, offsets_json, DrawerModel};
use crate::value::{Json, Number};
use vstd::prelude::*;

verus! {

proof fn lemma_offsets_are_read(offsets: Seq<u64>)
    ensures
        array_offsets(offsets_json(offsets)->Array_0) == offsets,
    decreases offsets.len(),
{
    let items = offsets_json(offsets)->Array_0;
    if offsets.len() > 0 {
        lemma_offsets_are_read(offsets.drop_last());
        assert(items.drop_last() =~= offsets_json(offsets.drop_last())->Array_0);
        assert(items.last() == offset_json(offsets.last()));
        assert(offsets.drop_last().push(offsets.last()) =~= offsets);
    }
}

/// What an entry tells of a value of a field is what the field's index has for it once the entry
/// was read; the other values keep theirs.
pub proof fn law_told_values_are_read(
    index: Map<Seq<char>, Seq<u64>>,
    secondary: Map<Seq<char>, Map<Seq<char>, Seq<u64>>>,
    field: Seq<char>,
    value: Seq<char>,
    other: Seq<char>,
)
    ensures
        offsets_at(field_told(index, value, value_log(secondary, field, value).offset), value)
            == offsets_at(field_at(secondary, field), value),
        other != value ==> offsets_at(
            field_told(index, value, value_log(secondary, field, value).offset),
            other,
        ) == offsets_at(index, other),
{
    let list = offsets_at(field_at(secondary, field), value);
    lemma_offsets_are_read(list);
    assert(offsets_json(list)->Array_0.len() == list.len());
    if list.len() == 0 {
        assert(list =~= Seq::empty());
    }
}

/// What an entry tells of a record is where the record is found once the entry was read, and an
/// entry without offsets takes it away; the other records stay.
pub proof fn law_told_places_are_read(
    primary: Map<Seq<char>, u64>,
    key: Seq<char>,
    offset: u64,
    other: Seq<char>,
)
    ensures
        ({
            let after = primary_told(primary, key, Json::Number(Number::PosInt(offset)), false);
            &&& after.dom().contains(key)
            &&& after[key] == offset
            &&& other != key ==> (after.dom().contains(other) <==> primary.dom().contains(other)) && (
            primary.dom().contains(other) ==> after[other] == primary[other])
        }),
        ({
            let after = primary_told(primary, key, Json::Array(Seq::empty()), false);
            &&& !after.dom().contains(key)
            &&& other != key && other != crate::pointer::clean_token(key) ==> (
            after.dom().contains(other) <==> primary.dom().contains(other))
        }),
{
}

/// An entry of a dead block takes away the record that stands at its offset, and no other.
pub proof fn law_dead_blocks_take_their_record_away(
    r: ReplayModel,
    slot: SlotModel,
    size: usize,
    entry: Json,
    primary_key: Seq<char>,
    key: Seq<char>,
)
    ensures
        ({
            let after = dead_told(r, slot, size, entry, primary_key);
            &&& after.primary.dom().contains(key) <==> r.primary.dom().contains(key) && !(
            entry.get_text("f"@) == Some(primary_key) && entry.get_text("k"@) == Some(key)
                && crate::drawer::blocks::field_number(entry, "o"@) == Some(r.primary[key]))
            &&& after.primary.dom().contains(key) ==> after.primary[key] == r.primary[key]
            &&& after.secondary == r.secondary
            &&& after.tombstones.last() == (slot.offset, size)
        }),
{
}

/// An entry about one field leaves the other fields, and one about a field leaves the records.
pub proof fn law_entries_tell_of_their_own_field(
    r: ReplayModel,
    slot: SlotModel,
    size: usize,
    entry: Json,
    primary_key: Seq<char>,
    migrate: bool,
    field: Seq<char>,
)
    ensures
        ({
            let after = live_told(r, slot, size, entry, primary_key, migrate);
            &&& entry.get_text("f"@) != Some(primary_key) ==> after.primary == r.primary
            &&& entry.get_text("f"@) != Some(field) ==> field_at(after.secondary, field) == field_at(
                r.secondary,
                field,
            )
            &&& entry.get_text("f"@) == Some(primary_key) ==> after.secondary == r.secondary
        }),
{
}

/// A drawer that is opened has the rules of its metadata, the records that were replayed, and the
/// blocks that are not dead.
pub proof fn law_opened_drawer_has_its_rules(
    name: Seq<char>,
    primary_key: Seq<char>,
    asked: Seq<Seq<char>>,
    known: MetadataModel,
    replay: ReplayModel,
    offset: u64,
)
    ensures
        ({
            let m = opened(name, primary_key, asked, known, replay);
            &&& m.name == name
            &&& m.primary_key == primary_key
            &&& m.schema == known.schema
            &&& m.relationships == known.relationships
            &&& m.delete_rules == known.delete_rules
            &&& m.cascade == known.cascade
            &&& m.format_version == known.format_version
            &&& m.primary == replay.primary
            &&& m.secondary == replay.secondary
            &&& asked.len() > 0 ==> m.unique == asked
            &&& asked.len() == 0 ==> m.unique == known.unique
            &&& m.blocks.dom().contains(offset) <==> replay.journal.dom().contains(offset)
                && replay.journal[offset].status != crate::drawer::blocks::DATA_BLOCK_STATUS_DEAD
            &&& m.blocks.dom().contains(offset) ==> m.blocks[offset] == replay.journal[offset]
            &&& forall|f: Seq<char>| !m.validated.contains(f)
        }),
{
}

/// The rules of a drawer are those that it has when it is opened again from its metadata.
pub proof fn law_rules_survive_reopening(m: DrawerModel, replay: ReplayModel)
    ensures
        ({
            let again = opened(m.name, m.primary_key, Seq::empty(), metadata_of(m), replay);
            &&& again.schema == m.schema
            &&& again.unique == m.unique
            &&& again.relationships == m.relationships
            &&& again.delete_rules == m.delete_rules
            &&& again.cascade == m.cascade
            &&& again.generation == m.generation
            &&& again.materialized == m.materialized
        }),
{
}

} // verus!
