//! What holds of a drawer across its operations.
use crate::drawer::blocks::DataBlockIndexEntry;
use crate::drawer::index::{field_at, offsets_at, value_left, value_taken, without};
use crate::drawer::records::{
    followed, held_by_other, offset_of, placed, previous_key, removed, taken_by_other,
    unique_problem,
};
use crate::drawer::{invalidated, query_fields, DrawerModel};
use crate::value::Json;
use vstd::prelude::*;

verus! {

/// A record that was written is found at the offset it was written to, and every other record
/// stays where it was.
pub proof fn law_upsert_then_find(
    m: DrawerModel,
    key: Seq<char>,
    old_record: Option<Json>,
    record: Json,
    offset: u64,
    block: DataBlockIndexEntry,
    stale: Option<(u64, DataBlockIndexEntry)>,
)
    ensures
        ({
            let after = invalidated(placed(m, key, old_record, record, offset, block, stale));
            &&& offset_of(after, key) == Some(offset)
            &&& forall|k: Seq<char>| k != key ==> #[trigger] offset_of(after, k) == offset_of(m, k)
            &&& after.blocks.dom().contains(offset)
            &&& after.blocks[offset] == block
        }),
{
}

/// A record that was deleted is not found, and every other record stays where it was.
pub proof fn law_delete_then_find(m: DrawerModel, key: Seq<char>, record: Json, offset: u64)
    ensures
        ({
            let after = invalidated(removed(m, key, record, offset));
            &&& offset_of(after, key) is None
            &&& forall|k: Seq<char>| k != key ==> #[trigger] offset_of(after, k) == offset_of(m, k)
        }),
{
}

/// Deleting a record that was just added leaves the records that were there before.
pub proof fn law_delete_undoes_insert(
    m: DrawerModel,
    key: Seq<char>,
    record: Json,
    offset: u64,
    block: DataBlockIndexEntry,
)
    requires
        offset_of(m, key) is None,
        m.record_count < usize::MAX,
    ensures
        ({
            let added = invalidated(placed(m, key, None, record, offset, block, None));
            let after = invalidated(removed(added, key, record, offset));
            &&& after.primary == m.primary
            &&& after.record_count == m.record_count
        }),
{
    let added = invalidated(placed(m, key, None, record, offset, block, None));
    let after = invalidated(removed(added, key, record, offset));
    assert(after.primary =~= m.primary);
}

/// The number of records is the number of primary keys.
pub open spec fn count_agrees(m: DrawerModel) -> bool {
    &&& m.primary.dom().finite()
    &&& m.record_count == m.primary.dom().len()
}

/// Writing a record keeps the count in step with the records.
pub proof fn law_upsert_keeps_count(
    m: DrawerModel,
    key: Seq<char>,
    old_record: Option<Json>,
    record: Json,
    offset: u64,
    block: DataBlockIndexEntry,
    stale: Option<(u64, DataBlockIndexEntry)>,
)
    requires
        count_agrees(m),
        m.record_count < usize::MAX,
    ensures
        count_agrees(invalidated(placed(m, key, old_record, record, offset, block, stale))),
{
    let after = placed(m, key, old_record, record, offset, block, stale);
    assert(after.primary.dom() =~= m.primary.dom().insert(key));
}

/// Deleting a record that is there keeps the count in step with the records.
pub proof fn law_delete_keeps_count(m: DrawerModel, key: Seq<char>, record: Json, offset: u64)
    requires
        count_agrees(m),
        offset_of(m, key) is Some,
    ensures
        count_agrees(invalidated(removed(m, key, record, offset))),
{
    let after = removed(m, key, record, offset);
    assert(after.primary.dom() =~= m.primary.dom().remove(key));
    assert(m.primary.dom().len() > 0) by {
        if m.primary.dom().len() == 0 {
            assert(m.primary.dom() =~= Set::<Seq<char>>::empty());
        }
    }
}

/// Whether the index of a unique field has `offset` under `value` alone, if at all.
pub open spec fn tracks(
    m: DrawerModel,
    field: Seq<char>,
    offset: Option<u64>,
    value: Option<Seq<char>>,
) -> bool {
    forall|v: Seq<char>|
        offset is Some && (#[trigger] offsets_at(field_at(m.secondary, field), v)).contains(offset->0)
            ==> value == Some(v)
}

/// A record that passes the check for unique values is, once it is written, the only one that
/// the index has under its value of a unique field.
pub proof fn law_unique_value_is_alone(
    m: DrawerModel,
    key: Seq<char>,
    old_record: Option<Json>,
    record: Json,
    offset: u64,
    block: DataBlockIndexEntry,
    stale: Option<(u64, DataBlockIndexEntry)>,
    field: Seq<char>,
    value: Seq<char>,
)
    requires
        unique_problem(m, record, offset_of(m, key), 0) is None,
        m.unique.contains(field),
        record.get_text(field) == Some(value),
        tracks(m, field, offset_of(m, key), previous_key(old_record, field)),
    ensures
        ({
            let after = invalidated(placed(m, key, old_record, record, offset, block, stale));
            offsets_at(field_at(after.secondary, field), value) == seq![offset]
        }),
{
    let own = offset_of(m, key);
    let i = choose|i: int| 0 <= i < m.unique.len() && m.unique[i] == field;
    lemma_no_problem(m, record, own, 0, i);
    lemma_alone(m, old_record, record, own, offset, field, value, m.unique.len() as int);
    assert(m.unique.subrange(0, m.unique.len() as int) =~= m.unique);
    let after = placed(m, key, old_record, record, offset, block, stale);
    assert(!query_fields(after).contains(field));
}

proof fn lemma_no_problem(m: DrawerModel, record: Json, own: Option<u64>, from: int, i: int)
    requires
        unique_problem(m, record, own, from) is None,
        0 <= from <= i < m.unique.len(),
    ensures
        !taken_by_other(m, record, own, m.unique[i]),
    decreases i - from,
{
    if from < i {
        lemma_no_problem(m, record, own, from + 1, i);
    }
}

proof fn lemma_without_own(offsets: Seq<u64>, own: u64)
    requires
        forall|i: int| 0 <= i < offsets.len() ==> offsets[i] == own,
    ensures
        without(offsets, own) == Seq::<u64>::empty(),
    decreases offsets.len(),
{
    if offsets.len() > 0 {
        lemma_without_own(offsets.drop_last(), own);
    }
}

proof fn lemma_without_other(offset: u64, own: u64)
    requires
        offset != own,
    ensures
        without(seq![offset], own) == seq![offset],
{
    let s = seq![offset];
    assert(s.drop_last() =~= Seq::<u64>::empty());
    assert(without(s.drop_last(), own) =~= Seq::<u64>::empty());
    assert(Seq::<u64>::empty().push(offset) =~= s);
}

proof fn lemma_alone(
    m: DrawerModel,
    old_record: Option<Json>,
    record: Json,
    own: Option<u64>,
    offset: u64,
    field: Seq<char>,
    value: Seq<char>,
    n: int,
)
    requires
        0 <= n <= m.unique.len(),
        record.get_text(field) == Some(value),
        !taken_by_other(m, record, own, field),
        tracks(m, field, own, previous_key(old_record, field)),
    ensures
        ({
            let index = field_at(followed(m, old_record, record, own, offset, n), field);
            if m.unique.subrange(0, n).contains(field) {
                offsets_at(index, value) == seq![offset]
            } else {
                index == field_at(m.secondary, field)
            }
        }),
    decreases n,
{
    if n > 0 {
        lemma_alone(m, old_record, record, own, offset, field, value, n - 1);
        let before = followed(m, old_record, record, own, offset, n - 1);
        let f = m.unique[n - 1];
        let longer = m.unique.subrange(0, n);
        let shorter = m.unique.subrange(0, n - 1);
        assert(longer =~= shorter.push(f));
        assert(longer[n - 1] == f);
        if shorter.contains(field) {
            let k = choose|k: int| 0 <= k < shorter.len() && shorter[k] == field;
            assert(longer[k] == field);
        }
        if longer.contains(field) && f != field {
            let k = choose|k: int| 0 <= k < longer.len() && longer[k] == field;
            assert(shorter[k] == field);
        }
        if f == field {
            let index = field_at(before, field);
            let previous = previous_key(old_record, field);
            let offsets = offsets_at(index, value);
            if shorter.contains(field) {
                assert(offsets == seq![offset]);
                if own is Some {
                    if own->0 == offset {
                        lemma_without_own(offsets, offset);
                    } else {
                        lemma_without_other(offset, own->0);
                    }
                }
            } else {
                assert forall|i: int| 0 <= i < offsets.len() implies own == Some(offsets[i]) by {
                    assert(!held_by_other(offsets, own));
                }
                if offsets.len() > 0 {
                    assert(offsets.contains(offsets[0]));
                    assert(previous == Some(value));
                    lemma_without_own(offsets, own->0);
                }
            }
            let left = match (previous, own) {
                (Some(v), Some(o)) => value_left(index, v, o),
                _ => index,
            };
            let rest = offsets_at(left, value);
            assert(rest == Seq::<u64>::empty() || rest == seq![offset]);
            assert(seq![offset].contains(offset)) by {
                assert(seq![offset][0] == offset);
            }
            assert(Seq::<u64>::empty().push(offset) =~= seq![offset]);
            assert(offsets_at(value_taken(left, value, offset), value) == seq![offset]);
        }
    }
}

} // verus!
