//! The secondary index: for each indexed field, the offsets of the records by the value they
//! hold in it.
use crate::fields::TextMap;
use crate::text::{decimal, decimal_text, opt_text, owned, signed_decimal, signed_text};
use crate::value::{Json, JsonValue, Number};
use vstd::prelude::*;

verus! {

/// The offsets by value, for one field.
pub type FieldIndex = TextMap<Vec<u64>>;

/// The model of the index of one field.
pub open spec fn field_model(index: FieldIndex) -> Map<Seq<char>, Seq<u64>> {
    Map::new(|k: Seq<char>| index@.dom().contains(k), |k: Seq<char>| index@[k]@)
}

/// The model of the indexes of all fields.
pub open spec fn index_model(index: TextMap<FieldIndex>) -> Map<Seq<char>, Map<Seq<char>, Seq<u64>>> {
    Map::new(|f: Seq<char>| index@.dom().contains(f), |f: Seq<char>| field_model(index@[f]))
}

/// The offsets without `offset`.
pub open spec fn without(offsets: Seq<u64>, offset: u64) -> Seq<u64>
    decreases offsets.len(),
{
    if offsets.len() == 0 {
        Seq::empty()
    } else if offsets.last() == offset {
        without(offsets.drop_last(), offset)
    } else {
        without(offsets.drop_last(), offset).push(offsets.last())
    }
}

/// The index of a field once `offset` no longer holds `value`: a value that no record holds has
/// no entry.
pub open spec fn value_left(
    index: Map<Seq<char>, Seq<u64>>,
    value: Seq<char>,
    offset: u64,
) -> Map<Seq<char>, Seq<u64>> {
    if !index.dom().contains(value) {
        index
    } else if without(index[value], offset).len() == 0 {
        index.remove(value)
    } else {
        index.insert(value, without(index[value], offset))
    }
}

/// The index of a field once `offset` holds `value`.
pub open spec fn value_taken(
    index: Map<Seq<char>, Seq<u64>>,
    value: Seq<char>,
    offset: u64,
) -> Map<Seq<char>, Seq<u64>> {
    let offsets = offsets_at(index, value);
    index.insert(
        value,
        if offsets.contains(offset) {
            offsets
        } else {
            offsets.push(offset)
        },
    )
}

/// The offsets that an index gives for a value; none where it has no entry.
pub open spec fn offsets_at(index: Map<Seq<char>, Seq<u64>>, value: Seq<char>) -> Seq<u64> {
    if index.dom().contains(value) {
        index[value]
    } else {
        Seq::empty()
    }
}

/// The index of a field; empty where the field is not indexed.
pub open spec fn field_at(
    index: Map<Seq<char>, Map<Seq<char>, Seq<u64>>>,
    field: Seq<char>,
) -> Map<Seq<char>, Seq<u64>> {
    if index.dom().contains(field) {
        index[field]
    } else {
        Map::empty()
    }
}

/// The key under which a value is indexed: texts as they are, integers in decimal, and truth
/// values by name. Nothing else is indexed.
pub open spec fn index_key(value: Json) -> Option<Seq<char>> {
    match value {
        Json::Text(s) => Some(s),
        Json::Number(Number::PosInt(n)) => Some(decimal(n as nat)),
        Json::Number(Number::NegInt(n)) => Some(signed_decimal(n as int)),
        Json::Bool(b) => Some(
            if b {
                "true"@
            } else {
                "false"@
            },
        ),
        _ => None,
    }
}

/// The key under which a field of a record is indexed.
pub open spec fn record_key(record: Json, field: Seq<char>) -> Option<Seq<char>> {
    match record.get(field) {
        Some(value) => index_key(value),
        None => None,
    }
}

/// The key by which an equality filter can be looked up: that of the value, unless it is a text
/// with a wildcard.
pub open spec fn filter_key(value: Json) -> Option<Seq<char>> {
    match value {
        Json::Text(s) => if s.contains('%') {
            None
        } else {
            Some(s)
        },
        _ => index_key(value),
    }
}

pub fn secondary_index_key(value: &JsonValue) -> (r: Option<String>)
    ensures
        opt_text(r) == index_key(value@),
{
    match value {
        JsonValue::String(s) => Some(s.clone()),
        JsonValue::Number(Number::PosInt(n)) => Some(decimal_text(*n)),
        JsonValue::Number(Number::NegInt(n)) => Some(signed_text(*n)),
        JsonValue::Bool(b) => Some(
            if *b {
                owned("true")
            } else {
                owned("false")
            },
        ),
        _ => None,
    }
}

pub fn equality_filter_index_key(value: &JsonValue) -> (r: Option<String>)
    ensures
        opt_text(r) == filter_key(value@),
{
    match value {
        JsonValue::String(s) => {
            if crate::text::has_char(s.as_str(), '%') {
                None
            } else {
                Some(s.clone())
            }
        },
        _ => secondary_index_key(value),
    }
}

/// The key under which a field of a record is indexed.
pub fn record_index_key(record: &JsonValue, field: &str) -> (r: Option<String>)
    ensures
        opt_text(r) == record_key(record@, field@),
{
    match record.get(field) {
        Some(value) => secondary_index_key(value),
        None => None,
    }
}

/// Whether the list holds the offset.
pub fn has_offset(offsets: &Vec<u64>, offset: u64) -> (r: bool)
    ensures
        r == offsets@.contains(offset),
{
    let mut i: usize = 0;
    while i < offsets.len()
        invariant
            i <= offsets@.len(),
            forall|k: int| 0 <= k < i ==> offsets@[k] != offset,
        decreases offsets@.len() - i,
    {
        if offsets[i] == offset {
            return true;
        }
        i += 1;
    }
    false
}

/// A copy of a list of offsets.
pub fn copy_offsets(offsets: &Vec<u64>) -> (r: Vec<u64>)
    ensures
        r@ == offsets@,
{
    let mut out: Vec<u64> = Vec::new();
    let mut i: usize = 0;
    while i < offsets.len()
        invariant
            i <= offsets@.len(),
            out@ == offsets@.subrange(0, i as int),
        decreases offsets@.len() - i,
    {
        out.push(offsets[i]);
        i += 1;
        assert(offsets@.subrange(0, i as int) =~= offsets@.subrange(0, i - 1).push(offsets@[i - 1]));
    }
    assert(out@ =~= offsets@);
    out
}

fn drop_offset(offsets: &Vec<u64>, offset: u64) -> (r: Vec<u64>)
    ensures
        r@ == without(offsets@, offset),
{
    let mut out: Vec<u64> = Vec::new();
    let mut i: usize = 0;
    assert(offsets@.subrange(0, 0) =~= Seq::<u64>::empty());
    while i < offsets.len()
        invariant
            i <= offsets@.len(),
            out@ == without(offsets@.subrange(0, i as int), offset),
        decreases offsets@.len() - i,
    {
        if offsets[i] != offset {
            out.push(offsets[i]);
        }
        i += 1;
        let ghost seen = offsets@.subrange(0, i as int);
        assert(seen.drop_last() =~= offsets@.subrange(0, i - 1));
        assert(seen.last() == offsets@[i - 1]);
    }
    assert(offsets@.subrange(0, i as int) =~= offsets@);
    out
}

/// The offsets that the index of a field gives for a value.
pub fn offsets_for(index: &FieldIndex, value: &str) -> (r: Vec<u64>)
    ensures
        r@ == offsets_at(field_model(*index), value@),
{
    match index.get(value) {
        Some(offsets) => copy_offsets(offsets),
        None => Vec::new(),
    }
}

/// Takes `offset` out of the entry of `value`.
pub fn leave_value(index: &mut FieldIndex, value: &str, offset: u64)
    ensures
        field_model(*final(index)) == value_left(field_model(*old(index)), value@, offset),
{
    let left: Option<Vec<u64>> = match index.get(value) {
        Some(offsets) => Some(drop_offset(offsets, offset)),
        None => None,
    };
    match left {
        Some(offsets) => {
            if offsets.len() == 0 {
                index.remove(value);
            } else {
                index.insert(owned(value), offsets);
            }
        },
        None => {},
    }
    assert(field_model(*index) =~= value_left(field_model(*old(index)), value@, offset));
}

/// Puts `offset` into the entry of `value`.
pub fn take_value(index: &mut FieldIndex, value: &str, offset: u64)
    ensures
        field_model(*final(index)) == value_taken(field_model(*old(index)), value@, offset),
{
    let mut offsets = offsets_for(index, value);
    if !has_offset(&offsets, offset) {
        offsets.push(offset);
    }
    index.insert(owned(value), offsets);
    assert(field_model(*index) =~= value_taken(field_model(*old(index)), value@, offset));
}

pub broadcast proof fn lemma_index_insert(
    before: TextMap<FieldIndex>,
    after: TextMap<FieldIndex>,
    field: Seq<char>,
    index: FieldIndex,
)
    requires
        after@ == #[trigger] before@.insert(field, index),
    ensures
        #[trigger] index_model(after) == index_model(before).insert(field, field_model(index)),
{
    assert(index_model(after) =~= index_model(before).insert(field, field_model(index)));
}

pub broadcast proof fn lemma_index_remove(
    before: TextMap<FieldIndex>,
    after: TextMap<FieldIndex>,
    field: Seq<char>,
)
    requires
        after@ == #[trigger] before@.remove(field),
    ensures
        #[trigger] index_model(after) == index_model(before).remove(field),
{
    assert(index_model(after) =~= index_model(before).remove(field));
}

pub broadcast group group_index {
    lemma_index_insert,
    lemma_index_remove,
}

/// Takes the index of a field out, or starts an empty one.
pub fn take_field(index: &mut TextMap<FieldIndex>, field: &str) -> (r: FieldIndex)
    ensures
        field_model(r) == field_at(index_model(*old(index)), field@),
        index_model(*final(index)) == index_model(*old(index)).remove(field@),
{
    broadcast use group_index;

    match index.remove(field) {
        Some(found) => found,
        None => {
            let r: FieldIndex = TextMap::new();
            assert(field_model(r) =~= Map::empty());
            r
        },
    }
}

/// Whether `both` holds what stands in `left` and in `right`, in ascending order and each once.
pub open spec fn is_intersection(both: Seq<u64>, left: Seq<u64>, right: Seq<u64>) -> bool {
    &&& strictly_ascending(both)
    &&& forall|x: u64| #[trigger] both.contains(x) <==> left.contains(x) && right.contains(x)
}

pub open spec fn strictly_ascending(offsets: Seq<u64>) -> bool {
    forall|i: int, j: int| 0 <= i < j < offsets.len() ==> offsets[i] < offsets[j]
}

/// The offsets that stand in both lists.
pub fn intersect_sorted_offsets(left: Vec<u64>, right: Vec<u64>) -> (r: Vec<u64>)
    requires
        strictly_ascending(left@),
        strictly_ascending(right@),
    ensures
        is_intersection(r@, left@, right@),
{
    let mut intersection: Vec<u64> = Vec::new();
    let mut left_index: usize = 0;
    let mut right_index: usize = 0;
    while left_index < left.len() && right_index < right.len()
        invariant
            strictly_ascending(left@),
            strictly_ascending(right@),
            left_index <= left@.len(),
            right_index <= right@.len(),
            strictly_ascending(intersection@),
            forall|x: u64| #[trigger]
                intersection@.contains(x) ==> left@.contains(x) && right@.contains(x),
            forall|i: int, j: int|
                0 <= i < left@.len() && 0 <= j < right@.len() && (i < left_index || j < right_index)
                    && #[trigger] left@[i] == #[trigger] right@[j] ==> intersection@.contains(left@[i]),
            forall|k: int|
                0 <= k < intersection@.len() ==> (left_index < left@.len() ==> #[trigger] intersection@[k]
                    < left@[left_index as int]) && (right_index < right@.len() ==> intersection@[k]
                    < right@[right_index as int]),
        decreases left@.len() - left_index + right@.len() - right_index,
    {
        let l: u64 = left[left_index];
        let r: u64 = right[right_index];
        let ghost before = intersection@;
        if l == r {
            intersection.push(l);
            proof {
                assert(intersection@[before.len() as int] == l);
                assert forall|x: u64| #[trigger] intersection@.contains(x) implies left@.contains(x)
                    && right@.contains(x) by {
                    let k = choose|k: int| 0 <= k < intersection@.len() && intersection@[k] == x;
                    if k < before.len() {
                        assert(before[k] == x);
                        assert(before.contains(x));
                    } else {
                        assert(left@[left_index as int] == x);
                        assert(right@[right_index as int] == x);
                    }
                }
                assert forall|x: u64| before.contains(x) implies intersection@.contains(x) by {
                    let k = choose|k: int| 0 <= k < before.len() && before[k] == x;
                    assert(intersection@[k] == x);
                }
            }
            left_index += 1;
            right_index += 1;
        } else if l < r {
            left_index += 1;
        } else {
            right_index += 1;
        }
    }
    assert forall|x: u64| left@.contains(x) && right@.contains(x) implies #[trigger] intersection@.contains(
        x,
    ) by {
        let i = choose|i: int| 0 <= i < left@.len() && left@[i] == x;
        let j = choose|j: int| 0 <= j < right@.len() && right@[j] == x;
        assert(left@[i] == right@[j]);
    }
    intersection
}

/// Puts an offset into its place in an ascending list, unless it is there.
fn insert_ascending(offsets: &mut Vec<u64>, offset: u64)
    requires
        strictly_ascending(old(offsets)@),
    ensures
        strictly_ascending(final(offsets)@),
        forall|x: u64| #[trigger]
            final(offsets)@.contains(x) <==> old(offsets)@.contains(x) || x == offset,
{
    let mut at: usize = 0;
    while at < offsets.len() && offsets[at] < offset
        invariant
            *offsets == *old(offsets),
            at <= offsets@.len(),
            forall|k: int| 0 <= k < at ==> offsets@[k] < offset,
        decreases offsets@.len() - at,
    {
        at += 1;
    }
    let ghost before = offsets@;
    if at < offsets.len() && offsets[at] == offset {
        assert(before[at as int] == offset);
        return;
    }
    offsets.insert(at, offset);
    proof {
        let after = offsets@;
        assert(after[at as int] == offset);
        assert forall|x: u64| #[trigger] after.contains(x) <==> before.contains(x) || x == offset by {
            if before.contains(x) {
                let k = choose|k: int| 0 <= k < before.len() && before[k] == x;
                assert(after[if k < at { k } else { k + 1 }] == x);
            }
            if after.contains(x) && x != offset {
                let k = choose|k: int| 0 <= k < after.len() && after[k] == x;
                assert(before[if k < at { k } else { k - 1 }] == x);
            }
        }
    }
}

/// Whether the list is the offsets in ascending order, each once.
pub open spec fn is_sorted_set(sorted: Seq<u64>, offsets: Seq<u64>) -> bool {
    &&& strictly_ascending(sorted)
    &&& forall|x: u64| #[trigger] sorted.contains(x) <==> offsets.contains(x)
}

/// The offsets in ascending order, each once.
pub fn sorted_set(offsets: &Vec<u64>) -> (r: Vec<u64>)
    ensures
        is_sorted_set(r@, offsets@),
{
    let mut out: Vec<u64> = Vec::new();
    let mut i: usize = 0;
    while i < offsets.len()
        invariant
            i <= offsets@.len(),
            is_sorted_set(out@, offsets@.subrange(0, i as int)),
        decreases offsets@.len() - i,
    {
        insert_ascending(&mut out, offsets[i]);
        i += 1;
        proof {
            let seen = offsets@.subrange(0, i as int);
            let before = offsets@.subrange(0, i - 1);
            assert(seen =~= before.push(offsets@[i - 1]));
            assert forall|x: u64| #[trigger] seen.contains(x) <==> before.contains(x) || x == offsets@[i
                - 1] by {
                if before.contains(x) {
                    let k = choose|k: int| 0 <= k < before.len() && before[k] == x;
                    assert(seen[k] == x);
                }
                if seen.contains(x) && x != offsets@[i - 1] {
                    let k = choose|k: int| 0 <= k < seen.len() && seen[k] == x;
                    assert(before[k] == x);
                }
                assert(seen[i - 1] == offsets@[i - 1]);
            }
        }
    }
    assert(offsets@.subrange(0, i as int) =~= offsets@);
    out
}

} // verus!
