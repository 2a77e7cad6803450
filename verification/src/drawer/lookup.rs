//! What a lookup in the indexes finds.
use crate::drawer::acceptance::is_listed;
use crate::drawer::index::{filter_key, index_key, offsets_at};
use crate::drawer::indexing::{
    are_candidates, built_index, field_candidates, field_readied, held_among, holds_value,
    is_materialized, lemma_indexed_from, lookup_start, readied, readied_from, with_value, LookupModel,
};
use crate::drawer::DrawerModel;
use crate::fields::{key_order, lemma_key_order_len};
use crate::text::{decimal, lemma_before_irreflexive, signed_decimal};
use crate::value::{Json, Number};
use vstd::prelude::*;

verus! {

/// Whether a value is found under a text in an index: a text is found under itself, an integer
/// under its digits, and a truth value under its name. Nothing else is found.
pub open spec fn is_found_under(value: Json, text: Seq<char>) -> bool {
    ||| value == Json::Text(text)
    ||| value matches Json::Number(Number::PosInt(n)) && text == decimal(n as nat)
    ||| value matches Json::Number(Number::NegInt(n)) && text == signed_decimal(n as int)
    ||| value == Json::Bool(true) && text == "true"@
    ||| value == Json::Bool(false) && text == "false"@
}

/// The texts under which values and filters are looked up. A text with a wildcard is not looked
/// up.
pub proof fn law_values_are_found_under_their_text(value: Json, text: Seq<char>)
    ensures
        index_key(value) == Some(text) <==> is_found_under(value, text),
        filter_key(value) == Some(text) <==> is_found_under(value, text) && !(
        value matches Json::Text(s) && s.contains('%')),
{
}

/// Whether a live record stands at an offset, under its own key.
pub open spec fn is_live_at(m: DrawerModel, records: Map<u64, Json>, offset: u64) -> bool {
    &&& records.dom().contains(offset)
    &&& records[offset].get_text(m.primary_key) matches Some(key) && m.primary.dom().contains(key)
        && m.primary[key] == offset
}

/// Whether a record has a value in a field that is found under a text.
pub open spec fn has_under(record: Json, field: Seq<char>, text: Seq<char>) -> bool {
    record.get(field) matches Some(value) && is_found_under(value, text)
}

/// Whether the index of a field lists under each text the live records that have it there, and no
/// others.
pub open spec fn is_true_index(m: DrawerModel, records: Map<u64, Json>, field: Seq<char>) -> bool {
    forall|text: Seq<char>, o: u64| #[trigger]
        is_listed(m, field, text, o) <==> is_live_at(m, records, o) && has_under(
            records[o],
            field,
            text,
        )
}

proof fn lemma_held(
    m: DrawerModel,
    records: Map<u64, Json>,
    field: Seq<char>,
    text: Seq<char>,
    o: u64,
)
    requires
        m.primary.dom().finite(),
    ensures
        held_among(m, records, field, text, o, key_order(m.primary.dom()).len() as int)
            <==> is_live_at(m, records, o) && has_under(records[o], field, text),
{
    let keys = key_order(m.primary.dom());
    lemma_key_order_len(m.primary.dom());
    if held_among(m, records, field, text, o, keys.len() as int) {
        let j = choose|j: int|
            0 <= j < keys.len() && holds_value(m, records, field, text, o, #[trigger] keys[j]);
        law_values_are_found_under_their_text(records[o].get(field)->0, text);
    }
    if is_live_at(m, records, o) && has_under(records[o], field, text) {
        let key = records[o].get_text(m.primary_key)->0;
        law_values_are_found_under_their_text(records[o].get(field)->0, text);
        assert(keys.contains(key));
        let j = choose|j: int| 0 <= j < keys.len() && keys[j] == key;
        assert(holds_value(m, records, field, text, o, keys[j]));
    }
}

/// An index that is built lists under each text the live records that have it there, and no
/// others. One that need not be unique can always be built.
pub proof fn law_built_index_is_true(
    m: DrawerModel,
    records: Map<u64, Json>,
    field: Seq<char>,
    unique: bool,
)
    requires
        m.primary.dom().finite(),
    ensures
        !unique ==> built_index(m, records, field, unique) is Ok,
        built_index(m, records, field, unique) matches Ok(index) ==> forall|
            text: Seq<char>,
            o: u64,
        | #[trigger]
            offsets_at(index, text).contains(o) <==> is_live_at(m, records, o) && has_under(
                records[o],
                field,
                text,
            ),
{
    lemma_key_order_len(m.primary.dom());
    assert forall|v: Seq<char>, o: u64|
        !(#[trigger] offsets_at(Map::empty(), v).contains(o)) && !held_among(
            m,
            records,
            field,
            v,
            o,
            0,
        ) by {}
    lemma_indexed_from(m, records, field, unique, Map::empty(), 0);
    match built_index(m, records, field, unique) {
        Ok(index) => {
            assert forall|text: Seq<char>, o: u64| #[trigger]
                offsets_at(index, text).contains(o) <==> is_live_at(m, records, o) && has_under(
                    records[o],
                    field,
                    text,
                ) by {
                lemma_held(m, records, field, text, o);
            }
        },
        Err(_) => {},
    }
}

/// Whether the index of a field may be used as it stands.
pub open spec fn is_trusted(m: DrawerModel, records: Map<u64, Json>, field: Seq<char>) -> bool {
    m.secondary.dom().contains(field) && (m.unique.contains(field) || (is_materialized(m, field)
        && m.validated.contains(field))) ==> is_true_index(m, records, field)
}

proof fn lemma_fresh_stays(
    l: LookupModel,
    records: Map<u64, Json>,
    filter: Map<Seq<char>, Json>,
    i: int,
)
    ensures
        l.fresh ==> readied_from(l, records, filter, i).fresh,
        l.stop is Some ==> readied_from(l, records, filter, i).stop is Some,
    decreases key_order(filter.dom()).len() - i,
{
    let fields = key_order(filter.dom());
    if l.stop is None && i < fields.len() {
        lemma_fresh_stays(
            field_readied(l, records, fields[i], filter[fields[i]]),
            records,
            filter,
            i + 1,
        );
    }
}

proof fn lemma_readied_true(
    l: LookupModel,
    records: Map<u64, Json>,
    filter: Map<Seq<char>, Json>,
    i: int,
)
    requires
        l.drawer.primary.dom().finite(),
        filter.dom().finite(),
        0 <= i <= key_order(filter.dom()).len(),
        readied_from(l, records, filter, i).stop is None,
        !readied_from(l, records, filter, i).fresh,
        forall|j: int|
            0 <= j < i ==> l.drawer.secondary.dom().contains(#[trigger] key_order(filter.dom())[j])
                && is_true_index(l.drawer, records, key_order(filter.dom())[j]) && filter_key(
                filter[key_order(filter.dom())[j]],
            ) is Some,
        forall|j: int|
            i <= j < key_order(filter.dom()).len() ==> is_trusted(
                l.drawer,
                records,
                #[trigger] key_order(filter.dom())[j],
            ),
    ensures
        ({
            let now = readied_from(l, records, filter, i).drawer;
            &&& now.primary == l.drawer.primary
            &&& now.primary_key == l.drawer.primary_key
            &&& forall|j: int|
                0 <= j < key_order(filter.dom()).len() ==> now.secondary.dom().contains(
                    #[trigger] key_order(filter.dom())[j],
                ) && is_true_index(now, records, key_order(filter.dom())[j]) && filter_key(
                    filter[key_order(filter.dom())[j]],
                ) is Some
        }),
    decreases key_order(filter.dom()).len() - i,
{
    let fields = key_order(filter.dom());
    lemma_key_order_len(filter.dom());
    lemma_fresh_stays(l, records, filter, i);
    if i < fields.len() {
        let field = fields[i];
        let m = l.drawer;
        let next = field_readied(l, records, field, filter[field]);
        lemma_fresh_stays(next, records, filter, i + 1);
        assert(next.stop is None && !next.fresh);
        let now = next.drawer;
        assert forall|j: int| 0 <= j < fields.len() && j != i implies #[trigger] fields[j]
            != field by {
            lemma_before_irreflexive(field);
        }
        assert(now.secondary.dom().contains(field) && is_true_index(now, records, field)) by {
            law_built_index_is_true(m, records, field, true);
            law_built_index_is_true(m, records, field, false);
            if m.unique.contains(field) {
                if !m.secondary.dom().contains(field) {
                    let index = built_index(m, records, field, true)->Ok_0;
                    assert forall|text: Seq<char>, o: u64| #[trigger]
                        is_listed(now, field, text, o) <==> is_live_at(now, records, o)
                            && has_under(records[o], field, text) by {
                        assert(offsets_at(index, text).contains(o) <==> is_live_at(m, records, o)
                            && has_under(records[o], field, text));
                    }
                } else {
                    assert(is_trusted(m, records, fields[i]));
                }
            } else if is_materialized(m, field) && m.validated.contains(field) {
                assert(is_trusted(m, records, fields[i]));
            } else {
                let index = built_index(m, records, field, false)->Ok_0;
                assert forall|text: Seq<char>, o: u64| #[trigger]
                    is_listed(now, field, text, o) <==> is_live_at(now, records, o) && has_under(
                        records[o],
                        field,
                        text,
                    ) by {
                    assert(offsets_at(index, text).contains(o) <==> is_live_at(m, records, o)
                        && has_under(records[o], field, text));
                    if m.secondary[field].dom().contains(text) {
                        assert(m.secondary[field][text].contains(o) <==> index[text].contains(o));
                    }
                }
            }
        }
        assert forall|j: int| 0 <= j < i + 1 implies now.secondary.dom().contains(
            #[trigger] fields[j],
        ) && is_true_index(now, records, fields[j]) && filter_key(filter[fields[j]]) is Some by {
            if j < i {
                assert(is_true_index(m, records, fields[j]));
                lemma_same_index(m, now, records, fields[j]);
            }
        }
        assert forall|j: int| i + 1 <= j < fields.len() implies is_trusted(
            now,
            records,
            #[trigger] fields[j],
        ) by {
            assert(is_trusted(m, records, fields[j]));
            lemma_same_index(m, now, records, fields[j]);
        }
        lemma_readied_true(next, records, filter, i + 1);
    }
}

proof fn lemma_same_index(
    a: DrawerModel,
    b: DrawerModel,
    records: Map<u64, Json>,
    field: Seq<char>,
)
    requires
        a.primary == b.primary,
        a.primary_key == b.primary_key,
        a.secondary.dom().contains(field) <==> b.secondary.dom().contains(field),
        a.secondary.dom().contains(field) ==> a.secondary[field] == b.secondary[field],
    ensures
        is_true_index(a, records, field) == is_true_index(b, records, field),
{
    if is_true_index(a, records, field) {
        assert forall|text: Seq<char>, o: u64| #[trigger]
            is_listed(b, field, text, o) <==> is_live_at(b, records, o) && has_under(
                records[o],
                field,
                text,
            ) by {
            assert(is_listed(a, field, text, o) == is_listed(b, field, text, o));
        }
    }
    if is_true_index(b, records, field) {
        assert forall|text: Seq<char>, o: u64| #[trigger]
            is_listed(a, field, text, o) <==> is_live_at(a, records, o) && has_under(
                records[o],
                field,
                text,
            ) by {
            assert(is_listed(a, field, text, o) == is_listed(b, field, text, o));
        }
    }
}

/// Whether a record has in a field what a filter asks for.
pub open spec fn has_asked(record: Json, field: Seq<char>, asked: Json) -> bool {
    exists|text: Seq<char>| #[trigger] is_found_under(asked, text) && has_under(record, field, text)
}

/// A lookup in the indexes finds exactly the live records that have in every field what the
/// filter asks for, each once and in the order of their offsets. The indexes that are used as
/// they stand have to be true; the others are built or compared with the records first.
pub proof fn law_lookup_finds_the_records(
    m: DrawerModel,
    names: Set<Seq<char>>,
    records: Map<u64, Json>,
    filter: Map<Seq<char>, Json>,
    offsets: Seq<u64>,
    o: u64,
)
    requires
        m.primary.dom().finite(),
        filter.dom().finite(),
        filter.dom().len() > 0,
        forall|f: Seq<char>| #[trigger] filter.dom().contains(f) ==> is_trusted(m, records, f),
        readied(m, names, records, filter).stop is None,
        !readied(m, names, records, filter).fresh,
        are_candidates(readied(m, names, records, filter).drawer, filter, offsets),
    ensures
        offsets.contains(o) <==> is_live_at(m, records, o) && forall|f: Seq<char>| #[trigger]
            filter.dom().contains(f) ==> has_asked(records[o], f, filter[f]),
        forall|i: int, j: int| 0 <= i < j < offsets.len() ==> offsets[i] < offsets[j],
{
    let fields = key_order(filter.dom());
    lemma_key_order_len(filter.dom());
    let l = lookup_start(m, names);
    assert forall|j: int| 0 <= j < fields.len() implies is_trusted(
        l.drawer,
        records,
        #[trigger] fields[j],
    ) by {
        assert(fields.contains(fields[j]));
        assert(filter.dom().contains(fields[j]));
    }
    lemma_readied_true(l, records, filter, 0);
    let now = readied(m, names, records, filter).drawer;
    assert forall|j: int| 0 <= j < fields.len() implies (field_candidates(
        now,
        #[trigger] fields[j],
        filter[fields[j]],
    ).contains(o) <==> is_live_at(m, records, o) && has_asked(
        records[o],
        fields[j],
        filter[fields[j]],
    )) by {
        let f = fields[j];
        let text = filter_key(filter[f])->0;
        law_values_are_found_under_their_text(filter[f], text);
        assert(field_candidates(now, f, filter[f]).contains(o) <==> is_listed(now, f, text, o));
        assert(is_live_at(now, records, o) == is_live_at(m, records, o));
        if has_asked(records[o], f, filter[f]) {
            let other = choose|other: Seq<char>| #[trigger]
                is_found_under(filter[f], other) && has_under(records[o], f, other);
            law_values_are_found_under_their_text(filter[f], other);
        }
    }
    assert(fields.len() > 0);
    if offsets.contains(o) {
        assert(field_candidates(now, fields[0], filter[fields[0]]).contains(o));
        assert forall|f: Seq<char>| #[trigger] filter.dom().contains(f) implies has_asked(
            records[o],
            f,
            filter[f],
        ) by {
            assert(fields.contains(f));
            let j = choose|j: int| 0 <= j < fields.len() && fields[j] == f;
            assert(field_candidates(now, fields[j], filter[fields[j]]).contains(o));
        }
    }
    if is_live_at(m, records, o) && forall|f: Seq<char>| #[trigger]
        filter.dom().contains(f) ==> has_asked(records[o], f, filter[f]) {
        assert forall|j: int| 0 <= j < fields.len() implies field_candidates(
            now,
            #[trigger] fields[j],
            filter[fields[j]],
        ).contains(o) by {
            assert(fields.contains(fields[j]));
            assert(filter.dom().contains(fields[j]));
        }
    }
}

/// Looking at every record for a text in a field gives the records that have it there, in their
/// order: none of none, and one more where the next one has it.
pub proof fn law_scan_finds_the_records(
    records: Seq<Json>,
    field: Seq<char>,
    text: Seq<char>,
    n: int,
)
    requires
        0 < n <= records.len(),
    ensures
        with_value(records, field, text, 0) == Seq::<Json>::empty(),
        with_value(records, field, text, n) == if has_under(records[n - 1], field, text) {
            with_value(records, field, text, n - 1).push(records[n - 1])
        } else {
            with_value(records, field, text, n - 1)
        },
{
    match records[n - 1].get(field) {
        Some(value) => {
            law_values_are_found_under_their_text(value, text);
        },
        None => {},
    }
}

} // verus!
