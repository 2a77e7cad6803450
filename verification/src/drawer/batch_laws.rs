//! Which batches of records are accepted.
use crate::drawer::bulk::{
    batch_check, batch_check_from, batch_name, batch_values_from, own_check,
};
use crate::drawer::records::{offset_of, taken_by_other, unique_problem};
use crate::drawer::relations::upsert_check;
use crate::drawer::DrawerModel;
use crate::value::Json;
use vstd::prelude::*;

verus! {

/// Whether no two records of a batch with different keys have the same text in a unique field.
pub open spec fn shares_nothing(m: DrawerModel, records: Seq<Json>) -> bool {
    forall|a: int, b: int, f: int|
        0 <= a < records.len() && 0 <= b < records.len() && 0 <= f < m.unique.len() && (
        #[trigger] records[a].get_text(#[trigger] m.unique[f])) is Some && records[a].get_text(
            m.unique[f],
        ) == (#[trigger] records[b]).get_text(m.unique[f]) ==> records[a].get_text(m.primary_key)
            == records[b].get_text(m.primary_key)
}

/// Whether what is remembered under a name is the key of one of the first `n` records, which has
/// the text of that name in a unique field.
spec fn is_noted(
    m: DrawerModel,
    records: Seq<Json>,
    name: Seq<char>,
    key: Seq<char>,
    n: int,
) -> bool {
    exists|p: int, f: int|
        0 <= p < n && 0 <= f < m.unique.len() && notes(
            m,
            #[trigger] records[p],
            #[trigger] m.unique[f],
            name,
            key,
        )
}

spec fn notes(
    m: DrawerModel,
    record: Json,
    field: Seq<char>,
    name: Seq<char>,
    key: Seq<char>,
) -> bool {
    record.get_text(m.primary_key) == Some(key) && (record.get_text(field) matches Some(value)
        && name == batch_name(field, value))
}

spec fn all_noted(
    m: DrawerModel,
    records: Seq<Json>,
    seen: Map<Seq<char>, Seq<char>>,
    n: int,
) -> bool {
    forall|name: Seq<char>| #[trigger]
        seen.dom().contains(name) ==> is_noted(m, records, name, seen[name], n)
}

/// The field and the value of a name are told apart, where fields do not hold what stands between
/// them.
proof fn lemma_name_parts(a: Seq<char>, b: Seq<char>, c: Seq<char>, d: Seq<char>)
    requires
        batch_name(a, b) == batch_name(c, d),
        !a.contains('\u{1f}'),
        !c.contains('\u{1f}'),
    ensures
        a == c,
        b == d,
{
    reveal_strlit("\u{1f}");
    let s = batch_name(a, b);
    let t = batch_name(c, d);
    assert(s[a.len() as int] == '\u{1f}');
    assert(t[c.len() as int] == '\u{1f}');
    if a.len() < c.len() {
        assert(c[a.len() as int] == t[a.len() as int]);
    } else if c.len() < a.len() {
        assert(a[c.len() as int] == s[c.len() as int]);
    }
    assert(a =~= s.subrange(0, a.len() as int));
    assert(c =~= t.subrange(0, a.len() as int));
    assert(b =~= s.subrange(a.len() as int + 1, s.len() as int));
    assert(d =~= t.subrange(a.len() as int + 1, t.len() as int));
}

proof fn lemma_values_fit(
    m: DrawerModel,
    records: Seq<Json>,
    j: int,
    key: Seq<char>,
    seen: Map<Seq<char>, Seq<char>>,
    i: int,
)
    requires
        0 <= j < records.len(),
        0 <= i <= m.unique.len(),
        records[j].get_text(m.primary_key) == Some(key),
        unique_problem(m, records[j], offset_of(m, key), i) is None,
        shares_nothing(m, records),
        forall|f: int| 0 <= f < m.unique.len() ==> !(#[trigger] m.unique[f]).contains('\u{1f}'),
        all_noted(m, records, seen, j + 1),
    ensures
        batch_values_from(m, records[j], key, seen, i) matches Ok(more) && all_noted(
            m,
            records,
            more,
            j + 1,
        ),
    decreases m.unique.len() - i,
{
    if i < m.unique.len() {
        let field = m.unique[i];
        assert(!taken_by_other(m, records[j], offset_of(m, key), field));
        match records[j].get_text(field) {
            None => {
                lemma_values_fit(m, records, j, key, seen, i + 1);
            },
            Some(value) => {
                let name = batch_name(field, value);
                if seen.dom().contains(name) {
                    assert(is_noted(m, records, name, seen[name], j + 1));
                    let (p, f) = choose|p: int, f: int|
                        0 <= p < j + 1 && 0 <= f < m.unique.len() && notes(
                            m,
                            #[trigger] records[p],
                            #[trigger] m.unique[f],
                            name,
                            seen[name],
                        );
                    let other = records[p].get_text(m.unique[f])->0;
                    lemma_name_parts(field, value, m.unique[f], other);
                    assert(records[j].get_text(m.unique[f]) is Some);
                    assert(records[p].get_text(m.primary_key) == records[j].get_text(
                        m.primary_key,
                    ));
                    assert(seen[name] == key);
                }
                let more = seen.insert(name, key);
                assert(all_noted(m, records, more, j + 1)) by {
                    assert forall|n: Seq<char>| #[trigger] more.dom().contains(n) implies is_noted(
                        m,
                        records,
                        n,
                        more[n],
                        j + 1,
                    ) by {
                        if n == name {
                            assert(notes(m, records[j], m.unique[i], name, key));
                        } else {
                            assert(seen.dom().contains(n));
                        }
                    }
                }
                lemma_values_fit(m, records, j, key, more, i + 1);
            },
        }
    }
}

proof fn lemma_batch_fits(
    m: DrawerModel,
    existing: Seq<Json>,
    records: Seq<Json>,
    seen: Map<Seq<char>, Seq<char>>,
    j: int,
)
    requires
        0 <= j <= records.len(),
        forall|k: int|
            0 <= k < records.len() ==> upsert_check(m, existing, #[trigger] records[k]).problem
                is None,
        shares_nothing(m, records),
        forall|f: int| 0 <= f < m.unique.len() ==> !(#[trigger] m.unique[f]).contains('\u{1f}'),
        all_noted(m, records, seen, j),
    ensures
        batch_check_from(m, existing, records, seen, j).problem is None,
    decreases records.len() - j,
{
    if j < records.len() {
        assert(upsert_check(m, existing, records[j]).problem is None);
        let key = records[j].get_text(m.primary_key)->0;
        assert(all_noted(m, records, seen, j + 1)) by {
            assert forall|n: Seq<char>| #[trigger] seen.dom().contains(n) implies is_noted(
                m,
                records,
                n,
                seen[n],
                j + 1,
            ) by {
                assert(is_noted(m, records, n, seen[n], j));
            }
        }
        assert(own_check(m, existing, records[j], key).problem is None);
        lemma_values_fit(m, records, j, key, seen, 0);
        let more = batch_values_from(m, records[j], key, seen, 0)->Ok_0;
        lemma_batch_fits(m, existing, records, more, j + 1);
    }
}

/// A batch is accepted where each of its records could be written alone and no two of them with
/// different keys share a value that has to be unique.
pub proof fn law_good_batch_is_accepted(
    m: DrawerModel,
    existing: Seq<Json>,
    records: Seq<Json>,
)
    requires
        forall|k: int|
            0 <= k < records.len() ==> upsert_check(m, existing, #[trigger] records[k]).problem
                is None,
        shares_nothing(m, records),
        forall|f: int| 0 <= f < m.unique.len() ==> !(#[trigger] m.unique[f]).contains('\u{1f}'),
    ensures
        batch_check(m, existing, records).problem is None,
{
    lemma_batch_fits(m, existing, records, Map::empty(), 0);
}

} // verus!
