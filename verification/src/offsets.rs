//! A map from file offsets to values, kept in the order of the offsets.
use std::collections::BTreeMap;
use vstd::prelude::*;
use vstd::std_specs::btree::increasing_seq;
use vstd::std_specs::cmp::OrdSpec;
use vstd::std_specs::iter::IteratorSpec;

verus! {

/// A map whose keys are offsets, in the order of the offsets.
#[derive(Debug, PartialEq, Eq)]
pub struct OffsetMap<V> {
    entries: BTreeMap<u64, V>,
}

/// Whether the offsets are those of the set, in ascending order.
pub open spec fn lists_offsets(offsets: Seq<u64>, dom: Set<u64>) -> bool {
    &&& forall|i: int, j: int| 0 <= i < j < offsets.len() ==> offsets[i] < offsets[j]
    &&& forall|k: u64| #[trigger] dom.contains(k) <==> offsets.contains(k)
}

/// The offsets of the set in ascending order.
pub open spec fn offset_order(dom: Set<u64>) -> Seq<u64> {
    choose|offsets: Seq<u64>| lists_offsets(offsets, dom)
}

/// There is only one way to list offsets in ascending order.
pub proof fn lemma_offset_order(offsets: Seq<u64>, dom: Set<u64>)
    requires
        lists_offsets(offsets, dom),
    ensures
        offset_order(dom) == offsets,
{
    lemma_offset_lists_unique(offsets, offset_order(dom), dom);
}

proof fn lemma_largest(dom: Set<u64>) -> (largest: u64)
    requires
        dom.finite(),
        dom.len() > 0,
    ensures
        dom.contains(largest),
        forall|o: u64| #[trigger] dom.contains(o) ==> o <= largest,
    decreases dom.len(),
{
    let one = dom.choose();
    let rest = dom.remove(one);
    if rest.len() == 0 {
        assert forall|o: u64| #[trigger] dom.contains(o) implies o <= one by {
            if o != one {
                assert(rest.contains(o));
                assert(rest =~= Set::empty());
            }
        }
        one
    } else {
        let other = lemma_largest(rest);
        assert forall|o: u64| #[trigger] dom.contains(o) && o != one implies o <= other by {
            assert(rest.contains(o));
        }
        if one > other {
            one
        } else {
            other
        }
    }
}

/// A finite set of offsets can be listed in ascending order.
pub proof fn lemma_offsets_listed(dom: Set<u64>)
    requires
        dom.finite(),
    ensures
        lists_offsets(offset_order(dom), dom),
    decreases dom.len(),
{
    if dom.len() == 0 {
        assert(dom =~= Set::empty());
        assert(lists_offsets(Seq::empty(), dom));
    } else {
        let largest = lemma_largest(dom);
        let rest = dom.remove(largest);
        lemma_offsets_listed(rest);
        let before = offset_order(rest);
        let all = before.push(largest);
        assert forall|i: int| 0 <= i < before.len() implies #[trigger] before[i] < largest by {
            assert(before.contains(before[i]));
            assert(rest.contains(before[i]));
        }
        assert forall|o: u64| #[trigger] dom.contains(o) implies all.contains(o) by {
            if o == largest {
                assert(all[before.len() as int] == o);
            } else {
                assert(before.contains(o));
                let i = choose|i: int| 0 <= i < before.len() && before[i] == o;
                assert(all[i] == o);
            }
        }
        assert forall|o: u64| #[trigger] all.contains(o) implies dom.contains(o) by {
            let i = choose|i: int| 0 <= i < all.len() && all[i] == o;
            if i < before.len() {
                assert(before.contains(before[i]));
            }
        }
        assert(lists_offsets(all, dom));
    }
}

proof fn lemma_offset_lists_unique(a: Seq<u64>, b: Seq<u64>, dom: Set<u64>)
    requires
        lists_offsets(a, dom),
        lists_offsets(b, dom),
    ensures
        a == b,
    decreases a.len(),
{
    if a.len() == 0 {
        if b.len() > 0 {
            assert(b.contains(b[0]));
            assert(dom.contains(b[0]));
        }
        assert(a =~= b);
    } else {
        assert(a.contains(a[0]));
        assert(dom.contains(a[0]));
        let j = choose|j: int| 0 <= j < b.len() && b[j] == a[0];
        assert(b.contains(b[0]));
        assert(dom.contains(b[0]));
        let i = choose|i: int| 0 <= i < a.len() && a[i] == b[0];
        assert(a[0] == b[0]);
        lemma_offset_list_rest(a, dom);
        lemma_offset_list_rest(b, dom);
        lemma_offset_lists_unique(a.skip(1), b.skip(1), dom.remove(a[0]));
        assert(a =~= seq![a[0]] + a.skip(1));
        assert(b =~= seq![a[0]] + b.skip(1));
    }
}

proof fn lemma_offset_list_rest(a: Seq<u64>, dom: Set<u64>)
    requires
        lists_offsets(a, dom),
        a.len() > 0,
    ensures
        lists_offsets(a.skip(1), dom.remove(a[0])),
{
    let ra = a.skip(1);
    let rest = dom.remove(a[0]);
    assert forall|k: u64| #[trigger] rest.contains(k) <==> ra.contains(k) by {
        if rest.contains(k) {
            assert(dom.contains(k));
            let i = choose|i: int| 0 <= i < a.len() && a[i] == k;
            assert(ra[i - 1] == k);
        }
        if ra.contains(k) {
            let i = choose|i: int| 0 <= i < ra.len() && ra[i] == k;
            assert(a[i + 1] == k);
            assert(a.contains(k));
            assert(dom.contains(k));
        }
    }
}

impl<V> View for OffsetMap<V> {
    type V = Map<u64, V>;

    closed spec fn view(&self) -> Map<u64, V> {
        self.entries@
    }
}

impl<V> OffsetMap<V> {
    /// The offsets in ascending order.
    pub open spec fn offsets(self) -> Seq<u64> {
        offset_order(self@.dom())
    }

    pub fn new() -> (r: Self)
        ensures
            r@ == Map::<u64, V>::empty(),
    {
        OffsetMap { entries: BTreeMap::new() }
    }

    pub fn len(&self) -> (n: usize)
        ensures
            n == self@.dom().len(),
    {
        broadcast use vstd::std_specs::btree::group_btree_axioms;

        self.entries.len()
    }

    /// The offsets, in ascending order.
    pub fn offset_list(&self) -> (r: Vec<u64>)
        ensures
            r@ == self.offsets(),
            lists_offsets(self.offsets(), self@.dom()),
            self@.dom().finite(),
    {
        broadcast use {vstd::std_specs::btree::group_btree_axioms, vstd::laws_cmp::group_laws_cmp};

        let mut out: Vec<u64> = Vec::new();
        let entries = self.entries.iter();
        let ghost pairs = entries.remaining();
        let ghost keys = pairs.map_values(|kv: (&u64, &V)| *kv.0);
        assert(increasing_seq(keys));
        for entry in it: entries
            invariant
                it.seq() == pairs,
                keys == pairs.map_values(|kv: (&u64, &V)| *kv.0),
                out@.len() == it.index(),
                forall|j: int| 0 <= j < out@.len() ==> out@[j] == #[trigger] keys[j],
        {
            out.push(*entry.0);
        }
        proof {
            assert(out@ =~= keys);
            assert forall|i: int, j: int| 0 <= i < j < keys.len() implies keys[i] < keys[j] by {
                assert(keys[i].cmp_spec(&keys[j]) is Less);
            }
            assert forall|k: u64| #[trigger] self@.dom().contains(k) <==> keys.contains(k) by {
                if self@.dom().contains(k) {
                    let pair = (&k, &self@[k]);
                    assert(pairs.contains(pair));
                    let i = choose|i: int| 0 <= i < pairs.len() && pairs[i] == pair;
                    assert(keys[i] == k);
                }
                if keys.contains(k) {
                    let i = choose|i: int| 0 <= i < keys.len() && keys[i] == k;
                    assert(self.entries@.contains_key(*pairs[i].0));
                }
            }
            lemma_offset_order(out@, self@.dom());
        }
        out
    }

    pub fn get(&self, offset: u64) -> (r: Option<&V>)
        ensures
            match r {
                Some(v) => self@.dom().contains(offset) && *v == self@[offset],
                None => !self@.dom().contains(offset),
            },
    {
        broadcast use {vstd::std_specs::btree::group_btree_axioms, vstd::laws_cmp::group_laws_cmp};

        self.entries.get(&offset)
    }

    pub fn insert(&mut self, offset: u64, value: V)
        ensures
            final(self)@ == old(self)@.insert(offset, value),
    {
        broadcast use {vstd::std_specs::btree::group_btree_axioms, vstd::laws_cmp::group_laws_cmp};

        self.entries.insert(offset, value);
    }

    pub fn remove(&mut self, offset: u64)
        ensures
            final(self)@ == old(self)@.remove(offset),
    {
        broadcast use {vstd::std_specs::btree::group_btree_axioms, vstd::laws_cmp::group_laws_cmp};

        self.entries.remove(&offset);
    }
}

} // verus!
