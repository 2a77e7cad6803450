//! A map from texts to values, kept in the order of its keys.
use crate::text::{
    comes_before, lemma_before_irreflexive, lemma_before_total, lemma_before_transitive, owned, same,
    text_before, texts,
};
use vstd::prelude::*;

verus! {

/// A map whose keys are texts. Its entries stand in ascending order of their keys, and no key
/// stands twice.
#[derive(Debug, PartialEq, Eq)]
pub struct TextMap<V> {
    pub(crate) entries: Vec<(String, V)>,
}

/// Whether the keys of the entries stand in ascending order.
pub open spec fn ascending<V>(entries: Seq<(String, V)>) -> bool {
    forall|i: int, j: int|
        0 <= i < j < entries.len() ==> text_before(
            (#[trigger] entries[i]).0@,
            (#[trigger] entries[j]).0@,
        )
}

/// Whether an entry has the key.
pub open spec fn has_key<V>(entries: Seq<(String, V)>, key: Seq<char>) -> bool {
    exists|i: int| 0 <= i < entries.len() && (#[trigger] entries[i]).0@ == key
}

/// The position of the entry with the key.
pub open spec fn key_index<V>(entries: Seq<(String, V)>, key: Seq<char>) -> int {
    choose|i: int| 0 <= i < entries.len() && (#[trigger] entries[i]).0@ == key
}

/// Whether the keys stand in ascending order.
pub open spec fn keys_ascend(keys: Seq<Seq<char>>) -> bool {
    forall|i: int, j: int|
        0 <= i < j < keys.len() ==> text_before(#[trigger] keys[i], #[trigger] keys[j])
}

/// Whether the keys are those of the set, in ascending order.
pub open spec fn lists(keys: Seq<Seq<char>>, dom: Set<Seq<char>>) -> bool {
    &&& keys_ascend(keys)
    &&& forall|k: Seq<char>| #[trigger] dom.contains(k) <==> keys.contains(k)
}

/// The keys of the set in ascending order.
pub open spec fn key_order(dom: Set<Seq<char>>) -> Seq<Seq<char>> {
    choose|keys: Seq<Seq<char>>| lists(keys, dom)
}

/// There is only one way to list keys in ascending order.
pub proof fn lemma_key_order(keys: Seq<Seq<char>>, dom: Set<Seq<char>>)
    requires
        lists(keys, dom),
    ensures
        key_order(dom) == keys,
{
    let other = key_order(dom);
    assert(lists(other, dom));
    lemma_lists_unique(keys, other, dom);
}

/// The first position, from `i` on, of a key that does not come before another.
spec fn place_among(keys: Seq<Seq<char>>, key: Seq<char>, i: int) -> int
    decreases keys.len() - i,
{
    if i >= keys.len() || !text_before(keys[i], key) {
        i
    } else {
        place_among(keys, key, i + 1)
    }
}

proof fn lemma_place_among(keys: Seq<Seq<char>>, key: Seq<char>, i: int)
    requires
        0 <= i <= keys.len(),
    ensures
        i <= place_among(keys, key, i) <= keys.len(),
        forall|j: int| i <= j < place_among(keys, key, i) ==> text_before(#[trigger] keys[j], key),
        place_among(keys, key, i) < keys.len() ==> !text_before(
            keys[place_among(keys, key, i)],
            key,
        ),
    decreases keys.len() - i,
{
    if i < keys.len() && text_before(keys[i], key) {
        lemma_place_among(keys, key, i + 1);
    }
}

/// The keys of a finite set can be listed, each once.
pub proof fn lemma_key_order_len(dom: Set<Seq<char>>)
    requires
        dom.finite(),
    ensures
        lists(key_order(dom), dom),
        key_order(dom).len() == dom.len(),
    decreases dom.len(),
{
    if dom.len() == 0 {
        let none = Seq::<Seq<char>>::empty();
        assert(dom =~= Set::empty());
        assert(lists(none, dom));
        lemma_key_order(none, dom);
    } else {
        let key = dom.choose();
        let rest = dom.remove(key);
        lemma_key_order_len(rest);
        let keys = key_order(rest);
        let at = place_among(keys, key, 0);
        lemma_place_among(keys, key, 0);
        let all = keys.insert(at, key);
        assert(!keys.contains(key));
        assert forall|i: int, j: int| 0 <= i < j < all.len() implies text_before(all[i], all[j]) by {
            if i == at {
                assert(all[j] == keys[j - 1]);
                assert(keys.contains(keys[at]));
                lemma_before_total(keys[at], key);
                if j - 1 > at {
                    assert(text_before(keys[at], keys[j - 1]));
                    lemma_before_transitive(key, keys[at], keys[j - 1]);
                }
            } else if j == at {
                assert(all[i] == keys[i]);
            } else {
                let a = if i < at {
                    i
                } else {
                    i - 1
                };
                let b = if j < at {
                    j
                } else {
                    j - 1
                };
                assert(all[i] == keys[a] && all[j] == keys[b]);
            }
        }
        assert forall|k: Seq<char>| #[trigger] dom.contains(k) <==> all.contains(k) by {
            if dom.contains(k) {
                if k == key {
                    assert(all[at] == key);
                } else {
                    assert(rest.contains(k));
                    let i = choose|i: int| 0 <= i < keys.len() && keys[i] == k;
                    assert(all[if i < at {
                        i
                    } else {
                        i + 1
                    }] == k);
                }
            }
            if all.contains(k) {
                let i = choose|i: int| 0 <= i < all.len() && all[i] == k;
                if i != at {
                    let a = if i < at {
                        i
                    } else {
                        i - 1
                    };
                    assert(keys[a] == k);
                    assert(keys.contains(k));
                    assert(rest.contains(k));
                }
            }
        }
        assert(lists(all, dom));
        lemma_key_order(all, dom);
    }
}

proof fn lemma_lists_unique(a: Seq<Seq<char>>, b: Seq<Seq<char>>, dom: Set<Seq<char>>)
    requires
        lists(a, dom),
        lists(b, dom),
    ensures
        a == b,
    decreases a.len(),
{
    if a.len() == 0 {
        if b.len() > 0 {
            assert(b.contains(b[0]));
            assert(dom.contains(b[0]));
            assert(false);
        }
        assert(a =~= b);
    } else {
        assert(a.contains(a[0]));
        assert(dom.contains(a[0]));
        assert(b.contains(a[0]));
        let j = choose|j: int| 0 <= j < b.len() && b[j] == a[0];
        assert(b.contains(b[0]));
        assert(dom.contains(b[0]));
        assert(a.contains(b[0]));
        let i = choose|i: int| 0 <= i < a.len() && a[i] == b[0];
        lemma_before_irreflexive(a[0]);
        if i > 0 && j > 0 {
            assert(text_before(a[0], a[i]));
            assert(text_before(b[0], b[j]));
            lemma_before_transitive(a[0], b[0], a[0]);
            assert(false);
        }
        assert(a[0] == b[0]);
        let k = a[0];
        let ra = a.skip(1);
        let rb = b.skip(1);
        let rest = dom.remove(k);
        assert(lists(ra, rest)) by {
            lemma_list_rest(a, dom);
        }
        assert(lists(rb, rest)) by {
            lemma_list_rest(b, dom);
        }
        lemma_lists_unique(ra, rb, rest);
        assert(a =~= seq![k] + ra);
        assert(b =~= seq![k] + rb);
    }
}

proof fn lemma_list_rest(a: Seq<Seq<char>>, dom: Set<Seq<char>>)
    requires
        lists(a, dom),
        a.len() > 0,
    ensures
        lists(a.skip(1), dom.remove(a[0])),
{
    let ra = a.skip(1);
    let rest = dom.remove(a[0]);
    lemma_before_irreflexive(a[0]);
    assert forall|k: Seq<char>| #[trigger] rest.contains(k) <==> ra.contains(k) by {
        if rest.contains(k) {
            assert(dom.contains(k));
            let i = choose|i: int| 0 <= i < a.len() && a[i] == k;
            assert(ra[i - 1] == k);
        }
        if ra.contains(k) {
            let i = choose|i: int| 0 <= i < ra.len() && ra[i] == k;
            assert(a[i + 1] == k);
            assert(text_before(a[0], a[i + 1]));
            assert(a.contains(k));
            assert(dom.contains(k));
        }
    }
}

impl<V> View for TextMap<V> {
    type V = Map<Seq<char>, V>;

    closed spec fn view(&self) -> Map<Seq<char>, V> {
        Map::new(
            |k: Seq<char>| has_key(self.entries@, k),
            |k: Seq<char>| self.entries@[key_index(self.entries@, k)].1,
        )
    }
}

impl<V> TextMap<V> {
    #[verifier::type_invariant]
    pub(crate) closed spec fn ordered(self) -> bool {
        ascending(self.entries@)
    }

    /// The keys in ascending order.
    pub open spec fn keys(self) -> Seq<Seq<char>> {
        key_order(self@.dom())
    }

    pub fn new() -> (r: Self)
        ensures
            r@ == Map::<Seq<char>, V>::empty(),
    {
        let r = TextMap { entries: Vec::new() };
        assert(r@ =~= Map::<Seq<char>, V>::empty());
        r
    }

    /// How many entries there are.
    pub fn len(&self) -> (n: usize)
        ensures
            n == self.keys().len(),
            lists(self.keys(), self@.dom()),
            self@.dom().finite(),
    {
        proof {
            use_type_invariant(self);
            lemma_keys(*self);
        }
        self.entries.len()
    }

    pub fn is_empty(&self) -> (r: bool)
        ensures
            r == (self@.dom() =~= Set::<Seq<char>>::empty()),
    {
        let r = self.entries.len() == 0;
        proof {
            if r {
                assert(self@.dom() =~= Set::<Seq<char>>::empty());
            } else {
                assert(has_key(self.entries@, self.entries@[0].0@));
                assert(self@.dom().contains(self.entries@[0].0@));
            }
        }
        r
    }

    /// The key at position `i` in ascending order.
    pub fn key_at(&self, i: usize) -> (r: &String)
        requires
            i < self.keys().len(),
        ensures
            r@ == self.keys()[i as int],
            self@.dom().contains(r@),
    {
        proof {
            use_type_invariant(self);
            lemma_keys(*self);
            lemma_key_index(self.entries@, i as int);
        }
        &self.entries[i].0
    }

    /// The value at position `i` in ascending order of the keys.
    pub fn value_at(&self, i: usize) -> (r: &V)
        requires
            i < self.keys().len(),
        ensures
            *r == self@[self.keys()[i as int]],
            self@.dom().contains(self.keys()[i as int]),
    {
        proof {
            use_type_invariant(self);
            lemma_keys(*self);
            lemma_key_index(self.entries@, i as int);
        }
        &self.entries[i].1
    }

    /// The keys in ascending order.
    pub fn key_texts(&self) -> (r: Vec<String>)
        ensures
            texts(r@) == self.keys(),
            lists(self.keys(), self@.dom()),
    {
        let n: usize = self.len();
        let mut out: Vec<String> = Vec::new();
        let mut i: usize = 0;
        assert(texts(out@) =~= self.keys().take(0));
        while i < n
            invariant
                i <= n,
                n == self.keys().len(),
                texts(out@) == self.keys().take(i as int),
            decreases n - i,
        {
            let ghost before = texts(out@);
            let key = owned(self.key_at(i).as_str());
            let ghost added = key@;
            out.push(key);
            assert(texts(out@) =~= before.push(added));
            assert(self.keys().take(i + 1) =~= self.keys().take(i as int).push(added));
            i = i + 1;
        }
        assert(self.keys().take(n as int) =~= self.keys());
        out
    }

    /// The position of the first entry whose key does not come before `key`.
    fn position(&self, key: &str) -> (r: usize)
        ensures
            r <= self.entries@.len(),
            forall|i: int| 0 <= i < r ==> text_before((#[trigger] self.entries@[i]).0@, key@),
            r < self.entries@.len() ==> !text_before(self.entries@[r as int].0@, key@),
    {
        let mut i: usize = 0;
        while i < self.entries.len() && comes_before(self.entries[i].0.as_str(), key)
            invariant
                i <= self.entries@.len(),
                forall|k: int| 0 <= k < i ==> text_before((#[trigger] self.entries@[k]).0@, key@),
            decreases self.entries@.len() - i,
        {
            i += 1;
        }
        i
    }

    /// The value of the key.
    pub fn get(&self, key: &str) -> (r: Option<&V>)
        ensures
            match r {
                Some(v) => self@.dom().contains(key@) && *v == self@[key@],
                None => !self@.dom().contains(key@),
            },
    {
        proof {
            use_type_invariant(self);
        }
        let at: usize = self.position(key);
        proof {
            lemma_position(self.entries@, key@, at as int);
        }
        if at < self.entries.len() && same(self.entries[at].0.as_str(), key) {
            proof {
                lemma_key_index(self.entries@, at as int);
            }
            Some(&self.entries[at].1)
        } else {
            None
        }
    }

    /// Whether the map holds the key.
    pub fn contains_key(&self, key: &str) -> (r: bool)
        ensures
            r == self@.dom().contains(key@),
    {
        self.get(key).is_some()
    }

    /// Gives the key the value.
    pub fn insert(&mut self, key: String, value: V)
        ensures
            final(self)@ == old(self)@.insert(key@, value),
    {
        proof {
            use_type_invariant(&*self);
        }
        let ghost before = self.entries@;
        let at: usize = self.position(key.as_str());
        let mut entries: Vec<(String, V)> = Vec::new();
        std::mem::swap(&mut entries, &mut self.entries);
        proof {
            lemma_position(before, key@, at as int);
        }
        let ghost k = key@;
        if at < entries.len() && same(entries[at].0.as_str(), key.as_str()) {
            let ghost updated = before.update(at as int, (before[at as int].0, value));
            let old_entry = entries.remove(at);
            entries.insert(at, (old_entry.0, value));
            proof {
                assert(entries@ =~= updated);
                lemma_updated(before, at as int, value);
            }
        } else {
            entries.insert(at, (key, value));
            proof {
                lemma_inserted(before, at as int, key, value);
            }
        }
        self.entries = entries;
        proof {
            assert(self@ =~= old(self)@.insert(k, value));
        }
    }

    /// Takes the key and its value out.
    pub fn remove(&mut self, key: &str) -> (r: Option<V>)
        ensures
            final(self)@ == old(self)@.remove(key@),
            match r {
                Some(v) => old(self)@.dom().contains(key@) && v == old(self)@[key@],
                None => !old(self)@.dom().contains(key@),
            },
    {
        proof {
            use_type_invariant(&*self);
        }
        let ghost before = self.entries@;
        let at: usize = self.position(key);
        proof {
            lemma_position(before, key@, at as int);
        }
        if at < self.entries.len() && same(self.entries[at].0.as_str(), key) {
            let mut entries: Vec<(String, V)> = Vec::new();
            std::mem::swap(&mut entries, &mut self.entries);
            let taken = entries.remove(at);
            proof {
                lemma_key_index(before, at as int);
                lemma_removed(before, at as int);
            }
            self.entries = entries;
            proof {
                assert(self@ =~= old(self)@.remove(key@));
            }
            Some(taken.1)
        } else {
            proof {
                assert(self@ =~= old(self)@.remove(key@));
            }
            None
        }
    }
}

/// A map has finitely many keys.
pub proof fn lemma_finite<V>(m: TextMap<V>)
    ensures
        m@.dom().finite(),
{
    let keys = m.entries@.map_values(|e: (String, V)| e.0@);
    let all = keys.to_set();
    assert forall|k: Seq<char>| m@.dom().contains(k) implies all.contains(k) by {
        let i = choose|i: int| 0 <= i < m.entries@.len() && (#[trigger] m.entries@[i]).0@ == k;
        assert(keys[i] == k);
    }
    vstd::seq_lib::seq_to_set_is_finite(keys);
    vstd::set_lib::lemma_set_subset_finite(all, m@.dom());
}

/// The values of a map come before the map in the order of termination.
pub proof fn lemma_values_smaller<V>(m: TextMap<V>)
    ensures
        forall|k: Seq<char>| #[trigger] m@.dom().contains(k) ==> (decreases_to!(m => m@[k])),
{
    assert forall|k: Seq<char>| #[trigger] m@.dom().contains(k) implies (decreases_to!(m => m@[k])) by {
        let i = key_index(m.entries@, k);
        assert(has_key(m.entries@, k));
        assert(decreases_to!(m => m.entries));
        assert(decreases_to!(m.entries => m.entries@));
        assert(decreases_to!(m.entries@ => m.entries@[i]));
        assert(decreases_to!(m.entries@[i] => m.entries@[i].1));
    }
}

proof fn lemma_updated<V>(before: Seq<(String, V)>, at: int, value: V)
    requires
        ascending(before),
        0 <= at < before.len(),
    ensures
        ({
            let after = before.update(at, (before[at].0, value));
            &&& ascending(after)
            &&& forall|k: Seq<char>| has_key(after, k) == #[trigger] has_key(before, k)
            &&& forall|k: Seq<char>| #[trigger]
                has_key(before, k) ==> key_index(after, k) == key_index(before, k)
            &&& key_index(before, before[at].0@) == at
            &&& has_key(before, before[at].0@)
        }),
{
    let after = before.update(at, (before[at].0, value));
    assert forall|i: int, j: int| 0 <= i < j < after.len() implies text_before(
        (#[trigger] after[i]).0@,
        (#[trigger] after[j]).0@,
    ) by {
        assert(after[i].0 == before[i].0);
        assert(after[j].0 == before[j].0);
    }
    assert forall|k: Seq<char>| has_key(after, k) == #[trigger] has_key(before, k) by {
        if has_key(before, k) {
            let i = key_index(before, k);
            assert(after[i].0@ == k);
        }
        if has_key(after, k) {
            let i = key_index(after, k);
            assert(before[i].0@ == k);
        }
    }
    assert forall|k: Seq<char>| #[trigger] has_key(before, k) implies key_index(after, k)
        == key_index(before, k) by {
        let i = key_index(before, k);
        assert(after[i].0@ == k);
        lemma_key_index(after, i);
    }
    lemma_key_index(before, at);
}

proof fn lemma_inserted<V>(before: Seq<(String, V)>, at: int, key: String, value: V)
    requires
        ascending(before),
        0 <= at <= before.len(),
        forall|i: int| 0 <= i < at ==> text_before((#[trigger] before[i]).0@, key@),
        at < before.len() ==> text_before(key@, before[at].0@),
        !has_key(before, key@),
    ensures
        ({
            let after = before.insert(at, (key, value));
            &&& ascending(after)
            &&& has_key(after, key@)
            &&& after[key_index(after, key@)].1 == value
            &&& forall|k: Seq<char>| k != key@ ==> has_key(after, k) == #[trigger] has_key(before, k)
            &&& forall|k: Seq<char>| #[trigger]
                has_key(before, k) ==> after[key_index(after, k)] == before[key_index(before, k)]
        }),
{
    let after = before.insert(at, (key, value));
    assert forall|i: int, j: int| 0 <= i < j < after.len() implies text_before(
        (#[trigger] after[i]).0@,
        (#[trigger] after[j]).0@,
    ) by {
        let bi = if i > at { i - 1 } else { i };
        let bj = if j > at { j - 1 } else { j };
        if i != at {
            assert(after[i] == before[bi]);
        }
        if j != at {
            assert(after[j] == before[bj]);
        }
        if i == at && j > at {
            if bj > at {
                lemma_before_transitive(key@, before[at].0@, before[bj].0@);
            }
        }
    }
    assert(after[at].0@ == key@);
    lemma_key_index(after, at);
    assert forall|k: Seq<char>| k != key@ implies has_key(after, k) == #[trigger] has_key(before, k) by {
        if has_key(before, k) {
            let i = key_index(before, k);
            let ai = if i < at { i } else { i + 1 };
            assert(after[ai].0@ == k);
        }
        if has_key(after, k) {
            let i = key_index(after, k);
            let bi = if i > at { i - 1 } else { i };
            assert(before[bi].0@ == k);
        }
    }
    assert forall|k: Seq<char>| #[trigger] has_key(before, k) implies after[key_index(after, k)]
        == before[key_index(before, k)] by {
        let i = key_index(before, k);
        let ai = if i < at { i } else { i + 1 };
        assert(after[ai] == before[i]);
        lemma_key_index(after, ai);
    }
}

proof fn lemma_removed<V>(before: Seq<(String, V)>, at: int)
    requires
        ascending(before),
        0 <= at < before.len(),
    ensures
        ({
            let after = before.remove(at);
            let key = before[at].0@;
            &&& ascending(after)
            &&& !has_key(after, key)
            &&& forall|k: Seq<char>| k != key ==> has_key(after, k) == #[trigger] has_key(before, k)
            &&& forall|k: Seq<char>|
                k != key && #[trigger] has_key(before, k) ==> after[key_index(after, k)]
                    == before[key_index(before, k)]
        }),
{
    let after = before.remove(at);
    let key = before[at].0@;
    assert forall|i: int, j: int| 0 <= i < j < after.len() implies text_before(
        (#[trigger] after[i]).0@,
        (#[trigger] after[j]).0@,
    ) by {
        let bi = if i >= at { i + 1 } else { i };
        let bj = if j >= at { j + 1 } else { j };
        assert(after[i] == before[bi]);
        assert(after[j] == before[bj]);
    }
    lemma_key_index(before, at);
    if has_key(after, key) {
        let i = key_index(after, key);
        let bi = if i >= at { i + 1 } else { i };
        assert(before[bi].0@ == key);
        lemma_key_index(before, bi);
    }
    assert forall|k: Seq<char>| k != key implies has_key(after, k) == #[trigger] has_key(before, k) by {
        if has_key(before, k) {
            let i = key_index(before, k);
            let ai = if i < at { i } else { i - 1 };
            assert(after[ai].0@ == k);
        }
        if has_key(after, k) {
            let i = key_index(after, k);
            let bi = if i >= at { i + 1 } else { i };
            assert(before[bi].0@ == k);
        }
    }
    assert forall|k: Seq<char>| k != key && #[trigger] has_key(before, k) implies after[key_index(
        after,
        k,
    )] == before[key_index(before, k)] by {
        let i = key_index(before, k);
        let ai = if i < at { i } else { i - 1 };
        assert(after[ai] == before[i]);
        lemma_key_index(after, ai);
    }
}

proof fn lemma_keys<V>(m: TextMap<V>)
    requires
        ascending(m.entries@),
    ensures
        m.keys() == Seq::new(m.entries@.len(), |i: int| m.entries@[i].0@),
        lists(m.keys(), m@.dom()),
        m@.dom().finite(),
{
    let keys = Seq::new(m.entries@.len(), |i: int| m.entries@[i].0@);
    assert forall|k: Seq<char>| #[trigger] m@.dom().contains(k) <==> keys.contains(k) by {
        if m@.dom().contains(k) {
            assert(has_key(m.entries@, k));
            let i = key_index(m.entries@, k);
            assert(keys[i] == k);
        }
        if keys.contains(k) {
            let i = choose|i: int| 0 <= i < keys.len() && keys[i] == k;
            assert(m.entries@[i].0@ == k);
        }
    }
    assert(keys_ascend(keys)) by {
        assert forall|i: int, j: int| 0 <= i < j < keys.len() implies text_before(
            #[trigger] keys[i],
            #[trigger] keys[j],
        ) by {
            assert(text_before(m.entries@[i].0@, m.entries@[j].0@));
        }
    }
    lemma_key_order(keys, m@.dom());
    vstd::seq_lib::seq_to_set_is_finite(keys);
    assert(keys.to_set() =~= m@.dom());
}

proof fn lemma_key_index<V>(entries: Seq<(String, V)>, i: int)
    requires
        ascending(entries),
        0 <= i < entries.len(),
    ensures
        has_key(entries, entries[i].0@),
        key_index(entries, entries[i].0@) == i,
{
    let k = key_index(entries, entries[i].0@);
    assert(0 <= k < entries.len() && entries[k].0@ == entries[i].0@);
    lemma_before_irreflexive(entries[i].0@);
    if k < i {
        assert(text_before(entries[k].0@, entries[i].0@));
    } else if i < k {
        assert(text_before(entries[i].0@, entries[k].0@));
    }
}

/// Only the entry at the position found for a key can have that key.
proof fn lemma_position<V>(entries: Seq<(String, V)>, key: Seq<char>, at: int)
    requires
        ascending(entries),
        0 <= at <= entries.len(),
        forall|i: int| 0 <= i < at ==> text_before((#[trigger] entries[i]).0@, key),
        at < entries.len() ==> !text_before(entries[at].0@, key),
    ensures
        forall|i: int| 0 <= i < entries.len() && (#[trigger] entries[i]).0@ == key ==> i == at,
        at < entries.len() && entries[at].0@ != key ==> text_before(key, entries[at].0@),
{
    lemma_before_irreflexive(key);
    if at < entries.len() && entries[at].0@ != key {
        lemma_before_total(entries[at].0@, key);
    }
    assert forall|i: int| 0 <= i < entries.len() && (#[trigger] entries[i]).0@ == key implies i
        == at by {
        if i > at {
            assert(text_before(entries[at].0@, entries[i].0@));
        }
    }
}

} // verus!
