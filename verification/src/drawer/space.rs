//! The space of a file of slots: which slots can be used again, and where the file ends.
use vstd::prelude::*;

verus! {

/// The space of a file of slots: the slots that can be used again, by their sizes and offsets,
/// in the order in which they were given back, and the end of the file.
#[derive(Debug, PartialEq, Eq)]
pub struct SlotSpace {
    pub free: Vec<(usize, u64)>,
    pub end: u64,
}

/// The model of the space of a file of slots.
#[verifier::ext_equal]
pub struct SpaceModel {
    pub free: Seq<(usize, u64)>,
    pub end: u64,
}

impl View for SlotSpace {
    type V = SpaceModel;

    open spec fn view(&self) -> SpaceModel {
        SpaceModel { free: self.free@, end: self.end }
    }
}

/// The space of an empty file.
pub open spec fn empty_space() -> SpaceModel {
    SpaceModel { free: Seq::empty(), end: 0 }
}

/// Which of the first `n` slots that can be used again is the last one of a size.
pub open spec fn last_free(free: Seq<(usize, u64)>, size: usize, n: int) -> Option<int>
    decreases n,
{
    if n <= 0 {
        None
    } else if free[n - 1].0 == size {
        Some(n - 1)
    } else {
        last_free(free, size, n - 1)
    }
}

/// Where the next slot of a size goes: to the last one of that size that was given back, or to
/// the end of the file.
pub open spec fn next_slot(space: SpaceModel, size: usize) -> u64 {
    match last_free(space.free, size, space.free.len() as int) {
        Some(i) => space.free[i].1,
        None => space.end,
    }
}

/// The space once the next slot of a size was taken.
pub open spec fn taken(space: SpaceModel, size: usize) -> SpaceModel {
    match last_free(space.free, size, space.free.len() as int) {
        Some(i) => SpaceModel { free: space.free.remove(i), ..space },
        None => SpaceModel { end: (space.end + size) as u64, ..space },
    }
}

/// The space once a slot was given back.
pub open spec fn given_back(space: SpaceModel, freed: Option<(usize, u64)>) -> SpaceModel {
    match freed {
        Some(slot) => SpaceModel { free: space.free.push(slot), ..space },
        None => space,
    }
}

/// The slots for the first `n` sizes, taken one after another, and the space then.
pub open spec fn places_taken(space: SpaceModel, sizes: Seq<usize>, n: int) -> (
    SpaceModel,
    Seq<(u64, usize)>,
)
    decreases n,
{
    if n <= 0 {
        (space, Seq::empty())
    } else {
        let (before, places) = places_taken(space, sizes, n - 1);
        (taken(before, sizes[n - 1]), places.push((next_slot(before, sizes[n - 1]), sizes[n - 1])))
    }
}

/// The first `n` sizes together.
pub open spec fn total_size(sizes: Seq<usize>, n: int) -> int
    decreases n,
{
    if n <= 0 {
        0
    } else {
        total_size(sizes, n - 1) + sizes[n - 1]
    }
}

proof fn lemma_last_free(free: Seq<(usize, u64)>, size: usize, n: int)
    requires
        n <= free.len(),
    ensures
        last_free(free, size, n) matches Some(i) ==> 0 <= i < n && free[i].0 == size,
    decreases n,
{
    if n > 0 {
        lemma_last_free(free, size, n - 1);
    }
}

proof fn lemma_total_grows(sizes: Seq<usize>, a: int, b: int)
    requires
        a <= b,
    ensures
        total_size(sizes, a) <= total_size(sizes, b),
    decreases b - a,
{
    if a < b && b > 0 {
        lemma_total_grows(sizes, a, b - 1);
    }
}

proof fn lemma_places_end(space: SpaceModel, sizes: Seq<usize>, n: int)
    requires
        space.end + total_size(sizes, n) <= u64::MAX,
    ensures
        places_taken(space, sizes, n).0.end <= space.end + total_size(sizes, n),
    decreases n,
{
    if n > 0 {
        lemma_total_grows(sizes, n - 1, n);
        lemma_places_end(space, sizes, n - 1);
    }
}

impl SlotSpace {
    /// The space of a file that ends somewhere, and in which no slot can be used again.
    pub fn new(end: u64) -> (r: Self)
        ensures
            r@ == (SpaceModel { free: Seq::empty(), end }),
    {
        let r = SlotSpace { free: Vec::new(), end };
        assert(r@ =~= (SpaceModel { free: Seq::empty(), end }));
        r
    }

    fn find_free(&self, size: usize) -> (r: Option<usize>)
        ensures
            match (last_free(self@.free, size, self@.free.len() as int), r) {
                (Some(i), Some(found)) => i == found && found < self@.free.len(),
                (None, None) => true,
                _ => false,
            },
    {
        let mut n: usize = self.free.len();
        while n > 0
            invariant
                n <= self.free@.len(),
                last_free(self.free@, size, self.free@.len() as int) == last_free(
                    self.free@,
                    size,
                    n as int,
                ),
            decreases n,
        {
            if self.free[n - 1].0 == size {
                return Some(n - 1);
            }
            n = n - 1;
        }
        None
    }

    /// Where the next slot of a size goes.
    pub fn next_slot(&self, size: usize) -> (r: u64)
        ensures
            r == next_slot(self@, size),
    {
        match self.find_free(size) {
            Some(i) => self.free[i].1,
            None => self.end,
        }
    }

    /// Whether there is room for slots of some sizes behind the end.
    pub fn has_room(&self, sizes: &Vec<usize>) -> (r: bool)
        ensures
            r == (self@.end + total_size(sizes@, sizes@.len() as int) <= u64::MAX),
    {
        let mut end: u64 = self.end;
        let mut i: usize = 0;
        while i < sizes.len()
            invariant
                i <= sizes@.len(),
                end == self.end + total_size(sizes@, i as int),
            decreases sizes@.len() - i,
        {
            proof {
                lemma_total_grows(sizes@, i + 1, sizes@.len() as int);
            }
            if sizes[i] as u64 > u64::MAX - end {
                return false;
            }
            end = end + sizes[i] as u64;
            i = i + 1;
        }
        true
    }

    /// Takes the next slot of a size.
    pub fn take(&mut self, size: usize) -> (r: u64)
        requires
            old(self)@.end + size <= u64::MAX,
        ensures
            r == next_slot(old(self)@, size),
            final(self)@ == taken(old(self)@, size),
    {
        match self.find_free(size) {
            Some(i) => {
                let (_, offset) = self.free.remove(i);
                assert(self@ =~= taken(old(self)@, size));
                offset
            },
            None => {
                let offset = self.end;
                self.end = self.end + size as u64;
                assert(self@ =~= taken(old(self)@, size));
                offset
            },
        }
    }

    /// Takes the next slots of some sizes, one after another.
    pub fn take_all(&mut self, sizes: &Vec<usize>) -> (r: Vec<(u64, usize)>)
        requires
            old(self)@.end + total_size(sizes@, sizes@.len() as int) <= u64::MAX,
        ensures
            (final(self)@, r@) == places_taken(old(self)@, sizes@, sizes@.len() as int),
            r@.len() == sizes@.len(),
    {
        let ghost space = self@;
        let mut places: Vec<(u64, usize)> = Vec::new();
        let mut i: usize = 0;
        assert(places@ =~= Seq::empty());
        while i < sizes.len()
            invariant
                i <= sizes@.len(),
                places@.len() == i,
                space.end + total_size(sizes@, sizes@.len() as int) <= u64::MAX,
                (self@, places@) == places_taken(space, sizes@, i as int),
            decreases sizes@.len() - i,
        {
            proof {
                lemma_total_grows(sizes@, i + 1, sizes@.len() as int);
                lemma_total_grows(sizes@, i as int, i + 1);
                lemma_places_end(space, sizes@, i as int);
            }
            let offset = self.take(sizes[i]);
            places.push((offset, sizes[i]));
            i = i + 1;
        }
        places
    }

    /// Gives a slot back.
    pub fn give_back(&mut self, freed: Option<(usize, u64)>)
        ensures
            final(self)@ == given_back(old(self)@, freed),
    {
        match freed {
            Some(slot) => {
                self.free.push(slot);
                assert(self@ =~= given_back(old(self)@, freed));
            },
            None => {},
        }
    }
}

/// Whether the slots that can be used again are apart from each other and from those in use, and
/// all of them start before the end.
pub open spec fn is_space(space: SpaceModel, used: Set<u64>) -> bool {
    &&& forall|o: u64| #[trigger] used.contains(o) ==> o < space.end
    &&& forall|i: int|
        0 <= i < space.free.len() ==> (#[trigger] space.free[i]).1 < space.end && !used.contains(
            space.free[i].1,
        )
    &&& forall|i: int, j: int|
        0 <= i < j < space.free.len() ==> (#[trigger] space.free[i]).1 != (
        #[trigger] space.free[j]).1
}

/// A slot that is taken is in use nowhere else.
pub proof fn law_taken_slot_is_unused(space: SpaceModel, used: Set<u64>, size: usize)
    requires
        is_space(space, used),
        size > 0,
        space.end + size <= u64::MAX,
    ensures
        !used.contains(next_slot(space, size)),
        is_space(taken(space, size), used.insert(next_slot(space, size))),
{
    lemma_last_free(space.free, size, space.free.len() as int);
    let after = taken(space, size);
    match last_free(space.free, size, space.free.len() as int) {
        Some(at) => {
            assert forall|i: int| 0 <= i < after.free.len() implies (
            #[trigger] after.free[i]).1 < after.end && !used.insert(next_slot(space, size)).contains(
                after.free[i].1,
            ) by {
                let old = if i < at {
                    i
                } else {
                    i + 1
                };
                assert(after.free[i] == space.free[old]);
                assert(space.free[at].1 == next_slot(space, size));
            }
            assert forall|i: int, j: int| 0 <= i < j < after.free.len() implies (
            #[trigger] after.free[i]).1 != (#[trigger] after.free[j]).1 by {
                let a = if i < at {
                    i
                } else {
                    i + 1
                };
                let b = if j < at {
                    j
                } else {
                    j + 1
                };
                assert(after.free[i] == space.free[a]);
                assert(after.free[j] == space.free[b]);
            }
        },
        None => {},
    }
}

/// A slot that was in use and is given back can be used again.
pub proof fn law_freed_slot_can_be_used(
    space: SpaceModel,
    used: Set<u64>,
    size: usize,
    offset: u64,
)
    requires
        is_space(space, used),
        used.contains(offset),
    ensures
        is_space(given_back(space, Some((size, offset))), used.remove(offset)),
        next_slot(given_back(space, Some((size, offset))), size) == offset,
{
    let after = given_back(space, Some((size, offset)));
    assert(after.free[after.free.len() - 1] == (size, offset));
    assert forall|i: int| 0 <= i < space.free.len() implies #[trigger] after.free[i]
        == space.free[i] by {}
}

/// Slots that are taken one after another are in use nowhere else, and each is another one.
pub proof fn law_taken_slots_are_unused(space: SpaceModel, used: Set<u64>, sizes: Seq<usize>, n: int)
    requires
        is_space(space, used),
        0 <= n <= sizes.len(),
        forall|i: int| 0 <= i < sizes.len() ==> #[trigger] sizes[i] > 0,
        space.end + total_size(sizes, n) <= u64::MAX,
    ensures
        ({
            let (after, places) = places_taken(space, sizes, n);
            &&& places.len() == n
            &&& is_space(after, used + slot_set(places))
            &&& forall|i: int|
                0 <= i < n ==> !used.contains((#[trigger] places[i]).0) && !slot_set(
                    places.take(i),
                ).contains(places[i].0)
        }),
    decreases n,
{
    let (after, places) = places_taken(space, sizes, n);
    if n > 0 {
        lemma_total_grows(sizes, n - 1, n);
        law_taken_slots_are_unused(space, used, sizes, n - 1);
        lemma_places_end(space, sizes, n - 1);
        let (before, earlier) = places_taken(space, sizes, n - 1);
        law_taken_slot_is_unused(before, used + slot_set(earlier), sizes[n - 1]);
        let offset = next_slot(before, sizes[n - 1]);
        assert((used + slot_set(earlier)).insert(offset) =~= used + slot_set(places)) by {
            assert forall|o: u64| slot_set(places).contains(o) == (slot_set(earlier).contains(o)
                || o == offset) by {
                if slot_set(earlier).contains(o) {
                    let i = choose|i: int| 0 <= i < earlier.len() && (#[trigger] earlier[i]).0 == o;
                    assert(places[i].0 == o);
                }
                if slot_set(places).contains(o) && o != offset {
                    let i = choose|i: int| 0 <= i < places.len() && (#[trigger] places[i]).0 == o;
                    assert(earlier[i].0 == o);
                }
                if o == offset {
                    assert(places[n - 1].0 == o);
                }
            }
        }
        assert forall|i: int| 0 <= i < n implies !used.contains((#[trigger] places[i]).0)
            && !slot_set(places.take(i)).contains(places[i].0) by {
            if i < n - 1 {
                assert(places[i] == earlier[i]);
                assert(places.take(i) =~= earlier.take(i));
            } else {
                assert(places.take(i) =~= earlier);
            }
        }
    } else {
        assert(used + slot_set(places) =~= used);
    }
}

/// The offsets of some slots.
pub open spec fn slot_set(places: Seq<(u64, usize)>) -> Set<u64> {
    Set::new(|o: u64| exists|i: int| 0 <= i < places.len() && (#[trigger] places[i]).0 == o)
}

/// Where fewer slots are in use, the space is as it was.
pub proof fn lemma_fewer_used(space: SpaceModel, used: Set<u64>, fewer: Set<u64>)
    requires
        is_space(space, used),
        fewer.subset_of(used),
    ensures
        is_space(space, fewer),
{
}

} // verus!
