use std::marker::PhantomData;
use vstd::prelude::*;

verus! {

/// A handle to a value stored in a [`GenerationalMap`]: the slot's index and
/// the generation of the slot at the time the value was inserted.
///
/// A key is a weak reference: it may outlive the value it names, in which
/// case every lookup through it fails instead of reaching a later value.
#[derive(Debug)]
pub struct GenerationalKey<T> {
    pub index: usize,
    pub generation: usize,
    pub marker: PhantomData<T>,
}

impl<T> GenerationalKey<T> {
    /// The key naming slot `index` at generation `generation`.
    pub fn new(index: usize, generation: usize) -> (r: Self)
        ensures
            r.index == index,
            r.generation == generation,
    {
        GenerationalKey { index, generation, marker: PhantomData }
    }
}

impl<T> Clone for GenerationalKey<T> {
    fn clone(&self) -> (r: Self)
        ensures
            r == *self,
    {
        GenerationalKey { index: self.index, generation: self.generation, marker: PhantomData }
    }
}

impl<T> Copy for GenerationalKey<T> {

}

impl<T> PartialEq for GenerationalKey<T> {
    fn eq(&self, other: &Self) -> (r: bool)
        ensures
            r == (self.index == other.index && self.generation == other.generation),
    {
        self.index == other.index && self.generation == other.generation
    }
}

impl<T> vstd::std_specs::cmp::PartialEqSpecImpl for GenerationalKey<T> {
    open spec fn obeys_eq_spec() -> bool {
        true
    }

    open spec fn eq_spec(&self, other: &Self) -> bool {
        self.index == other.index && self.generation == other.generation
    }
}

impl<T> Eq for GenerationalKey<T> {

}

/// How two keys compare: by index, then by generation.
pub open spec fn key_order(
    index: usize,
    generation: usize,
    other_index: usize,
    other_generation: usize,
) -> std::cmp::Ordering {
    if index < other_index {
        std::cmp::Ordering::Less
    } else if index > other_index {
        std::cmp::Ordering::Greater
    } else if generation < other_generation {
        std::cmp::Ordering::Less
    } else if generation > other_generation {
        std::cmp::Ordering::Greater
    } else {
        std::cmp::Ordering::Equal
    }
}

impl<T> PartialOrd for GenerationalKey<T> {
    fn partial_cmp(&self, other: &Self) -> (r: Option<std::cmp::Ordering>)
        ensures
            r == Some(key_order(self.index, self.generation, other.index, other.generation)),
    {
        if self.index < other.index {
            Some(std::cmp::Ordering::Less)
        } else if self.index > other.index {
            Some(std::cmp::Ordering::Greater)
        } else if self.generation < other.generation {
            Some(std::cmp::Ordering::Less)
        } else if self.generation > other.generation {
            Some(std::cmp::Ordering::Greater)
        } else {
            Some(std::cmp::Ordering::Equal)
        }
    }
}

impl<T> vstd::std_specs::cmp::PartialOrdSpecImpl for GenerationalKey<T> {
    open spec fn obeys_partial_cmp_spec() -> bool {
        true
    }

    open spec fn partial_cmp_spec(&self, other: &Self) -> Option<std::cmp::Ordering> {
        Some(key_order(self.index, self.generation, other.index, other.generation))
    }
}

/// Number of occupied slots in `slots`.
pub open spec fn occupied_count<T>(slots: Seq<(usize, Option<T>)>) -> nat
    decreases slots.len(),
{
    if slots.len() == 0 {
        0
    } else {
        occupied_count(slots.drop_last()) + if slots.last().1 is Some {
            1nat
        } else {
            0nat
        }
    }
}

/// Whether the key `(index, generation)` names an occupied slot of `slots`
/// whose generation is `generation`.
pub open spec fn key_resolves<T>(slots: Seq<(usize, Option<T>)>, index: int, generation: int) -> bool {
    &&& 0 <= index < slots.len()
    &&& slots[index].1 is Some
    &&& slots[index].0 == generation
}

/// `free` holds each vacant slot of `slots` exactly once, and nothing else.
pub open spec fn parts_well_formed<T>(slots: Seq<(usize, Option<T>)>, free: Seq<usize>) -> bool {
    &&& forall|i: int|
        0 <= i < free.len() ==> {
            &&& #[trigger] free[i] < slots.len()
            &&& slots[free[i] as int].1 is None
        }
    &&& free.no_duplicates()
    &&& slots.len() <= usize::MAX
    &&& free.len() + occupied_count(slots) == slots.len()
}

/// A map from generational keys to values of type `T`.
///
/// Values live in a growable sequence of slots, each holding a generation
/// counter and an optional value. Indices of vacant slots are kept on a
/// stack and reused last-in, first-out; reusing a slot bumps its generation,
/// so keys that named the slot's earlier values no longer resolve.
#[derive(Debug, Clone, PartialEq, Eq)]
pub struct GenerationalMap<T> {
    data: Vec<(usize, Option<T>)>,
    free: Vec<usize>,
}

impl<T> View for GenerationalMap<T> {
    /// The slots, as (generation, optional value), and the stack of vacant
    /// slot indices, top last.
    type V = (Seq<(usize, Option<T>)>, Seq<usize>);

    closed spec fn view(&self) -> Self::V {
        (self.data@, self.free@)
    }
}

impl<T> Default for GenerationalMap<T> {
    /// An empty map.
    fn default() -> (r: Self)
        ensures
            r.well_formed(),
            r.spec_slots() == Seq::<(usize, Option<T>)>::empty(),
            r.spec_free() == Seq::<usize>::empty(),
    {
        Self::new()
    }
}

impl<T> GenerationalMap<T> {
    /// The slots, as (generation, optional value), in index order.
    pub open spec fn spec_slots(&self) -> Seq<(usize, Option<T>)> {
        self@.0
    }

    /// The stack of vacant slot indices; the next reused slot is its last.
    pub open spec fn spec_free(&self) -> Seq<usize> {
        self@.1
    }

    /// The free stack holds each vacant slot exactly once, and nothing else.
    pub open spec fn well_formed(&self) -> bool {
        parts_well_formed(self.spec_slots(), self.spec_free())
    }

    /// Whether `key` names the value currently stored in its slot.
    pub open spec fn valid(&self, key: GenerationalKey<T>) -> bool {
        key_resolves(self.spec_slots(), key.index as int, key.generation as int)
    }

    /// The value in the slot that `key` names (meaningful when `valid(key)`).
    pub open spec fn value_of(&self, key: GenerationalKey<T>) -> T {
        self.spec_slots()[key.index as int].1->0
    }

    /// Whether an insertion can proceed without overflowing the generation of
    /// the slot it would reuse.
    pub open spec fn can_push(&self) -> bool {
        self.spec_free().len() > 0 ==> self.spec_slots()[self.spec_free().last() as int].0
            < usize::MAX
    }

    /// `after` and `key` are the map and key that inserting `item` into `self`
    /// gives: the most recently freed slot is reused with its generation
    /// bumped by one, or, with no slot free, a new slot of generation 0 is
    /// appended.
    pub open spec fn push_result(
        &self,
        item: T,
        after: GenerationalMap<T>,
        key: GenerationalKey<T>,
    ) -> bool {
        if self.spec_free().len() > 0 {
            let i = self.spec_free().last();
            let g = self.spec_slots()[i as int].0 + 1;
            &&& key.index == i
            &&& key.generation == g
            &&& after.spec_slots() == self.spec_slots().update(i as int, (g as usize, Some(item)))
            &&& after.spec_free() == self.spec_free().drop_last()
        } else {
            &&& key.index == self.spec_slots().len()
            &&& key.generation == 0
            &&& after.spec_slots() == self.spec_slots().push((0usize, Some(item)))
            &&& after.spec_free() == self.spec_free()
        }
    }

    /// `after` and `r` are the map and result that removing `key` from `self`
    /// gives: a valid key's value is taken out, its slot left vacant with its
    /// generation kept and its index pushed on the free stack; any other key
    /// leaves the map as it was.
    pub open spec fn remove_result(
        &self,
        key: GenerationalKey<T>,
        after: GenerationalMap<T>,
        r: Option<T>,
    ) -> bool {
        if self.valid(key) {
            &&& r == Some(self.value_of(key))
            &&& after.spec_slots() == self.spec_slots().update(
                key.index as int,
                (key.generation, None),
            )
            &&& after.spec_free() == self.spec_free().push(key.index)
        } else {
            &&& r is None
            &&& after@ == self@
        }
    }

    /// An empty map.
    pub fn new() -> (r: Self)
        ensures
            r.well_formed(),
            r.spec_slots() == Seq::<(usize, Option<T>)>::empty(),
            r.spec_free() == Seq::<usize>::empty(),
    {
        GenerationalMap { data: Vec::new(), free: Vec::new() }
    }

    /// Stores `item` and returns the key that names it.
    pub fn push(&mut self, item: T) -> (r: GenerationalKey<T>)
        requires
            old(self).well_formed(),
            old(self).can_push(),
        ensures
            final(self).well_formed(),
            old(self).push_result(item, *final(self), r),
    {
        let ghost s0 = self.data@;
        let ghost f0 = self.free@;
        if let Some(index) = self.free.pop() {
            proof {
                assert(f0[f0.len() - 1] == index);
            }
            let generation = self.data[index].0 + 1;
            self.data[index] = (generation, Some(item));
            proof {
                lemma_occupied_count_update(s0, index as int, (generation, Some(item)));
                assert(self.free@ =~= f0.drop_last());
                assert forall|i: int| 0 <= i < self.free@.len() implies #[trigger] self.free@[i]
                    != index by {
                    assert(f0[i] != f0[f0.len() - 1]);
                }
            }
            GenerationalKey { index, generation, marker: PhantomData }
        } else {
            self.data.push((0, Some(item)));
            proof {
                lemma_occupied_count_push(s0, (0usize, Some(item)));
            }
            GenerationalKey { index: self.data.len() - 1, generation: 0, marker: PhantomData }
        }
    }

    /// The number of values stored.
    pub fn len(&self) -> (r: usize)
        requires
            self.well_formed(),
        ensures
            r == occupied_count(self.spec_slots()),
    {
        self.data.len() - self.free.len()
    }

    /// Takes out the value that `key` names, if it names one; otherwise the
    /// map is left unchanged.
    pub fn remove(&mut self, key: GenerationalKey<T>) -> (r: Option<T>)
        requires
            old(self).well_formed(),
        ensures
            final(self).well_formed(),
            old(self).remove_result(key, *final(self), r),
    {
        let ghost s0 = self.data@;
        if key.index < self.data.len() && self.data[key.index].0 == key.generation
            && self.data[key.index].1.is_some() {
            let slot = &mut self.data[key.index];
            let item = slot.1.take();
            self.free.push(key.index);
            proof {
                lemma_occupied_count_update(s0, key.index as int, (key.generation, None));
            }
            item
        } else {
            None
        }
    }

    /// The value that `key` names, if it names one.
    pub fn get(&self, key: GenerationalKey<T>) -> (r: Option<&T>)
        ensures
            match r {
                Some(v) => self.valid(key) && *v == self.value_of(key),
                None => !self.valid(key),
            },
    {
        if key.index < self.data.len() {
            let slot = &self.data[key.index];
            if slot.0 == key.generation {
                slot.1.as_ref()
            } else {
                None
            }
        } else {
            None
        }
    }

    /// A mutable reference to the value that `key` names, if it names one.
    /// Only that value can change through it.
    pub fn get_mut(&mut self, key: GenerationalKey<T>) -> (r: Option<&mut T>)
        ensures
            match r {
                Some(v) => {
                    &&& old(self).valid(key)
                    &&& *v == old(self).value_of(key)
                    &&& final(self).spec_slots() == old(self).spec_slots().update(
                        key.index as int,
                        (key.generation, Some(*final(v))),
                    )
                    &&& final(self).spec_free() == old(self).spec_free()
                },
                None => !old(self).valid(key) && final(self)@ == old(self)@,
            },
    {
        if key.index < self.data.len() && self.data[key.index].0 == key.generation {
            let slot = &mut self.data[key.index];
            slot.1.as_mut()
        } else {
            None
        }
    }

    /// The stored values, each with the key that currently names it, in
    /// ascending slot order.
    pub fn iter(&self) -> (r: Vec<(GenerationalKey<T>, &T)>)
        ensures
            r@.len() == entries(self.spec_slots()).len(),
            forall|i: int|
                0 <= i < r@.len() ==> (#[trigger] r@[i]).0 == entries(self.spec_slots())[i].0
                    && *r@[i].1 == entries(self.spec_slots())[i].1,
    {
        let mut r: Vec<(GenerationalKey<T>, &T)> = Vec::new();
        let mut index: usize = 0;
        while index < self.data.len()
            invariant
                index <= self.data@.len(),
                r@.len() == entries(self.data@.take(index as int)).len(),
                forall|i: int|
                    0 <= i < r@.len() ==> (#[trigger] r@[i]).0 == entries(
                        self.data@.take(index as int),
                    )[i].0 && *r@[i].1 == entries(self.data@.take(index as int))[i].1,
            decreases self.data@.len() - index,
        {
            let slot = &self.data[index];
            proof {
                assert(self.data@.take(index as int + 1).drop_last() =~= self.data@.take(index as int));
            }
            match &slot.1 {
                Some(item) => {
                    r.push((GenerationalKey { index, generation: slot.0, marker: PhantomData }, item));
                },
                None => {},
            }
            index += 1;
        }
        proof {
            assert(self.data@.take(index as int) =~= self.data@);
            assert(entries(self.data@.take(index as int)) == entries(self.spec_slots()));
        }
        r
    }

    /// Mutable references to the stored values, each with the key that
    /// currently names it, in ascending slot order. Only the values can
    /// change through them.
    pub fn iter_mut(&mut self) -> (r: Vec<(GenerationalKey<T>, &mut T)>)
        ensures
            r@.len() == entries(old(self).spec_slots()).len(),
            forall|i: int|
                0 <= i < r@.len() ==> (#[trigger] r@[i]).0 == entries(old(self).spec_slots())[i].0
                    && *r@[i].1 == entries(old(self).spec_slots())[i].1,
            final(self).spec_free() == old(self).spec_free(),
            final(self).spec_slots() == with_values(
                old(self).spec_slots(),
                Seq::new(r@.len(), |i: int| *final(r@[i].1)),
            ),
    {
        let ghost slots = self.data@;
        let ghost after = *final(self);
        let n = self.data.len();
        let mut r: Vec<(GenerationalKey<T>, &mut T)> = Vec::new();
        let mut rest = self.data.as_mut_slice();
        let mut index: usize = 0;
        while rest.len() > 0
            invariant
                n == slots.len(),
                index + rest@.len() == n,
                rest@ == slots.subrange(index as int, n as int),
                r@.len() == entries(slots.take(index as int)).len(),
                forall|i: int|
                    0 <= i < r@.len() ==> (#[trigger] r@[i]).0 == entries(
                        slots.take(index as int),
                    )[i].0 && *r@[i].1 == entries(slots.take(index as int))[i].1,
                after.data@ == with_values(
                    slots.take(index as int),
                    Seq::new(r@.len(), |i: int| *final(r@[i].1)),
                ) + final(rest)@,
            decreases rest@.len(),
        {
            let ghost r0 = r@;
            let ghost done0 = with_values(
                slots.take(index as int),
                Seq::new(r0.len(), |i: int| *final(r0[i].1)),
            );
            let (head, tail) = rest.split_at_mut(1);
            let ghost head_after = final(head)@;
            let ghost tail_after = final(tail)@;
            let slot = head.first_mut().unwrap();
            let ghost slot_after = *final(slot);
            proof {
                assert(head_after =~= seq![slot_after]);
            }
            let generation = slot.0;
            proof {
                assert(slots.take(index as int + 1).drop_last() =~= slots.take(index as int));
                assert(slots.take(index as int + 1).last() == slots[index as int]);
            }
            match slot.1.as_mut() {
                Some(item) => {
                    r.push((GenerationalKey { index, generation, marker: PhantomData }, item));
                    proof {
                        let fin = Seq::new(r@.len(), |i: int| *final(r@[i].1));
                        assert(fin.drop_last() =~= Seq::new(r0.len(), |i: int| *final(r0[i].1)));
                        assert(with_values(slots.take(index as int + 1), fin) == done0.push(
                            slot_after,
                        ));
                        assert(after.data@ =~= done0.push(slot_after) + tail_after);
                    }
                },
                None => {
                    proof {
                        let fin = Seq::new(r@.len(), |i: int| *final(r@[i].1));
                        assert(fin =~= Seq::new(r0.len(), |i: int| *final(r0[i].1)));
                        assert(with_values(slots.take(index as int + 1), fin) == done0.push(
                            slot_after,
                        ));
                        assert(after.data@ =~= done0.push(slot_after) + tail_after);
                    }
                },
            }
            rest = tail;
            index += 1;
        }
        proof {
            assert(slots.take(index as int) =~= slots);
        }
        r
    }

    /// Mutable references to the stored values, in ascending slot order.
    /// Only the values can change through them.
    pub fn values_mut(&mut self) -> (r: Vec<&mut T>)
        ensures
            r@.len() == entries(old(self).spec_slots()).len(),
            forall|i: int|
                0 <= i < r@.len() ==> *(#[trigger] r@[i]) == entries(old(self).spec_slots())[i].1,
            final(self).spec_free() == old(self).spec_free(),
            final(self).spec_slots() == with_values(
                old(self).spec_slots(),
                Seq::new(r@.len(), |i: int| *final(r@[i])),
            ),
    {
        let ghost slots = self.data@;
        let ghost after = *final(self);
        let n = self.data.len();
        let mut r: Vec<&mut T> = Vec::new();
        let mut rest = self.data.as_mut_slice();
        let mut index: usize = 0;
        while rest.len() > 0
            invariant
                n == slots.len(),
                index + rest@.len() == n,
                rest@ == slots.subrange(index as int, n as int),
                r@.len() == entries(slots.take(index as int)).len(),
                forall|i: int|
                    0 <= i < r@.len() ==> *(#[trigger] r@[i]) == entries(
                        slots.take(index as int),
                    )[i].1,
                after.data@ == with_values(
                    slots.take(index as int),
                    Seq::new(r@.len(), |i: int| *final(r@[i])),
                ) + final(rest)@,
            decreases rest@.len(),
        {
            let ghost r0 = r@;
            let ghost done0 = with_values(
                slots.take(index as int),
                Seq::new(r0.len(), |i: int| *final(r0[i])),
            );
            let (head, tail) = rest.split_at_mut(1);
            let ghost head_after = final(head)@;
            let ghost tail_after = final(tail)@;
            let slot = head.first_mut().unwrap();
            let ghost slot_after = *final(slot);
            proof {
                assert(head_after =~= seq![slot_after]);
            }
            proof {
                assert(slots.take(index as int + 1).drop_last() =~= slots.take(index as int));
                assert(slots.take(index as int + 1).last() == slots[index as int]);
            }
            match slot.1.as_mut() {
                Some(item) => {
                    r.push(item);
                    proof {
                        let fin = Seq::new(r@.len(), |i: int| *final(r@[i]));
                        assert(fin.drop_last() =~= Seq::new(r0.len(), |i: int| *final(r0[i])));
                        assert(with_values(slots.take(index as int + 1), fin) == done0.push(
                            slot_after,
                        ));
                        assert(after.data@ =~= done0.push(slot_after) + tail_after);
                    }
                },
                None => {
                    proof {
                        let fin = Seq::new(r@.len(), |i: int| *final(r@[i]));
                        assert(fin =~= Seq::new(r0.len(), |i: int| *final(r0[i])));
                        assert(with_values(slots.take(index as int + 1), fin) == done0.push(
                            slot_after,
                        ));
                        assert(after.data@ =~= done0.push(slot_after) + tail_after);
                    }
                },
            }
            rest = tail;
            index += 1;
        }
        proof {
            assert(slots.take(index as int) =~= slots);
        }
        r
    }

    /// The keys of the stored values, in ascending slot order.
    pub fn keys(&self) -> (r: Vec<GenerationalKey<T>>)
        ensures
            r@.len() == entries(self.spec_slots()).len(),
            forall|i: int| 0 <= i < r@.len() ==> #[trigger] r@[i] == entries(self.spec_slots())[i].0,
    {
        let mut r: Vec<GenerationalKey<T>> = Vec::new();
        let mut index: usize = 0;
        while index < self.data.len()
            invariant
                index <= self.data@.len(),
                r@.len() == entries(self.data@.take(index as int)).len(),
                forall|i: int|
                    0 <= i < r@.len() ==> #[trigger] r@[i] == entries(
                        self.data@.take(index as int),
                    )[i].0,
            decreases self.data@.len() - index,
        {
            proof {
                assert(self.data@.take(index as int + 1).drop_last() =~= self.data@.take(index as int));
            }
            if self.data[index].1.is_some() {
                r.push(GenerationalKey { index, generation: self.data[index].0, marker: PhantomData });
            }
            index += 1;
        }
        proof {
            assert(self.data@.take(index as int) =~= self.data@);
        }
        r
    }

    /// The stored values, in ascending slot order.
    pub fn values(&self) -> (r: Vec<&T>)
        ensures
            r@.len() == entries(self.spec_slots()).len(),
            forall|i: int| 0 <= i < r@.len() ==> *#[trigger] r@[i] == entries(self.spec_slots())[i].1,
    {
        let mut r: Vec<&T> = Vec::new();
        let mut index: usize = 0;
        while index < self.data.len()
            invariant
                index <= self.data@.len(),
                r@.len() == entries(self.data@.take(index as int)).len(),
                forall|i: int|
                    0 <= i < r@.len() ==> *#[trigger] r@[i] == entries(
                        self.data@.take(index as int),
                    )[i].1,
            decreases self.data@.len() - index,
        {
            proof {
                assert(self.data@.take(index as int + 1).drop_last() =~= self.data@.take(index as int));
            }
            match &self.data[index].1 {
                Some(item) => {
                    r.push(item);
                },
                None => {},
            }
            index += 1;
        }
        proof {
            assert(self.data@.take(index as int) =~= self.data@);
        }
        r
    }

    /// The slots, as (generation, optional value), in index order.
    pub fn slots(&self) -> (r: &Vec<(usize, Option<T>)>)
        ensures
            r@ == self.spec_slots(),
    {
        &self.data
    }

    /// The stack of vacant slot indices; the next reused slot is its last.
    pub fn free_list(&self) -> (r: &Vec<usize>)
        ensures
            r@ == self.spec_free(),
    {
        &self.free
    }

    /// Takes the map apart into its slots and its free stack.
    pub fn into_parts(self) -> (r: (Vec<(usize, Option<T>)>, Vec<usize>))
        ensures
            r.0@ == self.spec_slots(),
            r.1@ == self.spec_free(),
    {
        (self.data, self.free)
    }

    /// Rebuilds a map from its slots and its free stack, as `into_parts`
    /// gives them; `None` where the free stack does not hold each vacant
    /// slot exactly once and nothing else.
    pub fn from_parts(data: Vec<(usize, Option<T>)>, free: Vec<usize>) -> (r: Option<Self>)
        ensures
            r is Some <==> parts_well_formed(data@, free@),
            r matches Some(m) ==> m.spec_slots() == data@ && m.spec_free() == free@,
    {
        let n = data.len();
        let mut seen: Vec<bool> = Vec::new();
        while seen.len() < n
            invariant
                seen@.len() <= n,
                n == data@.len(),
                forall|j: int| 0 <= j < seen@.len() ==> !#[trigger] seen@[j],
            decreases n - seen@.len(),
        {
            seen.push(false);
        }
        let mut i: usize = 0;
        while i < free.len()
            invariant
                n == data@.len(),
                seen@.len() == n,
                i <= free@.len(),
                forall|j: int|
                    0 <= j < i ==> {
                        &&& #[trigger] free@[j] < n
                        &&& data@[free@[j] as int].1 is None
                        &&& seen@[free@[j] as int]
                    },
                forall|j: int, k: int| 0 <= j < i && 0 <= k < i && j != k ==> free@[j] != free@[k],
                forall|x: int|
                    0 <= x < n && #[trigger] seen@[x] ==> exists|j: int|
                        0 <= j < i && free@[j] == x,
            decreases free@.len() - i,
        {
            let f = free[i];
            if f >= n || data[f].1.is_some() || seen[f] {
                proof {
                    if f < n && data@[f as int].1 is None && seen@[f as int] {
                        let j = choose|j: int| 0 <= j < i && free@[j] == f;
                        assert(free@[j] == free@[i as int]);
                    }
                }
                return None;
            }
            let ghost seen0 = seen@;
            seen.set(f, true);
            proof {
                assert forall|x: int| 0 <= x < n && #[trigger] seen@[x] implies exists|j: int|
                    0 <= j < i + 1 && free@[j] == x by {
                    if x == f {
                        assert(free@[i as int] == x);
                    } else {
                        assert(seen0[x]);
                        let j = choose|j: int| 0 <= j < i && free@[j] == x;
                        assert(0 <= j < i + 1 && free@[j] == x);
                    }
                }
            }
            i += 1;
        }
        let mut occupied: usize = 0;
        let mut k: usize = 0;
        while k < n
            invariant
                n == data@.len(),
                k <= n,
                occupied <= k,
                occupied == occupied_count(data@.take(k as int)),
            decreases n - k,
        {
            proof {
                assert(data@.take(k as int + 1).drop_last() =~= data@.take(k as int));
            }
            if data[k].1.is_some() {
                occupied += 1;
            }
            k += 1;
        }
        proof {
            assert(data@.take(n as int) =~= data@);
        }
        if free.len() <= n && occupied == n - free.len() {
            Some(GenerationalMap { data, free })
        } else {
            None
        }
    }

    /// Whether `key` names a value stored in the map.
    pub fn contains_key(&self, key: GenerationalKey<T>) -> (r: bool)
        ensures
            r == self.valid(key),
    {
        key.index < self.data.len() && self.data[key.index].0 == key.generation
            && self.data[key.index].1.is_some()
    }
}

/// The entries of the occupied slots of `slots`, in ascending index order,
/// each paired with the key that currently names it.
pub open spec fn entries<T>(slots: Seq<(usize, Option<T>)>) -> Seq<(GenerationalKey<T>, T)>
    decreases slots.len(),
{
    if slots.len() == 0 {
        Seq::empty()
    } else {
        let rest = entries(slots.drop_last());
        let last = slots.last();
        if last.1 is Some {
            let key = GenerationalKey {
                index: (slots.len() - 1) as usize,
                generation: last.0,
                marker: PhantomData,
            };
            rest.push((key, last.1->0))
        } else {
            rest
        }
    }
}

/// `slots` with the value of each occupied slot replaced, in ascending slot
/// order, by the successive items of `values`; generations and vacant slots
/// are kept.
pub open spec fn with_values<T>(slots: Seq<(usize, Option<T>)>, values: Seq<T>) -> Seq<
    (usize, Option<T>),
>
    decreases slots.len(),
{
    if slots.len() == 0 {
        Seq::empty()
    } else if slots.last().1 is Some {
        with_values(slots.drop_last(), values.drop_last()).push(
            (slots.last().0, Some(values.last())),
        )
    } else {
        with_values(slots.drop_last(), values).push(slots.last())
    }
}

/// Overwriting one slot changes the occupied count by the difference in
/// occupancy between the old and the new slot.
proof fn lemma_occupied_count_update<T>(
    slots: Seq<(usize, Option<T>)>,
    i: int,
    v: (usize, Option<T>),
)
    requires
        0 <= i < slots.len(),
    ensures
        occupied_count(slots.update(i, v)) + (if slots[i].1 is Some {
            1int
        } else {
            0int
        }) == occupied_count(slots) + (if v.1 is Some {
            1int
        } else {
            0int
        }),
    decreases slots.len(),
{
    let u = slots.update(i, v);
    if i == slots.len() - 1 {
        assert(u.drop_last() =~= slots.drop_last());
    } else {
        assert(u.drop_last() =~= slots.drop_last().update(i, v));
        lemma_occupied_count_update(slots.drop_last(), i, v);
    }
}

/// Appending a slot adds its occupancy to the occupied count.
proof fn lemma_occupied_count_push<T>(slots: Seq<(usize, Option<T>)>, v: (usize, Option<T>))
    ensures
        occupied_count(slots.push(v)) == occupied_count(slots) + (if v.1 is Some {
            1int
        } else {
            0int
        }),
{
    assert(slots.push(v).drop_last() =~= slots);
}

} // verus!
