//! Properties of [`GenerationalMap`] that relate several of its operations.
use crate::generational_map::{
    entries, key_resolves, occupied_count, GenerationalKey, GenerationalMap,
};
use vstd::prelude::*;

verus! {

/// The pairs (index, generation) that name a value stored in `slots`.
pub open spec fn resolving_pairs<T>(slots: Seq<(usize, Option<T>)>) -> Set<(usize, usize)> {
    Set::new(|p: (usize, usize)| key_resolves(slots, p.0 as int, p.1 as int))
}

/// The entries listed for `slots` are exactly its occupied slots: each names
/// its slot's current value with the slot's current generation, they come in
/// strictly ascending index order, every resolving key is among them, and
/// there are as many as there are occupied slots.
pub proof fn lemma_entries_of_slots<T>(slots: Seq<(usize, Option<T>)>)
    requires
        slots.len() <= usize::MAX,
    ensures
        entries(slots).len() == occupied_count(slots),
        forall|i: int|
            0 <= i < entries(slots).len() ==> key_resolves(
                slots,
                (#[trigger] entries(slots)[i]).0.index as int,
                entries(slots)[i].0.generation as int,
            ) && slots[entries(slots)[i].0.index as int].1->0 == entries(slots)[i].1,
        forall|i: int, j: int|
            0 <= i < j < entries(slots).len() ==> (#[trigger] entries(slots)[i]).0.index
                < (#[trigger] entries(slots)[j]).0.index,
        forall|index: int, generation: int|
            #[trigger] key_resolves(slots, index, generation) ==> exists|i: int|
                0 <= i < entries(slots).len() && (#[trigger] entries(slots)[i]).0.index == index
                    && entries(slots)[i].0.generation == generation,
    decreases slots.len(),
{
    if slots.len() > 0 {
        let s0 = slots.drop_last();
        lemma_entries_of_slots(s0);
        let e0 = entries(s0);
        let e = entries(slots);
        assert forall|i: int| 0 <= i < e0.len() implies #[trigger] e[i] == e0[i] by {}
        assert forall|index: int, generation: int|
            #[trigger] key_resolves(slots, index, generation) implies exists|i: int|
                0 <= i < e.len() && (#[trigger] e[i]).0.index == index && e[i].0.generation
                    == generation by {
            if index < slots.len() - 1 {
                assert(key_resolves(s0, index, generation));
                let i = choose|i: int|
                    0 <= i < e0.len() && (#[trigger] e0[i]).0.index == index && e0[i].0.generation
                        == generation;
                assert(e[i] == e0[i]);
            } else {
                assert(e[e.len() - 1].0.index == index);
            }
        }
    }
}

/// The pairs that name a stored value are as many as the occupied slots.
pub proof fn lemma_resolving_pairs_len<T>(slots: Seq<(usize, Option<T>)>)
    requires
        slots.len() <= usize::MAX,
    ensures
        resolving_pairs(slots).finite(),
        resolving_pairs(slots).len() == occupied_count(slots),
    decreases slots.len(),
{
    if slots.len() == 0 {
        assert(resolving_pairs(slots) =~= Set::empty());
    } else {
        let s0 = slots.drop_last();
        lemma_resolving_pairs_len(s0);
        let last = slots.last();
        let p = ((slots.len() - 1) as usize, last.0);
        assert(!resolving_pairs(s0).contains(p));
        if last.1 is Some {
            assert(resolving_pairs(slots) =~= resolving_pairs(s0).insert(p));
        } else {
            assert(resolving_pairs(slots) =~= resolving_pairs(s0));
        }
    }
}

/// A freshly inserted value is reachable through the key that its insertion
/// returned.
pub proof fn law_fresh_key_valid<T>(
    before: GenerationalMap<T>,
    item: T,
    after: GenerationalMap<T>,
    key: GenerationalKey<T>,
)
    requires
        before.well_formed(),
        before.push_result(item, after, key),
    ensures
        after.valid(key),
        after.value_of(key) == item,
{
}

/// Removing through a valid key returns its value and invalidates the key: a
/// second removal through it returns nothing and changes nothing.
pub proof fn law_remove_then_get<T>(
    m0: GenerationalMap<T>,
    key: GenerationalKey<T>,
    m1: GenerationalMap<T>,
    r1: Option<T>,
    m2: GenerationalMap<T>,
    r2: Option<T>,
)
    requires
        m0.well_formed(),
        m0.valid(key),
        m0.remove_result(key, m1, r1),
        m1.remove_result(key, m2, r2),
    ensures
        r1 == Some(m0.value_of(key)),
        !m1.valid(key),
        r2 is None,
        m2@ == m1@,
{
}

/// Inserting `a`, removing it, then inserting `b` reuses `a`'s slot with the
/// generation one higher: `a`'s key no longer resolves, `b`'s does.
pub proof fn law_generation_bump<T>(
    m0: GenerationalMap<T>,
    a: T,
    m1: GenerationalMap<T>,
    ka: GenerationalKey<T>,
    ra: Option<T>,
    m2: GenerationalMap<T>,
    b: T,
    m3: GenerationalMap<T>,
    kb: GenerationalKey<T>,
)
    requires
        m0.well_formed(),
        m0.push_result(a, m1, ka),
        m1.remove_result(ka, m2, ra),
        m2.push_result(b, m3, kb),
    ensures
        kb.index == ka.index,
        kb.generation == ka.generation + 1,
        !m3.valid(ka),
        m3.valid(kb),
        m3.value_of(kb) == b,
{
    assert(m2.spec_free().last() == ka.index);
}

/// Removing through one key leaves whether any other key resolves, and the
/// value it resolves to, as they were.
pub proof fn law_remove_keeps_others<T>(
    m0: GenerationalMap<T>,
    key: GenerationalKey<T>,
    m1: GenerationalMap<T>,
    r: Option<T>,
    other: GenerationalKey<T>,
)
    requires
        m0.well_formed(),
        m0.remove_result(key, m1, r),
        other.index != key.index || other.generation != key.generation,
    ensures
        m1.valid(other) == m0.valid(other),
        m0.valid(other) ==> m1.value_of(other) == m0.value_of(other),
{
    if !m0.valid(key) {
        assert(m1.spec_slots() == m0.spec_slots());
    }
}

/// An insertion leaves every key that resolved resolving to the same value,
/// and makes no key resolve but the one it returns.
pub proof fn law_push_keeps_others<T>(
    m0: GenerationalMap<T>,
    item: T,
    m1: GenerationalMap<T>,
    key: GenerationalKey<T>,
    other: GenerationalKey<T>,
)
    requires
        m0.well_formed(),
        m0.push_result(item, m1, key),
    ensures
        m0.valid(other) ==> m1.valid(other) && m1.value_of(other) == m0.value_of(other),
        m0.valid(other) ==> other.index != key.index,
        m1.valid(other) && !m0.valid(other) ==> other.index == key.index && other.generation
            == key.generation,
{
    if m0.spec_free().len() > 0 {
        let i = m0.spec_free().last();
        assert(m0.spec_free()[m0.spec_free().len() - 1] == i);
    }
}

/// The number of stored values is the number of keys that resolve in the map.
pub proof fn law_len_counts_valid_keys<T>(m: GenerationalMap<T>)
    requires
        m.well_formed(),
    ensures
        resolving_pairs(m.spec_slots()).finite(),
        resolving_pairs(m.spec_slots()).len() == occupied_count(m.spec_slots()),
{
    lemma_resolving_pairs_len(m.spec_slots());
}

/// Iteration lists each stored value once, in ascending slot order, with a
/// key that currently resolves to it; every key that resolves is listed.
pub proof fn law_iteration_complete_and_ordered<T>(m: GenerationalMap<T>)
    requires
        m.well_formed(),
    ensures
        entries(m.spec_slots()).len() == occupied_count(m.spec_slots()),
        forall|i: int|
            0 <= i < entries(m.spec_slots()).len() ==> m.valid(
                (#[trigger] entries(m.spec_slots())[i]).0,
            ) && m.value_of(entries(m.spec_slots())[i].0) == entries(m.spec_slots())[i].1,
        forall|i: int, j: int|
            0 <= i < j < entries(m.spec_slots()).len() ==> (#[trigger] entries(
                m.spec_slots(),
            )[i]).0.index < (#[trigger] entries(m.spec_slots())[j]).0.index,
        forall|key: GenerationalKey<T>|
            #[trigger] m.valid(key) ==> exists|i: int|
                0 <= i < entries(m.spec_slots()).len() && (#[trigger] entries(
                    m.spec_slots(),
                )[i]).0.index == key.index && entries(m.spec_slots())[i].0.generation
                    == key.generation,
{
    lemma_entries_of_slots(m.spec_slots());
    assert forall|key: GenerationalKey<T>| #[trigger] m.valid(key) implies exists|i: int|
        0 <= i < entries(m.spec_slots()).len() && (#[trigger] entries(m.spec_slots())[i]).0.index
            == key.index && entries(m.spec_slots())[i].0.generation == key.generation by {
        assert(key_resolves(m.spec_slots(), key.index as int, key.generation as int));
    }
}

} // verus!
