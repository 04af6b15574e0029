//! Generational arena. A pool owns its values; a handle names one of them
//! without owning it, and stops resolving as soon as that value is removed.

use std::marker::PhantomData;
use vstd::prelude::*;
use vstd::std_specs::cmp::PartialEqSpecImpl;

verus! {

/// A non-owning reference into a [`Pool`]: a slot index and the generation
/// the slot had when the handle was issued.
#[derive(Debug)]
pub struct Handle<T> {
    index: usize,
    generation: u32,
    marker: PhantomData<T>,
}

impl<T> Handle<T> {
    pub closed spec fn spec_index(&self) -> nat {
        self.index as nat
    }

    pub closed spec fn spec_generation(&self) -> nat {
        self.generation as nat
    }

    /// Index of the slot this handle points at.
    pub fn index(&self) -> (r: usize)
        ensures
            r == self.spec_index(),
    {
        self.index
    }

    /// Generation of the slot at the time the handle was issued.
    pub fn generation(&self) -> (r: u32)
        ensures
            r == self.spec_generation(),
    {
        self.generation
    }

    /// Whether two handles name the same slot in the same generation.
    pub fn same(&self, other: &Handle<T>) -> (r: bool)
        ensures
            r <==> *self == *other,
    {
        self.index == other.index && self.generation == other.generation
    }

    /// A handle is nothing but its index and generation.
    pub proof fn lemma_identity(a: Handle<T>, b: Handle<T>)
        requires
            a.spec_index() == b.spec_index(),
            a.spec_generation() == b.spec_generation(),
        ensures
            a == b,
    {
    }
}

impl<T> Clone for Handle<T> {
    fn clone(&self) -> (r: Self)
        ensures
            r == *self,
    {
        Handle { index: self.index, generation: self.generation, marker: PhantomData }
    }
}

impl<T> Copy for Handle<T> {

}

impl<T> PartialEq for Handle<T> {
    fn eq(&self, other: &Self) -> (r: bool) {
        self.index == other.index && self.generation == other.generation
    }
}

impl<T> Eq for Handle<T> {

}

impl<T> PartialEqSpecImpl for Handle<T> {
    open spec fn obeys_eq_spec() -> bool {
        true
    }

    open spec fn eq_spec(&self, other: &Self) -> bool {
        self.spec_index() == other.spec_index() && self.spec_generation()
            == other.spec_generation()
    }
}

struct Slot<T> {
    generation: u32,
    value: Option<T>,
}

/// Generational arena of `T`.
pub struct Pool<T> {
    slots: Vec<Slot<T>>,
    free: Vec<usize>,
}

impl<T> View for Pool<T> {
    type V = Map<Handle<T>, T>;

    /// The live handles and the values they resolve to.
    closed spec fn view(&self) -> Map<Handle<T>, T> {
        Map::new(
            |h: Handle<T>|
                h.index < self.slots@.len() && self.slots@[h.index as int].generation
                    == h.generation && self.slots@[h.index as int].value is Some,
            |h: Handle<T>| self.slots@[h.index as int].value->0,
        )
    }
}

impl<T> Pool<T> {
    /// Current generation of every slot, by index.
    pub closed spec fn stamps(&self) -> Seq<nat> {
        Seq::new(self.slots@.len(), |i: int| self.slots@[i].generation as nat)
    }

    /// Indices of the empty slots that wait for reuse. The last one is
    /// taken first.
    pub closed spec fn free_slots(&self) -> Seq<nat> {
        self.free@.map_values(|i: usize| i as nat)
    }

    /// Internal consistency of the slot table and the free list.
    pub closed spec fn wf(&self) -> bool {
        &&& forall|i: int|
            0 <= i < self.slots@.len() ==> (#[trigger] self.slots@[i]).generation >= 1
        &&& forall|i: int|
            0 <= i < self.slots@.len() && (#[trigger] self.slots@[i]).value is Some
                ==> self.slots@[i].generation < u32::MAX
        &&& forall|k: int|
            0 <= k < self.free@.len() ==> {
                &&& (#[trigger] self.free@[k]) < self.slots@.len()
                &&& self.slots@[self.free@[k] as int].value is None
                &&& self.slots@[self.free@[k] as int].generation < u32::MAX
            }
        &&& forall|j: int, k: int|
            0 <= j < k < self.free@.len() ==> self.free@[j] != self.free@[k]
    }

    /// `h` resolves to a value.
    pub open spec fn contains(&self, h: Handle<T>) -> bool {
        self@.contains_key(h)
    }

    /// The slot of `h` has moved on to a later generation: `h` was valid once
    /// at most, and will never resolve again.
    pub open spec fn expired(&self, h: Handle<T>) -> bool {
        h.spec_index() < self.stamps().len() && h.spec_generation() < self.stamps()[h.spec_index() as int]
    }

    /// `self` can be reached from `earlier` by inserting and removing: no slot
    /// disappeared and no generation went back.
    pub open spec fn follows(&self, earlier: &Pool<T>) -> bool {
        &&& earlier.stamps().len() <= self.stamps().len()
        &&& forall|i: int|
            0 <= i < earlier.stamps().len() ==> earlier.stamps()[i] <= #[trigger] self.stamps()[i]
    }

    /// `after` is `before` with `value` stored under `h`, a handle that
    /// neither resolved nor had expired in `before`.
    pub open spec fn inserted(before: &Pool<T>, after: &Pool<T>, h: Handle<T>, value: T) -> bool {
        &&& !before.contains(h)
        &&& !before.expired(h)
        &&& after@ == before@.insert(h, value)
        &&& after.follows(before)
    }

    /// `after` is `before` with the value under `h`, if there was one, taken
    /// out and `h` expired.
    pub open spec fn removed(before: &Pool<T>, after: &Pool<T>, h: Handle<T>) -> bool {
        &&& after@ == before@.remove(h)
        &&& before.contains(h) ==> after.expired(h)
        &&& after.follows(before)
    }

    /// An insertion or a removal leads from `before` to `after`.
    pub open spec fn step(before: &Pool<T>, after: &Pool<T>) -> bool {
        ||| exists|g: Handle<T>, v: T| Pool::inserted(before, after, g, v)
        ||| exists|g: Handle<T>| Pool::removed(before, after, g)
    }

    /// An insertion, or the removal of a handle other than `h`, leads from
    /// `before` to `after`.
    pub open spec fn step_sparing(before: &Pool<T>, after: &Pool<T>, h: Handle<T>) -> bool {
        ||| exists|g: Handle<T>, v: T| Pool::inserted(before, after, g, v)
        ||| exists|g: Handle<T>| g != h && Pool::removed(before, after, g)
    }

    /// A handle returned by an insertion resolves to the inserted value in
    /// every state that follows, through any sequence of insertions and
    /// removals, as long as the handle itself is not removed.
    pub proof fn lemma_valid_until_removed(states: Seq<Pool<T>>, h: Handle<T>, value: T, k: int)
        requires
            1 <= k < states.len(),
            Pool::inserted(&states[0], &states[1], h, value),
            forall|i: int|
                1 <= i < states.len() - 1 ==> #[trigger] Pool::step_sparing(
                    &states[i],
                    &states[i + 1],
                    h,
                ),
        ensures
            states[k].contains(h),
            states[k]@[h] == value,
        decreases k,
    {
        if k > 1 {
            Self::lemma_valid_until_removed(states, h, value, k - 1);
            assert(Pool::step_sparing(&states[k - 1], &states[k - 1 + 1], h));
        }
    }

    /// A handle whose value was removed resolves to nothing in every state
    /// that follows, through any sequence of insertions and removals: no
    /// later occupant of the slot is ever seen through it.
    pub proof fn lemma_invalid_once_removed(states: Seq<Pool<T>>, h: Handle<T>, k: int)
        requires
            1 <= k < states.len(),
            states[0].contains(h),
            Pool::removed(&states[0], &states[1], h),
            forall|i: int|
                1 <= i < states.len() - 1 ==> #[trigger] Pool::step(&states[i], &states[i + 1]),
        ensures
            !states[k].contains(h),
            states[k].expired(h),
        decreases k,
    {
        if k > 1 {
            Self::lemma_invalid_once_removed(states, h, k - 1);
            assert(Pool::step(&states[k - 1], &states[k - 1 + 1]));
            Self::lemma_expired_forever(&states[k - 1], &states[k], h);
        }
    }

    /// A live handle carries the current generation of its slot.
    pub proof fn lemma_live_is_current(&self, h: Handle<T>)
        requires
            self.contains(h),
        ensures
            h.spec_index() < self.stamps().len(),
            h.spec_generation() == self.stamps()[h.spec_index() as int],
            !self.expired(h),
    {
    }

    /// At most one handle resolves per slot.
    pub proof fn lemma_one_live_handle_per_slot(&self, a: Handle<T>, b: Handle<T>)
        requires
            self.contains(a),
            self.contains(b),
            a.spec_index() == b.spec_index(),
        ensures
            a == b,
    {
    }

    /// Once a handle has expired it stays expired, and so unresolvable,
    /// through every later state of the pool.
    pub proof fn lemma_expired_forever(earlier: &Pool<T>, later: &Pool<T>, h: Handle<T>)
        requires
            later.follows(earlier),
            earlier.expired(h),
        ensures
            later.expired(h),
            !later.contains(h),
    {
        assert(later.stamps()[h.spec_index() as int] >= earlier.stamps()[h.spec_index() as int]);
    }

    /// `follows` composes, so it covers every sequence of operations.
    pub proof fn lemma_follows_transitive(a: &Pool<T>, b: &Pool<T>, c: &Pool<T>)
        requires
            b.follows(a),
            c.follows(b),
        ensures
            c.follows(a),
    {
        assert forall|i: int| 0 <= i < a.stamps().len() implies a.stamps()[i] <= #[trigger] c.stamps()[
            i
        ] by {
            assert(a.stamps()[i] <= b.stamps()[i]);
        }
    }

    /// An empty pool.
    pub fn new() -> (pool: Pool<T>)
        ensures
            pool.wf(),
            pool@ == Map::<Handle<T>, T>::empty(),
            pool.stamps().len() == 0,
            pool.free_slots().len() == 0,
    {
        let pool = Pool { slots: Vec::new(), free: Vec::new() };
        assert(pool@ =~= Map::<Handle<T>, T>::empty());
        pool
    }

    /// Number of slots, free ones included.
    pub fn capacity(&self) -> (n: usize)
        ensures
            n == self.stamps().len(),
    {
        self.slots.len()
    }

    /// Stores `value` in the free slot released last, or in a new slot when
    /// none is free, and returns the handle that resolves to it from now on.
    /// A reused slot keeps the generation its last removal gave it; a new
    /// slot starts in generation 1. The handle is new: it neither resolved
    /// nor had expired before.
    pub fn insert(&mut self, value: T) -> (h: Handle<T>)
        requires
            old(self).wf(),
        ensures
            final(self).wf(),
            !old(self).contains(h),
            !old(self).expired(h),
            final(self)@ == old(self)@.insert(h, value),
            final(self).stamps() == (if h.spec_index() < old(self).stamps().len() {
                old(self).stamps()
            } else {
                old(self).stamps().push(h.spec_generation())
            }),
            old(self).free_slots().len() > 0 ==> {
                &&& h.spec_index() == old(self).free_slots().last()
                &&& h.spec_index() < old(self).stamps().len()
                &&& h.spec_generation() == old(self).stamps()[h.spec_index() as int]
                &&& final(self).free_slots() == old(self).free_slots().drop_last()
            },
            old(self).free_slots().len() == 0 ==> {
                &&& h.spec_index() == old(self).stamps().len()
                &&& h.spec_generation() == 1
                &&& final(self).free_slots() == old(self).free_slots()
            },
            final(self).follows(old(self)),
            Pool::inserted(old(self), final(self), h, value),
    {
        if self.free.len() > 0 {
            let index = self.free.pop().unwrap();
            let slot = &mut self.slots[index];
            let generation = slot.generation;
            slot.value = Some(value);
            let h = Handle { index, generation, marker: PhantomData };
            assert(self.stamps() =~= old(self).stamps());
            assert(self@ =~= old(self)@.insert(h, value));
            assert(self.free_slots() =~= old(self).free_slots().drop_last());
            h
        } else {
            let index = self.slots.len();
            self.slots.push(Slot { generation: 1, value: Some(value) });
            let h = Handle { index, generation: 1, marker: PhantomData };
            assert(self.stamps() =~= old(self).stamps().push(1));
            assert(self@ =~= old(self)@.insert(h, value));
            h
        }
    }

    /// The value that `h` resolves to; absent when `h` is out of range, its
    /// slot is empty, or the slot has moved on to another generation.
    pub fn get(&self, h: Handle<T>) -> (r: Option<&T>)
        ensures
            r is Some <==> self.contains(h),
            r matches Some(v) ==> *v == self@[h],
    {
        if h.index < self.slots.len() {
            let slot = &self.slots[h.index];
            if slot.generation == h.generation {
                slot.value.as_ref()
            } else {
                None
            }
        } else {
            None
        }
    }

    /// Whether `h` resolves.
    pub fn is_valid_handle(&self, h: Handle<T>) -> (r: bool)
        ensures
            r == self.contains(h),
    {
        self.get(h).is_some()
    }

    /// Mutable access to the value that `h` resolves to; absent exactly when
    /// [`Pool::get`] is. Only that one value can change through the reference.
    pub fn get_mut(&mut self, h: Handle<T>) -> (r: Option<&mut T>)
        requires
            old(self).wf(),
        ensures
            r is Some <==> old(self).contains(h),
            r is None ==> final(self)@ == old(self)@,
            r matches Some(v) ==> *v == old(self)@[h] && final(self)@ == old(self)@.insert(
                h,
                *final(v),
            ),
            final(self).wf(),
            final(self).stamps() == old(self).stamps(),
            final(self).free_slots() == old(self).free_slots(),
            final(self).follows(old(self)),
    {
        if h.index < self.slots.len() {
            if self.slots[h.index].generation == h.generation && self.slots[h.index].value.is_some() {
                let slot = &mut self.slots[h.index];
                let r = slot.value.as_mut();
                proof {
                    let ghost after = after_borrow(*self);
                    assert(after.stamps() =~= old(self).stamps());
                    assert(after@ =~= old(self)@.insert(h, *final(r.unwrap())));
                }
                return r;
            }
        }
        None
    }

    /// Takes the value that `h` resolves to out of the pool. The slot moves on
    /// to the next generation, so `h` and every copy of it expire, and waits
    /// for reuse unless it has reached the last generation there is. Absent,
    /// and without effect, when `h` does not resolve.
    pub fn remove(&mut self, h: Handle<T>) -> (r: Option<T>)
        requires
            old(self).wf(),
        ensures
            final(self).wf(),
            r == (if old(self).contains(h) {
                Some(old(self)@[h])
            } else {
                None
            }),
            final(self)@ == old(self)@.remove(h),
            old(self).contains(h) ==> final(self).expired(h) && final(self).stamps() == old(
                self,
            ).stamps().update(h.spec_index() as int, h.spec_generation() + 1),
            !old(self).contains(h) ==> final(self).stamps() == old(self).stamps(),
            final(self).free_slots() == (if old(self).contains(h) && h.spec_generation() + 1
                < u32::MAX {
                old(self).free_slots().push(h.spec_index())
            } else {
                old(self).free_slots()
            }),
            final(self).follows(old(self)),
            Pool::removed(old(self), final(self), h),
    {
        if h.index < self.slots.len() {
            if self.slots[h.index].generation == h.generation && self.slots[h.index].value.is_some() {
                let slot = &mut self.slots[h.index];
                let r = slot.value.take();
                slot.generation = slot.generation + 1;
                let retired = slot.generation == u32::MAX;
                if !retired {
                    self.free.push(h.index);
                }
                assert(self.stamps() =~= old(self).stamps().update(
                    h.spec_index() as int,
                    h.spec_generation() + 1,
                ));
                assert(self@ =~= old(self)@.remove(h));
                assert(self.free_slots() =~= (if !retired {
                    old(self).free_slots().push(h.spec_index())
                } else {
                    old(self).free_slots()
                }));
                return r;
            }
        }
        assert(self@ =~= old(self)@.remove(h));
        None
    }

    /// The live handle of slot `index`, if the slot holds a value.
    pub fn handle_at(&self, index: usize) -> (r: Option<Handle<T>>)
        ensures
            r matches Some(h) ==> self.contains(h) && h.spec_index() == index,
            r is None ==> forall|g: Handle<T>| g.spec_index() == index ==> !self.contains(g),
    {
        if index < self.slots.len() {
            let slot = &self.slots[index];
            if slot.value.is_some() {
                return Some(Handle { index, generation: slot.generation, marker: PhantomData });
            }
        }
        None
    }
}

} // verus!
