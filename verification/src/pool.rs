//! Slot-based storage for one resource type.
//!
//! A [`ResourcePool`] hands out stable indices for inserted values and reuses
//! vacated slots through a LIFO free list. Each occupied slot carries a
//! liveness counter owned by the pool itself; handles are duplicated and
//! discarded through the pool ([`ResourcePool::clone_handle`],
//! [`ResourcePool::release`]), so every counter update happens under
//! exclusive access to the pool. Sharing a counter between threads without
//! synchronisation is thereby ruled out by construction: a counter can only
//! move while its pool is exclusively borrowed.

use vstd::prelude::*;
use core::marker::PhantomData;

verus! {

/// An opaque handle to one resource instance: a slot index, the slot's
/// generation when the handle was issued, and the identity of the owning
/// scope that created it. A handle never owns the value it refers to; the
/// pool does.
pub struct ResourceRef<T> {
    idx: usize,
    gen: u64,
    owner: u64,
    marker: PhantomData<T>,
}

impl<T> ResourceRef<T> {
    /// The slot index this handle refers to.
    pub closed spec fn spec_idx(self) -> usize {
        self.idx
    }

    /// The slot generation this handle was issued under.
    pub closed spec fn spec_gen(self) -> u64 {
        self.gen
    }

    /// The identity of the scope whose pool issued this handle.
    pub closed spec fn spec_owner(self) -> u64 {
        self.owner
    }

    /// The slot index this handle refers to.
    pub fn idx(&self) -> (i: usize)
        ensures
            i == self.spec_idx(),
    {
        self.idx
    }

    /// The slot generation this handle was issued under.
    pub fn generation(&self) -> (g: u64)
        ensures
            g == self.spec_gen(),
    {
        self.gen
    }

    /// The identity of the scope whose pool issued this handle.
    pub fn owner(&self) -> (o: u64)
        ensures
            o == self.spec_owner(),
    {
        self.owner
    }
}

/// One storage cell: vacant, or holding a value together with the number of
/// live handles that refer to it.
enum Slot<T> {
    Vacant,
    Occupied { value: T, ref_cnt: u32 },
}

/// A single-type slot store with free-list reuse.
///
/// Invariant ([`ResourcePool::wf`]): an index stands in the free list iff its
/// slot is vacant, no index stands there twice, and every occupied slot's
/// counter is at least one.
///
/// Every slot also carries a generation, raised each time the slot is
/// reused. A handle records the generation it was issued under, and access
/// checks it, so a handle left over from before a slot was freed and reused
/// is detected instead of silently aliasing the slot's new resource.
pub struct ResourcePool<T> {
    entries: Vec<Slot<T>>,
    gens: Vec<u64>,
    free_indices: Vec<usize>,
    owner: u64,
}

/// The generation a slot gets when it is reused: one higher, until the
/// counter is exhausted and detection saturates.
pub open spec fn next_gen(g: u64) -> u64 {
    if g < u64::MAX {
        (g + 1) as u64
    } else {
        g
    }
}

/// Mutably borrows the value of an occupied slot, leaving its counter alone.
fn slot_value_mut<T>(slot: &mut Slot<T>) -> (r: &mut T)
    requires
        *old(slot) is Occupied,
    ensures
        *r == old(slot)->value,
        *final(slot) == (Slot::Occupied { value: *final(r), ref_cnt: old(slot)->ref_cnt }),
{
    match slot {
        Slot::Occupied { value, .. } => value,
        Slot::Vacant => unreached(),
    }
}

impl<T> ResourcePool<T> {
    /// Number of slots, vacant ones included.
    pub closed spec fn len(self) -> nat {
        self.entries@.len()
    }

    /// The value held at slot `i`, or `None` when `i` is vacant or out of
    /// range.
    pub closed spec fn value_at(self, i: int) -> Option<T> {
        if 0 <= i < self.entries@.len() {
            match self.entries@[i] {
                Slot::Occupied { value, .. } => Some(value),
                Slot::Vacant => None,
            }
        } else {
            None
        }
    }

    /// The liveness counter of slot `i`; zero when vacant or out of range.
    pub closed spec fn count_at(self, i: int) -> u32 {
        if 0 <= i < self.entries@.len() {
            match self.entries@[i] {
                Slot::Occupied { ref_cnt, .. } => ref_cnt,
                Slot::Vacant => 0u32,
            }
        } else {
            0u32
        }
    }

    /// The generation of slot `i`; zero when out of range.
    pub closed spec fn gen_at(self, i: int) -> u64 {
        if 0 <= i < self.gens@.len() {
            self.gens@[i]
        } else {
            0u64
        }
    }

    /// Every slot has a generation: the two columns have the same length.
    pub closed spec fn gens_consistent(self) -> bool {
        self.gens@.len() == self.entries@.len()
    }

    /// The vacant indices available for reuse, most recently freed last.
    pub closed spec fn free_list(self) -> Seq<int> {
        self.free_indices@.map_values(|u: usize| u as int)
    }

    /// The identity of the scope this pool belongs to.
    pub closed spec fn owner_id(self) -> u64 {
        self.owner
    }

    /// Slot `i` holds a value.
    pub open spec fn occupied(self, i: int) -> bool {
        self.value_at(i) is Some
    }

    /// The pool's structural invariant: every slot has a generation,
    /// free-listed indices are in range and vacant, no index is free-listed
    /// twice, every vacant slot is free-listed, and every occupied slot has
    /// at least one live handle.
    pub open spec fn wf(self) -> bool {
        &&& self.gens_consistent()
        &&& forall|k: int|
            0 <= k < self.free_list().len() ==> 0 <= (#[trigger] self.free_list()[k])
                < self.len() && !self.occupied(self.free_list()[k])
        &&& forall|k1: int, k2: int|
            #![trigger self.free_list()[k1], self.free_list()[k2]]
            0 <= k1 < k2 < self.free_list().len() ==> self.free_list()[k1] != self.free_list()[k2]
        &&& forall|i: int|
            0 <= i < self.len() && !(#[trigger] self.occupied(i)) ==> self.free_list().contains(i)
        &&& forall|i: int|
            0 <= i < self.len() && (#[trigger] self.occupied(i)) ==> self.count_at(i) >= 1
    }

    /// `h` refers to an occupied slot of this pool and its generation is
    /// current: the slot was not freed and reused since `h` was issued.
    pub open spec fn valid_ref(self, h: ResourceRef<T>) -> bool {
        &&& (h.spec_idx() as int) < self.len()
        &&& self.occupied(h.spec_idx() as int)
        &&& self.gen_at(h.spec_idx() as int) == h.spec_gen()
    }

    /// How `add` changes the pool: the freshest free index is reused when one
    /// exists (LIFO), otherwise a slot is appended; the new slot holds `v`
    /// with a counter of one, and every other slot is untouched.
    pub open spec fn add_transition(pre: Self, post: Self, h: ResourceRef<T>, v: T) -> bool {
        &&& h.spec_owner() == pre.owner_id()
        &&& post.owner_id() == pre.owner_id()
        &&& (h.spec_idx() as int) < post.len()
        &&& post.value_at(h.spec_idx() as int) == Some(v)
        &&& post.count_at(h.spec_idx() as int) == 1u32
        &&& h.spec_gen() == post.gen_at(h.spec_idx() as int)
        &&& if pre.free_list().len() > 0 {
            &&& h.spec_idx() as int == pre.free_list().last()
            &&& post.len() == pre.len()
            &&& post.free_list() == pre.free_list().drop_last()
            &&& post.gen_at(h.spec_idx() as int) == next_gen(pre.gen_at(h.spec_idx() as int))
        } else {
            &&& h.spec_idx() as int == pre.len()
            &&& post.len() == pre.len() + 1
            &&& post.free_list() == pre.free_list()
            &&& post.gen_at(h.spec_idx() as int) == 0u64
        }
        &&& forall|j: int|
            0 <= j < pre.len() && j != h.spec_idx() ==> post.value_at(j) == pre.value_at(j)
                && post.count_at(j) == pre.count_at(j) && post.gen_at(j) == pre.gen_at(j)
    }

    /// How `clone_handle` changes the pool: the slot's counter rises by one
    /// and nothing else moves.
    pub open spec fn clone_transition(pre: Self, post: Self, h: ResourceRef<T>) -> bool {
        &&& post.owner_id() == pre.owner_id()
        &&& post.len() == pre.len()
        &&& post.free_list() == pre.free_list()
        &&& post.value_at(h.spec_idx() as int) == pre.value_at(h.spec_idx() as int)
        &&& post.count_at(h.spec_idx() as int) == pre.count_at(h.spec_idx() as int) + 1
        &&& forall|j: int| 0 <= j < pre.len() ==> post.gen_at(j) == pre.gen_at(j)
        &&& forall|j: int|
            0 <= j < pre.len() && j != h.spec_idx() ==> post.value_at(j) == pre.value_at(j)
                && post.count_at(j) == pre.count_at(j)
    }

    /// How `release` changes the pool: the slot's counter falls by one; when
    /// it reaches zero the slot is vacated, its value is handed back, and its
    /// index joins the free list as the freshest entry.
    pub open spec fn release_transition(
        pre: Self,
        post: Self,
        h: ResourceRef<T>,
        r: Option<T>,
    ) -> bool {
        &&& post.owner_id() == pre.owner_id()
        &&& post.len() == pre.len()
        &&& forall|j: int| 0 <= j < pre.len() ==> post.gen_at(j) == pre.gen_at(j)
        &&& forall|j: int|
            0 <= j < pre.len() && j != h.spec_idx() ==> post.value_at(j) == pre.value_at(j)
                && post.count_at(j) == pre.count_at(j)
        &&& if pre.count_at(h.spec_idx() as int) == 1 {
            &&& r == pre.value_at(h.spec_idx() as int)
            &&& !post.occupied(h.spec_idx() as int)
            &&& post.free_list() == pre.free_list().push(h.spec_idx() as int)
        } else {
            &&& r is None
            &&& post.value_at(h.spec_idx() as int) == pre.value_at(h.spec_idx() as int)
            &&& post.count_at(h.spec_idx() as int) == pre.count_at(h.spec_idx() as int) - 1
            &&& post.free_list() == pre.free_list()
        }
    }

    /// A pool keeps its invariant whenever an operation moves neither its
    /// free list nor which slots are occupied, and leaves no occupied slot
    /// without a live handle.
    proof fn lemma_wf_shape(pre: Self, post: Self)
        requires
            pre.wf(),
            post.gens_consistent(),
            post.len() == pre.len(),
            post.free_list() == pre.free_list(),
            forall|i: int|
                0 <= i < pre.len() ==> ((#[trigger] post.occupied(i)) <==> pre.occupied(i)),
            forall|i: int|
                0 <= i < pre.len() && (#[trigger] post.occupied(i)) ==> post.count_at(i) >= 1,
        ensures
            post.wf(),
    {
        assert forall|k: int|
            0 <= k < post.free_list().len() implies 0 <= (#[trigger] post.free_list()[k])
            < post.len() && !post.occupied(post.free_list()[k]) by {
            assert(0 <= pre.free_list()[k] < pre.len());
            assert(!pre.occupied(pre.free_list()[k]));
        }
        assert forall|i: int|
            0 <= i < post.len() && !(#[trigger] post.occupied(i)) implies post.free_list().contains(
            i,
        ) by {
            assert(!pre.occupied(i));
            assert(pre.free_list().contains(i));
        }
    }

    /// The invariant survives filling the last free-listed slot.
    proof fn lemma_wf_after_fill(pre: Self, post: Self, idx: int)
        requires
            pre.wf(),
            post.gens_consistent(),
            pre.free_list().len() > 0,
            idx == pre.free_list().last(),
            post.len() == pre.len(),
            post.free_list() == pre.free_list().drop_last(),
            post.occupied(idx),
            post.count_at(idx) >= 1,
            forall|j: int|
                0 <= j < pre.len() && j != idx ==> post.value_at(j) == pre.value_at(j)
                    && post.count_at(j) == pre.count_at(j),
        ensures
            post.wf(),
    {
        let last = pre.free_list().len() - 1;
        assert forall|k: int|
            0 <= k < post.free_list().len() implies 0 <= (#[trigger] post.free_list()[k])
            < post.len() && !post.occupied(post.free_list()[k]) by {
            assert(post.free_list()[k] == pre.free_list()[k]);
            assert(pre.free_list()[k] != pre.free_list()[last]);
            assert(!pre.occupied(pre.free_list()[k]));
        }
        assert forall|i: int|
            0 <= i < post.len() && !(#[trigger] post.occupied(i)) implies post.free_list().contains(
            i,
        ) by {
            assert(!pre.occupied(i));
            assert(pre.free_list().contains(i));
            let k = choose|k: int| 0 <= k < pre.free_list().len() && pre.free_list()[k] == i;
            if k == last {
                assert(pre.free_list()[k] == idx);
                assert(false);
            }
            assert(post.free_list()[k] == i);
        }
        assert forall|k1: int, k2: int|
            #![trigger post.free_list()[k1], post.free_list()[k2]]
            0 <= k1 < k2 < post.free_list().len() implies post.free_list()[k1]
            != post.free_list()[k2] by {
            assert(post.free_list()[k1] == pre.free_list()[k1]);
            assert(post.free_list()[k2] == pre.free_list()[k2]);
            assert(pre.free_list()[k1] != pre.free_list()[k2]);
        }
        assert forall|i: int|
            0 <= i < post.len() && (#[trigger] post.occupied(i)) implies post.count_at(i) >= 1 by {
            if i != idx {
                assert(pre.occupied(i));
            }
        }
    }

    /// The invariant survives appending one occupied slot.
    proof fn lemma_wf_after_append(pre: Self, post: Self)
        requires
            pre.wf(),
            post.gens_consistent(),
            post.len() == pre.len() + 1,
            post.free_list() == pre.free_list(),
            post.occupied(pre.len() as int),
            post.count_at(pre.len() as int) >= 1,
            forall|j: int|
                0 <= j < pre.len() ==> post.value_at(j) == pre.value_at(j) && post.count_at(j)
                    == pre.count_at(j),
        ensures
            post.wf(),
    {
        assert forall|k: int|
            0 <= k < post.free_list().len() implies 0 <= (#[trigger] post.free_list()[k])
            < post.len() && !post.occupied(post.free_list()[k]) by {
            assert(0 <= pre.free_list()[k] < pre.len());
            assert(!pre.occupied(pre.free_list()[k]));
        }
        assert forall|i: int|
            0 <= i < post.len() && !(#[trigger] post.occupied(i)) implies post.free_list().contains(
            i,
        ) by {
            assert(i != pre.len());
            assert(!pre.occupied(i));
            assert(pre.free_list().contains(i));
        }
        assert forall|k1: int, k2: int|
            #![trigger post.free_list()[k1], post.free_list()[k2]]
            0 <= k1 < k2 < post.free_list().len() implies post.free_list()[k1]
            != post.free_list()[k2] by {
            assert(pre.free_list()[k1] != pre.free_list()[k2]);
        }
        assert forall|i: int|
            0 <= i < post.len() && (#[trigger] post.occupied(i)) implies post.count_at(i) >= 1 by {
            if i < pre.len() {
                assert(pre.occupied(i));
            }
        }
    }

    /// The invariant survives vacating an occupied slot and free-listing its
    /// index.
    proof fn lemma_wf_after_vacate(pre: Self, post: Self, idx: int)
        requires
            pre.wf(),
            post.gens_consistent(),
            0 <= idx < pre.len(),
            pre.occupied(idx),
            post.len() == pre.len(),
            post.free_list() == pre.free_list().push(idx),
            !post.occupied(idx),
            forall|j: int|
                0 <= j < pre.len() && j != idx ==> post.value_at(j) == pre.value_at(j)
                    && post.count_at(j) == pre.count_at(j),
        ensures
            post.wf(),
    {
        let n = pre.free_list().len();
        assert forall|k: int|
            0 <= k < post.free_list().len() implies 0 <= (#[trigger] post.free_list()[k])
            < post.len() && !post.occupied(post.free_list()[k]) by {
            if k < n {
                assert(post.free_list()[k] == pre.free_list()[k]);
                assert(!pre.occupied(pre.free_list()[k]));
                assert(pre.free_list()[k] != idx);
            } else {
                assert(post.free_list()[k] == idx);
            }
        }
        assert forall|k1: int, k2: int|
            #![trigger post.free_list()[k1], post.free_list()[k2]]
            0 <= k1 < k2 < post.free_list().len() implies post.free_list()[k1]
            != post.free_list()[k2] by {
            if k2 == n {
                assert(post.free_list()[k1] == pre.free_list()[k1]);
                assert(!pre.occupied(pre.free_list()[k1]));
                assert(post.free_list()[k2] == idx);
            } else {
                assert(pre.free_list()[k1] != pre.free_list()[k2]);
            }
        }
        assert forall|i: int|
            0 <= i < post.len() && !(#[trigger] post.occupied(i)) implies post.free_list().contains(
            i,
        ) by {
            if i == idx {
                assert(post.free_list()[n as int] == idx);
            } else {
                assert(!pre.occupied(i));
                assert(pre.free_list().contains(i));
                let k = choose|k: int| 0 <= k < n && pre.free_list()[k] == i;
                assert(post.free_list()[k] == i);
            }
        }
        assert forall|i: int|
            0 <= i < post.len() && (#[trigger] post.occupied(i)) implies post.count_at(i) >= 1 by {
            assert(i != idx);
            assert(pre.occupied(i));
        }
    }

    /// An empty pool for the anonymous scope.
    pub fn new() -> (p: Self)
        ensures
            p.wf(),
            p.len() == 0,
            p.free_list().len() == 0,
            p.owner_id() == 0,
    {
        ResourcePool { entries: Vec::new(), gens: Vec::new(), free_indices: Vec::new(), owner: 0 }
    }

    /// An empty pool whose handles will carry `owner` as their provenance.
    pub fn new_with_owner(owner: u64) -> (p: Self)
        ensures
            p.wf(),
            p.len() == 0,
            p.free_list().len() == 0,
            p.owner_id() == owner,
    {
        ResourcePool { entries: Vec::new(), gens: Vec::new(), free_indices: Vec::new(), owner }
    }

    /// Stores `res` in a vacant slot — the most recently freed one when the
    /// free list is non-empty, a fresh one otherwise — and returns a handle
    /// to it with a liveness count of one.
    pub fn add(&mut self, res: T) -> (h: ResourceRef<T>)
        requires
            old(self).wf(),
        ensures
            final(self).wf(),
            Self::add_transition(*old(self), *final(self), h, res),
            final(self).valid_ref(h),
    {
        let idx: usize;
        let gen: u64;
        if self.free_indices.len() == 0 {
            self.entries.push(Slot::Occupied { value: res, ref_cnt: 1 });
            self.gens.push(0);
            gen = 0;
            idx = self.entries.len() - 1;
            proof {
                Self::lemma_wf_after_append(*old(self), *self);
            }
        } else {
            proof {
                assert(0 <= old(self).free_list()[old(self).free_list().len() - 1] < old(
                    self,
                ).len());
            }
            idx = self.free_indices.pop().unwrap();
            let g = self.gens[idx];
            gen = if g < u64::MAX {
                g + 1
            } else {
                g
            };
            let gen_slot = &mut self.gens[idx];
            *gen_slot = gen;
            let slot = &mut self.entries[idx];
            *slot = Slot::Occupied { value: res, ref_cnt: 1 };
            proof {
                assert(self.free_list() =~= old(self).free_list().drop_last());
                Self::lemma_wf_after_fill(*old(self), *self, idx as int);
            }
        }
        ResourceRef { idx, gen, owner: self.owner, marker: PhantomData }
    }

    /// Borrows the value `res_ref` refers to. Access with a stale handle or
    /// one whose slot is vacant or out of range is a programmer error: it is
    /// excluded up front, and the in-range and generation checks make any
    /// such access from unverified surroundings fail fatally rather than
    /// yield another resource's data.
    pub fn get(&self, res_ref: &ResourceRef<T>) -> (r: &T)
        requires
            self.gens_consistent(),
            self.valid_ref(*res_ref),
        ensures
            self.value_at(res_ref.spec_idx() as int) == Some(*r),
    {
        let idx = res_ref.idx();
        if idx < self.entries.len() && self.gens[idx] == res_ref.generation() {
            match &self.entries[idx] {
                Slot::Occupied { value, .. } => value,
                Slot::Vacant => unreached(),
            }
        } else {
            unreached()
        }
    }

    /// Mutably borrows the value `res_ref` refers to; the slot keeps its
    /// counter and every other slot is untouched.
    pub fn get_mut(&mut self, res_ref: &ResourceRef<T>) -> (r: &mut T)
        requires
            old(self).wf(),
            old(self).valid_ref(*res_ref),
        ensures
            old(self).value_at(res_ref.spec_idx() as int) == Some(*r),
            final(self).value_at(res_ref.spec_idx() as int) == Some(*final(r)),
            final(self).wf(),
            final(self).len() == old(self).len(),
            final(self).owner_id() == old(self).owner_id(),
            final(self).free_list() == old(self).free_list(),
            final(self).count_at(res_ref.spec_idx() as int) == old(self).count_at(
                res_ref.spec_idx() as int,
            ),
            forall|j: int|
                0 <= j < old(self).len() ==> final(self).gen_at(j) == old(self).gen_at(j),
            forall|j: int|
                0 <= j < old(self).len() && j != res_ref.spec_idx() ==> final(self).value_at(j)
                    == old(self).value_at(j) && final(self).count_at(j) == old(self).count_at(j),
    {
        let idx = res_ref.idx();
        if idx < self.entries.len() && self.gens[idx] == res_ref.generation() {
            let slot = &mut self.entries[idx];
            let r = slot_value_mut(slot);
            proof {
                assert forall|i: int|
                    0 <= i < old(self).len() implies ((#[trigger] after_borrow(*self).occupied(i))
                    <==> old(self).occupied(i)) by {}
                Self::lemma_wf_shape(*old(self), after_borrow(*self));
            }
            r
        } else {
            unreached()
        }
    }

    /// The liveness counter of the slot `res_ref` refers to.
    pub fn ref_count(&self, res_ref: &ResourceRef<T>) -> (n: u32)
        requires
            self.gens_consistent(),
            self.valid_ref(*res_ref),
        ensures
            n == self.count_at(res_ref.spec_idx() as int),
    {
        let idx = res_ref.idx();
        if idx < self.entries.len() && self.gens[idx] == res_ref.generation() {
            match &self.entries[idx] {
                Slot::Occupied { ref_cnt, .. } => *ref_cnt,
                Slot::Vacant => unreached(),
            }
        } else {
            unreached()
        }
    }

    /// Duplicates `res_ref`: one more live handle to the same slot, and the
    /// slot's counter rises by exactly one.
    pub fn clone_handle(&mut self, res_ref: &ResourceRef<T>) -> (h: ResourceRef<T>)
        requires
            old(self).wf(),
            old(self).valid_ref(*res_ref),
            old(self).count_at(res_ref.spec_idx() as int) < u32::MAX,
        ensures
            final(self).wf(),
            Self::clone_transition(*old(self), *final(self), *res_ref),
            h.spec_idx() == res_ref.spec_idx(),
            h.spec_owner() == res_ref.spec_owner(),
            final(self).valid_ref(h),
    {
        let idx = res_ref.idx();
        if idx < self.entries.len() && self.gens[idx] == res_ref.generation() {
            match &mut self.entries[idx] {
                Slot::Occupied { ref_cnt, .. } => {
                    *ref_cnt = *ref_cnt + 1;
                },
                Slot::Vacant => unreached(),
            }
            proof {
                assert forall|i: int|
                    0 <= i < old(self).len() implies ((#[trigger] self.occupied(i)) <==> old(
                    self).occupied(i)) by {}
                Self::lemma_wf_shape(*old(self), *self);
            }
            ResourceRef {
                idx,
                gen: res_ref.generation(),
                owner: res_ref.owner(),
                marker: PhantomData,
            }
        } else {
            unreached()
        }
    }

    /// Whether `res_ref` refers to an occupied slot of this pool under its
    /// current generation — false for a handle that outlived a free and
    /// reuse of its slot.
    pub fn holds(&self, res_ref: &ResourceRef<T>) -> (b: bool)
        requires
            self.wf(),
        ensures
            b == self.valid_ref(*res_ref),
    {
        let idx = res_ref.idx();
        if idx < self.entries.len() {
            match &self.entries[idx] {
                Slot::Occupied { .. } => self.gens[idx] == res_ref.generation(),
                Slot::Vacant => false,
            }
        } else {
            false
        }
    }

    /// Replaces the value `res_ref` refers to by what `f` makes of it; the
    /// slot keeps its counter and every other slot is untouched.
    pub fn update_with<F: FnOnce(T) -> T>(&mut self, res_ref: &ResourceRef<T>, f: F)
        requires
            old(self).wf(),
            old(self).valid_ref(*res_ref),
            forall|v: T| #[trigger] f.requires((v,)),
        ensures
            final(self).wf(),
            final(self).len() == old(self).len(),
            final(self).owner_id() == old(self).owner_id(),
            final(self).free_list() == old(self).free_list(),
            final(self).count_at(res_ref.spec_idx() as int) == old(self).count_at(
                res_ref.spec_idx() as int,
            ),
            forall|j: int|
                0 <= j < old(self).len() ==> final(self).gen_at(j) == old(self).gen_at(j),
            forall|j: int|
                0 <= j < old(self).len() && j != res_ref.spec_idx() ==> final(self).value_at(j)
                    == old(self).value_at(j) && final(self).count_at(j) == old(self).count_at(j),
            (old(self).value_at(res_ref.spec_idx() as int) matches Some(v0) && (final(
                self).value_at(res_ref.spec_idx() as int) matches Some(v1) && f.ensures(
                (v0,),
                v1,
            ))),
    {
        let idx = res_ref.idx();
        if idx < self.entries.len() && self.gens[idx] == res_ref.generation() {
            let mut taken = Slot::Vacant;
            let entry = &mut self.entries[idx];
            core::mem::swap(&mut taken, entry);
            let (v0, cnt) = match taken {
                Slot::Occupied { value, ref_cnt } => (value, ref_cnt),
                Slot::Vacant => unreached(),
            };
            let v1 = f(v0);
            let entry = &mut self.entries[idx];
            *entry = Slot::Occupied { value: v1, ref_cnt: cnt };
            proof {
                assert forall|i: int|
                    0 <= i < old(self).len() implies ((#[trigger] self.occupied(i)) <==> old(
                    self).occupied(i)) by {}
                Self::lemma_wf_shape(*old(self), *self);
            }
        } else {
            unreached()
        }
    }

    /// Discards `res_ref`: the slot's counter falls by exactly one. When the
    /// last handle is discarded the slot is vacated, its value handed back,
    /// and its index becomes the freshest free-list entry.
    pub fn release(&mut self, res_ref: ResourceRef<T>) -> (r: Option<T>)
        requires
            old(self).wf(),
            old(self).valid_ref(res_ref),
        ensures
            final(self).wf(),
            Self::release_transition(*old(self), *final(self), res_ref, r),
    {
        let idx = res_ref.idx();
        if !(idx < self.entries.len() && self.gens[idx] == res_ref.generation()) {
            return unreached();
        }
        let cnt = match &self.entries[idx] {
            Slot::Occupied { ref_cnt, .. } => *ref_cnt,
            Slot::Vacant => unreached(),
        };
        if cnt == 1 {
            let mut slot = Slot::Vacant;
            let entry = &mut self.entries[idx];
            core::mem::swap(&mut slot, entry);
            self.free_indices.push(idx);
            proof {
                assert(self.free_list() =~= old(self).free_list().push(idx as int));
                Self::lemma_wf_after_vacate(*old(self), *self, idx as int);
            }
            match slot {
                Slot::Occupied { value, .. } => Some(value),
                Slot::Vacant => unreached(),
            }
        } else {
            match &mut self.entries[idx] {
                Slot::Occupied { ref_cnt, .. } => {
                    *ref_cnt = *ref_cnt - 1;
                },
                Slot::Vacant => unreached(),
            }
            proof {
                assert forall|i: int|
                    0 <= i < old(self).len() implies ((#[trigger] self.occupied(i)) <==> old(
                    self).occupied(i)) by {}
                Self::lemma_wf_shape(*old(self), *self);
            }
            None
        }
    }
}

/// Round trip through the pool: the value just stored by `add` is exactly
/// the value its handle refers to afterwards, so a lookup of that handle
/// yields it back.
pub proof fn lemma_pool_round_trip<T>(
    pre: ResourcePool<T>,
    post: ResourcePool<T>,
    h: ResourceRef<T>,
    v: T,
)
    requires
        pre.wf(),
        ResourcePool::add_transition(pre, post, h, v),
    ensures
        post.valid_ref(h),
        post.value_at(h.spec_idx() as int) == Some(v),
{
}

/// LIFO reuse: when discarding the last handle vacates a slot, the next
/// `add` stores into that same slot again instead of growing the pool.
pub proof fn lemma_lifo_reuse<T>(
    p0: ResourcePool<T>,
    p1: ResourcePool<T>,
    p2: ResourcePool<T>,
    h: ResourceRef<T>,
    r: Option<T>,
    h2: ResourceRef<T>,
    v: T,
)
    requires
        p0.wf(),
        p0.valid_ref(h),
        p0.count_at(h.spec_idx() as int) == 1,
        ResourcePool::release_transition(p0, p1, h, r),
        ResourcePool::add_transition(p1, p2, h2, v),
    ensures
        h2.spec_idx() == h.spec_idx(),
        p2.len() == p1.len(),
{
    assert(p1.free_list() == p0.free_list().push(h.spec_idx() as int));
    assert(p1.free_list().last() == h.spec_idx() as int);
}

/// Stale handles are detected: when discarding the last handle vacates a
/// slot and `add` then reuses it, any handle still bearing the slot's old
/// generation — one minted before the free, or rebuilt from a stored index —
/// no longer resolves, while the freshly issued handle does. Detection
/// saturates only once a slot has been reused `u64::MAX` times.
pub proof fn lemma_stale_handle_detected<T>(
    p0: ResourcePool<T>,
    p1: ResourcePool<T>,
    p2: ResourcePool<T>,
    h: ResourceRef<T>,
    r: Option<T>,
    h2: ResourceRef<T>,
    v: T,
)
    requires
        p0.wf(),
        p0.valid_ref(h),
        p0.count_at(h.spec_idx() as int) == 1,
        p0.gen_at(h.spec_idx() as int) < u64::MAX,
        ResourcePool::release_transition(p0, p1, h, r),
        ResourcePool::add_transition(p1, p2, h2, v),
    ensures
        h2.spec_idx() == h.spec_idx(),
        !p2.valid_ref(h),
        p2.valid_ref(h2),
{
    assert(p1.free_list() == p0.free_list().push(h.spec_idx() as int));
    assert(p1.free_list().last() == h.spec_idx() as int);
    assert(p2.gen_at(h.spec_idx() as int) == next_gen(p0.gen_at(h.spec_idx() as int)));
}

/// One step in the lifecycle of a handle lineage: duplicating one live
/// handle, or discarding one.
pub enum HandleOp {
    Duplicate,
    Discard,
}

/// The liveness counter after a sequence of lifecycle steps, starting from
/// the single freshly-issued handle: each duplication raises it by one, each
/// discard lowers it by one — exactly what `clone_handle` and `release`
/// guarantee for the slot's counter.
pub open spec fn counter_after(ops: Seq<HandleOp>) -> int
    decreases ops.len(),
{
    if ops.len() == 0 {
        1
    } else {
        counter_after(ops.drop_last()) + (if ops.last() is Duplicate {
            1int
        } else {
            -1int
        })
    }
}

/// The number of duplications in a sequence of lifecycle steps.
pub open spec fn duplications_in(ops: Seq<HandleOp>) -> int
    decreases ops.len(),
{
    if ops.len() == 0 {
        0
    } else {
        duplications_in(ops.drop_last()) + (if ops.last() is Duplicate {
            1int
        } else {
            0int
        })
    }
}

/// The number of discards in a sequence of lifecycle steps.
pub open spec fn discards_in(ops: Seq<HandleOp>) -> int
    decreases ops.len(),
{
    if ops.len() == 0 {
        0
    } else {
        discards_in(ops.drop_last()) + (if ops.last() is Discard {
            1int
        } else {
            0int
        })
    }
}

/// The handle copies alive after a sequence of lifecycle steps: the one the
/// pool issued, plus one per duplication, minus one per discard.
pub open spec fn live_handles_after(ops: Seq<HandleOp>) -> int {
    1 + duplications_in(ops) - discards_in(ops)
}

/// The counting discipline is exact: after any sequence of duplications and
/// discards on one handle lineage, the liveness counter equals the number of
/// live handle copies. Every prefix of a sequence is itself such a sequence,
/// so the two agree at every intermediate point as well.
pub proof fn lemma_counter_tracks_live_handles(ops: Seq<HandleOp>)
    ensures
        counter_after(ops) == live_handles_after(ops),
    decreases ops.len(),
{
    if ops.len() > 0 {
        lemma_counter_tracks_live_handles(ops.drop_last());
    }
}

} // verus!
