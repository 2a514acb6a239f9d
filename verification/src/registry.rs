//! A scope's registry of resources of one type.
//!
//! Rather than ambient, thread-local state, a [`ResourceRegistry`] is an
//! explicit context object: it is owned by one scope (typically one thread's
//! engine loop), carries that scope's identity, and lazily creates its pool
//! on first insertion. Because callers reach the registry only through
//! `&mut`, at most one access is ever active — exclusive access needs no
//! dynamic borrow check, and reentrant access cannot be expressed at all.
//!
//! Handles record the identity of the scope that issued them, and every
//! lookup checks it: a handle carried to another scope's registry fails with
//! [`RegistryError::NotFound`] instead of silently resolving against the
//! wrong pool.

use vstd::prelude::*;
use crate::pool::ResourcePool;
use crate::pool::ResourceRef;

verus! {

/// Why a registry operation could not reach a resource.
#[derive(Debug, PartialEq, Eq, Structural, Clone, Copy)]
pub enum RegistryError {
    /// The handle was issued by a different scope, or this scope has no pool
    /// for the resource type yet.
    NotFound,
    /// The handle belongs to this scope, but its slot is vacant or out of
    /// range.
    InvalidHandle,
}

/// One scope's pool of resources of type `T`, created lazily on first use.
pub struct ResourceRegistry<T> {
    owner: u64,
    pool: Option<ResourcePool<T>>,
}

impl<T> ResourceRegistry<T> {
    /// The identity of the scope that owns this registry.
    pub closed spec fn owner_id(self) -> u64 {
        self.owner
    }

    /// The registry's pool, or `None` while nothing has been added yet.
    pub closed spec fn spec_pool(self) -> Option<ResourcePool<T>> {
        self.pool
    }

    /// The registry's invariant: its pool, once created, keeps the pool
    /// invariant and stamps handles with this registry's scope identity.
    pub open spec fn wf(self) -> bool {
        self.spec_pool() matches Some(p) ==> p.wf() && p.owner_id() == self.owner_id()
    }

    /// `h` can be resolved by this registry: this scope issued it and it
    /// refers to an occupied slot of this scope's pool.
    pub open spec fn resolves(self, h: ResourceRef<T>) -> bool {
        &&& h.spec_owner() == self.owner_id()
        &&& self.spec_pool() matches Some(p) && p.valid_ref(h)
    }

    /// An empty registry for the scope identified by `owner`.
    pub fn new(owner: u64) -> (reg: Self)
        ensures
            reg.wf(),
            reg.owner_id() == owner,
            reg.spec_pool() is None,
    {
        ResourceRegistry { owner, pool: None }
    }
}

/// Stores `res` in the calling scope's pool for `T` — created on this first
/// use if need be — and returns a handle stamped with the scope's identity.
pub fn add_local_resource<T>(registry: &mut ResourceRegistry<T>, res: T) -> (h: ResourceRef<T>)
    requires
        old(registry).wf(),
    ensures
        final(registry).wf(),
        final(registry).owner_id() == old(registry).owner_id(),
        h.spec_owner() == old(registry).owner_id(),
        final(registry).resolves(h),
        match old(registry).spec_pool() {
            Some(p0) => (final(registry).spec_pool() matches Some(p1)
                && ResourcePool::add_transition(p0, p1, h, res)),
            None => (final(registry).spec_pool() matches Some(p1) && p1.len() == 1
                && p1.value_at(0) == Some(res) && p1.count_at(0) == 1 && p1.gen_at(0) == 0
                && h.spec_idx() == 0 && h.spec_gen() == 0),
        },
{
    if registry.pool.is_none() {
        registry.pool = Some(ResourcePool::new_with_owner(registry.owner));
    }
    match &mut registry.pool {
        Some(pool) => pool.add(res),
        None => unreached(),
    }
}

/// Looks `res_ref` up in the calling scope's pool and replaces the resource
/// it refers to by what `f` makes of it. Fails with `NotFound` when the
/// handle was issued by another scope or no pool exists here, and with
/// `InvalidHandle` when the handle's slot is vacant or out of range.
pub fn with_local_resource<T, F: FnOnce(T) -> T>(
    registry: &mut ResourceRegistry<T>,
    res_ref: &ResourceRef<T>,
    f: F,
) -> (result: Result<(), RegistryError>)
    requires
        old(registry).wf(),
        forall|v: T| #[trigger] f.requires((v,)),
    ensures
        final(registry).wf(),
        final(registry).owner_id() == old(registry).owner_id(),
        result is Ok <==> old(registry).resolves(*res_ref),
        result == Err::<(), RegistryError>(RegistryError::NotFound) <==> (res_ref.spec_owner()
            != old(registry).owner_id() || old(registry).spec_pool() is None),
        !old(registry).resolves(*res_ref) ==> *final(registry) == *old(registry),
        old(registry).resolves(*res_ref) ==> ({
            &&& old(registry).spec_pool() matches Some(p0)
            &&& final(registry).spec_pool() matches Some(p1)
            &&& p1.len() == p0.len()
            &&& p1.free_list() == p0.free_list()
            &&& p1.count_at(res_ref.spec_idx() as int) == p0.count_at(res_ref.spec_idx() as int)
            &&& forall|j: int| 0 <= j < p0.len() ==> p1.gen_at(j) == p0.gen_at(j)
            &&& forall|j: int|
                0 <= j < p0.len() && j != res_ref.spec_idx() ==> p1.value_at(j) == p0.value_at(j)
                    && p1.count_at(j) == p0.count_at(j)
            &&& (p0.value_at(res_ref.spec_idx() as int) matches Some(v0) && (p1.value_at(
                res_ref.spec_idx() as int) matches Some(v1) && f.ensures((v0,), v1)))
        }),
{
    if res_ref.owner() != registry.owner {
        return Err(RegistryError::NotFound);
    }
    match &mut registry.pool {
        None => Err(RegistryError::NotFound),
        Some(pool) => {
            if pool.holds(res_ref) {
                pool.update_with(res_ref, f);
                Ok(())
            } else {
                Err(RegistryError::InvalidHandle)
            }
        },
    }
}

/// Hands the calling scope's whole pool for `T` to `f` for bulk work. Fails
/// with `NotFound` when no pool exists in this scope yet.
pub fn with_local_resource_pool<T, F: FnOnce(ResourcePool<T>) -> ResourcePool<T>>(
    registry: &mut ResourceRegistry<T>,
    f: F,
) -> (result: Result<(), RegistryError>)
    requires
        old(registry).wf(),
        forall|p: ResourcePool<T>| #[trigger] f.requires((p,)),
    ensures
        final(registry).owner_id() == old(registry).owner_id(),
        result is Ok <==> old(registry).spec_pool() is Some,
        old(registry).spec_pool() is None ==> *final(registry) == *old(registry) && result
            == Err::<(), RegistryError>(RegistryError::NotFound),
        old(registry).spec_pool() matches Some(p0) ==> (final(registry).spec_pool() matches Some(
            p1,
        ) && f.ensures((p0,), p1)),
{
    let mut taken: Option<ResourcePool<T>> = None;
    core::mem::swap(&mut taken, &mut registry.pool);
    match taken {
        None => Err(RegistryError::NotFound),
        Some(pool) => {
            let reworked = f(pool);
            registry.pool = Some(reworked);
            Ok(())
        },
    }
}

/// Scope isolation: a handle issued by one scope never resolves in the
/// registry of a different scope — the lookup fails instead of silently
/// yielding that scope's unrelated resource.
pub proof fn lemma_registry_isolation<T>(
    a: ResourceRegistry<T>,
    b: ResourceRegistry<T>,
    h: ResourceRef<T>,
)
    requires
        h.spec_owner() == a.owner_id(),
        a.owner_id() != b.owner_id(),
    ensures
        !b.resolves(h),
{
}

} // verus!
