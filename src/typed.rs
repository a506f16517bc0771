//! A pool whose slots are shaped for one type of value.
use vstd::prelude::*;
use vstd::layout::{align_of, size_of};
use core::marker::PhantomData;
use crate::handle::Handle;
use crate::layout::{Layout, LayoutError, larger, lemma_round_up};
use crate::pool::{AllocError, MemoryPool, PoolState, pool_fits, slot_align_for, slot_size_for};

verus! {

/// A pool of slots for values of type `T`.
pub struct TypedPool<T> {
    pool: MemoryPool,
    marker: PhantomData<T>,
}

impl<T> View for TypedPool<T> {
    type V = PoolState;

    closed spec fn view(&self) -> PoolState {
        self.pool@
    }
}

/// The slots shaped for values of type `T` fit such values.
proof fn lemma_slot_fits<T>()
    ensures
        slot_size_for(size_of::<T>(), align_of::<T>()) >= size_of::<T>(),
        slot_align_for(align_of::<T>()) >= align_of::<T>(),
{
    broadcast use vstd::layout::align_nonzero;

    assert(align_of::<usize>() > 0);
    lemma_round_up(
        larger(size_of::<T>(), size_of::<usize>()),
        slot_align_for(align_of::<T>()),
    );
}

impl<T> TypedPool<T> {
    /// The inner pool is well formed and its slots fit values of type `T`.
    pub closed spec fn wf(&self) -> bool {
        &&& self.pool.wf()
        &&& self.pool@.accepts(size_of::<T>(), align_of::<T>())
    }

    /// The abstract state of a well-formed pool is consistent.
    pub proof fn lemma_wf(&self)
        requires
            self.wf(),
        ensures
            self@.wf(),
            self@.accepts(size_of::<T>(), align_of::<T>()),
    {
        self.pool.lemma_wf();
    }

    /// A pool of `capacity` slots for values of type `T`, where its region
    /// can be laid out.
    pub fn try_new(capacity: usize) -> (r: Result<TypedPool<T>, LayoutError>)
        ensures
            r is Ok <==> pool_fits(capacity as nat, size_of::<T>(), align_of::<T>()),
            r matches Ok(p) ==> p.wf() && p@ == PoolState::fresh(
                slot_size_for(size_of::<T>(), align_of::<T>()),
                slot_align_for(align_of::<T>()),
                capacity as nat,
            ),
    {
        proof {
            lemma_slot_fits::<T>();
        }
        match MemoryPool::try_new(capacity, Layout::new::<T>()) {
            Ok(pool) => Ok(TypedPool { pool, marker: PhantomData }),
            Err(e) => Err(e),
        }
    }

    /// A pool of `capacity` slots for values of type `T`.
    pub fn new(capacity: usize) -> (r: TypedPool<T>)
        requires
            pool_fits(capacity as nat, size_of::<T>(), align_of::<T>()),
        ensures
            r.wf(),
            r@ == PoolState::fresh(
                slot_size_for(size_of::<T>(), align_of::<T>()),
                slot_align_for(align_of::<T>()),
                capacity as nat,
            ),
    {
        match TypedPool::try_new(capacity) {
            Ok(p) => p,
            Err(_) => vstd::pervasive::unreached(),
        }
    }

    /// The number of slots.
    pub fn capacity(&self) -> (r: usize)
        ensures
            r == self@.capacity,
    {
        self.pool.capacity()
    }

    /// Places `value` in the slot at the cursor; fails where no slot is left.
    pub fn try_allocate(&mut self, value: T) -> (r: Result<Handle<T>, AllocError>)
        requires
            old(self).wf(),
        ensures
            final(self).wf(),
            r is Ok <==> old(self)@.can_allocate(),
            r matches Ok(h) ==> h.spec_addr() == old(self)@.cursor() && h.spec_value() == value
                && final(self)@ == old(self)@.after_alloc(),
            r is Err ==> final(self)@ == old(self)@,
    {
        Handle::try_new_in(value, &mut self.pool)
    }

    /// Places `value` in the slot at the cursor, where one is left.
    pub fn allocate(&mut self, value: T) -> (h: Handle<T>)
        requires
            old(self).wf(),
            old(self)@.can_allocate(),
        ensures
            final(self).wf(),
            final(self)@ == old(self)@.after_alloc(),
            h.spec_addr() == old(self)@.cursor(),
            h.spec_value() == value,
    {
        Handle::new_in(value, &mut self.pool)
    }

    /// Gives the slot of `handle` back, where it is handed out, and returns
    /// its value.
    pub fn free(&mut self, handle: Handle<T>) -> (r: T)
        requires
            old(self).wf(),
            old(self)@.is_live(handle.spec_addr()),
        ensures
            final(self).wf(),
            final(self)@ == old(self)@.after_free(handle.spec_addr()),
            r == handle.spec_value(),
    {
        handle.free(&mut self.pool)
    }
}

} // verus!
