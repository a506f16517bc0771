//! A value together with the pool slot that it occupies.
use vstd::prelude::*;
use vstd::layout::{align_of, size_of};
use crate::layout::Layout;
use crate::pool::{AllocError, MemoryPool};

verus! {

/// A value placed in a pool slot. Only one handle names a slot while it is
/// handed out; [`Handle::free`] gives the slot back and returns the value.
pub struct Handle<T> {
    addr: usize,
    value: T,
}

impl<T> Handle<T> {
    /// The address of the slot.
    pub closed spec fn spec_addr(&self) -> nat {
        self.addr as nat
    }

    /// The value held.
    pub closed spec fn spec_value(&self) -> T {
        self.value
    }

    /// Places `value` in a slot of `pool`; fails where the pool has no slot
    /// left or the value's type does not fit in a slot.
    pub fn try_new_in(value: T, pool: &mut MemoryPool) -> (r: Result<Handle<T>, AllocError>)
        requires
            old(pool).wf(),
        ensures
            final(pool).wf(),
            r is Ok <==> old(pool)@.accepts(size_of::<T>(), align_of::<T>())
                && old(pool)@.can_allocate(),
            r matches Ok(h) ==> h.spec_addr() == old(pool)@.cursor() && h.spec_value() == value
                && final(pool)@ == old(pool)@.after_alloc(),
            r is Err ==> final(pool)@ == old(pool)@,
    {
        match pool.allocate(Layout::new::<T>()) {
            Ok(block) => Ok(Handle { addr: block.addr, value }),
            Err(e) => Err(e),
        }
    }

    /// Places `value` in a slot of `pool`, which has one left and whose slots
    /// fit the value's type.
    pub fn new_in(value: T, pool: &mut MemoryPool) -> (h: Handle<T>)
        requires
            old(pool).wf(),
            old(pool)@.can_allocate(),
            old(pool)@.accepts(size_of::<T>(), align_of::<T>()),
        ensures
            final(pool).wf(),
            final(pool)@ == old(pool)@.after_alloc(),
            h.spec_addr() == old(pool)@.cursor(),
            h.spec_value() == value,
    {
        match Handle::try_new_in(value, pool) {
            Ok(h) => h,
            Err(_) => vstd::pervasive::unreached(),
        }
    }

    /// The address of the slot.
    pub fn addr(&self) -> (r: usize)
        ensures
            r == self.spec_addr(),
    {
        self.addr
    }

    /// The value held.
    pub fn get(&self) -> (r: &T)
        ensures
            *r == self.spec_value(),
    {
        &self.value
    }

    /// Replaces the value held, returning the previous one.
    pub fn replace(&mut self, value: T) -> (r: T)
        ensures
            r == old(self).spec_value(),
            final(self).spec_value() == value,
            final(self).spec_addr() == old(self).spec_addr(),
    {
        let mut previous = value;
        core::mem::swap(&mut self.value, &mut previous);
        previous
    }

    /// Gives the slot back to `pool`, where it is handed out, and returns
    /// the value.
    pub fn free(self, pool: &mut MemoryPool) -> (r: T)
        requires
            old(pool).wf(),
            old(pool)@.is_live(self.spec_addr()),
            old(pool)@.accepts(size_of::<T>(), align_of::<T>()),
        ensures
            final(pool).wf(),
            final(pool)@ == old(pool)@.after_free(self.spec_addr()),
            r == self.spec_value(),
    {
        pool.deallocate(self.addr, Layout::new::<T>());
        self.value
    }

    /// Splits the handle into the slot's address and the value, leaving the
    /// slot handed out.
    pub fn into_raw(self) -> (r: (usize, T))
        ensures
            r.0 == self.spec_addr(),
            r.1 == self.spec_value(),
    {
        (self.addr, self.value)
    }

    /// Joins a slot's address and a value into a handle. The caller keeps
    /// to one handle per slot.
    pub fn from_raw(addr: usize, value: T) -> (h: Handle<T>)
        ensures
            h.spec_addr() == addr,
            h.spec_value() == value,
    {
        Handle { addr, value }
    }
}

} // verus!
