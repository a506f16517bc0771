//! A fixed-capacity pool of equally shaped slots, handed out and taken back
//! in constant time through a free list threaded through the unused slots.
//!
//! The pool fixes its slot shape at construction: the requested shape widened
//! to hold one machine word (the free-list link of an unused slot) and padded
//! to its alignment. It never grows. Slots are named by their byte offset in
//! the pool's region of `capacity * slot size` bytes; a value placed in a
//! slot is kept by the handle that names the slot.
//!
//! - [`layout`]: sizes and alignments, and the slot layout made from them.
//! - [`pool`]: the pool, its abstract state and the laws of its free list.
//! - [`handle`]: a value together with the slot it occupies.
//! - [`typed`]: a pool whose slots are shaped for one type of value.
pub mod layout;
pub mod pool;
pub mod handle;
pub mod typed;
