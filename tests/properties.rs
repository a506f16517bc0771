use memory_pool::handle::Handle;
use memory_pool::layout::{union_layout, Layout, LayoutError};
use memory_pool::pool::{AllocError, Block, MemoryPool};
use memory_pool::typed::TypedPool;
use std::collections::HashSet;
use std::mem::size_of;

const WORD: usize = size_of::<usize>();

#[test]
fn capacity_of_new_pools() {
    for capacity in [0_usize, 1, 7, 1000] {
        assert_eq!(MemoryPool::new(capacity, Layout::new::<u16>()).capacity(), capacity);
        assert_eq!(TypedPool::<u64>::new(capacity).capacity(), capacity);
    }
}

#[test]
fn allocations_are_distinct_and_contained() {
    let capacity = 100_usize;
    let mut pool = MemoryPool::new(capacity, Layout::new::<u64>());
    let slot = pool.slot_layout().size();
    let mut seen = HashSet::new();
    for i in 0..capacity {
        let block = pool.allocate(Layout::new::<u64>()).unwrap();
        assert_eq!(block.addr, i * slot);
        assert_eq!(block.size, slot);
        assert!(pool.contains(block.addr));
        assert!(seen.insert(block.addr));
    }
    assert!(!pool.contains(capacity * slot));
}

#[test]
fn one_more_than_capacity_fails() {
    let mut pool = MemoryPool::new(256, Layout::new::<usize>());
    for _ in 0..256 {
        assert!(pool.allocate(Layout::new::<usize>()).is_ok());
    }
    assert_eq!(pool.allocate(Layout::new::<usize>()), Err(AllocError));

    let mut typed = TypedPool::<usize>::new(256);
    for i in 0..256 {
        assert!(typed.try_allocate(i).is_ok());
    }
    assert!(typed.try_allocate(256).is_err());
}

#[test]
fn empty_pool_has_no_slot() {
    let mut pool = MemoryPool::new(0, Layout::new::<u8>());
    assert_eq!(pool.allocate(Layout::new::<u8>()), Err(AllocError));
    assert!(!pool.contains(0));
}

#[test]
fn freed_slots_come_back_last_first() {
    let mut pool = MemoryPool::new(8, Layout::new::<usize>());
    let layout = Layout::new::<usize>();
    let a = pool.allocate(layout).unwrap();
    let b = pool.allocate(layout).unwrap();
    let c = pool.allocate(layout).unwrap();
    assert_eq!((a.addr, b.addr, c.addr), (0, WORD, 2 * WORD));
    pool.deallocate(a.addr, layout);
    pool.deallocate(c.addr, layout);
    // The last freed first, then the other freed one, then untouched slots.
    assert_eq!(pool.allocate(layout), Ok(Block { addr: c.addr, size: WORD }));
    assert_eq!(pool.allocate(layout), Ok(Block { addr: a.addr, size: WORD }));
    assert_eq!(pool.allocate(layout), Ok(Block { addr: 3 * WORD, size: WORD }));
}

#[test]
fn freed_slot_of_a_full_pool_is_reused() {
    let mut pool = TypedPool::<u32>::new(4);
    let mut handles: Vec<_> = (0..4_u32).map(|i| pool.allocate(i)).collect();
    assert!(pool.try_allocate(9).is_err());
    let freed = handles.remove(1);
    let addr = freed.addr();
    assert_eq!(pool.free(freed), 1);
    let again = pool.allocate(7);
    assert_eq!(again.addr(), addr);
    assert_eq!(*again.get(), 7);
}

#[test]
fn handle_round_trip() {
    let mut pool = MemoryPool::new(4, Layout::new::<String>());
    let mut h = Handle::new_in(String::from("first"), &mut pool);
    assert_eq!(h.get(), "first");
    assert_eq!(h.replace(String::from("second")), "first");
    assert_eq!(h.get(), "second");
    let addr = h.addr();
    assert_eq!(h.free(&mut pool), "second");
    let h2 = Handle::new_in(String::from("third"), &mut pool);
    assert_eq!(h2.addr(), addr);
    assert_eq!(h2.get(), "third");
    let (raw, value) = h2.into_raw();
    assert_eq!(raw, addr);
    let h3 = Handle::from_raw(raw, value);
    assert_eq!(h3.get(), "third");
    assert_eq!(h3.free(&mut pool), "third");
}

#[test]
fn zero_sized_values_take_one_word() {
    let mut pool = MemoryPool::new(16, Layout::new::<()>());
    assert_eq!(pool.slot_layout().size(), WORD);
    assert_eq!(pool.slot_layout().align(), std::mem::align_of::<usize>());
    for i in 0..16 {
        let h = Handle::new_in((), &mut pool);
        assert_eq!(h.addr(), i * WORD);
    }
    assert!(Handle::try_new_in((), &mut pool).is_err());
}

#[test]
fn stricter_layouts_are_rejected() {
    let mut pool = MemoryPool::new(4, Layout::new::<u32>());
    let bigger = Layout::from_size_align(WORD + 1, 1).unwrap();
    assert_eq!(pool.allocate(bigger), Err(AllocError));
    let stricter = Layout::from_size_align(4, 2 * WORD).unwrap();
    assert_eq!(pool.allocate(stricter), Err(AllocError));
    assert!(Handle::try_new_in(0_u128, &mut pool).is_err());
    // Nothing was handed out by the rejected requests.
    assert_eq!(pool.allocate(Layout::new::<u32>()).unwrap().addr, 0);
    // A smaller value takes a whole slot.
    assert_eq!(pool.allocate(Layout::new::<u8>()).unwrap(), Block { addr: WORD, size: WORD });
}

#[test]
fn typed_pool_scenario() {
    let capacity = 256_usize;
    let mut pool = TypedPool::<usize>::new(capacity);
    let mut slots: Vec<Option<Handle<usize>>> = (0..capacity).map(|i| Some(pool.allocate(i))).collect();
    for i in 0..capacity {
        assert_eq!(*slots[i].as_ref().unwrap().get(), i);
    }
    let mut freed = HashSet::new();
    for i in (0..capacity / 2).step_by(2) {
        let h = slots[i].take().unwrap();
        freed.insert(h.addr());
        assert_eq!(pool.free(h), i);
    }
    let fresh: Vec<Handle<usize>> = (0..64).map(|i| pool.allocate(1000 + i)).collect();
    for (i, h) in fresh.iter().enumerate() {
        assert_eq!(*h.get(), 1000 + i);
        assert!(freed.contains(&h.addr()));
    }
    for i in 0..capacity {
        if let Some(h) = &slots[i] {
            assert_eq!(*h.get(), i);
        }
    }
    assert!(pool.try_allocate(0).is_err());
}

#[test]
fn layout_from_size_align() {
    let l = Layout::from_size_align(12, 4).unwrap();
    assert_eq!((l.size(), l.align()), (12, 4));
    assert_eq!(Layout::from_size_align(8, 3), Err(LayoutError));
    assert_eq!(Layout::from_size_align(8, 0), Err(LayoutError));
    assert_eq!(Layout::from_size_align(isize::MAX as usize, 1).unwrap().size(), isize::MAX as usize);
    assert_eq!(Layout::from_size_align(isize::MAX as usize, 2), Err(LayoutError));
    assert_eq!(Layout::from_size_align(isize::MAX as usize + 1, 1), Err(LayoutError));
}

#[test]
fn layout_padding_and_arrays() {
    let l = Layout::from_size_align(5, 4).unwrap();
    let padded = l.pad_to_align();
    assert_eq!((padded.size(), padded.align()), (8, 4));
    let exact = Layout::from_size_align(8, 8).unwrap().pad_to_align();
    assert_eq!(exact.size(), 8);
    let array = l.repeat(3).unwrap();
    assert_eq!((array.size(), array.align()), (24, 4));
    assert_eq!(l.repeat(usize::MAX), Err(LayoutError));
    assert_eq!(l.repeat(0).unwrap().size(), 0);
}

#[test]
fn union_takes_larger_size_and_alignment() {
    let a = Layout::from_size_align(3, 1).unwrap();
    let b = Layout::from_size_align(2, 8).unwrap();
    let u = union_layout(a, b).unwrap();
    assert_eq!((u.size(), u.align()), (3, 8));
    let huge = Layout::from_size_align(isize::MAX as usize, 1).unwrap();
    assert_eq!(union_layout(huge, b), Err(LayoutError));
}

#[test]
fn pools_that_cannot_be_laid_out() {
    assert!(MemoryPool::try_new(usize::MAX, Layout::new::<u8>()).is_err());
    assert!(TypedPool::<u64>::try_new(usize::MAX / 8).is_err());
    let huge = Layout::from_size_align(isize::MAX as usize, 1).unwrap();
    assert!(MemoryPool::try_new(1, huge).is_err());
    assert!(MemoryPool::try_new(3, Layout::new::<u8>()).is_ok());
}

#[test]
fn padded_slots_for_odd_sizes() {
    let l = Layout::from_size_align(WORD + 1, 1).unwrap();
    let mut pool = MemoryPool::new(2, l);
    assert_eq!(pool.slot_layout().size(), 2 * WORD);
    assert_eq!(pool.allocate(l).unwrap().addr, 0);
    assert_eq!(pool.allocate(l).unwrap().addr, 2 * WORD);
    assert!(pool.contains(3 * WORD));
    assert!(!pool.contains(4 * WORD));
}
