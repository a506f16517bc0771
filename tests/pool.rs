use memory_pool::handle::Handle;
use memory_pool::layout::Layout;
use memory_pool::pool::{AllocError, MemoryPool};
use std::vec::Vec;

#[test]
fn capacity_small() {
    let capacity = 2_usize.pow(4);
    let pool = MemoryPool::new(capacity, Layout::new::<usize>());
    assert!(pool.capacity() == capacity);
}

#[test]
fn capacity_large() {
    let capacity = 2_usize.pow(30);
    let pool = MemoryPool::new(capacity, Layout::new::<u32>());
    assert!(pool.capacity() == capacity);
}

#[test]
fn just_allocations() {
    let capacity = 2_usize.pow(8);
    let mut pool = MemoryPool::new(capacity, Layout::new::<usize>());

    let vec: Vec<_> = (0..capacity).map(|i| Handle::new_in(i, &mut pool)).collect();

    for i in 0..capacity {
        assert!(i == *vec[i].get())
    }
}

#[test]
fn out_of_memory() {
    let capacity = 2_usize.pow(8);
    let mut pool = MemoryPool::new(capacity, Layout::new::<usize>());

    let _vec: Vec<_> = (0..capacity).map(|i| Handle::new_in(i, &mut pool)).collect();

    // We are out of memory here
    let result = pool.allocate(Layout::new::<usize>());
    assert_eq!(Err(AllocError), result);
}

#[test]
fn reuse_freed_memory() {
    let capacity = 2_usize.pow(8);
    let mut pool = MemoryPool::new(capacity, Layout::new::<usize>());

    let mut vec: Vec<_> = (0..capacity).map(|i| Handle::new_in(i, &mut pool)).collect();

    // Free one fourth of the allocated entries
    for i in (0..capacity / 2).step_by(2) {
        let handle = vec.swap_remove(i);
        handle.free(&mut pool);
    }

    // Allocate one fourth again.
    let _vec: Vec<_> = (0..capacity / 4).map(|i| Handle::new_in(i, &mut pool)).collect();
}

#[test]
fn zero_sized_types() {
    let capacity = 2_usize.pow(8);
    let mut pool = MemoryPool::new(capacity, Layout::new::<()>());

    let vec: Vec<_> = (0..capacity).map(|_| Handle::new_in((), &mut pool)).collect();

    for unit in vec {
        assert_eq!((), *unit.get());
    }
}

#[test]
fn allocate_smaller_block() {
    let capacity = 2_usize.pow(8);
    let mut pool = MemoryPool::new(capacity, Layout::new::<usize>());

    let _ = Handle::new_in(5_u8, &mut pool);
}
