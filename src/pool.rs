//! The pool: a fixed region of equally shaped slots and the free list that
//! hands them out and takes them back.
use vstd::prelude::*;
use vstd::layout::{align_of, size_of};
use crate::layout::{
    Layout, LayoutError, larger, lemma_round_up, round_up, union_layout, valid_layout_of,
};

verus! {

/// The alignment of the slots of a pool made for values of alignment `align`:
/// at least that of a machine word, which an unused slot holds.
pub open spec fn slot_align_for(align: nat) -> nat {
    larger(align, align_of::<usize>())
}

/// The size of the slots of a pool made for values of layout `size`,
/// `align`: at least one machine word, padded to the slot alignment.
pub open spec fn slot_size_for(size: nat, align: nat) -> nat {
    round_up(larger(size, size_of::<usize>()), slot_align_for(align))
}

/// Whether a pool of `capacity` slots for values of layout `size`, `align`
/// can be laid out: the slot layout is valid, and so is the whole region.
pub open spec fn pool_fits(capacity: nat, size: nat, align: nat) -> bool {
    valid_layout_of(larger(size, size_of::<usize>()), slot_align_for(align))
        && valid_layout_of(slot_size_for(size, align) * capacity, slot_align_for(align))
}

/// Returned when a request cannot be served: no slot is left, or the
/// requested layout does not fit in a slot.
#[derive(Clone, Copy, Debug, PartialEq, Eq, Structural)]
pub struct AllocError;

/// A slot handed out by a pool: its byte offset in the pool's region, and
/// its size.
#[derive(Clone, Copy, Debug, PartialEq, Eq, Structural)]
pub struct Block {
    pub addr: usize,
    pub size: usize,
}

/// The abstract state of a pool.
///
/// Slot `i` starts at byte `i * slot_size`. The slots below `untouched` have
/// been handed out at least once; those at or above it never were. `free`
/// is the free list, its head last: each freed slot links to the one before
/// it, and the first links to the untouched slot.
pub struct PoolState {
    pub slot_size: nat,
    pub slot_align: nat,
    pub capacity: nat,
    pub free: Seq<nat>,
    pub untouched: nat,
}

impl PoolState {
    /// A pool as built: no slot handed out yet.
    pub open spec fn fresh(slot_size: nat, slot_align: nat, capacity: nat) -> PoolState {
        PoolState { slot_size, slot_align, capacity, free: Seq::empty(), untouched: 0 }
    }

    /// The number of bytes of the region.
    pub open spec fn region_size(self) -> nat {
        self.capacity * self.slot_size
    }

    /// Whether `addr` lies in the region.
    pub open spec fn contains(self, addr: int) -> bool {
        0 <= addr < self.region_size()
    }

    /// Whether a value of layout `size`, `align` fits in a slot.
    pub open spec fn accepts(self, size: nat, align: nat) -> bool {
        size <= self.slot_size && align <= self.slot_align
    }

    /// Whether `addr` is the start of a slot that is handed out.
    pub open spec fn is_live(self, addr: nat) -> bool {
        &&& addr % self.slot_size == 0
        &&& addr / self.slot_size < self.untouched
        &&& !self.free.contains(addr)
    }

    /// The slot that the next allocation hands out: the head of the free
    /// list, else the untouched slot.
    pub open spec fn cursor(self) -> nat {
        if self.free.len() > 0 {
            self.free.last()
        } else {
            self.untouched * self.slot_size
        }
    }

    /// Whether a slot is left: the cursor lies in the region.
    pub open spec fn can_allocate(self) -> bool {
        self.contains(self.cursor() as int)
    }

    /// The state after the cursor's slot is handed out.
    pub open spec fn after_alloc(self) -> PoolState {
        if self.free.len() > 0 {
            PoolState { free: self.free.drop_last(), ..self }
        } else {
            PoolState { untouched: self.untouched + 1, ..self }
        }
    }

    /// The state after the slot at `addr` is given back.
    pub open spec fn after_free(self, addr: nat) -> PoolState {
        PoolState { free: self.free.push(addr), ..self }
    }

    /// The bookkeeping is consistent: each free slot is listed once and was
    /// handed out before, and the untouched slots lie in the region.
    pub open spec fn wf(self) -> bool {
        &&& self.slot_size > 0
        &&& self.untouched <= self.capacity
        &&& self.free.no_duplicates()
        &&& forall|k: int|
            0 <= k < self.free.len() ==> #[trigger] self.free[k] % self.slot_size == 0
                && self.free[k] / self.slot_size < self.untouched
    }
}

/// Facts on slot `i` of slots of `size` bytes in a region of `n` slots.
proof fn lemma_slot_addr(i: nat, n: nat, size: nat)
    requires
        size > 0,
    ensures
        (i * size) % size == 0,
        (i * size) / size == i,
        i < n ==> i * size + size <= n * size,
        i < n ==> i * size < n * size,
        i >= n ==> i * size >= n * size,
{
    vstd::arithmetic::div_mod::lemma_mod_multiples_basic(i as int, size as int);
    vstd::arithmetic::div_mod::lemma_div_by_multiple(i as int, size as int);
    if i < n {
        assert(i * size + size <= n * size) by (nonlinear_arith)
            requires
                i < n,
        ;
    } else {
        assert(i * size >= n * size) by (nonlinear_arith)
            requires
                i >= n,
        ;
    }
}

/// A slot's index determines its address, and the reverse.
proof fn lemma_slot_of_addr(addr: nat, n: nat, size: nat)
    requires
        size > 0,
        addr % size == 0,
    ensures
        addr == (addr / size) * size,
        addr / size < n <==> addr < n * size,
{
    vstd::arithmetic::div_mod::lemma_fundamental_div_mod(addr as int, size as int);
    vstd::arithmetic::mul::lemma_mul_is_commutative((addr / size) as int, size as int);
    lemma_slot_addr(addr / size, n, size);
}

/// The addresses that `n` allocations in a row hand out, from state `s`.
pub open spec fn allocations(s: PoolState, n: nat) -> Seq<nat>
    decreases n,
{
    if n == 0 {
        Seq::empty()
    } else {
        seq![s.cursor()] + allocations(s.after_alloc(), (n - 1) as nat)
    }
}

/// The state after `n` allocations in a row, from state `s`.
pub open spec fn after_allocations(s: PoolState, n: nat) -> PoolState
    decreases n,
{
    if n == 0 {
        s
    } else {
        after_allocations(s.after_alloc(), (n - 1) as nat)
    }
}

/// From a state with an empty free list, allocations take the untouched
/// slots in order.
proof fn lemma_untouched_allocations(s: PoolState, n: nat)
    requires
        s.slot_size > 0,
        s.free.len() == 0,
        s.untouched + n <= s.capacity,
    ensures
        after_allocations(s, n) == (PoolState { untouched: s.untouched + n, ..s }),
        allocations(s, n).len() == n,
        forall|i: int|
            0 <= i < n ==> #[trigger] allocations(s, n)[i] == (s.untouched + i) * s.slot_size,
        forall|m: nat| m < n ==> #[trigger] after_allocations(s, m).can_allocate(),
    decreases n,
{
    if n > 0 {
        let t = s.after_alloc();
        lemma_untouched_allocations(t, (n - 1) as nat);
        assert forall|i: int| 0 <= i < n implies #[trigger] allocations(s, n)[i] == (s.untouched
            + i) * s.slot_size by {
            if i > 0 {
                assert(allocations(s, n)[i] == allocations(t, (n - 1) as nat)[i - 1]);
            }
        }
        assert forall|m: nat| m < n implies #[trigger] after_allocations(s, m).can_allocate() by {
            if m == 0 {
                lemma_slot_addr(s.untouched, s.capacity, s.slot_size);
            } else {
                assert(after_allocations(s, m) == after_allocations(t, (m - 1) as nat));
            }
        }
    }
}

/// From a fresh pool, each of the first `capacity` allocations finds a slot,
/// and they hand out pairwise distinct slots, all in the region; after them
/// no slot is left.
pub proof fn lemma_fresh_allocations(slot_size: nat, slot_align: nat, capacity: nat)
    requires
        slot_size > 0,
    ensures
        forall|n: nat|
            n < capacity ==> #[trigger] after_allocations(
                PoolState::fresh(slot_size, slot_align, capacity),
                n,
            ).can_allocate(),
        allocations(PoolState::fresh(slot_size, slot_align, capacity), capacity).no_duplicates(),
        forall|k: int|
            0 <= k < capacity ==> PoolState::fresh(slot_size, slot_align, capacity).contains(
                #[trigger] allocations(PoolState::fresh(slot_size, slot_align, capacity), capacity)[k]
                    as int,
            ),
        !after_allocations(PoolState::fresh(slot_size, slot_align, capacity), capacity).can_allocate(),
{
    let s = PoolState::fresh(slot_size, slot_align, capacity);
    lemma_untouched_allocations(s, capacity);
    let addrs = allocations(s, capacity);
    assert forall|i: int, j: int| 0 <= i < capacity && 0 <= j < capacity && i != j implies addrs[i]
        != addrs[j] by {
        lemma_slot_addr(i as nat, capacity, slot_size);
        lemma_slot_addr(j as nat, capacity, slot_size);
    }
    assert forall|k: int| 0 <= k < capacity implies s.contains(#[trigger] addrs[k] as int) by {
        lemma_slot_addr(k as nat, capacity, slot_size);
    }
}

/// Allocation hands out a slot of the region that is not handed out yet,
/// and every slot handed out before stays so.
pub proof fn lemma_allocate_unused_slot(s: PoolState)
    requires
        s.wf(),
        s.can_allocate(),
    ensures
        s.after_alloc().wf(),
        s.contains(s.cursor() as int),
        !s.is_live(s.cursor()),
        s.after_alloc().is_live(s.cursor()),
        forall|a: nat| s.is_live(a) ==> #[trigger] s.after_alloc().is_live(a),
{
    let t = s.after_alloc();
    if s.free.len() > 0 {
        let last = s.free.last();
        assert(s.free.contains(last));
        assert(!t.free.contains(last)) by {
            if t.free.contains(last) {
                let k = choose|k: int| 0 <= k < t.free.len() && t.free[k] == last;
                assert(s.free[k] == s.free[s.free.len() - 1]);
            }
        }
        assert forall|k: int| 0 <= k < t.free.len() implies #[trigger] t.free[k] % t.slot_size == 0
            && t.free[k] / t.slot_size < t.untouched by {
            assert(t.free[k] == s.free[k]);
        }
        assert(last % s.slot_size == 0 && last / s.slot_size < s.untouched);
    } else {
        lemma_slot_addr(s.untouched, s.capacity, s.slot_size);
        assert(!t.free.contains(s.cursor()));
    }
}

/// A freed slot is the next one handed out, ahead of any untouched slot,
/// and handing it out again restores the state from before the free.
pub proof fn lemma_free_then_allocate(s: PoolState, addr: nat)
    requires
        s.wf(),
        s.is_live(addr),
    ensures
        s.after_free(addr).wf(),
        s.after_free(addr).cursor() == addr,
        s.after_free(addr).can_allocate(),
        s.after_free(addr).after_alloc() == s,
{
    let t = s.after_free(addr);
    lemma_slot_of_addr(addr, s.capacity, s.slot_size);
    lemma_slot_of_addr(addr, s.untouched, s.slot_size);
    assert forall|k: int| 0 <= k < t.free.len() implies #[trigger] t.free[k] % t.slot_size == 0
        && t.free[k] / t.slot_size < t.untouched by {
        if k < s.free.len() {
            assert(t.free[k] == s.free[k]);
        }
    }
    assert(t.free.drop_last() =~= s.free);
}

/// A value of size zero still takes a whole slot of one machine word, where
/// it is no more strictly aligned than a word.
pub proof fn lemma_zero_sized_slot(align: nat)
    requires
        align <= align_of::<usize>(),
    ensures
        slot_size_for(0, align) == size_of::<usize>(),
        slot_align_for(align) == align_of::<usize>(),
{
    broadcast use vstd::layout::layout_of_primitives, vstd::layout::align_properties;

    assert(size_of::<usize>() % align_of::<usize>() == 0);
}

/// A fixed-capacity pool of equally shaped slots.
pub struct MemoryPool {
    /// The slot layout: padded, and able to hold a machine word.
    layout: Layout,
    /// The number of slots.
    capacity: usize,
    /// The number of bytes of the region: `capacity` slots.
    region: usize,
    /// The free list, its head last.
    free: Vec<usize>,
    /// The first slot never handed out.
    untouched: usize,
}

impl View for MemoryPool {
    type V = PoolState;

    closed spec fn view(&self) -> PoolState {
        PoolState {
            slot_size: self.layout.spec_size(),
            slot_align: self.layout.spec_align(),
            capacity: self.capacity as nat,
            free: self.free@.map_values(|a: usize| a as nat),
            untouched: self.untouched as nat,
        }
    }
}

impl MemoryPool {
    /// The pool's fields agree with its abstract state, which is consistent.
    pub closed spec fn wf(&self) -> bool {
        &&& self@.wf()
        &&& self.region as nat == self@.region_size()
    }

    /// The abstract state of a well-formed pool is consistent.
    pub proof fn lemma_wf(&self)
        requires
            self.wf(),
        ensures
            self@.wf(),
    {
    }

    /// A pool of `capacity` slots for values of layout `layout`, where its
    /// region can be laid out.
    pub fn try_new(capacity: usize, layout: Layout) -> (r: Result<MemoryPool, LayoutError>)
        ensures
            r is Ok <==> pool_fits(capacity as nat, layout.spec_size(), layout.spec_align()),
            r matches Ok(p) ==> p.wf() && p@ == PoolState::fresh(
                slot_size_for(layout.spec_size(), layout.spec_align()),
                slot_align_for(layout.spec_align()),
                capacity as nat,
            ),
    {
        // An unused slot holds the address of the next free slot: one word.
        let word = Layout::new::<usize>();
        let slot = match union_layout(layout, word) {
            Ok(u) => u.pad_to_align(),
            Err(e) => return Err(e),
        };
        proof {
            broadcast use vstd::layout::layout_of_primitives;

            lemma_round_up(larger(layout.spec_size(), size_of::<usize>()), slot.spec_align());
        }
        let region = match slot.repeat(capacity) {
            Ok(array) => array.size(),
            Err(e) => return Err(e),
        };
        let pool = MemoryPool { layout: slot, capacity, region, free: Vec::new(), untouched: 0 };
        proof {
            assert(pool@.free =~= Seq::<nat>::empty());
            assert(pool@.region_size() == region) by (nonlinear_arith)
                requires
                    pool@.region_size() == capacity * slot.spec_size(),
                    region == slot.spec_size() * capacity,
            ;
        }
        Ok(pool)
    }

    /// A pool of `capacity` slots for values of layout `layout`.
    pub fn new(capacity: usize, layout: Layout) -> (r: MemoryPool)
        requires
            pool_fits(capacity as nat, layout.spec_size(), layout.spec_align()),
        ensures
            r.wf(),
            r@ == PoolState::fresh(
                slot_size_for(layout.spec_size(), layout.spec_align()),
                slot_align_for(layout.spec_align()),
                capacity as nat,
            ),
    {
        match MemoryPool::try_new(capacity, layout) {
            Ok(pool) => pool,
            Err(_) => vstd::pervasive::unreached(),
        }
    }

    /// The number of slots.
    pub fn capacity(&self) -> (r: usize)
        ensures
            r == self@.capacity,
    {
        self.capacity
    }

    /// The slot layout.
    pub fn slot_layout(&self) -> (r: Layout)
        ensures
            r.spec_size() == self@.slot_size,
            r.spec_align() == self@.slot_align,
    {
        self.layout
    }

    /// Whether `addr` lies in the region. This says nothing of whether a
    /// slot there is handed out.
    pub fn contains(&self, addr: usize) -> (r: bool)
        requires
            self.wf(),
        ensures
            r == self@.contains(addr as int),
    {
        addr < self.region
    }

    /// The slot that the next allocation hands out.
    fn cursor(&self) -> (r: usize)
        requires
            self.wf(),
        ensures
            r == self@.cursor(),
    {
        let n = self.free.len();
        if n > 0 {
            self.free[n - 1]
        } else {
            proof {
                lemma_slot_addr(self@.untouched, self@.capacity, self@.slot_size);
            }
            self.untouched * self.layout.size()
        }
    }

    /// Hands out the slot at the cursor, for a value of layout `layout`.
    ///
    /// Fails when the layout is larger or more strictly aligned than a slot
    /// (a smaller one is served with a whole slot), or when no slot is left.
    /// A freed slot is handed out before an untouched one, the last freed
    /// first.
    pub fn allocate(&mut self, layout: Layout) -> (r: Result<Block, AllocError>)
        requires
            old(self).wf(),
        ensures
            final(self).wf(),
            r is Ok <==> old(self)@.accepts(layout.spec_size(), layout.spec_align())
                && old(self)@.can_allocate(),
            r matches Ok(b) ==> b.addr == old(self)@.cursor() && b.size == old(self)@.slot_size
                && final(self)@ == old(self)@.after_alloc(),
            r is Err ==> final(self)@ == old(self)@,
    {
        match union_layout(self.layout, layout) {
            Ok(u) => {
                proof {
                    u.lemma_eq(self.layout);
                }
                if u != self.layout {
                    return Err(AllocError);
                }
            },
            Err(_) => {
                proof {
                    use_type_invariant(&self.layout);
                    self.layout.lemma_inv();
                }
                return Err(AllocError);
            },
        }
        let block = self.cursor();
        if !self.contains(block) {
            return Err(AllocError);
        }
        let ghost before = self@;
        // The slot's link, where it has one, names the next free slot; a
        // slot without one is followed by the adjacent untouched slot.
        if self.free.len() > 0 {
            self.free.pop();
            proof {
                assert(self@.free =~= before.free.drop_last());
                assert(self@ == before.after_alloc());
            }
        } else {
            proof {
                lemma_slot_addr(before.untouched, before.capacity, before.slot_size);
            }
            self.untouched = self.untouched + 1;
            proof {
                assert(self@.free =~= before.free);
                assert(self@ == before.after_alloc());
            }
        }
        Ok(Block { addr: block, size: self.layout.size() })
    }

    /// Gives the slot at `addr` back: it becomes the head of the free list,
    /// linked to the previous head.
    pub fn deallocate(&mut self, addr: usize, layout: Layout)
        requires
            old(self).wf(),
            old(self)@.is_live(addr as nat),
            old(self)@.accepts(layout.spec_size(), layout.spec_align()),
        ensures
            final(self).wf(),
            final(self)@ == old(self)@.after_free(addr as nat),
    {
        let ghost before = self@;
        self.free.push(addr);
        proof {
            assert(self@.free =~= before.free.push(addr as nat));
            assert(self@ == before.after_free(addr as nat));
        }
    }
}

} // verus!
