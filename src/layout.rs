//! Size and alignment of a value or of a pool slot.
use vstd::prelude::*;
use vstd::arithmetic::power2::is_pow2;
use vstd::layout::valid_layout;

verus! {

/// The rounding of `size` up to the next multiple of `align`.
pub open spec fn round_up(size: nat, align: nat) -> nat
    recommends
        align > 0,
{
    if size % align == 0 {
        size
    } else {
        (size + (align - size % align)) as nat
    }
}

/// A valid layout's size, rounded up to its alignment, still fits in `isize`.
pub proof fn lemma_round_up_fits(size: nat, align: nat)
    requires
        valid_layout(size as usize, align as usize),
        size <= usize::MAX,
        align <= usize::MAX,
    ensures
        align > 0,
        size <= isize::MAX,
        round_up(size, align) <= isize::MAX as int - (isize::MAX as int) % (align as int),
{
    reveal(is_pow2);
    let m = isize::MAX as int;
    let s = size as int;
    let a = align as int;
    if s % a != 0 {
        vstd::arithmetic::div_mod::lemma_fundamental_div_mod(m, a);
        vstd::arithmetic::div_mod::lemma_fundamental_div_mod(s, a);
        assert(s + (a - s % a) <= m - m % a) by (nonlinear_arith)
            requires
                s <= m - m % a,
                a > 0,
                0 < s % a < a,
                0 <= m % a < a,
                s == a * (s / a) + s % a,
                m == a * (m / a) + m % a,
        {
            assert(s / a < m / a) by (nonlinear_arith)
                requires
                    s <= m - m % a,
                    0 < s % a,
                    s == a * (s / a) + s % a,
                    m == a * (m / a) + m % a,
                    a > 0,
            ;
            assert(a * (s / a) + a <= a * (m / a)) by (nonlinear_arith)
                requires
                    s / a < m / a,
                    a > 0,
            ;
        }
    }
}

/// Rounding up gives a multiple of the alignment, no smaller than the size,
/// and rounding a multiple changes nothing.
pub proof fn lemma_round_up(size: nat, align: nat)
    requires
        align > 0,
    ensures
        round_up(size, align) % align == 0,
        round_up(size, align) >= size,
        round_up(round_up(size, align), align) == round_up(size, align),
{
    let s = size as int;
    let a = align as int;
    if s % a != 0 {
        vstd::arithmetic::div_mod::lemma_fundamental_div_mod(s, a);
        vstd::arithmetic::div_mod::lemma_mod_multiples_basic(s / a + 1, a);
        assert(s + (a - s % a) == (s / a + 1) * a) by (nonlinear_arith)
            requires
                s == a * (s / a) + s % a,
        ;
    }
}

/// The larger of two numbers.
pub open spec fn larger(a: nat, b: nat) -> nat {
    if a >= b {
        a
    } else {
        b
    }
}

/// Returned when a size and an alignment do not make a valid layout.
#[derive(Clone, Copy, Debug, PartialEq, Eq, Structural)]
pub struct LayoutError;

/// A size and an alignment: the alignment is a power of two, and the size
/// rounded up to the alignment does not exceed `isize::MAX`.
#[derive(Clone, Copy, Debug, PartialEq, Eq, Structural)]
pub struct Layout {
    size: usize,
    align: usize,
}

/// Decides whether `n` is a power of two.
fn is_power_of_two(n: usize) -> (r: bool)
    ensures
        r == is_pow2(n as int),
{
    if n == 0 {
        proof {
            reveal(is_pow2);
        }
        return false;
    }
    let mut m: usize = n;
    while m > 1 && m % 2 == 0
        invariant
            m > 0,
            is_pow2(n as int) == is_pow2(m as int),
        decreases m,
    {
        proof {
            reveal(is_pow2);
        }
        m = m / 2;
    }
    proof {
        reveal(is_pow2);
    }
    m == 1
}

impl Layout {
    #[verifier::type_invariant]
    pub closed spec fn inv(self) -> bool {
        valid_layout(self.size, self.align)
    }

    /// The size in bytes.
    pub closed spec fn spec_size(self) -> nat {
        self.size as nat
    }

    /// The alignment in bytes.
    pub closed spec fn spec_align(self) -> nat {
        self.align as nat
    }

    /// The layout of values of type `T`.
    pub fn new<T>() -> (r: Layout)
        ensures
            r.spec_size() == vstd::layout::size_of::<T>(),
            r.spec_align() == vstd::layout::align_of::<T>(),
    {
        vstd::layout::layout_for_type_is_valid::<T>();
        Layout { size: core::mem::size_of::<T>(), align: core::mem::align_of::<T>() }
    }

    /// The layout of the given size and alignment, where they make a valid one.
    pub fn from_size_align(size: usize, align: usize) -> (r: Result<Layout, LayoutError>)
        ensures
            r is Ok <==> valid_layout(size, align),
            r matches Ok(l) ==> l.spec_size() == size && l.spec_align() == align,
    {
        if !is_power_of_two(align) {
            return Err(LayoutError);
        }
        proof {
            reveal(is_pow2);
            vstd::arithmetic::div_mod::lemma_mod_decreases(isize::MAX as nat, align as nat);
        }
        if size > (isize::MAX as usize) - (isize::MAX as usize) % align {
            return Err(LayoutError);
        }
        Ok(Layout { size, align })
    }

    /// What the invariant states: the size and alignment make a valid layout.
    pub proof fn lemma_inv(self)
        requires
            self.inv(),
        ensures
            valid_layout_of(self.spec_size(), self.spec_align()),
    {
    }

    /// Two layouts are equal exactly when their sizes and alignments are.
    pub proof fn lemma_eq(self, other: Layout)
        ensures
            self == other <==> (self.spec_size() == other.spec_size() && self.spec_align()
                == other.spec_align()),
    {
    }

    /// The size in bytes.
    pub fn size(&self) -> (r: usize)
        ensures
            r == self.spec_size(),
    {
        self.size
    }

    /// The alignment in bytes.
    pub fn align(&self) -> (r: usize)
        ensures
            r == self.spec_align(),
    {
        self.align
    }

    /// This layout with its size rounded up to a multiple of its alignment.
    pub fn pad_to_align(&self) -> (r: Layout)
        ensures
            r.spec_size() == round_up(self.spec_size(), self.spec_align()),
            r.spec_align() == self.spec_align(),
    {
        proof {
            use_type_invariant(self);
            lemma_round_up_fits(self.size as nat, self.align as nat);
            reveal(is_pow2);
        }
        let rem = self.size % self.align;
        if rem == 0 {
            *self
        } else {
            Layout { size: self.size + (self.align - rem), align: self.align }
        }
    }

    /// The layout of an array of `n` copies of this layout padded to its
    /// alignment, where its size fits.
    pub fn repeat(&self, n: usize) -> (r: Result<Layout, LayoutError>)
        ensures
            r is Ok <==> valid_layout_of(
                round_up(self.spec_size(), self.spec_align()) * n as nat,
                self.spec_align(),
            ),
                r matches Ok(l) ==> l.spec_size() == round_up(self.spec_size(), self.spec_align()) * n as nat
                && l.spec_align() == self.spec_align(),
    {
        let padded = self.pad_to_align();
        match padded.size.checked_mul(n) {
            Some(total) => Layout::from_size_align(total, self.align),
            None => {
                proof {
                    use_type_invariant(self);
                    reveal(is_pow2);
                }
                Err(LayoutError)
            },
        }
    }
}

/// Whether `size` and `align` make a valid layout, over unbounded numbers.
pub open spec fn valid_layout_of(size: nat, align: nat) -> bool {
    size <= usize::MAX && align <= usize::MAX && valid_layout(size as usize, align as usize)
}

/// Whether a value of layout `req` can be stored in a slot of layout `slot`:
/// no larger and no more strictly aligned.
pub open spec fn fits_in(req: Layout, slot: Layout) -> bool {
    req.spec_size() <= slot.spec_size() && req.spec_align() <= slot.spec_align()
}

/// The layout of a union of the two: the larger size and the larger
/// alignment, where these make a valid layout.
pub fn union_layout(first: Layout, second: Layout) -> (r: Result<Layout, LayoutError>)
    ensures
        r is Ok <==> valid_layout_of(
            larger(first.spec_size(), second.spec_size()),
            larger(first.spec_align(), second.spec_align()),
        ),
        r matches Ok(l) ==> l.spec_size() == larger(first.spec_size(), second.spec_size())
            && l.spec_align() == larger(first.spec_align(), second.spec_align()),
{
    let size = if first.size() >= second.size() {
        first.size()
    } else {
        second.size()
    };
    let align = if first.align() >= second.align() {
        first.align()
    } else {
        second.align()
    };
    Layout::from_size_align(size, align)
}

} // verus!
