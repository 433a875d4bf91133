//! Physical and virtual address newtypes and alignment helpers.

use vstd::prelude::*;

verus! {

/// A physical address.
#[derive(Clone, Copy, Debug, PartialEq, Eq, Structural)]
pub struct PAddr(pub usize);

impl PAddr {
    pub fn new(addr: usize) -> (r: Self)
        ensures
            r.0 == addr,
    {
        Self(addr)
    }

    pub fn set(&mut self, addr: usize)
        ensures
            final(self).0 == addr,
    {
        self.0 = addr;
    }

    pub fn as_usize(&self) -> (r: usize)
        ensures
            r == self.0,
    {
        self.0
    }
}

/// A virtual address.
#[derive(Clone, Copy, Debug, PartialEq, Eq, Structural)]
pub struct VAddr(pub usize);

impl VAddr {
    pub fn new(addr: usize) -> (r: Self)
        ensures
            r.0 == addr,
    {
        Self(addr)
    }

    pub fn as_usize(&self) -> (r: usize)
        ensures
            r == self.0,
    {
        self.0
    }
}

/// `a` is a power of two.
pub open spec fn is_power_of_two(a: usize) -> bool
    decreases a,
{
    if a == 0 {
        false
    } else if a == 1 {
        true
    } else {
        a % 2 == 0 && is_power_of_two(a / 2)
    }
}

/// The least multiple of `align` that is at least `value`.
pub open spec fn spec_align_up(value: int, align: int) -> int {
    ((value + align - 1) / align) * align
}

/// `value` rounded up to the next multiple of `align`.
pub fn align_up(value: usize, align: usize) -> (r: usize)
    requires
        is_power_of_two(align),
        value + align - 1 <= usize::MAX,
    ensures
        r == spec_align_up(value as int, align as int),
        r % align == 0,
        value <= r < value + align,
{
    proof {
        lemma_pow2_pos(align);
        vstd::arithmetic::div_mod::lemma_fundamental_div_mod((value + align - 1) as int, align as int);
        vstd::arithmetic::div_mod::lemma_mod_bound((value + align - 1) as int, align as int);
        vstd::arithmetic::mul::lemma_mul_is_commutative((value + align - 1) as int / align as int, align as int);
        lemma_align_up_props(value as int, align as int);
    }
    let t = value + (align - 1);
    t - t % align
}

/// Whether `value` is a multiple of `align`.
pub fn is_aligned(value: usize, align: usize) -> (r: bool)
    requires
        is_power_of_two(align),
    ensures
        r == (value % align == 0),
{
    proof {
        lemma_pow2_pos(align);
    }
    value % align == 0
}

/// A power of two is positive.
pub proof fn lemma_pow2_pos(a: usize)
    requires
        is_power_of_two(a),
    ensures
        a >= 1,
{
}

/// `spec_align_up` rounds up to the nearest multiple: the result is a
/// multiple of `align` and lies in `[value, value + align)`; on an already
/// aligned value it is the value itself.
pub proof fn lemma_align_up_props(value: int, align: int)
    requires
        align >= 1,
        value >= 0,
    ensures
        spec_align_up(value, align) % align == 0,
        value <= spec_align_up(value, align) < value + align,
        value % align == 0 ==> spec_align_up(value, align) == value,
{
    let t = value + align - 1;
    vstd::arithmetic::div_mod::lemma_fundamental_div_mod(t, align);
    vstd::arithmetic::div_mod::lemma_mod_bound(t, align);
    vstd::arithmetic::mul::lemma_mul_is_commutative(t / align, align);
    assert(spec_align_up(value, align) == t - t % align);
    assert((t - t % align) % align == 0) by {
        vstd::arithmetic::div_mod::lemma_mod_multiples_vanish(t / align, 0, align);
    }
    if value % align == 0 {
        vstd::arithmetic::div_mod::lemma_fundamental_div_mod(value, align);
        assert(value == align * (value / align));
        assert(t == align * (value / align) + (align - 1));
        vstd::arithmetic::div_mod::lemma_mod_multiples_vanish(value / align, align - 1, align);
        vstd::arithmetic::div_mod::lemma_small_mod((align - 1) as nat, align as nat);
        assert(t % align == align - 1);
    }
}

} // verus!

