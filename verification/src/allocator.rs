//! Bump allocation of page-aligned physical frames from a fixed free region.

use vstd::prelude::*;

use crate::address::{spec_align_up, align_up, is_power_of_two, PAddr};

verus! {

pub const PAGE_SIZE: usize = 4096;

/// A freshly allocated physical frame: its base address and its (zeroed)
/// contents.
pub struct Frame {
    pub base: PAddr,
    pub data: Vec<u8>,
}

impl Frame {
    /// The frame is page aligned, page-sized in multiples, and zero-filled.
    pub open spec fn wf(&self) -> bool {
        &&& self.base.0 as int % PAGE_SIZE as int == 0
        &&& self.data.len() as int % PAGE_SIZE as int == 0
        &&& forall|i: int| 0 <= i < self.data.len() ==> self.data[i] == 0
    }
}

/// The monotone bump allocator over the physical free region. The cursor
/// starts at the region base and only ever advances; nothing is released.
pub struct BumpAllocator {
    /// The next free physical address.
    pub next: PAddr,
    /// One past the last usable physical address.
    pub end: usize,
    /// Every range `[base, base + len)` handed out so far, in order.
    pub history: Ghost<Seq<(int, int)>>,
}

impl BumpAllocator {
    pub open spec fn wf(&self) -> bool {
        &&& self.next.0 as int % PAGE_SIZE as int == 0
        &&& self.next.0 <= self.end
        &&& forall|i: int|
            0 <= i < self.history@.len() ==> (#[trigger] self.history@[i]).0 <= self.history@[i].1
                <= self.next.0 as int
        &&& forall|i: int|
            0 <= i < self.history@.len() - 1 ==> (#[trigger] self.history@[i]).1
                <= self.history@[i + 1].0
    }

    /// A fresh allocator over `[base, end)`.
    pub fn new(base: usize, end: usize) -> (r: Self)
        requires
            base as int % PAGE_SIZE as int == 0,
            base <= end,
        ensures
            r.wf(),
            r.next.0 == base,
            r.end == end,
            r.history@ =~= Seq::<(int, int)>::empty(),
    {
        BumpAllocator { next: PAddr::new(base), end, history: Ghost(Seq::empty()) }
    }

    /// Hands out the frame at the cursor and advances the cursor by the
    /// page-aligned size; fails exactly when the region is exhausted.
    pub fn alloc_pages(&mut self, size: usize) -> (r: Result<Frame, ()>)
        requires
            old(self).wf(),
            1 <= size,
            size + PAGE_SIZE - 1 <= usize::MAX,
        ensures
            final(self).wf(),
            final(self).end == old(self).end,
            r is Ok <==> old(self).next.0 + spec_align_up(size as int, PAGE_SIZE as int) <= old(
                self,
            ).end,
            r matches Ok(f) ==> {
                &&& f.wf()
                &&& f.base == old(self).next
                &&& f.data.len() == spec_align_up(size as int, PAGE_SIZE as int)
                &&& final(self).next.0 == old(self).next.0 + f.data.len()
                &&& final(self).history@ =~= old(self).history@.push(
                    (f.base.0 as int, f.base.0 + f.data.len()),
                )
            },
            r is Err ==> *final(self) == *old(self),
            final(self).next.0 >= old(self).next.0,
    {
        proof {
            lemma_pow2_4096();
        }
        let aligned_size = align_up(size, PAGE_SIZE);
        if aligned_size > self.end - self.next.as_usize() {
            return Err(());
        }
        let base = self.next;
        let data = zeroed_bytes(aligned_size);
        self.next.set(base.as_usize() + aligned_size);
        proof {
            self.history@ = self.history@.push((base.0 as int, base.0 + aligned_size as int));
        }
        Ok(Frame { base, data })
    }
}

/// Ranges handed out earlier never overlap ranges handed out later: the
/// allocator never returns the same byte twice.
pub proof fn lemma_alloc_disjoint(a: BumpAllocator, i: int, j: int)
    requires
        a.wf(),
        0 <= i < j < a.history@.len(),
    ensures
        a.history@[i].1 <= a.history@[j].0,
    decreases j - i,
{
    if i + 1 < j {
        lemma_alloc_disjoint(a, i + 1, j);
    }
}

/// 4096 is a power of two.
pub proof fn lemma_pow2_4096()
    ensures
        is_power_of_two(PAGE_SIZE),
        is_power_of_two(512),
{
    assert(is_power_of_two(4096)) by {
        reveal_with_fuel(is_power_of_two, 13);
    }
    assert(is_power_of_two(512)) by {
        reveal_with_fuel(is_power_of_two, 13);
    }
}

/// A vector of `n` zero bytes.
pub fn zeroed_bytes(n: usize) -> (r: Vec<u8>)
    ensures
        r.len() == n,
        forall|i: int| 0 <= i < n ==> r[i] == 0,
{
    let mut v: Vec<u8> = Vec::new();
    while v.len() < n
        invariant
            v.len() <= n,
            forall|i: int| 0 <= i < v.len() ==> v[i] == 0,
        decreases n - v.len(),
    {
        v.push(0);
    }
    v
}

} // verus!
