//! RISC-V Sv32 two-level page tables, modelled arithmetically: a page-table
//! entry `ppn << 10 | flags` is the number `ppn * 1024 + flags`, and the VPN
//! fields of a virtual address are quotients and remainders by powers of two.

use vstd::prelude::*;

use crate::address::{PAddr, VAddr};
use crate::allocator::{BumpAllocator, PAGE_SIZE};

verus! {

pub const ENTRIES_PER_TABLE: usize = 1024;

pub const SATP_SV32: usize = 1 << 31;

/// "Valid" bit (entry is enabled)
pub const PAGE_V: usize = 1 << 0;

/// Readable
pub const PAGE_R: usize = 1 << 1;

/// Writable
pub const PAGE_W: usize = 1 << 2;

/// Executable
pub const PAGE_X: usize = 1 << 3;

/// User (accessible in user mode)
pub const PAGE_U: usize = 1 << 4;

/// An entry's valid bit is its lowest bit.
pub open spec fn pte_valid(pte: usize) -> bool {
    pte % 2 == 1
}

/// The physical page number packed in bits 10 and up.
pub open spec fn pte_ppn(pte: usize) -> int {
    pte as int / 1024
}

/// The flag bits, bits 0 through 9.
pub open spec fn pte_flags(pte: usize) -> int {
    pte as int % 1024
}

/// `ppn << 10 | flags`, arithmetically.
pub open spec fn spec_make_pte(ppn: int, flags: int) -> int {
    ppn * 1024 + flags
}

/// Second-level index of a virtual address: bits 22 through 31.
pub open spec fn spec_vpn1(va: int) -> int {
    (va / 0x400000) % 1024
}

/// First-level index of a virtual address: bits 12 through 21.
pub open spec fn spec_vpn0(va: int) -> int {
    (va / 0x1000) % 1024
}

impl VAddr {
    /// First-level page-table index.
    pub fn vpn0(&self) -> (r: usize)
        ensures
            r == spec_vpn0(self.0 as int),
            r < 1024,
    {
        (self.0 / 0x1000) % 1024
    }

    /// Second-level page-table index.
    pub fn vpn1(&self) -> (r: usize)
        ensures
            r == spec_vpn1(self.0 as int),
            r < 1024,
    {
        (self.0 / 0x400000) % 1024
    }
}

impl PAddr {
    /// The address's physical page number, already shifted into the PPN
    /// field of an Sv32 entry.
    pub fn ppn(&self) -> (r: usize)
        requires
            self.0 <= 0xFFFFFFFF,
        ensures
            r == (self.0 as int / 4096) * 1024,
    {
        (self.0 / PAGE_SIZE) * 1024
    }

    /// The physical address a page-table entry points at.
    pub fn from_ppn(pte: usize) -> (r: Self)
        requires
            pte <= 0x3FFFFFFF,
        ensures
            r.0 == pte_ppn(pte) * 4096,
    {
        PAddr::new((pte / 1024) * PAGE_SIZE)
    }
}

/// One level of an Sv32 page table: 1024 word-sized entries.
pub struct PageTable(pub Vec<usize>);

impl PageTable {
    /// Every entry fits in 32 bits with a physical page number below 2^20.
    pub open spec fn wf(&self) -> bool {
        &&& self.0.len() == ENTRIES_PER_TABLE
        &&& forall|i: int| 0 <= i < 1024 ==> #[trigger] self.0[i] <= 0x3FFFFFFF
    }

    /// A table of 1024 invalid entries.
    pub fn new() -> (r: Self)
        ensures
            r.wf(),
            forall|i: int| 0 <= i < 1024 ==> #[trigger] r.0[i] == 0,
    {
        let mut v: Vec<usize> = Vec::new();
        while v.len() < ENTRIES_PER_TABLE
            invariant
                v.len() <= 1024,
                forall|i: int| 0 <= i < v.len() ==> #[trigger] v[i] == 0,
            decreases 1024 - v.len(),
        {
            v.push(0);
        }
        PageTable(v)
    }

    /// Reads the entry at `vpn`.
    pub fn entry(&self, vpn: usize) -> (r: usize)
        requires
            self.wf(),
            vpn < 1024,
        ensures
            r == self.0[vpn as int],
    {
        self.0[vpn]
    }

    /// Overwrites the entry at `vpn`.
    pub fn set_entry(&mut self, vpn: usize, pte: usize)
        requires
            old(self).wf(),
            vpn < 1024,
            pte <= 0x3FFFFFFF,
        ensures
            final(self).wf(),
            final(self).0@ == old(self).0@.update(vpn as int, pte),
    {
        self.0.set(vpn, pte);
    }
}

/// A per-process address space: the root table, its physical address, and
/// the lazily allocated leaf tables, identified by their physical page
/// numbers.
pub struct AddressSpace {
    pub root_pa: PAddr,
    pub root: PageTable,
    pub leaf_ppns: Vec<usize>,
    pub leaves: Vec<PageTable>,
}

/// The index in `leaf_ppns` holding `ppn`.
pub open spec fn leaf_idx(s: AddressSpace, ppn: int) -> int {
    choose|i: int| 0 <= i < s.leaf_ppns.len() && s.leaf_ppns[i] == ppn
}

impl AddressSpace {
    pub open spec fn wf(&self) -> bool {
        &&& self.root.wf()
        &&& self.leaves.len() == self.leaf_ppns.len()
        &&& forall|i: int| 0 <= i < self.leaves.len() ==> (#[trigger] self.leaves[i]).wf()
        &&& forall|i: int, j: int|
            0 <= i < j < self.leaf_ppns.len() ==> self.leaf_ppns[i] != self.leaf_ppns[j]
        &&& forall|i: int| 0 <= i < self.leaf_ppns.len() ==> #[trigger] self.leaf_ppns[i] < 0x100000
        &&& forall|v: int|
            0 <= v < 1024 && pte_valid(#[trigger] self.root.0[v]) ==> {
                &&& pte_flags(self.root.0[v]) == 1
                &&& exists|i: int|
                    0 <= i < self.leaf_ppns.len() && #[trigger] self.leaf_ppns[i] == pte_ppn(
                        self.root.0[v],
                    )
            }
        &&& forall|v: int, w: int|
            0 <= v < w < 1024 && pte_valid(#[trigger] self.root.0[v]) && pte_valid(
                #[trigger] self.root.0[w],
            ) ==> pte_ppn(self.root.0[v]) != pte_ppn(self.root.0[w])
    }

    /// All leaf tables of this space lie in frames the allocator has already
    /// handed out.
    pub open spec fn below(&self, a: BumpAllocator) -> bool {
        forall|i: int|
            0 <= i < self.leaf_ppns.len() ==> (#[trigger] self.leaf_ppns[i] + 1) * 4096
                <= a.next.0
    }

    /// A fresh address space rooted in a newly allocated frame; it maps
    /// nothing. Fails exactly when the allocator is exhausted.
    #[verifier::rlimit(50)]
    pub fn new(alloc: &mut BumpAllocator) -> (r: Result<Self, ()>)
        requires
            old(alloc).wf(),
        ensures
            final(alloc).wf(),
            final(alloc).end == old(alloc).end,
            final(alloc).next.0 >= old(alloc).next.0,
            r is Ok <==> old(alloc).next.0 + 4096 <= old(alloc).end,
            r matches Ok(s) ==> {
                &&& s.wf()
                &&& s.below(*final(alloc))
                &&& s.root_pa == old(alloc).next
                &&& final(alloc).next.0 == old(alloc).next.0 + 4096
                &&& forall|v1: int, v0: int|
                    0 <= v1 < 1024 && 0 <= v0 < 1024 ==> translate(s, v1, v0) is None
            },
            r is Err ==> *final(alloc) == *old(alloc),
    {
        let f = match alloc.alloc_pages(PAGE_SIZE) {
            Ok(f) => f,
            Err(()) => {
                return Err(());
            },
        };
        let s = AddressSpace {
            root_pa: f.base,
            root: PageTable::new(),
            leaf_ppns: Vec::new(),
            leaves: Vec::new(),
        };
        Ok(s)
    }
}

/// The leaf entry the address space holds for the page at indexes
/// `(vpn1, vpn0)`, if any.
pub open spec fn translate(s: AddressSpace, v1: int, v0: int) -> Option<usize> {
    let rpte = s.root.0[v1];
    if !pte_valid(rpte) {
        None
    } else {
        let lpte = s.leaves[leaf_idx(s, pte_ppn(rpte))].0[v0];
        if pte_valid(lpte) {
            Some(lpte)
        } else {
            None
        }
    }
}

/// How many leaf tables mapping a contiguous range of pages can require:
/// one per 4 MiB second-level region the range touches.
pub open spec fn region_leaves(va_base: int, len: int) -> int {
    if len <= 0 {
        0
    } else {
        (va_base + len - 4096) / 0x400000 - va_base / 0x400000 + 1
    }
}

/// A nonempty range touches at least one region.
pub proof fn lemma_region_leaves_pos(va_base: int, len: int)
    requires
        0 <= va_base,
        4096 <= len,
    ensures
        region_leaves(va_base, len) >= 1,
{
    vstd::arithmetic::div_mod::lemma_div_is_ordered(va_base, va_base + len - 4096, 0x400000);
}

/// The page-aligned virtual address with the given VPN fields.
pub open spec fn va_of(v1: int, v0: int) -> int {
    (v1 * 1024 + v0) * 4096
}

/// The VPN fields of `va_of(v1, v0)` are `v1` and `v0`, and the address is
/// an aligned 32-bit value.
pub proof fn lemma_va_parts(v1: int, v0: int)
    requires
        0 <= v1 < 1024,
        0 <= v0 < 1024,
    ensures
        spec_vpn1(va_of(v1, v0)) == v1,
        spec_vpn0(va_of(v1, v0)) == v0,
        0 <= va_of(v1, v0) < 0x100000000,
        va_of(v1, v0) % 4096 == 0,
{
    let q = v1 * 1024 + v0;
    let va = q * 4096;
    assert(0 <= q < 0x100000) by (nonlinear_arith)
        requires
            0 <= v1 < 1024,
            0 <= v0 < 1024,
            q == v1 * 1024 + v0,
    ;
    assert(0 <= va < 0x100000000) by (nonlinear_arith)
        requires
            0 <= q < 0x100000,
            va == q * 4096,
    ;
    vstd::arithmetic::div_mod::lemma_fundamental_div_mod_converse(va, 4096, q, 0);
    vstd::arithmetic::div_mod::lemma_fundamental_div_mod_converse(q, 1024, v1, v0);
    assert(va / 0x400000 == (va / 4096) / 1024) by {
        vstd::arithmetic::div_mod::lemma_div_denominator(va, 4096, 1024);
    }
    vstd::arithmetic::div_mod::lemma_small_mod(v1 as nat, 1024);
}

/// An aligned 32-bit virtual address is recovered from its VPN fields.
pub proof fn lemma_va_recompose(va: int)
    requires
        va % 4096 == 0,
        0 <= va < 0x100000000,
    ensures
        va_of(spec_vpn1(va), spec_vpn0(va)) == va,
        0 <= spec_vpn1(va) < 1024,
        0 <= spec_vpn0(va) < 1024,
{
    let q = va / 4096;
    vstd::arithmetic::div_mod::lemma_fundamental_div_mod(va, 4096);
    assert(q < 0x100000) by (nonlinear_arith)
        requires
            0 <= va < 0x100000000,
            va == 4096 * q,
    ;
    vstd::arithmetic::div_mod::lemma_fundamental_div_mod(q, 1024);
    vstd::arithmetic::div_mod::lemma_mod_bound(q, 1024);
    vstd::arithmetic::div_mod::lemma_div_pos_is_pos(q, 1024);
    assert(va / 0x400000 == q / 1024) by {
        vstd::arithmetic::div_mod::lemma_div_denominator(va, 4096, 1024);
    }
    assert(q / 1024 < 1024) by (nonlinear_arith)
        requires
            0 <= q < 0x100000,
            q == 1024 * (q / 1024) + q % 1024,
            0 <= q % 1024 < 1024,
    ;
    vstd::arithmetic::div_mod::lemma_small_mod((q / 1024) as nat, 1024);
    assert(spec_vpn1(va) == q / 1024);
    assert(spec_vpn0(va) == q % 1024);
    assert((q / 1024 * 1024 + q % 1024) * 4096 == va) by (nonlinear_arith)
        requires
            q == 1024 * (q / 1024) + q % 1024,
            va == 4096 * q,
    ;
}

/// Packing then unpacking a page-table entry recovers its fields.
pub proof fn lemma_pte_fields(ppn: int, flags: int)
    requires
        0 <= ppn,
        0 <= flags < 1024,
    ensures
        spec_make_pte(ppn, flags) / 1024 == ppn,
        spec_make_pte(ppn, flags) % 1024 == flags,
{
    vstd::arithmetic::div_mod::lemma_fundamental_div_mod_converse(
        ppn * 1024 + flags,
        1024,
        ppn,
        flags,
    );
}

/// With distinct leaf page numbers, `leaf_idx` is the one index holding the
/// page number.
pub proof fn lemma_leaf_idx(s: AddressSpace, i: int)
    requires
        s.wf(),
        0 <= i < s.leaf_ppns.len(),
    ensures
        leaf_idx(s, s.leaf_ppns[i] as int) == i,
{
    let ppn = s.leaf_ppns[i] as int;
    assert(0 <= i < s.leaf_ppns.len() && s.leaf_ppns[i] == ppn);
    let j = leaf_idx(s, ppn);
    assert(0 <= j < s.leaf_ppns.len() && s.leaf_ppns[j] == ppn);
}

/// Maps the page at `vaddr` to the frame at `paddr` with `flags | V`,
/// allocating the leaf table lazily; no other mapping changes. Fails exactly
/// when a leaf table is needed and the allocator is exhausted.
#[verifier::rlimit(100)]
pub fn map_page(
    space: &mut AddressSpace,
    alloc: &mut BumpAllocator,
    vaddr: VAddr,
    paddr: PAddr,
    flags: usize,
) -> (r: Result<(), ()>)
    requires
        old(space).wf(),
        old(alloc).wf(),
        old(space).below(*old(alloc)),
        vaddr.0 as int % 4096 == 0,
        paddr.0 as int % 4096 == 0,
        paddr.0 <= 0xFFFFFFFF,
        old(alloc).end <= 0xFFFFFFFF,
        flags % 2 == 0,
        flags < 1024,
    ensures
        final(space).wf(),
        final(alloc).wf(),
        final(space).below(*final(alloc)),
        final(alloc).end == old(alloc).end,
        final(alloc).next.0 >= old(alloc).next.0,
        final(alloc).next.0 <= old(alloc).next.0 + 4096,
        pte_valid(old(space).root.0[spec_vpn1(vaddr.0 as int)]) ==> *final(alloc) == *old(alloc),
        final(space).root_pa == old(space).root_pa,
        r is Ok <==> (pte_valid(old(space).root.0[spec_vpn1(vaddr.0 as int)]) || old(
            alloc,
        ).next.0 + 4096 <= old(alloc).end),
        r is Ok ==> {
            &&& translate(*final(space), spec_vpn1(vaddr.0 as int), spec_vpn0(vaddr.0 as int))
                == Some((spec_make_pte(paddr.0 as int / 4096, flags as int + 1)) as usize)
            &&& forall|w1: int, w0: int|
                0 <= w1 < 1024 && 0 <= w0 < 1024 && !(w1 == spec_vpn1(vaddr.0 as int) && w0
                    == spec_vpn0(vaddr.0 as int)) ==> translate(*final(space), w1, w0) == translate(
                    *old(space),
                    w1,
                    w0,
                )
        },
        r is Err ==> *final(space) == *old(space) && *final(alloc) == *old(alloc),
{
    let vpn1 = vaddr.vpn1();
    let vpn0 = vaddr.vpn0();
    let rpte = space.root.entry(vpn1);

    let ghost s0 = *space;

    if rpte % 2 == 0 {
        // No leaf table yet: allocate one and hook it into the root.
        let f = match alloc.alloc_pages(PAGE_SIZE) {
            Ok(f) => f,
            Err(()) => {
                return Err(());
            },
        };
        let new_ppn = f.base.as_usize() / PAGE_SIZE;
        proof {
            assert(f.base.0 + 4096 <= old(alloc).end);
            assert(new_ppn * 4096 == f.base.0 as int);
            assert(new_ppn < 0x100000);
            assert forall|i: int| 0 <= i < s0.leaf_ppns.len() implies #[trigger] s0.leaf_ppns[i]
                != new_ppn by {
                assert((s0.leaf_ppns[i] + 1) * 4096 <= old(alloc).next.0);
            }
        }
        space.leaf_ppns.push(new_ppn);
        space.leaves.push(PageTable::new());
        let new_rpte = new_ppn * 1024 + 1;
        space.root.set_entry(vpn1, new_rpte);
        proof {
            lemma_space_wf_after_new_leaf(s0, *space, vpn1 as int, new_ppn);
        }
    }

    let rpte2 = space.root.entry(vpn1);
    let ghost s1 = *space;

    // Locate the leaf table the root entry points at.
    let target_ppn = rpte2 / 1024;
    let mut li: usize = 0;
    let n = space.leaf_ppns.len();
    proof {
        assert(pte_valid(s1.root.0[vpn1 as int]));
    }
    while li < n && space.leaf_ppns[li] != target_ppn
        invariant
            *space == s1,
            s1.wf(),
            li <= n,
            n == s1.leaf_ppns.len(),
            target_ppn == pte_ppn(s1.root.0[vpn1 as int]),
            vpn1 < 1024,
            forall|i: int| 0 <= i < li ==> #[trigger] s1.leaf_ppns[i] != target_ppn,
        decreases n - li,
    {
        li = li + 1;
    }
    proof {
        assert(li < n) by {
            assert(exists|i: int|
                0 <= i < s1.leaf_ppns.len() && #[trigger] s1.leaf_ppns[i] == pte_ppn(
                    s1.root.0[vpn1 as int],
                ));
        }
        lemma_leaf_idx(s1, li as int);
    }

    let pte = (paddr.as_usize() / PAGE_SIZE) * 1024 + (flags + 1);
    let leaf = &mut space.leaves[li];
    leaf.set_entry(vpn0, pte);
    proof {
        lemma_space_wf_after_leaf_write(s1, *space, li as int, vpn0 as int, pte);
        lemma_translate_after_leaf_write(s1, *space, li as int, vpn1 as int, vpn0 as int, pte);
    }
    Ok(())
}

/// Pushing a fresh, unreferenced leaf table and pointing one previously
/// invalid root entry at it preserves well-formedness and leaves every
/// mapping unchanged.
proof fn lemma_space_wf_after_new_leaf(s0: AddressSpace, s1: AddressSpace, v1: int, new_ppn: usize)
    requires
        s0.wf(),
        0 <= v1 < 1024,
        !pte_valid(s0.root.0[v1]),
        new_ppn < 0x100000,
        forall|i: int| 0 <= i < s0.leaf_ppns.len() ==> #[trigger] s0.leaf_ppns[i] != new_ppn,
        s1.leaf_ppns@ == s0.leaf_ppns@.push(new_ppn),
        s1.leaves@.len() == s0.leaves@.len() + 1,
        forall|i: int| 0 <= i < s0.leaves.len() ==> s1.leaves[i] == s0.leaves[i],
        s1.leaves[s0.leaves.len() as int].wf(),
        forall|j: int|
            0 <= j < 1024 ==> #[trigger] s1.leaves[s0.leaves.len() as int].0[j] == 0,
        s1.root.0@ == s0.root.0@.update(v1, (new_ppn * 1024 + 1) as usize),
        s1.root.wf(),
    ensures
        s1.wf(),
        forall|w1: int, w0: int|
            0 <= w1 < 1024 && 0 <= w0 < 1024 ==> translate(s1, w1, w0) == translate(s0, w1, w0),
{
    let nl = s0.leaves.len() as int;
    assert(pte_ppn(s1.root.0[v1]) == new_ppn && pte_flags(s1.root.0[v1]) == 1) by {
        assert(s1.root.0[v1] == (new_ppn * 1024 + 1) as usize);
        lemma_pte_fields(new_ppn as int, 1);
    }
    assert forall|v: int|
        0 <= v < 1024 && pte_valid(#[trigger] s1.root.0[v]) implies {
        &&& pte_flags(s1.root.0[v]) == 1
        &&& exists|i: int|
            0 <= i < s1.leaf_ppns.len() && #[trigger] s1.leaf_ppns[i] == pte_ppn(s1.root.0[v])
    } by {
        if v == v1 {
            assert(s1.leaf_ppns[nl] == new_ppn);
        } else {
            assert(s1.root.0[v] == s0.root.0[v]);
            let i = choose|i: int|
                0 <= i < s0.leaf_ppns.len() && #[trigger] s0.leaf_ppns[i] == pte_ppn(
                    s0.root.0[v],
                );
            assert(s1.leaf_ppns[i] == s0.leaf_ppns[i]);
        }
    }
    assert forall|v: int, w: int|
        0 <= v < w < 1024 && pte_valid(#[trigger] s1.root.0[v]) && pte_valid(
            #[trigger] s1.root.0[w],
        ) implies pte_ppn(s1.root.0[v]) != pte_ppn(s1.root.0[w]) by {
        if v == v1 || w == v1 {
            let u = if v == v1 {
                w
            } else {
                v
            };
            assert(s1.root.0[u] == s0.root.0[u]);
            let i = choose|i: int|
                0 <= i < s0.leaf_ppns.len() && #[trigger] s0.leaf_ppns[i] == pte_ppn(
                    s0.root.0[u],
                );
            assert(s0.leaf_ppns[i] != new_ppn);
        }
    }
    assert(s1.wf());
    assert forall|w1: int, w0: int| 0 <= w1 < 1024 && 0 <= w0 < 1024 implies translate(s1, w1, w0)
        == translate(s0, w1, w0) by {
        if w1 == v1 {
            lemma_leaf_idx(s1, nl);
            assert(translate(s1, w1, w0) is None);
        } else {
            if pte_valid(s0.root.0[w1]) {
                let i = choose|i: int|
                    0 <= i < s0.leaf_ppns.len() && #[trigger] s0.leaf_ppns[i] == pte_ppn(
                        s0.root.0[w1],
                    );
                lemma_leaf_idx(s0, i);
                lemma_leaf_idx(s1, i);
            }
        }
    }
}

/// Rewriting one entry of one leaf table preserves well-formedness.
proof fn lemma_space_wf_after_leaf_write(
    s1: AddressSpace,
    s2: AddressSpace,
    li: int,
    v0: int,
    pte: usize,
)
    requires
        s1.wf(),
        0 <= li < s1.leaves.len(),
        0 <= v0 < 1024,
        pte <= 0x3FFFFFFF,
        s2.root == s1.root,
        s2.root_pa == s1.root_pa,
        s2.leaf_ppns == s1.leaf_ppns,
        s2.leaves@.len() == s1.leaves@.len(),
        forall|i: int| 0 <= i < s1.leaves.len() && i != li ==> s2.leaves[i] == s1.leaves[i],
        s2.leaves[li].0@ == s1.leaves[li].0@.update(v0, pte),
    ensures
        s2.wf(),
{
    assert(s2.leaves[li].wf());
}

/// After rewriting entry `v0` of the leaf table that root entry `v1` points
/// at, the page at `(v1, v0)` maps through the new entry and every other
/// page maps as before.
proof fn lemma_translate_after_leaf_write(
    s1: AddressSpace,
    s2: AddressSpace,
    li: int,
    v1: int,
    v0: int,
    pte: usize,
)
    requires
        s1.wf(),
        s2.wf(),
        0 <= li < s1.leaves.len(),
        0 <= v1 < 1024,
        0 <= v0 < 1024,
        pte_valid(s1.root.0[v1]),
        s1.leaf_ppns[li] == pte_ppn(s1.root.0[v1]),
        s2.root == s1.root,
        s2.leaf_ppns == s1.leaf_ppns,
        s2.leaves@.len() == s1.leaves@.len(),
        forall|i: int| 0 <= i < s1.leaves.len() && i != li ==> s2.leaves[i] == s1.leaves[i],
        s2.leaves[li].0@ == s1.leaves[li].0@.update(v0, pte),
    ensures
        translate(s2, v1, v0) == if pte_valid(pte) {
            Some(pte)
        } else {
            None::<usize>
        },
        forall|w1: int, w0: int|
            0 <= w1 < 1024 && 0 <= w0 < 1024 && !(w1 == v1 && w0 == v0) ==> translate(s2, w1, w0)
                == translate(s1, w1, w0),
{
    lemma_leaf_idx(s1, li);
    lemma_leaf_idx(s2, li);
    assert forall|w1: int, w0: int|
        0 <= w1 < 1024 && 0 <= w0 < 1024 && !(w1 == v1 && w0 == v0) implies translate(s2, w1, w0)
        == translate(s1, w1, w0) by {
        if pte_valid(s1.root.0[w1]) {
            if w1 == v1 {
                // Same leaf, different entry.
            } else {
                // A different root entry points at a different leaf.
                let i = choose|i: int|
                    0 <= i < s1.leaf_ppns.len() && #[trigger] s1.leaf_ppns[i] == pte_ppn(
                        s1.root.0[w1],
                    );
                lemma_leaf_idx(s1, i);
                lemma_leaf_idx(s2, i);
                assert(i != li);
            }
        }
    }
}

} // verus!
