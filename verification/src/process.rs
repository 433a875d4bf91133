//! Process control blocks, kernel stacks, and callee-saved context
//! switching.
//!
//! A kernel stack is modelled as 2048 32-bit words (8192 bytes); a saved
//! stack pointer is a byte offset into that stack. The context switcher
//! spills the 13 callee-saved registers `ra, s0..s11` below the current
//! stack pointer and reloads them from the next process's stack.

use vstd::prelude::*;

use crate::address::{spec_align_up, align_up, PAddr, VAddr};
use crate::allocator::{lemma_pow2_4096, zeroed_bytes, BumpAllocator, PAGE_SIZE};
use crate::page::{
    lemma_va_parts, lemma_va_recompose, map_page, pte_valid, spec_make_pte, spec_vpn0, spec_vpn1, translate,
    va_of, AddressSpace, PAGE_R, PAGE_U, PAGE_W, PAGE_X,
};

verus! {

/// Maximum number of processes.
pub const PROCS_MAX: usize = 8;

/// The base virtual address of an application image.
pub const USER_BASE: usize = 0x1000000;

/// Enable user mode on `sret`.
pub const SSTATUS_SPIE: usize = 1 << 5;

/// Bytes in a kernel stack.
pub const STACK_BYTES: usize = 8192;

/// Words in a kernel stack.
pub const STACK_WORDS: usize = 2048;

/// Callee-saved registers spilled at a context switch: `ra, s0..s11`.
pub const CONTEXT_WORDS: usize = 13;

/// Bytes of one spilled register frame.
pub const CONTEXT_BYTES: usize = 52;

/// The model address of the kernel thunk that enters user mode: a fresh
/// process's first resume returns here.
pub const USER_ENTRY_RA: u32 = 0x80200000;

#[derive(Copy, Clone, Debug, PartialEq, Eq, Structural)]
pub enum State {
    /// Unused process control structure
    Unused,
    /// Runnable process
    Runnable,
    Exited,
}

/// One process control block.
pub struct Process {
    /// Process ID: 0 is reserved for the idle process.
    pub pid: usize,
    pub state: State,
    /// Saved stack pointer, as a byte offset into `stack`.
    pub sp: VAddr,
    pub page_table: Option<AddressSpace>,
    /// Kernel stack, as 32-bit words.
    pub stack: Vec<u32>,
    /// Contents of the process's mapped user-image region.
    pub user_mem: Vec<u8>,
    /// Physical base of the user-image frames.
    pub user_base_pa: PAddr,
}

impl Process {
    pub open spec fn wf(&self) -> bool {
        &&& self.stack.len() == STACK_WORDS
        &&& self.sp.0 as int % 4 == 0
        &&& self.sp.0 + CONTEXT_BYTES <= STACK_BYTES
    }

    /// An unused slot: zero PID, zeroed stack.
    pub fn empty() -> (r: Self)
        ensures
            r.wf(),
            r.pid == 0,
            r.state == State::Unused,
            r.sp.0 == 0,
            r.page_table is None,
            forall|i: int| 0 <= i < STACK_WORDS ==> #[trigger] r.stack[i] == 0,
            r.user_mem.len() == 0,
    {
        Process {
            pid: 0,
            state: State::Unused,
            sp: VAddr::new(0),
            page_table: None,
            stack: zeroed_words(STACK_WORDS),
            user_mem: Vec::new(),
            user_base_pa: PAddr::new(0),
        }
    }
}

/// All process control structures.
pub struct Procs(pub Vec<Process>);

impl Procs {
    /// The table holds `PROCS_MAX` well-formed slots, and a slot's PID is
    /// either 0 or one more than its index — so no two slots share a nonzero
    /// PID.
    pub open spec fn wf(&self) -> bool {
        &&& self.0.len() == PROCS_MAX
        &&& forall|i: int| 0 <= i < PROCS_MAX ==> (#[trigger] self.0[i]).wf()
        &&& forall|i: int|
            0 <= i < PROCS_MAX ==> (#[trigger] self.0[i]).pid == 0 || self.0[i].pid == i + 1
        &&& forall|i: int|
            0 <= i < PROCS_MAX && (#[trigger] self.0[i]).state == State::Runnable
                ==> self.0[i].page_table is Some
    }

    /// A table of unused slots.
    pub fn new() -> (r: Self)
        ensures
            r.wf(),
            forall|i: int| 0 <= i < PROCS_MAX ==> (#[trigger] r.0[i]).state == State::Unused,
            forall|i: int| 0 <= i < PROCS_MAX ==> (#[trigger] r.0[i]).pid == 0,
    {
        let mut v: Vec<Process> = Vec::new();
        while v.len() < PROCS_MAX
            invariant
                v.len() <= PROCS_MAX,
                forall|i: int| 0 <= i < v.len() ==> (#[trigger] v[i]).wf(),
                forall|i: int| 0 <= i < v.len() ==> (#[trigger] v[i]).state == State::Unused,
                forall|i: int| 0 <= i < v.len() ==> (#[trigger] v[i]).pid == 0,
            decreases PROCS_MAX - v.len(),
        {
            v.push(Process::empty());
        }
        Procs(v)
    }

    /// The first slot holding `pid`, if any.
    pub fn try_get_index(&self, pid: usize) -> (r: Option<usize>)
        requires
            self.wf(),
        ensures
            r matches Some(i) ==> {
                &&& i < PROCS_MAX
                &&& self.0[i as int].pid == pid
                &&& forall|j: int| 0 <= j < i ==> (#[trigger] self.0[j]).pid != pid
            },
            r is None ==> forall|j: int| 0 <= j < PROCS_MAX ==> (#[trigger] self.0[j]).pid != pid,
    {
        let mut i: usize = 0;
        while i < PROCS_MAX
            invariant
                self.wf(),
                i <= PROCS_MAX,
                forall|j: int| 0 <= j < i ==> (#[trigger] self.0[j]).pid != pid,
            decreases PROCS_MAX - i,
        {
            if self.0[i].pid == pid {
                return Some(i);
            }
            i = i + 1;
        }
        None
    }
}

/// At most one slot holds any nonzero PID: two distinct slots with the same
/// PID force that PID to be zero.
pub proof fn lemma_unique_pids(procs: Procs, i: int, j: int)
    requires
        procs.wf(),
        0 <= i < PROCS_MAX,
        0 <= j < PROCS_MAX,
        i != j,
        procs.0[i].pid == procs.0[j].pid,
    ensures
        procs.0[i].pid == 0,
{
}

/// The live register file of the single hart: the callee-saved registers
/// and the current kernel stack pointer (a byte offset into the running
/// process's stack).
pub struct CpuContext {
    /// `ra, s0..s11`.
    pub regs: Vec<u32>,
    /// Byte offset into the running process's kernel stack.
    pub sp: usize,
}

impl CpuContext {
    pub open spec fn wf(&self) -> bool {
        &&& self.regs.len() == CONTEXT_WORDS
        &&& self.sp % 4 == 0
        &&& CONTEXT_BYTES <= self.sp <= STACK_BYTES
    }
}

/// The stack after a register frame is spilled below byte offset `sp`.
pub open spec fn spec_ctx_save(stack: Seq<u32>, sp: int, regs: Seq<u32>) -> Seq<u32> {
    Seq::new(
        stack.len(),
        |i: int|
            if sp / 4 - 13 <= i < sp / 4 {
                regs[i - (sp / 4 - 13)]
            } else {
                stack[i]
            },
    )
}

/// The register frame stored at byte offset `sp`.
pub open spec fn spec_ctx_restore(stack: Seq<u32>, sp: int) -> Seq<u32> {
    stack.subrange(sp / 4, sp / 4 + 13)
}

/// Spills the 13 callee-saved registers below `sp`; returns the new stack
/// pointer, which addresses the spilled frame.
pub fn context_save(stack: &mut Vec<u32>, sp: usize, regs: &Vec<u32>) -> (new_sp: usize)
    requires
        old(stack).len() == STACK_WORDS,
        regs.len() == CONTEXT_WORDS,
        sp % 4 == 0,
        CONTEXT_BYTES <= sp <= STACK_BYTES,
    ensures
        new_sp == sp - CONTEXT_BYTES,
        final(stack)@ =~= spec_ctx_save(old(stack)@, sp as int, regs@),
{
    let base = sp / 4 - 13;
    let mut k: usize = 0;
    while k < CONTEXT_WORDS
        invariant
            stack.len() == STACK_WORDS,
            regs.len() == CONTEXT_WORDS,
            sp % 4 == 0,
            CONTEXT_BYTES <= sp <= STACK_BYTES,
            base == sp / 4 - 13,
            k <= CONTEXT_WORDS,
            forall|i: int|
                0 <= i < STACK_WORDS && !(base <= i < base + k) ==> #[trigger] stack[i] == old(
                    stack,
                )[i],
            forall|i: int| base <= i < base + k ==> #[trigger] stack[i] == regs[i - base],
        decreases CONTEXT_WORDS - k,
    {
        let v = regs[k];
        stack.set(base + k, v);
        k = k + 1;
    }
    sp - CONTEXT_BYTES
}

/// Reloads the 13 callee-saved registers from the frame at `sp`; returns
/// them with the new stack pointer, which addresses the word above the
/// frame.
pub fn context_restore(stack: &Vec<u32>, sp: usize) -> (r: (Vec<u32>, usize))
    requires
        stack.len() == STACK_WORDS,
        sp % 4 == 0,
        sp + CONTEXT_BYTES <= STACK_BYTES,
    ensures
        r.0@ =~= spec_ctx_restore(stack@, sp as int),
        r.0.len() == CONTEXT_WORDS,
        r.1 == sp + CONTEXT_BYTES,
{
    let base = sp / 4;
    let mut regs: Vec<u32> = Vec::new();
    while regs.len() < CONTEXT_WORDS
        invariant
            stack.len() == STACK_WORDS,
            sp % 4 == 0,
            sp + CONTEXT_BYTES <= STACK_BYTES,
            base == sp / 4,
            regs.len() <= CONTEXT_WORDS,
            forall|i: int| 0 <= i < regs.len() ==> #[trigger] regs[i] == stack[base + i],
        decreases CONTEXT_WORDS - regs.len(),
    {
        let k = regs.len();
        regs.push(stack[base + k]);
    }
    proof {
        assert(regs@ =~= spec_ctx_restore(stack@, sp as int));
    }
    (regs, sp + CONTEXT_BYTES)
}

/// Restoring from the stack pointer a spill produced hands back exactly the
/// registers that were spilled: a process resumed after a context switch
/// sees its callee-saved registers bit-identical.
pub proof fn lemma_context_round_trip(stack: Seq<u32>, sp: int, regs: Seq<u32>)
    requires
        stack.len() == STACK_WORDS,
        regs.len() == CONTEXT_WORDS,
        sp % 4 == 0,
        CONTEXT_BYTES <= sp <= STACK_BYTES,
    ensures
        spec_ctx_restore(spec_ctx_save(stack, sp, regs), sp - CONTEXT_BYTES) =~= regs,
{
    assert((sp - 52) / 4 == sp / 4 - 13);
}

/// Switches from the process in slot `cur` to the one in slot `next`: the
/// live registers are spilled onto `cur`'s stack and `cur.sp` records the
/// frame; the registers stored at `next.sp` become live and the stack
/// pointer moves above them. No other slot and no other stack word changes.
pub fn switch_context(procs: &mut Procs, cpu: &mut CpuContext, cur: usize, next: usize)
    requires
        old(procs).wf(),
        old(cpu).wf(),
        cur < PROCS_MAX,
        next < PROCS_MAX,
        cur != next,
    ensures
        final(procs).wf(),
        final(cpu).wf(),
        final(procs).0[cur as int].stack@ =~= spec_ctx_save(
            old(procs).0[cur as int].stack@,
            old(cpu).sp as int,
            old(cpu).regs@,
        ),
        final(procs).0[cur as int].sp.0 == old(cpu).sp - CONTEXT_BYTES,
        final(cpu).regs@ =~= spec_ctx_restore(
            old(procs).0[next as int].stack@,
            old(procs).0[next as int].sp.0 as int,
        ),
        final(cpu).sp == old(procs).0[next as int].sp.0 + CONTEXT_BYTES,
        final(procs).0[cur as int].pid == old(procs).0[cur as int].pid,
        final(procs).0[cur as int].state == old(procs).0[cur as int].state,
        final(procs).0[cur as int].page_table == old(procs).0[cur as int].page_table,
        final(procs).0[cur as int].user_mem == old(procs).0[cur as int].user_mem,
        forall|i: int| 0 <= i < PROCS_MAX && i != cur ==> final(procs).0[i] == old(procs).0[i],
{
    let (nregs, nsp) = context_restore(&procs.0[next].stack, procs.0[next].sp.as_usize());
    let p = &mut procs.0[cur];
    let new_sp = context_save(&mut p.stack, cpu.sp, &cpu.regs);
    p.sp = VAddr::new(new_sp);
    cpu.regs = nregs;
    cpu.sp = nsp;
}

/// The mapping a freshly created process's address space must show: the
/// user image at `USER_BASE` backed by the frames at `user_pa`, the kernel
/// region identity-mapped, and nothing else.
pub open spec fn expected_mapping(
    kernel_base: int,
    free_ram_end: int,
    user_pa: int,
    user_len: int,
    va: int,
) -> Option<usize> {
    if USER_BASE <= va < USER_BASE + user_len {
        Some(spec_make_pte((user_pa + (va - USER_BASE)) / 4096, 31) as usize)
    } else if kernel_base <= va < free_ram_end {
        Some(spec_make_pte(va / 4096, 15) as usize)
    } else {
        None
    }
}

/// The address space maps exactly what `expected_mapping` prescribes.
pub open spec fn maps_kernel_and_user(
    s: AddressSpace,
    kernel_base: int,
    free_ram_end: int,
    user_pa: int,
    user_len: int,
) -> bool {
    forall|v1: int, v0: int|
        0 <= v1 < 1024 && 0 <= v0 < 1024 ==> #[trigger] translate(s, v1, v0) == expected_mapping(
            kernel_base,
            free_ram_end,
            user_pa,
            user_len,
            va_of(v1, v0),
        )
}

/// The U bit of a page-table entry.
pub open spec fn pte_user(pte: usize) -> bool {
    (crate::page::pte_flags(pte) / 16) % 2 == 1
}

/// In a created process's address space, every user-accessible mapping lies
/// inside the user image window; every page of the kernel region is mapped
/// to itself, readable, writable and executable but not user-accessible;
/// and nothing outside the two windows is mapped.
pub proof fn lemma_user_mappings_confined(
    s: AddressSpace,
    kernel_base: int,
    free_ram_end: int,
    user_pa: int,
    user_len: int,
    v1: int,
    v0: int,
)
    requires
        maps_kernel_and_user(s, kernel_base, free_ram_end, user_pa, user_len),
        0 <= v1 < 1024,
        0 <= v0 < 1024,
        0 <= user_len,
        USER_BASE + user_len <= kernel_base,
        kernel_base <= free_ram_end <= 0x100000000,
        user_pa % 4096 == 0,
        0 <= user_pa,
        user_pa + user_len <= 0x100000000,
    ensures
        translate(s, v1, v0) matches Some(pte) && pte_user(pte) ==> USER_BASE <= va_of(v1, v0)
            < USER_BASE + user_len,
        kernel_base <= va_of(v1, v0) < free_ram_end ==> translate(s, v1, v0) == Some(
            spec_make_pte(va_of(v1, v0) / 4096, 15) as usize,
        ),
        kernel_base <= va_of(v1, v0) < free_ram_end ==> !pte_user(
            translate(s, v1, v0).unwrap(),
        ),
        !(USER_BASE <= va_of(v1, v0) < USER_BASE + user_len) && !(kernel_base <= va_of(v1, v0)
            < free_ram_end) ==> translate(s, v1, v0) is None,
{
    lemma_va_parts(v1, v0);
    let va = va_of(v1, v0);
    if USER_BASE <= va < USER_BASE + user_len {
        let ppn = (user_pa + (va - USER_BASE)) / 4096;
        assert(0 <= ppn < 0x100000000) by {
            vstd::arithmetic::div_mod::lemma_div_pos_is_pos(user_pa + (va - USER_BASE), 4096);
            vstd::arithmetic::div_mod::lemma_div_is_ordered(
                user_pa + (va - USER_BASE),
                0x100000000,
                4096,
            );
        }
        crate::page::lemma_pte_fields(ppn, 31);
        assert(pte_user((spec_make_pte(ppn, 31)) as usize));
    } else if kernel_base <= va < free_ram_end {
        let ppn = va / 4096;
        assert(0 <= ppn < 0x100000000) by {
            vstd::arithmetic::div_mod::lemma_div_pos_is_pos(va, 4096);
            vstd::arithmetic::div_mod::lemma_div_is_ordered(va, 0x100000000, 4096);
        }
        crate::page::lemma_pte_fields(ppn, 15);
        assert(!pte_user((spec_make_pte(ppn, 15)) as usize));
    }
}

/// Maps every page of `[va_base, va_base + len)` to `pa_base` plus the same
/// offset, with `flags | V`; every other mapping is left unchanged.
#[verifier::rlimit(100)]
fn map_range(
    space: &mut AddressSpace,
    alloc: &mut BumpAllocator,
    va_base: usize,
    pa_base: usize,
    len: usize,
    flags: usize,
) -> (r: ())
    requires
        old(space).wf(),
        old(alloc).wf(),
        old(space).below(*old(alloc)),
        va_base as int % 4096 == 0,
        pa_base as int % 4096 == 0,
        len as int % 4096 == 0,
        va_base + len <= 0xFFFFFFFF,
        pa_base + len <= 0xFFFFFFFF,
        old(alloc).end <= 0xFFFFFFFF,
        old(alloc).next.0 + 4096 * crate::page::region_leaves(va_base as int, len as int) <= old(
            alloc,
        ).end,
        flags % 2 == 0,
        flags < 1024,
    ensures
        final(space).wf(),
        final(alloc).wf(),
        final(space).below(*final(alloc)),
        final(alloc).end == old(alloc).end,
        old(alloc).next.0 <= final(alloc).next.0 <= old(alloc).next.0 + 4096
            * crate::page::region_leaves(va_base as int, len as int),
        final(space).root_pa == old(space).root_pa,
        forall|v1: int, v0: int|
            0 <= v1 < 1024 && 0 <= v0 < 1024 ==> #[trigger] translate(*final(space), v1, v0) == {
                let va = va_of(v1, v0);
                if va_base <= va < va_base + len {
                    Some(
                        spec_make_pte((pa_base + (va - va_base)) / 4096, flags as int + 1) as usize,
                    )
                } else {
                    translate(*old(space), v1, v0)
                }
            },
{
    let pages = len / PAGE_SIZE;
    let ghost next0 = alloc.next.0 as int;
    proof {
        vstd::arithmetic::div_mod::lemma_fundamental_div_mod(len as int, 4096);
    }
    let mut j: usize = 0;
    while j < pages
        invariant
            space.wf(),
            alloc.wf(),
            space.below(*alloc),
            j <= pages,
            pages == len as int / 4096,
            len == pages * 4096,
            va_base as int % 4096 == 0,
            pa_base as int % 4096 == 0,
            va_base + len <= 0xFFFFFFFF,
            pa_base + len <= 0xFFFFFFFF,
            alloc.end == old(alloc).end,
            alloc.end <= 0xFFFFFFFF,
            next0 == old(alloc).next.0,
            alloc.next.0 >= next0,
            j == 0 ==> alloc.next.0 == next0,
            j >= 1 ==> alloc.next.0 <= next0 + 4096 * ((va_base + (j - 1) * 4096) as int
                / 0x400000 - va_base as int / 0x400000 + 1),
            next0 + 4096 * crate::page::region_leaves(va_base as int, len as int) <= alloc.end,
            flags % 2 == 0,
            flags < 1024,
            space.root_pa == old(space).root_pa,
            forall|v1: int, v0: int|
                0 <= v1 < 1024 && 0 <= v0 < 1024 ==> #[trigger] translate(*space, v1, v0) == {
                    let va = va_of(v1, v0);
                    if va_base <= va < va_base + j * 4096 {
                        Some(
                            spec_make_pte(
                                (pa_base + (va - va_base)) / 4096,
                                flags as int + 1,
                            ) as usize,
                        )
                    } else {
                        translate(*old(space), v1, v0)
                    }
                },
        decreases pages - j,
    {
        proof {
            assert(j * 4096 + 4096 == (j + 1) * 4096) by (nonlinear_arith);
            assert((j + 1) * 4096 <= pages * 4096) by (nonlinear_arith)
                requires
                    j + 1 <= pages,
            ;
        }
        let va = va_base + j * PAGE_SIZE;
        let pa = pa_base + j * PAGE_SIZE;
        let ghost sp = *space;
        proof {
            vstd::arithmetic::div_mod::lemma_mod_adds(va_base as int, (j * 4096) as int, 4096);
            vstd::arithmetic::div_mod::lemma_mod_adds(pa_base as int, (j * 4096) as int, 4096);
            assert((j * 4096) as int % 4096 == 0) by {
                vstd::arithmetic::div_mod::lemma_mod_multiples_basic(j as int, 4096);
            }
            vstd::arithmetic::div_mod::lemma_small_mod(0, 4096);
        }
        let ghost d: int = 0x400000;
        let ghost q0 = va_base as int / d;
        let ghost qj = (va_base + j * 4096) as int / d;
        let ghost qlast = (va_base + len - 4096) as int / d;
        proof {
            vstd::arithmetic::div_mod::lemma_div_is_ordered(
                (va_base + j * 4096) as int,
                (va_base + len - 4096) as int,
                d,
            );
            vstd::arithmetic::div_mod::lemma_div_is_ordered(va_base as int, (va_base + j * 4096) as int, d);
            crate::page::lemma_region_leaves_pos(va_base as int, len as int);
            if j >= 1 {
                let x = (va_base + (j - 1) * 4096) as int;
                assert((j - 1) * 4096 + 4096 == j * 4096) by (nonlinear_arith);
                vstd::arithmetic::div_mod::lemma_div_is_ordered(x + 4096, x + d, d);
                vstd::arithmetic::div_mod::lemma_div_plus_one(x, d);
                vstd::arithmetic::div_mod::lemma_div_is_ordered(x, x + 4096, d);
                assert(x / d <= qj <= x / d + 1);
                if qj == x / d {
                    // The previous page lies in the same second-level
                    // region, so its mapping already validated this page's
                    // root entry.
                    lemma_va_recompose(x);
                    let pv1 = spec_vpn1(x);
                    let pv0 = spec_vpn0(x);
                    assert(va_base <= va_of(pv1, pv0) < va_base + j * 4096);
                    assert(translate(*space, pv1, pv0) is Some);
                    assert(pte_valid(space.root.0[pv1]));
                    assert(spec_vpn1(va as int) == pv1) by {
                        vstd::arithmetic::div_mod::lemma_mod_adds(va_base as int, (j * 4096) as int, 4096);
                    }
                }
            }
        }
        let res = map_page(space, alloc, VAddr::new(va), PAddr::new(pa), flags);
        proof {
            assert(res is Ok);
            lemma_va_recompose(va as int);
            let nv1 = spec_vpn1(va as int);
            let nv0 = spec_vpn0(va as int);
            assert forall|v1: int, v0: int| 0 <= v1 < 1024 && 0 <= v0 < 1024 implies #[trigger]
                translate(*space, v1, v0) == {
                let vaw = va_of(v1, v0);
                if va_base <= vaw < va_base + (j + 1) * 4096 {
                    Some(
                        spec_make_pte((pa_base + (vaw - va_base)) / 4096, flags as int + 1) as usize,
                    )
                } else {
                    translate(*old(space), v1, v0)
                }
            } by {
                lemma_va_parts(v1, v0);
                let vaw = va_of(v1, v0);
                if v1 == nv1 && v0 == nv0 {
                    assert(vaw == va);
                    assert(translate(*space, v1, v0) == Some(
                        spec_make_pte(pa as int / 4096, flags as int + 1) as usize,
                    ));
                    assert(pa as int / 4096 == (pa_base + (vaw - va_base)) / 4096);
                } else {
                    assert(translate(*space, v1, v0) == translate(sp, v1, v0));
                    assert(vaw != va);
                    if va_base <= vaw < va_base + (j + 1) * 4096 && !(va_base <= vaw < va_base + j
                        * 4096) {
                        assert(va_base + j * 4096 <= vaw < va_base + j * 4096 + 4096);
                        assert(vaw % 4096 == 0);
                        assert(va as int % 4096 == 0);
                        assert(vaw == va) by {
                            vstd::arithmetic::div_mod::lemma_fundamental_div_mod(vaw, 4096);
                            vstd::arithmetic::div_mod::lemma_fundamental_div_mod(va as int, 4096);
                            vstd::arithmetic::div_mod::lemma_indistinguishable_quotients(
                                vaw,
                                va as int,
                                4096,
                            );
                        }
                    }
                }
            }
            assert(alloc.next.0 <= next0 + 4096 * (qj - q0 + 1));
        }
        j = j + 1;
    }
    proof {
        if pages > 0 {
            assert((pages - 1) * 4096 == len - 4096) by (nonlinear_arith)
                requires
                    len == pages * 4096,
                    pages >= 1,
            ;
        }
    }
}

/// Allocates an unused PCB, prepares its kernel stack so the context
/// switcher resumes it in the user-entry thunk, builds its address space
/// (kernel region identity-mapped, image copied into fresh zero-padded
/// frames and mapped at `USER_BASE`), and marks it runnable. The new PID is
/// one more than the first unused slot's index.
#[verifier::rlimit(100)]
#[verifier::loop_isolation(false)]
pub fn create_process(
    procs: &mut Procs,
    alloc: &mut BumpAllocator,
    image: &Vec<u8>,
    kernel_base: usize,
    free_ram_end: usize,
) -> (pid: usize)
    requires
        old(procs).wf(),
        old(alloc).wf(),
        exists|i: int| 0 <= i < PROCS_MAX && (#[trigger] old(procs).0[i]).state == State::Unused,
        kernel_base as int % 4096 == 0,
        free_ram_end as int % 4096 == 0,
        kernel_base <= free_ram_end <= 0xFFFFFFFF,
        old(alloc).end <= 0xFFFFFFFF,
        USER_BASE + spec_align_up(image.len() as int, 4096) <= kernel_base,
        old(alloc).next.0 + 4096 + 4096 * crate::page::region_leaves(
            kernel_base as int,
            free_ram_end - kernel_base,
        ) + spec_align_up(image.len() as int, 4096) + 4096 * crate::page::region_leaves(
            USER_BASE as int,
            spec_align_up(image.len() as int, 4096),
        ) <= old(alloc).end,
    ensures
        final(procs).wf(),
        final(alloc).wf(),
        final(alloc).end == old(alloc).end,
        final(alloc).next.0 >= old(alloc).next.0,
        1 <= pid <= PROCS_MAX,
        old(procs).0[pid - 1].state == State::Unused,
        forall|j: int| 0 <= j < pid - 1 ==> (#[trigger] old(procs).0[j]).state != State::Unused,
        forall|j: int|
            0 <= j < PROCS_MAX && j != pid - 1 ==> final(procs).0[j] == old(procs).0[j],
        ({
            let p = final(procs).0[pid - 1];
            &&& p.pid == pid
            &&& p.state == State::Runnable
            &&& p.sp.0 == STACK_BYTES - CONTEXT_BYTES
            &&& p.stack.len() == STACK_WORDS
            &&& p.stack[STACK_WORDS - CONTEXT_WORDS] == USER_ENTRY_RA
            &&& forall|i: int|
                0 <= i < STACK_WORDS && i != STACK_WORDS - CONTEXT_WORDS
                    ==> #[trigger] p.stack[i] == 0
            &&& p.user_mem.len() == spec_align_up(image.len() as int, 4096)
            &&& forall|i: int| 0 <= i < image.len() ==> #[trigger] p.user_mem[i] == image[i]
            &&& forall|i: int|
                image.len() <= i < p.user_mem.len() ==> #[trigger] p.user_mem[i] == 0
            &&& p.user_base_pa.0 as int % 4096 == 0
            &&& p.page_table matches Some(s) && s.wf() && maps_kernel_and_user(
                s,
                kernel_base as int,
                free_ram_end as int,
                p.user_base_pa.0 as int,
                spec_align_up(image.len() as int, 4096),
            )
        }),
{
    proof {
        lemma_pow2_4096();
        if kernel_base < free_ram_end {
            crate::page::lemma_region_leaves_pos(
                kernel_base as int,
                free_ram_end - kernel_base,
            );
        }
        if image.len() > 0 {
            crate::address::lemma_align_up_props(image.len() as int, 4096);
            crate::page::lemma_region_leaves_pos(
                USER_BASE as int,
                spec_align_up(image.len() as int, 4096),
            );
        }
    }

    // Find the first unused process control structure.
    let mut idx: usize = 0;
    while idx < PROCS_MAX && !matches!(procs.0[idx].state, State::Unused)
        invariant
            procs.wf(),
            idx <= PROCS_MAX,
            forall|j: int| 0 <= j < idx ==> (#[trigger] procs.0[j]).state != State::Unused,
        decreases PROCS_MAX - idx,
    {
        idx = idx + 1;
    }
    proof {
        assert(idx < PROCS_MAX);
    }

    // Stack the callee-saved registers restored by the first context
    // switch: `ra` holds the user-entry thunk, `s0..s11` are zero.
    let mut stack = zeroed_words(STACK_WORDS);
    stack.set(STACK_WORDS - CONTEXT_WORDS, USER_ENTRY_RA);

    // Build the page table, starting from an empty address space.
    let mut space = match AddressSpace::new(alloc) {
        Ok(s) => s,
        Err(()) => vstd::pervasive::unreached(),
    };

    // Map kernel pages: identity over the whole kernel region.
    proof {
        assert((PAGE_R | PAGE_W | PAGE_X) == 14usize) by (bit_vector);
    }
    map_range(
        &mut space,
        alloc,
        kernel_base,
        kernel_base,
        free_ram_end - kernel_base,
        PAGE_R | PAGE_W | PAGE_X,
    );

    // Map user pages: the image, zero-padded to whole pages, in freshly
    // allocated frames.
    let aligned_size = align_up(image.len(), PAGE_SIZE);
    let mut user_mem: Vec<u8>;
    let user_base_pa: PAddr;
    if image.len() > 0 {
        let mut f = match alloc.alloc_pages(image.len()) {
            Ok(f) => f,
            Err(()) => vstd::pervasive::unreached(),
        };
        let ghost fb = f.base;
        let ghost flen = f.data.len() as int;
        let mut j: usize = 0;
        while j < image.len()
            invariant
                j <= image.len() <= f.data.len(),
                f.base == fb,
                f.data.len() == flen,
                forall|i: int| 0 <= i < j ==> #[trigger] f.data[i] == image[i],
                forall|i: int| j <= i < f.data.len() ==> #[trigger] f.data[i] == 0,
            decreases image.len() - j,
        {
            let b = image[j];
            f.data.set(j, b);
            j = j + 1;
        }
        user_base_pa = f.base;
        proof {
            assert((PAGE_U | PAGE_R | PAGE_W | PAGE_X) == 30usize) by (bit_vector);
        }
        map_range(
            &mut space,
            alloc,
            USER_BASE,
            f.base.as_usize(),
            aligned_size,
            PAGE_U | PAGE_R | PAGE_W | PAGE_X,
        );
        user_mem = f.data;
    } else {
        user_mem = Vec::new();
        user_base_pa = PAddr::new(0);
    }

    proof {
        assert forall|v1: int, v0: int| 0 <= v1 < 1024 && 0 <= v0 < 1024 implies #[trigger]
            translate(space, v1, v0) == expected_mapping(
            kernel_base as int,
            free_ram_end as int,
            user_base_pa.0 as int,
            spec_align_up(image.len() as int, 4096),
            va_of(v1, v0),
        ) by {
            lemma_va_parts(v1, v0);
        }
    }

    // Initialise fields.
    let p = Process {
        pid: idx + 1,
        state: State::Runnable,
        sp: VAddr::new(STACK_BYTES - CONTEXT_BYTES),
        page_table: Some(space),
        stack,
        user_mem,
        user_base_pa,
    };
    procs.0.set(idx, p);

    idx + 1
}

/// A vector of `n` zero words.
fn zeroed_words(n: usize) -> (r: Vec<u32>)
    ensures
        r.len() == n,
        forall|i: int| 0 <= i < n ==> #[trigger] r[i] == 0,
{
    let mut v: Vec<u32> = Vec::new();
    while v.len() < n
        invariant
            v.len() <= n,
            forall|i: int| 0 <= i < v.len() ==> #[trigger] v[i] == 0,
        decreases n - v.len(),
    {
        v.push(0);
    }
    v
}

} // verus!
