//! Cooperative round-robin scheduler: selection of the next runnable
//! process, lazy creation of the idle process on the first yield, and the
//! context-switch driver.

use vstd::prelude::*;

use crate::allocator::BumpAllocator;
use crate::address::spec_align_up;
use crate::page::SATP_SV32;
use crate::process::{
    create_process, switch_context, CpuContext, Process, Procs, State, CONTEXT_BYTES, PROCS_MAX,
    STACK_BYTES, USER_BASE,
};

verus! {

/// PID of the idle process.
pub const IDLE_PID: usize = 0;

/// Scheduler state: the idle process and the currently running process,
/// both absent until the first yield.
pub struct Scheduler {
    pub idle_proc: Option<usize>,
    pub current_proc: Option<usize>,
}

/// A slot the round-robin scan may pick: runnable and not the idle process.
pub open spec fn runnable_nonidle(p: Process) -> bool {
    p.state == State::Runnable && p.pid != IDLE_PID
}

/// The slot visited at step `k` of a cyclic scan that starts after
/// `current_index`.
pub open spec fn cyc(current_index: int, k: int) -> int {
    (current_index + 1 + k) % (PROCS_MAX as int)
}

impl Scheduler {
    pub fn new() -> (r: Self)
        ensures
            r.idle_proc is None,
            r.current_proc is None,
    {
        Scheduler { idle_proc: None, current_proc: None }
    }

    /// The scheduler's view of the process table is consistent: the idle
    /// PID is 0 and, once present, the first slot with PID 0 holds a
    /// runnable process; the current PID always names a slot; before the
    /// idle process exists, no occupied slot has PID 0.
    pub open spec fn wf(&self, procs: Procs) -> bool {
        &&& self.idle_proc is Some <==> self.current_proc is Some
        &&& self.idle_proc matches Some(ip) ==> ip == IDLE_PID
        &&& self.idle_proc is Some ==> exists|i: int|
            0 <= i < PROCS_MAX && (#[trigger] procs.0[i]).pid == 0 && procs.0[i].state
                == State::Runnable && (forall|j: int| 0 <= j < i ==> (#[trigger] procs.0[j]).pid != 0)
        &&& self.current_proc matches Some(c) ==> exists|i: int|
            0 <= i < PROCS_MAX && (#[trigger] procs.0[i]).pid == c
        &&& self.idle_proc is None ==> forall|i: int|
            0 <= i < PROCS_MAX && (#[trigger] procs.0[i]).pid == 0 ==> procs.0[i].state
                == State::Unused
    }
}

/// Every slot is reached by the cyclic scan: step `k` lands on slot `i`.
pub proof fn lemma_cyc_covers(current_index: int, i: int) -> (k: int)
    requires
        0 <= current_index < PROCS_MAX,
        0 <= i < PROCS_MAX,
    ensures
        0 <= k < PROCS_MAX,
        cyc(current_index, k) == i,
{
    let n = PROCS_MAX as int;
    let k = if i >= current_index + 1 {
        i - current_index - 1
    } else {
        i + n - current_index - 1
    };
    if i >= current_index + 1 {
        vstd::arithmetic::div_mod::lemma_small_mod(i as nat, n as nat);
    } else {
        vstd::arithmetic::div_mod::lemma_mod_add_multiples_vanish(i, n);
        vstd::arithmetic::div_mod::lemma_small_mod(i as nat, n as nat);
    }
    k
}

/// Round-robin selection: starting after `current_index`, scan every slot
/// cyclically and pick the PID of the first runnable non-idle process; if
/// there is none, pick the idle PID.
pub fn pick_next(procs: &Procs, current_index: usize) -> (next: usize)
    requires
        procs.wf(),
        current_index < PROCS_MAX,
    ensures
        ({
            ||| exists|k: int|
                0 <= k < PROCS_MAX && runnable_nonidle(
                    #[trigger] procs.0[cyc(current_index as int, k)],
                ) && next == procs.0[cyc(current_index as int, k)].pid && (forall|m: int|
                    0 <= m < k ==> !runnable_nonidle(
                        #[trigger] procs.0[cyc(current_index as int, m)],
                    ))
            ||| (forall|m: int|
                0 <= m < PROCS_MAX ==> !runnable_nonidle(
                    #[trigger] procs.0[cyc(current_index as int, m)],
                )) && next == IDLE_PID
        }),
{
    let mut k: usize = 0;
    while k < PROCS_MAX
        invariant
            procs.wf(),
            current_index < PROCS_MAX,
            k <= PROCS_MAX,
            forall|m: int|
                0 <= m < k ==> !runnable_nonidle(#[trigger] procs.0[cyc(current_index as int, m)]),
        decreases PROCS_MAX - k,
    {
        let i = (current_index + 1 + k) % PROCS_MAX;
        let cand = &procs.0[i];
        if matches!(cand.state, State::Runnable) && cand.pid != IDLE_PID {
            proof {
                assert(cyc(current_index as int, k as int) == i as int);
                assert(runnable_nonidle(procs.0[cyc(current_index as int, k as int)]));
            }
            return procs.0[i].pid;
        }
        k = k + 1;
    }
    IDLE_PID
}

/// What an actual switch asks the hardware to do: install the next
/// process's page-table root in `satp` (bracketed by `sfence.vma`) and its
/// kernel stack top in `sscratch`.
pub struct SwitchAction {
    pub satp: usize,
    pub sscratch: usize,
}

/// One cooperative yield: on the first call the idle process is created
/// (PID forced to 0) and made current; then the round-robin pick runs, and
/// if it differs from the current process the kernel switches context to it
/// and reports the `satp` and `sscratch` values to install.
#[verifier::rlimit(100)]
#[verifier::loop_isolation(false)]
pub fn yield_now(
    sched: &mut Scheduler,
    procs: &mut Procs,
    cpu: &mut CpuContext,
    alloc: &mut BumpAllocator,
    kernel_base: usize,
    free_ram_end: usize,
) -> (r: Option<SwitchAction>)
    requires
        old(procs).wf(),
        old(cpu).wf(),
        old(alloc).wf(),
        old(sched).wf(*old(procs)),
        old(sched).idle_proc is None ==> {
            &&& exists|i: int|
                0 <= i < PROCS_MAX && (#[trigger] old(procs).0[i]).state == State::Unused
            &&& kernel_base as int % 4096 == 0
            &&& free_ram_end as int % 4096 == 0
            &&& kernel_base <= free_ram_end <= 0xFFFFFFFF
            &&& old(alloc).end <= 0xFFFFFFFF
            &&& USER_BASE <= kernel_base
            &&& old(alloc).next.0 + 4096 + 4096 * crate::page::region_leaves(
                kernel_base as int,
                free_ram_end - kernel_base,
            ) <= old(alloc).end
        },
    ensures
        final(procs).wf(),
        final(cpu).wf(),
        final(alloc).wf(),
        final(alloc).end == old(alloc).end,
        old(sched).idle_proc is Some ==> *final(alloc) == *old(alloc),
        final(sched).wf(*final(procs)),
        final(sched).idle_proc == Some(IDLE_PID),
        final(sched).current_proc is Some,
        old(sched).idle_proc is Some ==> forall|i: int|
            0 <= i < PROCS_MAX ==> {
                &&& (#[trigger] final(procs).0[i]).pid == old(procs).0[i].pid
                &&& final(procs).0[i].state == old(procs).0[i].state
                &&& final(procs).0[i].page_table == old(procs).0[i].page_table
                &&& final(procs).0[i].user_mem == old(procs).0[i].user_mem
            },
        // No occupied slot is repurposed, and scheduling never rewrites a
        // process's identity, state, address space or user memory.
        forall|i: int|
            0 <= i < PROCS_MAX && (#[trigger] old(procs).0[i]).state != State::Unused ==> {
                &&& final(procs).0[i].pid == old(procs).0[i].pid
                &&& final(procs).0[i].state == old(procs).0[i].state
                &&& final(procs).0[i].page_table == old(procs).0[i].page_table
                &&& final(procs).0[i].user_mem == old(procs).0[i].user_mem
            },
        forall|i: int|
            0 <= i < PROCS_MAX && (#[trigger] old(procs).0[i]).state == State::Unused ==> {
                ||| final(procs).0[i].state == State::Unused
                ||| (final(procs).0[i].pid == IDLE_PID && final(procs).0[i].state
                    == State::Runnable)
            },
        // If any non-idle process is runnable, the scheduled process is not
        // idle; if none is, the idle process is scheduled.
        (exists|i: int| 0 <= i < PROCS_MAX && runnable_nonidle(#[trigger] final(procs).0[i]))
            ==> final(sched).current_proc != Some(IDLE_PID),
        (forall|i: int| 0 <= i < PROCS_MAX ==> !runnable_nonidle(#[trigger] final(procs).0[i]))
            ==> final(sched).current_proc == Some(IDLE_PID),
        // The scheduled process is runnable, and on an actual switch the
        // hardware is told to install its page-table root and stack top.
        r matches Some(a) ==> exists|ni: int|
            0 <= ni < PROCS_MAX
            && (#[trigger] final(procs).0[ni]).pid == final(sched).current_proc.unwrap()
            && final(procs).0[ni].state == State::Runnable
            && (final(procs).0[ni].page_table matches Some(pt) && a.satp == SATP_SV32 | pt.root_pa.0)
            && a.sscratch == STACK_BYTES,
        r is None ==> old(sched).idle_proc is Some ==> *final(procs) == *old(procs)
            && final(sched).current_proc == old(sched).current_proc,
{
    // Initialise the idle process if not yet initialised.
    if matches!(sched.idle_proc, None) {
        let empty: Vec<u8> = Vec::new();
        proof {
            assert(spec_align_up(0, 4096) == 0);
        }
        let idle_pid = create_process(procs, alloc, &empty, kernel_base, free_ram_end);
        let p = &mut procs.0[idle_pid - 1];
        p.pid = IDLE_PID;
        sched.idle_proc = Some(IDLE_PID);
        sched.current_proc = Some(IDLE_PID);
        proof {
            assert forall|j: int|
                0 <= j < idle_pid - 1 implies (#[trigger] procs.0[j]).pid != 0 by {
                assert(old(procs).0[j].state != State::Unused);
            }
        }
    }

    let current_pid = match sched.current_proc {
        Some(c) => c,
        None => vstd::pervasive::unreached(),
    };

    let current_index = match procs.try_get_index(current_pid) {
        Some(i) => i,
        None => vstd::pervasive::unreached(),
    };

    // Search for a runnable process.
    let next_pid = pick_next(procs, current_index);
    proof {
        lemma_pick_not_idle(*procs, current_index as int, next_pid);
    }

    // If there's no runnable process other than the current one, return and
    // continue processing.
    if next_pid == current_pid {
        return None;
    }

    let next_index = match procs.try_get_index(next_pid) {
        Some(i) => i,
        None => vstd::pervasive::unreached(),
    };

    let satp = match &procs.0[next_index].page_table {
        Some(pt) => SATP_SV32 | pt.root_pa.as_usize(),
        None => vstd::pervasive::unreached(),
    };

    // Context switch: the hardware installs `satp` and `sscratch`, then the
    // callee-saved registers move between kernel stacks.
    sched.current_proc = Some(next_pid);
    switch_context(procs, cpu, current_index, next_index);

    Some(SwitchAction { satp, sscratch: STACK_BYTES })
}

/// If any non-idle process is runnable, the pick is not idle — and then the
/// pick names a runnable slot; if none is, the pick is exactly the idle
/// PID.
pub proof fn lemma_pick_not_idle(procs: Procs, current_index: int, next: usize)
    requires
        procs.wf(),
        0 <= current_index < PROCS_MAX,
        ({
            ||| exists|k: int|
                0 <= k < PROCS_MAX && runnable_nonidle(#[trigger] procs.0[cyc(current_index, k)])
                    && next == procs.0[cyc(current_index, k)].pid && (forall|m: int|
                    0 <= m < k ==> !runnable_nonidle(#[trigger] procs.0[cyc(current_index, m)]))
            ||| (forall|m: int|
                0 <= m < PROCS_MAX ==> !runnable_nonidle(#[trigger] procs.0[cyc(current_index, m)]))
                && next == IDLE_PID
        }),
    ensures
        (exists|i: int| 0 <= i < PROCS_MAX && runnable_nonidle(#[trigger] procs.0[i])) ==> next
            != IDLE_PID && exists|i: int|
            0 <= i < PROCS_MAX && (#[trigger] procs.0[i]).pid == next && procs.0[i].state
                == State::Runnable,
        (forall|i: int| 0 <= i < PROCS_MAX ==> !runnable_nonidle(#[trigger] procs.0[i])) ==> next
            == IDLE_PID,
{
    if exists|i: int| 0 <= i < PROCS_MAX && runnable_nonidle(#[trigger] procs.0[i]) {
        let i = choose|i: int| 0 <= i < PROCS_MAX && runnable_nonidle(#[trigger] procs.0[i]);
        let k = lemma_cyc_covers(current_index, i);
        assert(runnable_nonidle(procs.0[cyc(current_index, k)]));
        let kh = choose|kh: int|
            0 <= kh < PROCS_MAX && runnable_nonidle(#[trigger] procs.0[cyc(current_index, kh)])
                && next == procs.0[cyc(current_index, kh)].pid && (forall|m: int|
                0 <= m < kh ==> !runnable_nonidle(#[trigger] procs.0[cyc(current_index, m)]));
        assert(0 <= cyc(current_index, kh) < PROCS_MAX) by {
            vstd::arithmetic::div_mod::lemma_mod_bound(current_index + 1 + kh, PROCS_MAX as int);
        }
    }
}

} // verus!
