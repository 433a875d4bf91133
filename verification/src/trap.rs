//! Supervisor trap handling and system-call dispatch. The trap frame is
//! the register file the trap vector spills; an environment call from
//! U-mode is dispatched by the syscall number in `a4`, with arguments in
//! `a0..a3` and the return value stored back into `a0`, and the user
//! program counter advanced past the `ecall`.

use vstd::prelude::*;

use crate::kernel::Kernel;
use crate::process::{Procs, State, PROCS_MAX, USER_BASE};
use crate::scheduler::yield_now;
use crate::sbi::{get_char, put_byte};
use crate::tar::{disk_image, fs_flush, name_matches, zeros, FILE_DATA_BYTES, FILES_MAX};

verus! {

pub const SYS_PUTBYTE: usize = 1;

pub const SYS_GETCHAR: usize = 2;

pub const SYS_EXIT: usize = 3;

pub const SYS_READFILE: usize = 4;

pub const SYS_WRITEFILE: usize = 5;

/// Environment call from U-mode.
pub const SCAUSE_ECALL: usize = 8;

/// The registers the trap vector spills onto the kernel stack, in its
/// declared order, with the user stack pointer last.
#[derive(Clone, Copy, Debug, PartialEq, Eq, Structural)]
pub struct TrapFrame {
    pub ra: usize,
    pub gp: usize,
    pub tp: usize,
    pub t0: usize,
    pub t1: usize,
    pub t2: usize,
    pub t3: usize,
    pub t4: usize,
    pub t5: usize,
    pub t6: usize,
    pub a0: usize,
    pub a1: usize,
    pub a2: usize,
    pub a3: usize,
    pub a4: usize,
    pub a5: usize,
    pub a6: usize,
    pub a7: usize,
    pub s0: usize,
    pub s1: usize,
    pub s2: usize,
    pub s3: usize,
    pub s4: usize,
    pub s5: usize,
    pub s6: usize,
    pub s7: usize,
    pub s8: usize,
    pub s9: usize,
    pub s10: usize,
    pub s11: usize,
    pub sp: usize,
}

/// How a syscall left the kernel: finished; blocked on console input after
/// yielding once, to be retried; or the calling process exited.
#[derive(Clone, Copy, Debug, PartialEq, Eq, Structural)]
pub enum SyscallStep {
    Done,
    RetryGetChar,
    Exited,
}

/// The slot holding PID `c`; for a nonzero PID of a well-formed table it
/// is unique.
pub open spec fn pid_slot(procs: Procs, c: usize) -> int {
    choose|i: int| 0 <= i < PROCS_MAX && procs.0[i].pid == c
}

/// What a syscall demands of the kernel: a scheduled non-idle process, a
/// known syscall number, and user pointers inside the calling process's
/// image; a write must fit the file data buffer.
pub open spec fn syscall_pre(k: Kernel, f: TrapFrame) -> bool {
    &&& k.wf()
    &&& k.sched.idle_proc is Some
    &&& k.sched.current_proc matches Some(c) && c != 0
    &&& 1 <= f.a4 <= 5
    &&& (f.a4 == SYS_READFILE || f.a4 == SYS_WRITEFILE) ==> {
        let um = k.procs.0[pid_slot(k.procs, k.sched.current_proc.unwrap())].user_mem;
        &&& USER_BASE <= f.a0
        &&& f.a0 + f.a1 <= USER_BASE + um.len()
        &&& USER_BASE <= f.a2
        &&& f.a2 + f.a3 <= USER_BASE + um.len()
    }
    &&& f.a4 == SYS_WRITEFILE ==> f.a3 <= FILE_DATA_BYTES
}

/// What each syscall does, relating kernel and trap frame before and
/// after.
pub open spec fn syscall_post(
    k0: Kernel,
    f0: TrapFrame,
    k1: Kernel,
    f1: TrapFrame,
    r: SyscallStep,
) -> bool {
    let c = k0.sched.current_proc.unwrap();
    let ci = pid_slot(k0.procs, c);
    let um = k0.procs.0[ci].user_mem@;
    if f0.a4 == SYS_PUTBYTE {
        // The byte goes to the console; 0 reports success.
        &&& k1 == (Kernel { console: k1.console, ..k0 })
        &&& k1.console.output@ == k0.console.output@.push(f0.a0 as u8)
        &&& k1.console.input == k0.console.input
        &&& k1.console.read == k0.console.read
        &&& f1 == (TrapFrame { a0: 0usize, ..f0 })
        &&& r == SyscallStep::Done
    } else if f0.a4 == SYS_GETCHAR {
        if k0.console.read < k0.console.input.len() {
            // A pending byte is consumed and returned.
            &&& k1 == (Kernel { console: k1.console, ..k0 })
            &&& k1.console.output == k0.console.output
            &&& k1.console.input == k0.console.input
            &&& k1.console.read == k0.console.read + 1
            &&& f1 == (TrapFrame {
                a0: (k0.console.input[k0.console.read as int] as usize),
                ..f0
            })
            &&& r == SyscallStep::Done
        } else {
            // Nothing pending: the kernel yields once and reports no byte.
            &&& k1.console == k0.console
            &&& k1.files == k0.files
            &&& k1.disk == k0.disk
            &&& k1.blk == k0.blk
            &&& k1.dev == k0.dev
            &&& k1.frames == k0.frames
            &&& k1.sched.current_proc is Some
            &&& forall|i: int|
                0 <= i < PROCS_MAX ==> {
                    &&& (#[trigger] k1.procs.0[i]).pid == k0.procs.0[i].pid
                    &&& k1.procs.0[i].state == k0.procs.0[i].state
                    &&& k1.procs.0[i].page_table == k0.procs.0[i].page_table
                    &&& k1.procs.0[i].user_mem == k0.procs.0[i].user_mem
                }
            &&& f1 == (TrapFrame { a0: usize::MAX, ..f0 })
            &&& r == SyscallStep::RetryGetChar
        }
    } else if f0.a4 == SYS_EXIT {
        // The calling process is marked exited and the kernel yields away
        // from it for good.
        &&& k1.console == k0.console
        &&& k1.files == k0.files
        &&& k1.disk == k0.disk
        &&& k1.blk == k0.blk
        &&& k1.dev == k0.dev
        &&& k1.frames == k0.frames
        &&& k1.sched.current_proc is Some
        &&& k1.procs.0[ci].pid == c
        &&& k1.procs.0[ci].state == State::Exited
        &&& forall|i: int|
            0 <= i < PROCS_MAX && i != ci ==> {
                &&& (#[trigger] k1.procs.0[i]).pid == k0.procs.0[i].pid
                &&& k1.procs.0[i].state == k0.procs.0[i].state
            }
        &&& f1 == f0
        &&& r == SyscallStep::Exited
    } else {
        // READFILE / WRITEFILE.
        let name = um.subrange(f0.a0 - USER_BASE, f0.a0 - USER_BASE + f0.a1);
        if forall|j: int|
            0 <= j < FILES_MAX ==> !name_matches((#[trigger] k0.files.0[j]).name@, name) {
            // Not found: ~0 in a0, nothing else touched.
            &&& k1 == k0
            &&& f1 == (TrapFrame { a0: usize::MAX, ..f0 })
            &&& r == SyscallStep::Done
        } else {
            exists|j: int|
                {
                    &&& 0 <= j < FILES_MAX
                    &&& name_matches((#[trigger] k0.files.0[j]).name@, name)
                    &&& forall|l: int|
                        0 <= l < j ==> !name_matches((#[trigger] k0.files.0[l]).name@, name)
                    &&& if f0.a4 == SYS_READFILE {
                        // min(buf_len, file.size) bytes land in the user buffer.
                        let n = if f0.a3 <= k0.files.0[j].size {
                            f0.a3 as int
                        } else {
                            k0.files.0[j].size as int
                        };
                        &&& k1 == (Kernel { procs: k1.procs, ..k0 })
                        &&& forall|i: int|
                            0 <= i < PROCS_MAX && i != ci ==> #[trigger] k1.procs.0[i]
                                == k0.procs.0[i]
                        &&& k1.procs.0[ci] == (crate::process::Process {
                            user_mem: k1.procs.0[ci].user_mem,
                            ..k0.procs.0[ci]
                        })
                        &&& k1.procs.0[ci].user_mem@ == um.map(
                            |m: int, b: u8|
                                if f0.a2 - USER_BASE <= m < f0.a2 - USER_BASE + n {
                                    k0.files.0[j].data@[m - (f0.a2 - USER_BASE)]
                                } else {
                                    b
                                },
                        )
                        &&& f1 == (TrapFrame { a0: f0.a3, ..f0 })
                        &&& r == SyscallStep::Done
                    } else {
                        // WRITEFILE: the buffer becomes the file's first
                        // `buf_len` bytes, its size is `buf_len`, and the
                        // store is flushed to disk.
                        &&& k1.procs == k0.procs
                        &&& k1.console == k0.console
                        &&& k1.frames == k0.frames
                        &&& k1.sched == k0.sched
                        &&& k1.cpu == k0.cpu
                        &&& forall|i: int|
                            0 <= i < FILES_MAX && i != j ==> #[trigger] k1.files.0[i]
                                == k0.files.0[i]
                        &&& k1.files.0[j].in_use == k0.files.0[j].in_use
                        &&& k1.files.0[j].name == k0.files.0[j].name
                        &&& k1.files.0[j].size == f0.a3
                        &&& k1.files.0[j].data@ == k0.files.0[j].data@.map(
                            |m: int, b: u8|
                                if 0 <= m < f0.a3 {
                                    um[f0.a2 - USER_BASE + m]
                                } else {
                                    b
                                },
                        )
                        &&& k1.disk.0@ == disk_image(k1.files.views()) + zeros(
                            (crate::tar::DISK_CAPACITY - disk_image(k1.files.views()).len()) as nat,
                        )
                        &&& k1.dev.data@.subrange(0, crate::tar::DISK_CAPACITY as int)
                            == k1.disk.0@
                        &&& k1.dev.capacity_sectors == k0.dev.capacity_sectors
                        &&& f1 == (TrapFrame { a0: f0.a3, ..f0 })
                        &&& r == SyscallStep::Done
                    }
                }
        }
    }
}

/// Dispatches one environment call by the number in `a4`, storing the
/// return value in `a0`.
#[verifier::rlimit(100)]
#[verifier::loop_isolation(false)]
pub fn handle_syscall(k: &mut Kernel, f: &mut TrapFrame) -> (r: SyscallStep)
    requires
        syscall_pre(*old(k), *old(f)),
    ensures
        final(k).wf(),
        final(k).sched.idle_proc is Some,
        final(k).kernel_base == old(k).kernel_base,
        final(k).free_ram_end == old(k).free_ram_end,
        syscall_post(*old(k), *old(f), *final(k), *final(f), r),
{
    let sysno = f.a4;
    let ghost c0 = old(k).sched.current_proc.unwrap();
    let ghost ci = pid_slot(old(k).procs, c0);

    if sysno == SYS_PUTBYTE {
        match put_byte(&mut k.console, f.a0 as u8) {
            Ok(_) => {
                f.a0 = 0;
            },
            Err(e) => {
                f.a0 = e as usize;
            },
        }
        SyscallStep::Done
    } else if sysno == SYS_GETCHAR {
        match get_char(&mut k.console) {
            Ok(ch) => {
                f.a0 = ch as usize;
                proof {
                    let b = old(k).console.input[old(k).console.read as int];
                    assert(b as isize as usize == b as usize) by (bit_vector);
                }
                SyscallStep::Done
            },
            Err(_) => {
                yield_now(
                    &mut k.sched,
                    &mut k.procs,
                    &mut k.cpu,
                    &mut k.frames,
                    k.kernel_base,
                    k.free_ram_end,
                );
                f.a0 = usize::MAX;
                SyscallStep::RetryGetChar
            },
        }
    } else if sysno == SYS_EXIT {
        let current = match k.sched.current_proc {
            Some(c) => c,
            None => vstd::pervasive::unreached(),
        };
        let idx = match k.procs.try_get_index(current) {
            Some(i) => i,
            None => vstd::pervasive::unreached(),
        };
        proof {
            assert(k.procs.0[ci].pid == c0);
            if idx as int != ci {
                crate::process::lemma_unique_pids(k.procs, idx as int, ci);
            }
            assert(idx as int == ci);
        }
        let p = &mut k.procs.0[idx];
        p.state = State::Exited;
        proof {
            let i0 = choose|i: int|
                0 <= i < PROCS_MAX && (#[trigger] old(k).procs.0[i]).pid == 0 && old(
                    k,
                ).procs.0[i].state == State::Runnable && (forall|j: int|
                    0 <= j < i ==> (#[trigger] old(k).procs.0[j]).pid != 0);
            assert(k.procs.0[i0].pid == 0 && k.procs.0[i0].state == State::Runnable);
            assert(k.sched.wf(k.procs));
        }
        yield_now(
            &mut k.sched,
            &mut k.procs,
            &mut k.cpu,
            &mut k.frames,
            k.kernel_base,
            k.free_ram_end,
        );
        SyscallStep::Exited
    } else {
        // READFILE / WRITEFILE.
        let current = match k.sched.current_proc {
            Some(c) => c,
            None => vstd::pervasive::unreached(),
        };
        let idx = match k.procs.try_get_index(current) {
            Some(i) => i,
            None => vstd::pervasive::unreached(),
        };
        proof {
            assert(k.procs.0[ci].pid == c0);
            if idx as int != ci {
                crate::process::lemma_unique_pids(k.procs, idx as int, ci);
            }
            assert(idx as int == ci);
        }

        // Read the file name out of the caller's user memory.
        let name_off = f.a0 - USER_BASE;
        let name_len = f.a1;
        let mut name: Vec<u8> = Vec::new();
        while name.len() < name_len
            invariant
                name.len() <= name_len,
                k == old(k),
                idx as int == ci,
                name_off == old(f).a0 - USER_BASE,
                name_len == old(f).a1,
                name_off + name_len <= k.procs.0[ci].user_mem.len(),
                forall|m: int|
                    0 <= m < name.len() ==> name@[m] == k.procs.0[ci].user_mem@[name_off + m],
            decreases name_len - name.len(),
        {
            let m = name.len();
            let b = k.procs.0[idx].user_mem[name_off + m];
            name.push(b);
        }
        let ghost name_spec = old(k).procs.0[ci].user_mem@.subrange(
            old(f).a0 - USER_BASE,
            old(f).a0 - USER_BASE + old(f).a1,
        );
        proof {
            assert(name@ =~= name_spec);
        }

        let file_i = match k.files.fs_lookup(name.as_slice()) {
            Some(i) => i,
            None => {
                f.a0 = usize::MAX;
                return SyscallStep::Done;
            },
        };

        let buf_off = f.a2 - USER_BASE;
        let buf_len = f.a3;

        if sysno == SYS_WRITEFILE {
            // Copy the user buffer out, then into the file.
            let ghost um0 = k.procs.0[ci].user_mem@;
            let mut payload: Vec<u8> = Vec::new();
            while payload.len() < buf_len
                invariant
                    payload.len() <= buf_len,
                    k == old(k),
                    idx as int == ci,
                    um0 == k.procs.0[ci].user_mem@,
                    buf_off == old(f).a2 - USER_BASE,
                    buf_len == old(f).a3,
                    buf_off + buf_len <= k.procs.0[ci].user_mem.len(),
                    forall|m: int|
                        0 <= m < payload.len() ==> payload@[m] == um0[buf_off + m],
                decreases buf_len - payload.len(),
            {
                let m = payload.len();
                let b = k.procs.0[idx].user_mem[buf_off + m];
                payload.push(b);
            }
            let ghost files0 = k.files;
            let q = &mut k.files.0[file_i];
            let mut m: usize = 0;
            while m < buf_len
                invariant
                    m <= buf_len,
                    buf_len <= FILE_DATA_BYTES,
                    payload.len() == buf_len,
                    q.data.len() == FILE_DATA_BYTES,
                    q.in_use == files0.0[file_i as int].in_use,
                    q.name == files0.0[file_i as int].name,
                    q.size == files0.0[file_i as int].size,
                    forall|j: int| 0 <= j < payload.len() ==> payload@[j] == um0[buf_off + j],
                    forall|j: int| 0 <= j < m ==> q.data@[j] == payload@[j],
                    forall|j: int|
                        m <= j < FILE_DATA_BYTES ==> q.data@[j] == files0.0[
                            file_i as int
                        ].data@[j],
                decreases buf_len - m,
            {
                let b = payload[m];
                q.data.set(m, b);
                m = m + 1;
            }
            q.size = buf_len;
            proof {
                assert forall|mm: int| 0 <= mm < FILE_DATA_BYTES implies k.files.0[
                    file_i as int
                ].data@[mm] == (if 0 <= mm < old(f).a3 {
                    old(k).procs.0[ci].user_mem@[old(f).a2 - USER_BASE + mm]
                } else {
                    files0.0[file_i as int].data@[mm]
                }) by {
                    if 0 <= mm < old(f).a3 {
                        assert(k.files.0[file_i as int].data@[mm] == payload@[mm]);
                        assert(payload@[mm] == um0[buf_off + mm]);
                    }
                }
                assert(k.files.0[file_i as int].data@ =~= files0.0[file_i as int].data@.map(
                    |mm: int, b: u8|
                        if 0 <= mm < old(f).a3 {
                            old(k).procs.0[ci].user_mem@[old(f).a2 - USER_BASE + mm]
                        } else {
                            b
                        },
                ));
            }
            fs_flush(&k.files, &mut k.disk, &mut k.blk, &mut k.dev);
            f.a0 = buf_len;
            proof {
                let i0 = choose|i: int|
                    0 <= i < PROCS_MAX && (#[trigger] old(k).procs.0[i]).pid == 0 && old(
                        k,
                    ).procs.0[i].state == State::Runnable && (forall|j: int|
                        0 <= j < i ==> (#[trigger] old(k).procs.0[j]).pid != 0);
                assert(k.procs.0[i0].pid == 0 && k.procs.0[i0].state == State::Runnable);
                assert(k.sched.wf(k.procs));
            }
            SyscallStep::Done
        } else {
            // READFILE: copy min(buf_len, file.size) bytes to the user buffer.
            let fsize = k.files.0[file_i].size;
            let n = if buf_len <= fsize {
                buf_len
            } else {
                fsize
            };
            let ghost procs0 = k.procs;
            let p = &mut k.procs.0[idx];
            let mut m: usize = 0;
            while m < n
                invariant
                    m <= n,
                    n <= buf_len,
                    n <= k.files.0[file_i as int].data.len(),
                    file_i < FILES_MAX,
                    buf_off + buf_len <= p.user_mem.len(),
                    p.user_mem.len() == procs0.0[ci].user_mem.len(),
                    *p == (crate::process::Process { user_mem: p.user_mem, ..procs0.0[ci] }),
                    forall|j: int|
                        0 <= j < p.user_mem.len() && !(buf_off <= j < buf_off + m)
                            ==> p.user_mem@[j] == procs0.0[ci].user_mem@[j],
                    forall|j: int|
                        buf_off <= j < buf_off + m ==> p.user_mem@[j] == k.files.0[
                            file_i as int
                        ].data@[j - buf_off],
                decreases n - m,
            {
                let b = k.files.0[file_i].data[m];
                p.user_mem.set(buf_off + m, b);
                m = m + 1;
            }
            proof {
                assert(k.procs.0[ci].user_mem@ =~= procs0.0[ci].user_mem@.map(
                    |mm: int, b: u8|
                        if old(f).a2 - USER_BASE <= mm < old(f).a2 - USER_BASE + n {
                            k.files.0[file_i as int].data@[mm - (old(f).a2 - USER_BASE)]
                        } else {
                            b
                        },
                ));
            }
            f.a0 = buf_len;
            proof {
                let i0 = choose|i: int|
                    0 <= i < PROCS_MAX && (#[trigger] old(k).procs.0[i]).pid == 0 && old(
                        k,
                    ).procs.0[i].state == State::Runnable && (forall|j: int|
                        0 <= j < i ==> (#[trigger] old(k).procs.0[j]).pid != 0);
                assert(k.procs.0[i0].pid == 0 && k.procs.0[i0].state == State::Runnable);
                assert(k.sched.wf(k.procs));
            }
            SyscallStep::Done
        }
    }
}

/// Handles one trap: an environment call from U-mode is dispatched to the
/// syscall handler and the user program counter advances past the `ecall`;
/// the new program counter and the syscall's outcome are returned.
pub fn handle_trap(k: &mut Kernel, f: &mut TrapFrame, scause: usize, sepc: usize) -> (r: (
    usize,
    SyscallStep,
))
    requires
        syscall_pre(*old(k), *old(f)),
        scause == SCAUSE_ECALL,
        sepc + 4 <= usize::MAX,
    ensures
        final(k).wf(),
        final(k).sched.idle_proc is Some,
        syscall_post(*old(k), *old(f), *final(k), *final(f), r.1),
        r.0 == sepc + 4,
{
    let step = handle_syscall(k, f);
    (sepc + 4, step)
}

} // verus!
