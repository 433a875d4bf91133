//! The user runtime: syscall stubs that a user program runs. Each builds a
//! trap frame with the syscall number in `a4` and the arguments in
//! `a0..a3`, enters the kernel through the trap path, and hands back what
//! the kernel stored in `a0`. User pointers are virtual addresses into the
//! calling process's image.

use vstd::prelude::*;

use crate::kernel::Kernel;
use crate::process::USER_BASE;
use crate::trap::{
    handle_trap, pid_slot, syscall_post, syscall_pre, SyscallStep, TrapFrame, SCAUSE_ECALL,
    SYS_EXIT, SYS_GETCHAR, SYS_PUTBYTE, SYS_READFILE, SYS_WRITEFILE,
};

verus! {

/// The trap frame a syscall stub presents to the kernel: the number in
/// `a4`, the arguments in `a0..a3`, everything else zero.
pub open spec fn stub_frame(sysno: usize, a0: usize, a1: usize, a2: usize, a3: usize) -> TrapFrame {
    TrapFrame {
        ra: 0,
        gp: 0,
        tp: 0,
        t0: 0,
        t1: 0,
        t2: 0,
        t3: 0,
        t4: 0,
        t5: 0,
        t6: 0,
        a0,
        a1,
        a2,
        a3,
        a4: sysno,
        a5: 0,
        a6: 0,
        a7: 0,
        s0: 0,
        s1: 0,
        s2: 0,
        s3: 0,
        s4: 0,
        s5: 0,
        s6: 0,
        s7: 0,
        s8: 0,
        s9: 0,
        s10: 0,
        s11: 0,
        sp: 0,
    }
}

/// Issues one environment call and returns the value the kernel left in
/// `a0`.
pub fn sys_call(k: &mut Kernel, sysno: usize, arg0: usize, arg1: usize, arg2: usize, arg3: usize)
    -> (r: (usize, SyscallStep))
    requires
        syscall_pre(*old(k), stub_frame(sysno, arg0, arg1, arg2, arg3)),
    ensures
        final(k).wf(),
        final(k).sched.idle_proc is Some,
        syscall_post(
            *old(k),
            stub_frame(sysno, arg0, arg1, arg2, arg3),
            *final(k),
            (TrapFrame { a0: r.0, ..stub_frame(sysno, arg0, arg1, arg2, arg3) }),
            r.1,
        ),
{
    let mut f = TrapFrame {
        ra: 0,
        gp: 0,
        tp: 0,
        t0: 0,
        t1: 0,
        t2: 0,
        t3: 0,
        t4: 0,
        t5: 0,
        t6: 0,
        a0: arg0,
        a1: arg1,
        a2: arg2,
        a3: arg3,
        a4: sysno,
        a5: 0,
        a6: 0,
        a7: 0,
        s0: 0,
        s1: 0,
        s2: 0,
        s3: 0,
        s4: 0,
        s5: 0,
        s6: 0,
        s7: 0,
        s8: 0,
        s9: 0,
        s10: 0,
        s11: 0,
        sp: 0,
    };
    let ghost f0 = f;
    let (_pc, step) = handle_trap(k, &mut f, SCAUSE_ECALL, USER_BASE);
    let r = f.a0;
    proof {
        assert(f0 == stub_frame(sysno, arg0, arg1, arg2, arg3));
        assert(f == (TrapFrame { a0: r, ..f0 }));
        assert(syscall_post(*old(k), f0, *k, (TrapFrame { a0: r, ..f0 }), step));
    }
    (r, step)
}

/// Prints one byte; `Ok` on success.
pub fn put_byte(k: &mut Kernel, b: u8) -> (r: Result<(), isize>)
    requires
        old(k).wf(),
        old(k).sched.idle_proc is Some,
        old(k).sched.current_proc matches Some(c) && c != 0,
    ensures
        final(k).wf(),
        r is Ok,
        *final(k) == (Kernel { console: final(k).console, ..*old(k) }),
        final(k).console.output@ == old(k).console.output@.push(b),
        final(k).console.input == old(k).console.input,
        final(k).console.read == old(k).console.read,
{
    let (result, _) = sys_call(k, SYS_PUTBYTE, b as usize, 0, 0, 0);
    proof {
        assert(b as usize as u8 == b) by (bit_vector);
    }
    if result == 0 {
        Ok(())
    } else {
        Err(result as isize)
    }
}

/// Reads one pending console byte; `None` when no input is pending, after
/// the kernel has yielded once.
pub fn get_char(k: &mut Kernel) -> (r: Option<usize>)
    requires
        old(k).wf(),
        old(k).sched.idle_proc is Some,
        old(k).sched.current_proc matches Some(c) && c != 0,
    ensures
        final(k).wf(),
        old(k).console.read < old(k).console.input.len() ==> {
            &&& r == Some(old(k).console.input[old(k).console.read as int] as usize)
            &&& *final(k) == (Kernel { console: final(k).console, ..*old(k) })
            &&& final(k).console.read == old(k).console.read + 1
            &&& final(k).console.output == old(k).console.output
            &&& final(k).console.input == old(k).console.input
        },
        old(k).console.read >= old(k).console.input.len() ==> {
            &&& r is None
            &&& final(k).console == old(k).console
            &&& final(k).files == old(k).files
            &&& final(k).disk == old(k).disk
            &&& final(k).dev == old(k).dev
        },
{
    let (ch, _) = sys_call(k, SYS_GETCHAR, 0, 0, 0, 0);
    if ch == usize::MAX {
        None
    } else {
        proof {
            if old(k).console.read < old(k).console.input.len() {
                assert((old(k).console.input[old(k).console.read as int] as usize) < 0x100);
            }
        }
        Some(ch)
    }
}

/// Ends the calling process: it is marked exited and never scheduled
/// again.
pub fn exit(k: &mut Kernel)
    requires
        old(k).wf(),
        old(k).sched.idle_proc is Some,
        old(k).sched.current_proc matches Some(c) && c != 0,
    ensures
        final(k).wf(),
        final(k).procs.0[pid_slot(old(k).procs, old(k).sched.current_proc.unwrap())].state
            == crate::process::State::Exited,
        final(k).procs.0[pid_slot(old(k).procs, old(k).sched.current_proc.unwrap())].pid == old(
            k,
        ).sched.current_proc.unwrap(),
        final(k).files == old(k).files,
        final(k).dev == old(k).dev,
        final(k).console == old(k).console,
{
    let (_, _step) = sys_call(k, SYS_EXIT, 0, 0, 0, 0);
}

/// Reads a file into a user buffer: `filename` and `buf` are virtual
/// addresses in the caller's image. Returns `buf_len` on success and `~0`
/// when no file of that name exists, leaving the buffer untouched.
pub fn readfile(
    k: &mut Kernel,
    filename: usize,
    filename_len: usize,
    buf: usize,
    buf_len: usize,
) -> (r: usize)
    requires
        syscall_pre(
            *old(k),
            stub_frame(SYS_READFILE, filename, filename_len, buf, buf_len),
        ),
    ensures
        final(k).wf(),
        syscall_post(
            *old(k),
            stub_frame(SYS_READFILE, filename, filename_len, buf, buf_len),
            *final(k),
            (TrapFrame {
                a0: r,
                ..stub_frame(SYS_READFILE, filename, filename_len, buf, buf_len)
            }),
            SyscallStep::Done,
        ),
{
    let (r, _) = sys_call(k, SYS_READFILE, filename, filename_len, buf, buf_len);
    r
}

/// Writes a user buffer to a file: the file's contents become the buffer's
/// `buf_len` bytes and the store is flushed. Returns `buf_len` on success
/// and `~0` when no file of that name exists.
pub fn writefile(
    k: &mut Kernel,
    filename: usize,
    filename_len: usize,
    buf: usize,
    buf_len: usize,
) -> (r: usize)
    requires
        syscall_pre(
            *old(k),
            stub_frame(SYS_WRITEFILE, filename, filename_len, buf, buf_len),
        ),
    ensures
        final(k).wf(),
        syscall_post(
            *old(k),
            stub_frame(SYS_WRITEFILE, filename, filename_len, buf, buf_len),
            *final(k),
            (TrapFrame {
                a0: r,
                ..stub_frame(SYS_WRITEFILE, filename, filename_len, buf, buf_len)
            }),
            SyscallStep::Done,
        ),
{
    let (r, _) = sys_call(k, SYS_WRITEFILE, filename, filename_len, buf, buf_len);
    r
}

} // verus!
