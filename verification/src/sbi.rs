//! SBI console interface. The M-mode firmware console is modelled as plain
//! state: the bytes written so far and the pending input the firmware would
//! hand back, consumed front to back.

use vstd::prelude::*;

verus! {

pub const EID_CONSOLE_PUTCHAR: i64 = 1;

pub const EID_CONSOLE_GETCHAR: i64 = 2;

/// The debug console behind the SBI firmware calls.
pub struct DebugConsole {
    /// Everything written with the putchar call, oldest first.
    pub output: Vec<u8>,
    /// Input the firmware will hand out, oldest first.
    pub input: Vec<u8>,
    /// How many input bytes have been consumed.
    pub read: usize,
}

impl DebugConsole {
    pub open spec fn wf(&self) -> bool {
        self.read <= self.input.len()
    }

    /// A console with no output yet and the given pending input.
    pub fn new(input: Vec<u8>) -> (r: Self)
        ensures
            r.wf(),
            r.output.len() == 0,
            r.input == input,
            r.read == 0,
    {
        DebugConsole { output: Vec::new(), input, read: 0 }
    }
}

/// One SBI call on the console: putchar appends the byte to the output and
/// returns 0; getchar hands out the next pending input byte, or -1 when
/// none is pending.
pub fn sbi_call(con: &mut DebugConsole, arg0: i32, eid: i64) -> (r: Result<isize, isize>)
    requires
        old(con).wf(),
        eid == EID_CONSOLE_PUTCHAR || eid == EID_CONSOLE_GETCHAR,
    ensures
        final(con).wf(),
        final(con).input == old(con).input,
        eid == EID_CONSOLE_PUTCHAR ==> {
            &&& r == Ok::<isize, isize>(0)
            &&& final(con).output@ == old(con).output@.push(arg0 as u8)
            &&& final(con).read == old(con).read
        },
        eid == EID_CONSOLE_GETCHAR ==> {
            &&& final(con).output == old(con).output
            &&& if old(con).read < old(con).input.len() {
                &&& r == Ok::<isize, isize>(old(con).input[old(con).read as int] as isize)
                &&& final(con).read == old(con).read + 1
            } else {
                &&& r == Err::<isize, isize>(-1isize)
                &&& final(con).read == old(con).read
            }
        },
{
    if eid == EID_CONSOLE_PUTCHAR {
        con.output.push(arg0 as u8);
        Ok(0)
    } else {
        if con.read < con.input.len() {
            let b = con.input[con.read];
            con.read = con.read + 1;
            Ok(b as isize)
        } else {
            Err(-1)
        }
    }
}

/// Writes a whole byte string to the debug console, one putchar call per
/// byte.
pub fn write_str(con: &mut DebugConsole, s: &[u8])
    requires
        old(con).wf(),
    ensures
        final(con).wf(),
        final(con).output@ == old(con).output@ + s@,
        final(con).input == old(con).input,
        final(con).read == old(con).read,
{
    let mut i: usize = 0;
    while i < s.len()
        invariant
            con.wf(),
            i <= s.len(),
            con.output@ == old(con).output@ + s@.take(i as int),
            con.input == old(con).input,
            con.read == old(con).read,
        decreases s.len() - i,
    {
        let b = s[i];
        let _ = put_byte(con, b);
        i = i + 1;
        proof {
            assert(con.output@ =~= old(con).output@ + s@.take(i as int));
        }
    }
    proof {
        assert(s@.take(s@.len() as int) =~= s@);
    }
}

/// Writes one byte to the debug console; returns 0 on success.
pub fn put_byte(con: &mut DebugConsole, b: u8) -> (r: Result<isize, isize>)
    requires
        old(con).wf(),
    ensures
        final(con).wf(),
        r == Ok::<isize, isize>(0),
        final(con).output@ == old(con).output@.push(b),
        final(con).input == old(con).input,
        final(con).read == old(con).read,
{
    let r = sbi_call(con, b as i32, EID_CONSOLE_PUTCHAR);
    proof {
        assert(b as i32 as u8 == b) by (bit_vector);
    }
    r
}

/// Reads one pending byte from the debug console, or `Err(-1)` when none
/// is pending.
pub fn get_char(con: &mut DebugConsole) -> (r: Result<isize, isize>)
    requires
        old(con).wf(),
    ensures
        final(con).wf(),
        final(con).output == old(con).output,
        final(con).input == old(con).input,
        if old(con).read < old(con).input.len() {
            &&& r == Ok::<isize, isize>(old(con).input[old(con).read as int] as isize)
            &&& final(con).read == old(con).read + 1
        } else {
            &&& r == Err::<isize, isize>(-1isize)
            &&& final(con).read == old(con).read
        },
{
    sbi_call(con, 0, EID_CONSOLE_GETCHAR)
}

} // verus!
