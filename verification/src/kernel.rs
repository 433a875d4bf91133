//! The kernel's whole state, and the boot sequence that assembles it: a
//! frame allocator over the free region, the block device brought up and
//! the file store loaded from it, the console, and the empty process table.

use vstd::prelude::*;

use crate::allocator::BumpAllocator;
use crate::process::{CpuContext, Procs, CONTEXT_WORDS, STACK_BYTES, USER_BASE};
use crate::sbi::DebugConsole;
use crate::scheduler::Scheduler;
use crate::tar::{fs_init, Disk, Files};
use crate::virtio::{virtio_blk_init, VirtioBlk, VirtioDevice};

verus! {

/// Everything the kernel owns: the process table and scheduler, the live
/// register file, the frame allocator, the console, the file store with
/// its staging buffer, the block driver, and the device it drives.
pub struct Kernel {
    pub procs: Procs,
    pub sched: Scheduler,
    pub cpu: CpuContext,
    pub frames: BumpAllocator,
    pub console: DebugConsole,
    pub files: Files,
    pub disk: Disk,
    pub blk: VirtioBlk,
    pub dev: VirtioDevice,
    /// Base of the identity-mapped kernel region.
    pub kernel_base: usize,
    /// End of physical memory; also the end of the kernel region.
    pub free_ram_end: usize,
}

impl Kernel {
    pub open spec fn wf(&self) -> bool {
        &&& self.procs.wf()
        &&& self.sched.wf(self.procs)
        &&& self.cpu.wf()
        &&& self.frames.wf()
        &&& self.console.wf()
        &&& self.files.wf()
        &&& self.disk.wf()
        &&& self.blk.wf()
        &&& self.dev.wf()
        &&& self.blk.capacity == self.dev.capacity_sectors * 512
        &&& self.dev.capacity_sectors >= 7
        &&& self.kernel_base as int % 4096 == 0
        &&& self.free_ram_end as int % 4096 == 0
        &&& self.kernel_base <= self.free_ram_end <= 0xFFFFFFFF
        &&& self.frames.end <= 0xFFFFFFFF
        &&& USER_BASE <= self.kernel_base
    }

    /// Boots the kernel: builds the frame allocator over
    /// `[free_ram, free_ram_end)`, initialises the block device, loads the
    /// file store from it, and leaves an empty process table with no
    /// process scheduled yet. Fails exactly when the device identification
    /// fails or the on-disk archive is malformed.
    pub fn boot(
        dev: VirtioDevice,
        console_input: Vec<u8>,
        kernel_base: usize,
        free_ram: usize,
        free_ram_end: usize,
    ) -> (r: Result<Kernel, ()>)
        requires
            dev.wf(),
            dev.capacity_sectors >= 7,
            kernel_base as int % 4096 == 0,
            free_ram as int % 4096 == 0,
            free_ram_end as int % 4096 == 0,
            kernel_base <= free_ram <= free_ram_end <= 0xFFFFFFFF,
            USER_BASE <= kernel_base,
            free_ram + 2 * 4096 <= free_ram_end,
        ensures
            r matches Ok(k) ==> {
                &&& k.wf()
                &&& k.dev.data == dev.data
                &&& k.dev.capacity_sectors == dev.capacity_sectors
                &&& k.sched.idle_proc is None
                &&& k.console.output.len() == 0
                &&& k.console.input == console_input
                &&& k.kernel_base == kernel_base
                &&& k.free_ram_end == free_ram_end
                &&& k.blk.capacity == dev.capacity_sectors * 512
                &&& forall|i: int|
                    0 <= i < crate::process::PROCS_MAX ==> (#[trigger] k.procs.0[i]).state
                        == crate::process::State::Unused
                &&& k.files.views() == crate::tar::parse_rec(
                    dev.data@.subrange(0, crate::tar::DISK_CAPACITY as int),
                    0,
                    0,
                ).unwrap()
            },
            r is Ok <==> (dev.magic == 0x74726976 && dev.version == 1 && dev.device_id == 2
                && crate::tar::parse_rec(
                dev.data@.subrange(0, crate::tar::DISK_CAPACITY as int),
                0,
                0,
            ) is Some),
    {
        let mut dev = dev;
        let mut frames = BumpAllocator::new(free_ram, free_ram_end);
        let mut blk = match virtio_blk_init(&mut dev, &mut frames) {
            Ok(b) => b,
            Err(()) => {
                return Err(());
            },
        };
        let mut files = Files::new();
        let mut disk = Disk::empty();
        match fs_init(&mut files, &mut disk, &mut blk, &mut dev) {
            Ok(()) => {},
            Err(()) => {
                return Err(());
            },
        }
        let k = Kernel {
            procs: Procs::new(),
            sched: Scheduler::new(),
            cpu: CpuContext { regs: zero_regs(), sp: STACK_BYTES },
            frames,
            console: DebugConsole::new(console_input),
            files,
            disk,
            blk,
            dev,
            kernel_base,
            free_ram_end,
        };
        Ok(k)
    }
}

/// A cleared callee-saved register file.
fn zero_regs() -> (r: Vec<u32>)
    ensures
        r.len() == CONTEXT_WORDS,
        forall|i: int| 0 <= i < CONTEXT_WORDS ==> #[trigger] r[i] == 0,
{
    let mut v: Vec<u32> = Vec::new();
    while v.len() < CONTEXT_WORDS
        invariant
            v.len() <= CONTEXT_WORDS,
            forall|i: int| 0 <= i < v.len() ==> #[trigger] v[i] == 0,
        decreases CONTEXT_WORDS - v.len(),
    {
        v.push(0);
    }
    v
}

} // verus!
