//! Process creation, scheduling, context switching, and the frame
//! allocator, driven end to end through the kernel model.

use os1k::allocator::BumpAllocator;
use os1k::kernel::Kernel;
use os1k::page::{map_page, AddressSpace, PAGE_R, PAGE_V, PAGE_W};
use os1k::process::{create_process, State, USER_ENTRY_RA};
use os1k::sbi::{put_byte, write_str};
use os1k::scheduler::yield_now;
use os1k::virtio::VirtioDevice;

const KERNEL_BASE: usize = 0x8000_0000;
const FREE_RAM: usize = 0x8000_8000;
const FREE_RAM_END: usize = 0x8004_0000;

fn boot_kernel() -> Kernel {
    let dev = VirtioDevice::new(8, vec![0u8; 8 * 512]);
    Kernel::boot(dev, Vec::new(), KERNEL_BASE, FREE_RAM, FREE_RAM_END).expect("boot")
}

fn spawn(k: &mut Kernel, image: &Vec<u8>) -> usize {
    create_process(&mut k.procs, &mut k.frames, image, k.kernel_base, k.free_ram_end)
}

fn step(k: &mut Kernel) -> Option<os1k::scheduler::SwitchAction> {
    yield_now(
        &mut k.sched,
        &mut k.procs,
        &mut k.cpu,
        &mut k.frames,
        k.kernel_base,
        k.free_ram_end,
    )
}

#[test]
fn created_process_is_runnable_with_prepared_stack() {
    let mut k = boot_kernel();
    let image = vec![0xAAu8; 10];
    let pid = spawn(&mut k, &image);
    assert_eq!(pid, 1);
    let p = &k.procs.0[0];
    assert_eq!(p.pid, 1);
    assert_eq!(p.state, State::Runnable);
    // sp points at the 13-word callee-saved frame at the stack's end.
    assert_eq!(p.sp.as_usize(), 8192 - 52);
    assert_eq!(p.stack[2048 - 13], USER_ENTRY_RA);
    for w in &p.stack[2048 - 12..] {
        assert_eq!(*w, 0);
    }
    // The image is copied and zero-padded to a whole page.
    assert_eq!(p.user_mem.len(), 4096);
    assert_eq!(&p.user_mem[..10], &image[..]);
    assert!(p.user_mem[10..].iter().all(|&b| b == 0));
    assert!(p.page_table.is_some());
}

#[test]
fn created_pids_are_distinct_slots() {
    let mut k = boot_kernel();
    let image: Vec<u8> = vec![1];
    let a = spawn(&mut k, &image);
    let b = spawn(&mut k, &image);
    let c = spawn(&mut k, &image);
    assert_eq!((a, b, c), (1, 2, 3));
    // After the first yield the idle process exists with PID exactly 0.
    step(&mut k);
    let idle = k.procs.0.iter().find(|p| p.pid == 0 && p.state == State::Runnable);
    assert!(idle.is_some());
}

#[test]
fn round_robin_alternates_between_two_processes() {
    let mut k = boot_kernel();
    let image: Vec<u8> = vec![1];
    let a = spawn(&mut k, &image);
    let b = spawn(&mut k, &image);

    // Each time a process is scheduled it "prints" its own byte.
    let mut printed = Vec::new();
    for _ in 0..10 {
        step(&mut k);
        let current = k.sched.current_proc.expect("scheduled");
        let byte = if current == a {
            b'A'
        } else if current == b {
            b'B'
        } else {
            b'?'
        };
        put_byte(&mut k.console, byte).unwrap();
        printed.push(byte);
    }
    assert_eq!(&printed, b"ABABABABAB");
    write_str(&mut k.console, b" done");
    assert_eq!(&k.console.output, b"ABABABABAB done");
}

#[test]
fn yield_with_no_runnable_process_schedules_idle() {
    let mut k = boot_kernel();
    step(&mut k);
    assert_eq!(k.sched.current_proc, Some(0));
    assert_eq!(k.sched.idle_proc, Some(0));
    // Yielding again is a no-op: nothing but idle is runnable.
    assert!(step(&mut k).is_none());
    assert_eq!(k.sched.current_proc, Some(0));
}

#[test]
fn switch_installs_satp_and_sscratch() {
    let mut k = boot_kernel();
    let image: Vec<u8> = vec![1];
    spawn(&mut k, &image);
    let action = step(&mut k).expect("a real switch");
    let root_pa = k.procs.0[0].page_table.as_ref().unwrap().root_pa.as_usize();
    assert_eq!(action.satp, (1usize << 31) | root_pa);
    assert_eq!(action.sscratch, 8192);
}

#[test]
fn callee_saved_registers_survive_a_switch_round_trip() {
    let mut k = boot_kernel();
    let image: Vec<u8> = vec![1];
    let a = spawn(&mut k, &image);
    let b = spawn(&mut k, &image);

    step(&mut k);
    assert_eq!(k.sched.current_proc, Some(a));
    // "A" computes with distinctive callee-saved registers.
    let markers: Vec<u32> = (100..113).collect();
    k.cpu.regs = markers.clone();

    step(&mut k);
    assert_eq!(k.sched.current_proc, Some(b));
    // B's first resume restores its prepared frame.
    assert_eq!(k.cpu.regs[0], USER_ENTRY_RA);
    assert!(k.cpu.regs[1..].iter().all(|&w| w == 0));
    k.cpu.regs = (200..213).collect();

    step(&mut k);
    assert_eq!(k.sched.current_proc, Some(a));
    // Back in A: its registers are bit-identical to the earlier switch.
    assert_eq!(k.cpu.regs, markers);
}

#[test]
fn allocator_returns_zeroed_disjoint_frames() {
    let mut frames = BumpAllocator::new(0x8000_8000, 0x8000_b000);
    let f1 = frames.alloc_pages(100).expect("room");
    let f2 = frames.alloc_pages(4097).expect("room");
    assert_eq!(f1.base.as_usize(), 0x8000_8000);
    assert_eq!(f1.data.len(), 4096);
    assert!(f1.data.iter().all(|&b| b == 0));
    // The second frame starts where the first ended: no byte is reused.
    assert_eq!(f2.base.as_usize(), 0x8000_9000);
    assert_eq!(f2.data.len(), 8192);
    // The region is now exhausted.
    assert_eq!(frames.next.as_usize(), 0x8000_b000);
    assert!(frames.alloc_pages(1).is_err());
}

#[test]
fn map_page_writes_leaf_entry_with_valid_bit() {
    let mut frames = BumpAllocator::new(0x8000_8000, 0x8002_0000);
    let mut space = AddressSpace::new(&mut frames).expect("room");
    let va = os1k::address::VAddr::new(0x8000_1000);
    let pa = os1k::address::PAddr::new(0x8000_1000);
    map_page(&mut space, &mut frames, va, pa, PAGE_R | PAGE_W).expect("room");
    let vpn1 = va.vpn1();
    let vpn0 = va.vpn0();
    let rpte = space.root.entry(vpn1);
    assert_eq!(rpte & PAGE_V, PAGE_V);
    // The root entry points at the single allocated leaf table.
    let li = space.leaf_ppns.iter().position(|&p| p == rpte / 1024).unwrap();
    let lpte = space.leaves[li].entry(vpn0);
    assert_eq!(lpte, (0x8000_1000 / 4096) * 1024 + (PAGE_R | PAGE_W | PAGE_V));
}

#[test]
fn map_page_fails_when_no_frame_is_left_for_a_leaf() {
    // Room for the root table only: the first mapping cannot allocate its
    // leaf table.
    let mut frames = BumpAllocator::new(0x8000_8000, 0x8000_9000);
    let mut space = AddressSpace::new(&mut frames).expect("room for the root");
    let va = os1k::address::VAddr::new(0x8000_0000);
    let pa = os1k::address::PAddr::new(0x8000_0000);
    assert!(map_page(&mut space, &mut frames, va, pa, PAGE_R).is_err());
}
