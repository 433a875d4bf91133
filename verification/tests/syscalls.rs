//! System calls driven through the user runtime: console I/O, file reads
//! and writes with persistence across a reboot, and process exit.

use os1k::allocator::BumpAllocator;
use os1k::kernel::Kernel;
use os1k::process::{create_process, State, USER_BASE};
use os1k::scheduler::yield_now;
use os1k::tar::{fs_flush, Disk, File, Files};
use os1k::user::{exit, get_char, put_byte, readfile, writefile};
use os1k::virtio::{virtio_blk_init, VirtioDevice};

const KERNEL_BASE: usize = 0x8000_0000;
const FREE_RAM: usize = 0x8000_8000;
const FREE_RAM_END: usize = 0x8004_0000;

/// A block device whose archive holds one empty file named `meow.txt` and
/// one named `nope-not-this`.
fn device_with_meow() -> VirtioDevice {
    let mut dev = VirtioDevice::new(16, vec![0u8; 16 * 512]);
    let mut frames = BumpAllocator::new(FREE_RAM, FREE_RAM_END);
    let mut blk = virtio_blk_init(&mut dev, &mut frames).expect("handshake");
    let mut files = Files::new();
    let mut name = vec![0u8; 100];
    name[..8].copy_from_slice(b"meow.txt");
    files.0[0] = File { in_use: true, name, data: vec![0u8; 1024], size: 0 };
    let mut disk = Disk::empty();
    fs_flush(&files, &mut disk, &mut blk, &mut dev);
    dev
}

/// The user image: `meow.txt` at offset 0, `nope` at 8, the greeting at 12,
/// and room above 1000 for a read buffer.
fn shell_image() -> Vec<u8> {
    let mut image = vec![0u8; 64];
    image[..8].copy_from_slice(b"meow.txt");
    image[8..12].copy_from_slice(b"nope");
    image[12..33].copy_from_slice(b"Hello from the shell!");
    image
}

/// Boots the kernel on `dev`, spawns the shell, and schedules it.
fn boot_shell(dev: VirtioDevice, input: Vec<u8>) -> Kernel {
    let mut k = Kernel::boot(dev, input, KERNEL_BASE, FREE_RAM, FREE_RAM_END).expect("boot");
    let image = shell_image();
    let pid = create_process(&mut k.procs, &mut k.frames, &image, k.kernel_base, k.free_ram_end);
    yield_now(&mut k.sched, &mut k.procs, &mut k.cpu, &mut k.frames, k.kernel_base, k.free_ram_end);
    assert_eq!(k.sched.current_proc, Some(pid));
    k
}

#[test]
fn putbyte_writes_to_console() {
    let mut k = boot_shell(device_with_meow(), Vec::new());
    assert!(put_byte(&mut k, b'>').is_ok());
    assert!(put_byte(&mut k, b' ').is_ok());
    assert_eq!(&k.console.output, b"> ");
}

#[test]
fn getchar_consumes_pending_input_then_reports_none() {
    let mut k = boot_shell(device_with_meow(), b"hi".to_vec());
    assert_eq!(get_char(&mut k), Some(b'h' as usize));
    assert_eq!(get_char(&mut k), Some(b'i' as usize));
    // No byte pending: the kernel yields once and reports none.
    assert_eq!(get_char(&mut k), None);
}

#[test]
fn write_survives_reboot_and_reads_back_padded() {
    let mut k = boot_shell(device_with_meow(), Vec::new());

    // The shell writes the 21-byte greeting to meow.txt.
    let r = writefile(&mut k, USER_BASE, 8, USER_BASE + 12, 21);
    assert_eq!(r, 21);

    // Reboot: a fresh kernel on the same device.
    let dev = k.dev;
    let mut k2 = boot_shell(dev, Vec::new());

    // Reading meow.txt returns exactly the greeting followed by NULs.
    let r = readfile(&mut k2, USER_BASE, 8, USER_BASE + 1000, 128);
    assert_eq!(r, 128);
    let shell = k2
        .procs
        .0
        .iter()
        .find(|p| Some(p.pid) == k2.sched.current_proc)
        .expect("shell slot");
    assert_eq!(&shell.user_mem[1000..1021], b"Hello from the shell!");
    assert!(shell.user_mem[1021..1128].iter().all(|&b| b == 0));
}

#[test]
fn read_of_nonexistent_file_returns_all_bits_set() {
    let mut k = boot_shell(device_with_meow(), Vec::new());
    // Scribble on the buffer region first; a miss must not touch it.
    let idx = 0usize;
    for b in &mut k.procs.0[idx].user_mem[1000..1010] {
        *b = 0x55;
    }
    let r = readfile(&mut k, USER_BASE + 8, 4, USER_BASE + 1000, 10);
    assert_eq!(r, usize::MAX);
    assert!(k.procs.0[idx].user_mem[1000..1010].iter().all(|&b| b == 0x55));
}

#[test]
fn exited_process_is_never_scheduled_again() {
    let mut k = boot_shell(device_with_meow(), Vec::new());
    let shell_pid = k.sched.current_proc.unwrap();
    exit(&mut k);
    // The slot is exited, and with no other runnable process the idle
    // process runs from now on.
    let slot = k.procs.0.iter().find(|p| p.pid == shell_pid).unwrap();
    assert_eq!(slot.state, State::Exited);
    assert_eq!(k.sched.current_proc, Some(0));
    for _ in 0..5 {
        yield_now(
            &mut k.sched,
            &mut k.procs,
            &mut k.cpu,
            &mut k.frames,
            k.kernel_base,
            k.free_ram_end,
        );
        assert_eq!(k.sched.current_proc, Some(0));
    }
}

#[test]
fn writefile_updates_cache_and_disk_immediately() {
    let mut k = boot_shell(device_with_meow(), Vec::new());
    writefile(&mut k, USER_BASE, 8, USER_BASE + 12, 21);
    // The in-memory cache holds the new contents.
    let f = &k.files.0[0];
    assert!(f.in_use);
    assert_eq!(f.size, 21);
    assert_eq!(&f.data[..21], b"Hello from the shell!");
    // The flushed record's payload sits right after the first header.
    assert_eq!(&k.dev.data[512..533], b"Hello from the shell!");
}
