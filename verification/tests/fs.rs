//! Tar file store: header properties, flush/load round trips, lookup, and
//! malformed archives.

use os1k::allocator::BumpAllocator;
use os1k::tar::{
    build_header, fs_flush, fs_init, int2oct, oct2int, Disk, File, Files, DISK_CAPACITY,
};
use os1k::virtio::{virtio_blk_init, VirtioBlk, VirtioDevice};

fn device(sectors: u64) -> VirtioDevice {
    VirtioDevice::new(sectors, vec![0u8; sectors as usize * 512])
}

fn driver(dev: &mut VirtioDevice) -> VirtioBlk {
    let mut frames = BumpAllocator::new(0x8000_8000, 0x8004_0000);
    virtio_blk_init(dev, &mut frames).expect("device handshake")
}

fn name100(name: &[u8]) -> Vec<u8> {
    let mut v = vec![0u8; 100];
    v[..name.len()].copy_from_slice(name);
    v
}

fn file_with(name: &[u8], content: &[u8]) -> File {
    let mut data = vec![0u8; 1024];
    data[..content.len()].copy_from_slice(content);
    File { in_use: true, name: name100(name), data, size: content.len() }
}

#[test]
fn header_checksum_decodes_to_spaced_byte_sum() {
    let f = file_with(b"meow.txt", b"Hello from the shell!");
    let h = build_header(&f);
    assert_eq!(h.len(), 512);
    // Replace the checksum field with spaces and sum every byte.
    let mut spaced = h.clone();
    for b in &mut spaced[148..156] {
        *b = b' ';
    }
    let sum: usize = spaced.iter().map(|&b| b as usize).sum();
    assert_eq!(oct2int(&h[148..156]), Ok(sum));
}

#[test]
fn header_has_ustar_fields() {
    let f = file_with(b"hello.txt", b"hi");
    let h = build_header(&f);
    assert_eq!(&h[0..9], b"hello.txt");
    assert_eq!(h[9], 0);
    assert_eq!(&h[100..108], b"00000644");
    assert_eq!(&h[257..263], b"ustar\0");
    assert_eq!(&h[263..265], b"00");
    assert_eq!(h[156], b'0');
    // Size field: 2 bytes, NUL-terminated octal.
    assert_eq!(oct2int(&h[124..136]), Ok(2));
}

#[test]
fn flush_then_init_is_a_projection() {
    let mut dev = device(8);
    let mut blk = driver(&mut dev);
    let mut disk = Disk::empty();
    let mut files = Files::new();
    files.0[0] = file_with(b"meow.txt", b"Hello from the shell!");
    files.0[1] = file_with(b"big.bin", &[0xABu8; 1024]);
    // Give the first file stale data beyond its size: it must not survive.
    files.0[0].data[900] = 0xEE;
    fs_flush(&files, &mut disk, &mut blk, &mut dev);

    let mut files2 = Files::new();
    let mut disk2 = Disk::empty();
    fs_init(&mut files2, &mut disk2, &mut blk, &mut dev).expect("well-formed archive");

    for i in 0..2 {
        assert!(files2.0[i].in_use);
        assert_eq!(files2.0[i].name, files.0[i].name);
        assert_eq!(files2.0[i].size, files.0[i].size);
        let n = files.0[i].size;
        assert_eq!(files2.0[i].data[..n], files.0[i].data[..n]);
    }
    // The stale byte beyond `size` came back as zero.
    assert_eq!(files2.0[0].data[900], 0);
}

#[test]
fn round_trip_drops_unused_slot() {
    let mut dev = device(8);
    let mut blk = driver(&mut dev);
    let mut disk = Disk::empty();
    let mut files = Files::new();
    files.0[0] = file_with(b"only.txt", b"abc");
    fs_flush(&files, &mut disk, &mut blk, &mut dev);

    let mut files2 = Files::new();
    files2.0[0] = file_with(b"junk", b"junk");
    files2.0[1] = file_with(b"junk2", b"junk");
    let mut disk2 = Disk::empty();
    fs_init(&mut files2, &mut disk2, &mut blk, &mut dev).expect("well-formed archive");
    assert!(files2.0[0].in_use);
    assert!(!files2.0[1].in_use);
    assert_eq!(files2.0[1].name, vec![0u8; 100]);
    assert_eq!(files2.0[1].size, 0);
}

#[test]
fn init_on_zeroed_disk_leaves_every_slot_unused() {
    let mut dev = device(8);
    let mut blk = driver(&mut dev);
    let mut files = Files::new();
    let mut disk = Disk::empty();
    fs_init(&mut files, &mut disk, &mut blk, &mut dev).expect("empty archive is well formed");
    for f in &files.0 {
        assert!(!f.in_use);
    }
}

#[test]
fn init_rejects_bad_magic() {
    let mut dev = device(8);
    let mut blk = driver(&mut dev);
    let mut disk = Disk::empty();
    let mut files = Files::new();
    files.0[0] = file_with(b"x", b"y");
    fs_flush(&files, &mut disk, &mut blk, &mut dev);
    // Corrupt the magic of the first record on disk.
    dev.data[257] = b'U';
    let mut files2 = Files::new();
    let mut disk2 = Disk::empty();
    assert_eq!(fs_init(&mut files2, &mut disk2, &mut blk, &mut dev), Err(()));
}

#[test]
fn init_rejects_oversized_file() {
    let mut dev = device(8);
    let mut blk = driver(&mut dev);
    let mut disk = Disk::empty();
    let mut files = Files::new();
    files.0[0] = file_with(b"x", b"y");
    fs_flush(&files, &mut disk, &mut blk, &mut dev);
    // Rewrite the size field to 2048, past the file data capacity.
    let mut size_field = vec![0u8; 12];
    int2oct(2048, &mut size_field);
    dev.data[124..136].copy_from_slice(&size_field);
    let mut files2 = Files::new();
    let mut disk2 = Disk::empty();
    assert_eq!(fs_init(&mut files2, &mut disk2, &mut blk, &mut dev), Err(()));
}

#[test]
fn init_rejects_unparsable_size_field() {
    let mut dev = device(8);
    let mut blk = driver(&mut dev);
    let mut disk = Disk::empty();
    let mut files = Files::new();
    files.0[0] = file_with(b"x", b"y");
    fs_flush(&files, &mut disk, &mut blk, &mut dev);
    dev.data[124] = b'9';
    let mut files2 = Files::new();
    let mut disk2 = Disk::empty();
    assert_eq!(fs_init(&mut files2, &mut disk2, &mut blk, &mut dev), Err(()));
}

#[test]
fn lookup_finds_first_matching_name() {
    let mut files = Files::new();
    files.0[0] = file_with(b"hello.txt", b"hi");
    files.0[1] = file_with(b"meow.txt", b"cat");
    assert_eq!(files.fs_lookup(b"meow.txt"), Some(1));
    assert_eq!(files.fs_lookup(b"hello.txt"), Some(0));
    assert_eq!(files.fs_lookup(b"nope"), None);
    // A name longer than the field cannot match.
    assert_eq!(files.fs_lookup(&[b'a'; 100]), None);
}

#[test]
fn lookup_on_fresh_cache_matches_only_empty_name() {
    let files = Files::new();
    // A zeroed slot's name is empty, so only the empty query matches it.
    assert_eq!(files.fs_lookup(b""), Some(0));
    assert_eq!(files.fs_lookup(b"anything"), None);
}

#[test]
fn disk_buffer_holds_whole_archive() {
    assert_eq!(DISK_CAPACITY % 512, 0);
    // Two maximal records (512-byte header + 1024 bytes of data each) and
    // a terminating sector fit.
    assert!(2 * (512 + 1024) + 512 <= DISK_CAPACITY);
}

#[test]
fn lookup_query_with_interior_nul_matches_nothing() {
    let mut files = Files::new();
    files.0[0] = file_with(b"meow.txt", b"cat");
    assert_eq!(files.fs_lookup(b"meow\0txt"), None);
    assert_eq!(files.fs_lookup(b"meow.txt\0"), None);
}
