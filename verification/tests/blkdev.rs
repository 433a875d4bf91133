//! VirtIO block driver: handshake, capacity, the three-descriptor request
//! chain, and sector transfer against the device model.

use os1k::allocator::BumpAllocator;
use os1k::virtio::{
    virtio_blk_init, read_write_disk, VirtioBlk, VirtioDevice, VIRTQ_DESC_F_NEXT,
    VIRTQ_DESC_F_WRITE,
};

fn frames() -> BumpAllocator {
    BumpAllocator::new(0x8000_8000, 0x8004_0000)
}

fn init(dev: &mut VirtioDevice) -> VirtioBlk {
    let mut fr = frames();
    virtio_blk_init(dev, &mut fr).expect("handshake")
}

#[test]
fn capacity_of_1024_sectors_is_524288_bytes() {
    let mut dev = VirtioDevice::new(1024, vec![0u8; 1024 * 512]);
    let blk = init(&mut dev);
    assert_eq!(blk.capacity, 524288);
    // The handshake left the device fully driven: queue 0, 16 entries,
    // page frame registered, DRIVER_OK status.
    assert_eq!(dev.device_status, 4);
    assert_eq!(dev.queue_sel, 0);
    assert_eq!(dev.queue_num, 16);
    assert_eq!(dev.queue_align, 0);
    assert_eq!(dev.queue_pfn as usize, blk.vq_paddr);
}

#[test]
fn read_of_out_of_range_sector_leaves_buffer_untouched() {
    let mut dev = VirtioDevice::new(1024, vec![0u8; 1024 * 512]);
    let mut blk = init(&mut dev);
    let mut buf = vec![0x5Au8; 512];
    read_write_disk(&mut blk, &mut dev, &mut buf, 1024, false);
    assert!(buf.iter().all(|&b| b == 0x5A));
    // The device was not kicked either.
    assert_eq!(blk.vq.avail.index, 0);
}

#[test]
fn write_then_read_round_trips_a_sector() {
    let mut dev = VirtioDevice::new(16, vec![0u8; 16 * 512]);
    let mut blk = init(&mut dev);
    let mut out: Vec<u8> = (0..512u32).map(|i| (i % 251) as u8).collect();
    read_write_disk(&mut blk, &mut dev, &mut out, 3, true);
    assert_eq!(&dev.data[3 * 512..4 * 512], &out[..]);

    let mut inp = vec![0u8; 512];
    read_write_disk(&mut blk, &mut dev, &mut inp, 3, false);
    assert_eq!(inp, out);
    assert_eq!(blk.req.status, 0);
}

#[test]
fn request_builds_the_three_descriptor_chain() {
    let mut dev = VirtioDevice::new(16, vec![0u8; 16 * 512]);
    let mut blk = init(&mut dev);
    let mut buf = vec![0u8; 512];
    read_write_disk(&mut blk, &mut dev, &mut buf, 0, false);

    let req_pa = blk.req_paddr as u64;
    // 0: header (type + reserved + sector: 16 bytes), chained to 1.
    assert_eq!(blk.vq.descs[0].addr, req_pa);
    assert_eq!(blk.vq.descs[0].len, 16);
    assert_eq!(blk.vq.descs[0].flags, VIRTQ_DESC_F_NEXT);
    assert_eq!(blk.vq.descs[0].next, 1);
    // 1: one sector of data; the device writes it on a read.
    assert_eq!(blk.vq.descs[1].addr, req_pa + 16);
    assert_eq!(blk.vq.descs[1].len, 512);
    assert_eq!(blk.vq.descs[1].flags, VIRTQ_DESC_F_NEXT | VIRTQ_DESC_F_WRITE);
    assert_eq!(blk.vq.descs[1].next, 2);
    // 2: the status byte, written by the device.
    assert_eq!(blk.vq.descs[2].addr, req_pa + 16 + 512);
    assert_eq!(blk.vq.descs[2].len, 1);
    assert_eq!(blk.vq.descs[2].flags, VIRTQ_DESC_F_WRITE);
    assert_eq!(blk.vq.descs[2].next, 0);
    // The available ring advanced and the request completed.
    assert_eq!(blk.vq.avail.index, 1);
    assert_eq!(blk.vq.avail.ring[0], 0);
    assert_eq!(blk.vq.used.index, blk.vq.last_used_index);
}

#[test]
fn write_descriptor_chain_marks_data_device_readable() {
    let mut dev = VirtioDevice::new(16, vec![0u8; 16 * 512]);
    let mut blk = init(&mut dev);
    let mut buf = vec![7u8; 512];
    read_write_disk(&mut blk, &mut dev, &mut buf, 1, true);
    // On a write the data descriptor carries no WRITE flag.
    assert_eq!(blk.vq.descs[1].flags, VIRTQ_DESC_F_NEXT);
}

#[test]
fn init_rejects_wrong_magic() {
    let mut dev = VirtioDevice::new(16, vec![0u8; 16 * 512]);
    dev.magic = 0x74726977;
    let mut fr = frames();
    assert!(virtio_blk_init(&mut dev, &mut fr).is_err());
}

#[test]
fn init_rejects_wrong_version() {
    let mut dev = VirtioDevice::new(16, vec![0u8; 16 * 512]);
    dev.version = 2;
    let mut fr = frames();
    assert!(virtio_blk_init(&mut dev, &mut fr).is_err());
}

#[test]
fn init_rejects_wrong_device_id() {
    let mut dev = VirtioDevice::new(16, vec![0u8; 16 * 512]);
    dev.device_id = 1;
    let mut fr = frames();
    assert!(virtio_blk_init(&mut dev, &mut fr).is_err());
}
