//! Legacy MMIO VirtIO block driver. The device is modelled as plain state —
//! its identification, status and queue registers and the disk contents
//! behind them — so the handshake, the three-descriptor request chain and
//! the completion poll are verified against an explicit device model.

use vstd::prelude::*;

use crate::allocator::{BumpAllocator, PAGE_SIZE};

verus! {

pub const SECTOR_SIZE: usize = 512;

pub const VIRTQ_ENTRY_NUM: usize = 16;

pub const VIRTIO_DEVICE_BLK: u32 = 2;

pub const VIRTIO_BLK_PADDR: u32 = 0x10001000;

pub const VIRTIO_REG_MAGIC: u32 = 0x00;

pub const VIRTIO_REG_VERSION: u32 = 0x04;

pub const VIRTIO_REG_DEVICE_ID: u32 = 0x08;

pub const VIRTIO_REG_QUEUE_SEL: u32 = 0x30;

pub const VIRTIO_REG_QUEUE_NUM: u32 = 0x38;

pub const VIRTIO_REG_QUEUE_ALIGN: u32 = 0x3c;

pub const VIRTIO_REG_QUEUE_PFN: u32 = 0x40;

pub const VIRTIO_REG_QUEUE_NOTIFY: u32 = 0x50;

pub const VIRTIO_REG_DEVICE_STATUS: u32 = 0x70;

pub const VIRTIO_REG_DEVICE_CONFIG: u32 = 0x100;

pub const VIRTIO_STATUS_ACK: u32 = 1;

pub const VIRTIO_STATUS_DRIVER: u32 = 2;

pub const VIRTIO_STATUS_DRIVER_OK: u32 = 4;

pub const VIRTIO_STATUS_FEAT_OK: u32 = 8;

pub const VIRTQ_DESC_F_NEXT: u16 = 1;

pub const VIRTQ_DESC_F_WRITE: u16 = 2;

pub const VIRTIO_BLK_T_IN: u32 = 0;

pub const VIRTIO_BLK_T_OUT: u32 = 1;

/// Virtqueue Descriptor area entry.
#[derive(Clone, Copy, Debug, PartialEq, Eq, Structural)]
pub struct VirtqDesc {
    pub addr: u64,
    pub len: u32,
    pub flags: u16,
    pub next: u16,
}

/// Virtqueue Available Ring.
pub struct VirtqAvail {
    pub flags: u16,
    pub index: u16,
    pub ring: Vec<u16>,
}

/// Virtqueue Used Ring entry.
#[derive(Clone, Copy, Debug, PartialEq, Eq, Structural)]
pub struct VirtqUsedElem {
    pub id: u32,
    pub len: u32,
}

/// Virtqueue Used Ring; the device advances `index` as it completes
/// requests.
pub struct VirtqUsed {
    pub flags: u16,
    pub index: u16,
    pub ring: Vec<VirtqUsedElem>,
}

/// One virtqueue.
pub struct VirtioVirtq {
    pub descs: Vec<VirtqDesc>,
    pub avail: VirtqAvail,
    pub used: VirtqUsed,
    pub queue_index: u16,
    pub last_used_index: u16,
}

impl VirtioVirtq {
    pub open spec fn wf(&self) -> bool {
        &&& self.descs.len() == VIRTQ_ENTRY_NUM
        &&& self.avail.ring.len() == VIRTQ_ENTRY_NUM
        &&& self.used.ring.len() == VIRTQ_ENTRY_NUM
    }
}

/// Virtio-blk request buffer: header, one sector of data, and the status
/// byte the device fills in.
pub struct VirtioBlkReq {
    pub req_type: u32,
    pub reserved: u32,
    pub sector: u64,
    pub data: Vec<u8>,
    pub status: u8,
}

impl VirtioBlkReq {
    pub open spec fn wf(&self) -> bool {
        self.data.len() == SECTOR_SIZE
    }
}

/// The legacy MMIO virtio-blk device as the driver observes it: registers,
/// plus the disk contents behind the request queue.
pub struct VirtioDevice {
    pub magic: u32,
    pub version: u32,
    pub device_id: u32,
    pub device_status: u32,
    pub queue_sel: u32,
    pub queue_num: u32,
    pub queue_align: u32,
    pub queue_pfn: u32,
    /// Disk capacity in 512-byte sectors, as exposed at the config space.
    pub capacity_sectors: u64,
    /// The disk contents, `capacity_sectors * 512` bytes.
    pub data: Vec<u8>,
}

impl VirtioDevice {
    pub open spec fn wf(&self) -> bool {
        &&& self.data.len() == self.capacity_sectors * 512
        &&& self.capacity_sectors * 512 <= usize::MAX
    }

    /// A well-behaved block device with the given disk contents.
    pub fn new(sectors: u64, data: Vec<u8>) -> (r: Self)
        requires
            data.len() == sectors * 512,
            sectors * 512 <= usize::MAX,
        ensures
            r.wf(),
            r.magic == 0x74726976,
            r.version == 1,
            r.device_id == VIRTIO_DEVICE_BLK,
            r.capacity_sectors == sectors,
            r.data == data,
            r.device_status == 0,
    {
        VirtioDevice {
            magic: 0x74726976,
            version: 1,
            device_id: VIRTIO_DEVICE_BLK,
            device_status: 0,
            queue_sel: 0,
            queue_num: 0,
            queue_align: 0,
            queue_pfn: 0,
            capacity_sectors: sectors,
            data,
        }
    }
}

/// Reads a 32-bit device register.
pub fn virtio_reg_read32(dev: &VirtioDevice, offset: u32) -> (r: u32)
    requires
        offset == VIRTIO_REG_MAGIC || offset == VIRTIO_REG_VERSION || offset
            == VIRTIO_REG_DEVICE_ID || offset == VIRTIO_REG_DEVICE_STATUS,
    ensures
        offset == VIRTIO_REG_MAGIC ==> r == dev.magic,
        offset == VIRTIO_REG_VERSION ==> r == dev.version,
        offset == VIRTIO_REG_DEVICE_ID ==> r == dev.device_id,
        offset == VIRTIO_REG_DEVICE_STATUS ==> r == dev.device_status,
{
    if offset == VIRTIO_REG_MAGIC {
        dev.magic
    } else if offset == VIRTIO_REG_VERSION {
        dev.version
    } else if offset == VIRTIO_REG_DEVICE_ID {
        dev.device_id
    } else {
        dev.device_status
    }
}

/// Reads the 64-bit disk capacity from the device config space.
pub fn virtio_reg_read64(dev: &VirtioDevice, offset: u32) -> (r: u64)
    requires
        offset == VIRTIO_REG_DEVICE_CONFIG,
    ensures
        r == dev.capacity_sectors,
{
    dev.capacity_sectors
}

/// Writes a 32-bit device register.
pub fn virtio_reg_write32(dev: &mut VirtioDevice, offset: u32, value: u32)
    requires
        offset == VIRTIO_REG_DEVICE_STATUS || offset == VIRTIO_REG_QUEUE_SEL || offset
            == VIRTIO_REG_QUEUE_NUM || offset == VIRTIO_REG_QUEUE_ALIGN || offset
            == VIRTIO_REG_QUEUE_PFN || offset == VIRTIO_REG_QUEUE_NOTIFY,
    ensures
        offset == VIRTIO_REG_DEVICE_STATUS ==> *final(dev) == (VirtioDevice {
            device_status: value,
            ..*old(dev)
        }),
        offset == VIRTIO_REG_QUEUE_SEL ==> *final(dev) == (VirtioDevice {
            queue_sel: value,
            ..*old(dev)
        }),
        offset == VIRTIO_REG_QUEUE_NUM ==> *final(dev) == (VirtioDevice {
            queue_num: value,
            ..*old(dev)
        }),
        offset == VIRTIO_REG_QUEUE_ALIGN ==> *final(dev) == (VirtioDevice {
            queue_align: value,
            ..*old(dev)
        }),
        offset == VIRTIO_REG_QUEUE_PFN ==> *final(dev) == (VirtioDevice {
            queue_pfn: value,
            ..*old(dev)
        }),
        offset == VIRTIO_REG_QUEUE_NOTIFY ==> *final(dev) == *old(dev),
{
    if offset == VIRTIO_REG_DEVICE_STATUS {
        dev.device_status = value;
    } else if offset == VIRTIO_REG_QUEUE_SEL {
        dev.queue_sel = value;
    } else if offset == VIRTIO_REG_QUEUE_NUM {
        dev.queue_num = value;
    } else if offset == VIRTIO_REG_QUEUE_ALIGN {
        dev.queue_align = value;
    } else if offset == VIRTIO_REG_QUEUE_PFN {
        dev.queue_pfn = value;
    } else {
        // Queue notify: the device is poked separately by the request path.
    }
}

/// Driver-side block-device state: the request virtqueue, the one request
/// buffer, the cached capacity in bytes, and the physical addresses the two
/// structures were allocated at (identity-mapped, so they are handed to the
/// device as-is).
pub struct VirtioBlk {
    pub vq: VirtioVirtq,
    pub req: VirtioBlkReq,
    /// Disk capacity in bytes.
    pub capacity: u64,
    pub vq_paddr: usize,
    pub req_paddr: usize,
}

impl VirtioBlk {
    pub open spec fn wf(&self) -> bool {
        &&& self.vq.wf()
        &&& self.req.wf()
        &&& self.req_paddr + 16 + SECTOR_SIZE <= usize::MAX
        // Quiescent between requests: every kicked request has been seen
        // to complete.
        &&& self.vq.last_used_index == self.vq.used.index
    }
}

/// Allocates and zeroes a virtqueue and announces it to the device:
/// selects the queue, sets its size and alignment, and hands over the page
/// frame number. Fails exactly when the allocator is exhausted.
#[verifier::rlimit(50)]
pub fn virtq_init(dev: &mut VirtioDevice, frames: &mut BumpAllocator, index: usize) -> (r: Result<
    (VirtioVirtq, usize),
    (),
>)
    requires
        old(frames).wf(),
        index <= 0xFFFFFFFF,
    ensures
        final(frames).wf(),
        final(frames).end == old(frames).end,
        old(frames).next.0 <= final(frames).next.0 <= old(frames).next.0 + 4096,
        r is Ok <==> old(frames).next.0 + 4096 <= old(frames).end,
        r matches Ok(p) ==> {
            &&& p.0.wf()
            &&& p.0.queue_index == index as u16
            &&& p.0.last_used_index == 0
            &&& p.0.avail.index == 0
            &&& p.0.used.index == 0
            &&& p.1 == old(frames).next.0
            &&& *final(dev) == (VirtioDevice {
                queue_sel: index as u32,
                queue_num: VIRTQ_ENTRY_NUM as u32,
                queue_align: 0,
                queue_pfn: p.1 as u32,
                ..*old(dev)
            })
        },
        r is Err ==> *final(dev) == *old(dev) && *final(frames) == *old(frames),
{
    let f = match frames.alloc_pages(PAGE_SIZE) {
        Ok(f) => f,
        Err(()) => {
            return Err(());
        },
    };
    let vq_paddr = f.base.as_usize();

    let mut descs: Vec<VirtqDesc> = Vec::new();
    while descs.len() < VIRTQ_ENTRY_NUM
        invariant
            descs.len() <= VIRTQ_ENTRY_NUM,
        decreases VIRTQ_ENTRY_NUM - descs.len(),
    {
        descs.push(VirtqDesc { addr: 0, len: 0, flags: 0, next: 0 });
    }
    let mut avail_ring: Vec<u16> = Vec::new();
    while avail_ring.len() < VIRTQ_ENTRY_NUM
        invariant
            avail_ring.len() <= VIRTQ_ENTRY_NUM,
        decreases VIRTQ_ENTRY_NUM - avail_ring.len(),
    {
        avail_ring.push(0);
    }
    let mut used_ring: Vec<VirtqUsedElem> = Vec::new();
    while used_ring.len() < VIRTQ_ENTRY_NUM
        invariant
            used_ring.len() <= VIRTQ_ENTRY_NUM,
        decreases VIRTQ_ENTRY_NUM - used_ring.len(),
    {
        used_ring.push(VirtqUsedElem { id: 0, len: 0 });
    }
    let vq = VirtioVirtq {
        descs,
        avail: VirtqAvail { flags: 0, index: 0, ring: avail_ring },
        used: VirtqUsed { flags: 0, index: 0, ring: used_ring },
        queue_index: index as u16,
        last_used_index: 0,
    };

    // 1. Select the queue writing its index to QueueSel.
    virtio_reg_write32(dev, VIRTIO_REG_QUEUE_SEL, index as u32);
    // 5. Notify the device about the queue size.
    virtio_reg_write32(dev, VIRTIO_REG_QUEUE_NUM, VIRTQ_ENTRY_NUM as u32);
    // 6. Notify the device about the used alignment.
    virtio_reg_write32(dev, VIRTIO_REG_QUEUE_ALIGN, 0);
    // 7. Write the physical number of the first page of the queue.
    virtio_reg_write32(dev, VIRTIO_REG_QUEUE_PFN, vq_paddr as u32);

    Ok((vq, vq_paddr))
}

/// Places `desc_index` in the available ring, advances the ring index, and
/// notifies the device, which completes the one outstanding request before
/// the driver polls again: the status byte becomes 0, a read fills the
/// request data from the addressed sector, a write stores the request data
/// into it, and the used-ring index advances to match.
#[verifier::rlimit(50)]
#[verifier::loop_isolation(false)]
pub fn virtq_kick(
    dev: &mut VirtioDevice,
    vq: &mut VirtioVirtq,
    req: &mut VirtioBlkReq,
    desc_index: u16,
)
    requires
        old(vq).wf(),
        old(req).wf(),
        old(dev).wf(),
        old(req).sector < old(dev).capacity_sectors,
        old(req).req_type == VIRTIO_BLK_T_IN || old(req).req_type == VIRTIO_BLK_T_OUT,
    ensures
        final(vq).wf(),
        final(req).wf(),
        final(dev).wf(),
        final(vq).avail.ring@ == old(vq).avail.ring@.update(
            old(vq).avail.index as int % 16,
            desc_index,
        ),
        final(vq).avail.index == (old(vq).avail.index + 1) % 0x10000,
        final(vq).last_used_index == (old(vq).last_used_index + 1) % 0x10000,
        final(vq).used.index == (old(vq).used.index + 1) % 0x10000,
        final(vq).descs == old(vq).descs,
        final(vq).queue_index == old(vq).queue_index,
        final(req).status == 0,
        final(req).sector == old(req).sector,
        final(req).req_type == old(req).req_type,
        final(dev).capacity_sectors == old(dev).capacity_sectors,
        old(req).req_type == VIRTIO_BLK_T_OUT ==> {
            &&& final(req).data == old(req).data
            &&& final(dev).data@ == old(dev).data@.map(
                |i: int, b: u8|
                    if old(req).sector * 512 <= i < old(req).sector * 512 + 512 {
                        old(req).data@[i - old(req).sector * 512]
                    } else {
                        b
                    },
            )
        },
        old(req).req_type == VIRTIO_BLK_T_IN ==> {
            &&& final(dev).data == old(dev).data
            &&& final(req).data@ == old(dev).data@.subrange(
                old(req).sector as int * 512,
                old(req).sector as int * 512 + 512,
            )
        },
{
    let idx = (vq.avail.index % 16) as usize;
    let ghost sector = req.sector as int;
    proof {
        assert(vq.avail.index as int % 16 == idx as int);
        assert((req.sector * 512 + 512) as int <= dev.data.len()) by (nonlinear_arith)
            requires
                req.sector < dev.capacity_sectors,
                dev.data.len() == dev.capacity_sectors * 512,
        ;
        assert(sector * 512 + 512 <= usize::MAX);
    }
    vq.avail.ring.set(idx, desc_index);
    vq.avail.index = if vq.avail.index == 0xFFFF {
        0
    } else {
        vq.avail.index + 1
    };

    // The device sees the notify write and processes the request.
    virtio_reg_write32(dev, VIRTIO_REG_QUEUE_NOTIFY, vq.queue_index as u32);
    let base = (req.sector as usize) * SECTOR_SIZE;
    if req.req_type == VIRTIO_BLK_T_OUT {
        let mut j: usize = 0;
        while j < SECTOR_SIZE
            invariant
                j <= SECTOR_SIZE,
                base == sector * 512,
                base + 512 <= dev.data.len(),
                req.wf(),
                dev.capacity_sectors == old(dev).capacity_sectors,
                dev.data.len() == old(dev).data.len(),
                forall|i: int|
                    0 <= i < dev.data.len() && !(base <= i < base + j) ==> #[trigger] dev.data[i]
                        == old(dev).data[i],
                forall|i: int|
                    base <= i < base + j ==> #[trigger] dev.data[i] == req.data[i - base],
            decreases SECTOR_SIZE - j,
        {
            let b = req.data[j];
            dev.data.set(base + j, b);
            j = j + 1;
        }
        proof {
            assert(final(dev).data@ =~= old(dev).data@.map(
                |i: int, b: u8|
                    if sector * 512 <= i < sector * 512 + 512 {
                        req.data@[i - sector * 512]
                    } else {
                        b
                    },
            ));
        }
    } else {
        let mut fresh: Vec<u8> = Vec::new();
        while fresh.len() < SECTOR_SIZE
            invariant
                fresh.len() <= SECTOR_SIZE,
                base == sector * 512,
                base + 512 <= dev.data.len(),
                forall|i: int| 0 <= i < fresh.len() ==> #[trigger] fresh[i] == dev.data[base + i],
            decreases SECTOR_SIZE - fresh.len(),
        {
            let k = fresh.len();
            let b = dev.data[base + k];
            fresh.push(b);
        }
        req.data = fresh;
        proof {
            assert(req.data@ =~= dev.data@.subrange(sector * 512, sector * 512 + 512));
        }
    }
    req.status = 0;
    vq.used.index = if vq.used.index == 0xFFFF {
        0
    } else {
        vq.used.index + 1
    };

    vq.last_used_index = if vq.last_used_index == 0xFFFF {
        0
    } else {
        vq.last_used_index + 1
    };
}

/// Initialises the block device: verifies its identity, walks the status
/// handshake, sets up request queue 0, reads the capacity, and allocates
/// the request buffer. Fails exactly when the magic value, version or
/// device id is wrong.
#[verifier::rlimit(50)]
pub fn virtio_blk_init(dev: &mut VirtioDevice, frames: &mut BumpAllocator) -> (r: Result<
    VirtioBlk,
    (),
>)
    requires
        old(dev).wf(),
        old(frames).wf(),
        old(frames).next.0 + 2 * 4096 <= old(frames).end,
    ensures
        final(dev).wf(),
        final(frames).wf(),
        final(frames).end == old(frames).end,
        final(dev).capacity_sectors == old(dev).capacity_sectors,
        final(dev).data == old(dev).data,
        r is Ok <==> (old(dev).magic == 0x74726976 && old(dev).version == 1 && old(dev).device_id
            == VIRTIO_DEVICE_BLK),
        r matches Ok(b) ==> {
            &&& b.wf()
            &&& b.capacity == old(dev).capacity_sectors * 512
            &&& b.vq.queue_index == 0
            &&& b.vq.last_used_index == 0
            &&& b.vq.avail.index == 0
            &&& b.vq.used.index == 0
            &&& b.req.data.len() == SECTOR_SIZE
            &&& final(dev).device_status == VIRTIO_STATUS_DRIVER_OK
            &&& final(dev).queue_sel == 0
            &&& final(dev).queue_num == VIRTQ_ENTRY_NUM as u32
            &&& final(dev).queue_align == 0
            &&& final(dev).queue_pfn == b.vq_paddr as u32
        },
        r is Err ==> *final(dev) == *old(dev) && *final(frames) == *old(frames),
{
    if virtio_reg_read32(dev, VIRTIO_REG_MAGIC) != 0x74726976 {
        return Err(());
    }
    if virtio_reg_read32(dev, VIRTIO_REG_VERSION) != 1 {
        return Err(());
    }
    if virtio_reg_read32(dev, VIRTIO_REG_DEVICE_ID) != VIRTIO_DEVICE_BLK {
        return Err(());
    }

    // 1. Reset the device.
    virtio_reg_write32(dev, VIRTIO_REG_DEVICE_STATUS, 0);
    // 2. Set the ACKNOWLEDGE status bit: the guest OS has noticed the device.
    virtio_reg_fetch_and_or32(dev, VIRTIO_REG_DEVICE_STATUS, VIRTIO_STATUS_ACK);
    // 3. Set the DRIVER status bit.
    virtio_reg_fetch_and_or32(dev, VIRTIO_REG_DEVICE_STATUS, VIRTIO_STATUS_DRIVER);
    // 5. Set the FEATURES_OK status bit.
    virtio_reg_fetch_and_or32(dev, VIRTIO_REG_DEVICE_STATUS, VIRTIO_STATUS_FEAT_OK);
    // 7. Device-specific setup: the request virtqueue.
    let (vq, vq_paddr) = match virtq_init(dev, frames, 0) {
        Ok(p) => p,
        Err(()) => vstd::pervasive::unreached(),
    };
    // 8. Set the DRIVER_OK status bit.
    virtio_reg_write32(dev, VIRTIO_REG_DEVICE_STATUS, VIRTIO_STATUS_DRIVER_OK);

    // Get the disk capacity.
    let capacity = virtio_reg_read64(dev, VIRTIO_REG_DEVICE_CONFIG) * SECTOR_SIZE as u64;
    proof {
        assert(old(dev).capacity_sectors * 512 <= usize::MAX <= u64::MAX);
    }

    // Allocate a region to store requests to the device.
    let rf = match frames.alloc_pages(PAGE_SIZE) {
        Ok(f) => f,
        Err(()) => vstd::pervasive::unreached(),
    };
    let mut data: Vec<u8> = Vec::new();
    while data.len() < SECTOR_SIZE
        invariant
            data.len() <= SECTOR_SIZE,
        decreases SECTOR_SIZE - data.len(),
    {
        data.push(0);
    }
    let req = VirtioBlkReq { req_type: 0, reserved: 0, sector: 0, data, status: 0 };

    Ok(VirtioBlk { vq, req, capacity, vq_paddr, req_paddr: rf.base.as_usize() })
}

/// Whether there are requests still being processed by the device.
pub fn virtq_is_busy(vq: &VirtioVirtq) -> (r: bool)
    ensures
        r == (vq.last_used_index != vq.used.index),
{
    vq.last_used_index != vq.used.index
}

/// Reads or writes one 512-byte sector. An out-of-range sector leaves the
/// caller's buffer, the device and the driver state untouched. Otherwise
/// the request buffer is filled, the three-descriptor chain (header, data,
/// status) is built, the device is kicked and polled to completion, and for
/// reads the sector's bytes replace the buffer's contents; for writes the
/// buffer's bytes replace the sector's.
#[verifier::rlimit(100)]
#[verifier::loop_isolation(false)]
pub fn read_write_disk(
    blk: &mut VirtioBlk,
    dev: &mut VirtioDevice,
    buf: &mut Vec<u8>,
    sector: u64,
    is_write: bool,
)
    requires
        old(blk).wf(),
        old(dev).wf(),
        old(buf).len() == SECTOR_SIZE,
        old(blk).capacity == old(dev).capacity_sectors * 512,
    ensures
        final(blk).wf(),
        final(dev).wf(),
        final(buf).len() == SECTOR_SIZE,
        final(blk).capacity == old(blk).capacity,
        final(blk).req_paddr == old(blk).req_paddr,
        final(blk).vq_paddr == old(blk).vq_paddr,
        final(dev).capacity_sectors == old(dev).capacity_sectors,
        sector >= old(dev).capacity_sectors ==> {
            &&& *final(buf) == *old(buf)
            &&& *final(dev) == *old(dev)
            &&& *final(blk) == *old(blk)
        },
        sector < old(dev).capacity_sectors ==> {
            &&& final(blk).vq.descs[0] == (VirtqDesc {
                addr: old(blk).req_paddr as u64,
                len: 16,
                flags: VIRTQ_DESC_F_NEXT,
                next: 1,
            })
            &&& final(blk).vq.descs[1] == (VirtqDesc {
                addr: (old(blk).req_paddr + 16) as u64,
                len: SECTOR_SIZE as u32,
                flags: if is_write {
                    VIRTQ_DESC_F_NEXT
                } else {
                    VIRTQ_DESC_F_NEXT | VIRTQ_DESC_F_WRITE
                },
                next: 2,
            })
            &&& final(blk).vq.descs[2] == (VirtqDesc {
                addr: (old(blk).req_paddr + 16 + SECTOR_SIZE) as u64,
                len: 1,
                flags: VIRTQ_DESC_F_WRITE,
                next: 0,
            })
            &&& final(blk).vq.avail.index == (old(blk).vq.avail.index + 1) % 0x10000
            &&& final(blk).vq.used.index == final(blk).vq.last_used_index
            &&& final(blk).req.status == 0
            &&& final(blk).req.sector == sector
        },
        sector < old(dev).capacity_sectors && is_write ==> {
            &&& *final(buf) == *old(buf)
            &&& final(dev).data@ == old(dev).data@.map(
                |i: int, b: u8|
                    if sector * 512 <= i < sector * 512 + 512 {
                        old(buf)@[i - sector * 512]
                    } else {
                        b
                    },
            )
        },
        sector < old(dev).capacity_sectors && !is_write ==> {
            &&& final(dev).data == old(dev).data
            &&& final(buf)@ == old(dev).data@.subrange(
                sector as int * 512,
                sector as int * 512 + 512,
            )
        },
{
    let blk_capacity = blk.capacity;
    proof {
        assert(blk_capacity / 512 == dev.capacity_sectors) by {
            vstd::arithmetic::div_mod::lemma_fundamental_div_mod_converse(
                blk_capacity as int,
                512,
                dev.capacity_sectors as int,
                0,
            );
        }
    }
    if sector >= blk_capacity / SECTOR_SIZE as u64 {
        // Out of range: report and leave all state as it is.
        return ;
    }

    blk.req.sector = sector;
    blk.req.req_type = if is_write {
        VIRTIO_BLK_T_OUT
    } else {
        VIRTIO_BLK_T_IN
    };

    if is_write {
        let mut fresh: Vec<u8> = Vec::new();
        while fresh.len() < SECTOR_SIZE
            invariant
                fresh.len() <= SECTOR_SIZE,
                forall|i: int| 0 <= i < fresh.len() ==> #[trigger] fresh[i] == buf[i],
            decreases SECTOR_SIZE - fresh.len(),
        {
            let k = fresh.len();
            let b = buf[k];
            fresh.push(b);
        }
        blk.req.data = fresh;
        proof {
            assert(blk.req.data@ =~= buf@);
        }
    }

    // Construct the virtqueue descriptors (using 3 descriptors).
    let blk_req_paddr = blk.req_paddr;

    // Descriptor 0: request header (type, reserved, sector: 16 bytes).
    blk.vq.descs.set(
        0,
        VirtqDesc { addr: blk_req_paddr as u64, len: 16, flags: VIRTQ_DESC_F_NEXT, next: 1 },
    );

    // Descriptor 1: data buffer; for reads the device writes it.
    blk.vq.descs.set(
        1,
        VirtqDesc {
            addr: (blk_req_paddr + 16) as u64,
            len: SECTOR_SIZE as u32,
            flags: if is_write {
                VIRTQ_DESC_F_NEXT
            } else {
                VIRTQ_DESC_F_NEXT | VIRTQ_DESC_F_WRITE
            },
            next: 2,
        },
    );

    // Descriptor 2: status byte, written by the device.
    blk.vq.descs.set(
        2,
        VirtqDesc {
            addr: (blk_req_paddr + 16 + SECTOR_SIZE) as u64,
            len: 1,
            flags: VIRTQ_DESC_F_WRITE,
            next: 0,
        },
    );

    // Notify the device that there is a new request.
    virtq_kick(dev, &mut blk.vq, &mut blk.req, 0);

    // Wait until the device finishes processing.
    while virtq_is_busy(&blk.vq)
        invariant
            blk.vq.last_used_index == blk.vq.used.index,
        decreases 0int,
    {
        proof {
            assert(false);
        }
    }

    // virtio-blk: a non-zero status byte would mean an error.
    if blk.req.status != 0 {
        return ;
    }

    // For read operations, copy the data into the buffer.
    if !is_write {
        let mut fresh: Vec<u8> = Vec::new();
        while fresh.len() < SECTOR_SIZE
            invariant
                fresh.len() <= SECTOR_SIZE,
                forall|i: int|
                    0 <= i < fresh.len() ==> #[trigger] fresh[i] == blk.req.data[i],
            decreases SECTOR_SIZE - fresh.len(),
        {
            let k = fresh.len();
            let b = blk.req.data[k];
            fresh.push(b);
        }
        *buf = fresh;
        proof {
            assert(buf@ =~= blk.req.data@);
            assert(buf@ =~= old(dev).data@.subrange(sector as int * 512, sector as int * 512 + 512));
        }
    }
}

/// ORs `value` into a 32-bit device register.
pub fn virtio_reg_fetch_and_or32(dev: &mut VirtioDevice, offset: u32, value: u32)
    requires
        offset == VIRTIO_REG_DEVICE_STATUS,
    ensures
        *final(dev) == (VirtioDevice { device_status: old(dev).device_status | value, ..*old(dev) }),
{
    let v = virtio_reg_read32(dev, offset);
    virtio_reg_write32(dev, offset, v | value);
}

} // verus!
