//! The computations of the VirtIO legacy transport: PCI discovery, the
//! virtqueue memory layout, block request chains, available-ring slots,
//! and the network header framing.  Port I/O and the device itself stay
//! outside.
use vstd::prelude::*;

verus! {

pub const VIRTIO_VENDOR: u16 = 0x1AF4;

/// Transitional device id of a block device.
pub const VIRTIO_BLK_DEVICE: u16 = 0x1001;

/// Transitional device id of a network device.
pub const VIRTIO_NET_DEVICE: u16 = 0x1000;

/// Legacy register offsets from the I/O base.
pub const VIRTIO_DEVICE_FEATURES: u16 = 0;
pub const VIRTIO_GUEST_FEATURES: u16 = 4;
pub const VIRTIO_QUEUE_PFN: u16 = 8;
pub const VIRTIO_QUEUE_SIZE: u16 = 12;
pub const VIRTIO_QUEUE_SEL: u16 = 14;
pub const VIRTIO_QUEUE_NOTIFY: u16 = 16;
pub const VIRTIO_DEVICE_STATUS: u16 = 18;
pub const VIRTIO_ISR_STATUS: u16 = 19;

/// Device status bits.
pub const STATUS_ACK: u8 = 1;
pub const STATUS_DRIVER: u8 = 2;
pub const STATUS_DRIVER_OK: u8 = 4;
pub const STATUS_FAILED: u8 = 0x80;

/// Descriptor flags.
pub const VRING_DESC_F_NEXT: u16 = 1;
pub const VRING_DESC_F_WRITE: u16 = 2;

/// Block request types.
pub const VIRTIO_BLK_T_IN: u32 = 0;
pub const VIRTIO_BLK_T_OUT: u32 = 1;

/// Largest block queue the reserved memory takes.
pub const BLK_MAX_QUEUE_SIZE: u16 = 256;

/// Bytes reserved for one virtqueue.
pub const VQ_REGION_SIZE: usize = 16384;

/// Length of the legacy `virtio_net_hdr` without merged buffers.
pub const VIRTIO_NET_HDR_SIZE: usize = 10;

/// Size of a network DMA buffer.
pub const NET_BUF_SIZE: usize = 4096;

/// Largest block request, in bytes.
pub const BLK_MAX_LEN: u64 = 4096;

/// Sector size.
pub const SECTOR_SIZE: u64 = 512;

/// The CONFIG_ADDRESS word selecting a PCI configuration register.
pub open spec fn config_address(bus: u8, dev: u8, func: u8, offset: u8) -> u32 {
    0x8000_0000u32 | ((bus as u32) << 16u32) | ((dev as u32) << 11u32) | ((func as u32) << 8u32) | ((
    offset as u32) & 0xFC)
}

/// The CONFIG_ADDRESS word for register `offset` of `bus:dev.func`.
pub fn pci_config_address(bus: u8, dev: u8, func: u8, offset: u8) -> (r: u32)
    ensures
        r == config_address(bus, dev, func, offset),
{
    0x8000_0000u32 | ((bus as u32) << 16u32) | ((dev as u32) << 11u32) | ((func as u32) << 8u32) | ((
    offset as u32) & 0xFC)
}

/// The register-0 word of a VirtIO device with the given device id.
pub open spec fn is_virtio(id: u32, device: u16) -> bool {
    (id & 0xFFFF) == VIRTIO_VENDOR as u32 && ((id >> 16u32) & 0xFFFF) == device as u32
}

/// Index of the first slot of `ids` (the vendor/device words of devices 0,
/// 1, ... on bus 0) that is a VirtIO device with id `device`.
pub fn pci_find_virtio(ids: &[u32], device: u16) -> (r: Option<usize>)
    ensures
        match r {
            Some(i) => i < ids@.len() && is_virtio(ids@[i as int], device) && forall|j: int|
                0 <= j < i ==> !is_virtio(#[trigger] ids@[j], device),
            None => forall|j: int| 0 <= j < ids@.len() ==> !is_virtio(#[trigger] ids@[j], device),
        },
{
    let mut i: usize = 0;
    while i < ids.len()
        invariant
            i <= ids@.len(),
            forall|j: int| 0 <= j < i ==> !is_virtio(#[trigger] ids@[j], device),
        decreases ids.len() - i,
    {
        let id = ids[i];
        if (id & 0xFFFF) == VIRTIO_VENDOR as u32 && ((id >> 16u32) & 0xFFFF) == device as u32 {
            return Some(i);
        }
        i = i + 1;
    }
    None
}

/// The I/O port base held in an I/O-space BAR.
pub fn bar_io_base(bar: u32) -> (r: u16)
    ensures
        r == (bar & !3u32) as u16,
{
    (bar & !3u32) as u16
}

/// The command register with I/O space and bus mastering enabled.
pub fn pci_enable_io_and_master(cmd: u32) -> (r: u32)
    ensures
        r == cmd | 0x05,
{
    cmd | 0x05
}

/// Where the rings of a legacy virtqueue of a given size lie, in bytes
/// from the start of its memory.
#[derive(Clone, Copy, PartialEq, Eq, Structural, Debug)]
pub struct QueueLayout {
    pub avail_off: usize,
    pub used_off: usize,
    pub used_end: usize,
}

/// `x` rounded up to a multiple of 4096.
pub open spec fn page_round_up(x: int) -> int {
    (x + 4095) / 4096 * 4096
}

/// The legacy layout of a queue of `qsz` entries: descriptors at 0, the
/// available ring right after, the used ring at the next page boundary.
pub open spec fn layout_of(qsz: u16) -> QueueLayout {
    let q = qsz as int;
    QueueLayout {
        avail_off: (16 * q) as usize,
        used_off: page_round_up(16 * q + 6 + 2 * q) as usize,
        used_end: (page_round_up(16 * q + 6 + 2 * q) + 6 + 8 * q) as usize,
    }
}

/// Computes the ring layout of a queue of `qsz` entries.
pub fn queue_layout(qsz: u16) -> (r: QueueLayout)
    ensures
        r == layout_of(qsz),
{
    let q = qsz as usize;
    let avail_off = q * 16;
    let avail_end = avail_off + 6 + 2 * q;
    let used_off = (avail_end + 4095) / 4096 * 4096;
    QueueLayout { avail_off, used_off, used_end: used_off + 6 + 8 * q }
}

/// The layout of the block queue when its size is usable: not zero, not
/// above `BLK_MAX_QUEUE_SIZE`, and fitting the reserved region.
pub fn blk_queue_layout(qsz: u16) -> (r: Option<QueueLayout>)
    ensures
        r is Some <==> qsz != 0 && qsz <= BLK_MAX_QUEUE_SIZE && layout_of(qsz).used_end
            <= VQ_REGION_SIZE,
        r is Some ==> r.unwrap() == layout_of(qsz),
{
    if qsz == 0 || qsz > BLK_MAX_QUEUE_SIZE {
        return None;
    }
    let l = queue_layout(qsz);
    if l.used_end > VQ_REGION_SIZE {
        return None;
    }
    Some(l)
}

/// The layout of a network queue when its size is usable: not zero, and
/// fitting the reserved region.
pub fn net_queue_layout(qsz: u16) -> (r: Option<QueueLayout>)
    ensures
        r is Some <==> qsz != 0 && layout_of(qsz).used_end <= VQ_REGION_SIZE,
        r is Some ==> r.unwrap() == layout_of(qsz),
{
    if qsz == 0 {
        return None;
    }
    let l = queue_layout(qsz);
    if l.used_end > VQ_REGION_SIZE {
        return None;
    }
    Some(l)
}

/// A virtqueue descriptor.
#[derive(Clone, Copy, PartialEq, Eq, Structural, Debug)]
pub struct VringDesc {
    pub addr: u64,
    pub len: u32,
    pub flags: u16,
    pub next: u16,
}

/// A block request has a usable length: a positive multiple of the sector
/// size, at most `BLK_MAX_LEN`.
pub open spec fn blk_len_valid(len: u64) -> bool {
    len != 0 && len <= BLK_MAX_LEN && len % SECTOR_SIZE == 0
}

/// Checks a block request length.
pub fn blk_len_ok(len: u64) -> (r: bool)
    ensures
        r == blk_len_valid(len),
{
    !(len == 0 || len > BLK_MAX_LEN || len % SECTOR_SIZE != 0)
}

/// The three-descriptor chain of a block request: the 16-byte header the
/// device reads, the data buffer (written by the device on a read), and the
/// status byte the device writes.
pub fn blk_request_chain(write: bool, len: u32, hdr_phys: u64, data_phys: u64, status_phys: u64) -> (r: [VringDesc; 3])
    ensures
        r@[0] == (VringDesc { addr: hdr_phys, len: 16, flags: VRING_DESC_F_NEXT, next: 1 }),
        r@[1] == (VringDesc {
            addr: data_phys,
            len: len,
            flags: if write { VRING_DESC_F_NEXT } else { VRING_DESC_F_NEXT | VRING_DESC_F_WRITE },
            next: 2,
        }),
        r@[2] == (VringDesc { addr: status_phys, len: 1, flags: VRING_DESC_F_WRITE, next: 0 }),
{
    let data_flags = if write { VRING_DESC_F_NEXT } else { VRING_DESC_F_NEXT | VRING_DESC_F_WRITE };
    [
        VringDesc { addr: hdr_phys, len: 16, flags: VRING_DESC_F_NEXT, next: 1 },
        VringDesc { addr: data_phys, len, flags: data_flags, next: 2 },
        VringDesc { addr: status_phys, len: 1, flags: VRING_DESC_F_WRITE, next: 0 },
    ]
}

/// Byte `j` of `x` in little-endian order.
pub open spec fn le_byte(x: u64, j: int) -> u8 {
    (x >> ((8 * j) as u64)) as u8
}

/// The 16-byte block request header: type, a reserved word, and the
/// starting sector, little-endian.
pub open spec fn blk_header(write: bool, sector: u64) -> Seq<u8> {
    let t: u64 = if write { VIRTIO_BLK_T_OUT as u64 } else { VIRTIO_BLK_T_IN as u64 };
    Seq::new(
        16,
        |i: int|
            if i < 4 {
                le_byte(t, i)
            } else if i < 8 {
                0u8
            } else {
                le_byte(sector, i - 8)
            },
    )
}

/// Encodes the block request header.
pub fn blk_request_header(write: bool, sector: u64) -> (r: [u8; 16])
    ensures
        r@ == blk_header(write, sector),
{
    let t: u64 = if write { VIRTIO_BLK_T_OUT as u64 } else { VIRTIO_BLK_T_IN as u64 };
    let mut h = [0u8; 16];
    let mut i: usize = 0;
    while i < 8
        invariant
            i <= 8,
            forall|j: int| 0 <= j < i ==> h@[8 + j] == le_byte(sector, j),
            forall|j: int| 0 <= j < 4 && j < i ==> h@[j] == le_byte(t, j),
            forall|j: int| 4 <= j < 8 ==> h@[j] == 0,
        decreases 8 - i,
    {
        h[8 + i] = (sector >> ((8 * i) as u64)) as u8;
        if i < 4 {
            h[i] = (t >> ((8 * i) as u64)) as u8;
        }
        i = i + 1;
    }
    assert(h@ =~= blk_header(write, sector));
    h
}

/// The word index, in the available ring, of the slot that entry
/// `avail_idx` fills: past the flags and index words, modulo the queue size.
pub fn avail_slot(avail_idx: u16, qsz: u16) -> (r: usize)
    requires
        qsz != 0,
    ensures
        r == 2 + (avail_idx as int) % (qsz as int),
{
    2 + (avail_idx as usize) % (qsz as usize)
}

/// A physical address from a kernel virtual one, given the precomputed
/// difference of the physical and virtual bases (modulo 2^64).
pub fn blk_kv2p(va: u64, delta: u64) -> (r: u64)
    ensures
        r == vstd::wrapping::u64_specs::wrapping_add(va, delta),
{
    va.wrapping_add(delta)
}

/// The used-ring entry that the received buffer `used_idx - 1` sits in.
pub fn used_entry(used_idx: u16, qsz: u16) -> (r: usize)
    requires
        qsz != 0,
    ensures
        r == (vstd::wrapping::u16_specs::wrapping_sub(used_idx, 1) as int) % (qsz as int),
{
    (used_idx.wrapping_sub(1) as usize) % (qsz as usize)
}

/// Frame bytes in a received buffer of `total_len` bytes, once the network
/// header is stripped, cut to `cap`; 0 when nothing follows the header.
pub fn net_rx_copy_len(total_len: u32, cap: usize) -> (r: usize)
    ensures
        r == if total_len <= VIRTIO_NET_HDR_SIZE {
            0
        } else if total_len - VIRTIO_NET_HDR_SIZE > cap {
            cap as int
        } else {
            total_len - VIRTIO_NET_HDR_SIZE
        },
{
    let total = total_len as usize;
    if total <= VIRTIO_NET_HDR_SIZE {
        return 0;
    }
    let frame_len = total - VIRTIO_NET_HDR_SIZE;
    if frame_len > cap {
        cap
    } else {
        frame_len
    }
}

/// The transmit buffer for `frame`: a zeroed network header followed by the
/// frame; `None` when it does not fit a buffer.
pub fn net_tx_buffer(frame: &[u8]) -> (r: Option<std::vec::Vec<u8>>)
    ensures
        r is Some <==> VIRTIO_NET_HDR_SIZE + frame@.len() <= NET_BUF_SIZE,
        r is Some ==> r.unwrap()@ == Seq::new(VIRTIO_NET_HDR_SIZE as nat, |i: int| 0u8) + frame@,
{
    if frame.len() > NET_BUF_SIZE - VIRTIO_NET_HDR_SIZE {
        return None;
    }
    let mut out: std::vec::Vec<u8> = std::vec::Vec::new();
    let mut i: usize = 0;
    while i < VIRTIO_NET_HDR_SIZE
        invariant
            i <= VIRTIO_NET_HDR_SIZE,
            out@ == Seq::new(i as nat, |k: int| 0u8),
        decreases VIRTIO_NET_HDR_SIZE - i,
    {
        out.push(0);
        i = i + 1;
        assert(out@ =~= Seq::new(i as nat, |k: int| 0u8));
    }
    let mut j: usize = 0;
    while j < frame.len()
        invariant
            j <= frame@.len(),
            out@ == Seq::new(VIRTIO_NET_HDR_SIZE as nat, |k: int| 0u8) + frame@.take(j as int),
        decreases frame.len() - j,
    {
        out.push(frame[j]);
        j = j + 1;
        assert(out@ =~= Seq::new(VIRTIO_NET_HDR_SIZE as nat, |k: int| 0u8) + frame@.take(j as int));
    }
    assert(frame@.take(frame@.len() as int) =~= frame@);
    Some(out)
}

/// One step of waiting for the device to return a buffer.
#[derive(Clone, Copy, PartialEq, Eq, Structural, Debug)]
pub enum PollStep {
    /// The used index moved: the request completed.
    Done,
    /// Spin once more.
    Wait,
    /// The spin budget ran out: the request failed.
    TimedOut,
}

/// Decides a polling step from the device's used index, the driver's last
/// seen index and the spins left before this one.
pub fn poll_step(used_idx: u16, last_used: u16, spins_left: u32) -> (r: PollStep)
    ensures
        r == if used_idx != last_used {
            PollStep::Done
        } else if spins_left <= 1 {
            PollStep::TimedOut
        } else {
            PollStep::Wait
        },
{
    if used_idx != last_used {
        PollStep::Done
    } else if spins_left <= 1 {
        PollStep::TimedOut
    } else {
        PollStep::Wait
    }
}

} // verus!
