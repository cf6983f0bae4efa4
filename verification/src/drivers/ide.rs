//! IDE disk: a drive on the primary channel and the sectors it holds.
//! The contents are kept as an image of whole 512-byte sectors; moving
//! them between the image and the drive's ports is done outside.
use vstd::prelude::*;

verus! {

pub const SECTOR_SIZE: usize = 512;

/// Command block base port of the primary channel.
pub const PRIMARY_BASE: u16 = 0x1F0;

/// The 512 bytes of sector `lba` of `image`.
pub open spec fn sector_bytes(image: Seq<u8>, lba: int) -> Seq<u8> {
    image.subrange(lba * 512, lba * 512 + 512)
}

/// `image` with sector `lba` replaced by `data`.
pub open spec fn with_sector(image: Seq<u8>, lba: int, data: Seq<u8>) -> Seq<u8> {
    image.subrange(0, lba * 512) + data + image.subrange(lba * 512 + 512, image.len() as int)
}

/// Index of the first sector a multi-sector transfer of `count` sectors
/// from `start` cannot move, given a buffer of `buf_len` bytes and a disk
/// of `total` sectors; `count` when all can be moved.
pub open spec fn run_stop(buf_len: int, start: int, count: int, total: int) -> int {
    let by_buf = buf_len / 512;
    let by_disk = if start < total { total - start } else { 0 };
    let m = if by_buf < by_disk { by_buf } else { by_disk };
    if count < m { count } else { m }
}

/// An IDE drive handle with the disk's contents.
pub struct IdeDisk {
    base: u16,
    slave: bool,
    total_sectors: u32,
    image: Vec<u8>,
}

impl IdeDisk {
    /// The disk contents, sector after sector.
    pub closed spec fn contents(&self) -> Seq<u8> {
        self.image@
    }

    /// Base I/O port of the channel.
    pub closed spec fn base_view(&self) -> u16 {
        self.base
    }

    /// Whether this is the slave drive of the channel.
    pub closed spec fn slave_view(&self) -> bool {
        self.slave
    }

    /// Number of sectors.
    pub closed spec fn total_view(&self) -> u32 {
        self.total_sectors
    }

    pub open spec fn wf(&self) -> bool {
        self.contents().len() == self.total_view() * 512
    }

    /// Sector `lba` as the disk holds it.
    pub open spec fn sector(&self, lba: int) -> Seq<u8> {
        sector_bytes(self.contents(), lba)
    }

    /// The primary master drive, before its contents are known.
    pub fn primary_master() -> (d: Self)
        ensures
            d.wf(),
            d.base_view() == PRIMARY_BASE && !d.slave_view() && d.total_view() == 0,
    {
        IdeDisk { base: PRIMARY_BASE, slave: false, total_sectors: 0, image: Vec::new() }
    }

    /// The primary slave drive, before its contents are known.
    pub fn primary_slave() -> (d: Self)
        ensures
            d.wf(),
            d.base_view() == PRIMARY_BASE && d.slave_view() && d.total_view() == 0,
    {
        IdeDisk { base: PRIMARY_BASE, slave: true, total_sectors: 0, image: Vec::new() }
    }

    /// Take `image` as the disk's contents: whole sectors only, and no more
    /// than an LBA28 drive can address.
    pub fn set_contents(&mut self, image: Vec<u8>) -> (r: Result<(), &'static str>)
        requires
            old(self).wf(),
        ensures
            final(self).wf(),
            final(self).base_view() == old(self).base_view() && final(self).slave_view() == old(self).slave_view(),
            (image@.len() % 512 == 0 && image@.len() / 512 <= u32::MAX) ==> r is Ok && final(self).contents() == image@
                && final(self).total_view() == image@.len() / 512,
            !(image@.len() % 512 == 0 && image@.len() / 512 <= u32::MAX) ==> r == Err::<(), &'static str>("disk image is not whole sectors")
                && final(self).contents() == old(self).contents() && final(self).total_view() == old(self).total_view(),
    {
        let len = image.len();
        if len % SECTOR_SIZE != 0 || len / SECTOR_SIZE > 0xFFFF_FFFFusize {
            return Err("disk image is not whole sectors");
        }
        self.total_sectors = (len / SECTOR_SIZE) as u32;
        self.image = image;
        Ok(())
    }

    /// Read sector `lba` into `buf`.
    pub fn read_sector(&self, lba: u32, buf: &mut [u8; 512]) -> (r: Result<(), &'static str>)
        requires
            self.wf(),
        ensures
            lba < self.total_view() ==> r is Ok && final(buf)@ == self.sector(lba as int),
            lba >= self.total_view() ==> r == Err::<(), &'static str>("LBA out of range") && final(buf)@ == old(buf)@,
    {
        if lba >= self.total_sectors {
            return Err("LBA out of range");
        }
        let len = self.image.len();
        proof {
            assert(lba * 512 + 512 <= self.contents().len()) by (nonlinear_arith)
                requires
                    lba < self.total_view(),
                    self.contents().len() == self.total_view() * 512,
            ;
        }
        let base = (lba as usize) * SECTOR_SIZE;
        let mut i: usize = 0;
        while i < SECTOR_SIZE
            invariant
                self.wf(),
                base + 512 <= self.contents().len(),
                base == lba * 512,
                0 <= i <= 512,
                buf@.len() == 512,
                forall|k: int| 0 <= k < i ==> buf@[k] == self.contents()[base + k],
            decreases 512 - i,
        {
            buf[i] = self.image[base + i];
            i = i + 1;
        }
        assert(buf@ =~= self.sector(lba as int));
        Ok(())
    }

    /// Write `buf` to sector `lba`.
    pub fn write_sector(&mut self, lba: u32, buf: &[u8; 512]) -> (r: Result<(), &'static str>)
        requires
            old(self).wf(),
        ensures
            final(self).wf(),
            final(self).base_view() == old(self).base_view() && final(self).slave_view() == old(self).slave_view(),
            final(self).total_view() == old(self).total_view(),
            lba < old(self).total_view() ==> r is Ok && final(self).contents() == with_sector(old(self).contents(), lba as int, buf@),
            lba >= old(self).total_view() ==> r == Err::<(), &'static str>("LBA out of range") && final(self).contents() == old(self).contents(),
    {
        if lba >= self.total_sectors {
            return Err("LBA out of range");
        }
        let len = self.image.len();
        proof {
            assert(lba * 512 + 512 <= self.contents().len()) by (nonlinear_arith)
                requires
                    lba < self.total_view(),
                    self.contents().len() == self.total_view() * 512,
            ;
        }
        let base = (lba as usize) * SECTOR_SIZE;
        let mut i: usize = 0;
        while i < SECTOR_SIZE
            invariant
                base + 512 <= old(self).contents().len(),
                base == lba * 512,
                0 <= i <= 512,
                self.total_view() == old(self).total_view(),
                self.base == old(self).base_view() && self.slave == old(self).slave_view(),
                self.contents().len() == old(self).contents().len(),
                forall|k: int| 0 <= k < base ==> self.contents()[k] == old(self).contents()[k],
                forall|k: int| 0 <= k < i ==> self.contents()[base + k] == buf@[k],
                forall|k: int| base + i <= k < self.contents().len() ==> self.contents()[k] == old(self).contents()[k],
            decreases 512 - i,
        {
            self.image.set(base + i, buf[i]);
            i = i + 1;
        }
        assert(self.contents() =~= with_sector(old(self).contents(), lba as int, buf@));
        Ok(())
    }

    /// Read `count` sectors from `start_lba` into `buf`, one after another;
    /// stops with an error at the first sector that does not fit in `buf`
    /// ("buffer too small") or is past the disk ("LBA out of range"), the
    /// sectors before it already copied.
    pub fn read_sectors(&self, start_lba: u32, count: u32, buf: &mut [u8]) -> (r: Result<(), &'static str>)
        requires
            self.wf(),
            count == 0 || start_lba + count - 1 <= u32::MAX,
            count * 512 + 512 <= usize::MAX,
        ensures
            final(buf)@.len() == old(buf)@.len(),
            ({
                let stop = run_stop(old(buf)@.len() as int, start_lba as int, count as int, self.total_view() as int);
                &&& forall|j: int| 0 <= j < stop * 512 ==> #[trigger] final(buf)@[j] == self.contents()[start_lba * 512 + j]
                &&& forall|j: int| stop * 512 <= j < old(buf)@.len() ==> #[trigger] final(buf)@[j] == old(buf)@[j]
                &&& stop == count ==> r is Ok
                &&& stop < count && stop == old(buf)@.len() / 512 ==> r == Err::<(), &'static str>("buffer too small")
                &&& stop < count && stop != old(buf)@.len() / 512 ==> r == Err::<(), &'static str>("LBA out of range")
            }),
    {
        let ghost b0 = buf@;
        let ghost total = self.total_view() as int;
        let ghost stop = run_stop(b0.len() as int, start_lba as int, count as int, total);
        let mut i: u32 = 0;
        while i < count
            invariant
                self.wf(),
                total == self.total_view(),
                stop == run_stop(b0.len() as int, start_lba as int, count as int, total),
                count == 0 || start_lba + count - 1 <= u32::MAX,
                count * 512 + 512 <= usize::MAX,
                0 <= i <= count,
                i <= stop,
                buf@.len() == b0.len(),
                b0 == old(buf)@,
                forall|j: int| 0 <= j < i * 512 ==> #[trigger] buf@[j] == self.contents()[start_lba * 512 + j],
                forall|j: int| i * 512 <= j < b0.len() ==> #[trigger] buf@[j] == b0[j],
            decreases count - i,
        {
            let offset = (i as usize) * SECTOR_SIZE;
            if offset + SECTOR_SIZE > buf.len() {
                proof {
                    assert(stop == i) by (nonlinear_arith)
                        requires
                            offset == i * 512,
                            offset + 512 > b0.len(),
                            i <= stop,
                            stop <= b0.len() / 512,
                    ;
                }
                return Err("buffer too small");
            }
            let mut sector = [0u8; 512];
            match self.read_sector(start_lba + i, &mut sector) {
                Err(e) => {
                    proof {
                        assert(stop == i);
                        assert(i != b0.len() / 512) by (nonlinear_arith)
                            requires
                                offset == i * 512,
                                offset + 512 <= b0.len(),
                        ;
                    }
                    return Err(e);
                },
                Ok(()) => {},
            }
            let ghost before = buf@;
            let mut k: usize = 0;
            while k < SECTOR_SIZE
                invariant
                    offset == i * 512,
                    offset + 512 <= buf@.len(),
                    buf@.len() == before.len(),
                    0 <= k <= 512,
                    forall|j: int| 0 <= j < offset ==> buf@[j] == before[j],
                    forall|j: int| 0 <= j < k ==> buf@[offset + j] == sector@[j],
                    forall|j: int| offset + k <= j < buf@.len() ==> buf@[j] == before[j],
                decreases 512 - k,
            {
                buf[offset + k] = sector[k];
                k = k + 1;
            }
            proof {
                assert(i + 1 <= stop) by (nonlinear_arith)
                    requires
                        offset == i * 512,
                        offset + 512 <= b0.len(),
                        start_lba + i < total,
                        i < count,
                        stop == run_stop(b0.len() as int, start_lba as int, count as int, total),
                ;
                let lo = start_lba * 512;
                assert forall|j: int| 0 <= j < (i + 1) * 512 implies #[trigger] buf@[j] == self.contents()[lo + j] by {
                    if j < offset {
                        assert(buf@[j] == before[j]);
                    } else {
                        assert(buf@[j] == sector@[j - offset]);
                        assert(lo + j == (start_lba + i) * 512 + (j - offset)) by (nonlinear_arith)
                            requires
                                lo == start_lba * 512,
                                offset == i * 512,
                        ;
                    }
                }
                assert forall|j: int| (i + 1) * 512 <= j < b0.len() implies #[trigger] buf@[j] == b0[j] by {
                    assert(buf@[j] == before[j]);
                }
            }
            i = i + 1;
        }
        Ok(())
    }

    /// Write `count` sectors from `buf` starting at `start_lba`, one after
    /// another; stops with "LBA out of range" at the first sector past the
    /// disk, the sectors before it already written.
    pub fn write_sectors(&mut self, start_lba: u32, count: u32, buf: &[u8]) -> (r: Result<(), &'static str>)
        requires
            old(self).wf(),
            count == 0 || start_lba + count - 1 <= u32::MAX,
            count * 512 <= buf@.len(),
        ensures
            final(self).wf(),
            final(self).total_view() == old(self).total_view(),
            final(self).base_view() == old(self).base_view() && final(self).slave_view() == old(self).slave_view(),
            ({
                let stop = run_stop(buf@.len() as int, start_lba as int, count as int, old(self).total_view() as int);
                &&& final(self).contents().len() == old(self).contents().len()
                &&& forall|j: int| 0 <= j < stop * 512 ==> #[trigger] final(self).contents()[start_lba * 512 + j] == buf@[j]
                &&& forall|j: int| 0 <= j < old(self).contents().len() && !(start_lba * 512 <= j < (start_lba + stop) * 512)
                    ==> #[trigger] final(self).contents()[j] == old(self).contents()[j]
                &&& stop == count ==> r is Ok
                &&& stop < count ==> r == Err::<(), &'static str>("LBA out of range")
            }),
    {
        let ghost total = self.total_view() as int;
        let ghost img0 = self.contents();
        let ghost stop = run_stop(buf@.len() as int, start_lba as int, count as int, total);
        let mut i: u32 = 0;
        while i < count
            invariant
                self.wf(),
                img0 == old(self).contents(),
                total == self.total_view(),
                total == old(self).total_view(),
                self.base == old(self).base && self.slave == old(self).slave,
                stop == run_stop(buf@.len() as int, start_lba as int, count as int, total),
                count == 0 || start_lba + count - 1 <= u32::MAX,
                count * 512 <= buf@.len(),
                0 <= i <= count,
                i <= stop,
                self.contents().len() == img0.len(),
                forall|j: int| 0 <= j < i * 512 ==> #[trigger] self.contents()[start_lba * 512 + j] == buf@[j],
                forall|j: int| 0 <= j < img0.len() && !(start_lba * 512 <= j < (start_lba + i) * 512) ==> #[trigger] self.contents()[j] == img0[j],
            decreases count - i,
        {
            let blen = buf.len();
            proof {
                assert(i * 512 + 512 <= buf@.len()) by (nonlinear_arith)
                    requires
                        i < count,
                        count * 512 <= buf@.len(),
                ;
            }
            let offset = (i as usize) * SECTOR_SIZE;
            let mut sector = [0u8; 512];
            let mut k: usize = 0;
            while k < SECTOR_SIZE
                invariant
                    offset == i * 512,
                    offset + 512 <= buf@.len(),
                    sector@.len() == 512,
                    0 <= k <= 512,
                    forall|j: int| 0 <= j < k ==> sector@[j] == buf@[offset + j],
                decreases 512 - k,
            {
                sector[k] = buf[offset + k];
                k = k + 1;
            }
            let ghost d0 = self.contents();
            match self.write_sector(start_lba + i, &sector) {
                Err(e) => {
                    proof {
                        assert(stop == i) by (nonlinear_arith)
                            requires
                                start_lba + i >= total,
                                i <= stop,
                                stop == run_stop(buf@.len() as int, start_lba as int, count as int, total),
                        ;
                    }
                    return Err(e);
                },
                Ok(()) => {},
            }
            proof {
                assert(i + 1 <= stop) by (nonlinear_arith)
                    requires
                        offset == i * 512,
                        offset + 512 <= buf@.len(),
                        start_lba + i < total,
                        i < count,
                        stop == run_stop(buf@.len() as int, start_lba as int, count as int, total),
                ;
                let lba = (start_lba + i) as int;
                let lo = start_lba * 512;
                assert(lba * 512 + 512 <= d0.len()) by (nonlinear_arith)
                    requires
                        lba < total,
                        d0.len() == total * 512,
                ;
                assert(lba * 512 == lo + offset) by (nonlinear_arith)
                    requires
                        lo == start_lba * 512,
                        offset == i * 512,
                        lba == start_lba + i,
                ;
                assert forall|j: int| 0 <= j < (i + 1) * 512 implies #[trigger] self.contents()[lo + j] == buf@[j] by {
                    if j < offset {
                        assert(self.contents()[lo + j] == d0[lo + j]);
                    } else {
                        assert(self.contents()[lo + j] == sector@[j - offset]);
                    }
                }
                assert forall|j: int| 0 <= j < img0.len() && !(lo <= j < (start_lba + i + 1) * 512) implies #[trigger] self.contents()[j] == img0[j] by {
                    assert((start_lba + i + 1) * 512 == lo + offset + 512) by (nonlinear_arith)
                        requires
                            lo == start_lba * 512,
                            offset == i * 512,
                    ;
                    assert(self.contents()[j] == d0[j]);
                }
            }
            i = i + 1;
        }
        Ok(())
    }

    /// Number of sectors on the disk.
    pub fn total_sectors(&self) -> (r: u32)
        ensures
            r == self.total_view(),
    {
        self.total_sectors
    }

    /// Whether a disk is attached (it has sectors).
    pub fn is_present(&self) -> (r: bool)
        ensures
            r == (self.total_view() > 0),
    {
        self.total_sectors > 0
    }

    /// Base I/O port of the channel.
    pub fn base(&self) -> (r: u16)
        ensures
            r == self.base_view(),
    {
        self.base
    }

    /// Whether this is the slave drive.
    pub fn slave(&self) -> (r: bool)
        ensures
            r == self.slave_view(),
    {
        self.slave
    }
}

/// Port offsets from the channel base.
pub const LBA_LOW: u16 = 3;
pub const LBA_MID: u16 = 4;
pub const LBA_HIGH: u16 = 5;
pub const DRIVE_HEAD: u16 = 6;
pub const STATUS: u16 = 7;

/// Status register bits.
pub const SR_BSY: u8 = 0x80;
pub const SR_DRDY: u8 = 0x40;
pub const SR_DRQ: u8 = 0x08;
pub const SR_ERR: u8 = 0x01;

/// Polls of the status register before giving up.
pub const POLL_LIMIT: u32 = 100_000;

/// The port writes that select the drive and LBA `lba` on the channel at
/// `base`: the drive/head register (LBA mode, the drive, LBA bits 24-27)
/// and the three low LBA bytes, in that order.
pub fn select_drive_lba(base: u16, lba: u32, slave: bool) -> (r: [(u16, u8); 4])
    requires
        base + DRIVE_HEAD <= u16::MAX,
    ensures
        r@ == seq![
            ((base + DRIVE_HEAD) as u16, (0xE0 + (lba / 0x100_0000) % 16 + (if slave { 0x10int } else { 0 })) as u8),
            ((base + LBA_LOW) as u16, (lba % 256) as u8),
            ((base + LBA_MID) as u16, ((lba / 256) % 256) as u8),
            ((base + LBA_HIGH) as u16, ((lba / 65536) % 256) as u8),
        ],
{
    let head: u8 = 0xE0 | ((lba >> 24) & 0x0F) as u8 | if slave { 0x10u8 } else { 0x00u8 };
    proof {
        assert(((lba >> 24) & 0x0F) == (lba / 0x100_0000) % 16 && lba & 0xFF == lba % 256 && (lba >> 8) & 0xFF == (lba / 256) % 256
            && (lba >> 16) & 0xFF == (lba / 65536) % 256) by (bit_vector);
        let x = ((lba >> 24) & 0x0F) as u8;
        assert(x < 16);
        assert(0xE0u8 | x | 0x10u8 == 0xE0u8 + x + 0x10u8 && 0xE0u8 | x | 0x00u8 == 0xE0u8 + x) by (bit_vector)
            requires
                x < 16,
        ;
    }
    [
        (base + DRIVE_HEAD, head),
        (base + LBA_LOW, (lba & 0xFF) as u8),
        (base + LBA_MID, ((lba >> 8) & 0xFF) as u8),
        (base + LBA_HIGH, ((lba >> 16) & 0xFF) as u8),
    ]
}

/// One poll while waiting for the drive to be ready: with `status` read
/// and `timeout` polls left, `Ok(None)` when it is ready (not busy, and
/// ready), an error when it reports one or the polls run out, else
/// `Ok(Some(n))` to poll again with `n` left.
pub fn wait_ready_step(status: u8, timeout: u32) -> (r: Result<Option<u32>, &'static str>)
    ensures
        status & SR_BSY == 0 && status & SR_DRDY != 0 ==> r == Ok::<Option<u32>, &'static str>(None),
        !(status & SR_BSY == 0 && status & SR_DRDY != 0) && status & SR_ERR != 0
            ==> r == Err::<Option<u32>, &'static str>("disk error during ready wait"),
        !(status & SR_BSY == 0 && status & SR_DRDY != 0) && status & SR_ERR == 0 ==> (if timeout <= 1 {
            r == Err::<Option<u32>, &'static str>("disk timeout during ready wait")
        } else {
            r == Ok::<Option<u32>, &'static str>(Some((timeout - 1) as u32))
        }),
{
    if status & SR_BSY == 0 && status & SR_DRDY != 0 {
        return Ok(None);
    }
    if status & SR_ERR != 0 {
        return Err("disk error during ready wait");
    }
    let t = timeout.saturating_sub(1);
    if t == 0 {
        return Err("disk timeout during ready wait");
    }
    Ok(Some(t))
}

/// One poll while waiting for a data request, as `wait_ready_step` does
/// for readiness.
pub fn wait_drq_step(status: u8, timeout: u32) -> (r: Result<Option<u32>, &'static str>)
    ensures
        status & SR_DRQ != 0 ==> r == Ok::<Option<u32>, &'static str>(None),
        status & SR_DRQ == 0 && status & SR_ERR != 0 ==> r == Err::<Option<u32>, &'static str>("disk error during DRQ wait"),
        status & SR_DRQ == 0 && status & SR_ERR == 0 ==> (if timeout <= 1 {
            r == Err::<Option<u32>, &'static str>("disk timeout during DRQ wait")
        } else {
            r == Ok::<Option<u32>, &'static str>(Some((timeout - 1) as u32))
        }),
{
    if status & SR_DRQ != 0 {
        return Ok(None);
    }
    if status & SR_ERR != 0 {
        return Err("disk error during DRQ wait");
    }
    let t = timeout.saturating_sub(1);
    if t == 0 {
        return Err("disk timeout during DRQ wait");
    }
    Ok(Some(t))
}

/// Whether the status read after IDENTIFY shows a drive: not zero (no
/// drive) and no error.
pub fn drive_answered(status: u8) -> (r: bool)
    ensures
        r == (status != 0 && status & SR_ERR == 0),
{
    status != 0x00 && status & SR_ERR == 0
}

/// The LBA28 sector count in words 60-61 of the IDENTIFY data.
pub fn identify_sectors(identify: &[u16; 256]) -> (r: u32)
    ensures
        r == identify@[61] * 65536 + identify@[60],
{
    let hi = identify[61] as u32;
    let lo = identify[60] as u32;
    proof {
        assert((hi << 16) | lo == hi * 65536 + lo) by (bit_vector)
            requires
                hi < 65536,
                lo < 65536,
        ;
    }
    (hi << 16) | lo
}

/// Reading a sector just written gives back the written bytes.
pub proof fn law_read_back_sector(image: Seq<u8>, total: int, lba: int, data: Seq<u8>)
    requires
        image.len() == total * 512,
        0 <= lba < total,
        data.len() == 512,
    ensures
        sector_bytes(with_sector(image, lba, data), lba) == data,
        with_sector(image, lba, data).len() == image.len(),
{
    assert(lba * 512 + 512 <= image.len()) by (nonlinear_arith)
        requires
            image.len() == total * 512,
            0 <= lba < total,
    ;
    assert(sector_bytes(with_sector(image, lba, data), lba) =~= data);
}

/// Writing a sector leaves every other sector as it was.
pub proof fn law_write_keeps_other_sectors(image: Seq<u8>, total: int, lba: int, data: Seq<u8>, other: int)
    requires
        image.len() == total * 512,
        0 <= lba < total,
        data.len() == 512,
        0 <= other < total,
        other != lba,
    ensures
        sector_bytes(with_sector(image, lba, data), other) == sector_bytes(image, other),
{
    assert(lba * 512 + 512 <= image.len()) by (nonlinear_arith)
        requires
            image.len() == total * 512,
            0 <= lba < total,
    ;
    assert(other * 512 + 512 <= image.len()) by (nonlinear_arith)
        requires
            image.len() == total * 512,
            0 <= other < total,
    ;
    if other < lba {
        assert(other * 512 + 512 <= lba * 512) by (nonlinear_arith)
            requires
                other < lba,
        ;
    } else {
        assert(lba * 512 + 512 <= other * 512) by (nonlinear_arith)
            requires
                lba < other,
        ;
    }
    assert(sector_bytes(with_sector(image, lba, data), other) =~= sector_bytes(image, other));
}

} // verus!
