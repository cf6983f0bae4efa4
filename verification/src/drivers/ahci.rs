//! AHCI (SATA) controller: port and disk handles, where a port's
//! registers sit in the controller's memory-mapped space, the command
//! block a transfer puts in memory, and the decisions while waiting on
//! the port. The register and memory accesses themselves are made
//! outside.
use vstd::prelude::*;

verus! {

/// Address of register `offset` of port `port` in the HBA at `base`.
pub fn port_reg_addr(base: usize, port: usize, offset: usize) -> (r: usize)
    requires
        base + 0x100 + port * 0x80 + offset <= usize::MAX,
    ensures
        r == base + 0x100 + port * 0x80 + offset,
{
    base + 0x100 + port * 0x80 + offset
}

/// The lowest port set in the ports-implemented mask `pi`.
pub fn first_implemented_port(pi: u32) -> (r: Option<usize>)
    ensures
        r matches Some(p) ==> p < 32 && (pi >> (p as u32)) & 1 == 1 && forall|q: u32| q < p ==> (pi >> q) & 1 == 0,
        r is None ==> forall|q: u32| q < 32 ==> (pi >> q) & 1 == 0,
{
    let mut p: u32 = 0;
    while p < 32
        invariant
            0 <= p <= 32,
            forall|q: u32| q < p ==> (pi >> q) & 1 == 0,
        decreases 32 - p,
    {
        if (pi >> p) & 1 == 1 {
            return Some(p as usize);
        }
        assert((pi >> p) & 1 != 1 ==> (pi >> p) & 1 == 0) by (bit_vector);
        p = p + 1;
    }
    None
}

/// An AHCI port: the HBA base, the port number, and the physical
/// addresses of its command list and received-FIS area.
pub struct AhciPort {
    base: usize,
    port: usize,
    clb_phys: u64,
    fb_phys: u64,
}

impl AhciPort {
    pub fn new(base: usize, port: usize, clb_phys: u64, fb_phys: u64) -> (p: Self)
        ensures
            p.base_view() == base && p.port_view() == port && p.clb_view() == clb_phys && p.fb_view() == fb_phys,
    {
        AhciPort { base, port, clb_phys, fb_phys }
    }

    pub closed spec fn base_view(&self) -> usize { self.base }
    pub closed spec fn port_view(&self) -> usize { self.port }
    pub closed spec fn clb_view(&self) -> u64 { self.clb_phys }
    pub closed spec fn fb_view(&self) -> u64 { self.fb_phys }

    /// The HBA base address.
    pub fn base(&self) -> (r: usize)
        ensures
            r == self.base_view(),
    {
        self.base
    }

    /// The port number.
    pub fn port(&self) -> (r: usize)
        ensures
            r == self.port_view(),
    {
        self.port
    }

    /// Physical address of the command list.
    pub fn clb_phys(&self) -> (r: u64)
        ensures
            r == self.clb_view(),
    {
        self.clb_phys
    }

    /// Physical address of the received-FIS area.
    pub fn fb_phys(&self) -> (r: u64)
        ensures
            r == self.fb_view(),
    {
        self.fb_phys
    }
}

/// An AHCI disk: its port and its size in sectors (0 until detected).
pub struct AhciDisk {
    port: AhciPort,
    total_sectors: u32,
}

impl AhciDisk {
    pub fn new(port: AhciPort, total_sectors: u32) -> (d: Self)
        ensures
            d.total_view() == total_sectors,
            d.port_view() == port,
    {
        AhciDisk { port, total_sectors }
    }

    pub closed spec fn total_view(&self) -> u32 { self.total_sectors }
    pub closed spec fn port_view(&self) -> AhciPort { self.port }

    /// The disk's port.
    pub fn port(&self) -> (r: &AhciPort)
        ensures
            *r == self.port_view(),
    {
        &self.port
    }

    /// A disk behind an initialised port is present.
    pub fn is_present(&self) -> (r: bool)
        ensures
            r,
    {
        true
    }

    /// Number of sectors (0 until detected).
    pub fn total_sectors(&self) -> (r: u32)
        ensures
            r == self.total_view(),
    {
        self.total_sectors
    }
}

/// Port register offsets and bits.
pub const PORT_IS: usize = 0x10;
pub const PORT_TFD: usize = 0x20;
pub const PORT_CI: usize = 0x38;
pub const PORT_TFD_BSY: u32 = 0x80;
pub const PORT_TFD_DRQ: u32 = 0x08;

/// Host-to-device register FIS type.
pub const FIS_TYPE_H2D: u8 = 0x27;

/// What a transfer puts in memory before it is issued in command slot 0:
/// the command FIS, the one PRDT entry and the command header, each with
/// the physical address it goes to.
pub struct CommandBlock {
    pub fis: [u8; 18],
    pub fis_addr: u64,
    pub prdt: [u32; 4],
    pub prdt_addr: u64,
    pub header: [u32; 8],
    pub header_addr: u64,
}

/// The command FIS for command `cmd` on LBA `lba` for `count` sectors: LBA
/// mode, the LBA bytes low to high, the low byte of the count.
pub open spec fn h2d_fis(cmd: u8, lba: u32, count: u16) -> Seq<u8> {
    seq![FIS_TYPE_H2D, 0u8, cmd, 0u8, (lba % 256) as u8, ((lba / 256) % 256) as u8, ((lba / 65536) % 256) as u8, 0x40u8,
        ((lba / 0x100_0000) % 256) as u8, 0u8, (count % 256) as u8, 0u8, 0u8, 0u8, 0u8, 0u8, 0u8, 0u8]
}

/// The command block for command `cmd` on LBA `lba` for `count` sectors
/// moving 512 bytes at physical `data_phys`, written to the device when
/// `write`, for the port whose command list is at `clb`.
pub fn send_command(port: &AhciPort, cmd: u8, lba: u32, count: u16, data_phys: u64, write: bool) -> (b: CommandBlock)
    requires
        port.clb_view() + 0x180 <= u64::MAX,
    ensures
        b.fis@ == h2d_fis(cmd, lba, count),
        b.fis_addr == port.clb_view() + 0x40,
        b.prdt@ == seq![(data_phys % 0x1_0000_0000) as u32, (data_phys / 0x1_0000_0000) as u32, 0u32, 0x8000_01FFu32],
        b.prdt_addr == port.clb_view() + 0x80,
        b.header@ == seq![(0x5_0001u32 + if write { 0x40u32 } else { 0u32 }) as u32, ((port.clb_view() + 0x80) % 0x1_0000_0000) as u32,
            ((port.clb_view() + 0x80) / 0x1_0000_0000) as u32, 0u32, 0u32, 0u32, 1u32, 0u32],
        b.header_addr == port.clb_view(),
{
    let fis: [u8; 18] = [
        FIS_TYPE_H2D,
        0,
        cmd,
        0,
        (lba & 0xFF) as u8,
        ((lba >> 8) & 0xFF) as u8,
        ((lba >> 16) & 0xFF) as u8,
        0x40,
        ((lba >> 24) & 0xFF) as u8,
        0,
        (count & 0xFF) as u8,
        0,
        0,
        0,
        0,
        0,
        0,
        0,
    ];
    let prdt_addr = port.clb_phys + 0x80;
    let dw0: u32 = if write { 0x5_0041 } else { 0x5_0001 };
    let prdt: [u32; 4] = [(data_phys & 0xFFFF_FFFF) as u32, (data_phys >> 32) as u32, 0, 0x8000_01FF];
    let header: [u32; 8] = [dw0, (prdt_addr & 0xFFFF_FFFF) as u32, (prdt_addr >> 32) as u32, 0, 0, 0, 1, 0];
    proof {
        assert(lba & 0xFF == lba % 256 && (lba >> 8) & 0xFF == (lba / 256) % 256 && (lba >> 16) & 0xFF == (lba / 65536) % 256
            && (lba >> 24) & 0xFF == (lba / 0x100_0000) % 256 && count & 0xFF == count % 256 && data_phys & 0xFFFF_FFFF
            == data_phys % 0x1_0000_0000 && data_phys >> 32 == data_phys / 0x1_0000_0000 && prdt_addr & 0xFFFF_FFFF
            == prdt_addr % 0x1_0000_0000 && prdt_addr >> 32 == prdt_addr / 0x1_0000_0000) by (bit_vector);
        assert(fis@ =~= h2d_fis(cmd, lba, count));
        assert(prdt@ =~= seq![(data_phys % 0x1_0000_0000) as u32, (data_phys / 0x1_0000_0000) as u32, 0u32, 0x8000_01FFu32]);
        assert(header@ =~= seq![(0x5_0001u32 + if write { 0x40u32 } else { 0u32 }) as u32, (prdt_addr % 0x1_0000_0000) as u32,
            (prdt_addr / 0x1_0000_0000) as u32, 0u32, 0u32, 0u32, 1u32, 0u32]);
    }
    CommandBlock { fis, fis_addr: port.clb_phys + 0x40, prdt, prdt_addr, header, header_addr: port.clb_phys }
}

/// One poll of the task file before a command: with `tfd` read and
/// `timeout` polls left, `Ok(None)` when the port is neither busy nor
/// asking for data, else `Ok(Some(n))` to poll again with `n` left, or an
/// error when the polls run out.
pub fn port_idle_step(tfd: u32, timeout: u32) -> (r: Result<Option<u32>, &'static str>)
    requires
        timeout >= 1,
    ensures
        tfd & (PORT_TFD_BSY | PORT_TFD_DRQ) == 0 ==> r == Ok::<Option<u32>, &'static str>(None),
        tfd & (PORT_TFD_BSY | PORT_TFD_DRQ) != 0 && timeout == 1 ==> r == Err::<Option<u32>, &'static str>("port busy timeout"),
        tfd & (PORT_TFD_BSY | PORT_TFD_DRQ) != 0 && timeout > 1 ==> r == Ok::<Option<u32>, &'static str>(Some((timeout - 1) as u32)),
{
    if tfd & (PORT_TFD_BSY | PORT_TFD_DRQ) == 0 {
        return Ok(None);
    }
    let t = timeout - 1;
    if t == 0 {
        return Err("port busy timeout");
    }
    Ok(Some(t))
}

/// One poll of the command-issue register after issuing slot 0: done
/// when its bit is clear, else poll again, or an error when the polls run
/// out.
pub fn command_done_step(ci: u32, timeout: u32) -> (r: Result<Option<u32>, &'static str>)
    requires
        timeout >= 1,
    ensures
        ci & 1 == 0 ==> r == Ok::<Option<u32>, &'static str>(None),
        ci & 1 != 0 && timeout == 1 ==> r == Err::<Option<u32>, &'static str>("command timeout"),
        ci & 1 != 0 && timeout > 1 ==> r == Ok::<Option<u32>, &'static str>(Some((timeout - 1) as u32)),
{
    if ci & 1 == 0 {
        return Ok(None);
    }
    let t = timeout - 1;
    if t == 0 {
        return Err("command timeout");
    }
    Ok(Some(t))
}

/// The outcome of a finished command from the interrupt status `is`: a
/// task-file error (bit 0) fails it.
pub fn command_status(is: u32) -> (r: Result<(), &'static str>)
    ensures
        is & 1 != 0 ==> r == Err::<(), &'static str>("disk error"),
        is & 1 == 0 ==> r == Ok::<(), &'static str>(()),
{
    if is & 0x1 != 0 {
        return Err("disk error");
    }
    Ok(())
}

} // verus!
