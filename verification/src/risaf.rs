//! RISAF: the address-space firewall in front of one memory target.
//!
//! Each instance exposes numbered base regions (1..=7) whose registers sit at
//! `0x040 + 0x40 * (region - 1)`: CFGR (+0x0: BREN bit 0, SEC bit 8, PRIVC
//! bits 16..23), STARTR (+0x4), ENDR (+0x8), CIDCFGR (+0xC: RDENC bits 0..7,
//! WRENC bits 16..23). A region is programmed in a fixed order: disable it,
//! set its bounds, set the per-compartment enables, set the attributes with
//! the region still disabled, then enable it with one last write.

use crate::mmio::{MmioAccess, MmioOp};
use vstd::prelude::*;

verus! {

/// Cortex-M55 master compartment ID on the AXI bus.
pub const CPU_CID: u8 = 1;

/// Bitmask matching the CPU compartment, for the RDENC / WRENC / PRIVC fields.
pub const CPU_CID_MASK: u8 = 1 << CPU_CID;

/// The RISAF instances the platform programs.
#[derive(Clone, Copy, Debug, PartialEq, Eq, Structural)]
pub enum RisafInstance {
    /// Protects AXISRAM1 proper (from 0x3406_4000).
    Risaf2,
    /// Protects AXISRAM2.
    Risaf3,
    /// Protects FLEXRAM (at 0x3400_0000).
    Risaf7,
    /// Protects the XSPI2 memory-mapped window.
    Risaf12,
}

/// Base address (Secure alias) of an instance's register block.
pub open spec fn risaf_base(i: RisafInstance) -> u32 {
    match i {
        RisafInstance::Risaf2 => 0x5402_7000,
        RisafInstance::Risaf3 => 0x5402_8000,
        RisafInstance::Risaf7 => 0x5402_C000,
        RisafInstance::Risaf12 => 0x5403_1000,
    }
}

impl RisafInstance {
    /// Base address (Secure alias) of the instance's register block.
    pub fn mmio_base(self) -> (a: u32)
        ensures
            a == risaf_base(self),
    {
        match self {
            RisafInstance::Risaf2 => 0x5402_7000,
            RisafInstance::Risaf3 => 0x5402_8000,
            RisafInstance::Risaf7 => 0x5402_C000,
            RisafInstance::Risaf12 => 0x5403_1000,
        }
    }
}

// Top-level registers.
pub const REG_CR: u32 = 0x000;
pub const REG_IASR: u32 = 0x008;
pub const REG_IACR: u32 = 0x00C;
pub const REG_IAESR: u32 = 0x020;
pub const REG_IADDR: u32 = 0x024;

// Per-region registers.
pub const REG_BLOCK_BASE: u32 = 0x040;
pub const REG_BLOCK_STRIDE: u32 = 0x040;
pub const OFF_CFGR: u32 = 0x000;
pub const OFF_STARTR: u32 = 0x004;
pub const OFF_ENDR: u32 = 0x008;
pub const OFF_CIDCFGR: u32 = 0x00C;

/// CFGR: base region enable.
pub const CFGR_BREN: u32 = 1 << 0;
/// CFGR: secure-only region.
pub const CFGR_SEC: u32 = 1 << 8;

/// Offset of the register block of base region `region` (1-based).
pub open spec fn region_off(region: u8) -> u32 {
    (REG_BLOCK_BASE + REG_BLOCK_STRIDE * (region - 1)) as u32
}

/// The six writes of `configure_region`, in order, as (absolute address,
/// value).
pub open spec fn region_program(
    base: u32,
    region: u8,
    abs_start: u32,
    abs_end: u32,
    secure: bool,
    read_cid_mask: u8,
    write_cid_mask: u8,
    priv_cid_mask: u8,
) -> Seq<MmioOp> {
    let off = region_off(region);
    let attrs = (if secure {
        CFGR_SEC
    } else {
        0u32
    }) | ((priv_cid_mask as u32) << 16u32);
    seq![
        MmioOp::Write { addr: base.wrapping_add((off + OFF_CFGR) as u32), value: 0 },
        MmioOp::Write { addr: base.wrapping_add((off + OFF_STARTR) as u32), value: abs_start },
        MmioOp::Write { addr: base.wrapping_add((off + OFF_ENDR) as u32), value: abs_end },
        MmioOp::Write {
            addr: base.wrapping_add((off + OFF_CIDCFGR) as u32),
            value: (read_cid_mask as u32) | ((write_cid_mask as u32) << 16u32),
        },
        MmioOp::Write { addr: base.wrapping_add((off + OFF_CFGR) as u32), value: attrs },
        MmioOp::Write { addr: base.wrapping_add((off + OFF_CFGR) as u32), value: attrs | CFGR_BREN },
    ]
}

/// One RISAF instance over a register backend.
pub struct Risaf<M: MmioAccess> {
    mmio: M,
}

impl<M: MmioAccess> Risaf<M> {
    pub closed spec fn backend(&self) -> M {
        self.mmio
    }

    pub open spec fn base(&self) -> u32 {
        self.backend().base()
    }

    pub open spec fn ops(&self) -> Seq<MmioOp> {
        self.backend().ops()
    }

    /// Whether the backend stores what is written (a register model).
    pub open spec fn is_storage(&self) -> bool {
        self.backend().is_storage()
    }

    /// The value the backend holds for the register at `offset`.
    pub open spec fn cell(&self, offset: u32) -> u32 {
        self.backend().cell(offset)
    }

    pub fn new_with_mmio(mmio: M) -> (s: Self)
        ensures
            s.backend() == mmio,
    {
        Self { mmio }
    }

    /// The register backend.
    pub fn mmio(&self) -> (m: &M)
        ensures
            *m == self.backend(),
    {
        &self.mmio
    }

    fn reg_off(region: u8) -> (off: u32)
        requires
            region >= 1,
        ensures
            off == region_off(region),
            off <= 0x4000,
    {
        REG_BLOCK_BASE + REG_BLOCK_STRIDE * (region as u32 - 1)
    }

    /// Program base region `region` (1-based) over `abs_start..=abs_end` for
    /// the secure or the non-secure world, with the given per-compartment read,
    /// write and privilege masks, in the fixed register order, with barriers
    /// between the steps.
    pub fn configure_region(
        &mut self,
        region: u8,
        abs_start: u32,
        abs_end: u32,
        secure: bool,
        read_cid_mask: u8,
        write_cid_mask: u8,
        priv_cid_mask: u8,
    )
        requires
            region >= 1,
        ensures
            final(self).base() == old(self).base(),
            final(self).ops() == old(self).ops() + region_program(
                old(self).base(),
                region,
                abs_start,
                abs_end,
                secure,
                read_cid_mask,
                write_cid_mask,
                priv_cid_mask,
            ),
    {
        let off = Self::reg_off(region);
        let sec_bits = if secure {
            CFGR_SEC
        } else {
            0
        };
        let priv_bits = (priv_cid_mask as u32) << 16u32;
        self.mmio.write(off + OFF_CFGR, 0);
        self.mmio.barrier();
        self.mmio.write(off + OFF_STARTR, abs_start);
        self.mmio.write(off + OFF_ENDR, abs_end);
        let cidcfg = (read_cid_mask as u32) | ((write_cid_mask as u32) << 16u32);
        self.mmio.write(off + OFF_CIDCFGR, cidcfg);
        self.mmio.barrier();
        self.mmio.write(off + OFF_CFGR, sec_bits | priv_bits);
        self.mmio.barrier();
        self.mmio.write(off + OFF_CFGR, sec_bits | priv_bits | CFGR_BREN);
        self.mmio.barrier();
        proof {
            assert(self.ops() =~= old(self).ops() + region_program(
                old(self).base(),
                region,
                abs_start,
                abs_end,
                secure,
                read_cid_mask,
                write_cid_mask,
                priv_cid_mask,
            ));
        }
    }

    /// Disable base region `region`: its CFGR is cleared.
    pub fn disable_region(&mut self, region: u8)
        requires
            region >= 1,
        ensures
            final(self).base() == old(self).base(),
            final(self).ops() == old(self).ops().push(
                MmioOp::Write {
                    addr: old(self).base().wrapping_add((region_off(region) + OFF_CFGR) as u32),
                    value: 0,
                },
            ),
    {
        let off = Self::reg_off(region);
        self.mmio.write(off + OFF_CFGR, 0);
    }

    /// Lock the whole configuration until the next reset (GLOCK).
    pub fn lock(&mut self)
        ensures
            final(self).base() == old(self).base(),
            final(self).ops() == old(self).ops().push(
                MmioOp::Write { addr: old(self).base().wrapping_add(REG_CR), value: 1 },
            ),
    {
        self.mmio.write(REG_CR, 1);
    }

    /// One read of the register at `offset`.
    fn read_reg(&mut self, offset: u32) -> (v: u32)
        ensures
            final(self).base() == old(self).base(),
            final(self).ops() == old(self).ops().push(
                MmioOp::Read { addr: old(self).base().wrapping_add(offset), value: v },
            ),
            old(self).is_storage() ==> v == old(self).cell(offset),
            final(self).is_storage() == old(self).is_storage(),
            forall|o: u32| #[trigger] final(self).cell(o) == old(self).cell(o),
    {
        self.mmio.read(offset)
    }

    /// Read CR (bit 0 is GLOCK).
    pub fn read_cr(&mut self) -> (v: u32)
        ensures
            final(self).base() == old(self).base(),
            final(self).ops() == old(self).ops().push(
                MmioOp::Read { addr: old(self).base().wrapping_add(REG_CR), value: v },
            ),
            old(self).is_storage() ==> v == old(self).cell(REG_CR),
    {
        self.read_reg(REG_CR)
    }

    /// Read the CFGR of base region `region`.
    pub fn read_cfgr(&mut self, region: u8) -> (v: u32)
        requires
            region >= 1,
        ensures
            final(self).base() == old(self).base(),
            final(self).ops() == old(self).ops().push(
                MmioOp::Read {
                    addr: old(self).base().wrapping_add((region_off(region) + OFF_CFGR) as u32),
                    value: v,
                },
            ),
            old(self).is_storage() ==> v == old(self).cell((region_off(region) + OFF_CFGR) as u32),
    {
        let off = Self::reg_off(region);
        self.read_reg(off + OFF_CFGR)
    }

    /// Read the STARTR of base region `region`.
    pub fn read_startr(&mut self, region: u8) -> (v: u32)
        requires
            region >= 1,
        ensures
            final(self).base() == old(self).base(),
            final(self).ops() == old(self).ops().push(
                MmioOp::Read {
                    addr: old(self).base().wrapping_add((region_off(region) + OFF_STARTR) as u32),
                    value: v,
                },
            ),
            old(self).is_storage() ==> v == old(self).cell((region_off(region) + OFF_STARTR) as u32),
    {
        let off = Self::reg_off(region);
        self.read_reg(off + OFF_STARTR)
    }

    /// Read the ENDR of base region `region`.
    pub fn read_endr(&mut self, region: u8) -> (v: u32)
        requires
            region >= 1,
        ensures
            final(self).base() == old(self).base(),
            final(self).ops() == old(self).ops().push(
                MmioOp::Read {
                    addr: old(self).base().wrapping_add((region_off(region) + OFF_ENDR) as u32),
                    value: v,
                },
            ),
            old(self).is_storage() ==> v == old(self).cell((region_off(region) + OFF_ENDR) as u32),
    {
        let off = Self::reg_off(region);
        self.read_reg(off + OFF_ENDR)
    }

    /// Read the CIDCFGR of base region `region`.
    pub fn read_cidcfgr(&mut self, region: u8) -> (v: u32)
        requires
            region >= 1,
        ensures
            final(self).base() == old(self).base(),
            final(self).ops() == old(self).ops().push(
                MmioOp::Read {
                    addr: old(self).base().wrapping_add((region_off(region) + OFF_CIDCFGR) as u32),
                    value: v,
                },
            ),
            old(self).is_storage() ==> v == old(self).cell((region_off(region) + OFF_CIDCFGR) as u32),
    {
        let off = Self::reg_off(region);
        self.read_reg(off + OFF_CIDCFGR)
    }

    /// Read the illegal-access status flags.
    pub fn read_iasr(&mut self) -> (v: u32)
        ensures
            final(self).base() == old(self).base(),
            final(self).ops() == old(self).ops().push(
                MmioOp::Read { addr: old(self).base().wrapping_add(REG_IASR), value: v },
            ),
            old(self).is_storage() ==> v == old(self).cell(REG_IASR),
    {
        self.read_reg(REG_IASR)
    }

    /// Read the offset of the latest illegal access.
    pub fn read_iaddr(&mut self) -> (v: u32)
        ensures
            final(self).base() == old(self).base(),
            final(self).ops() == old(self).ops().push(
                MmioOp::Read { addr: old(self).base().wrapping_add(REG_IADDR), value: v },
            ),
            old(self).is_storage() ==> v == old(self).cell(REG_IADDR),
    {
        self.read_reg(REG_IADDR)
    }
}

} // verus!
