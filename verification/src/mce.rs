//! Memory Cipher Engine 2, in front of the external flash window.
//!
//! The active boot path runs the engine in pass-through: region 1 must be
//! disabled so that reads from the flash window return the raw bytes.

use crate::mmio::{read_modify_write, rmw_stored, MmioAccess, MmioOp};
use vstd::prelude::*;

verus! {

pub const MCE2_BASE: u32 = 0x5802_BC00;

/// Region 1 configuration register (region x: 0x040 + 0x10 * (x - 1)).
pub const REGCR1_OFFSET: u32 = 0x040;

/// Region enable bit of a region configuration register.
pub const REGCR_BREN: u32 = 1;

/// The memory cipher engine over a register backend.
pub struct Mce2<M: MmioAccess> {
    mmio: M,
}

impl<M: MmioAccess> Mce2<M> {
    pub closed spec fn backend(&self) -> M {
        self.mmio
    }

    pub open spec fn base(&self) -> u32 {
        self.backend().base()
    }

    pub open spec fn ops(&self) -> Seq<MmioOp> {
        self.backend().ops()
    }

    pub fn new_with_mmio(mmio: M) -> (s: Self)
        ensures
            s.backend() == mmio,
    {
        Self { mmio }
    }

    /// The register backend.
    pub fn mmio(&self) -> (m: &M)
        ensures
            *m == self.backend(),
    {
        &self.mmio
    }

    /// Disable region 1: clear its enable bit, keeping the other bits.
    pub fn disable_region1(&mut self)
        ensures
            final(self).base() == old(self).base(),
            read_modify_write(
                old(self).ops(),
                final(self).ops(),
                old(self).base().wrapping_add(REGCR1_OFFSET),
                |v: u32| v & !REGCR_BREN,
            ),
            rmw_stored(old(self).backend(), final(self).backend(), REGCR1_OFFSET, |v: u32| v & !REGCR_BREN),
    {
        let v = self.mmio.read(REGCR1_OFFSET);
        self.mmio.write(REGCR1_OFFSET, v & !REGCR_BREN);
        proof {
            assert(self.ops().take(old(self).ops().len() as int) =~= old(self).ops());
        }
    }
}

} // verus!
