//! Reset and clock control: the system-clock fallback to HSI and the
//! peripheral clock enables.
//!
//! Register offsets: CR 0x00 (HSION bit 0, HSIRDY bit 2), CFGR1 0x1C (SW[1:0]
//! written, SWS[4:3] read back), AHB3ENR 0x258, AHB4ENR 0x25C, AHB5ENR 0x260,
//! APB2ENR 0x26C.

use crate::mmio::{poll, polled, polled_out, read_modify_write, rmw_stored, MmioAccess, MmioOp};
use vstd::prelude::*;

verus! {

/// Secure alias of the RCC block.
pub const RCC_BASE_ADDR: u32 = 0x5602_8000;

pub const CR_OFFSET: u32 = 0x00;
pub const CFGR1_OFFSET: u32 = 0x1C;
pub const AHB3ENR_OFFSET: u32 = 0x258;
pub const AHB4ENR_OFFSET: u32 = 0x25C;
pub const APB2ENR_OFFSET: u32 = 0x26C;
pub const AHB5ENR_OFFSET: u32 = 0x260;

/// CR: HSI oscillator ready.
pub const CR_HSIRDY: u32 = 1 << 2;
/// CFGR1: system-clock switch status SWS[4:3].
pub const CFGR1_SWS_MASK: u32 = 0x3 << 3;

// AHB4ENR bit positions for GPIO ports.
pub const GPIOAEN: u8 = 0;
pub const GPIOBEN: u8 = 1;
pub const GPIOCEN: u8 = 2;
pub const GPIODEN: u8 = 3;
pub const GPIOEEN: u8 = 4;
pub const GPIOFEN: u8 = 5;
pub const GPIOGEN: u8 = 6;

// AHB3ENR bit positions (crypto peripherals).
pub const RNGEN: u8 = 0;
pub const HASHEN: u8 = 1;
pub const CRYP1EN: u8 = 2;
pub const SAESEN: u8 = 4;
pub const PKAEN: u8 = 8;

// APB2ENR bit positions.
pub const USART1EN: u8 = 4;

// AHB5ENR bit positions (XSPI, MCE, DMA).
pub const XSPI2EN: u8 = 12;
pub const XSPIMEN: u8 = 13;
pub const MCE1EN: u8 = 14;
pub const MCE2EN: u8 = 15;

/// SCB_NS.VTOR (absolute): base of the Non-Secure vector table.
pub const SCB_NS_VTOR: u32 = 0xE002_ED08;

/// Install the Non-Secure vector table base: one write of `vtor_ns` to
/// SCB_NS.VTOR over the system bus (`bus` maps absolute addresses).
pub fn set_vtor_ns<M: MmioAccess>(bus: &mut M, vtor_ns: u32)
    requires
        old(bus).base() == 0,
    ensures
        final(bus).base() == 0,
        final(bus).ops() == old(bus).ops().push(MmioOp::Write { addr: SCB_NS_VTOR, value: vtor_ns }),
{
    bus.write(SCB_NS_VTOR, vtor_ns);
}

/// Errors of the clock driver.
#[derive(Clone, Copy, Debug, PartialEq, Eq, Structural)]
pub enum RccError {
    /// Reserved.
    Unreachable,
    /// A clock never reported ready within the polling budget.
    Timeout,
}

/// The access sequence of a successful `force_hsi`: read CR, write it back
/// with HSION, wait for HSIRDY, read CFGR1, write it back with SW cleared,
/// wait for SWS to read HSI.
pub open spec fn force_hsi_ok(d: Seq<MmioOp>, base: u32) -> bool {
    let cr = base.wrapping_add(CR_OFFSET);
    let cfgr1 = base.wrapping_add(CFGR1_OFFSET);
    exists|k: int|
        #![trigger d.subrange(2, k)]
        2 < k && k + 2 < d.len() && {
            &&& d[0] == (MmioOp::Read { addr: cr, value: crate::mmio::op_value(d[0]) })
            &&& d[1] == (MmioOp::Write { addr: cr, value: crate::mmio::op_value(d[0]) | 1 })
            &&& polled(d.subrange(2, k), cr, CR_HSIRDY, true)
            &&& d[k] == (MmioOp::Read { addr: cfgr1, value: crate::mmio::op_value(d[k]) })
            &&& d[k + 1] == (MmioOp::Write {
                addr: cfgr1,
                value: crate::mmio::op_value(d[k]) & !0x3u32,
            })
            &&& polled(d.skip(k + 2), cfgr1, CFGR1_SWS_MASK, false)
        }
}

/// The access sequence of a `force_hsi` that timed out: one of the two waits
/// ran out of budget.
pub open spec fn force_hsi_timed_out(d: Seq<MmioOp>, base: u32) -> bool {
    let cr = base.wrapping_add(CR_OFFSET);
    let cfgr1 = base.wrapping_add(CFGR1_OFFSET);
    &&& 2 <= d.len()
    &&& d[0] == (MmioOp::Read { addr: cr, value: crate::mmio::op_value(d[0]) })
    &&& d[1] == (MmioOp::Write { addr: cr, value: crate::mmio::op_value(d[0]) | 1 })
    &&& (polled_out(d.skip(2), cr, CR_HSIRDY, true) || exists|k: int|
        #![trigger d.subrange(2, k)]
        2 < k && k + 2 <= d.len() && {
            &&& polled(d.subrange(2, k), cr, CR_HSIRDY, true)
            &&& d[k] == (MmioOp::Read { addr: cfgr1, value: crate::mmio::op_value(d[k]) })
            &&& d[k + 1] == (MmioOp::Write {
                addr: cfgr1,
                value: crate::mmio::op_value(d[k]) & !0x3u32,
            })
            &&& polled_out(d.skip(k + 2), cfgr1, CFGR1_SWS_MASK, false)
        })
}

/// Reset and clock control over a register backend.
pub struct Rcc<M: MmioAccess> {
    mmio: M,
}

impl<M: MmioAccess> Rcc<M> {
    pub closed spec fn backend(&self) -> M {
        self.mmio
    }

    pub open spec fn base(&self) -> u32 {
        self.backend().base()
    }

    pub open spec fn ops(&self) -> Seq<MmioOp> {
        self.backend().ops()
    }

    /// Barriers issued through the backend so far.
    pub open spec fn fences(&self) -> nat {
        self.backend().fences()
    }

    /// Whether the backend stores what is written (a register model).
    pub open spec fn is_storage(&self) -> bool {
        self.backend().is_storage()
    }

    /// The value the backend holds for the register at `offset`.
    pub open spec fn cell(&self, offset: u32) -> u32 {
        self.backend().cell(offset)
    }

    pub fn new_with_mmio(mmio: M) -> (s: Self)
        ensures
            s.backend() == mmio,
    {
        Self { mmio }
    }

    /// The register backend.
    pub fn mmio(&self) -> (m: &M)
        ensures
            *m == self.backend(),
    {
        &self.mmio
    }

    /// Force the system clock back to HSI 64 MHz: turn HSI on, wait until it is
    /// ready, select it, wait until the switch is reported.
    pub fn force_hsi(&mut self) -> (r: Result<(), RccError>)
        ensures
            final(self).base() == old(self).base(),
            final(self).ops().take(old(self).ops().len() as int) == old(self).ops(),
            r is Ok ==> force_hsi_ok(final(self).ops().skip(old(self).ops().len() as int), old(self).base()),
            r is Err ==> r == Err::<(), RccError>(RccError::Timeout) && force_hsi_timed_out(
                final(self).ops().skip(old(self).ops().len() as int),
                old(self).base(),
            ),
            old(self).is_storage() ==> {
                let d = final(self).ops().skip(old(self).ops().len() as int);
                &&& crate::mmio::op_value(d[0]) == old(self).cell(CR_OFFSET)
                &&& (r is Ok <==> (old(self).cell(CR_OFFSET) | 1) & CR_HSIRDY != 0 && (old(self).cell(
                    CFGR1_OFFSET,
                ) & !0x3u32) & CFGR1_SWS_MASK == 0)
                &&& r is Ok ==> d.len() == 6 && crate::mmio::op_value(d[3]) == old(self).cell(
                    CFGR1_OFFSET,
                )
            },
    {
        let ghost n = old(self).ops().len();
        let cr = self.mmio.read(CR_OFFSET);
        self.mmio.write(CR_OFFSET, cr | 1);
        let ghost o1 = self.ops();
        assert(o1.len() == n + 2);
        assert(o1.take(n as int) =~= old(self).ops());
        let ok1 = poll(&mut self.mmio, CR_OFFSET, CR_HSIRDY, true);
        let ghost o2 = self.ops();
        assert(o2.take(o1.len() as int) == o1);
        assert(forall|i: int| 0 <= i < o1.len() ==> o2[i] == #[trigger] o1[i]);
        if !ok1 {
            proof {
                let d = self.ops().skip(n as int);
                assert(self.ops().take(n as int) =~= old(self).ops());
                assert(d.skip(2) =~= self.ops().skip(o1.len() as int));
                assert(d[0] == o1[n as int]);
                assert(d[1] == o1[n as int + 1]);
            }
            return Err(RccError::Timeout);
        }
        let cfgr1 = self.mmio.read(CFGR1_OFFSET);
        self.mmio.write(CFGR1_OFFSET, cfgr1 & !0x3);
        let ghost o3 = self.ops();
        assert(o3.len() == o2.len() + 2);
        assert(forall|i: int| 0 <= i < o2.len() ==> o3[i] == #[trigger] o2[i]);
        let ok2 = poll(&mut self.mmio, CFGR1_OFFSET, CFGR1_SWS_MASK, false);
        proof {
            let f = self.ops();
            assert(f.take(o3.len() as int) == o3);
            assert(forall|i: int| 0 <= i < o3.len() ==> f[i] == #[trigger] o3[i]);
            let d = f.skip(n as int);
            let k = o2.len() - n;
            assert(self.ops().take(n as int) =~= old(self).ops());
            assert(d[0] == o1[n as int]);
            assert(d[1] == o1[n as int + 1]);
            assert(d.subrange(2, k) =~= o2.skip(o1.len() as int));
            assert(d.skip(k + 2) =~= f.skip(o3.len() as int));
            assert(d[k] == o3[o2.len() as int]);
            assert(d[k + 1] == o3[o2.len() as int + 1]);
        }
        if !ok2 {
            return Err(RccError::Timeout);
        }
        Ok(())
    }

    /// Set bit `bit` of AHB3ENR (crypto clocks), keeping the other bits.
    pub fn enable_ahb3_clock(&mut self, bit: u8)
        requires
            bit < 32,
        ensures
            final(self).base() == old(self).base(),
            read_modify_write(
                old(self).ops(),
                final(self).ops(),
                old(self).base().wrapping_add(AHB3ENR_OFFSET),
                |v: u32| v | (1u32 << bit),
            ),
            rmw_stored(old(self).backend(), final(self).backend(), AHB3ENR_OFFSET, |v: u32| v | (1u32 << bit)),
    {
        self.enable_bit(AHB3ENR_OFFSET, bit);
    }

    /// Set bit `bit` of AHB4ENR (GPIO ports, PWR, CRC), keeping the other bits.
    pub fn enable_ahb4_clock(&mut self, bit: u8)
        requires
            bit < 32,
        ensures
            final(self).base() == old(self).base(),
            read_modify_write(
                old(self).ops(),
                final(self).ops(),
                old(self).base().wrapping_add(AHB4ENR_OFFSET),
                |v: u32| v | (1u32 << bit),
            ),
            rmw_stored(old(self).backend(), final(self).backend(), AHB4ENR_OFFSET, |v: u32| v | (1u32 << bit)),
    {
        self.enable_bit(AHB4ENR_OFFSET, bit);
    }

    /// Set bit `bit` of APB2ENR (USART1, ...), keeping the other bits.
    pub fn enable_apb2_clock(&mut self, bit: u8)
        requires
            bit < 32,
        ensures
            final(self).base() == old(self).base(),
            read_modify_write(
                old(self).ops(),
                final(self).ops(),
                old(self).base().wrapping_add(APB2ENR_OFFSET),
                |v: u32| v | (1u32 << bit),
            ),
            rmw_stored(old(self).backend(), final(self).backend(), APB2ENR_OFFSET, |v: u32| v | (1u32 << bit)),
    {
        self.enable_bit(APB2ENR_OFFSET, bit);
    }

    /// Set bit `bit` of AHB5ENR (XSPI, MCE, DMA), keeping the other bits.
    pub fn enable_ahb5_clock(&mut self, bit: u8)
        requires
            bit < 32,
        ensures
            final(self).base() == old(self).base(),
            read_modify_write(
                old(self).ops(),
                final(self).ops(),
                old(self).base().wrapping_add(AHB5ENR_OFFSET),
                |v: u32| v | (1u32 << bit),
            ),
            rmw_stored(old(self).backend(), final(self).backend(), AHB5ENR_OFFSET, |v: u32| v | (1u32 << bit)),
    {
        self.enable_bit(AHB5ENR_OFFSET, bit);
    }

    /// Make the clock enables written so far take effect before any later
    /// access: one barrier, no register access.
    pub fn sync(&mut self)
        ensures
            final(self).base() == old(self).base(),
            final(self).ops() == old(self).ops(),
            final(self).fences() == old(self).fences() + 1,
    {
        self.mmio.barrier();
    }

    /// Read-OR-write of one enable bit.
    fn enable_bit(&mut self, offset: u32, bit: u8)
        requires
            bit < 32,
        ensures
            final(self).base() == old(self).base(),
            read_modify_write(
                old(self).ops(),
                final(self).ops(),
                old(self).base().wrapping_add(offset),
                |v: u32| v | (1u32 << bit),
            ),
            rmw_stored(old(self).backend(), final(self).backend(), offset, |v: u32| v | (1u32 << bit)),
    {
        let val = self.mmio.read(offset);
        self.mmio.write(offset, val | (1u32 << bit));
        proof {
            assert(self.ops().take(old(self).ops().len() as int) =~= old(self).ops());
        }
    }

    /// The PLL is set up by the Boot ROM and retuned during platform clock
    /// bring-up, so there is nothing to do here.
    pub fn init_sysclk_pll(&mut self) -> (r: Result<(), RccError>)
        ensures
            r is Ok,
            final(self).ops() == old(self).ops(),
            final(self).base() == old(self).base(),
    {
        Ok(())
    }
}

} // verus!
