//! Secure-side bring-up of the STM32N657: the RIFSC opening, the clock tree
//! (CPU 800 MHz, AXI 400 MHz, HCLK 200 MHz, NPU band 900 MHz), the NPU memory
//! subsystem, the M55 caches, and the external flash on XSPI2.
//!
//! Everything here runs on the system bus (a backend whose base is 0, so an
//! offset is an absolute address). The fixed sequences are register programs
//! (see `regprog`); the steps that depend on what a register reads (the RIFSC
//! locks, the NPU port read-back, the cache geometry, the flash ID) are
//! written out, each with a contract over the access record.

use crate::crypto_engine::UmbraError;
use crate::mce::{MCE2_BASE, REGCR1_OFFSET, REGCR_BREN};
use crate::mmio::{extends, op_value, rd, wr, writes_of, MmioAccess, MmioOp};
use crate::raw_print::print_str;
use crate::rcc::SCB_NS_VTOR;
use crate::risaf::{region_program, Risaf};
use crate::uart::{tx_writes, UartError, BRR_OFFSET, CR1_OFFSET, CR1_UE_TE, PRESC_OFFSET};
use crate::regprog::{no_waits, ran, run_program, stuck_at, RegStep};
use vstd::prelude::*;
use vstd::string::StringSliceAdditionalSpecFns;

verus! {

// ---------------------------------------------------------------------------
// Addresses (Secure aliases).
// ---------------------------------------------------------------------------
/// RIFSC: RISC_CR (GLOCK is bit 0).
pub const RIFSC_BASE: u32 = 0x5402_4000;
/// RIFSC_SECCFGR0; SECCFGRx is 4 * x further.
pub const RIFSC_SECCFGR0: u32 = 0x5402_4010;
/// RIFSC_PRIVCFGR0; PRIVCFGRx is 4 * x further.
pub const RIFSC_PRIVCFGR0: u32 = 0x5402_4030;
/// RIFSC_RCFGLOCKR0; RCFGLOCKRx is 4 * x further.
pub const RIFSC_RCFGLOCKR0: u32 = 0x5402_4050;
/// Register pairs (SECCFGRx, PRIVCFGRx) the unlock walks.
pub const RIFSC_PAIRS: u32 = 6;
/// RIFSC_SECCFGR3: RISUPs 96..127.
pub const RIFSC_SECCFGR3: u32 = 0x5402_401C;
/// RISUP 106 (the NPU configuration port) in SECCFGR3.
pub const NPU_RISUP_BIT: u32 = 1 << 10;
/// RIMC attributes of bus master 1 (the NPU).
pub const RIMC_ATTR_NPU: u32 = 0x5402_4C14;

/// RCC registers.
pub const RCC_SR: u32 = 0x5602_8004;
pub const RCC_CFGR1: u32 = 0x5602_8020;
pub const RCC_CFGR2: u32 = 0x5602_8024;
pub const RCC_PLL1CFGR1: u32 = 0x5602_8080;
pub const RCC_PLL1CFGR2: u32 = 0x5602_8084;
pub const RCC_PLL1CFGR3: u32 = 0x5602_8088;
pub const RCC_PLL3CFGR1: u32 = 0x5602_80A0;
pub const RCC_PLL3CFGR2: u32 = 0x5602_80A4;
pub const RCC_PLL3CFGR3: u32 = 0x5602_80A8;
pub const RCC_IC1CFGR: u32 = 0x5602_80C4;
pub const RCC_IC2CFGR: u32 = 0x5602_80C8;
pub const RCC_IC3CFGR: u32 = 0x5602_80CC;
pub const RCC_IC6CFGR: u32 = 0x5602_80D8;
pub const RCC_IC11CFGR: u32 = 0x5602_80EC;
pub const RCC_CCIPR6: u32 = 0x5602_8158;
pub const RCC_CCIPR13: u32 = 0x5602_8174;
pub const RCC_MEMENR: u32 = 0x5602_824C;
pub const RCC_AHB2ENR: u32 = 0x5602_8254;
pub const RCC_AHB3ENR: u32 = 0x5602_8258;
pub const RCC_AHB4ENR: u32 = 0x5602_825C;
pub const RCC_AHB5ENR: u32 = 0x5602_8260;
pub const RCC_APB2ENR: u32 = 0x5602_826C;
pub const RCC_MEMLPENR: u32 = 0x5602_828C;
pub const RCC_AHB2LPENR: u32 = 0x5602_8294;
pub const RCC_AHB5LPENR: u32 = 0x5602_82A0;
/// Write-1-to-set oscillator/PLL enables.
pub const RCC_CSR: u32 = 0x5602_8800;
/// Write-1-to-set divider enables.
pub const RCC_DIVENSR: u32 = 0x5602_8A40;
/// Write-1-to-set reset assertion, AHB3 and AHB5.
pub const RCC_AHB3RSTSR: u32 = 0x5602_8A18;
pub const RCC_AHB5RSTSR: u32 = 0x5602_8A20;
/// Write-1-to-clear oscillator/PLL enables.
pub const RCC_CCR: u32 = 0x5602_9000;
/// Write-1-to-clear reset assertion, AHB3 and AHB5.
pub const RCC_AHB3RSTCR: u32 = 0x5602_9218;
pub const RCC_AHB5RSTCR: u32 = 0x5602_9220;

/// GPIOB (PB12 drives the board's SMPS overdrive).
pub const GPIOB_MODER: u32 = 0x5602_0400;
pub const GPIOB_BSRR: u32 = 0x5602_0418;

/// RAMCFG control registers of AXISRAM3..6 (SRAMSD is bit 20).
pub const RAMCFG_AXISRAM3_CR: u32 = 0x5202_3100;
pub const RAMCFG_AXISRAM4_CR: u32 = 0x5202_3180;
pub const RAMCFG_AXISRAM5_CR: u32 = 0x5202_3200;
pub const RAMCFG_AXISRAM6_CR: u32 = 0x5202_3280;

// ---------------------------------------------------------------------------
// Clock tree and NPU memory subsystem.
// ---------------------------------------------------------------------------
/// The clock-tree and NPU-subsystem program:
/// * GPIOB/E/G, USART1, HASH and CRYP clocks on; USART1 kernel clock to HSI;
///   PB12 high (SMPS overdrive);
/// * CPU and system clocks to HSI, PLL1 off, PLL1 = HSI / 2 * 25 (800 MHz),
///   PLL1 on; IC1 = PLL1 / 1 (CPU), IC2 = PLL1 / 2 (AXI), HCLK = AXI / 2; CPU
///   clock to IC1 and system clock to IC2;
/// * PLL3 off, PLL3 = HSI / 8 * 225 / 2 (900 MHz), PLL3 on; IC11 and IC6 =
///   PLL3 / 1;
/// * the NPU master tagged CID 1, Secure, privileged; NPU clock and reset
///   pulse; AXISRAM3..6 and CACHEAXIRAM clocks; RAMCFG clock and the four
///   banks powered up; CACHEAXI clock and reset pulse; IAC clock and reset
///   pulse; the NPU subsystem kept clocked in sleep.
pub open spec fn clock_tree_steps() -> Seq<RegStep> {
    seq![
        RegStep::Update { addr: RCC_AHB4ENR, clear: 0u32, set: (1u32 << 1) | (1u32 << 4) | (1u32 << 6) },
        RegStep::Update { addr: RCC_APB2ENR, clear: 0u32, set: 1u32 << 4 },
        RegStep::Update { addr: RCC_AHB3ENR, clear: 0u32, set: (1u32 << 1) | (1u32 << 2) },
        RegStep::Update { addr: RCC_CCIPR13, clear: 0x7u32, set: 6u32 },
        RegStep::Update { addr: GPIOB_MODER, clear: 0x3u32 << 24, set: 0x1u32 << 24 },
        RegStep::Put { addr: GPIOB_BSRR, value: 1u32 << 12 },
        RegStep::Await { addr: RCC_SR, mask: 1u32 << 3, want: 1u32 << 3 },
        RegStep::Update { addr: RCC_CFGR1, clear: (0x3u32 << 16) | (0x3u32 << 24), set: 0u32 },
        RegStep::Await { addr: RCC_CFGR1, mask: 0x3u32 << 20, want: 0 },
        RegStep::Await { addr: RCC_CFGR1, mask: 0x3u32 << 28, want: 0 },
        RegStep::Put { addr: RCC_CCR, value: 1u32 << 8 },
        RegStep::Await { addr: RCC_SR, mask: 1u32 << 8, want: 0 },
        RegStep::Put { addr: RCC_PLL1CFGR3, value: 1u32 << 2 },
        RegStep::Put { addr: RCC_PLL1CFGR1, value: (2u32 << 20) | (25u32 << 8) },
        RegStep::Put { addr: RCC_PLL1CFGR2, value: 0u32 },
        RegStep::Put {
            addr: RCC_PLL1CFGR3,
            value: (1u32 << 27) | (1u32 << 24) | (1u32 << 30) | (1u32 << 2) | 1u32,
        },
        RegStep::Put { addr: RCC_CSR, value: 1u32 << 8 },
        RegStep::Await { addr: RCC_SR, mask: 1u32 << 8, want: 1u32 << 8 },
        RegStep::Put { addr: RCC_IC1CFGR, value: 0u32 },
        RegStep::Put { addr: RCC_IC2CFGR, value: 1u32 << 16 },
        RegStep::Put { addr: RCC_DIVENSR, value: 1u32 << 1 },
        RegStep::Update { addr: RCC_CFGR2, clear: (0x7u32 << 20) | (0x7u32 << 4) | 0x7u32, set: 0x1u32 << 20 },
        RegStep::Update { addr: RCC_CFGR1, clear: 0x3u32 << 16, set: 0x3u32 << 16 },
        RegStep::Await { addr: RCC_CFGR1, mask: 0x3u32 << 20, want: 0x3u32 << 20 },
        RegStep::Update { addr: RCC_CFGR1, clear: 0x3u32 << 24, set: 0x3u32 << 24 },
        RegStep::Await { addr: RCC_CFGR1, mask: 0x3u32 << 28, want: 0x3u32 << 28 },
        RegStep::Put { addr: RCC_CCR, value: 1u32 << 10 },
        RegStep::Await { addr: RCC_SR, mask: 1u32 << 10, want: 0 },
        RegStep::Put { addr: RCC_PLL3CFGR3, value: 1u32 << 2 },
        RegStep::Put { addr: RCC_PLL3CFGR1, value: (8u32 << 20) | (225u32 << 8) },
        RegStep::Put { addr: RCC_PLL3CFGR2, value: 0u32 },
        RegStep::Put {
            addr: RCC_PLL3CFGR3,
            value: (1u32 << 27) | (2u32 << 24) | (1u32 << 30) | (1u32 << 2) | 1u32,
        },
        RegStep::Put { addr: RCC_CSR, value: 1u32 << 10 },
        RegStep::Await { addr: RCC_SR, mask: 1u32 << 10, want: 1u32 << 10 },
        RegStep::Put { addr: RCC_IC11CFGR, value: 0x2u32 << 28 },
        RegStep::Put { addr: RCC_DIVENSR, value: 1u32 << 10 },
        RegStep::Put { addr: RCC_IC6CFGR, value: 0x2u32 << 28 },
        RegStep::Put { addr: RCC_DIVENSR, value: 1u32 << 5 },
        RegStep::Put { addr: RIMC_ATTR_NPU, value: (1u32 << 4) | (1u32 << 8) | (1u32 << 9) },
        RegStep::Update { addr: RCC_AHB5ENR, clear: 0u32, set: 1u32 << 31 },
        RegStep::Put { addr: RCC_AHB5RSTSR, value: 1u32 << 31 },
        RegStep::Fence,
        RegStep::Put { addr: RCC_AHB5RSTCR, value: 1u32 << 31 },
        RegStep::Fence,
        RegStep::Update { addr: RCC_MEMENR, clear: 0u32, set: 0xFu32 | (1u32 << 10) },
        RegStep::Update { addr: RCC_AHB2ENR, clear: 0u32, set: 1u32 << 12 },
        RegStep::Fence,
        RegStep::Update { addr: RAMCFG_AXISRAM3_CR, clear: 1u32 << 20, set: 0u32 },
        RegStep::Update { addr: RAMCFG_AXISRAM4_CR, clear: 1u32 << 20, set: 0u32 },
        RegStep::Update { addr: RAMCFG_AXISRAM5_CR, clear: 1u32 << 20, set: 0u32 },
        RegStep::Update { addr: RAMCFG_AXISRAM6_CR, clear: 1u32 << 20, set: 0u32 },
        RegStep::Fence,
        RegStep::Update { addr: RCC_AHB5ENR, clear: 0u32, set: 1u32 << 30 },
        RegStep::Put { addr: RCC_AHB5RSTSR, value: 1u32 << 30 },
        RegStep::Fence,
        RegStep::Put { addr: RCC_AHB5RSTCR, value: 1u32 << 30 },
        RegStep::Fence,
        RegStep::Update { addr: RCC_AHB3ENR, clear: 0u32, set: 1u32 << 10 },
        RegStep::Put { addr: RCC_AHB3RSTSR, value: 1u32 << 10 },
        RegStep::Fence,
        RegStep::Put { addr: RCC_AHB3RSTCR, value: 1u32 << 10 },
        RegStep::Fence,
        RegStep::Update { addr: RCC_AHB5LPENR, clear: 0u32, set: (1u32 << 30) | (1u32 << 31) },
        RegStep::Update { addr: RCC_MEMLPENR, clear: 0u32, set: 0xFu32 | (1u32 << 10) },
        RegStep::Update { addr: RCC_AHB2LPENR, clear: 0u32, set: 1u32 << 12 },
        RegStep::Fence,
    ]
}

/// The clock-tree program as data.
pub fn clock_tree_program() -> (p: Vec<RegStep>)
    ensures
        p@ == clock_tree_steps(),
{
    let p = vec![
        RegStep::Update { addr: RCC_AHB4ENR, clear: 0u32, set: (1u32 << 1) | (1u32 << 4) | (1u32 << 6) },
        RegStep::Update { addr: RCC_APB2ENR, clear: 0u32, set: 1u32 << 4 },
        RegStep::Update { addr: RCC_AHB3ENR, clear: 0u32, set: (1u32 << 1) | (1u32 << 2) },
        RegStep::Update { addr: RCC_CCIPR13, clear: 0x7u32, set: 6u32 },
        RegStep::Update { addr: GPIOB_MODER, clear: 0x3u32 << 24, set: 0x1u32 << 24 },
        RegStep::Put { addr: GPIOB_BSRR, value: 1u32 << 12 },
        RegStep::Await { addr: RCC_SR, mask: 1u32 << 3, want: 1u32 << 3 },
        RegStep::Update { addr: RCC_CFGR1, clear: (0x3u32 << 16) | (0x3u32 << 24), set: 0u32 },
        RegStep::Await { addr: RCC_CFGR1, mask: 0x3u32 << 20, want: 0 },
        RegStep::Await { addr: RCC_CFGR1, mask: 0x3u32 << 28, want: 0 },
        RegStep::Put { addr: RCC_CCR, value: 1u32 << 8 },
        RegStep::Await { addr: RCC_SR, mask: 1u32 << 8, want: 0 },
        RegStep::Put { addr: RCC_PLL1CFGR3, value: 1u32 << 2 },
        RegStep::Put { addr: RCC_PLL1CFGR1, value: (2u32 << 20) | (25u32 << 8) },
        RegStep::Put { addr: RCC_PLL1CFGR2, value: 0u32 },
        RegStep::Put {
            addr: RCC_PLL1CFGR3,
            value: (1u32 << 27) | (1u32 << 24) | (1u32 << 30) | (1u32 << 2) | 1u32,
        },
        RegStep::Put { addr: RCC_CSR, value: 1u32 << 8 },
        RegStep::Await { addr: RCC_SR, mask: 1u32 << 8, want: 1u32 << 8 },
        RegStep::Put { addr: RCC_IC1CFGR, value: 0u32 },
        RegStep::Put { addr: RCC_IC2CFGR, value: 1u32 << 16 },
        RegStep::Put { addr: RCC_DIVENSR, value: 1u32 << 1 },
        RegStep::Update { addr: RCC_CFGR2, clear: (0x7u32 << 20) | (0x7u32 << 4) | 0x7u32, set: 0x1u32 << 20 },
        RegStep::Update { addr: RCC_CFGR1, clear: 0x3u32 << 16, set: 0x3u32 << 16 },
        RegStep::Await { addr: RCC_CFGR1, mask: 0x3u32 << 20, want: 0x3u32 << 20 },
        RegStep::Update { addr: RCC_CFGR1, clear: 0x3u32 << 24, set: 0x3u32 << 24 },
        RegStep::Await { addr: RCC_CFGR1, mask: 0x3u32 << 28, want: 0x3u32 << 28 },
        RegStep::Put { addr: RCC_CCR, value: 1u32 << 10 },
        RegStep::Await { addr: RCC_SR, mask: 1u32 << 10, want: 0 },
        RegStep::Put { addr: RCC_PLL3CFGR3, value: 1u32 << 2 },
        RegStep::Put { addr: RCC_PLL3CFGR1, value: (8u32 << 20) | (225u32 << 8) },
        RegStep::Put { addr: RCC_PLL3CFGR2, value: 0u32 },
        RegStep::Put {
            addr: RCC_PLL3CFGR3,
            value: (1u32 << 27) | (2u32 << 24) | (1u32 << 30) | (1u32 << 2) | 1u32,
        },
        RegStep::Put { addr: RCC_CSR, value: 1u32 << 10 },
        RegStep::Await { addr: RCC_SR, mask: 1u32 << 10, want: 1u32 << 10 },
        RegStep::Put { addr: RCC_IC11CFGR, value: 0x2u32 << 28 },
        RegStep::Put { addr: RCC_DIVENSR, value: 1u32 << 10 },
        RegStep::Put { addr: RCC_IC6CFGR, value: 0x2u32 << 28 },
        RegStep::Put { addr: RCC_DIVENSR, value: 1u32 << 5 },
        RegStep::Put { addr: RIMC_ATTR_NPU, value: (1u32 << 4) | (1u32 << 8) | (1u32 << 9) },
        RegStep::Update { addr: RCC_AHB5ENR, clear: 0u32, set: 1u32 << 31 },
        RegStep::Put { addr: RCC_AHB5RSTSR, value: 1u32 << 31 },
        RegStep::Fence,
        RegStep::Put { addr: RCC_AHB5RSTCR, value: 1u32 << 31 },
        RegStep::Fence,
        RegStep::Update { addr: RCC_MEMENR, clear: 0u32, set: 0xFu32 | (1u32 << 10) },
        RegStep::Update { addr: RCC_AHB2ENR, clear: 0u32, set: 1u32 << 12 },
        RegStep::Fence,
        RegStep::Update { addr: RAMCFG_AXISRAM3_CR, clear: 1u32 << 20, set: 0u32 },
        RegStep::Update { addr: RAMCFG_AXISRAM4_CR, clear: 1u32 << 20, set: 0u32 },
        RegStep::Update { addr: RAMCFG_AXISRAM5_CR, clear: 1u32 << 20, set: 0u32 },
        RegStep::Update { addr: RAMCFG_AXISRAM6_CR, clear: 1u32 << 20, set: 0u32 },
        RegStep::Fence,
        RegStep::Update { addr: RCC_AHB5ENR, clear: 0u32, set: 1u32 << 30 },
        RegStep::Put { addr: RCC_AHB5RSTSR, value: 1u32 << 30 },
        RegStep::Fence,
        RegStep::Put { addr: RCC_AHB5RSTCR, value: 1u32 << 30 },
        RegStep::Fence,
        RegStep::Update { addr: RCC_AHB3ENR, clear: 0u32, set: 1u32 << 10 },
        RegStep::Put { addr: RCC_AHB3RSTSR, value: 1u32 << 10 },
        RegStep::Fence,
        RegStep::Put { addr: RCC_AHB3RSTCR, value: 1u32 << 10 },
        RegStep::Fence,
        RegStep::Update { addr: RCC_AHB5LPENR, clear: 0u32, set: (1u32 << 30) | (1u32 << 31) },
        RegStep::Update { addr: RCC_MEMLPENR, clear: 0u32, set: 0xFu32 | (1u32 << 10) },
        RegStep::Update { addr: RCC_AHB2LPENR, clear: 0u32, set: 1u32 << 12 },
        RegStep::Fence,
    ];
    assert(p@ =~= clock_tree_steps());
    p
}

// ---------------------------------------------------------------------------
// RIFSC.
// ---------------------------------------------------------------------------
/// The accesses opening register pair `x`: read RCFGLOCKRx; if nothing is
/// locked, write 0 to SECCFGRx and PRIVCFGRx; otherwise rewrite each of them
/// keeping only its locked bits.
pub open spec fn pair_opened(x: int, s: Seq<MmioOp>) -> bool {
    let lock = op_value(s[0]);
    let sec = (RIFSC_SECCFGR0 + 4 * x) as u32;
    let prv = (RIFSC_PRIVCFGR0 + 4 * x) as u32;
    &&& 1 <= s.len()
    &&& s[0] == (MmioOp::Read { addr: (RIFSC_RCFGLOCKR0 + 4 * x) as u32, value: lock })
    &&& if lock == 0 {
        &&& s.len() == 3
        &&& s[1] == (MmioOp::Write { addr: sec, value: 0 })
        &&& s[2] == (MmioOp::Write { addr: prv, value: 0 })
    } else {
        &&& s.len() == 5
        &&& s[1] == (MmioOp::Read { addr: sec, value: op_value(s[1]) })
        &&& s[2] == (MmioOp::Write { addr: sec, value: op_value(s[1]) & lock })
        &&& s[3] == (MmioOp::Read { addr: prv, value: op_value(s[3]) })
        &&& s[4] == (MmioOp::Write { addr: prv, value: op_value(s[3]) & lock })
    }
}

/// `d` opens register pairs `0..count` in order.
pub open spec fn pairs_opened(d: Seq<MmioOp>, count: int) -> bool
    decreases count,
{
    if count <= 0 {
        d.len() == 0
    } else {
        exists|k: int|
            #![trigger d.take(k)]
            0 <= k <= d.len() && pairs_opened(d.take(k), count - 1) && pair_opened(count - 1, d.skip(k))
    }
}

/// The record of `rifsc_unlock`: read RISC_CR; when GLOCK is clear, open the
/// six register pairs; when it is set, nothing more.
pub open spec fn rifsc_opened(d: Seq<MmioOp>) -> bool {
    &&& 1 <= d.len()
    &&& d[0] == (MmioOp::Read { addr: RIFSC_BASE, value: op_value(d[0]) })
    &&& if op_value(d[0]) & 1 == 0 {
        pairs_opened(d.skip(1), RIFSC_PAIRS as int)
    } else {
        d.len() == 1
    }
}

/// Open every peripheral to Non-Secure and unprivileged access, as far as the
/// boot ROM's locks allow: nothing when the RIFSC is globally locked; bits
/// locked in RCFGLOCKRx keep their value.
pub fn rifsc_unlock<M: MmioAccess>(bus: &mut M)
    requires
        old(bus).base() == 0,
    ensures
        final(bus).base() == 0,
        final(bus).is_storage() == old(bus).is_storage(),
        extends(final(bus).ops(), old(bus).ops()),
        rifsc_opened(final(bus).ops().skip(old(bus).ops().len() as int)),
{
    let ghost n = old(bus).ops().len() as int;
    let glock = rd(bus, RIFSC_BASE);
    proof {
        assert(0u32.wrapping_add(RIFSC_BASE) == RIFSC_BASE);
    }
    if glock & 1 == 0 {
        let ghost m = bus.ops().len() as int;
        let mut x: u32 = 0;
        proof {
            assert(bus.ops().skip(m) =~= Seq::<MmioOp>::empty());
        }
        while x < RIFSC_PAIRS
            invariant
                x <= RIFSC_PAIRS,
                bus.base() == 0,
                bus.is_storage() == old(bus).is_storage(),
                n == old(bus).ops().len(),
                m == n + 1,
                extends(bus.ops(), old(bus).ops()),
                bus.ops().len() >= m,
                bus.ops()[n] == (MmioOp::Read { addr: RIFSC_BASE, value: glock }),
                pairs_opened(bus.ops().skip(m), x as int),
            decreases RIFSC_PAIRS - x,
        {
            let ghost before = bus.ops();
            let off = x * 4;
            let lock_addr = RIFSC_RCFGLOCKR0 + off;
            let sec_addr = RIFSC_SECCFGR0 + off;
            let prv_addr = RIFSC_PRIVCFGR0 + off;
            let lock = rd(bus, lock_addr);
            if lock == 0 {
                wr(bus, sec_addr, 0);
                wr(bus, prv_addr, 0);
                assert(extends(bus.ops(), before));
            } else {
                let sec = rd(bus, sec_addr);
                wr(bus, sec_addr, sec & lock);
                let prv = rd(bus, prv_addr);
                wr(bus, prv_addr, prv & lock);
                assert(extends(bus.ops(), before));
            }
            proof {
                assert(0u32.wrapping_add(lock_addr) == lock_addr);
                assert(0u32.wrapping_add(sec_addr) == sec_addr);
                assert(0u32.wrapping_add(prv_addr) == prv_addr);
                let d = bus.ops().skip(m);
                let k = before.len() - m;
                assert(d.take(k) =~= before.skip(m));
                assert(d.skip(k) =~= bus.ops().skip(before.len() as int));
                assert(pair_opened(x as int, d.skip(k)));
                assert(pairs_opened(d.take(k), x as int));
            }
            x += 1;
        }
        proof {
            assert(bus.ops().skip(n).skip(1) =~= bus.ops().skip(m));
        }
    } else {
        proof {
            assert(bus.ops().skip(n).len() == 1);
        }
    }
}

/// Make RISUP 106 (the NPU configuration port) Secure-only: set its bit in
/// RIFSC_SECCFGR3 and read the register back. With the port left open to the
/// Non-Secure world the NPU's own bus accesses would be forced Non-Secure.
/// `MemProtectDenied` at SECCFGR3 when the read-back shows the bit clear
/// (the boot ROM locked it).
pub fn resecure_npu_risup<M: MmioAccess>(bus: &mut M) -> (r: Result<(), UmbraError>)
    requires
        old(bus).base() == 0,
    ensures
        final(bus).base() == 0,
        final(bus).is_storage() == old(bus).is_storage(),
        extends(final(bus).ops(), old(bus).ops()),
        npu_resecured(final(bus).ops().skip(old(bus).ops().len() as int), r),
{
    let ghost n = old(bus).ops().len() as int;
    let v = rd(bus, RIFSC_SECCFGR3);
    wr(bus, RIFSC_SECCFGR3, v | NPU_RISUP_BIT);
    let back = rd(bus, RIFSC_SECCFGR3);
    proof {
        assert(0u32.wrapping_add(RIFSC_SECCFGR3) == RIFSC_SECCFGR3);
        let d = bus.ops().skip(n);
        assert(d.len() == 3);
        assert(d[0] == MmioOp::Read { addr: RIFSC_SECCFGR3, value: v });
        assert(d[2] == MmioOp::Read { addr: RIFSC_SECCFGR3, value: back });
    }
    if back & NPU_RISUP_BIT == 0 {
        Err(UmbraError::MemProtectDenied { addr: RIFSC_SECCFGR3 })
    } else {
        Ok(())
    }
}

/// The record of `resecure_npu_risup` and what it returns: read SECCFGR3,
/// write it back with bit 10 set, read it again; refused exactly when the
/// second read shows bit 10 clear.
pub open spec fn npu_resecured(d: Seq<MmioOp>, r: Result<(), UmbraError>) -> bool {
    &&& npu_port_accesses(d)
    &&& r == if op_value(d[2]) & NPU_RISUP_BIT == 0 {
        Err(UmbraError::MemProtectDenied { addr: RIFSC_SECCFGR3 })
    } else {
        Ok(())
    }
}

/// The accesses of the NPU port re-secure: read SECCFGR3, write it back with
/// bit 10 set, read it again.
pub open spec fn npu_port_accesses(d: Seq<MmioOp>) -> bool {
    &&& d.len() == 3
    &&& d[0] == (MmioOp::Read { addr: RIFSC_SECCFGR3, value: op_value(d[0]) })
    &&& d[1] == (MmioOp::Write { addr: RIFSC_SECCFGR3, value: op_value(d[0]) | NPU_RISUP_BIT })
    &&& d[2] == (MmioOp::Read { addr: RIFSC_SECCFGR3, value: op_value(d[2]) })
}

// ---------------------------------------------------------------------------
// Caches.
// ---------------------------------------------------------------------------
/// MEMSYSCTL_MSCR: ICACTIVE is bit 13, DCACTIVE bit 12.
pub const MEMSYSCTL_MSCR: u32 = 0xE001_E000;
/// SCB configuration and control: DC is bit 16, IC bit 17.
pub const SCB_CCR: u32 = 0xE000_ED14;
/// Cache size identification of the selected cache.
pub const SCB_CCSIDR: u32 = 0xE000_ED80;
/// Cache size selection.
pub const SCB_CSSELR: u32 = 0xE000_ED84;
/// Instruction-cache invalidate-all.
pub const SCB_ICIALLU: u32 = 0xE000_EF50;
/// Data-cache invalidate by set and way.
pub const SCB_DCISW: u32 = 0xE000_EF60;

/// Power the instruction cache, invalidate and enable it, power the data
/// cache and select it for the geometry read. The power bits in MSCR must be
/// set before the SCB enables, or those are ignored.
pub open spec fn cache_power_steps() -> Seq<RegStep> {
    seq![
        RegStep::Update { addr: MEMSYSCTL_MSCR, clear: 0u32, set: 1u32 << 13u32 },
        RegStep::Fence,
        RegStep::Put { addr: SCB_ICIALLU, value: 0u32 },
        RegStep::Fence,
        RegStep::Update { addr: SCB_CCR, clear: 0u32, set: 1u32 << 17u32 },
        RegStep::Fence,
        RegStep::Update { addr: MEMSYSCTL_MSCR, clear: 0u32, set: 1u32 << 12u32 },
        RegStep::Fence,
        RegStep::Put { addr: SCB_CSSELR, value: 0u32 },
        RegStep::Fence,
    ]
}

fn cache_power_program() -> (p: Vec<RegStep>)
    ensures
        p@ == cache_power_steps(),
        no_waits(p@),
{
    let p = vec![
        RegStep::Update { addr: MEMSYSCTL_MSCR, clear: 0, set: 1 << 13 },
        RegStep::Fence,
        RegStep::Put { addr: SCB_ICIALLU, value: 0 },
        RegStep::Fence,
        RegStep::Update { addr: SCB_CCR, clear: 0, set: 1 << 17 },
        RegStep::Fence,
        RegStep::Update { addr: MEMSYSCTL_MSCR, clear: 0, set: 1 << 12 },
        RegStep::Fence,
        RegStep::Put { addr: SCB_CSSELR, value: 0 },
        RegStep::Fence,
    ];
    assert(p@ =~= cache_power_steps());
    p
}

/// Enable the (invalidated) data cache.
pub open spec fn dcache_on_steps() -> Seq<RegStep> {
    seq![
        RegStep::Fence,
        RegStep::Update { addr: SCB_CCR, clear: 0u32, set: 1u32 << 16u32 },
        RegStep::Fence,
    ]
}

fn dcache_on_program() -> (p: Vec<RegStep>)
    ensures
        p@ == dcache_on_steps(),
        no_waits(p@),
{
    let p = vec![RegStep::Fence, RegStep::Update { addr: SCB_CCR, clear: 0, set: 1 << 16 }, RegStep::Fence];
    assert(p@ =~= dcache_on_steps());
    p
}

/// The DCISW operand for one line: way in bits 31:30, set from bit 5.
pub open spec fn dcisw_word(set: u32, way: u32) -> u32 {
    (way << 30u32) | (set << 5u32)
}

/// The operands for the ways `way` down to 0 of one set.
pub open spec fn way_sweep(set: u32, way: u32) -> Seq<u32>
    decreases way,
{
    seq![dcisw_word(set, way)] + if way == 0 {
        Seq::<u32>::empty()
    } else {
        way_sweep(set, (way - 1) as u32)
    }
}

/// The operands for the sets `set` down to 0, each over ways `assoc` down
/// to 0.
pub open spec fn set_sweep(set: u32, assoc: u32) -> Seq<u32>
    decreases set,
{
    way_sweep(set, assoc) + if set == 0 {
        Seq::<u32>::empty()
    } else {
        set_sweep((set - 1) as u32, assoc)
    }
}

/// What follows the ways of `set` in a sweep.
pub open spec fn sets_below(set: u32, assoc: u32) -> Seq<u32> {
    if set == 0 {
        Seq::<u32>::empty()
    } else {
        set_sweep((set - 1) as u32, assoc)
    }
}

/// `s` is one write of each of `values` to `addr`, in order.
pub open spec fn writes_to(s: Seq<MmioOp>, addr: u32, values: Seq<u32>) -> bool {
    &&& s.len() == values.len()
    &&& forall|i: int| 0 <= i < s.len() ==> #[trigger] s[i] == (MmioOp::Write { addr, value: values[i] })
}

/// Invalidate the data cache line by line, sets `numsets` down to 0 and in
/// each the ways `assoc` down to 0.
pub fn dcache_invalidate_all<M: MmioAccess>(bus: &mut M, numsets: u32, assoc: u32)
    requires
        old(bus).base() == 0,
    ensures
        final(bus).base() == 0,
        final(bus).is_storage() == old(bus).is_storage(),
        extends(final(bus).ops(), old(bus).ops()),
        writes_to(final(bus).ops().skip(old(bus).ops().len() as int), SCB_DCISW, set_sweep(numsets, assoc)),
{
    let ghost n = old(bus).ops().len() as int;
    let ghost full = set_sweep(numsets, assoc);
    let ghost mut done: Seq<u32> = Seq::empty();
    let mut set = numsets;
    proof {
        assert(done + set_sweep(set, assoc) =~= full);
    }
    loop
        invariant_except_break
            done + set_sweep(set, assoc) == full,
        invariant
            bus.base() == 0,
            bus.is_storage() == old(bus).is_storage(),
            n == old(bus).ops().len(),
            full == set_sweep(numsets, assoc),
            extends(bus.ops(), old(bus).ops()),
            writes_to(bus.ops().skip(n), SCB_DCISW, done),
        ensures
            done == full,
        decreases set,
    {
        let mut way = assoc;
        proof {
            assert(done + way_sweep(set, way) + sets_below(set, assoc) =~= full);
        }
        loop
            invariant_except_break
                done + way_sweep(set, way) + sets_below(set, assoc) == full,
            invariant
                bus.base() == 0,
                bus.is_storage() == old(bus).is_storage(),
                n == old(bus).ops().len(),
                full == set_sweep(numsets, assoc),
                extends(bus.ops(), old(bus).ops()),
                writes_to(bus.ops().skip(n), SCB_DCISW, done),
            ensures
                done + sets_below(set, assoc) == full,
            decreases way,
        {
            let ghost before = bus.ops();
            let word = (way << 30) | (set << 5);
            wr(bus, SCB_DCISW, word);
            proof {
                assert(0u32.wrapping_add(SCB_DCISW) == SCB_DCISW);
                let rest = if way == 0 {
                    Seq::<u32>::empty()
                } else {
                    way_sweep(set, (way - 1) as u32)
                };
                assert(way_sweep(set, way) == seq![dcisw_word(set, way)] + rest);
                assert(done.push(word) + rest + sets_below(set, assoc) =~= done + way_sweep(set, way)
                    + sets_below(set, assoc));
                assert(bus.ops().skip(n) =~= before.skip(n).push(MmioOp::Write { addr: SCB_DCISW, value: word }));
                done = done.push(word);
            }
            if way == 0 {
                proof {
                    assert(done + Seq::<u32>::empty() =~= done);
                }
                break;
            }
            way -= 1;
        }
        if set == 0 {
            proof {
                assert(done + Seq::<u32>::empty() =~= done);
            }
            break;
        }
        set -= 1;
    }
}

/// The record of `enable_caches`: the power program, the read of the data
/// cache geometry, one invalidation per line (NUMSETS in CCSIDR bits 27:13,
/// ASSOCIATIVITY in bits 12:3, both one less than the count), then the
/// enable program.
pub open spec fn caches_enabled(d: Seq<MmioOp>) -> bool {
    exists|a: int, b: int|
        #![trigger d.take(a), d.skip(b)]
        0 <= a && a + 1 <= b <= d.len() && {
            let geom = op_value(d[a]);
            &&& ran(cache_power_steps(), d.take(a))
            &&& d[a] == (MmioOp::Read { addr: SCB_CCSIDR, value: geom })
            &&& writes_to(
                d.subrange(a + 1, b),
                SCB_DCISW,
                set_sweep((geom >> 13u32) & 0x7FFFu32, (geom >> 3u32) & 0x3FFu32),
            )
            &&& ran(dcache_on_steps(), d.skip(b))
        }
}

/// Power, invalidate and enable the instruction and data caches of the M55.
pub fn enable_caches<M: MmioAccess>(bus: &mut M)
    requires
        old(bus).base() == 0,
    ensures
        final(bus).base() == 0,
        final(bus).is_storage() == old(bus).is_storage(),
        extends(final(bus).ops(), old(bus).ops()),
        caches_enabled(final(bus).ops().skip(old(bus).ops().len() as int)),
{
    let ghost n = old(bus).ops().len() as int;
    let power = cache_power_program();
    let _ = run_program(bus, power.as_slice());
    let ghost o1 = bus.ops();
    let geom = rd(bus, SCB_CCSIDR);
    let numsets = (geom >> 13) & 0x7FFF;
    let assoc = (geom >> 3) & 0x3FF;
    dcache_invalidate_all(bus, numsets, assoc);
    let ghost o2 = bus.ops();
    let on = dcache_on_program();
    let _ = run_program(bus, on.as_slice());
    proof {
        assert(0u32.wrapping_add(SCB_CCSIDR) == SCB_CCSIDR);
        let d = bus.ops().skip(n);
        let a = o1.len() - n;
        let b = o2.len() - n;
        assert(d.take(a) =~= o1.skip(n));
        assert(d[a] == MmioOp::Read { addr: SCB_CCSIDR, value: geom });
        assert(d.subrange(a + 1, b) =~= o2.skip((o1.len() + 1) as int));
        assert(d.skip(b) =~= bus.ops().skip(o2.len() as int));
    }
}

// ---------------------------------------------------------------------------
// The whole clock bring-up.
// ---------------------------------------------------------------------------
/// How the clock bring-up ended.
#[derive(Clone, Copy, Debug, PartialEq, Eq)]
pub enum ClockOutcome {
    /// Every step was done. `npu_port` is what the NPU port re-secure
    /// returned (`MemProtectDenied` when the boot ROM had locked it; the
    /// bring-up goes on without it).
    Done { npu_port: Result<(), UmbraError> },
    /// Step `step` of the clock-tree program waited in vain for its status
    /// bits; nothing after it was done.
    Stuck { step: usize },
}

/// The record of `init_clocks` and its outcome: the RIFSC opening, the NPU
/// port re-secure, then the clock-tree program; run to its end, the cache
/// bring-up follows; stuck, nothing follows.
pub open spec fn clocks_brought_up(d: Seq<MmioOp>, out: ClockOutcome) -> bool {
    exists|a: int|
        #![trigger d.take(a)]
        0 <= a && a + 3 <= d.len() && {
            &&& rifsc_opened(d.take(a))
            &&& match out {
                ClockOutcome::Done { npu_port } => {
                    &&& npu_resecured(d.subrange(a, a + 3), npu_port)
                    &&& exists|b: int|
                        #![trigger d.skip(b)]
                        a + 3 <= b <= d.len() && ran(clock_tree_steps(), d.subrange(a + 3, b))
                            && caches_enabled(d.skip(b))
                },
                ClockOutcome::Stuck { step } => {
                    &&& npu_port_accesses(d.subrange(a, a + 3))
                    &&& stuck_at(clock_tree_steps(), step as int, d.skip(a + 3))
                },
            }
        }
}

/// Bring the clocks up: open the RIFSC, make the NPU port Secure-only, run
/// the clock-tree program, then power, invalidate and enable the caches.
/// A wait that never ends stops the bring-up with `Stuck`.
pub fn init_clocks<M: MmioAccess>(bus: &mut M) -> (out: ClockOutcome)
    requires
        old(bus).base() == 0,
    ensures
        final(bus).base() == 0,
        final(bus).is_storage() == old(bus).is_storage(),
        extends(final(bus).ops(), old(bus).ops()),
        clocks_brought_up(final(bus).ops().skip(old(bus).ops().len() as int), out),
{
    let ghost n = old(bus).ops().len() as int;
    rifsc_unlock(bus);
    let ghost o1 = bus.ops();
    let npu_port = resecure_npu_risup(bus);
    let ghost o2 = bus.ops();
    let prog = clock_tree_program();
    let r = run_program(bus, prog.as_slice());
    let ghost o3 = bus.ops();
    proof {
        let d = bus.ops().skip(n);
        let a = o1.len() - n;
        assert(d.take(a) =~= o1.skip(n));
        assert(d.subrange(a, a + 3) =~= o2.skip(o1.len() as int));
        assert(d.skip(a + 3).take(o3.len() - o2.len()) =~= o3.skip(o2.len() as int));
    }
    match r {
        Err(step) => {
            proof {
                let d = bus.ops().skip(n);
                let a = o1.len() - n;
                assert(d.skip(a + 3) =~= o3.skip(o2.len() as int));
                assert(npu_resecured(d.subrange(a, a + 3), npu_port));
                assert(d.take(a) =~= o1.skip(n));
            }
            ClockOutcome::Stuck { step }
        },
        Ok(()) => {
            enable_caches(bus);
            proof {
                let d = bus.ops().skip(n);
                let a = o1.len() - n;
                let b = o3.len() - n;
                assert(d.take(a) =~= o1.skip(n));
                assert(d.subrange(a, a + 3) =~= o2.skip(o1.len() as int));
                assert(d.subrange(a + 3, b) =~= o3.skip(o2.len() as int));
                assert(d.skip(b) =~= bus.ops().skip(o3.len() as int));
            }
            ClockOutcome::Done { npu_port }
        },
    }
}

// ---------------------------------------------------------------------------
// External flash on XSPI2.
// ---------------------------------------------------------------------------
/// Independent watchdog key register and its refresh key.
pub const IWDG_KR: u32 = 0x5600_4800;
pub const IWDG_REFRESH: u32 = 0xAAAA;
/// Reset bits of XSPIM (13), XSPI2 (12) and XSPI1 (5) in AHB5RSTSR/CR.
pub const XSPI_RESET_BITS: u32 = (1 << 13) | (1 << 12) | (1 << 5);
/// PWR supply voltage monitoring of VDDIO3 (VDDIO3RDY is bit 17).
pub const PWR_SVMCR3: u32 = 0x5602_483C;
/// SYSCFG compensation cell of VDDIO3.
pub const SYSCFG_VDDIO3CCCR: u32 = 0x5600_805C;
/// GPION: the XSPI port 2 pins.
pub const GPION_MODER: u32 = 0x5602_3400;
pub const GPION_OSPEEDR: u32 = 0x5602_3408;
pub const GPION_AFRL: u32 = 0x5602_3420;
pub const GPION_AFRH: u32 = 0x5602_3424;
/// The two-bit fields of pins 1, 2, 3, 4, 5, 6, 8, 9, 10 and 11 (MODER and
/// OSPEEDR: all ones there is "very high speed").
pub const PORTN_PINS_2BIT: u32 = 0x00FF_3FFC;
/// Alternate-function mode (0b10) in the same fields.
pub const PORTN_PINS_AF_MODE: u32 = 0x00AA_2AA8;
/// AFRL fields of pins 1..6, and AF9 in each.
pub const PORTN_AFRL_MASK: u32 = 0x0FFF_FFF0;
pub const PORTN_AFRL_AF9: u32 = 0x0999_9990;
/// AFRH fields of pins 8..11, and AF9 in each.
pub const PORTN_AFRH_MASK: u32 = 0x0000_FFFF;
pub const PORTN_AFRH_AF9: u32 = 0x0000_9999;
/// XSPIM control.
pub const XSPIM_CR: u32 = 0x5802_B400;
/// XSPI2 registers.
pub const XSPI2_CR: u32 = 0x5802_A000;
pub const XSPI2_DCR1: u32 = 0x5802_A008;
pub const XSPI2_DCR2: u32 = 0x5802_A00C;
pub const XSPI2_SR: u32 = 0x5802_A024;
pub const XSPI2_FCR: u32 = 0x5802_A028;
pub const XSPI2_DLR: u32 = 0x5802_A040;
pub const XSPI2_DR: u32 = 0x5802_A050;
pub const XSPI2_CCR: u32 = 0x5802_A100;
pub const XSPI2_TCR: u32 = 0x5802_A108;
pub const XSPI2_IR: u32 = 0x5802_A110;
/// Status: transfer complete.
pub const XSPI2_SR_TCF: u32 = 2;
/// First word of the memory-mapped flash window.
pub const XSPI2_WINDOW: u32 = 0x7000_0000;
/// Region 1 configuration of MCE2.
pub const MCE2_REGCR1: u32 = MCE2_BASE + REGCR1_OFFSET;

/// Up to the flash ID read: reset XSPI1, XSPI2 and XSPIM; their clocks
/// (XSPIM and XSPI1 first, then XSPI2 and MCE2); IC3 = PLL1 / 16 as the XSPI2
/// kernel clock; VDDIO3 supply and its compensation cell; port N pins 1..6
/// and 8..11 on AF9 at very high speed; XSPIM direct mode; XSPI2 device
/// configuration and enable; the flash reset commands 0x66 and 0x99; the
/// READ_ID command 0x9F and the wait for its completion. The watchdog is
/// refreshed along the way; every wait here gives up after its budget and
/// the bring-up goes on.
pub open spec fn flash_setup_steps() -> Seq<RegStep> {
    seq![
        RegStep::Put { addr: RCC_AHB5RSTSR, value: XSPI_RESET_BITS },
        RegStep::Pause { count: 1_000u32 },
        RegStep::Put { addr: RCC_AHB5RSTCR, value: XSPI_RESET_BITS },
        RegStep::Pause { count: 1_000u32 },
        RegStep::Put { addr: IWDG_KR, value: IWDG_REFRESH },
        RegStep::Update { addr: RCC_AHB5ENR, clear: 0u32, set: (1u32 << 13u32) | (1u32 << 5u32) },
        RegStep::Update { addr: RCC_AHB5ENR, clear: 0u32, set: (1u32 << 12u32) | (1u32 << 15u32) },
        RegStep::Put { addr: RCC_IC3CFGR, value: 15u32 << 16u32 },
        RegStep::Put { addr: RCC_DIVENSR, value: 1u32 << 2u32 },
        RegStep::Pause { count: 1_000u32 },
        RegStep::Update { addr: RCC_CCIPR6, clear: 0x3u32 << 4u32, set: 0x2u32 << 4u32 },
        RegStep::Update { addr: PWR_SVMCR3, clear: 0u32, set: (1u32 << 9u32) | (1u32 << 1u32) | (1u32 << 26u32) },
        RegStep::AwaitUpTo { addr: PWR_SVMCR3, mask: 1u32 << 17u32, want: 1u32 << 17u32, limit: 100_000u32 },
        RegStep::Put { addr: SYSCFG_VDDIO3CCCR, value: (0x7u32 << 4u32) | (0x8u32 << 8u32) | (1u32 << 1u32) },
        RegStep::Put { addr: IWDG_KR, value: IWDG_REFRESH },
        RegStep::Update { addr: RCC_AHB4ENR, clear: 0u32, set: 1u32 << 13u32 },
        RegStep::Update { addr: GPION_MODER, clear: PORTN_PINS_2BIT, set: PORTN_PINS_AF_MODE },
        RegStep::Update { addr: GPION_OSPEEDR, clear: 0u32, set: PORTN_PINS_2BIT },
        RegStep::Update { addr: GPION_AFRL, clear: PORTN_AFRL_MASK, set: PORTN_AFRL_AF9 },
        RegStep::Update { addr: GPION_AFRH, clear: PORTN_AFRH_MASK, set: PORTN_AFRH_AF9 },
        RegStep::Put { addr: IWDG_KR, value: IWDG_REFRESH },
        RegStep::Put { addr: XSPIM_CR, value: (1u32 << 16u32) | (1u32 << 4u32) },
        RegStep::Put { addr: XSPI2_DCR1, value: (1u32 << 24u32) | (25u32 << 16u32) | (1u32 << 8u32) },
        RegStep::Put { addr: XSPI2_DCR2, value: 4u32 },
        RegStep::AwaitUpTo { addr: XSPI2_SR, mask: 1u32 << 5u32, want: 0u32, limit: 100_000u32 },
        RegStep::Put { addr: XSPI2_CR, value: 1u32 },
        RegStep::Fence,
        RegStep::Pause { count: 5_000u32 },
        RegStep::Put { addr: XSPI2_CCR, value: 1u32 },
        RegStep::Put { addr: XSPI2_TCR, value: 0u32 },
        RegStep::Put { addr: XSPI2_IR, value: 0x66u32 },
        RegStep::AwaitUpTo { addr: XSPI2_SR, mask: 2u32, want: 2u32, limit: 100_000u32 },
        RegStep::Put { addr: XSPI2_FCR, value: 2u32 },
        RegStep::Put { addr: XSPI2_IR, value: 0x99u32 },
        RegStep::AwaitUpTo { addr: XSPI2_SR, mask: 2u32, want: 2u32, limit: 100_000u32 },
        RegStep::Put { addr: XSPI2_FCR, value: 2u32 },
        RegStep::Pause { count: 50_000u32 },
        RegStep::Put { addr: IWDG_KR, value: IWDG_REFRESH },
        RegStep::Put { addr: XSPI2_CR, value: (1u32 << 28u32) | 1u32 },
        RegStep::Fence,
        RegStep::Put { addr: XSPI2_DLR, value: 2u32 },
        RegStep::Put { addr: XSPI2_TCR, value: 1u32 << 30u32 },
        RegStep::Put { addr: XSPI2_CCR, value: (1u32 << 24u32) | 1u32 },
        RegStep::Fence,
        RegStep::Put { addr: XSPI2_IR, value: 0x9Fu32 },
        RegStep::AwaitUpTo { addr: XSPI2_SR, mask: 2u32, want: 2u32, limit: 200_000u32 },
    ]
}

fn flash_setup_program() -> (p: Vec<RegStep>)
    ensures
        p@ == flash_setup_steps(),
        no_waits(p@),
{
    let p = vec![
        RegStep::Put { addr: RCC_AHB5RSTSR, value: XSPI_RESET_BITS },
        RegStep::Pause { count: 1_000 },
        RegStep::Put { addr: RCC_AHB5RSTCR, value: XSPI_RESET_BITS },
        RegStep::Pause { count: 1_000 },
        RegStep::Put { addr: IWDG_KR, value: IWDG_REFRESH },
        RegStep::Update { addr: RCC_AHB5ENR, clear: 0, set: (1 << 13) | (1 << 5) },
        RegStep::Update { addr: RCC_AHB5ENR, clear: 0, set: (1 << 12) | (1 << 15) },
        RegStep::Put { addr: RCC_IC3CFGR, value: 15 << 16 },
        RegStep::Put { addr: RCC_DIVENSR, value: 1 << 2 },
        RegStep::Pause { count: 1_000 },
        RegStep::Update { addr: RCC_CCIPR6, clear: 0x3 << 4, set: 0x2 << 4 },
        RegStep::Update { addr: PWR_SVMCR3, clear: 0, set: (1 << 9) | (1 << 1) | (1 << 26) },
        RegStep::AwaitUpTo { addr: PWR_SVMCR3, mask: 1 << 17, want: 1 << 17, limit: 100_000 },
        RegStep::Put { addr: SYSCFG_VDDIO3CCCR, value: (0x7 << 4) | (0x8 << 8) | (1 << 1) },
        RegStep::Put { addr: IWDG_KR, value: IWDG_REFRESH },
        RegStep::Update { addr: RCC_AHB4ENR, clear: 0, set: 1 << 13 },
        RegStep::Update { addr: GPION_MODER, clear: PORTN_PINS_2BIT, set: PORTN_PINS_AF_MODE },
        RegStep::Update { addr: GPION_OSPEEDR, clear: 0, set: PORTN_PINS_2BIT },
        RegStep::Update { addr: GPION_AFRL, clear: PORTN_AFRL_MASK, set: PORTN_AFRL_AF9 },
        RegStep::Update { addr: GPION_AFRH, clear: PORTN_AFRH_MASK, set: PORTN_AFRH_AF9 },
        RegStep::Put { addr: IWDG_KR, value: IWDG_REFRESH },
        RegStep::Put { addr: XSPIM_CR, value: (1 << 16) | (1 << 4) },
        RegStep::Put { addr: XSPI2_DCR1, value: (1 << 24) | (25 << 16) | (1 << 8) },
        RegStep::Put { addr: XSPI2_DCR2, value: 4 },
        RegStep::AwaitUpTo { addr: XSPI2_SR, mask: 1 << 5, want: 0, limit: 100_000 },
        RegStep::Put { addr: XSPI2_CR, value: 1 },
        RegStep::Fence,
        RegStep::Pause { count: 5_000 },
        RegStep::Put { addr: XSPI2_CCR, value: 1 },
        RegStep::Put { addr: XSPI2_TCR, value: 0 },
        RegStep::Put { addr: XSPI2_IR, value: 0x66 },
        RegStep::AwaitUpTo { addr: XSPI2_SR, mask: 2, want: 2, limit: 100_000 },
        RegStep::Put { addr: XSPI2_FCR, value: 2 },
        RegStep::Put { addr: XSPI2_IR, value: 0x99 },
        RegStep::AwaitUpTo { addr: XSPI2_SR, mask: 2, want: 2, limit: 100_000 },
        RegStep::Put { addr: XSPI2_FCR, value: 2 },
        RegStep::Pause { count: 50_000 },
        RegStep::Put { addr: IWDG_KR, value: IWDG_REFRESH },
        RegStep::Put { addr: XSPI2_CR, value: (1 << 28) | 1 },
        RegStep::Fence,
        RegStep::Put { addr: XSPI2_DLR, value: 2 },
        RegStep::Put { addr: XSPI2_TCR, value: 1 << 30 },
        RegStep::Put { addr: XSPI2_CCR, value: (1 << 24) | 1 },
        RegStep::Fence,
        RegStep::Put { addr: XSPI2_IR, value: 0x9F },
        RegStep::AwaitUpTo { addr: XSPI2_SR, mask: 2, want: 2, limit: 200_000 },
    ];
    assert(p@ =~= flash_setup_steps());
    p
}

/// After the flash ID: abort, then memory-mapped mode with the 4-byte fast
/// read (0x0C, 8 dummy cycles); one read of the window; watchdog refresh;
/// MCE2 region 1 disabled so that the window reads plain bytes.
pub open spec fn flash_map_steps() -> Seq<RegStep> {
    seq![
        RegStep::Update { addr: XSPI2_CR, clear: 0u32, set: 1u32 << 1u32 },
        RegStep::AwaitUpTo { addr: XSPI2_CR, mask: 1u32 << 1u32, want: 0u32, limit: 10_000u32 },
        RegStep::Put { addr: XSPI2_CR, value: 0u32 },
        RegStep::Put { addr: XSPI2_CCR, value: (1u32 << 24u32) | (0x3u32 << 12u32) | (1u32 << 8u32) | 1u32 },
        RegStep::Put { addr: XSPI2_TCR, value: 8u32 | (1u32 << 30u32) },
        RegStep::Put { addr: XSPI2_IR, value: 0x0Cu32 },
        RegStep::Put { addr: XSPI2_CR, value: (0x3u32 << 28u32) | 1u32 },
        RegStep::Pause { count: 10_000u32 },
        RegStep::Touch { addr: XSPI2_WINDOW },
        RegStep::Put { addr: IWDG_KR, value: IWDG_REFRESH },
        RegStep::Update { addr: MCE2_REGCR1, clear: REGCR_BREN, set: 0u32 },
    ]
}

fn flash_map_program() -> (p: Vec<RegStep>)
    ensures
        p@ == flash_map_steps(),
        no_waits(p@),
{
    let p = vec![
        RegStep::Update { addr: XSPI2_CR, clear: 0, set: 1 << 1 },
        RegStep::AwaitUpTo { addr: XSPI2_CR, mask: 1 << 1, want: 0, limit: 10_000 },
        RegStep::Put { addr: XSPI2_CR, value: 0 },
        RegStep::Put { addr: XSPI2_CCR, value: (1 << 24) | (0x3 << 12) | (1 << 8) | 1 },
        RegStep::Put { addr: XSPI2_TCR, value: 8 | (1 << 30) },
        RegStep::Put { addr: XSPI2_IR, value: 0x0C },
        RegStep::Put { addr: XSPI2_CR, value: (0x3 << 28) | 1 },
        RegStep::Pause { count: 10_000 },
        RegStep::Touch { addr: XSPI2_WINDOW },
        RegStep::Put { addr: IWDG_KR, value: IWDG_REFRESH },
        RegStep::Update { addr: MCE2_REGCR1, clear: REGCR_BREN, set: 0 },
    ];
    assert(p@ =~= flash_map_steps());
    p
}

/// The accesses of the flash ID collection: read the status; when the
/// transfer completed, read (and drop) the ID and clear the flag.
pub open spec fn flash_id_collected(s: Seq<MmioOp>) -> bool {
    let sr = op_value(s[0]);
    &&& 1 <= s.len()
    &&& s[0] == (MmioOp::Read { addr: XSPI2_SR, value: sr })
    &&& if sr & XSPI2_SR_TCF != 0 {
        &&& s.len() == 3
        &&& s[1] == (MmioOp::Read { addr: XSPI2_DR, value: op_value(s[1]) })
        &&& s[2] == (MmioOp::Write { addr: XSPI2_FCR, value: XSPI2_SR_TCF })
    } else {
        s.len() == 1
    }
}

/// The record of `init_external_flash`: the setup program, the ID
/// collection, the mapping program.
pub open spec fn flash_brought_up(d: Seq<MmioOp>) -> bool {
    exists|a: int, b: int|
        #![trigger d.take(a), d.skip(b)]
        0 <= a <= b <= d.len() && ran(flash_setup_steps(), d.take(a)) && flash_id_collected(
            d.subrange(a, b),
        ) && ran(flash_map_steps(), d.skip(b))
}

/// Bring the external NOR flash up behind XSPI2 in memory-mapped mode, with
/// MCE2 in pass-through. A failed ID read is not an error: the mapped window
/// is what later reads depend on. Always `true`.
pub fn init_external_flash<M: MmioAccess>(bus: &mut M) -> (ok: bool)
    requires
        old(bus).base() == 0,
    ensures
        ok,
        final(bus).base() == 0,
        final(bus).is_storage() == old(bus).is_storage(),
        extends(final(bus).ops(), old(bus).ops()),
        flash_brought_up(final(bus).ops().skip(old(bus).ops().len() as int)),
{
    let ghost n = old(bus).ops().len() as int;
    let setup = flash_setup_program();
    let _ = run_program(bus, setup.as_slice());
    let ghost o1 = bus.ops();
    let sr = rd(bus, XSPI2_SR);
    if sr & XSPI2_SR_TCF != 0 {
        let _id = rd(bus, XSPI2_DR);
        wr(bus, XSPI2_FCR, XSPI2_SR_TCF);
    }
    let ghost o2 = bus.ops();
    let map = flash_map_program();
    let _ = run_program(bus, map.as_slice());
    proof {
        assert(0u32.wrapping_add(XSPI2_SR) == XSPI2_SR);
        assert(0u32.wrapping_add(XSPI2_DR) == XSPI2_DR);
        assert(0u32.wrapping_add(XSPI2_FCR) == XSPI2_FCR);
        let d = bus.ops().skip(n);
        let a = o1.len() - n;
        let b = o2.len() - n;
        assert(d.take(a) =~= o1.skip(n));
        assert(d.subrange(a, b) =~= o2.skip(o1.len() as int));
        assert(d.skip(b) =~= bus.ops().skip(o2.len() as int));
    }
    true
}

// ---------------------------------------------------------------------------
// Console.
// ---------------------------------------------------------------------------
/// BRR for 115200 baud on the 64 MHz HSI kernel clock (64 000 000 / 115 200
/// is 555.6; the 0.08 % error is well inside the receiver's tolerance).
pub const USART1_BRR_HSI_115200: u32 = 556;

/// Idle moments after enabling the transmitter.
pub const UART_SETTLE: u32 = 10_000;

/// The start-up banner, ending with the "Secure Boot started" line.
pub const BANNER: &'static str = "\n   ___       ___       ___       ___       ___   \n  /\\__\\     /\\__\\     /\\  \\     /\\  \\     /\\  \\  \n /:/ _/_   /::L_L_   /::\\  \\   /::\\  \\   /::\\  \\ \n/:/_/\\__\\ /:/L:\\__\\ /::\\:\\__\\ /::\\:\\__\\ /::\\:\\__\\\n\\:\\/:/  / \\/_/:/  / \\:\\::/  / \\;:::/  / \\/\\::/  /\n \\::/  /    /:/  /   \\::/  /   |:\\/__/    /:/  / \n  \\/__/     \\/__/     \\/__/     \\|__|     \\/__/  \n\n[UMBRASecureBoot] Secure Boot started\n";

/// The configuration writes of `init_uart`: disable, no prescaler, the
/// divisor for 115200 baud on HSI, enable with the transmitter on.
pub open spec fn console_setup_writes(base: u32) -> Seq<(u32, u32)> {
    seq![
        (base.wrapping_add(CR1_OFFSET), 0u32),
        (base.wrapping_add(PRESC_OFFSET), 0u32),
        (base.wrapping_add(BRR_OFFSET), USART1_BRR_HSI_115200),
        (base.wrapping_add(CR1_OFFSET), CR1_UE_TE),
    ]
}

/// Bring up the console USART (kernel clock HSI, selected by `init_clocks`)
/// at 115200 baud and print the banner. On a timeout a prefix of the banner
/// has been sent.
pub fn init_uart<M: MmioAccess>(console: &mut M) -> (r: Result<(), UartError>)
    ensures
        final(console).base() == old(console).base(),
        extends(final(console).ops(), old(console).ops()),
        r is Ok ==> writes_of(final(console).ops()) == writes_of(old(console).ops()) + console_setup_writes(
            old(console).base(),
        ) + tx_writes(old(console).base(), BANNER.spec_bytes()),
        r is Err ==> crate::uart::tx_stalled(
            old(console).base(),
            old(console).ops().len() as int,
            final(console).ops(),
        ),
        r is Err ==> r == Err::<(), UartError>(UartError::Timeout) && exists|k: int|
            0 <= k <= BANNER.spec_bytes().len() && #[trigger] writes_of(final(console).ops()) == writes_of(
                old(console).ops(),
            ) + console_setup_writes(old(console).base()) + tx_writes(
                old(console).base(),
                BANNER.spec_bytes().take(k),
            ),
{
    let ghost base = console.base();
    let ghost w0 = writes_of(console.ops());
    wr(console, CR1_OFFSET, 0);
    wr(console, PRESC_OFFSET, 0);
    wr(console, BRR_OFFSET, USART1_BRR_HSI_115200);
    wr(console, CR1_OFFSET, CR1_UE_TE);
    let ghost o1 = console.ops();
    proof {
        assert(writes_of(o1) =~= w0 + console_setup_writes(base));
    }
    let mut w: u32 = 0;
    while w < UART_SETTLE
        invariant
            w <= UART_SETTLE,
            console.base() == base,
            console.ops() == o1,
        decreases UART_SETTLE - w,
    {
        console.pause();
        w += 1;
    }
    let r = print_str(console, BANNER);
    proof {
        assert forall|j: int| 0 <= j < old(console).ops().len() implies #[trigger] console.ops()[j] == old(
            console,
        ).ops()[j] by {
            assert(o1[j] == old(console).ops()[j]);
        }
    }
    r
}

/// BSEC debug-port control registers.
pub const BSEC_AP_UNLOCK: u32 = 0x5600_9E90;
pub const BSEC_DBGCR: u32 = 0x5600_9E8C;
/// The value that opens each of them.
pub const BSEC_DEBUG_OPEN: u32 = 0xB451_B400;

/// For development boards only: open the debug access port to the M55, then
/// allow Secure and Non-Secure debug. This defeats debug isolation; a
/// production boot never calls it. Both registers keep their value until the
/// next cold reset.
pub fn enable_dev_debug<M: MmioAccess>(bus: &mut M)
    requires
        old(bus).base() == 0,
    ensures
        final(bus).base() == 0,
        final(bus).ops() == old(bus).ops().push(MmioOp::Write { addr: BSEC_AP_UNLOCK, value: BSEC_DEBUG_OPEN })
            .push(MmioOp::Write { addr: BSEC_DBGCR, value: BSEC_DEBUG_OPEN }),
{
    bus.write(BSEC_AP_UNLOCK, BSEC_DEBUG_OPEN);
    bus.write(BSEC_DBGCR, BSEC_DEBUG_OPEN);
    proof {
        assert(0u32.wrapping_add(BSEC_AP_UNLOCK) == BSEC_AP_UNLOCK);
        assert(0u32.wrapping_add(BSEC_DBGCR) == BSEC_DBGCR);
    }
}

// ---------------------------------------------------------------------------
// Security set-up: fault handlers and the host's memory window.
// ---------------------------------------------------------------------------
/// SCB system handler control and state: MEMFAULTENA (16), BUSFAULTENA (17),
/// USGFAULTENA (18), SECUREFAULTENA (19).
pub const SCB_SHCSR: u32 = 0xE000_ED24;
pub const SHCSR_FAULTS_ENA: u32 = (1 << 16) | (1 << 17) | (1 << 18) | (1 << 19);

/// Enable the configurable fault handlers (keeping the other SHCSR bits), then
/// refresh the watchdog.
pub fn enable_fault_handlers<M: MmioAccess>(bus: &mut M)
    requires
        old(bus).base() == 0,
    ensures
        final(bus).base() == 0,
        final(bus).is_storage() == old(bus).is_storage(),
        extends(final(bus).ops(), old(bus).ops()),
        ran(
            seq![
                RegStep::Update { addr: SCB_SHCSR, clear: 0u32, set: SHCSR_FAULTS_ENA },
                RegStep::Put { addr: IWDG_KR, value: IWDG_REFRESH },
            ],
            final(bus).ops().skip(old(bus).ops().len() as int),
        ),
{
    let p = vec![
        RegStep::Update { addr: SCB_SHCSR, clear: 0, set: SHCSR_FAULTS_ENA },
        RegStep::Put { addr: IWDG_KR, value: IWDG_REFRESH },
    ];
    proof {
        assert(no_waits(p@));
    }
    let _ = run_program(bus, p.as_slice());
}

/// First and last byte of the FLEXRAM part of the host's 1 MB window
/// (RISAF7), and of the AXISRAM1 part (RISAF2) that the host runs from.
pub const HOST_FLEXRAM_START: u32 = 0x3400_0000;
pub const HOST_FLEXRAM_END: u32 = 0x3406_3FFF;
pub const HOST_AXISRAM1_START: u32 = 0x3406_4000;
pub const HOST_AXISRAM1_END: u32 = 0x340D_FFFF;
/// First and last byte of the Secure enclave area (swap space, code window,
/// enclave stacks) at the top of AXISRAM1.
pub const ENCLAVE_AREA_START: u32 = 0x340E_0000;
pub const ENCLAVE_AREA_END: u32 = 0x340F_FFFF;

/// Open the host's memory to Non-Secure access by every CID: RISAF7 region 1
/// over FLEXRAM and RISAF2 region 1 over the host part of AXISRAM1; RISAF2
/// region 2 keeps the enclave area Secure but reachable by unprivileged
/// (enclave) code of every CID.
pub fn open_host_memory<A: MmioAccess, B: MmioAccess>(risaf7: &mut Risaf<A>, risaf2: &mut Risaf<B>)
    ensures
        final(risaf7).base() == old(risaf7).base(),
        final(risaf2).base() == old(risaf2).base(),
        final(risaf7).ops() == old(risaf7).ops() + region_program(
            old(risaf7).base(),
            1,
            HOST_FLEXRAM_START,
            HOST_FLEXRAM_END,
            false,
            0xFF,
            0xFF,
            0,
        ),
        final(risaf2).ops() == old(risaf2).ops() + region_program(
            old(risaf2).base(),
            1,
            HOST_AXISRAM1_START,
            HOST_AXISRAM1_END,
            false,
            0xFF,
            0xFF,
            0,
        ) + region_program(old(risaf2).base(), 2, ENCLAVE_AREA_START, ENCLAVE_AREA_END, true, 0xFF, 0xFF, 0),
{
    risaf7.configure_region(1, HOST_FLEXRAM_START, HOST_FLEXRAM_END, false, 0xFF, 0xFF, 0);
    risaf2.configure_region(1, HOST_AXISRAM1_START, HOST_AXISRAM1_END, false, 0xFF, 0xFF, 0);
    risaf2.configure_region(2, ENCLAVE_AREA_START, ENCLAVE_AREA_END, true, 0xFF, 0xFF, 0);
}

/// Secure SysTick control and status.
pub const SYST_CSR: u32 = 0xE000_E010;
/// NVIC interrupt target non-secure, IRQs 32..63.
pub const NVIC_ITNS1: u32 = 0xE000_E384;
/// IRQs 53..57 (NPU0..NPU3 and CACHEAXI) in ITNS1.
pub const ITNS1_NPU_IRQS: u32 = (1 << 21) | (1 << 22) | (1 << 23) | (1 << 24) | (1 << 25);
/// The host's vector table: the Non-Secure view of AXISRAM1.
pub const HOST_NS_VECTORS: u32 = 0x2400_0000;

/// Before the Non-Secure world starts: stop the Secure SysTick, route the
/// NPU and CACHEAXI interrupts to the Non-Secure NVIC (keeping the other
/// targets), and point the Non-Secure vector table at the host image.
pub open spec fn untrusted_boot_steps() -> Seq<RegStep> {
    seq![
        RegStep::Put { addr: SYST_CSR, value: 0u32 },
        RegStep::Update { addr: NVIC_ITNS1, clear: 0u32, set: ITNS1_NPU_IRQS },
        RegStep::Put { addr: SCB_NS_VTOR, value: HOST_NS_VECTORS },
    ]
}

/// Run `untrusted_boot_steps` (the Security Attribution Unit regions for
/// the host are programmed separately).
pub fn prepare_untrusted_boot<M: MmioAccess>(bus: &mut M)
    requires
        old(bus).base() == 0,
    ensures
        final(bus).base() == 0,
        final(bus).is_storage() == old(bus).is_storage(),
        extends(final(bus).ops(), old(bus).ops()),
        ran(untrusted_boot_steps(), final(bus).ops().skip(old(bus).ops().len() as int)),
{
    let p = vec![
        RegStep::Put { addr: SYST_CSR, value: 0 },
        RegStep::Update { addr: NVIC_ITNS1, clear: 0, set: ITNS1_NPU_IRQS },
        RegStep::Put { addr: SCB_NS_VTOR, value: HOST_NS_VECTORS },
    ];
    proof {
        assert(p@ =~= untrusted_boot_steps());
        assert(no_waits(p@));
    }
    let _ = run_program(bus, p.as_slice());
}

} // verus!
