//! HPDMA1 channel driver and the data-cache maintenance that goes with DMA.
//!
//! Channel `ch` has its register block at `0x50 + 0x80 * ch` from the HPDMA1
//! base: CFCR +0x0C (flag clear), CSR +0x10 (status), CCR +0x14 (control),
//! CTR1 +0x40, CTR2 +0x44, CBR1 +0x48 (byte count), CSAR +0x4C, CDAR +0x50,
//! CLLR +0x7C, and its compartment configuration CCIDCFGR at +0x04. The global
//! SECCFGR (+0x00) and PRIVCFGR (+0x04) hold one bit per channel. The driver
//! is a handle: each call takes the register backend of HPDMA1 (at
//! `HPDMA1_BASE`).

use crate::mmio::{rd, wr, writes_of, extends, op_value, polled, polled_out, MmioAccess, MmioOp, POLL_LIMIT};
use crate::rcc::Rcc;
use vstd::prelude::*;

verus! {

pub const HPDMA1_BASE: u32 = 0x5802_0000;

pub const CHANNEL_BLOCK_BASE: u32 = 0x50;
pub const CHANNEL_BLOCK_STRIDE: u32 = 0x80;

pub const CCR_OFFSET: u32 = 0x14;
pub const CFCR_OFFSET: u32 = 0x0C;
pub const CSR_OFFSET: u32 = 0x10;
pub const CTR1_OFFSET: u32 = 0x40;
pub const CTR2_OFFSET: u32 = 0x44;
pub const CBR1_OFFSET: u32 = 0x48;
pub const CSAR_OFFSET: u32 = 0x4C;
pub const CDAR_OFFSET: u32 = 0x50;
pub const CLLR_OFFSET: u32 = 0x7C;

pub const CR_EN: u32 = 1 << 0;
pub const CR_RESET: u32 = 1 << 1;
pub const CR_TCIE: u32 = 1 << 8;

pub const SR_IDLEF: u32 = 1 << 0;
pub const SR_TCF: u32 = 1 << 8;
pub const SR_DTEF: u32 = 1 << 10;
pub const SR_ULEF: u32 = 1 << 11;
pub const SR_USEF: u32 = 1 << 12;
pub const SR_ERR_MASK: u32 = SR_DTEF | SR_ULEF | SR_USEF;

pub const FCR_CTCF: u32 = 1 << 8;
pub const FCR_CDTEF: u32 = 1 << 10;
pub const FCR_CULEF: u32 = 1 << 11;
pub const FCR_CUSEF: u32 = 1 << 12;
pub const FCR_CLEAR_ALL: u32 = FCR_CTCF | FCR_CDTEF | FCR_CULEF | FCR_CUSEF;

pub const TR1_SDW_WORD: u32 = 0b10 << 0;
pub const TR1_SINC: u32 = 1 << 3;
pub const TR1_SBL4: u32 = 3 << 4;
pub const TR1_SSEC: u32 = 1 << 15;
pub const TR1_DDW_WORD: u32 = 0b10 << 16;
pub const TR1_DINC: u32 = 1 << 19;
pub const TR1_DBL4: u32 = 3 << 20;
pub const TR1_DSEC: u32 = 1 << 31;

pub const TR2_SWREQ: u32 = 1 << 9;
pub const TR2_DREQ: u32 = 1 << 10;

pub const SECCFGR_OFFSET: u32 = 0x00;
pub const PRIVCFGR_OFFSET: u32 = 0x04;

pub const CCIDCFGR_OFFSET: u32 = 0x04;
pub const CCIDCFGR_CID1: u32 = (1 << 0) | (1 << 4);

/// RCC AHB5ENR bit of HPDMA1.
pub const HPDMA1EN: u8 = 0;

/// Transfer-complete flag of a channel status word.
pub const CH_TCF: u32 = SR_TCF;

/// Number of channels.
pub const HPDMA1_CHANNELS: u8 = 16;

/// Offset of channel `ch`'s register block from the HPDMA1 base.
pub open spec fn ch_off(ch: u8) -> u32 {
    (CHANNEL_BLOCK_BASE + CHANNEL_BLOCK_STRIDE * ch) as u32
}

/// The writes that program a transfer on channel `ch` (absolute addresses).
pub open spec fn transfer_writes(
    base: u32,
    ch: u8,
    tr1: u32,
    tr2: u32,
    byte_count: u32,
    src: u32,
    dst: u32,
) -> Seq<(u32, u32)> {
    let c = ch_off(ch);
    seq![
        (base.wrapping_add((c + CTR1_OFFSET) as u32), tr1),
        (base.wrapping_add((c + CTR2_OFFSET) as u32), tr2),
        (base.wrapping_add((c + CBR1_OFFSET) as u32), byte_count),
        (base.wrapping_add((c + CSAR_OFFSET) as u32), src),
        (base.wrapping_add((c + CDAR_OFFSET) as u32), dst),
        (base.wrapping_add((c + CLLR_OFFSET) as u32), 0u32),
    ]
}

/// Turn on the HPDMA1 clock (read-OR-write of AHB5ENR).
pub fn enable_clock<M: MmioAccess>(rcc: &mut Rcc<M>)
    ensures
        final(rcc).base() == old(rcc).base(),
        crate::mmio::read_modify_write(
            old(rcc).ops(),
            final(rcc).ops(),
            old(rcc).base().wrapping_add(crate::rcc::AHB5ENR_OFFSET),
            |v: u32| v | (1u32 << HPDMA1EN),
        ),
{
    rcc.enable_ahb5_clock(HPDMA1EN);
}

/// A handle on HPDMA1; each operation takes the controller's register
/// backend.
pub struct Hpdma1;

impl Default for Hpdma1 {
    fn default() -> (h: Self) {
        Self::new()
    }
}

impl Hpdma1 {
    pub fn new() -> (h: Self) {
        Hpdma1
    }

    /// Absolute address of channel `ch`'s register block.
    fn channel_base(ch: u8) -> (a: u32)
        requires
            ch < HPDMA1_CHANNELS,
        ensures
            a == HPDMA1_BASE + ch_off(ch),
    {
        HPDMA1_BASE + CHANNEL_BLOCK_BASE + CHANNEL_BLOCK_STRIDE * (ch as u32)
    }

    /// Offset of channel `ch`'s register block from the HPDMA1 base.
    fn channel_off(ch: u8) -> (o: u32)
        requires
            ch < HPDMA1_CHANNELS,
        ensures
            o == ch_off(ch),
            o + 0x80 <= 0x1000,
    {
        Self::channel_base(ch) - HPDMA1_BASE
    }

    /// Channel status (CSR).
    pub fn status<M: MmioAccess>(&self, m: &mut M, ch: u8) -> (v: u32)
        requires
            ch < HPDMA1_CHANNELS,
        ensures
            final(m).base() == old(m).base(),
            final(m).ops() == old(m).ops().push(
                MmioOp::Read { addr: old(m).base().wrapping_add((ch_off(ch) + CSR_OFFSET) as u32), value: v },
            ),
    {
        let c = Self::channel_off(ch);
        m.read(c + CSR_OFFSET)
    }

    /// Make channel `ch` secure and privileged, owned by compartment 1.
    pub fn set_channel_secure<M: MmioAccess>(&self, m: &mut M, ch: u8)
        requires
            ch < HPDMA1_CHANNELS,
        ensures
            final(m).base() == old(m).base(),
            ({
                let n = old(m).ops().len() as int;
                let o = final(m).ops();
                let b = old(m).base();
                &&& o.len() == n + 5
                &&& o.take(n) == old(m).ops()
                &&& o[n] == (MmioOp::Read { addr: b.wrapping_add(SECCFGR_OFFSET), value: op_value(o[n]) })
                &&& o[n + 1] == (MmioOp::Write {
                    addr: b.wrapping_add(SECCFGR_OFFSET),
                    value: op_value(o[n]) | (1u32 << ch),
                })
                &&& o[n + 2] == (MmioOp::Read { addr: b.wrapping_add(PRIVCFGR_OFFSET), value: op_value(o[n + 2]) })
                &&& o[n + 3] == (MmioOp::Write {
                    addr: b.wrapping_add(PRIVCFGR_OFFSET),
                    value: op_value(o[n + 2]) | (1u32 << ch),
                })
                &&& o[n + 4] == (MmioOp::Write {
                    addr: b.wrapping_add((ch_off(ch) + CCIDCFGR_OFFSET) as u32),
                    value: CCIDCFGR_CID1,
                })
            }),
    {
        let c = Self::channel_off(ch);
        let sec = m.read(SECCFGR_OFFSET);
        m.write(SECCFGR_OFFSET, sec | (1u32 << ch));
        let pv = m.read(PRIVCFGR_OFFSET);
        m.write(PRIVCFGR_OFFSET, pv | (1u32 << ch));
        m.write(c + CCIDCFGR_OFFSET, CCIDCFGR_CID1);
        assert(m.ops().take(old(m).ops().len() as int) =~= old(m).ops());
    }

    /// Reset channel `ch`: request the reset, wait (bounded) until the
    /// request bit reads back clear, then clear every flag. `false` when the
    /// reset never completed (the flags are not cleared then).
    pub fn reset_channel<M: MmioAccess>(&self, m: &mut M, ch: u8) -> (ok: bool)
        requires
            ch < HPDMA1_CHANNELS,
        ensures
            final(m).base() == old(m).base(),
            extends(final(m).ops(), old(m).ops()),
            ok ==> writes_of(final(m).ops()) == writes_of(old(m).ops()) + seq![
                (old(m).base().wrapping_add((ch_off(ch) + CCR_OFFSET) as u32), CR_RESET),
                (old(m).base().wrapping_add((ch_off(ch) + CFCR_OFFSET) as u32), FCR_CLEAR_ALL),
            ],
            !ok ==> writes_of(final(m).ops()) == writes_of(old(m).ops()).push(
                (old(m).base().wrapping_add((ch_off(ch) + CCR_OFFSET) as u32), CR_RESET),
            ),
            final(m).ops().len() > old(m).ops().len() + 1,
            final(m).ops()[old(m).ops().len() as int] == (MmioOp::Write {
                addr: old(m).base().wrapping_add((ch_off(ch) + CCR_OFFSET) as u32),
                value: CR_RESET,
            }),
            ok ==> polled(
                final(m).ops().subrange(old(m).ops().len() as int + 1, final(m).ops().len() - 1),
                old(m).base().wrapping_add((ch_off(ch) + CCR_OFFSET) as u32),
                CR_RESET,
                false,
            ),
            !ok ==> polled_out(
                final(m).ops().skip(old(m).ops().len() as int + 1),
                old(m).base().wrapping_add((ch_off(ch) + CCR_OFFSET) as u32),
                CR_RESET,
                false,
            ),
    {
        let c = Self::channel_off(ch);
        wr(m, c + CCR_OFFSET, CR_RESET);
        let ghost o1 = m.ops();
        let done = crate::mmio::poll(m, c + CCR_OFFSET, CR_RESET, false);
        let ghost o2 = m.ops();
        assert(o2[old(m).ops().len() as int] == o1[old(m).ops().len() as int]);
        if !done {
            return false;
        }
        wr(m, c + CFCR_OFFSET, FCR_CLEAR_ALL);
        assert(m.ops()[old(m).ops().len() as int] == o2[old(m).ops().len() as int]);
        assert(m.ops().subrange(old(m).ops().len() as int + 1, m.ops().len() - 1) =~= o2.skip(o1.len() as int));
        assert(writes_of(m.ops()) =~= writes_of(old(m).ops()) + seq![
            (old(m).base().wrapping_add((ch_off(ch) + CCR_OFFSET) as u32), CR_RESET),
            (old(m).base().wrapping_add((ch_off(ch) + CFCR_OFFSET) as u32), FCR_CLEAR_ALL),
        ]);
        true
    }

    /// Program the six transfer registers of channel `ch`.
    fn program<M: MmioAccess>(m: &mut M, ch: u8, tr1: u32, tr2: u32, byte_count: u32, src: u32, dst: u32)
        requires
            ch < HPDMA1_CHANNELS,
        ensures
            final(m).base() == old(m).base(),
            extends(final(m).ops(), old(m).ops()),
            writes_of(final(m).ops()) == writes_of(old(m).ops()) + transfer_writes(
                old(m).base(),
                ch,
                tr1,
                tr2,
                byte_count,
                src,
                dst,
            ),
    {
        let c = Self::channel_off(ch);
        wr(m, c + CTR1_OFFSET, tr1);
        wr(m, c + CTR2_OFFSET, tr2);
        wr(m, c + CBR1_OFFSET, byte_count);
        wr(m, c + CSAR_OFFSET, src);
        wr(m, c + CDAR_OFFSET, dst);
        wr(m, c + CLLR_OFFSET, 0);
        assert(writes_of(m.ops()) =~= writes_of(old(m).ops()) + transfer_writes(
            old(m).base(),
            ch,
            tr1,
            tr2,
            byte_count,
            src,
            dst,
        ));
    }

    /// Memory to peripheral: incrementing word source, fixed word destination,
    /// bursts of four, both secure, request line `reqsel` on the destination.
    pub fn configure_mem_to_periph<M: MmioAccess>(
        &self,
        m: &mut M,
        ch: u8,
        src: u32,
        periph_dst: u32,
        byte_count: u32,
        reqsel: u8,
    )
        requires
            ch < HPDMA1_CHANNELS,
        ensures
            final(m).base() == old(m).base(),
            extends(final(m).ops(), old(m).ops()),
            writes_of(final(m).ops()) == writes_of(old(m).ops()) + transfer_writes(
                old(m).base(),
                ch,
                TR1_SDW_WORD | TR1_SINC | TR1_SBL4 | TR1_SSEC | TR1_DDW_WORD | TR1_DBL4 | TR1_DSEC,
                (reqsel as u32) | TR2_DREQ,
                byte_count,
                src,
                periph_dst,
            ),
    {
        let tr1 = TR1_SDW_WORD | TR1_SINC | TR1_SBL4 | TR1_SSEC | TR1_DDW_WORD | TR1_DBL4 | TR1_DSEC;
        Self::program(m, ch, tr1, (reqsel as u32) | TR2_DREQ, byte_count, src, periph_dst);
    }

    /// Peripheral to memory: fixed word source, incrementing word
    /// destination, bursts of four, both secure, request line `reqsel`.
    pub fn configure_periph_to_mem<M: MmioAccess>(
        &self,
        m: &mut M,
        ch: u8,
        periph_src: u32,
        dst: u32,
        byte_count: u32,
        reqsel: u8,
    )
        requires
            ch < HPDMA1_CHANNELS,
        ensures
            final(m).base() == old(m).base(),
            extends(final(m).ops(), old(m).ops()),
            writes_of(final(m).ops()) == writes_of(old(m).ops()) + transfer_writes(
                old(m).base(),
                ch,
                TR1_SDW_WORD | TR1_SBL4 | TR1_SSEC | TR1_DDW_WORD | TR1_DINC | TR1_DBL4 | TR1_DSEC,
                reqsel as u32,
                byte_count,
                periph_src,
                dst,
            ),
    {
        let tr1 = TR1_SDW_WORD | TR1_SBL4 | TR1_SSEC | TR1_DDW_WORD | TR1_DINC | TR1_DBL4 | TR1_DSEC;
        Self::program(m, ch, tr1, reqsel as u32, byte_count, periph_src, dst);
    }

    /// Memory to memory: both sides incrementing words, bursts of four, both
    /// secure, software-triggered.
    pub fn configure_mem_to_mem<M: MmioAccess>(&self, m: &mut M, ch: u8, src: u32, dst: u32, byte_count: u32)
        requires
            ch < HPDMA1_CHANNELS,
        ensures
            final(m).base() == old(m).base(),
            extends(final(m).ops(), old(m).ops()),
            writes_of(final(m).ops()) == writes_of(old(m).ops()) + transfer_writes(
                old(m).base(),
                ch,
                TR1_SDW_WORD | TR1_SINC | TR1_SBL4 | TR1_SSEC | TR1_DDW_WORD | TR1_DINC | TR1_DBL4
                    | TR1_DSEC,
                TR2_SWREQ,
                byte_count,
                src,
                dst,
            ),
    {
        let tr1 = TR1_SDW_WORD | TR1_SINC | TR1_SBL4 | TR1_SSEC | TR1_DDW_WORD | TR1_DINC | TR1_DBL4
            | TR1_DSEC;
        Self::program(m, ch, tr1, TR2_SWREQ, byte_count, src, dst);
    }

    /// Set `bits` in channel `ch`'s control register (read-OR-write).
    fn set_ccr<M: MmioAccess>(m: &mut M, ch: u8, bits: u32)
        requires
            ch < HPDMA1_CHANNELS,
        ensures
            final(m).base() == old(m).base(),
            crate::mmio::read_modify_write(
                old(m).ops(),
                final(m).ops(),
                old(m).base().wrapping_add((ch_off(ch) + CCR_OFFSET) as u32),
                |v: u32| v | bits,
            ),
    {
        let c = Self::channel_off(ch);
        let cr = m.read(c + CCR_OFFSET);
        m.write(c + CCR_OFFSET, cr | bits);
        assert(m.ops().take(old(m).ops().len() as int) =~= old(m).ops());
    }

    /// Program a memory-to-memory transfer and start it with the
    /// transfer-complete interrupt enabled.
    pub fn start_mem_to_mem_irq<M: MmioAccess>(&self, m: &mut M, ch: u8, src: u32, dst: u32, byte_count: u32)
        requires
            ch < HPDMA1_CHANNELS,
        ensures
            final(m).base() == old(m).base(),
            extends(final(m).ops(), old(m).ops()),
            ({
                let o = final(m).ops();
                let l = o.len();
                let ccr = old(m).base().wrapping_add((ch_off(ch) + CCR_OFFSET) as u32);
                &&& l >= 2
                &&& o[l - 2] == (MmioOp::Read { addr: ccr, value: op_value(o[l - 2]) })
                &&& writes_of(o) == (writes_of(old(m).ops()) + transfer_writes(
                    old(m).base(),
                    ch,
                    TR1_SDW_WORD | TR1_SINC | TR1_SBL4 | TR1_SSEC | TR1_DDW_WORD | TR1_DINC | TR1_DBL4
                        | TR1_DSEC,
                    TR2_SWREQ,
                    byte_count,
                    src,
                    dst,
                )).push((ccr, op_value(o[l - 2]) | CR_TCIE | CR_EN))
            }),
    {
        self.configure_mem_to_mem(m, ch, src, dst, byte_count);
        let ghost o1 = m.ops();
        Self::set_ccr(m, ch, CR_TCIE | CR_EN);
        proof {
            crate::mmio::lemma_writes_of_push(o1, m.ops()[o1.len() as int]);
            assert(m.ops().take(o1.len() as int + 1) =~= o1.push(m.ops()[o1.len() as int]));
            assert(m.ops() =~= o1.push(m.ops()[o1.len() as int]).push(m.ops()[o1.len() as int + 1]));
            crate::mmio::lemma_writes_of_push(o1.push(m.ops()[o1.len() as int]), m.ops()[o1.len() as int + 1]);
            assert((CR_TCIE | CR_EN) == (CR_TCIE | CR_EN));
            let v = op_value(m.ops()[o1.len() as int]);
            assert(v | (CR_TCIE | CR_EN) == v | CR_TCIE | CR_EN) by (bit_vector);
        }
    }

    /// Enable channel `ch` (read-OR-write of EN).
    pub fn enable_channel<M: MmioAccess>(&self, m: &mut M, ch: u8)
        requires
            ch < HPDMA1_CHANNELS,
        ensures
            final(m).base() == old(m).base(),
            crate::mmio::read_modify_write(
                old(m).ops(),
                final(m).ops(),
                old(m).base().wrapping_add((ch_off(ch) + CCR_OFFSET) as u32),
                |v: u32| v | CR_EN,
            ),
    {
        Self::set_ccr(m, ch, CR_EN);
    }

    /// Wait until channel `ch` reports completion or an error, reading CSR at
    /// most `budget + 1` times; return the last status read.
    pub fn wait_complete<M: MmioAccess>(&self, m: &mut M, ch: u8, budget: u32) -> (sr: u32)
        requires
            ch < HPDMA1_CHANNELS,
        ensures
            final(m).base() == old(m).base(),
            extends(final(m).ops(), old(m).ops()),
            writes_of(final(m).ops()) == writes_of(old(m).ops()),
            final(m).ops().len() > old(m).ops().len(),
            final(m).ops().len() <= old(m).ops().len() + budget + 1,
            final(m).ops().last() == (MmioOp::Read {
                addr: old(m).base().wrapping_add((ch_off(ch) + CSR_OFFSET) as u32),
                value: sr,
            }),
            sr & (SR_TCF | SR_ERR_MASK) == 0 ==> final(m).ops().len() == old(m).ops().len() + budget + 1,
    {
        let c = Self::channel_off(ch);
        let mut left = budget;
        loop
            invariant
                left <= budget,
                m.base() == old(m).base(),
                extends(m.ops(), old(m).ops()),
                writes_of(m.ops()) == writes_of(old(m).ops()),
                m.ops().len() == old(m).ops().len() + (budget - left),
                c == ch_off(ch),
                c + 0x80 <= 0x1000,
            decreases left,
        {
            let sr = rd(m, c + CSR_OFFSET);
            if (sr & (SR_TCF | SR_ERR_MASK)) != 0 {
                return sr;
            }
            if left == 0 {
                return sr;
            }
            left -= 1;
        }
    }

    /// Clear every flag of channel `ch`.
    pub fn clear_flags<M: MmioAccess>(&self, m: &mut M, ch: u8)
        requires
            ch < HPDMA1_CHANNELS,
        ensures
            final(m).base() == old(m).base(),
            final(m).ops() == old(m).ops().push(
                MmioOp::Write {
                    addr: old(m).base().wrapping_add((ch_off(ch) + CFCR_OFFSET) as u32),
                    value: FCR_CLEAR_ALL,
                },
            ),
    {
        let c = Self::channel_off(ch);
        m.write(c + CFCR_OFFSET, FCR_CLEAR_ALL);
    }
}

// ---------------------------------------------------------------------------
// Data-cache maintenance by address range.
// ---------------------------------------------------------------------------

/// SCB data-cache invalidate by address, offset from the system control space
/// (0xE000_E000).
pub const SCB_DCIMVAC_OFFSET: u32 = 0xF5C;
/// SCB data-cache clean by address.
pub const SCB_DCCMVAC_OFFSET: u32 = 0xF68;
/// Data-cache line size in bytes.
pub const DCACHE_LINE: usize = 32;

/// The cache lines covering `addr..addr + len`: from `addr` rounded down to a
/// line to `addr + len` rounded up to a line, one address per line.
pub open spec fn lines(addr: int, len: int) -> Seq<int> {
    let start = addr - addr % 32;
    let end = (addr + len + 31) - (addr + len + 31) % 32;
    Seq::new(((end - start) / 32) as nat, |i: int| start + 32 * i)
}

/// Write every line address of `addr..addr + len` (truncated to 32 bits) to
/// the register at `reg`, then a barrier.
fn dcache_op_range<M: MmioAccess>(scb: &mut M, reg: u32, addr: usize, len: usize)
    requires
        addr + len + 31 <= usize::MAX,
    ensures
        final(scb).base() == old(scb).base(),
        final(scb).ops() == old(scb).ops() + lines(addr as int, len as int).map_values(
            |a: int| MmioOp::Write { addr: old(scb).base().wrapping_add(reg), value: a as u32 },
        ),
        final(scb).fences() == old(scb).fences() + 1,
{
    let mut a = addr & !(DCACHE_LINE - 1);
    let end = (addr + len + (DCACHE_LINE - 1)) & !(DCACHE_LINE - 1);
    proof {
        assert(addr & !31usize == addr - addr % 32) by (bit_vector);
        let x = (addr + len + 31) as usize;
        assert(x & !31usize == x - x % 32) by (bit_vector);
    }
    let ghost start = a as int;
    let ghost ls = lines(addr as int, len as int);
    let ghost wr_of = |x: int| MmioOp::Write { addr: old(scb).base().wrapping_add(reg), value: x as u32 };
    while a < end
        invariant
            start == addr - addr % 32,
            end == (addr + len + 31) - (addr + len + 31) % 32,
            ls == lines(addr as int, len as int),
            start <= a <= end,
            (a - start) % 32 == 0,
            end <= usize::MAX,
            scb.base() == old(scb).base(),
            wr_of == (|x: int| MmioOp::Write { addr: old(scb).base().wrapping_add(reg), value: x as u32 }),
            scb.ops() == old(scb).ops() + ls.take((a - start) / 32).map_values(wr_of),
            scb.fences() == old(scb).fences(),
        decreases end - a,
    {
        scb.write(reg, a as u32);
        proof {
            let k = (a - start) / 32;
            assert(ls.take(k + 1) =~= ls.take(k).push(a as int));
            assert(ls.take(k + 1).map_values(wr_of) =~= ls.take(k).map_values(wr_of).push(wr_of(a as int)));
        }
        a += DCACHE_LINE;
    }
    proof {
        assert(ls.take((a - start) / 32) =~= ls);
    }
    scb.barrier();
}

/// Clean the data cache over `addr..addr + len` so a DMA reads what the CPU
/// wrote.
pub fn dcache_clean_range<M: MmioAccess>(scb: &mut M, addr: usize, len: usize)
    requires
        addr + len + 31 <= usize::MAX,
    ensures
        final(scb).base() == old(scb).base(),
        final(scb).ops() == old(scb).ops() + lines(addr as int, len as int).map_values(
            |a: int| MmioOp::Write { addr: old(scb).base().wrapping_add(SCB_DCCMVAC_OFFSET), value: a as u32 },
        ),
        final(scb).fences() == old(scb).fences() + 1,
{
    dcache_op_range(scb, SCB_DCCMVAC_OFFSET, addr, len);
}

/// Invalidate the data cache over `addr..addr + len` so the CPU reads what a
/// DMA wrote.
pub fn dcache_invalidate_range<M: MmioAccess>(scb: &mut M, addr: usize, len: usize)
    requires
        addr + len + 31 <= usize::MAX,
    ensures
        final(scb).base() == old(scb).base(),
        final(scb).ops() == old(scb).ops() + lines(addr as int, len as int).map_values(
            |a: int| MmioOp::Write { addr: old(scb).base().wrapping_add(SCB_DCIMVAC_OFFSET), value: a as u32 },
        ),
        final(scb).fences() == old(scb).fences() + 1,
{
    dcache_op_range(scb, SCB_DCIMVAC_OFFSET, addr, len);
}

} // verus!
