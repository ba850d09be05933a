//! The CRYP1-backed AES-128 engine whose key arrives over the SAES shared-key
//! bus and is never loaded from software.

use crate::cryp::{block_processed, ecb_shared_cr, Cryp1, CrypError, CRYP_CR_OFFSET, CR_CRYPEN};
use crate::mmio::op_value;
use crate::mmio::{MmioAccess, MmioOp};
use crate::rcc::{Rcc, CRYP1EN, SAESEN};
use vstd::prelude::*;

verus! {

/// Hardware AES via CRYP1, keyed over the SAES shared-key bus.
pub struct AesHardware<M: MmioAccess> {
    pub(crate) cryp: Cryp1<M>,
}

impl<M: MmioAccess> AesHardware<M> {
    pub closed spec fn engine(&self) -> Cryp1<M> {
        self.cryp
    }

    /// Bring up the SAES and CRYP1 clocks through `rcc` (with a barrier so the
    /// enables land before CRYP1 is touched) and drive CRYP1 through
    /// `cryp_mmio`.
    pub fn new_with_mmio<R: MmioAccess>(rcc: &mut Rcc<R>, cryp_mmio: M) -> (s: Self)
        ensures
            s.engine().backend() == cryp_mmio,
            final(rcc).base() == old(rcc).base(),
            final(rcc).ops().len() == old(rcc).ops().len() + 4,
            final(rcc).ops()[old(rcc).ops().len() as int + 1] == (MmioOp::Write {
                addr: old(rcc).base().wrapping_add(crate::rcc::AHB3ENR_OFFSET),
                value: crate::mmio::op_value(final(rcc).ops()[old(rcc).ops().len() as int]) | (1u32
                    << SAESEN),
            }),
            final(rcc).ops()[old(rcc).ops().len() as int + 3] == (MmioOp::Write {
                addr: old(rcc).base().wrapping_add(crate::rcc::AHB3ENR_OFFSET),
                value: crate::mmio::op_value(final(rcc).ops()[old(rcc).ops().len() as int + 2]) | (1u32
                    << CRYP1EN),
            }),
    {
        let ghost o0 = rcc.ops();
        rcc.enable_ahb3_clock(SAESEN);
        let ghost o1 = rcc.ops();
        rcc.enable_ahb3_clock(CRYP1EN);
        rcc.sync();
        proof {
            assert(rcc.ops()[o0.len() as int] == o1[o0.len() as int]);
            assert(rcc.ops()[o0.len() as int + 1] == o1[o0.len() as int + 1]);
        }
        Self { cryp: Cryp1::new_with_mmio(cryp_mmio) }
    }

    /// Select ECB with the shared key; `key` and `iv` are not used (the key
    /// comes over the shared-key bus).
    pub fn init(&mut self, key: &[u8], iv: Option<&[u8]>)
        ensures
            final(self).engine().base() == old(self).engine().base(),
            ({
                let n = old(self).engine().ops().len() as int;
                let o = final(self).engine().ops();
                let v = op_value(o[n]);
                let cr = old(self).engine().base().wrapping_add(CRYP_CR_OFFSET);
                &&& o[n] == (MmioOp::Read { addr: cr, value: v })
                &&& final(self).engine().writes() == old(self).engine().writes() + seq![
                    (cr, v & !CR_CRYPEN),
                    (cr, ecb_shared_cr(v & !CR_CRYPEN)),
                    (cr, op_value(o[o.len() - 2]) | CR_CRYPEN),
                ]
            }),
    {
        self.cryp.configure_ecb_shared();
    }

    /// One block through CRYP1 in the configured mode.
    pub fn encrypt_block(&mut self, input: &[u8; 16], output: &mut [u8; 16]) -> (r: Result<(), CrypError>)
        ensures
            final(self).engine().base() == old(self).engine().base(),
            block_processed(
                old(self).engine().base(),
                old(self).engine().ops(),
                final(self).engine().ops(),
                input@,
                old(output)@,
                final(output)@,
                r,
            ),
            final(self).engine().writes() == old(self).engine().writes() + crate::cryp::din_writes(
                old(self).engine().base(),
                input@,
            ),
    {
        self.cryp.process_block(input, output)
    }

    /// One block through CRYP1 in the configured mode (the runtime only uses
    /// CTR, which is symmetric).
    pub fn decrypt_block(&mut self, input: &[u8; 16], output: &mut [u8; 16]) -> (r: Result<(), CrypError>)
        ensures
            final(self).engine().base() == old(self).engine().base(),
            block_processed(
                old(self).engine().base(),
                old(self).engine().ops(),
                final(self).engine().ops(),
                input@,
                old(output)@,
                final(output)@,
                r,
            ),
            final(self).engine().writes() == old(self).engine().writes() + crate::cryp::din_writes(
                old(self).engine().base(),
                input@,
            ),
    {
        self.cryp.process_block(input, output)
    }
}

} // verus!
