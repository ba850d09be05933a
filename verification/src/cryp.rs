//! CRYP1 block-cipher engine: key and mode set-up and one-block transfers.
//!
//! Register offsets: CR 0x00, SR 0x04, DIN 0x08, DOUT 0x0C, DMACR 0x10, key
//! words K2LR..K3RR 0x30..0x3C (AES-128 uses the low half of the key file,
//! most significant word first), IV words 0x40..0x4C. Waits on status bits
//! are bounded by `POLL_LIMIT` reads.

use crate::aes::key_be_word;
use crate::mmio::{extends, op_value, poll, rd, rmw_stored, wr, writes_of, MmioAccess, MmioOp, POLL_LIMIT};
use vstd::prelude::*;

verus! {

pub const CRYP_BASE_ADDR: u32 = 0x5402_0800;

pub const CRYP_CR_OFFSET: u32 = 0x00;
pub const CRYP_SR_OFFSET: u32 = 0x04;
pub const CRYP_DIN_OFFSET: u32 = 0x08;
pub const CRYP_DOUT_OFFSET: u32 = 0x0C;
pub const CRYP_DMACR_OFFSET: u32 = 0x10;
pub const DMACR_DIEN: u32 = 1 << 0;
pub const DMACR_DOEN: u32 = 1 << 1;

pub const CRYP_K2LR_OFFSET: u32 = 0x30;
pub const CRYP_K2RR_OFFSET: u32 = 0x34;
pub const CRYP_K3LR_OFFSET: u32 = 0x38;
pub const CRYP_K3RR_OFFSET: u32 = 0x3C;

pub const CRYP_IV0LR_OFFSET: u32 = 0x40;
pub const CRYP_IV0RR_OFFSET: u32 = 0x44;
pub const CRYP_IV1LR_OFFSET: u32 = 0x48;
pub const CRYP_IV1RR_OFFSET: u32 = 0x4C;

pub const CR_CRYPEN: u32 = 1 << 15;
pub const CR_FFLUSH: u32 = 1 << 14;
pub const CR_ALGOMODE_ECB: u32 = 0b100 << 3;
pub const CR_ALGOMODE_CTR: u32 = 0b110 << 3;

pub const SR_OFNE: u32 = 1 << 2;
pub const SR_BUSY: u32 = 1 << 4;
pub const SR_KERF: u32 = 1 << 6;
pub const SR_KEYVALID: u32 = 1 << 7;

/// Errors of the CRYP driver.
#[derive(Clone, Copy, Debug, PartialEq, Eq, Structural)]
pub enum CrypError {
    /// The engine flagged a key error (KERF) while loading the key.
    KeyError,
    /// A status bit never came within the polling budget.
    Timeout,
}

/// CR with ALGOMODE set to `mode` and KEYSIZE, DATATYPE, ALGODIR and KMOD
/// cleared, other bits as in `v`.
pub open spec fn mode_cr(v: u32, mode: u32) -> u32 {
    let a = v & !(1u32 << 19u32);
    let b = (a & !(0x7u32 << 3u32)) | mode;
    let c = b & !(0x3u32 << 8u32);
    let d = c & !(0x3u32 << 6u32);
    let e = d & !(1u32 << 2u32);
    e & !(0x3u32 << 24u32)
}

/// CR for AES-128 ECB encryption with a software key.
pub open spec fn ecb_sw_cr(v: u32) -> u32 {
    mode_cr(v, CR_ALGOMODE_ECB)
}

/// CR for AES-128 ECB encryption with the key shared from SAES (KMOD = 0b10).
pub open spec fn ecb_shared_cr(v: u32) -> u32 {
    ecb_sw_cr(v) | (0b10u32 << 24u32)
}

/// CR for AES-128 CTR with a software key: NPBLB and GCM_CCMPH cleared too.
pub open spec fn ctr_sw_cr(v: u32) -> u32 {
    let m = mode_cr(v, CR_ALGOMODE_CTR);
    (m & !(0xFu32 << 20u32)) & !(0x3u32 << 16u32)
}

/// CR for AES-128 CTR fed by DMA with the shared key: byte-swapped data
/// (DATATYPE = 0b10), KMOD = 0b10, NPBLB and GCM_CCMPH cleared.
pub open spec fn ctr_shared_dma_cr(v: u32) -> u32 {
    let a = v & !(1u32 << 19u32);
    let b = (a & !(0x7u32 << 3u32)) | CR_ALGOMODE_CTR;
    let c = b & !(0x3u32 << 8u32);
    let d = (c & !(0x3u32 << 6u32)) | (0b10u32 << 6u32);
    let e = d & !(1u32 << 2u32);
    let f = (e & !(0x3u32 << 24u32)) | (0b10u32 << 24u32);
    (f & !(0xFu32 << 20u32)) & !(0x3u32 << 16u32)
}

/// The four big-endian words of a 16-byte block written to the key-file
/// registers K2LR, K2RR, K3LR, K3RR (as (address, value)).
pub open spec fn key_writes(base: u32, key: Seq<u8>) -> Seq<(u32, u32)> {
    seq![
        (base.wrapping_add(CRYP_K2LR_OFFSET), key_be_word(key, 0)),
        (base.wrapping_add(CRYP_K2RR_OFFSET), key_be_word(key, 1)),
        (base.wrapping_add(CRYP_K3LR_OFFSET), key_be_word(key, 2)),
        (base.wrapping_add(CRYP_K3RR_OFFSET), key_be_word(key, 3)),
    ]
}

/// The four big-endian words of the initial counter block written to
/// IV0LR..IV1RR.
pub open spec fn iv_writes(base: u32, iv: Seq<u8>) -> Seq<(u32, u32)> {
    seq![
        (base.wrapping_add(CRYP_IV0LR_OFFSET), key_be_word(iv, 0)),
        (base.wrapping_add(CRYP_IV0RR_OFFSET), key_be_word(iv, 1)),
        (base.wrapping_add(CRYP_IV1LR_OFFSET), key_be_word(iv, 2)),
        (base.wrapping_add(CRYP_IV1RR_OFFSET), key_be_word(iv, 3)),
    ]
}

/// The four big-endian words of a data block written to DIN.
pub open spec fn din_writes(base: u32, b: Seq<u8>) -> Seq<(u32, u32)> {
    let din = base.wrapping_add(CRYP_DIN_OFFSET);
    seq![
        (din, key_be_word(b, 0)),
        (din, key_be_word(b, 1)),
        (din, key_be_word(b, 2)),
        (din, key_be_word(b, 3)),
    ]
}

/// Byte `r` (0 the most significant) of a word.
pub open spec fn be_byte_of(w: u32, r: int) -> u8 {
    if r == 0 {
        (w >> 24u32) as u8
    } else if r == 1 {
        (w >> 16u32) as u8
    } else if r == 2 {
        (w >> 8u32) as u8
    } else {
        w as u8
    }
}

/// The 16 bytes of four words, each most significant byte first.
pub open spec fn words_be(ws: Seq<u32>) -> Seq<u8> {
    Seq::new(16, |i: int| be_byte_of(ws[i / 4], i % 4))
}

/// Big-endian word `i` of a 16-byte block.
fn be_word(b: &[u8; 16], i: usize) -> (w: u32)
    requires
        i < 4,
    ensures
        w == key_be_word(b@, i as int),
{
    ((b[4 * i] as u32) << 24u32) | ((b[4 * i + 1] as u32) << 16u32) | ((b[4 * i + 2] as u32) << 8u32)
        | (b[4 * i + 3] as u32)
}

/// One block through CRYP at `base`, from the access record `o0` to `o1`:
/// on success the output is the four words read last from DOUT, big-endian;
/// on a timeout the output is unchanged.
pub open spec fn block_processed(
    base: u32,
    o0: Seq<MmioOp>,
    o1: Seq<MmioOp>,
    input: Seq<u8>,
    out0: Seq<u8>,
    out1: Seq<u8>,
    r: Result<(), CrypError>,
) -> bool {
    &&& r is Err ==> r == Err::<(), CrypError>(CrypError::Timeout) && out1 == out0
    &&& r is Ok ==> {
        let l = o1.len();
        let dout = base.wrapping_add(CRYP_DOUT_OFFSET);
        &&& l >= o0.len() + 8
        &&& forall|i: int|
            l - 4 <= i < l ==> #[trigger] o1[i] == (MmioOp::Read { addr: dout, value: op_value(o1[i]) })
        &&& out1 == words_be(seq![op_value(o1[l - 4]), op_value(o1[l - 3]), op_value(o1[l - 2]), op_value(o1[l - 1])])
    }
}

/// The CRYP1 engine over a register backend.
pub struct Cryp1<M: MmioAccess> {
    mmio: M,
}

impl<M: MmioAccess> Cryp1<M> {
    pub closed spec fn backend(&self) -> M {
        self.mmio
    }

    pub open spec fn base(&self) -> u32 {
        self.backend().base()
    }

    pub open spec fn ops(&self) -> Seq<MmioOp> {
        self.backend().ops()
    }

    pub open spec fn writes(&self) -> Seq<(u32, u32)> {
        writes_of(self.ops())
    }

    /// Whether the backend stores what is written (a register model).
    pub open spec fn is_storage(&self) -> bool {
        self.backend().is_storage()
    }

    /// The value the backend holds for the register at `offset`.
    pub open spec fn cell(&self, offset: u32) -> u32 {
        self.backend().cell(offset)
    }

    pub fn new_with_mmio(mmio: M) -> (s: Self)
        ensures
            s.backend() == mmio,
    {
        Self { mmio }
    }

    /// The register backend.
    pub fn mmio(&self) -> (m: &M)
        ensures
            *m == self.backend(),
    {
        &self.mmio
    }

    /// Write the four words of `b` to the registers at `offs`, in order.
    fn write_words(&mut self, offs: [u32; 4], b: &[u8; 16])
        ensures
            final(self).base() == old(self).base(),
            final(self).ops().len() == old(self).ops().len() + 4,
            extends(final(self).ops(), old(self).ops()),
            final(self).writes() == old(self).writes() + seq![
                (old(self).base().wrapping_add(offs[0]), key_be_word(b@, 0)),
                (old(self).base().wrapping_add(offs[1]), key_be_word(b@, 1)),
                (old(self).base().wrapping_add(offs[2]), key_be_word(b@, 2)),
                (old(self).base().wrapping_add(offs[3]), key_be_word(b@, 3)),
            ],
            final(self).is_storage() == old(self).is_storage(),
            forall|o: u32|
                o != offs[0] && o != offs[1] && o != offs[2] && o != offs[3]
                    ==> #[trigger] final(self).backend().cell(o) == old(self).backend().cell(o),
    {
        let w0 = be_word(b, 0);
        wr(&mut self.mmio, offs[0], w0);
        let w1 = be_word(b, 1);
        wr(&mut self.mmio, offs[1], w1);
        let w2 = be_word(b, 2);
        wr(&mut self.mmio, offs[2], w2);
        let w3 = be_word(b, 3);
        wr(&mut self.mmio, offs[3], w3);
        proof {
            assert(self.writes() =~= old(self).writes() + seq![
                (old(self).base().wrapping_add(offs[0]), key_be_word(b@, 0)),
                (old(self).base().wrapping_add(offs[1]), key_be_word(b@, 1)),
                (old(self).base().wrapping_add(offs[2]), key_be_word(b@, 2)),
                (old(self).base().wrapping_add(offs[3]), key_be_word(b@, 3)),
            ]);
        }
    }

    /// Wait for KEYVALID, failing on KERF; at most `POLL_LIMIT` reads of SR.
    fn wait_key_valid(&mut self) -> (r: Result<(), CrypError>)
        ensures
            final(self).base() == old(self).base(),
            final(self).writes() == old(self).writes(),
            final(self).ops().len() > old(self).ops().len(),
            extends(final(self).ops(), old(self).ops()),
            r != Err::<(), CrypError>(CrypError::Timeout) ==> final(self).ops().last() == (MmioOp::Read {
                addr: old(self).base().wrapping_add(CRYP_SR_OFFSET),
                value: op_value(final(self).ops().last()),
            }),
            r is Ok ==> op_value(final(self).ops().last()) & SR_KEYVALID != 0 && op_value(
                final(self).ops().last(),
            ) & SR_KERF == 0,
            r == Err::<(), CrypError>(CrypError::KeyError) ==> op_value(final(self).ops().last())
                & SR_KERF != 0,
            final(self).is_storage() == old(self).is_storage(),
            forall|o: u32| #[trigger] final(self).backend().cell(o) == old(self).backend().cell(o),
            old(self).is_storage() ==> (r is Ok <==> old(self).cell(CRYP_SR_OFFSET) & SR_KERF == 0
                && old(self).cell(CRYP_SR_OFFSET) & SR_KEYVALID != 0),
    {
        let mut tries: u32 = 0;
        while tries < POLL_LIMIT
            invariant
                self.base() == old(self).base(),
                self.writes() == old(self).writes(),
                extends(self.ops(), old(self).ops()),
                self.is_storage() == old(self).is_storage(),
                forall|o: u32| #[trigger] self.backend().cell(o) == old(self).backend().cell(o),
                old(self).is_storage() && tries > 0 ==> old(self).cell(CRYP_SR_OFFSET) & SR_KERF == 0
                    && old(self).cell(CRYP_SR_OFFSET) & SR_KEYVALID == 0,
            decreases POLL_LIMIT - tries,
        {
            let sr = rd(&mut self.mmio, CRYP_SR_OFFSET);
            if (sr & SR_KERF) != 0 {
                return Err(CrypError::KeyError);
            }
            if (sr & SR_KEYVALID) != 0 {
                return Ok(());
            }
            tries += 1;
        }
        let _ = rd(&mut self.mmio, CRYP_SR_OFFSET);
        Err(CrypError::Timeout)
    }

    /// Read CR and write it back with CRYPEN set.
    fn enable(&mut self)
        ensures
            final(self).base() == old(self).base(),
            final(self).ops().len() == old(self).ops().len() + 2,
            extends(final(self).ops(), old(self).ops()),
            final(self).ops()[old(self).ops().len() as int] == (MmioOp::Read {
                addr: old(self).base().wrapping_add(CRYP_CR_OFFSET),
                value: op_value(final(self).ops()[old(self).ops().len() as int]),
            }),
            final(self).writes() == old(self).writes().push(
                (
                    old(self).base().wrapping_add(CRYP_CR_OFFSET),
                    op_value(final(self).ops()[old(self).ops().len() as int]) | CR_CRYPEN,
                ),
            ),
            rmw_stored(old(self).backend(), final(self).backend(), CRYP_CR_OFFSET, |v: u32| v | CR_CRYPEN),
    {
        let cr = rd(&mut self.mmio, CRYP_CR_OFFSET);
        wr(&mut self.mmio, CRYP_CR_OFFSET, cr | CR_CRYPEN);
    }

    /// Configure AES-128 ECB encryption with the software key `key`: disable,
    /// set the mode, load the key words most significant first, wait for
    /// KEYVALID, enable.
    pub fn configure_ecb_128_sw_key(&mut self, key: &[u8; 16]) -> (r: Result<(), CrypError>)
        ensures
            final(self).base() == old(self).base(),
            ({
                let n = old(self).ops().len() as int;
                let v = op_value(final(self).ops()[n]);
                let cr = old(self).base().wrapping_add(CRYP_CR_OFFSET);
                let setup = seq![(cr, v & !CR_CRYPEN), (cr, ecb_sw_cr(v & !CR_CRYPEN))] + key_writes(
                    old(self).base(),
                    key@,
                );
                &&& final(self).ops()[n] == (MmioOp::Read { addr: cr, value: v })
                &&& r is Ok ==> final(self).writes() == old(self).writes() + setup.push(
                    (cr, op_value(final(self).ops()[final(self).ops().len() - 2]) | CR_CRYPEN),
                )
                &&& r is Err ==> final(self).writes() == old(self).writes() + setup
            }),
            old(self).is_storage() ==> {
                let c = old(self).cell(CRYP_CR_OFFSET);
                let sr = old(self).cell(CRYP_SR_OFFSET);
                &&& op_value(final(self).ops()[old(self).ops().len() as int]) == c
                &&& (r is Ok <==> sr & SR_KERF == 0 && sr & SR_KEYVALID != 0)
                &&& r is Ok ==> op_value(final(self).ops()[final(self).ops().len() - 2]) == ecb_sw_cr(
                    c & !CR_CRYPEN,
                )
            },
    {
        let ghost w0 = self.writes();
        let mut cr = rd(&mut self.mmio, CRYP_CR_OFFSET);
        let ghost o1 = self.ops();
        cr = cr & !CR_CRYPEN;
        wr(&mut self.mmio, CRYP_CR_OFFSET, cr);
        cr = cr & !(1u32 << 19u32);
        cr = cr & !(0x7u32 << 3u32);
        cr = cr | CR_ALGOMODE_ECB;
        cr = cr & !(0x3u32 << 8u32);
        cr = cr & !(0x3u32 << 6u32);
        cr = cr & !(1u32 << 2u32);
        cr = cr & !(0x3u32 << 24u32);
        wr(&mut self.mmio, CRYP_CR_OFFSET, cr);
        self.write_words([CRYP_K2LR_OFFSET, CRYP_K2RR_OFFSET, CRYP_K3LR_OFFSET, CRYP_K3RR_OFFSET], key);
        let ghost o2 = self.ops();
        let ghost w2 = self.writes();
        let k = self.wait_key_valid();
        let ghost n = old(self).ops().len() as int;
        assert(self.ops()[n] == o1[n]);
        if k.is_err() {
            return k;
        }
        let ghost o3 = self.ops();
        self.enable();
        assert(self.ops()[n] == o3[n]);
        Ok(())
    }

    /// Configure AES-128 ECB encryption with the key shared from SAES: disable,
    /// set the mode with KMOD = shared, wait (bounded) for KEYVALID, enable.
    /// No key register is written. The wait ends after `POLL_LIMIT` reads
    /// whether or not the key arrived.
    pub fn configure_ecb_shared(&mut self)
        ensures
            final(self).base() == old(self).base(),
            ({
                let n = old(self).ops().len() as int;
                let v = op_value(final(self).ops()[n]);
                let cr = old(self).base().wrapping_add(CRYP_CR_OFFSET);
                &&& final(self).ops()[n] == (MmioOp::Read { addr: cr, value: v })
                &&& final(self).writes() == old(self).writes() + seq![
                    (cr, v & !CR_CRYPEN),
                    (cr, ecb_shared_cr(v & !CR_CRYPEN)),
                    (cr, op_value(final(self).ops()[final(self).ops().len() - 2]) | CR_CRYPEN),
                ]
            }),
    {
        let mut cr = rd(&mut self.mmio, CRYP_CR_OFFSET);
        let ghost o1 = self.ops();
        cr = cr & !CR_CRYPEN;
        wr(&mut self.mmio, CRYP_CR_OFFSET, cr);
        cr = cr & !(1u32 << 19u32);
        cr = cr & !(0x7u32 << 3u32);
        cr = cr | CR_ALGOMODE_ECB;
        cr = cr & !(0x3u32 << 8u32);
        cr = cr & !(0x3u32 << 6u32);
        cr = cr & !(1u32 << 2u32);
        cr = cr & !(0x3u32 << 24u32);
        cr = cr | (0b10u32 << 24u32);
        wr(&mut self.mmio, CRYP_CR_OFFSET, cr);
        let ghost o2 = self.ops();
        let _ = poll(&mut self.mmio, CRYP_SR_OFFSET, SR_KEYVALID, true);
        let ghost n = old(self).ops().len() as int;
        assert(self.ops()[n] == o2[n]);
        let ghost o3 = self.ops();
        self.enable();
        assert(self.ops()[n] == o3[n]);
    }

    /// Configure AES-128 CTR for DMA transfers with the shared key and the
    /// initial counter block `iv`: disable, flush the FIFOs, set the mode,
    /// load the counter, wait (bounded) for KEYVALID, enable.
    pub fn configure_ctr_shared_for_dma(&mut self, iv: &[u8; 16])
        ensures
            final(self).base() == old(self).base(),
            ({
                let n = old(self).ops().len() as int;
                let v = op_value(final(self).ops()[n]);
                let v1 = op_value(final(self).ops()[n + 3]);
                let cr = old(self).base().wrapping_add(CRYP_CR_OFFSET);
                &&& final(self).ops()[n] == (MmioOp::Read { addr: cr, value: v })
                &&& final(self).ops()[n + 3] == (MmioOp::Read { addr: cr, value: v1 })
                &&& final(self).writes() == old(self).writes() + (seq![
                    (cr, v & !CR_CRYPEN),
                    (cr, (v & !CR_CRYPEN) | CR_FFLUSH),
                    (cr, ctr_shared_dma_cr(v1)),
                ] + iv_writes(old(self).base(), iv@)).push(
                    (cr, op_value(final(self).ops()[final(self).ops().len() - 2]) | CR_CRYPEN),
                )
            }),
    {
        let ghost n = old(self).ops().len() as int;
        let mut cr = rd(&mut self.mmio, CRYP_CR_OFFSET);
        cr = cr & !CR_CRYPEN;
        wr(&mut self.mmio, CRYP_CR_OFFSET, cr);
        wr(&mut self.mmio, CRYP_CR_OFFSET, cr | CR_FFLUSH);
        let mut cr = rd(&mut self.mmio, CRYP_CR_OFFSET);
        let ghost o1 = self.ops();
        cr = cr & !(1u32 << 19u32);
        cr = cr & !(0x7u32 << 3u32);
        cr = cr | CR_ALGOMODE_CTR;
        cr = cr & !(0x3u32 << 8u32);
        cr = cr & !(0x3u32 << 6u32);
        cr = cr | (0b10u32 << 6u32);
        cr = cr & !(1u32 << 2u32);
        cr = cr & !(0x3u32 << 24u32);
        cr = cr | (0b10u32 << 24u32);
        cr = cr & !(0xFu32 << 20u32);
        cr = cr & !(0x3u32 << 16u32);
        wr(&mut self.mmio, CRYP_CR_OFFSET, cr);
        self.write_words([CRYP_IV0LR_OFFSET, CRYP_IV0RR_OFFSET, CRYP_IV1LR_OFFSET, CRYP_IV1RR_OFFSET], iv);
        let ghost o2 = self.ops();
        let _ = poll(&mut self.mmio, CRYP_SR_OFFSET, SR_KEYVALID, true);
        assert(self.ops()[n] == o2[n]);
        assert(self.ops()[n + 3] == o2[n + 3]);
        let ghost o3 = self.ops();
        self.enable();
        assert(self.ops()[n] == o3[n]);
        assert(self.ops()[n + 3] == o3[n + 3]);
        assert(self.writes() =~= old(self).writes() + (seq![
            (old(self).base().wrapping_add(CRYP_CR_OFFSET), op_value(o1[n]) & !CR_CRYPEN),
            (old(self).base().wrapping_add(CRYP_CR_OFFSET), (op_value(o1[n]) & !CR_CRYPEN) | CR_FFLUSH),
            (old(self).base().wrapping_add(CRYP_CR_OFFSET), ctr_shared_dma_cr(op_value(o1[n + 3]))),
        ] + iv_writes(old(self).base(), iv@)).push(
            (old(self).base().wrapping_add(CRYP_CR_OFFSET), op_value(self.ops()[self.ops().len() - 2]) | CR_CRYPEN),
        ));
    }

    /// Let the DMA feed DIN and drain DOUT.
    pub fn enable_dma(&mut self)
        ensures
            final(self).base() == old(self).base(),
            final(self).ops() == old(self).ops().push(
                MmioOp::Write {
                    addr: old(self).base().wrapping_add(CRYP_DMACR_OFFSET),
                    value: DMACR_DIEN | DMACR_DOEN,
                },
            ),
    {
        self.mmio.write(CRYP_DMACR_OFFSET, DMACR_DIEN | DMACR_DOEN);
    }

    /// Stop the DMA requests.
    pub fn disable_dma(&mut self)
        ensures
            final(self).base() == old(self).base(),
            final(self).ops() == old(self).ops().push(
                MmioOp::Write { addr: old(self).base().wrapping_add(CRYP_DMACR_OFFSET), value: 0 },
            ),
    {
        self.mmio.write(CRYP_DMACR_OFFSET, 0);
    }

    /// Whether SR reports a valid key.
    pub fn key_valid(&mut self) -> (b: bool)
        ensures
            final(self).base() == old(self).base(),
            final(self).ops().len() == old(self).ops().len() + 1,
            final(self).ops() == old(self).ops().push(
                MmioOp::Read {
                    addr: old(self).base().wrapping_add(CRYP_SR_OFFSET),
                    value: op_value(final(self).ops().last()),
                },
            ),
            b == (op_value(final(self).ops().last()) & SR_KEYVALID != 0),
    {
        self.mmio.read(CRYP_SR_OFFSET) & SR_KEYVALID != 0
    }

    /// Configure AES-128 CTR with the software key `key` and the initial
    /// counter block `iv`: disable, flush, set the mode, load the counter,
    /// load the key words, wait for KEYVALID, enable.
    pub fn configure_ctr_128_sw_key(&mut self, key: &[u8; 16], iv: &[u8; 16]) -> (r: Result<(), CrypError>)
        ensures
            final(self).base() == old(self).base(),
            ({
                let n = old(self).ops().len() as int;
                let v = op_value(final(self).ops()[n]);
                let v1 = op_value(final(self).ops()[n + 3]);
                let cr = old(self).base().wrapping_add(CRYP_CR_OFFSET);
                let setup = seq![
                    (cr, v & !CR_CRYPEN),
                    (cr, (v & !CR_CRYPEN) | CR_FFLUSH),
                    (cr, ctr_sw_cr(v1)),
                ] + iv_writes(old(self).base(), iv@) + key_writes(old(self).base(), key@);
                &&& final(self).ops()[n] == (MmioOp::Read { addr: cr, value: v })
                &&& final(self).ops()[n + 3] == (MmioOp::Read { addr: cr, value: v1 })
                &&& r is Ok ==> final(self).writes() == old(self).writes() + setup.push(
                    (cr, op_value(final(self).ops()[final(self).ops().len() - 2]) | CR_CRYPEN),
                )
                &&& r is Err ==> final(self).writes() == old(self).writes() + setup
            }),
    {
        let ghost n = old(self).ops().len() as int;
        let mut cr = rd(&mut self.mmio, CRYP_CR_OFFSET);
        cr = cr & !CR_CRYPEN;
        wr(&mut self.mmio, CRYP_CR_OFFSET, cr);
        wr(&mut self.mmio, CRYP_CR_OFFSET, cr | CR_FFLUSH);
        let mut cr = rd(&mut self.mmio, CRYP_CR_OFFSET);
        let ghost o1 = self.ops();
        cr = cr & !(1u32 << 19u32);
        cr = cr & !(0x7u32 << 3u32);
        cr = cr | CR_ALGOMODE_CTR;
        cr = cr & !(0x3u32 << 8u32);
        cr = cr & !(0x3u32 << 6u32);
        cr = cr & !(1u32 << 2u32);
        cr = cr & !(0x3u32 << 24u32);
        cr = cr & !(0xFu32 << 20u32);
        cr = cr & !(0x3u32 << 16u32);
        wr(&mut self.mmio, CRYP_CR_OFFSET, cr);
        self.write_words([CRYP_IV0LR_OFFSET, CRYP_IV0RR_OFFSET, CRYP_IV1LR_OFFSET, CRYP_IV1RR_OFFSET], iv);
        self.write_words([CRYP_K2LR_OFFSET, CRYP_K2RR_OFFSET, CRYP_K3LR_OFFSET, CRYP_K3RR_OFFSET], key);
        let ghost o2 = self.ops();
        let ghost w2 = self.writes();
        assert(w2 =~= old(self).writes() + (seq![
            (old(self).base().wrapping_add(CRYP_CR_OFFSET), op_value(o1[n]) & !CR_CRYPEN),
            (old(self).base().wrapping_add(CRYP_CR_OFFSET), (op_value(o1[n]) & !CR_CRYPEN) | CR_FFLUSH),
            (old(self).base().wrapping_add(CRYP_CR_OFFSET), ctr_sw_cr(op_value(o1[n + 3]))),
        ] + iv_writes(old(self).base(), iv@) + key_writes(old(self).base(), key@)));
        let k = self.wait_key_valid();
        assert(self.ops()[n] == o2[n]);
        assert(self.ops()[n + 3] == o2[n + 3]);
        if k.is_err() {
            return k;
        }
        let ghost o3 = self.ops();
        self.enable();
        assert(self.ops()[n] == o3[n]);
        assert(self.ops()[n + 3] == o3[n + 3]);
        Ok(())
    }

    /// Push one block through the engine: four big-endian words into DIN,
    /// wait (bounded) for the output FIFO, four words out of DOUT stored
    /// big-endian into `output`. On a timeout `output` is left unchanged.
    pub fn process_block(&mut self, input: &[u8; 16], output: &mut [u8; 16]) -> (r: Result<(), CrypError>)
        ensures
            final(self).base() == old(self).base(),
            final(self).writes() == old(self).writes() + din_writes(old(self).base(), input@),
            block_processed(
                old(self).base(),
                old(self).ops(),
                final(self).ops(),
                input@,
                old(output)@,
                final(output)@,
                r,
            ),
            old(self).is_storage() ==> {
                let d = old(self).cell(CRYP_DOUT_OFFSET);
                &&& (r is Ok <==> old(self).cell(CRYP_SR_OFFSET) & SR_OFNE != 0)
                &&& r is Ok ==> final(output)@ == words_be(seq![d, d, d, d])
            },
    {
        self.write_words([CRYP_DIN_OFFSET, CRYP_DIN_OFFSET, CRYP_DIN_OFFSET, CRYP_DIN_OFFSET], input);
        let ready = poll(&mut self.mmio, CRYP_SR_OFFSET, SR_OFNE, true);
        if !ready {
            return Err(CrypError::Timeout);
        }
        let ghost o = self.ops();
        let d0 = rd(&mut self.mmio, CRYP_DOUT_OFFSET);
        let d1 = rd(&mut self.mmio, CRYP_DOUT_OFFSET);
        let d2 = rd(&mut self.mmio, CRYP_DOUT_OFFSET);
        let d3 = rd(&mut self.mmio, CRYP_DOUT_OFFSET);
        assert(self.ops().len() == o.len() + 4);
        assert(op_value(self.ops()[o.len() as int]) == d0);
        assert(op_value(self.ops()[o.len() as int + 1]) == d1);
        assert(op_value(self.ops()[o.len() as int + 2]) == d2);
        assert(op_value(self.ops()[o.len() as int + 3]) == d3);
        output[0] = (d0 >> 24u32) as u8;
        output[1] = (d0 >> 16u32) as u8;
        output[2] = (d0 >> 8u32) as u8;
        output[3] = d0 as u8;
        output[4] = (d1 >> 24u32) as u8;
        output[5] = (d1 >> 16u32) as u8;
        output[6] = (d1 >> 8u32) as u8;
        output[7] = d1 as u8;
        output[8] = (d2 >> 24u32) as u8;
        output[9] = (d2 >> 16u32) as u8;
        output[10] = (d2 >> 8u32) as u8;
        output[11] = d2 as u8;
        output[12] = (d3 >> 24u32) as u8;
        output[13] = (d3 >> 16u32) as u8;
        output[14] = (d3 >> 8u32) as u8;
        output[15] = d3 as u8;
        assert(output@ =~= words_be(seq![d0, d1, d2, d3]));
        Ok(())
    }
}

} // verus!
