//! SAES1: wrapping a key under the hardware-unique key (DHUK) and unwrapping a
//! wrapped key straight into CRYP over the shared-key bus.
//!
//! Register layout: CR 0x00 (EN bit 0, MODE[4:3], KEYSIZE bit 18,
//! KMOD[25:24], KSHAREID[27:26], KEYSEL[30:28]), SR 0x04 (CCF bit 0, KEYVALID
//! bit 7), DINR 0x08, DOUTR 0x0C, ICR 0x308 (bit 0 clears CCF). Waits on status
//! bits are bounded by `POLL_LIMIT` reads; the computation-complete flag is
//! polled and then cleared.

use crate::aes::key_be_word;
use crate::mmio::{
    extends, le_byte, op_value, poll, rd, wr, writes_of, MmioAccess, MmioOp,
};
use crate::aes::pack_le;
use vstd::prelude::*;

verus! {

pub const SAES_BASE_ADDR: u32 = 0x5402_1000;

pub const SAES_CR_OFFSET: u32 = 0x00;
pub const SAES_SR_OFFSET: u32 = 0x04;
pub const SAES_DINR_OFFSET: u32 = 0x08;
pub const SAES_DOUTR_OFFSET: u32 = 0x0C;
pub const SAES_KEYR0_OFFSET: u32 = 0x10;
pub const SAES_ICR_OFFSET: u32 = 0x308;

pub const SR_CCF: u32 = 1 << 0;
pub const SR_KEYVALID: u32 = 1 << 7;
pub const ICR_CCF: u32 = 1 << 0;

/// CR for the DHUK key and the shared-key mode, with `mode` in MODE[4:3]:
/// KEYSIZE = 128, KEYSEL = DHUK, KMOD = shared, KSHAREID = CRYP.
pub open spec fn dhuk_cr(v: u32, mode: u32) -> u32 {
    let a = v & !(1u32 << 18u32);
    let b = (a & !(0x7u32 << 28u32)) | (0b001u32 << 28u32);
    let c = (b & !(0x3u32 << 24u32)) | (0b10u32 << 24u32);
    let d = c & !(0x3u32 << 26u32);
    (d & !(0x3u32 << 3u32)) | (mode << 3u32)
}

/// The writes of `wrap_under_dhuk` when CR read `v` first and `v2` when it
/// was enabled, and `v3` when it was disabled at the end.
pub open spec fn wrap_writes(base: u32, key: Seq<u8>, v: u32, v2: u32, v3: u32) -> Seq<(u32, u32)> {
    let cr = base.wrapping_add(SAES_CR_OFFSET);
    let din = base.wrapping_add(SAES_DINR_OFFSET);
    seq![
        (cr, v & !1u32),
        (cr, dhuk_cr(v & !1u32, 0)),
        (cr, v2 | 1),
        (din, key_be_word(key, 0)),
        (din, key_be_word(key, 1)),
        (din, key_be_word(key, 2)),
        (din, key_be_word(key, 3)),
        (base.wrapping_add(SAES_ICR_OFFSET), ICR_CCF),
        (cr, v3 & !1u32),
    ]
}

/// The writes of `unwrap_and_share_to_cryp` for the CR values read along the
/// way (`v` first, then `v1`, `v2`, `v3`, `v4`).
pub open spec fn unwrap_writes(
    base: u32,
    blob: Seq<u8>,
    v: u32,
    v1: u32,
    v2: u32,
    v3: u32,
    v4: u32,
) -> Seq<(u32, u32)> {
    let cr = base.wrapping_add(SAES_CR_OFFSET);
    let din = base.wrapping_add(SAES_DINR_OFFSET);
    let icr = base.wrapping_add(SAES_ICR_OFFSET);
    seq![
        (cr, v & !1u32),
        (cr, dhuk_cr(v & !1u32, 0b01)),
        (cr, v1 | 1),
        (icr, ICR_CCF),
        (cr, (v2 & !(0x3u32 << 3u32)) | (0b10u32 << 3u32)),
        (cr, v3 | 1),
        (din, pack_le(blob[0], blob[1], blob[2], blob[3])),
        (din, pack_le(blob[4], blob[5], blob[6], blob[7])),
        (din, pack_le(blob[8], blob[9], blob[10], blob[11])),
        (din, pack_le(blob[12], blob[13], blob[14], blob[15])),
        (icr, ICR_CCF),
        (cr, v4 & !1u32),
    ]
}

/// Sixteen bytes from four words, each least significant byte first.
pub open spec fn words_le(ws: Seq<u32>) -> Seq<u8> {
    Seq::new(16, |i: int| le_byte(ws[i / 4], i % 4))
}

/// SAES1 over a register backend.
pub struct Saes<M: MmioAccess> {
    mmio: M,
}

impl<M: MmioAccess> Saes<M> {
    pub closed spec fn backend(&self) -> M {
        self.mmio
    }

    pub open spec fn base(&self) -> u32 {
        self.backend().base()
    }

    pub open spec fn ops(&self) -> Seq<MmioOp> {
        self.backend().ops()
    }

    pub open spec fn writes(&self) -> Seq<(u32, u32)> {
        writes_of(self.ops())
    }

    /// Whether the backend stores what is written (a register model).
    pub open spec fn is_storage(&self) -> bool {
        self.backend().is_storage()
    }

    /// The value the backend holds for the register at `offset`.
    pub open spec fn cell(&self, offset: u32) -> u32 {
        self.backend().cell(offset)
    }

    pub fn new_with_mmio(mmio: M) -> (s: Self)
        ensures
            s.backend() == mmio,
    {
        Self { mmio }
    }

    /// The register backend.
    pub fn mmio(&self) -> (m: &M)
        ensures
            *m == self.backend(),
    {
        &self.mmio
    }

    /// Wait (bounded) for the computation-complete flag, then clear it.
    fn wait_ccf(&mut self)
        ensures
            final(self).base() == old(self).base(),
            extends(final(self).ops(), old(self).ops()),
            final(self).writes() == old(self).writes().push(
                (old(self).base().wrapping_add(SAES_ICR_OFFSET), ICR_CCF),
            ),
    {
        let _ = poll(&mut self.mmio, SAES_SR_OFFSET, SR_CCF, true);
        wr(&mut self.mmio, SAES_ICR_OFFSET, ICR_CCF);
    }

    /// Wrap `key` under the DHUK: encrypt it in the shared-key mode, feeding
    /// it through DINR (never the key registers), and return the four DOUTR
    /// words, little-endian.
    pub fn wrap_under_dhuk(&mut self, key: &[u8; 16]) -> (blob: [u8; 16])
        ensures
            final(self).base() == old(self).base(),
            ({
                let o = final(self).ops();
                let l = o.len();
                let n = old(self).ops().len() as int;
                let dout = old(self).base().wrapping_add(SAES_DOUTR_OFFSET);
                &&& l >= n + 8
                &&& o[n] == (MmioOp::Read {
                    addr: old(self).base().wrapping_add(SAES_CR_OFFSET),
                    value: op_value(o[n]),
                })
                &&& exists|v2: u32|
                    #[trigger] wrap_writes(old(self).base(), key@, op_value(o[n]), v2, op_value(o[l - 2]))
                        == final(self).writes().skip(old(self).writes().len() as int)
                &&& final(self).writes().take(old(self).writes().len() as int) == old(self).writes()
                &&& final(self).writes().len() == old(self).writes().len() + 9
                &&& forall|i: int|
                    l - 6 <= i < l - 2 ==> #[trigger] o[i] == (MmioOp::Read { addr: dout, value: op_value(o[i]) })
                &&& blob@ == words_le(seq![op_value(o[l - 6]), op_value(o[l - 5]), op_value(o[l - 4]), op_value(o[l - 3])])
                &&& old(self).is_storage() ==> op_value(o[n]) == old(self).cell(SAES_CR_OFFSET)
            }),
    {
        let ghost n = old(self).ops().len() as int;
        let ghost w0 = self.writes();
        let mut cr = rd(&mut self.mmio, SAES_CR_OFFSET);
        let ghost v = cr;
        cr = cr & !1u32;
        wr(&mut self.mmio, SAES_CR_OFFSET, cr);
        cr = cr & !(1u32 << 18u32);
        cr = cr & !(0x7u32 << 28u32);
        cr = cr | (0b001u32 << 28u32);
        cr = cr & !(0x3u32 << 24u32);
        cr = cr | (0b10u32 << 24u32);
        cr = cr & !(0x3u32 << 26u32);
        cr = cr & !(0x3u32 << 3u32);
        wr(&mut self.mmio, SAES_CR_OFFSET, cr);
        assert(cr == dhuk_cr(v & !1u32, 0)) by (bit_vector)
            requires
                cr == ((((((((v & !1u32) & !(1u32 << 18u32)) & !(0x7u32 << 28u32)) | (0b001u32 << 28u32))
                    & !(0x3u32 << 24u32)) | (0b10u32 << 24u32)) & !(0x3u32 << 26u32)) & !(0x3u32
                    << 3u32)),
        ;
        let ghost o1 = self.ops();
        let _ = poll(&mut self.mmio, SAES_SR_OFFSET, SR_KEYVALID, true);
        assert(self.ops()[n] == o1[n]);
        let cr2 = rd(&mut self.mmio, SAES_CR_OFFSET);
        wr(&mut self.mmio, SAES_CR_OFFSET, cr2 | 1);
        let mut w: usize = 0;
        while w < 4
            invariant
                w <= 4,
                self.base() == old(self).base(),
                extends(self.ops(), o1),
                self.writes() == w0 + seq![
                    (old(self).base().wrapping_add(SAES_CR_OFFSET), v & !1u32),
                    (old(self).base().wrapping_add(SAES_CR_OFFSET), dhuk_cr(v & !1u32, 0)),
                    (old(self).base().wrapping_add(SAES_CR_OFFSET), cr2 | 1),
                ] + Seq::new(
                    w as nat,
                    |j: int| (old(self).base().wrapping_add(SAES_DINR_OFFSET), key_be_word(key@, j)),
                ),
            decreases 4 - w,
        {
            let word = ((key[w * 4] as u32) << 24u32) | ((key[w * 4 + 1] as u32) << 16u32) | ((key[w
                * 4 + 2] as u32) << 8u32) | (key[w * 4 + 3] as u32);
            wr(&mut self.mmio, SAES_DINR_OFFSET, word);
            proof {
                assert(self.writes() =~= w0 + seq![
                    (old(self).base().wrapping_add(SAES_CR_OFFSET), v & !1u32),
                    (old(self).base().wrapping_add(SAES_CR_OFFSET), dhuk_cr(v & !1u32, 0)),
                    (old(self).base().wrapping_add(SAES_CR_OFFSET), cr2 | 1),
                ] + Seq::new(
                    (w + 1) as nat,
                    |j: int| (old(self).base().wrapping_add(SAES_DINR_OFFSET), key_be_word(key@, j)),
                ));
            }
            w += 1;
        }
        self.wait_ccf();
        let mut blob = [0u8; 16];
        let ghost o3 = self.ops();
        let mut w: usize = 0;
        while w < 4
            invariant
                w <= 4,
                self.base() == old(self).base(),
                extends(self.ops(), o3),
                self.ops().len() == o3.len() + w,
                self.writes() == writes_of(o3),
                forall|i: int|
                    0 <= i < w ==> #[trigger] self.ops()[o3.len() + i] == (MmioOp::Read {
                        addr: old(self).base().wrapping_add(SAES_DOUTR_OFFSET),
                        value: op_value(self.ops()[o3.len() + i]),
                    }),
                forall|j: int|
                    0 <= j < 4 * w ==> #[trigger] blob@[j] == le_byte(op_value(self.ops()[o3.len() + j / 4]), j % 4),
            decreases 4 - w,
        {
            let d = rd(&mut self.mmio, SAES_DOUTR_OFFSET);
            blob[w * 4] = d as u8;
            blob[w * 4 + 1] = (d >> 8u32) as u8;
            blob[w * 4 + 2] = (d >> 16u32) as u8;
            blob[w * 4 + 3] = (d >> 24u32) as u8;
            proof {
                assert forall|j: int| 0 <= j < 4 * (w + 1) implies #[trigger] blob@[j] == le_byte(
                    op_value(self.ops()[o3.len() + j / 4]),
                    j % 4,
                ) by {
                    if j >= 4 * w {
                        assert(j / 4 == w as int);
                    }
                }
            }
            w += 1;
        }
        let ghost o4 = self.ops();
        let cr3 = rd(&mut self.mmio, SAES_CR_OFFSET);
        wr(&mut self.mmio, SAES_CR_OFFSET, cr3 & !1u32);
        proof {
            let o = self.ops();
            let l = o.len();
            assert(o[n] == o1[n]);
            assert(l == o4.len() + 2);
            assert(forall|i: int| 0 <= i < o4.len() ==> o[i] == #[trigger] o4[i]);
            assert(op_value(o[l - 2]) == cr3);
            assert forall|i: int| l - 6 <= i < l - 2 implies #[trigger] o[i] == (MmioOp::Read {
                addr: old(self).base().wrapping_add(SAES_DOUTR_OFFSET),
                value: op_value(o[i]),
            }) by {
                let k = i - o3.len();
                assert(o4[o3.len() + k] == (MmioOp::Read {
                    addr: old(self).base().wrapping_add(SAES_DOUTR_OFFSET),
                    value: op_value(o4[o3.len() + k]),
                }));
            }
            assert(blob@ =~= words_le(seq![op_value(o[l - 6]), op_value(o[l - 5]), op_value(o[l - 4]), op_value(o[l - 3])]));
            assert(self.writes().take(w0.len() as int) =~= w0);
            assert(wrap_writes(old(self).base(), key@, v, cr2, cr3) =~= self.writes().skip(w0.len() as int));
        }
        blob
    }

    /// Decrypt the wrapped `blob` under the DHUK straight into CRYP over the
    /// shared-key bus: key-derivation mode, then decryption mode, feeding the
    /// blob through DINR (never the key registers).
    pub fn unwrap_and_share_to_cryp(&mut self, blob: &[u8; 16])
        ensures
            final(self).base() == old(self).base(),
            ({
                let o = final(self).ops();
                let n = old(self).ops().len() as int;
                &&& o.len() > n
                &&& o[n] == (MmioOp::Read {
                    addr: old(self).base().wrapping_add(SAES_CR_OFFSET),
                    value: op_value(o[n]),
                })
                &&& final(self).writes().take(old(self).writes().len() as int) == old(self).writes()
                &&& final(self).writes().len() == old(self).writes().len() + 12
                &&& extends(o, old(self).ops())
                &&& old(self).is_storage() ==> op_value(o[n]) == old(self).cell(SAES_CR_OFFSET)
                &&& exists|v1: u32, v2: u32, v3: u32, v4: u32|
                    #[trigger] unwrap_writes(old(self).base(), blob@, op_value(o[n]), v1, v2, v3, v4)
                        == final(self).writes().skip(old(self).writes().len() as int)
            }),
    {
        let ghost n = old(self).ops().len() as int;
        let ghost w0 = self.writes();
        let mut cr = rd(&mut self.mmio, SAES_CR_OFFSET);
        let ghost v = cr;
        let ghost o1 = self.ops();
        cr = cr & !1u32;
        wr(&mut self.mmio, SAES_CR_OFFSET, cr);
        cr = cr & !(1u32 << 18u32);
        cr = cr & !(0x7u32 << 28u32);
        cr = cr | (0b001u32 << 28u32);
        cr = cr & !(0x3u32 << 24u32);
        cr = cr | (0b10u32 << 24u32);
        cr = cr & !(0x3u32 << 26u32);
        cr = cr & !(0x3u32 << 3u32);
        cr = cr | (0b01u32 << 3u32);
        wr(&mut self.mmio, SAES_CR_OFFSET, cr);
        assert(cr == dhuk_cr(v & !1u32, 0b01)) by (bit_vector)
            requires
                cr == (((((((((v & !1u32) & !(1u32 << 18u32)) & !(0x7u32 << 28u32)) | (0b001u32 << 28u32))
                    & !(0x3u32 << 24u32)) | (0b10u32 << 24u32)) & !(0x3u32 << 26u32)) & !(0x3u32
                    << 3u32)) | (0b01u32 << 3u32)),
        ;
        let cr1 = rd(&mut self.mmio, SAES_CR_OFFSET);
        wr(&mut self.mmio, SAES_CR_OFFSET, cr1 | 1);
        self.wait_ccf();
        let mut cr2 = rd(&mut self.mmio, SAES_CR_OFFSET);
        let ghost v2 = cr2;
        cr2 = cr2 & !(0x3u32 << 3u32);
        cr2 = cr2 | (0b10u32 << 3u32);
        wr(&mut self.mmio, SAES_CR_OFFSET, cr2);
        let cr3 = rd(&mut self.mmio, SAES_CR_OFFSET);
        wr(&mut self.mmio, SAES_CR_OFFSET, cr3 | 1);
        let ghost w1 = self.writes();
        let mut w: usize = 0;
        while w < 4
            invariant
                w <= 4,
                self.base() == old(self).base(),
                extends(self.ops(), o1),
                self.writes() == w1 + Seq::new(
                    w as nat,
                    |j: int|
                        (
                            old(self).base().wrapping_add(SAES_DINR_OFFSET),
                            pack_le(blob[4 * j], blob[4 * j + 1], blob[4 * j + 2], blob[4 * j + 3]),
                        ),
                ),
            decreases 4 - w,
        {
            let word = (blob[w * 4] as u32) | ((blob[w * 4 + 1] as u32) << 8u32) | ((blob[w * 4 + 2]
                as u32) << 16u32) | ((blob[w * 4 + 3] as u32) << 24u32);
            wr(&mut self.mmio, SAES_DINR_OFFSET, word);
            proof {
                assert(self.writes() =~= w1 + Seq::new(
                    (w + 1) as nat,
                    |j: int|
                        (
                            old(self).base().wrapping_add(SAES_DINR_OFFSET),
                            pack_le(blob[4 * j], blob[4 * j + 1], blob[4 * j + 2], blob[4 * j + 3]),
                        ),
                ));
            }
            w += 1;
        }
        self.wait_ccf();
        let cr4 = rd(&mut self.mmio, SAES_CR_OFFSET);
        wr(&mut self.mmio, SAES_CR_OFFSET, cr4 & !1u32);
        proof {
            assert(self.ops()[n] == o1[n]);
            assert(self.writes().take(w0.len() as int) =~= w0);
            assert(unwrap_writes(old(self).base(), blob@, v, cr1, v2, cr3, cr4) =~= self.writes().skip(
                w0.len() as int,
            ));
        }
    }
}

} // verus!
