//! HASH peripheral: hardware SHA-256 and HMAC-SHA256.
//!
//! Register map: CR 0x00 (INIT bit 2, DMAE bit 3, DATATYPE bits 5:4, MODE bit
//! 6, ALGO bits 18:17), DIN 0x04 (32-bit little-endian words), STR 0x08 (NBLW
//! bits 4:0, DCAL bit 8), HR0..HR4 0x0C..0x1C, SR 0x24 (DINIS bit 0, DCIS
//! bit 1), and HR5..HR7 in a separate bank at 0x324..0x32C. Digest registers
//! are big-endian. In HMAC mode the peripheral pads the key itself: the raw key
//! is fed for the inner pass, then the message, then the raw key again for the
//! outer pass, each stage closed by NBLW and then NBLW with DCAL. Waits on
//! status bits are bounded by `POLL_LIMIT` reads.

use crate::aes::{lemma_unpack, pack_le};
use crate::mmio::{extends, op_value, poll, polled_out, rd, wr, writes_of, MmioAccess, MmioOp, POLL_LIMIT};
use vstd::prelude::*;

verus! {

/// Secure-alias base address of the HASH peripheral.
pub const HASH_BASE_ADDR: u32 = 0x5402_0400;

pub const HASH_CR_OFFSET: u32 = 0x00;
pub const HASH_DIN_OFFSET: u32 = 0x04;
pub const HASH_STR_OFFSET: u32 = 0x08;
/// HR0..HR4.
pub const HASH_HR_OFFSET: u32 = 0x0C;
pub const HASH_SR_OFFSET: u32 = 0x24;
/// HR5..HR7, not contiguous with HR0..HR4.
pub const HASH_HR5_OFFSET: u32 = 0x324;

pub const CR_INIT_BIT: u8 = 2;
pub const CR_DMAE_BIT: u8 = 3;
pub const CR_MODE_HMAC_BIT: u8 = 6;
/// SHA-256: ALGO[1:0] = 0b11 at bits 18:17.
pub const CR_ALGO_SHA256: u32 = 0b11 << 17;
/// DATATYPE = byte swap (bits 5:4 = 0b10).
pub const CR_DATATYPE_BYTE: u32 = 0b10 << 4;

pub const STR_DCAL_BIT: u8 = 8;
pub const SR_DINIS_MASK: u32 = 1 << 0;
pub const SR_DCIS_MASK: u32 = 1 << 1;

/// CR of a plain SHA-256 computation.
pub const CR_SHA256: u32 = CR_ALGO_SHA256 | CR_DATATYPE_BYTE | (1 << 2);
/// CR of an HMAC-SHA256 computation.
pub const CR_HMAC_SHA256: u32 = CR_ALGO_SHA256 | (1 << 6) | CR_DATATYPE_BYTE | (1 << 2);

#[derive(Clone, Copy, Debug, PartialEq, Eq, Structural)]
pub enum Algorithm {
    SHA256,
}

#[derive(Clone, Copy, Debug, PartialEq, Eq, Structural)]
pub enum DataType {
    Width8,
}

/// Placeholder context of the streaming interface.
pub struct HashContext;

/// Errors of the HASH driver.
#[derive(Clone, Copy, Debug, PartialEq, Eq, Structural)]
pub enum HashError {
    /// A status flag never came within the polling budget.
    Timeout,
}

/// Byte `j` of `d`, or 0 past its end.
pub open spec fn byte_or_zero(d: Seq<u8>, j: int) -> u8 {
    if j < d.len() {
        d[j]
    } else {
        0
    }
}

/// DIN word `i` of `d`: four bytes little-endian, the last word zero-extended.
pub open spec fn din_word(d: Seq<u8>, i: int) -> u32 {
    pack_le(
        byte_or_zero(d, 4 * i),
        byte_or_zero(d, 4 * i + 1),
        byte_or_zero(d, 4 * i + 2),
        byte_or_zero(d, 4 * i + 3),
    )
}

/// Valid bits in the last DIN word of a `len`-byte input (0 = a full word).
pub open spec fn nblw(len: nat) -> u32 {
    (8 * (len % 4)) as u32
}

/// The DIN writes that feed `d`.
pub open spec fn feed_writes(base: u32, d: Seq<u8>) -> Seq<(u32, u32)> {
    Seq::new((d.len() + 3) / 4, |i: int| (base.wrapping_add(HASH_DIN_OFFSET), din_word(d, i)))
}

/// One input stage: feed `d`, set NBLW, then NBLW with DCAL.
pub open spec fn stage_writes(base: u32, d: Seq<u8>) -> Seq<(u32, u32)> {
    let s = base.wrapping_add(HASH_STR_OFFSET);
    feed_writes(base, d) + seq![(s, nblw(d.len())), (s, nblw(d.len()) | (1u32 << 8u32))]
}

/// What one stage tells the peripheral: after the DIN words, the NBLW write
/// gives the number of valid bits in the last word (below 32, 0 for a full
/// word), the second STR write repeats it with DCAL (bit 8) set, and the
/// message the peripheral digests is then exactly the `8 * len` bits of the
/// input: all bits of every word but the last, and NBLW bits of the last.
pub proof fn lemma_stage_message_bits(base: u32, d: Seq<u8>)
    ensures
        ({
            let w = stage_writes(base, d);
            let n = feed_writes(base, d).len() as int;
            let nb = w[n].1;
            &&& w.len() == n + 2
            &&& n * 4 >= d.len() && n * 4 < d.len() + 4
            &&& nb < 32
            &&& w[n + 1].1 == nb | 0x100u32
            &&& 32 * n - (if nb == 0 { 0 } else { 32 - nb }) == 8 * d.len()
        }),
{
    let w = stage_writes(base, d);
    let len = d.len();
    let n = feed_writes(base, d).len() as int;
    let nb = nblw(len);
    assert(n == (len + 3) / 4);
    assert(len % 4 < 4);
    assert(nb == 8 * (len % 4));
    assert(w[n].1 == nb);
    assert(w[n + 1].1 == nb | (1u32 << 8u32));
    assert(nb | (1u32 << 8u32) == nb | 0x100u32) by (bit_vector);
    let q = len / 4;
    let r = len % 4;
    assert(len == 4 * q + r);
    if r == 0 {
        assert(n == q);
    } else {
        assert(n == q + 1);
    }
}

/// All writes of an HMAC-SHA256 computation.
pub open spec fn hmac_writes(base: u32, key: Seq<u8>, data: Seq<u8>) -> Seq<(u32, u32)> {
    seq![(base.wrapping_add(HASH_CR_OFFSET), CR_HMAC_SHA256)] + stage_writes(base, key) + stage_writes(
        base,
        data,
    ) + stage_writes(base, key)
}

/// All writes of a SHA-256 computation.
pub open spec fn sha_writes(base: u32, data: Seq<u8>) -> Seq<(u32, u32)> {
    seq![(base.wrapping_add(HASH_CR_OFFSET), CR_SHA256)] + stage_writes(base, data)
}

/// Offset of digest register HR`i`.
pub open spec fn hr_offset(i: int) -> u32 {
    if i < 5 {
        (HASH_HR_OFFSET + 4 * i) as u32
    } else {
        (HASH_HR5_OFFSET + 4 * (i - 5)) as u32
    }
}

/// `ops` ends with reads of HR0..HR7, and `out` starts with their 32
/// big-endian bytes.
pub open spec fn digest_read(base: u32, ops: Seq<MmioOp>, out: Seq<u8>) -> bool {
    let l = ops.len();
    &&& l >= 8
    &&& out.len() >= 32
    &&& forall|i: int|
        0 <= i < 8 ==> #[trigger] ops[l - 8 + i] == (MmioOp::Read {
            addr: base.wrapping_add(hr_offset(i)),
            value: op_value(ops[l - 8 + i]),
        })
    &&& forall|j: int|
        0 <= j < 32 ==> #[trigger] out[j] == crate::cryp::be_byte_of(op_value(ops[l - 8 + j / 4]), j % 4)
}

/// `ops` ends with a whole polling budget of reads of the status register of
/// the HASH at `base`, none showing the flag waited for (DINIS or DCIS): the
/// peripheral stalled.
pub open spec fn hash_stalled(base: u32, ops: Seq<MmioOp>) -> bool {
    &&& ops.len() >= POLL_LIMIT
    &&& ({
        let tail = ops.skip(ops.len() - POLL_LIMIT);
        let sr = base.wrapping_add(HASH_SR_OFFSET);
        polled_out(tail, sr, SR_DINIS_MASK, true) || polled_out(tail, sr, SR_DCIS_MASK, true)
    })
}

proof fn lemma_or_byte(b0: u8, b1: u8, b2: u8, b3: u8)
    by (bit_vector)
    ensures
        pack_le(0, 0, 0, 0) == 0,
        (b0 as u32) << 0u32 == b0 as u32,
        pack_le(0, 0, 0, 0) | (b0 as u32) == pack_le(b0, 0, 0, 0),
        pack_le(b0, 0, 0, 0) | ((b1 as u32) << 8u32) == pack_le(b0, b1, 0, 0),
        pack_le(b0, b1, 0, 0) | ((b2 as u32) << 16u32) == pack_le(b0, b1, b2, 0),
{
}

/// The HASH peripheral over a register backend.
pub struct Hash<M: MmioAccess> {
    mmio: M,
}

impl<M: MmioAccess> Hash<M> {
    pub closed spec fn backend(&self) -> M {
        self.mmio
    }

    pub open spec fn base(&self) -> u32 {
        self.backend().base()
    }

    pub open spec fn ops(&self) -> Seq<MmioOp> {
        self.backend().ops()
    }

    pub open spec fn writes(&self) -> Seq<(u32, u32)> {
        writes_of(self.ops())
    }

    /// Whether the backend stores what is written (a register model).
    pub open spec fn is_storage(&self) -> bool {
        self.backend().is_storage()
    }

    /// The value the backend holds for the register at `offset`.
    pub open spec fn cell(&self, offset: u32) -> u32 {
        self.backend().cell(offset)
    }

    pub fn new_with_mmio(mmio: M) -> (s: Self)
        ensures
            s.backend() == mmio,
    {
        Self { mmio }
    }

    /// The register backend.
    pub fn mmio(&self) -> (m: &M)
        ensures
            *m == self.backend(),
    {
        &self.mmio
    }

    /// Streaming interface: no state is kept.
    pub fn start(&mut self, alg: Algorithm, dt: DataType, key: Option<&[u8]>) -> (c: HashContext)
        ensures
            *final(self) == *old(self),
    {
        HashContext
    }

    /// Streaming interface: nothing is done.
    pub fn update(&mut self, ctx: &mut HashContext, data: &[u8])
        ensures
            *final(self) == *old(self),
    {
    }

    /// Streaming interface: nothing is done.
    pub fn finish(&mut self, ctx: HashContext, digest: &mut [u8])
        ensures
            *final(self) == *old(self),
            final(digest)@ == old(digest)@,
    {
    }

    /// Wait for a status flag (DINIS or DCIS); `false` when the polling
    /// budget ran out.
    fn wait_sr(&mut self, mask: u32) -> (ok: bool)
        requires
            mask == SR_DINIS_MASK || mask == SR_DCIS_MASK,
        ensures
            final(self).base() == old(self).base(),
            extends(final(self).ops(), old(self).ops()),
            final(self).writes() == old(self).writes(),
            !ok ==> final(self).ops().len() == old(self).ops().len() + POLL_LIMIT && hash_stalled(
                old(self).base(),
                final(self).ops(),
            ),
            final(self).backend().is_storage() == old(self).backend().is_storage(),
            forall|o: u32| #[trigger] final(self).backend().cell(o) == old(self).backend().cell(o),
            old(self).is_storage() ==> (ok <==> old(self).cell(HASH_SR_OFFSET) & mask != 0),
    {
        let ghost n = self.ops().len();
        let ok = poll(&mut self.mmio, HASH_SR_OFFSET, mask, true);
        proof {
            if !ok {
                assert(self.ops().skip(n as int).len() == POLL_LIMIT);
                assert(self.ops().len() - POLL_LIMIT == n);
            }
        }
        ok
    }

    /// Feed `data` to DIN as little-endian words, the last partial word
    /// zero-extended (STR.NBLW tells the peripheral how many bits are valid).
    fn feed_data(&mut self, data: &[u8])
        ensures
            final(self).base() == old(self).base(),
            extends(final(self).ops(), old(self).ops()),
            final(self).writes() == old(self).writes() + feed_writes(old(self).base(), data@),
            final(self).backend().is_storage() == old(self).backend().is_storage(),
            forall|o: u32|
                o != HASH_DIN_OFFSET ==> #[trigger] final(self).backend().cell(o) == old(
                    self,
                ).backend().cell(o),
    {
        let ghost din = old(self).base().wrapping_add(HASH_DIN_OFFSET);
        let full_words = data.len() / 4;
        assert(4 * full_words <= data@.len()) by (nonlinear_arith)
            requires
                full_words == data@.len() / 4,
        ;
        let mut i: usize = 0;
        while i < full_words
            invariant
                full_words == data@.len() / 4,
                4 * full_words <= data@.len(),
                i <= full_words,
                self.base() == old(self).base(),
                din == old(self).base().wrapping_add(HASH_DIN_OFFSET),
                extends(self.ops(), old(self).ops()),
                self.writes() == old(self).writes() + Seq::new(i as nat, |k: int| (din, din_word(data@, k))),
                self.backend().is_storage() == old(self).backend().is_storage(),
                forall|o: u32|
                    o != HASH_DIN_OFFSET ==> #[trigger] self.backend().cell(o) == old(self).backend().cell(o),
            decreases full_words - i,
        {
            assert(i * 4 + 3 < data@.len()) by (nonlinear_arith)
                requires
                    i < full_words,
                    4 * full_words <= data@.len(),
            ;
            assert(data@.len() == data.len());
            let w = (data[i * 4] as u32) | ((data[i * 4 + 1] as u32) << 8u32) | ((data[i * 4 + 2] as u32)
                << 16u32) | ((data[i * 4 + 3] as u32) << 24u32);
            wr(&mut self.mmio, HASH_DIN_OFFSET, w);
            proof {
                assert(w == din_word(data@, i as int));
                assert(self.writes() =~= old(self).writes() + Seq::new(
                    (i + 1) as nat,
                    |k: int| (din, din_word(data@, k)),
                ));
            }
            i += 1;
        }
        let tail = data.len() % 4;
        if tail > 0 {
            let mut w: u32 = 0;
            let base = full_words * 4;
            let mut k: usize = 0;
            proof {
                lemma_or_byte(0, 0, 0, 0);
            }
            while k < tail
                invariant
                    tail == data@.len() % 4,
                    0 < tail < 4,
                    base == 4 * full_words,
                    full_words == data@.len() / 4,
                    k <= tail,
                    w == pack_le(
                        if k > 0 { data@[base as int] } else { 0 },
                        if k > 1 { data@[base + 1] } else { 0 },
                        if k > 2 { data@[base + 2] } else { 0 },
                        0,
                    ),
                decreases tail - k,
            {
                proof {
                    let b0 = if k > 0 { data@[base as int] } else { 0u8 };
                    let b1 = if k > 1 { data@[base + 1] } else { 0u8 };
                    let b2 = if k > 2 { data@[base + 2] } else { 0u8 };
                    lemma_or_byte(data@[base + k], b1, b2, 0);
                    lemma_or_byte(b0, data@[base + k], b2, 0);
                    lemma_or_byte(b0, b1, data@[base + k], 0);
                }
                w = w | ((data[base + k] as u32) << ((k * 8) as u32));
                k += 1;
            }
            wr(&mut self.mmio, HASH_DIN_OFFSET, w);
            proof {
                assert(w == din_word(data@, full_words as int));
                assert(self.writes() =~= old(self).writes() + feed_writes(old(self).base(), data@));
            }
        } else {
            proof {
                assert(self.writes() =~= old(self).writes() + feed_writes(old(self).base(), data@));
            }
        }
    }

    /// Feed one input stage: the data, then NBLW, then NBLW with DCAL.
    fn feed_stage(&mut self, d: &[u8])
        ensures
            final(self).base() == old(self).base(),
            extends(final(self).ops(), old(self).ops()),
            final(self).writes() == old(self).writes() + stage_writes(old(self).base(), d@),
            final(self).backend().is_storage() == old(self).backend().is_storage(),
            forall|o: u32|
                o != HASH_DIN_OFFSET && o != HASH_STR_OFFSET ==> #[trigger] final(self).backend().cell(o)
                    == old(self).backend().cell(o),
    {
        self.feed_data(d);
        let nb = (8 * (d.len() % 4)) as u32;
        wr(&mut self.mmio, HASH_STR_OFFSET, nb);
        wr(&mut self.mmio, HASH_STR_OFFSET, nb | (1u32 << STR_DCAL_BIT));
        assert(self.writes() =~= old(self).writes() + stage_writes(old(self).base(), d@));
    }

    /// Read the digest: HR0..HR4 then HR5..HR7, each big-endian, into the
    /// first 32 bytes of `output`.
    fn read_digest(&mut self, output: &mut [u8])
        requires
            old(output)@.len() >= 32,
        ensures
            final(self).base() == old(self).base(),
            extends(final(self).ops(), old(self).ops()),
            final(self).ops().len() == old(self).ops().len() + 8,
            final(self).writes() == old(self).writes(),
            final(output)@.len() == old(output)@.len(),
            digest_read(old(self).base(), final(self).ops(), final(output)@),
            forall|j: int| 32 <= j < old(output)@.len() ==> #[trigger] final(output)@[j] == old(output)@[j],
            final(self).backend().is_storage() == old(self).backend().is_storage(),
            forall|o: u32| #[trigger] final(self).backend().cell(o) == old(self).backend().cell(o),
            old(self).is_storage() ==> forall|k: int|
                0 <= k < 8 ==> op_value(#[trigger] final(self).ops()[old(self).ops().len() + k]) == old(
                    self,
                ).cell(hr_offset(k)),
    {
        let ghost n = old(self).ops().len();
        let mut i: u32 = 0;
        while i < 8
            invariant
                i <= 8,
                self.base() == old(self).base(),
                extends(self.ops(), old(self).ops()),
                self.ops().len() == n + i,
                n == old(self).ops().len(),
                self.writes() == old(self).writes(),
                old(output)@.len() >= 32,
                output@.len() == old(output)@.len(),
                forall|k: int|
                    0 <= k < i ==> #[trigger] self.ops()[n + k] == (MmioOp::Read {
                        addr: old(self).base().wrapping_add(hr_offset(k)),
                        value: op_value(self.ops()[n + k]),
                    }),
                forall|j: int|
                    0 <= j < 4 * i ==> #[trigger] output@[j] == crate::cryp::be_byte_of(
                        op_value(self.ops()[n + j / 4]),
                        j % 4,
                    ),
                forall|j: int| 4 * i <= j < old(output)@.len() ==> #[trigger] output@[j] == old(output)@[j],
                self.backend().is_storage() == old(self).backend().is_storage(),
                forall|o: u32| #[trigger] self.backend().cell(o) == old(self).backend().cell(o),
                old(self).is_storage() ==> forall|k: int|
                    0 <= k < i ==> op_value(#[trigger] self.ops()[n + k]) == old(self).cell(hr_offset(k)),
            decreases 8 - i,
        {
            let off = if i < 5 {
                HASH_HR_OFFSET + i * 4
            } else {
                HASH_HR5_OFFSET + (i - 5) * 4
            };
            assert(off == hr_offset(i as int));
            let w = rd(&mut self.mmio, off);
            let idx = (i as usize) * 4;
            output[idx] = (w >> 24u32) as u8;
            output[idx + 1] = (w >> 16u32) as u8;
            output[idx + 2] = (w >> 8u32) as u8;
            output[idx + 3] = w as u8;
            proof {
                assert forall|j: int| 0 <= j < 4 * (i + 1) implies #[trigger] output@[j]
                    == crate::cryp::be_byte_of(op_value(self.ops()[n + j / 4]), j % 4) by {
                    if j >= 4 * i {
                        assert(j / 4 == i as int);
                    }
                }
            }
            i += 1;
        }
        proof {
            let o = self.ops();
            let l = o.len();
            assert forall|k: int| 0 <= k < 8 implies #[trigger] o[l - 8 + k] == (MmioOp::Read {
                addr: old(self).base().wrapping_add(hr_offset(k)),
                value: op_value(o[l - 8 + k]),
            }) by {
                assert(o[n + k] == (MmioOp::Read {
                    addr: old(self).base().wrapping_add(hr_offset(k)),
                    value: op_value(o[n + k]),
                }));
            }
            assert forall|j: int| 0 <= j < 32 implies #[trigger] output@[j] == crate::cryp::be_byte_of(
                op_value(o[l - 8 + j / 4]),
                j % 4,
            ) by {
                assert(output@[j] == crate::cryp::be_byte_of(op_value(o[n + j / 4]), j % 4));
            }
        }
    }

    /// Hardware HMAC-SHA256 of `data` under `key`, digest into the first 32
    /// bytes of `output`. On a timeout the writes made are a prefix of the full
    /// sequence and `output` is unchanged.
    pub fn hmac_sha256(&mut self, key: &[u8], data: &[u8], output: &mut [u8]) -> (r: Result<(), HashError>)
        requires
            old(output)@.len() >= 32,
        ensures
            final(self).base() == old(self).base(),
            extends(final(self).ops(), old(self).ops()),
            final(output)@.len() == old(output)@.len(),
            final(self).writes().take(old(self).writes().len() as int) == old(self).writes(),
            r is Ok ==> {
                &&& final(self).writes() == old(self).writes() + hmac_writes(old(self).base(), key@, data@)
                &&& digest_read(old(self).base(), final(self).ops(), final(output)@)
                &&& forall|j: int|
                    32 <= j < old(output)@.len() ==> #[trigger] final(output)@[j] == old(output)@[j]
            },
            r is Err ==> {
                &&& r == Err::<(), HashError>(HashError::Timeout)
                &&& final(self).ops().len() >= old(self).ops().len() + POLL_LIMIT
                &&& hash_stalled(old(self).base(), final(self).ops())
                &&& final(output)@ == old(output)@
                &&& final(self).writes().skip(old(self).writes().len() as int).is_prefix_of(
                    hmac_writes(old(self).base(), key@, data@),
                )
            },
            old(self).is_storage() ==> {
                let sr = old(self).cell(HASH_SR_OFFSET);
                &&& (r is Ok <==> sr & SR_DINIS_MASK != 0 && sr & SR_DCIS_MASK != 0)
                &&& r is Ok ==> forall|k: int|
                    0 <= k < 8 ==> op_value(
                        #[trigger] final(self).ops()[final(self).ops().len() - 8 + k],
                    ) == old(self).cell(hr_offset(k))
            },
    {
        let ghost w0 = self.writes();
        let ghost base = self.base();
        let ghost full = hmac_writes(base, key@, data@);
        let ghost s1 = seq![(base.wrapping_add(HASH_CR_OFFSET), CR_HMAC_SHA256)];
        let ghost s2 = s1 + stage_writes(base, key@);
        let ghost s3 = s2 + stage_writes(base, data@);
        assert(s3 + stage_writes(base, key@) == full);
        wr(&mut self.mmio, HASH_CR_OFFSET, CR_HMAC_SHA256);
        assert(self.writes() =~= w0 + s1);
        if !self.wait_sr(SR_DINIS_MASK) {
            proof {
                assert(self.writes().take(w0.len() as int) =~= w0);
                assert(self.writes().skip(w0.len() as int) =~= s1);
                assert(s1 =~= full.take(1));
            }
            return Err(HashError::Timeout);
        }
        self.feed_stage(key);
        assert(self.writes() =~= w0 + s2);
        if !self.wait_sr(SR_DINIS_MASK) {
            proof {
                assert(self.writes().take(w0.len() as int) =~= w0);
                assert(self.writes().skip(w0.len() as int) =~= s2);
                assert(s2 =~= full.take(s2.len() as int));
            }
            return Err(HashError::Timeout);
        }
        self.feed_stage(data);
        assert(self.writes() =~= w0 + s3);
        if !self.wait_sr(SR_DINIS_MASK) {
            proof {
                assert(self.writes().take(w0.len() as int) =~= w0);
                assert(self.writes().skip(w0.len() as int) =~= s3);
                assert(s3 =~= full.take(s3.len() as int));
            }
            return Err(HashError::Timeout);
        }
        self.feed_stage(key);
        assert(self.writes() =~= w0 + full);
        if !self.wait_sr(SR_DCIS_MASK) {
            proof {
                assert(self.writes().take(w0.len() as int) =~= w0);
                assert(self.writes().skip(w0.len() as int) =~= full);
            }
            return Err(HashError::Timeout);
        }
        assert forall|k: int| 0 <= k < 8 implies hr_offset(k) != HASH_DIN_OFFSET && hr_offset(k)
            != HASH_STR_OFFSET && hr_offset(k) != HASH_CR_OFFSET by {}
        let ghost nd = self.ops().len();
        self.read_digest(output);
        proof {
            assert(self.writes().take(w0.len() as int) =~= w0);
            assert(self.ops().len() - 8 == nd);
        }
        Ok(())
    }

    /// Hardware SHA-256 of `data` (padding done by the peripheral), digest into
    /// the first 32 bytes of `output`. On a timeout the writes made are a
    /// prefix of the full sequence and `output` is unchanged.
    pub fn sha256(&mut self, data: &[u8], output: &mut [u8]) -> (r: Result<(), HashError>)
        requires
            old(output)@.len() >= 32,
        ensures
            final(self).base() == old(self).base(),
            extends(final(self).ops(), old(self).ops()),
            final(output)@.len() == old(output)@.len(),
            final(self).writes().take(old(self).writes().len() as int) == old(self).writes(),
            r is Ok ==> {
                &&& final(self).writes() == old(self).writes() + sha_writes(old(self).base(), data@)
                &&& digest_read(old(self).base(), final(self).ops(), final(output)@)
                &&& forall|j: int|
                    32 <= j < old(output)@.len() ==> #[trigger] final(output)@[j] == old(output)@[j]
            },
            r is Err ==> {
                &&& r == Err::<(), HashError>(HashError::Timeout)
                &&& final(self).ops().len() >= old(self).ops().len() + POLL_LIMIT
                &&& hash_stalled(old(self).base(), final(self).ops())
                &&& final(output)@ == old(output)@
                &&& final(self).writes().skip(old(self).writes().len() as int).is_prefix_of(
                    sha_writes(old(self).base(), data@),
                )
            },
    {
        let ghost w0 = self.writes();
        let ghost base = self.base();
        let ghost full = sha_writes(base, data@);
        let ghost s1 = seq![(base.wrapping_add(HASH_CR_OFFSET), CR_SHA256)];
        wr(&mut self.mmio, HASH_CR_OFFSET, CR_SHA256);
        assert(self.writes() =~= w0 + s1);
        if !self.wait_sr(SR_DINIS_MASK) {
            proof {
                assert(self.writes().take(w0.len() as int) =~= w0);
                assert(self.writes().skip(w0.len() as int) =~= s1);
                assert(s1 =~= full.take(1));
            }
            return Err(HashError::Timeout);
        }
        self.feed_stage(data);
        assert(self.writes() =~= w0 + full);
        if !self.wait_sr(SR_DCIS_MASK) {
            proof {
                assert(self.writes().take(w0.len() as int) =~= w0);
                assert(self.writes().skip(w0.len() as int) =~= full);
            }
            return Err(HashError::Timeout);
        }
        self.read_digest(output);
        proof {
            assert(self.writes().take(w0.len() as int) =~= w0);
        }
        Ok(())
    }
}

/// SHA-256 of "abc" (FIPS 180-4, example B.1).
pub const SHA256_ABC: [u8; 32] = [
    0xba, 0x78, 0x16, 0xbf, 0x8f, 0x01, 0xcf, 0xea, 0x41, 0x41, 0x40, 0xde, 0x5d, 0xae, 0x22, 0x23, 0xb0,
    0x03, 0x61, 0xa3, 0x96, 0x17, 0x7a, 0x9c, 0xb4, 0x10, 0xff, 0x61, 0xf2, 0x00, 0x15, 0xad,
];

/// The digest the last eight reads of `ops` (HR0..HR7) give, big-endian.
pub open spec fn hw_digest(ops: Seq<MmioOp>) -> Seq<u8> {
    Seq::new(32, |j: int| crate::cryp::be_byte_of(op_value(ops[ops.len() - 8 + j / 4]), j % 4))
}

/// Known-answer test of the HASH peripheral: SHA-256 of "abc" against the
/// FIPS 180-4 vector, so that a wrong (not merely inconsistent) digest is
/// caught before the measurement chain relies on it. `Ok(pass)` when the
/// peripheral completed, `pass` telling whether the digest matched.
pub fn sha256_known_answer<M: MmioAccess>(hash: &mut Hash<M>) -> (r: Result<bool, HashError>)
    ensures
        final(hash).base() == old(hash).base(),
        extends(final(hash).ops(), old(hash).ops()),
        final(hash).writes().take(old(hash).writes().len() as int) == old(hash).writes(),
        r is Ok ==> {
            &&& final(hash).writes() == old(hash).writes() + sha_writes(old(hash).base(), seq![0x61u8, 0x62, 0x63])
            &&& final(hash).ops().len() >= 8
            &&& (r->Ok_0 <==> hw_digest(final(hash).ops()) == SHA256_ABC@)
        },
        r is Err ==> final(hash).ops().len() >= old(hash).ops().len() + POLL_LIMIT && hash_stalled(
            old(hash).base(),
            final(hash).ops(),
        ),
        r is Err ==> r == Err::<bool, HashError>(HashError::Timeout) && final(hash).writes().skip(
            old(hash).writes().len() as int,
        ).is_prefix_of(sha_writes(old(hash).base(), seq![0x61u8, 0x62, 0x63])),
{
    let abc: [u8; 3] = [0x61, 0x62, 0x63];
    let mut out = [0u8; 32];
    let r = hash.sha256(abc.as_slice(), &mut out);
    proof {
        assert(abc@ =~= seq![0x61u8, 0x62, 0x63]);
    }
    match r {
        Err(e) => Err(e),
        Ok(()) => {
            proof {
                assert(out@ =~= hw_digest(hash.ops()));
            }
            let mut i: usize = 0;
            let mut same = true;
            while i < 32
                invariant
                    i <= 32,
                    same <==> forall|j: int| 0 <= j < i ==> out@[j] == SHA256_ABC@[j],
                decreases 32 - i,
            {
                if out[i] != SHA256_ABC[i] {
                    same = false;
                }
                i += 1;
            }
            proof {
                if same {
                    assert(out@ =~= SHA256_ABC@);
                }
            }
            Ok(same)
        },
    }
}

} // verus!
