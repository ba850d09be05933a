//! Provision-if-absent of the DHUK-wrapped encryption key and its hand-over
//! to CRYP over the SAES shared-key bus.
//!
//! The backup-SRAM slot holds the key wrapped under the hardware-unique key,
//! tagged with the first four bytes of HMAC(enc_key, "umbra-dhuk-tag") so that
//! a key rotated by a rebuild is noticed and re-provisioned. The wrapped blob
//! is then unwrapped into CRYP, and CRYP must report a valid key: the boot does
//! not go on without one.

use crate::aes::keyreg::AesHardware;
use crate::aes::{pack_le, AesEngine};
use crate::bkpsram::{slot_in, Bkpsram, Slot, SLOT_MAGIC};
use crate::cryp::{be_byte_of, words_be, Cryp1, CrypError, CRYP_DOUT_OFFSET, CRYP_SR_OFFSET, SR_KEYVALID};
use crate::hash::{hash_stalled, hmac_writes, hr_offset, HASH_SR_OFFSET};
use crate::mmio::{op_value, MmioAccess, MmioOp};
use crate::mmio::{extends, POLL_LIMIT};
use crate::saes::{unwrap_writes, words_le, wrap_writes, Saes, SAES_DOUTR_OFFSET};
use vstd::prelude::*;

verus! {

/// What happened to the wrapped key.
#[derive(Clone, Copy, Debug, PartialEq, Eq, Structural)]
pub enum DhukOutcome {
    /// The slot held a blob for this key; it was reused.
    Reused,
    /// The key was wrapped afresh and the slot rewritten.
    Provisioned,
}

/// Why provisioning failed.
#[derive(Clone, Copy, Debug, PartialEq, Eq, Structural)]
pub enum DhukError {
    /// CRYP does not report a valid shared key afterwards.
    ShareFailed,
}

/// The label of the rotated-key detection tag.
pub open spec fn tag_label() -> Seq<u8> {
    seq![0x75u8, 0x6d, 0x62, 0x72, 0x61, 0x2d, 0x64, 0x68, 0x75, 0x6b, 0x2d, 0x74, 0x61, 0x67]
}

/// The tag: the first four digest bytes, little-endian, where the digest was
/// read last in `ops` (HR0 is eight reads from the end).
pub open spec fn tag_of(ops: Seq<MmioOp>) -> u32 {
    let hr0 = op_value(ops[ops.len() - 8]);
    pack_le(be_byte_of(hr0, 0), be_byte_of(hr0, 1), be_byte_of(hr0, 2), be_byte_of(hr0, 3))
}

/// The SAES writes `w` are exactly those of unwrapping `blob` into CRYP.
pub open spec fn only_unwrap(base: u32, w: Seq<(u32, u32)>, blob: Seq<u8>) -> bool {
    exists|v: u32, v1: u32, v2: u32, v3: u32, v4: u32|
        #[trigger] unwrap_writes(base, blob, v, v1, v2, v3, v4) == w
}

/// The SAES writes `w` wrap `key` under the DHUK and then unwrap `blob`.
pub open spec fn wrap_then_unwrap(base: u32, w: Seq<(u32, u32)>, key: Seq<u8>, blob: Seq<u8>) -> bool {
    &&& w.len() >= 9
    &&& exists|v: u32, v2: u32, v3: u32| #[trigger] wrap_writes(base, key, v, v2, v3) == w.take(9)
    &&& only_unwrap(base, w.skip(9), blob)
}

/// The SAES writes `w` end with unwrapping `blob`, after wrapping `key` or
/// after nothing.
pub open spec fn unwraps(base: u32, w: Seq<(u32, u32)>, key: Seq<u8>, blob: Seq<u8>) -> bool {
    only_unwrap(base, w, blob) || wrap_then_unwrap(base, w, key, blob)
}

/// `blob` is the block read from the output register of SAES at `base` in
/// the four accesses of `o` before position `m - 2`.
pub open spec fn read_out_at(base: u32, o: Seq<MmioOp>, m: int, blob: Seq<u8>) -> bool {
    &&& 6 <= m <= o.len()
    &&& forall|i: int|
        m - 6 <= i < m - 2 ==> #[trigger] o[i] == (MmioOp::Read {
            addr: base.wrapping_add(SAES_DOUTR_OFFSET),
            value: op_value(o[i]),
        })
    &&& blob == words_le(seq![op_value(o[m - 6]), op_value(o[m - 5]), op_value(o[m - 4]), op_value(o[m - 3])])
}

/// The tag computed from the HMAC whose accesses end `ops`: its first four
/// digest bytes, or 0 when the HMAC stalled and left its buffer zero.
pub open spec fn dhuk_tag(base: u32, ops: Seq<MmioOp>) -> u32 {
    if hash_stalled(base, ops) {
        0
    } else {
        tag_of(ops)
    }
}

/// Wrap `enc_key` under the DHUK unless the slot already holds a blob for it,
/// then share it to CRYP and check that CRYP reports a valid key.
pub fn provision_and_share_enc_key<H: MmioAccess, B: MmioAccess, S: MmioAccess, C: MmioAccess>(
    hash: &mut crate::hash::Hash<H>,
    bk: &mut Bkpsram<B>,
    saes: &mut Saes<S>,
    cryp: &mut Cryp1<C>,
    enc_key: &[u8; 16],
) -> (r: Result<DhukOutcome, DhukError>)
    ensures
        final(hash).base() == old(hash).base(),
        final(cryp).base() == old(cryp).base(),
        ({
            let tag = dhuk_tag(old(hash).base(), final(hash).ops());
            &&& !hash_stalled(old(hash).base(), final(hash).ops()) ==> final(hash).writes() == old(
                hash,
            ).writes() + hmac_writes(old(hash).base(), enc_key@, tag_label())
            &&& (old(bk).is_storage() || r == Ok::<DhukOutcome, DhukError>(DhukOutcome::Provisioned))
                ==> slot_in(final(bk).cells()).0 == SLOT_MAGIC && slot_in(final(bk).cells()).1 == tag
            &&& r == Ok::<DhukOutcome, DhukError>(DhukOutcome::Reused) ==> final(bk).cells() == old(
                bk,
            ).cells()
            &&& old(bk).is_storage() ==> (r == Ok::<DhukOutcome, DhukError>(DhukOutcome::Reused)
                <==> slot_in(old(bk).cells()).0 == SLOT_MAGIC && slot_in(old(bk).cells()).1 == tag)
                || r == Err::<DhukOutcome, DhukError>(DhukError::ShareFailed)
            &&& final(cryp).ops().last() == (MmioOp::Read {
                addr: old(cryp).base().wrapping_add(CRYP_SR_OFFSET),
                value: op_value(final(cryp).ops().last()),
            })
            &&& (r is Ok <==> op_value(final(cryp).ops().last()) & SR_KEYVALID != 0)
            &&& exists|blob: Seq<u8>|
                #[trigger] unwraps(
                    old(saes).base(),
                    final(saes).writes().skip(old(saes).writes().len() as int),
                    enc_key@,
                    blob,
                ) && ({
                    ||| only_unwrap(
                        old(saes).base(),
                        final(saes).writes().skip(old(saes).writes().len() as int),
                        blob,
                    ) && final(bk).cells() == old(bk).cells() && (old(bk).is_storage() ==> blob
                        == slot_in(old(bk).cells()).2) && (r is Ok ==> r == Ok::<DhukOutcome, DhukError>(
                        DhukOutcome::Reused,
                    ))
                    ||| wrap_then_unwrap(
                        old(saes).base(),
                        final(saes).writes().skip(old(saes).writes().len() as int),
                        enc_key@,
                        blob,
                    ) && slot_in(final(bk).cells()).2 == blob && (exists|m: int|
                        old(saes).ops().len() <= m && #[trigger] read_out_at(
                            old(saes).base(),
                            final(saes).ops(),
                            m,
                            blob,
                        )) && (r is Ok ==> r == Ok::<DhukOutcome, DhukError>(DhukOutcome::Provisioned))
                })
            &&& final(saes).writes().take(old(saes).writes().len() as int) == old(saes).writes()
        }),
{
    let label: [u8; 14] = [0x75, 0x6d, 0x62, 0x72, 0x61, 0x2d, 0x64, 0x68, 0x75, 0x6b, 0x2d, 0x74, 0x61, 0x67];
    assert(label@ =~= tag_label());
    let mut mac = [0u8; 32];
    let ghost mac0 = mac@;
    let hr = hash.hmac_sha256(enc_key.as_slice(), label.as_slice(), &mut mac);
    let ghost hops = hash.ops();
    let tag = (mac[0] as u32) | ((mac[1] as u32) << 8u32) | ((mac[2] as u32) << 16u32) | ((mac[3] as u32)
        << 24u32);
    proof {
        let hb = old(hash).base();
        if hr.is_ok() {
            assert(tag == tag_of(hops)) by {
                assert(mac@[0] == be_byte_of(op_value(hops[hops.len() - 8 + 0]), 0));
                assert(mac@[1] == be_byte_of(op_value(hops[hops.len() - 8 + 0]), 1));
                assert(mac@[2] == be_byte_of(op_value(hops[hops.len() - 8 + 0]), 2));
                assert(mac@[3] == be_byte_of(op_value(hops[hops.len() - 8 + 0]), 3));
            }
            assert(!hash_stalled(hb, hops)) by {
                let l = hops.len() as int;
                assert(hops[l - 8 + 7] == (MmioOp::Read {
                    addr: hb.wrapping_add(hr_offset(7)),
                    value: op_value(hops[l - 8 + 7]),
                }));
                if hash_stalled(hb, hops) {
                    let tail = hops.skip(l - POLL_LIMIT);
                    assert(tail[POLL_LIMIT - 1] == hops[l - 1]);
                    assert(hb.wrapping_add(hr_offset(7)) != hb.wrapping_add(HASH_SR_OFFSET));
                }
            }
        } else {
            assert(mac@ == mac0);
            assert(mac0[0] == 0 && mac0[1] == 0 && mac0[2] == 0 && mac0[3] == 0);
            assert(((0u8 as u32) | ((0u8 as u32) << 8u32) | ((0u8 as u32) << 16u32) | ((0u8 as u32)
                << 24u32)) == 0u32) by (bit_vector);
        }
    }
    let ghost c0 = bk.cells();
    let ghost w0 = saes.writes();
    let ghost o0 = saes.ops();
    let slot = bk.read_slot();
    let outcome;
    let blob: [u8; 16] = if slot.magic == SLOT_MAGIC && slot.tag == tag {
        outcome = DhukOutcome::Reused;
        slot.blob
    } else {
        outcome = DhukOutcome::Provisioned;
        let b = saes.wrap_under_dhuk(enc_key);
        bk.write_slot(&Slot { magic: SLOT_MAGIC, tag, blob: b });
        b
    };
    let ghost w1 = saes.writes();
    let ghost o1 = saes.ops();
    saes.unwrap_and_share_to_cryp(&blob);
    proof {
        let wf = saes.writes();
        let (v, v1, v2, v3, v4) = choose|v: u32, v1: u32, v2: u32, v3: u32, v4: u32|
            #[trigger] unwrap_writes(saes.base(), blob@, v, v1, v2, v3, v4) == wf.skip(w1.len() as int);
        let w = wf.skip(w0.len() as int);
        assert(wf.take(w1.len() as int) == w1);
        if outcome == DhukOutcome::Reused {
            assert(w1 == w0);
            assert(w =~= wf.skip(w1.len() as int));
            assert(unwrap_writes(old(saes).base(), blob@, v, v1, v2, v3, v4) == w);
            assert(only_unwrap(old(saes).base(), w, blob@));
        } else {
            let nn = o0.len() as int;
            assert(exists|v2: u32|
                #[trigger] wrap_writes(
                    old(saes).base(),
                    enc_key@,
                    op_value(o1[nn]),
                    v2,
                    op_value(o1[o1.len() - 2]),
                ) == w1.skip(w0.len() as int));
            let (u, u2, u3) = choose|u: u32, u2: u32, u3: u32|
                #[trigger] wrap_writes(old(saes).base(), enc_key@, u, u2, u3) == w1.skip(w0.len() as int);
            assert(w1.take(w0.len() as int) == w0);
            assert(w1.len() == w0.len() + 9);
            assert forall|i: int| 0 <= i < 9 implies #[trigger] w.take(9)[i] == w1.skip(w0.len() as int)[i] by {
                assert(wf.take(w1.len() as int)[w0.len() + i] == w1[w0.len() + i]);
            }
            assert(w.take(9) =~= w1.skip(w0.len() as int));
            assert(w.skip(9) =~= wf.skip(w1.len() as int));
            assert(unwrap_writes(old(saes).base(), blob@, v, v1, v2, v3, v4) == w.skip(9));
            assert(only_unwrap(old(saes).base(), w.skip(9), blob@));
            assert(wrap_writes(old(saes).base(), enc_key@, u, u2, u3) == w.take(9));
            let m = o1.len() as int;
            assert forall|i: int| m - 6 <= i < m - 2 implies #[trigger] saes.ops()[i] == (MmioOp::Read {
                addr: old(saes).base().wrapping_add(SAES_DOUTR_OFFSET),
                value: op_value(saes.ops()[i]),
            }) by {
                assert(saes.ops()[i] == o1[i]);
            }
            assert(saes.ops()[m - 6] == o1[m - 6]);
            assert(saes.ops()[m - 5] == o1[m - 5]);
            assert(saes.ops()[m - 4] == o1[m - 4]);
            assert(saes.ops()[m - 3] == o1[m - 3]);
            assert(read_out_at(old(saes).base(), saes.ops(), m, blob@));
        }
        assert(wf.take(w0.len() as int) =~= w0);
        assert(unwraps(old(saes).base(), w, enc_key@, blob@));
    }
    cryp.configure_ecb_shared();
    if cryp.key_valid() {
        Ok(outcome)
    } else {
        Err(DhukError::ShareFailed)
    }
}

/// The known block of the shared-key check (NIST SP 800-38A, F.1.1, block 1).
pub const KAT_PLAINTEXT: [u8; 16] = [
    0x6b, 0xc1, 0xbe, 0xe2, 0x2e, 0x40, 0x9f, 0x96, 0xe9, 0x3d, 0x7e, 0x11, 0x73, 0x93, 0x17, 0x2a,
];

/// Self-consistency check of the key shared into CRYP: no fixed vector can
/// exist (the key changes with every build), so the software engine keyed
/// with `enc_key` is the oracle. CRYP is set to ECB on the shared key and
/// encrypts `KAT_PLAINTEXT`; the software engine, set up with `enc_key`,
/// encrypts it too. `Ok(true)` when the two ciphertexts agree; `Err` when
/// CRYP never produced its output.
pub fn shared_key_self_test<M: MmioAccess, S: AesEngine>(hw: &mut AesHardware<M>, sw: &mut S, enc_key: &[u8; 16]) -> (r:
    Result<bool, CrypError>)
    requires
        old(sw).engine_wf(),
    ensures
        final(sw).engine_wf(),
        final(hw).engine().base() == old(hw).engine().base(),
        r is Err ==> r == Err::<bool, CrypError>(CrypError::Timeout),
        r is Ok ==> ({
            let o = final(hw).engine().ops();
            let l = o.len();
            let hw_ct = words_be(seq![op_value(o[l - 4]), op_value(o[l - 3]), op_value(o[l - 2]), op_value(o[l - 1])]);
            &&& l >= 4
            &&& forall|i: int|
                l - 4 <= i < l ==> #[trigger] o[i] == (MmioOp::Read {
                    addr: old(hw).engine().base().wrapping_add(CRYP_DOUT_OFFSET),
                    value: op_value(o[i]),
                })
            &&& (r->Ok_0 <==> hw_ct == final(sw).block_enc(KAT_PLAINTEXT@))
        }),
{
    hw.init(enc_key.as_slice(), None);
    let pt = KAT_PLAINTEXT;
    let mut hw_ct = [0u8; 16];
    let e = hw.encrypt_block(&pt, &mut hw_ct);
    if e.is_err() {
        return Err(CrypError::Timeout);
    }
    sw.init(enc_key.as_slice(), None);
    let mut sw_ct = [0u8; 16];
    sw.encrypt_block(&pt, &mut sw_ct);
    let mut i: usize = 0;
    let mut same = true;
    while i < 16
        invariant
            i <= 16,
            same <==> forall|j: int| 0 <= j < i ==> hw_ct@[j] == sw_ct@[j],
        decreases 16 - i,
    {
        if hw_ct[i] != sw_ct[i] {
            same = false;
        }
        i += 1;
    }
    proof {
        if same {
            assert(hw_ct@ =~= sw_ct@);
        }
    }
    Ok(same)
}

} // verus!
