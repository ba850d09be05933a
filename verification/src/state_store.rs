//! Sector stores of the state-continuity probes: a RAM stand-in with two
//! A/B slots per logical sector, and the flash-backed probe store that
//! writes a fixed pattern to each sector, plus the reports the probes print.

use crate::hash::{digest_read, hash_stalled, sha_writes, HashError};
use crate::mmio::{extends, MmioAccess, POLL_LIMIT};
use crate::state_flash::{
    sector_addr, write_state_sector, FlashCmd, StateFlashError, XspiFlash, MAX_STATE_SECTORS,
    SLOT_COUNT,
};
use vstd::prelude::*;

verus! {

/// Version of the serialized snapshot layout, bound into the anchor root so
/// that a binary with another layout refuses an old snapshot.
pub const STATE_FORMAT_VERSION: u32 = 1;

/// Bytes of one RAM stand-in sector slot.
pub const PROBE_SECTOR_BYTES: usize = 32;

/// Bytes of one state sector.
pub const STATE_SECTOR_SIZE: usize = 4096;

/// The pending content of sector `i` after `set_pending(seed)`.
pub open spec fn seeded_sector(seed: u8, i: int) -> Seq<u8> {
    Seq::new(PROBE_SECTOR_BYTES as nat, |j: int| seed.wrapping_add(i as u8))
}

/// RAM stand-in for the flash sectors: per logical sector a pending buffer
/// and two committed slots.
pub struct RamSectorStore {
    stored: Vec<[u8; PROBE_SECTOR_BYTES]>,
    pending: Vec<[u8; PROBE_SECTOR_BYTES]>,
}

impl RamSectorStore {
    /// Committed content of slot `slot` of sector `idx`.
    pub closed spec fn stored_at(&self, idx: int, slot: int) -> Seq<u8> {
        self.stored@[idx * 2 + slot]@
    }

    /// Pending content of sector `idx`.
    pub closed spec fn pending_at(&self, idx: int) -> Seq<u8> {
        self.pending@[idx]@
    }

    pub closed spec fn wf(&self) -> bool {
        &&& self.stored@.len() == 2 * MAX_STATE_SECTORS
        &&& self.pending@.len() == MAX_STATE_SECTORS
    }

    /// Every slot and every pending buffer zero.
    pub fn new() -> (s: Self)
        ensures
            s.wf(),
            forall|i: int, k: int|
                0 <= i < MAX_STATE_SECTORS && 0 <= k < SLOT_COUNT ==> #[trigger] s.stored_at(i, k)
                    == Seq::new(PROBE_SECTOR_BYTES as nat, |j: int| 0u8),
            forall|i: int|
                0 <= i < MAX_STATE_SECTORS ==> #[trigger] s.pending_at(i) == Seq::new(
                    PROBE_SECTOR_BYTES as nat,
                    |j: int| 0u8,
                ),
    {
        let mut stored: Vec<[u8; PROBE_SECTOR_BYTES]> = Vec::new();
        let mut pending: Vec<[u8; PROBE_SECTOR_BYTES]> = Vec::new();
        let zero = [0u8; PROBE_SECTOR_BYTES];
        assert(zero@ =~= Seq::new(PROBE_SECTOR_BYTES as nat, |j: int| 0u8));
        let mut i: usize = 0;
        while i < 2 * MAX_STATE_SECTORS
            invariant
                i <= 2 * MAX_STATE_SECTORS,
                stored@.len() == i,
                pending@.len() == if i < MAX_STATE_SECTORS { i as int } else { MAX_STATE_SECTORS as int },
                zero@ == Seq::new(PROBE_SECTOR_BYTES as nat, |j: int| 0u8),
                forall|t: int| 0 <= t < stored@.len() ==> #[trigger] stored@[t]@ == zero@,
                forall|t: int| 0 <= t < pending@.len() ==> #[trigger] pending@[t]@ == zero@,
            decreases 2 * MAX_STATE_SECTORS - i,
        {
            stored.push(zero);
            if i < MAX_STATE_SECTORS {
                pending.push(zero);
            }
            i += 1;
        }
        let s = RamSectorStore { stored, pending };
        assert forall|i: int, k: int|
            0 <= i < MAX_STATE_SECTORS && 0 <= k < SLOT_COUNT implies #[trigger] s.stored_at(i, k)
            == Seq::new(PROBE_SECTOR_BYTES as nat, |j: int| 0u8) by {
            assert(0 <= i * 2 + k < 2 * MAX_STATE_SECTORS);
        }
        s
    }

    /// Load a deterministic snapshot: sector `i` becomes all `seed + i`.
    pub fn set_pending(&mut self, seed: u8)
        requires
            old(self).wf(),
        ensures
            final(self).wf(),
            forall|i: int| 0 <= i < MAX_STATE_SECTORS ==> #[trigger] final(self).pending_at(i) == seeded_sector(seed, i),
            forall|i: int, k: int| #[trigger] final(self).stored_at(i, k) == old(self).stored_at(i, k),
    {
        let mut i: usize = 0;
        while i < MAX_STATE_SECTORS
            invariant
                i <= MAX_STATE_SECTORS,
                self.wf(),
                self.stored@ == old(self).stored@,
                forall|t: int| 0 <= t < i ==> #[trigger] self.pending_at(t) == seeded_sector(seed, t),
            decreases MAX_STATE_SECTORS - i,
        {
            let v = seed.wrapping_add(i as u8);
            let buf = [v; PROBE_SECTOR_BYTES];
            assert(buf@ =~= seeded_sector(seed, i as int));
            let ghost before = *self;
            self.pending.set(i, buf);
            proof {
                assert forall|t: int| 0 <= t < i + 1 implies #[trigger] self.pending_at(t) == seeded_sector(seed, t) by {
                    if t < i {
                        assert(self.pending@[t] == before.pending@[t]);
                        assert(before.pending_at(t) == seeded_sector(seed, t));
                    } else {
                        assert(self.pending@[t] == buf);
                    }
                }
            }
            i += 1;
        }
    }

    /// Corrupt the committed slot `slot` of sector `idx` (first byte flipped).
    pub fn tamper(&mut self, idx: usize, slot: usize)
        requires
            old(self).wf(),
            idx < MAX_STATE_SECTORS,
            slot < SLOT_COUNT,
        ensures
            final(self).wf(),
            final(self).stored_at(idx as int, slot as int) == old(self).stored_at(idx as int, slot as int).update(
                0,
                old(self).stored_at(idx as int, slot as int)[0] ^ 0xFF,
            ),
            forall|i: int, k: int|
                0 <= i < MAX_STATE_SECTORS && 0 <= k < SLOT_COUNT && (i != idx || k != slot)
                    ==> #[trigger] final(self).stored_at(i, k) == old(self).stored_at(i, k),
            forall|i: int| #[trigger] final(self).pending_at(i) == old(self).pending_at(i),
    {
        let t = idx * 2 + slot;
        let mut buf = self.stored[t];
        buf[0] = buf[0] ^ 0xFF;
        self.stored.set(t, buf);
        assert forall|i: int, k: int|
            0 <= i < MAX_STATE_SECTORS && 0 <= k < SLOT_COUNT && (i != idx || k != slot) implies
            #[trigger] self.stored_at(i, k) == old(self).stored_at(i, k) by {
            assert(i * 2 + k != t);
        }
    }

    /// Commit the pending content of sector `idx` into slot `slot`.
    pub fn stage(&mut self, idx: usize, slot: usize) -> (r: Result<(), ()>)
        requires
            old(self).wf(),
            idx < MAX_STATE_SECTORS,
            slot < SLOT_COUNT,
        ensures
            final(self).wf(),
            r is Ok,
            final(self).stored_at(idx as int, slot as int) == old(self).pending_at(idx as int),
            forall|i: int, k: int|
                0 <= i < MAX_STATE_SECTORS && 0 <= k < SLOT_COUNT && (i != idx || k != slot)
                    ==> #[trigger] final(self).stored_at(i, k) == old(self).stored_at(i, k),
            forall|i: int| #[trigger] final(self).pending_at(i) == old(self).pending_at(i),
    {
        let t = idx * 2 + slot;
        let buf = self.pending[idx];
        self.stored.set(t, buf);
        assert forall|i: int, k: int|
            0 <= i < MAX_STATE_SECTORS && 0 <= k < SLOT_COUNT && (i != idx || k != slot) implies
            #[trigger] self.stored_at(i, k) == old(self).stored_at(i, k) by {
            assert(i * 2 + k != t);
        }
        Ok(())
    }

    /// SHA-256 of the committed slot `slot` of sector `idx` on the hash
    /// peripheral.
    pub fn read_digest<M: MmioAccess>(&self, hash: &mut crate::hash::Hash<M>, idx: usize, slot: usize) -> (r:
        Result<[u8; 32], HashError>)
        requires
            self.wf(),
            idx < MAX_STATE_SECTORS,
            slot < SLOT_COUNT,
        ensures
            final(hash).base() == old(hash).base(),
            extends(final(hash).ops(), old(hash).ops()),
            r is Ok ==> final(hash).writes() == old(hash).writes() + sha_writes(
                old(hash).base(),
                self.stored_at(idx as int, slot as int),
            ) && digest_read(old(hash).base(), final(hash).ops(), r->Ok_0@),
            r is Err ==> r == Err::<[u8; 32], HashError>(HashError::Timeout) && final(hash).ops().len() >= old(
                hash,
            ).ops().len() + POLL_LIMIT && hash_stalled(old(hash).base(), final(hash).ops()),
    {
        let t = idx * 2 + slot;
        let mut out = [0u8; 32];
        let data = self.stored[t];
        match hash.sha256(data.as_slice(), &mut out) {
            Ok(()) => Ok(out),
            Err(e) => Err(e),
        }
    }
}

/// Outcome of the RAM-sector continuity probe.
pub struct ProbeReport {
    /// Generation of an anchor that survived a reset, if one did.
    pub anchor_survived_gen: Option<u32>,
    /// Anchor generation after the probe's checkpoint.
    pub committed_gen: u32,
    /// The restore right after the commit resumed.
    pub resumed_ok: bool,
    /// The restore after tampering one committed sector refused.
    pub tamper_rejected: bool,
}

/// Outcome of the flash continuity probe.
pub struct FlashContinuityReport {
    /// The restore over the persisted flash matched the anchor.
    pub resumed: bool,
    /// The anchor generation when resumed, else that of the new checkpoint.
    pub gen: u32,
    /// Low word of the anchor's stored root.
    pub stored_root: u32,
    /// Low word of the root recomputed over the persisted flash.
    pub recomp_root: u32,
    /// Low word of a second recomputation over the same digests.
    pub recomp_root2: u32,
    /// First word of sector 0's committed slot.
    pub sec0_raw: u32,
}

/// The pattern the flash probe writes to sector `idx`: byte 0 is the
/// sector index, the rest zero.
pub open spec fn probe_pattern(idx: usize) -> Seq<u8> {
    Seq::new(STATE_SECTOR_SIZE as nat, |j: int| if j == 0 { idx as u8 } else { 0u8 })
}

/// Flash-backed sector store of the flash continuity probe.
pub struct FlashProbeStore;

impl FlashProbeStore {
    /// Write the probe pattern of sector `idx` into slot `slot` of the state
    /// region (see [`write_state_sector`]); any flash failure is reported as
    /// `Err(())`.
    pub fn stage<X: XspiFlash, M: MmioAccess>(&mut self, x: &mut X, scb: &mut M, idx: usize, slot: usize) -> (r:
        Result<(), ()>)
        ensures
            exists|bytes: Seq<u8>, w: Result<(), StateFlashError>|
                bytes == probe_pattern(idx) && #[trigger] write_sector_outcome(
                    old(x).cmds(),
                    final(x).cmds(),
                    idx,
                    slot,
                    bytes,
                    w,
                ) && (r is Ok <==> w is Ok),
    {
        let mut pattern = [0u8; STATE_SECTOR_SIZE];
        pattern[0] = idx as u8;
        assert(pattern@ =~= probe_pattern(idx));
        let w = write_state_sector(x, scb, idx, slot, &pattern);
        assert(write_sector_outcome(old(x).cmds(), x.cmds(), idx, slot, pattern@, w));
        match w {
            Ok(()) => Ok(()),
            Err(_) => Err(()),
        }
    }
}

/// What [`write_state_sector`] states of a call on `bytes` that took the
/// command log from `c0` to `c` with result `w`.
pub open spec fn write_sector_outcome(
    c0: Seq<FlashCmd>,
    c: Seq<FlashCmd>,
    idx: usize,
    slot: usize,
    bytes: Seq<u8>,
    w: Result<(), StateFlashError>,
) -> bool {
    &&& idx >= MAX_STATE_SECTORS ==> w == Err::<(), StateFlashError>(StateFlashError::IndexOutOfRange)
        && c == c0
    &&& idx < MAX_STATE_SECTORS && slot >= SLOT_COUNT ==> w == Err::<(), StateFlashError>(
        StateFlashError::SlotOutOfRange,
    ) && c == c0
    &&& idx < MAX_STATE_SECTORS && slot < SLOT_COUNT ==> {
        let base = sector_addr(idx as int, slot as int) as u32;
        let n = c0.len() as int;
        &&& c.len() >= n + 2
        &&& c.take(n) == c0
        &&& c[n] == FlashCmd::EnterIndirect
        &&& c.last() == FlashCmd::RestoreMemoryMapped
        &&& w is Ok ==> exists|st: Seq<u8>|
            st.len() == 17 && (forall|i: int| 0 <= i < 17 ==> #[trigger] st[i] & 2 != 0)
                && #[trigger] crate::state_flash::sector_write_cmds(base, bytes, st) == c.subrange(
                n + 1,
                c.len() - 1,
            )
    }
}

} // verus!
