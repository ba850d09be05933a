//! The decisions of the eviction and prefetch machinery around the enclave
//! code window: which MPU program to apply when a range of the code region is
//! hidden or revealed, which fault belongs to a hidden range, and which
//! enclave image is resident in the shared window. The copies themselves
//! (DMA to and from the SRAM backings) are made by the caller between these
//! steps.

use crate::mmio::{MmioAccess, MmioOp};
use crate::mpu::{rbar_of, region_ops, rlar_of, set_code_region, CODE_REGION, RBAR_RO_ANY};
use vstd::prelude::*;

verus! {

/// Bytes of one code block.
pub const BLOCK_BYTES: u32 = 256;

/// Capacity of the SRAM backing of an evicted tail.
pub const TAIL_BACKING_BYTES: u32 = 8192;

/// Enclave images that share the code window.
pub const NUM_SLOTS: usize = 2;

/// The MPU program that sets region 5 to `[base, limit]`, read-only and
/// executable.
pub open spec fn code_region_ops(mpu_base: u32, base: u32, limit: u32) -> Seq<MmioOp> {
    region_ops(mpu_base, CODE_REGION, rbar_of(base, RBAR_RO_ANY), rlar_of(limit))
}

// ---------------------------------------------------------------------------
// One-shot hide of the entry block
// ---------------------------------------------------------------------------

/// State of the hide-and-restore of an enclave's entry block.
#[derive(Clone, Copy, Debug)]
pub struct MpuEvictState {
    pub evicted_once: bool,
    pub active: bool,
    pub orig_base: u32,
    pub orig_limit: u32,
    pub hidden_lo: u32,
    pub hidden_hi: u32,
    pub restores: u32,
}

/// First address left visible after hiding the front `bytes` of a region
/// starting at `code_base`.
pub open spec fn front_cut(code_base: u32, bytes: u32) -> u32 {
    ((code_base + bytes) as u32) & 0xFFFF_FFE0
}

/// The state after `evict_front(code_base, code_limit, bytes)`.
pub open spec fn after_evict_front(s: MpuEvictState, code_base: u32, code_limit: u32, bytes: u32) -> MpuEvictState {
    if s.evicted_once {
        s
    } else {
        MpuEvictState {
            evicted_once: true,
            active: true,
            orig_base: code_base,
            orig_limit: code_limit,
            hidden_lo: code_base,
            hidden_hi: front_cut(code_base, bytes),
            restores: s.restores,
        }
    }
}

/// A fault at `addr` is in the hidden front range.
pub open spec fn restore_claims(s: MpuEvictState, addr: u32) -> bool {
    s.active && s.hidden_lo <= addr && addr < s.hidden_hi
}

/// The state after `restore(addr)`.
pub open spec fn after_restore(s: MpuEvictState, addr: u32) -> MpuEvictState {
    if restore_claims(s, addr) {
        MpuEvictState { active: false, restores: s.restores.wrapping_add(1), ..s }
    } else {
        s
    }
}

/// Hides the front block of the enclave code region once, and restores the
/// full region when a fault hits the hidden range.
pub struct MpuEvict {
    st: MpuEvictState,
}

impl View for MpuEvict {
    type V = MpuEvictState;

    closed spec fn view(&self) -> MpuEvictState {
        self.st
    }
}

impl MpuEvict {
    /// Nothing hidden yet.
    pub fn new() -> (e: Self)
        ensures
            !e@.evicted_once,
            !e@.active,
            e@.restores == 0,
    {
        MpuEvict {
            st: MpuEvictState {
                evicted_once: false,
                active: false,
                orig_base: 0,
                orig_limit: 0,
                hidden_lo: 0,
                hidden_hi: 0,
                restores: 0,
            },
        }
    }

    /// Hide the front `bytes` of the code region `[code_base, code_limit]` by
    /// moving region 5's base up, the first time only (later calls, such as
    /// the re-entry after a preemption, change nothing).
    pub fn evict_front<M: MmioAccess>(&mut self, mpu: &mut M, code_base: u32, code_limit: u32, bytes: u32)
        requires
            code_base + bytes <= u32::MAX,
        ensures
            final(self)@ == after_evict_front(old(self)@, code_base, code_limit, bytes),
            final(mpu).base() == old(mpu).base(),
            final(mpu).ops() == if old(self)@.evicted_once {
                old(mpu).ops()
            } else {
                old(mpu).ops() + code_region_ops(old(mpu).base(), front_cut(code_base, bytes), code_limit)
            },
    {
        if self.st.evicted_once {
            return;
        }
        let new_base = (code_base + bytes) & 0xFFFF_FFE0;
        self.st = MpuEvictState {
            evicted_once: true,
            active: true,
            orig_base: code_base,
            orig_limit: code_limit,
            hidden_lo: code_base,
            hidden_hi: new_base,
            restores: self.st.restores,
        };
        set_code_region(mpu, new_base, code_limit, RBAR_RO_ANY);
    }

    /// Fault hook: if `fault_addr` is in the hidden range, give region 5 back
    /// its full extent and answer `true` (the faulting access re-executes);
    /// otherwise change nothing and answer `false`.
    pub fn restore<M: MmioAccess>(&mut self, mpu: &mut M, fault_addr: u32) -> (r: bool)
        ensures
            r == restore_claims(old(self)@, fault_addr),
            final(self)@ == after_restore(old(self)@, fault_addr),
            final(mpu).base() == old(mpu).base(),
            final(mpu).ops() == if r {
                old(mpu).ops() + code_region_ops(old(mpu).base(), old(self)@.orig_base, old(self)@.orig_limit)
            } else {
                old(mpu).ops()
            },
    {
        if !self.st.active {
            return false;
        }
        if fault_addr < self.st.hidden_lo || fault_addr >= self.st.hidden_hi {
            return false;
        }
        set_code_region(mpu, self.st.orig_base, self.st.orig_limit, RBAR_RO_ANY);
        self.st.active = false;
        self.st.restores = self.st.restores.wrapping_add(1);
        true
    }
}

/// Law of the entry-block hide: once hidden, a fault in the hidden range
/// restores the region exactly once, a second fault there is no longer
/// claimed, and a second hide changes nothing.
pub proof fn lemma_evict_restore_once(
    s: MpuEvictState,
    code_base: u32,
    code_limit: u32,
    bytes: u32,
    addr: u32,
)
    requires
        !s.evicted_once,
        code_base <= addr,
        addr < front_cut(code_base, bytes),
    ensures
        restore_claims(after_evict_front(s, code_base, code_limit, bytes), addr),
        after_restore(after_evict_front(s, code_base, code_limit, bytes), addr).orig_base == code_base,
        after_restore(after_evict_front(s, code_base, code_limit, bytes), addr).orig_limit == code_limit,
        !restore_claims(after_restore(after_evict_front(s, code_base, code_limit, bytes), addr), addr),
        after_evict_front(after_evict_front(s, code_base, code_limit, bytes), code_base, code_limit, bytes)
            == after_evict_front(s, code_base, code_limit, bytes),
{
}

// ---------------------------------------------------------------------------
// Asynchronous restore of an evicted tail
// ---------------------------------------------------------------------------

/// Which tail of a `code_size`-byte enclave ending at `code_limit` to evict:
/// `(first hidden byte, length, blocks)` — the back half of the blocks,
/// capped by the backing — or `None` for fewer than two blocks.
pub open spec fn tail_plan(code_limit: u32, code_size: u32) -> Option<(u32, u32, u32)> {
    let num_blocks = code_size / 256;
    let half = num_blocks / 2;
    let tail_blocks = if half * 256 > TAIL_BACKING_BYTES { TAIL_BACKING_BYTES / 256 } else { half };
    if num_blocks < 2 {
        None
    } else {
        Some((((code_limit + 1) - tail_blocks * 256) as u32, (tail_blocks * 256) as u32, tail_blocks as u32))
    }
}

/// Compute the tail to evict (see [`tail_plan`]).
pub fn plan_tail(code_limit: u32, code_size: u32) -> (r: Option<(u32, u32, u32)>)
    requires
        code_limit < u32::MAX,
        code_size <= code_limit + 1,
    ensures
        r == tail_plan(code_limit, code_size),
{
    let num_blocks = code_size / BLOCK_BYTES;
    if num_blocks < 2 {
        return None;
    }
    let mut tail_blocks = num_blocks / 2;
    if tail_blocks * BLOCK_BYTES > TAIL_BACKING_BYTES {
        tail_blocks = TAIL_BACKING_BYTES / BLOCK_BYTES;
    }
    let tail_len = tail_blocks * BLOCK_BYTES;
    let tail_lo = (code_limit + 1) - tail_len;
    Some((tail_lo, tail_len, tail_blocks))
}

/// State of the asynchronous tail restore.
#[derive(Clone, Copy, Debug)]
pub struct AsyncEssState {
    pub done_once: bool,
    pub armed: bool,
    pub revealed: bool,
    pub full_base: u32,
    pub full_limit: u32,
    pub tail_lo: u32,
    pub tail_len: u32,
    pub hits: u32,
    pub faults: u32,
}

/// A fault at `addr` is in the hidden tail, which nothing has revealed yet.
pub open spec fn tail_claims(s: AsyncEssState, addr: u32) -> bool {
    s.armed && !s.revealed && s.tail_lo <= addr && addr < s.tail_lo + s.tail_len
}

/// The state after the background restore completed.
pub open spec fn after_prefetch_done(s: AsyncEssState) -> AsyncEssState {
    if s.armed && !s.revealed {
        AsyncEssState { revealed: true, hits: s.hits.wrapping_add(1), ..s }
    } else {
        s
    }
}

/// The state after a faulting access was served by a synchronous restore.
pub open spec fn after_fault_recovery(s: AsyncEssState) -> AsyncEssState {
    if s.armed && !s.revealed {
        AsyncEssState { revealed: true, faults: s.faults.wrapping_add(1), ..s }
    } else {
        s
    }
}

/// Evicts the back half of an enclave once, hides it behind region 5, and
/// reveals it when either the background restore or a synchronous restore
/// after a fault completes — whichever comes first; the other does nothing.
pub struct AsyncEss {
    st: AsyncEssState,
}

impl View for AsyncEss {
    type V = AsyncEssState;

    closed spec fn view(&self) -> AsyncEssState {
        self.st
    }
}

impl AsyncEss {
    /// Not armed.
    pub fn new() -> (e: Self)
        ensures
            !e@.done_once,
            !e@.armed,
            e@.hits == 0,
            e@.faults == 0,
    {
        AsyncEss {
            st: AsyncEssState {
                done_once: false,
                armed: false,
                revealed: false,
                full_base: 0,
                full_limit: 0,
                tail_lo: 0,
                tail_len: 0,
                hits: 0,
                faults: 0,
            },
        }
    }

    /// First step of arming, the first time only: the tail to evict. The
    /// caller saves it to the backing, then calls [`AsyncEss::hide_tail`].
    pub fn begin_arm(&mut self, code_limit: u32, code_size: u32) -> (r: Option<(u32, u32, u32)>)
        requires
            code_limit < u32::MAX,
            code_size <= code_limit + 1,
        ensures
            r == if old(self)@.done_once {
                None
            } else {
                tail_plan(code_limit, code_size)
            },
            final(self)@ == (AsyncEssState { done_once: true, ..old(self)@ }),
    {
        if self.st.done_once {
            return None;
        }
        self.st.done_once = true;
        plan_tail(code_limit, code_size)
    }

    /// Hide the saved tail `[tail_lo, tail_lo + tail_len)` by shrinking
    /// region 5 to `[code_base, tail_lo - 1]`, and arm the reveal.
    pub fn hide_tail<M: MmioAccess>(
        &mut self,
        mpu: &mut M,
        code_base: u32,
        code_limit: u32,
        tail_lo: u32,
        tail_len: u32,
    )
        requires
            tail_lo >= 1,
        ensures
            final(self)@ == (AsyncEssState {
                armed: true,
                revealed: false,
                full_base: code_base,
                full_limit: code_limit,
                tail_lo,
                tail_len,
                ..old(self)@
            }),
            final(mpu).base() == old(mpu).base(),
            final(mpu).ops() == old(mpu).ops() + code_region_ops(
                old(mpu).base(),
                code_base,
                (tail_lo - 1) as u32,
            ),
    {
        self.st.full_base = code_base;
        self.st.full_limit = code_limit;
        self.st.tail_lo = tail_lo;
        self.st.tail_len = tail_len;
        self.st.revealed = false;
        self.st.armed = true;
        set_code_region(mpu, code_base, tail_lo - 1, RBAR_RO_ANY);
    }

    /// Background restore done: reveal the tail (region 5 back to its full
    /// extent) unless it is not armed or already revealed.
    pub fn on_prefetch_done<M: MmioAccess>(&mut self, mpu: &mut M)
        ensures
            final(self)@ == after_prefetch_done(old(self)@),
            final(mpu).base() == old(mpu).base(),
            final(mpu).ops() == if old(self)@.armed && !old(self)@.revealed {
                old(mpu).ops() + code_region_ops(old(mpu).base(), old(self)@.full_base, old(self)@.full_limit)
            } else {
                old(mpu).ops()
            },
    {
        if !self.st.armed || self.st.revealed {
            return;
        }
        self.st.revealed = true;
        set_code_region(mpu, self.st.full_base, self.st.full_limit, RBAR_RO_ANY);
        self.st.hits = self.st.hits.wrapping_add(1);
    }

    /// A fault at `fault_addr` is this machinery's to serve (the tail is hidden
    /// and not revealed yet); the caller then restores the tail
    /// synchronously and calls [`AsyncEss::finish_fault_recovery`].
    pub fn claims_fault(&self, fault_addr: u32) -> (r: bool)
        ensures
            r == tail_claims(self@, fault_addr),
    {
        if !self.st.armed || self.st.revealed {
            return false;
        }
        let lo = self.st.tail_lo;
        let hi = lo as u64 + self.st.tail_len as u64;
        lo <= fault_addr && (fault_addr as u64) < hi
    }

    /// The hidden tail: its first byte and its length.
    pub fn tail(&self) -> (r: (u32, u32))
        ensures
            r == (self@.tail_lo, self@.tail_len),
    {
        (self.st.tail_lo, self.st.tail_len)
    }

    /// The tail was restored synchronously: reveal it.
    pub fn finish_fault_recovery<M: MmioAccess>(&mut self, mpu: &mut M)
        ensures
            final(self)@ == after_fault_recovery(old(self)@),
            final(mpu).base() == old(mpu).base(),
            final(mpu).ops() == if old(self)@.armed && !old(self)@.revealed {
                old(mpu).ops() + code_region_ops(old(mpu).base(), old(self)@.full_base, old(self)@.full_limit)
            } else {
                old(mpu).ops()
            },
    {
        if !self.st.armed || self.st.revealed {
            return;
        }
        self.st.revealed = true;
        set_code_region(mpu, self.st.full_base, self.st.full_limit, RBAR_RO_ANY);
        self.st.faults = self.st.faults.wrapping_add(1);
    }
}

/// Law of the tail reveal: whichever of the background completion and the
/// fault recovery comes first reveals the tail; the other then changes
/// nothing, and no later fault is claimed.
pub proof fn lemma_reveal_once(s: AsyncEssState, addr: u32)
    requires
        s.armed,
        !s.revealed,
    ensures
        after_prefetch_done(s).revealed,
        after_fault_recovery(after_prefetch_done(s)) == after_prefetch_done(s),
        after_prefetch_done(after_fault_recovery(s)) == after_fault_recovery(s),
        !tail_claims(after_prefetch_done(s), addr),
        !tail_claims(after_fault_recovery(s), addr),
{
}

// ---------------------------------------------------------------------------
// Residency of the shared code window
// ---------------------------------------------------------------------------

/// What `make_resident` asks the caller to copy: the image to evict to its
/// backing first, if any, and whether to restore the incoming image from its
/// backing.
#[derive(Clone, Copy, Debug, PartialEq, Eq, Structural)]
pub struct ResidencyPlan {
    pub switched: bool,
    pub evict: Option<usize>,
    pub restore: bool,
}

/// Which enclave image is in the shared code window.
pub struct Overlay {
    resident: Option<usize>,
    switches: u32,
}

impl Overlay {
    /// The slot whose image is in the window.
    pub closed spec fn resident_slot(&self) -> Option<usize> {
        self.resident
    }

    /// Number of switches that evicted an image.
    pub closed spec fn switch_count(&self) -> u32 {
        self.switches
    }

    /// An empty window.
    pub fn new() -> (o: Self)
        ensures
            o.resident_slot() is None,
            o.switch_count() == 0,
    {
        Overlay { resident: None, switches: 0 }
    }

    /// The slot whose image is in the window.
    pub fn resident(&self) -> (r: Option<usize>)
        ensures
            r == self.resident_slot(),
    {
        self.resident
    }

    /// Record that `slot`'s image was just loaded into the window.
    pub fn set_resident(&mut self, slot: usize)
        ensures
            final(self).resident_slot() == Some(slot),
            final(self).switch_count() == old(self).switch_count(),
    {
        self.resident = Some(slot);
    }

    /// Make `slot` resident: nothing to do if it already is; otherwise evict
    /// the resident image (if any) and, unless the caller loads the image
    /// itself (`fresh_load`), restore `slot` from its backing.
    pub fn make_resident(&mut self, slot: usize, fresh_load: bool) -> (p: ResidencyPlan)
        requires
            slot < NUM_SLOTS,
        ensures
            final(self).resident_slot() == Some(slot),
            old(self).resident_slot() == Some(slot) ==> p == (ResidencyPlan {
                switched: false,
                evict: None,
                restore: false,
            }) && final(self).switch_count() == old(self).switch_count(),
            old(self).resident_slot() != Some(slot) ==> p == (ResidencyPlan {
                switched: true,
                evict: old(self).resident_slot(),
                restore: !fresh_load,
            }) && final(self).switch_count() == if old(self).resident_slot() is Some {
                old(self).switch_count().wrapping_add(1)
            } else {
                old(self).switch_count()
            },
    {
        let cur = self.resident;
        if cur == Some(slot) {
            return ResidencyPlan { switched: false, evict: None, restore: false };
        }
        self.resident = Some(slot);
        if cur.is_some() {
            self.switches = self.switches.wrapping_add(1);
        }
        ResidencyPlan { switched: true, evict: cur, restore: !fresh_load }
    }

    /// Empty the window: the resident image, if any, is to be evicted to its
    /// backing.
    pub fn evict_current(&mut self) -> (e: Option<usize>)
        ensures
            e == old(self).resident_slot(),
            final(self).resident_slot() is None,
            final(self).switch_count() == old(self).switch_count(),
    {
        let cur = self.resident;
        self.resident = None;
        cur
    }
}

/// Bytes of one chunk of the overlay window a switch moves at a time.
pub const OVERLAY_CHUNK_BYTES: u32 = 2048;

/// Chunks of the 16 KB overlay window.
pub const OVERLAY_CHUNKS: u8 = 8;

/// The range `[lo, hi]` clamped to the enclave extent `[base, limit]`, if
/// anything of it is left.
pub open spec fn clamped(lo: u32, hi: u32, base: u32, limit: u32) -> Option<(u32, u32)> {
    let l = if base > lo {
        base
    } else {
        lo
    };
    let h = if limit < hi {
        limit
    } else {
        hi
    };
    if h < l {
        None
    } else {
        Some((l, h))
    }
}

/// First address of chunk `c` of the window at `window`.
pub open spec fn chunk_start(window: u32, c: u8) -> u32 {
    (window + c * OVERLAY_CHUNK_BYTES) as u32
}

/// What the synchronous part of an overlay switch does: the chunk holding
/// the resume address (`k`) and the learned hot chunk of the incoming
/// enclave (`hot`) move first; `reveal` is the code range opened to the
/// enclave at once (chunk `k` clamped to its extent; `None`: nothing of it
/// is in the extent, so the switch is completed synchronously), and
/// `hot_reveal` the hot chunk's range, clamped the same way.
#[derive(Clone, Copy, Debug)]
pub struct SwitchPlan {
    pub k: u8,
    pub hot: Option<u8>,
    pub reveal: Option<(u32, u32)>,
    pub hot_reveal: Option<(u32, u32)>,
}

/// Plan the speculative switch to an enclave whose resume address lies in
/// window chunk `resume_chunk` (chunk 0 when outside the window), whose
/// learned hot chunk is `learned_hot` (out of range when none), and whose
/// code occupies `[code_base, code_limit]`. The hot chunk is dropped when
/// it is out of range or is chunk `k` itself.
pub fn switch_plan(resume_chunk: Option<u8>, learned_hot: u8, window: u32, code_base: u32, code_limit: u32) -> (p:
    SwitchPlan)
    requires
        resume_chunk matches Some(c) ==> c < OVERLAY_CHUNKS,
        window + OVERLAY_CHUNKS * OVERLAY_CHUNK_BYTES <= u32::MAX,
    ensures
        p.k == match resume_chunk {
            Some(c) => c,
            None => 0u8,
        },
        p.hot == if learned_hot >= OVERLAY_CHUNKS || learned_hot == p.k {
            None::<u8>
        } else {
            Some(learned_hot)
        },
        p.reveal == clamped(
            chunk_start(window, p.k),
            (chunk_start(window, p.k) + OVERLAY_CHUNK_BYTES - 1) as u32,
            code_base,
            code_limit,
        ),
        p.hot_reveal == match (p.reveal, p.hot) {
            (Some(_), Some(h)) => clamped(
                chunk_start(window, h),
                (chunk_start(window, h) + OVERLAY_CHUNK_BYTES - 1) as u32,
                code_base,
                code_limit,
            ),
            _ => None::<(u32, u32)>,
        },
{
    let k: u8 = match resume_chunk {
        Some(c) => c,
        None => 0,
    };
    let hot: Option<u8> = if learned_hot >= OVERLAY_CHUNKS || learned_hot == k {
        None
    } else {
        Some(learned_hot)
    };
    let kb = window + (k as u32) * OVERLAY_CHUNK_BYTES;
    let reveal = clamp_range(kb, kb + (OVERLAY_CHUNK_BYTES - 1), code_base, code_limit);
    let hot_reveal = match (reveal, hot) {
        (Some(_), Some(h)) => {
            let hb = window + (h as u32) * OVERLAY_CHUNK_BYTES;
            clamp_range(hb, hb + (OVERLAY_CHUNK_BYTES - 1), code_base, code_limit)
        },
        _ => None,
    };
    SwitchPlan { k, hot, reveal, hot_reveal }
}

/// `[lo, hi]` clamped to `[base, limit]`.
fn clamp_range(lo: u32, hi: u32, base: u32, limit: u32) -> (r: Option<(u32, u32)>)
    ensures
        r == clamped(lo, hi, base, limit),
{
    let l = if base > lo {
        base
    } else {
        lo
    };
    let h = if limit < hi {
        limit
    } else {
        hi
    };
    if h < l {
        None
    } else {
        Some((l, h))
    }
}

} // verus!
