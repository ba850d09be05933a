//! The decisions of the enclave entry points the Non-Secure host calls
//! (create, enter, exit, status, update) and of the preemption tick, as
//! steps from the kernel's enclave table and an event to the next table and
//! an action. The caller performs the action: it reads the blob header,
//! loads and measures the blocks, programs the MPU, switches to the enclave,
//! writes flash; each step here says what is decided around that work.

use crate::attest::ns_range_ok;
use crate::crypto_engine::UmbraError;
use crate::exceptions::{exit_status, exit_word, next_runnable, ring_next};
use crate::crypto_engine::{CryptoCall, CryptoEngine};
use crate::measurement::{finalize_measurement, hmac_out, is_fold_of, LoadedExtent, CODE_BYTES, TOTAL_BLOCK_SIZE};
use crate::validator::{build_mac_input, BLOCK_META_SIZE, CODE_BLOCK_SIZE};
use crate::nsc::{
    create_preflight, create_sizes, nsc_status, preflight_result, status_of, MAX_EFBS,
    MAX_ENCLAVES_CTX,
};
use vstd::prelude::*;

verus! {

/// Where an enclave is in its life.
#[derive(Clone, Copy, PartialEq, Eq, Debug, Structural)]
pub enum EnclaveStatus {
    Ready,
    Running,
    Suspended,
    Terminated,
    Faulted,
}

/// The state code of each status on the Non-Secure interface.
pub open spec fn state_code(s: EnclaveStatus) -> u32 {
    match s {
        EnclaveStatus::Ready => 0,
        EnclaveStatus::Running => 1,
        EnclaveStatus::Suspended => 2,
        EnclaveStatus::Terminated => 3,
        EnclaveStatus::Faulted => 4,
    }
}

/// The state code of `s`.
pub fn status_code(s: EnclaveStatus) -> (c: u32)
    ensures
        c == state_code(s),
{
    match s {
        EnclaveStatus::Ready => 0,
        EnclaveStatus::Running => 1,
        EnclaveStatus::Suspended => 2,
        EnclaveStatus::Terminated => 3,
        EnclaveStatus::Faulted => 4,
    }
}

/// An enclave that will not run again: it terminated or faulted.
pub open spec fn is_done(s: EnclaveStatus) -> bool {
    s is Terminated || s is Faulted
}

/// An enclave that may be (re)started: ready or suspended.
pub open spec fn may_run(s: EnclaveStatus) -> bool {
    s is Ready || s is Suspended
}

/// The saved state of one enclave that these decisions read: its status and
/// the value it terminated with.
#[derive(Clone, Copy, PartialEq, Eq, Debug, Structural)]
pub struct EnclaveCtx {
    pub status: EnclaveStatus,
    pub result: u32,
}

/// The kernel's enclave table: the loaded enclave of each slot, the context
/// of each slot, the id the next created enclave gets, the enclave now
/// running, whether an update nonce is armed, and the last nonce a quote
/// was made for.
pub struct EnclaveTable {
    pub slots: Vec<Option<LoadedExtent>>,
    pub ctx: Vec<EnclaveCtx>,
    pub next_id: u32,
    pub current: Option<u32>,
    pub nonce_armed: bool,
    pub last_nonce: [u8; 16],
}

/// The contents of an [`EnclaveTable`].
#[verifier::ext_equal]
pub struct TableView {
    pub slots: Seq<Option<LoadedExtent>>,
    pub ctx: Seq<EnclaveCtx>,
    pub next_id: u32,
    pub current: Option<u32>,
    pub nonce_armed: bool,
    pub last_nonce: [u8; 16],
}

impl View for EnclaveTable {
    type V = TableView;

    open spec fn view(&self) -> TableView {
        TableView {
            slots: self.slots@,
            ctx: self.ctx@,
            next_id: self.next_id,
            current: self.current,
            nonce_armed: self.nonce_armed,
            last_nonce: self.last_nonce,
        }
    }
}

/// Every loaded enclave has an id below `next_id`: ids are handed out once.
pub open spec fn ids_below(slots: Seq<Option<LoadedExtent>>, next_id: u32) -> bool {
    forall|i: int| 0 <= i < slots.len() ==> (#[trigger] slots[i] matches Some(e) ==> e.id < next_id)
}

/// Slot `i` holds the enclave with id `id`.
pub open spec fn holds_id(slots: Seq<Option<LoadedExtent>>, i: int, id: u32) -> bool {
    slots[i] matches Some(e) && e.id == id
}

/// The first of the first `k` slots that holds the enclave `id`.
pub open spec fn first_slot_in(slots: Seq<Option<LoadedExtent>>, id: u32, k: nat) -> Option<int>
    decreases k,
{
    if k == 0 {
        None
    } else {
        match first_slot_in(slots, id, (k - 1) as nat) {
            Some(i) => Some(i),
            None => if holds_id(slots, k - 1, id) {
                Some(k - 1)
            } else {
                None
            },
        }
    }
}

/// The slot of the enclave `id`: the first that holds it.
pub open spec fn slot_of_id(slots: Seq<Option<LoadedExtent>>, id: u32) -> Option<int> {
    first_slot_in(slots, id, slots.len())
}

/// A slot found among the first `k` stays the slot found among more.
proof fn lemma_first_slot_stable(slots: Seq<Option<LoadedExtent>>, id: u32, k: nat, m: nat)
    requires
        k <= m,
        first_slot_in(slots, id, k) is Some,
    ensures
        first_slot_in(slots, id, m) == first_slot_in(slots, id, k),
    decreases m - k,
{
    if k < m {
        lemma_first_slot_stable(slots, id, k, (m - 1) as nat);
    }
}

/// With no slot below `k` holding `id`, none is found among them.
proof fn lemma_first_slot_none(slots: Seq<Option<LoadedExtent>>, id: u32, k: nat)
    requires
        forall|j: int| 0 <= j < k ==> !#[trigger] holds_id(slots, j, id),
    ensures
        first_slot_in(slots, id, k) is None,
    decreases k,
{
    if k > 0 {
        lemma_first_slot_none(slots, id, (k - 1) as nat);
    }
}

/// What `first_slot_in` finds is a slot below `k` holding `id`.
proof fn lemma_first_slot_holds(slots: Seq<Option<LoadedExtent>>, id: u32, k: nat)
    ensures
        first_slot_in(slots, id, k) matches Some(i) ==> 0 <= i < k && holds_id(slots, i, id),
    decreases k,
{
    if k > 0 {
        lemma_first_slot_holds(slots, id, (k - 1) as nat);
    }
}

impl EnclaveTable {
    /// One slot and one context per enclave of the code window.
    pub open spec fn wf(&self) -> bool {
        &&& self.slots@.len() == MAX_ENCLAVES_CTX
        &&& self.ctx@.len() == MAX_ENCLAVES_CTX
        &&& ids_below(self.slots@, self.next_id)
    }

    /// A table with no enclave loaded, ids starting at 1 and no nonce armed.
    pub fn new() -> (t: Self)
        ensures
            t.wf(),
            forall|i: int| 0 <= i < t.slots@.len() ==> #[trigger] t.slots@[i] is None,
            forall|i: int|
                0 <= i < t.ctx@.len() ==> #[trigger] t.ctx@[i] == (EnclaveCtx {
                    status: EnclaveStatus::Ready,
                    result: 0,
                }),
            t.next_id == 1,
            t.current is None,
            !t.nonce_armed,
    {
        let c = EnclaveCtx { status: EnclaveStatus::Ready, result: 0 };
        EnclaveTable {
            slots: vec![None, None],
            ctx: vec![c, c],
            next_id: 1,
            current: None,
            nonce_armed: false,
            last_nonce: [0u8; 16],
        }
    }

    /// The slot of the enclave `id`, if one holds it.
    pub fn find(&self, id: u32) -> (r: Option<usize>)
        ensures
            match r {
                Some(i) => slot_of_id(self.slots@, id) == Some(i as int),
                None => slot_of_id(self.slots@, id) is None,
            },
            r matches Some(i) ==> i < self.slots@.len() && holds_id(self.slots@, i as int, id),
    {
        let mut i: usize = 0;
        while i < self.slots.len()
            invariant
                i <= self.slots@.len(),
                first_slot_in(self.slots@, id, i as nat) is None,
            decreases self.slots@.len() - i,
        {
            match self.slots[i] {
                Some(e) => {
                    if e.id == id {
                        assert(first_slot_in(self.slots@, id, (i + 1) as nat) == Some(i as int));
                        proof {
                            lemma_first_slot_stable(
                                self.slots@,
                                id,
                                (i + 1) as nat,
                                self.slots@.len(),
                            );
                        }
                        return Some(i);
                    }
                },
                None => {},
            }
            assert(first_slot_in(self.slots@, id, (i + 1) as nat) is None);
            i += 1;
        }
        None
    }

    /// Arm `nonce`, the one a quote was just made for, as the single-use
    /// nonce an update must answer.
    pub fn arm_update_nonce(&mut self, nonce: [u8; 16])
        ensures
            final(self)@ == (TableView { nonce_armed: true, last_nonce: nonce, ..old(self)@ }),
    {
        self.nonce_armed = true;
        self.last_nonce = nonce;
    }

    /// The enclave entered last has handed control back.
    pub fn enter_return(&mut self)
        ensures
            final(self)@ == (TableView { current: None, ..old(self)@ }),
    {
        self.current = None;
    }
}

// ---------------------------------------------------------------- create

/// Which A/B update slot is active: the one whose blob authenticates to
/// the higher version, A (0) on a tie, B (1) when only it authenticates,
/// none when neither does.
pub open spec fn active_slot(version_a: Option<u32>, version_b: Option<u32>) -> Option<u32> {
    match (version_a, version_b) {
        (Some(a), Some(b)) => if b > a {
            Some(1u32)
        } else {
            Some(0u32)
        },
        (Some(_), None) => Some(0u32),
        (None, Some(_)) => Some(1u32),
        (None, None) => None,
    }
}

/// Pick the active update slot from the versions its two blobs
/// authenticate to.
pub fn select_active_slot(version_a: Option<u32>, version_b: Option<u32>) -> (r: Option<u32>)
    ensures
        r == active_slot(version_a, version_b),
{
    match (version_a, version_b) {
        (Some(a), Some(b)) => if b > a {
            Some(1)
        } else {
            Some(0)
        },
        (Some(_), None) => Some(0),
        (None, Some(_)) => Some(1),
        (None, None) => None,
    }
}

/// The flash base `enclave_create` works on: a nonzero `base_addr` as it
/// is; 0 asks for the best update slot, the base of the active one of the
/// slots at `slot_a` and `slot_b` (their blobs authenticate to `version_a`
/// and `version_b`), and with neither authenticating the create is refused
/// as `EnclaveNotFound`.
pub fn resolve_create_base(
    base_addr: u32,
    slot_a: u32,
    slot_b: u32,
    version_a: Option<u32>,
    version_b: Option<u32>,
) -> (r: Result<u32, u32>)
    ensures
        base_addr != 0 ==> r == Ok::<u32, u32>(base_addr),
        base_addr == 0 ==> r == match active_slot(version_a, version_b) {
            Some(0) => Ok::<u32, u32>(slot_a),
            Some(1) => Ok::<u32, u32>(slot_b),
            _ => Err::<u32, u32>(status_of(UmbraError::EnclaveNotFound { id: 0 })),
        },
{
    if base_addr != 0 {
        return Ok(base_addr);
    }
    match select_active_slot(version_a, version_b) {
        Some(0) => Ok(slot_a),
        Some(1) => Ok(slot_b),
        _ => Err(nsc_status(UmbraError::EnclaveNotFound { id: 0 })),
    }
}

/// Status when the blob at the base has no valid header.
pub const BAD_HEADER_STATUS: u32 = 0xFFFF_FFFF;

/// Status when the blob fails its measurement.
pub const MEASUREMENT_FAILED_STATUS: u32 = 0xFFFF_FFF6;

/// Status when no slot is free to register the enclave in.
pub const REGISTER_FAILED_STATUS: u32 = 0xFFFF_FFF8;

/// What `enclave_create` goes on with once the blob is admitted: the base it
/// is created from, its id, its number of blocks, the bytes of code they
/// take in the swap space, and which slots hold a finished enclave to free
/// first (`reap[i]`).
pub struct CreatePlan {
    pub base: u32,
    pub id: u32,
    pub num_blocks: u32,
    pub code_bytes: u32,
    pub reap: Vec<bool>,
}

/// Slot `i` holds an enclave that terminated or faulted: `enclave_create`
/// frees it before loading.
pub open spec fn reapable(
    slots: Seq<Option<LoadedExtent>>,
    status: Seq<EnclaveStatus>,
    i: int,
) -> bool {
    &&& 0 <= i < MAX_ENCLAVES_CTX
    &&& i < slots.len()
    &&& i < status.len()
    &&& slots[i] is Some
    &&& is_done(status[i])
}

/// The decision of `enclave_create` once the header at `base_addr` has been
/// read (`code_size` is the size it gives, `None` for a bad header): the
/// checks before the header first, then a bad header, then a block count of
/// zero or above [`MAX_EFBS`]; otherwise the plan, with every finished
/// enclave's slot marked to be freed.
pub fn create_decide(
    base_addr: u32,
    slots: &[Option<LoadedExtent>],
    status: &[EnclaveStatus],
    next_id: u32,
    code_size: Option<u32>,
) -> (r: Result<CreatePlan, u32>)
    ensures
        preflight_result(base_addr, slots@, next_id) matches Err(e) ==> r matches Err(x) && x == e,
        preflight_result(base_addr, slots@, next_id) is Ok ==> match code_size {
            None => r matches Err(x) && x == BAD_HEADER_STATUS,
            Some(cs) => if 1 <= cs / TOTAL_BLOCK_SIZE <= MAX_EFBS {
                r matches Ok(p) && p.base == base_addr && p.id == next_id && p.num_blocks == cs
                    / TOTAL_BLOCK_SIZE && p.code_bytes == cs / TOTAL_BLOCK_SIZE * CODE_BYTES
                    && p.reap@.len() == MAX_ENCLAVES_CTX && forall|i: int|
                    0 <= i < MAX_ENCLAVES_CTX ==> #[trigger] p.reap@[i] == reapable(
                        slots@,
                        status@,
                        i,
                    )
            } else {
                r matches Err(x) && x == status_of(UmbraError::OffsetOverflow)
            },
        },
{
    match create_preflight(base_addr, slots, next_id) {
        Err(e) => return Err(e),
        Ok(()) => {},
    }
    let cs = match code_size {
        None => return Err(BAD_HEADER_STATUS),
        Some(cs) => cs,
    };
    let (num_blocks, code_bytes) = match create_sizes(cs) {
        Err(e) => return Err(e),
        Ok(v) => v,
    };
    let mut reap: Vec<bool> = Vec::new();
    let mut i: usize = 0;
    while i < MAX_ENCLAVES_CTX as usize
        invariant
            i <= MAX_ENCLAVES_CTX,
            reap@.len() == i,
            forall|j: int| 0 <= j < i ==> #[trigger] reap@[j] == reapable(slots@, status@, j),
        decreases MAX_ENCLAVES_CTX - i,
    {
        let done = i < slots.len() && i < status.len() && match slots[i] {
            Some(_) => match status[i] {
                EnclaveStatus::Terminated | EnclaveStatus::Faulted => true,
                _ => false,
            },
            None => false,
        };
        reap.push(done);
        i += 1;
    }
    Ok(CreatePlan { base: base_addr, id: next_id, num_blocks, code_bytes, reap })
}

/// The table after the finished enclaves of `reap` are freed.
pub open spec fn reaped(slots: Seq<Option<LoadedExtent>>, reap: Seq<bool>) -> Seq<
    Option<LoadedExtent>,
> {
    Seq::new(
        slots.len(),
        |i: int|
            if 0 <= i < reap.len() && reap[i] {
                None
            } else {
                slots[i]
            },
    )
}

/// The first free slot of `slots`, if any.
pub open spec fn first_free(slots: Seq<Option<LoadedExtent>>, k: nat) -> Option<int>
    decreases k,
{
    if k == 0 {
        None
    } else {
        match first_free(slots, (k - 1) as nat) {
            Some(i) => Some(i),
            None => if slots[k - 1] is None {
                Some(k - 1)
            } else {
                None
            },
        }
    }
}

proof fn lemma_first_free_stable(slots: Seq<Option<LoadedExtent>>, k: nat, m: nat)
    requires
        k <= m,
        first_free(slots, k) is Some,
    ensures
        first_free(slots, m) == first_free(slots, k),
    decreases m - k,
{
    if k < m {
        lemma_first_free_stable(slots, k, (m - 1) as nat);
    }
}

proof fn lemma_first_free_is_free(slots: Seq<Option<LoadedExtent>>, k: nat)
    ensures
        first_free(slots, k) matches Some(i) ==> 0 <= i < k && slots[i] is None,
    decreases k,
{
    if k > 0 {
        lemma_first_free_is_free(slots, (k - 1) as nat);
    }
}

/// Free the finished enclaves the plan marks, before the new one is loaded.
pub fn create_reap(t: &mut EnclaveTable, plan: &CreatePlan)
    requires
        old(t).wf(),
    ensures
        final(t).wf(),
        final(t)@ == (TableView { slots: reaped(old(t).slots@, plan.reap@), ..old(t)@ }),
{
    let ghost slots0 = t.slots@;
    let mut i: usize = 0;
    while i < t.slots.len()
        invariant
            t.slots@.len() == MAX_ENCLAVES_CTX,
            t.ctx@.len() == MAX_ENCLAVES_CTX,
            ids_below(old(t).slots@, old(t).next_id),
            i <= t.slots@.len(),
            t.ctx@ == old(t).ctx@,
            t.next_id == old(t).next_id,
            t.current == old(t).current,
            t.nonce_armed == old(t).nonce_armed,
            t.last_nonce == old(t).last_nonce,
            slots0 == old(t).slots@,
            slots0.len() == t.slots@.len(),
            forall|j: int| 0 <= j < i ==> #[trigger] t.slots@[j] == reaped(slots0, plan.reap@)[j],
            forall|j: int| i <= j < t.slots@.len() ==> #[trigger] t.slots@[j] == slots0[j],
        decreases t.slots@.len() - i,
    {
        if i < plan.reap.len() && plan.reap[i] {
            t.slots[i] = None;
        }
        i += 1;
    }
    assert(t.slots@ =~= reaped(slots0, plan.reap@));
    assert(ids_below(t.slots@, t.next_id)) by {
        assert forall|j: int| 0 <= j < t.slots@.len() implies (#[trigger] t.slots@[j] matches Some(
            e,
        ) ==> e.id < t.next_id) by {
            assert(t.slots@[j] == reaped(slots0, plan.reap@)[j]);
        }
    }
    assert(t@ =~= (TableView { slots: reaped(old(t).slots@, plan.reap@), ..old(t)@ }));
}

/// The chained measurement of a blob being created: the plan, the chain so
/// far and how many blocks it folds, and the seed it started from, where
/// its keyed hashes start in the crypto engine's log, and the blocks
/// (code, metadata) folded. Only [`create_begin`] and [`create_fold`] make
/// and advance one.
pub struct CreateRun {
    plan: CreatePlan,
    chain: [u8; 32],
    folded: u32,
    seed: Ghost<Seq<u8>>,
    first: Ghost<int>,
    blocks: Ghost<Seq<(Seq<u8>, Seq<u8>)>>,
}

impl CreateRun {
    /// The plan of the blob measured.
    pub closed spec fn planned(&self) -> CreatePlan {
        self.plan
    }

    /// The plan of the blob measured.
    pub fn plan(&self) -> (p: &CreatePlan)
        ensures
            *p == self.planned(),
    {
        &self.plan
    }

    /// The chain so far, to compare or report.
    pub fn chain_value(&self) -> (c: [u8; 32])
        ensures
            c@ == self.chain(),
    {
        self.chain
    }

    /// Blocks folded so far.
    pub fn folded_count(&self) -> (n: u32)
        ensures
            n == self.folded(),
    {
        self.folded
    }

    /// The chain so far.
    pub closed spec fn chain(&self) -> Seq<u8> {
        self.chain@
    }

    /// Blocks folded so far.
    pub closed spec fn folded(&self) -> nat {
        self.folded as nat
    }

    /// The chain the measurement started from.
    pub closed spec fn seed(&self) -> Seq<u8> {
        self.seed@
    }

    /// Position in the crypto engine's log of the first fold.
    pub closed spec fn first(&self) -> int {
        self.first@
    }

    /// The blocks folded, in order, as (code, metadata).
    pub closed spec fn blocks(&self) -> Seq<(Seq<u8>, Seq<u8>)> {
        self.blocks@
    }

    /// The chain before block `i`: the seed for the first, else the output
    /// of the previous fold in `calls`.
    pub open spec fn chain_before(&self, calls: Seq<CryptoCall>, i: int) -> Seq<u8> {
        if i == 0 {
            self.seed()
        } else {
            hmac_out(calls[self.first() + i - 1])
        }
    }

    /// The log `calls` ends with the folds of this measurement: block `i`
    /// keyed with the chain before it, over `i_le ‖ code ‖ metadata`; the
    /// chain is the output of the last.
    pub open spec fn follows(&self, calls: Seq<CryptoCall>) -> bool {
        &&& self.blocks().len() == self.folded()
        &&& 0 <= self.first()
        &&& calls.len() == self.first() + self.folded()
        &&& forall|i: int|
            0 <= i < self.folded() ==> #[trigger] is_fold_of(
                calls[self.first() + i],
                self.chain_before(calls, i),
                i as u32,
                self.blocks()[i].0,
                self.blocks()[i].1,
            )
        &&& self.chain() == self.chain_before(calls, self.folded() as int)
    }
}

/// Start the chained measurement of `plan`'s blob from `seed` (the master
/// key).
pub fn create_begin<C: CryptoEngine>(plan: CreatePlan, seed: &[u8; 32], crypto: &C) -> (run: CreateRun)
    ensures
        run.planned() == plan,
        run.folded() == 0,
        run.seed() == seed@,
        run.chain() == seed@,
        run.follows(crypto.calls()),
{
    CreateRun {
        plan,
        chain: *seed,
        folded: 0,
        seed: Ghost(seed@),
        first: Ghost(crypto.calls().len() as int),
        blocks: Ghost(Seq::empty()),
    }
}

/// Fold the next block (its code as loaded and its metadata) into the
/// chain: `chain = HMAC(chain, index_le ‖ code ‖ metadata)`. The output
/// buffer becomes the chain whether or not the keyed hash completed.
pub fn create_fold<C: CryptoEngine>(
    run: &mut CreateRun,
    crypto: &mut C,
    code: &[u8; CODE_BLOCK_SIZE],
    meta: &[u8; BLOCK_META_SIZE],
)
    requires
        old(crypto).crypto_wf(),
        old(run).follows(old(crypto).calls()),
        old(run).folded() < old(run).planned().num_blocks,
    ensures
        final(crypto).crypto_wf(),
        final(crypto).calls().drop_last() == old(crypto).calls(),
        final(run).follows(final(crypto).calls()),
        final(run).planned() == old(run).planned(),
        final(run).seed() == old(run).seed(),
        final(run).first() == old(run).first(),
        final(run).folded() == old(run).folded() + 1,
        final(run).blocks() == old(run).blocks().push((code@, meta@)),
        final(run).chain() == hmac_out(final(crypto).calls().last()),
{
    let input = build_mac_input(run.folded, code, meta);
    let mut out = [0u8; 32];
    let _ = crypto.hmac(run.chain.as_slice(), input.as_slice(), &mut out);
    let ghost calls0 = old(crypto).calls();
    let ghost r0 = *old(run);
    run.chain = out;
    run.folded = run.folded + 1;
    run.blocks = Ghost(run.blocks@.push((code@, meta@)));
    proof {
        let calls = crypto.calls();
        assert(calls.drop_last() =~= calls0);
        assert forall|i: int| 0 <= i < run.folded() implies #[trigger] is_fold_of(
            calls[run.first() + i],
            run.chain_before(calls, i),
            i as u32,
            run.blocks()[i].0,
            run.blocks()[i].1,
        ) by {
            if i < r0.folded() {
                assert(calls[run.first() + i] == calls0[r0.first() + i]);
                assert(run.chain_before(calls, i) == r0.chain_before(calls0, i));
            } else {
                assert(run.chain_before(calls, i) == r0.chain_before(calls0, i));
            }
        }
    }
}

/// Finish `enclave_create`: the blob is registered only when every block of
/// the plan was folded and the chain equals the HMAC of its header;
/// otherwise [`MEASUREMENT_FAILED_STATUS`] and nothing changes. A
/// registered enclave takes the first free slot (none free:
/// [`REGISTER_FAILED_STATUS`]) with its code at `ess_addr`, its context
/// becomes ready with result 0, the id counter moves on, and the new id is
/// returned.
pub fn create_commit(t: &mut EnclaveTable, run: &CreateRun, ess_addr: u32, header_hmac: &[u8; 32]) -> (r:
    u32)
    requires
        old(t).wf(),
        old(t).next_id <= MAX_ENCLAVES_CTX,
    ensures
        final(t).wf(),
        final(t).current == old(t).current,
        final(t).nonce_armed == old(t).nonce_armed,
        final(t).last_nonce == old(t).last_nonce,
        !(run.folded() == run.planned().num_blocks && run.chain() == header_hmac@) ==> r
            == MEASUREMENT_FAILED_STATUS && final(t)@ == old(t)@,
        run.folded() == run.planned().num_blocks && run.chain() == header_hmac@ ==> match first_free(
            old(t).slots@,
            MAX_ENCLAVES_CTX as nat,
        ) {
            None => r == REGISTER_FAILED_STATUS && final(t)@ == old(t)@,
            Some(i) => r == old(t).next_id && final(t).next_id == old(t).next_id + 1
                && slot_of_id(final(t).slots@, r) == Some(i) && final(t).slots@ == old(
                t,
            ).slots@.update(
                i,
                Some(
                    LoadedExtent {
                        start_address: ess_addr,
                        efb_count: run.planned().num_blocks,
                        id: old(t).next_id,
                        flash_base: run.planned().base,
                    },
                ),
            ) && final(t).ctx@ == old(t).ctx@.update(
                i,
                EnclaveCtx { status: EnclaveStatus::Ready, result: 0 },
            ),
        },
        r < MEASUREMENT_FAILED_STATUS ==> run.folded() == run.planned().num_blocks && run.chain()
            == header_hmac@,
{
    if run.folded != run.plan.num_blocks || finalize_measurement(&run.chain, header_hmac).is_err() {
        return MEASUREMENT_FAILED_STATUS;
    }
    let mut k: usize = 0;
    while k < t.slots.len()
        invariant
            t.wf(),
            k <= t.slots@.len(),
            first_free(t.slots@, k as nat) is None,
            t@ == old(t)@,
            old(t).next_id <= MAX_ENCLAVES_CTX,
            run.folded() == run.planned().num_blocks && run.chain() == header_hmac@,
        decreases t.slots@.len() - k,
    {
        if t.slots[k].is_none() {
            let ghost old_slots = t.slots@;
            assert(first_free(t.slots@, (k + 1) as nat) == Some(k as int));
            proof {
                lemma_first_free_stable(t.slots@, (k + 1) as nat, t.slots@.len());
            }
            let id = t.next_id;
            t.slots[k] = Some(
                LoadedExtent {
                    start_address: ess_addr,
                    efb_count: run.plan.num_blocks,
                    id,
                    flash_base: run.plan.base,
                },
            );
            t.ctx[k] = EnclaveCtx { status: EnclaveStatus::Ready, result: 0 };
            t.next_id = id + 1;
            proof {
                let sl = t.slots@;
                assert forall|j: int| 0 <= j < k implies !#[trigger] holds_id(sl, j, id) by {
                    assert(sl[j] == old_slots[j]);
                }
                lemma_first_slot_none(sl, id, k as nat);
                assert(first_slot_in(sl, id, (k + 1) as nat) == Some(k as int));
                lemma_first_slot_stable(sl, id, (k + 1) as nat, sl.len());
                assert forall|j: int| 0 <= j < sl.len() implies (#[trigger] sl[j] matches Some(e)
                    ==> e.id < t.next_id) by {
                    if j != k {
                        assert(sl[j] == old_slots[j]);
                    }
                }
            }
            return id;
        }
        assert(first_free(t.slots@, (k + 1) as nat) is None);
        k += 1;
    }
    REGISTER_FAILED_STATUS
}

/// What the state-continuity check decides for a new enclave: resume from
/// the saved context of a surviving checkpoint, start fresh (no
/// checkpoint), or start fresh after refusing a checkpoint that does not
/// match its anchor.
#[derive(Clone, Copy, PartialEq, Eq, Debug, Structural)]
pub enum RestoreDecision {
    Resume { saved: EnclaveCtx },
    ColdGenesis,
    Reject,
}

/// Apply the state-continuity decision to the context of the enclave just
/// created in `slot`: a resumed enclave takes its saved context (so the
/// next enter resumes it); otherwise the fresh context stays. The code of
/// the decision (1 resume, 2 cold genesis, 3 reject) is returned.
pub fn create_restore(t: &mut EnclaveTable, slot: usize, d: RestoreDecision) -> (r: u32)
    requires
        old(t).wf(),
        slot < MAX_ENCLAVES_CTX,
    ensures
        final(t).wf(),
        match d {
            RestoreDecision::Resume { saved } => r == 1 && final(t)@ == (TableView {
                ctx: old(t).ctx@.update(slot as int, saved),
                ..old(t)@
            }),
            RestoreDecision::ColdGenesis => r == 2 && final(t)@ == old(t)@,
            RestoreDecision::Reject => r == 3 && final(t)@ == old(t)@,
        },
{
    match d {
        RestoreDecision::Resume { saved } => {
            t.ctx[slot] = saved;
            assert(t@ =~= (TableView { ctx: old(t).ctx@.update(slot as int, saved), ..old(t)@ }));
            1
        },
        RestoreDecision::ColdGenesis => 2,
        RestoreDecision::Reject => 3,
    }
}

// ----------------------------------------------------------------- enter

/// What `enclave_enter` does: switch to the enclave of `slot`, or hand the
/// host `status` at once.
#[derive(Clone, Copy, PartialEq, Eq, Debug, Structural)]
pub enum EnterAction {
    Run { slot: usize },
    Return { status: u32 },
}

/// Status when the enclave's slot has no context.
pub const NO_CONTEXT_STATUS: u32 = 0xFFFF_FFF1;

/// The decision of `enclave_enter`: an unknown id is `EnclaveNotFound`; a
/// ready or suspended enclave becomes the running one and is switched to; a
/// terminated one answers its exit word with its result, a faulted one its
/// exit word with result 0, a running one `EnclaveStateInvalid`, and these
/// leave the table as it was.
pub fn enter_decide(t: &mut EnclaveTable, enclave_id: u32) -> (a: EnterAction)
    requires
        old(t).wf(),
    ensures
        final(t).wf(),
        match slot_of_id(old(t).slots@, enclave_id) {
            None => a == EnterAction::Return {
                status: status_of(UmbraError::EnclaveNotFound { id: enclave_id }),
            } && final(t)@ == old(t)@,
            Some(i) => {
                let c = old(t).ctx@[i];
                match c.status {
                    EnclaveStatus::Ready | EnclaveStatus::Suspended => a == EnterAction::Run {
                        slot: i as usize,
                    } && final(t)@ == (TableView {
                        ctx: old(t).ctx@.update(i, EnclaveCtx { status: EnclaveStatus::Running, ..c }),
                        current: Some(enclave_id),
                        ..old(t)@
                    }),
                    EnclaveStatus::Terminated => a == EnterAction::Return {
                        status: exit_word(enclave_id, state_code(EnclaveStatus::Terminated), c.result),
                    } && final(t)@ == old(t)@,
                    EnclaveStatus::Faulted => a == EnterAction::Return {
                        status: exit_word(enclave_id, state_code(EnclaveStatus::Faulted), 0),
                    } && final(t)@ == old(t)@,
                    EnclaveStatus::Running => a == EnterAction::Return {
                        status: status_of(UmbraError::EnclaveStateInvalid),
                    } && final(t)@ == old(t)@,
                }
            },
        },
{
    let idx = match t.find(enclave_id) {
        None => return EnterAction::Return {
            status: nsc_status(UmbraError::EnclaveNotFound { id: enclave_id }),
        },
        Some(i) => i,
    };
    if idx >= MAX_ENCLAVES_CTX as usize {
        return EnterAction::Return { status: NO_CONTEXT_STATUS };
    }
    let c = t.ctx[idx];
    match c.status {
        EnclaveStatus::Ready | EnclaveStatus::Suspended => {},
        EnclaveStatus::Terminated => {
            return EnterAction::Return {
                status: exit_status(enclave_id, status_code(EnclaveStatus::Terminated), c.result),
            };
        },
        EnclaveStatus::Faulted => {
            return EnterAction::Return {
                status: exit_status(enclave_id, status_code(EnclaveStatus::Faulted), 0),
            };
        },
        EnclaveStatus::Running => {
            return EnterAction::Return { status: nsc_status(UmbraError::EnclaveStateInvalid) };
        },
    }
    t.ctx[idx] = EnclaveCtx { status: EnclaveStatus::Running, result: c.result };
    t.current = Some(enclave_id);
    EnterAction::Run { slot: idx }
}

// ------------------------------------------------------------ exit, status

/// The decision of `enclave_exit`: an unknown id is `EnclaveNotFound`; a
/// suspended enclave terminates and answers its exit word (result 0); a
/// terminated or faulted one answers its exit word with its state and
/// result 0, unchanged; a ready or running one is `EnclaveStateInvalid`.
pub fn exit_decide(t: &mut EnclaveTable, enclave_id: u32) -> (r: u32)
    requires
        old(t).wf(),
    ensures
        final(t).wf(),
        match slot_of_id(old(t).slots@, enclave_id) {
            None => r == status_of(UmbraError::EnclaveNotFound { id: enclave_id }) && final(t)@
                == old(t)@,
            Some(i) => {
                let c = old(t).ctx@[i];
                match c.status {
                    EnclaveStatus::Suspended => r == exit_word(
                        enclave_id,
                        state_code(EnclaveStatus::Terminated),
                        0,
                    ) && final(t)@ == (TableView {
                        ctx: old(t).ctx@.update(
                            i,
                            EnclaveCtx { status: EnclaveStatus::Terminated, ..c },
                        ),
                        ..old(t)@
                    }),
                    EnclaveStatus::Terminated | EnclaveStatus::Faulted => r == exit_word(
                        enclave_id,
                        state_code(c.status),
                        0,
                    ) && final(t)@ == old(t)@,
                    _ => r == status_of(UmbraError::EnclaveStateInvalid) && final(t)@ == old(t)@,
                }
            },
        },
{
    let idx = match t.find(enclave_id) {
        None => return nsc_status(UmbraError::EnclaveNotFound { id: enclave_id }),
        Some(i) => i,
    };
    if idx >= MAX_ENCLAVES_CTX as usize {
        return NO_CONTEXT_STATUS;
    }
    let c = t.ctx[idx];
    match c.status {
        EnclaveStatus::Suspended => {
            t.ctx[idx] = EnclaveCtx { status: EnclaveStatus::Terminated, result: c.result };
            exit_status(enclave_id, status_code(EnclaveStatus::Terminated), 0)
        },
        EnclaveStatus::Terminated | EnclaveStatus::Faulted => {
            exit_status(enclave_id, status_code(c.status), 0)
        },
        _ => nsc_status(UmbraError::EnclaveStateInvalid),
    }
}

/// Answer of `enclave_status` for an id no slot holds.
pub const UNKNOWN_ENCLAVE_STATUS: u32 = 0xFF;

/// The answer of `enclave_status`: the full result of a terminated enclave,
/// the state code of any other, [`UNKNOWN_ENCLAVE_STATUS`] for an unknown id.
pub fn status_decide(t: &EnclaveTable, enclave_id: u32) -> (r: u32)
    requires
        t.wf(),
    ensures
        match slot_of_id(t.slots@, enclave_id) {
            None => r == UNKNOWN_ENCLAVE_STATUS,
            Some(i) => r == if t.ctx@[i].status is Terminated {
                t.ctx@[i].result
            } else {
                state_code(t.ctx@[i].status)
            },
        },
{
    match t.find(enclave_id) {
        None => UNKNOWN_ENCLAVE_STATUS,
        Some(i) => {
            if i >= MAX_ENCLAVES_CTX as usize {
                return UNKNOWN_ENCLAVE_STATUS;
            }
            let c = t.ctx[i];
            match c.status {
                EnclaveStatus::Terminated => c.result,
                _ => status_code(c.status),
            }
        },
    }
}

/// The end of the enclave whose context is slot `ctx_slot`, stopped by a
/// fault or by returning through its end-of-task address: its context
/// takes `state` (terminated or faulted) and `r0` as its result, and the
/// host gets the exit word of the current enclave (id 0 when none) with the
/// low byte of `r0`.
pub fn fault_terminate(t: &mut EnclaveTable, ctx_slot: usize, state: EnclaveStatus, r0: u32) -> (w: u32)
    requires
        old(t).wf(),
        ctx_slot < MAX_ENCLAVES_CTX,
        state is Terminated || state is Faulted,
    ensures
        final(t).wf(),
        final(t)@ == (TableView {
            ctx: old(t).ctx@.update(ctx_slot as int, EnclaveCtx { status: state, result: r0 }),
            ..old(t)@
        }),
        w == exit_word(
            match old(t).current {
                Some(x) => x,
                None => 0,
            },
            state_code(state),
            r0,
        ),
{
    t.ctx[ctx_slot] = EnclaveCtx { status: state, result: r0 };
    assert(t@ =~= (TableView {
        ctx: old(t).ctx@.update(ctx_slot as int, EnclaveCtx { status: state, result: r0 }),
        ..old(t)@
    }));
    let id = match t.current {
        Some(x) => x,
        None => 0,
    };
    exit_status(id, status_code(state), r0)
}

// ----------------------------------------------------------------- tick

/// What the preemption tick does: resume the enclave of `slot` in place of
/// the interrupted one, or stop preempting and hand the host `status`.
#[derive(Clone, Copy, PartialEq, Eq, Debug, Structural)]
pub enum TickAction {
    Resume { slot: usize },
    Return { status: u32 },
}

/// Slot `i` of the table holds an enclave that may run.
pub open spec fn runnable_at(v: TableView, i: int) -> bool {
    v.slots[i] is Some && may_run(v.ctx[i].status)
}

/// A slot is runnable exactly when it holds an enclave that is ready or
/// suspended: a terminated, faulted or running enclave, or an empty slot,
/// is never picked to run.
pub proof fn lemma_runnable_exactly(v: TableView, i: int)
    ensures
        runnable_at(v, i) <==> (v.slots[i] is Some && (v.ctx[i].status is Ready
            || v.ctx[i].status is Suspended)),
        v.ctx[i].status is Terminated ==> !runnable_at(v, i),
        v.ctx[i].status is Faulted ==> !runnable_at(v, i),
        v.ctx[i].status is Running ==> !runnable_at(v, i),
{
}

/// The decision of the preemption tick that interrupted the enclave whose
/// context is slot `ctx_slot`: that enclave is suspended. If the slot of the
/// current enclave is known and another slot, in round-robin order after
/// it, holds a runnable enclave, the first such becomes the running and
/// current enclave and is resumed. Otherwise the host gets the suspended
/// exit word of the current enclave (id 0 when none).
pub fn tick_decide(t: &mut EnclaveTable, ctx_slot: usize) -> (a: TickAction)
    requires
        old(t).wf(),
        ctx_slot < MAX_ENCLAVES_CTX,
    ensures
        final(t).wf(),
        a matches TickAction::Resume { slot } ==> slot < MAX_ENCLAVES_CTX && old(t)@.slots[slot as int] is Some
            && (slot == ctx_slot || old(t)@.ctx[slot as int].status is Ready || old(
            t,
        )@.ctx[slot as int].status is Suspended) && final(t)@.ctx[slot as int].status is Running,
        ({
            let s = TableView {
                ctx: old(t).ctx@.update(
                    ctx_slot as int,
                    EnclaveCtx { status: EnclaveStatus::Suspended, ..old(t).ctx@[ctx_slot as int] },
                ),
                ..old(t)@
            };
            let cur = match old(t).current {
                Some(x) => x,
                None => 0,
            };
            match a {
                TickAction::Resume { slot } => exists|cs: int|
                    slot_of_id(s.slots, cur) == Some(cs) && exists|off: int|
                        1 <= off < MAX_ENCLAVES_CTX && slot == ring_next(cs, off, MAX_ENCLAVES_CTX as int)
                            && runnable_at(s, slot as int) && (forall|o: int|
                            1 <= o < off ==> !#[trigger] runnable_at(
                                s,
                                ring_next(cs, o, MAX_ENCLAVES_CTX as int),
                            )) && final(t)@ == (TableView {
                            ctx: s.ctx.update(
                                slot as int,
                                EnclaveCtx { status: EnclaveStatus::Running, ..s.ctx[slot as int] },
                            ),
                            current: Some(s.slots[slot as int]->Some_0.id),
                            ..s
                        }),
                TickAction::Return { status } => status == exit_word(
                    cur,
                    state_code(EnclaveStatus::Suspended),
                    0,
                ) && final(t)@ == s && (slot_of_id(s.slots, cur) matches Some(cs) ==> forall|off: int|
                    1 <= off < MAX_ENCLAVES_CTX ==> !#[trigger] runnable_at(
                        s,
                        ring_next(cs, off, MAX_ENCLAVES_CTX as int),
                    )),
            }
        }),
{
    let c = t.ctx[ctx_slot];
    t.ctx[ctx_slot] = EnclaveCtx { status: EnclaveStatus::Suspended, result: c.result };
    assert(t@ =~= (TableView {
        ctx: old(t).ctx@.update(
            ctx_slot as int,
            EnclaveCtx { status: EnclaveStatus::Suspended, ..old(t).ctx@[ctx_slot as int] },
        ),
        ..old(t)@
    }));
    let cur = match t.current {
        Some(x) => x,
        None => 0,
    };
    let ghost s = t@;
    match t.find(cur) {
        None => {},
        Some(cs) => {
            let mut runnable: Vec<bool> = Vec::new();
            let mut i: usize = 0;
            while i < MAX_ENCLAVES_CTX as usize
                invariant
                    i <= MAX_ENCLAVES_CTX,
                    t.wf(),
                    t@ == s,
                    runnable@.len() == i,
                    forall|j: int| 0 <= j < i ==> #[trigger] runnable@[j] == runnable_at(s, j),
                decreases MAX_ENCLAVES_CTX - i,
            {
                let r = match t.slots[i] {
                    Some(_) => match t.ctx[i].status {
                        EnclaveStatus::Ready | EnclaveStatus::Suspended => true,
                        _ => false,
                    },
                    None => false,
                };
                runnable.push(r);
                i += 1;
            }
            assert(forall|j: int| 0 <= j < MAX_ENCLAVES_CTX ==> #[trigger] runnable@[j] == runnable_at(s, j));
            match next_runnable(cs, runnable.as_slice()) {
                None => {
                    assert forall|off: int| 1 <= off < MAX_ENCLAVES_CTX implies !#[trigger] runnable_at(
                        s,
                        ring_next(cs as int, off, MAX_ENCLAVES_CTX as int),
                    ) by {
                        assert(!runnable@[ring_next(cs as int, off, MAX_ENCLAVES_CTX as int)]);
                    }
                },
                Some(ns) => {
                    let next_id = match t.slots[ns] {
                        Some(e) => e.id,
                        None => 0,
                    };
                    let nc = t.ctx[ns];
                    t.ctx[ns] = EnclaveCtx { status: EnclaveStatus::Running, result: nc.result };
                    t.current = Some(next_id);
                    proof {
                        let off = choose|off: int|
                            1 <= off < runnable@.len() && ns == ring_next(
                                cs as int,
                                off,
                                runnable@.len() as int,
                            ) && runnable@[ns as int] && forall|o: int|
                                1 <= o < off ==> !#[trigger] runnable@[ring_next(
                                    cs as int,
                                    o,
                                    runnable@.len() as int,
                                )];
                        assert forall|o: int| 1 <= o < off implies !#[trigger] runnable_at(
                            s,
                            ring_next(cs as int, o, MAX_ENCLAVES_CTX as int),
                        ) by {
                            assert(!runnable@[ring_next(cs as int, o, MAX_ENCLAVES_CTX as int)]);
                        }
                        assert(runnable_at(s, ns as int));
                        assert(t@ =~= (TableView {
                            ctx: s.ctx.update(
                                ns as int,
                                EnclaveCtx { status: EnclaveStatus::Running, ..s.ctx[ns as int] },
                            ),
                            current: Some(s.slots[ns as int]->Some_0.id),
                            ..s
                        }));
                    }
                    return TickAction::Resume { slot: ns };
                },
            }
        },
    }
    TickAction::Return { status: exit_status(cur, status_code(EnclaveStatus::Suspended), 0) }
}

// ---------------------------------------------------------------- update

/// Smallest update package: 32-byte prefix, 48-byte blob, 32-byte tag.
pub const UPDATE_MIN_LEN: u32 = 112;

/// Largest update package: the Secure scratch it is copied into.
pub const UPDATE_MAX_LEN: u32 = 0x10000;

/// No nonce armed, or the package answers another nonce.
pub const UPDATE_ERR_NONCE: u32 = 0xFFFF_FF20;

/// The slot written fails its measurement.
pub const UPDATE_ERR_VERIFY: u32 = 0xFFFF_FF22;

/// The version written is not above the active one.
pub const UPDATE_ERR_ROLLBACK: u32 = 0xFFFF_FF23;

/// A loaded enclave has not finished running.
pub const UPDATE_ERR_BUSY: u32 = 0xFFFF_FF25;

/// Bad package pointer or length.
pub const UPDATE_ERR_ARG: u32 = 0xFFFF_FFF6;

/// The package `[ptr, ptr + len)` lies in Non-Secure RAM and has an
/// acceptable length.
pub open spec fn package_ok(pkg_ptr: u32, pkg_len: u32) -> bool {
    &&& crate::attest::NS_RAM_LO <= pkg_ptr
    &&& pkg_ptr + pkg_len <= crate::attest::NS_RAM_HI
    &&& UPDATE_MIN_LEN <= pkg_len <= UPDATE_MAX_LEN
}

/// Some loaded enclave may still run.
pub open spec fn table_busy(v: TableView) -> bool {
    exists|i: int| 0 <= i < v.slots.len() && #[trigger] v.slots[i] is Some && !is_done(v.ctx[i].status)
}

/// The admission of an update package: a bad pointer or length is refused
/// with nothing changed; then, with no nonce armed, the nonce error; once a
/// nonce is in play it is disarmed whatever follows, and the update is
/// refused as busy while a loaded enclave may still run. Admitted, the
/// nonce the package must answer is returned.
pub fn update_admit(pkg_ptr: u32, pkg_len: u32, t: &mut EnclaveTable) -> (r: Result<[u8; 16], u32>)
    requires
        old(t).wf(),
    ensures
        final(t).wf(),
        !package_ok(pkg_ptr, pkg_len) ==> r == Err::<[u8; 16], u32>(UPDATE_ERR_ARG) && final(t)@
            == old(t)@,
        package_ok(pkg_ptr, pkg_len) && !old(t).nonce_armed ==> r == Err::<[u8; 16], u32>(
            UPDATE_ERR_NONCE,
        ) && final(t)@ == old(t)@,
        package_ok(pkg_ptr, pkg_len) && old(t).nonce_armed ==> final(t)@ == (TableView {
            nonce_armed: false,
            ..old(t)@
        }) && r == if table_busy(old(t)@) {
            Err::<[u8; 16], u32>(UPDATE_ERR_BUSY)
        } else {
            Ok::<[u8; 16], u32>(old(t).last_nonce)
        },
{
    if !ns_range_ok(pkg_ptr, pkg_len) || pkg_len < UPDATE_MIN_LEN || pkg_len > UPDATE_MAX_LEN {
        return Err(UPDATE_ERR_ARG);
    }
    if !t.nonce_armed {
        return Err(UPDATE_ERR_NONCE);
    }
    t.nonce_armed = false;
    assert(t@ =~= (TableView { nonce_armed: false, ..old(t)@ }));
    let mut i: usize = 0;
    while i < t.slots.len()
        invariant
            t.wf(),
            i <= t.slots@.len(),
            package_ok(pkg_ptr, pkg_len),
            old(t).nonce_armed,
            t@ == (TableView { nonce_armed: false, ..old(t)@ }),
            forall|j: int| 0 <= j < i ==> !(#[trigger] t.slots@[j] is Some && !is_done(t.ctx@[j].status)),
        decreases t.slots@.len() - i,
    {
        if t.slots[i].is_some() {
            match t.ctx[i].status {
                EnclaveStatus::Terminated | EnclaveStatus::Faulted => {},
                _ => {
                    assert(t.slots@[i as int] is Some && !is_done(t.ctx@[i as int].status));
                    return Err(UPDATE_ERR_BUSY);
                },
            }
        }
        i += 1;
    }
    Ok(t.last_nonce)
}

/// The slot an update writes and the version it must beat: with slot A
/// (0) active, slot B (1) and A's version; with B active, A and B's
/// version; with neither valid, A and no version.
pub fn update_target(active: Option<u32>, version_a: Option<u32>, version_b: Option<u32>) -> (r: (
    u32,
    Option<u32>,
))
    ensures
        r == match active {
            Some(0) => (1u32, version_a),
            Some(1) => (0u32, version_b),
            _ => (0u32, None::<u32>),
        },
{
    match active {
        Some(0) => (1, version_a),
        Some(1) => (0, version_b),
        _ => (0, None),
    }
}

/// The package's signature does not verify.
pub const UPDATE_ERR_AUTH: u32 = 0xFFFF_FF21;

/// Writing the slot failed.
pub const UPDATE_ERR_FLASH: u32 = 0xFFFF_FF24;

/// What checking an update package against the armed nonce and the update
/// key gave: an authentic package (with the version it declares), a
/// package bound to another nonce, one whose tag does not verify, or a
/// malformed one.
#[derive(Clone, Copy, PartialEq, Eq, Debug, Structural)]
pub enum PackageCheck {
    Authentic { version: u32 },
    NonceMismatch,
    TagInvalid,
    Malformed,
}

/// The status of a package check: authentic goes on; another nonce is
/// [`UPDATE_ERR_NONCE`], a bad tag [`UPDATE_ERR_AUTH`], a malformed package
/// [`UPDATE_ERR_ARG`].
pub open spec fn check_status(c: PackageCheck) -> Result<(), u32> {
    match c {
        PackageCheck::Authentic { .. } => Ok(()),
        PackageCheck::NonceMismatch => Err(UPDATE_ERR_NONCE),
        PackageCheck::TagInvalid => Err(UPDATE_ERR_AUTH),
        PackageCheck::Malformed => Err(UPDATE_ERR_ARG),
    }
}

/// Go on with an update only for an authentic package.
pub fn update_check(c: PackageCheck) -> (r: Result<(), u32>)
    ensures
        r == check_status(c),
{
    match c {
        PackageCheck::Authentic { .. } => Ok(()),
        PackageCheck::NonceMismatch => Err(UPDATE_ERR_NONCE),
        PackageCheck::TagInvalid => Err(UPDATE_ERR_AUTH),
        PackageCheck::Malformed => Err(UPDATE_ERR_ARG),
    }
}

/// The answer of an update: a package that is not authentic gets its check
/// status; a failed slot write [`UPDATE_ERR_FLASH`]; a slot that fails its
/// measurement again from flash (`written_version` is `None`)
/// [`UPDATE_ERR_VERIFY`] (the caller then blanks it); a version not above
/// the active one [`UPDATE_ERR_ROLLBACK`]; otherwise 0. So 0 is answered
/// only for an authentic package written and authenticated again from flash
/// above the active version.
pub fn update_finish(
    check: PackageCheck,
    written_ok: bool,
    active_version: Option<u32>,
    written_version: Option<u32>,
) -> (r: u32)
    ensures
        r == match check_status(check) {
            Err(e) => e,
            Ok(_) => if !written_ok {
                UPDATE_ERR_FLASH
            } else {
                match written_version {
                    None => UPDATE_ERR_VERIFY,
                    Some(w) => match active_version {
                        Some(a) => if w <= a {
                            UPDATE_ERR_ROLLBACK
                        } else {
                            0
                        },
                        None => 0,
                    },
                }
            },
        },
        r == 0 <==> (written_version matches Some(w) && check is Authentic && written_ok && (
        active_version matches Some(a) ==> w > a)),
{
    if let Err(e) = update_check(check) {
        return e;
    }
    if !written_ok {
        return UPDATE_ERR_FLASH;
    }
    match (written_version, active_version) {
        (None, _) => UPDATE_ERR_VERIFY,
        (Some(w), Some(a)) => if w <= a {
            UPDATE_ERR_ROLLBACK
        } else {
            0
        },
        (Some(_), None) => 0,
    }
}

} // verus!
