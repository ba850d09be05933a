//! Decisions of the exception handlers: what a fault means for the running
//! enclave, which enclave the preemption tick switches to, and how the
//! outcome is encoded for the enclave-entry call that is waiting for it.

use vstd::prelude::*;

verus! {

/// CFSR: UsageFault status (UFSR) occupies bits 31:16.
/// UFSR.UNDEFINSTR: an undefined instruction (a block not loaded yet).
pub const CFSR_UNDEFINSTR: u32 = 1 << 16;
/// UFSR.INVSTATE: an invalid state (the return through the end-of-task LR).
pub const CFSR_INVSTATE: u32 = 1 << 17;
/// Write-1-to-clear mask of every UsageFault status bit.
pub const CFSR_UFSR_ALL: u32 = 0xFFFF_0000;

/// MMFSR (CFSR bits 7:0): instruction access violation.
pub const MMFSR_IACCVIOL: u8 = 0x01;
/// MMFSR: data access violation.
pub const MMFSR_DACCVIOL: u8 = 0x02;
/// MMFSR: MMFAR holds the faulting address.
pub const MMFSR_MMARVALID: u8 = 0x80;

/// Where an enclave started with the end-of-task link register lands when
/// it returns: its `bx lr` goes to 0xFFFF_FFFE.
pub const END_OF_TASK_PC: u32 = 0xFFFF_FFFE;

/// What a UsageFault means for the running enclave.
#[derive(Clone, Copy, Debug, PartialEq, Eq, Structural)]
pub enum UsageFaultKind {
    /// An undefined instruction: the block has not been loaded; load it and
    /// rerun the instruction.
    MissingBlock,
    /// An invalid state: the enclave returned through its end-of-task link
    /// register; it is done.
    EndOfTask,
    /// Anything else: the enclave faulted.
    Fault,
}

/// The UsageFault kind that CFSR shows: a missing block wins over an end of
/// task, which wins over any other fault.
pub open spec fn usage_fault_kind(cfsr: u32) -> UsageFaultKind {
    if cfsr & CFSR_UNDEFINSTR != 0 {
        UsageFaultKind::MissingBlock
    } else if cfsr & CFSR_INVSTATE != 0 {
        UsageFaultKind::EndOfTask
    } else {
        UsageFaultKind::Fault
    }
}

/// Classify a UsageFault from the CFSR value read at entry.
pub fn classify_usage_fault(cfsr: u32) -> (k: UsageFaultKind)
    ensures
        k == usage_fault_kind(cfsr),
{
    if cfsr & CFSR_UNDEFINSTR != 0 {
        UsageFaultKind::MissingBlock
    } else if cfsr & CFSR_INVSTATE != 0 {
        UsageFaultKind::EndOfTask
    } else {
        UsageFaultKind::Fault
    }
}

/// The address a MemManage fault is about: MMFAR for a data access
/// violation whose address is valid, the stacked PC for an instruction
/// access violation (which does not set MMFAR), otherwise 0.
pub open spec fn mem_fault_addr(mmfsr: u8, mmfar: u32, stacked_pc: u32) -> u32 {
    if mmfsr & MMFSR_DACCVIOL != 0 && mmfsr & MMFSR_MMARVALID != 0 {
        mmfar
    } else if mmfsr & MMFSR_IACCVIOL != 0 {
        stacked_pc
    } else {
        0
    }
}

/// Pick the faulting address of a MemManage fault.
pub fn mem_fault_address(mmfsr: u8, mmfar: u32, stacked_pc: u32) -> (a: u32)
    ensures
        a == mem_fault_addr(mmfsr, mmfar, stacked_pc),
{
    if mmfsr & MMFSR_DACCVIOL != 0 && mmfsr & MMFSR_MMARVALID != 0 {
        mmfar
    } else if mmfsr & MMFSR_IACCVIOL != 0 {
        stacked_pc
    } else {
        0
    }
}

/// A MemManage fault is the enclave's normal end: an instruction fetch
/// refused at the end-of-task address.
pub fn is_end_of_task(mmfsr: u8, stacked_pc: u32) -> (b: bool)
    ensures
        b == (mmfsr & MMFSR_IACCVIOL != 0 && stacked_pc == END_OF_TASK_PC),
{
    mmfsr & MMFSR_IACCVIOL != 0 && stacked_pc == END_OF_TASK_PC
}

/// Where the stacked frame of a SecureFault lives, from EXC_RETURN: whether
/// the faulting code ran Non-Secure (bit 6, S, clear) and whether its frame
/// is on the process stack (bit 2, SPSEL, set).
pub fn fault_frame_origin(exc_return: u32) -> (o: (bool, bool))
    ensures
        o.0 == (exc_return & (1u32 << 6u32) == 0),
        o.1 == (exc_return & (1u32 << 2u32) != 0),
{
    (exc_return & (1 << 6) == 0, exc_return & (1 << 2) != 0)
}

/// The status word handed back to the enclave-entry call: the enclave id in
/// bits 31:16, the enclave state code in bits 15:8, the low byte of the
/// enclave's result in bits 7:0.
pub open spec fn exit_word(enclave_id: u32, state: u32, result: u32) -> u32 {
    ((enclave_id & 0xFFFF) << 16u32) | ((state & 0xFF) << 8u32) | (result & 0xFF)
}

/// Encode an enclave's exit for the enclave-entry call.
pub fn exit_status(enclave_id: u32, state: u32, result: u32) -> (w: u32)
    ensures
        w == exit_word(enclave_id, state, result),
{
    ((enclave_id & 0xFFFF) << 16) | ((state & 0xFF) << 8) | (result & 0xFF)
}

/// The three fields of an exit word read back as they went in (the id and
/// the state code to 16 and 8 bits, the result to its low byte).
pub proof fn lemma_exit_word_fields(enclave_id: u32, state: u32, result: u32)
    ensures
        exit_word(enclave_id, state, result) >> 16u32 == enclave_id & 0xFFFF,
        (exit_word(enclave_id, state, result) >> 8u32) & 0xFF == state & 0xFF,
        exit_word(enclave_id, state, result) & 0xFF == result & 0xFF,
{
    assert(((((enclave_id & 0xFFFF) << 16u32) | ((state & 0xFF) << 8u32) | (result & 0xFF)) >> 16u32
        == enclave_id & 0xFFFF) && ((((((enclave_id & 0xFFFF) << 16u32) | ((state & 0xFF) << 8u32) | (
    result & 0xFF)) >> 8u32) & 0xFF) == state & 0xFF) && (((((enclave_id & 0xFFFF) << 16u32) | ((
    state & 0xFF) << 8u32) | (result & 0xFF)) & 0xFF) == result & 0xFF)) by (bit_vector);
}

/// The slot `off` places after `cur` in a ring of `n` slots.
pub open spec fn ring_next(cur: int, off: int, n: int) -> int {
    if cur + off < n {
        cur + off
    } else {
        cur + off - n
    }
}

/// The enclave the preemption tick switches to: the first slot after the
/// current one, in round-robin order, whose enclave is loaded and ready or
/// suspended (`runnable`). `None` hands control back to the host.
pub fn next_runnable(cur: usize, runnable: &[bool]) -> (r: Option<usize>)
    requires
        cur < runnable.len(),
    ensures
        match r {
            Some(ns) => exists|off: int|
                1 <= off < runnable@.len() && ns == ring_next(cur as int, off, runnable@.len() as int)
                    && runnable@[ns as int] && forall|o: int|
                    1 <= o < off ==> !#[trigger] runnable@[ring_next(cur as int, o, runnable@.len() as int)],
            None => forall|off: int|
                1 <= off < runnable@.len() ==> !#[trigger] runnable@[ring_next(
                    cur as int,
                    off,
                    runnable@.len() as int,
                )],
        },
        r is Some ==> r->Some_0 != cur,
{
    let n = runnable.len();
    let mut off: usize = 1;
    while off < n
        invariant
            1 <= off <= n,
            n == runnable@.len(),
            cur < n,
            forall|o: int| 1 <= o < off ==> !#[trigger] runnable@[ring_next(cur as int, o, n as int)],
        decreases n - off,
    {
        let ns = if off < n - cur {
            cur + off
        } else {
            off - (n - cur)
        };
        assert(ns == ring_next(cur as int, off as int, n as int));
        if runnable[ns] {
            return Some(ns);
        }
        off += 1;
    }
    None
}

/// The slot whose loaded enclave has id `id`: the first such slot.
pub fn slot_of(ids: &[Option<u32>], id: u32) -> (r: Option<usize>)
    ensures
        match r {
            Some(i) => i < ids@.len() && ids@[i as int] == Some(id) && forall|j: int|
                0 <= j < i ==> #[trigger] ids@[j] != Some(id),
            None => forall|j: int| 0 <= j < ids@.len() ==> #[trigger] ids@[j] != Some(id),
        },
{
    let mut i: usize = 0;
    while i < ids.len()
        invariant
            i <= ids@.len(),
            forall|j: int| 0 <= j < i ==> #[trigger] ids@[j] != Some(id),
        decreases ids@.len() - i,
    {
        match ids[i] {
            Some(x) => {
                if x == id {
                    return Some(i);
                }
            },
            None => {},
        }
        i += 1;
    }
    None
}

/// Switches between overlay enclaves per state-continuity checkpoint of the
/// outgoing one (a checkpoint is a flash write, slow and wearing).
pub const CHECKPOINT_EVERY: u32 = 16;

/// Whether the switch numbered `tick` (counted from 0) checkpoints the
/// outgoing enclave: the first of every `CHECKPOINT_EVERY` switches.
pub fn checkpoint_due(tick: u32) -> (b: bool)
    ensures
        b == (tick % CHECKPOINT_EVERY == 0),
{
    tick % CHECKPOINT_EVERY == 0
}

/// The enclave-context slot that a context address points at, in a table of
/// `count` contexts of `size` bytes from `table`: the distance (modulo 2^32,
/// so an address below the table is far away) divided by `size`, if that is
/// below `count`.
pub fn context_index(ctx_addr: u32, table: u32, size: u32, count: u32) -> (r: Option<u32>)
    requires
        size > 0,
    ensures
        match r {
            Some(i) => i == ctx_addr.wrapping_sub(table) / size && i < count,
            None => ctx_addr.wrapping_sub(table) / size >= count,
        },
{
    let idx = ctx_addr.wrapping_sub(table) / size;
    if idx < count {
        Some(idx)
    } else {
        None
    }
}

} // verus!
