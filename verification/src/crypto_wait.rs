//! Waiting for a crypto completion flag raised by an interrupt handler.
//!
//! The handler sets a done flag; the waiting side polls it a bounded number
//! of times and fails closed on a timeout. The flag is read through
//! [`DoneFlag`], which records every observation.

use crate::mmio::{op_value, MmioAccess, MmioOp};
use vstd::prelude::*;

verus! {

/// Errors of a bounded wait.
#[derive(Clone, Copy, Debug, PartialEq, Eq, Structural)]
pub enum CryptoWaitError {
    Timeout,
}

/// A completion flag set from interrupt context.
pub trait DoneFlag {
    /// Every value read so far, oldest first.
    spec fn observed(&self) -> Seq<bool>;

    /// The value every read returns, for a flag that cannot change; `None`
    /// for a live one.
    spec fn fixed_value(&self) -> Option<bool>;

    /// Read the flag.
    fn is_set(&mut self) -> (b: bool)
        ensures
            final(self).observed() == old(self).observed().push(b),
            final(self).fixed_value() == old(self).fixed_value(),
            old(self).fixed_value() matches Some(v) ==> b == v,
    ;
}

/// A flag that always reads the same value.
pub struct FixedFlag {
    value: bool,
    seen: Ghost<Seq<bool>>,
}

impl FixedFlag {
    /// The value every read returns.
    pub closed spec fn value(&self) -> bool {
        self.value
    }

    pub fn new(value: bool) -> (f: Self)
        ensures
            f.value() == value,
            f.observed() == Seq::<bool>::empty(),
    {
        FixedFlag { value, seen: Ghost(Seq::empty()) }
    }
}

impl DoneFlag for FixedFlag {
    closed spec fn observed(&self) -> Seq<bool> {
        self.seen@
    }

    open spec fn fixed_value(&self) -> Option<bool> {
        Some(self.value())
    }

    fn is_set(&mut self) -> (b: bool)
        ensures
            b == old(self).value(),
            final(self).value() == old(self).value(),
    {
        self.seen = Ghost(self.seen@.push(self.value));
        self.value
    }
}

/// The raw read of a completion flag, supplied by the platform (an atomic
/// set from interrupt context on the target).
pub trait FlagSource {
    fn read_flag(&mut self) -> bool;
}

/// A completion flag read through a platform source; every read is
/// recorded in the model.
pub struct SourcedFlag<S: FlagSource> {
    source: S,
    seen: Ghost<Seq<bool>>,
}

impl<S: FlagSource> SourcedFlag<S> {
    /// A flag over `source` that has not been read yet.
    pub fn new(source: S) -> (f: Self)
        ensures
            f.observed() == Seq::<bool>::empty(),
    {
        SourcedFlag { source, seen: Ghost(Seq::empty()) }
    }
}

impl<S: FlagSource> DoneFlag for SourcedFlag<S> {
    closed spec fn observed(&self) -> Seq<bool> {
        self.seen@
    }

    open spec fn fixed_value(&self) -> Option<bool> {
        None
    }

    fn is_set(&mut self) -> (b: bool) {
        let b = self.source.read_flag();
        self.seen = Ghost(self.seen@.push(b));
        b
    }
}

/// Poll `flag` until it reads set, at most `budget + 1` times. `Ok` as soon as
/// it reads set; `Timeout` when all `budget + 1` reads found it clear.
pub fn block_until_done<F: DoneFlag>(flag: &mut F, budget: u32) -> (r: Result<(), CryptoWaitError>)
    ensures
        ({
            let d = final(flag).observed().skip(old(flag).observed().len() as int);
            &&& final(flag).observed().take(old(flag).observed().len() as int) == old(flag).observed()
            &&& 1 <= d.len() <= budget + 1
            &&& forall|i: int| 0 <= i < d.len() - 1 ==> !#[trigger] d[i]
            &&& r is Ok <==> d.last()
            &&& r is Err ==> r == Err::<(), CryptoWaitError>(CryptoWaitError::Timeout) && d.len() == budget + 1
        }),
        final(flag).fixed_value() == old(flag).fixed_value(),
        old(flag).fixed_value() matches Some(v) ==> (r is Ok <==> v) && (v ==> final(flag).observed().len()
            == old(flag).observed().len() + 1),
{
    let ghost n = flag.observed().len();
    let mut left = budget;
    loop
        invariant
            left <= budget,
            n == old(flag).observed().len(),
            flag.observed().len() == n + (budget - left),
            flag.observed().take(n as int) == old(flag).observed(),
            forall|i: int| n <= i < flag.observed().len() ==> !#[trigger] flag.observed()[i],
            flag.fixed_value() == old(flag).fixed_value(),
            old(flag).fixed_value() == Some(true) ==> left == budget,
        decreases left,
    {
        let ghost before = flag.observed();
        let done = flag.is_set();
        proof {
            assert(flag.observed().take(n as int) =~= before.take(n as int));
            assert forall|i: int| n <= i < before.len() implies !#[trigger] flag.observed()[i] by {
                assert(flag.observed()[i] == before[i]);
            }
        }
        if done {
            proof {
                let d = flag.observed().skip(n as int);
                assert forall|i: int| 0 <= i < d.len() - 1 implies !#[trigger] d[i] by {
                    assert(d[i] == before[n + i]);
                }
            }
            return Ok(());
        }
        if left == 0 {
            proof {
                let d = flag.observed().skip(n as int);
                assert forall|i: int| 0 <= i < d.len() - 1 implies !#[trigger] d[i] by {
                    assert(d[i] == flag.observed()[n + i]);
                }
            }
            return Err(CryptoWaitError::Timeout);
        }
        left -= 1;
    }
}

// ---------------------------------------------------------------------------
// Interrupt wiring (over the system bus: absolute addresses)
// ---------------------------------------------------------------------------

pub const SAES_IER: u32 = 0x5402_1300;
pub const SAES_IER_CCFIE: u32 = 1 << 0;
pub const SAES_ICR: u32 = 0x5402_1308;
pub const SAES_ICR_CCF: u32 = 1 << 0;
/// NVIC set-enable, clear-enable and clear-pending of IRQ 32..63.
pub const NVIC_ISER1: u32 = 0xE000_E104;
pub const NVIC_ICER1: u32 = 0xE000_E184;
pub const NVIC_ICPR1: u32 = 0xE000_E284;
/// SAES is IRQ 36.
pub const SAES_IRQ_BIT: u32 = 1 << 4;
pub const HASH_IMR: u32 = 0x5402_0420;
pub const HASH_SR_ADDR: u32 = 0x5402_0424;
pub const HASH_IMR_DCIE: u32 = 1 << 1;
pub const HASH_SR_DCIS: u32 = 1 << 1;
/// HASH is IRQ 39.
pub const HASH_IRQ_BIT: u32 = 1 << 7;
/// Priority bytes of IRQ 36..39; IRQ 39 is bits 31:24.
pub const NVIC_IPR9: u32 = 0xE000_E424;
/// SVCall priority (bits 31:24) and SysTick priority (bits 31:24).
pub const SHPR2: u32 = 0xE000_ED1C;
pub const SHPR3: u32 = 0xE000_ED20;
/// SVC and SysTick priority: below HASH, so the HASH interrupt can preempt
/// the supervisor call that waits for it.
pub const PRIO_LOWER: u32 = 0x40;
/// Polls of the HASH wait.
pub const HASH_WAIT_BUDGET: u32 = 2_000_000;

/// `o[i]` reads `addr` and `o[i + 1]` writes back `(value & keep) | set`.
pub open spec fn rmw_at(o: Seq<MmioOp>, i: int, addr: u32, keep: u32, set: u32) -> bool {
    &&& o[i] == (MmioOp::Read { addr, value: op_value(o[i]) })
    &&& o[i + 1] == (MmioOp::Write { addr, value: (op_value(o[i]) & keep) | set })
}

/// SAES completion interrupt: clear CCF, then mask the CCF interrupt.
pub fn on_saes_irq<M: MmioAccess>(bus: &mut M)
    requires
        old(bus).base() == 0,
    ensures
        final(bus).base() == 0,
        ({
            let o = final(bus).ops();
            let n = old(bus).ops().len() as int;
            &&& o.len() == n + 3
            &&& o.take(n) == old(bus).ops()
            &&& o[n] == (MmioOp::Write { addr: SAES_ICR, value: SAES_ICR_CCF })
            &&& rmw_at(o, n + 1, SAES_IER, !SAES_IER_CCFIE, 0)
        }),
{
    bus.write(SAES_ICR, SAES_ICR_CCF);
    let ier = bus.read(SAES_IER);
    bus.write(SAES_IER, (ier & !SAES_IER_CCFIE) | 0);
    assert(bus.ops().take(old(bus).ops().len() as int) =~= old(bus).ops());
}

/// Arm the SAES completion interrupt: drop a stale pending NVIC bit, unmask
/// CCF, enable the NVIC line.
pub fn arm<M: MmioAccess>(bus: &mut M)
    requires
        old(bus).base() == 0,
    ensures
        final(bus).base() == 0,
        ({
            let o = final(bus).ops();
            let n = old(bus).ops().len() as int;
            &&& o.len() == n + 4
            &&& o.take(n) == old(bus).ops()
            &&& o[n] == (MmioOp::Write { addr: NVIC_ICPR1, value: SAES_IRQ_BIT })
            &&& rmw_at(o, n + 1, SAES_IER, 0xFFFF_FFFF, SAES_IER_CCFIE)
            &&& o[n + 3] == (MmioOp::Write { addr: NVIC_ISER1, value: SAES_IRQ_BIT })
        }),
{
    bus.write(NVIC_ICPR1, SAES_IRQ_BIT);
    let ier = bus.read(SAES_IER);
    bus.write(SAES_IER, (ier & 0xFFFF_FFFF) | SAES_IER_CCFIE);
    bus.write(NVIC_ISER1, SAES_IRQ_BIT);
    assert(bus.ops().take(old(bus).ops().len() as int) =~= old(bus).ops());
}

/// Disarm the SAES completion interrupt: mask CCF, disable the NVIC line.
pub fn disarm<M: MmioAccess>(bus: &mut M)
    requires
        old(bus).base() == 0,
    ensures
        final(bus).base() == 0,
        ({
            let o = final(bus).ops();
            let n = old(bus).ops().len() as int;
            &&& o.len() == n + 3
            &&& o.take(n) == old(bus).ops()
            &&& rmw_at(o, n, SAES_IER, !SAES_IER_CCFIE, 0)
            &&& o[n + 2] == (MmioOp::Write { addr: NVIC_ICER1, value: SAES_IRQ_BIT })
        }),
{
    let ier = bus.read(SAES_IER);
    bus.write(SAES_IER, (ier & !SAES_IER_CCFIE) | 0);
    bus.write(NVIC_ICER1, SAES_IRQ_BIT);
    assert(bus.ops().take(old(bus).ops().len() as int) =~= old(bus).ops());
}

/// The one-time HASH interrupt setup: SVC and SysTick down to `PRIO_LOWER`,
/// HASH to the most urgent priority, a stale pending bit dropped, the NVIC
/// line enabled.
pub open spec fn hash_setup_ops_at(o: Seq<MmioOp>, n: int) -> bool {
    &&& rmw_at(o, n, SHPR2, 0x00FF_FFFF, 0x4000_0000)
    &&& rmw_at(o, n + 2, SHPR3, 0x00FF_FFFF, 0x4000_0000)
    &&& rmw_at(o, n + 4, NVIC_IPR9, 0x00FF_FFFF, 0)
    &&& o[n + 6] == (MmioOp::Write { addr: NVIC_ICPR1, value: HASH_IRQ_BIT })
    &&& o[n + 7] == (MmioOp::Write { addr: NVIC_ISER1, value: HASH_IRQ_BIT })
}

fn hash_irq_setup<M: MmioAccess>(bus: &mut M)
    requires
        old(bus).base() == 0,
    ensures
        final(bus).base() == 0,
        final(bus).ops().len() == old(bus).ops().len() + 8,
        final(bus).ops().take(old(bus).ops().len() as int) == old(bus).ops(),
        hash_setup_ops_at(final(bus).ops(), old(bus).ops().len() as int),
{
    let s2 = bus.read(SHPR2);
    bus.write(SHPR2, (s2 & 0x00FF_FFFF) | 0x4000_0000);
    let s3 = bus.read(SHPR3);
    bus.write(SHPR3, (s3 & 0x00FF_FFFF) | 0x4000_0000);
    let p = bus.read(NVIC_IPR9);
    bus.write(NVIC_IPR9, (p & 0x00FF_FFFF) | 0);
    bus.write(NVIC_ICPR1, HASH_IRQ_BIT);
    bus.write(NVIC_ISER1, HASH_IRQ_BIT);
    assert(bus.ops().take(old(bus).ops().len() as int) =~= old(bus).ops());
}

/// Before a HASH computation: the interrupt setup the first time only
/// (`setup_done` records it), then unmask the digest-complete interrupt.
pub fn hash_arm<M: MmioAccess>(bus: &mut M, setup_done: &mut bool)
    requires
        old(bus).base() == 0,
    ensures
        final(bus).base() == 0,
        *final(setup_done),
        ({
            let o = final(bus).ops();
            let n = old(bus).ops().len() as int;
            let s = if *old(setup_done) { 0int } else { 8int };
            &&& o.len() == n + s + 2
            &&& o.take(n) == old(bus).ops()
            &&& !*old(setup_done) ==> hash_setup_ops_at(o, n)
            &&& rmw_at(o, n + s, HASH_IMR, 0xFFFF_FFFF, HASH_IMR_DCIE)
        }),
{
    if !*setup_done {
        hash_irq_setup(bus);
        *setup_done = true;
    }
    let ghost mid = bus.ops();
    let imr = bus.read(HASH_IMR);
    bus.write(HASH_IMR, (imr & 0xFFFF_FFFF) | HASH_IMR_DCIE);
    proof {
        let o = bus.ops();
        let n = old(bus).ops().len() as int;
        assert(o.take(n) =~= old(bus).ops()) by {
            assert(mid.take(n) == old(bus).ops());
        }
        if !*old(setup_done) {
            assert forall|i: int| n <= i < n + 8 implies o[i] == mid[i] by {}
        }
    }
}

/// HASH digest-complete interrupt: mask it (the status bit stays set; the
/// digest registers keep the result).
pub fn on_hash_irq<M: MmioAccess>(bus: &mut M)
    requires
        old(bus).base() == 0,
    ensures
        final(bus).base() == 0,
        final(bus).ops().len() == old(bus).ops().len() + 2,
        final(bus).ops().take(old(bus).ops().len() as int) == old(bus).ops(),
        rmw_at(final(bus).ops(), old(bus).ops().len() as int, HASH_IMR, !HASH_IMR_DCIE, 0),
{
    let imr = bus.read(HASH_IMR);
    bus.write(HASH_IMR, (imr & !HASH_IMR_DCIE) | 0);
    assert(bus.ops().take(old(bus).ops().len() as int) =~= old(bus).ops());
}

/// Wait for the HASH digest: until the completion flag reads set, or the
/// status register shows DCIS, or the budget runs out; then mask the
/// interrupt in case the handler did not run. Never hangs.
pub fn block_until_hash_done<F: DoneFlag, M: MmioAccess>(flag: &mut F, bus: &mut M)
    requires
        old(bus).base() == 0,
    ensures
        final(bus).base() == 0,
        ({
            let o = final(bus).ops();
            let n = old(bus).ops().len() as int;
            let d = final(flag).observed().skip(old(flag).observed().len() as int);
            &&& final(flag).observed().take(old(flag).observed().len() as int) == old(flag).observed()
            &&& 1 <= d.len() <= HASH_WAIT_BUDGET + 1
            &&& o.len() >= n + 2
            &&& o.take(n) == old(bus).ops()
            &&& forall|i: int|
                n <= i < o.len() - 2 ==> #[trigger] o[i] == (MmioOp::Read {
                    addr: HASH_SR_ADDR,
                    value: op_value(o[i]),
                })
            &&& rmw_at(o, o.len() - 2, HASH_IMR, !HASH_IMR_DCIE, 0)
        }),
{
    let ghost n = bus.ops().len() as int;
    let ghost f0 = flag.observed().len() as int;
    let mut left = HASH_WAIT_BUDGET;
    loop
        invariant_except_break
            flag.observed().len() == f0 + (HASH_WAIT_BUDGET - left),
        invariant
            left <= HASH_WAIT_BUDGET,
            bus.base() == 0,
            n == old(bus).ops().len(),
            f0 == old(flag).observed().len(),
            bus.ops().len() >= n,
            bus.ops().take(n) == old(bus).ops(),
            forall|i: int|
                n <= i < bus.ops().len() ==> #[trigger] bus.ops()[i] == (MmioOp::Read {
                    addr: HASH_SR_ADDR,
                    value: op_value(bus.ops()[i]),
                }),
            flag.observed().take(f0) == old(flag).observed(),
        ensures
            f0 + 1 <= flag.observed().len() <= f0 + HASH_WAIT_BUDGET + 1,
        decreases left,
    {
        let ghost fb = flag.observed();
        let done = flag.is_set();
        proof {
            assert(flag.observed().take(f0) =~= fb.take(f0));
        }
        if done {
            break;
        }
        let ghost before = bus.ops();
        let sr = bus.read(HASH_SR_ADDR);
        proof {
            assert(bus.ops().take(n) =~= before.take(n));
            assert forall|i: int| n <= i < bus.ops().len() implies #[trigger] bus.ops()[i] == (MmioOp::Read {
                addr: HASH_SR_ADDR,
                value: op_value(bus.ops()[i]),
            }) by {
                if i < before.len() {
                    assert(bus.ops()[i] == before[i]);
                }
            }
        }
        if sr & HASH_SR_DCIS != 0 {
            break;
        }
        if left == 0 {
            break;
        }
        left -= 1;
    }
    let ghost mid = bus.ops();
    let imr = bus.read(HASH_IMR);
    bus.write(HASH_IMR, (imr & !HASH_IMR_DCIE) | 0);
    proof {
        let o = bus.ops();
        assert(o.take(n) =~= old(bus).ops()) by {
            assert(mid.take(n) == old(bus).ops());
        }
        assert forall|i: int| n <= i < o.len() - 2 implies #[trigger] o[i] == (MmioOp::Read {
            addr: HASH_SR_ADDR,
            value: op_value(o[i]),
        }) by {
            assert(o[i] == mid[i]);
        }
    }
}

} // verus!
