//! Memory-mapped register access.
//!
//! Every driver in this crate reaches its peripheral through an
//! [`MmioAccess`] backend: firmware plugs in volatile accesses to the real
//! register block, host code plugs in [`MmioMem`], a register file that records
//! every access. A backend's behaviour is modelled by
//!
//! * `ops()`: every access made so far, in order, with absolute addresses;
//! * `cell(off)`: what the register at `off` holds, as far as plain storage
//!   goes (the last value written there, or what it held at the start);
//! * `is_storage()`: whether a read returns `cell(off)`. Backup registers and
//!   the host register file are storage; status and data registers of a live
//!   peripheral are not, and a read of them may return anything.

use vstd::prelude::*;

verus! {

/// One register access, with the absolute address it went to.
#[derive(Clone, Copy, Debug, PartialEq, Eq, Structural)]
pub enum MmioOp {
    Read { addr: u32, value: u32 },
    Write { addr: u32, value: u32 },
}

/// A 32-bit register block at a fixed base address.
pub trait MmioAccess: Sized {
    /// Base address of the register block.
    spec fn base(&self) -> u32;

    /// Every access made so far, oldest first.
    spec fn ops(&self) -> Seq<MmioOp>;

    /// Reads return the stored content (`cell`) of the register.
    spec fn is_storage(&self) -> bool;

    /// Stored content of the register at byte offset `offset`.
    spec fn cell(&self, offset: u32) -> u32;

    /// Barriers issued so far.
    spec fn fences(&self) -> nat;

    /// Idle moments spent so far.
    spec fn pauses(&self) -> nat;

    /// Read the 32-bit register at byte offset `offset` from the base.
    fn read(&mut self, offset: u32) -> (v: u32)
        ensures
            final(self).base() == old(self).base(),
            final(self).is_storage() == old(self).is_storage(),
            forall|o: u32| #[trigger] final(self).cell(o) == old(self).cell(o),
            final(self).ops() == old(self).ops().push(
                MmioOp::Read { addr: old(self).base().wrapping_add(offset), value: v },
            ),
            old(self).is_storage() ==> v == old(self).cell(offset),
            final(self).fences() == old(self).fences(),
            final(self).pauses() == old(self).pauses(),
    ;

    /// Make every earlier access complete before any later one (a data and
    /// instruction synchronization barrier on the target). No register is
    /// accessed.
    fn barrier(&mut self)
        ensures
            final(self).base() == old(self).base(),
            final(self).is_storage() == old(self).is_storage(),
            forall|o: u32| #[trigger] final(self).cell(o) == old(self).cell(o),
            final(self).ops() == old(self).ops(),
            final(self).fences() == old(self).fences() + 1,
            final(self).pauses() == old(self).pauses(),
    ;

    /// Let a short while pass (a busy-wait hint on the target). No register
    /// is accessed.
    fn pause(&mut self)
        ensures
            final(self).base() == old(self).base(),
            final(self).is_storage() == old(self).is_storage(),
            forall|o: u32| #[trigger] final(self).cell(o) == old(self).cell(o),
            final(self).ops() == old(self).ops(),
            final(self).fences() == old(self).fences(),
            final(self).pauses() == old(self).pauses() + 1,
    ;

    /// Write `value` to the 32-bit register at byte offset `offset`.
    fn write(&mut self, offset: u32, value: u32)
        ensures
            final(self).base() == old(self).base(),
            final(self).is_storage() == old(self).is_storage(),
            forall|o: u32|
                #[trigger] final(self).cell(o) == if o == offset {
                    value
                } else {
                    old(self).cell(o)
                },
            final(self).ops() == old(self).ops().push(
                MmioOp::Write { addr: old(self).base().wrapping_add(offset), value },
            ),
            final(self).fences() == old(self).fences(),
            final(self).pauses() == old(self).pauses(),
    ;
}

/// Byte `k` (little-endian, 0 the least significant) of a word.
pub open spec fn le_byte(w: u32, k: int) -> u8 {
    if k == 0 {
        w as u8
    } else if k == 1 {
        (w >> 8u32) as u8
    } else if k == 2 {
        (w >> 16u32) as u8
    } else {
        (w >> 24u32) as u8
    }
}

/// The value an access carried.
pub open spec fn op_value(op: MmioOp) -> u32 {
    match op {
        MmioOp::Read { value, .. } => value,
        MmioOp::Write { value, .. } => value,
    }
}

/// `new` is `old` followed by a read of `addr` and a write to `addr` of `f`
/// applied to the value read.
pub open spec fn read_modify_write(
    old: Seq<MmioOp>,
    new: Seq<MmioOp>,
    addr: u32,
    f: spec_fn(u32) -> u32,
) -> bool {
    let r = new[old.len() as int];
    &&& new.len() == old.len() + 2
    &&& new.take(old.len() as int) == old
    &&& r == (MmioOp::Read { addr, value: op_value(r) })
    &&& new[old.len() as int + 1] == (MmioOp::Write { addr, value: f(op_value(r)) })
}

/// A read-modify-write of the register at `offset` through `f`, seen on the
/// backend: the backend stays what it was; on a storage backend the value
/// read (the access after `old`'s log) is the stored one; and the register
/// then stores `f` of the value read, every other register as before.
pub open spec fn rmw_stored<M: MmioAccess>(old: M, new: M, offset: u32, f: spec_fn(u32) -> u32) -> bool {
    let v = op_value(new.ops()[old.ops().len() as int]);
    &&& new.is_storage() == old.is_storage()
    &&& old.is_storage() ==> v == old.cell(offset)
    &&& forall|o: u32|
        #[trigger] new.cell(o) == if o == offset {
            f(v)
        } else {
            old.cell(o)
        }
}

/// `new` starts with `old`.
pub open spec fn extends(new: Seq<MmioOp>, old: Seq<MmioOp>) -> bool {
    &&& new.len() >= old.len()
    &&& forall|i: int| 0 <= i < old.len() ==> #[trigger] new[i] == old[i]
}

/// The writes among `s`, in order, as (address, value).
pub open spec fn writes_of(s: Seq<MmioOp>) -> Seq<(u32, u32)>
    decreases s.len(),
{
    if s.len() == 0 {
        Seq::empty()
    } else {
        match s.last() {
            MmioOp::Write { addr, value } => writes_of(s.drop_last()).push((addr, value)),
            MmioOp::Read { .. } => writes_of(s.drop_last()),
        }
    }
}

/// A read leaves the writes unchanged; a write appends itself.
pub proof fn lemma_writes_of_push(s: Seq<MmioOp>, op: MmioOp)
    ensures
        writes_of(s.push(op)) == match op {
            MmioOp::Write { addr, value } => writes_of(s).push((addr, value)),
            MmioOp::Read { .. } => writes_of(s),
        },
{
    assert(s.push(op).drop_last() =~= s);
}

/// Read the register at `offset`; the writes so far are unchanged.
pub fn rd<M: MmioAccess>(m: &mut M, offset: u32) -> (v: u32)
    ensures
        final(m).base() == old(m).base(),
        final(m).is_storage() == old(m).is_storage(),
        forall|o: u32| #[trigger] final(m).cell(o) == old(m).cell(o),
        final(m).ops() == old(m).ops().push(
            MmioOp::Read { addr: old(m).base().wrapping_add(offset), value: v },
        ),
        writes_of(final(m).ops()) == writes_of(old(m).ops()),
        old(m).is_storage() ==> v == old(m).cell(offset),
{
    let v = m.read(offset);
    proof {
        lemma_writes_of_push(old(m).ops(), MmioOp::Read { addr: old(m).base().wrapping_add(offset), value: v });
    }
    v
}

/// Write `value` to the register at `offset`; the writes so far gain it.
pub fn wr<M: MmioAccess>(m: &mut M, offset: u32, value: u32)
    ensures
        final(m).base() == old(m).base(),
        final(m).is_storage() == old(m).is_storage(),
        forall|o: u32|
            #[trigger] final(m).cell(o) == if o == offset {
                value
            } else {
                old(m).cell(o)
            },
        final(m).ops() == old(m).ops().push(
            MmioOp::Write { addr: old(m).base().wrapping_add(offset), value },
        ),
        writes_of(final(m).ops()) == writes_of(old(m).ops()).push(
            (old(m).base().wrapping_add(offset), value),
        ),
{
    m.write(offset, value);
    proof {
        lemma_writes_of_push(old(m).ops(), MmioOp::Write { addr: old(m).base().wrapping_add(offset), value });
    }
}

/// Upper bound on the reads spent waiting for a status bit. Real peripherals
/// answer in a few hundred cycles; running out of the budget means the
/// peripheral is stuck, and the driver reports a timeout instead of hanging.
pub const POLL_LIMIT: u32 = 0x0010_0000;

/// Whether a polled register value `v` shows the awaited state: the bits of
/// `mask` all clear (`want_set` false) or some bit of `mask` set (`want_set`
/// true).
pub open spec fn poll_done(v: u32, mask: u32, want_set: bool) -> bool {
    if want_set {
        v & mask != 0
    } else {
        v & mask == 0
    }
}

/// `s` is a successful wait: reads of `addr`, the last one showing the
/// awaited state and none before it.
pub open spec fn polled(s: Seq<MmioOp>, addr: u32, mask: u32, want_set: bool) -> bool {
    &&& 1 <= s.len()
    &&& forall|i: int|
        0 <= i < s.len() ==> #[trigger] s[i] == (MmioOp::Read { addr, value: op_value(s[i]) })
    &&& forall|i: int| 0 <= i < s.len() - 1 ==> !poll_done(#[trigger] op_value(s[i]), mask, want_set)
    &&& poll_done(op_value(s.last()), mask, want_set)
}

/// `s` is a wait that ran out of budget: `POLL_LIMIT` reads of `addr`, none
/// showing the awaited state.
pub open spec fn polled_out(s: Seq<MmioOp>, addr: u32, mask: u32, want_set: bool) -> bool {
    &&& s.len() == POLL_LIMIT
    &&& forall|i: int|
        0 <= i < s.len() ==> #[trigger] s[i] == (MmioOp::Read { addr, value: op_value(s[i]) })
    &&& forall|i: int| 0 <= i < s.len() ==> !poll_done(#[trigger] op_value(s[i]), mask, want_set)
}

/// `ops`, grown from `n` accesses, ends with a whole polling budget of reads
/// of `addr` none showing a bit of `mask` set: the device never got ready.
pub open spec fn stalled_on(n: int, ops: Seq<MmioOp>, addr: u32, mask: u32) -> bool {
    &&& ops.len() >= n + POLL_LIMIT
    &&& polled_out(ops.skip(ops.len() - POLL_LIMIT), addr, mask, true)
}

/// Read the register at `offset` until `poll_done` holds of the value read,
/// at most `POLL_LIMIT` times. `true` when it held.
pub fn poll<M: MmioAccess>(m: &mut M, offset: u32, mask: u32, want_set: bool) -> (ok: bool)
    ensures
        final(m).base() == old(m).base(),
        final(m).is_storage() == old(m).is_storage(),
        forall|o: u32| #[trigger] final(m).cell(o) == old(m).cell(o),
        final(m).ops().len() > old(m).ops().len(),
        final(m).ops().take(old(m).ops().len() as int) == old(m).ops(),
        extends(final(m).ops(), old(m).ops()),
        writes_of(final(m).ops()) == writes_of(old(m).ops()),
        ok ==> polled(
            final(m).ops().skip(old(m).ops().len() as int),
            old(m).base().wrapping_add(offset),
            mask,
            want_set,
        ),
        !ok ==> polled_out(
            final(m).ops().skip(old(m).ops().len() as int),
            old(m).base().wrapping_add(offset),
            mask,
            want_set,
        ),
        !ok ==> final(m).ops().len() == old(m).ops().len() + POLL_LIMIT,
        !ok && want_set ==> stalled_on(
            old(m).ops().len() as int,
            final(m).ops(),
            old(m).base().wrapping_add(offset),
            mask,
        ),
        old(m).is_storage() ==> (ok <==> poll_done(old(m).cell(offset), mask, want_set)),
        old(m).is_storage() && ok ==> final(m).ops().len() == old(m).ops().len() + 1,
        old(m).is_storage() ==> forall|i: int|
            old(m).ops().len() <= i < final(m).ops().len() ==> op_value(#[trigger] final(m).ops()[i])
                == old(m).cell(offset),
{
    let ghost n = old(m).ops().len();
    let ghost addr = old(m).base().wrapping_add(offset);
    let mut tries: u32 = 0;
    while tries < POLL_LIMIT
        invariant
            tries <= POLL_LIMIT,
            n == old(m).ops().len(),
            addr == old(m).base().wrapping_add(offset),
            m.base() == old(m).base(),
            m.is_storage() == old(m).is_storage(),
            forall|o: u32| #[trigger] m.cell(o) == old(m).cell(o),
            m.ops().len() == n + tries,
            m.ops().take(n as int) == old(m).ops(),
            extends(m.ops(), old(m).ops()),
            writes_of(m.ops()) == writes_of(old(m).ops()),
            old(m).is_storage() && tries > 0 ==> !poll_done(old(m).cell(offset), mask, want_set),
            old(m).is_storage() ==> forall|i: int|
                n <= i < m.ops().len() ==> op_value(#[trigger] m.ops()[i]) == old(m).cell(offset),
            forall|i: int|
                0 <= i < tries ==> #[trigger] m.ops().skip(n as int)[i] == (MmioOp::Read {
                    addr,
                    value: op_value(m.ops().skip(n as int)[i]),
                }),
            forall|i: int|
                0 <= i < tries ==> !poll_done(
                    #[trigger] op_value(m.ops().skip(n as int)[i]),
                    mask,
                    want_set,
                ),
        decreases POLL_LIMIT - tries,
    {
        let ghost before = m.ops();
        let v = rd(m, offset);
        proof {
            assert(m.ops().take(n as int) =~= before.take(n as int));
            assert forall|i: int| 0 <= i < tries implies #[trigger] m.ops().skip(n as int)[i]
                == before.skip(n as int)[i] by {}
            assert(m.ops().skip(n as int)[tries as int] == MmioOp::Read { addr, value: v });
        }
        let done = if want_set {
            v & mask != 0
        } else {
            v & mask == 0
        };
        if done {
            proof {
                assert(m.ops().skip(n as int).len() == tries + 1);
            }
            return true;
        }
        tries += 1;
    }
    false
}

/// Content of register `off` in a list of (offset, value) stores: the latest
/// store to `off` wins; a register never stored reads 0.
pub open spec fn stored(regs: Seq<(u32, u32)>, off: u32) -> u32
    decreases regs.len(),
{
    if regs.len() == 0 {
        0
    } else if regs.last().0 == off {
        regs.last().1
    } else {
        stored(regs.drop_last(), off)
    }
}

proof fn lemma_stored_push(regs: Seq<(u32, u32)>, o: u32, v: u32)
    ensures
        forall|x: u32|
            #[trigger] stored(regs.push((o, v)), x) == if x == o {
                v
            } else {
                stored(regs, x)
            },
{
    assert(regs.push((o, v)).drop_last() =~= regs);
}

/// A host-side register file: plain storage that records every access.
pub struct MmioMem {
    base: u32,
    regs: Vec<(u32, u32)>,
    log: Vec<MmioOp>,
    fence_count: Ghost<nat>,
    pause_count: Ghost<nat>,
}

impl MmioMem {
    /// A register file at `base` whose registers all hold 0 and whose access
    /// log is empty.
    pub fn new(base: u32) -> (m: Self)
        ensures
            m.base() == base,
            m.ops() == Seq::<MmioOp>::empty(),
            forall|o: u32| #[trigger] m.cell(o) == 0,
            m.fences() == 0,
            m.pauses() == 0,
    {
        MmioMem { base, regs: Vec::new(), log: Vec::new(), fence_count: Ghost(0), pause_count: Ghost(0) }
    }

    /// Set register `offset` to `value` without recording an access (the state
    /// the peripheral is in before the code under test runs).
    pub fn preload_register(&mut self, offset: u32, value: u32)
        ensures
            final(self).base() == old(self).base(),
            final(self).ops() == old(self).ops(),
            forall|o: u32|
                #[trigger] final(self).cell(o) == if o == offset {
                    value
                } else {
                    old(self).cell(o)
                },
    {
        proof {
            lemma_stored_push(self.regs@, offset, value);
        }
        self.regs.push((offset, value));
    }

    /// The accesses made so far, oldest first.
    pub fn write_log(&self) -> (log: Vec<MmioOp>)
        ensures
            log@ == self.ops(),
    {
        self.log.clone()
    }

    /// Current content of register `offset`, without recording an access.
    pub fn peek(&self, offset: u32) -> (v: u32)
        ensures
            v == self.cell(offset),
    {
        let mut i = self.regs.len();
        assert(self.regs@.subrange(0, i as int) =~= self.regs@);
        while i > 0
            invariant
                i <= self.regs@.len(),
                stored(self.regs@, offset) == stored(self.regs@.subrange(0, i as int), offset),
            decreases i,
        {
            let (o, v) = self.regs[i - 1];
            if o == offset {
                return v;
            }
            assert(self.regs@.subrange(0, i as int).drop_last() =~= self.regs@.subrange(
                0,
                i - 1,
            ));
            i -= 1;
        }
        0
    }
}

impl MmioAccess for MmioMem {
    closed spec fn base(&self) -> u32 {
        self.base
    }

    closed spec fn ops(&self) -> Seq<MmioOp> {
        self.log@
    }

    open spec fn is_storage(&self) -> bool {
        true
    }

    closed spec fn cell(&self, offset: u32) -> u32 {
        stored(self.regs@, offset)
    }

    closed spec fn fences(&self) -> nat {
        self.fence_count@
    }

    closed spec fn pauses(&self) -> nat {
        self.pause_count@
    }

    fn read(&mut self, offset: u32) -> (v: u32) {
        let v = self.peek(offset);
        self.log.push(MmioOp::Read { addr: self.base.wrapping_add(offset), value: v });
        v
    }

    fn barrier(&mut self) {
        self.fence_count = Ghost(self.fence_count@ + 1);
    }

    fn pause(&mut self) {
        self.pause_count = Ghost(self.pause_count@ + 1);
    }

    fn write(&mut self, offset: u32, value: u32) {
        proof {
            lemma_stored_push(self.regs@, offset, value);
        }
        self.regs.push((offset, value));
        self.log.push(MmioOp::Write { addr: self.base.wrapping_add(offset), value });
    }
}

/// The raw register accesses of a device, supplied by the platform
/// (volatile loads and stores on the target).
pub trait RegisterPort {
    /// Load the 32-bit register at `addr`.
    fn load(&mut self, addr: u32) -> u32;

    /// Store `value` to the 32-bit register at `addr`.
    fn store(&mut self, addr: u32, value: u32);

    /// Order every earlier access before any later one.
    fn fence(&mut self);

    /// Spend a moment doing nothing (a spin-loop hint).
    fn relax(&mut self);
}

/// A register block at `base` reached through a platform port. Reads are
/// whatever the device answers (it is not plain storage); every access is
/// recorded in the model.
pub struct PortMmio<P: RegisterPort> {
    port: P,
    base: u32,
    log: Ghost<Seq<MmioOp>>,
    cells: Ghost<Map<u32, u32>>,
    fence_count: Ghost<nat>,
    pause_count: Ghost<nat>,
}

impl<P: RegisterPort> PortMmio<P> {
    /// The block at `base` through `port`, with nothing accessed yet.
    pub fn new(port: P, base: u32) -> (m: Self)
        ensures
            m.base() == base,
            m.ops() == Seq::<MmioOp>::empty(),
            m.fences() == 0,
            m.pauses() == 0,
    {
        PortMmio {
            port,
            base,
            log: Ghost(Seq::empty()),
            cells: Ghost(Map::empty()),
            fence_count: Ghost(0),
            pause_count: Ghost(0),
        }
    }
}

impl<P: RegisterPort> MmioAccess for PortMmio<P> {
    closed spec fn base(&self) -> u32 {
        self.base
    }

    closed spec fn ops(&self) -> Seq<MmioOp> {
        self.log@
    }

    open spec fn is_storage(&self) -> bool {
        false
    }

    closed spec fn cell(&self, offset: u32) -> u32 {
        self.cells@[offset]
    }

    closed spec fn fences(&self) -> nat {
        self.fence_count@
    }

    closed spec fn pauses(&self) -> nat {
        self.pause_count@
    }

    fn read(&mut self, offset: u32) -> (v: u32) {
        let v = self.port.load(self.base.wrapping_add(offset));
        self.log = Ghost(self.log@.push(MmioOp::Read { addr: self.base.wrapping_add(offset), value: v }));
        v
    }

    fn barrier(&mut self) {
        self.port.fence();
        self.fence_count = Ghost(self.fence_count@ + 1);
    }

    fn pause(&mut self) {
        self.port.relax();
        self.pause_count = Ghost(self.pause_count@ + 1);
    }

    fn write(&mut self, offset: u32, value: u32) {
        self.port.store(self.base.wrapping_add(offset), value);
        self.log = Ghost(self.log@.push(MmioOp::Write { addr: self.base.wrapping_add(offset), value }));
        self.cells = Ghost(self.cells@.insert(offset, value));
    }
}

} // verus!
