//! Register programs: the straight-line register sequences of board bring-up
//! (clock tree, memory power, external flash), written down as data and run
//! against the system bus, where a register's offset is its absolute address.
//!
//! A program is a list of [`RegStep`]s. [`run_program`] performs them in order
//! and its contract pins the whole access record down: `ran(prog, d)` says
//! that `d` is, step after step, exactly what each step does.

use crate::mmio::{extends, op_value, rd, wr, MmioAccess, MmioOp, POLL_LIMIT};
use vstd::prelude::*;

verus! {

/// One step of a register program. Addresses are absolute.
#[derive(Clone, Copy, Debug, PartialEq, Eq, Structural)]
pub enum RegStep {
    /// Store `value`.
    Put { addr: u32, value: u32 },
    /// Read the register, clear the bits of `clear`, set those of `set`, and
    /// write the result back.
    Update { addr: u32, clear: u32, set: u32 },
    /// Read the register and discard the value.
    Touch { addr: u32 },
    /// Read the register until `value & mask == want`. The program stops
    /// there if `POLL_LIMIT` reads never show it.
    Await { addr: u32, mask: u32, want: u32 },
    /// Read the register until `value & mask == want`, at most `limit`
    /// times, and go on either way.
    AwaitUpTo { addr: u32, mask: u32, want: u32, limit: u32 },
    /// Complete every earlier access before any later one.
    Fence,
    /// Let `count` idle moments pass.
    Pause { count: u32 },
}

/// Every access of `s` is a read of `addr`.
pub open spec fn reads_of(s: Seq<MmioOp>, addr: u32) -> bool {
    forall|i: int| 0 <= i < s.len() ==> #[trigger] s[i] == (MmioOp::Read { addr, value: op_value(s[i]) })
}

/// `v` shows the awaited bits.
pub open spec fn shows(v: u32, mask: u32, want: u32) -> bool {
    v & mask == want
}

/// `s` is a wait that ended in time: at most `limit` reads of `addr`, only
/// the last showing the awaited bits.
pub open spec fn awaited(s: Seq<MmioOp>, addr: u32, mask: u32, want: u32, limit: u32) -> bool {
    &&& 1 <= s.len() <= limit
    &&& reads_of(s, addr)
    &&& forall|i: int| 0 <= i < s.len() - 1 ==> !shows(#[trigger] op_value(s[i]), mask, want)
    &&& shows(op_value(s.last()), mask, want)
}

/// `s` is a wait that ran out: `limit` reads of `addr`, none showing the
/// awaited bits.
pub open spec fn gave_up(s: Seq<MmioOp>, addr: u32, mask: u32, want: u32, limit: u32) -> bool {
    &&& s.len() == limit
    &&& reads_of(s, addr)
    &&& forall|i: int| 0 <= i < s.len() ==> !shows(#[trigger] op_value(s[i]), mask, want)
}

/// `s` is what `step` does when it completes.
pub open spec fn step_done(step: RegStep, s: Seq<MmioOp>) -> bool {
    match step {
        RegStep::Put { addr, value } => s == seq![MmioOp::Write { addr, value }],
        RegStep::Update { addr, clear, set } => {
            &&& s.len() == 2
            &&& s[0] == (MmioOp::Read { addr, value: op_value(s[0]) })
            &&& s[1] == (MmioOp::Write { addr, value: (op_value(s[0]) & !clear) | set })
        },
        RegStep::Touch { addr } => s.len() == 1 && s[0] == (MmioOp::Read { addr, value: op_value(s[0]) }),
        RegStep::Await { addr, mask, want } => awaited(s, addr, mask, want, POLL_LIMIT),
        RegStep::AwaitUpTo { addr, mask, want, limit } => awaited(s, addr, mask, want, limit) || gave_up(
            s,
            addr,
            mask,
            want,
            limit,
        ),
        RegStep::Fence => s.len() == 0,
        RegStep::Pause { .. } => s.len() == 0,
    }
}

/// `s` is what `step` does when it gets stuck: only an `Await` can, by
/// running out of reads.
pub open spec fn step_stuck(step: RegStep, s: Seq<MmioOp>) -> bool {
    match step {
        RegStep::Await { addr, mask, want } => gave_up(s, addr, mask, want, POLL_LIMIT),
        _ => false,
    }
}

/// `d` is the access record of `prog` run to its end: the record of its
/// steps but the last, then that of the last.
pub open spec fn ran(prog: Seq<RegStep>, d: Seq<MmioOp>) -> bool
    decreases prog.len(),
{
    if prog.len() == 0 {
        d.len() == 0
    } else {
        exists|k: int|
            #![trigger d.take(k)]
            0 <= k <= d.len() && ran(prog.drop_last(), d.take(k)) && step_done(prog.last(), d.skip(k))
    }
}

/// `prog` has no `Await`, so it cannot get stuck.
pub open spec fn no_waits(prog: Seq<RegStep>) -> bool {
    forall|j: int| 0 <= j < prog.len() ==> !(#[trigger] prog[j] is Await)
}

/// `d` is the access record of `prog` stuck at step `i`: steps `0..i` ran,
/// then step `i` ran out of reads.
pub open spec fn stuck_at(prog: Seq<RegStep>, i: int, d: Seq<MmioOp>) -> bool {
    &&& 0 <= i < prog.len()
    &&& exists|k: int|
        #![trigger d.take(k)]
        0 <= k <= d.len() && ran(prog.take(i), d.take(k)) && step_stuck(prog[i], d.skip(k))
}

/// Read the register at `addr` until `value & mask == want`, at most `limit`
/// times. `true` when it showed.
pub fn await_bits<M: MmioAccess>(bus: &mut M, addr: u32, mask: u32, want: u32, limit: u32) -> (ok: bool)
    requires
        old(bus).base() == 0,
    ensures
        final(bus).base() == 0,
        final(bus).is_storage() == old(bus).is_storage(),
        extends(final(bus).ops(), old(bus).ops()),
        ok ==> awaited(final(bus).ops().skip(old(bus).ops().len() as int), addr, mask, want, limit),
        !ok ==> gave_up(final(bus).ops().skip(old(bus).ops().len() as int), addr, mask, want, limit),
{
    let ghost n = old(bus).ops().len() as int;
    let mut tries: u32 = 0;
    while tries < limit
        invariant
            tries <= limit,
            bus.base() == 0,
            bus.is_storage() == old(bus).is_storage(),
            n == old(bus).ops().len(),
            bus.ops().len() == n + tries,
            extends(bus.ops(), old(bus).ops()),
            reads_of(bus.ops().skip(n), addr),
            forall|i: int| 0 <= i < tries ==> !shows(#[trigger] op_value(bus.ops().skip(n)[i]), mask, want),
        decreases limit - tries,
    {
        let ghost before = bus.ops();
        let v = rd(bus, addr);
        proof {
            assert(0u32.wrapping_add(addr) == addr);
            assert forall|i: int| 0 <= i < tries implies #[trigger] bus.ops().skip(n)[i] == before.skip(
                n,
            )[i] by {}
            assert(bus.ops().skip(n)[tries as int] == MmioOp::Read { addr, value: v });
        }
        if v & mask == want {
            return true;
        }
        tries += 1;
    }
    false
}

/// Perform one step. `false` only when an `Await` ran out of reads.
fn run_step<M: MmioAccess>(bus: &mut M, step: RegStep) -> (ok: bool)
    requires
        old(bus).base() == 0,
    ensures
        final(bus).base() == 0,
        final(bus).is_storage() == old(bus).is_storage(),
        extends(final(bus).ops(), old(bus).ops()),
        ok ==> step_done(step, final(bus).ops().skip(old(bus).ops().len() as int)),
        !ok ==> step_stuck(step, final(bus).ops().skip(old(bus).ops().len() as int)),
{
    let ghost n = old(bus).ops().len() as int;
    match step {
        RegStep::Put { addr, value } => {
            wr(bus, addr, value);
            proof {
                assert(0u32.wrapping_add(addr) == addr);
                assert(bus.ops().skip(n) =~= seq![MmioOp::Write { addr, value }]);
            }
            true
        },
        RegStep::Update { addr, clear, set } => {
            let v = rd(bus, addr);
            wr(bus, addr, (v & !clear) | set);
            proof {
                assert(0u32.wrapping_add(addr) == addr);
                assert(bus.ops().skip(n) =~= seq![
                    MmioOp::Read { addr, value: v },
                    MmioOp::Write { addr, value: (v & !clear) | set },
                ]);
            }
            true
        },
        RegStep::Touch { addr } => {
            let _v = rd(bus, addr);
            proof {
                assert(0u32.wrapping_add(addr) == addr);
            }
            true
        },
        RegStep::Await { addr, mask, want } => await_bits(bus, addr, mask, want, POLL_LIMIT),
        RegStep::AwaitUpTo { addr, mask, want, limit } => {
            let _ = await_bits(bus, addr, mask, want, limit);
            true
        },
        RegStep::Fence => {
            bus.barrier();
            proof {
                assert(bus.ops().skip(n) =~= Seq::<MmioOp>::empty());
            }
            true
        },
        RegStep::Pause { count } => {
            let mut c: u32 = 0;
            while c < count
                invariant
                    c <= count,
                    bus.base() == 0,
                    bus.is_storage() == old(bus).is_storage(),
                    bus.ops() == old(bus).ops(),
                decreases count - c,
            {
                bus.pause();
                c += 1;
            }
            proof {
                assert(bus.ops().skip(n) =~= Seq::<MmioOp>::empty());
            }
            true
        },
    }
}

/// Run `prog` step by step. `Err(i)` when step `i`, an `Await`, ran out of
/// reads; the steps after it are not performed.
pub fn run_program<M: MmioAccess>(bus: &mut M, prog: &[RegStep]) -> (r: Result<(), usize>)
    requires
        old(bus).base() == 0,
    ensures
        final(bus).base() == 0,
        final(bus).is_storage() == old(bus).is_storage(),
        extends(final(bus).ops(), old(bus).ops()),
        r is Ok ==> ran(prog@, final(bus).ops().skip(old(bus).ops().len() as int)),
        r matches Err(i) ==> stuck_at(prog@, i as int, final(bus).ops().skip(old(bus).ops().len() as int)),
        no_waits(prog@) ==> r is Ok,
{
    let ghost n = old(bus).ops().len() as int;
    let mut i: usize = 0;
    proof {
        assert(prog@.take(0) =~= Seq::<RegStep>::empty());
        assert(bus.ops().skip(n) =~= Seq::<MmioOp>::empty());
    }
    while i < prog.len()
        invariant
            i <= prog.len(),
            bus.base() == 0,
            bus.is_storage() == old(bus).is_storage(),
            n == old(bus).ops().len(),
            extends(bus.ops(), old(bus).ops()),
            ran(prog@.take(i as int), bus.ops().skip(n)),
        decreases prog.len() - i,
    {
        let ghost before = bus.ops();
        let ok = run_step(bus, prog[i]);
        proof {
            let d = bus.ops().skip(n);
            let k = before.len() - n;
            assert(d.take(k) =~= before.skip(n));
            assert(d.skip(k) =~= bus.ops().skip(before.len() as int));
        }
        if !ok {
            proof {
                assert(prog@[i as int] is Await);
            }
            return Err(i);
        }
        proof {
            let d = bus.ops().skip(n);
            let k = before.len() - n;
            let p = prog@.take(i + 1);
            assert(p.drop_last() =~= prog@.take(i as int));
            assert(p.last() == prog@[i as int]);
            assert(ran(p.drop_last(), d.take(k)));
        }
        i += 1;
    }
    proof {
        assert(prog@.take(prog@.len() as int) =~= prog@);
    }
    Ok(())
}

} // verus!
