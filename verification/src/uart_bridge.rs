//! The Secure UART bridge of the Non-Secure attestation relay: USART1 stays
//! Secure, so the relay moves its bytes through these calls. A read gives up
//! on a byte that does not arrive in time, so a stalled frame returns a short
//! count instead of wedging the relay; an overrun is cleared on every poll,
//! since on this USART a latched overrun keeps RXNE from ever setting again.

use crate::attest::ns_range_ok;
use crate::mmio::{extends, op_value, poll, rd, stalled_on, wr, writes_of, MmioAccess, MmioOp};
use crate::regprog::{no_waits, ran, run_program, RegStep};
use crate::uart::{tx_writes, ISR_OFFSET, ISR_TXE, TDR_OFFSET, USART1_BASE_ADDR};
use vstd::prelude::*;

verus! {

/// Interrupt flag clear register, receive data register.
pub const ICR_OFFSET: u32 = 0x20;
pub const RDR_OFFSET: u32 = 0x24;
/// ISR: received data ready, overrun error.
pub const ISR_RXNE: u32 = 1 << 5;
pub const ISR_ORE: u32 = 1 << 3;
/// ICR: clear the overrun error.
pub const ICR_ORECF: u32 = 1 << 3;
/// Idle polls after which a byte is given up (about 10 ms at 800 MHz, far
/// longer than a byte time at 115200 baud).
pub const RX_TIMEOUT_SPINS: u32 = 2_000_000;

/// One poll of the receiver: read ISR; on an overrun write ORECF to ICR;
/// when RXNE is set (`got`), read RDR.
pub open spec fn rx_poll(base: u32, s: Seq<MmioOp>, got: bool) -> bool {
    let isr = op_value(s[0]);
    let k: int = if isr & ISR_ORE != 0 {
        2
    } else {
        1
    };
    &&& 1 <= s.len()
    &&& s[0] == (MmioOp::Read { addr: base.wrapping_add(ISR_OFFSET), value: isr })
    &&& isr & ISR_ORE != 0 ==> s.len() >= 2 && s[1] == (MmioOp::Write {
        addr: base.wrapping_add(ICR_OFFSET),
        value: ICR_ORECF,
    })
    &&& got == (isr & ISR_RXNE != 0)
    &&& if got {
        s.len() == k + 1 && s[k] == (MmioOp::Read { addr: base.wrapping_add(RDR_OFFSET), value: op_value(s[k]) })
    } else {
        s.len() == k
    }
}

/// `d` is `count` polls that found no data.
pub open spec fn idle_polls(base: u32, d: Seq<MmioOp>, count: int) -> bool
    decreases count,
{
    if count <= 0 {
        d.len() == 0
    } else {
        exists|j: int|
            #![trigger d.take(j)]
            0 <= j <= d.len() && idle_polls(base, d.take(j), count - 1) && rx_poll(base, d.skip(j), false)
    }
}

/// `s` receives `b`: at most `RX_TIMEOUT_SPINS` idle polls, then a poll that
/// found data, whose low byte is `b`.
pub open spec fn received(base: u32, s: Seq<MmioOp>, b: u8) -> bool {
    exists|j: int, idle: int|
        #![trigger s.take(j), idle_polls(base, s.take(j), idle)]
        0 <= j <= s.len() && 0 <= idle <= RX_TIMEOUT_SPINS && idle_polls(base, s.take(j), idle) && rx_poll(
            base,
            s.skip(j),
            true,
        ) && b == (op_value(s.last()) & 0xFF) as u8
}

/// `s` gives a byte up: one idle poll more than `RX_TIMEOUT_SPINS`.
pub open spec fn rx_timed_out(base: u32, s: Seq<MmioOp>) -> bool {
    idle_polls(base, s, RX_TIMEOUT_SPINS + 1)
}

/// Receive one byte, clearing overruns while waiting; `None` when nothing
/// arrived within the timeout.
pub fn rx_byte<M: MmioAccess>(uart: &mut M) -> (r: Option<u8>)
    ensures
        final(uart).base() == old(uart).base(),
        extends(final(uart).ops(), old(uart).ops()),
        match r {
            Some(b) => received(old(uart).base(), final(uart).ops().skip(old(uart).ops().len() as int), b),
            None => rx_timed_out(old(uart).base(), final(uart).ops().skip(old(uart).ops().len() as int)),
        },
{
    let ghost n = uart.ops().len() as int;
    let ghost base = uart.base();
    let mut spins: u32 = 0;
    proof {
        assert(uart.ops().skip(n) =~= Seq::<MmioOp>::empty());
    }
    loop
        invariant
            spins <= RX_TIMEOUT_SPINS,
            uart.base() == base,
            base == old(uart).base(),
            n == old(uart).ops().len(),
            extends(uart.ops(), old(uart).ops()),
            idle_polls(base, uart.ops().skip(n), spins as int),
        decreases RX_TIMEOUT_SPINS - spins,
    {
        let ghost before = uart.ops();
        let isr = rd(uart, ISR_OFFSET);
        if isr & ISR_ORE != 0 {
            wr(uart, ICR_OFFSET, ICR_ORECF);
        }
        let ghost mid = uart.ops();
        assert(extends(mid, before));
        if isr & ISR_RXNE != 0 {
            let v = rd(uart, RDR_OFFSET);
            proof {
                let d = uart.ops().skip(n);
                let j = before.len() - n;
                assert(d.take(j) =~= before.skip(n));
                assert(d.skip(j) =~= uart.ops().skip(before.len() as int));
                assert(d.last() == MmioOp::Read { addr: base.wrapping_add(RDR_OFFSET), value: v });
                assert(idle_polls(base, d.take(j), spins as int));
            }
            return Some((v & 0xFF) as u8);
        }
        proof {
            let d = uart.ops().skip(n);
            let j = before.len() - n;
            assert(d.take(j) =~= before.skip(n));
            assert(d.skip(j) =~= uart.ops().skip(before.len() as int));
            assert(idle_polls(base, d.take(j), spins as int));
        }
        if spins == RX_TIMEOUT_SPINS {
            return None;
        }
        spins += 1;
    }
}

/// `d` receives `bytes`, one after the other.
pub open spec fn received_all(base: u32, d: Seq<MmioOp>, bytes: Seq<u8>) -> bool
    decreases bytes.len(),
{
    if bytes.len() == 0 {
        d.len() == 0
    } else {
        exists|j: int|
            #![trigger d.take(j)]
            0 <= j <= d.len() && received_all(base, d.take(j), bytes.drop_last()) && received(
                base,
                d.skip(j),
                bytes.last(),
            )
    }
}

/// The bridge read: when `[ptr, ptr + len)` lies in the Non-Secure host
/// RAM, receive up to `len` bytes for it, stopping at the first byte that
/// does not arrive in time (the caller stores them and reports their count).
/// `None`, with nothing touched, for a buffer outside that RAM.
pub fn bridge_read<M: MmioAccess>(uart: &mut M, ptr: u32, len: u32) -> (r: Option<Vec<u8>>)
    ensures
        final(uart).base() == old(uart).base(),
        extends(final(uart).ops(), old(uart).ops()),
        !ns_range_ok_spec(ptr, len) ==> r is None && final(uart).ops() == old(uart).ops(),
        ns_range_ok_spec(ptr, len) ==> r is Some && ({
            let bytes = r->Some_0@;
            let d = final(uart).ops().skip(old(uart).ops().len() as int);
            &&& bytes.len() <= len
            &&& bytes.len() == len ==> received_all(old(uart).base(), d, bytes)
            &&& bytes.len() < len ==> exists|j: int|
                #![trigger d.take(j)]
                0 <= j <= d.len() && received_all(old(uart).base(), d.take(j), bytes) && rx_timed_out(
                    old(uart).base(),
                    d.skip(j),
                )
        }),
{
    if !ns_range_ok(ptr, len) {
        return None;
    }
    let ghost n = uart.ops().len() as int;
    let ghost base = uart.base();
    let mut out: Vec<u8> = Vec::new();
    let mut i: u32 = 0;
    proof {
        assert(uart.ops().skip(n) =~= Seq::<MmioOp>::empty());
    }
    while i < len
        invariant
            i <= len,
            ns_range_ok_spec(ptr, len),
            out@.len() == i,
            uart.base() == base,
            base == old(uart).base(),
            n == old(uart).ops().len(),
            extends(uart.ops(), old(uart).ops()),
            received_all(base, uart.ops().skip(n), out@),
        decreases len - i,
    {
        let ghost before = uart.ops();
        let b = rx_byte(uart);
        proof {
            let d = uart.ops().skip(n);
            let j = before.len() - n;
            assert(d.take(j) =~= before.skip(n));
            assert(d.skip(j) =~= uart.ops().skip(before.len() as int));
        }
        match b {
            Some(x) => {
                proof {
                    let d = uart.ops().skip(n);
                    let j = before.len() - n;
                    assert(out@.push(x).drop_last() =~= out@);
                    assert(received_all(base, d.take(j), out@.push(x).drop_last()));
                }
                out.push(x);
            },
            None => {
                return Some(out);
            },
        }
        i += 1;
    }
    Some(out)
}

/// The range check, as a formula.
pub open spec fn ns_range_ok_spec(ptr: u32, len: u32) -> bool {
    crate::attest::NS_RAM_LO <= ptr && ptr + len <= crate::attest::NS_RAM_HI
}

/// Why a bridge write did not go through.
#[derive(Clone, Copy, Debug, PartialEq, Eq, Structural)]
pub enum BridgeError {
    /// The Non-Secure buffer is not inside the host RAM.
    BadPointer,
    /// The transmitter stayed full.
    Timeout,
}

/// The bridge write: when `[ptr, ptr + data.len())` lies in the Non-Secure
/// host RAM (where the caller read `data` from), send `data`, each byte once
/// the transmit register is empty. `BadPointer`, with nothing touched, for a
/// buffer outside that RAM; on a `Timeout` a prefix has been sent.
pub fn bridge_write<M: MmioAccess>(uart: &mut M, ptr: u32, data: &[u8]) -> (r: Result<(), BridgeError>)
    requires
        data@.len() <= u32::MAX,
    ensures
        final(uart).base() == old(uart).base(),
        extends(final(uart).ops(), old(uart).ops()),
        !ns_range_ok_spec(ptr, data@.len() as u32) <==> r == Err::<(), BridgeError>(BridgeError::BadPointer),
        r == Err::<(), BridgeError>(BridgeError::BadPointer) ==> final(uart).ops() == old(uart).ops(),
        r is Ok ==> writes_of(final(uart).ops()) == writes_of(old(uart).ops()) + tx_writes(
            old(uart).base(),
            data@,
        ),
        r == Err::<(), BridgeError>(BridgeError::Timeout) ==> stalled_on(
            old(uart).ops().len() as int,
            final(uart).ops(),
            old(uart).base().wrapping_add(ISR_OFFSET),
            ISR_TXE,
        ),
        r == Err::<(), BridgeError>(BridgeError::Timeout) ==> exists|k: int|
            0 <= k < data@.len() && #[trigger] writes_of(final(uart).ops()) == writes_of(old(uart).ops())
                + tx_writes(old(uart).base(), data@.take(k)),
{
    if !ns_range_ok(ptr, data.len() as u32) {
        return Err(BridgeError::BadPointer);
    }
    let ghost w0 = writes_of(uart.ops());
    let ghost base = uart.base();
    let mut i: usize = 0;
    while i < data.len()
        invariant
            i <= data@.len(),
            ns_range_ok_spec(ptr, data@.len() as u32),
            uart.base() == base,
            base == old(uart).base(),
            w0 == writes_of(old(uart).ops()),
            extends(uart.ops(), old(uart).ops()),
            uart.ops().len() >= old(uart).ops().len(),
            writes_of(uart.ops()) == w0 + tx_writes(base, data@.take(i as int)),
        decreases data@.len() - i,
    {
        let ghost before = uart.ops();
        if !poll(uart, ISR_OFFSET, ISR_TXE, true) {
            proof {
                assert forall|j: int| 0 <= j < old(uart).ops().len() implies #[trigger] uart.ops()[j]
                    == old(uart).ops()[j] by {
                    assert(uart.ops()[j] == before[j]);
                }
            }
            return Err(BridgeError::Timeout);
        }
        wr(uart, TDR_OFFSET, data[i] as u32);
        proof {
            assert(tx_writes(base, data@.take(i + 1)) =~= tx_writes(base, data@.take(i as int)).push(
                (base.wrapping_add(TDR_OFFSET), data@[i as int] as u32),
            ));
            assert forall|j: int| 0 <= j < old(uart).ops().len() implies #[trigger] uart.ops()[j] == old(
                uart,
            ).ops()[j] by {
                assert(uart.ops()[j] == before[j]);
            }
        }
        i += 1;
    }
    assert(data@.take(i as int) =~= data@);
    Ok(())
}

/// SCB application interrupt and reset control.
pub const SCB_AIRCR: u32 = 0xE000_ED0C;
/// VECTKEY and SYSRESETREQ.
pub const AIRCR_SYSRESET: u32 = (0x05FA << 16) | (1 << 2);
/// ISR: transmission complete.
pub const ISR_TC: u32 = 1 << 6;
/// Polls of TC before the reset goes ahead anyway.
pub const RESET_DRAIN_POLLS: u32 = 10_000_001;

/// The system reset the relay asks for after an update: let the console
/// finish sending (TC, within a bounded wait), then request SYSRESETREQ. A
/// software reset keeps the backup domain, so the rollback floors survive.
pub open spec fn reset_steps() -> Seq<RegStep> {
    seq![
        RegStep::AwaitUpTo {
            addr: (USART1_BASE_ADDR + ISR_OFFSET) as u32,
            mask: ISR_TC,
            want: ISR_TC,
            limit: RESET_DRAIN_POLLS,
        },
        RegStep::Fence,
        RegStep::Put { addr: SCB_AIRCR, value: AIRCR_SYSRESET },
        RegStep::Fence,
    ]
}

/// Run `reset_steps` on the system bus (the caller then waits for the
/// reset to take effect).
pub fn request_system_reset<M: MmioAccess>(bus: &mut M)
    requires
        old(bus).base() == 0,
    ensures
        final(bus).base() == 0,
        extends(final(bus).ops(), old(bus).ops()),
        ran(reset_steps(), final(bus).ops().skip(old(bus).ops().len() as int)),
{
    let p = vec![
        RegStep::AwaitUpTo {
            addr: USART1_BASE_ADDR + ISR_OFFSET,
            mask: ISR_TC,
            want: ISR_TC,
            limit: RESET_DRAIN_POLLS,
        },
        RegStep::Fence,
        RegStep::Put { addr: SCB_AIRCR, value: AIRCR_SYSRESET },
        RegStep::Fence,
    ];
    proof {
        assert(p@ =~= reset_steps());
        assert(no_waits(p@));
    }
    let _ = run_program(bus, p.as_slice());
}

} // verus!
