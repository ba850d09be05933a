//! The hide-protection level of the boot stage.
//!
//! `BSEC_HDPLSR`'s low byte is not the raw level but a fixed 8-bit code per
//! level: HDPL0 = 0xB4, HDPL1 = 0x51, HDPL2 = 0x8A, HDPL3 = 0x6F.

use crate::mmio::{extends, writes_of, MmioAccess, MmioOp};
use crate::raw_print::{hex32, hex_digits, print_bytes};
use crate::uart::tx_writes;
use vstd::prelude::*;
use vstd::string::StringSliceAdditionalSpecFns;

verus! {

pub const HDPL_MASK: u32 = 0xFF;
/// Code of HDPL2.
pub const HDPL_VALUE_2: u32 = 0x8A;
/// Writing this code to HDPLCR increments the level by one.
pub const HDPL_INCREMENT_CODE: u32 = 0x60B1_66E7;

/// Whether a raw HDPLSR read encodes HDPL2 (only the low byte counts).
pub fn is_hdpl2(hdplsr_raw: u32) -> (b: bool)
    ensures
        b == (hdplsr_raw % 256 == 0x8A),
{
    assert(hdplsr_raw & 0xFF == hdplsr_raw % 256) by (bit_vector);
    hdplsr_raw & HDPL_MASK == HDPL_VALUE_2
}

/// HDPLSR and HDPLCR, offsets in the BSEC block (Secure alias 0x5600_9000).
pub const BSEC_BASE: u32 = 0x5600_9000;
pub const BSEC_HDPLSR_OFFSET: u32 = 0xE94;
pub const BSEC_HDPLCR_OFFSET: u32 = 0xE98;

/// How the level ended up at HDPL2.
#[derive(Clone, Copy, Debug, PartialEq, Eq, Structural)]
pub enum HdplOutcome {
    /// It already was HDPL2; nothing was written.
    AlreadyAt2,
    /// One increment raised it to HDPL2.
    Raised,
}

/// The level did not reach HDPL2 after the increment; the caller must halt.
#[derive(Clone, Copy, Debug, PartialEq, Eq, Structural)]
pub enum HdplError {
    Stuck,
}

/// Status lines of `raise_hdpl_to_2`.
pub const MSG_ALREADY: &'static str = "[UMBRASecureBoot] HDPL already 2\r\n";
pub const MSG_BEFORE: &'static str = "[UMBRASecureBoot] HDPL before=0x";
pub const MSG_AFTER: &'static str = " after=0x";
pub const MSG_EOL: &'static str = "\r\n";
pub const MSG_FAIL: &'static str = "[UMBRASecureBoot] HDPL raise FAIL \u{2014} halt\r\n";
pub const MSG_RAISED: &'static str = "[UMBRASecureBoot] HDPL raised to 2 (DHUK@1 now unrecoverable)\r\n";

/// `w` is what the UART at `base` was sent for `pieces`, one after the
/// other, each whole or cut short where the transmitter timed out.
pub open spec fn sent_pieces(base: u32, w: Seq<(u32, u32)>, pieces: Seq<Seq<u8>>) -> bool
    decreases pieces.len(),
{
    if pieces.len() == 0 {
        w.len() == 0
    } else {
        exists|j: int, k: int|
            #![trigger w.take(j), pieces.last().take(k)]
            0 <= j <= w.len() && 0 <= k <= pieces.last().len() && sent_pieces(base, w.take(j), pieces.drop_last())
                && w.skip(j) == tx_writes(base, pieces.last().take(k))
    }
}

/// The report of a raise from level code `before` to level code `after`:
/// the two codes (low bytes, as eight hex digits), then the verdict line.
pub open spec fn raise_report(before: u32, after: u32) -> Seq<Seq<u8>> {
    seq![
        MSG_BEFORE.spec_bytes(),
        hex32(before & HDPL_MASK),
        MSG_AFTER.spec_bytes(),
        hex32(after & HDPL_MASK),
        MSG_EOL.spec_bytes(),
        if after % 256 == 0x8A {
            MSG_RAISED.spec_bytes()
        } else {
            MSG_FAIL.spec_bytes()
        },
    ]
}

/// Send `bytes` as the next piece of a report; a timeout cuts it short and
/// is otherwise ignored.
fn say<M: MmioAccess>(uart: &mut M, bytes: &[u8], Ghost(l0): Ghost<int>, Ghost(done): Ghost<Seq<Seq<u8>>>)
    requires
        0 <= l0 <= writes_of(old(uart).ops()).len(),
        sent_pieces(old(uart).base(), writes_of(old(uart).ops()).skip(l0), done),
    ensures
        final(uart).base() == old(uart).base(),
        extends(final(uart).ops(), old(uart).ops()),
        l0 <= writes_of(final(uart).ops()).len(),
        writes_of(final(uart).ops()).take(l0) == writes_of(old(uart).ops()).take(l0),
        sent_pieces(old(uart).base(), writes_of(final(uart).ops()).skip(l0), done.push(bytes@)),
{
    let ghost w0 = writes_of(uart.ops());
    let ghost base = uart.base();
    let r = print_bytes(uart, bytes);
    proof {
        let w1 = writes_of(uart.ops());
        let k = if r is Ok {
            bytes@.len() as int
        } else {
            choose|k: int|
                0 <= k <= bytes@.len() && #[trigger] writes_of(uart.ops()) == w0 + tx_writes(base, bytes@.take(k))
        };
        assert(bytes@.take(bytes@.len() as int) =~= bytes@);
        assert(w1 == w0 + tx_writes(base, bytes@.take(k)));
        let d = w1.skip(l0);
        let j = w0.len() - l0;
        let p = done.push(bytes@);
        assert(p.drop_last() =~= done);
        assert(p.last() == bytes@);
        assert(d.take(j) =~= w0.skip(l0));
        assert(d.skip(j) =~= tx_writes(base, bytes@.take(k)));
        assert(w1.take(l0) =~= w0.take(l0));
        assert(sent_pieces(base, d.take(j), p.drop_last()));
    }
}

/// Raise the hide-protection level from HDPL1 to HDPL2 before the hand-off
/// to the Non-Secure world, so the DHUK of HDPL1 can no longer be derived:
/// read HDPLSR; at HDPL2 already, stop; otherwise write the increment code to
/// HDPLCR, barrier, and read HDPLSR again. The levels read and the verdict
/// are reported on the UART (a transmitter timeout only cuts a line short).
pub fn raise_hdpl_to_2<B: MmioAccess, U: MmioAccess>(bsec: &mut B, uart: &mut U) -> (r: Result<
    HdplOutcome,
    HdplError,
>)
    ensures
        final(bsec).base() == old(bsec).base(),
        final(uart).base() == old(uart).base(),
        extends(final(uart).ops(), old(uart).ops()),
        writes_of(old(uart).ops()).len() <= writes_of(final(uart).ops()).len(),
        writes_of(final(uart).ops()).take(writes_of(old(uart).ops()).len() as int) == writes_of(
            old(uart).ops(),
        ),
        ({
            let o = final(bsec).ops();
            let n = old(bsec).ops().len() as int;
            let sr = old(bsec).base().wrapping_add(BSEC_HDPLSR_OFFSET);
            let before = crate::mmio::op_value(o[n]);
            let said = writes_of(final(uart).ops()).skip(writes_of(old(uart).ops()).len() as int);
            &&& o.len() > n
            &&& o.take(n) == old(bsec).ops()
            &&& o[n] == (MmioOp::Read { addr: sr, value: before })
            &&& before % 256 == 0x8A ==> {
                &&& o.len() == n + 1
                &&& r == Ok::<HdplOutcome, HdplError>(HdplOutcome::AlreadyAt2)
                &&& sent_pieces(old(uart).base(), said, seq![MSG_ALREADY.spec_bytes()])
            }
            &&& before % 256 != 0x8A ==> {
                let after = crate::mmio::op_value(o[n + 2]);
                &&& o.len() == n + 3
                &&& o[n + 1] == (MmioOp::Write {
                    addr: old(bsec).base().wrapping_add(BSEC_HDPLCR_OFFSET),
                    value: HDPL_INCREMENT_CODE,
                })
                &&& o[n + 2] == (MmioOp::Read { addr: sr, value: after })
                &&& r == if after % 256 == 0x8A {
                    Ok::<HdplOutcome, HdplError>(HdplOutcome::Raised)
                } else {
                    Err::<HdplOutcome, HdplError>(HdplError::Stuck)
                }
                &&& sent_pieces(old(uart).base(), said, raise_report(before, after))
            }
        }),
{
    let ghost n = bsec.ops().len() as int;
    let ghost l0 = writes_of(uart.ops()).len() as int;
    proof {
        assert(writes_of(uart.ops()).skip(l0) =~= Seq::<(u32, u32)>::empty());
        assert(writes_of(uart.ops()).take(l0) =~= writes_of(uart.ops()));
    }
    let before = bsec.read(BSEC_HDPLSR_OFFSET);
    let ghost o1 = bsec.ops();
    if is_hdpl2(before) {
        say(uart, MSG_ALREADY.as_bytes(), Ghost(l0), Ghost(Seq::empty()));
        proof {
            assert(Seq::<Seq<u8>>::empty().push(MSG_ALREADY.spec_bytes()) =~= seq![MSG_ALREADY.spec_bytes()]);
        }
        assert(bsec.ops().take(n) =~= old(bsec).ops());
        return Ok(HdplOutcome::AlreadyAt2);
    }
    let ghost p0 = Seq::<Seq<u8>>::empty();
    say(uart, MSG_BEFORE.as_bytes(), Ghost(l0), Ghost(p0));
    let hb = hex_digits(before & HDPL_MASK);
    say(uart, hb.as_slice(), Ghost(l0), Ghost(p0.push(MSG_BEFORE.spec_bytes())));
    bsec.write(BSEC_HDPLCR_OFFSET, HDPL_INCREMENT_CODE);
    bsec.barrier();
    let after = bsec.read(BSEC_HDPLSR_OFFSET);
    let ghost p2 = p0.push(MSG_BEFORE.spec_bytes()).push(hex32(before & HDPL_MASK));
    say(uart, MSG_AFTER.as_bytes(), Ghost(l0), Ghost(p2));
    let ha = hex_digits(after & HDPL_MASK);
    say(uart, ha.as_slice(), Ghost(l0), Ghost(p2.push(MSG_AFTER.spec_bytes())));
    let ghost p4 = p2.push(MSG_AFTER.spec_bytes()).push(hex32(after & HDPL_MASK));
    say(uart, MSG_EOL.as_bytes(), Ghost(l0), Ghost(p4));
    let ghost p5 = p4.push(MSG_EOL.spec_bytes());
    proof {
        let o = bsec.ops();
        assert(o.take(n) =~= old(bsec).ops());
        assert(o[n] == o1[n]);
        assert(before & 0xFF == before % 256) by (bit_vector);
        assert(after & 0xFF == after % 256) by (bit_vector);
    }
    if !is_hdpl2(after) {
        say(uart, MSG_FAIL.as_bytes(), Ghost(l0), Ghost(p5));
        proof {
            assert(p5.push(MSG_FAIL.spec_bytes()) =~= raise_report(before, after));
        }
        return Err(HdplError::Stuck);
    }
    say(uart, MSG_RAISED.as_bytes(), Ghost(l0), Ghost(p5));
    proof {
        assert(p5.push(MSG_RAISED.spec_bytes()) =~= raise_report(before, after));
    }
    Ok(HdplOutcome::Raised)
}

/// The current level code (HDPLSR's low byte), for the attestation quote.
pub fn read_hdpl<B: MmioAccess>(bsec: &mut B) -> (code: u8)
    ensures
        final(bsec).base() == old(bsec).base(),
        final(bsec).ops().len() == old(bsec).ops().len() + 1,
        final(bsec).ops().drop_last() == old(bsec).ops(),
        final(bsec).ops().last() == (MmioOp::Read {
            addr: old(bsec).base().wrapping_add(BSEC_HDPLSR_OFFSET),
            value: crate::mmio::op_value(final(bsec).ops().last()),
        }),
        code == crate::mmio::op_value(final(bsec).ops().last()) % 256,
{
    let raw = bsec.read(BSEC_HDPLSR_OFFSET);
    proof {
        assert(bsec.ops().drop_last() =~= old(bsec).ops());
        assert(raw & 0xFF == raw % 256) by (bit_vector);
    }
    (raw & HDPL_MASK) as u8
}

} // verus!
