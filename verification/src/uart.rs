//! USART1 transmit driver.
//!
//! Register offsets: CR1 0x00 (UE bit 0, TE bit 3), BRR 0x0C, ISR 0x1C (TXE
//! bit 7, TC bit 6), TDR 0x28, PRESC 0x2C. The kernel clock of USART1 is
//! 150 MHz once the Boot ROM has set up the PLL.

use crate::mmio::{extends, poll, stalled_on, wr, writes_of, MmioAccess, MmioOp};
use vstd::prelude::*;
use vstd::string::StringSliceAdditionalSpecFns;

verus! {

pub const USART1_BASE_ADDR: u32 = 0x5200_1000;

pub const CR1_OFFSET: u32 = 0x00;
pub const BRR_OFFSET: u32 = 0x0C;
pub const ISR_OFFSET: u32 = 0x1C;
pub const TDR_OFFSET: u32 = 0x28;
pub const PRESC_OFFSET: u32 = 0x2C;

/// ISR: transmit data register empty.
pub const ISR_TXE: u32 = 1 << 7;
/// CR1: USART enable and transmitter enable.
pub const CR1_UE_TE: u32 = (1 << 0) | (1 << 3);

/// USART1 kernel clock in Hz.
pub const USART1_KERNEL_HZ: u32 = 150_000_000;

/// Errors of the UART driver.
#[derive(Clone, Copy, Debug, PartialEq, Eq, Structural)]
pub enum UartError {
    /// Reserved.
    Unreachable,
    /// The transmit register never became empty within the polling budget.
    Timeout,
}

/// `ops`, grown from `n` accesses, ends with the transmitter stuck: a whole
/// polling budget of ISR reads without TXE, or without TC.
pub open spec fn tx_stalled(base: u32, n: int, ops: Seq<MmioOp>) -> bool {
    stalled_on(n, ops, base.wrapping_add(ISR_OFFSET), ISR_TXE) || stalled_on(
        n,
        ops,
        base.wrapping_add(ISR_OFFSET),
        ISR_TC,
    )
}

/// The writes that send `bytes`: each byte, widened, to TDR.
pub open spec fn tx_writes(base: u32, bytes: Seq<u8>) -> Seq<(u32, u32)> {
    Seq::new(bytes.len(), |i: int| (base.wrapping_add(TDR_OFFSET), bytes[i] as u32))
}

/// The accesses that send `bytes` while the status register reads `isr`:
/// for each byte, one read of ISR and the write of the byte to TDR.
pub open spec fn tx_log(base: u32, bytes: Seq<u8>, isr: u32) -> Seq<MmioOp> {
    Seq::new(
        2 * bytes.len(),
        |i: int|
            if i % 2 == 0 {
                MmioOp::Read { addr: base.wrapping_add(ISR_OFFSET), value: isr }
            } else {
                MmioOp::Write { addr: base.wrapping_add(TDR_OFFSET), value: bytes[i / 2] as u32 }
            },
    )
}

/// The configuration writes for `baud`: disable, no prescaler, the baud-rate
/// divisor, enable with the transmitter on.
pub open spec fn config_writes(base: u32, baud: u32) -> Seq<(u32, u32)> {
    seq![
        (base.wrapping_add(CR1_OFFSET), 0u32),
        (base.wrapping_add(PRESC_OFFSET), 0u32),
        (base.wrapping_add(BRR_OFFSET), USART1_KERNEL_HZ / baud),
        (base.wrapping_add(CR1_OFFSET), CR1_UE_TE),
    ]
}

/// Calibration sweep: baud-rate divisors for 115200 baud at a kernel clock
/// of 8 to 600 MHz, each with its clock in MHz as three ASCII digits.
pub const CALIBRATION: [(u32, [u8; 3]); 25] = [
    (69, [0x30, 0x30, 0x38]),
    (139, [0x30, 0x31, 0x36]),
    (208, [0x30, 0x32, 0x34]),
    (278, [0x30, 0x33, 0x32]),
    (347, [0x30, 0x34, 0x30]),
    (417, [0x30, 0x34, 0x38]),
    (486, [0x30, 0x35, 0x36]),
    (556, [0x30, 0x36, 0x34]),
    (625, [0x30, 0x37, 0x32]),
    (694, [0x30, 0x38, 0x30]),
    (764, [0x30, 0x38, 0x38]),
    (834, [0x30, 0x39, 0x36]),
    (1042, [0x31, 0x32, 0x30]),
    (1302, [0x31, 0x35, 0x30]),
    (1389, [0x31, 0x36, 0x30]),
    (1563, [0x31, 0x38, 0x30]),
    (1736, [0x32, 0x30, 0x30]),
    (2170, [0x32, 0x35, 0x30]),
    (2604, [0x33, 0x30, 0x30]),
    (3038, [0x33, 0x35, 0x30]),
    (3472, [0x34, 0x30, 0x30]),
    (3906, [0x34, 0x35, 0x30]),
    (4340, [0x35, 0x30, 0x30]),
    (4774, [0x35, 0x35, 0x30]),
    (5208, [0x36, 0x30, 0x30]),
];

/// `"OK@"`.
pub const CALIB_PREFIX: [u8; 3] = [0x4f, 0x4b, 0x40];

/// `"\r\n"`.
pub const CRLF: [u8; 2] = [0x0d, 0x0a];

/// ISR: transmission complete.
pub const ISR_TC: u32 = 1 << 6;

/// The configuration writes for divisor `brr`.
pub open spec fn brr_writes(base: u32, brr: u32) -> Seq<(u32, u32)> {
    seq![
        (base.wrapping_add(CR1_OFFSET), 0u32),
        (base.wrapping_add(PRESC_OFFSET), 0u32),
        (base.wrapping_add(BRR_OFFSET), brr),
        (base.wrapping_add(CR1_OFFSET), CR1_UE_TE),
    ]
}

/// The writes of one calibration step: configure `brr`, then send
/// `"OK@" label "\r\n"`.
pub open spec fn calib_step_writes(base: u32, brr: u32, label: Seq<u8>) -> Seq<(u32, u32)> {
    brr_writes(base, brr) + tx_writes(base, CALIB_PREFIX@ + label + CRLF@)
}

/// The writes of the first `k` calibration steps.
pub open spec fn calib_writes(base: u32, k: nat) -> Seq<(u32, u32)>
    decreases k,
{
    if k == 0 {
        Seq::empty()
    } else {
        calib_writes(base, (k - 1) as nat) + calib_step_writes(
            base,
            CALIBRATION@[k - 1].0,
            CALIBRATION@[k - 1].1@,
        )
    }
}

/// The writes of `i` steps are a prefix of those of `j >= i` steps.
proof fn lemma_calib_prefix(base: u32, i: nat, j: nat)
    requires
        i <= j,
    ensures
        calib_writes(base, i).is_prefix_of(calib_writes(base, j)),
    decreases j,
{
    if i < j {
        lemma_calib_prefix(base, i, (j - 1) as nat);
        let a = calib_writes(base, i);
        let b = calib_writes(base, (j - 1) as nat);
        let c = calib_writes(base, j);
        assert(c == b + calib_step_writes(base, CALIBRATION@[j - 1].0, CALIBRATION@[j - 1].1@));
        assert forall|t: int| 0 <= t < a.len() implies #[trigger] c[t] == a[t] by {
            assert(b[t] == a[t]);
        }
    }
}

/// USART1 over a register backend.
pub struct Uart<M: MmioAccess> {
    mmio: M,
}

impl<M: MmioAccess> Uart<M> {
    pub closed spec fn backend(&self) -> M {
        self.mmio
    }

    pub open spec fn base(&self) -> u32 {
        self.backend().base()
    }

    pub open spec fn ops(&self) -> Seq<MmioOp> {
        self.backend().ops()
    }

    pub open spec fn writes(&self) -> Seq<(u32, u32)> {
        writes_of(self.ops())
    }

    /// Whether the backend stores what is written (a register model).
    pub open spec fn is_storage(&self) -> bool {
        self.backend().is_storage()
    }

    /// The value the backend holds for the register at `offset`.
    pub open spec fn cell(&self, offset: u32) -> u32 {
        self.backend().cell(offset)
    }

    pub fn new_with_mmio(mmio: M) -> (s: Self)
        ensures
            s.backend() == mmio,
    {
        Self { mmio }
    }

    /// The register backend.
    pub fn mmio(&self) -> (m: &M)
        ensures
            *m == self.backend(),
    {
        &self.mmio
    }

    /// Configure the port for `baud` (8N1, transmitter only) on the 150 MHz
    /// kernel clock: BRR = 150 MHz / baud.
    pub fn configure(&mut self, baud: u32)
        requires
            baud > 0,
        ensures
            final(self).base() == old(self).base(),
            final(self).writes() == old(self).writes() + config_writes(old(self).base(), baud),
            final(self).ops().len() == old(self).ops().len() + 4,
    {
        let brr = USART1_KERNEL_HZ / baud;
        wr(&mut self.mmio, CR1_OFFSET, 0);
        wr(&mut self.mmio, PRESC_OFFSET, 0);
        wr(&mut self.mmio, BRR_OFFSET, brr);
        wr(&mut self.mmio, CR1_OFFSET, CR1_UE_TE);
        assert(self.writes() =~= old(self).writes() + config_writes(old(self).base(), baud));
    }

    /// Wait (bounded) for TXE, then write `byte` to TDR. `false` on a timeout,
    /// with nothing written.
    fn write_byte(&mut self, byte: u8) -> (ok: bool)
        ensures
            final(self).base() == old(self).base(),
            extends(final(self).ops(), old(self).ops()),
            ok ==> final(self).writes() == old(self).writes().push(
                (old(self).base().wrapping_add(TDR_OFFSET), byte as u32),
            ),
            !ok ==> final(self).writes() == old(self).writes(),
            !ok ==> stalled_on(
                old(self).ops().len() as int,
                final(self).ops(),
                old(self).base().wrapping_add(ISR_OFFSET),
                ISR_TXE,
            ),
            final(self).backend().is_storage() == old(self).backend().is_storage(),
            forall|o: u32|
                o != TDR_OFFSET ==> #[trigger] final(self).backend().cell(o) == old(self).backend().cell(o),
            old(self).is_storage() ==> (ok <==> old(self).cell(ISR_OFFSET) & ISR_TXE != 0),
            old(self).is_storage() && ok ==> final(self).ops() == old(self).ops() + tx_log(
                old(self).base(),
                seq![byte],
                old(self).cell(ISR_OFFSET),
            ),
    {
        let ready = poll(&mut self.mmio, ISR_OFFSET, ISR_TXE, true);
        if !ready {
            return false;
        }
        let ghost o1 = self.ops();
        wr(&mut self.mmio, TDR_OFFSET, byte as u32);
        proof {
            if old(self).is_storage() {
                assert(self.ops() =~= old(self).ops() + tx_log(
                    old(self).base(),
                    seq![byte],
                    old(self).cell(ISR_OFFSET),
                )) by {
                    assert(o1[old(self).ops().len() as int] == self.ops()[old(self).ops().len() as int]);
                }
            }
        }
        true
    }

    /// Send `bytes` in order. On a timeout the bytes before the stuck one have
    /// been sent and the rest are not.
    pub fn write_bytes(&mut self, bytes: &[u8]) -> (r: Result<(), UartError>)
        ensures
            r is Err ==> stalled_on(
                old(self).ops().len() as int,
                final(self).ops(),
                old(self).base().wrapping_add(ISR_OFFSET),
                ISR_TXE,
            ),
            final(self).base() == old(self).base(),
            extends(final(self).ops(), old(self).ops()),
            r is Ok ==> final(self).writes() == old(self).writes() + tx_writes(old(self).base(), bytes@),
            r is Err ==> r == Err::<(), UartError>(UartError::Timeout) && exists|k: int|
                0 <= k < bytes@.len() && #[trigger] final(self).writes() == old(self).writes() + tx_writes(
                    old(self).base(),
                    bytes@.take(k),
                ),
            final(self).backend().is_storage() == old(self).backend().is_storage(),
            forall|o: u32|
                o != TDR_OFFSET ==> #[trigger] final(self).backend().cell(o) == old(self).backend().cell(o),
            old(self).is_storage() ==> (r is Ok <==> bytes@.len() == 0 || old(self).cell(ISR_OFFSET)
                & ISR_TXE != 0),
            old(self).is_storage() && r is Ok ==> final(self).ops() == old(self).ops() + tx_log(
                old(self).base(),
                bytes@,
                old(self).cell(ISR_OFFSET),
            ),
    {
        let mut i: usize = 0;
        while i < bytes.len()
            invariant
                i <= bytes@.len(),
                self.base() == old(self).base(),
                extends(self.ops(), old(self).ops()),
                self.ops().len() >= old(self).ops().len(),
                self.writes() == old(self).writes() + tx_writes(old(self).base(), bytes@.take(i as int)),
                self.backend().is_storage() == old(self).backend().is_storage(),
                forall|o: u32|
                    o != TDR_OFFSET ==> #[trigger] self.backend().cell(o) == old(self).backend().cell(o),
                old(self).is_storage() ==> self.ops() == old(self).ops() + tx_log(
                    old(self).base(),
                    bytes@.take(i as int),
                    old(self).cell(ISR_OFFSET),
                ),
                old(self).is_storage() && i > 0 ==> old(self).cell(ISR_OFFSET) & ISR_TXE != 0,
            decreases bytes@.len() - i,
        {
            let ok = self.write_byte(bytes[i]);
            if !ok {
                return Err(UartError::Timeout);
            }
            proof {
                assert(tx_writes(old(self).base(), bytes@.take(i + 1)) =~= tx_writes(
                    old(self).base(),
                    bytes@.take(i as int),
                ).push((old(self).base().wrapping_add(TDR_OFFSET), bytes@[i as int] as u32)));
                let isr = old(self).cell(ISR_OFFSET);
                assert(tx_log(old(self).base(), bytes@.take(i + 1), isr) =~= tx_log(
                    old(self).base(),
                    bytes@.take(i as int),
                    isr,
                ) + tx_log(old(self).base(), seq![bytes@[i as int]], isr));
            }
            i += 1;
        }
        assert(bytes@.take(i as int) =~= bytes@);
        Ok(())
    }

    /// Send the UTF-8 bytes of `s`.
    pub fn write_str(&mut self, s: &str) -> (r: Result<(), UartError>)
        ensures
            r is Err ==> stalled_on(
                old(self).ops().len() as int,
                final(self).ops(),
                old(self).base().wrapping_add(ISR_OFFSET),
                ISR_TXE,
            ),
            final(self).base() == old(self).base(),
            extends(final(self).ops(), old(self).ops()),
            r is Ok ==> final(self).writes() == old(self).writes() + tx_writes(
                old(self).base(),
                s.spec_bytes(),
            ),
            r is Err ==> r == Err::<(), UartError>(UartError::Timeout) && exists|k: int|
                0 <= k < s.spec_bytes().len() && #[trigger] final(self).writes() == old(self).writes()
                    + tx_writes(old(self).base(), s.spec_bytes().take(k)),
            old(self).is_storage() ==> (r is Ok <==> s.spec_bytes().len() == 0 || old(self).cell(
                ISR_OFFSET,
            ) & ISR_TXE != 0),
            old(self).is_storage() && r is Ok ==> final(self).ops() == old(self).ops() + tx_log(
                old(self).base(),
                s.spec_bytes(),
                old(self).cell(ISR_OFFSET),
            ),
    {
        self.write_bytes(s.as_bytes())
    }
    /// Sweep the calibration table: for each divisor, configure the port
    /// with it and send `"OK@" label "\r\n"`, waiting out the transmission;
    /// the line is readable on a terminal at the step that matches the real
    /// kernel clock. The last divisor stays configured. On a timeout the
    /// writes made are a prefix of the full sweep.
    pub fn calibrate_and_configure(&mut self) -> (r: Result<(), UartError>)
        ensures
            final(self).base() == old(self).base(),
            extends(final(self).ops(), old(self).ops()),
            final(self).writes().take(old(self).writes().len() as int) == old(self).writes(),
            r is Ok ==> final(self).writes() == old(self).writes() + calib_writes(old(self).base(), 25),
            r is Err ==> tx_stalled(old(self).base(), old(self).ops().len() as int, final(self).ops()),
            r is Err ==> r == Err::<(), UartError>(UartError::Timeout) && final(self).writes().skip(
                old(self).writes().len() as int,
            ).is_prefix_of(calib_writes(old(self).base(), 25)),
    {
        let ghost w0 = self.writes();
        let ghost base = self.base();
        let mut i: usize = 0;
        while i < 25
            invariant
                i <= 25,
                self.base() == base,
                base == old(self).base(),
                w0 == old(self).writes(),
                extends(self.ops(), old(self).ops()),
                self.ops().len() >= old(self).ops().len(),
                self.writes() == w0 + calib_writes(base, i as nat),
            decreases 25 - i,
        {
            let (brr, label) = CALIBRATION[i];
            let ghost before = self.writes();
            let ghost step = calib_step_writes(base, brr, label@);
            wr(&mut self.mmio, CR1_OFFSET, 0);
            wr(&mut self.mmio, PRESC_OFFSET, 0);
            wr(&mut self.mmio, BRR_OFFSET, brr);
            wr(&mut self.mmio, CR1_OFFSET, CR1_UE_TE);
            assert(self.writes() =~= before + brr_writes(base, brr));
            let mut text = [0u8; 8];
            text[0] = CALIB_PREFIX[0];
            text[1] = CALIB_PREFIX[1];
            text[2] = CALIB_PREFIX[2];
            text[3] = label[0];
            text[4] = label[1];
            text[5] = label[2];
            text[6] = CRLF[0];
            text[7] = CRLF[1];
            assert(text@ =~= CALIB_PREFIX@ + label@ + CRLF@);
            let ghost mid = self.writes();
            let sent = self.write_bytes(text.as_slice());
            let ghost after_text = self.writes();
            let tc = if sent.is_ok() {
                poll(&mut self.mmio, ISR_OFFSET, ISR_TC, true)
            } else {
                false
            };
            proof {
                assert(calib_writes(base, (i + 1) as nat) == calib_writes(base, i as nat) + step);
                lemma_calib_prefix(base, (i + 1) as nat, 25);
                if sent.is_ok() {
                    assert(self.writes() == mid + tx_writes(base, text@));
                    assert(self.writes() =~= w0 + calib_writes(base, (i + 1) as nat));
                } else {
                    let k = choose|k: int|
                        0 <= k < text@.len() && after_text == mid + tx_writes(base, #[trigger] text@.take(k));
                    let part = brr_writes(base, brr) + tx_writes(base, text@.take(k));
                    assert(self.writes().skip(w0.len() as int) =~= calib_writes(base, i as nat) + part);
                    assert((calib_writes(base, i as nat) + part).is_prefix_of(
                        calib_writes(base, (i + 1) as nat),
                    )) by {
                        let full = calib_writes(base, (i + 1) as nat);
                        let p = calib_writes(base, i as nat) + part;
                        assert forall|t: int| 0 <= t < p.len() implies #[trigger] full[t] == p[t] by {
                            let c = calib_writes(base, i as nat).len();
                            if t >= c + 4 {
                                assert(tx_writes(base, text@.take(k))[t - c - 4] == tx_writes(base, text@)[t - c - 4]);
                            }
                        }
                    }
                }
                assert(self.writes().take(w0.len() as int) =~= w0);
            }
            if sent.is_err() {
                return Err(UartError::Timeout);
            }
            if !tc {
                proof {
                    assert(self.writes().skip(w0.len() as int) =~= calib_writes(base, (i + 1) as nat));
                }
                return Err(UartError::Timeout);
            }
            i += 1;
        }
        assert(self.writes().take(w0.len() as int) =~= w0);
        Ok(())
    }
}

} // verus!
